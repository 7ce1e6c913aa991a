//! Text as sequences of characters: what the rest of the library builds its names, messages and
//! files from.

use vstd::prelude::*;

pub mod lines;
pub mod reading;
use vstd::string::*;

verus! {

/// `String::push`: the character is appended, and nothing else changes.
pub assume_specification[ String::push ](s: &mut String, c: char)
    ensures
        final(s)@ == old(s)@.push(c),
;

/// The text in an optional string.
pub open spec fn opt_string(s: Option<String>) -> Option<Seq<char>> {
    match s {
        Some(t) => Some(t@),
        None => None,
    }
}

/// The characters of `s`, in order.
pub fn chars_of(s: &str) -> (r: Vec<char>)
    ensures
        r@ == s@,
{
    let mut v: Vec<char> = Vec::new();
    for c in it: s.chars()
        invariant
            v@ == it.seq().take(it.index()),
            it.seq() == s@,
    {
        v.push(c);
    }
    v
}

/// The text of the characters from `from` up to, not including, `to`.
pub fn text_of(v: &Vec<char>, from: usize, to: usize) -> (r: String)
    requires
        from <= to <= v@.len(),
    ensures
        r@ == v@.subrange(from as int, to as int),
{
    let mut s = String::new();
    let mut i: usize = from;
    while i < to
        invariant
            from <= i <= to <= v@.len(),
            s@ == v@.subrange(from as int, i as int),
        decreases to - i,
    {
        s.push(v[i]);
        i = i + 1;
        assert(v@.subrange(from as int, i as int) =~= v@.subrange(from as int, i - 1).push(
            v@[i - 1],
        ));
    }
    s
}

/// Are these the same characters?
pub fn str_eq(a: &str, b: &str) -> (r: bool)
    ensures
        r == (a@ == b@),
{
    let x = a.as_bytes();
    let y = b.as_bytes();
    proof {
        vstd::utf8::encode_utf8_decode_utf8(a@);
        vstd::utf8::encode_utf8_decode_utf8(b@);
    }
    if x.len() != y.len() {
        return false;
    }
    let mut i: usize = 0;
    while i < x.len()
        invariant
            i <= x@.len() == y@.len(),
            x@ == vstd::utf8::encode_utf8(a@),
            y@ == vstd::utf8::encode_utf8(b@),
            forall|j: int| 0 <= j < i ==> x@[j] == y@[j],
        decreases x@.len() - i,
    {
        if x[i] != y[i] {
            assert(a@ != b@);
            return false;
        }
        i = i + 1;
    }
    assert(x@ =~= y@);
    true
}

pub fn cat2(a: &str, b: &str) -> (r: String)
    ensures
        r@ == a@ + b@,
{
    let mut s = a.to_owned();
    s.append(b);
    s
}

pub fn cat3(a: &str, b: &str, c: &str) -> (r: String)
    ensures
        r@ == a@ + b@ + c@,
{
    let mut s = a.to_owned();
    s.append(b);
    s.append(c);
    s
}

pub fn cat4(a: &str, b: &str, c: &str, d: &str) -> (r: String)
    ensures
        r@ == a@ + b@ + c@ + d@,
{
    let mut s = a.to_owned();
    s.append(b);
    s.append(c);
    s.append(d);
    s
}

pub fn cat5(a: &str, b: &str, c: &str, d: &str, e: &str) -> (r: String)
    ensures
        r@ == a@ + b@ + c@ + d@ + e@,
{
    let mut s = a.to_owned();
    s.append(b);
    s.append(c);
    s.append(d);
    s.append(e);
    s
}

pub fn cat6(a: &str, b: &str, c: &str, d: &str, e: &str, f: &str) -> (r: String)
    ensures
        r@ == a@ + b@ + c@ + d@ + e@ + f@,
{
    let mut s = a.to_owned();
    s.append(b);
    s.append(c);
    s.append(d);
    s.append(e);
    s.append(f);
    s
}

pub fn cat7(a: &str, b: &str, c: &str, d: &str, e: &str, f: &str, g: &str) -> (r: String)
    ensures
        r@ == a@ + b@ + c@ + d@ + e@ + f@ + g@,
{
    let mut s = a.to_owned();
    s.append(b);
    s.append(c);
    s.append(d);
    s.append(e);
    s.append(f);
    s.append(g);
    s
}

pub fn cat8(a: &str, b: &str, c: &str, d: &str, e: &str, f: &str, g: &str, h: &str) -> (r: String)
    ensures
        r@ == a@ + b@ + c@ + d@ + e@ + f@ + g@ + h@,
{
    let mut s = a.to_owned();
    s.append(b);
    s.append(c);
    s.append(d);
    s.append(e);
    s.append(f);
    s.append(g);
    s.append(h);
    s
}

pub fn cat9(
    a: &str,
    b: &str,
    c: &str,
    d: &str,
    e: &str,
    f: &str,
    g: &str,
    h: &str,
    i: &str,
) -> (r: String)
    ensures
        r@ == a@ + b@ + c@ + d@ + e@ + f@ + g@ + h@ + i@,
{
    let mut s = a.to_owned();
    s.append(b);
    s.append(c);
    s.append(d);
    s.append(e);
    s.append(f);
    s.append(g);
    s.append(h);
    s.append(i);
    s
}

pub fn cat10(
    a: &str,
    b: &str,
    c: &str,
    d: &str,
    e: &str,
    f: &str,
    g: &str,
    h: &str,
    i: &str,
    j: &str,
) -> (r: String)
    ensures
        r@ == a@ + b@ + c@ + d@ + e@ + f@ + g@ + h@ + i@ + j@,
{
    let mut s = a.to_owned();
    s.append(b);
    s.append(c);
    s.append(d);
    s.append(e);
    s.append(f);
    s.append(g);
    s.append(h);
    s.append(i);
    s.append(j);
    s
}

pub fn cat12(
    a: &str,
    b: &str,
    c: &str,
    d: &str,
    e: &str,
    f: &str,
    g: &str,
    h: &str,
    i: &str,
    j: &str,
    k: &str,
    l: &str,
) -> (r: String)
    ensures
        r@ == a@ + b@ + c@ + d@ + e@ + f@ + g@ + h@ + i@ + j@ + k@ + l@,
{
    let mut s = a.to_owned();
    s.append(b);
    s.append(c);
    s.append(d);
    s.append(e);
    s.append(f);
    s.append(g);
    s.append(h);
    s.append(i);
    s.append(j);
    s.append(k);
    s.append(l);
    s
}

// ---- decimal numbers ----

pub open spec fn digit(d: nat) -> char {
    (48 + d) as char
}

pub open spec fn is_digit(c: char) -> bool {
    '0' <= c <= '9'
}

pub open spec fn digit_value(c: char) -> nat {
    (c as nat - 48) as nat
}

/// `n` in decimal, without leading zeros.
pub open spec fn dec(n: nat) -> Seq<char>
    decreases n,
{
    if n < 10 {
        seq![digit(n)]
    } else {
        dec(n / 10).push(digit(n % 10))
    }
}

pub open spec fn all_digits(s: Seq<char>) -> bool {
    forall|i: int| 0 <= i < s.len() ==> is_digit(#[trigger] s[i])
}

/// The number that the digits of `s` spell.
pub open spec fn dec_value(s: Seq<char>) -> nat
    decreases s.len(),
{
    if s.len() == 0 {
        0
    } else {
        dec_value(s.drop_last()) * 10 + digit_value(s.last())
    }
}

/// The digits of a number spell that number, and only zero starts with a zero.
pub proof fn lemma_dec(n: nat)
    ensures
        dec(n).len() > 0,
        all_digits(dec(n)),
        dec_value(dec(n)) == n,
        dec(n)[0] == '0' ==> n == 0,
    decreases n,
{
    let s = dec(n);
    if n < 10 {
        assert(s.drop_last() =~= Seq::<char>::empty());
        assert(dec_value(s.drop_last()) == 0);
    } else {
        lemma_dec(n / 10);
        assert(s.drop_last() =~= dec(n / 10));
    }
}

/// A number below ten to the power of `k` has at most `k` digits.
pub proof fn lemma_dec_len(n: nat)
    ensures
        n < 10 ==> dec(n).len() == 1,
        10 <= n < 100 ==> dec(n).len() == 2,
        100 <= n < 1000 ==> dec(n).len() == 3,
{
    reveal_with_fuel(dec, 4);
}

/// Cutting digits off the end never makes the number larger.
pub proof fn lemma_dec_value_prefix(s: Seq<char>, k: int)
    requires
        0 <= k <= s.len(),
    ensures
        dec_value(s.take(k)) <= dec_value(s),
    decreases s.len(),
{
    if k == s.len() {
        assert(s.take(k) =~= s);
    } else {
        lemma_dec_value_prefix(s.drop_last(), k);
        assert(s.drop_last().take(k) =~= s.take(k));
    }
}

pub fn dec_u64(n: u64) -> (r: String)
    ensures
        r@ == dec(n as nat),
    decreases n,
{
    let mut s = String::new();
    if n >= 10 {
        s = dec_u64(n / 10);
    }
    let d: u8 = (n % 10) as u8;
    s.push((48 + d) as char);
    proof {
        if n < 10 {
            assert(s@ =~= dec(n as nat));
        }
    }
    s
}

/// The digits behind one optional plus sign.
pub open spec fn unsigned_body(s: Seq<char>) -> Seq<char> {
    if s.len() > 0 && s[0] == '+' {
        s.subrange(1, s.len() as int)
    } else {
        s
    }
}

/// The number that `s` is the decimal spelling of, if it is one that does not exceed `max`.
pub open spec fn parse_uint(s: Seq<char>, max: nat) -> Option<nat> {
    let b = unsigned_body(s);
    if b.len() > 0 && all_digits(b) && dec_value(b) <= max {
        Some(dec_value(b))
    } else {
        None
    }
}

/// What a number is printed as reads back as that number.
pub proof fn lemma_parse_dec(n: nat, max: nat)
    requires
        n <= max,
    ensures
        parse_uint(dec(n), max) == Some(n),
{
    lemma_dec(n);
}

pub fn parse_u64(s: &str, max: u64) -> (r: Option<u64>)
    ensures
        match r {
            Some(v) => parse_uint(s@, max as nat) == Some(v as nat),
            None => parse_uint(s@, max as nat) is None,
        },
{
    let v = chars_of(s);
    let start: usize = if v.len() > 0 && v[0] == '+' {
        1
    } else {
        0
    };
    let ghost b = unsigned_body(s@);
    assert(b =~= v@.subrange(start as int, v@.len() as int));
    if start >= v.len() {
        return None;
    }
    let mut n: u64 = 0;
    let mut i: usize = start;
    while i < v.len()
        invariant
            start <= i <= v@.len(),
            b == v@.subrange(start as int, v@.len() as int),
            b == unsigned_body(s@),
            n as nat == dec_value(b.take(i - start)),
            n <= max,
            forall|j: int| 0 <= j < i - start ==> is_digit(b[j]),
        decreases v@.len() - i,
    {
        let c = v[i];
        assert(b[i - start] == c);
        if !(c >= '0' && c <= '9') {
            return None;
        }
        let d: u64 = (c as u32 - 48) as u64;
        let next: u128 = n as u128 * 10 + d as u128;
        proof {
            assert(b.take(i - start + 1).drop_last() =~= b.take(i - start));
            assert(next as nat == dec_value(b.take(i - start + 1)));
            lemma_dec_value_prefix(b, i - start + 1);
        }
        if next > max as u128 {
            return None;
        }
        n = next as u64;
        i = i + 1;
    }
    assert(b.take(i - start) =~= b);
    Some(n)
}

// ---- searching ----

/// The first position at or behind `i` that holds `c`, or the length.
pub open spec fn find(s: Seq<char>, c: char, i: int) -> int
    decreases s.len() - i,
{
    if i >= s.len() {
        s.len() as int
    } else if s[i] == c {
        i
    } else {
        find(s, c, i + 1)
    }
}

/// `find` names the first such position.
pub proof fn lemma_find(s: Seq<char>, c: char, i: int)
    requires
        0 <= i <= s.len(),
    ensures
        i <= find(s, c, i) <= s.len(),
        find(s, c, i) < s.len() ==> s[find(s, c, i)] == c,
        forall|j: int| i <= j < find(s, c, i) ==> s[j] != c,
    decreases s.len() - i,
{
    if i < s.len() && s[i] != c {
        lemma_find(s, c, i + 1);
    }
}

pub fn find_char(v: &Vec<char>, c: char, from: usize) -> (r: usize)
    requires
        from <= v@.len(),
    ensures
        r as int == find(v@, c, from as int),
        from <= r <= v@.len(),
{
    let mut i: usize = from;
    while i < v.len()
        invariant
            from <= i <= v@.len(),
            find(v@, c, from as int) == find(v@, c, i as int),
        decreases v@.len() - i,
    {
        if v[i] == c {
            return i;
        }
        i = i + 1;
    }
    i
}

/// What stands before and behind the first `c`, if there is one.
pub open spec fn split_once(s: Seq<char>, c: char) -> Option<(Seq<char>, Seq<char>)> {
    let k = find(s, c, 0);
    if k < s.len() {
        Some((s.subrange(0, k), s.subrange(k + 1, s.len() as int)))
    } else {
        None
    }
}

pub fn split_at_first(s: &str, c: char) -> (r: Option<(String, String)>)
    ensures
        match r {
            Some(p) => split_once(s@, c) == Some((p.0@, p.1@)),
            None => split_once(s@, c) is None,
        },
{
    let v = chars_of(s);
    let k = find_char(&v, c, 0);
    if k < v.len() {
        Some((text_of(&v, 0, k), text_of(&v, k + 1, v.len())))
    } else {
        None
    }
}

// ---- lists of texts ----

/// The texts of a list of strings.
pub open spec fn texts(v: Seq<String>) -> Seq<Seq<char>> {
    Seq::new(v.len(), |i: int| v[i]@)
}

pub broadcast proof fn lemma_texts_push(v: Seq<String>, s: String)
    ensures
        #[trigger] texts(v.push(s)) == texts(v).push(s@),
{
    assert(texts(v.push(s)) =~= texts(v).push(s@));
}

/// The pieces of `s` from `i` on, cut at every `c`: one piece more than there are cuts.
pub open spec fn split_from(s: Seq<char>, c: char, i: int) -> Seq<Seq<char>>
    decreases s.len() - i,
    when 0 <= i <= s.len()
{
    let k = find(s, c, i);
    if i <= k < s.len() {
        seq![s.subrange(i, k)] + split_from(s, c, k + 1)
    } else {
        seq![s.subrange(i, s.len() as int)]
    }
}

pub open spec fn split(s: Seq<char>, c: char) -> Seq<Seq<char>> {
    split_from(s, c, 0)
}

pub fn split_on(s: &str, c: char) -> (r: Vec<String>)
    ensures
        texts(r@) == split(s@, c),
{
    broadcast use lemma_texts_push;

    let v = chars_of(s);
    let mut out: Vec<String> = Vec::new();
    let mut i: usize = 0;
    let ghost whole = split(s@, c);
    assert(texts(out@) + split_from(v@, c, 0) =~= whole);
    loop
        invariant
            v@ == s@,
            i <= v@.len(),
            whole == split(s@, c),
            texts(out@) + split_from(v@, c, i as int) == whole,
        decreases v@.len() - i,
    {
        let k = find_char(&v, c, i);
        let ghost before = texts(out@);
        out.push(text_of(&v, i, k));
        if k >= v.len() {
            assert(texts(out@) =~= before + split_from(v@, c, i as int));
            return out;
        }
        assert(texts(out@) + split_from(v@, c, k + 1) =~= before + split_from(v@, c, i as int));
        i = k + 1;
    }
}

/// The parts in order, with `sep` between each two.
pub open spec fn join(parts: Seq<Seq<char>>, sep: Seq<char>) -> Seq<char>
    decreases parts.len(),
{
    if parts.len() == 0 {
        seq![]
    } else if parts.len() == 1 {
        parts[0]
    } else {
        join(parts.drop_last(), sep) + sep + parts.last()
    }
}

pub fn join_texts(parts: &Vec<String>, sep: &str) -> (r: String)
    ensures
        r@ == join(texts(parts@), sep@),
{
    let mut s = String::new();
    let mut i: usize = 0;
    let ghost p = texts(parts@);
    assert(p.take(0) =~= seq![]);
    while i < parts.len()
        invariant
            i <= parts@.len(),
            p == texts(parts@),
            s@ == join(p.take(i as int), sep@),
        decreases parts@.len() - i,
    {
        proof {
            assert(p.take(i + 1).drop_last() =~= p.take(i as int));
            if i == 0 {
                assert(s@ + parts@[0]@ =~= parts@[0]@);
            }
        }
        if i > 0 {
            s.append(sep);
        }
        s.append(parts[i].as_str());
        i = i + 1;
    }
    assert(p.take(i as int) =~= p);
    s
}

/// Is there an earlier item with the same text as item `i`?
pub open spec fn repeats(items: Seq<Seq<char>>, i: int) -> bool {
    exists|j: int| 0 <= j < i && #[trigger] items[j] == items[i]
}

/// The first item from `i` on that repeats an earlier one.
pub open spec fn dup_from(items: Seq<Seq<char>>, i: int) -> Option<Seq<char>>
    decreases items.len() - i,
{
    if i >= items.len() {
        None
    } else if repeats(items, i) {
        Some(items[i])
    } else {
        dup_from(items, i + 1)
    }
}

/// The first item that repeats an earlier one.
pub open spec fn dup(items: Seq<Seq<char>>) -> Option<Seq<char>> {
    dup_from(items, 0)
}

/// Nothing is a repeat exactly where all items differ.
pub proof fn lemma_dup_from(items: Seq<Seq<char>>, i: int)
    requires
        0 <= i,
    ensures
        dup_from(items, i) is None <==> (forall|j: int| i <= j < items.len() ==> !repeats(items, j)),
    decreases items.len() - i,
{
    if i < items.len() {
        lemma_dup_from(items, i + 1);
    }
}

/// Does any of the first `n` items have this text?
pub fn has_text(items: &Vec<String>, n: usize, s: &str) -> (r: bool)
    requires
        n <= items@.len(),
    ensures
        r == exists|j: int| 0 <= j < n && #[trigger] texts(items@)[j] == s@,
{
    let mut i: usize = 0;
    while i < n
        invariant
            i <= n <= items@.len(),
            forall|j: int| 0 <= j < i ==> #[trigger] texts(items@)[j] != s@,
        decreases n - i,
    {
        if str_eq(items[i].as_str(), s) {
            assert(texts(items@)[i as int] == s@);
            return true;
        }
        i = i + 1;
    }
    false
}

pub fn first_dup(items: &Vec<String>) -> (r: Option<String>)
    ensures
        match r {
            Some(s) => dup(texts(items@)) == Some(s@),
            None => dup(texts(items@)) is None,
        },
{
    let mut i: usize = 0;
    while i < items.len()
        invariant
            i <= items@.len(),
            dup(texts(items@)) == dup_from(texts(items@), i as int),
        decreases items@.len() - i,
    {
        if has_text(items, i, items[i].as_str()) {
            assert(repeats(texts(items@), i as int));
            return Some(items[i].clone());
        }
        assert(!repeats(texts(items@), i as int));
        i = i + 1;
    }
    None
}

// ---- white space ----

/// The characters of Unicode's White_Space property.
pub open spec fn is_space(c: char) -> bool {
    let n = c as u32;
    ||| 0x9 <= n <= 0xd
    ||| n == 0x20
    ||| n == 0x85
    ||| n == 0xa0
    ||| n == 0x1680
    ||| 0x2000 <= n <= 0x200a
    ||| n == 0x2028
    ||| n == 0x2029
    ||| n == 0x202f
    ||| n == 0x205f
    ||| n == 0x3000
}

pub fn is_space_char(c: char) -> (r: bool)
    ensures
        r == is_space(c),
{
    let n: u32 = c as u32;
    (n >= 0x9 && n <= 0xd) || n == 0x20 || n == 0x85 || n == 0xa0 || n == 0x1680 || (n >= 0x2000 && n
        <= 0x200a) || n == 0x2028 || n == 0x2029 || n == 0x202f || n == 0x205f || n == 0x3000
}

/// The first position from `i` on that holds no white space, or the length.
pub open spec fn skip_space(s: Seq<char>, i: int) -> int
    decreases s.len() - i,
{
    if i >= s.len() {
        s.len() as int
    } else if is_space(s[i]) {
        skip_space(s, i + 1)
    } else {
        i
    }
}

/// The end of `s` without the white space that stands directly before `j`, but not below `a`.
pub open spec fn back_space(s: Seq<char>, a: int, j: int) -> int
    decreases j - a,
{
    if j <= a {
        a
    } else if is_space(s[j - 1]) {
        back_space(s, a, j - 1)
    } else {
        j
    }
}

/// `s` without the white space at either end.
pub open spec fn trim(s: Seq<char>) -> Seq<char> {
    let a = skip_space(s, 0);
    s.subrange(a, back_space(s, a, s.len() as int))
}

pub fn skip_spaces(v: &Vec<char>, from: usize) -> (r: usize)
    requires
        from <= v@.len(),
    ensures
        r as int == skip_space(v@, from as int),
        from <= r <= v@.len(),
{
    let mut i: usize = from;
    while i < v.len()
        invariant
            from <= i <= v@.len(),
            skip_space(v@, from as int) == skip_space(v@, i as int),
        decreases v@.len() - i,
    {
        if !is_space_char(v[i]) {
            return i;
        }
        i = i + 1;
    }
    i
}

pub fn trimmed(s: &str) -> (r: String)
    ensures
        r@ == trim(s@),
{
    let v = chars_of(s);
    let a = skip_spaces(&v, 0);
    let mut j: usize = v.len();
    while j > a && is_space_char(v[j - 1])
        invariant
            a <= j <= v@.len(),
            back_space(v@, a as int, v@.len() as int) == back_space(v@, a as int, j as int),
        decreases j,
    {
        j = j - 1;
    }
    text_of(&v, a, j)
}

/// `n` in decimal, with its sign where it is negative.
pub open spec fn dec_int(n: int) -> Seq<char> {
    if n < 0 {
        "-"@ + dec((-n) as nat)
    } else {
        dec(n as nat)
    }
}

pub fn dec_i64(n: i64) -> (r: String)
    ensures
        r@ == dec_int(n as int),
{
    if n < 0 {
        let m: u64 = (-(n as i128)) as u64;
        cat2("-", dec_u64(m).as_str())
    } else {
        dec_u64(n as u64)
    }
}

// ---- bytes ----

/// How many bytes a character takes in UTF-8.
pub open spec fn char_len(c: char) -> nat {
    let n = c as u32;
    if n <= 0x7f {
        1
    } else if n <= 0x7ff {
        2
    } else if n <= 0xffff {
        3
    } else {
        4
    }
}

/// How many bytes a text takes in UTF-8.
pub open spec fn byte_len(s: Seq<char>) -> nat
    decreases s.len(),
{
    if s.len() == 0 {
        0
    } else {
        byte_len(s.drop_last()) + char_len(s.last())
    }
}

proof fn lemma_byte_len_first(s: Seq<char>)
    requires
        s.len() > 0,
    ensures
        byte_len(s) == char_len(s[0]) + byte_len(s.drop_first()),
    decreases s.len(),
{
    if s.len() > 1 {
        lemma_byte_len_first(s.drop_last());
        assert(s.drop_last().drop_first() =~= s.drop_first().drop_last());
    } else {
        assert(s.drop_first() =~= s.drop_last());
    }
}

/// `byte_len` is the length of the UTF-8 encoding.
pub proof fn lemma_byte_len(s: Seq<char>)
    ensures
        vstd::utf8::encode_utf8(s).len() == byte_len(s),
    decreases s.len(),
{
    if s.len() > 0 {
        lemma_byte_len_first(s);
        lemma_byte_len(s.drop_first());
        vstd::utf8::char_is_scalar(s[0]);
        assert(vstd::utf8::encode_scalar(s[0] as u32).len() == char_len(s[0]));
    }
}

pub proof fn lemma_byte_len_concat(a: Seq<char>, b: Seq<char>)
    ensures
        byte_len(a + b) == byte_len(a) + byte_len(b),
    decreases b.len(),
{
    if b.len() == 0 {
        assert(a + b =~= a);
    } else {
        lemma_byte_len_concat(a, b.drop_last());
        assert((a + b).drop_last() =~= a + b.drop_last());
    }
}

pub fn bytes_in(s: &str) -> (r: usize)
    ensures
        r as nat == byte_len(s@),
{
    proof {
        lemma_byte_len(s@);
    }
    s.as_bytes().len()
}

pub fn bytes_of_char(c: char) -> (r: usize)
    ensures
        r as nat == char_len(c),
{
    let n: u32 = c as u32;
    if n <= 0x7f {
        1
    } else if n <= 0x7ff {
        2
    } else if n <= 0xffff {
        3
    } else {
        4
    }
}

/// How many characters of `s`, from `i` on, fit in `room` bytes.
pub open spec fn fit_from(s: Seq<char>, i: int, room: int) -> int
    decreases s.len() - i,
{
    if i >= s.len() || char_len(s[i]) > room {
        i
    } else {
        fit_from(s, i + 1, room - char_len(s[i]))
    }
}

/// The longest start of `s` that fits in `room` bytes.
pub open spec fn fit(s: Seq<char>, room: int) -> Seq<char> {
    s.take(fit_from(s, 0, room))
}

proof fn lemma_fit_from(s: Seq<char>, i: int, room: int)
    requires
        0 <= i <= s.len(),
        0 <= room,
    ensures
        i <= fit_from(s, i, room) <= s.len(),
        byte_len(s.subrange(i, fit_from(s, i, room))) <= room,
        fit_from(s, i, room) < s.len() ==> byte_len(s.subrange(i, fit_from(s, i, room) + 1)) > room,
    decreases s.len() - i,
{
    let k = fit_from(s, i, room);
    if i < s.len() && char_len(s[i]) <= room {
        lemma_fit_from(s, i + 1, room - char_len(s[i]));
        lemma_byte_len_first(s.subrange(i, k));
        assert(s.subrange(i, k).drop_first() =~= s.subrange(i + 1, k));
        if k < s.len() {
            lemma_byte_len_first(s.subrange(i, k + 1));
            assert(s.subrange(i, k + 1).drop_first() =~= s.subrange(i + 1, k + 1));
        }
    } else if i < s.len() {
        lemma_byte_len_first(s.subrange(i, i + 1));
        assert(s.subrange(i, i + 1).drop_first() =~= seq![]);
    }
}

/// What `fit` keeps fits, and one character more would not.
pub proof fn lemma_fit(s: Seq<char>, room: int)
    requires
        0 <= room,
    ensures
        0 <= fit_from(s, 0, room) <= s.len(),
        byte_len(fit(s, room)) <= room,
        fit_from(s, 0, room) < s.len() ==> byte_len(s.take(fit_from(s, 0, room) + 1)) > room,
{
    lemma_fit_from(s, 0, room);
    let k = fit_from(s, 0, room);
    assert(s.take(k) =~= s.subrange(0, k));
    if k < s.len() {
        assert(s.take(k + 1) =~= s.subrange(0, k + 1));
    }
}

pub fn fitted(s: &str, room: usize) -> (r: String)
    ensures
        r@ == fit(s@, room as int),
{
    let v = chars_of(s);
    let mut i: usize = 0;
    let mut left: usize = room;
    while i < v.len()
        invariant
            v@ == s@,
            i <= v@.len(),
            fit_from(s@, 0, room as int) == fit_from(s@, i as int, left as int),
        decreases v@.len() - i,
    {
        let w = bytes_of_char(v[i]);
        if w > left {
            return text_of(&v, 0, i);
        }
        left = left - w;
        i = i + 1;
    }
    text_of(&v, 0, i)
}

/// The last position before `j` that holds `c`, or -1.
pub open spec fn rfind(s: Seq<char>, c: char, j: int) -> int
    decreases j,
{
    if j <= 0 {
        -1
    } else if s[j - 1] == c {
        j - 1
    } else {
        rfind(s, c, j - 1)
    }
}

/// What stands before and behind the last `c`, if there is one.
pub open spec fn rsplit_once(s: Seq<char>, c: char) -> Option<(Seq<char>, Seq<char>)> {
    let k = rfind(s, c, s.len() as int);
    if k >= 0 {
        Some((s.subrange(0, k), s.subrange(k + 1, s.len() as int)))
    } else {
        None
    }
}

pub fn split_at_last(s: &str, c: char) -> (r: Option<(String, String)>)
    ensures
        match r {
            Some(p) => rsplit_once(s@, c) == Some((p.0@, p.1@)),
            None => rsplit_once(s@, c) is None,
        },
{
    let v = chars_of(s);
    let mut j: usize = v.len();
    while j > 0
        invariant
            v@ == s@,
            j <= v@.len(),
            rfind(s@, c, s@.len() as int) == rfind(s@, c, j as int),
        decreases j,
    {
        if v[j - 1] == c {
            return Some((text_of(&v, 0, j - 1), text_of(&v, j, v.len())));
        }
        j = j - 1;
    }
    None
}

/// A copy of a list of strings.
pub fn copy_texts(v: &Vec<String>) -> (r: Vec<String>)
    ensures
        texts(r@) == texts(v@),
{
    let mut out: Vec<String> = Vec::new();
    let mut i: usize = 0;
    while i < v.len()
        invariant
            i <= v@.len(),
            out@.len() == i,
            forall|j: int| 0 <= j < i ==> (#[trigger] out@[j])@ == v@[j]@,
        decreases v@.len() - i,
    {
        out.push(v[i].clone());
        i = i + 1;
    }
    assert(texts(out@) =~= texts(v@));
    out
}

} // verus!
