//! Lines, words and prefixes of a text.

use vstd::prelude::*;

use crate::text::{
    chars_of, find, find_char, is_space, is_space_char, join, lemma_find, lemma_texts_push,
    skip_space, skip_spaces, split, split_from, text_of, texts,
};

verus! {

/// A line without the carriage return that ends it.
pub open spec fn chomp(s: Seq<char>) -> Seq<char> {
    if s.len() > 0 && s.last() == '\r' {
        s.drop_last()
    } else {
        s
    }
}

/// The lines of `s` from `i` on. The last one needs no line feed, and what stands behind the last
/// line feed is a line only where it is not empty.
pub open spec fn lines_from(s: Seq<char>, i: int) -> Seq<Seq<char>>
    decreases s.len() - i,
    when 0 <= i <= s.len()
{
    let k = find(s, '\n', i);
    if i >= s.len() {
        seq![]
    } else if i <= k < s.len() {
        seq![chomp(s.subrange(i, k))] + lines_from(s, k + 1)
    } else {
        seq![s.subrange(i, s.len() as int)]
    }
}

pub open spec fn lines(s: Seq<char>) -> Seq<Seq<char>> {
    lines_from(s, 0)
}

pub fn lines_of(s: &str) -> (r: Vec<String>)
    ensures
        texts(r@) == lines(s@),
{
    broadcast use lemma_texts_push;

    let v = chars_of(s);
    let mut out: Vec<String> = Vec::new();
    let mut i: usize = 0;
    let ghost whole = lines(s@);
    assert(texts(out@) + lines_from(v@, 0) =~= whole);
    while i < v.len()
        invariant
            v@ == s@,
            i <= v@.len(),
            whole == lines(s@),
            texts(out@) + lines_from(v@, i as int) == whole,
        decreases v@.len() - i,
    {
        let k = find_char(&v, '\n', i);
        let ghost before = texts(out@);
        proof {
            lemma_find(v@, '\n', i as int);
        }
        if k < v.len() {
            let e: usize = if k > i && v[k - 1] == '\r' {
                k - 1
            } else {
                k
            };
            out.push(text_of(&v, i, e));
            proof {
                let line = v@.subrange(i as int, k as int);
                assert(v@.subrange(i as int, e as int) =~= chomp(line));
                assert(texts(out@) + lines_from(v@, k + 1) =~= before + lines_from(v@, i as int));
            }
            i = k + 1;
        } else {
            out.push(text_of(&v, i, k));
            assert(texts(out@) + lines_from(v@, v@.len() as int) =~= before + lines_from(
                v@,
                i as int,
            ));
            i = v.len();
        }
    }
    assert(texts(out@) =~= whole);
    out
}

/// Where the word that `i` is in ends.
pub open spec fn word_end(s: Seq<char>, i: int) -> int
    decreases s.len() - i,
{
    if i >= s.len() {
        s.len() as int
    } else if is_space(s[i]) {
        i
    } else {
        word_end(s, i + 1)
    }
}

proof fn lemma_word_end(s: Seq<char>, i: int)
    requires
        0 <= i <= s.len(),
    ensures
        i <= word_end(s, i) <= s.len(),
        i < s.len() && !is_space(s[i]) ==> i < word_end(s, i),
    decreases s.len() - i,
{
    if i < s.len() && !is_space(s[i]) {
        lemma_word_end(s, i + 1);
    }
}

proof fn lemma_skip_space(s: Seq<char>, i: int)
    requires
        0 <= i <= s.len(),
    ensures
        i <= skip_space(s, i) <= s.len(),
        skip_space(s, i) < s.len() ==> !is_space(s[skip_space(s, i)]),
    decreases s.len() - i,
{
    if i < s.len() && is_space(s[i]) {
        lemma_skip_space(s, i + 1);
    }
}

/// The words of `s` from `i` on: the runs of what is not space.
pub open spec fn words_from(s: Seq<char>, i: int) -> Seq<Seq<char>>
    decreases s.len() - i,
    when 0 <= i <= s.len()
{
    let a = skip_space(s, i);
    let e = word_end(s, a);
    if i <= a < e <= s.len() {
        seq![s.subrange(a, e)] + words_from(s, e)
    } else {
        seq![]
    }
}

pub open spec fn words(s: Seq<char>) -> Seq<Seq<char>> {
    words_from(s, 0)
}

pub fn words_of(s: &str) -> (r: Vec<String>)
    ensures
        texts(r@) == words(s@),
{
    broadcast use lemma_texts_push;

    let v = chars_of(s);
    let mut out: Vec<String> = Vec::new();
    let mut i: usize = 0;
    let ghost whole = words(s@);
    assert(texts(out@) + words_from(v@, 0) =~= whole);
    loop
        invariant
            v@ == s@,
            i <= v@.len(),
            whole == words(s@),
            texts(out@) + words_from(v@, i as int) == whole,
        decreases v@.len() - i,
    {
        let a = skip_spaces(&v, i);
        proof {
            lemma_skip_space(v@, i as int);
        }
        if a >= v.len() {
            assert(texts(out@) =~= texts(out@) + words_from(v@, i as int));
            return out;
        }
        let mut e: usize = a;
        while e < v.len() && !is_space_char(v[e])
            invariant
                a <= e <= v@.len(),
                word_end(v@, a as int) == word_end(v@, e as int),
            decreases v@.len() - e,
        {
            e = e + 1;
        }
        proof {
            lemma_word_end(v@, a as int);
        }
        let ghost before = texts(out@);
        out.push(text_of(&v, a, e));
        assert(texts(out@) + words_from(v@, e as int) =~= before + words_from(v@, i as int));
        i = e;
    }
}

/// Does the text begin with `p`?
pub open spec fn begins(s: Seq<char>, p: Seq<char>) -> bool {
    p.len() <= s.len() && s.take(p.len() as int) == p
}

/// What stands behind `p`, where the text begins with it.
pub open spec fn behind(s: Seq<char>, p: Seq<char>) -> Option<Seq<char>> {
    if begins(s, p) {
        Some(s.skip(p.len() as int))
    } else {
        None
    }
}

pub fn strip_prefix(s: &str, p: &str) -> (r: Option<String>)
    ensures
        match r {
            Some(t) => behind(s@, p@) == Some(t@),
            None => behind(s@, p@) is None,
        },
{
    let v = chars_of(s);
    let w = chars_of(p);
    if w.len() > v.len() {
        return None;
    }
    let mut i: usize = 0;
    while i < w.len()
        invariant
            v@ == s@,
            w@ == p@,
            i <= w@.len() <= v@.len(),
            forall|j: int| 0 <= j < i ==> v@[j] == w@[j],
        decreases w@.len() - i,
    {
        if v[i] != w[i] {
            proof {
                assert(s@.take(p@.len() as int)[i as int] != p@[i as int]);
            }
            return None;
        }
        i = i + 1;
    }
    assert(s@.take(p@.len() as int) =~= p@);
    let t = text_of(&v, w.len(), v.len());
    assert(t@ =~= s@.skip(p@.len() as int));
    Some(t)
}

pub fn starts_with(s: &str, p: &str) -> (r: bool)
    ensures
        r == begins(s@, p@),
{
    strip_prefix(s, p).is_some()
}

// ---- one more line, one more word ----

/// A text whose last line is ended.
pub open spec fn ended(s: Seq<char>) -> bool {
    s.len() == 0 || s.last() == '\n'
}

/// A text that reads back as one line.
pub open spec fn one_line(s: Seq<char>) -> bool {
    !s.contains('\n') && !(s.len() > 0 && s.last() == '\r')
}

proof fn lemma_find_before(s: Seq<char>, t: Seq<char>, c: char, i: int)
    requires
        0 <= i <= s.len(),
    ensures
        find(s, c, i) < s.len() ==> find(s + t, c, i) == find(s, c, i),
    decreases s.len() - i,
{
    if i < s.len() && s[i] != c {
        lemma_find_before(s, t, c, i + 1);
    }
}

/// The first position that holds `c`, told from outside.
proof fn lemma_find_is(s: Seq<char>, c: char, i: int, k: int)
    requires
        0 <= i <= k < s.len(),
        s[k] == c,
        forall|j: int| i <= j < k ==> s[j] != c,
    ensures
        find(s, c, i) == k,
    decreases k - i,
{
    if i < k {
        lemma_find_is(s, c, i + 1, k);
    }
}

proof fn lemma_lines_from_push(s: Seq<char>, line: Seq<char>, i: int)
    requires
        0 <= i <= s.len(),
        ended(s),
        !line.contains('\n'),
    ensures
        lines_from(s + (line + seq!['\n']), i) == lines_from(s, i).push(chomp(line)),
    decreases s.len() - i,
{
    let t = line + seq!['\n'];
    let w = s + t;
    if i == s.len() {
        let k = s.len() + line.len();
        assert(w[k as int] == '\n');
        assert forall|j: int| i <= j < k implies w[j] != '\n' by {
            assert(w[j] == line[j - s.len()]);
        }
        lemma_find_is(w, '\n', i, k as int);
        assert(w.subrange(i, k as int) =~= line);
        assert(lines_from(w, (k + 1) as int) == Seq::<Seq<char>>::empty());
        assert(lines_from(w, i) =~= seq![chomp(line)]);
        assert(lines_from(s, i).push(chomp(line)) =~= seq![chomp(line)]);
    } else {
        lemma_find(s, '\n', i);
        let k = find(s, '\n', i);
        assert(k < s.len()) by {
            if k >= s.len() {
                assert(s[s.len() - 1] != '\n');
            }
        }
        lemma_find_before(s, t, '\n', i);
        lemma_lines_from_push(s, line, k + 1);
        assert(w.subrange(i, k) =~= s.subrange(i, k));
        assert(lines_from(w, i) =~= lines_from(s, i).push(chomp(line)));
    }
}

/// A text without a line feed at the end of a text is one line more, without the carriage return
/// that ends it.
pub proof fn lemma_lines_push_chomped(s: Seq<char>, line: Seq<char>)
    requires
        ended(s),
        !line.contains('\n'),
    ensures
        lines(s + (line + seq!['\n'])) == lines(s).push(chomp(line)),
        ended(s + (line + seq!['\n'])),
{
    lemma_lines_from_push(s, line, 0);
    let w = s + (line + seq!['\n']);
    assert(w.last() == '\n');
}

proof fn lemma_lines_from_plain(s: Seq<char>, i: int, k: int)
    requires
        0 <= i <= s.len(),
        0 <= k < lines_from(s, i).len(),
    ensures
        !lines_from(s, i)[k].contains('\n'),
    decreases s.len() - i,
{
    lemma_find(s, '\n', i);
    let j = find(s, '\n', i);
    if j < s.len() {
        if k == 0 {
            let l = s.subrange(i, j);
            assert(lines_from(s, i)[0] == chomp(l));
            assert(!l.contains('\n'));
            if chomp(l).contains('\n') {
                let m = choose|m: int| 0 <= m < chomp(l).len() && chomp(l)[m] == '\n';
                assert(l[m] == '\n');
            }
        } else {
            lemma_lines_from_plain(s, j + 1, k - 1);
            assert(lines_from(s, i)[k] == lines_from(s, j + 1)[k - 1]);
        }
    }
}

/// No line holds a line feed.
pub proof fn lemma_lines_plain(s: Seq<char>, k: int)
    requires
        0 <= k < lines(s).len(),
    ensures
        !lines(s)[k].contains('\n'),
{
    lemma_lines_from_plain(s, 0, k);
}

/// One line more at the end of a text is one line more.
pub proof fn lemma_lines_push(s: Seq<char>, line: Seq<char>)
    requires
        ended(s),
        one_line(line),
    ensures
        lines(s + (line + seq!['\n'])) == lines(s).push(line),
        ended(s + (line + seq!['\n'])),
{
    lemma_lines_from_push(s, line, 0);
    let w = s + (line + seq!['\n']);
    assert(w.last() == '\n');
}

/// A text that reads back as one word.
pub open spec fn one_word(s: Seq<char>) -> bool {
    s.len() > 0 && forall|i: int| 0 <= i < s.len() ==> !is_space(#[trigger] s[i])
}

proof fn lemma_word_end_is(s: Seq<char>, i: int, e: int)
    requires
        0 <= i <= e <= s.len(),
        forall|j: int| i <= j < e ==> !is_space(#[trigger] s[j]),
        e < s.len() ==> is_space(s[e]),
    ensures
        word_end(s, i) == e,
    decreases e - i,
{
    if i < e {
        lemma_word_end_is(s, i + 1, e);
    }
}

proof fn lemma_skip_space_is(s: Seq<char>, i: int, a: int)
    requires
        0 <= i <= a <= s.len(),
        forall|j: int| i <= j < a ==> is_space(#[trigger] s[j]),
        a < s.len() ==> !is_space(s[a]),
    ensures
        skip_space(s, i) == a,
    decreases a - i,
{
    if i < a {
        lemma_skip_space_is(s, i + 1, a);
    }
}

proof fn lemma_skip_space_over(s: Seq<char>, i: int)
    requires
        0 <= i <= s.len(),
    ensures
        forall|j: int| i <= j < skip_space(s, i) ==> is_space(#[trigger] s[j]),
    decreases s.len() - i,
{
    if i < s.len() && is_space(s[i]) {
        lemma_skip_space_over(s, i + 1);
    }
}

proof fn lemma_word_end_over(s: Seq<char>, i: int)
    requires
        0 <= i <= s.len(),
    ensures
        forall|j: int| i <= j < word_end(s, i) ==> !is_space(#[trigger] s[j]),
        word_end(s, i) < s.len() ==> is_space(s[word_end(s, i)]),
    decreases s.len() - i,
{
    if i < s.len() && !is_space(s[i]) {
        lemma_word_end_over(s, i + 1);
    }
}

proof fn lemma_words_from_push(s: Seq<char>, word: Seq<char>, i: int)
    requires
        0 <= i <= s.len(),
        one_word(word),
    ensures
        words_from(s + (seq![' '] + word), i) == words_from(s, i).push(word),
    decreases s.len() - i,
{
    let w = s + (seq![' '] + word);
    let n = s.len() as int;
    lemma_skip_space(s, i);
    lemma_skip_space_over(s, i);
    let a = skip_space(s, i);
    assert forall|j: int| i <= j < a implies is_space(#[trigger] w[j]) by {
        assert(w[j] == s[j]);
    }
    if a < n {
        assert(w[a] == s[a]);
        lemma_skip_space_is(w, i, a);
        lemma_word_end(s, a);
        lemma_word_end_over(s, a);
        let e = word_end(s, a);
        assert forall|j: int| a <= j < e implies !is_space(#[trigger] w[j]) by {
            assert(w[j] == s[j]);
        }
        if e < n {
            assert(w[e] == s[e]);
        } else {
            assert(w[e] == ' ');
        }
        lemma_word_end_is(w, a, e);
        lemma_words_from_push(s, word, e);
        assert(w.subrange(a, e) =~= s.subrange(a, e));
        assert(words_from(w, i) =~= words_from(s, i).push(word));
    } else {
        assert(w[n] == ' ');
        assert(w[n + 1] == word[0]);
        assert forall|j: int| i <= j < n + 1 implies is_space(#[trigger] w[j]) by {}
        lemma_skip_space_is(w, i, n + 1);
        let e = w.len() as int;
        assert forall|j: int| n + 1 <= j < e implies !is_space(#[trigger] w[j]) by {
            assert(w[j] == word[j - n - 1]);
        }
        lemma_word_end_is(w, n + 1, e);
        assert(w.subrange(n + 1, e) =~= word);
        assert(skip_space(w, e) == e);
        assert(words_from(w, e) =~= seq![]);
        assert(words_from(w, i) =~= seq![word]);
        assert(words_from(s, i) =~= seq![]);
    }
}

/// One word more behind a space is one word more.
pub proof fn lemma_words_push(s: Seq<char>, word: Seq<char>)
    requires
        one_word(word),
    ensures
        words(s + (seq![' '] + word)) == words(s).push(word),
{
    lemma_words_from_push(s, word, 0);
}

/// Cutting at the first `c` gives back what was put around it.
pub proof fn lemma_split_once_at(a: Seq<char>, c: char, b: Seq<char>)
    requires
        !a.contains(c),
    ensures
        crate::text::split_once(a + seq![c] + b, c) == Some((a, b)),
{
    let s = a + seq![c] + b;
    assert(s[a.len() as int] == c);
    assert forall|j: int| 0 <= j < a.len() implies s[j] != c by {
        assert(s[j] == a[j]);
    }
    lemma_find_is(s, c, 0, a.len() as int);
    assert(s.subrange(0, a.len() as int) =~= a);
    assert(s.subrange(a.len() as int + 1, s.len() as int) =~= b);
}

/// What stands behind a prefix that was put there.
pub proof fn lemma_behind(p: Seq<char>, s: Seq<char>)
    ensures
        behind(p + s, p) == Some(s),
{
    assert((p + s).take(p.len() as int) =~= p);
    assert((p + s).skip(p.len() as int) =~= s);
}

// ---- putting together what was taken apart ----

/// One part more at the front.
pub proof fn lemma_join_front(first: Seq<char>, rest: Seq<Seq<char>>, sep: Seq<char>)
    requires
        rest.len() > 0,
    ensures
        join(seq![first] + rest, sep) == first + sep + join(rest, sep),
    decreases rest.len(),
{
    let all = seq![first] + rest;
    if rest.len() == 1 {
        assert(all.drop_last() =~= seq![first]);
        assert(all.last() == rest[0]);
        assert(join(seq![first], sep) == first);
    } else {
        lemma_join_front(first, rest.drop_last(), sep);
        assert(all.drop_last() =~= seq![first] + rest.drop_last());
        assert(all.last() == rest.last());
        assert(first + sep + join(rest.drop_last(), sep) + sep + rest.last() =~= first + sep + (join(
            rest.drop_last(),
            sep,
        ) + sep + rest.last()));
    }
}

proof fn lemma_split_from_some(s: Seq<char>, c: char, i: int)
    requires
        0 <= i <= s.len(),
    ensures
        split_from(s, c, i).len() > 0,
{
}

proof fn lemma_join_split_from(s: Seq<char>, c: char, i: int)
    requires
        0 <= i <= s.len(),
    ensures
        join(split_from(s, c, i), seq![c]) == s.skip(i),
    decreases s.len() - i,
{
    lemma_find(s, c, i);
    let k = find(s, c, i);
    if i <= k < s.len() {
        lemma_join_split_from(s, c, k + 1);
        lemma_split_from_some(s, c, k + 1);
        lemma_join_front(s.subrange(i, k), split_from(s, c, k + 1), seq![c]);
        assert(s.subrange(i, k) + seq![c] + s.skip(k + 1) =~= s.skip(i));
    } else {
        assert(split_from(s, c, i)[0] =~= s.skip(i));
    }
}

/// A text that was cut at every `c` and put together with `c` is the same text.
pub proof fn lemma_join_split(s: Seq<char>, c: char)
    ensures
        join(split(s, c), seq![c]) == s,
{
    lemma_join_split_from(s, c, 0);
    assert(s.skip(0) =~= s);
}

} // verus!
