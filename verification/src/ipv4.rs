//! IPv4 addresses: their dotted form and their number.

use vstd::prelude::*;

use crate::text::{
    all_digits, cat7, chars_of, dec, dec_u64, dec_value, find, is_digit, lemma_dec, lemma_dec_len,
    parse_u64, split, split_from, split_on, texts, unsigned_body,
};

pub mod spelling;

verus! {

/// An IPv4 address, as the number that its four octets make up.
#[derive(Debug, Clone, Copy, PartialEq, Eq, PartialOrd, Ord, Hash, Structural)]
pub struct Ipv4Addr {
    pub bits: u32,
}

/// The number of the address `a.b.c.d`.
pub open spec fn quad(a: int, b: int, c: int, d: int) -> int {
    a * 16777216 + b * 65536 + c * 256 + d
}

/// The `i`-th octet of an address number, counted from the left.
pub open spec fn octet(bits: u32, i: int) -> nat {
    if i == 0 {
        (bits / 16777216) as nat
    } else if i == 1 {
        ((bits / 65536) % 256) as nat
    } else if i == 2 {
        ((bits / 256) % 256) as nat
    } else {
        (bits % 256) as nat
    }
}

/// The dotted form of an address.
pub open spec fn dotted(bits: u32) -> Seq<char> {
    dec(octet(bits, 0)) + "."@ + dec(octet(bits, 1)) + "."@ + dec(octet(bits, 2)) + "."@ + dec(
        octet(bits, 3),
    )
}

/// One to three digits that spell at most 255, without a leading zero.
pub open spec fn is_octet(s: Seq<char>) -> bool {
    &&& 1 <= s.len() <= 3
    &&& all_digits(s)
    &&& dec_value(s) <= 255
    &&& s.len() > 1 ==> s[0] != '0'
}

/// The address that `s` is the dotted form of.
pub open spec fn parse_dotted(s: Seq<char>) -> Option<u32> {
    let p = split(s, '.');
    if p.len() == 4 && is_octet(p[0]) && is_octet(p[1]) && is_octet(p[2]) && is_octet(p[3]) {
        Some(
            quad(
                dec_value(p[0]) as int,
                dec_value(p[1]) as int,
                dec_value(p[2]) as int,
                dec_value(p[3]) as int,
            ) as u32,
        )
    } else {
        None
    }
}

fn octet_of(s: &str) -> (r: Option<u8>)
    ensures
        match r {
            Some(v) => is_octet(s@) && dec_value(s@) == v as nat,
            None => !is_octet(s@),
        },
{
    let v = chars_of(s);
    if v.len() < 1 || v.len() > 3 || v[0] == '+' || (v.len() > 1 && v[0] == '0') {
        proof {
            if v@.len() >= 1 && v@[0] == '+' {
                assert(!is_digit(s@[0]));
            }
        }
        return None;
    }
    assert(unsigned_body(s@) == s@);
    match parse_u64(s, 255) {
        Some(n) => Some(n as u8),
        None => None,
    }
}

impl Ipv4Addr {
    pub fn new(a: u8, b: u8, c: u8, d: u8) -> (r: Ipv4Addr)
        ensures
            r.bits as int == quad(a as int, b as int, c as int, d as int),
    {
        Ipv4Addr { bits: a as u32 * 16777216 + b as u32 * 65536 + c as u32 * 256 + d as u32 }
    }

    pub fn octets(&self) -> (r: [u8; 4])
        ensures
            forall|i: int| 0 <= i < 4 ==> #[trigger] r@[i] as nat == octet(self.bits, i),
    {
        let n: u32 = self.bits;
        let r: [u8; 4] = [
            (n / 16777216) as u8,
            ((n / 65536) % 256) as u8,
            ((n / 256) % 256) as u8,
            (n % 256) as u8,
        ];
        r
    }

    pub fn is_unspecified(&self) -> (r: bool)
        ensures
            r == (self.bits == 0),
    {
        self.bits == 0
    }

    /// Is every bit set?
    pub fn is_broadcast(&self) -> (r: bool)
        ensures
            r == (self.bits == 0xffff_ffff),
    {
        self.bits == 0xffff_ffff
    }

    /// The address in dotted form.
    pub fn to_string(&self) -> (r: String)
        ensures
            r@ == dotted(self.bits),
    {
        let n: u32 = self.bits;
        let a = dec_u64((n / 16777216) as u64);
        let b = dec_u64(((n / 65536) % 256) as u64);
        let c = dec_u64(((n / 256) % 256) as u64);
        let d = dec_u64((n % 256) as u64);
        cat7(a.as_str(), ".", b.as_str(), ".", c.as_str(), ".", d.as_str())
    }

    /// The address that `s` spells: four decimal octets without leading zeros, and nothing else.
    pub fn parse(s: &str) -> (r: Option<Ipv4Addr>)
        ensures
            match r {
                Some(a) => parse_dotted(s@) == Some(a.bits),
                None => parse_dotted(s@) is None,
            },
    {
        let p = split_on(s, '.');
        let ghost q = split(s@, '.');
        assert(texts(p@) == q);
        if p.len() != 4 {
            return None;
        }
        assert(p@[0]@ == q[0] && p@[1]@ == q[1] && p@[2]@ == q[2] && p@[3]@ == q[3]);
        match (
            octet_of(p[0].as_str()),
            octet_of(p[1].as_str()),
            octet_of(p[2].as_str()),
            octet_of(p[3].as_str()),
        ) {
            (Some(a), Some(b), Some(c), Some(d)) => Some(Ipv4Addr::new(a, b, c, d)),
            _ => None,
        }
    }
}

/// The octets make up the address.
pub proof fn lemma_quad_octets(bits: u32)
    ensures
        quad(
            octet(bits, 0) as int,
            octet(bits, 1) as int,
            octet(bits, 2) as int,
            octet(bits, 3) as int,
        ) == bits,
        forall|i: int| 0 <= i < 4 ==> #[trigger] octet(bits, i) < 256,
{
}

proof fn lemma_find_shift(s: Seq<char>, c: char, k: int, i: int)
    requires
        0 <= k <= s.len(),
        0 <= i <= s.len() - k,
    ensures
        find(s.skip(k), c, i) + k == find(s, c, i + k),
    decreases s.len() - k - i,
{
    if i < s.len() - k && s[i + k] != c {
        lemma_find_shift(s, c, k, i + 1);
    }
}

proof fn lemma_split_shift(s: Seq<char>, c: char, k: int, i: int)
    requires
        0 <= k <= s.len(),
        0 <= i <= s.len() - k,
    ensures
        split_from(s.skip(k), c, i) == split_from(s, c, i + k),
    decreases s.len() - k - i,
{
    let t = s.skip(k);
    lemma_find_shift(s, c, k, i);
    crate::text::lemma_find(t, c, i);
    let j = find(t, c, i);
    if j < t.len() {
        lemma_split_shift(s, c, k, j + 1);
        assert(t.subrange(i, j) =~= s.subrange(i + k, j + k));
    } else {
        assert(t.subrange(i, t.len() as int) =~= s.subrange(i + k, s.len() as int));
    }
}

/// A text that starts with a piece free of `c` and then `c` splits into that piece and the
/// pieces of what follows.
proof fn lemma_split_cons(p: Seq<char>, c: char, r: Seq<char>)
    requires
        forall|j: int| 0 <= j < p.len() ==> p[j] != c,
    ensures
        split(p + seq![c] + r, c) == seq![p] + split(r, c),
{
    let s = p + seq![c] + r;
    crate::text::lemma_find(s, c, 0);
    let k = find(s, c, 0);
    assert(s[p.len() as int] == c);
    assert(k == p.len()) by {
        if k < p.len() {
            assert(s[k] == p[k]);
        }
    }
    assert(s.subrange(0, k) =~= p);
    assert(s.skip(k + 1) =~= r);
    lemma_split_shift(s, c, k + 1, 0);
}

pub proof fn lemma_split_single(p: Seq<char>, c: char)
    requires
        forall|j: int| 0 <= j < p.len() ==> p[j] != c,
    ensures
        split(p, c) == seq![p],
{
    crate::text::lemma_find(p, c, 0);
    assert(p.subrange(0, p.len() as int) =~= p);
}

proof fn lemma_octet_text(n: nat)
    requires
        n < 256,
    ensures
        is_octet(dec(n)),
        dec_value(dec(n)) == n,
        forall|j: int| 0 <= j < dec(n).len() ==> dec(n)[j] != '.',
{
    lemma_dec(n);
    lemma_dec_len(n);
    assert forall|j: int| 0 <= j < dec(n).len() implies dec(n)[j] != '.' by {
        assert(is_digit(dec(n)[j]));
    }
}

/// The dotted form of an address reads back as that address.
#[verifier::spinoff_prover]
#[verifier::rlimit(60)]
pub proof fn lemma_parse_dotted(bits: u32)
    ensures
        parse_dotted(dotted(bits)) == Some(bits),
{
    reveal_strlit(".");
    lemma_quad_octets(bits);
    let a = dec(octet(bits, 0));
    let b = dec(octet(bits, 1));
    let c = dec(octet(bits, 2));
    let d = dec(octet(bits, 3));
    lemma_octet_text(octet(bits, 0));
    lemma_octet_text(octet(bits, 1));
    lemma_octet_text(octet(bits, 2));
    lemma_octet_text(octet(bits, 3));
    let dot = seq!['.'];
    assert("."@ =~= dot);
    lemma_split_single(d, '.');
    lemma_split_cons(c, '.', d);
    lemma_split_cons(b, '.', c + dot + d);
    lemma_split_cons(a, '.', b + dot + (c + dot + d));
    assert(dotted(bits) =~= a + dot + (b + dot + (c + dot + d)));
    let p = split(dotted(bits), '.');
    assert(p =~= seq![a, b, c, d]);
}

} // verus!
