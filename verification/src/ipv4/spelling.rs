//! That an address has one spelling, and a number few.

use vstd::arithmetic::div_mod::lemma_fundamental_div_mod_converse;
use vstd::prelude::*;

use crate::ipv4::{dotted, octet, parse_dotted};
use crate::text::lines::lemma_join_split;
use crate::text::{
    all_digits, dec, dec_value, digit, digit_value, is_digit, join, parse_uint, split,
    unsigned_body,
};

verus! {

/// Digits without a leading zero are the decimal spelling of their value.
proof fn lemma_canonical(s: Seq<char>)
    requires
        s.len() > 0,
        all_digits(s),
        s.len() == 1 || s[0] != '0',
    ensures
        dec(dec_value(s)) == s,
    decreases s.len(),
{
    let t = s.drop_last();
    let c = s.last();
    assert(is_digit(c));
    let d = digit_value(c);
    assert(d < 10);
    assert(digit(d) == c);
    if s.len() == 1 {
        assert(t.len() == 0);
        assert(dec_value(t) == 0);
        assert(dec_value(s) == d);
        assert(dec(d) =~= s);
    } else {
        assert(t[0] == s[0]);
        assert forall|i: int| 0 <= i < t.len() implies is_digit(#[trigger] t[i]) by {
            assert(t[i] == s[i]);
        }
        lemma_canonical(t);
        let v = dec_value(t);
        assert(v > 0) by {
            if v == 0 {
                assert(dec(0) =~= seq!['0']);
                assert(t[0] == '0');
            }
        }
        assert((v * 10 + d) / 10 == v && (v * 10 + d) % 10 == d);
        assert(dec(dec_value(s)) =~= t.push(c));
        assert(t.push(c) =~= s);
    }
}

proof fn lemma_four(p: Seq<Seq<char>>, d: Seq<char>)
    requires
        p.len() == 4,
    ensures
        join(p, d) == p[0] + d + p[1] + d + p[2] + d + p[3],
{
    let q3 = p.drop_last();
    let q2 = q3.drop_last();
    let q1 = q2.drop_last();
    assert(q3.last() == p[2]);
    assert(q2.last() == p[1]);
    assert(q1[0] == p[0]);
    assert(join(q1, d) == p[0]);
    assert(join(q2, d) == p[0] + d + p[1]);
    assert(join(q3, d) == p[0] + d + p[1] + d + p[2]);
}

proof fn lemma_octets(b: u32, w: nat, x: nat, y: nat, z: nat)
    requires
        w < 256,
        x < 256,
        y < 256,
        z < 256,
        b == w * 16777216 + x * 65536 + y * 256 + z,
    ensures
        octet(b, 0) == w,
        octet(b, 1) == x,
        octet(b, 2) == y,
        octet(b, 3) == z,
{
    let (w, x, y, z) = (w as int, x as int, y as int, z as int);
    lemma_fundamental_div_mod_converse(b as int, 16777216, w, x * 65536 + y * 256 + z);
    lemma_fundamental_div_mod_converse(b as int, 65536, w * 256 + x, y * 256 + z);
    lemma_fundamental_div_mod_converse(w * 256 + x, 256, w, x);
    lemma_fundamental_div_mod_converse(b as int, 256, w * 65536 + x * 256 + y, z);
    lemma_fundamental_div_mod_converse(w * 65536 + x * 256 + y, 256, w * 256 + x, y);
}

/// What is read as an address is that address's own spelling, and no other text is read as it.
pub proof fn lemma_an_address_has_one_spelling(s: Seq<char>)
    requires
        parse_dotted(s) is Some,
    ensures
        dotted(parse_dotted(s)->0) == s,
{
    let p = split(s, '.');
    let b = parse_dotted(s)->0;
    assert(dec(dec_value(p[0])) == p[0] && dec(dec_value(p[1])) == p[1] && dec(dec_value(p[2]))
        == p[2] && dec(dec_value(p[3])) == p[3]) by {
        lemma_canonical(p[0]);
        lemma_canonical(p[1]);
        lemma_canonical(p[2]);
        lemma_canonical(p[3]);
    }
    lemma_octets(b, dec_value(p[0]), dec_value(p[1]), dec_value(p[2]), dec_value(p[3]));
    lemma_join_split(s, '.');
    lemma_four(p, seq!['.']);
    assert("."@ == seq!['.']) by {
        reveal_strlit(".");
        assert("."@ =~= seq!['.']);
    }
}

/// A number is read from digits, with one plus sign before them or none, and from nothing else;
/// and none is read that is larger than allowed.
pub proof fn lemma_what_is_read_as_a_number(s: Seq<char>, max: nat)
    ensures
        s.len() > 0 && (forall|i: int| 0 <= i < s.len() ==> '0' <= #[trigger] s[i] <= '9')
            && dec_value(s) <= max ==> parse_uint(s, max) == Some(dec_value(s)) && parse_uint(
            seq!['+'] + s,
            max,
        ) == Some(dec_value(s)),
        s.len() > 0 && (forall|i: int| 0 <= i < s.len() ==> '0' <= #[trigger] s[i] <= '9')
            && dec_value(s) > max ==> parse_uint(s, max) is None,
        (exists|i: int| 1 <= i < s.len() && !('0' <= #[trigger] s[i] <= '9')) ==> parse_uint(s, max)
            is None,
        s.len() > 0 && s[0] != '+' && !('0' <= s[0] <= '9') ==> parse_uint(s, max) is None,
        s.len() == 0 ==> parse_uint(s, max) is None,
        s == seq!['+'] ==> parse_uint(s, max) is None,
{
    let b = unsigned_body(s);
    if s.len() > 0 && forall|i: int| 0 <= i < s.len() ==> '0' <= #[trigger] s[i] <= '9' {
        assert(s[0] != '+');
        assert(all_digits(s));
        let t = seq!['+'] + s;
        assert(unsigned_body(t) =~= s);
    }
    if exists|i: int| 1 <= i < s.len() && !('0' <= #[trigger] s[i] <= '9') {
        let i = choose|i: int| 1 <= i < s.len() && !('0' <= #[trigger] s[i] <= '9');
        if s[0] == '+' {
            assert(b[i - 1] == s[i]);
        } else {
            assert(b[i] == s[i]);
        }
        assert(!all_digits(b));
    }
    if s.len() > 0 && s[0] != '+' && !('0' <= s[0] <= '9') {
        assert(!is_digit(b[0]));
    }
}

} // verus!
