//! What holds of the rules that the engine is started with.

use vstd::prelude::*;

use crate::derive::{identity_of, MemberViewV};
use crate::emit::engine::prefsrc;
use crate::engine::cidr::cidr_of;
use crate::engine::{prefsrc_refusal, prefsrc_refusals};
use crate::ipv4::{
    dotted, lemma_parse_dotted, lemma_quad_octets, lemma_split_single, octet, parse_dotted, quad,
};
use crate::model::block_text;
use crate::text::lines::lemma_split_once_at;
use crate::text::{all_digits, dec, is_digit, lemma_dec, lemma_find, lemma_parse_dec};

verus! {

/// A text of digits and dots.
spec fn plain(s: Seq<char>) -> bool {
    forall|i: int| 0 <= i < s.len() ==> is_digit(#[trigger] s[i]) || s[i] == '.'
}

proof fn lemma_dec_is_plain(n: nat)
    ensures
        plain(dec(n)),
        all_digits(dec(n)),
{
    lemma_dec(n);
}

proof fn lemma_plain_concat(a: Seq<char>, b: Seq<char>)
    requires
        plain(a),
        plain(b),
    ensures
        plain(a + b),
{
    assert forall|i: int| 0 <= i < (a + b).len() implies is_digit(#[trigger] (a + b)[i]) || (a
        + b)[i] == '.' by {
        if i < a.len() {
            assert((a + b)[i] == a[i]);
        } else {
            assert((a + b)[i] == b[i - a.len()]);
        }
    }
}

proof fn lemma_dotted_is_plain(bits: u32)
    ensures
        plain(dotted(bits)),
{
    reveal_strlit(".");
    let dot = "."@;
    assert(plain(dot));
    let a = dec(octet(bits, 0));
    let b = dec(octet(bits, 1));
    let c = dec(octet(bits, 2));
    let d = dec(octet(bits, 3));
    lemma_dec_is_plain(octet(bits, 0));
    lemma_dec_is_plain(octet(bits, 1));
    lemma_dec_is_plain(octet(bits, 2));
    lemma_dec_is_plain(octet(bits, 3));
    lemma_plain_concat(a, dot);
    lemma_plain_concat(a + dot, b);
    lemma_plain_concat(a + dot + b, dot);
    lemma_plain_concat(a + dot + b + dot, c);
    lemma_plain_concat(a + dot + b + dot + c, dot);
    lemma_plain_concat(a + dot + b + dot + c + dot, d);
}

/// An address has no slash in it.
pub proof fn lemma_an_address_has_no_slash(bits: u32)
    ensures
        !dotted(bits).contains('/'),
{
    lemma_dotted_is_plain(bits);
    let s = dotted(bits);
    if s.contains('/') {
        let i = choose|i: int| 0 <= i < s.len() && s[i] == '/';
        assert(is_digit(s[i]) || s[i] == '.');
    }
}

proof fn lemma_small_numbers()
    ensures
        dec(10) == seq!['1', '0'],
        dec(0) == seq!['0'],
        dec(16) == seq!['1', '6'],
{
    reveal_with_fuel(dec, 3);
    assert(dec(10) =~= seq!['1', '0']);
    assert(dec(0) =~= seq!['0']);
    assert(dec(16) =~= seq!['1', '6']);
}

/// A text of digits alone is no address.
pub proof fn lemma_digits_are_no_address(s: Seq<char>)
    requires
        all_digits(s),
    ensures
        parse_dotted(s) is None,
{
    assert forall|j: int| 0 <= j < s.len() implies s[j] != '.' by {
        assert(is_digit(s[j]));
    }
    lemma_split_single(s, '.');
}

/// A block and an address of a zone, as the dotted forms of numbers.
proof fn lemma_zone_texts(id: u8, node: u8)
    ensures
        identity_of(id, node) == dotted(quad(10, id as int, 0, node as int) as u32),
        block_text(id) + ".0.0/16"@ == dotted(quad(10, id as int, 0, 0) as u32) + seq!['/'] + dec(
            16,
        ),
{
    let a = quad(10, id as int, 0, node as int) as u32;
    let b = quad(10, id as int, 0, 0) as u32;
    lemma_quad_octets(a);
    lemma_quad_octets(b);
    lemma_small_numbers();
    reveal_strlit("10.");
    reveal_strlit(".");
    reveal_strlit(".0.");
    reveal_strlit(".0.0/16");
    assert(octet(a, 0) == 10 && octet(a, 1) == id && octet(a, 2) == 0 && octet(a, 3) == node);
    assert(octet(b, 0) == 10 && octet(b, 1) == id && octet(b, 2) == 0 && octet(b, 3) == 0);
    assert(identity_of(id, node) =~= dotted(a));
    assert(block_text(id) + ".0.0/16"@ =~= dotted(b) + seq!['/'] + dec(16));
}

proof fn lemma_rule_is_read(id: u8, node: u8)
    ensures
        prefsrc_refusal((block_text(id) + ".0.0/16"@, identity_of(id, node))) is None,
{
    let net = quad(10, id as int, 0, 0) as u32;
    let src = quad(10, id as int, 0, node as int) as u32;
    lemma_zone_texts(id, node);
    lemma_dotted_is_plain(net);
    lemma_dotted_is_plain(src);
    lemma_parse_dotted(net);
    lemma_parse_dotted(src);
    let addr = dotted(net);
    let len = dec(16);
    lemma_dec_is_plain(16);
    assert(!addr.contains('/')) by {
        if addr.contains('/') {
            let i = choose|i: int| 0 <= i < addr.len() && addr[i] == '/';
            assert(is_digit(addr[i]) || addr[i] == '.');
        }
    }
    assert(!len.contains('/')) by {
        if len.contains('/') {
            let i = choose|i: int| 0 <= i < len.len() && len[i] == '/';
            assert(is_digit(len[i]) || len[i] == '.');
        }
    }
    lemma_split_once_at(addr, '/', len);
    lemma_digits_are_no_address(len);
    lemma_parse_dec(16, 255);
    assert(cidr_of(addr + seq!['/'] + len) is Some);
    let host = dotted(src);
    assert(!host.contains('/')) by {
        if host.contains('/') {
            let i = choose|i: int| 0 <= i < host.len() && host[i] == '/';
            assert(is_digit(host[i]) || host[i] == '.');
        }
    }
    lemma_find(host, '/', 0);
    assert(cidr_of(host) is Some);
}

/// The engine reads every rule that is generated for it: it never refuses its own.
pub proof fn lemma_generated_rules_are_read(v: MemberViewV)
    ensures
        prefsrc_refusals(prefsrc(v), 0) is None,
{
    lemma_rules_from(v, 0);
}

proof fn lemma_rules_from(v: MemberViewV, i: int)
    requires
        0 <= i,
    ensures
        prefsrc_refusals(prefsrc(v), i) is None,
    decreases prefsrc(v).len() - i,
{
    if i < prefsrc(v).len() {
        lemma_rule_is_read(v.fabric.zones[i].id, v.member.node);
        lemma_rules_from(v, i + 1);
    }
}

} // verus!
