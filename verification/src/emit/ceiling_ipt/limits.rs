//! The ceilings line by line, and how their counters are read back.

use vstd::prelude::*;

use crate::derive::CeilingV;
use crate::emit::ceiling_ipt::{
    backend_line, backend_of, chain_in, chain_lines, drop_from, drop_in, flush_lines, jump_lines,
    limit_lines, our_line, our_lines, restore_text, Backend,
};
use crate::text::lines::{lemma_behind, word_end};
use crate::text::reading::{blank, concat, lemma_cut_at_the_first, lemma_trim_of_solid};
use crate::text::{dec, is_space, lemma_dec, lemma_parse_dec, trim};

verus! {

/// The line that makes a chain.
pub open spec fn made(chain: Seq<char>) -> Seq<char> {
    ":"@ + chain + " - [0:0]\n"@
}

/// The line that empties a chain.
pub open spec fn emptied(chain: Seq<char>) -> Seq<char> {
    "-F "@ + chain + "\n"@
}

/// The chain of a zone's ceiling.
pub open spec fn chain_of(zone: Seq<char>) -> Seq<char> {
    "cfab-ceil-"@ + zone
}

/// What leaves over the interface as OSPF enters the zone's chain.
pub open spec fn entered(c: CeilingV) -> Seq<char> {
    "-A cfab-out -o "@ + c.ifname + " -p 89 -j "@ + chain_of(c.zone) + "\n"@
}

/// In the chain, what is within the rate goes back, and what is not is dropped.
pub open spec fn limited(c: CeilingV) -> Seq<char> {
    "-A "@ + chain_of(c.zone) + " -m limit --limit "@ + dec(c.rate_pps as nat)
        + "/second --limit-burst "@ + dec(c.burst_pkts as nat) + " -j RETURN\n"@ + "-A "@
        + chain_of(c.zone) + " -j DROP\n"@
}

proof fn lemma_lines(c: Seq<CeilingV>, n: int)
    requires
        0 <= n <= c.len(),
    ensures
        chain_lines(c, n) == concat(Seq::new(c.len(), |i: int| made(chain_of(c[i].zone))), n),
        flush_lines(c, n) == concat(Seq::new(c.len(), |i: int| emptied(chain_of(c[i].zone))), n),
        jump_lines(c, n) == concat(Seq::new(c.len(), |i: int| entered(c[i])), n),
        limit_lines(c, n) == concat(Seq::new(c.len(), |i: int| limited(c[i])), n),
    decreases n,
{
    if n > 0 {
        lemma_lines(c, n - 1);
    }
}

/// The input makes every chain, empties every chain, and then fills the hook's chain with an entry
/// for every ceiling and each ceiling's chain with its limit, in one transaction on the mangle
/// table.
pub proof fn lemma_the_input_line_by_line(c: Seq<CeilingV>)
    ensures
        ({
            let n = c.len() as int;
            restore_text(c) == "*mangle\n"@ + ":cfab-out - [0:0]\n"@ + concat(
                Seq::new(c.len(), |i: int| made(chain_of(c[i].zone))),
                n,
            ) + "-F cfab-out\n"@ + concat(
                Seq::new(c.len(), |i: int| emptied(chain_of(c[i].zone))),
                n,
            ) + concat(Seq::new(c.len(), |i: int| entered(c[i])), n) + concat(
                Seq::new(c.len(), |i: int| limited(c[i])),
                n,
            ) + "COMMIT\n"@
        }),
{
    lemma_lines(c, c.len() as int);
}

/// The counter of a zone's drop rule is the number of packets that stands before it.
pub proof fn lemma_a_drop_counter_is_read(zone: Seq<char>, packets: u64, bytes: Seq<char>)
    requires
        !bytes.contains(']'),
    ensures
        drop_in(
            "["@ + (dec(packets as nat) + seq![':'] + bytes) + seq![']'] + (" -A cfab-ceil-"@ + zone
                + " -j DROP"@),
            zone,
        ) == Some(packets as nat),
{
    let d = dec(packets as nat);
    let x = d + seq![':'] + bytes;
    let y = " -A cfab-ceil-"@ + zone + " -j DROP"@;
    let l = "["@ + x + seq![']'] + y;
    lemma_dec(packets as nat);
    assert forall|i: int| 0 <= i < d.len() implies d[i] != ':' && d[i] != ']' by {
        assert(crate::text::is_digit(d[i]));
    }
    assert(!d.contains(':'));
    assert(!x.contains(']')) by {
        if x.contains(']') {
            let i = choose|i: int| 0 <= i < x.len() && x[i] == ']';
            if i < d.len() {
                assert(x[i] == d[i]);
            } else if i > d.len() {
                assert(bytes.contains(bytes[i - d.len() - 1]));
            }
        }
    }
    assert(l =~= "["@ + (x + seq![']'] + y));
    lemma_behind("["@, x + seq![']'] + y);
    lemma_cut_at_the_first(x, ']', y);
    lemma_cut_at_the_first(d, ':', bytes);
    lemma_parse_dec(packets as nat, u64::MAX as nat);
    reveal_strlit(" -A cfab-ceil-");
    reveal_strlit("-A ");
    reveal_strlit("cfab-ceil-");
    reveal_strlit(" -j DROP");
    let s = "-A "@ + ("cfab-ceil-"@ + zone) + " -j DROP"@;
    assert(y =~= seq![' '] + s + seq![]);
    assert(s[0] == '-');
    assert(s.last() == 'P');
    assert(blank(seq![' ']));
    let e: Seq<char> = seq![];
    assert(blank(e));
    lemma_trim_of_solid(seq![' '], s, e);
}

proof fn lemma_drop_from(l: Seq<Seq<char>>, zone: Seq<char>, i: int, k: int)
    requires
        0 <= i <= k <= l.len(),
        forall|j: int| i <= j < k ==> drop_in(#[trigger] l[j], zone) is None,
        k < l.len() ==> drop_in(l[k], zone) is Some,
    ensures
        drop_from(l, zone, i) == if k < l.len() {
            drop_in(l[k], zone)
        } else {
            None
        },
    decreases k - i,
{
    if i < k {
        assert(drop_in(l[i], zone) is None);
        lemma_drop_from(l, zone, i + 1, k);
    }
}

/// The counter is that of the first line that has one, and a dump without one has none.
pub proof fn lemma_the_first_counter_counts(l: Seq<Seq<char>>, zone: Seq<char>, k: int)
    requires
        0 <= k <= l.len(),
        forall|j: int| 0 <= j < k ==> drop_in(#[trigger] l[j], zone) is None,
        k < l.len() ==> drop_in(l[k], zone) is Some,
    ensures
        k < l.len() ==> drop_from(l, zone, 0) == drop_in(l[k], zone),
        k == l.len() ==> drop_from(l, zone, 0) is None,
{
    lemma_drop_from(l, zone, 0, k);
}

/// What another zone's chain drops, or the zone's chain lets go, is not counted.
pub proof fn lemma_only_the_drop_rule_is_counted(zone: Seq<char>, count: Seq<char>, rule: Seq<char>)
    requires
        !count.contains(']'),
        trim(rule) != "-A "@ + ("cfab-ceil-"@ + zone) + " -j DROP"@,
    ensures
        drop_in("["@ + count + seq![']'] + rule, zone) is None,
{
    assert("["@ + count + seq![']'] + rule =~= "["@ + (count + seq![']'] + rule));
    lemma_behind("["@, count + seq![']'] + rule);
    lemma_cut_at_the_first(count, ']', rule);
}

/// A line is ours where it makes a chain of ours or adds to one, and the chain that it makes is
/// what stands between the colon and the first white space.
pub proof fn lemma_which_lines_are_ours(name: Seq<char>, rest: Seq<char>)
    requires
        forall|i: int| 0 <= i < name.len() ==> !is_space(#[trigger] name[i]),
        rest.len() > 0 ==> is_space(rest[0]),
    ensures
        our_line(":cfab-"@ + name + rest),
        our_line("-A cfab-"@ + rest),
        chain_in(":cfab-"@ + name + rest) == Some("cfab-"@ + name),
        chain_in("-A cfab-"@ + rest) is None,
{
    let l = ":cfab-"@ + name + rest;
    reveal_strlit(":cfab-");
    reveal_strlit("-A cfab-");
    reveal_strlit("cfab-");
    assert(l =~= ":cfab-"@ + (name + rest));
    lemma_behind(":cfab-"@, name + rest);
    lemma_behind("-A cfab-"@, rest);
    assert(":cfab-"@.len() == 6);
    let m = "-A cfab-"@ + rest;
    assert(m[0] == '-');
    assert(m.take(6)[0] == '-');
    let k = 6 + name.len();
    assert forall|j: int| 1 <= j < k implies !is_space(#[trigger] l[j]) by {
        if j < 6 {
            assert(l[j] == ":cfab-"@[j]);
        } else {
            assert(l[j] == name[j - 6]);
        }
    }
    if rest.len() > 0 {
        assert(l[k as int] == rest[0]);
    }
    lemma_word_end_at(l, 1, k as int);
    assert(l.subrange(1, k as int) =~= "cfab-"@ + name);
}

proof fn lemma_word_end_at(s: Seq<char>, i: int, k: int)
    requires
        0 <= i <= k <= s.len(),
        forall|j: int| i <= j < k ==> !is_space(#[trigger] s[j]),
        k < s.len() ==> is_space(s[k]),
    ensures
        word_end(s, i) == k,
    decreases k - i,
{
    if i < k {
        assert(!is_space(s[i]));
        lemma_word_end_at(s, i + 1, k);
    }
}

/// What is kept of a dump: every line of ours, each ended, in the order of the dump.
pub proof fn lemma_what_is_kept_of_a_dump(l: Seq<Seq<char>>, n: int)
    requires
        0 < n <= l.len(),
    ensures
        our_line(l[n - 1]) ==> our_lines(l, n) == our_lines(l, n - 1) + (l[n - 1] + "\n"@),
        !our_line(l[n - 1]) ==> our_lines(l, n) == our_lines(l, n - 1),
        our_lines(l, 0).len() == 0,
{
}

/// The backend is read from its word, with white space around it or without, and told by it.
pub proof fn lemma_the_words_for_backends(a: Seq<char>, b: Seq<char>)
    requires
        blank(a),
        blank(b),
    ensures
        backend_of(a + "nft"@ + b) == Some(Backend::Nft),
        backend_of(a + "iptables-legacy"@ + b) == Some(Backend::IptablesLegacy),
        backend_line(Backend::Nft) == "mark: nft"@,
        backend_line(Backend::IptablesLegacy)
            == "mark: iptables-legacy (ceiling only; bulk DSCP clamp unavailable on this kernel)"@,
{
    reveal_strlit("nft");
    reveal_strlit("iptables-legacy");
    assert("nft"@.len() == 3);
    assert("iptables-legacy"@.len() == 15);
    lemma_trim_of_solid(a, "nft"@, b);
    lemma_trim_of_solid(a, "iptables-legacy"@, b);
}

} // verus!
