//! What a workload's network is told: the prefixes of the fabric, and the routes to them.

use vstd::arithmetic::power2::{
    lemma2_to64, lemma_pow2_pos, lemma_pow2_strictly_increases, lemma_pow2_unfold, pow2,
};
use vstd::prelude::*;

use crate::ipv4::{dotted, octet, quad, Ipv4Addr};
use crate::model::prefix::{lemma_span, lemma_span_divides, prefix_text, span, Ipv4Prefix};
use crate::supervisor::workload::{Uplink, UplinkV};
use crate::text::{cat2, cat3, cat5, dec, dec_u64, join, join_texts, texts};

pub mod guarding;

verus! {

// ---- the aggregate ----

/// A run of blocks: its first zone id, and the power of two that it spans.
pub type Run = (int, nat);

pub open spec fn run_end(r: Run) -> int {
    r.0 + pow2(r.1)
}

/// Is the id in the run?
pub open spec fn in_run(r: Run, id: int) -> bool {
    r.0 <= id < run_end(r)
}

/// A run that one prefix covers: of at most all ids, and aligned to its own span.
pub open spec fn aligned_run(r: Run) -> bool {
    &&& r.1 <= 8
    &&& 0 <= r.0
    &&& run_end(r) <= 256
    &&& r.0 % (pow2(r.1) as int) == 0
}

/// Is every id of the run among the ids?
pub open spec fn all_in(ids: Seq<u8>, r: Run) -> bool {
    forall|id: int| #[trigger] in_run(r, id) ==> has_id(ids, id)
}

pub open spec fn has_id(ids: Seq<u8>, id: int) -> bool {
    exists|i: int| 0 <= i < ids.len() && #[trigger] ids[i] == id
}

/// A run that cannot be grown upwards: twice its span is too much, or not aligned, or not all
/// there.
pub open spec fn grown(ids: Seq<u8>, r: Run) -> bool {
    r.1 == 8 || r.0 % (pow2(r.1 + 1) as int) != 0 || !all_in(ids, (r.0, r.1 + 1))
}

/// Do these runs hold exactly the ids?
pub open spec fn covers(ids: Seq<u8>, runs: Seq<Run>) -> bool {
    forall|id: int|
        0 <= id < 256 ==> (#[trigger] has_id(ids, id) <==> exists|i: int|
            0 <= i < runs.len() && in_run(#[trigger] runs[i], id))
}

pub open spec fn all_aligned(runs: Seq<Run>) -> bool {
    forall|i: int| 0 <= i < runs.len() ==> aligned_run(#[trigger] runs[i])
}

/// Runs in order, none of which reaches into the next.
pub open spec fn in_order(runs: Seq<Run>) -> bool {
    forall|i: int, j: int|
        0 <= i < j < runs.len() ==> run_end(#[trigger] runs[i]) <= (#[trigger] runs[j]).0
}

/// What the runs of an aggregate are.
pub open spec fn is_aggregate(ids: Seq<u8>, runs: Seq<Run>) -> bool {
    &&& all_aligned(runs)
    &&& in_order(runs)
    &&& covers(ids, runs)
    &&& forall|i: int| 0 <= i < runs.len() ==> grown(ids, #[trigger] runs[i])
}

/// The run that a prefix of a zone block stands for.
pub open spec fn run_of(p: Ipv4Prefix) -> Run {
    (octet(p.net.bits, 1) as int, (16 - p.len) as nat)
}

pub open spec fn runs_of(p: Seq<Ipv4Prefix>) -> Seq<Run> {
    Seq::new(p.len(), |i: int| run_of(p[i]))
}

/// A prefix `10.<id>.0.0/<8..16>`.
pub open spec fn is_block(p: Ipv4Prefix) -> bool {
    &&& 8 <= p.len <= 16
    &&& p.net.bits == quad(10, octet(p.net.bits, 1) as int, 0, 0)
}

fn presence(zone_ids: &[u8]) -> (r: Vec<bool>)
    ensures
        r@.len() == 256,
        forall|id: int| 0 <= id < 256 ==> #[trigger] r@[id] == has_id(zone_ids@, id),
{
    let mut have: Vec<bool> = Vec::new();
    let mut i: usize = 0;
    while i < 256
        invariant
            i <= 256,
            have@.len() == i,
            forall|id: int| 0 <= id < i ==> !(#[trigger] have@[id]),
        decreases 256 - i,
    {
        have.push(false);
        i = i + 1;
    }
    i = 0;
    while i < zone_ids.len()
        invariant
            i <= zone_ids@.len(),
            have@.len() == 256,
            forall|id: int|
                0 <= id < 256 ==> (#[trigger] have@[id] <==> exists|j: int|
                    0 <= j < i && #[trigger] zone_ids@[j] == id),
        decreases zone_ids@.len() - i,
    {
        let k: usize = zone_ids[i] as usize;
        let ghost before = have@;
        have.set(k, true);
        assert forall|id: int| 0 <= id < 256 implies (#[trigger] have@[id] <==> exists|j: int|
            0 <= j < i + 1 && #[trigger] zone_ids@[j] == id) by {
            if id == k {
                assert(zone_ids@[i as int] == id);
            } else {
                assert(have@[id] == before[id]);
            }
        }
        i = i + 1;
    }
    have
}

/// Are all of `from..to` there?
fn all_present(have: &Vec<bool>, from: usize, to: usize) -> (r: bool)
    requires
        from <= to <= have@.len(),
    ensures
        r == forall|id: int| from <= id < to ==> #[trigger] have@[id],
{
    let mut i: usize = from;
    while i < to
        invariant
            from <= i <= to <= have@.len(),
            forall|id: int| from <= id < i ==> #[trigger] have@[id],
        decreases to - i,
    {
        if !have[i] {
            return false;
        }
        i = i + 1;
    }
    true
}

/// How far the run that starts here can be grown.
fn grow(have: &Vec<bool>, start: usize, Ghost(ids): Ghost<Seq<u8>>) -> (r: (u8, usize))
    requires
        start < 256,
        have@.len() == 256,
        forall|id: int| 0 <= id < 256 ==> #[trigger] have@[id] == has_id(ids, id),
        have@[start as int],
    ensures
        r.0 <= 8,
        r.1 == pow2(r.0 as nat),
        aligned_run((start as int, r.0 as nat)),
        all_in(ids, (start as int, r.0 as nat)),
        grown(ids, (start as int, r.0 as nat)),
{
    let mut k: u8 = 0;
    let mut size: usize = 1;
    proof {
        lemma2_to64();
        assert(all_in(ids, (start as int, 0))) by {
            assert forall|id: int| #[trigger] in_run((start as int, 0), id) implies has_id(
                ids,
                id,
            ) by {
                assert(id == start);
                assert(have@[start as int]);
            }
        }
    }
    while k < 8
        invariant
            k <= 8,
            size == pow2(k as nat),
            1 <= size <= 256,
            start < 256,
            have@.len() == 256,
            forall|id: int| 0 <= id < 256 ==> #[trigger] have@[id] == has_id(ids, id),
            aligned_run((start as int, k as nat)),
            all_in(ids, (start as int, k as nat)),
        decreases 8 - k,
    {
        let next: usize = size * 2;
        proof {
            lemma_pow2_unfold((k + 1) as nat);
            lemma2_to64();
        }
        assert(next == pow2((k + 1) as nat));
        if start % next != 0 {
            return (k, size);
        }
        proof {
            lemma_fits(start as int, (k + 1) as nat);
        }
        if !all_present(have, start + size, start + next) {
            proof {
                let id = choose|id: int| start + size <= id < start + next && !(#[trigger] have@[id]);
                assert(in_run((start as int, (k + 1) as nat), id));
                assert(!has_id(ids, id));
            }
            return (k, size);
        }
        proof {
            let r: Run = (start as int, (k + 1) as nat);
            assert forall|id: int| #[trigger] in_run(r, id) implies has_id(ids, id) by {
                if id < start + size {
                    assert(in_run((start as int, k as nat), id));
                } else {
                    assert(have@[id]);
                }
            }
        }
        k = k + 1;
        size = next;
    }
    (k, size)
}

/// An aligned start below the end leaves room for the whole run.
proof fn lemma_fits(start: int, k: nat)
    requires
        0 <= start < 256,
        k <= 8,
        start % (pow2(k) as int) == 0,
    ensures
        start + pow2(k) <= 256,
{
    lemma2_to64();
    lemma_pow_divides(k, 8);
    let p = pow2(k) as int;
    let i = start / p;
    let n = 256int / p;
    vstd::arithmetic::div_mod::lemma_fundamental_div_mod(start, p);
    vstd::arithmetic::div_mod::lemma_fundamental_div_mod(256, p);
    assert(i < n) by (nonlinear_arith)
        requires
            p * i < p * n,
            p > 0,
    ;
    assert(p * i + p <= p * n) by (nonlinear_arith)
        requires
            i + 1 <= n,
            p > 0,
    ;
}

/// The smallest set of prefixes that covers every declared zone block `10.<id>.0.0/16`.
pub fn aggregate(zone_ids: &[u8]) -> (r: Vec<Ipv4Prefix>)
    ensures
        forall|i: int| 0 <= i < r@.len() ==> is_block(#[trigger] r@[i]),
        is_aggregate(zone_ids@, runs_of(r@)),
{
    let ghost ids = zone_ids@;
    let have = presence(zone_ids);
    let mut out: Vec<Ipv4Prefix> = Vec::new();
    let mut start: usize = 0;
    while start < 256
        invariant
            start <= 256,
            ids == zone_ids@,
            have@.len() == 256,
            forall|id: int| 0 <= id < 256 ==> #[trigger] have@[id] == has_id(ids, id),
            forall|i: int| 0 <= i < out@.len() ==> is_block(#[trigger] out@[i]),
            all_aligned(runs_of(out@)),
            in_order(runs_of(out@)),
            forall|i: int|
                0 <= i < out@.len() ==> grown(ids, run_of(#[trigger] out@[i])) && run_end(
                    run_of(out@[i]),
                ) <= start,
            forall|id: int|
                0 <= id < start ==> (#[trigger] has_id(ids, id) <==> exists|i: int|
                    0 <= i < out@.len() && in_run(#[trigger] runs_of(out@)[i], id)),
        decreases 256 - start,
    {
        if !have[start] {
            proof {
                let r = runs_of(out@);
                assert(!has_id(ids, start as int));
                assert forall|i: int| 0 <= i < out@.len() implies !in_run(
                    #[trigger] r[i],
                    start as int,
                ) by {
                    assert(r[i] == run_of(out@[i]));
                }
            }
            start = start + 1;
        } else {
            let (k, size) = grow(&have, start, Ghost(ids));
            let p = Ipv4Prefix { net: Ipv4Addr::new(10, start as u8, 0, 0), len: 16 - k };
            let ghost before = out@;
            let ghost r0 = runs_of(before);
            let ghost x: Run = (start as int, k as nat);
            proof {
                lemma_second(start as int, p.net.bits);
                assert(run_of(p) == x);
            }
            out.push(p);
            proof {
                let r = runs_of(out@);
                assert(r =~= r0.push(x));
                lemma_pow2_pos(k as nat);
                assert forall|i: int| 0 <= i < out@.len() implies grown(
                    ids,
                    run_of(#[trigger] out@[i]),
                ) && run_end(run_of(out@[i])) <= start + size by {
                    if i < before.len() {
                        assert(out@[i] == before[i]);
                    }
                }
                assert forall|i: int, j: int| 0 <= i < j < r.len() implies run_end(#[trigger] r[i])
                    <= (#[trigger] r[j]).0 by {
                    if j < r0.len() {
                        assert(r[i] == r0[i]);
                        assert(r[j] == r0[j]);
                    } else {
                        assert(r[i] == run_of(before[i]));
                    }
                }
                assert forall|id: int| 0 <= id < start + size implies (#[trigger] has_id(ids, id)
                    <==> exists|i: int| 0 <= i < out@.len() && in_run(#[trigger] r[i], id)) by {
                    if id < start {
                        if has_id(ids, id) {
                            let i = choose|i: int|
                                0 <= i < before.len() && in_run(#[trigger] r0[i], id);
                            assert(in_run(r[i], id));
                        }
                        if exists|i: int| 0 <= i < out@.len() && in_run(#[trigger] r[i], id) {
                            let i = choose|i: int| 0 <= i < out@.len() && in_run(#[trigger] r[i], id);
                            assert(i < before.len());
                            assert(in_run(r0[i], id));
                        }
                    } else {
                        assert(in_run(x, id));
                        assert(r[before.len() as int] == x);
                    }
                }
            }
            start = start + size;
        }
    }
    proof {
        let runs = runs_of(out@);
        assert forall|i: int| 0 <= i < runs.len() implies grown(ids, #[trigger] runs[i]) by {
            assert(runs[i] == run_of(out@[i]));
        }
    }
    out
}

/// The second octet of a zone block's address.
proof fn lemma_second(id: int, bits: u32)
    requires
        0 <= id < 256,
        bits == quad(10, id, 0, 0),
    ensures
        octet(bits, 1) == id,
        bits == quad(10, octet(bits, 1) as int, 0, 0),
{
}

// ---- the classless routes ----

/// The one global definition that every workload's block relies on.
pub const DHCP_OPTION_121_DEFINITION: &'static str = "# dhcpd.conf (ISC): option 121 is defined ONCE, globally; dhcpd refuses a definition inside a subnet block.\noption rfc3442-classless-static-routes code 121 = array of unsigned integer 8;\n";

/// The octets of an address.
pub open spec fn octets_of(a: Ipv4Addr) -> Seq<nat> {
    Seq::new(4, |i: int| octet(a.bits, i))
}

/// Numbers in decimal, with a comma and a space between them.
pub open spec fn number_list(n: Seq<nat>) -> Seq<char> {
    join(Seq::new(n.len(), |i: int| dec(n[i])), ", "@)
}

/// How many octets of a destination count: as many as its length reaches into.
pub open spec fn significant(len: u8) -> int {
    (len + 7) / 8
}

/// One route as the option holds it: the length, the octets that count, and the gateway.
pub open spec fn route_octets(p: Ipv4Prefix, gw: Ipv4Addr) -> Seq<nat> {
    seq![p.len as nat] + octets_of(p.net).take(significant(p.len)) + octets_of(gw)
}

pub open spec fn route_items(p: Seq<Ipv4Prefix>, gw: Ipv4Addr) -> Seq<char> {
    join(Seq::new(p.len(), |i: int| number_list(route_octets(p[i], gw))), ", "@)
}

/// The routes in words: every prefix through the gateway, and the default through the router.
pub open spec fn route_words(p: Seq<Ipv4Prefix>, gw: Ipv4Addr, router: Ipv4Addr) -> Seq<char> {
    join(
        Seq::new(p.len(), |i: int| prefix_text(p[i]) + " via "@ + dotted(gw.bits)).push(
            "0.0.0.0/0 via "@ + dotted(router.bits),
        ),
        ", "@,
    )
}

/// The block of one workload. A client that gets this option ignores the plain router option, so
/// that the default route stands inside it.
pub open spec fn option_121(
    prefix: Ipv4Prefix,
    aggregate: Seq<Ipv4Prefix>,
    gw: Ipv4Addr,
    router: Ipv4Addr,
) -> Seq<char> {
    "# dhcpd.conf (ISC): RFC 3442 classless static routes for this workload's subnet. A client that receives\n"@
        + "# option 121 IGNORES option 3, so the default route (0.0.0.0/0 via "@ + dotted(router.bits)
        + ") is INSIDE 121 (last entry).\n# "@ + route_words(aggregate, gw, router) + "\nsubnet "@
        + dotted(prefix.net.bits) + " netmask "@ + dotted(
        (0x1_0000_0000 - span(prefix.len as int)) as u32,
    ) + " {\n\toption rfc3442-classless-static-routes "@ + route_items(aggregate, gw) + ", 0, "@
        + number_list(octets_of(router)) + ";\n}\n"@
}

fn list_of_numbers(n: &Vec<u8>) -> (r: String)
    ensures
        r@ == number_list(Seq::new(n@.len(), |i: int| n@[i] as nat)),
{
    let ghost v = Seq::new(n@.len(), |i: int| n@[i] as nat);
    let ghost want = Seq::new(v.len(), |i: int| dec(v[i]));
    let mut out: Vec<String> = Vec::new();
    let mut i: usize = 0;
    while i < n.len()
        invariant
            i <= n@.len(),
            v == Seq::new(n@.len(), |i: int| n@[i] as nat),
            want == Seq::new(v.len(), |i: int| dec(v[i])),
            out@.len() == i,
            forall|j: int| 0 <= j < i ==> (#[trigger] out@[j])@ == want[j],
        decreases n@.len() - i,
    {
        out.push(dec_u64(n[i] as u64));
        i = i + 1;
    }
    assert(texts(out@) =~= want);
    join_texts(&out, ", ")
}

fn push_octets(out: &mut Vec<u8>, a: Ipv4Addr, n: usize)
    requires
        n <= 4,
    ensures
        final(out)@.len() == old(out)@.len() + n,
        forall|i: int| 0 <= i < old(out)@.len() ==> final(out)@[i] == old(out)@[i],
        forall|i: int|
            0 <= i < n ==> #[trigger] final(out)@[old(out)@.len() + i] as nat == octet(a.bits, i),
{
    let o = a.octets();
    let ghost before = out@;
    let mut i: usize = 0;
    while i < n
        invariant
            i <= n <= 4,
            before == old(out)@,
            out@.len() == before.len() + i,
            forall|j: int| 0 <= j < 4 ==> #[trigger] o@[j] as nat == octet(a.bits, j),
            forall|j: int| 0 <= j < before.len() ==> out@[j] == before[j],
            forall|j: int|
                0 <= j < i ==> #[trigger] out@[before.len() + j] as nat == octet(a.bits, j),
        decreases n - i,
    {
        assert(o@[i as int] as nat == octet(a.bits, i as int));
        out.push(o[i]);
        i = i + 1;
    }
}

fn route_of(p: &Ipv4Prefix, gw: Ipv4Addr) -> (r: String)
    requires
        p.len <= 32,
    ensures
        r@ == number_list(route_octets(*p, gw)),
{
    let mut e: Vec<u8> = Vec::new();
    e.push(p.len);
    let n: usize = (p.len as usize + 7) / 8;
    push_octets(&mut e, p.net, n);
    let ghost mid = e@;
    push_octets(&mut e, gw, 4);
    proof {
        let v = Seq::new(e@.len(), |i: int| e@[i] as nat);
        let want = route_octets(*p, gw);
        assert(mid.len() == 1 + n);
        assert forall|i: int| 0 <= i < v.len() implies v[i] == want[i] by {
            if 1 <= i < 1 + n {
                assert(mid[1 + (i - 1)] as nat == octet(p.net.bits, i - 1));
            } else if i >= 1 + n {
                assert(e@[mid.len() + (i - 1 - n)] as nat == octet(gw.bits, i - 1 - n));
            }
        }
        assert(v =~= want);
    }
    list_of_numbers(&e)
}

/// The block that gives a workload's clients the routes into the fabric.
pub fn dhcp_option_121(
    prefix: Ipv4Prefix,
    aggregate: &[Ipv4Prefix],
    gw: Ipv4Addr,
    router: Ipv4Addr,
) -> (r: String)
    requires
        prefix.wf(),
        forall|i: int| 0 <= i < aggregate@.len() ==> (#[trigger] aggregate@[i]).len <= 32,
    ensures
        r@ == option_121(prefix, aggregate@, gw, router),
{
    let ghost p = aggregate@;
    let ghost words = Seq::new(p.len(), |i: int| prefix_text(p[i]) + " via "@ + dotted(gw.bits));
    let ghost items = Seq::new(p.len(), |i: int| number_list(route_octets(p[i], gw)));
    let g = gw.to_string();
    let rt = router.to_string();
    let mut routes: Vec<String> = Vec::new();
    let mut list: Vec<String> = Vec::new();
    let mut i: usize = 0;
    while i < aggregate.len()
        invariant
            i <= aggregate@.len(),
            p == aggregate@,
            g@ == dotted(gw.bits),
            words == Seq::new(p.len(), |i: int| prefix_text(p[i]) + " via "@ + dotted(gw.bits)),
            items == Seq::new(p.len(), |i: int| number_list(route_octets(p[i], gw))),
            forall|i: int| 0 <= i < aggregate@.len() ==> (#[trigger] aggregate@[i]).len <= 32,
            routes@.len() == i,
            list@.len() == i,
            forall|j: int|
                0 <= j < i ==> (#[trigger] routes@[j])@ == words[j],
            forall|j: int| 0 <= j < i ==> (#[trigger] list@[j])@ == items[j],
        decreases aggregate@.len() - i,
    {
        let q = aggregate[i];
        assert(aggregate@[i as int].len <= 32);
        routes.push(cat3(q.to_string().as_str(), " via ", g.as_str()));
        list.push(route_of(&q, gw));
        i = i + 1;
    }
    let last = cat2("0.0.0.0/0 via ", rt.as_str());
    routes.push(last);
    assert(texts(routes@) =~= words.push("0.0.0.0/0 via "@ + dotted(router.bits)));
    assert(texts(list@) =~= items);
    let mut ro: Vec<u8> = Vec::new();
    push_octets(&mut ro, router, 4);
    assert(Seq::new(ro@.len(), |i: int| ro@[i] as nat) =~= octets_of(router)) by {
        assert forall|i: int| 0 <= i < 4 implies ro@[i] as nat == octet(router.bits, i) by {
            assert(ro@[0 + i] as nat == octet(router.bits, i));
        }
    }
    let mut s = String::from_str(
        "# dhcpd.conf (ISC): RFC 3442 classless static routes for this workload's subnet. A client that receives\n",
    );
    s.append("# option 121 IGNORES option 3, so the default route (0.0.0.0/0 via ");
    s.append(rt.as_str());
    s.append(") is INSIDE 121 (last entry).\n# ");
    s.append(join_texts(&routes, ", ").as_str());
    s.append("\nsubnet ");
    s.append(prefix.net.to_string().as_str());
    s.append(" netmask ");
    s.append(prefix.netmask().to_string().as_str());
    s.append(" {\n\toption rfc3442-classless-static-routes ");
    s.append(join_texts(&list, ", ").as_str());
    s.append(", 0, ");
    s.append(list_of_numbers(&ro).as_str());
    s.append(";\n}\n");
    s
}

// ---- laws of the aggregate ----

/// A power of two divides a larger one.
proof fn lemma_pow_divides(k: nat, m: nat)
    requires
        k <= m <= 8,
    ensures
        pow2(m) as int % (pow2(k) as int) == 0,
        pow2(k) <= pow2(m),
        pow2(k) > 0,
    decreases m - k,
{
    lemma_pow2_pos(k);
    let b = pow2(k) as int;
    if k == m {
        vstd::arithmetic::div_mod::lemma_mod_self_0(b);
    } else {
        lemma_pow_divides(k, (m - 1) as nat);
        lemma_pow2_unfold(m);
        let a = pow2((m - 1) as nat) as int;
        let n = a / b;
        vstd::arithmetic::div_mod::lemma_fundamental_div_mod(a, b);
        assert(2 * a == b * (2 * n)) by (nonlinear_arith)
            requires
                a == b * n,
        ;
        vstd::arithmetic::div_mod::lemma_mod_multiples_basic(2 * n, b);
        assert((2 * n) * b == b * (2 * n)) by (nonlinear_arith);
    }
}

/// A multiple of the larger span is one of the smaller.
proof fn lemma_coarser(s: int, k: nat, m: nat)
    requires
        k <= m <= 8,
        s % (pow2(m) as int) == 0,
    ensures
        s % (pow2(k) as int) == 0,
{
    lemma_pow_divides(k, m);
    lemma_pow2_pos(m);
    let p = pow2(k) as int;
    let q = pow2(m) as int;
    let i = s / q;
    let n = q / p;
    vstd::arithmetic::div_mod::lemma_fundamental_div_mod(s, q);
    vstd::arithmetic::div_mod::lemma_fundamental_div_mod(q, p);
    assert(s == (n * i) * p) by (nonlinear_arith)
        requires
            s == q * i,
            q == p * n,
    ;
    vstd::arithmetic::div_mod::lemma_mod_multiples_basic(n * i, p);
}

/// Of two aligned runs that meet, the one of the smaller span lies in the other.
proof fn lemma_nested(a: Run, b: Run, x: int)
    requires
        aligned_run(a),
        aligned_run(b),
        a.1 <= b.1,
        in_run(a, x),
        in_run(b, x),
    ensures
        b.0 <= a.0,
        run_end(a) <= run_end(b),
{
    lemma_pow_divides(a.1, b.1);
    let p = pow2(a.1) as int;
    let q = pow2(b.1) as int;
    lemma_coarser(b.0, a.1, b.1);
    let i = a.0 / p;
    let j = b.0 / p;
    let n = q / p;
    assert(a.0 == p * i) by {
        vstd::arithmetic::div_mod::lemma_fundamental_div_mod(a.0, p);
    }
    assert(b.0 == p * j) by {
        vstd::arithmetic::div_mod::lemma_fundamental_div_mod(b.0, p);
    }
    assert(q == p * n) by {
        vstd::arithmetic::div_mod::lemma_fundamental_div_mod(q, p);
    }
    if a.0 < b.0 {
        assert(i < j) by (nonlinear_arith)
            requires
                p * i < p * j,
                p > 0,
        ;
        assert(p * i + p <= p * j) by (nonlinear_arith)
            requires
                i + 1 <= j,
                p > 0,
        ;
    }
    assert(p * i < p * j + p * n) by {
        assert(a.0 <= x < b.0 + q);
    }
    assert(i < j + n) by (nonlinear_arith)
        requires
            p * i < p * j + p * n,
            p > 0,
    ;
    assert(p * i + p <= p * j + p * n) by (nonlinear_arith)
        requires
            i + 1 <= j + n,
            p > 0,
    ;
}

/// No run of an aggregate can be part of a larger one: an aligned run of declared ids that holds a
/// run's first id lies in that run.
pub proof fn lemma_runs_are_maximal(ids: Seq<u8>, runs: Seq<Run>, j: int, c: Run)
    requires
        is_aggregate(ids, runs),
        0 <= j < runs.len(),
        aligned_run(c),
        all_in(ids, c),
        in_run(c, runs[j].0),
    ensures
        runs[j].0 <= c.0,
        run_end(c) <= run_end(runs[j]),
{
    let b = runs[j];
    let x = b.0;
    lemma_pow2_pos(b.1);
    lemma_pow2_pos(c.1);
    assert(aligned_run(b));
    assert(in_run(b, x));
    if c.1 <= b.1 {
        lemma_nested(c, b, x);
    } else {
        lemma_nested(b, c, x);
        assert(c.0 <= x);
        if c.0 == x {
            lemma_not_grown(ids, b, c);
        } else {
            assert(in_run(c, c.0));
            assert(has_id(ids, c.0));
            let t = choose|t: int| 0 <= t < runs.len() && in_run(#[trigger] runs[t], c.0);
            let a = runs[t];
            assert(aligned_run(a));
            lemma_pow2_pos(a.1);
            if t > j {
                assert(run_end(runs[j]) <= runs[t].0);
                assert(false);
            }
            assert(t != j);
            assert(run_end(runs[t]) <= runs[j].0);
            if a.1 >= c.1 {
                lemma_nested(c, a, c.0);
                assert(false);
            }
            lemma_nested(a, c, c.0);
            assert(a.0 == c.0);
            lemma_not_grown(ids, a, c);
        }
        assert(false);
    }
}

/// A run that is the beginning of a larger one of declared ids can be grown.
proof fn lemma_not_grown(ids: Seq<u8>, a: Run, c: Run)
    requires
        aligned_run(a),
        aligned_run(c),
        all_in(ids, c),
        a.0 == c.0,
        a.1 < c.1,
    ensures
        !grown(ids, a),
{
    let k = a.1 + 1;
    lemma_coarser(c.0, k, c.1);
    lemma_pow_divides(k, c.1);
    assert forall|id: int| #[trigger] in_run((a.0, k), id) implies has_id(ids, id) by {
        assert(in_run(c, id));
    }
}

/// Different numbers below a bound are no more than the bound.
proof fn lemma_no_more_than(f: Seq<int>, n: int)
    requires
        0 <= n,
        f.no_duplicates(),
        forall|j: int| 0 <= j < f.len() ==> 0 <= #[trigger] f[j] < n,
    ensures
        f.len() <= n,
{
    let s = f.to_set();
    f.unique_seq_to_set();
    vstd::set_lib::lemma_int_range(0, n);
    assert(s.subset_of(vstd::set_lib::set_int_range(0, n))) by {
        assert forall|x: int| #[trigger] s.contains(x) implies vstd::set_lib::set_int_range(
            0,
            n,
        ).contains(x) by {
            let j = choose|j: int| 0 <= j < f.len() && f[j] == x;
            assert(f[j] == x);
        }
    }
    vstd::set_lib::lemma_len_subset(s, vstd::set_lib::set_int_range(0, n));
}

/// An aligned run of declared ids holds the first id of one run of an aggregate at most.
proof fn lemma_one_run_begins(ids: Seq<u8>, runs: Seq<Run>, a: int, b: int, c: Run)
    requires
        is_aggregate(ids, runs),
        0 <= a < runs.len(),
        0 <= b < runs.len(),
        aligned_run(c),
        all_in(ids, c),
        in_run(c, runs[a].0),
        in_run(c, runs[b].0),
    ensures
        a == b,
{
    lemma_runs_are_maximal(ids, runs, a, c);
    lemma_runs_are_maximal(ids, runs, b, c);
    lemma_pow2_pos(c.1);
    if a < b {
        assert(run_end(runs[a]) <= runs[b].0);
    } else if b < a {
        assert(run_end(runs[b]) <= runs[a].0);
    }
}

/// No aligned runs of exactly the declared ids are fewer than those of an aggregate.
proof fn lemma_fewest_runs(ids: Seq<u8>, runs: Seq<Run>, other: Seq<Run>)
    requires
        is_aggregate(ids, runs),
        all_aligned(other),
        covers(ids, other),
    ensures
        runs.len() <= other.len(),
{
    let f = Seq::new(
        runs.len(),
        |j: int| choose|i: int| 0 <= i < other.len() && in_run(#[trigger] other[i], runs[j].0),
    );
    assert forall|j: int| 0 <= j < runs.len() implies {
        let i = #[trigger] f[j];
        0 <= i < other.len() && in_run(other[i], runs[j].0)
    } by {
        lemma_pow2_pos(runs[j].1);
        assert(aligned_run(runs[j]));
        assert(in_run(runs[j], runs[j].0));
        assert(has_id(ids, runs[j].0));
    }
    assert forall|a: int, b: int| 0 <= a < f.len() && 0 <= b < f.len() && a != b implies f[a]
        != f[b] by {
        if f[a] == f[b] {
            let c = other[f[a]];
            assert(aligned_run(c));
            assert(all_in(ids, c)) by {
                assert forall|id: int| #[trigger] in_run(c, id) implies has_id(ids, id) by {
                    assert(in_run(other[f[a]], id));
                }
            }
            lemma_one_run_begins(ids, runs, a, b, c);
        }
    }
    lemma_no_more_than(f, other.len() as int);
}

/// Is the address in the block `10.<id>.0.0/16` of a declared zone?
pub open spec fn in_a_block(ids: Seq<u8>, a: Ipv4Addr) -> bool {
    octet(a.bits, 0) == 10 && has_id(ids, octet(a.bits, 1) as int)
}

/// Does one of the prefixes hold the address?
pub open spec fn some_holds(p: Seq<Ipv4Prefix>, a: Ipv4Addr) -> bool {
    exists|i: int| 0 <= i < p.len() && (#[trigger] p[i]).holds(a)
}

/// The first address of a zone's block.
pub open spec fn block_start(id: int) -> Ipv4Addr {
    Ipv4Addr { bits: quad(10, id, 0, 0) as u32 }
}

/// A prefix holds the addresses from its own on, as many as it spans, where that is a multiple of
/// its span, and none otherwise.
proof fn lemma_held(p: Ipv4Prefix, a: Ipv4Addr)
    requires
        p.wf(),
    ensures
        p.holds(a) <==> p.net.bits as int % span(p.len as int) == 0 && p.net.bits <= a.bits
            < p.net.bits + span(p.len as int),
{
    lemma_span(p.len as int);
    let n = span(p.len as int);
    let x = a.bits as int;
    let y = p.net.bits as int;
    vstd::arithmetic::div_mod::lemma_fundamental_div_mod(x, n);
    vstd::arithmetic::div_mod::lemma_mod_bound(x, n);
    let q = x / n;
    if p.holds(a) {
        assert(y == n * q);
        vstd::arithmetic::div_mod::lemma_mod_multiples_basic(q, n);
        assert(q * n == n * q) by (nonlinear_arith);
    }
    if y % n == 0 && y <= x < y + n {
        vstd::arithmetic::div_mod::lemma_fundamental_div_mod(y, n);
        let r = y / n;
        assert(q == r) by (nonlinear_arith)
            requires
                n > 0,
                n * r <= x < n * r + n,
                n * q <= x < n * q + n,
        ;
    }
}

/// A prefix that is no longer than a block's spans a power of two of blocks.
proof fn lemma_wide(len: int)
    requires
        0 <= len <= 16,
    ensures
        span(len) == 65536 * pow2((16 - len) as nat),
        span(7) == 33554432,
        span(8) == 16777216,
        span(16) == 65536,
{
    lemma2_to64();
    vstd::arithmetic::power2::lemma_pow2_adds(16, (16 - len) as nat);
}

/// What is a multiple of a multiple is a multiple.
proof fn lemma_multiple(a: int, b: int, c: int)
    requires
        0 < c <= b,
        a % b == 0,
        b % c == 0,
    ensures
        a % c == 0,
{
    vstd::arithmetic::div_mod::lemma_fundamental_div_mod(a, b);
    vstd::arithmetic::div_mod::lemma_fundamental_div_mod(b, c);
    let i = a / b;
    let j = b / c;
    assert(a == (j * i) * c) by (nonlinear_arith)
        requires
            a == b * i,
            b == c * j,
    ;
    vstd::arithmetic::div_mod::lemma_mod_multiples_basic(j * i, c);
}

/// Two different multiples of a number are at least that number apart.
proof fn lemma_next(a: int, b: int, n: int)
    requires
        n > 0,
        a % n == 0,
        b % n == 0,
        a < b,
    ensures
        a + n <= b,
{
    vstd::arithmetic::div_mod::lemma_fundamental_div_mod(a, n);
    vstd::arithmetic::div_mod::lemma_fundamental_div_mod(b, n);
    let i = a / n;
    let j = b / n;
    assert(n * i + n <= n * j) by (nonlinear_arith)
        requires
            n > 0,
            n * i < n * j,
    ;
}

/// A block's first address is in it.
proof fn lemma_block_start(id: int)
    requires
        0 <= id < 256,
    ensures
        block_start(id).bits == 167772160 + id * 65536,
        octet(block_start(id).bits, 0) == 10,
        octet(block_start(id).bits, 1) == id,
{
    let x = 167772160 + id * 65536;
    assert(x / 16777216 == 10);
    assert(x / 65536 == 2560 + id);
    assert((2560 + id) % 256 == id);
}

/// A prefix of nothing but declared blocks that holds the first addresses of two is that of a run
/// of declared ids, which has both.
proof fn lemma_run_behind(ids: Seq<u8>, p: Ipv4Prefix, x: int, y: int) -> (c: Run)
    requires
        p.wf(),
        forall|a: Ipv4Addr| #[trigger] p.holds(a) ==> in_a_block(ids, a),
        0 <= x < y < 256,
        p.holds(block_start(x)),
        p.holds(block_start(y)),
    ensures
        aligned_run(c),
        all_in(ids, c),
        in_run(c, x),
        in_run(c, y),
{
    let len = p.len as int;
    let n = span(len);
    let net = p.net.bits as int;
    lemma_span(len);
    lemma_block_start(x);
    lemma_block_start(y);
    lemma_held(p, block_start(x));
    lemma_held(p, block_start(y));
    assert(n > 65536);
    if len > 16 {
        lemma_span_divides(16, len);
        lemma_wide(16);
    }
    lemma_wide(len);
    let ten = 167772160int;
    let eleven = 184549376int;
    if len < 8 {
        let w = 33554432int;
        lemma_span_divides(len, 7);
        lemma_multiple(net, n, w);
        let beyond = net + n;
        lemma_mod_sub(0, n, w);
        lemma_mod_sub(net, -n, w);
        assert(beyond > ten);
        lemma_next(ten, beyond, w);
        let a = Ipv4Addr { bits: eleven as u32 };
        lemma_held(p, a);
        assert(in_a_block(ids, a));
        assert(false);
    }
    let k = (16 - len) as nat;
    let m = pow2(k) as int;
    lemma_pow2_pos(k);
    lemma_span_divides(8, len);
    assert(ten % n == 0) by {
        lemma_multiple(ten, 16777216, n);
    }
    assert(eleven % n == 0) by {
        lemma_multiple(eleven, 16777216, n);
    }
    if net < ten {
        lemma_next(net, ten, n);
    }
    lemma_next(net, eleven, n);
    let u = net / 65536;
    assert(net % 65536 == 0) by {
        lemma_span_divides(len, 16);
        lemma_multiple(net, n, 65536);
    }
    assert(u % m == 0) by {
        let q = net / n;
        vstd::arithmetic::div_mod::lemma_fundamental_div_mod(net, n);
        assert(u == q * m) by (nonlinear_arith)
            requires
                net == n * q,
                n == 65536 * m,
                net == 65536 * u,
        ;
        vstd::arithmetic::div_mod::lemma_mod_multiples_basic(q, m);
    }
    let s = u - 2560;
    assert(s % m == 0) by {
        lemma2_to64();
        lemma_pow_divides(k, 8);
        lemma_multiple(2560, 256, m);
        lemma_mod_sub(u, 2560, m);
    }
    let c = (s, k);
    assert(net == 167772160 + s * 65536);
    assert(run_end(c) <= 256);
    assert(aligned_run(c));
    assert forall|id: int| #[trigger] in_run(c, id) implies has_id(ids, id) by {
        lemma_block_start(id);
        lemma_held(p, block_start(id));
        assert(in_a_block(ids, block_start(id)));
    }
    c
}

/// The difference of two multiples is one.
proof fn lemma_mod_sub(a: int, b: int, n: int)
    requires
        n > 0,
        a % n == 0,
        b % n == 0,
    ensures
        (a - b) % n == 0,
{
    vstd::arithmetic::div_mod::lemma_fundamental_div_mod(a, n);
    vstd::arithmetic::div_mod::lemma_fundamental_div_mod(b, n);
    let i = a / n;
    let j = b / n;
    assert(a - b == (i - j) * n) by (nonlinear_arith)
        requires
            a == n * i,
            b == n * j,
    ;
    vstd::arithmetic::div_mod::lemma_mod_multiples_basic(i - j, n);
}

/// The prefixes of an aggregate hold the addresses of the declared blocks and no others.
pub proof fn lemma_aggregate_holds_the_blocks(ids: Seq<u8>, p: Seq<Ipv4Prefix>, a: Ipv4Addr)
    requires
        forall|i: int| 0 <= i < p.len() ==> is_block(#[trigger] p[i]),
        is_aggregate(ids, runs_of(p)),
    ensures
        some_holds(p, a) <==> in_a_block(ids, a),
{
    let runs = runs_of(p);
    let x = octet(a.bits, 1) as int;
    let bits = a.bits as int;
    assert(octet(a.bits, 0) == 10 ==> 167772160 + x * 65536 <= bits < 167772160 + (x + 1) * 65536)
        by {
        assert(bits / 65536 == (bits / 16777216) * 256 + (bits / 65536) % 256);
    }
    assert forall|i: int| 0 <= i < p.len() implies (#[trigger] p[i]).holds(a) == (octet(a.bits, 0)
        == 10 && in_run(runs[i], x)) by {
        let q = p[i];
        let r = runs[i];
        let len = q.len as int;
        let n = span(len);
        assert(is_block(q));
        assert(aligned_run(r));
        lemma_wide(len);
        lemma_held(q, a);
        let m = pow2(r.1) as int;
        lemma_pow2_pos(r.1);
        assert(q.net.bits == 167772160 + r.0 * 65536);
        assert(q.net.bits as int % n == 0) by {
            lemma2_to64();
            lemma_pow_divides(r.1, 8);
            lemma_multiple(-2560, 256, m);
            let u = 2560 + r.0;
            lemma_mod_sub(r.0, -2560, m);
            let t = u / m;
            vstd::arithmetic::div_mod::lemma_fundamental_div_mod(u, m);
            assert(65536 * u == t * n) by (nonlinear_arith)
                requires
                    u == m * t,
                    n == 65536 * m,
            ;
            vstd::arithmetic::div_mod::lemma_mod_multiples_basic(t, n);
        }
    }
    if some_holds(p, a) {
        let i = choose|i: int| 0 <= i < p.len() && (#[trigger] p[i]).holds(a);
        assert(in_run(runs[i], x));
    }
    if in_a_block(ids, a) {
        let i = choose|i: int| 0 <= i < runs.len() && in_run(#[trigger] runs[i], x);
        assert(p[i].holds(a));
    }
}

/// The aggregate is the smallest: no list of prefixes that holds the addresses of the declared
/// blocks and no others is shorter.
pub proof fn lemma_aggregate_is_smallest(
    ids: Seq<u8>,
    p: Seq<Ipv4Prefix>,
    other: Seq<Ipv4Prefix>,
)
    requires
        is_aggregate(ids, runs_of(p)),
        forall|i: int| 0 <= i < other.len() ==> (#[trigger] other[i]).wf(),
        forall|a: Ipv4Addr| #[trigger] some_holds(other, a) <==> in_a_block(ids, a),
    ensures
        p.len() <= other.len(),
{
    let runs = runs_of(p);
    let f = Seq::new(
        runs.len(),
        |j: int|
            choose|i: int|
                0 <= i < other.len() && (#[trigger] other[i]).holds(block_start(runs[j].0)),
    );
    assert forall|j: int| 0 <= j < runs.len() implies {
        let i = #[trigger] f[j];
        0 <= i < other.len() && other[i].holds(block_start(runs[j].0))
    } by {
        let x = runs[j].0;
        lemma_pow2_pos(runs[j].1);
        assert(aligned_run(runs[j]));
        assert(in_run(runs[j], x));
        assert(has_id(ids, x));
        lemma_block_start(x);
        assert(some_holds(other, block_start(x)));
    }
    assert forall|a: int, b: int| 0 <= a < f.len() && 0 <= b < f.len() && a != b implies f[a]
        != f[b] by {
        if f[a] == f[b] {
            let q = other[f[a]];
            assert forall|h: Ipv4Addr| #[trigger] q.holds(h) implies in_a_block(ids, h) by {
                assert(some_holds(other, h));
            }
            let x = runs[a].0;
            let y = runs[b].0;
            lemma_pow2_pos(runs[a].1);
            lemma_pow2_pos(runs[b].1);
            assert(aligned_run(runs[a]));
            assert(aligned_run(runs[b]));
            if a < b {
                assert(run_end(runs[a]) <= runs[b].0);
                let c = lemma_run_behind(ids, q, x, y);
                lemma_one_run_begins(ids, runs, a, b, c);
            } else {
                assert(run_end(runs[b]) <= runs[a].0);
                let c = lemma_run_behind(ids, q, y, x);
                lemma_one_run_begins(ids, runs, a, b, c);
            }
        }
    }
    lemma_no_more_than(f, other.len() as int);
}

/// A run of one aggregate is a run of every other of the same ids.
proof fn lemma_run_is_shared(ids: Seq<u8>, a: Seq<Run>, b: Seq<Run>, j: int) -> (t: int)
    requires
        is_aggregate(ids, a),
        is_aggregate(ids, b),
        0 <= j < a.len(),
    ensures
        0 <= t < b.len(),
        a[j] == b[t],
{
    let r = a[j];
    assert(aligned_run(r));
    lemma_pow2_pos(r.1);
    assert(in_run(r, r.0));
    assert(has_id(ids, r.0));
    let t = choose|t: int| 0 <= t < b.len() && in_run(#[trigger] b[t], r.0);
    let q = b[t];
    assert(aligned_run(q));
    lemma_pow2_pos(q.1);
    assert(all_in(ids, q)) by {
        assert forall|id: int| #[trigger] in_run(q, id) implies has_id(ids, id) by {
            assert(in_run(b[t], id));
        }
    }
    assert(all_in(ids, r)) by {
        assert forall|id: int| #[trigger] in_run(r, id) implies has_id(ids, id) by {
            assert(in_run(a[j], id));
        }
    }
    lemma_runs_are_maximal(ids, a, j, q);
    lemma_runs_are_maximal(ids, b, t, r);
    if q.1 < r.1 {
        lemma_pow2_strictly_increases(q.1, r.1);
    } else if r.1 < q.1 {
        lemma_pow2_strictly_increases(r.1, q.1);
    }
    t
}

proof fn lemma_aggregates_agree(ids: Seq<u8>, a: Seq<Run>, b: Seq<Run>, n: int)
    requires
        is_aggregate(ids, a),
        is_aggregate(ids, b),
        0 <= n <= a.len(),
        a.len() == b.len(),
    ensures
        forall|i: int| 0 <= i < n ==> #[trigger] a[i] == b[i],
    decreases n,
{
    if n > 0 {
        let j = n - 1;
        lemma_aggregates_agree(ids, a, b, j);
        let t = lemma_run_is_shared(ids, a, b, j);
        let s = lemma_run_is_shared(ids, b, a, j);
        lemma_pow2_pos(a[j].1);
        lemma_pow2_pos(b[j].1);
        if t < j {
            lemma_pow2_pos(a[t].1);
            assert(a[t] == b[t]);
            assert(run_end(a[t]) <= a[j].0);
        }
        if s < j {
            lemma_pow2_pos(a[s].1);
            assert(a[s] == b[s]);
            assert(run_end(b[s]) <= b[j].0);
        }
        if t > j {
            assert(run_end(b[j]) <= b[t].0);
            if s > j {
                assert(run_end(a[j]) <= a[s].0);
            }
        }
        assert(a[j] == b[j]);
    }
}

/// The set of ids decides the aggregate: their order and how often one is named are no matter.
pub proof fn lemma_aggregate_is_unique(x: Seq<u8>, y: Seq<u8>, a: Seq<Run>, b: Seq<Run>)
    requires
        is_aggregate(x, a),
        is_aggregate(y, b),
        forall|id: int| #[trigger] has_id(x, id) == has_id(y, id),
    ensures
        a == b,
{
    assert forall|i: int| 0 <= i < b.len() implies grown(x, #[trigger] b[i]) by {
        let r = (b[i].0, b[i].1 + 1);
        if all_in(x, r) {
            assert(all_in(y, r)) by {
                assert forall|id: int| #[trigger] in_run(r, id) implies has_id(y, id) by {
                    assert(has_id(x, id));
                }
            }
        }
        assert(grown(y, b[i]));
    }
    assert(covers(x, b)) by {
        assert forall|id: int| 0 <= id < 256 implies (#[trigger] has_id(x, id) <==> exists|i: int|
            0 <= i < b.len() && in_run(#[trigger] b[i], id)) by {
            assert(has_id(x, id) == has_id(y, id));
        }
    }
    lemma_fewest_runs(x, a, b);
    lemma_fewest_runs(x, b, a);
    lemma_aggregates_agree(x, a, b, a.len() as int);
    assert(a =~= b);
}

// ---- the bridge guard ----

/// The two rules that keep the gateway's address from being claimed or asked for through a port
/// that leads off this host.
pub open spec fn guard_rules(port: Seq<char>, vid: u16, gw: Ipv4Addr) -> Seq<char> {
    let at = "        iifname \""@ + port + "\" vlan id "@ + dec(vid as nat) + " vlan type arp arp "@;
    at + "saddr ip "@ + dotted(gw.bits) + " counter drop comment \"gw-claim-from-uplink\"\n"@ + at
        + "daddr ip "@ + dotted(gw.bits) + " counter drop comment \"gw-request-from-uplink\"\n"@
}

/// The rules for the first `n` ports of an uplink.
pub open spec fn port_rules(gw: Ipv4Addr, up: UplinkV, n: int) -> Seq<char>
    decreases n,
{
    if n <= 0 {
        seq![]
    } else {
        port_rules(gw, up, n - 1) + guard_rules(up.ports[n - 1], up.vid, gw)
    }
}

/// The gateways and the uplinks that they are guarded on.
pub open spec fn guards_view(g: Seq<(Ipv4Addr, Uplink)>) -> Seq<(Ipv4Addr, UplinkV)> {
    Seq::new(g.len(), |i: int| (g[i].0, g[i].1@))
}

/// The rules for the first `n` gateways.
pub open spec fn all_rules(g: Seq<(Ipv4Addr, UplinkV)>, n: int) -> Seq<char>
    decreases n,
{
    if n <= 0 {
        seq![]
    } else {
        all_rules(g, n - 1) + port_rules(g[n - 1].0, g[n - 1].1, g[n - 1].1.ports.len() as int)
    }
}

pub open spec fn bridge_text(g: Seq<(Ipv4Addr, UplinkV)>) -> Seq<char> {
    "table bridge cfab\ndelete table bridge cfab\ntable bridge cfab {\n    chain pre {\n        type filter hook prerouting priority filter; policy accept;\n"@
        + all_rules(g, g.len() as int) + "    }\n}\n"@
}

fn guard(port: &str, vid: u16, gw: Ipv4Addr) -> (r: String)
    ensures
        r@ == guard_rules(port@, vid, gw),
{
    let at = cat5(
        "        iifname \"",
        port,
        "\" vlan id ",
        dec_u64(vid as u64).as_str(),
        " vlan type arp arp ",
    );
    let a = gw.to_string();
    let mut s = at.clone();
    s.append("saddr ip ");
    s.append(a.as_str());
    s.append(" counter drop comment \"gw-claim-from-uplink\"\n");
    s.append(at.as_str());
    s.append("daddr ip ");
    s.append(a.as_str());
    s.append(" counter drop comment \"gw-request-from-uplink\"\n");
    s
}

/// The table of bridge rules that drop every ARP for a gateway that comes from off this host. It
/// replaces what an earlier generation left.
pub fn bridge_table(guards: &Vec<(Ipv4Addr, Uplink)>) -> (r: String)
    ensures
        r@ == bridge_text(guards_view(guards@)),
{
    let ghost g = guards_view(guards@);
    let mut rules = String::new();
    assert(rules@ =~= seq![]);
    let mut i: usize = 0;
    while i < guards.len()
        invariant
            i <= guards@.len(),
            g == guards_view(guards@),
            rules@ == all_rules(g, i as int),
        decreases guards@.len() - i,
    {
        let gw = guards[i].0;
        let up = &guards[i].1;
        let ghost before = rules@;
        let mut j: usize = 0;
        assert(before + seq![] =~= before);
        while j < up.ports.len()
            invariant
                j <= up.ports@.len(),
                rules@ == before + port_rules(gw, up@, j as int),
            decreases up.ports@.len() - j,
        {
            let x = guard(up.ports[j].as_str(), up.vid, gw);
            proof {
                let e = port_rules(gw, up@, j as int);
                assert((before + e) + x@ =~= before + (e + x@));
            }
            rules.append(x.as_str());
            j = j + 1;
        }
        i = i + 1;
    }
    cat3(
        "table bridge cfab\ndelete table bridge cfab\ntable bridge cfab {\n    chain pre {\n        type filter hook prerouting priority filter; policy accept;\n",
        rules.as_str(),
        "    }\n}\n",
    )
}

} // verus!
