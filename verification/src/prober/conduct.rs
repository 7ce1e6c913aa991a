//! What the prober makes of what it hears, and what it does about it.

use vstd::prelude::*;

use crate::derive::{FallbackRowV, GwRowV, MemberViewV};
use crate::ipv4::{lemma_quad_octets, octet, parse_dotted, quad, Ipv4Addr};
use crate::model::lookup::lemma_place_of;
use crate::prober::asking::{
    asked_targets, filled, port_asked, port_asks, recent_targets, target_place,
};
use crate::prober::decide::{
    best, decision, lemma_best, named, observed, precharged, rank, usable, CandidateV,
};
use crate::prober::frame::{is_reply, probe_bytes, router_id};
use crate::prober::leg::{
    all_evidence, concluded, grace_of, port_concluded, port_observed, port_verdict, FallbackV,
    KindV, LegV,
};
use crate::prober::moving::{leg_moved, port_named};
use crate::prober::passive::{any_lively, lively, verdict, Evidence, Verdict, Windows};
use crate::prober::port::{
    answered, cand_of, evidence_of, frame_heard, frames_heard, frames_of, netdev_read, port_usable,
    usability_noted, with_recent, without, Heard, PortReading, PortV,
};
use crate::prober::{fallback_leg, in_time, ingress_leg, leg_row, windows_of};
use crate::text::trim;
use crate::time::{Duration, Instant};

verus! {

// ---- one frame ----

/// On a leg that listens the hello of any expected peer is evidence, whichever place it has among
/// them: the wire has heard a peer now, that peer is the one heard last, and the tick has heard a
/// hello.
pub proof fn lemma_a_hello_of_any_peer_counts(
    p: PortV,
    h: Heard,
    f: Seq<u8>,
    self_rid: u32,
    peers: Seq<u32>,
    k: int,
    targets: Seq<Ipv4Addr>,
    is_active: bool,
    now: Instant,
)
    requires
        0 <= k < peers.len(),
        peers[k] != self_rid,
        router_id(f) == Some(peers[k] as int),
    ensures
        ({
            let r = frame_heard(p, h, f, self_rid, peers, targets, is_active, now);
            &&& r.1.hello
            &&& r.1.reply == h.reply
            &&& r.0.peer_heard == Some(now)
            &&& r.0.recent.len() > 0
            &&& r.0.recent[0] == peers[k]
            &&& r.0 == (PortV { peer_heard: r.0.peer_heard, recent: r.0.recent, ..p })
        }),
{
}

/// A hello of nobody who is expected says nothing.
pub proof fn lemma_a_strangers_hello_says_nothing(
    p: PortV,
    h: Heard,
    f: Seq<u8>,
    self_rid: u32,
    peers: Seq<u32>,
    targets: Seq<Ipv4Addr>,
    is_active: bool,
    now: Instant,
)
    requires
        router_id(f) is Some,
        router_id(f) != Some(self_rid as int),
        forall|k: int| 0 <= k < peers.len() ==> router_id(f) != Some(#[trigger] peers[k] as int),
    ensures
        frame_heard(p, h, f, self_rid, peers, targets, is_active, now) == (p, h),
{
}

/// Our own hello that comes back shows that a backup wire is live, and nothing of the wire that
/// it went out on.
pub proof fn lemma_our_own_hello_counts_on_a_backup_only(
    p: PortV,
    f: Seq<u8>,
    self_rid: u32,
    peers: Seq<u32>,
    targets: Seq<Ipv4Addr>,
    is_active: bool,
    now: Instant,
)
    requires
        router_id(f) == Some(self_rid as int),
    ensures
        ({
            let none = Heard { hello: false, reply: false };
            let r = frame_heard(p, none, f, self_rid, peers, targets, is_active, now);
            &&& r.1.hello == !is_active
            &&& !r.1.reply
            &&& r.0 == (PortV { self_heard: Some(now), ..p })
        }),
{
}

/// What is no hello counts only as the answer that a port under suspicion waits for: an ARP reply
/// to its own address from one of those it asked.
pub proof fn lemma_an_answer_counts_only_where_asked(
    p: PortV,
    h: Heard,
    f: Seq<u8>,
    self_rid: u32,
    peers: Seq<u32>,
    targets: Seq<Ipv4Addr>,
    is_active: bool,
    now: Instant,
)
    requires
        router_id(f) is None,
    ensures
        ({
            let r = frame_heard(p, h, f, self_rid, peers, targets, is_active, now);
            &&& r.0 == p
            &&& r.1.hello == h.hello
            &&& r.1.reply <==> h.reply || (p.escalating && is_reply(f, p.mac, targets))
        }),
{
}

/// The peers that a wire has heard, last heard first: the one just heard leads, no other is lost
/// but the oldest of five, and nobody is listed twice.
pub proof fn lemma_the_last_peer_leads(recent: Seq<u32>, rid: u32, k: int)
    requires
        recent.len() <= 4,
        forall|i: int, j: int|
            0 <= i < j < recent.len() ==> #[trigger] recent[i] != #[trigger] recent[j],
        0 <= k <= recent.len(),
        k < recent.len() ==> recent[k] == rid,
        k == recent.len() ==> !recent.contains(rid),
    ensures
        k < recent.len() ==> with_recent(recent, rid) == seq![rid] + recent.take(k) + recent.skip(
            k + 1,
        ),
        k == recent.len() && k < 4 ==> with_recent(recent, rid) == seq![rid] + recent,
        k == recent.len() && k == 4 ==> with_recent(recent, rid) == seq![rid] + recent.take(3),
{
    let n = recent.len() as int;
    if k < n {
        lemma_without_once(recent, rid, k, n);
        assert(seq![rid] + (recent.take(k) + recent.subrange(k + 1, n)) =~= seq![rid]
            + recent.take(k) + recent.skip(k + 1));
    } else {
        lemma_without_none(recent, rid, n);
        assert(recent.take(n) =~= recent);
        if n == 4 {
            assert((seq![rid] + recent).take(4) =~= seq![rid] + recent.take(3));
        }
    }
}

proof fn lemma_without_none(s: Seq<u32>, rid: u32, n: int)
    requires
        0 <= n <= s.len(),
        forall|i: int| 0 <= i < n ==> #[trigger] s[i] != rid,
    ensures
        without(s, rid, n) == s.take(n),
    decreases n,
{
    if n > 0 {
        lemma_without_none(s, rid, n - 1);
        assert(s.take(n - 1).push(s[n - 1]) =~= s.take(n));
    } else {
        assert(s.take(0) =~= seq![]);
    }
}

proof fn lemma_without_once(s: Seq<u32>, rid: u32, k: int, n: int)
    requires
        0 <= k < n <= s.len(),
        s[k] == rid,
        forall|i: int, j: int| 0 <= i < j < s.len() ==> #[trigger] s[i] != #[trigger] s[j],
    ensures
        without(s, rid, n) == s.take(k) + s.subrange(k + 1, n),
    decreases n,
{
    if n == k + 1 {
        lemma_without_none(s, rid, k);
        assert(s.take(k) + s.subrange(k + 1, n) =~= s.take(k));
    } else {
        lemma_without_once(s, rid, k, n - 1);
        assert((s.take(k) + s.subrange(k + 1, n - 1)).push(s[n - 1]) =~= s.take(k) + s.subrange(
            k + 1,
            n,
        ));
    }
}

/// A hello is an IPv4 packet of OSPF to 224.0.0.5, behind one VLAN tag or none, and its Router ID
/// is the second number of the OSPF header. Nothing else is one.
pub proof fn lemma_what_a_hello_is(f: Seq<u8>, ip: int, rid: u32)
    requires
        f.len() >= 18,
        ip == 14 || ip == 18,
        (ip == 18) == ((f[12] == 0x81 && f[13] == 0x00) || (f[12] == 0x88 && f[13] == 0xa8)),
    ensures
        router_id(f) == Some(rid as int) <==> {
            let body = ip + (f[ip] as int % 16) * 4;
            &&& f[ip - 2] == 0x08
            &&& f[ip - 1] == 0x00
            &&& f.len() > ip
            &&& f[ip] % 16 >= 5
            &&& f.len() >= body + 8
            &&& f[ip + 9] == 89
            &&& f[ip + 16] == 224
            &&& f[ip + 17] == 0
            &&& f[ip + 18] == 0
            &&& f[ip + 19] == 5
            &&& f[body + 4] as int * 16777216 + f[body + 5] as int * 65536 + f[body + 6] as int
                * 256 + f[body + 7] as int == rid
        },
{
}

/// An answer is an ARP reply for IPv4 over Ethernet, behind one VLAN tag or none, to the address
/// that asked, from one of those that were asked.
pub proof fn lemma_what_an_answer_is(f: Seq<u8>, a: int, mac: Seq<u8>, targets: Seq<Ipv4Addr>)
    requires
        f.len() >= 18,
        a == 14 || a == 18,
        mac.len() == 6,
        (a == 18) == ((f[12] == 0x81 && f[13] == 0x00) || (f[12] == 0x88 && f[13] == 0xa8)),
    ensures
        is_reply(f, mac, targets) <==> {
            &&& f[a - 2] == 0x08
            &&& f[a - 1] == 0x06
            &&& f.len() >= a + 28
            &&& f[a] == 0 && f[a + 1] == 1
            &&& f[a + 2] == 8 && f[a + 3] == 0
            &&& f[a + 4] == 6 && f[a + 5] == 4
            &&& f[a + 6] == 0 && f[a + 7] == 2
            &&& forall|i: int| 0 <= i < 6 ==> f[a + 18 + i] == #[trigger] mac[i]
            &&& exists|k: int|
                0 <= k < targets.len() && (#[trigger] targets[k]).bits == f[a + 14] as int
                    * 16777216 + f[a + 15] as int * 65536 + f[a + 16] as int * 256 + f[a
                    + 17] as int
        },
{
    if f.len() >= a + 28 {
        let s = f.subrange(a + 18, a + 24);
        assert forall|i: int| 0 <= i < 6 implies s[i] == f[a + 18 + i] by {}
        if forall|i: int| 0 <= i < 6 ==> f[a + 18 + i] == #[trigger] mac[i] {
            assert(s =~= mac);
        }
        if s == mac {
            assert forall|i: int| 0 <= i < 6 implies f[a + 18 + i] == #[trigger] mac[i] by {
                assert(s[i] == mac[i]);
            }
        }
    }
}

/// A probe is a broadcast ARP request from the port's own address, with no sender address, for
/// the address that is asked.
pub proof fn lemma_what_a_probe_is(mac: Seq<u8>, ip: u32)
    requires
        mac.len() == 6,
    ensures
        ({
            let f = probe_bytes(mac, ip);
            &&& f.len() == 42
            &&& forall|i: int| 0 <= i < 6 ==> #[trigger] f[i] == 255
            &&& f.subrange(6, 12) == mac
            &&& f[12] == 0x08 && f[13] == 0x06
            &&& f[14] == 0 && f[15] == 1 && f[16] == 8 && f[17] == 0 && f[18] == 6 && f[19] == 4
            &&& f[20] == 0 && f[21] == 1
            &&& f.subrange(22, 28) == mac
            &&& forall|i: int| 28 <= i < 38 ==> #[trigger] f[i] == 0
            &&& f[38] as int * 16777216 + f[39] as int * 65536 + f[40] as int * 256 + f[41] as int
                == ip
        }),
{
    let f = probe_bytes(mac, ip);
    lemma_quad_octets(ip);
    assert(f.subrange(6, 12) =~= mac);
    assert(f.subrange(22, 28) =~= mac);
}

// ---- the frames of a tick ----

proof fn lemma_frames_before(
    p: PortV,
    frames: Seq<Seq<u8>>,
    n: int,
    self_rid: u32,
    peers: Seq<u32>,
    targets: Seq<Ipv4Addr>,
    is_active: bool,
    now: Instant,
    i: int,
    k: int,
)
    requires
        0 <= i < n <= frames.len(),
        0 <= k < peers.len(),
        peers[k] != self_rid,
        router_id(frames[i]) == Some(peers[k] as int),
    ensures
        ({
            let b = frames_heard(p, frames, n, self_rid, peers, targets, is_active, now);
            b.1.hello && b.0.peer_heard == Some(now)
        }),
    decreases n,
{
    if i < n - 1 {
        lemma_frames_before(p, frames, n - 1, self_rid, peers, targets, is_active, now, i, k);
    }
}

/// A wire on which any expected peer was heard in a tick is live after it, whatever else arrived:
/// it is reachable, under no suspicion and not condemned, and it heard a peer now.
pub proof fn lemma_a_peer_heard_makes_the_wire_live(
    f: FallbackV,
    p: PortV,
    r: PortReading,
    active: Option<Seq<char>>,
    now: Instant,
    i: int,
    k: int,
)
    requires
        r.listen is None,
        0 <= i < r.frames@.len(),
        0 <= k < f.peers.len(),
        f.peers[k] != f.self_rid,
        router_id(r.frames@[i]@) == Some(f.peers[k] as int),
    ensures
        ({
            let q = port_observed(KindV::Fallback(f), p, r, active, now);
            &&& q.peer_heard == Some(now)
            &&& q.last_reply == Some(now)
            &&& q.state.reachable
            &&& !q.escalating
            &&& !q.hello_dead
        }),
{
    let q = netdev_read(p, r.carrier, r.mii_status, now, grace_of(KindV::Fallback(f)));
    let frames = frames_of(r.frames@);
    assert(frames[i] == r.frames@[i]@);
    lemma_frames_before(
        PortV { deaf: None, ..q },
        frames,
        frames.len() as int,
        f.self_rid,
        f.peers,
        f.targets,
        active == Some(q.ifname),
        now,
        i,
        k,
    );
}

/// A wire on which nothing arrived is not called live: what it knew of its peers stays, and while
/// it is being asked one silent round after the suspicion makes it unreachable.
pub proof fn lemma_silence_is_held_against_an_asked_wire(
    f: FallbackV,
    p: PortV,
    r: PortReading,
    active: Option<Seq<char>>,
    now: Instant,
)
    requires
        r.listen is None,
        r.frames@.len() == 0,
    ensures
        ({
            let q = port_observed(KindV::Fallback(f), p, r, active, now);
            &&& q.peer_heard == p.peer_heard
            &&& q.self_heard == p.self_heard
            &&& q.hello_dead == p.hello_dead
            &&& q.escalating == p.escalating
            &&& p.escalating && p.probed && p.state == precharged(p.state)
                ==> !q.state.reachable
            &&& !(p.escalating && p.probed) ==> q.state == p.state
        }),
{
    let q = netdev_read(p, r.carrier, r.mii_status, now, grace_of(KindV::Fallback(f)));
    assert(frames_of(r.frames@) =~= seq![]);
}

/// A port of a leg that asks: an answer to its probe makes an unreachable wire reachable only
/// after three in a row, a missing one the other way round, and with no probe out silence says
/// nothing.
pub proof fn lemma_an_asked_wire_is_told_by_its_answers(p: PortV, replied: bool, now: Instant)
    ensures
        ({
            let q = answered(p, replied, now);
            &&& !p.probed ==> q.state == p.state
            &&& p.probed && replied == p.state.reachable ==> q.state.reachable == replied
                && q.state.streak == 0
            &&& p.probed && replied != p.state.reachable && p.state.streak < 2
                ==> q.state.reachable == p.state.reachable && q.state.streak == p.state.streak + 1
            &&& p.probed && replied != p.state.reachable && p.state.streak >= 2
                ==> q.state.reachable == replied && q.state.streak == 0
            &&& replied ==> q.last_reply == Some(now)
            &&& q == (PortV { state: q.state, last_reply: q.last_reply, ..p })
        }),
{
}

/// What a tick reads of a netdev: carrier is a 1, the driver's word is up, a netdev whose carrier
/// cannot be read is not there, and one that has just come is left alone for a while.
pub proof fn lemma_what_a_netdev_says(
    p: PortV,
    carrier: Option<String>,
    mii: Option<String>,
    now: Instant,
    grace: Duration,
)
    requires
        now.ns + grace.ns <= u64::MAX,
    ensures
        ({
            let q = netdev_read(p, carrier, mii, now, grace);
            &&& q.carrier <==> carrier is Some && trim(carrier->0@) == "1"@
            &&& q.bond_link_up <==> mii is Some && trim(mii->0@) == "up"@
            &&& q.present <==> carrier is Some
            &&& carrier is Some && !p.present ==> q.grace_until is Some && q.grace_until->0.ns
                == now.ns + grace.ns
            &&& carrier is None || p.present ==> q.grace_until == p.grace_until
        }),
{
}

// ---- the verdict ----

/// Was something heard at `t`, not longer ago than the window and not in the future?
pub open spec fn heard_within(t: Option<Instant>, now: Instant, window: Duration) -> bool {
    t is Some && t->0.ns <= now.ns && now.ns - t->0.ns <= window.ns
}

/// A wire is good where a peer was heard within its window, or, on a backup, our own hello came
/// back within it. One that is not is watched in its grace period and where nobody is expected;
/// otherwise it is suspect beside a good sibling, and quiet where there is none.
pub proof fn lemma_the_verdict(
    e: Evidence,
    w: Windows,
    now: Instant,
    any: bool,
    expect_peers: bool,
)
    ensures
        ({
            let v = verdict(e, w, now, any, expect_peers);
            let good = if e.active {
                heard_within(e.peer, now, w.active)
            } else {
                heard_within(e.peer, now, w.backup) || heard_within(e.reflected, now, w.backup)
            };
            let spared = !expect_peers || (e.grace_until is Some && now.ns < e.grace_until->0.ns);
            &&& v == Verdict::Good <==> good
            &&& v == Verdict::Watch <==> !good && spared
            &&& v == Verdict::Suspect <==> !good && !spared && any
            &&& v == Verdict::Quiet <==> !good && !spared && !any
        }),
{
}

/// The windows that the declared timers make: one hello and a half on the active wire, the dead
/// interval on a backup, and the dead interval of grace.
pub proof fn lemma_the_windows(hello_s: u32, dead_s: u32)
    ensures
        ({
            let w = windows_of(hello_s, dead_s);
            &&& w.active.ns == hello_s * 1_500_000_000
            &&& w.backup.ns == dead_s * 1_000_000_000
            &&& w.grace.ns == dead_s * 1_000_000_000
            &&& w.dead.ns == dead_s * 1_000_000_000
            &&& w.hello.ns == hello_s * 1_000_000_000
        }),
{
}

/// Is this port among the good ones of its leg?
pub open spec fn good_port(p: PortV, active: Option<Seq<char>>, w: Windows, now: Instant) -> bool {
    if active == Some(p.ifname) {
        heard_within(p.peer_heard, now, w.active)
    } else {
        heard_within(p.peer_heard, now, w.backup) || heard_within(p.self_heard, now, w.backup)
    }
}

proof fn lemma_good_port(p: PortV, active: Option<Seq<char>>, w: Windows, now: Instant)
    ensures
        lively(evidence_of(p, active), w, now) <==> good_port(p, active, w, now),
{
}

proof fn lemma_any_good(p: Seq<PortV>, active: Option<Seq<char>>, w: Windows, now: Instant)
    ensures
        any_lively(all_evidence(p, active), w, now) <==> exists|j: int|
            0 <= j < p.len() && good_port(#[trigger] p[j], active, w, now),
{
    let e = all_evidence(p, active);
    if any_lively(e, w, now) {
        let j = choose|j: int| 0 <= j < e.len() && lively(#[trigger] e[j], w, now);
        lemma_good_port(p[j], active, w, now);
        assert(good_port(p[j], active, w, now));
    }
    if exists|j: int| 0 <= j < p.len() && good_port(#[trigger] p[j], active, w, now) {
        let j = choose|j: int| 0 <= j < p.len() && good_port(#[trigger] p[j], active, w, now);
        lemma_good_port(p[j], active, w, now);
        assert(lively(e[j], w, now));
    }
}

/// On a leg with peers to hear, a silent wire out of its grace period is asked as soon as a
/// sibling is good, and its next silent round calls it unreachable. Where no wire is good none is
/// asked. A good wire is asked nothing.
pub proof fn lemma_one_silent_wire_is_asked(
    f: FallbackV,
    p: Seq<PortV>,
    active: Option<Seq<char>>,
    now: Instant,
    answer: Option<bool>,
    i: int,
)
    requires
        0 <= i < p.len(),
        f.peers.len() > 0,
    ensures
        ({
            let q = port_concluded(f, p, active, now, answer, i);
            let good = good_port(p[i], active, f.windows, now);
            let graced = p[i].grace_until is Some && now.ns < p[i].grace_until->0.ns;
            let sibling = exists|j: int|
                0 <= j < p.len() && good_port(#[trigger] p[j], active, f.windows, now);
            &&& good ==> !q.escalating && !q.probed && q.state == p[i].state
            &&& !good && graced ==> q.escalating == p[i].escalating && q.state == p[i].state
            &&& !good && !graced && sibling && !q.hello_dead ==> q.escalating
            &&& !good && !graced && sibling && !q.hello_dead && !p[i].escalating
                ==> !q.probed && !observed(q.state, false).reachable && q.state.reachable
                == p[i].state.reachable
            &&& !good && !graced && sibling && q.hello_dead ==> !q.escalating
            &&& !good && !graced && !sibling ==> !q.escalating && !q.probed
        }),
{
    lemma_good_port(p[i], active, f.windows, now);
    lemma_any_good(p, active, f.windows, now);
}

/// A wire is condemned only on the engine's word that nobody is adjacent, and only the active
/// one, silent for longer than the dead interval beside a good sibling. What was condemned stays
/// so.
pub proof fn lemma_when_a_wire_is_condemned(
    f: FallbackV,
    p: Seq<PortV>,
    active: Option<Seq<char>>,
    now: Instant,
    answer: Option<bool>,
    i: int,
)
    requires
        0 <= i < p.len(),
        f.peers.len() > 0,
    ensures
        port_concluded(f, p, active, now, answer, i).hello_dead <==> {
            ||| p[i].hello_dead
            ||| {
                &&& answer == Some(true)
                &&& active == Some(p[i].ifname)
                &&& !good_port(p[i], active, f.windows, now)
                &&& !(p[i].grace_until is Some && now.ns < p[i].grace_until->0.ns)
                &&& exists|j: int|
                    0 <= j < p.len() && good_port(#[trigger] p[j], active, f.windows, now)
                &&& p[i].peer_heard is None || now.ns > p[i].peer_heard->0.ns + f.windows.dead.ns
            }
        },
{
    lemma_good_port(p[i], active, f.windows, now);
    lemma_any_good(p, active, f.windows, now);
}

/// A leg is said to be quiet where it has ports, peers to hear, and no port that is good or left
/// alone.
pub proof fn lemma_when_a_leg_is_quiet(
    l: LegV,
    f: FallbackV,
    active: Option<Seq<char>>,
    now: Instant,
    answer: Option<bool>,
)
    requires
        l.kind == KindV::Fallback(f),
    ensures
        concluded(l, active, now, answer).kind->Fallback_0.quiet_now <==> {
            &&& l.ports.len() > 0
            &&& f.peers.len() > 0
            &&& forall|i: int|
                0 <= i < l.ports.len() ==> !good_port(
                    #[trigger] l.ports[i],
                    active,
                    f.windows,
                    now,
                ) && !(l.ports[i].grace_until is Some && now.ns < l.ports[i].grace_until->0.ns)
        },
{
    let p = l.ports;
    let w = f.windows;
    lemma_any_good(p, active, w, now);
    assert forall|i: int| 0 <= i < p.len() implies (#[trigger] port_verdict(f, p, active, now, i)
        == Verdict::Quiet <==> !good_port(p[i], active, w, now) && f.peers.len() > 0 && !(
    p[i].grace_until is Some && now.ns < p[i].grace_until->0.ns) && !(exists|j: int|
        0 <= j < p.len() && good_port(#[trigger] p[j], active, w, now))) by {
        lemma_good_port(p[i], active, w, now);
    }
    if p.len() > 0 && f.peers.len() > 0 && (forall|i: int|
        0 <= i < p.len() ==> !good_port(#[trigger] p[i], active, w, now) && !(p[i].grace_until
            is Some && now.ns < p[i].grace_until->0.ns)) {
        assert forall|i: int| 0 <= i < p.len() implies #[trigger] port_verdict(
            f,
            p,
            active,
            now,
            i,
        ) == Verdict::Quiet by {
            assert(!good_port(p[i], active, w, now));
        }
    }
    if crate::prober::leg::all_quiet(f, p, active, now) {
        assert(port_verdict(f, p, active, now, 0) == Verdict::Quiet);
        assert forall|i: int| 0 <= i < p.len() implies !good_port(#[trigger] p[i], active, w, now)
            && !(p[i].grace_until is Some && now.ns < p[i].grace_until->0.ns) by {
            assert(port_verdict(f, p, active, now, i) == Verdict::Quiet);
        }
    }
}

// ---- the move ----

/// A port that the bond can be put on reaches the other side, is not condemned, has carrier, and
/// is up to the driver.
pub proof fn lemma_what_makes_a_port_usable(p: PortV)
    ensures
        port_usable(p) <==> p.state.reachable && !p.hello_dead && p.carrier && p.bond_link_up,
        usability_noted(p).usable_prev == Some(port_usable(p)),
        usability_noted(p).returned <==> p.returned || (p.usable_prev == Some(false)
            && port_usable(p)),
        cand_of(p).ifname == p.ifname,
        cand_of(p).wire == p.wire,
{
}

/// A wire's rank is its place in the order; a wire that is not in it comes behind all others.
pub proof fn lemma_a_wires_rank(prefs: Seq<Seq<char>>, wire: Seq<char>, k: int)
    requires
        0 <= k < prefs.len(),
        prefs[k] == wire,
        forall|i: int, j: int|
            0 <= i < j < prefs.len() ==> #[trigger] prefs[i] != #[trigger] prefs[j],
    ensures
        rank(prefs, wire) == k,
        forall|w: Seq<char>| !prefs.contains(w) ==> #[trigger] rank(prefs, w) == prefs.len(),
{
    lemma_place_of(prefs, wire, 0);
    let r = rank(prefs, wire);
    assert(prefs[r] == wire);
    if r < k {
        assert(prefs[r] != prefs[k]);
    }
    assert forall|w: Seq<char>| !prefs.contains(w) implies #[trigger] rank(prefs, w)
        == prefs.len() by {
        lemma_place_of(prefs, w, 0);
        if rank(prefs, w) < prefs.len() {
            assert(prefs[rank(prefs, w)] == w);
        }
    }
}

proof fn lemma_named_place(c: Seq<CandidateV>, k: int, i: int)
    requires
        0 <= i <= k < c.len(),
        forall|a: int, b: int|
            0 <= a < b < c.len() ==> (#[trigger] c[a]).ifname != (#[trigger] c[b]).ifname,
    ensures
        named(c, c[k].ifname, i) == k,
    decreases k - i,
{
    if i < k {
        assert(c[i].ifname != c[k].ifname);
        lemma_named_place(c, k, i + 1);
    }
}

/// The bond is moved off a port that cannot be used, and off one that is less preferred than
/// another that can; it is left on one that is as preferred as any.
pub proof fn lemma_when_the_bond_is_moved(
    c: Seq<CandidateV>,
    prefs: Seq<Seq<char>>,
    k: int,
)
    requires
        0 <= k < c.len(),
        forall|a: int, b: int|
            0 <= a < b < c.len() ==> (#[trigger] c[a]).ifname != (#[trigger] c[b]).ifname,
    ensures
        decision(Some(c[k].ifname), c, prefs) is Some <==> exists|i: int|
            0 <= i < c.len() && (#[trigger] c[i]).reachable && c[i].carrier && c[i].link_up && (!(
            c[k].reachable && c[k].carrier && c[k].link_up) || rank(prefs, c[i].wire) < rank(
                prefs,
                c[k].wire,
            )),
{
    lemma_best(c, prefs, c.len() as int);
    lemma_named_place(c, k, 0);
    let b = best(c, prefs, c.len() as int);
    if decision(Some(c[k].ifname), c, prefs) is Some {
        assert(usable(c[b->0]));
    }
    if exists|i: int|
        0 <= i < c.len() && (#[trigger] c[i]).reachable && c[i].carrier && c[i].link_up && (!(
        c[k].reachable && c[k].carrier && c[k].link_up) || rank(prefs, c[i].wire) < rank(
            prefs,
            c[k].wire,
        )) {
        let i = choose|i: int|
            0 <= i < c.len() && (#[trigger] c[i]).reachable && c[i].carrier && c[i].link_up && (!(
            c[k].reachable && c[k].carrier && c[k].link_up) || rank(prefs, c[i].wire) < rank(
                prefs,
                c[k].wire,
            ));
        assert(usable(c[i]));
    }
}

/// A bond that is on none of the leg's ports is moved to the best one that can be used.
pub proof fn lemma_a_bond_elsewhere_is_taken_back(
    active: Option<Seq<char>>,
    c: Seq<CandidateV>,
    prefs: Seq<Seq<char>>,
    i: int,
)
    requires
        0 <= i < c.len(),
        c[i].reachable && c[i].carrier && c[i].link_up,
        forall|j: int| 0 <= j < c.len() ==> active != Some((#[trigger] c[j]).ifname),
    ensures
        decision(active, c, prefs) is Some,
        ({
            let b = c[decision(active, c, prefs)->0];
            &&& b.reachable && b.carrier && b.link_up
            &&& rank(prefs, b.wire) <= rank(prefs, c[i].wire)
        }),
{
    lemma_best(c, prefs, c.len() as int);
    assert(usable(c[i]));
    if active is Some {
        lemma_named_none(c, active->0, 0);
    }
}

proof fn lemma_named_none(c: Seq<CandidateV>, name: Seq<char>, i: int)
    requires
        0 <= i <= c.len(),
        forall|j: int| i <= j < c.len() ==> (#[trigger] c[j]).ifname != name,
    ensures
        named(c, name, i) == c.len(),
    decreases c.len() - i,
{
    if i < c.len() {
        lemma_named_none(c, name, i + 1);
    }
}

/// The port that a bond was moved to is left alone for the dead interval on a leg that listens,
/// and not at all on one that asks.
pub proof fn lemma_a_promoted_port_is_left_alone(l: LegV, k: int, now: Instant)
    requires
        0 <= k < l.ports.len(),
        forall|a: int, b: int|
            0 <= a < b < l.ports.len() ==> (#[trigger] l.ports[a]).ifname != (
            #[trigger] l.ports[b]).ifname,
        l.kind is Fallback ==> now.ns + l.kind->Fallback_0.windows.grace.ns <= u64::MAX,
    ensures
        ({
            let m = leg_moved(l, l.ports[k].ifname, now);
            &&& m.held == l.ports[k].ifname
            &&& m.active_now == Some(l.ports[k].ifname)
            &&& m.ports[k].grace_until is Some
            &&& m.ports[k].grace_until->0.ns == now.ns + (if l.kind is Fallback {
                l.kind->Fallback_0.windows.grace.ns as int
            } else {
                0
            })
        }),
{
    lemma_port_place(l.ports, k, 0);
}

proof fn lemma_port_place(p: Seq<PortV>, k: int, i: int)
    requires
        0 <= i <= k < p.len(),
        forall|a: int, b: int|
            0 <= a < b < p.len() ==> (#[trigger] p[a]).ifname != (#[trigger] p[b]).ifname,
    ensures
        port_named(p, p[k].ifname, i) == k,
    decreases k - i,
{
    if i < k {
        assert(p[i].ifname != p[k].ifname);
        lemma_port_place(p, k, i + 1);
    }
}

// ---- asking ----

/// A leg that asks sends one probe for its router from every port on every tick.
pub proof fn lemma_a_router_is_asked_on_every_port(router: Ipv4Addr, p: PortV)
    ensures
        port_asks(KindV::Ingress { router }, p) == seq![probe_bytes(p.mac, router.bits)],
{
}

proof fn lemma_filled_from(chosen: Seq<Ipv4Addr>, targets: Seq<Ipv4Addr>, i: int)
    requires
        0 <= i,
        forall|k: int| 0 <= k < chosen.len() ==> targets.contains(#[trigger] chosen[k]),
    ensures
        ({
            let r = filled(chosen, targets, i);
            &&& r.len() >= chosen.len()
            &&& r.take(chosen.len() as int) == chosen
            &&& forall|k: int| 0 <= k < r.len() ==> targets.contains(#[trigger] r[k])
            &&& r.len() >= 4 || forall|k: int| i <= k < targets.len() ==> r.contains(
                #[trigger] targets[k],
            )
        }),
    decreases targets.len() - i,
{
    if i >= targets.len() || chosen.len() >= 4 {
        assert(chosen.take(chosen.len() as int) =~= chosen);
    } else if chosen.contains(targets[i]) {
        lemma_filled_from(chosen, targets, i + 1);
        let r = filled(chosen, targets, i);
        if r.len() < 4 {
            let j = choose|j: int| 0 <= j < chosen.len() && chosen[j] == targets[i];
            assert(r.take(chosen.len() as int)[j] == targets[i]);
            assert(r[j] == targets[i]);
        }
    } else {
        let c = chosen.push(targets[i]);
        assert forall|k: int| 0 <= k < c.len() implies targets.contains(#[trigger] c[k]) by {
            if k == chosen.len() {
                assert(targets[i] == c[k]);
            }
        }
        lemma_filled_from(c, targets, i + 1);
        let r = filled(chosen, targets, i);
        assert(r.take(chosen.len() as int) =~= chosen) by {
            assert forall|j: int| 0 <= j < chosen.len() implies r[j] == chosen[j] by {
                assert(r.take(c.len() as int)[j] == c[j]);
            }
        }
        assert(r[chosen.len() as int] == targets[i]) by {
            assert(r.take(c.len() as int)[chosen.len() as int] == targets[i]);
        }
        if r.len() < 4 {
            assert forall|k: int| i <= k < targets.len() implies r.contains(
                #[trigger] targets[k],
            ) by {}
        }
    }
}

proof fn lemma_recent_are_targets(targets: Seq<Ipv4Addr>, recent: Seq<u32>, n: int)
    requires
        0 <= n <= recent.len(),
    ensures
        forall|k: int|
            0 <= k < recent_targets(targets, recent, n).len() ==> targets.contains(
                #[trigger] recent_targets(targets, recent, n)[k],
            ),
    decreases n,
{
    if n > 0 {
        lemma_recent_are_targets(targets, recent, n - 1);
        lemma_place_is_target(targets, recent[n - 1], 0);
        let b = recent_targets(targets, recent, n - 1);
        let r = recent_targets(targets, recent, n);
        assert forall|k: int| 0 <= k < r.len() implies targets.contains(#[trigger] r[k]) by {
            if k < b.len() {
                assert(r[k] == b[k]);
            } else {
                assert(targets[target_place(targets, recent[n - 1], 0)] == r[k]);
            }
        }
    }
}

proof fn lemma_place_is_target(targets: Seq<Ipv4Addr>, rid: u32, i: int)
    requires
        0 <= i <= targets.len(),
    ensures
        i <= target_place(targets, rid, i) <= targets.len(),
        target_place(targets, rid, i) < targets.len() ==> octet(
            targets[target_place(targets, rid, i)].bits,
            3,
        ) == octet(rid, 3),
    decreases targets.len() - i,
{
    if i < targets.len() && octet(targets[i].bits, 3) != octet(rid, 3) {
        lemma_place_is_target(targets, rid, i + 1);
    }
}

/// A port under suspicion asks peers of its segment and nobody else, first those that it heard
/// last, and all of them where they are fewer than four.
pub proof fn lemma_whom_a_suspect_port_asks(f: FallbackV, p: PortV)
    requires
        p.escalating,
    ensures
        ({
            let a = asked_targets(f, p);
            &&& port_asks(KindV::Fallback(f), p).len() == a.len()
            &&& forall|k: int|
                0 <= k < a.len() ==> #[trigger] port_asks(KindV::Fallback(f), p)[k]
                    == probe_bytes(p.mac, a[k].bits)
            &&& forall|k: int| 0 <= k < a.len() ==> f.targets.contains(#[trigger] a[k])
            &&& a.len() >= 4 || forall|k: int|
                0 <= k < f.targets.len() ==> a.contains(#[trigger] f.targets[k])
            &&& p.recent.len() > 0 && (exists|k: int|
                0 <= k < f.targets.len() && octet((#[trigger] f.targets[k]).bits, 3) == octet(
                    p.recent[0],
                    3,
                )) ==> a.len() > 0 && octet(a[0].bits, 3) == octet(p.recent[0], 3)
        }),
{
    let n = p.recent.len() as int;
    lemma_recent_are_targets(f.targets, p.recent, n);
    let chosen = recent_targets(f.targets, p.recent, n);
    lemma_filled_from(chosen, f.targets, 0);
    let a = asked_targets(f, p);
    if n > 0 && exists|k: int|
        0 <= k < f.targets.len() && octet((#[trigger] f.targets[k]).bits, 3) == octet(
            p.recent[0],
            3,
        ) {
        let k = choose|k: int|
            0 <= k < f.targets.len() && octet((#[trigger] f.targets[k]).bits, 3) == octet(
                p.recent[0],
                3,
            );
        lemma_first_recent(f.targets, p.recent, n, k);
        assert(a.take(chosen.len() as int)[0] == chosen[0]);
    }
}

proof fn lemma_found_target(targets: Seq<Ipv4Addr>, rid: u32, i: int, k: int)
    requires
        0 <= i <= k < targets.len(),
        octet(targets[k].bits, 3) == octet(rid, 3),
    ensures
        target_place(targets, rid, i) <= k,
    decreases k - i,
{
    if i < k && octet(targets[i].bits, 3) != octet(rid, 3) {
        lemma_found_target(targets, rid, i + 1, k);
    }
}

proof fn lemma_first_recent(targets: Seq<Ipv4Addr>, recent: Seq<u32>, n: int, k: int)
    requires
        1 <= n <= recent.len(),
        0 <= k < targets.len(),
        octet(targets[k].bits, 3) == octet(recent[0], 3),
    ensures
        recent_targets(targets, recent, n).len() > 0,
        octet(recent_targets(targets, recent, n)[0].bits, 3) == octet(recent[0], 3),
    decreases n,
{
    if n > 1 {
        lemma_first_recent(targets, recent, n - 1, k);
    } else {
        lemma_found_target(targets, recent[0], 0, k);
        lemma_place_is_target(targets, recent[0], 0);
        assert(recent_targets(targets, recent, 0) =~= seq![]);
    }
}

/// A probe that went out is waited for; one that could not be sent is itself a miss.
pub proof fn lemma_what_sending_says(k: KindV, p: PortV, sent: bool)
    requires
        k is Ingress || p.escalating,
    ensures
        ({
            let q = port_asked(k, p, sent);
            &&& q.probed == sent
            &&& sent ==> q.state == p.state && q.escalating == p.escalating
            &&& !sent && !p.state.reachable ==> !q.state.reachable
            &&& !sent && p.state.reachable ==> q.state.reachable == (p.state.streak < 2)
        }),
{
}

// ---- the legs and what is reported of them ----

/// The leg of an ingress asks the zone's router, over the ports of its row, or over itself where
/// it is one port and cannot move.
pub proof fn lemma_the_ingress_leg(v: MemberViewV, r: GwRowV)
    requires
        ingress_leg(v, r) is Some,
    ensures
        ({
            let l = ingress_leg(v, r)->0;
            let z = crate::derive::zone_named(v, r.zone);
            &&& l.zone == r.zone
            &&& l.bond == r.ifname
            &&& l.actuates <==> r.ports.len() > 0
            &&& r.ports.len() > 0 ==> l.ports.len() == r.ports.len()
            &&& r.ports.len() == 0 ==> l.ports.len() == 1 && l.ports[0].ifname == r.ifname
                && l.ports[0].wire == r.home
            &&& z.gw is Some
            &&& l.kind is Ingress
            &&& parse_dotted(z.gw->0.router) == Some(l.kind->router.bits)
            &&& forall|i: int|
                0 <= i < r.ports.len() ==> (#[trigger] l.ports[i]).ifname == r.ports[i].ifname
                    && l.ports[i].wire == r.ports[i].wire
            &&& forall|i: int|
                0 <= i < l.ports.len() && i < 256 ==> (#[trigger] l.ports[i]).mac == seq![
                    0x02u8,
                    0xcfu8,
                    0xabu8,
                    v.member.node,
                    z.id,
                    i as u8,
                ]
            &&& forall|i: int|
                0 <= i < l.ports.len() ==> (#[trigger] l.ports[i]).state.reachable
                    && l.ports[i].state.streak == 0 && !l.ports[i].present && !l.ports[i].escalating
                    && !l.ports[i].hello_dead
        }),
{
}

/// The leg of a zone's universal segment knows itself by its own identity in that very zone, and
/// every port by its row.
pub proof fn lemma_the_fallback_leg(v: MemberViewV, r: FallbackRowV)
    requires
        fallback_leg(v, r) is Some,
    ensures
        ({
            let l = fallback_leg(v, r)->0;
            let z = crate::derive::zone_named(v, r.zone);
            let f = l.kind->Fallback_0;
            &&& l.zone == r.zone
            &&& l.bond == r.ifname
            &&& l.actuates
            &&& l.kind is Fallback
            &&& f.self_rid == 10 * 16777216 + z.id * 65536 + v.member.node
            &&& f.engine_sock == v.fabric.run_dir + "/"@ + "engine.sock"@
            &&& f.windows == windows_of(v.fabric.ospf_hello, v.fabric.ospf_dead)
            &&& !f.quiet_now && !f.noted_quiet && !f.noted_deaf && !f.noted_engine_unreadable
            &&& l.ports.len() == r.ports.len()
            &&& forall|i: int|
                0 <= i < r.ports.len() ==> (#[trigger] l.ports[i]).ifname == r.ports[i].ifname
                    && l.ports[i].wire == r.ports[i].wire && l.ports[i].state.reachable
                    && !l.ports[i].present
        }),
{
    let z = crate::derive::zone_named(v, r.zone);
    assert(quad(10, z.id as int, 0, v.member.node as int) == 10 * 16777216 + z.id * 65536
        + v.member.node);
}

/// A port is reported reachable where it reaches the other side, has carrier and is not
/// condemned; suspect while it is asked; and with the whole milliseconds since it was last heard.
pub proof fn lemma_what_is_reported(l: LegV, now: Instant, i: int)
    requires
        0 <= i < l.ports.len(),
    ensures
        ({
            let r = leg_row(l, now);
            let p = l.ports[i];
            &&& r.zone == l.zone
            &&& r.bond == l.bond
            &&& r.active == l.active_now
            &&& r.quiet <==> l.kind is Fallback && l.kind->Fallback_0.quiet_now
            &&& r.ports.len() == l.ports.len()
            &&& r.ports[i].wire == p.wire
            &&& r.ports[i].island == p.island
            &&& r.ports[i].reachable <==> p.state.reachable && p.carrier && !p.hello_dead
            &&& r.ports[i].suspect == p.escalating
            &&& r.ports[i].last_reply_ms is Some <==> p.last_reply is Some
            &&& p.last_reply is Some && p.last_reply->0.ns <= now.ns
                ==> r.ports[i].last_reply_ms->0 == (now.ns - p.last_reply->0.ns) / 1_000_000
        }),
{
}

/// The timers leave room for a move where one hello and a half and one tick of half a second fit
/// into the dead interval.
pub proof fn lemma_when_a_move_is_in_time(f: crate::model::FabricV)
    ensures
        in_time(f) <==> f.ospf_hello * 1_500_000_000 + 500_000_000 <= f.ospf_dead * 1_000_000_000,
{
}

} // verus!
