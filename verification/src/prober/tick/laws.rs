//! What every tick keeps of a leg, whatever its outcomes are.

use vstd::prelude::*;

use crate::derive::MemberViewV;
use crate::ipv4::Ipv4Addr;
use crate::prober::asking::{lemma_escalation_is_bounded, port_asks};
use crate::prober::leg::{
    concluded, grace_of, judgeable, leg_heard, leg_observed, port_observed, FallbackV, KindV, LegV,
};
use crate::prober::moving::{leg_decision, lemma_port_named, move_line, somewhere, BondFile};
use crate::prober::port::{
    frames_heard, frames_of, netdev_read, PortReading, PortV, ESCALATION_TARGETS,
};
use crate::prober::tick::{
    after_judgement, comes_up, fits, leg_after, leg_settled, lines_after, settled_lines,
    tick_after, word_on, Got, TickV,
};
use crate::prober::{ingress_legs, legs_of};
use crate::text::opt_string;
use crate::time::Instant;

verus! {

/// What no tick changes of a port: its netdev, its wire and the address that it asks with.
pub open spec fn same_port(a: PortV, b: PortV) -> bool {
    a.ifname == b.ifname && a.wire == b.wire && a.island == b.island && a.mac == b.mac
}

/// What no tick changes of a leg: which bond it is, over which ports, and what they are for.
pub open spec fn same_leg(a: LegV, b: LegV) -> bool {
    &&& a.zone == b.zone
    &&& a.bond == b.bond
    &&& a.actuates == b.actuates
    &&& a.prefs == b.prefs
    &&& a.ports.len() == b.ports.len()
    &&& forall|i: int| 0 <= i < a.ports.len() ==> same_port(#[trigger] a.ports[i], b.ports[i])
    &&& (a.kind is Fallback) == (b.kind is Fallback)
    &&& a.kind is Ingress ==> a.kind == b.kind
    &&& a.kind is Fallback ==> a.kind->Fallback_0.targets == b.kind->Fallback_0.targets
        && a.kind->Fallback_0.peers == b.kind->Fallback_0.peers && a.kind->Fallback_0.self_rid
        == b.kind->Fallback_0.self_rid && a.kind->Fallback_0.windows == b.kind->Fallback_0.windows
        && a.kind->Fallback_0.engine_sock == b.kind->Fallback_0.engine_sock
}

/// No port remembers more peers than an escalation asks.
pub open spec fn few_recent(l: LegV) -> bool {
    forall|i: int|
        0 <= i < l.ports.len() ==> (#[trigger] l.ports[i]).recent.len() <= ESCALATION_TARGETS
}

proof fn lemma_frames_keep_the_port(
    p: PortV,
    frames: Seq<Seq<u8>>,
    n: int,
    self_rid: u32,
    peers: Seq<u32>,
    targets: Seq<Ipv4Addr>,
    is_active: bool,
    now: Instant,
)
    ensures
        ({
            let q = frames_heard(p, frames, n, self_rid, peers, targets, is_active, now).0;
            &&& same_port(p, q)
            &&& p.recent.len() <= ESCALATION_TARGETS ==> q.recent.len() <= ESCALATION_TARGETS
        }),
    decreases n,
{
    if n > 0 {
        lemma_frames_keep_the_port(p, frames, n - 1, self_rid, peers, targets, is_active, now);
    }
}

proof fn lemma_readings_keep_the_port(
    k: KindV,
    p: PortV,
    r: PortReading,
    active: Option<Seq<char>>,
    now: Instant,
)
    ensures
        same_port(p, port_observed(k, p, r, active, now)),
        p.recent.len() <= ESCALATION_TARGETS ==> port_observed(k, p, r, active, now).recent.len()
            <= ESCALATION_TARGETS,
{
    let q = netdev_read(p, r.carrier, r.mii_status, now, grace_of(k));
    match k {
        KindV::Ingress { .. } => {},
        KindV::Fallback(f) => {
            lemma_frames_keep_the_port(
                PortV { deaf: None, ..q },
                frames_of(r.frames@),
                r.frames@.len() as int,
                f.self_rid,
                f.peers,
                f.targets,
                active == Some(q.ifname),
                now,
            );
        },
    }
}

proof fn lemma_hearing_keeps_the_leg(
    l: LegV,
    readings: Seq<PortReading>,
    active: Option<Seq<char>>,
    now: Instant,
)
    ensures
        same_leg(l, leg_heard(l, readings, active, now)),
        few_recent(l) ==> few_recent(leg_heard(l, readings, active, now)),
{
    let h = leg_heard(l, readings, active, now);
    assert forall|i: int| 0 <= i < l.ports.len() implies same_port(
        #[trigger] l.ports[i],
        h.ports[i],
    ) && (l.ports[i].recent.len() <= ESCALATION_TARGETS ==> h.ports[i].recent.len()
        <= ESCALATION_TARGETS) by {
        lemma_readings_keep_the_port(l.kind, l.ports[i], readings[i], active, now);
    }
    if few_recent(l) {
        assert forall|i: int| 0 <= i < h.ports.len() implies (#[trigger] h.ports[i]).recent.len()
            <= ESCALATION_TARGETS by {
            assert(l.ports[i].recent.len() <= ESCALATION_TARGETS);
        }
    }
}

proof fn lemma_judging_keeps_the_leg(
    l: LegV,
    active: Option<Seq<char>>,
    now: Instant,
    answer: Option<bool>,
)
    requires
        l.kind is Fallback,
    ensures
        same_leg(l, concluded(l, active, now, answer)),
        few_recent(l) ==> few_recent(concluded(l, active, now, answer)),
{
    let c = concluded(l, active, now, answer);
    if few_recent(l) {
        assert forall|i: int| 0 <= i < c.ports.len() implies (#[trigger] c.ports[i]).recent.len()
            <= ESCALATION_TARGETS by {
            assert(l.ports[i].recent.len() <= ESCALATION_TARGETS);
        }
    }
}

proof fn lemma_settling_keeps_the_leg(l: LegV, active: Option<Seq<char>>)
    ensures
        same_leg(l, leg_settled(l, active)),
        few_recent(l) ==> few_recent(leg_settled(l, active)),
{
    if let Some(a) = somewhere(active) {
        lemma_port_named(l.ports, a, 0);
    }
    let s = leg_settled(l, active);
    if few_recent(l) {
        assert forall|i: int| 0 <= i < s.ports.len() implies (#[trigger] s.ports[i]).recent.len()
            <= ESCALATION_TARGETS by {
            assert(l.ports[i].recent.len() <= ESCALATION_TARGETS);
        }
    }
}

/// A tick changes neither which bond a leg is nor over which ports, whom it expects or whom it
/// asks, whatever its outcomes are.
pub proof fn lemma_a_tick_keeps_the_leg(l: LegV, t: TickV, got: Got, now: Instant)
    requires
        fits(l, t, got),
    ensures
        same_leg(l, leg_after(l, t, got, now)),
        few_recent(l) ==> few_recent(leg_after(l, t, got, now)),
{
    let a = leg_after(l, t, got, now);
    match (t, got) {
        (TickV::ReadPorts { active }, Got::Ports(r)) => {
            let h = leg_heard(l, r@, active, now);
            lemma_hearing_keeps_the_leg(l, r@, active, now);
            if judgeable(h) {
                lemma_judging_keeps_the_leg(h, active, now, None);
            }
            let o = leg_observed(l, r@, active, now);
            lemma_settling_keeps_the_leg(o, active);
            assert(same_leg(l, o));
        },
        (TickV::AskEngine { active }, Got::Engine(reply)) => {
            let word = word_on(l, opt_string(reply));
            lemma_judging_keeps_the_leg(l, active, now, word);
            lemma_settling_keeps_the_leg(concluded(l, active, now, word), active);
        },
        (TickV::Write { target, .. }, Got::Wrote(_)) => {
            lemma_port_named(l.ports, target, 0);
            if few_recent(l) {
                assert forall|i: int| 0 <= i < a.ports.len() implies (
                #[trigger] a.ports[i]).recent.len() <= ESCALATION_TARGETS by {
                    assert(l.ports[i].recent.len() <= ESCALATION_TARGETS);
                }
            }
        },
        (TickV::Send, Got::Sent(s)) => {
            if few_recent(l) {
                assert forall|i: int| 0 <= i < a.ports.len() implies (
                #[trigger] a.ports[i]).recent.len() <= ESCALATION_TARGETS by {
                    assert(l.ports[i].recent.len() <= ESCALATION_TARGETS);
                }
            }
        },
        _ => {},
    }
}

proof fn lemma_new_ingress_legs(v: MemberViewV, n: int)
    requires
        0 <= n <= v.gw_rows.len(),
    ensures
        forall|i: int|
            0 <= i < ingress_legs(v, n).len() ==> few_recent(#[trigger] ingress_legs(v, n)[i]),
    decreases n,
{
    if n > 0 {
        lemma_new_ingress_legs(v, n - 1);
        let b = ingress_legs(v, n - 1);
        assert forall|i: int| 0 <= i < ingress_legs(v, n).len() implies few_recent(
            #[trigger] ingress_legs(v, n)[i],
        ) by {
            if i < b.len() {
                assert(ingress_legs(v, n)[i] == b[i]);
            }
        }
    }
}

/// A leg that a view of the fabric makes remembers no peer yet.
pub proof fn lemma_new_legs_remember_few(v: MemberViewV, n: int)
    requires
        0 <= n <= v.fallback_rows.len(),
    ensures
        forall|i: int| 0 <= i < legs_of(v, n).len() ==> few_recent(#[trigger] legs_of(v, n)[i]),
    decreases n,
{
    if n > 0 {
        lemma_new_legs_remember_few(v, n - 1);
        let b = legs_of(v, n - 1);
        assert forall|i: int| 0 <= i < legs_of(v, n).len() implies few_recent(
            #[trigger] legs_of(v, n)[i],
        ) by {
            if i < b.len() {
                assert(legs_of(v, n)[i] == b[i]);
            }
        }
    } else {
        lemma_new_ingress_legs(v, v.gw_rows.len() as int);
    }
}

/// A port asks at most as many peers as are worth asking. With the two laws above this holds in
/// every state that a leg can reach.
pub proof fn lemma_a_leg_asks_few(f: FallbackV, l: LegV, i: int)
    requires
        few_recent(l),
        l.kind == KindV::Fallback(f),
        0 <= i < l.ports.len(),
    ensures
        port_asks(l.kind, l.ports[i]).len() <= ESCALATION_TARGETS,
{
    assert(l.ports[i].recent.len() <= ESCALATION_TARGETS);
    lemma_escalation_is_bounded(f, l.ports[i]);
}

/// The port that a leg holds for its bond moves with the bond and not otherwise: only where the
/// files of a move took their target.
pub proof fn lemma_what_is_held_moves_with_the_bond(l: LegV, t: TickV, got: Got, now: Instant)
    requires
        fits(l, t, got),
        leg_after(l, t, got, now).held != l.held,
    ensures
        match (t, got) {
            (TickV::Write { target, file, .. }, Got::Wrote(w)) => {
                &&& w is Ok
                &&& file == BondFile::ActiveSlave
                &&& leg_after(l, t, got, now).held == target
                &&& leg_after(l, t, got, now).active_now == Some(target)
            },
            _ => false,
        },
{
    match (t, got) {
        (TickV::ReadPorts { active }, Got::Ports(r)) => {
            let h = leg_heard(l, r@, active, now);
            assert(h.held == l.held);
            assert(leg_observed(l, r@, active, now).held == l.held);
        },
        (TickV::AskEngine { active }, Got::Engine(reply)) => {
            let word = word_on(l, opt_string(reply));
            assert(concluded(l, active, now, word).held == l.held);
        },
        _ => {},
    }
}

// ---- the two writes of a move ----

/// A move that is decided on is written, unless that very move was refused before: to the port
/// that was decided on, the primary first.
pub proof fn lemma_a_decided_move_is_written(l: LegV, active: Option<Seq<char>>, i: int)
    requires
        l.actuates,
        comes_up(l, active),
        leg_decision(l, somewhere(active)) == Some(i),
        l.refused != Some((l.ports[i].ifname, somewhere(active))),
    ensures
        after_judgement(l, active) == (TickV::Write {
            active,
            target: l.ports[i].ifname,
            file: BondFile::Primary,
        }),
{
}

/// A move begins with the write of the primary: no step but that write is followed by a write of
/// the active port.
pub proof fn lemma_a_move_writes_the_primary_first(l: LegV, t: TickV, got: Got, now: Instant)
    requires
        fits(l, t, got),
        tick_after(l, t, got, now) is Write,
    ensures
        match tick_after(l, t, got, now) {
            TickV::Write { file: BondFile::Primary, .. } => t !is Write,
            TickV::Write { active, target, file: BondFile::ActiveSlave } => t == (TickV::Write {
                active,
                target,
                file: BondFile::Primary,
            }) && (got matches Got::Wrote(w) && w is Ok),
            _ => false,
        },
{
}

/// A move whose files both take the target: the primary is written, then the active port and
/// nothing else, and the bond is on the target then.
pub proof fn lemma_a_move_writes_both_files(
    l: LegV,
    active: Option<Seq<char>>,
    target: Seq<char>,
    wrote: Got,
    now: Instant,
)
    requires
        wrote matches Got::Wrote(w) && w is Ok,
    ensures
        ({
            let first = TickV::Write { active, target, file: BondFile::Primary };
            let second = TickV::Write { active, target, file: BondFile::ActiveSlave };
            &&& tick_after(l, first, wrote, now) == second
            &&& leg_after(l, first, wrote, now) == l
            &&& lines_after(l, first, wrote, now).len() == 0
            &&& tick_after(l, second, wrote, now) == TickV::Send
            &&& leg_after(l, second, wrote, now).held == target
            &&& leg_after(l, second, wrote, now).active_now == Some(target)
            &&& leg_after(l, second, wrote, now).refused is None
            &&& lines_after(l, second, wrote, now) == seq![move_line(l, target, active)]
        }),
{
}

/// A move stops at the first refusal: nothing more is written, what is held and where the bond is
/// stay as they were, one line is said, and the move is remembered as refused.
pub proof fn lemma_a_move_stops_at_the_first_refusal(
    l: LegV,
    active: Option<Seq<char>>,
    target: Seq<char>,
    file: BondFile,
    wrote: Got,
    now: Instant,
)
    requires
        wrote matches Got::Wrote(w) && w is Err,
    ensures
        ({
            let t = TickV::Write { active, target, file };
            let a = leg_after(l, t, wrote, now);
            &&& tick_after(l, t, wrote, now) == TickV::Send
            &&& a.held == l.held
            &&& a.active_now == l.active_now
            &&& a.refused == Some((target, somewhere(active)))
            &&& lines_after(l, t, wrote, now).len() == 1
        }),
{
}

/// A move that was refused is not written again while it is the same move: whatever the leg has
/// heard since, the same target from the same place is left alone, and nothing is said.
pub proof fn lemma_a_refused_move_is_not_written_again(l: LegV, active: Option<Seq<char>>, i: int)
    requires
        leg_decision(l, somewhere(active)) == Some(i),
        l.refused == Some((l.ports[i].ifname, somewhere(active))),
    ensures
        after_judgement(l, active) == TickV::Send,
        settled_lines(l, active).len() == 0,
        leg_settled(l, active).refused == l.refused,
{
}

} // verus!
