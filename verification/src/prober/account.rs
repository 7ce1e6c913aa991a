//! What a leg keeps from one tick to the next, and what it says.

use vstd::prelude::*;

use crate::derive::MemberViewV;
use crate::engine::state::engine_word;
use crate::error::{error_text, Error};
use crate::ipv4::{octet, Ipv4Addr};
use crate::prober::asking::{port_asked, recent_targets, target_place};
use crate::prober::bpf::{filter_program, lemma_filter_accepts_evidence, run_from, Insn};
use crate::prober::conduct::good_port;
use crate::prober::decide::{
    active_candidate, darkest, decision, named, rank, skipped, CandidateV,
};
use crate::prober::frame::{be32, is_reply};
use crate::prober::leg::{
    active_taken, asks_engine, concluded, concluded_lines, deaf_lines, family_of, grace_of,
    heard_lines, home_port, is_probed, is_quiet, leg_heard, leg_observed, needs_engine, noun_of,
    observed_lines, port_condemnable, port_observed, port_on, FallbackV, KindV, LegV,
};
use crate::prober::moving::{
    cands_of, file_path, leg_planned, move_line, planned, planned_lines, port_named, refusal_line,
    somewhere, window_restarted, BondFile,
};
use crate::prober::port::{
    answered, frames_of, netdev_read, plain_error, usability_noted, PortReading, PortV,
};
use crate::prober::tick::{first_step, leg_after, lines_after, tick_after, Got, TickV};
use crate::prober::{
    fallback_leg, first_lines, held_by, ingress_leg, ingress_legs, leg_row, legs_of, rows_of,
};
use crate::text::{dec, opt_string, trim};
use crate::time::{Duration, Instant};

verus! {

// ---- a new leg ----

proof fn lemma_port_on(p: Seq<PortV>, wire: Seq<char>, i: int, k: int)
    requires
        0 <= i <= k <= p.len(),
        forall|j: int| i <= j < k ==> (#[trigger] p[j]).wire != wire,
        k < p.len() ==> p[k].wire == wire,
    ensures
        port_on(p, wire, i) == k,
    decreases k - i,
{
    if i < k {
        lemma_port_on(p, wire, i + 1, k);
    }
}

/// A new leg holds the port on its home wire, or its first where no port is on it.
pub proof fn lemma_what_a_new_leg_holds(p: Seq<PortV>, home: Seq<char>, k: int)
    requires
        0 <= k <= p.len(),
        forall|j: int| 0 <= j < k ==> (#[trigger] p[j]).wire != home,
        k < p.len() ==> p[k].wire == home,
    ensures
        k < p.len() ==> home_port(p, home) == p[k].ifname,
        k == p.len() && p.len() > 0 ==> home_port(p, home) == p[0].ifname,
        p.len() == 0 ==> home_port(p, home).len() == 0,
{
    lemma_port_on(p, home, 0, k);
}

/// The legs are those of the ingress rows and then those of the universal segments, in the order
/// of the rows, and a row that makes none is passed over.
pub proof fn lemma_which_legs_there_are(v: MemberViewV, n: int, l: LegV)
    requires
        0 <= n <= v.fallback_rows.len(),
    ensures
        legs_of(v, n).contains(l) <==> (exists|i: int|
            0 <= i < v.gw_rows.len() && ingress_leg(v, #[trigger] v.gw_rows[i]) == Some(l)) || (
        exists|i: int|
            0 <= i < n && fallback_leg(v, #[trigger] v.fallback_rows[i]) == Some(l)),
    decreases n,
{
    if n <= 0 {
        lemma_ingress_legs(v, v.gw_rows.len() as int, l);
    } else {
        lemma_which_legs_there_are(v, n - 1, l);
        lemma_one_more(legs_of(v, n - 1), fallback_leg(v, v.fallback_rows[n - 1]), l);
    }
}

proof fn lemma_one_more(a: Seq<LegV>, one: Option<LegV>, l: LegV)
    ensures
        crate::prober::and_leg(a, one).contains(l) <==> a.contains(l) || one == Some(l),
{
    let b = crate::prober::and_leg(a, one);
    if a.contains(l) {
        let i = choose|i: int| 0 <= i < a.len() && a[i] == l;
        assert(b[i] == l);
    }
    if one == Some(l) {
        assert(b.last() == l);
    }
    if b.contains(l) {
        let i = choose|i: int| 0 <= i < b.len() && b[i] == l;
        if i < a.len() {
            assert(a[i] == l);
        }
    }
}

proof fn lemma_ingress_legs(v: MemberViewV, n: int, l: LegV)
    requires
        0 <= n <= v.gw_rows.len(),
    ensures
        ingress_legs(v, n).contains(l) <==> exists|i: int|
            0 <= i < n && ingress_leg(v, #[trigger] v.gw_rows[i]) == Some(l),
    decreases n,
{
    if n > 0 {
        lemma_ingress_legs(v, n - 1, l);
        lemma_one_more(ingress_legs(v, n - 1), ingress_leg(v, v.gw_rows[n - 1]), l);
    }
}

/// With timers that leave no time for a move, a member with a leg that listens says so at the
/// start.
pub proof fn lemma_what_is_said_at_the_start(v: MemberViewV)
    ensures
        ({
            let l = legs_of(v, v.fallback_rows.len() as int);
            let late = v.fabric.ospf_hello * 1_500_000_000 + 500_000_000 > v.fabric.ospf_dead
                * 1_000_000_000;
            let listens = exists|i: int| 0 <= i < l.len() && (#[trigger] l[i]).kind is Fallback;
            &&& listens && late ==> first_lines(v) == seq![
                "cfab: warn: [ospf] hello "@ + dec(v.fabric.ospf_hello as nat) + " s with dead "@
                    + dec(v.fabric.ospf_dead as nat)
                    + " s leaves no room to move a fallback bond before the adjacency expires"@,
            ]
            &&& !listens || !late ==> first_lines(v).len() == 0
        }),
{
    crate::prober::conduct::lemma_when_a_move_is_in_time(v.fabric);
}

// ---- a tick ----

/// The active port of a bond is the name that is read, without white space; an empty name is no
/// port, and what could not be read is as it was.
pub proof fn lemma_where_the_bond_is(l: LegV, t: String)
    ensures
        trim(t@).len() > 0 ==> active_taken(l, Some(t)) == (LegV {
            active_now: Some(trim(t@)),
            ..l
        }),
        trim(t@).len() == 0 ==> active_taken(l, Some(t)) == (LegV { active_now: None, ..l }),
        active_taken(l, None) == l,
        somewhere(None) is None,
        t@.len() > 0 ==> somewhere(Some(t@)) == Some(t@),
        t@.len() == 0 ==> somewhere(Some(t@)) is None,
{
}

/// A port of a leg that asks is told by whether the router answered it, and has no grace.
pub proof fn lemma_a_port_that_asks(
    router: Ipv4Addr,
    p: PortV,
    r: PortReading,
    active: Option<Seq<char>>,
    now: Instant,
)
    ensures
        ({
            let q = netdev_read(p, r.carrier, r.mii_status, now, Duration { ns: 0 });
            let replied = exists|k: int|
                0 <= k < r.frames@.len() && is_reply(
                    (#[trigger] r.frames@[k])@,
                    q.mac,
                    seq![router],
                );
            port_observed(KindV::Ingress { router }, p, r, active, now) == answered(q, replied, now)
        }),
        grace_of(KindV::Ingress { router }) == (Duration { ns: 0 }),
{
    let q = netdev_read(p, r.carrier, r.mii_status, now, Duration { ns: 0 });
    let f = frames_of(r.frames@);
    if exists|k: int|
        0 <= k < r.frames@.len() && is_reply((#[trigger] r.frames@[k])@, q.mac, seq![router]) {
        let k = choose|k: int|
            0 <= k < r.frames@.len() && is_reply((#[trigger] r.frames@[k])@, q.mac, seq![router]);
        assert(is_reply(f[k], q.mac, seq![router]));
    }
    if crate::prober::port::any_reply(f, q.mac, router) {
        let k = choose|k: int| 0 <= k < f.len() && is_reply(#[trigger] f[k], q.mac, seq![router]);
        assert(is_reply(r.frames@[k]@, q.mac, seq![router]));
    }
}

/// A port whose tap could not be opened is deaf, and is told by nothing else than its netdev; one
/// whose tap could be is not deaf.
pub proof fn lemma_a_deaf_port(
    f: FallbackV,
    p: PortV,
    r: PortReading,
    active: Option<Seq<char>>,
    now: Instant,
)
    requires
        r.listen is Some,
    ensures
        ({
            let q = netdev_read(p, r.carrier, r.mii_status, now, f.windows.grace);
            port_observed(KindV::Fallback(f), p, r, active, now) == (PortV {
                deaf: Some(plain_error(r.listen->0)),
                ..q
            })
        }),
{
}

/// A fault is told without what kind of error it is, where it is one of ours.
pub proof fn lemma_how_a_fault_is_told(m: String, e: Error)
    ensures
        plain_error(Error::Fatal(m)) == m@,
        !(e is Fatal) ==> plain_error(e) == error_text(e),
{
}

/// Every reading is taken, each by its port; and a leg whose every tap failed to open is noted as
/// deaf.
pub proof fn lemma_what_a_reading_does(
    l: LegV,
    readings: Seq<PortReading>,
    active: Option<Seq<char>>,
    now: Instant,
    i: int,
)
    requires
        readings.len() == l.ports.len(),
        0 <= i < l.ports.len(),
    ensures
        ({
            let h = leg_heard(l, readings, active, now);
            let q = port_observed(l.kind, l.ports[i], readings[i], active, now);
            let deaf = forall|j: int|
                0 <= j < readings.len() ==> (#[trigger] readings[j]).listen is Some;
            &&& h.ports.len() == l.ports.len()
            &&& l.kind is Ingress ==> h.ports[i] == usability_noted(q) && h.kind == l.kind
            &&& l.kind is Fallback ==> h.kind is Fallback && h.kind->Fallback_0.noted_deaf == deaf
            &&& l.kind is Fallback && deaf ==> h.ports[i] == usability_noted(q)
            &&& l.kind is Fallback && !deaf ==> h.ports[i] == q
            &&& h.zone == l.zone
            &&& h.bond == l.bond
            &&& h.held == l.held
            &&& h.active_now == l.active_now
            &&& h.refused == l.refused
            &&& is_probed(h) <==> !(l.kind is Fallback && deaf)
        }),
{
}

/// Why a leg that listens could need the engine's word: its active port, past its grace, has been
/// silent past the dead interval and is not condemned, while another port is good.
pub open spec fn in_doubt(
    f: FallbackV,
    p: Seq<PortV>,
    active: Option<Seq<char>>,
    now: Instant,
    i: int,
) -> bool {
    &&& f.peers.len() > 0
    &&& active == Some(p[i].ifname)
    &&& !p[i].hello_dead
    &&& !good_port(p[i], active, f.windows, now)
    &&& !(p[i].grace_until is Some && now.ns < p[i].grace_until->0.ns)
    &&& exists|j: int| 0 <= j < p.len() && good_port(#[trigger] p[j], active, f.windows, now)
    &&& p[i].peer_heard is None || now.ns > p[i].peer_heard->0.ns + f.windows.dead.ns
}

proof fn lemma_in_doubt(
    f: FallbackV,
    p: Seq<PortV>,
    active: Option<Seq<char>>,
    now: Instant,
    i: int,
)
    requires
        0 <= i < p.len(),
    ensures
        port_condemnable(f, p, active, now, i) <==> in_doubt(f, p, active, now, i),
{
    if f.peers.len() > 0 {
        if !p[i].hello_dead {
            crate::prober::conduct::lemma_when_a_wire_is_condemned(
                f,
                p,
                active,
                now,
                Some(true),
                i,
            );
        }
    }
}

/// The engine is asked where a port is in doubt on a leg that can hear, and nowhere else.
pub proof fn lemma_when_the_engine_is_asked(
    l: LegV,
    readings: Seq<PortReading>,
    active: Option<Seq<char>>,
    now: Instant,
)
    ensures
        ({
            let h = leg_heard(l, readings, active, now);
            let f = h.kind->Fallback_0;
            let doubt = exists|i: int|
                0 <= i < h.ports.len() && #[trigger] in_doubt(f, h.ports, active, now, i);
            &&& needs_engine(l, readings, active, now) <==> h.kind is Fallback && !f.noted_deaf
                && doubt
            &&& needs_engine(l, readings, active, now) ==> leg_observed(l, readings, active, now)
                == h && observed_lines(l, readings, active, now) == heard_lines(l, readings)
            &&& h.kind is Fallback && !f.noted_deaf && !doubt ==> leg_observed(
                l,
                readings,
                active,
                now,
            ) == concluded(h, active, now, None) && observed_lines(l, readings, active, now)
                == heard_lines(l, readings) + concluded_lines(h, active, now, None)
            &&& h.kind is Ingress || f.noted_deaf ==> leg_observed(l, readings, active, now) == h
        }),
{
    let h = leg_heard(l, readings, active, now);
    let f = h.kind->Fallback_0;
    assert forall|i: int| 0 <= i < h.ports.len() implies (#[trigger] port_condemnable(
        f,
        h.ports,
        active,
        now,
        i,
    ) <==> in_doubt(f, h.ports, active, now, i)) by {
        lemma_in_doubt(f, h.ports, active, now, i);
    }
    if exists|i: int| 0 <= i < h.ports.len() && #[trigger] in_doubt(f, h.ports, active, now, i) {
        let i = choose|i: int|
            0 <= i < h.ports.len() && #[trigger] in_doubt(f, h.ports, active, now, i);
        assert(port_condemnable(f, h.ports, active, now, i));
        assert(asks_engine(f, h.ports, active, now));
    }
    if asks_engine(f, h.ports, active, now) {
        let i = choose|i: int|
            0 <= i < h.ports.len() && #[trigger] port_condemnable(f, h.ports, active, now, i);
        assert(in_doubt(f, h.ports, active, now, i));
    }
}

/// What the judgement keeps and says of the engine and of silence: each is said when it begins,
/// and not again until it is over.
pub proof fn lemma_what_the_judgement_says(
    l: LegV,
    f: FallbackV,
    active: Option<Seq<char>>,
    now: Instant,
    answer: Option<bool>,
)
    requires
        l.kind == KindV::Fallback(f),
    ensures
        ({
            let c = concluded(l, active, now, answer);
            let g = c.kind->Fallback_0;
            let doubt = exists|i: int|
                0 <= i < l.ports.len() && #[trigger] in_doubt(f, l.ports, active, now, i);
            let mute = "cfab: "@ + l.zone + " fallback: the engine's ospf state for "@ + l.bond
                + " cannot be read — hello silence on the active wire is left to the arp escalation"@;
            let quiet = "cfab: "@ + l.zone
                + " fallback: no peers heard on any wire — nothing to move to"@;
            &&& g.noted_quiet == g.quiet_now
            &&& is_quiet(c) == g.quiet_now
            &&& doubt ==> g.noted_engine_unreadable == (answer is None)
            &&& !doubt ==> g.noted_engine_unreadable == f.noted_engine_unreadable
            &&& g.peers == f.peers && g.targets == f.targets && g.windows == f.windows
                && g.self_rid == f.self_rid && g.noted_deaf == f.noted_deaf
            &&& concluded_lines(l, active, now, answer) == (if doubt && answer is None
                && !f.noted_engine_unreadable {
                seq![mute]
            } else {
                seq![]
            }) + (if g.quiet_now && !f.noted_quiet {
                seq![quiet]
            } else {
                seq![]
            })
            &&& c.ports.len() == l.ports.len()
            &&& c.held == l.held && c.refused == l.refused && c.active_now == l.active_now
        }),
{
    assert forall|i: int| 0 <= i < l.ports.len() implies (#[trigger] port_condemnable(
        f,
        l.ports,
        active,
        now,
        i,
    ) <==> in_doubt(f, l.ports, active, now, i)) by {
        lemma_in_doubt(f, l.ports, active, now, i);
    }
    if exists|i: int| 0 <= i < l.ports.len() && #[trigger] in_doubt(f, l.ports, active, now, i) {
        let i = choose|i: int|
            0 <= i < l.ports.len() && #[trigger] in_doubt(f, l.ports, active, now, i);
        assert(port_condemnable(f, l.ports, active, now, i));
    }
    if asks_engine(f, l.ports, active, now) {
        let i = choose|i: int|
            0 <= i < l.ports.len() && #[trigger] port_condemnable(f, l.ports, active, now, i);
        assert(in_doubt(f, l.ports, active, now, i));
    }
    let a = if asks_engine(f, l.ports, active, now) && answer is None
        && !f.noted_engine_unreadable {
        seq![crate::prober::leg::engine_line(l)]
    } else {
        seq![]
    };
    let e: Seq<Seq<char>> = seq![];
    assert(a + e =~= a);
    assert(a + seq![crate::prober::leg::quiet_line(l)] =~= a.push(
        crate::prober::leg::quiet_line(l),
    ));
}

/// What is said of a tap that cannot be opened.
pub open spec fn tap_line(zone: Seq<char>, p: PortV, r: PortReading, deaf: bool) -> Seq<char> {
    "cfab: "@ + zone + " fallback: cannot listen on "@ + p.wire + " ("@ + plain_error(r.listen->0)
        + ") — "@ + (if deaf {
        "the leg is not probed"@
    } else {
        p.wire + " is not judged"@
    })
}

proof fn lemma_deaf_lines(
    l: LegV,
    readings: Seq<PortReading>,
    total: bool,
    n: int,
    line: Seq<char>,
)
    requires
        readings.len() == l.ports.len(),
        0 <= n <= l.ports.len(),
    ensures
        deaf_lines(l, readings, total, n).contains(line) <==> exists|i: int|
            0 <= i < n && (#[trigger] readings[i]).listen is Some && l.ports[i].deaf != Some(
                plain_error(readings[i].listen->0),
            ) && line == tap_line(l.zone, l.ports[i], readings[i], total),
    decreases n,
{
    if n > 0 {
        lemma_deaf_lines(l, readings, total, n - 1, line);
        let a = deaf_lines(l, readings, total, n - 1);
        let b = deaf_lines(l, readings, total, n);
        let r = readings[n - 1];
        if a.contains(line) {
            let k = choose|k: int| 0 <= k < a.len() && a[k] == line;
            assert(b[k] == line);
        }
        if b.contains(line) {
            let k = choose|k: int| 0 <= k < b.len() && b[k] == line;
            if k < a.len() {
                assert(a[k] == line);
                assert(a.contains(line));
            } else {
                assert(line == tap_line(l.zone, l.ports[n - 1], r, total));
            }
        }
        if r.listen is Some && l.ports[n - 1].deaf != Some(plain_error(r.listen->0)) && line
            == tap_line(l.zone, l.ports[n - 1], r, total) {
            assert(b.last() == line);
        }
    }
}

/// A tap that cannot be opened is said when it begins, and again when it fails in another way;
/// what is said is whether the wire or the whole leg is out.
pub proof fn lemma_what_is_said_of_taps(
    l: LegV,
    readings: Seq<PortReading>,
    line: Seq<char>,
)
    requires
        readings.len() == l.ports.len(),
        l.kind is Fallback,
        l.ports.len() > 0,
    ensures
        heard_lines(l, readings).contains(line) <==> exists|i: int|
            0 <= i < readings.len() && (#[trigger] readings[i]).listen is Some && l.ports[i].deaf
                != Some(plain_error(readings[i].listen->0)) && line == tap_line(
                l.zone,
                l.ports[i],
                readings[i],
                forall|j: int| 0 <= j < readings.len() ==> (#[trigger] readings[j]).listen is Some,
            ),
{
    lemma_deaf_lines(
        l,
        readings,
        crate::prober::leg::all_deaf(readings),
        l.ports.len() as int,
        line,
    );
}

/// The words for a leg and for whom it asks about.
pub proof fn lemma_the_words_for_legs(k: KindV)
    ensures
        k is Ingress ==> noun_of(k) == "router"@ && family_of(k) == "ingress"@,
        k is Fallback ==> noun_of(k) == "peers"@ && family_of(k) == "fallback"@,
        k is Fallback ==> grace_of(k) == k->Fallback_0.windows.grace,
{
}

// ---- a move ----

/// What is asked for: the port that was decided on, unless that very move from there was refused;
/// and nothing of a leg that cannot be moved.
pub proof fn lemma_which_move_is_asked_for(l: LegV, active: Option<Seq<char>>)
    ensures
        ({
            let a = if active is Some && active->0.len() > 0 {
                active
            } else {
                None
            };
            let d = decision(a, cands_of(l.ports), l.prefs);
            &&& !l.actuates ==> planned(l, active) is None && leg_planned(l, active) == l
                && planned_lines(l, active).len() == 0
            &&& l.actuates && d is None ==> planned(l, active) is None
            &&& l.actuates && d is Some && l.refused == Some((l.ports[d->0].ifname, a)) ==> planned(
                l,
                active,
            ) is None
            &&& l.actuates && d is Some && l.refused != Some((l.ports[d->0].ifname, a)) ==> planned(
                l,
                active,
            ) == Some(l.ports[d->0].ifname)
        }),
{
}

/// To be active is what restarts a port's return: of the port that the bond is on, and of no
/// other.
pub proof fn lemma_what_being_active_does(p: Seq<PortV>, k: int, name: Seq<char>)
    requires
        0 <= k < p.len(),
        forall|j: int| 0 <= j < k ==> (#[trigger] p[j]).ifname != p[k].ifname,
        forall|j: int| 0 <= j < p.len() ==> (#[trigger] p[j]).ifname != name,
    ensures
        window_restarted(p, Some(p[k].ifname)) == p.update(k, PortV { returned: false, ..p[k] }),
        window_restarted(p, Some(name)) == p,
        window_restarted(p, None) == p,
{
    lemma_named_at(p, p[k].ifname, 0, k);
    lemma_named_at(p, name, 0, p.len() as int);
}

proof fn lemma_named_at(p: Seq<PortV>, name: Seq<char>, i: int, k: int)
    requires
        0 <= i <= k <= p.len(),
        forall|j: int| i <= j < k ==> (#[trigger] p[j]).ifname != name,
        k < p.len() ==> p[k].ifname == name,
    ensures
        port_named(p, name, i) == k,
    decreases k - i,
{
    if i < k {
        lemma_named_at(p, name, i + 1, k);
    }
}

proof fn lemma_darkest(c: Seq<CandidateV>, prefs: Seq<Seq<char>>, limit: int, n: int)
    requires
        0 <= n <= c.len(),
    ensures
        ({
            let d = darkest(c, prefs, limit, n);
            &&& d is Some ==> 0 <= d->0 < n && !c[d->0].carrier && rank(prefs, c[d->0].wire) < limit
            &&& d is Some ==> forall|j: int|
                0 <= j < n && !(#[trigger] c[j]).carrier ==> rank(prefs, c[d->0].wire) <= rank(
                    prefs,
                    c[j].wire,
                )
            &&& d is None ==> forall|j: int|
                0 <= j < n && !(#[trigger] c[j]).carrier ==> rank(prefs, c[j].wire) >= limit
        }),
    decreases n,
{
    if n > 0 {
        lemma_darkest(c, prefs, limit, n - 1);
    }
}

/// The wire that is skipped is the one without carrier that is preferred most, among those that
/// are preferred to the wire the bond is on.
pub proof fn lemma_which_wire_is_skipped(c: Seq<CandidateV>, prefs: Seq<Seq<char>>, k: int)
    requires
        0 <= k < c.len(),
        forall|a: int, b: int|
            0 <= a < b < c.len() ==> (#[trigger] c[a]).ifname != (#[trigger] c[b]).ifname,
    ensures
        ({
            let s = skipped(Some(c[k].ifname), c, prefs);
            &&& s is Some ==> 0 <= s->0 < c.len() && !c[s->0].carrier && rank(prefs, c[s->0].wire)
                < rank(prefs, c[k].wire)
            &&& s is Some ==> forall|j: int|
                0 <= j < c.len() && !(#[trigger] c[j]).carrier ==> rank(prefs, c[s->0].wire)
                    <= rank(prefs, c[j].wire)
            &&& s is None ==> forall|j: int|
                0 <= j < c.len() && !(#[trigger] c[j]).carrier ==> rank(prefs, c[j].wire) >= rank(
                    prefs,
                    c[k].wire,
                )
        }),
{
    lemma_candidate_at(c, c[k].ifname, 0, k);
    lemma_darkest(c, prefs, rank(prefs, c[k].wire), c.len() as int);
}

proof fn lemma_candidate_at(c: Seq<CandidateV>, name: Seq<char>, i: int, k: int)
    requires
        0 <= i <= k < c.len(),
        c[k].ifname == name,
        forall|j: int| i <= j < k ==> (#[trigger] c[j]).ifname != name,
    ensures
        named(c, name, i) == k,
    decreases k - i,
{
    if i < k {
        assert(c[i].ifname != name);
        lemma_candidate_at(c, name, i + 1, k);
    }
}

/// What is said where the bond stays for want of carrier elsewhere: once for each pair of wires.
pub proof fn lemma_what_is_said_of_carrier(l: LegV, active: Option<Seq<char>>)
    requires
        l.actuates,
        decision(somewhere(active), cands_of(l.ports), l.prefs) is None,
    ensures
        ({
            let c = cands_of(l.ports);
            let s = skipped(somewhere(active), c, l.prefs);
            let k = active_candidate(somewhere(active), c);
            let both = s is Some && k is Some;
            let note = if both {
                Some((c[s->0].wire, c[k->0].wire))
            } else {
                None
            };
            &&& leg_planned(l, active).noted_no_carrier == note
            &&& planned_lines(l, active) == if both && l.noted_no_carrier != note {
                seq![
                    "cfab: "@ + l.zone + " "@ + family_of(l.kind) + ": "@ + c[s->0].wire
                        + " has no carrier, staying on "@ + c[k->0].wire,
                ]
            } else {
                seq![]
            }
        }),
{
}

/// Why a bond was moved, as it is said.
pub proof fn lemma_why_a_bond_was_moved(l: LegV, k: int, t: int, active: Option<Seq<char>>)
    requires
        0 <= k < l.ports.len(),
        0 <= t < l.ports.len(),
        forall|a: int, b: int|
            0 <= a < b < l.ports.len() ==> (#[trigger] l.ports[a]).ifname != (
            #[trigger] l.ports[b]).ifname,
        l.ports[k].ifname.len() > 0,
        active == Some(l.ports[k].ifname),
    ensures
        ({
            let from = l.ports[k];
            let to = l.ports[t];
            let said = move_line(l, to.ifname, active);
            let head = "cfab: "@ + l.zone + " "@ + family_of(l.kind) + ": "@;
            &&& !from.carrier ==> said == head + from.wire + " lost carrier, moved "@ + l.bond
                + " to "@ + to.wire
            &&& from.carrier && from.hello_dead ==> said == head + noun_of(l.kind) + " silent on "@
                + from.wire + " (adjacency down, arp still answers), moved "@ + l.bond + " to "@
                + to.wire
            &&& from.carrier && !from.hello_dead && !from.state.reachable ==> said == head
                + noun_of(l.kind) + " unreachable on "@ + from.wire + ", moved "@ + l.bond + " to "@
                + to.wire
            &&& from.carrier && !from.hello_dead && from.state.reachable && to.returned ==> said
                == head + noun_of(l.kind) + " reachable on "@ + to.wire + " again, moved "@ + l.bond
                + " back from "@ + from.wire
            &&& from.carrier && !from.hello_dead && from.state.reachable && !to.returned ==> said
                == head + to.wire + " is preferred, moved "@ + l.bond + " from "@ + from.wire
            &&& move_line(l, to.ifname, None) == head + "no port of ours was active on "@ + l.bond
                + ", moved it to "@ + to.wire
        }),
{
    lemma_named_at(l.ports, l.ports[k].ifname, 0, k);
    lemma_named_at(l.ports, l.ports[t].ifname, 0, t);
}

/// How a move that was refused is told, and which files a move writes.
pub proof fn lemma_how_a_refused_move_is_told(l: LegV, t: int, e: Error)
    requires
        0 <= t < l.ports.len(),
        forall|j: int| 0 <= j < t ==> (#[trigger] l.ports[j]).ifname != l.ports[t].ifname,
    ensures
        refusal_line(l, l.ports[t].ifname, e) == "cfab: warn: "@ + l.zone + " "@ + family_of(l.kind)
            + ": cannot move "@ + l.bond + " to "@ + l.ports[t].wire + " ("@ + l.ports[t].ifname
            + "): "@ + plain_error(e),
        file_path(l.bond, BondFile::Primary) == "/sys/class/net/"@ + l.bond + "/bonding/primary"@,
        file_path(l.bond, BondFile::ActiveSlave) == "/sys/class/net/"@ + l.bond
            + "/bonding/active_slave"@,
{
    lemma_named_at(l.ports, l.ports[t].ifname, 0, t);
}

// ---- the course of a tick ----

/// A tick reads where the bond is, where the leg can be moved, and then its ports.
pub proof fn lemma_how_a_tick_begins(l: LegV, read: Option<String>, now: Instant)
    ensures
        l.actuates ==> first_step(l) is ReadActive,
        !l.actuates ==> first_step(l) == (TickV::ReadPorts { active: None }),
        l.actuates && read is Some ==> tick_after(l, TickV::ReadActive, Got::Active(read), now) == (
        TickV::ReadPorts { active: Some(trim(read->0@)) }),
        l.actuates && read is None ==> tick_after(l, TickV::ReadActive, Got::Active(read), now) == (
        TickV::ReadPorts { active: None }),
        l.actuates ==> leg_after(l, TickV::ReadActive, Got::Active(read), now) == active_taken(
            l,
            read,
        ),
        lines_after(l, TickV::ReadActive, Got::Active(read), now).len() == 0,
{
}

/// Once its ports are judged, a bond that was read and a leg that can hear come up for a move; any
/// other leg is left as it is, and nothing is said of it.
pub open spec fn moved_on(
    l: LegV,
    said: Seq<Seq<char>>,
    active: Option<Seq<char>>,
    after: LegV,
    next: TickV,
    lines: Seq<Seq<char>>,
) -> bool {
    let up = active is Some && !(l.kind is Fallback && l.kind->Fallback_0.noted_deaf);
    &&& up ==> after == leg_planned(l, active)
    &&& up ==> lines == said + planned_lines(l, active)
    &&& up && planned(l, active) is Some ==> next == (TickV::Write {
        active,
        target: planned(l, active)->0,
        file: BondFile::Primary,
    })
    &&& up && planned(l, active) is None ==> next is Send
    &&& !up ==> after == l && lines == said && next is Send
}

/// When the ports were read, either the engine is asked, or the ports are judged and the move is
/// decided.
pub proof fn lemma_what_follows_the_readings(
    l: LegV,
    active: Option<Seq<char>>,
    r: Vec<PortReading>,
    now: Instant,
)
    ensures
        ({
            let t = TickV::ReadPorts { active };
            let got = Got::Ports(r);
            let after = leg_after(l, t, got, now);
            let next = tick_after(l, t, got, now);
            let lines = lines_after(l, t, got, now);
            &&& needs_engine(l, r@, active, now) ==> after == leg_observed(l, r@, active, now)
                && next == (TickV::AskEngine { active }) && lines == observed_lines(
                l,
                r@,
                active,
                now,
            )
            &&& !needs_engine(l, r@, active, now) ==> moved_on(
                leg_observed(l, r@, active, now),
                observed_lines(l, r@, active, now),
                active,
                after,
                next,
                lines,
            )
        }),
{
    let e: Seq<Seq<char>> = seq![];
    let said = observed_lines(l, r@, active, now);
    assert(said + e =~= said);
}

/// When the engine was asked, the ports are judged by its word on this leg and its peers, and the
/// move is decided.
pub proof fn lemma_what_follows_the_engines_word(
    l: LegV,
    f: FallbackV,
    active: Option<Seq<char>>,
    reply: Option<String>,
    now: Instant,
)
    requires
        l.kind == KindV::Fallback(f),
    ensures
        ({
            let t = TickV::AskEngine { active };
            let got = Got::Engine(reply);
            let word = engine_word(opt_string(reply), l.zone, l.bond, f.peers);
            moved_on(
                concluded(l, active, now, word),
                concluded_lines(l, active, now, word),
                active,
                leg_after(l, t, got, now),
                tick_after(l, t, got, now),
                lines_after(l, t, got, now),
            )
        }),
{
    let e: Seq<Seq<char>> = seq![];
    let word = engine_word(opt_string(reply), l.zone, l.bond, f.peers);
    let said = concluded_lines(l, active, now, word);
    assert(said + e =~= said);
}

/// A tick ends with what was sent, port by port: a port that does not ask is not told by it, and
/// one that could not be asked over is asked no more once it is out of reach.
pub proof fn lemma_how_a_tick_ends(l: LegV, sent: Vec<bool>, now: Instant, i: int)
    requires
        sent@.len() == l.ports.len(),
        0 <= i < l.ports.len(),
    ensures
        tick_after(l, TickV::Send, Got::Sent(sent), now) is Done,
        lines_after(l, TickV::Send, Got::Sent(sent), now).len() == 0,
        ({
            let q = leg_after(l, TickV::Send, Got::Sent(sent), now).ports[i];
            let p = l.ports[i];
            &&& q == port_asked(l.kind, p, sent@[i])
            &&& l.kind is Fallback && !p.escalating ==> q == p
            &&& l.kind is Fallback && p.escalating && !sent@[i] ==> q.escalating
                == q.state.reachable
            &&& l.kind is Ingress ==> q.escalating == p.escalating
        }),
{
}

/// Is there a target with the last octet of the Router ID?
pub open spec fn has_target(targets: Seq<Ipv4Addr>, rid: u32) -> bool {
    exists|k: int|
        0 <= k < targets.len() && octet((#[trigger] targets[k]).bits, 3) == octet(rid, 3)
}

/// The peers that were heard last are asked first, in the order in which they were heard.
pub proof fn lemma_in_which_order_peers_are_asked(
    targets: Seq<Ipv4Addr>,
    recent: Seq<u32>,
    n: int,
)
    requires
        0 <= n <= recent.len(),
        forall|i: int| 0 <= i < n ==> has_target(targets, #[trigger] recent[i]),
    ensures
        recent_targets(targets, recent, n).len() == n,
        forall|i: int|
            0 <= i < n ==> octet((#[trigger] recent_targets(targets, recent, n)[i]).bits, 3)
                == octet(recent[i], 3),
    decreases n,
{
    if n > 0 {
        lemma_in_which_order_peers_are_asked(targets, recent, n - 1);
        lemma_target(targets, recent[n - 1], 0);
        assert(has_target(targets, recent[n - 1]));
        let k = choose|k: int|
            0 <= k < targets.len() && octet((#[trigger] targets[k]).bits, 3) == octet(
                recent[n - 1],
                3,
            );
        assert(target_place(targets, recent[n - 1], 0) <= k);
        let b = recent_targets(targets, recent, n - 1);
        let c = recent_targets(targets, recent, n);
        assert forall|i: int| 0 <= i < n implies octet((#[trigger] c[i]).bits, 3) == octet(
            recent[i],
            3,
        ) by {
            if i < n - 1 {
                assert(c[i] == b[i]);
            }
        }
    }
}

proof fn lemma_target(targets: Seq<Ipv4Addr>, rid: u32, i: int)
    requires
        0 <= i <= targets.len(),
    ensures
        i <= target_place(targets, rid, i) <= targets.len(),
        target_place(targets, rid, i) < targets.len() ==> octet(
            targets[target_place(targets, rid, i)].bits,
            3,
        ) == octet(rid, 3),
        forall|j: int|
            i <= j < target_place(targets, rid, i) ==> octet((#[trigger] targets[j]).bits, 3)
                != octet(rid, 3),
    decreases targets.len() - i,
{
    if i < targets.len() && octet(targets[i].bits, 3) != octet(rid, 3) {
        lemma_target(targets, rid, i + 1);
    }
}

// ---- what is let through to a tap ----

/// The filter, an instruction after the other, with the kernel's own numbers.
pub proof fn lemma_the_instructions_of_the_filter()
    ensures
        filter_program() == seq![
            Insn { code: 0x28, jt: 0, jf: 0, k: 12 },
            Insn { code: 0x15, jt: 5, jf: 0, k: 0x0806 },
            Insn { code: 0x15, jt: 0, jf: 5, k: 0x0800 },
            Insn { code: 0x30, jt: 0, jf: 0, k: 23 },
            Insn { code: 0x15, jt: 0, jf: 3, k: 89 },
            Insn { code: 0x20, jt: 0, jf: 0, k: 30 },
            Insn { code: 0x15, jt: 0, jf: 1, k: 0xe000_0005 },
            Insn { code: 0x06, jt: 0, jf: 0, k: 0x0004_0000 },
            Insn { code: 0x06, jt: 0, jf: 0, k: 0 },
        ],
{
}

/// Of what arrives on a wire a tap gets ARP and the OSPF that goes to all routers, whole, and
/// nothing else.
pub proof fn lemma_what_a_tap_gets(f: Seq<u8>)
    ensures
        run_from(filter_program(), f, 0, 0) == 0x0004_0000 || run_from(filter_program(), f, 0, 0)
            == 0,
        run_from(filter_program(), f, 0, 0) == 0x0004_0000 <==> {
            &&& f.len() >= 14
            &&& {
                ||| f[12] == 0x08 && f[13] == 0x06
                ||| {
                    &&& f[12] == 0x08 && f[13] == 0x00
                    &&& f.len() >= 34
                    &&& f[23] == 89
                    &&& f[30] == 224 && f[31] == 0 && f[32] == 0 && f[33] == 5
                }
            }
        },
{
    lemma_filter_accepts_evidence(f);
    if f.len() >= 34 {
        let (a, b, c, d) = (f[30] as int, f[31] as int, f[32] as int, f[33] as int);
        assert(be32(f, 30) == a * 16777216 + b * 65536 + c * 256 + d);
        if be32(f, 30) == 224 * 16777216 + 5 {
            assert(a == 224);
            assert(b == 0);
            assert(c == 0);
            assert(d == 5);
        }
    }
}

// ---- what is reported ----

/// The legs of one family are reported in their order, and none of the other.
pub proof fn lemma_which_legs_are_reported(l: Seq<LegV>, fallback: bool, now: Instant, n: int)
    requires
        0 < n <= l.len(),
    ensures
        (l[n - 1].kind is Fallback) == fallback ==> rows_of(l, fallback, now, n) == rows_of(
            l,
            fallback,
            now,
            n - 1,
        ).push(leg_row(l[n - 1], now)),
        (l[n - 1].kind is Fallback) != fallback ==> rows_of(l, fallback, now, n) == rows_of(
            l,
            fallback,
            now,
            n - 1,
        ),
        rows_of(l, fallback, now, 0).len() == 0,
{
}

/// The port that is held for a bond is that of the last leg that moves it.
pub proof fn lemma_which_port_is_held(l: Seq<LegV>, bond: Seq<char>, n: int, k: int)
    requires
        -1 <= k < n <= l.len(),
        k >= 0 ==> l[k].actuates && l[k].bond == bond,
        forall|j: int| k < j < n ==> !((#[trigger] l[j]).actuates && l[j].bond == bond),
    ensures
        k >= 0 ==> held_by(l, bond, n) == Some(l[k].held),
        k == -1 ==> held_by(l, bond, n) is None,
    decreases n,
{
    if n > 0 && k < n - 1 {
        if n - 1 > k {
            assert(!(l[n - 1].actuates && l[n - 1].bond == bond));
        }
        if n - 1 > 0 || k >= 0 {
            lemma_which_port_is_held(l, bond, n - 1, k);
        }
    }
}

} // verus!
