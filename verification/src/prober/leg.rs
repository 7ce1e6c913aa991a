//! One probed leg: its ports judged together, and where its bond belongs.
//!
//! A tick runs in steps, each of which takes in what the outside said and says what is asked of
//! it next: `take_active`, `observe` and where it asks for it `conclude`, `plan_move` and then
//! `moved` or `move_refused`, and `asks` with `asked`.

use vstd::prelude::*;

use crate::ipv4::Ipv4Addr;
use crate::model::views;
use crate::prober::decide::opt_text;
use crate::prober::passive::{any_lively, verdict, verdicts, Evidence, Verdict, Windows};
use crate::prober::port::{
    answered, any_reply, condemnable, evidence_of, frames_heard, frames_of, judged, listened,
    netdev_read, plain_error, usability_noted, without_fatal, PortReading, PortV, ProbePort,
};
use crate::text::{cat5, cat8, lemma_texts_push, opt_string, str_eq, texts, trim, trimmed};
use crate::time::{Duration, Instant};

verus! {

/// The passive channel's knowledge of a leg: who is expected, whom to ask when one wire goes
/// quiet, and the windows all of it is judged by.
#[derive(Debug)]
pub struct Fallback {
    /// The peers' addresses on this segment: the escalation's targets.
    pub targets: Vec<Ipv4Addr>,
    /// The Router IDs of the members that are expected on this segment, without our own.
    pub peers: Vec<u32>,
    /// Our own Router ID in this zone.
    pub self_rid: u32,
    pub windows: Windows,
    /// No port of this leg heard anything within its window on the last tick.
    pub quiet_now: bool,
    /// That the whole leg has gone quiet has been said.
    pub noted_quiet: bool,
    /// No tap on this leg could be opened: the leg is not probed until one can be.
    pub noted_deaf: bool,
    /// The engine's state socket.
    pub engine_sock: String,
    /// That the engine could not be read when it was needed has been said.
    pub noted_engine_unreadable: bool,
}

pub struct FallbackV {
    pub targets: Seq<Ipv4Addr>,
    pub peers: Seq<u32>,
    pub self_rid: u32,
    pub windows: Windows,
    pub quiet_now: bool,
    pub noted_quiet: bool,
    pub noted_deaf: bool,
    pub engine_sock: Seq<char>,
    pub noted_engine_unreadable: bool,
}

impl View for Fallback {
    type V = FallbackV;

    open spec fn view(&self) -> FallbackV {
        FallbackV {
            targets: self.targets@,
            peers: self.peers@,
            self_rid: self.self_rid,
            windows: self.windows,
            quiet_now: self.quiet_now,
            noted_quiet: self.noted_quiet,
            noted_deaf: self.noted_deaf,
            engine_sock: self.engine_sock@,
            noted_engine_unreadable: self.noted_engine_unreadable,
        }
    }
}

/// What one leg asks, and of whom.
#[derive(Debug)]
pub enum Kind {
    /// The ingress leg: ask the router, over every wire, on every tick.
    Ingress { router: Ipv4Addr },
    /// A zone's universal segment: hear the peers, and ask only when a wire has gone quiet while
    /// its siblings have not.
    Fallback(Fallback),
}

pub enum KindV {
    Ingress { router: Ipv4Addr },
    Fallback(FallbackV),
}

impl View for Kind {
    type V = KindV;

    open spec fn view(&self) -> KindV {
        match self {
            Kind::Ingress { router } => KindV::Ingress { router: *router },
            Kind::Fallback(f) => KindV::Fallback(f@),
        }
    }
}

/// The word that every line uses for what the leg is asking about.
pub open spec fn noun_of(k: KindV) -> Seq<char> {
    match k {
        KindV::Ingress { .. } => "router"@,
        KindV::Fallback(_) => "peers"@,
    }
}

/// The word that every line uses for the leg itself.
pub open spec fn family_of(k: KindV) -> Seq<char> {
    match k {
        KindV::Ingress { .. } => "ingress"@,
        KindV::Fallback(_) => "fallback"@,
    }
}

/// How long a port of this leg is left alone after it appears or is promoted. A leg that asks has
/// no grace: the answer is the answer.
pub open spec fn grace_of(k: KindV) -> Duration {
    match k {
        KindV::Ingress { .. } => Duration { ns: 0 },
        KindV::Fallback(f) => f.windows.grace,
    }
}

impl Kind {
    pub fn noun(&self) -> (r: &'static str)
        ensures
            r@ == noun_of(self@),
    {
        match self {
            Kind::Ingress { .. } => "router",
            Kind::Fallback(_) => "peers",
        }
    }

    pub fn family(&self) -> (r: &'static str)
        ensures
            r@ == family_of(self@),
    {
        match self {
            Kind::Ingress { .. } => "ingress",
            Kind::Fallback(_) => "fallback",
        }
    }

    pub fn grace(&self) -> (r: Duration)
        ensures
            r == grace_of(self@),
    {
        match self {
            Kind::Ingress { .. } => Duration { ns: 0 },
            Kind::Fallback(f) => f.windows.grace,
        }
    }
}

/// One leg's probe state.
#[derive(Debug)]
pub struct Leg {
    pub zone: String,
    /// The leg netdev: a bond where the leg migrates, a plain sub-interface otherwise.
    pub bond: String,
    /// Only a leg with ports has anywhere to move to.
    pub actuates: bool,
    /// The zone's wire order, best first.
    pub prefs: Vec<String>,
    /// The port that the bond's `primary` must name.
    pub held: String,
    /// The port that the kernel has active, as of this tick's read.
    pub active_now: Option<String>,
    pub ports: Vec<ProbePort>,
    /// The pair (skipped wire, wire we are on) that the last note about carrier named.
    pub noted_no_carrier: Option<(String, String)>,
    /// The pair (target, active port) that the last refused write was for.
    pub refused: Option<(String, Option<String>)>,
    pub kind: Kind,
}

pub struct LegV {
    pub zone: Seq<char>,
    pub bond: Seq<char>,
    pub actuates: bool,
    pub prefs: Seq<Seq<char>>,
    pub held: Seq<char>,
    pub active_now: Option<Seq<char>>,
    pub ports: Seq<PortV>,
    pub noted_no_carrier: Option<(Seq<char>, Seq<char>)>,
    pub refused: Option<(Seq<char>, Option<Seq<char>>)>,
    pub kind: KindV,
}

pub open spec fn note_view(n: Option<(String, String)>) -> Option<(Seq<char>, Seq<char>)> {
    match n {
        Some(p) => Some((p.0@, p.1@)),
        None => None,
    }
}

pub open spec fn refused_view(n: Option<(String, Option<String>)>) -> Option<
    (Seq<char>, Option<Seq<char>>),
> {
    match n {
        Some(p) => Some((p.0@, opt_string(p.1))),
        None => None,
    }
}

impl View for Leg {
    type V = LegV;

    open spec fn view(&self) -> LegV {
        LegV {
            zone: self.zone@,
            bond: self.bond@,
            actuates: self.actuates,
            prefs: texts(self.prefs@),
            held: self.held@,
            active_now: opt_string(self.active_now),
            ports: views(self.ports@),
            noted_no_carrier: note_view(self.noted_no_carrier),
            refused: refused_view(self.refused),
            kind: self.kind@,
        }
    }
}

/// The first port from `i` on with this wire, or the number of ports.
pub open spec fn port_on(p: Seq<PortV>, wire: Seq<char>, i: int) -> int
    decreases p.len() - i,
{
    if i >= p.len() {
        p.len() as int
    } else if p[i].wire == wire {
        i
    } else {
        port_on(p, wire, i + 1)
    }
}

/// The port that a new leg holds: the one on its home wire, else its first.
pub open spec fn home_port(p: Seq<PortV>, home: Seq<char>) -> Seq<char> {
    if port_on(p, home, 0) < p.len() {
        p[port_on(p, home, 0)].ifname
    } else if p.len() > 0 {
        p[0].ifname
    } else {
        seq![]
    }
}

pub open spec fn fresh_leg(
    zone: Seq<char>,
    bond: Seq<char>,
    actuates: bool,
    prefs: Seq<Seq<char>>,
    home: Seq<char>,
    ports: Seq<PortV>,
    kind: KindV,
) -> LegV {
    LegV {
        zone,
        bond,
        actuates,
        prefs,
        held: home_port(ports, home),
        active_now: None,
        ports,
        noted_no_carrier: None,
        refused: None,
        kind,
    }
}

// ---- where the bond is ----

pub open spec fn nonempty(s: Seq<char>) -> Option<Seq<char>> {
    if s.len() == 0 {
        None
    } else {
        Some(s)
    }
}

/// The leg after its bond's active port was read, where it could be. A bond without an active
/// port reads as an empty name, which no port has.
pub open spec fn active_taken(l: LegV, read: Option<String>) -> LegV {
    match read {
        Some(t) => LegV { active_now: nonempty(trim(t@)), ..l },
        None => l,
    }
}

// ---- what the ports heard ----

/// One port after a tick's readings, before the ports are judged together.
pub open spec fn port_observed(
    k: KindV,
    p: PortV,
    r: PortReading,
    active: Option<Seq<char>>,
    now: Instant,
) -> PortV {
    let q = netdev_read(p, r.carrier, r.mii_status, now, grace_of(k));
    match k {
        KindV::Ingress { router } => answered(
            q,
            any_reply(frames_of(r.frames@), q.mac, router),
            now,
        ),
        KindV::Fallback(f) => match r.listen {
            Some(e) => PortV { deaf: Some(plain_error(e)), ..q },
            None => {
                let b = frames_heard(
                    PortV { deaf: None, ..q },
                    frames_of(r.frames@),
                    r.frames@.len() as int,
                    f.self_rid,
                    f.peers,
                    f.targets,
                    active == Some(q.ifname),
                    now,
                );
                listened(b.0, b.1, now)
            },
        },
    }
}

pub open spec fn ports_observed(
    l: LegV,
    readings: Seq<PortReading>,
    active: Option<Seq<char>>,
    now: Instant,
) -> Seq<PortV> {
    Seq::new(
        l.ports.len(),
        |i: int| port_observed(l.kind, l.ports[i], readings[i], active, now),
    )
}

/// Could no tap of the leg be opened?
pub open spec fn all_deaf(readings: Seq<PortReading>) -> bool {
    readings.len() > 0 && forall|i: int|
        0 <= i < readings.len() ==> (#[trigger] readings[i]).listen is Some
}

/// Has this port's tap just started failing, or failing in another way?
pub open spec fn newly_deaf(p: PortV, r: PortReading) -> bool {
    r.listen is Some && p.deaf != Some(plain_error(r.listen->0))
}

pub open spec fn deaf_line(zone: Seq<char>, p: PortV, r: PortReading, total: bool) -> Seq<char> {
    "cfab: "@ + zone + " fallback: cannot listen on "@ + p.wire + " ("@ + plain_error(r.listen->0)
        + ") — "@ + (if total {
        "the leg is not probed"@
    } else {
        p.wire + " is not judged"@
    })
}

/// What is said of the first `n` ports' taps.
pub open spec fn deaf_lines(
    l: LegV,
    readings: Seq<PortReading>,
    total: bool,
    n: int,
) -> Seq<Seq<char>>
    decreases n,
{
    if n <= 0 {
        seq![]
    } else if newly_deaf(l.ports[n - 1], readings[n - 1]) {
        deaf_lines(l, readings, total, n - 1).push(
            deaf_line(l.zone, l.ports[n - 1], readings[n - 1], total),
        )
    } else {
        deaf_lines(l, readings, total, n - 1)
    }
}

pub open spec fn all_noted(p: Seq<PortV>) -> Seq<PortV> {
    Seq::new(p.len(), |i: int| usability_noted(p[i]))
}

/// The evidence of every port.
pub open spec fn all_evidence(p: Seq<PortV>, active: Option<Seq<char>>) -> Seq<Evidence> {
    Seq::new(p.len(), |i: int| evidence_of(p[i], active))
}

/// The verdict on port `i` of a leg that listens.
pub open spec fn port_verdict(
    f: FallbackV,
    p: Seq<PortV>,
    active: Option<Seq<char>>,
    now: Instant,
    i: int,
) -> Verdict {
    verdict(
        evidence_of(p[i], active),
        f.windows,
        now,
        any_lively(all_evidence(p, active), f.windows, now),
        f.peers.len() > 0,
    )
}

pub open spec fn port_condemnable(
    f: FallbackV,
    p: Seq<PortV>,
    active: Option<Seq<char>>,
    now: Instant,
    i: int,
) -> bool {
    condemnable(p[i], port_verdict(f, p, active, now, i), active, now, f.windows.dead)
}

/// Must the engine be asked? Only where the active port has been silent past the dead interval
/// while a sibling still hears the fabric.
pub open spec fn asks_engine(
    f: FallbackV,
    p: Seq<PortV>,
    active: Option<Seq<char>>,
    now: Instant,
) -> bool {
    exists|i: int| 0 <= i < p.len() && #[trigger] port_condemnable(f, p, active, now, i)
}

/// The leg after its readings, and before its ports are judged: what `observe` does to it where
/// the engine has to be asked first.
pub open spec fn leg_heard(
    l: LegV,
    readings: Seq<PortReading>,
    active: Option<Seq<char>>,
    now: Instant,
) -> LegV {
    let ports = ports_observed(l, readings, active, now);
    match l.kind {
        KindV::Ingress { .. } => LegV { ports: all_noted(ports), ..l },
        KindV::Fallback(f) => {
            let total = all_deaf(readings);
            let kind = KindV::Fallback(FallbackV { noted_deaf: total, ..f });
            if total {
                LegV { ports: all_noted(ports), kind, ..l }
            } else {
                LegV { ports, kind, ..l }
            }
        },
    }
}

pub open spec fn heard_lines(l: LegV, readings: Seq<PortReading>) -> Seq<Seq<char>> {
    match l.kind {
        KindV::Ingress { .. } => seq![],
        KindV::Fallback(_) => deaf_lines(
            l,
            readings,
            all_deaf(readings),
            l.ports.len() as int,
        ),
    }
}

/// Is there still something to judge on a leg that was heard?
pub open spec fn judgeable(l: LegV) -> bool {
    l.kind is Fallback && !l.kind->Fallback_0.noted_deaf
}

// ---- the judgement ----

/// Port `i` after the judgement, given the engine's word where it was asked for.
pub open spec fn port_concluded(
    f: FallbackV,
    p: Seq<PortV>,
    active: Option<Seq<char>>,
    now: Instant,
    answer: Option<bool>,
    i: int,
) -> PortV {
    let q = if answer == Some(true) && port_condemnable(f, p, active, now, i) {
        PortV { hello_dead: true, ..p[i] }
    } else {
        p[i]
    };
    usability_noted(judged(q, port_verdict(f, p, active, now, i)))
}

/// Is every port silent, with no wire of its own to blame?
pub open spec fn all_quiet(
    f: FallbackV,
    p: Seq<PortV>,
    active: Option<Seq<char>>,
    now: Instant,
) -> bool {
    p.len() > 0 && forall|i: int|
        0 <= i < p.len() ==> #[trigger] port_verdict(f, p, active, now, i) == Verdict::Quiet
}

/// The leg after the judgement.
pub open spec fn concluded(
    l: LegV,
    active: Option<Seq<char>>,
    now: Instant,
    answer: Option<bool>,
) -> LegV {
    let f = l.kind->Fallback_0;
    let quiet = all_quiet(f, l.ports, active, now);
    LegV {
        ports: Seq::new(
            l.ports.len(),
            |i: int| port_concluded(f, l.ports, active, now, answer, i),
        ),
        kind: KindV::Fallback(
            FallbackV {
                quiet_now: quiet,
                noted_quiet: quiet,
                noted_engine_unreadable: if asks_engine(f, l.ports, active, now) {
                    answer is None
                } else {
                    f.noted_engine_unreadable
                },
                ..f
            },
        ),
        ..l
    }
}

pub open spec fn engine_line(l: LegV) -> Seq<char> {
    "cfab: "@ + l.zone + " fallback: the engine's ospf state for "@ + l.bond
        + " cannot be read — hello silence on the active wire is left to the arp escalation"@
}

pub open spec fn quiet_line(l: LegV) -> Seq<char> {
    "cfab: "@ + l.zone + " fallback: no peers heard on any wire — nothing to move to"@
}

/// What is said in the judgement: each condition once, until it is over.
pub open spec fn concluded_lines(
    l: LegV,
    active: Option<Seq<char>>,
    now: Instant,
    answer: Option<bool>,
) -> Seq<Seq<char>> {
    let f = l.kind->Fallback_0;
    let a = if asks_engine(f, l.ports, active, now) && answer is None
        && !f.noted_engine_unreadable {
        seq![engine_line(l)]
    } else {
        seq![]
    };
    if all_quiet(f, l.ports, active, now) && !f.noted_quiet {
        a.push(quiet_line(l))
    } else {
        a
    }
}

/// The leg after `observe`: where nothing asks for the engine's word, the judgement is made at
/// once.
pub open spec fn leg_observed(
    l: LegV,
    readings: Seq<PortReading>,
    active: Option<Seq<char>>,
    now: Instant,
) -> LegV {
    let h = leg_heard(l, readings, active, now);
    if judgeable(h) && !asks_engine(h.kind->Fallback_0, h.ports, active, now) {
        concluded(h, active, now, None)
    } else {
        h
    }
}

pub open spec fn observed_lines(
    l: LegV,
    readings: Seq<PortReading>,
    active: Option<Seq<char>>,
    now: Instant,
) -> Seq<Seq<char>> {
    let h = leg_heard(l, readings, active, now);
    if judgeable(h) && !asks_engine(h.kind->Fallback_0, h.ports, active, now) {
        heard_lines(l, readings) + concluded_lines(h, active, now, None)
    } else {
        heard_lines(l, readings)
    }
}

/// Does `observe` leave the judgement to `conclude`?
pub open spec fn needs_engine(
    l: LegV,
    readings: Seq<PortReading>,
    active: Option<Seq<char>>,
    now: Instant,
) -> bool {
    let h = leg_heard(l, readings, active, now);
    judgeable(h) && asks_engine(h.kind->Fallback_0, h.ports, active, now)
}

/// A leg whose every tap failed to open knows nothing about its wires, so it is not a leg to
/// move.
pub open spec fn is_probed(l: LegV) -> bool {
    !(l.kind is Fallback && l.kind->Fallback_0.noted_deaf)
}

pub open spec fn is_quiet(l: LegV) -> bool {
    l.kind is Fallback && l.kind->Fallback_0.quiet_now
}

impl Leg {
    pub fn new(
        zone: String,
        bond: String,
        actuates: bool,
        prefs: Vec<String>,
        home: &str,
        ports: Vec<ProbePort>,
        kind: Kind,
    ) -> (r: Leg)
        ensures
            r@ == fresh_leg(
                zone@,
                bond@,
                actuates,
                texts(prefs@),
                home@,
                views(ports@),
                kind@,
            ),
    {
        let ghost p = views(ports@);
        let mut held = String::new();
        let mut i: usize = 0;
        let mut found = false;
        while i < ports.len() && !found
            invariant
                i <= ports@.len(),
                p == views(ports@),
                found ==> i < ports@.len() && i as int == port_on(p, home@, 0),
                !found ==> port_on(p, home@, 0) == port_on(p, home@, i as int),
            decreases ports@.len() - i + if found {
                0int
            } else {
                1int
            },
        {
            assert(p[i as int] == ports@[i as int]@);
            if str_eq(ports[i].wire.as_str(), home) {
                found = true;
            } else {
                i = i + 1;
            }
        }
        if found {
            assert(p[i as int] == ports@[i as int]@);
            held = ports[i].ifname.clone();
        } else if ports.len() > 0 {
            assert(p[0] == ports@[0]@);
            held = ports[0].ifname.clone();
        }
        assert(held@ == home_port(p, home@));
        Leg {
            zone,
            bond,
            actuates,
            prefs,
            held,
            active_now: None,
            ports,
            noted_no_carrier: None,
            refused: None,
            kind,
        }
    }

    pub fn probed(&self) -> (r: bool)
        ensures
            r == is_probed(self@),
    {
        match &self.kind {
            Kind::Ingress { .. } => true,
            Kind::Fallback(f) => !f.noted_deaf,
        }
    }

    /// Has this leg heard nothing at all, on any wire, this tick?
    pub fn quiet(&self) -> (r: bool)
        ensures
            r == is_quiet(self@),
    {
        match &self.kind {
            Kind::Ingress { .. } => false,
            Kind::Fallback(f) => f.quiet_now,
        }
    }

    /// Take in where the kernel has the bond: the text of its `active_slave` file, where that
    /// could be read. A leg with nowhere to move to is not asked, and one that cannot be read is
    /// not ours this tick.
    pub fn take_active(&mut self, read: &Option<String>) -> (r: Option<String>)
        ensures
            final(self)@ == if old(self)@.actuates {
                active_taken(old(self)@, *read)
            } else {
                old(self)@
            },
            opt_string(r) == if old(self)@.actuates && read is Some {
                Some(trim(read->0@))
            } else {
                None
            },
    {
        if !self.actuates {
            return None;
        }
        match read {
            Some(t) => {
                let a = trimmed(t.as_str());
                self.active_now = if a.as_str().is_empty() {
                    None
                } else {
                    Some(a.clone())
                };
                Some(a)
            },
            None => None,
        }
    }

    fn note_all(&mut self)
        ensures
            final(self)@ == (LegV { ports: all_noted(old(self)@.ports), ..old(self)@ }),
    {
        let ghost before = self@.ports;
        let mut i: usize = 0;
        while i < self.ports.len()
            invariant
                i <= self.ports@.len(),
                before == old(self)@.ports,
                self.ports@.len() == before.len(),
                forall|j: int| 0 <= j < i ==> (#[trigger] self.ports@[j])@ == usability_noted(before[j]),
                forall|j: int| i <= j < before.len() ==> (#[trigger] self.ports@[j])@ == before[j],
                self@ == (LegV { ports: self@.ports, ..old(self)@ }),
            decreases self.ports@.len() - i,
        {
            self.ports[i].note_usability();
            i = i + 1;
        }
        assert(self@.ports =~= all_noted(before));
    }

    fn count_deaf(readings: &Vec<PortReading>) -> (r: bool)
        ensures
            r == all_deaf(readings@),
    {
        let mut i: usize = 0;
        while i < readings.len()
            invariant
                i <= readings@.len(),
                forall|j: int| 0 <= j < i ==> (#[trigger] readings@[j]).listen is Some,
            decreases readings@.len() - i,
        {
            if readings[i].listen.is_none() {
                return false;
            }
            i = i + 1;
        }
        readings.len() > 0
    }

    fn say_deaf(&self, readings: &Vec<PortReading>, total: bool, log: &mut Vec<String>)
        requires
            readings@.len() == self.ports@.len(),
        ensures
            texts(final(log)@) == texts(old(log)@) + deaf_lines(
                self@,
                readings@,
                total,
                self@.ports.len() as int,
            ),
    {
        broadcast use lemma_texts_push;

        let mut i: usize = 0;
        let ghost l0 = texts(log@);
        assert(l0 + deaf_lines(self@, readings@, total, 0) =~= l0);
        while i < self.ports.len()
            invariant
                i <= self.ports@.len(),
                readings@.len() == self.ports@.len(),
                l0 == texts(old(log)@),
                texts(log@) == l0 + deaf_lines(self@, readings@, total, i as int),
            decreases self.ports@.len() - i,
        {
            let p = &self.ports[i];
            assert(p@ == self@.ports[i as int]);
            if let Some(e) = &readings[i].listen {
                let why = without_fatal(e);
                let known = match &p.deaf {
                    Some(d) => str_eq(d.as_str(), why.as_str()),
                    None => false,
                };
                if !known {
                    let line = if total {
                        cat8(
                            "cfab: ",
                            self.zone.as_str(),
                            " fallback: cannot listen on ",
                            p.wire.as_str(),
                            " (",
                            why.as_str(),
                            ") — ",
                            "the leg is not probed",
                        )
                    } else {
                        cat8(
                            "cfab: ",
                            self.zone.as_str(),
                            " fallback: cannot listen on ",
                            p.wire.as_str(),
                            " (",
                            why.as_str(),
                            ") — ",
                            crate::text::cat2(p.wire.as_str(), " is not judged").as_str(),
                        )
                    };
                    proof {
                        let d = deaf_lines(self@, readings@, total, i as int);
                        assert(l0 + d.push(line@) =~= (l0 + d).push(line@));
                    }
                    log.push(line);
                }
            }
            i = i + 1;
        }
    }

    fn observe_port(&mut self, i: usize, r: &PortReading, active: Option<&str>, now: Instant)
        requires
            i < old(self).ports@.len(),
            now.ns + grace_of(old(self)@.kind).ns <= u64::MAX,
        ensures
            final(self)@ == (LegV {
                ports: old(self)@.ports.update(
                    i as int,
                    port_observed(
                        old(self)@.kind,
                        old(self)@.ports[i as int],
                        *r,
                        opt_text(active),
                        now,
                    ),
                ),
                ..old(self)@
            }),
    {
        let ghost before = *self;
        let grace = self.kind.grace();
        assert(before.ports@[i as int]@ == before@.ports[i as int]);
        self.ports[i].read_netdev(&r.carrier, &r.mii_status, now, grace);
        match &self.kind {
            Kind::Ingress { router } => {
                let router = *router;
                self.ports[i].answer_frames(&r.frames, router, now);
            },
            Kind::Fallback(f) => {
                match &r.listen {
                    Some(e) => {
                        self.ports[i].deaf = Some(without_fatal(e));
                    },
                    None => {
                        let is_active = match active {
                            Some(a) => str_eq(a, self.ports[i].ifname.as_str()),
                            None => false,
                        };
                        self.ports[i].deaf = None;
                        self.ports[i].listen_frames(
                            &r.frames,
                            f.self_rid,
                            &f.peers,
                            &f.targets,
                            is_active,
                            now,
                        );
                    },
                }
            },
        }
        assert(self@.ports =~= before@.ports.update(
            i as int,
            port_observed(
                before@.kind,
                before@.ports[i as int],
                *r,
                opt_text(active),
                now,
            ),
        ));
    }

    fn observe_ports(&mut self, readings: &Vec<PortReading>, active: Option<&str>, now: Instant)
        requires
            readings@.len() == old(self).ports@.len(),
            now.ns + grace_of(old(self)@.kind).ns <= u64::MAX,
        ensures
            final(self)@ == (LegV {
                ports: ports_observed(old(self)@, readings@, opt_text(active), now),
                ..old(self)@
            }),
    {
        let ghost before = self@;
        let ghost want = ports_observed(before, readings@, opt_text(active), now);
        let mut i: usize = 0;
        while i < self.ports.len()
            invariant
                i <= self.ports@.len(),
                before == old(self)@,
                self.ports@.len() == before.ports.len() == readings@.len(),
                now.ns + grace_of(before.kind).ns <= u64::MAX,
                want == ports_observed(before, readings@, opt_text(active), now),
                forall|j: int| 0 <= j < i ==> self@.ports[j] == want[j],
                forall|j: int| i <= j < before.ports.len() ==> self@.ports[j] == before.ports[j],
                self@ == (LegV { ports: self@.ports, ..before }),
            decreases self.ports@.len() - i,
        {
            self.observe_port(i, &readings[i], active, now);
            assert(self@.ports.len() == self.ports@.len());
            i = i + 1;
        }
        assert(self@.ports =~= want);
    }

    fn verdicts_of(&self, f: &Fallback, active: Option<&str>, now: Instant) -> (r: Vec<Verdict>)
        ensures
            r@.len() == self@.ports.len(),
            forall|i: int|
                0 <= i < r@.len() ==> #[trigger] r@[i] == port_verdict(
                    f@,
                    self@.ports,
                    opt_text(active),
                    now,
                    i,
                ),
    {
        let ghost want = all_evidence(self@.ports, opt_text(active));
        let mut ev: Vec<Evidence> = Vec::new();
        let mut i: usize = 0;
        while i < self.ports.len()
            invariant
                i <= self.ports@.len(),
                want == all_evidence(self@.ports, opt_text(active)),
                ev@.len() == i,
                forall|j: int| 0 <= j < i ==> #[trigger] ev@[j] == want[j],
            decreases self.ports@.len() - i,
        {
            assert(self.ports@[i as int]@ == self@.ports[i as int]);
            ev.push(self.ports[i].evidence(active));
            i = i + 1;
        }
        assert(ev@ =~= want);
        verdicts(now, &ev, &f.windows, f.peers.len() > 0)
    }

    fn condemn_list(
        &self,
        f: &Fallback,
        v: &Vec<Verdict>,
        active: Option<&str>,
        now: Instant,
    ) -> (r: (Vec<bool>, bool))
        requires
            v@.len() == self@.ports.len(),
            forall|i: int|
                0 <= i < v@.len() ==> #[trigger] v@[i] == port_verdict(
                    f@,
                    self@.ports,
                    opt_text(active),
                    now,
                    i,
                ),
        ensures
            r.0@.len() == self@.ports.len(),
            forall|i: int|
                0 <= i < r.0@.len() ==> #[trigger] r.0@[i] == port_condemnable(
                    f@,
                    self@.ports,
                    opt_text(active),
                    now,
                    i,
                ),
            r.1 == asks_engine(f@, self@.ports, opt_text(active), now),
    {
        let mut out: Vec<bool> = Vec::new();
        let mut any = false;
        let mut i: usize = 0;
        while i < self.ports.len()
            invariant
                i <= self.ports@.len(),
                v@.len() == self@.ports.len(),
                forall|j: int|
                    0 <= j < v@.len() ==> #[trigger] v@[j] == port_verdict(
                        f@,
                        self@.ports,
                        opt_text(active),
                        now,
                        j,
                    ),
                out@.len() == i,
                forall|j: int|
                    0 <= j < i ==> #[trigger] out@[j] == port_condemnable(
                        f@,
                        self@.ports,
                        opt_text(active),
                        now,
                        j,
                    ),
                any == exists|j: int|
                    0 <= j < i && #[trigger] port_condemnable(
                        f@,
                        self@.ports,
                        opt_text(active),
                        now,
                        j,
                    ),
            decreases self.ports@.len() - i,
        {
            assert(self.ports@[i as int]@ == self@.ports[i as int]);
            let c = self.ports[i].is_condemnable(v[i], active, now, f.windows.dead);
            assert(c == port_condemnable(f@, self@.ports, opt_text(active), now, i as int));
            if c {
                any = true;
            }
            out.push(c);
            i = i + 1;
        }
        (out, any)
    }

    /// Take in a tick's readings, one for every port. Returns whether the engine has to be asked
    /// first: then the judgement is left to `conclude`.
    pub fn observe(
        &mut self,
        readings: &Vec<PortReading>,
        now: Instant,
        active: Option<&str>,
        log: &mut Vec<String>,
    ) -> (r: bool)
        requires
            readings@.len() == old(self).ports@.len(),
            now.ns + grace_of(old(self)@.kind).ns <= u64::MAX,
        ensures
            final(self)@ == leg_observed(old(self)@, readings@, opt_text(active), now),
            texts(final(log)@) == texts(old(log)@) + observed_lines(
                old(self)@,
                readings@,
                opt_text(active),
                now,
            ),
            r == needs_engine(old(self)@, readings@, opt_text(active), now),
    {
        let ghost l0 = self@;
        let ghost t0 = texts(log@);
        let fallback = match &self.kind {
            Kind::Ingress { .. } => false,
            Kind::Fallback(_) => true,
        };
        if !fallback {
            self.observe_ports(readings, active, now);
            self.note_all();
            assert(t0 + observed_lines(l0, readings@, opt_text(active), now) =~= t0);
            return false;
        }
        let total = Self::count_deaf(readings);
        self.say_deaf(readings, total, log);
        self.observe_ports(readings, active, now);
        match &mut self.kind {
            Kind::Ingress { .. } => {},
            Kind::Fallback(f) => {
                f.noted_deaf = total;
            },
        }
        if total {
            self.note_all();
            return false;
        }
        assert(self@ == leg_heard(l0, readings@, opt_text(active), now));
        let ask = match &self.kind {
            Kind::Ingress { .. } => false,
            Kind::Fallback(f) => {
                let v = self.verdicts_of(f, active, now);
                self.condemn_list(f, &v, active, now).1
            },
        };
        if ask {
            return true;
        }
        let ghost t1 = texts(log@);
        self.conclude(now, active, None, log);
        proof {
            let h = leg_heard(l0, readings@, opt_text(active), now);
            let a = heard_lines(l0, readings@);
            let b = concluded_lines(h, opt_text(active), now, None);
            assert((t0 + a) + b =~= t0 + (a + b));
        }
        false
    }

    /// The judgement, given the engine's word where it was asked for: whether every expected peer
    /// is below two-way on this leg's bond, or `None` where that could not be learned. A `None`
    /// never condemns a wire.
    pub fn conclude(
        &mut self,
        now: Instant,
        active: Option<&str>,
        answer: Option<bool>,
        log: &mut Vec<String>,
    )
        requires
            old(self)@.kind is Fallback,
        ensures
            final(self)@ == concluded(old(self)@, opt_text(active), now, answer),
            texts(final(log)@) == texts(old(log)@) + concluded_lines(
                old(self)@,
                opt_text(active),
                now,
                answer,
            ),
    {
        broadcast use lemma_texts_push;

        let ghost l0 = self@;
        let ghost f0 = l0.kind->Fallback_0;
        let ghost act = opt_text(active);
        let ghost t0 = texts(log@);
        let (v, c, ask) = match &self.kind {
            Kind::Ingress { .. } => (Vec::new(), Vec::new(), false),
            Kind::Fallback(f) => {
                let v = self.verdicts_of(f, active, now);
                let (c, ask) = self.condemn_list(f, &v, active, now);
                (v, c, ask)
            },
        };
        let mut say_engine = false;
        if ask {
            match &mut self.kind {
                Kind::Ingress { .. } => {},
                Kind::Fallback(f) => {
                    if answer.is_some() {
                        f.noted_engine_unreadable = false;
                    } else {
                        say_engine = !f.noted_engine_unreadable;
                        f.noted_engine_unreadable = true;
                    }
                },
            }
        }
        if say_engine {
            let line = cat5(
                "cfab: ",
                self.zone.as_str(),
                " fallback: the engine's ospf state for ",
                self.bond.as_str(),
                " cannot be read — hello silence on the active wire is left to the arp escalation",
            );
            log.push(line);
        }
        let condemn = match answer {
            Some(down) => down,
            None => false,
        };
        let mut quiet = self.ports.len() > 0;
        let mut i: usize = 0;
        while i < self.ports.len()
            invariant
                i <= self.ports@.len(),
                l0 == old(self)@,
                f0 == l0.kind->Fallback_0,
                act == opt_text(active),
                condemn == (answer == Some(true)),
                self.ports@.len() == l0.ports.len() == v@.len() == c@.len(),
                forall|j: int|
                    0 <= j < v@.len() ==> #[trigger] v@[j] == port_verdict(
                        f0,
                        l0.ports,
                        act,
                        now,
                        j,
                    ),
                forall|j: int|
                    0 <= j < c@.len() ==> #[trigger] c@[j] == port_condemnable(
                        f0,
                        l0.ports,
                        act,
                        now,
                        j,
                    ),
                quiet == (l0.ports.len() > 0 && forall|j: int|
                    0 <= j < i ==> #[trigger] port_verdict(f0, l0.ports, act, now, j)
                        == Verdict::Quiet),
                forall|j: int|
                    0 <= j < i ==> (#[trigger] self.ports@[j])@ == port_concluded(
                        f0,
                        l0.ports,
                        act,
                        now,
                        answer,
                        j,
                    ),
                forall|j: int| i <= j < l0.ports.len() ==> (#[trigger] self.ports@[j])@ == l0.ports[j],
                self@ == (LegV { ports: self@.ports, kind: self@.kind, ..l0 }),
                self@.kind is Fallback,
                self@.kind->Fallback_0 == (FallbackV {
                    noted_engine_unreadable: if asks_engine(f0, l0.ports, act, now) {
                        answer is None
                    } else {
                        f0.noted_engine_unreadable
                    },
                    ..f0
                }),
            decreases self.ports@.len() - i,
        {
            assert(v@[i as int] == port_verdict(f0, l0.ports, act, now, i as int));
            if condemn && c[i] {
                self.ports[i].hello_dead = true;
            }
            if v[i] != Verdict::Quiet {
                quiet = false;
            }
            self.ports[i].judge(v[i]);
            self.ports[i].note_usability();
            i = i + 1;
        }
        assert(quiet == all_quiet(f0, l0.ports, act, now));
        let mut say_quiet = false;
        match &mut self.kind {
            Kind::Ingress { .. } => {},
            Kind::Fallback(f) => {
                f.quiet_now = quiet;
                say_quiet = quiet && !f.noted_quiet;
                f.noted_quiet = quiet;
            },
        }
        let ghost t1 = texts(log@);
        if say_quiet {
            let line = quiet_text(self.zone.as_str());
            log.push(line);
        }
        proof {
            let a = if asks_engine(f0, l0.ports, act, now) && answer is None
                && !f0.noted_engine_unreadable {
                seq![engine_line(l0)]
            } else {
                seq![]
            };
            assert(t1 =~= t0 + a);
            assert(texts(log@) =~= t0 + concluded_lines(l0, act, now, answer));
            assert(self@.ports =~= concluded(l0, act, now, answer).ports);
        }
    }
}

fn quiet_text(zone: &str) -> (r: String)
    ensures
        r@ == "cfab: "@ + zone@ + " fallback: no peers heard on any wire — nothing to move to"@,
{
    crate::text::cat3("cfab: ", zone, " fallback: no peers heard on any wire — nothing to move to")
}

} // verus!
