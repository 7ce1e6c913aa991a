//! Where a leg's bond belongs: the move that a tick asks for, and what is said of it.

use vstd::prelude::*;

use crate::error::Error;
use crate::model::views;
use crate::prober::decide::{
    active_candidate, active_place, decide_place, decision, opt_text, skipped, skipped_for_carrier,
    usable, Candidate, CandidateV,
};
use crate::prober::leg::{family_of, grace_of, nonempty, note_view, noun_of, Leg, LegV};
use crate::prober::port::{cand_of, plain_error, without_fatal, PortV, ProbePort};
use crate::text::{cat10, cat12, cat3, cat9, lemma_texts_push, opt_string, str_eq, texts};
use crate::time::Instant;

verus! {

/// The first port from `i` on of this name, or the number of ports.
pub open spec fn port_named(p: Seq<PortV>, ifname: Seq<char>, i: int) -> int
    decreases p.len() - i,
{
    if i >= p.len() {
        p.len() as int
    } else if p[i].ifname == ifname {
        i
    } else {
        port_named(p, ifname, i + 1)
    }
}

pub open spec fn cands_of(p: Seq<PortV>) -> Seq<CandidateV> {
    Seq::new(p.len(), |i: int| cand_of(p[i]))
}

/// A name that says where the bond is; an empty one says that it is nowhere.
pub open spec fn somewhere(active: Option<Seq<char>>) -> Option<Seq<char>> {
    match active {
        Some(a) => nonempty(a),
        None => None,
    }
}

/// The ports after the active one's return window was restarted: being active is what resets it.
pub open spec fn window_restarted(p: Seq<PortV>, active: Option<Seq<char>>) -> Seq<PortV> {
    match active {
        Some(a) => {
            let k = port_named(p, a, 0);
            if k < p.len() {
                p.update(k, PortV { returned: false, ..p[k] })
            } else {
                p
            }
        },
        None => p,
    }
}

/// Which port the bond should move to.
pub open spec fn leg_decision(l: LegV, active: Option<Seq<char>>) -> Option<int> {
    decision(active, cands_of(l.ports), l.prefs)
}

/// The pair that the note about carrier names: the wire that is skipped, and the one we are on.
pub open spec fn carrier_note(l: LegV, active: Option<Seq<char>>) -> Option<
    (Seq<char>, Seq<char>),
> {
    let c = cands_of(l.ports);
    match (skipped(active, c, l.prefs), active_candidate(active, c)) {
        (Some(s), Some(on)) => Some((c[s].wire, c[on].wire)),
        _ => None,
    }
}

pub open spec fn carrier_line(l: LegV, note: (Seq<char>, Seq<char>)) -> Seq<char> {
    "cfab: "@ + l.zone + " "@ + family_of(l.kind) + ": "@ + note.0
        + " has no carrier, staying on "@ + note.1
}

/// What the move step asks for: the port to move to, unless that very move was refused before
/// and nothing has changed since.
pub open spec fn planned(l: LegV, active: Option<Seq<char>>) -> Option<Seq<char>> {
    if !l.actuates {
        None
    } else {
        match leg_decision(l, somewhere(active)) {
            Some(i) => if l.refused == Some((l.ports[i].ifname, somewhere(active))) {
                None
            } else {
                Some(l.ports[i].ifname)
            },
            None => None,
        }
    }
}

/// The leg after the move step.
pub open spec fn leg_planned(l: LegV, active: Option<Seq<char>>) -> LegV {
    if !l.actuates {
        l
    } else {
        let a = somewhere(active);
        LegV {
            ports: window_restarted(l.ports, a),
            noted_no_carrier: if leg_decision(l, a) is Some {
                None
            } else {
                carrier_note(l, a)
            },
            ..l
        }
    }
}

/// What the move step says: that the bond stays where it is for want of carrier elsewhere, once
/// for each pair of wires.
pub open spec fn planned_lines(l: LegV, active: Option<Seq<char>>) -> Seq<Seq<char>> {
    let a = somewhere(active);
    let note = carrier_note(l, a);
    if l.actuates && leg_decision(l, a) is None && note is Some && note != l.noted_no_carrier {
        seq![carrier_line(l, note->0)]
    } else {
        seq![]
    }
}

/// The wire of a port, or the port's own name where the leg has none of that name.
pub open spec fn wire_of(l: LegV, ifname: Seq<char>) -> Seq<char> {
    let k = port_named(l.ports, ifname, 0);
    if k < l.ports.len() {
        l.ports[k].wire
    } else {
        ifname
    }
}

/// The port that the bond was on, if it is one of ours.
pub open spec fn port_from(l: LegV, active: Option<Seq<char>>) -> Option<PortV> {
    match somewhere(active) {
        Some(a) => {
            let k = port_named(l.ports, a, 0);
            if k < l.ports.len() {
                Some(l.ports[k])
            } else {
                None
            }
        },
        None => None,
    }
}

/// Why the bond was moved, as one line. Carrier is named first, then a silent adjacency, then an
/// unreachable wire; a move off a healthy wire is either a return or a preference.
pub open spec fn move_line(l: LegV, target: Seq<char>, active: Option<Seq<char>>) -> Seq<char> {
    let head = "cfab: "@ + l.zone + " "@ + family_of(l.kind) + ": "@;
    let to = wire_of(l, target);
    let k = port_named(l.ports, target, 0);
    match port_from(l, active) {
        Some(from) => if !from.carrier {
            head + from.wire + " lost carrier, moved "@ + l.bond + " to "@ + to
        } else if from.hello_dead {
            head + noun_of(l.kind) + " silent on "@ + from.wire
                + " (adjacency down, arp still answers), moved "@ + l.bond + " to "@ + to
        } else if !from.state.reachable {
            head + noun_of(l.kind) + " unreachable on "@ + from.wire + ", moved "@ + l.bond
                + " to "@ + to
        } else if k < l.ports.len() && l.ports[k].returned {
            head + noun_of(l.kind) + " reachable on "@ + to + " again, moved "@ + l.bond
                + " back from "@ + from.wire
        } else {
            head + to + " is preferred, moved "@ + l.bond + " from "@ + from.wire
        },
        None => head + "no port of ours was active on "@ + l.bond + ", moved it to "@ + to,
    }
}

/// The leg after its bond was moved: the port that was promoted gets its grace period.
pub open spec fn leg_moved(l: LegV, target: Seq<char>, now: Instant) -> LegV {
    let k = port_named(l.ports, target, 0);
    LegV {
        refused: None,
        held: target,
        active_now: Some(target),
        ports: if k < l.ports.len() {
            l.ports.update(
                k,
                PortV {
                    grace_until: Some(Instant { ns: (now.ns + grace_of(l.kind).ns) as u64 }),
                    ..l.ports[k]
                },
            )
        } else {
            l.ports
        },
        ..l
    }
}

pub open spec fn refusal_line(l: LegV, target: Seq<char>, e: Error) -> Seq<char> {
    "cfab: warn: "@ + l.zone + " "@ + family_of(l.kind) + ": cannot move "@ + l.bond + " to "@
        + wire_of(l, target) + " ("@ + target + "): "@ + plain_error(e)
}

/// The files of a bond that a move writes. The primary comes first: a write of the active port
/// alone holds only until the next link event, at which the bond goes back to its primary.
#[derive(Debug, Clone, Copy, PartialEq, Eq, Structural)]
pub enum BondFile {
    Primary,
    ActiveSlave,
}

pub open spec fn file_path(bond: Seq<char>, f: BondFile) -> Seq<char> {
    "/sys/class/net/"@ + bond + match f {
        BondFile::Primary => "/bonding/primary"@,
        BondFile::ActiveSlave => "/bonding/active_slave"@,
    }
}

fn named_port(p: &Vec<ProbePort>, ifname: &str) -> (r: usize)
    ensures
        r as int == port_named(views(p@), ifname@, 0),
        r <= p@.len(),
{
    let mut i: usize = 0;
    while i < p.len()
        invariant
            i <= p@.len(),
            port_named(views(p@), ifname@, 0) == port_named(views(p@), ifname@, i as int),
        decreases p@.len() - i,
    {
        if str_eq(p[i].ifname.as_str(), ifname) {
            return i;
        }
        i = i + 1;
    }
    i
}

fn somewhere_of<'a>(active: Option<&'a str>) -> (r: Option<&'a str>)
    ensures
        opt_text(r) == somewhere(opt_text(active)),
{
    match active {
        Some(a) => if a.is_empty() {
            None
        } else {
            Some(a)
        },
        None => None,
    }
}

fn same_note(a: &Option<(String, String)>, b: &Option<(String, String)>) -> (r: bool)
    ensures
        r == (note_view(*a) == note_view(*b)),
{
    match (a, b) {
        (Some(x), Some(y)) => str_eq(x.0.as_str(), y.0.as_str()) && str_eq(
            x.1.as_str(),
            y.1.as_str(),
        ),
        (None, None) => true,
        _ => false,
    }
}

impl Leg {
    /// The path of a file of this leg's bond.
    pub fn bond_path(&self, f: BondFile) -> (r: String)
        ensures
            r@ == file_path(self@.bond, f),
    {
        let file = match f {
            BondFile::Primary => "/bonding/primary",
            BondFile::ActiveSlave => "/bonding/active_slave",
        };
        cat3("/sys/class/net/", self.bond.as_str(), file)
    }

    fn candidates(&self) -> (r: Vec<Candidate>)
        ensures
            views(r@) == cands_of(self@.ports),
    {
        let mut out: Vec<Candidate> = Vec::new();
        let mut i: usize = 0;
        while i < self.ports.len()
            invariant
                i <= self.ports@.len(),
                out@.len() == i,
                forall|j: int| 0 <= j < i ==> (#[trigger] out@[j])@ == cand_of(self@.ports[j]),
            decreases self.ports@.len() - i,
        {
            assert(self.ports@[i as int]@ == self@.ports[i as int]);
            out.push(self.ports[i].candidate());
            i = i + 1;
        }
        assert(views(out@) =~= cands_of(self@.ports));
        out
    }

    /// Does the refusal that was last reported stand for this very move?
    fn was_refused(&self, target: &str, active: Option<&str>) -> (r: bool)
        ensures
            r == (self@.refused == Some((target@, opt_text(active)))),
    {
        match &self.refused {
            Some(p) => str_eq(p.0.as_str(), target) && match (&p.1, active) {
                (Some(x), Some(y)) => str_eq(x.as_str(), y),
                (None, None) => true,
                _ => false,
            },
            None => false,
        }
    }

    /// Say once that the leg is not on the wire that the preference order asks for, because that
    /// wire has no carrier.
    fn note_no_carrier(&mut self, active: Option<&str>, cands: &Vec<Candidate>, log: &mut Vec<String>)
        requires
            views(cands@) == cands_of(old(self)@.ports),
        ensures
            final(self)@ == (LegV {
                noted_no_carrier: carrier_note(old(self)@, opt_text(active)),
                ..old(self)@
            }),
            ({
                let note = carrier_note(old(self)@, opt_text(active));
                texts(final(log)@) == if note is Some && note != old(self)@.noted_no_carrier {
                    texts(old(log)@).push(carrier_line(old(self)@, note->0))
                } else {
                    texts(old(log)@)
                }
            }),
    {
        broadcast use lemma_texts_push;

        let ghost c = cands_of(self@.ports);
        let note: Option<(String, String)> = match (
            skipped_for_carrier(active, cands, &self.prefs),
            active_place(active, cands),
        ) {
            (Some(s), Some(on)) => {
                assert(views(cands@)[s as int] == cands@[s as int]@);
                assert(views(cands@)[on as int] == cands@[on as int]@);
                Some((cands[s].wire.clone(), cands[on].wire.clone()))
            },
            _ => None,
        };
        assert(note_view(note) == carrier_note(self@, opt_text(active)));
        if same_note(&note, &self.noted_no_carrier) {
            return;
        }
        if let Some(p) = &note {
            let line = crate::text::cat8(
                "cfab: ",
                self.zone.as_str(),
                " ",
                self.kind.family(),
                ": ",
                p.0.as_str(),
                " has no carrier, staying on ",
                p.1.as_str(),
            );
            log.push(line);
        }
        self.noted_no_carrier = note;
    }

    /// Decide where the bond belongs. Returns the port to move it to, where it has to be moved.
    pub fn plan_move(&mut self, active: Option<&str>, log: &mut Vec<String>) -> (r: Option<String>)
        ensures
            opt_string(r) == planned(old(self)@, opt_text(active)),
            final(self)@ == leg_planned(old(self)@, opt_text(active)),
            texts(final(log)@) == texts(old(log)@) + planned_lines(old(self)@, opt_text(active)),
    {
        let ghost l0 = self@;
        let ghost t0 = texts(log@);
        if !self.actuates {
            assert(t0 + planned_lines(l0, opt_text(active)) =~= t0);
            return None;
        }
        let a = somewhere_of(active);
        let ghost act = opt_text(a);
        if let Some(name) = a {
            let k = named_port(&self.ports, name);
            if k < self.ports.len() {
                self.ports[k].returned = false;
            }
        }
        assert(self@.ports =~= window_restarted(l0.ports, act));
        let cands = self.candidates();
        assert(cands_of(self@.ports) =~= cands_of(l0.ports));
        match decide_place(a, &cands, &self.prefs) {
            None => {
                self.note_no_carrier(a, &cands, log);
                assert(texts(log@) =~= t0 + planned_lines(l0, opt_text(active)));
                None
            },
            Some(i) => {
                assert(views(cands@)[i as int] == cands@[i as int]@);
                self.noted_no_carrier = None;
                assert(t0 + planned_lines(l0, opt_text(active)) =~= t0);
                if self.was_refused(cands[i].ifname.as_str(), a) {
                    return None;
                }
                Some(cands[i].ifname.clone())
            },
        }
    }

    fn wire_name(&self, ifname: &str) -> (r: String)
        ensures
            r@ == wire_of(self@, ifname@),
    {
        let k = named_port(&self.ports, ifname);
        if k < self.ports.len() {
            assert(self.ports@[k as int]@ == self@.ports[k as int]);
            self.ports[k].wire.clone()
        } else {
            String::from_str(ifname)
        }
    }

    fn say_move(&self, target: &str, active: Option<&str>) -> (r: String)
        ensures
            r@ == move_line(self@, target@, opt_text(active)),
    {
        let to = self.wire_name(target);
        let k = named_port(&self.ports, target);
        let zone = self.zone.as_str();
        let family = self.kind.family();
        let noun = self.kind.noun();
        let bond = self.bond.as_str();
        let place: Option<usize> = match somewhere_of(active) {
            Some(a) => {
                let j = named_port(&self.ports, a);
                if j < self.ports.len() {
                    Some(j)
                } else {
                    None
                }
            },
            None => None,
        };
        match place {
            Some(j) => {
                let from = &self.ports[j];
                assert(from@ == self@.ports[j as int]);
                let w = from.wire.as_str();
                if !from.carrier {
                    return cat10(
                        "cfab: ",
                        zone,
                        " ",
                        family,
                        ": ",
                        w,
                        " lost carrier, moved ",
                        bond,
                        " to ",
                        to.as_str(),
                    );
                }
                if from.hello_dead {
                    return cat12(
                        "cfab: ",
                        zone,
                        " ",
                        family,
                        ": ",
                        noun,
                        " silent on ",
                        w,
                        " (adjacency down, arp still answers), moved ",
                        bond,
                        " to ",
                        to.as_str(),
                    );
                }
                if !from.state.reachable() {
                    return cat12(
                        "cfab: ",
                        zone,
                        " ",
                        family,
                        ": ",
                        noun,
                        " unreachable on ",
                        w,
                        ", moved ",
                        bond,
                        " to ",
                        to.as_str(),
                    );
                }
                assert(k < self.ports@.len() ==> self.ports@[k as int]@ == self@.ports[k as int]);
                if k < self.ports.len() && self.ports[k].returned {
                    return cat12(
                        "cfab: ",
                        zone,
                        " ",
                        family,
                        ": ",
                        noun,
                        " reachable on ",
                        to.as_str(),
                        " again, moved ",
                        bond,
                        " back from ",
                        w,
                    );
                }
                cat10(
                    "cfab: ",
                    zone,
                    " ",
                    family,
                    ": ",
                    to.as_str(),
                    " is preferred, moved ",
                    bond,
                    " from ",
                    w,
                )
            },
            None => cat9(
                "cfab: ",
                zone,
                " ",
                family,
                ": ",
                "no port of ours was active on ",
                bond,
                ", moved it to ",
                to.as_str(),
            ),
        }
    }

    /// The files were written: the bond is on `target` now.
    pub fn moved(&mut self, target: &str, active: Option<&str>, now: Instant, log: &mut Vec<String>)
        requires
            now.ns + grace_of(old(self)@.kind).ns <= u64::MAX,
        ensures
            final(self)@ == leg_moved(old(self)@, target@, now),
            texts(final(log)@) == texts(old(log)@).push(
                move_line(old(self)@, target@, opt_text(active)),
            ),
    {
        broadcast use lemma_texts_push;

        let ghost l0 = self@;
        let line = self.say_move(target, active);
        log.push(line);
        let k = named_port(&self.ports, target);
        let grace = self.kind.grace();
        if k < self.ports.len() {
            self.ports[k].grace_until = Some(now.after(grace));
        }
        self.refused = None;
        self.held = String::from_str(target);
        self.active_now = Some(String::from_str(target));
        assert(self@.ports =~= leg_moved(l0, target@, now).ports);
    }

    /// A write was refused: the bond is where it was, and the same move is not tried again while
    /// nothing changes.
    pub fn move_refused(&mut self, target: &str, active: Option<&str>, e: &Error, log: &mut Vec<
        String,
    >)
        ensures
            final(self)@ == (LegV {
                refused: Some((target@, somewhere(opt_text(active)))),
                ..old(self)@
            }),
            texts(final(log)@) == texts(old(log)@).push(refusal_line(old(self)@, target@, *e)),
    {
        broadcast use lemma_texts_push;

        let to = self.wire_name(target);
        let line = cat12(
            "cfab: warn: ",
            self.zone.as_str(),
            " ",
            self.kind.family(),
            ": cannot move ",
            self.bond.as_str(),
            " to ",
            to.as_str(),
            " (",
            target,
            "): ",
            without_fatal(e).as_str(),
        );
        log.push(line);
        self.refused = Some(
            (
                String::from_str(target),
                match somewhere_of(active) {
                    Some(a) => Some(String::from_str(a)),
                    None => None,
                },
            ),
        );
    }
}

/// A move that was refused is not asked for again while the readings stay the same.
pub proof fn lemma_refused_move_is_not_retried(l: LegV, active: Option<Seq<char>>)
    requires
        planned(l, active) is Some,
    ensures
        ({
            let after = LegV {
                refused: Some((planned(l, active)->0, somewhere(active))),
                ..leg_planned(l, active)
            };
            planned(after, active) is None
        }),
{
    let a = somewhere(active);
    if a is Some {
        lemma_port_named(l.ports, a->0, 0);
    }
    assert(cands_of(window_restarted(l.ports, a)) =~= cands_of(l.ports));
    let i = leg_decision(l, a)->0;
    crate::prober::decide::lemma_target_is_best(a, cands_of(l.ports), l.prefs);
    assert(window_restarted(l.ports, a)[i].ifname == l.ports[i].ifname);
}

/// A leg is moved onto a usable port only, and never while it has nowhere to move to.
pub proof fn lemma_planned_is_usable(l: LegV, active: Option<Seq<char>>)
    requires
        planned(l, active) is Some,
    ensures
        l.actuates,
        exists|i: int|
            0 <= i < l.ports.len() && usable(#[trigger] cand_of(l.ports[i]))
                && l.ports[i].ifname == planned(l, active)->0,
{
    let a = somewhere(active);
    crate::prober::decide::lemma_target_is_best(a, cands_of(l.ports), l.prefs);
    let i = leg_decision(l, a)->0;
    assert(cands_of(l.ports)[i] == cand_of(l.ports[i]));
}

/// A move keeps what the leg knows of every port but the promoted one's grace period.
pub proof fn lemma_move_keeps_ports(l: LegV, target: Seq<char>, now: Instant, i: int)
    requires
        0 <= i < l.ports.len(),
    ensures
        ({
            let q = leg_moved(l, target, now).ports[i];
            q == (PortV { grace_until: q.grace_until, ..l.ports[i] })
        }),
        l.ports[i].ifname != target ==> leg_moved(l, target, now).ports[i] == l.ports[i],
{
    lemma_port_named(l.ports, target, 0);
}

/// The port that was found has the name.
pub proof fn lemma_port_named(p: Seq<PortV>, ifname: Seq<char>, i: int)
    requires
        0 <= i <= p.len(),
    ensures
        i <= port_named(p, ifname, i) <= p.len(),
        port_named(p, ifname, i) < p.len() ==> p[port_named(p, ifname, i)].ifname == ifname,
    decreases p.len() - i,
{
    if i < p.len() && p[i].ifname != ifname {
        lemma_port_named(p, ifname, i + 1);
    }
}

} // verus!
