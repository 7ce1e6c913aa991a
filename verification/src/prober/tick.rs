//! One tick of a leg: what has to be read, asked, written and sent next, and what each outcome
//! does to the leg. What has arrived is read before anything is sent, so that an answer has a
//! whole interval to arrive.

use vstd::prelude::*;

use crate::engine::state::{engine_word, peers_all_below_two_way};
use crate::error::Error;
use crate::prober::asking::leg_asked;
use crate::prober::decide::opt_text;
use crate::prober::leg::{
    active_taken, all_deaf, asks_engine, concluded, concluded_lines, grace_of, is_probed,
    leg_heard, leg_observed, needs_engine, observed_lines, Kind, Leg, LegV,
};
use crate::prober::moving::{
    leg_moved, leg_planned, move_line, planned, planned_lines, refusal_line, somewhere, BondFile,
};
use crate::prober::port::PortReading;
use crate::text::{opt_string, texts, trim};
use crate::time::Instant;

pub mod laws;

verus! {

/// What a tick waits for. `active` is the text of the bond's `active_slave` file, where it could
/// be read.
#[derive(Debug)]
pub enum Tick {
    /// The bond's `active_slave` file.
    ReadActive,
    /// A reading for every port.
    ReadPorts { active: Option<String> },
    /// The engine's state, as its socket answers it.
    AskEngine { active: Option<String> },
    /// The target, written to this file of the bond.
    Write { active: Option<String>, target: String, file: BondFile },
    /// The frames that every port has to send.
    Send,
    Done,
}

pub enum TickV {
    ReadActive,
    ReadPorts { active: Option<Seq<char>> },
    AskEngine { active: Option<Seq<char>> },
    Write { active: Option<Seq<char>>, target: Seq<char>, file: BondFile },
    Send,
    Done,
}

impl View for Tick {
    type V = TickV;

    open spec fn view(&self) -> TickV {
        match self {
            Tick::ReadActive => TickV::ReadActive,
            Tick::ReadPorts { active } => TickV::ReadPorts { active: opt_string(*active) },
            Tick::AskEngine { active } => TickV::AskEngine { active: opt_string(*active) },
            Tick::Write { active, target, file } => TickV::Write {
                active: opt_string(*active),
                target: target@,
                file: *file,
            },
            Tick::Send => TickV::Send,
            Tick::Done => TickV::Done,
        }
    }
}

/// What came of it.
#[derive(Debug)]
pub enum Got {
    /// The text of the `active_slave` file, where it could be read.
    Active(Option<String>),
    Ports(Vec<PortReading>),
    /// The engine's answer, where there is one.
    Engine(Option<String>),
    /// Whether the file took the target.
    Wrote(Result<(), Error>),
    /// For each port, whether any of its frames went out.
    Sent(Vec<bool>),
}

/// Is this an outcome of what the tick waits for?
pub open spec fn fits(l: LegV, t: TickV, got: Got) -> bool {
    match t {
        TickV::ReadActive => got is Active,
        TickV::ReadPorts { .. } => got matches Got::Ports(r) && r@.len() == l.ports.len(),
        TickV::AskEngine { .. } => got is Engine && l.kind is Fallback,
        TickV::Write { .. } => got is Wrote,
        TickV::Send => got matches Got::Sent(s) && s@.len() == l.ports.len(),
        TickV::Done => false,
    }
}

/// Where a tick begins: a leg with nowhere to move to is not asked where it sits.
pub open spec fn first_step(l: LegV) -> TickV {
    if l.actuates {
        TickV::ReadActive
    } else {
        TickV::ReadPorts { active: None }
    }
}

/// Does the bond come up for a move? Only where it could be read, and where the leg can be heard
/// at all.
pub open spec fn comes_up(l: LegV, active: Option<Seq<char>>) -> bool {
    active is Some && is_probed(l)
}

/// The leg once its ports are judged and the move is decided on.
pub open spec fn leg_settled(l: LegV, active: Option<Seq<char>>) -> LegV {
    if comes_up(l, active) {
        leg_planned(l, active)
    } else {
        l
    }
}

pub open spec fn settled_lines(l: LegV, active: Option<Seq<char>>) -> Seq<Seq<char>> {
    if comes_up(l, active) {
        planned_lines(l, active)
    } else {
        seq![]
    }
}

/// What follows once the ports are judged: the bond is moved where it has to be, its primary
/// first, and then everybody is asked who has to be.
pub open spec fn after_judgement(l: LegV, active: Option<Seq<char>>) -> TickV {
    if comes_up(l, active) && planned(l, active) is Some {
        TickV::Write { active, target: planned(l, active)->0, file: BondFile::Primary }
    } else {
        TickV::Send
    }
}

/// The engine's word on the leg, given its answer.
pub open spec fn word_on(l: LegV, reply: Option<Seq<char>>) -> Option<bool> {
    engine_word(reply, l.zone, l.bond, l.kind->Fallback_0.peers)
}

/// The leg after an outcome.
pub open spec fn leg_after(l: LegV, t: TickV, got: Got, now: Instant) -> LegV {
    match (t, got) {
        (TickV::ReadActive, Got::Active(read)) => if l.actuates {
            active_taken(l, read)
        } else {
            l
        },
        (TickV::ReadPorts { active }, Got::Ports(r)) => {
            let h = leg_observed(l, r@, active, now);
            if needs_engine(l, r@, active, now) {
                h
            } else {
                leg_settled(h, active)
            }
        },
        (TickV::AskEngine { active }, Got::Engine(reply)) => leg_settled(
            concluded(l, active, now, word_on(l, opt_string(reply))),
            active,
        ),
        (TickV::Write { active, target, file }, Got::Wrote(w)) => match w {
            Ok(_) => match file {
                BondFile::Primary => l,
                BondFile::ActiveSlave => leg_moved(l, target, now),
            },
            Err(_) => LegV { refused: Some((target, somewhere(active))), ..l },
        },
        (TickV::Send, Got::Sent(s)) => leg_asked(l, s@),
        _ => l,
    }
}

/// What the tick waits for after an outcome.
pub open spec fn tick_after(l: LegV, t: TickV, got: Got, now: Instant) -> TickV {
    match (t, got) {
        (TickV::ReadActive, Got::Active(read)) => TickV::ReadPorts {
            active: if l.actuates && read is Some {
                Some(trim(read->0@))
            } else {
                None
            },
        },
        (TickV::ReadPorts { active }, Got::Ports(r)) => if needs_engine(l, r@, active, now) {
            TickV::AskEngine { active }
        } else {
            after_judgement(leg_observed(l, r@, active, now), active)
        },
        (TickV::AskEngine { active }, Got::Engine(reply)) => after_judgement(
            concluded(l, active, now, word_on(l, opt_string(reply))),
            active,
        ),
        (TickV::Write { active, target, file }, Got::Wrote(w)) => if w is Ok && file
            == BondFile::Primary {
            TickV::Write { active, target, file: BondFile::ActiveSlave }
        } else {
            TickV::Send
        },
        (TickV::Send, Got::Sent(_)) => TickV::Done,
        _ => t,
    }
}

/// What an outcome gives to say.
pub open spec fn lines_after(l: LegV, t: TickV, got: Got, now: Instant) -> Seq<Seq<char>> {
    match (t, got) {
        (TickV::ReadPorts { active }, Got::Ports(r)) => {
            let said = observed_lines(l, r@, active, now);
            if needs_engine(l, r@, active, now) {
                said
            } else {
                said + settled_lines(leg_observed(l, r@, active, now), active)
            }
        },
        (TickV::AskEngine { active }, Got::Engine(reply)) => {
            let word = word_on(l, opt_string(reply));
            concluded_lines(l, active, now, word) + settled_lines(
                concluded(l, active, now, word),
                active,
            )
        },
        (TickV::Write { active, target, file }, Got::Wrote(w)) => match w {
            Ok(_) => match file {
                BondFile::Primary => seq![],
                BondFile::ActiveSlave => seq![move_line(l, target, active)],
            },
            Err(e) => seq![refusal_line(l, target, e)],
        },
        _ => seq![],
    }
}

/// A text that is there or not, borrowed.
fn borrowed<'a>(s: &'a Option<String>) -> (r: Option<&'a str>)
    ensures
        opt_text(r) == opt_string(*s),
        match r {
            Some(t) => *s matches Some(x) && x@ == t@,
            None => *s is None,
        },
{
    match s {
        Some(t) => Some(t.as_str()),
        None => None,
    }
}

impl Leg {
    /// Begin a tick.
    pub fn begin(&self) -> (r: Tick)
        ensures
            r@ == first_step(self@),
    {
        if self.actuates {
            Tick::ReadActive
        } else {
            Tick::ReadPorts { active: None }
        }
    }

    /// Decide on the move, once the ports are judged.
    fn settle(&mut self, active: Option<String>, log: &mut Vec<String>) -> (r: Tick)
        ensures
            final(self)@ == leg_settled(old(self)@, opt_string(active)),
            texts(final(log)@) == texts(old(log)@) + settled_lines(old(self)@, opt_string(active)),
            r@ == after_judgement(old(self)@, opt_string(active)),
    {
        let ghost said = texts(log@);
        assert(said + Seq::<Seq<char>>::empty() =~= said);
        if active.is_some() && self.probed() {
            let target = self.plan_move(borrowed(&active), log);
            match target {
                Some(target) => Tick::Write { active, target, file: BondFile::Primary },
                None => Tick::Send,
            }
        } else {
            Tick::Send
        }
    }

    /// Take in an outcome of what the tick waits for, and learn what it waits for next.
    #[verifier::spinoff_prover]
    #[verifier::rlimit(40)]
    pub fn advance(&mut self, t: Tick, got: &Got, now: Instant, log: &mut Vec<String>) -> (r: Tick)
        requires
            fits(old(self)@, t@, *got),
            now.ns + grace_of(old(self)@.kind).ns <= u64::MAX,
        ensures
            final(self)@ == leg_after(old(self)@, t@, *got, now),
            r@ == tick_after(old(self)@, t@, *got, now),
            texts(final(log)@) == texts(old(log)@) + lines_after(old(self)@, t@, *got, now),
            r@ is AskEngine ==> final(self)@.kind is Fallback,
    {
        let ghost said = texts(log@);
        assert(said + Seq::<Seq<char>>::empty() =~= said);
        match (t, got) {
            (Tick::ReadActive, Got::Active(read)) => {
                let active = self.take_active(read);
                Tick::ReadPorts { active }
            },
            (Tick::ReadPorts { active }, Got::Ports(readings)) => {
                if self.observe(readings, now, borrowed(&active), log) {
                    return Tick::AskEngine { active };
                }
                let r = self.settle(active, log);
                proof {
                    assert(texts(log@) =~= said + lines_after(old(self)@, t@, *got, now));
                }
                r
            },
            (Tick::AskEngine { active }, Got::Engine(reply)) => {
                let word = match &self.kind {
                    Kind::Fallback(f) => peers_all_below_two_way(
                        borrowed(reply),
                        self.zone.as_str(),
                        self.bond.as_str(),
                        &f.peers,
                    ),
                    Kind::Ingress { .. } => None,
                };
                self.conclude(now, borrowed(&active), word, log);
                let r = self.settle(active, log);
                proof {
                    assert(texts(log@) =~= said + lines_after(old(self)@, t@, *got, now));
                }
                r
            },
            (Tick::Write { active, target, file }, Got::Wrote(w)) => {
                if w.is_ok() && file == BondFile::Primary {
                    return Tick::Write { active, target, file: BondFile::ActiveSlave };
                }
                match w {
                    Ok(_) => self.moved(target.as_str(), borrowed(&active), now, log),
                    Err(e) => self.move_refused(target.as_str(), borrowed(&active), e, log),
                }
                proof {
                    assert(texts(log@) =~= said + lines_after(old(self)@, t@, *got, now));
                }
                Tick::Send
            },
            (Tick::Send, Got::Sent(sent)) => {
                self.asked(sent);
                Tick::Done
            },
            (t, _) => t,
        }
    }
}

// ---- laws ----

/// The step of a tick that is waited for.
pub open spec fn place(t: TickV) -> int {
    match t {
        TickV::ReadActive => 0,
        TickV::ReadPorts { .. } => 1,
        TickV::AskEngine { .. } => 2,
        TickV::Write { file: BondFile::Primary, .. } => 3,
        TickV::Write { file: BondFile::ActiveSlave, .. } => 4,
        TickV::Send => 5,
        TickV::Done => 6,
    }
}

/// A tick goes forward with every outcome, so that it ends: nothing is sent before everything
/// has been read, and nothing is read again after that.
pub proof fn lemma_a_tick_goes_forward(l: LegV, t: TickV, got: Got, now: Instant)
    requires
        fits(l, t, got),
    ensures
        place(tick_after(l, t, got, now)) > place(t),
{
}

/// A bond that could not be read is not written in that tick.
pub proof fn lemma_an_unread_bond_is_not_written(l: LegV, t: TickV, got: Got, now: Instant)
    requires
        fits(l, t, got),
        match t {
            TickV::ReadActive => got == Got::Active(None),
            TickV::ReadPorts { active } => active is None,
            TickV::AskEngine { active } => active is None,
            _ => false,
        },
    ensures
        match tick_after(l, t, got, now) {
            TickV::ReadPorts { active } => active is None,
            TickV::AskEngine { active } => active is None,
            TickV::Write { .. } => false,
            _ => true,
        },
{
}

/// A leg with nowhere to move to is never written: a tick does not begin with a write, and no
/// other step leads to one.
pub proof fn lemma_a_leg_without_ports_to_move_to_is_not_written(
    l: LegV,
    t: TickV,
    got: Got,
    now: Instant,
)
    requires
        !l.actuates,
        t !is Write,
        fits(l, t, got),
    ensures
        first_step(l) == (TickV::ReadPorts { active: None }),
        tick_after(l, t, got, now) !is Write,
{
}

/// A leg that nothing can be heard on is left to the kernel: it is not written in a tick in
/// which every tap failed to open.
pub proof fn lemma_a_deaf_leg_is_not_written(
    l: LegV,
    active: Option<Seq<char>>,
    readings: Vec<PortReading>,
    now: Instant,
)
    requires
        l.kind is Fallback,
        readings@.len() == l.ports.len(),
        all_deaf(readings@),
    ensures
        tick_after(l, TickV::ReadPorts { active }, Got::Ports(readings), now) == TickV::Send,
{
}

/// The router's leg never asks the engine, and neither does a leg on which no port has been
/// silent past the dead interval beside one that still hears the fabric.
pub proof fn lemma_the_engine_is_asked_only_in_doubt(
    l: LegV,
    active: Option<Seq<char>>,
    readings: Vec<PortReading>,
    now: Instant,
)
    ensures
        tick_after(l, TickV::ReadPorts { active }, Got::Ports(readings), now) is AskEngine ==> {
            let h = leg_heard(l, readings@, active, now);
            &&& l.kind is Fallback
            &&& asks_engine(h.kind->Fallback_0, h.ports, active, now)
        },
{
}

} // verus!
