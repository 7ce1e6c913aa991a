//! The passive channel's arithmetic: how long silence on one port may last, and what that
//! silence means when the port next to it hears the same peers.

use vstd::prelude::*;

use crate::time::{secs, since, Duration, Instant};

verus! {

/// The windows that one leg judges its ports by, all derived from the declared OSPF timers.
#[derive(Debug, Clone, Copy, PartialEq, Eq, Structural)]
pub struct Windows {
    /// Silence on the active port that still counts as healthy: one hello period and a half, so
    /// that a single lost hello is no verdict.
    pub active: Duration,
    /// Silence on a backup port that still counts as healthy: the full dead interval.
    pub backup: Duration,
    /// How long a port that has just been created, re-added or promoted is left alone.
    pub grace: Duration,
    /// The declared dead interval: when OSPF stops believing in an adjacency.
    pub dead: Duration,
    /// The declared hello interval.
    pub hello: Duration,
}

impl Windows {
    pub fn from_ospf(hello_s: u32, dead_s: u32) -> (r: Windows)
        ensures
            r.hello.ns as nat == secs(hello_s as nat),
            r.dead.ns as nat == secs(dead_s as nat),
            r.active.ns as int == secs(hello_s as nat) + secs(hello_s as nat) as int / 2,
            r.backup == r.dead,
            r.grace == r.dead,
    {
        let hello = Duration::from_secs(hello_s);
        let dead = Duration::from_secs(dead_s);
        Windows {
            active: Duration { ns: hello.ns + hello.ns / 2 },
            backup: dead,
            grace: dead,
            dead,
            hello,
        }
    }

    /// Does a move still land inside the dead interval? Suspicion takes `active`, the confirming
    /// tick one more `tick`, and the move is written on that same tick.
    pub fn move_fits_inside_dead(&self, tick: Duration, dead_s: u32) -> (r: bool)
        ensures
            r == (self.active.ns + tick.ns <= secs(dead_s as nat)),
    {
        self.active.ns as u128 + tick.ns as u128 <= Duration::from_secs(dead_s).ns as u128
    }
}

/// What one port has heard, and how it is being used.
#[derive(Debug, Clone, Copy, PartialEq, Eq, Structural)]
pub struct Evidence {
    /// The bond is active on this port.
    pub active: bool,
    /// The last time a peer's packet arrived on this port.
    pub peer: Option<Instant>,
    /// The last time our own hello came back on this port through the backbone, which only a
    /// backup port can see.
    pub reflected: Option<Instant>,
    /// Until when this port is in its grace period, if it is.
    pub grace_until: Option<Instant>,
}

impl Default for Evidence {
    fn default() -> (r: Evidence)
        ensures
            r == (Evidence { active: false, peer: None, reflected: None, grace_until: None }),
    {
        Evidence { active: false, peer: None, reflected: None, grace_until: None }
    }
}

/// `t`, where it is not in the future.
pub open spec fn not_after(t: Option<Instant>, now: Instant) -> Option<Instant> {
    match t {
        Some(x) => if x.ns <= now.ns {
            t
        } else {
            None
        },
        None => None,
    }
}

pub open spec fn later(a: Option<Instant>, b: Option<Instant>) -> Option<Instant> {
    match (a, b) {
        (Some(x), Some(y)) => if x.ns >= y.ns {
            a
        } else {
            b
        },
        (Some(_), None) => a,
        (None, _) => b,
    }
}

/// The last moment that this port showed any life that counts for its role: our reflection is
/// evidence for a backup port only.
pub open spec fn last_life(e: Evidence, now: Instant) -> Option<Instant> {
    later(
        not_after(e.peer, now),
        if e.active {
            None
        } else {
            not_after(e.reflected, now)
        },
    )
}

/// How long this port may be silent.
pub open spec fn allowed(e: Evidence, w: Windows) -> Duration {
    if e.active {
        w.active
    } else {
        w.backup
    }
}

/// Was anything heard within the port's window?
pub open spec fn lively(e: Evidence, w: Windows, now: Instant) -> bool {
    match last_life(e, now) {
        Some(t) => since(now, t) <= allowed(e, w).ns,
        None => false,
    }
}

/// One port's standing.
#[derive(Debug, Clone, Copy, PartialEq, Eq, Structural)]
pub enum Verdict {
    /// Heard something within its window.
    Good,
    /// Neither recently enough heard from to be good, nor to be suspected. Nothing changes.
    Watch,
    /// Silent past its window while a sibling port hears the fabric: this wire is the problem.
    Suspect,
    /// Silent, as is every other port of this leg: the fault is not per wire.
    Quiet,
}

pub open spec fn any_lively(p: Seq<Evidence>, w: Windows, now: Instant) -> bool {
    exists|i: int| 0 <= i < p.len() && lively(#[trigger] p[i], w, now)
}

/// A port's standing, next to whether any port of its leg is lively.
pub open spec fn verdict(
    e: Evidence,
    w: Windows,
    now: Instant,
    any: bool,
    expect_peers: bool,
) -> Verdict {
    if lively(e, w, now) {
        Verdict::Good
    } else if e.grace_until is Some && now.ns < e.grace_until->0.ns {
        Verdict::Watch
    } else if !expect_peers {
        Verdict::Watch
    } else if any {
        Verdict::Suspect
    } else {
        Verdict::Quiet
    }
}

impl Evidence {
    fn last(&self, now: Instant) -> (r: Option<Instant>)
        ensures
            r == last_life(*self, now),
    {
        let a = match self.peer {
            Some(t) => if t.ns <= now.ns {
                Some(t)
            } else {
                None
            },
            None => None,
        };
        let b = if self.active {
            None
        } else {
            match self.reflected {
                Some(t) => if t.ns <= now.ns {
                    Some(t)
                } else {
                    None
                },
                None => None,
            }
        };
        match (a, b) {
            (Some(x), Some(y)) => if x.ns >= y.ns {
                a
            } else {
                b
            },
            (Some(_), None) => a,
            (None, _) => b,
        }
    }

    fn is_lively(&self, w: &Windows, now: Instant) -> (r: bool)
        ensures
            r == lively(*self, *w, now),
    {
        match self.last(now) {
            Some(t) => now.since(t).ns <= window(self, w).ns,
            None => false,
        }
    }
}

fn window(e: &Evidence, w: &Windows) -> (r: Duration)
    ensures
        r == allowed(*e, *w),
{
    if e.active {
        w.active
    } else {
        w.backup
    }
}

/// Every port of one leg, judged together: that a wire is dead is only ever a claim relative to
/// the wires beside it. `expect_peers` is false on a member that is alone in its segment: such a
/// member never suspects a wire of losing peers that it does not have.
pub fn verdicts(now: Instant, ports: &Vec<Evidence>, w: &Windows, expect_peers: bool) -> (r: Vec<
    Verdict,
>)
    ensures
        r@.len() == ports@.len(),
        forall|i: int|
            0 <= i < r@.len() ==> #[trigger] r@[i] == verdict(
                ports@[i],
                *w,
                now,
                any_lively(ports@, *w, now),
                expect_peers,
            ),
{
    let mut any = false;
    let mut i: usize = 0;
    while i < ports.len()
        invariant
            i <= ports@.len(),
            any == exists|j: int| 0 <= j < i && lively(#[trigger] ports@[j], *w, now),
        decreases ports@.len() - i,
    {
        if ports[i].is_lively(w, now) {
            assert(lively(ports@[i as int], *w, now));
            any = true;
        }
        i = i + 1;
    }
    assert(any == any_lively(ports@, *w, now));
    let mut out: Vec<Verdict> = Vec::new();
    let mut i: usize = 0;
    while i < ports.len()
        invariant
            i <= ports@.len(),
            any == any_lively(ports@, *w, now),
            out@.len() == i,
            forall|j: int|
                0 <= j < i ==> #[trigger] out@[j] == verdict(
                    ports@[j],
                    *w,
                    now,
                    any,
                    expect_peers,
                ),
        decreases ports@.len() - i,
    {
        let e = &ports[i];
        let graced = match e.grace_until {
            Some(t) => now.ns < t.ns,
            None => false,
        };
        let v = if e.is_lively(w, now) {
            Verdict::Good
        } else if graced {
            Verdict::Watch
        } else if !expect_peers {
            Verdict::Watch
        } else if any {
            Verdict::Suspect
        } else {
            Verdict::Quiet
        };
        out.push(v);
        i = i + 1;
    }
    out
}

/// A suspect port always has a sibling that hears the fabric, and is itself silent, out of its
/// grace period, and expected to hear peers.
pub proof fn lemma_suspect_has_lively_sibling(
    p: Seq<Evidence>,
    w: Windows,
    now: Instant,
    expect_peers: bool,
    i: int,
)
    requires
        0 <= i < p.len(),
        verdict(p[i], w, now, any_lively(p, w, now), expect_peers) == Verdict::Suspect,
    ensures
        expect_peers,
        !lively(p[i], w, now),
        !(p[i].grace_until is Some && now.ns < p[i].grace_until->0.ns),
        exists|j: int| 0 <= j < p.len() && j != i && lively(#[trigger] p[j], w, now),
{
}

/// No leg has both a suspect and a quiet port: silence is either of one wire or of all.
pub proof fn lemma_suspect_or_quiet(
    p: Seq<Evidence>,
    w: Windows,
    now: Instant,
    expect_peers: bool,
    i: int,
    j: int,
)
    requires
        0 <= i < p.len(),
        0 <= j < p.len(),
        verdict(p[i], w, now, any_lively(p, w, now), expect_peers) == Verdict::Suspect,
    ensures
        verdict(p[j], w, now, any_lively(p, w, now), expect_peers) != Verdict::Quiet,
{
}

} // verus!
