//! One supervised child: the state machine. Every transition is decided from arguments.

use std::collections::VecDeque;

use vstd::prelude::*;

use crate::error::{is_fatal, Error};
use crate::text::{cat5, dec, dec_u64, fit, fitted, opt_string, texts};
use crate::time::{since, Duration, Instant};

verus! {

/// The fixed delay before a restart, in nanoseconds.
pub const BACKOFF: u64 = 2_000_000_000;

/// How many lines of a child's output are kept.
pub const LOG_LINES: usize = 200;

/// How many bytes of a line are kept.
pub const LOG_LINE_MAX: usize = 2048;

#[derive(Debug, Clone, Copy, PartialEq, Eq, Structural)]
pub enum State {
    Starting,
    Running,
    Restarting,
    Stopped,
}

pub open spec fn state_word(s: State) -> Seq<char> {
    match s {
        State::Starting => "starting"@,
        State::Running => "running"@,
        State::Restarting => "restarting"@,
        State::Stopped => "stopped"@,
    }
}

impl State {
    /// The one spelling of each state.
    pub fn as_str(self) -> (r: &'static str)
        ensures
            r@ == state_word(self),
    {
        match self {
            State::Starting => "starting",
            State::Running => "running",
            State::Restarting => "restarting",
            State::Stopped => "stopped",
        }
    }
}

/// How a child last died, and how many seconds ago.
#[derive(Debug, PartialEq, Eq)]
pub struct ExitCause {
    pub cause: String,
    pub s_ago: u64,
}

#[derive(Debug)]
pub struct Child {
    pub name: &'static str,
    pub state: State,
    /// What the supervisor intends.
    pub want: bool,
    /// How often it was restarted. Never reset: a counter that resets hides the crash loop that
    /// it exists to reveal.
    pub restarts: u64,
    /// Why this child is not wanted here.
    pub why_stopped: Option<String>,
    pub pid: Option<u32>,
    pub started_at: Option<Instant>,
    /// How it last died, and when.
    pub died: Option<(String, Instant)>,
    pub log: VecDeque<String>,
}

pub struct ChildV {
    pub name: Seq<char>,
    pub state: State,
    pub want: bool,
    pub restarts: u64,
    pub why_stopped: Option<Seq<char>>,
    pub pid: Option<u32>,
    pub started_at: Option<Instant>,
    pub died: Option<(Seq<char>, Instant)>,
    pub log: Seq<Seq<char>>,
}

pub open spec fn death_view(d: Option<(String, Instant)>) -> Option<(Seq<char>, Instant)> {
    match d {
        Some(p) => Some((p.0@, p.1)),
        None => None,
    }
}

impl View for Child {
    type V = ChildV;

    open spec fn view(&self) -> ChildV {
        ChildV {
            name: self.name@,
            state: self.state,
            want: self.want,
            restarts: self.restarts,
            why_stopped: opt_string(self.why_stopped),
            pid: self.pid,
            started_at: self.started_at,
            died: death_view(self.died),
            log: texts(self.log@),
        }
    }
}

/// A child that does not run and is not wanted.
pub open spec fn fresh_child(name: Seq<char>) -> ChildV {
    ChildV {
        name,
        state: State::Stopped,
        want: false,
        restarts: 0,
        why_stopped: None,
        pid: None,
        started_at: None,
        died: None,
        log: seq![],
    }
}

/// The child after its process died. Any exit restarts a child that is wanted, a clean one too.
pub open spec fn child_exited(c: ChildV, cause: Seq<char>, now: Instant) -> ChildV {
    ChildV {
        pid: None,
        started_at: None,
        died: Some((cause, now)),
        state: if c.want {
            State::Restarting
        } else {
            State::Stopped
        },
        restarts: if c.want {
            (c.restarts + 1) as u64
        } else {
            c.restarts
        },
        ..c
    }
}

/// The child after a new process was started for it.
pub open spec fn child_spawned(c: ChildV, pid: u32, now: Instant, needs_readiness: bool) -> ChildV {
    ChildV {
        pid: Some(pid),
        started_at: Some(now),
        want: true,
        why_stopped: None,
        state: if needs_readiness {
            State::Starting
        } else {
            State::Running
        },
        ..c
    }
}

/// The child after it said that it is ready: a late answer does not bring back one that has died.
pub open spec fn child_ready(c: ChildV) -> ChildV {
    ChildV {
        state: if c.state == State::Starting {
            State::Running
        } else {
            c.state
        },
        ..c
    }
}

/// The lines with one more, of which the last ones are kept.
pub open spec fn ring_push(log: Seq<Seq<char>>, line: Seq<char>) -> Seq<Seq<char>> {
    let kept = fit(line, LOG_LINE_MAX as int);
    if log.len() >= LOG_LINES {
        log.skip(1).push(kept)
    } else {
        log.push(kept)
    }
}

/// The last `n` of some lines.
pub open spec fn last_of(log: Seq<Seq<char>>, n: int) -> Seq<Seq<char>> {
    if n >= log.len() {
        log
    } else {
        log.skip(log.len() - n)
    }
}

impl Child {
    /// No more lines are kept than fit.
    pub open spec fn wf(self) -> bool {
        self.log@.len() <= LOG_LINES
    }

    pub fn new(name: &'static str) -> (r: Child)
        ensures
            r@ == fresh_child(name@),
            r.wf(),
    {
        let r = Child {
            name,
            state: State::Stopped,
            want: false,
            restarts: 0,
            why_stopped: None,
            pid: None,
            started_at: None,
            died: None,
            log: VecDeque::with_capacity(LOG_LINES),
        };
        assert(r@.log =~= seq![]);
        r
    }

    /// A child that this member does not run: it is listed with the reason, and never omitted.
    pub fn stopped(name: &'static str, why: &str) -> (r: Child)
        ensures
            r@ == (ChildV { why_stopped: Some(why@), ..fresh_child(name@) }),
            r.wf(),
    {
        let mut c = Child::new(name);
        c.why_stopped = Some(String::from_str(why));
        c
    }

    /// The process died. When it may be started again; never where it is not wanted, which is
    /// the one case that is no fault.
    pub fn exited(&mut self, cause: String, now: Instant) -> (r: Option<Instant>)
        requires
            old(self).want ==> old(self).restarts < u64::MAX,
            old(self).want ==> now.ns + BACKOFF <= u64::MAX,
        ensures
            final(self)@ == child_exited(old(self)@, cause@, now),
            match r {
                Some(t) => old(self)@.want && t.ns == now.ns + BACKOFF,
                None => !old(self)@.want,
            },
            final(self).log@ == old(self).log@,
    {
        self.pid = None;
        self.started_at = None;
        self.died = Some((cause, now));
        if self.want {
            self.state = State::Restarting;
            self.restarts = self.restarts + 1;
            Some(now.after(Duration { ns: BACKOFF }))
        } else {
            self.state = State::Stopped;
            None
        }
    }

    /// A new process runs. A child with a readiness protocol stays `starting` until it has said
    /// that it is ready.
    pub fn spawned(&mut self, pid: u32, now: Instant, needs_readiness: bool)
        ensures
            final(self)@ == child_spawned(old(self)@, pid, now, needs_readiness),
            final(self).log@ == old(self).log@,
    {
        self.pid = Some(pid);
        self.started_at = Some(now);
        self.want = true;
        self.why_stopped = None;
        self.state = if needs_readiness {
            State::Starting
        } else {
            State::Running
        };
    }

    /// The child said that it is ready.
    pub fn became_ready(&mut self)
        ensures
            final(self)@ == child_ready(old(self)@),
            final(self).log@ == old(self).log@,
    {
        if self.state == State::Starting {
            self.state = State::Running;
        }
    }

    pub fn pid(&self) -> (r: Option<u32>)
        ensures
            r == self@.pid,
    {
        self.pid
    }

    /// How this child last died. The age is measured here and never stored.
    pub fn last_exit(&self, now: Instant) -> (r: Option<ExitCause>)
        ensures
            match r {
                Some(e) => self@.died matches Some(d) && e.cause@ == d.0 && e.s_ago as int == since(
                    now,
                    d.1,
                ) as int / 1_000_000_000,
                None => self@.died is None,
            },
    {
        match &self.died {
            Some(d) => Some(ExitCause { cause: d.0.clone(), s_ago: now.since(d.1).as_secs() }),
            None => None,
        }
    }

    /// Seconds since this process was started, where one runs.
    pub fn uptime_s(&self, now: Instant) -> (r: Option<u64>)
        ensures
            match r {
                Some(s) => self@.started_at matches Some(t) && s as int == since(now, t) as int
                    / 1_000_000_000,
                None => self@.started_at is None,
            },
    {
        match self.started_at {
            Some(t) => Some(now.since(t).as_secs()),
            None => None,
        }
    }

    /// Keep one line of output, cut to as many whole characters as fit.
    pub fn push_log(&mut self, line: &str)
        requires
            old(self).wf(),
        ensures
            final(self)@ == (ChildV { log: ring_push(old(self)@.log, line@), ..old(self)@ }),
            final(self).wf(),
    {
        let ghost was = self.log@;
        let kept = fitted(line, LOG_LINE_MAX);
        if self.log.len() == LOG_LINES {
            let _ = self.log.pop_front();
            assert(self.log@ =~= was.skip(1));
            assert(texts(was.skip(1)) =~= texts(was).skip(1));
        }
        let ghost mid = self.log@;
        self.log.push_back(kept);
        assert(texts(self.log@) =~= texts(mid).push(kept@));
    }

    /// The last `n` lines that were kept, oldest first.
    pub fn log_tail(&self, n: usize) -> (r: Vec<String>)
        ensures
            texts(r@) == last_of(self@.log, n as int),
    {
        let len = self.log.len();
        let from: usize = if n >= len {
            0
        } else {
            len - n
        };
        let mut out: Vec<String> = Vec::new();
        let mut i: usize = from;
        while i < len
            invariant
                from <= i <= len,
                len == self.log@.len(),
                out@.len() == i - from,
                forall|j: int| 0 <= j < out@.len() ==> (#[trigger] out@[j])@ == self.log@[from + j]@,
            decreases len - i,
        {
            out.push(self.log[i].clone());
            i = i + 1;
        }
        assert(texts(out@) =~= last_of(self@.log, n as int));
        out
    }
}

/// A child whose supervisor is no longer its parent does not go on. One that runs without a
/// supervisor is not asked.
pub fn check_parent(expected: Option<u32>, actual: u32) -> (r: Result<(), Error>)
    ensures
        match r {
            Ok(_) => expected is None || expected == Some(actual),
            Err(e) => expected matches Some(p) && p != actual && is_fatal(
                e,
                "the supervisor vanished at spawn (CFAB_SUPERVISOR_PID="@ + dec(p as nat)
                    + ", parent is now "@ + dec(actual as nat) + ")"@,
            ),
        },
{
    match expected {
        Some(p) => {
            if p == actual {
                return Ok(());
            }
            Err(
                Error::Fatal(
                    cat5(
                        "the supervisor vanished at spawn (CFAB_SUPERVISOR_PID=",
                        dec_u64(p as u64).as_str(),
                        ", parent is now ",
                        dec_u64(actual as u64).as_str(),
                        ")",
                    ),
                ),
            )
        },
        None => Ok(()),
    }
}

// ---- laws ----

/// What can happen to a child.
pub enum Happening {
    Spawned { pid: u32, now: Instant, needs_readiness: bool },
    Ready,
    Exited { cause: Seq<char>, now: Instant },
    Said { line: Seq<char> },
}

/// The child after one thing more has happened to it.
pub open spec fn after(c: ChildV, h: Happening) -> ChildV {
    match h {
        Happening::Spawned { pid, now, needs_readiness } => child_spawned(
            c,
            pid,
            now,
            needs_readiness,
        ),
        Happening::Ready => child_ready(c),
        Happening::Exited { cause, now } => child_exited(c, cause, now),
        Happening::Said { line } => ChildV { log: ring_push(c.log, line), ..c },
    }
}

/// The child after the first `n` of these things have happened to it.
pub open spec fn after_all(c: ChildV, h: Seq<Happening>, n: int) -> ChildV
    decreases n,
{
    if n <= 0 {
        c
    } else {
        after(after_all(c, h, n - 1), h[n - 1])
    }
}

/// How many of the first `n` things are exits while the child is wanted.
pub open spec fn crashes(c: ChildV, h: Seq<Happening>, n: int) -> nat
    decreases n,
{
    if n <= 0 {
        0
    } else {
        crashes(c, h, n - 1) + if h[n - 1] is Exited && after_all(c, h, n - 1).want {
            1nat
        } else {
            0nat
        }
    }
}

/// The counter counts every exit of a child that is wanted, and is never reset, whatever happens
/// to the child.
pub proof fn lemma_restarts_count_every_crash(c: ChildV, h: Seq<Happening>, n: int)
    requires
        0 <= n <= h.len(),
        c.restarts + n <= u64::MAX,
    ensures
        after_all(c, h, n).restarts == c.restarts + crashes(c, h, n),
        crashes(c, h, n) <= n,
    decreases n,
{
    if n > 0 {
        lemma_restarts_count_every_crash(c, h, n - 1);
    }
}

/// A child that is stopped is one that is not wanted, and one without a process is not running.
pub proof fn lemma_stopped_is_unwanted(name: Seq<char>, h: Seq<Happening>, n: int)
    requires
        0 <= n <= h.len(),
    ensures
        ({
            let c = after_all(fresh_child(name), h, n);
            &&& c.state == State::Stopped ==> !c.want
            &&& c.pid is Some <==> c.state == State::Starting || c.state == State::Running
            &&& c.pid is Some <==> c.started_at is Some
            &&& c.log.len() <= LOG_LINES
        }),
    decreases n,
{
    if n > 0 {
        lemma_stopped_is_unwanted(name, h, n - 1);
    }
}

/// Some lines, each cut to what fits of it.
pub open spec fn cut(lines: Seq<Seq<char>>) -> Seq<Seq<char>> {
    Seq::new(lines.len(), |i: int| fit(lines[i], LOG_LINE_MAX as int))
}

/// The lines that are kept of the first `n`.
pub open spec fn kept_of(lines: Seq<Seq<char>>, n: int) -> Seq<Seq<char>>
    decreases n,
{
    if n <= 0 {
        seq![]
    } else {
        ring_push(kept_of(lines, n - 1), lines[n - 1])
    }
}

/// What is kept of a child's output is the last lines of it, each cut to what fits.
pub proof fn lemma_the_last_lines_are_kept(lines: Seq<Seq<char>>, n: int)
    requires
        0 <= n <= lines.len(),
    ensures
        kept_of(lines, n) == last_of(cut(lines.take(n)), LOG_LINES as int),
    decreases n,
{
    if n > 0 {
        lemma_the_last_lines_are_kept(lines, n - 1);
        let a = cut(lines.take(n - 1));
        let b = cut(lines.take(n));
        assert(b =~= a.push(fit(lines[n - 1], LOG_LINE_MAX as int)));
        assert(kept_of(lines, n) =~= last_of(b, LOG_LINES as int));
    } else {
        assert(kept_of(lines, 0) =~= last_of(cut(lines.take(0)), LOG_LINES as int));
    }
}

} // verus!
