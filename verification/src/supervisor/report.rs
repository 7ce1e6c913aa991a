//! The `components` document, and the one line that `status` prints from it. Every duration is
//! elapsed seconds from a monotonic clock.

use vstd::prelude::*;

use crate::supervisor::child::{state_word, ExitCause, State};
use crate::text::{cat2, cat3, cat4, cat5, dec, dec_u64, join, join_texts, lemma_texts_push, texts};

verus! {

#[derive(Debug)]
pub struct Components {
    pub supervisor: SupervisorInfo,
    pub components: Vec<Component>,
    pub watchdog: WatchdogInfo,
    /// One row for each ingress leg that this member carries.
    pub ingress: Vec<IngressLeg>,
}

/// What is known of one zone's ingress leg.
#[derive(Debug)]
pub struct IngressLeg {
    pub zone: String,
    pub bond: String,
    /// The port that the bond is held on, where the leg can migrate.
    pub active: Option<String>,
    pub slaves: Vec<IngressSlave>,
}

#[derive(Debug)]
pub struct IngressSlave {
    pub wire: String,
    /// The switch domain that this wire lands in.
    pub island: String,
    pub reachable: bool,
    /// Milliseconds since the router last answered over this wire, where it ever did.
    pub last_reply_ms: Option<u64>,
}

#[derive(Debug)]
pub struct SupervisorInfo {
    pub pid: u32,
    pub uptime_s: u64,
    pub applying: bool,
    pub applies: u64,
    pub last_apply_error: Option<String>,
}

#[derive(Debug)]
pub struct Component {
    pub name: String,
    pub state: State,
    pub pid: Option<u32>,
    pub uptime_s: Option<u64>,
    pub restarts: u64,
    pub last_exit: Option<ExitCause>,
    /// Why this member does not run it.
    pub why: Option<String>,
}

#[derive(Debug)]
pub struct WatchdogInfo {
    pub last_tick_s_ago: Option<u64>,
    pub result: String,
    pub detail: Option<String>,
}

/// A number in at least two digits.
pub open spec fn two_digits(n: nat) -> Seq<char> {
    if n < 10 {
        "0"@ + dec(n)
    } else {
        dec(n)
    }
}

/// A time in at most two units.
pub open spec fn duration_text(secs: nat) -> Seq<char> {
    let h = secs / 3600;
    let m = (secs % 3600) / 60;
    let s = secs % 60;
    if h > 0 {
        dec(h) + "h"@ + two_digits(m) + "m"@
    } else if m > 0 {
        dec(m) + "m"@ + two_digits(s) + "s"@
    } else {
        dec(s) + "s"@
    }
}

fn padded(n: u64) -> (r: String)
    ensures
        r@ == two_digits(n as nat),
{
    if n < 10 {
        cat2("0", dec_u64(n).as_str())
    } else {
        dec_u64(n)
    }
}

pub fn duration(secs: u64) -> (r: String)
    ensures
        r@ == duration_text(secs as nat),
{
    let h: u64 = secs / 3600;
    let m: u64 = (secs % 3600) / 60;
    let s: u64 = secs % 60;
    if h > 0 {
        cat4(dec_u64(h).as_str(), "h", padded(m).as_str(), "m")
    } else if m > 0 {
        cat4(dec_u64(m).as_str(), "m", padded(s).as_str(), "s")
    } else {
        cat2(dec_u64(s).as_str(), "s")
    }
}

/// What stands in brackets behind a component: why it does not run here, or how often it was
/// restarted and how it last died.
pub open spec fn detail_text(c: Component) -> Seq<char> {
    match c.why {
        Some(w) => w@,
        None => match c.last_exit {
            Some(e) => dec(c.restarts as nat) + " restarts"@ + ", last exit "@ + e.cause@ + " "@
                + dec(e.s_ago as nat) + "s ago"@,
            None => dec(c.restarts as nat) + " restarts"@,
        },
    }
}

pub open spec fn component_text(c: Component) -> Seq<char> {
    let head = c.name@ + " "@ + state_word(c.state);
    let up = match c.uptime_s {
        Some(u) => head + " "@ + duration_text(u as nat),
        None => head,
    };
    up + " ("@ + detail_text(c) + ")"@
}

fn detail(c: &Component) -> (r: String)
    ensures
        r@ == detail_text(*c),
{
    match &c.why {
        Some(w) => w.clone(),
        None => {
            let mut s = cat2(dec_u64(c.restarts).as_str(), " restarts");
            if let Some(e) = &c.last_exit {
                s.append(", last exit ");
                s.append(e.cause.as_str());
                s.append(" ");
                s.append(dec_u64(e.s_ago).as_str());
                s.append("s ago");
            }
            s
        },
    }
}

pub fn component(c: &Component) -> (r: String)
    ensures
        r@ == component_text(*c),
{
    let mut s = cat3(c.name.as_str(), " ", c.state.as_str());
    if let Some(u) = c.uptime_s {
        s.append(" ");
        s.append(duration(u).as_str());
    }
    s.append(" (");
    s.append(detail(c).as_str());
    s.append(")");
    s
}

pub open spec fn watchdog_text(w: WatchdogInfo) -> Seq<char> {
    let said = match w.last_tick_s_ago {
        Some(n) => "watchdog "@ + w.result@ + " "@ + dec(n as nat) + "s ago"@,
        None => "watchdog "@ + w.result@ + " (no tick yet)"@,
    };
    match w.detail {
        Some(d) => said + " ("@ + d@ + ")"@,
        None => said,
    }
}

pub fn watchdog(w: &WatchdogInfo) -> (r: String)
    ensures
        r@ == watchdog_text(*w),
{
    let mut s = match w.last_tick_s_ago {
        Some(n) => cat5("watchdog ", w.result.as_str(), " ", dec_u64(n).as_str(), "s ago"),
        None => cat3("watchdog ", w.result.as_str(), " (no tick yet)"),
    };
    if let Some(d) = &w.detail {
        s.append(" (");
        s.append(d.as_str());
        s.append(")");
    }
    s
}

/// The parts of the line: every component, then the watchdog, then a refused change.
pub open spec fn line_parts(c: Components) -> Seq<Seq<char>> {
    let rows = Seq::new(c.components@.len(), |i: int| component_text(c.components@[i]));
    let all = rows.push(watchdog_text(c.watchdog));
    match c.supervisor.last_apply_error {
        Some(e) => all.push("last apply: "@ + e@),
        None => all,
    }
}

/// The one line that `status` always prints, without its newline: every component is named, one
/// that is stopped too.
pub fn render_line(c: &Components) -> (r: String)
    ensures
        r@ == "components: "@ + join(line_parts(*c), " | "@),
{
    broadcast use lemma_texts_push;

    let mut parts: Vec<String> = Vec::new();
    let ghost rows = Seq::new(c.components@.len(), |i: int| component_text(c.components@[i]));
    let mut i: usize = 0;
    while i < c.components.len()
        invariant
            i <= c.components@.len(),
            rows == Seq::new(c.components@.len(), |i: int| component_text(c.components@[i])),
            texts(parts@) =~= rows.take(i as int),
        decreases c.components@.len() - i,
    {
        parts.push(component(&c.components[i]));
        assert(rows.take(i + 1) =~= rows.take(i as int).push(rows[i as int]));
        i = i + 1;
    }
    assert(rows.take(i as int) =~= rows);
    parts.push(watchdog(&c.watchdog));
    if let Some(e) = &c.supervisor.last_apply_error {
        parts.push(cat2("last apply: ", e.as_str()));
    }
    cat2("components: ", join_texts(&parts, " | ").as_str())
}

} // verus!
