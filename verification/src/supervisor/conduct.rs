//! What the supervisor does with its children and its announcers, and what it says of them.

use vstd::prelude::*;

use crate::supervisor::child::{
    child_exited, child_ready, child_spawned, fresh_child, last_of, ring_push, state_word, ChildV,
    State,
};
use crate::supervisor::lock::pid_in;
use crate::supervisor::metrics::{
    classified, feed_from, request_line, response_bytes, response_to, Response,
};
use crate::supervisor::report::{
    component_text, duration_text, line_parts, watchdog_text, Component, Components, WatchdogInfo,
};
use crate::supervisor::sock::{verb_of, VerbV};
use crate::supervisor::workload::{
    cond_word, dead_watch, falls_back, fresh_row, hex_byte, looked_at, looked_lines, mac_lines,
    mac_taken, mac_text, row_place, scan_failure, send_failure, standing, start_lines, start_of,
    trigger_text, unstarted_line, uplink_lines, uplink_taken, Cond, RowV, TriggerV, UplinkV, WorkloadsV,
};
use crate::text::lines::begins;
use crate::text::reading::{blank, lemma_trim_of_solid};
use crate::text::{dec, digit, fit, join, lemma_dec, lemma_parse_dec};
use crate::time::Instant;

verus! {

// ---- children ----

/// An exit, however it came about, restarts a child that is wanted and counts; it leaves a child
/// that is not wanted stopped. Either way the process is gone and its end is remembered.
pub proof fn lemma_what_an_exit_does(c: ChildV, cause: Seq<char>, now: Instant)
    requires
        c.restarts < u64::MAX,
    ensures
        ({
            let d = child_exited(c, cause, now);
            &&& c.want ==> d.state == State::Restarting && d.restarts == c.restarts + 1
            &&& !c.want ==> d.state == State::Stopped && d.restarts == c.restarts
            &&& d.pid is None
            &&& d.started_at is None
            &&& d.died == Some((cause, now))
            &&& d.want == c.want
            &&& d.name == c.name
            &&& d.why_stopped == c.why_stopped
            &&& d.log == c.log
        }),
{
}

/// A child that is started is wanted from then on, and no reason stands against it; it runs at
/// once, or waits to be ready where it has to be.
pub proof fn lemma_what_a_start_does(c: ChildV, pid: u32, now: Instant, needs_readiness: bool)
    ensures
        ({
            let d = child_spawned(c, pid, now, needs_readiness);
            &&& d.pid == Some(pid)
            &&& d.started_at == Some(now)
            &&& d.want
            &&& d.why_stopped is None
            &&& needs_readiness ==> d.state == State::Starting
            &&& !needs_readiness ==> d.state == State::Running
            &&& d.restarts == c.restarts
            &&& d.died == c.died
            &&& d.name == c.name
            &&& d.log == c.log
        }),
        ({
            let f = fresh_child(c.name);
            &&& f.state == State::Stopped
            &&& !f.want
            &&& f.restarts == 0
            &&& f.pid is None
            &&& f.died is None
            &&& f.why_stopped is None
            &&& f.log.len() == 0
        }),
{
}

/// To be ready makes a starting child a running one, and says nothing of any other.
pub proof fn lemma_what_readiness_does(c: ChildV)
    ensures
        c.state == State::Starting ==> child_ready(c) == (ChildV { state: State::Running, ..c }),
        c.state != State::Starting ==> child_ready(c) == c,
{
}

/// Two hundred lines are kept of a child, each cut to 2048 bytes: the oldest makes room.
pub proof fn lemma_what_is_kept_of_the_output(log: Seq<Seq<char>>, line: Seq<char>, n: int, i: int)
    requires
        0 <= n,
    ensures
        log.len() < 200 ==> ring_push(log, line) == log.push(fit(line, 2048)),
        log.len() == 200 ==> ring_push(log, line) == log.subrange(1, 200).push(fit(line, 2048)),
        n <= log.len() ==> last_of(log, n).len() == n,
        n > log.len() ==> last_of(log, n) == log,
        0 <= i < n <= log.len() ==> last_of(log, n)[i] == log[log.len() - n + i],
        crate::supervisor::child::BACKOFF == 2 * 1_000_000_000,
{
    if log.len() == 200 {
        assert(log.skip(1) =~= log.subrange(1, 200));
    }
    if n == log.len() {
        assert(log.skip(0) =~= log);
    }
}

/// The words for the states of a child.
pub proof fn lemma_the_words_for_children(s: State)
    ensures
        state_word(s) == match s {
            State::Starting => "starting"@,
            State::Running => "running"@,
            State::Restarting => "restarting"@,
            State::Stopped => "stopped"@,
        },
{
}

/// A lock names its holder, with white space around the number or without.
pub proof fn lemma_who_holds_a_lock(a: Seq<char>, n: u32, b: Seq<char>)
    requires
        blank(a),
        blank(b),
    ensures
        pid_in(a + dec(n as nat) + b) == Some(n),
{
    let d = dec(n as nat);
    lemma_dec(n as nat);
    assert(crate::text::is_digit(d[0]));
    assert(crate::text::is_digit(d.last()));
    lemma_trim_of_solid(a, d, b);
    lemma_parse_dec(n as nat, u32::MAX as nat);
}

// ---- announcers ----

proof fn lemma_row_place(rows: Seq<RowV>, name: Seq<char>, i: int)
    requires
        0 <= i <= rows.len(),
    ensures
        i <= row_place(rows, name, i) <= rows.len(),
        row_place(rows, name, i) < rows.len() ==> rows[row_place(rows, name, i)].name == name,
        forall|j: int| i <= j < row_place(rows, name, i) ==> (#[trigger] rows[j]).name != name,
    decreases rows.len() - i,
{
    if i < rows.len() && rows[i].name != name {
        lemma_row_place(rows, name, i + 1);
    }
}

/// A row is left alone where its announcer runs, said once to be deferred where it is, and
/// started otherwise.
pub proof fn lemma_what_becomes_of_a_row(w: WorkloadsV, name: Seq<char>, deferred: Seq<Seq<char>>)
    ensures
        ({
            let running = exists|i: int| 0 <= i < w.rows.len() && (#[trigger] w.rows[i]).name == name;
            let off = exists|i: int| 0 <= i < deferred.len() && #[trigger] deferred[i] == name;
            let said = exists|i: int|
                0 <= i < w.deferred_said.len() && #[trigger] w.deferred_said[i] == name;
            &&& start_of(w, name, deferred) is Runs <==> running
            &&& start_of(w, name, deferred) is Deferred <==> !running && off
            &&& start_of(w, name, deferred) is Try <==> !running && !off
            &&& looked_lines(w, name, deferred) == if !running && off && !said {
                seq!["cfab: workload "@ + name + ": deferred; announcer not started"@]
            } else {
                seq![]
            }
            &&& looked_at(w, name, deferred).rows == w.rows
            &&& looked_at(w, name, deferred).trigger == w.trigger
            &&& looked_at(w, name, deferred).deferred_said == if !running && off && !said {
                w.deferred_said.push(name)
            } else {
                w.deferred_said
            }
        }),
{
    lemma_row_place(w.rows, name, 0);
    let k = row_place(w.rows, name, 0);
    if k < w.rows.len() {
        assert(w.rows[k].name == name);
    }
    if exists|i: int| 0 <= i < w.rows.len() && (#[trigger] w.rows[i]).name == name {
        let i = choose|i: int| 0 <= i < w.rows.len() && (#[trigger] w.rows[i]).name == name;
        assert(!(i < k));
    }
    if deferred.contains(name) {
        let i = choose|i: int| 0 <= i < deferred.len() && deferred[i] == name;
        assert(deferred[i] == name);
    }
    if w.deferred_said.contains(name) {
        let i = choose|i: int| 0 <= i < w.deferred_said.len() && w.deferred_said[i] == name;
        assert(w.deferred_said[i] == name);
    }
}

/// An address that was read is taken, and its change is said; one that could not be read leaves
/// the last known one, and the fault is said once.
pub proof fn lemma_what_reading_an_address_does(r: RowV, m: Seq<u8>, e: Seq<char>)
    ensures
        mac_taken(r, Ok(m)).mac == m,
        mac_taken(r, Ok(m)).mac_line is None,
        mac_lines(r, Ok(m)) == (if r.mac_line is Some {
            seq!["cfab: workload "@ + r.name + ": "@ + "MAC read"@ + " recovered"@]
        } else {
            seq![]
        }) + (if m == r.mac {
            seq![]
        } else {
            seq![
                "cfab: workload "@ + r.name + ": "@ + r.ifname + " MAC changed "@ + mac_text(r.mac)
                    + " -> "@ + mac_text(m),
            ]
        }),
        ({
            let line = "cfab: workload "@ + r.name + ": "@ + ("cannot read the MAC of "@ + r.ifname
                + ": "@ + e) + "; announcing the last known MAC"@;
            &&& mac_taken(r, Err(e)).mac == r.mac
            &&& mac_taken(r, Err(e)).mac_line == Some(line)
            &&& mac_lines(r, Err(e)) == if r.mac_line == Some(line) {
                seq![]
            } else {
                seq![line]
            }
        }),
        mac_taken(r, Ok(m)).name == r.name,
        mac_taken(r, Ok(m)).up == r.up,
        mac_taken(r, Ok(m)).seen == r.seen,
        mac_taken(r, Ok(m)).send_line == r.send_line,
        mac_taken(r, Err(e)).send_line == r.send_line,
{
    let a = crate::supervisor::workload::recovered_lines(r, Cond::Mac);
    assert(mac_lines(r, Ok(m)) =~= a + (if m == r.mac {
        seq![]
    } else {
        seq![
            "cfab: workload "@ + r.name + ": "@ + r.ifname + " MAC changed "@ + mac_text(r.mac)
                + " -> "@ + mac_text(m),
        ]
    }));
}

/// An uplink that is read again is the row's from then on, and no other row's; a change of its
/// ports is said.
pub proof fn lemma_what_reading_an_uplink_does(rows: Seq<RowV>, up: UplinkV, k: int)
    requires
        0 <= k < rows.len(),
        forall|j: int| 0 <= j < k ==> (#[trigger] rows[j]).name != rows[k].name,
    ensures
        ({
            let t = uplink_taken(rows, rows[k].name, up);
            &&& t.len() == rows.len()
            &&& t[k] == (RowV { up, ..rows[k] })
            &&& forall|j: int| 0 <= j < rows.len() && j != k ==> #[trigger] t[j] == rows[j]
            &&& uplink_lines(rows, rows[k].name, up) == if join(rows[k].up.ports, ","@) == join(
                up.ports,
                ","@,
            ) {
                seq![]
            } else {
                seq![
                    "cfab: workload "@ + rows[k].name + ": uplink ports "@ + join(
                        rows[k].up.ports,
                        ","@,
                    ) + " -> "@ + join(up.ports, ","@),
                ]
            }
        }),
{
    lemma_row_place(rows, rows[k].name, 0);
}

/// Where the watch on neighbors dies, the bridge is polled instead, and every announcer says so;
/// where that is how it stands already, or nothing is watched, nothing changes.
pub proof fn lemma_what_a_dead_watch_does(w: WorkloadsV, why: Seq<char>, n: int)
    requires
        0 <= n <= w.rows.len(),
    ensures
        dead_watch(why) == (TriggerV::FdbPoll { reason: "neighbor watch died: "@ + why }),
        falls_back(w, why) <==> w.trigger is Some && w.trigger != Some(
            TriggerV::FdbPoll { reason: "neighbor watch died: "@ + why },
        ),
        start_lines(w.rows, dead_watch(why), n).len() == n,
        forall|i: int|
            0 <= i < n ==> #[trigger] start_lines(w.rows, dead_watch(why), n)[i]
                == "cfab: workload "@ + w.rows[i].name + ": announcer trigger "@ + ("fdb poll ("@ + (
            "neighbor watch died: "@ + why) + ")"@),
        trigger_text(TriggerV::NeighEvents) == "neigh events"@,
    decreases n,
{
    if n > 0 {
        lemma_what_a_dead_watch_does(w, why, n - 1);
    }
}

/// How an announcer's faults are told.
pub proof fn lemma_how_an_announcers_faults_are_told(r: RowV, e: Seq<char>)
    ensures
        send_failure(r, e) == "cfab: workload "@ + r.name + ": announce on "@ + r.ifname
            + " failed: "@ + e,
        scan_failure(r, e) == "cfab: workload "@ + r.name + ": "@ + e + "; burst skipped"@,
        cond_word(Cond::Send) == "announce"@,
        cond_word(Cond::Scan) == "bridge port scan"@,
        standing(r, Cond::Send) == r.send_line,
        standing(r, Cond::Mac) == r.mac_line,
        standing(r, Cond::Scan) == r.scan_line,
{
}

/// How a row whose announcer could not be started is told.
pub proof fn lemma_how_an_unstarted_row_is_told(name: Seq<char>, why: Seq<char>)
    ensures
        unstarted_line(name, why) == "cfab: workload "@ + name + ": "@ + why
            + "; announcer not started"@,
{
}

/// A row starts with nothing seen and nothing said.
pub proof fn lemma_a_row_starts_afresh(
    name: Seq<char>,
    ifname: Seq<char>,
    up: UplinkV,
    mac: Seq<u8>,
)
    ensures
        fresh_row(name, ifname, up, mac).name == name,
        fresh_row(name, ifname, up, mac).ifname == ifname,
        fresh_row(name, ifname, up, mac).up == up,
        fresh_row(name, ifname, up, mac).mac == mac,
        fresh_row(name, ifname, up, mac).send_line is None,
        fresh_row(name, ifname, up, mac).mac_line is None,
        fresh_row(name, ifname, up, mac).scan_line is None,
        fresh_row(name, ifname, up, mac).seen.len() == 0,
{
}

/// A digit of a byte in lower case.
pub open spec fn nibble(n: int) -> char {
    "0123456789abcdef"@[n]
}

proof fn lemma_nibble(n: int)
    requires
        0 <= n < 16,
    ensures
        crate::supervisor::workload::hex_digit(n) == nibble(n),
{
    reveal_strlit("0123456789abcdef");
}

/// An address is spelt in two digits a byte, the high one first.
pub proof fn lemma_how_an_address_is_spelt(b: u8, m: Seq<u8>)
    ensures
        hex_byte(b) == seq![nibble(b as int / 16), nibble(b as int % 16)],
        m.len() == 1 ==> mac_text(m) == hex_byte(m[0]),
        m.len() > 1 ==> mac_text(m) == mac_text(m.drop_last()) + ":"@ + hex_byte(m.last()),
{
    lemma_nibble(b as int / 16);
    lemma_nibble(b as int % 16);
    if m.len() > 1 {
        let a = Seq::new(m.len(), |i: int| hex_byte(m[i]));
        let c = Seq::new(m.drop_last().len(), |i: int| hex_byte(m.drop_last()[i]));
        assert(a.drop_last() =~= c);
    }
}

// ---- the endpoint ----

proof fn lemma_feed(b: Seq<u8>, i: int, k: int)
    requires
        0 <= i <= k <= b.len(),
        forall|j: int| i <= j < k ==> b[j] != 10,
        k < b.len() ==> b[k] == 10,
    ensures
        feed_from(b, i) == k,
    decreases k - i,
{
    if i < k {
        lemma_feed(b, i + 1, k);
    }
}

/// The request line ends at the first line feed, or at the carriage return before it; what does
/// not end within 1024 bytes is no request.
pub proof fn lemma_where_a_request_ends(line: Seq<u8>, rest: Seq<u8>)
    requires
        forall|i: int| 0 <= i < line.len() ==> line[i] != 10,
    ensures
        line.len() + 2 <= 1024 ==> request_line(line + seq![13u8, 10u8] + rest) == Some(line),
        line.len() + 1 <= 1024 && (line.len() == 0 || line.last() != 13) ==> request_line(
            line + seq![10u8] + rest,
        ) == Some(line),
        line.len() >= 1024 ==> request_line(line + rest) is None,
        request_line(line) is None,
        response_to(line) is Close,
{
    let a = line + seq![13u8, 10u8] + rest;
    let b = line + seq![10u8] + rest;
    let n = line.len() as int;
    let ca = crate::supervisor::metrics::capped(a);
    let cb = crate::supervisor::metrics::capped(b);
    let cc = crate::supervisor::metrics::capped(line + rest);
    let cd = crate::supervisor::metrics::capped(line);
    if n + 2 <= 1024 {
        assert(ca[n + 1] == 10);
        lemma_feed(ca, 0, n + 1);
        assert(ca.take(n) =~= line);
    }
    if n + 1 <= 1024 && (n == 0 || line.last() != 13) {
        assert(cb[n] == 10);
        lemma_feed(cb, 0, n);
        if n > 0 {
            assert(cb[n - 1] == line.last());
        }
        assert(cb.take(n) =~= line);
    }
    if n >= 1024 {
        assert forall|j: int| 0 <= j < cc.len() implies cc[j] != 10 by {
            assert(cc[j] == line[j]);
        }
        lemma_feed(cc, 0, cc.len() as int);
    }
    lemma_feed(cd, 0, cd.len() as int);
}

/// What is asked, by method, path and version: the metrics, the page that leads to them, or
/// nothing that there is. What is not such a line is not answered.
pub proof fn lemma_what_is_asked(w: Seq<Seq<char>>)
    ensures
        w.len() != 3 ==> classified(w) is Close,
        w.len() == 3 && !begins(w[2], "HTTP/1."@) ==> classified(w) is Close,
        w.len() == 3 && begins(w[2], "HTTP/1."@) ==> {
            let get = w[0] == "GET"@;
            let head = w[0] == "HEAD"@;
            &&& !get && !head ==> classified(w) is NotFound
            &&& get && w[1] == "/metrics"@ ==> classified(w) == (Response::Metrics { head: false })
            &&& head && w[1] == "/metrics"@ ==> classified(w) == (Response::Metrics { head: true })
            &&& get && w[1] == "/"@ ==> classified(w) == (Response::Landing { head: false })
            &&& head && w[1] == "/"@ ==> classified(w) == (Response::Landing { head: true })
            &&& w[1] != "/"@ && w[1] != "/metrics"@ ==> classified(w) is NotFound
        },
{
    reveal_strlit("GET");
    reveal_strlit("HEAD");
    reveal_strlit("/");
    reveal_strlit("/metrics");
    assert("GET"@.len() == 3);
    assert("HEAD"@.len() == 4);
    assert("/"@.len() == 1);
    assert("/metrics"@.len() == 8);
}

/// What is sent: the head with the length of the body in bytes, and the body, but for a request
/// of the head alone.
pub proof fn lemma_what_is_sent(body: Seq<char>, head: bool)
    ensures
        response_bytes(Response::Metrics { head }, body) == vstd::utf8::encode_utf8(
            "HTTP/1.1 "@ + "200 OK"@ + "\r\nContent-Type: "@
                + "application/openmetrics-text; version=1.0.0; charset=utf-8"@
                + "\r\nContent-Length: "@ + dec(vstd::utf8::encode_utf8(body).len())
                + "\r\nConnection: close\r\n\r\n"@ + if head {
                seq![]
            } else {
                body
            },
        ),
        ({
            let page = "<html><body><a href=\"/metrics\">/metrics</a></body></html>\n"@;
            response_bytes(Response::Landing { head }, body) == vstd::utf8::encode_utf8(
                "HTTP/1.1 "@ + "200 OK"@ + "\r\nContent-Type: "@ + "text/html; charset=utf-8"@
                    + "\r\nContent-Length: "@ + dec(vstd::utf8::encode_utf8(page).len())
                    + "\r\nConnection: close\r\n\r\n"@ + if head {
                    seq![]
                } else {
                    page
                },
            )
        }),
        response_bytes(Response::NotFound, body) == vstd::utf8::encode_utf8(
            "HTTP/1.1 "@ + "404 Not Found"@ + "\r\nContent-Type: "@ + "text/plain; charset=utf-8"@
                + "\r\nContent-Length: "@ + dec(vstd::utf8::encode_utf8("not found\n"@).len())
                + "\r\nConnection: close\r\n\r\n"@ + "not found\n"@,
        ),
        response_bytes(Response::Close, body).len() == 0,
        crate::supervisor::metrics::PORT == 23232,
{
    let e: Seq<char> = seq![];
    let a = crate::supervisor::metrics::head_text(
        "200 OK"@,
        "application/openmetrics-text; version=1.0.0; charset=utf-8"@,
        vstd::utf8::encode_utf8(body).len(),
    );
    let page = "<html><body><a href=\"/metrics\">/metrics</a></body></html>\n"@;
    let b = crate::supervisor::metrics::head_text(
        "200 OK"@,
        "text/html; charset=utf-8"@,
        vstd::utf8::encode_utf8(page).len(),
    );
    assert(a + e =~= a);
    assert(b + e =~= b);
}

// ---- the report ----

/// A time is told in its two largest units, the smaller one in two digits.
pub proof fn lemma_how_a_time_is_told(h: nat, m: nat, s: nat)
    requires
        m < 60,
        s < 60,
    ensures
        ({
            let t = duration_text(h * 3600 + m * 60 + s);
            &&& h > 0 ==> t == dec(h) + "h"@ + seq![digit(m / 10), digit(m % 10)] + "m"@
            &&& h == 0 && m > 0 ==> t == dec(m) + "m"@ + seq![digit(s / 10), digit(s % 10)] + "s"@
            &&& h == 0 && m == 0 ==> t == dec(s) + "s"@
        }),
{
    let t = h * 3600 + m * 60 + s;
    assert(t / 3600 == h && t % 3600 == m * 60 + s) by (nonlinear_arith)
        requires
            t == h * 3600 + m * 60 + s,
            0 <= m < 60,
            0 <= s < 60,
            0 <= h,
    ;
    assert(t % 60 == s) by (nonlinear_arith)
        requires
            t == h * 3600 + m * 60 + s,
            0 <= s < 60,
    ;
    assert((t % 3600) / 60 == m);
    lemma_two(m);
    lemma_two(s);
}

proof fn lemma_two(n: nat)
    requires
        n < 60,
    ensures
        crate::supervisor::report::two_digits(n) == seq![digit(n / 10), digit(n % 10)],
{
    reveal_strlit("0");
    if n < 10 {
        assert("0"@ + dec(n) =~= seq![digit(n / 10), digit(n % 10)]);
    } else {
        assert(dec(n / 10) == seq![digit(n / 10)]);
        assert(dec(n) =~= seq![digit(n / 10), digit(n % 10)]);
    }
}

/// What is told of a component: its state, how long it has run, and why it does not run here, or
/// how often it was restarted and how it last ended.
pub proof fn lemma_what_is_told_of_a_component(c: Component)
    ensures
        ({
            let up = match c.uptime_s {
                Some(u) => " "@ + duration_text(u as nat),
                None => seq![],
            };
            let detail = match (c.why, c.last_exit) {
                (Some(w), _) => w@,
                (None, Some(e)) => dec(c.restarts as nat) + " restarts"@ + ", last exit "@
                    + e.cause@ + " "@ + dec(e.s_ago as nat) + "s ago"@,
                (None, None) => dec(c.restarts as nat) + " restarts"@,
            };
            component_text(c) == c.name@ + " "@ + state_word(c.state) + up + " ("@ + detail + ")"@
        }),
{
    let head = c.name@ + " "@ + state_word(c.state);
    match c.uptime_s {
        Some(u) => {
            assert(head + " "@ + duration_text(u as nat) =~= head + (" "@ + duration_text(
                u as nat,
            )));
        },
        None => {
            assert(head + seq![] =~= head);
        },
    }
}

/// What is told of the watchdog: its result, how long ago it ticked, and what it adds.
pub proof fn lemma_what_is_told_of_the_watchdog(w: WatchdogInfo)
    ensures
        w.last_tick_s_ago is Some && w.detail is None ==> watchdog_text(w) == "watchdog "@
            + w.result@ + " "@ + dec(w.last_tick_s_ago->0 as nat) + "s ago"@,
        w.last_tick_s_ago is Some && w.detail is Some ==> watchdog_text(w) == "watchdog "@
            + w.result@ + " "@ + dec(w.last_tick_s_ago->0 as nat) + "s ago"@ + " ("@ + w.detail->0@
            + ")"@,
        w.last_tick_s_ago is None && w.detail is None ==> watchdog_text(w) == "watchdog "@
            + w.result@ + " (no tick yet)"@,
        w.last_tick_s_ago is None && w.detail is Some ==> watchdog_text(w) == "watchdog "@
            + w.result@ + " (no tick yet)"@ + " ("@ + w.detail->0@ + ")"@,
{
}

/// The line has every component in its order, then the watchdog, then a refused change where
/// there is one.
pub proof fn lemma_the_parts_of_the_line(c: Components)
    ensures
        ({
            let n = c.components@.len() as int;
            let p = line_parts(c);
            &&& forall|i: int|
                0 <= i < n ==> #[trigger] p[i] == component_text(c.components@[i])
            &&& p[n] == watchdog_text(c.watchdog)
            &&& c.supervisor.last_apply_error is None ==> p.len() == n + 1
            &&& c.supervisor.last_apply_error is Some ==> p.len() == n + 2 && p[n + 1]
                == "last apply: "@ + c.supervisor.last_apply_error->0@
        }),
{
}

// ---- the socket ----

/// What a request asks of the supervisor: its components, the last lines of one of them, or that
/// the declaration be applied again.
pub proof fn lemma_what_is_asked_of_the_supervisor(w: Seq<Seq<char>>, n: nat)
    ensures
        w.len() == 0 ==> verb_of(w) == Err::<VerbV, Seq<char>>("empty request"@),
        w.len() > 0 && w[0] == "components"@ ==> verb_of(w) == Ok::<VerbV, Seq<char>>(
            VerbV::Components,
        ),
        w.len() > 0 && w[0] == "reapply"@ ==> verb_of(w) == Ok::<VerbV, Seq<char>>(VerbV::Reapply),
        w.len() == 1 && w[0] == "log"@ ==> verb_of(w) == Err::<VerbV, Seq<char>>(
            "log needs a component name"@,
        ),
        w.len() == 2 && w[0] == "log"@ ==> verb_of(w) == Ok::<VerbV, Seq<char>>(
            VerbV::Log { name: w[1], n: 50 },
        ),
        w.len() > 2 && w[0] == "log"@ && w[2] == dec(n) && n <= 200 ==> verb_of(w) == Ok::<
            VerbV,
            Seq<char>,
        >(VerbV::Log { name: w[1], n: n as int }),
        w.len() > 2 && w[0] == "log"@ && w[2] == dec(n) && 200 < n <= usize::MAX ==> verb_of(w)
            == Ok::<VerbV, Seq<char>>(VerbV::Log { name: w[1], n: 200 }),
        w.len() > 2 && w[0] == "log"@ && crate::text::parse_uint(w[2], usize::MAX as nat) is None
            ==> verb_of(w) == Err::<VerbV, Seq<char>>("log: "@ + w[2] + " is not a line count"@),
        w.len() > 0 && w[0] != "components"@ && w[0] != "reapply"@ && w[0] != "log"@ ==> verb_of(w)
            == Err::<VerbV, Seq<char>>("unknown request: "@ + w[0]),
{
    reveal_strlit("components");
    reveal_strlit("reapply");
    reveal_strlit("log");
    assert("components"@.len() == 10);
    assert("reapply"@.len() == 7);
    assert("log"@.len() == 3);
    if n <= usize::MAX {
        lemma_parse_dec(n, usize::MAX as nat);
    }
}

} // verus!
