//! The supervisor: its children, its document, its sockets.

use cfab::error::Error;
use cfab::json::Json;
use cfab::sock_frame::{answered, error_reply, reclaim, request};
use cfab::supervisor::child::{check_parent, Child, ExitCause, State, BACKOFF};
use cfab::supervisor::lock::{holder, Held};
use cfab::supervisor::metrics::{respond, write_response, Response, LANDING_BODY, MAX_REQUEST};
use cfab::supervisor::report::{
    duration, render_line, Component, Components, SupervisorInfo, WatchdogInfo,
};
use cfab::supervisor::sock::{log_answer, read_request, reapply_answer, Verb, LOG_DEFAULT, LOG_MAX};
use cfab::time::Instant;

fn at(secs: u64) -> Instant {
    Instant { ns: secs * 1_000_000_000 }
}

// ---- a child ----

#[test]
fn any_exit_restarts_while_wanted_and_the_counter_never_resets() {
    let t0 = at(100);
    let mut c = Child::new("engine");
    c.spawned(10, t0, true);
    c.became_ready();
    assert_eq!(c.state, State::Running);
    // A CLEAN exit is still a fault while the supervisor wants it running.
    let again = c.exited("exit 0".into(), t0).unwrap();
    assert_eq!(c.state, State::Restarting);
    assert_eq!(again.ns - t0.ns, BACKOFF);
    assert_eq!(c.restarts, 1);
    for i in 2..=6 {
        c.spawned(10 + i as u32, t0, true);
        c.exited("signal SIGKILL".into(), t0);
        assert_eq!(c.restarts, i, "the restart counter must never reset");
    }
}

#[test]
fn the_last_exit_age_is_measured_when_it_is_read() {
    let t0 = at(100);
    let mut c = Child::new("engine");
    c.spawned(10, t0, false);
    c.exited("signal SIGKILL".into(), t0);
    let e = c.last_exit(at(190)).unwrap();
    assert_eq!(e.cause, "signal SIGKILL");
    assert_eq!(e.s_ago, 90);
}

#[test]
fn an_unwanted_child_is_not_restarted() {
    let t0 = at(100);
    let mut c = Child::new("shape-daemon");
    c.spawned(11, t0, false);
    assert_eq!(c.state, State::Running, "no readiness protocol: running on spawn");
    c.want = false;
    assert!(c.exited("exit 0".into(), t0).is_none());
    assert_eq!(c.state, State::Stopped);
    assert_eq!(c.restarts, 0, "a deliberate stop is not a restart");
}

#[test]
fn an_engine_that_never_becomes_ready_stays_starting() {
    let mut c = Child::new("engine");
    c.spawned(12, at(100), true);
    assert_eq!(c.state, State::Starting);
}

#[test]
fn the_log_ring_keeps_the_last_200_lines_and_truncates_each() {
    let mut c = Child::new("engine");
    for i in 0..250 {
        c.push_log(&format!("line {i}"));
    }
    c.push_log(&"x".repeat(5000));
    let tail = c.log_tail(500);
    assert_eq!(tail.len(), 200);
    assert_eq!(tail[0], "line 51");
    assert_eq!(tail[199].len(), 2048);
}

#[test]
fn a_line_is_cut_between_characters() {
    let mut c = Child::new("engine");
    c.push_log(&"é".repeat(2000));
    let tail = c.log_tail(1);
    assert_eq!(tail[0].len(), 2048);
    c.push_log(&format!("x{}", "é".repeat(2000)));
    assert_eq!(c.log_tail(1)[0].len(), 2047);
    assert_eq!(c.log_tail(0), Vec::<String>::new());
}

#[test]
fn a_child_counts_its_time_from_its_last_start() {
    let mut c = Child::new("engine");
    assert_eq!((c.pid(), c.uptime_s(at(5))), (None, None));
    c.spawned(7, at(10), false);
    assert_eq!((c.pid(), c.uptime_s(at(75))), (Some(7), Some(65)));
    c.exited("exit 1".into(), at(80));
    assert_eq!((c.pid(), c.uptime_s(at(90))), (None, None));
    let s = Child::stopped("conf-sync", "not clustered");
    assert_eq!(s.state.as_str(), "stopped");
    assert_eq!(s.why_stopped.as_deref(), Some("not clustered"));
}

#[test]
fn a_vanished_supervisor_is_its_own_exit_code() {
    assert_eq!(
        check_parent(Some(u32::MAX), 1).unwrap_err().to_string(),
        "FATAL: the supervisor vanished at spawn (CFAB_SUPERVISOR_PID=4294967295, parent is now 1)"
    );
    assert!(check_parent(Some(1), 1).is_ok());
}

#[test]
fn no_supervisor_in_the_environment_arms_nothing() {
    assert!(check_parent(None, 1).is_ok());
}

// ---- the document ----

fn component(name: &str, state: State) -> Component {
    Component {
        name: name.to_string(),
        state,
        pid: None,
        uptime_s: None,
        restarts: 0,
        last_exit: None,
        why: None,
    }
}

/// One running engine, one crash-looping shape-daemon and a conf-sync that this member does not
/// run.
fn fixture() -> Components {
    let mut engine = component("engine", State::Running);
    engine.pid = Some(1240);
    engine.uptime_s = Some(3720);
    let mut shape = component("shape-daemon", State::Restarting);
    shape.restarts = 3;
    shape.last_exit = Some(ExitCause {
        cause: "signal SIGKILL".to_string(),
        s_ago: 1,
    });
    let mut sync = component("conf-sync", State::Stopped);
    sync.why = Some("not clustered".to_string());
    Components {
        supervisor: SupervisorInfo {
            pid: 1234,
            uptime_s: 3721,
            applying: false,
            applies: 3,
            last_apply_error: None,
        },
        components: vec![engine, shape, sync],
        watchdog: WatchdogInfo {
            last_tick_s_ago: Some(2),
            result: "ok".to_string(),
            detail: None,
        },
        ingress: vec![],
    }
}

#[test]
fn the_components_line_names_every_component_including_a_stopped_one() {
    assert_eq!(
        render_line(&fixture()),
        "components: engine running 1h02m (0 restarts) | shape-daemon restarting (3 restarts, \
         last exit signal SIGKILL 1s ago) | conf-sync stopped (not clustered) | watchdog ok 2s ago"
    );
}

#[test]
fn a_refused_reload_is_named_on_the_components_line() {
    let mut c = fixture();
    c.supervisor.last_apply_error = Some(
        "reload refused, keeping the running fabric: /etc/cfab/fabric.toml: unknown key"
            .to_string(),
    );
    let line = render_line(&c);
    assert!(
        line.ends_with(
            "| last apply: reload refused, keeping the running fabric: \
             /etc/cfab/fabric.toml: unknown key"
        ),
        "{line}"
    );
}

#[test]
fn a_duration_is_shown_in_its_largest_two_units() {
    assert_eq!(duration(0), "0s");
    assert_eq!(duration(59), "59s");
    assert_eq!(duration(60), "1m00s");
    assert_eq!(duration(3599), "59m59s");
    assert_eq!(duration(3600), "1h00m");
    assert_eq!(duration(3721), "1h02m");
}

// ---- the supervisor's socket ----

#[test]
fn a_request_is_one_of_three_verbs() {
    assert_eq!(read_request("components").unwrap(), Verb::Components);
    assert_eq!(read_request("reapply").unwrap(), Verb::Reapply);
    let log = |n| Verb::Log { name: "engine".to_string(), n };
    assert_eq!(read_request("log engine").unwrap(), log(LOG_DEFAULT));
    assert_eq!(read_request("log engine 2").unwrap(), log(2));
    assert_eq!(read_request("log engine 5000").unwrap(), log(LOG_MAX));
    assert_eq!(
        read_request("nonsense").unwrap_err().to_string(),
        "FATAL: unknown request: nonsense"
    );
}

#[test]
fn the_answers_of_the_supervisor() {
    let lines = Some(vec!["two".to_string(), "three".to_string()]);
    let want = Json::parse(r#"{"lines": ["two", "three"]}"#).unwrap();
    assert!(log_answer("engine", &lines).unwrap().same(&want));
    assert_eq!(
        log_answer("nosuch", &None).unwrap_err().to_string(),
        "FATAL: unknown component: nosuch"
    );
    assert!(reapply_answer(&Ok(())).same(&Json::parse(r#"{"ok": true}"#).unwrap()));
    let failed = reapply_answer(&Err(Error::fatal("wire eno9 absent")));
    let want = Json::parse(r#"{"ok": false, "error": "FATAL: wire eno9 absent"}"#).unwrap();
    assert!(failed.same(&want));
}

// ---- the frame of every socket ----

#[test]
fn a_stale_path_is_removed_and_a_live_one_refused() {
    assert!(!reclaim(false, false, "/run/o.sock", "owner").unwrap());
    assert!(reclaim(true, false, "/run/o.sock", "owner").unwrap());
    assert_eq!(
        reclaim(true, true, "/run/o.sock", "supervisor").unwrap_err().to_string(),
        "FATAL: another supervisor is running (answering on /run/o.sock); \
         stop it first (cfab down)"
    );
    assert!(answered(Some(1)));
    assert!(!answered(Some(0)));
    assert!(!answered(None));
}

#[test]
fn a_request_is_its_line_without_the_line_feed() {
    assert_eq!(request("components\n"), "components");
    assert_eq!(request(" a b \n\n"), " a b ");
    assert_eq!(request(""), "");
    let e = error_reply(&Error::fatal("no"));
    assert!(e.same(&Json::parse(r#"{"error": "FATAL: no"}"#).unwrap()));
}

#[test]
fn the_holder_of_a_lock_is_the_number_in_it() {
    assert_eq!(holder(&Some("1234\n".to_string())), Held { pid: Some(1234) });
    for none in ["", "x", "-1", "4294967296"] {
        assert_eq!(holder(&Some(none.to_string())), Held { pid: None }, "{none}");
    }
    assert_eq!(holder(&None), Held { pid: None });
}

// ---- the exporter ----

#[test]
fn get_metrics_10_and_11() {
    assert!(matches!(
        respond(b"GET /metrics HTTP/1.1\r\nHost: x\r\n\r\n"),
        Response::Metrics { head: false }
    ));
    assert!(matches!(
        respond(b"GET /metrics HTTP/1.0\r\n\r\n"),
        Response::Metrics { head: false }
    ));
    assert!(matches!(
        respond(b"HEAD /metrics HTTP/1.1\r\n\r\n"),
        Response::Metrics { head: true }
    ));
}

#[test]
fn landing_and_404() {
    assert!(matches!(
        respond(b"GET / HTTP/1.1\r\n\r\n"),
        Response::Landing { head: false }
    ));
    assert!(matches!(
        respond(b"HEAD / HTTP/1.1\r\n\r\n"),
        Response::Landing { head: true }
    ));
    // Query strings are not interpreted: the target is not the path.
    assert!(matches!(
        respond(b"GET /metrics?x=1 HTTP/1.1\r\n\r\n"),
        Response::NotFound
    ));
    assert!(matches!(
        respond(b"GET /other HTTP/1.1\r\n\r\n"),
        Response::NotFound
    ));
    assert!(matches!(
        respond(b"POST /metrics HTTP/1.1\r\n\r\n"),
        Response::NotFound
    ));
}

#[test]
fn garbage_and_oversize_close() {
    assert!(matches!(respond(b"\x16\x03\x01\x00"), Response::Close)); // a TLS hello
    assert!(matches!(respond(b"GET /metrics"), Response::Close)); // no terminator yet
    assert!(matches!(respond(&vec![b'A'; 2048]), Response::Close));
    // A request line longer than the cap, terminator included, is still refused.
    let mut long = vec![b'A'; MAX_REQUEST + 8];
    long.extend_from_slice(b"\r\n\r\n");
    assert!(matches!(respond(&long), Response::Close));
    // Bare LF is a terminator too.
    assert!(matches!(
        respond(b"GET /metrics HTTP/1.1\n\n"),
        Response::Metrics { head: false }
    ));
    // Not UTF-8.
    assert!(matches!(
        respond(b"GET /\xff\xfe HTTP/1.1\r\n\r\n"),
        Response::Close
    ));
    // Wrong protocol on a three-token line.
    assert!(matches!(
        respond(b"GET /metrics HTTP/2.0\r\n\r\n"),
        Response::Close
    ));
    // Wrong token count.
    assert!(matches!(respond(b"GET /metrics\r\n\r\n"), Response::Close));
}

#[test]
fn only_the_request_line_of_a_request_is_read() {
    let plain = respond(b"GET /metrics HTTP/1.1\r\n\r\n");
    assert_eq!(respond(b"GET /metrics HTTP/1.1\r\nA: b\r\nC: d\r\n\r\n"), plain);
    assert_eq!(respond(b"GET /metrics HTTP/1.1\r\n\r\nGET / HTTP/1.1\r\n\r\n"), plain);
    // Characters beyond ASCII are read as what they are.
    assert_eq!(respond("GET /é HTTP/1.1\r\n\r\n".as_bytes()), Response::NotFound);
}

#[test]
fn response_bytes() {
    let b = write_response(&Response::Metrics { head: false }, "x 1\n");
    let s = String::from_utf8(b).unwrap();
    assert!(s.starts_with("HTTP/1.1 200 OK\r\n"));
    assert!(s.contains(
        "Content-Type: application/openmetrics-text; version=1.0.0; charset=utf-8\r\n"
    ));
    assert!(s.contains("Content-Length: 4\r\n"));
    assert!(s.contains("Connection: close\r\n"));
    assert!(s.ends_with("\r\n\r\nx 1\n"));

    // HEAD sends the headers the GET would have sent, and no body.
    let h = String::from_utf8(write_response(&Response::Metrics { head: true }, "x 1\n")).unwrap();
    assert!(h.starts_with("HTTP/1.1 200 OK\r\n"));
    assert!(h.contains("Content-Length: 4\r\n"));
    assert!(h.ends_with("\r\n\r\n"));

    let l = String::from_utf8(write_response(&Response::Landing { head: false }, "")).unwrap();
    assert!(l.starts_with("HTTP/1.1 200 OK\r\n"));
    assert!(l.contains("Content-Type: text/html; charset=utf-8\r\n"));
    assert!(l.contains(&format!("Content-Length: {}\r\n", LANDING_BODY.len())));
    assert!(l.ends_with(LANDING_BODY));
    let lh = String::from_utf8(write_response(&Response::Landing { head: true }, "")).unwrap();
    assert!(lh.contains(&format!("Content-Length: {}\r\n", LANDING_BODY.len())));
    assert!(lh.ends_with("\r\n\r\n"));

    assert!(String::from_utf8(write_response(&Response::NotFound, ""))
        .unwrap()
        .starts_with("HTTP/1.1 404 Not Found\r\n"));
    assert!(write_response(&Response::Close, "").is_empty());
}
