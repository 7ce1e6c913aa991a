//! What the program's commands decide and print.

use cfab::cli::{
    config_path, member_name, no_config_line, unreadable, watchdog_ok, watchdog_report, wire_is_up,
    WatchdogReport,
};

fn some(s: &str) -> Option<String> {
    Some(s.to_string())
}

#[test]
fn the_no_config_down_line_names_the_installed_path() {
    assert_eq!(
        no_config_line(&None, "fabric.conf"),
        "DOWN (no /etc/cfab/fabric.conf)"
    );
    // An explicitly asked-for path is quoted back exactly, wherever it is.
    assert_eq!(
        no_config_line(&some("/srv/x.conf"), "/srv/x.conf"),
        "DOWN (no /srv/x.conf)"
    );
    // So is a resolved absolute path with no --config (the beside-binary / /etc arms).
    assert_eq!(
        no_config_line(&None, "/etc/cfab/fabric.conf"),
        "DOWN (no /etc/cfab/fabric.conf)"
    );
}

#[test]
fn the_declaration_of_last_resort_is_told_by_its_components() {
    for p in ["fabric.conf/", "fabric.conf//", "fabric.conf/.", "fabric.conf/./"] {
        assert_eq!(no_config_line(&None, p), "DOWN (no /etc/cfab/fabric.conf)", "{p}");
        assert_eq!(no_config_line(&some(p), p), format!("DOWN (no {p})"));
    }
    for p in ["./fabric.conf", "/fabric.conf", "fabric.conf/..", "fabric.conf/x", "", "x/fabric.conf"] {
        assert_eq!(no_config_line(&None, p), format!("DOWN (no {p})"));
    }
}

#[test]
fn the_declaration_is_looked_for_in_order() {
    let (asked, beside) = (some("/a"), some("/b"));
    assert_eq!(config_path(&asked, &beside, true), "/a");
    assert_eq!(config_path(&None, &beside, true), "/b");
    assert_eq!(config_path(&None, &None, true), "/etc/cfab/fabric.conf");
    assert_eq!(config_path(&None, &None, false), "fabric.conf");
    assert_eq!(
        unreadable("/a", "No such file").to_string(),
        "FATAL: cannot read /a: No such file"
    );
}

#[test]
fn the_member_is_named_by_the_flag_the_environment_or_the_host() {
    let host: Result<String, String> = Ok("pve3\n".to_string());
    assert_eq!(member_name(&some("pve1"), &some("pve2"), &host).unwrap(), "pve1");
    assert_eq!(member_name(&None, &some("pve2"), &host).unwrap(), "pve2");
    assert_eq!(member_name(&None, &some(""), &host).unwrap(), "pve3");
    assert_eq!(member_name(&None, &None, &host).unwrap(), "pve3");
    assert_eq!(
        member_name(&None, &None, &Err("gone".to_string())).unwrap_err().to_string(),
        "FATAL: cannot read hostname: gone"
    );
}

#[test]
fn a_wire_is_up_by_the_list_or_by_its_carrier() {
    assert!(wire_is_up(&some("eth0 eth1"), &None, "eth1"));
    assert!(!wire_is_up(&some("eth0 eth1"), &some("1"), "eth9"));
    assert!(wire_is_up(&None, &some("1\n"), "eth9"));
    assert!(!wire_is_up(&None, &some("0\n"), "eth9"));
    // Nothing is known of it: it is not demoted for that.
    assert!(wire_is_up(&None, &None, "eth9"));
}

#[test]
fn the_watchdog_says_everything_that_it_did() {
    let mut r = WatchdogReport {
        restored: vec!["a".to_string()],
        downed: vec![],
        unrestored: vec![],
        resolved: some("iptables"),
        blocked: vec![],
        failed: None,
    };
    assert_eq!(
        watchdog_report(&r),
        vec![
            "cfab fwd-watchdog: restored: a",
            "cfab fwd-watchdog: installed foreign-stack accept: iptables",
        ]
    );
    assert!(watchdog_ok(&r));
    r.failed = some("policy gone");
    r.downed = vec!["b".to_string()];
    assert_eq!(
        watchdog_report(&r)[1..],
        [
            "cfab fwd-watchdog: ACTUATED: b",
            "cfab fwd-watchdog: installed foreign-stack accept: iptables",
            "cfab fwd-watchdog: FAIL-CLOSED: policy gone",
        ]
    );
    assert!(!watchdog_ok(&r));
}
