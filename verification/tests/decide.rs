//! Where a bond belongs, and when a wire counts as reachable.

use cfab::prober::decide::{decide, skipped_for_carrier, Candidate, Hysteresis, HYSTERESIS};


fn cands(spec: &[(&str, &str, bool)]) -> Vec<Candidate> {
    spec.iter()
        .map(|(ifname, wire, reachable)| Candidate {
            ifname: ifname.to_string(),
            wire: wire.to_string(),
            reachable: *reachable,
            carrier: true,
            link_up: true,
        })
        .collect()
}

fn prefs(order: &[&str]) -> Vec<String> {
    order.iter().map(|s| s.to_string()).collect()
}

#[test]
fn a_wire_goes_unreachable_only_after_three_consecutive_misses() {
    let mut h = Hysteresis::default();
    assert!(h.reachable(), "a wire starts presumed reachable");
    assert!(h.observe(false));
    assert!(h.observe(false));
    assert!(!h.observe(false), "the third consecutive miss flips it");
}

#[test]
fn one_reply_resets_the_miss_streak() {
    let mut h = Hysteresis::default();
    h.observe(false);
    h.observe(false);
    assert!(h.observe(true), "still reachable");
    assert!(h.observe(false));
    assert!(h.observe(false));
    assert!(
        h.reachable(),
        "the streak restarted, so two misses is not three"
    );
    assert!(!h.observe(false));
}

#[test]
fn a_dead_wire_comes_back_only_after_three_consecutive_replies() {
    let mut h = Hysteresis::default();
    for _ in 0..HYSTERESIS {
        h.observe(false);
    }
    assert!(!h.reachable());
    assert!(!h.observe(true));
    assert!(!h.observe(true));
    assert!(h.observe(true), "the third consecutive reply flips it back");
}

#[test]
fn one_miss_resets_the_recovery_streak() {
    let mut h = Hysteresis::default();
    for _ in 0..HYSTERESIS {
        h.observe(false);
    }
    h.observe(true);
    h.observe(true);
    h.observe(false);
    h.observe(true);
    h.observe(true);
    assert!(!h.reachable(), "the recovery streak restarted");
}

#[test]
fn nothing_reachable_never_moves_the_bond() {
    let c = cands(&[
        ("cfab-gw249-a", "eth9", false),
        ("cfab-gw249-b", "eth1", false),
        ("cfab-gw249-c", "eth0", false),
    ]);
    assert_eq!(
        decide(Some("cfab-gw249-c"), &c, &prefs(&["eth9", "eth1", "eth0"])),
        None
    );
    assert_eq!(decide(None, &c, &prefs(&["eth9", "eth1", "eth0"])), None);
}

#[test]
fn an_active_slave_on_the_best_reachable_wire_stays() {
    let c = cands(&[
        ("cfab-gw249-a", "eth9", true),
        ("cfab-gw249-b", "eth1", true),
    ]);
    assert_eq!(
        decide(Some("cfab-gw249-a"), &c, &prefs(&["eth9", "eth1"])),
        None
    );
}

#[test]
fn an_unreachable_active_slave_moves_to_the_best_reachable_one() {
    let c = cands(&[
        ("cfab-gw249-a", "eth9", false),
        ("cfab-gw249-b", "eth1", true),
        ("cfab-gw249-c", "eth0", true),
    ]);
    assert_eq!(
        decide(Some("cfab-gw249-a"), &c, &prefs(&["eth9", "eth1", "eth0"])),
        Some("cfab-gw249-b".to_string()),
        "the preference order picks the backup, not the enslave order"
    );
}

/// The order that decides the backup is the zone's declared preference,
/// so a `prefs` row that puts the slow wire last is honored here too.
#[test]
fn the_backup_is_chosen_by_preference_not_by_slave_order() {
    let c = cands(&[
        ("cfab-gw249-a", "eth9", false),
        ("cfab-gw249-b", "eth1", true),
        ("cfab-gw249-c", "eth0", true),
    ]);
    assert_eq!(
        decide(Some("cfab-gw249-a"), &c, &prefs(&["eth9", "eth0", "eth1"])),
        Some("cfab-gw249-c".to_string())
    );
}

#[test]
fn a_better_preferred_wire_coming_back_moves_ingress_home() {
    let c = cands(&[
        ("cfab-gw249-a", "eth9", true),
        ("cfab-gw249-b", "eth1", true),
    ]);
    assert_eq!(
        decide(Some("cfab-gw249-b"), &c, &prefs(&["eth9", "eth1"])),
        Some("cfab-gw249-a".to_string())
    );
}

#[test]
fn a_worse_preferred_wire_coming_back_does_not_move_a_live_bond() {
    let c = cands(&[
        ("cfab-gw249-a", "eth9", true),
        ("cfab-gw249-b", "eth1", true),
    ]);
    assert_eq!(
        decide(Some("cfab-gw249-a"), &c, &prefs(&["eth9", "eth1"])),
        None
    );
}

/// A bond with no active slave, and a bond whose active slave is a stranger, are both bonds
/// we own and are not driving: claim them for the best reachable wire.
#[test]
fn no_active_slave_or_a_stranger_claims_the_best_reachable_wire() {
    let c = cands(&[
        ("cfab-gw249-a", "eth9", true),
        ("cfab-gw249-b", "eth1", true),
    ]);
    let p = prefs(&["eth9", "eth1"]);
    assert_eq!(decide(None, &c, &p), Some("cfab-gw249-a".to_string()));
    assert_eq!(
        decide(Some("enp3s0"), &c, &p),
        Some("cfab-gw249-a".to_string())
    );
}

/// A wire the preference order does not name must not outrank one it does, and two such
/// wires must resolve the same way twice — a decision that flapped would move the bond
/// every tick.
#[test]
fn a_wire_missing_from_the_preference_order_sorts_last_and_stably() {
    let c = cands(&[
        ("cfab-gw249-a", "usb0", true),
        ("cfab-gw249-b", "usb1", true),
        ("cfab-gw249-c", "eth0", true),
    ]);
    let p = prefs(&["eth0"]);
    assert_eq!(decide(None, &c, &p), Some("cfab-gw249-c".to_string()));
    let only_unranked = cands(&[
        ("cfab-gw249-a", "usb0", true),
        ("cfab-gw249-b", "usb1", true),
    ]);
    assert_eq!(
        decide(None, &only_unranked, &p),
        Some("cfab-gw249-a".to_string())
    );
    assert_eq!(decide(Some("cfab-gw249-a"), &only_unranked, &p), None);
}

/// The better wire has no carrier: the bond stays, and the wire is named.
#[test]
fn a_better_wire_without_carrier_is_skipped_by_name() {
    let mut c = cands(&[("p-a", "eth9", true), ("p-b", "eth1", true)]);
    c[0].carrier = false;
    let p = prefs(&["eth9", "eth1"]);
    assert_eq!(decide(Some("p-b"), &c, &p), None);
    assert_eq!(skipped_for_carrier(Some("p-b"), &c, &p), Some(0));
    assert_eq!(skipped_for_carrier(Some("p-a"), &c, &p), None);
    assert_eq!(skipped_for_carrier(None, &c, &p), None);
}

/// A port whose link the bonding driver does not call up cannot take the bond.
#[test]
fn a_port_whose_link_is_not_up_is_no_target() {
    let mut c = cands(&[("p-a", "eth9", true), ("p-b", "eth1", false)]);
    c[0].link_up = false;
    let p = prefs(&["eth9", "eth1"]);
    assert_eq!(decide(Some("p-b"), &c, &p), None);
    c[0].link_up = true;
    assert_eq!(decide(Some("p-b"), &c, &p), Some("p-a".to_string()));
}

/// What was heard makes a wire live at once, and a wire that is asked needs one miss to die.
#[test]
fn hearing_revives_at_once_and_a_precharged_wire_dies_at_the_next_miss() {
    let mut h = Hysteresis::default();
    for _ in 0..HYSTERESIS {
        h.observe(false);
    }
    assert!(!h.reachable());
    h.heard();
    assert!(h.reachable());
    h.precharge();
    assert!(h.reachable());
    assert!(!h.observe(false));
}
