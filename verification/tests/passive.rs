//! What silence on a wire means.

use cfab::prober::passive::{verdicts, Evidence, Verdict, Windows};
use cfab::time::{Duration, Instant};

/// An arbitrary point in time.
const T0: Instant = Instant {
    ns: 1_000_000_000_000,
};


/// The testbed's `[ospf]`: hello 1 s, dead 3 s.
fn w() -> Windows {
    Windows::from_ospf(1, 3)
}

fn at(base: Instant, ms: u64) -> Instant {
    base.after(Duration::from_millis(ms))
}

#[test]
fn the_windows_are_derived_from_the_declared_ospf_timers() {
    assert_eq!(w().active, Duration::from_millis(1500));
    assert_eq!(w().backup, Duration::from_secs(3));
    assert_eq!(w().grace, Duration::from_secs(3));
    let slow = Windows::from_ospf(10, 40);
    assert_eq!(slow.active, Duration::from_secs(15));
    assert_eq!(slow.backup, Duration::from_secs(40));
}

/// The invariant the whole design rests on: suspicion plus one confirming tick must land
/// inside the dead interval, or OSPF has already given up before the prober decides.
#[test]
fn a_move_fits_inside_the_dead_interval_on_the_example_timers() {
    let tick = Duration::from_millis(500);
    assert!(w().move_fits_inside_dead(tick, 3), "1.5 s + 0.5 s ≤ 3 s");
    let tight = Windows::from_ospf(1, 2);
    assert!(
        tight.move_fits_inside_dead(tick, 2),
        "1.5 s + 0.5 s is exactly 2 s — the last declaration that fits"
    );
    let too_tight = Windows::from_ospf(2, 2);
    assert!(
        !too_tight.move_fits_inside_dead(tick, 2),
        "hello 2 s with dead 2 s leaves no room to decide anything"
    );
}

/// A hello from a peer within a hello and a half is the whole of the steady state.
#[test]
fn a_recent_peer_hello_is_good_on_either_role() {
    let t0 = T0;
    for active in [true, false] {
        let e = Evidence {
            active,
            peer: Some(t0),
            ..Evidence::default()
        };
        assert_eq!(
            verdicts(at(t0, 1400), &vec![e], &w(), true),
            vec![Verdict::Good]
        );
    }
}

/// The reflection is a BACKUP port's evidence only. On the active port it is never
/// expected — our own hello leaves on that port and does not come back to it — so its
/// presence must not make the active port look good, and its absence is never a miss.
#[test]
fn our_reflection_counts_for_a_backup_port_and_never_for_the_active_one() {
    let t0 = T0;
    let backup = Evidence {
        active: false,
        reflected: Some(t0),
        ..Evidence::default()
    };
    let active = Evidence {
        active: true,
        reflected: Some(t0),
        ..Evidence::default()
    };
    assert_eq!(
        verdicts(at(t0, 1000), &vec![backup], &w(), true),
        vec![Verdict::Good]
    );
    assert_ne!(
        verdicts(at(t0, 1000), &vec![active], &w(), true),
        vec![Verdict::Good],
        "the active port cannot be judged by a frame it can never receive"
    );
}

/// A backup gets the full dead interval before it is suspected; the active port gets a
/// hello and a half.
#[test]
fn the_two_roles_are_suspected_on_different_clocks() {
    let t0 = T0;
    // The active port is silent; a backup hears a peer, so there is somewhere to go.
    let ports = vec![
        Evidence {
            active: true,
            peer: Some(t0),
            ..Evidence::default()
        },
        Evidence {
            active: false,
            peer: Some(t0),
            ..Evidence::default()
        },
    ];
    let mut late = ports.clone();
    late[1].peer = Some(at(t0, 2000));
    assert_eq!(
        verdicts(at(t0, 2200), &late, &w(), true),
        vec![Verdict::Suspect, Verdict::Good],
        "the active port is 2.2 s silent, past its 1.5 s"
    );
    let mut backup_silent = ports.clone();
    backup_silent[0].peer = Some(at(t0, 2000));
    assert_eq!(
        verdicts(at(t0, 2200), &backup_silent, &w(), true),
        vec![Verdict::Good, Verdict::Good],
        "a backup 2.2 s silent is still good: its window is the 3 s dead interval, and the \
         same silence on the active port above was already suspect"
    );
    assert_eq!(
        verdicts(at(t0, 3200), &backup_silent, &w(), true),
        vec![Verdict::Good, Verdict::Suspect]
    );
}

/// Silence vs absence: with nobody hearing anything, the fault is not per-wire. No wire is
/// suspected, so nothing is asked and nothing is moved.
#[test]
fn a_leg_where_no_port_hears_anyone_is_quiet_not_suspect() {
    let t0 = T0;
    let ports = vec![
        Evidence {
            active: true,
            peer: Some(t0),
            ..Evidence::default()
        },
        Evidence {
            active: false,
            peer: Some(t0),
            ..Evidence::default()
        },
    ];
    assert_eq!(
        verdicts(at(t0, 4000), &ports, &w(), true),
        vec![Verdict::Quiet, Verdict::Quiet]
    );
}

/// A port that has never heard anything at all is in the same position as one that has
/// gone silent — it is not quietly assumed good.
#[test]
fn a_port_that_has_never_heard_anything_is_judged_too() {
    let t0 = T0;
    let ports = vec![
        Evidence {
            active: true,
            peer: Some(at(t0, 3900)),
            ..Evidence::default()
        },
        Evidence {
            active: false,
            ..Evidence::default()
        },
    ];
    assert_eq!(
        verdicts(at(t0, 4000), &ports, &w(), true),
        vec![Verdict::Good, Verdict::Suspect]
    );
}

/// Grace: a port that has just come back (a re-enumerated USB NIC) or has just been
/// promoted cannot be suspected before a hello has had time to arrive on it.
#[test]
fn a_port_in_its_grace_period_is_never_suspect() {
    let t0 = T0;
    let ports = vec![
        Evidence {
            active: true,
            peer: Some(at(t0, 3900)),
            ..Evidence::default()
        },
        Evidence {
            active: false,
            grace_until: Some(at(t0, 5000)),
            ..Evidence::default()
        },
    ];
    assert_eq!(
        verdicts(at(t0, 4000), &ports, &w(), true),
        vec![Verdict::Good, Verdict::Watch]
    );
    assert_eq!(
        verdicts(at(t0, 5100), &ports, &w(), true),
        vec![Verdict::Good, Verdict::Suspect],
        "and is judged normally once the grace ends"
    );
}

/// A member alone in a zone's universal segment has no peers to hear. It still runs the leg
/// — its own reflection judges the backups, and the bond can still be on the wrong wire —
/// but it never suspects a wire of losing peers it does not have.
#[test]
fn a_lone_member_never_suspects_a_wire() {
    let t0 = T0;
    let ports = vec![
        Evidence {
            active: true,
            ..Evidence::default()
        },
        Evidence {
            active: false,
            reflected: Some(at(t0, 3900)),
            ..Evidence::default()
        },
    ];
    assert_eq!(
        verdicts(at(t0, 4000), &ports, &w(), false),
        vec![Verdict::Watch, Verdict::Good],
        "the reflection still marks the backup good; nothing is ever suspected"
    );
}
