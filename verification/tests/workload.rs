//! The announcers of the workload gateways.

use cfab::supervisor::workload::{
    hex_mac, mac_unreadable, next_due, on_neigh, NeighPlan, NeighSignal, Trigger, Uplink, Workloads,
};
use cfab::time::Instant;

const MAC: [u8; 6] = [0x00, 0x11, 0x22, 0x33, 0x44, 0x55];

const EPERM: &str = "Operation not permitted (os error 1)";

const NO_NETDEV: &str = "FATAL: cfab-work-vms: no link-layer address (no netdev?)";

fn list(names: &[&str]) -> Vec<String> {
    names.iter().map(|n| n.to_string()).collect()
}

fn uplink(ports: &[&str]) -> Uplink {
    Uplink {
        bridge: "primary".to_string(),
        vid: 3,
        ports: list(ports),
    }
}

fn opens() -> Result<(), String> {
    Ok(())
}

/// A machine that talks behind one of the bridge's ports.
const VM: (&str, &str) = ("tap100i0", "02:cf:ab:00:00:01");

/// The one row of the member, its bursts and the journal.
struct Rig {
    w: Workloads,
    log: Vec<String>,
    bursts: u64,
    announces: u64,
}

impl Rig {
    fn new(opened: Result<(), String>) -> Rig {
        Rig {
            w: Workloads::start(true, &opened),
            log: vec![],
            bursts: 0,
            announces: 0,
        }
    }

    /// A member on which the row is up from the start.
    fn started(opened: Result<(), String>) -> Rig {
        let mut r = Rig::new(opened);
        r.try_start(&[], Ok((uplink(&["eth0"]), MAC)));
        r
    }

    fn try_start(&mut self, deferred: &[&str], read: Result<(Uplink, [u8; 6]), String>) {
        if !self.w.pending(1) {
            return;
        }
        if self.w.should_start("vms", &list(deferred), &mut self.log) {
            self.w.started("vms", "cfab-work-vms", read, &mut self.log);
        }
    }

    /// One beacon: the address is read, then the frame goes out.
    fn beacon(&mut self, mac: Result<[u8; 6], String>, sent: Result<bool, String>) {
        if self.w.rows[0].refresh_mac(&mac, &mut self.log) {
            self.bursts += 1;
        }
        self.w.rows[0].announced(&sent, &mut self.log);
        self.announces += 1;
    }

    /// What a learned address does, where the bridge has these ports beside the uplink.
    fn neigh(&mut self, sig: NeighSignal, ports: Result<Vec<u32>, String>) {
        match on_neigh(sig) {
            NeighPlan::BurstAll => self.bursts += 1,
            NeighPlan::Nothing => (),
            NeighPlan::Scan { ifindex } => {
                if self.w.rows[0].scanned(&ports, ifindex, &mut self.log) {
                    self.bursts += 1;
                }
            }
        }
    }

    /// A tick: the bridge is polled where events are not to be had.
    fn tick(&mut self, learned: &[(&str, &str)]) {
        if self.w.polls() {
            let learned = learned.iter().map(|(p, m)| (p.to_string(), m.to_string())).collect();
            if self.w.rows[0].polled(&learned) {
                self.bursts += 1;
            }
        }
    }

    fn trigger(&self) -> String {
        let c = vec![(self.announces, self.bursts)];
        self.w.rows_for_status(&c)[0].trigger.clone()
    }

    fn said(&self, what: &str) -> Vec<String> {
        self.log.iter().filter(|l| l.contains(what)).cloned().collect()
    }
}

fn add(ifindex: u32, permanent: bool) -> NeighSignal {
    NeighSignal::Add { ifindex, permanent }
}

#[test]
fn a_row_listed_in_workload_deferred_gets_no_announcer_and_says_so() {
    let mut r = Rig::new(opens());
    r.try_start(&["vms"], Ok((uplink(&["eth0"]), MAC)));
    assert!(r.w.rows.is_empty(), "no announcer for a deferred row");
    assert_eq!(next_due(&vec![]), None, "and nothing to wake for");
    assert_eq!(
        r.log,
        vec!["cfab: workload vms: deferred; announcer not started"]
    );
}

#[test]
fn a_deferred_row_starts_its_announcer_once_the_watchdog_installs_it() {
    let mut r = Rig::new(opens());
    let read = || Ok((uplink(&["eth0"]), MAC));
    r.try_start(&["vms"], read());
    r.try_start(&["vms"], read());
    assert!(r.w.rows.is_empty(), "still deferred");
    assert_eq!(r.log.len(), 1, "the deferred line is said once");
    r.try_start(&[], read());
    let rows = r.w.rows_for_status(&vec![(0, 0)]);
    assert_eq!(
        (
            rows[0].name.as_str(),
            rows[0].ifname.as_str(),
            rows[0].trigger.as_str()
        ),
        ("vms", "cfab-work-vms", "neigh events")
    );
    assert_eq!(r.log[1], "cfab: workload vms: announcer trigger neigh events");
    r.try_start(&[], read());
    assert_eq!(r.log.len(), 2, "started once, said once");
    assert_eq!(r.w.rows.len(), 1);
}

#[test]
fn an_uplink_that_cannot_be_identified_journals_the_reason_and_starts_no_announcer() {
    let mut r = Rig::new(opens());
    let why = "bridge primary has no uplink port (no port has a /sys/class/net/<port>/device, \
               directly or through lower links); ports: eth0, tap100i0";
    r.try_start(&[], Err(why.to_string()));
    assert!(r.w.rows.is_empty());
    assert_eq!(
        r.log,
        vec![
            "cfab: workload vms: bridge primary has no uplink port (no port has a \
             /sys/class/net/<port>/device, directly or through lower links); ports: eth0, \
             tap100i0; announcer not started"
        ]
    );
}

#[test]
fn a_mac_that_cannot_be_read_journals_the_reason_and_starts_no_announcer() {
    let mut r = Rig::new(opens());
    r.try_start(&[], Err(mac_unreadable("cfab-work-vms", NO_NETDEV)));
    assert!(r.w.rows.is_empty());
    assert_eq!(
        r.log,
        vec![
            "cfab: workload vms: cannot read the MAC of cfab-work-vms: FATAL: cfab-work-vms: no \
             link-layer address (no netdev?); announcer not started"
        ]
    );
}

#[test]
fn a_mac_that_changes_under_us_is_said_once_burst_on_and_announced() {
    let mut r = Rig::started(opens());
    r.beacon(Ok(MAC), Ok(true));
    assert_eq!(r.bursts, 0);
    let new = [0x02, 0xcf, 0xab, 0x00, 0x00, 0x09];
    r.beacon(Ok(new), Ok(true));
    assert_eq!(r.w.rows[0].mac, new, "the frame carries the new MAC");
    assert_eq!(r.bursts, 1, "a MAC change is an ownership change: burst on it");
    assert_eq!(
        r.said("MAC changed"),
        vec![
            "cfab: workload vms: cfab-work-vms MAC changed 00:11:22:33:44:55 -> 02:cf:ab:00:00:09"
        ]
    );
    r.beacon(Ok(new), Ok(true));
    assert_eq!(r.said("MAC changed").len(), 1);
    assert_eq!(hex_mac(&new), "02:cf:ab:00:00:09");
}

#[test]
fn a_mac_read_failure_keeps_announcing_with_the_last_known_mac() {
    let mut r = Rig::started(opens());
    r.beacon(Ok(MAC), Ok(true));
    r.beacon(Err(NO_NETDEV.to_string()), Ok(true));
    r.beacon(Err(NO_NETDEV.to_string()), Ok(true));
    assert_eq!(r.announces, 3, "the beacon does not stop");
    assert_eq!(r.w.rows[0].mac, MAC, "every frame keeps the last known MAC");
    assert_eq!(
        r.said("cannot read the MAC"),
        vec![
            "cfab: workload vms: cannot read the MAC of cfab-work-vms: FATAL: cfab-work-vms: no \
             link-layer address (no netdev?); announcing the last known MAC"
        ]
    );
}

#[test]
fn the_fdb_poll_fallback_names_its_reason_and_bursts_on_a_new_mac() {
    let mut r = Rig::started(Err(EPERM.to_string()));
    assert_eq!(
        r.trigger(),
        format!("fdb poll (RTNLGRP_NEIGH subscription failed: {EPERM})")
    );
    assert_eq!(
        r.log,
        vec![format!(
            "cfab: workload vms: announcer trigger fdb poll (RTNLGRP_NEIGH subscription \
             failed: {EPERM})"
        )]
    );
    assert_eq!(r.bursts, 0);
    r.tick(&[VM]);
    assert_eq!(r.bursts, 1, "the VM MAC is new");
    r.tick(&[VM]);
    assert_eq!(
        r.bursts, 1,
        "nothing new: the poll does not re-burst on a MAC it has already seen"
    );
}

#[test]
fn a_poll_remembers_every_port_and_mac_it_has_shown() {
    let mut r = Rig::started(Err(EPERM.to_string()));
    r.tick(&[VM]);
    r.tick(&[]);
    r.tick(&[VM]);
    assert_eq!(r.bursts, 1, "what was seen is not forgotten");
    let moved = ("tap101i0", VM.1);
    r.tick(&[VM, moved, moved]);
    assert_eq!(r.bursts, 2, "the same MAC on another port is new");
    let seen: Vec<(&str, &str)> = r.w.rows[0]
        .seen
        .iter()
        .map(|(p, m)| (p.as_str(), m.as_str()))
        .collect();
    assert_eq!(seen, vec![VM, moved]);
}

#[test]
fn a_dead_neigh_watch_moves_every_row_to_the_fdb_poll_and_says_why() {
    let mut r = Rig::started(opens());
    assert_eq!(r.trigger(), "neigh events");
    r.w.watch_died("readiness lost", &mut r.log);
    assert_eq!(r.trigger(), "fdb poll (neighbor watch died: readiness lost)");
    assert_eq!(
        r.log[1],
        "cfab: workload vms: announcer trigger fdb poll (neighbor watch died: readiness lost)"
    );
    // …and the fallback is really running, not just claimed.
    assert!(r.w.polls());
    r.tick(&[VM]);
    assert_eq!(r.bursts, 1);
    // Said once: a second report of the same death is not a second trigger change.
    r.w.watch_died("readiness lost", &mut r.log);
    assert_eq!(r.log.len(), 2);
}

#[test]
fn the_event_trigger_runs_no_fdb_poll() {
    let mut r = Rig::started(opens());
    r.tick(&[VM]);
    assert_eq!(r.bursts, 0);
    assert!(!r.w.polls());
    assert_eq!(r.w.trigger, Some(Trigger::NeighEvents));
}

#[test]
fn only_a_learned_mac_on_a_non_uplink_port_starts_a_burst() {
    let mut r = Rig::started(opens());
    let ports = || Ok(vec![10]);
    r.neigh(add(2, false), ports()); // eth0: the uplink
    r.neigh(add(10, true), ports()); // the tap, but a permanent entry
    r.neigh(add(4242, false), ports()); // not a port of this bridge
    assert_eq!(r.bursts, 0);
    r.neigh(add(10, false), ports()); // a VM starts talking
    assert_eq!(r.bursts, 1);
}

#[test]
fn a_new_uplink_port_is_reclassified_on_the_next_tick() {
    let mut r = Rig::started(opens());
    r.log.clear();
    r.w.refresh_uplink("vms", uplink(&["eth0", "eth1"]), &mut r.log);
    assert_eq!(
        r.log,
        vec!["cfab: workload vms: uplink ports eth0 -> eth0,eth1"]
    );
    assert_eq!(r.w.rows[0].up, uplink(&["eth0", "eth1"]));
    r.w.refresh_uplink("vms", uplink(&["eth0", "eth1"]), &mut r.log);
    assert_eq!(r.log.len(), 1);
    r.neigh(add(3, false), Ok(vec![10]));
    assert_eq!(r.bursts, 0, "a MAC on the new uplink is a peer's, not a VM starting here");
    r.neigh(add(10, false), Ok(vec![10]));
    assert_eq!(r.bursts, 1, "the tap still bursts");
}

#[test]
fn a_failed_uplink_read_keeps_the_last_known_ports() {
    let mut r = Rig::started(opens());
    r.neigh(add(2, false), Ok(vec![10]));
    assert_eq!(r.w.rows[0].up, uplink(&["eth0"]));
    assert_eq!(r.bursts, 0);
    assert_eq!(r.log.len(), 1, "only the start line: no second alarm");
}

#[test]
fn an_enobufs_overflow_starts_one_burst() {
    let mut r = Rig::started(opens());
    r.neigh(NeighSignal::Overflow, Err("never asked".to_string()));
    assert_eq!(r.bursts, 1);
    assert_eq!(r.log.len(), 1);
}

#[test]
fn a_send_failure_is_journaled_once_per_distinct_error_text() {
    let mut r = Rig::started(opens());
    let fail = |errno: &str| Err(format!("FATAL: cfab-work-vms: cannot send probe: {errno}"));
    r.beacon(Ok(MAC), fail("ENODEV"));
    r.beacon(Ok(MAC), fail("ENODEV"));
    assert_eq!(
        r.said("announce on"),
        vec![
            "cfab: workload vms: announce on cfab-work-vms failed: FATAL: cfab-work-vms: cannot \
             send probe: ENODEV"
        ],
        "the same error twice is one line"
    );
    assert_eq!(r.announces, 2);
    r.beacon(Ok(MAC), fail("ENETDOWN"));
    assert_eq!(r.said("announce on").len(), 2, "a different error is a different fact");
    r.beacon(Ok(MAC), Ok(true));
    assert_eq!(r.log.last().unwrap(), "cfab: workload vms: announce recovered");
    // A beacon that was not due says nothing.
    let n = r.log.len();
    r.beacon(Ok(MAC), Ok(false));
    assert_eq!(r.log.len(), n);
}

#[test]
fn a_fault_that_recovers_and_returns_is_journaled_again() {
    let mut r = Rig::started(opens());
    r.beacon(Ok(MAC), Ok(true));
    r.beacon(Err(NO_NETDEV.to_string()), Ok(true)); // the netdev vanishes
    r.beacon(Ok(MAC), Ok(true)); // …and comes back
    r.beacon(Err(NO_NETDEV.to_string()), Ok(true)); // …and vanishes again, identically
    assert_eq!(r.said("cannot read the MAC").len(), 2, "{:?}", r.log);
    assert_eq!(r.said("cfab: workload vms: MAC read recovered").len(), 1, "{:?}", r.log);
}

#[test]
fn a_bridge_scan_that_recovers_says_so_in_the_same_shape() {
    let mut r = Rig::started(opens());
    let why = "port tap100i0: cannot read ifindex from /sys/class/net/tap100i0/ifindex";
    r.neigh(add(10, false), Err(why.to_string()));
    assert_eq!(r.bursts, 0, "no burst without the scan");
    assert_eq!(
        r.log[1],
        "cfab: workload vms: port tap100i0: cannot read ifindex from \
         /sys/class/net/tap100i0/ifindex; burst skipped"
    );
    r.neigh(add(10, false), Ok(vec![10]));
    assert_eq!(r.log[2], "cfab: workload vms: bridge port scan recovered");
    assert_eq!(r.bursts, 1);
}

#[test]
fn a_member_without_a_workload_row_opens_nothing() {
    let w = Workloads::start(false, &Ok(()));
    assert!(w.trigger.is_none());
    assert!(!w.pending(0));
    assert!(!w.polls());
    assert!(w.rows_for_status(&vec![]).is_empty());
}

#[test]
fn the_earliest_beacon_is_the_next_one_due() {
    let t = |ns| Instant { ns };
    assert_eq!(next_due(&vec![t(9), t(3), t(7)]), Some(t(3)));
    assert_eq!(next_due(&vec![]), None);
}
