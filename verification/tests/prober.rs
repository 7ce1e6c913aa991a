//! The prober, tick by tick.

use cfab::decl::{
    AdminDecl, BfdDecl, BgpDecl, CostDecl, Declaration, Defaults, ForwardDecl, GwDecl, MarkingDecl,
    MemberDecl, OspfDecl, RuntimeDecl, SegmentDecl, UniversalDecl, WireDecl, ZoneDecl,
};
use cfab::derive::{Ceiling, ClassRow, FallbackRow, GwRow, LegPort, MemberView, ZoneList};
use cfab::model::{Dscp, Fabric, Member, MemberKind, SegScope};
use cfab::error::Error;
use cfab::ipv4::Ipv4Addr;
use cfab::prober::leg::{Kind, Leg};
use cfab::prober::port::{PortReading, ESCALATION_TARGETS};
use cfab::prober::tick::{Got, Tick};
use cfab::prober::{frame, ProbeRows, ProbedLeg, Prober, PROBE_INTERVAL};
use cfab::time::Instant;
use std::collections::{BTreeMap, BTreeSet};

fn wire(nic: &str, domain: &str, speed_mbps: u32) -> WireDecl {
    WireDecl {
        nic: nic.to_string(),
        domain: domain.to_string(),
        speed_mbps,
        driver_features: None,
        usb: None,
    }
}

fn member(name: &str, node: u8, kind: MemberKind, fast: u32) -> MemberDecl {
    MemberDecl {
        name: name.to_string(),
        node,
        kind,
        wires: vec![wire("eth9", "a", fast), wire("eth1", "b", 1000), wire("eth0", "c", 1000)],
        prefs: vec![],
        workloads: vec![],
    }
}

fn seg(ifname: &str, domain: &str, seg: u8, vid: u16) -> SegmentDecl {
    SegmentDecl {
        ifname: ifname.to_string(),
        domain: domain.to_string(),
        seg,
        vid,
    }
}

fn universal(ifname: &str, vid: u16) -> Option<UniversalDecl> {
    Some(UniversalDecl {
        ifname: ifname.to_string(),
        seg: 9,
        vid,
    })
}

fn zone(
    name: &str,
    id: u8,
    marks: (u8, Dscp),
    shape: (u32, u32, u32),
    primary: &str,
    segments: Vec<SegmentDecl>,
    universal: Option<UniversalDecl>,
) -> ZoneDecl {
    ZoneDecl {
        name: name.to_string(),
        id,
        pcp: marks.0,
        dscp: marks.1,
        floor_mbps: shape.0,
        band: shape.1,
        weight: shape.2,
        primary: primary.to_string(),
        segments,
        universal,
        gw: None,
    }
}

/// Other values than the declaration's own, so that it shows which of the two is taken.
fn defaults() -> Defaults {
    Defaults {
        admin: AdminDecl {
            floor_mbps: 50,
            band: 2,
        },
        marking: MarkingDecl {
            pcp_ctrl: 5,
            set_dscp: false,
        },
        cost: CostDecl { leaf_offset: 20000 },
        bfd: BfdDecl {
            rx_ms: 300,
            tx_ms: 350,
            mult: 4,
            port: 4784,
        },
        ospf: OspfDecl {
            hello_s: 2,
            dead_s: 8,
        },
        bgp: BgpDecl {
            asn: 65020,
            keepalive_s: 10,
            hold_s: 30,
            connect_s: 15,
        },
        runtime: RuntimeDecl {
            run_dir: "/run/other".to_string(),
        },
    }
}

/// Three members on three switches, with three zones over them.
fn example() -> Declaration {
    let mut mgmt = zone(
        "mgmt",
        249,
        (2, Dscp::Cs2),
        (100, 1, 1),
        "c",
        vec![
            seg("cfab-mg", "c", 1, 250),
            seg("cfab-mg-bk", "a", 2, 251),
            seg("cfab-mg-b2", "b", 3, 252),
        ],
        universal("cfab-mg-fb", 302),
    );
    mgmt.gw = Some(GwDecl {
        domain: "any".to_string(),
        vid: 249,
        router: "192.168.249.254/24".to_string(),
    });
    Declaration {
        domains: vec!["a".to_string(), "b".to_string(), "c".to_string()],
        members: vec![
            member("pve1-tb", 1, MemberKind::Host, 5000),
            member("pve2-tb", 2, MemberKind::Host, 5000),
            member("pve3-tb", 3, MemberKind::Leaf, 10000),
        ],
        zones: vec![
            zone(
                "storage",
                99,
                (0, Dscp::Cs0),
                (2000, 2, 4),
                "a",
                vec![
                    seg("cfab-st", "a", 1, 100),
                    seg("cfab-st-bk", "b", 2, 101),
                    seg("cfab-st-b2", "c", 3, 102),
                ],
                universal("cfab-st-fb", 300),
            ),
            zone(
                "cluster",
                199,
                (6, Dscp::Cs6),
                (200, 0, 1),
                "b",
                vec![
                    seg("cfab-cl", "b", 1, 200),
                    seg("cfab-cl-bk", "a", 2, 201),
                    seg("cfab-cl-b2", "c", 3, 202),
                ],
                universal("cfab-cl-fb", 301),
            ),
            mgmt,
        ],
        workload: vec![],
        forward: ForwardDecl {
            enabled: true,
            allow: vec![
                "storage>storage".to_string(),
                "cluster>cluster".to_string(),
                "mgmt>mgmt".to_string(),
            ],
        },
        admin: Some(AdminDecl {
            floor_mbps: 100,
            band: 1,
        }),
        marking: Some(MarkingDecl {
            pcp_ctrl: 6,
            set_dscp: true,
        }),
        cost: Some(CostDecl { leaf_offset: 30000 }),
        bfd: Some(BfdDecl {
            rx_ms: 250,
            tx_ms: 250,
            mult: 3,
            port: 3784,
        }),
        ospf: Some(OspfDecl {
            hello_s: 1,
            dead_s: 3,
        }),
        bgp: Some(BgpDecl {
            asn: 65010,
            keepalive_s: 3,
            hold_s: 9,
            connect_s: 5,
        }),
        runtime: Some(RuntimeDecl {
            run_dir: "/run/cfab".to_string(),
        }),
        dns_domain: "fabric.example".to_string(),
        defaults: defaults(),
    }
}

fn fabric() -> Fabric {
    Fabric::from_decl(&example()).unwrap()
}

fn names(zone: &str, names: Vec<String>) -> ZoneList {
    ZoneList {
        zone: zone.to_string(),
        names,
    }
}

/// A member's ports under a bond: one for each wire, named after the wire's domain.
fn ports(m: &Member, bond: &str) -> Vec<LegPort> {
    m.wires
        .iter()
        .map(|w| LegPort {
            ifname: format!("{bond}-{}", w.domain.as_str()),
            wire: w.name.clone(),
        })
        .collect()
}

/// A zone's wire order on a member: the primary domain first, then by speed.
fn order(m: &Member, primary: &str) -> Vec<String> {
    let mut w: Vec<(bool, u32, String)> = m
        .wires
        .iter()
        .map(|w| (w.domain.as_str() != primary, u32::MAX - w.speed_mbps, w.name.clone()))
        .collect();
    w.sort_by_key(|x| (x.0, x.1));
    w.into_iter().map(|x| x.2).collect()
}

/// What a member gets of the fabric.
fn view<'a>(f: &'a Fabric, name: &str) -> MemberView<'a> {
    let m = f.members.iter().find(|m| m.name == name).unwrap();
    let mut v = MemberView {
        fabric: f,
        member: m,
        class_rows: vec![],
        fallback_rows: vec![],
        gw_rows: vec![],
        prefs: vec![],
        fallback_members: vec![],
        zone_ifs: vec![],
        admin_ifs: vec![],
        owned_forwarding: vec![],
        workloads: vec![],
        dscp_ctrl: Dscp::Cs6,
        ceilings: vec![],
    };
    for z in &f.zones {
        let prefs = order(m, z.primary.as_str());
        let home = prefs[0].clone();
        let mut ifs = vec![];
        for s in f.segments.iter().filter(|s| s.zone == z.name) {
            ifs.push(s.ifname.clone());
            v.owned_forwarding.push(s.ifname.clone());
            match &s.scope {
                SegScope::Domain(d) => {
                    let wire = m.wire_on(d).unwrap().name.clone();
                    let rank = prefs.iter().position(|p| *p == wire).unwrap();
                    v.class_rows.push(ClassRow {
                        ifname: s.ifname.clone(),
                        zone: z.name.clone(),
                        wire,
                        ospf_cost: [10, 100, 1000][rank],
                    });
                }
                SegScope::Universal => {
                    let ports = ports(m, &s.ifname);
                    v.owned_forwarding.extend(ports.iter().map(|p| p.ifname.clone()));
                    v.fallback_rows.push(FallbackRow {
                        zone: z.name.clone(),
                        ifname: s.ifname.clone(),
                        seg: s.seg,
                        home: home.clone(),
                        ospf_cost: 5000,
                        ports,
                    });
                    v.ceilings.push(Ceiling {
                        ifname: s.ifname.clone(),
                        zone: z.name.clone(),
                        rate_pps: 80,
                        burst_pkts: 160,
                    });
                    let all = f.members.iter().map(|m| m.name.clone()).collect();
                    v.fallback_members.push(names(&z.name, all));
                }
            }
        }
        if let (Some(gw), MemberKind::Host) = (&z.gw, m.kind) {
            let ifname = format!("cfab-gw{}", z.id);
            let (home, ports) = match &gw.scope {
                SegScope::Universal => (home, ports(m, &ifname)),
                SegScope::Domain(d) => (m.wire_on(d).unwrap().name.clone(), vec![]),
            };
            v.owned_forwarding.push(ifname.clone());
            v.gw_rows.push(GwRow {
                zone: z.name.clone(),
                ifname,
                home,
                ports,
            });
        }
        v.prefs.push(names(&z.name, prefs));
        v.zone_ifs.push(names(&z.name, ifs));
    }
    if m.kind == MemberKind::Host {
        v.admin_ifs = m.wires.iter().map(|w| w.name.clone()).collect();
    }
    v
}

const ROUTER: &str = "192.168.249.254";

const BOND: &str = "cfab-gw249";

/// The zone's primary domain is `c`, so the leg's home is the port on eth0.
const HOME: &str = "cfab-gw249-c";

/// The wire order of the zone is eth0, eth9, eth1.
const BACKUP: &str = "cfab-gw249-a";

/// Every port of the ingress leg, in order.
const PORTS: [&str; 3] = ["cfab-gw249-a", "cfab-gw249-b", "cfab-gw249-c"];

/// The storage zone's universal segment: a bond over all three wires, at home on eth9.
const FB: &str = "cfab-st-fb";
const FB_A: &str = "cfab-st-fb-a";
const FB_B: &str = "cfab-st-fb-b";
const FB_C: &str = "cfab-st-fb-c";
const FB_PORTS: [&str; 3] = [FB_A, FB_B, FB_C];

const ENGINE_SOCK: &str = "/run/cfab/engine.sock";

fn start() -> Instant {
    Instant { ns: 1_000_000_000_000 }
}

fn after(t: Instant, ms: u64) -> Instant {
    Instant { ns: t.ns + ms * 1_000_000 }
}

/// The files and sockets of a machine, and what was done to them.
#[derive(Default)]
struct MockSys {
    files: BTreeMap<String, String>,
    sockets: BTreeMap<String, String>,
    refusing: BTreeSet<String>,
    calls: Vec<String>,
}

impl MockSys {
    fn file(mut self, path: &str, text: &str) -> MockSys {
        self.files.insert(path.to_string(), text.to_string());
        self
    }

    fn socket(mut self, path: &str, reply: &str) -> MockSys {
        self.sockets.insert(path.to_string(), reply.to_string());
        self
    }

    fn write_fail(mut self, path: &str) -> MockSys {
        self.refusing.insert(path.to_string());
        self
    }

    fn read(&self, path: &str) -> Option<String> {
        self.files.get(path).cloned()
    }

    fn write(&mut self, path: &str, text: &str) -> Result<(), Error> {
        self.calls.push(format!("write {path}"));
        if self.refusing.contains(path) {
            return Err(Error::fatal(&format!("{path}: permission denied")));
        }
        self.files.insert(path.to_string(), text.to_string());
        Ok(())
    }

    /// What was last written to a file.
    fn writes_to(&self, path: &str) -> Option<&str> {
        if self.calls.iter().any(|c| *c == format!("write {path}")) {
            self.files.get(path).map(String::as_str)
        } else {
            None
        }
    }

    fn request(&mut self, path: &str, line: &str) -> Option<String> {
        self.calls.push(format!("unix_request {path} {}", line.trim()));
        self.sockets.get(path).cloned()
    }
}

/// Taps on which the other side answers the probes of some ports, and on which frames arrive.
struct ScriptedIo {
    router: Ipv4Addr,
    mac: [u8; 6],
    answering: BTreeSet<String>,
    send_fails: BTreeSet<String>,
    /// Ports whose tap cannot be opened.
    deaf: BTreeSet<String>,
    /// Frames that arrive on every port, on every tick.
    noise: Vec<Vec<u8>>,
    /// Frames that arrive on a port on the next tick.
    heard: BTreeMap<String, Vec<Vec<u8>>>,
    sent: Vec<(String, Vec<u8>)>,
    outstanding: BTreeMap<String, Vec<u8>>,
    recv_calls: usize,
}

impl ScriptedIo {
    fn answering_on(router: &str, ports: &[&str]) -> ScriptedIo {
        ScriptedIo {
            router: Ipv4Addr::parse(router).unwrap(),
            mac: [0x68, 0xd7, 0x9a, 0x66, 0x91, 0xa9],
            answering: ports.iter().map(|s| s.to_string()).collect(),
            send_fails: BTreeSet::new(),
            deaf: BTreeSet::new(),
            noise: Vec::new(),
            heard: BTreeMap::new(),
            sent: Vec::new(),
            outstanding: BTreeMap::new(),
            recv_calls: 0,
        }
    }

    fn dark(&mut self, port: &str) {
        self.answering.remove(port);
    }

    fn lit(&mut self, port: &str) {
        self.answering.insert(port.to_string());
    }

    fn sent_on(&self, port: &str) -> Vec<&[u8]> {
        self.sent
            .iter()
            .filter(|(s, _)| s == port)
            .map(|(_, f)| f.as_slice())
            .collect()
    }

    /// What the other side answers to a probe: unicast back to the probe's source.
    fn reply_to(&self, probe: &[u8]) -> Vec<u8> {
        let src = &probe[6..12];
        let mut f = Vec::new();
        f.extend_from_slice(src);
        f.extend_from_slice(&self.mac);
        f.extend_from_slice(&[0x08, 0x06]);
        f.extend_from_slice(&[0x00, 0x01, 0x08, 0x00, 0x06, 0x04, 0x00, 0x02]);
        f.extend_from_slice(&self.mac);
        f.extend_from_slice(&self.router.octets());
        f.extend_from_slice(src);
        f.extend_from_slice(&[0, 0, 0, 0]);
        f
    }

    fn listen(&self, port: &str) -> Option<Error> {
        if self.deaf.contains(port) {
            Some(Error::fatal(&format!(
                "{port}: cannot open AF_PACKET: Operation not permitted"
            )))
        } else {
            None
        }
    }

    fn recv(&mut self, port: &str) -> Vec<Vec<u8>> {
        self.recv_calls += 1;
        let mut out = self.noise.clone();
        out.extend(self.heard.remove(port).unwrap_or_default());
        if let Some(probe) = self.outstanding.remove(port) {
            if self.answering.contains(port) {
                out.push(self.reply_to(&probe));
            }
        }
        out
    }

    fn send(&mut self, port: &str, frame: &[u8]) -> bool {
        if self.send_fails.contains(port) {
            return false;
        }
        self.sent.push((port.to_string(), frame.to_vec()));
        self.outstanding.insert(port.to_string(), frame.to_vec());
        true
    }
}

/// One tick of a leg, against the scripted machine.
fn leg_tick(
    leg: &mut Leg,
    sys: &mut MockSys,
    io: &mut ScriptedIo,
    now: Instant,
    log: &mut Vec<String>,
) {
    let mut at = leg.begin();
    loop {
        let got = match &at {
            Tick::ReadActive => {
                Got::Active(sys.read(&format!("/sys/class/net/{}/bonding/active_slave", leg.bond)))
            }
            Tick::ReadPorts { .. } => {
                let mut readings = Vec::new();
                for p in &leg.ports {
                    let listen = match leg.kind {
                        Kind::Ingress { .. } => None,
                        Kind::Fallback(_) => io.listen(&p.ifname),
                    };
                    let frames = if listen.is_none() { io.recv(&p.ifname) } else { vec![] };
                    readings.push(PortReading {
                        carrier: sys.read(&format!("/sys/class/net/{}/carrier", p.ifname)),
                        mii_status: sys.read(&format!(
                            "/sys/class/net/{}/bonding_slave/mii_status",
                            p.ifname
                        )),
                        listen,
                        frames,
                    });
                }
                Got::Ports(readings)
            }
            Tick::AskEngine { .. } => match &leg.kind {
                Kind::Fallback(f) => Got::Engine(sys.request(&f.engine_sock, "state\n")),
                Kind::Ingress { .. } => panic!("the router's leg asks no engine"),
            },
            Tick::Write { target, file, .. } => {
                Got::Wrote(sys.write(&leg.bond_path(*file), target))
            }
            Tick::Send => {
                let mut sent = Vec::new();
                for i in 0..leg.ports.len() {
                    let mut any = false;
                    for f in leg.asks(i) {
                        any |= io.send(&leg.ports[i].ifname, &f);
                    }
                    sent.push(any);
                }
                Got::Sent(sent)
            }
            Tick::Done => return,
        };
        at = leg.advance(at, &got, now, log);
    }
}

fn tick(p: &mut Prober, sys: &mut MockSys, io: &mut ScriptedIo, now: Instant) -> ProbeRows {
    for i in 0..p.legs.len() {
        leg_tick(&mut p.legs[i], sys, io, now, &mut p.log);
    }
    p.report(now)
}

fn fabric_with_a_domain_gw() -> Fabric {
    let mut d = example();
    d.zones[2].gw.as_mut().unwrap().domain = "c".to_string();
    Fabric::from_decl(&d).unwrap()
}

/// A bond on `active`, with every port up.
fn bonding(active: &str) -> MockSys {
    let mut sys = MockSys::default()
        .file(&format!("/sys/class/net/{BOND}/bonding/active_slave"), active)
        .file(&format!("/sys/class/net/{BOND}/bonding/primary"), active)
        .file(&format!("/sys/class/net/{active}/carrier"), "1\n");
    for s in PORTS {
        sys = sys
            .file(&format!("/sys/class/net/{s}/carrier"), "1\n")
            .file(&format!("/sys/class/net/{s}/bonding_slave/mii_status"), "up\n");
    }
    sys
}

/// The host's ingress leg alone, and its ports.
fn prober(f: &Fabric) -> (Prober, Vec<String>) {
    let mut p = Prober::from_view(&view(f, "pve1-tb"));
    p.legs.retain(|l| matches!(l.kind, Kind::Ingress { .. }));
    let names = p.legs[0].ports.iter().map(|s| s.ifname.clone()).collect();
    (p, names)
}

fn run_ticks(p: &mut Prober, sys: &mut MockSys, io: &mut ScriptedIo, n: u64) -> Vec<ProbedLeg> {
    let mut last = Vec::new();
    for i in 0..n {
        last = tick(p, sys, io, after(start(), i * PROBE_INTERVAL / 1_000_000)).ingress;
    }
    last
}

/// An OSPF hello of the member with this node number, in the storage zone.
fn hello(node: u8) -> Vec<u8> {
    let mut f = vec![0u8; 14];
    f[0..6].copy_from_slice(&[0x01, 0x00, 0x5e, 0x00, 0x00, 0x05]);
    f[12..14].copy_from_slice(&[0x08, 0x00]);
    let mut ip = vec![0u8; 20];
    ip[0] = 0x45;
    ip[9] = 89;
    ip[12..16].copy_from_slice(&[10, 99, 9, node]);
    ip[16..20].copy_from_slice(&[224, 0, 0, 5]);
    f.extend_from_slice(&ip);
    let mut ospf = vec![0u8; 24];
    ospf[0] = 2;
    ospf[1] = 1;
    ospf[4..8].copy_from_slice(&[10, 99, 0, node]);
    f.extend_from_slice(&ospf);
    f
}

/// The fallback bond on `active`, with every port up.
fn fb_bonding(active: &str) -> MockSys {
    let mut sys = MockSys::default()
        .file(&format!("/sys/class/net/{FB}/bonding/active_slave"), active)
        .file(&format!("/sys/class/net/{FB}/bonding/primary"), active);
    for s in FB_PORTS {
        sys = sys
            .file(&format!("/sys/class/net/{s}/carrier"), "1\n")
            .file(&format!("/sys/class/net/{s}/bonding_slave/mii_status"), "up\n");
    }
    sys
}

/// The storage zone's fallback leg alone.
fn fb_prober(f: &Fabric, member: &str) -> Prober {
    let mut p = Prober::from_view(&view(f, member));
    p.legs.retain(|l| matches!(l.kind, Kind::Fallback(_)) && l.bond == FB);
    p
}

/// A fabric that the first member is alone in.
fn alone(mut f: Fabric) -> Fabric {
    f.members.retain(|m| m.name == "pve1-tb");
    f
}

/// Frames that arrive on a port on the next tick.
fn hear(io: &mut ScriptedIo, port: &str, frames: &[Vec<u8>]) {
    io.heard.insert(port.to_string(), frames.to_vec());
}

fn fb_tick(p: &mut Prober, sys: &mut MockSys, io: &mut ScriptedIo, now: Instant) -> ProbedLeg {
    tick(p, sys, io, now).fallback.remove(0)
}

/// The engine's document with these peers in these states on the fallback bond.
fn engine_state(states: &[(u8, &str)]) -> String {
    let nbrs: Vec<String> = states
        .iter()
        .map(|(node, st)| format!(r#"{{"router_id":"10.99.0.{node}","state":"{st}"}}"#))
        .collect();
    format!(
        r#"{{"ready":true,"ospf":{{"storage":{{"interfaces":{{"{FB}":{{"neighbors":[{}]}}}}}}}}}}"#,
        nbrs.join(",")
    )
}

fn fb_bonding_with_engine(active: &str, states: &[(u8, &str)]) -> MockSys {
    fb_bonding(active).socket(ENGINE_SOCK, &engine_state(states))
}

/// Four ticks on which every wire hears both peers.
fn fb_steady(p: &mut Prober, sys: &mut MockSys, io: &mut ScriptedIo, t0: Instant) {
    for n in 0..4u64 {
        for s in FB_PORTS {
            hear(io, s, &[hello(2), hello(3)]);
        }
        fb_tick(p, sys, io, after(t0, n * 500));
    }
}

#[test]
fn every_port_is_probed_with_its_own_source_address() {
    let f = fabric();
    let (mut p, names) = prober(&f);
    let mut sys = bonding(HOME);
    let mut io = ScriptedIo::answering_on(ROUTER, &[]);
    tick(&mut p, &mut sys, &mut io, start());
    assert_eq!(io.sent.len(), names.len(), "one probe per port per tick");
    let mut macs: Vec<[u8; 6]> = io
        .sent
        .iter()
        .map(|(_, fr)| fr[6..12].try_into().unwrap())
        .collect();
    let n = macs.len();
    macs.sort();
    macs.dedup();
    assert_eq!(macs.len(), n, "each port asks with its own MAC");
    for (_, fr) in &io.sent {
        assert_eq!(fr.len(), frame::PROBE_LEN);
        assert_eq!(&fr[0..6], &[0xff; 6], "broadcast");
    }
}

#[test]
fn a_leaf_has_no_ingress_leg_to_probe_and_every_fallback_leg() {
    let f = fabric();
    let view = view(&f, "pve3-tb");
    let p = Prober::from_view(&view);
    let rows = p.report(start());
    assert!(
        rows.ingress.is_empty(),
        "the outside reaches a leaf at the leaf's own addresses, never at a fabric identity"
    );
    assert_eq!(
        rows.fallback
            .iter()
            .map(|l| l.zone.clone())
            .collect::<Vec<_>>(),
        vec!["storage", "cluster", "mgmt"],
        "a leaf's fallback path is a real path"
    );
    assert_eq!(
        p.held_primaries().port_for("cfab-st-fb"),
        Some("cfab-st-fb-a"),
        "and the watchdog must be told which port to re-assert"
    );
}

#[test]
fn a_bond_whose_router_answers_everywhere_is_never_written() {
    let f = fabric();
    let (mut p, names) = prober(&f);
    let refs: Vec<&str> = names.iter().map(String::as_str).collect();
    let mut sys = bonding(HOME);
    let mut io = ScriptedIo::answering_on(ROUTER, &refs);
    let rows = run_ticks(&mut p, &mut sys, &mut io, 8);
    assert!(
        !sys.calls.iter().any(|c| c.starts_with("write /sys")),
        "{:?}",
        sys.calls
    );
    assert!(rows[0].ports.iter().all(|s| s.reachable), "{rows:?}");
    assert!(rows[0].ports.iter().all(|s| s.last_reply_ms.is_some()));
}

#[test]
fn a_router_dead_active_wire_moves_the_bond_primary_first() {
    let f = fabric();
    let (mut p, names) = prober(&f);
    let refs: Vec<&str> = names.iter().map(String::as_str).collect();
    let mut sys = bonding(HOME);
    let mut io = ScriptedIo::answering_on(ROUTER, &refs);
    run_ticks(&mut p, &mut sys, &mut io, 3);
    io.dark(HOME);
    let rows = run_ticks(&mut p, &mut sys, &mut io, 4);
    let want = BACKUP;
    assert_eq!(
        sys.writes_to(&format!("/sys/class/net/{BOND}/bonding/primary")),
        Some(want)
    );
    assert_eq!(
        sys.writes_to(&format!("/sys/class/net/{BOND}/bonding/active_slave")),
        Some(want)
    );
    let order: Vec<&String> = sys
        .calls
        .iter()
        .filter(|c| c.starts_with("write /sys"))
        .collect();
    assert!(
        order[0].ends_with("/bonding/primary") && order[1].ends_with("/bonding/active_slave"),
        "primary must be written first, else the next link event undoes the move: {order:?}"
    );
    assert!(!rows[0].ports[2].reachable, "the home wire, island c");
    assert_eq!(rows[0].active.as_deref(), Some(want));
}

#[test]
fn ticks_keep_the_ports_and_what_is_held_moves_with_the_bond() {
    let f = fabric();
    let (mut p, names) = prober(&f);
    let refs: Vec<&str> = names.iter().map(String::as_str).collect();
    let mut sys = bonding(HOME);
    let mut io = ScriptedIo::answering_on(ROUTER, &refs);
    run_ticks(&mut p, &mut sys, &mut io, 3);
    assert_eq!(p.legs[0].held, HOME);
    io.dark(HOME);
    run_ticks(&mut p, &mut sys, &mut io, 4);
    assert_eq!(p.legs[0].held, BACKUP);
    let after: Vec<String> = p.legs[0].ports.iter().map(|s| s.ifname.clone()).collect();
    assert_eq!(after, names);
    assert_eq!(p.legs[0].bond, BOND);
}

#[test]
fn a_bond_with_no_reachable_wire_is_left_to_the_kernel() {
    let f = fabric();
    let (mut p, _) = prober(&f);
    let mut sys = bonding(HOME);
    let mut io = ScriptedIo::answering_on(ROUTER, &[]);
    let rows = run_ticks(&mut p, &mut sys, &mut io, 8);
    assert!(
        !sys.calls.iter().any(|c| c.starts_with("write /sys")),
        "{:?}",
        sys.calls
    );
    assert!(rows[0].ports.iter().all(|s| !s.reachable));
}

#[test]
fn the_bond_comes_home_when_the_home_wire_answers_again() {
    let f = fabric();
    let (mut p, names) = prober(&f);
    let refs: Vec<&str> = names.iter().map(String::as_str).collect();
    let mut sys = bonding(HOME);
    let mut io = ScriptedIo::answering_on(ROUTER, &refs);
    run_ticks(&mut p, &mut sys, &mut io, 3);
    io.dark(HOME);
    run_ticks(&mut p, &mut sys, &mut io, 4);
    io.lit(HOME);
    run_ticks(&mut p, &mut sys, &mut io, 4);
    assert_eq!(
        sys.writes_to(&format!("/sys/class/net/{BOND}/bonding/primary")),
        Some(HOME)
    );
    assert_eq!(p.held_primaries().port_for(BOND), Some(HOME));
}

#[test]
fn an_absent_bond_is_never_written() {
    let f = fabric();
    let (mut p, _) = prober(&f);
    let mut sys = MockSys::default();
    let mut io = ScriptedIo::answering_on(ROUTER, &[]);
    run_ticks(&mut p, &mut sys, &mut io, 8);
    assert!(
        !sys.calls.iter().any(|c| c.starts_with("write /sys")),
        "{:?}",
        sys.calls
    );
}

#[test]
fn a_port_whose_probe_cannot_be_sent_goes_unreachable_and_the_bond_moves() {
    let f = fabric();
    let (mut p, names) = prober(&f);
    let refs: Vec<&str> = names.iter().map(String::as_str).collect();
    let mut sys = bonding(HOME);
    let mut io = ScriptedIo::answering_on(ROUTER, &refs);
    io.send_fails.insert(HOME.to_string());
    let rows = run_ticks(&mut p, &mut sys, &mut io, 6);
    assert_eq!(
        sys.writes_to(&format!("/sys/class/net/{BOND}/bonding/primary")),
        Some(BACKUP)
    );
    assert_eq!(
        sys.writes_to(&format!("/sys/class/net/{BOND}/bonding/active_slave")),
        Some(BACKUP)
    );
    let home_row = rows[0]
        .ports
        .iter()
        .find(|s| s.wire == "eth0")
        .expect("the home wire has a row");
    assert!(
        !home_row.reachable,
        "a wire we cannot even ask over is not reachable: {rows:?}"
    );
}

#[test]
fn the_first_tick_counts_no_miss() {
    let f = fabric();
    let (mut p, _) = prober(&f);
    let mut sys = bonding(HOME);
    let mut io = ScriptedIo::answering_on(ROUTER, &[]);
    let rows = run_ticks(&mut p, &mut sys, &mut io, 3);
    assert!(
        rows[0].ports.iter().all(|s| s.reachable),
        "3 ticks = 2 observations, not yet 3"
    );
    let rows = run_ticks(&mut p, &mut sys, &mut io, 1);
    assert!(rows[0].ports.iter().all(|s| !s.reachable));
}

#[test]
fn noise_on_the_tap_is_not_an_answer() {
    let f = fabric();
    let (mut p, names) = prober(&f);
    let refs: Vec<&str> = names.iter().map(String::as_str).collect();
    let mut sys = bonding(HOME);
    let mut io = ScriptedIo::answering_on(ROUTER, &refs);
    io.noise = vec![
        frame::probe(frame::synthetic_mac(9, 9, 9), Ipv4Addr::parse(ROUTER).unwrap()).to_vec(),
        vec![0u8; 64],
    ];
    io.answering.clear();
    let rows = run_ticks(&mut p, &mut sys, &mut io, 8);
    assert!(rows[0].ports.iter().all(|s| !s.reachable));
    assert!(rows[0].ports.iter().all(|s| s.last_reply_ms.is_none()));
}

#[test]
fn a_tick_with_no_frames_returns_at_once() {
    let f = fabric();
    let (mut p, names) = prober(&f);
    let mut sys = bonding(HOME);
    let mut io = ScriptedIo::answering_on(ROUTER, &[]);
    tick(&mut p, &mut sys, &mut io, start());
    assert_eq!(
        io.recv_calls,
        names.len(),
        "one non-blocking drain per port"
    );
}

#[test]
fn the_report_names_every_ports_wire_and_island() {
    let f = fabric();
    let (mut p, names) = prober(&f);
    let refs: Vec<&str> = names.iter().map(String::as_str).collect();
    let mut sys = bonding(HOME);
    let mut io = ScriptedIo::answering_on(ROUTER, &refs);
    let rows = run_ticks(&mut p, &mut sys, &mut io, 4);
    assert_eq!(rows.len(), 1);
    assert_eq!(rows[0].zone, "mgmt");
    assert_eq!(rows[0].bond, BOND);
    let seen: Vec<(&str, &str)> = rows[0]
        .ports
        .iter()
        .map(|s| (s.wire.as_str(), s.island.as_str()))
        .collect();
    assert_eq!(seen, vec![("eth9", "a"), ("eth1", "b"), ("eth0", "c")]);
}

#[test]
fn a_single_domain_gw_leg_is_probed_but_never_moved() {
    let f = fabric_with_a_domain_gw();
    let view = view(&f, "pve1-tb");
    let mut p = Prober::from_view(&view);
    p.legs.retain(|l| matches!(l.kind, Kind::Ingress { .. }));
    let leg = p.legs[0].bond.clone();
    let mut sys = bonding(&leg);
    let mut io = ScriptedIo::answering_on(ROUTER, &[]);
    let rows = run_ticks(&mut p, &mut sys, &mut io, 8);
    assert_eq!(
        io.sent_on(&leg).len(),
        8,
        "the leg itself is the probe target"
    );
    assert!(
        !sys.calls.iter().any(|c| c.starts_with("write /sys")),
        "a leg with no ports is never actuated on: {:?}",
        sys.calls
    );
    assert!(rows[0].active.is_none());
    assert!(
        p.held_primaries().is_empty(),
        "nothing holds a primary here"
    );
}

#[test]
fn the_report_names_the_kernels_active_slave_not_the_probers_wish() {
    let f = fabric();
    let (mut p, _) = prober(&f);
    let mut sys = bonding(HOME);
    let mut io = ScriptedIo::answering_on(ROUTER, &[]);
    run_ticks(&mut p, &mut sys, &mut io, 4);
    assert!(
        !sys.calls.iter().any(|c| c.starts_with("write /sys")),
        "{:?}",
        sys.calls
    );
    sys.files.insert(
        format!("/sys/class/net/{BOND}/bonding/active_slave"),
        BACKUP.to_string(),
    );
    let rows = run_ticks(&mut p, &mut sys, &mut io, 1);
    assert_eq!(p.held_primaries().port_for(BOND), Some(HOME));
    assert_eq!(
        rows[0].active.as_deref(),
        Some(BACKUP),
        "the row reports the kernel, not the prober's wish"
    );
}

#[test]
fn a_carrier_less_port_is_never_a_move_target() {
    let f = fabric();
    let (mut p, names) = prober(&f);
    let refs: Vec<&str> = names.iter().map(String::as_str).collect();
    let mut sys = bonding(BACKUP).file(&format!("/sys/class/net/{HOME}/carrier"), "0\n");
    let mut io = ScriptedIo::answering_on(ROUTER, &refs);
    io.dark(HOME);
    let rows = run_ticks(&mut p, &mut sys, &mut io, 6);
    assert!(
        !sys.calls.iter().any(|c| c.starts_with("write /sys")),
        "a port with no carrier is never written as active_slave: {:?}",
        sys.calls
    );
    let home = rows[0]
        .ports
        .iter()
        .find(|s| s.wire == "eth0")
        .expect("the home wire has a row");
    assert!(
        !home.reachable,
        "no carrier is not router-reachable: {rows:?}"
    );
}

#[test]
fn a_port_going_back_is_not_a_move_target_until_mii_status_says_up() {
    let f = fabric();
    let (mut p, names) = prober(&f);
    let refs: Vec<&str> = names.iter().map(String::as_str).collect();
    let mut sys = bonding(BACKUP)
        .file(&format!("/sys/class/net/{HOME}/carrier"), "1\n")
        .file(
            &format!("/sys/class/net/{HOME}/bonding_slave/mii_status"),
            "going back\n",
        );
    let mut io = ScriptedIo::answering_on(ROUTER, &refs);
    let rows = run_ticks(&mut p, &mut sys, &mut io, 4);
    assert!(
        !sys.calls.iter().any(|c| c.starts_with("write /sys")),
        "a port the bonding driver has not brought up is never written as active_slave: {:?}",
        sys.calls
    );
    let home = rows[0]
        .ports
        .iter()
        .find(|s| s.wire == "eth0")
        .expect("the home wire has a row");
    assert!(
        home.reachable,
        "the router answers over it, mii_status is a move-eligibility fact, not a reachability one: {rows:?}"
    );
    let log = p.drain_log();
    assert!(
        !log.iter().any(|l| l.contains("no carrier")),
        "carrier is 1: 'no carrier' about eth0 would be a false sentence: {log:?}"
    );
    assert!(
        !log.iter().any(|l| l.contains("cannot move")),
        "updelay is expected and short: it earns no warn line: {log:?}"
    );

    sys = sys.file(
        &format!("/sys/class/net/{HOME}/bonding_slave/mii_status"),
        "up\n",
    );
    tick(&mut p, &mut sys, &mut io, after(start(), 5000));
    assert!(
        sys.calls
            .iter()
            .any(|c| c == &format!("write /sys/class/net/{BOND}/bonding/active_slave")),
        "up is up: the very next tick writes active_slave: {:?}",
        sys.calls
    );
    assert_eq!(
        sys.read(&format!("/sys/class/net/{BOND}/bonding/active_slave"))
            .unwrap(),
        HOME,
        "and it names the home wire"
    );
    let log = p.drain_log();
    assert!(
        log.iter()
            .any(|l| l.contains("reachable on eth0 again") && l.contains("back from eth9")),
        "eth0 was unusable (going back) since the leg started and is usable now — a \
         real return, worded as one: {log:?}"
    );
    assert!(
        !log.iter().any(|l| l.contains("is preferred")),
        "a real return is not worded as a preference move: {log:?}"
    );
}

#[test]
fn a_preference_move_is_not_worded_as_a_return() {
    let f = fabric();
    let (mut p, names) = prober(&f);
    let refs: Vec<&str> = names.iter().map(String::as_str).collect();
    let mut sys = bonding(BACKUP);
    let mut io = ScriptedIo::answering_on(ROUTER, &refs);
    let rows = run_ticks(&mut p, &mut sys, &mut io, 1);
    let home = rows[0]
        .ports
        .iter()
        .find(|s| s.wire == "eth0")
        .expect("the home wire has a row");
    assert!(
        home.reachable,
        "the home wire is usable from tick one: {rows:?}"
    );
    assert!(
        sys.calls
            .iter()
            .any(|c| c == &format!("write /sys/class/net/{BOND}/bonding/active_slave")),
        "a better-preferred, already-usable wire is moved to on the very first tick: {:?}",
        sys.calls
    );
    let log = p.drain_log();
    assert!(
        log.iter()
            .any(|l| l.contains("eth0 is preferred") && l.contains("from eth9")),
        "home was usable the whole time — a preference move, not a return: {log:?}"
    );
    assert!(
        !log.iter()
            .any(|l| l.contains("again") || l.contains("back from")),
        "the 'again … back from' sentence claims the wire came back; it never went away: {log:?}"
    );
}

#[test]
fn a_later_move_onto_a_wire_that_never_left_is_a_preference_move_not_a_stale_return() {
    let f = fabric();
    let (mut p, names) = prober(&f);
    let refs: Vec<&str> = names.iter().map(String::as_str).collect();
    let mut sys = bonding(BACKUP).file(&format!("/sys/class/net/{HOME}/carrier"), "0\n");
    let mut io = ScriptedIo::answering_on(ROUTER, &refs);
    run_ticks(&mut p, &mut sys, &mut io, 3);

    sys = sys.file(&format!("/sys/class/net/{HOME}/carrier"), "1\n");
    run_ticks(&mut p, &mut sys, &mut io, 1);
    let log = p.drain_log();
    assert!(
        log.iter()
            .any(|l| l.contains("reachable on eth0 again") && l.contains("back from eth9")),
        "the setup return: {log:?}"
    );

    run_ticks(&mut p, &mut sys, &mut io, 5);
    p.drain_log();

    sys.files.insert(
        format!("/sys/class/net/{BOND}/bonding/active_slave"),
        BACKUP.to_string(),
    );
    run_ticks(&mut p, &mut sys, &mut io, 1);
    let log = p.drain_log();
    assert!(
        log.iter()
            .any(|l| l.contains("eth0 is preferred") && l.contains("from eth9")),
        "home was usable the whole time since its earlier return — this move is a \
         preference move, not the same return said twice: {log:?}"
    );
    assert!(
        !log.iter()
            .any(|l| l.contains("again") || l.contains("back from")),
        "a stale `returned` would word this move as the return that already happened: {log:?}"
    );
}

#[test]
fn a_carrier_less_wire_is_reported_unreachable_at_once() {
    let f = fabric();
    let (mut p, names) = prober(&f);
    let refs: Vec<&str> = names.iter().map(String::as_str).collect();
    let mut sys = bonding(BACKUP).file(&format!("/sys/class/net/{HOME}/carrier"), "0\n");
    let mut io = ScriptedIo::answering_on(ROUTER, &refs);
    let rows = run_ticks(&mut p, &mut sys, &mut io, 2);
    let home = rows[0]
        .ports
        .iter()
        .find(|s| s.wire == "eth0")
        .expect("the home wire has a row");
    assert!(!home.reachable, "on the second tick already: {rows:?}");
    assert!(
        !sys.calls.iter().any(|c| c.starts_with("write /sys")),
        "{:?}",
        sys.calls
    );
}

#[test]
fn a_move_off_a_wire_that_just_lost_carrier_says_so() {
    let f = fabric();
    let (mut p, names) = prober(&f);
    let refs: Vec<&str> = names.iter().map(String::as_str).collect();
    let mut sys = bonding(HOME);
    let mut io = ScriptedIo::answering_on(ROUTER, &refs);
    run_ticks(&mut p, &mut sys, &mut io, 2);
    assert!(p.drain_log().is_empty(), "nothing has happened yet");
    sys.files
        .insert(format!("/sys/class/net/{HOME}/carrier"), "0\n".to_string());
    run_ticks(&mut p, &mut sys, &mut io, 1);
    let log = p.drain_log();
    assert_eq!(
        log.first().map(String::as_str),
        Some("cfab: mgmt ingress: eth0 lost carrier, moved cfab-gw249 to eth9"),
        "{log:?}"
    );
    assert!(
        !log.iter().any(|l| l.contains("reachable")),
        "the router never stopped answering: {log:?}"
    );
    assert_eq!(
        sys.writes_to(&format!("/sys/class/net/{BOND}/bonding/active_slave")),
        Some(BACKUP)
    );
}

#[test]
fn the_no_carrier_note_is_said_once_not_on_every_tick() {
    let f = fabric();
    let (mut p, names) = prober(&f);
    let refs: Vec<&str> = names.iter().map(String::as_str).collect();
    let mut sys = bonding(BACKUP).file(&format!("/sys/class/net/{HOME}/carrier"), "0\n");
    let mut io = ScriptedIo::answering_on(ROUTER, &refs);
    io.dark(HOME);
    run_ticks(&mut p, &mut sys, &mut io, 8);
    let log = p.drain_log();
    assert_eq!(
        log.iter()
            .filter(|l| *l == "cfab: mgmt ingress: eth0 has no carrier, staying on eth9")
            .count(),
        1,
        "{log:?}"
    );
    assert_eq!(log.len(), 1, "and nothing else: {log:?}");
}

#[test]
fn a_refused_move_warns_once_and_is_not_retried() {
    let f = fabric();
    let (mut p, names) = prober(&f);
    let refs: Vec<&str> = names.iter().map(String::as_str).collect();
    let mut sys = bonding(HOME).write_fail(&format!("/sys/class/net/{BOND}/bonding/primary"));
    let mut io = ScriptedIo::answering_on(ROUTER, &refs);
    run_ticks(&mut p, &mut sys, &mut io, 3);
    io.dark(HOME);
    run_ticks(&mut p, &mut sys, &mut io, 8);
    let log = p.drain_log();
    assert_eq!(log.len(), 1, "one line for one unchanged failure: {log:?}");
    assert!(
        log[0].starts_with("cfab: warn: mgmt ingress: cannot move cfab-gw249 to eth9 ")
            && log[0].contains(BACKUP)
            && log[0].contains("permission denied"),
        "{log:?}"
    );
    assert!(!log[0].contains("FATAL"), "{log:?}");
    assert_eq!(
        sys.calls
            .iter()
            .filter(|c| c.as_str() == format!("write /sys/class/net/{BOND}/bonding/primary"))
            .count(),
        1,
        "the identical write is not retried every tick: {:?}",
        sys.calls
    );
}

/// The writes to the bond once its home has gone dark, where one of its files refuses.
fn writes_of_a_move(refusing: Option<&str>) -> (Vec<String>, Option<String>) {
    let f = fabric();
    let (mut p, names) = prober(&f);
    let refs: Vec<&str> = names.iter().map(String::as_str).collect();
    let mut sys = bonding(HOME);
    if let Some(file) = refusing {
        sys = sys.write_fail(&format!("/sys/class/net/{BOND}/bonding/{file}"));
    }
    let mut io = ScriptedIo::answering_on(ROUTER, &refs);
    run_ticks(&mut p, &mut sys, &mut io, 3);
    io.dark(HOME);
    run_ticks(&mut p, &mut sys, &mut io, 8);
    let writes = sys
        .calls
        .iter()
        .filter_map(|c| c.strip_prefix(&format!("write /sys/class/net/{BOND}/bonding/")))
        .map(str::to_string)
        .collect();
    (writes, p.held_primaries().port_for(BOND).map(str::to_string))
}

#[test]
fn a_move_writes_the_primary_first_and_stops_at_the_first_refusal() {
    let (writes, held) = writes_of_a_move(None);
    assert_eq!(writes, ["primary", "active_slave"]);
    assert_eq!(held.as_deref(), Some(BACKUP));

    let (writes, held) = writes_of_a_move(Some("primary"));
    assert_eq!(writes, ["primary"], "the active port is not written after a refusal");
    assert_eq!(held.as_deref(), Some(HOME));

    let (writes, held) = writes_of_a_move(Some("active_slave"));
    assert_eq!(writes, ["primary", "active_slave"], "and neither is tried again");
    assert_eq!(held.as_deref(), Some(HOME));
}

#[test]
fn the_held_primary_starts_home_and_follows_the_bond() {
    let f = fabric();
    let (mut p, names) = prober(&f);
    let refs: Vec<&str> = names.iter().map(String::as_str).collect();
    let mut sys = bonding(HOME);
    let mut io = ScriptedIo::answering_on(ROUTER, &refs);
    assert_eq!(p.held_primaries().port_for(BOND), Some(HOME));
    run_ticks(&mut p, &mut sys, &mut io, 3);
    io.dark(HOME);
    run_ticks(&mut p, &mut sys, &mut io, 4);
    assert_eq!(p.held_primaries().port_for(BOND), Some(BACKUP));
}


#[test]
fn a_fallback_legs_expected_peers_are_the_zones_other_members() {
    let f = fabric();
    for (member, want_targets, want_rids) in [
        (
            "pve1-tb",
            vec![[10, 99, 9, 2], [10, 99, 9, 3]],
            vec![[10, 99, 0, 2], [10, 99, 0, 3]],
        ),
        (
            "pve3-tb",
            vec![[10, 99, 9, 1], [10, 99, 9, 2]],
            vec![[10, 99, 0, 1], [10, 99, 0, 2]],
        ),
    ] {
        let p = fb_prober(&f, member);
        let Kind::Fallback(fb) = &p.legs[0].kind else {
            panic!("the storage fallback leg");
        };
        assert_eq!(
            fb.targets,
            want_targets
                .iter()
                .map(|o| Ipv4Addr::new(o[0], o[1], o[2], o[3]))
                .collect::<Vec<_>>(),
            "{member}: the peers' own addresses on this segment"
        );
        assert_eq!(
            fb.peers,
            want_rids
                .iter()
                .map(|o| Ipv4Addr::new(o[0], o[1], o[2], o[3]).bits)
                .collect::<Vec<_>>(),
            "{member}: the peers' router ids, self excluded"
        );
    }
}

#[test]
fn a_lone_member_never_asks_and_still_fixes_the_wire() {
    let f = alone(fabric());
    let mut p = fb_prober(&f, "pve1-tb");
    let mut sys = fb_bonding(FB_B);
    let mut io = ScriptedIo::answering_on("10.99.9.2", &[]);
    let t0 = start();
    hear(&mut io, FB_B, &[hello(1)]);
    hear(&mut io, FB_C, &[hello(1)]);
    let row = fb_tick(&mut p, &mut sys, &mut io, t0);
    assert!(!row.quiet, "the reflection is evidence, even with no peers");
    for _ in 1..8 {
        fb_tick(&mut p, &mut sys, &mut io, after(t0, 10_000));
    }
    assert!(
        io.sent.is_empty(),
        "a lone member asks nobody: {:?}",
        io.sent
    );
    assert!(
        !p.drain_log()
            .iter()
            .any(|l| l.contains("peers unreachable") || l.contains("no peers heard")),
        "and never says a word about peers it does not have"
    );
    assert_eq!(
        sys.writes_to(&format!("/sys/class/net/{FB}/bonding/active_slave")),
        Some(FB_A),
        "the bond still belongs on the preferred wire"
    );
}

#[test]
fn a_wire_that_goes_quiet_alone_is_asked_and_then_left() {
    let f = fabric();
    let mut p = fb_prober(&f, "pve1-tb");
    let mut sys = fb_bonding(FB_A);
    let mut io = ScriptedIo::answering_on("10.99.9.2", &[]);
    let t0 = start();
    let at = |ms| after(t0, ms);

    for tick in 0..4u64 {
        for s in FB_PORTS {
            hear(&mut io, s, &[hello(2), hello(3)]);
        }
        fb_tick(&mut p, &mut sys, &mut io, at(tick * 500));
    }
    assert!(io.sent.is_empty(), "the steady state sends nothing");

    let mut last = None;
    for tick in 4..9u64 {
        for s in [FB_B, FB_C] {
            hear(&mut io, s, &[hello(2), hello(3)]);
        }
        last = Some(fb_tick(&mut p, &mut sys, &mut io, at(tick * 500)));
    }
    let moved = sys.writes_to(&format!("/sys/class/net/{FB}/bonding/active_slave"));
    assert_eq!(moved, Some(FB_B), "the bond left the wire that went quiet");
    assert_eq!(
        sys.writes_to(&format!("/sys/class/net/{FB}/bonding/primary")),
        Some(FB_B),
        "primary first, or the next link event hands the bond back"
    );
    assert!(
        io.sent_on(FB_A).len() <= ESCALATION_TARGETS * 2,
        "the escalation is bounded to the suspect wire: {:?}",
        io.sent.iter().map(|(s, _)| s).collect::<Vec<_>>()
    );
    assert!(
        io.sent_on(FB_B).is_empty(),
        "a wire that is heard is not asked"
    );
    assert!(
        p.drain_log().iter().any(|l| l
            == "cfab: storage fallback: peers unreachable on eth9, moved cfab-st-fb to eth1"),
        "the move says which wire lost the peers"
    );
    let row = last.unwrap();
    assert!(!row.quiet);
    assert!(
        !row.ports
            .iter()
            .find(|s| s.wire == "eth9")
            .unwrap()
            .reachable,
        "and the row blames that wire, not the bond"
    );
}

#[test]
fn a_just_promoted_port_is_not_suspected_again_within_the_dead_interval() {
    let f = fabric();
    let mut p = fb_prober(&f, "pve1-tb");
    let mut sys = fb_bonding(FB_A);
    let mut io = ScriptedIo::answering_on("10.99.9.2", &[]);
    let t0 = start();
    let at = |ms| after(t0, ms);
    for tick in 0..4u64 {
        for s in FB_PORTS {
            hear(&mut io, s, &[hello(2)]);
        }
        fb_tick(&mut p, &mut sys, &mut io, at(tick * 500));
    }
    for tick in 4..9u64 {
        for s in [FB_B, FB_C] {
            hear(&mut io, s, &[hello(2)]);
        }
        fb_tick(&mut p, &mut sys, &mut io, at(tick * 500));
    }
    assert_eq!(
        sys.writes_to(&format!("/sys/class/net/{FB}/bonding/active_slave")),
        Some(FB_B)
    );
    sys = fb_bonding(FB_B);
    p.drain_log();
    for tick in 9..14u64 {
        hear(&mut io, FB_C, &[hello(2)]);
        fb_tick(&mut p, &mut sys, &mut io, at(tick * 500));
    }
    assert!(
        !sys.calls.iter().any(|c| c.starts_with("write /sys")),
        "no second move inside the grace period: {:?}",
        sys.calls
    );
    assert!(
        io.sent_on(FB_B).is_empty(),
        "and nothing is asked of it either"
    );
}

#[test]
fn a_leg_that_hears_nothing_anywhere_is_left_alone_and_said_once() {
    let f = fabric();
    let mut p = fb_prober(&f, "pve1-tb");
    let mut sys = fb_bonding(FB_A);
    let mut io = ScriptedIo::answering_on("10.99.9.2", &[]);
    let t0 = start();
    for tick in 0..3u64 {
        for s in FB_PORTS {
            hear(&mut io, s, &[hello(2)]);
        }
        fb_tick(
            &mut p,
            &mut sys,
            &mut io,
            after(t0, tick * 500),
        );
    }
    p.drain_log();
    let mut row = None;
    for tick in 3..24u64 {
        row = Some(fb_tick(
            &mut p,
            &mut sys,
            &mut io,
            after(t0, tick * 500),
        ));
    }
    assert!(row.unwrap().quiet, "the leg says the fault is not per-wire");
    let asked = io.sent.len();
    let written = sys
        .calls
        .iter()
        .filter(|c| c.starts_with("write /sys"))
        .count();
    for tick in 24..40u64 {
        fb_tick(
            &mut p,
            &mut sys,
            &mut io,
            after(t0, tick * 500),
        );
    }
    assert_eq!(io.sent.len(), asked, "a quiet leg asks nobody");
    assert_eq!(
        sys.calls
            .iter()
            .filter(|c| c.starts_with("write /sys"))
            .count(),
        written,
        "and a quiet leg moves nothing: {:?}",
        sys.calls
    );
    assert!(io.sent_on(FB_C).is_empty(), "the last wire is never asked");
    assert_eq!(
        p.drain_log()
            .iter()
            .filter(|l| l.contains("no peers heard"))
            .count(),
        1,
        "said once, not twice a second"
    );
}

#[test]
fn a_carrier_less_wire_is_never_a_target_and_never_written() {
    let f = fabric();
    let mut p = fb_prober(&f, "pve1-tb");
    let mut sys = fb_bonding(FB_B)
        .file(&format!("/sys/class/net/{FB_A}/carrier"), "0\n")
        .file(&format!("/sys/class/net/{FB_C}/carrier"), "0\n");
    let mut io = ScriptedIo::answering_on("10.99.9.2", &[]);
    let t0 = start();
    for tick in 0..6u64 {
        hear(&mut io, FB_B, &[hello(2)]);
        fb_tick(
            &mut p,
            &mut sys,
            &mut io,
            after(t0, tick * 500),
        );
    }
    assert!(
        !sys.calls.iter().any(|c| c.starts_with("write /sys")),
        "the preferred wire is dark, so there is nowhere better to be: {:?}",
        sys.calls
    );
    assert!(
        p.drain_log()
            .iter()
            .any(|l| l == "cfab: storage fallback: eth9 has no carrier, staying on eth1"),
        "and the skipped wire is named once"
    );
}

#[test]
fn a_leg_whose_bonding_is_unreadable_is_never_written() {
    let f = fabric();
    let mut p = fb_prober(&f, "pve1-tb");
    let mut sys = MockSys::default();
    let mut io = ScriptedIo::answering_on("10.99.9.2", &[]);
    let t0 = start();
    for tick in 0..6u64 {
        hear(&mut io, FB_B, &[hello(2)]);
        fb_tick(
            &mut p,
            &mut sys,
            &mut io,
            after(t0, tick * 500),
        );
    }
    assert!(
        !sys.calls.iter().any(|c| c.starts_with("write /sys")),
        "{:?}",
        sys.calls
    );
}

#[test]
fn one_deaf_wire_is_named_once_per_failure_not_per_tick() {
    let f = fabric();
    let mut p = fb_prober(&f, "pve1-tb");
    let mut sys = fb_bonding(FB_A);
    let mut io = ScriptedIo::answering_on("10.99.9.2", &[]);
    io.deaf = [FB_A.to_string()].into_iter().collect();
    let t0 = start();
    for tick in 0..4u64 {
        hear(&mut io, FB_B, &[hello(2)]);
        fb_tick(
            &mut p,
            &mut sys,
            &mut io,
            after(t0, tick * 500),
        );
    }
    let log = p.drain_log();
    assert_eq!(
        log.iter().filter(|l| l.contains("cannot listen")).count(),
        1,
        "once, not once per tick: {log:?}"
    );
    assert!(
        log[0].ends_with(" — eth9 is not judged"),
        "the leg IS probed; only this wire is not: {:?}",
        log[0]
    );

    io.deaf.clear();
    for tick in 4..8u64 {
        hear(&mut io, FB_A, &[hello(2)]);
        hear(&mut io, FB_B, &[hello(2)]);
        fb_tick(
            &mut p,
            &mut sys,
            &mut io,
            after(t0, tick * 500),
        );
    }
    assert!(
        p.drain_log().is_empty(),
        "a working tap says nothing at all"
    );
    io.deaf = [FB_A.to_string()].into_iter().collect();
    for tick in 8..12u64 {
        hear(&mut io, FB_B, &[hello(2)]);
        fb_tick(
            &mut p,
            &mut sys,
            &mut io,
            after(t0, tick * 500),
        );
    }
    assert_eq!(
        p.drain_log()
            .iter()
            .filter(|l| l.contains("cannot listen"))
            .count(),
        1,
        "the second failure is a second line"
    );
}

#[test]
fn a_leg_with_no_tap_at_all_refuses_itself_once_by_name() {
    let f = fabric();
    let mut p = fb_prober(&f, "pve3-tb");
    let mut sys = fb_bonding(FB_A);
    let mut io = ScriptedIo::answering_on("10.99.9.1", &[]);
    io.deaf = FB_PORTS.iter().map(|s| s.to_string()).collect();
    let t0 = start();
    for tick in 0..6u64 {
        fb_tick(
            &mut p,
            &mut sys,
            &mut io,
            after(t0, tick * 500),
        );
    }
    let log = p.drain_log();
    assert_eq!(
        log.iter().filter(|l| l.contains("cannot listen")).count(),
        FB_PORTS.len(),
        "once per wire, then never again: {log:?}"
    );
    assert!(
        log[0].starts_with(
            "cfab: storage fallback: cannot listen on eth9 (cfab-st-fb-a: cannot open \
             AF_PACKET: Operation not permitted"
        ),
        "{:?}",
        log[0]
    );
    assert!(
        !sys.calls.iter().any(|c| c.starts_with("write /sys")),
        "a leg it cannot hear is a leg it does not move: {:?}",
        sys.calls
    );
}

#[test]
fn hello_silence_with_the_adjacency_down_moves_the_bond_though_arp_still_answers() {
    let f = fabric();
    let mut p = fb_prober(&f, "pve1-tb");
    let mut sys = fb_bonding_with_engine(FB_A, &[(2, "down"), (3, "down")]);
    let mut io = ScriptedIo::answering_on("10.99.9.2", &[FB_A]);
    let t0 = start();
    let at = |ms| after(t0, ms);
    fb_steady(&mut p, &mut sys, &mut io, t0);
    assert!(
        !sys.calls.iter().any(|c| c.starts_with("unix_request")),
        "a healthy leg asks the engine nothing: {:?}",
        sys.calls
    );
    p.drain_log();

    for tick in 4..14u64 {
        for s in [FB_B, FB_C] {
            hear(&mut io, s, &[hello(2), hello(3)]);
        }
        fb_tick(&mut p, &mut sys, &mut io, at(tick * 500));
    }
    assert_eq!(
        sys.writes_to(&format!("/sys/class/net/{FB}/bonding/active_slave")),
        Some(FB_B),
        "the bond left the wire the peers went silent on"
    );
    assert_eq!(
        sys.writes_to(&format!("/sys/class/net/{FB}/bonding/primary")),
        Some(FB_B)
    );
    let log = p.drain_log();
    assert_eq!(
        log.iter()
            .filter(|l| l.contains(&format!("moved {FB}")))
            .count(),
        1,
        "one move line: {log:?}"
    );
    assert!(
        log.iter().any(|l| l
            == "cfab: storage fallback: peers silent on eth9 (adjacency down, arp still \
                answers), moved cfab-st-fb to eth1"),
        "and it says why this move is not the ARP one: {log:?}"
    );
}

#[test]
fn a_wire_revived_by_a_hello_the_tick_after_condemnation_is_worded_as_a_return() {
    let f = fabric();
    let mut p = fb_prober(&f, "pve1-tb");
    let mut sys = fb_bonding_with_engine(FB_A, &[(2, "down"), (3, "down")]);
    let mut io = ScriptedIo::answering_on("10.99.9.2", &[FB_A]);
    let t0 = start();
    let at = |ms| after(t0, ms);
    fb_steady(&mut p, &mut sys, &mut io, t0);
    p.drain_log();

    let mut condemned_at = None;
    for tick in 4..14u64 {
        for s in [FB_B, FB_C] {
            hear(&mut io, s, &[hello(2), hello(3)]);
        }
        fb_tick(&mut p, &mut sys, &mut io, at(tick * 500));
        if condemned_at.is_none()
            && sys.writes_to(&format!("/sys/class/net/{FB}/bonding/active_slave")) == Some(FB_B)
        {
            condemned_at = Some(tick);
            break;
        }
    }
    let condemned_at = condemned_at.expect("the leg condemns the home wire within 10 ticks");
    p.drain_log();

    hear(&mut io, FB_A, &[hello(2)]);
    for s in [FB_B, FB_C] {
        hear(&mut io, s, &[hello(2), hello(3)]);
    }
    fb_tick(&mut p, &mut sys, &mut io, at((condemned_at + 1) * 500));
    assert_eq!(
        sys.writes_to(&format!("/sys/class/net/{FB}/bonding/active_slave")),
        Some(FB_A),
        "home is preferred and usable again, so the bond moves back to it"
    );
    let log = p.drain_log();
    assert!(
        log.iter()
            .any(|l| l.contains("peers reachable on eth9 again") && l.contains("back from")),
        "eth9 was condemned (unusable) last tick and is usable this tick — a real \
         return, not a preference move: {log:?}"
    );
    assert!(
        !log.iter().any(|l| l.contains("is preferred")),
        "the ordering bug words this a preference move instead: {log:?}"
    );
}

#[test]
fn hello_silence_with_a_peer_still_adjacent_never_moves_the_bond() {
    let f = fabric();
    let mut p = fb_prober(&f, "pve1-tb");
    let mut sys = fb_bonding_with_engine(FB_A, &[(2, "full"), (3, "down")]);
    let mut io = ScriptedIo::answering_on("10.99.9.2", &[FB_A]);
    let t0 = start();
    let at = |ms| after(t0, ms);
    fb_steady(&mut p, &mut sys, &mut io, t0);
    for tick in 4..14u64 {
        for s in [FB_B, FB_C] {
            hear(&mut io, s, &[hello(2), hello(3)]);
        }
        fb_tick(&mut p, &mut sys, &mut io, at(tick * 500));
    }
    assert!(
        sys.calls
            .iter()
            .any(|c| c == "unix_request /run/cfab/engine.sock state"),
        "the engine was asked — this case is the guard, not a leg that never got there: {:?}",
        sys.calls
    );
    assert!(
        !sys.calls.iter().any(|c| c.starts_with("write /sys")),
        "one peer still adjacent over the bond is the wire working: {:?}",
        sys.calls
    );
}

#[test]
fn hello_silence_on_every_wire_condemns_none_and_asks_the_engine_nothing() {
    let f = fabric();
    let mut p = fb_prober(&f, "pve1-tb");
    let mut sys = fb_bonding_with_engine(FB_A, &[(2, "down"), (3, "down")]);
    let mut io = ScriptedIo::answering_on("10.99.9.2", &[FB_A]);
    let t0 = start();
    let at = |ms| after(t0, ms);
    fb_steady(&mut p, &mut sys, &mut io, t0);
    for tick in 4..14u64 {
        fb_tick(&mut p, &mut sys, &mut io, at(tick * 500));
    }
    assert!(
        !sys.calls.iter().any(|c| c.starts_with("write /sys")),
        "nowhere to move to: {:?}",
        sys.calls
    );
    assert!(
        !sys.calls.iter().any(|c| c.starts_with("unix_request")),
        "and no reason to ask the engine: {:?}",
        sys.calls
    );
}

#[test]
fn a_wire_condemned_by_hello_silence_is_revived_only_by_a_hello() {
    let f = fabric();
    let mut p = fb_prober(&f, "pve1-tb");
    let mut sys = fb_bonding_with_engine(FB_A, &[(2, "down"), (3, "down")]);
    let mut io = ScriptedIo::answering_on("10.99.9.2", &[FB_A]);
    let t0 = start();
    let at = |ms| after(t0, ms);
    fb_steady(&mut p, &mut sys, &mut io, t0);
    for tick in 4..14u64 {
        for s in [FB_B, FB_C] {
            hear(&mut io, s, &[hello(2), hello(3)]);
        }
        fb_tick(&mut p, &mut sys, &mut io, at(tick * 500));
    }
    assert_eq!(
        sys.writes_to(&format!("/sys/class/net/{FB}/bonding/active_slave")),
        Some(FB_B)
    );
    p.drain_log();
    let sent_before = io.sent_on(FB_A).len();

    for tick in 14..26u64 {
        for s in [FB_B, FB_C] {
            hear(&mut io, s, &[hello(2), hello(3)]);
        }
        fb_tick(&mut p, &mut sys, &mut io, at(tick * 500));
    }
    assert_eq!(
        sys.writes_to(&format!("/sys/class/net/{FB}/bonding/active_slave")),
        Some(FB_B),
        "an ARP reply on the condemned wire never pulls the bond back"
    );
    assert_eq!(
        io.sent_on(FB_A).len(),
        sent_before,
        "and it is not re-asked every tick either"
    );
    assert!(
        p.drain_log().iter().all(|l| !l.contains("moved")),
        "no second move"
    );

    for tick in 26..30u64 {
        for s in FB_PORTS {
            hear(&mut io, s, &[hello(2), hello(3)]);
        }
        fb_tick(&mut p, &mut sys, &mut io, at(tick * 500));
    }
    assert_eq!(
        sys.writes_to(&format!("/sys/class/net/{FB}/bonding/active_slave")),
        Some(FB_A),
        "a hello, and only a hello, brings the wire back"
    );
}

#[test]
fn an_unreadable_engine_never_condemns_a_wire_and_is_said_once() {
    let f = fabric();
    let mut p = fb_prober(&f, "pve1-tb");
    let mut sys = fb_bonding(FB_A);
    let mut io = ScriptedIo::answering_on("10.99.9.2", &[FB_A]);
    let t0 = start();
    let at = |ms| after(t0, ms);
    fb_steady(&mut p, &mut sys, &mut io, t0);
    p.drain_log();
    for tick in 4..14u64 {
        for s in [FB_B, FB_C] {
            hear(&mut io, s, &[hello(2), hello(3)]);
        }
        fb_tick(&mut p, &mut sys, &mut io, at(tick * 500));
    }
    assert!(
        !sys.calls.iter().any(|c| c.starts_with("write /sys")),
        "without the engine's word the wire still answers ARP and is kept: {:?}",
        sys.calls
    );
    let log = p.drain_log();
    assert_eq!(
        log.iter()
            .filter(|l| l.as_str()
                == "cfab: storage fallback: the engine's ospf state for cfab-st-fb cannot be \
                    read — hello silence on the active wire is left to the arp escalation")
            .count(),
        1,
        "said once, in full: {log:?}"
    );
}
