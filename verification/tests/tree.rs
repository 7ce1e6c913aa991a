//! The engine's configuration of a member.

use cfab::decl::{
    AdminDecl, BfdDecl, BgpDecl, CostDecl, Declaration, Defaults, ForwardDecl, GwDecl, MarkingDecl,
    MemberDecl, OspfDecl, RuntimeDecl, SegmentDecl, UniversalDecl, WireDecl, ZoneDecl,
};
use cfab::derive::{Ceiling, ClassRow, FallbackRow, GwRow, LegPort, MemberView, ZoneList};
use cfab::model::{Dscp, Fabric, Member, MemberKind, SegScope};
use cfab::emit::engine::{self, TransitCost, CFAB_PROTO, PROTO_BASE};
use cfab::engine::cidr::IpNet;
use cfab::engine::{
    bfd_socket_policy, bgp_listen_policy, control_priority, parse_prefsrc, BfdSocketPolicy,
    BgpListenPolicy, IpHost,
};
use cfab::ipv4::Ipv4Addr;
use cfab::json::Json;
use cfab::model::prefix::Ipv4Prefix;
use serde_json::Value;

fn wire(nic: &str, domain: &str, speed_mbps: u32) -> WireDecl {
    WireDecl {
        nic: nic.to_string(),
        domain: domain.to_string(),
        speed_mbps,
        driver_features: None,
        usb: None,
    }
}

fn member(name: &str, node: u8, kind: MemberKind, fast: u32) -> MemberDecl {
    MemberDecl {
        name: name.to_string(),
        node,
        kind,
        wires: vec![wire("eth9", "a", fast), wire("eth1", "b", 1000), wire("eth0", "c", 1000)],
        prefs: vec![],
        workloads: vec![],
    }
}

fn seg(ifname: &str, domain: &str, seg: u8, vid: u16) -> SegmentDecl {
    SegmentDecl {
        ifname: ifname.to_string(),
        domain: domain.to_string(),
        seg,
        vid,
    }
}

fn universal(ifname: &str, vid: u16) -> Option<UniversalDecl> {
    Some(UniversalDecl {
        ifname: ifname.to_string(),
        seg: 9,
        vid,
    })
}

fn zone(
    name: &str,
    id: u8,
    marks: (u8, Dscp),
    shape: (u32, u32, u32),
    primary: &str,
    segments: Vec<SegmentDecl>,
    universal: Option<UniversalDecl>,
) -> ZoneDecl {
    ZoneDecl {
        name: name.to_string(),
        id,
        pcp: marks.0,
        dscp: marks.1,
        floor_mbps: shape.0,
        band: shape.1,
        weight: shape.2,
        primary: primary.to_string(),
        segments,
        universal,
        gw: None,
    }
}

/// Other values than the declaration's own, so that it shows which of the two is taken.
fn defaults() -> Defaults {
    Defaults {
        admin: AdminDecl {
            floor_mbps: 50,
            band: 2,
        },
        marking: MarkingDecl {
            pcp_ctrl: 5,
            set_dscp: false,
        },
        cost: CostDecl { leaf_offset: 20000 },
        bfd: BfdDecl {
            rx_ms: 300,
            tx_ms: 350,
            mult: 4,
            port: 4784,
        },
        ospf: OspfDecl {
            hello_s: 2,
            dead_s: 8,
        },
        bgp: BgpDecl {
            asn: 65020,
            keepalive_s: 10,
            hold_s: 30,
            connect_s: 15,
        },
        runtime: RuntimeDecl {
            run_dir: "/run/other".to_string(),
        },
    }
}

/// Three members on three switches, with three zones over them.
fn example() -> Declaration {
    let mut mgmt = zone(
        "mgmt",
        249,
        (2, Dscp::Cs2),
        (100, 1, 1),
        "c",
        vec![
            seg("cfab-mg", "c", 1, 250),
            seg("cfab-mg-bk", "a", 2, 251),
            seg("cfab-mg-b2", "b", 3, 252),
        ],
        universal("cfab-mg-fb", 302),
    );
    mgmt.gw = Some(GwDecl {
        domain: "any".to_string(),
        vid: 249,
        router: "192.168.249.254/24".to_string(),
    });
    Declaration {
        domains: vec!["a".to_string(), "b".to_string(), "c".to_string()],
        members: vec![
            member("pve1-tb", 1, MemberKind::Host, 5000),
            member("pve2-tb", 2, MemberKind::Host, 5000),
            member("pve3-tb", 3, MemberKind::Leaf, 10000),
        ],
        zones: vec![
            zone(
                "storage",
                99,
                (0, Dscp::Cs0),
                (2000, 2, 4),
                "a",
                vec![
                    seg("cfab-st", "a", 1, 100),
                    seg("cfab-st-bk", "b", 2, 101),
                    seg("cfab-st-b2", "c", 3, 102),
                ],
                universal("cfab-st-fb", 300),
            ),
            zone(
                "cluster",
                199,
                (6, Dscp::Cs6),
                (200, 0, 1),
                "b",
                vec![
                    seg("cfab-cl", "b", 1, 200),
                    seg("cfab-cl-bk", "a", 2, 201),
                    seg("cfab-cl-b2", "c", 3, 202),
                ],
                universal("cfab-cl-fb", 301),
            ),
            mgmt,
        ],
        workload: vec![],
        forward: ForwardDecl {
            enabled: true,
            allow: vec![
                "storage>storage".to_string(),
                "cluster>cluster".to_string(),
                "mgmt>mgmt".to_string(),
            ],
        },
        admin: Some(AdminDecl {
            floor_mbps: 100,
            band: 1,
        }),
        marking: Some(MarkingDecl {
            pcp_ctrl: 6,
            set_dscp: true,
        }),
        cost: Some(CostDecl { leaf_offset: 30000 }),
        bfd: Some(BfdDecl {
            rx_ms: 250,
            tx_ms: 250,
            mult: 3,
            port: 3784,
        }),
        ospf: Some(OspfDecl {
            hello_s: 1,
            dead_s: 3,
        }),
        bgp: Some(BgpDecl {
            asn: 65010,
            keepalive_s: 3,
            hold_s: 9,
            connect_s: 5,
        }),
        runtime: Some(RuntimeDecl {
            run_dir: "/run/cfab".to_string(),
        }),
        dns_domain: "fabric.example".to_string(),
        defaults: defaults(),
    }
}

fn fabric() -> Fabric {
    Fabric::from_decl(&example()).unwrap()
}

fn names(zone: &str, names: Vec<String>) -> ZoneList {
    ZoneList {
        zone: zone.to_string(),
        names,
    }
}

/// A member's ports under a bond: one for each wire, named after the wire's domain.
fn ports(m: &Member, bond: &str) -> Vec<LegPort> {
    m.wires
        .iter()
        .map(|w| LegPort {
            ifname: format!("{bond}-{}", w.domain.as_str()),
            wire: w.name.clone(),
        })
        .collect()
}

/// A zone's wire order on a member: the primary domain first, then by speed.
fn order(m: &Member, primary: &str) -> Vec<String> {
    let mut w: Vec<(bool, u32, String)> = m
        .wires
        .iter()
        .map(|w| (w.domain.as_str() != primary, u32::MAX - w.speed_mbps, w.name.clone()))
        .collect();
    w.sort_by_key(|x| (x.0, x.1));
    w.into_iter().map(|x| x.2).collect()
}

/// What a member gets of the fabric.
fn view<'a>(f: &'a Fabric, name: &str) -> MemberView<'a> {
    let m = f.members.iter().find(|m| m.name == name).unwrap();
    let mut v = MemberView {
        fabric: f,
        member: m,
        class_rows: vec![],
        fallback_rows: vec![],
        gw_rows: vec![],
        prefs: vec![],
        fallback_members: vec![],
        zone_ifs: vec![],
        admin_ifs: vec![],
        owned_forwarding: vec![],
        workloads: vec![],
        dscp_ctrl: Dscp::Cs6,
        ceilings: vec![],
    };
    for z in &f.zones {
        let prefs = order(m, z.primary.as_str());
        let home = prefs[0].clone();
        let mut ifs = vec![];
        for s in f.segments.iter().filter(|s| s.zone == z.name) {
            ifs.push(s.ifname.clone());
            v.owned_forwarding.push(s.ifname.clone());
            match &s.scope {
                SegScope::Domain(d) => {
                    let wire = m.wire_on(d).unwrap().name.clone();
                    let rank = prefs.iter().position(|p| *p == wire).unwrap();
                    v.class_rows.push(ClassRow {
                        ifname: s.ifname.clone(),
                        zone: z.name.clone(),
                        wire,
                        ospf_cost: [10, 100, 1000][rank],
                    });
                }
                SegScope::Universal => {
                    let ports = ports(m, &s.ifname);
                    v.owned_forwarding.extend(ports.iter().map(|p| p.ifname.clone()));
                    v.fallback_rows.push(FallbackRow {
                        zone: z.name.clone(),
                        ifname: s.ifname.clone(),
                        seg: s.seg,
                        home: home.clone(),
                        ospf_cost: 5000,
                        ports,
                    });
                    v.ceilings.push(Ceiling {
                        ifname: s.ifname.clone(),
                        zone: z.name.clone(),
                        rate_pps: 80,
                        burst_pkts: 160,
                    });
                    let all = f.members.iter().map(|m| m.name.clone()).collect();
                    v.fallback_members.push(names(&z.name, all));
                }
            }
        }
        if let (Some(gw), MemberKind::Host) = (&z.gw, m.kind) {
            let ifname = format!("cfab-gw{}", z.id);
            let (home, ports) = match &gw.scope {
                SegScope::Universal => (home, ports(m, &ifname)),
                SegScope::Domain(d) => (m.wire_on(d).unwrap().name.clone(), vec![]),
            };
            v.owned_forwarding.push(ifname.clone());
            v.gw_rows.push(GwRow {
                zone: z.name.clone(),
                ifname,
                home,
                ports,
            });
        }
        v.prefs.push(names(&z.name, prefs));
        v.zone_ifs.push(names(&z.name, ifs));
    }
    if m.kind == MemberKind::Host {
        v.admin_ifs = m.wires.iter().map(|w| w.name.clone()).collect();
    }
    v
}

/// A value as another JSON library holds it.
fn value(j: &Json) -> Value {
    match j {
        Json::Null => Value::Null,
        Json::Bool(b) => Value::from(*b),
        Json::Uint(n) => Value::from(*n),
        Json::Int(n) => Value::from(*n),
        Json::Real(s) => s.parse::<f64>().unwrap().into(),
        Json::Str(s) => Value::from(s.as_str()),
        Json::Arr(v) => Value::Array(v.iter().map(value).collect()),
        Json::Obj(v) => Value::Object(v.iter().map(|(k, x)| (k.clone(), value(x))).collect()),
    }
}

fn made(f: &Fabric, member: &str) -> Value {
    value(&engine::generate(&view(f, member)).unwrap())
}

fn tree(member: &str) -> Value {
    made(&fabric(), member)
}

fn instances(t: &Value) -> &Vec<Value> {
    t["ietf-routing:routing"]["control-plane-protocols"]["control-plane-protocol"]
        .as_array()
        .unwrap()
}

/// The per-zone OSPF instances; the member's one BGP instance is appended after them.
fn ospf_instances(t: &Value) -> Vec<&Value> {
    instances(t)
        .iter()
        .filter(|p| p["type"] == "ietf-ospf:ospfv2")
        .collect()
}

fn instance<'a>(t: &'a Value, name: &str) -> &'a Value {
    instances(t).iter().find(|p| p["name"] == name).unwrap()
}

fn ospf_ifs(inst: &Value) -> &Vec<Value> {
    let areas = inst["ietf-ospf:ospf"]["areas"]["area"].as_array().unwrap();
    assert_eq!(areas.len(), 1);
    assert_eq!(areas[0]["area-id"], "0.0.0.0");
    areas[0]["interfaces"]["interface"].as_array().unwrap()
}

fn ospf_if<'a>(inst: &'a Value, name: &str) -> &'a Value {
    ospf_ifs(inst).iter().find(|i| i["name"] == name).unwrap()
}

fn if_names(t: &Value) -> Vec<String> {
    t["ietf-interfaces:interfaces"]["interface"]
        .as_array()
        .unwrap()
        .iter()
        .map(|i| i["name"].as_str().unwrap().to_string())
        .collect()
}

/// The one BGP instance of the emitted tree, or `None` when the member emits none.
fn bgp_instance(t: &Value) -> Option<&Value> {
    instances(t).iter().find(|p| p["type"] == "ietf-bgp:bgp")
}

/// The same fabric with a second gw zone.
fn fabric_with_two_gw_zones() -> Fabric {
    let mut d = example();
    d.zones[1].gw = Some(GwDecl {
        domain: "any".to_string(),
        vid: 199,
        router: "192.168.199.254/24".to_string(),
    });
    Fabric::from_decl(&d).unwrap()
}

/// The same fabric with no ingress at all.
fn fabric_without_a_gw() -> Fabric {
    let mut d = example();
    d.zones[2].gw = None;
    Fabric::from_decl(&d).unwrap()
}

/// Every string value under `key`, anywhere in the tree.
fn collect(v: &Value, key: &str, out: &mut Vec<String>) {
    if let Some(m) = v.as_object() {
        for (k, val) in m {
            if k == key {
                if let Some(s) = val.as_str() {
                    out.push(s.to_string());
                } else if let Some(a) = val.as_array() {
                    out.extend(a.iter().filter_map(|e| e.as_str()).map(str::to_string));
                }
            }
            collect(val, key, out);
        }
    } else if let Some(a) = v.as_array() {
        for e in a {
            collect(e, key, out);
        }
    }
}

fn names_at(t: &Value, path: &[&str]) -> Vec<String> {
    let mut v = &t["ietf-routing-policy:routing-policy"];
    for p in path {
        v = &v[p];
    }
    v.as_array()
        .unwrap()
        .iter()
        .map(|e| e["name"].as_str().unwrap().to_string())
        .collect()
}

#[test]
fn cfab_proto_is_outside_the_swept_range_and_not_well_known() {
    let swept = PROTO_BASE..=PROTO_BASE + 3;
    assert!(!swept.contains(&CFAB_PROTO), "{CFAB_PROTO} in {swept:?}");
    let well_known: [u8; 21] = [
        2, 3, 4, 8, 9, 10, 11, 12, 13, 14, 15, 16, 18, 42, 84, 99, 186, 187, 188, 189, 192,
    ];
    assert!(!well_known.contains(&CFAB_PROTO));
}

#[test]
fn host_tree_has_three_ospf_instances_and_bfd_in_microseconds() {
    let t = tree("pve1-tb");
    let names: Vec<&str> = ospf_instances(&t)
        .iter()
        .map(|p| p["name"].as_str().unwrap())
        .collect();
    assert_eq!(names, ["storage", "cluster", "mgmt"]);
    let mgmt = instance(&t, "mgmt");
    assert_eq!(mgmt["ietf-ospf:ospf"]["explicit-router-id"], "10.249.0.1");

    let mg = ospf_if(mgmt, "cfab-mg");
    assert_eq!(mg["interface-type"], "broadcast");
    assert_eq!(mg["cost"], 10);
    assert_eq!(mg["hello-interval"], 1);
    assert_eq!(mg["dead-interval"], 3);
    assert_eq!(mg["bfd"]["enabled"], true);
    assert_eq!(mg["bfd"]["local-multiplier"], 3);
    assert_eq!(mg["bfd"]["desired-min-tx-interval"], 250_000);
    assert_eq!(mg["bfd"]["required-min-rx-interval"], 250_000);

    for passive in ["cfab-id249", "cfab-gw249"] {
        let p = ospf_if(mgmt, passive);
        assert_eq!(p["passive"], true, "{passive}");
        assert!(p.get("cost").is_none(), "{passive} carries a cost");
        assert!(p.get("bfd").is_none(), "{passive} carries bfd");
    }

    let ifs = if_names(&t);
    assert!(ifs.contains(&"cfab-gw249".to_string()));
    let mut sorted = ifs.clone();
    sorted.sort();
    sorted.dedup();
    assert_eq!(sorted.len(), ifs.len(), "duplicate interface entry: {ifs:?}");
    for inst in ospf_instances(&t) {
        for i in ospf_ifs(inst) {
            let n = i["name"].as_str().unwrap();
            assert!(ifs.contains(&n.to_string()), "{n} missing from interfaces");
        }
    }
    for e in t["ietf-interfaces:interfaces"]["interface"].as_array().unwrap() {
        let keys: Vec<&String> = e.as_object().unwrap().keys().collect();
        assert_eq!(keys, ["name", "type"], "{e}");
        assert_eq!(e["type"], "iana-if-type:ethernetCsmacd");
        assert!(e["name"].as_str().unwrap().starts_with("cfab-"));
    }
}

#[test]
fn every_instance_sets_the_spf_backoff() {
    for member in ["pve1-tb", "pve3-tb"] {
        let t = tree(member);
        for inst in ospf_instances(&t) {
            let d = &inst["ietf-ospf:ospf"]["spf-control"]["ietf-spf-delay"];
            let name = &inst["name"];
            assert_eq!(d["long-delay"], 100, "{member} {name}");
            assert_eq!(d["hold-down"], 3000, "{member} {name}");
            for dflt in ["initial-delay", "short-delay", "time-to-learn"] {
                assert!(d.get(dflt).is_none(), "{member} {name} pins {dflt}");
            }
        }
    }
}

#[test]
fn a_fail_closed_host_advertises_transit_links_at_the_leaf_offset() {
    let f = fabric();
    let v = view(&f, "pve1-tb");
    let normal = value(&engine::generate_at(&v, TransitCost::Declared).unwrap());
    let offset = value(&engine::generate_at(&v, TransitCost::LeafOffset).unwrap());
    assert_eq!(
        normal,
        value(&engine::generate(&v).unwrap()),
        "Declared is what `up` commits"
    );
    for (zone, ifn, declared) in [
        ("storage", "cfab-st", 10),
        ("storage", "cfab-st-bk", 100),
        ("cluster", "cfab-cl", 10),
        ("mgmt", "cfab-mg", 10),
        ("storage", "cfab-st-fb", 5000),
    ] {
        assert_eq!(ospf_if(instance(&normal, zone), ifn)["cost"], declared);
        assert_eq!(
            ospf_if(instance(&offset, zone), ifn)["cost"],
            declared + 30000,
            "{zone} {ifn}"
        );
    }
    let strip = |t: &Value| {
        let s = serde_json::to_string(t).unwrap();
        let mut out = String::new();
        let mut rest = s.as_str();
        while let Some(at) = rest.find("\"cost\":") {
            out.push_str(&rest[..at]);
            out.push_str("\"cost\":X");
            rest = &rest[at + 7..];
            rest = rest.trim_start_matches(|c: char| c.is_ascii_digit());
        }
        out.push_str(rest);
        out
    };
    assert_eq!(strip(&normal), strip(&offset));
}

/// The tree with every cost in it raised.
fn raised(t: &Value, by: u64) -> Value {
    match t {
        Value::Array(v) => Value::Array(v.iter().map(|x| raised(x, by)).collect()),
        Value::Object(m) => Value::Object(
            m.iter()
                .map(|(k, x)| match x.as_u64() {
                    Some(n) if k == "cost" => (k.clone(), Value::from(n + by)),
                    _ => (k.clone(), raised(x, by)),
                })
                .collect(),
        ),
        x => x.clone(),
    }
}

#[test]
fn the_offset_tree_is_the_declared_one_with_every_cost_raised() {
    let f = fabric();
    let v = view(&f, "pve1-tb");
    let normal = value(&engine::generate_at(&v, TransitCost::Declared).unwrap());
    let offset = value(&engine::generate_at(&v, TransitCost::LeafOffset).unwrap());
    assert_ne!(normal, offset);
    assert_eq!(raised(&normal, 30000), offset);
}

#[test]
fn a_leaf_is_unaffected_by_the_transit_cost_request() {
    let f = fabric();
    let v = view(&f, "pve3-tb");
    assert_eq!(
        value(&engine::generate_at(&v, TransitCost::Declared).unwrap()),
        value(&engine::generate_at(&v, TransitCost::LeafOffset).unwrap())
    );
}

#[test]
fn leaf_offsets_costs_no_gw_leg() {
    let t = tree("pve3-tb");
    assert_eq!(ospf_instances(&t).len(), 3);
    let st = ospf_if(instance(&t, "storage"), "cfab-st");
    assert_eq!(st["cost"], 30010);
    let s = serde_json::to_string(&t).unwrap();
    assert!(!s.contains("cfab-gw"), "leaf carries an ingress leg: {s}");
}

#[test]
fn fallback_interface_carries_a_cost_and_no_bfd_after_the_segments() {
    for (member, cost) in [("pve1-tb", 5000), ("pve3-tb", 35000)] {
        let t = tree(member);
        for (zone, bond) in [
            ("storage", "cfab-st-fb"),
            ("cluster", "cfab-cl-fb"),
            ("mgmt", "cfab-mg-fb"),
        ] {
            let inst = instance(&t, zone);
            let r = ospf_if(inst, bond);
            assert_eq!(r["interface-type"], "broadcast", "{member} {bond}");
            assert_eq!(r["hello-interval"], 1, "{member} {bond}");
            assert_eq!(r["dead-interval"], 3, "{member} {bond}");
            assert_eq!(r["cost"], cost, "{member} {bond}");
            assert!(
                r.as_object().unwrap().get("bfd").is_none(),
                "{member} {bond} carries a bfd key: {r}"
            );
            assert!(r.get("passive").is_none(), "{member} {bond} is passive");

            let names: Vec<&str> = ospf_ifs(inst)
                .iter()
                .map(|i| i["name"].as_str().unwrap())
                .collect();
            let at = names.iter().position(|n| *n == bond).unwrap();
            let id = names.iter().position(|n| n.starts_with("cfab-id")).unwrap();
            assert!(at < id, "{member} {zone}: {names:?}");
            for (i, n) in names.iter().enumerate() {
                if n.ends_with("-fb") || n.starts_with("cfab-id") || n.starts_with("cfab-gw") {
                    continue;
                }
                assert!(i < at, "{member} {zone}: segment {n} after the bond: {names:?}");
            }
        }
        let ifs = if_names(&t);
        for bond in ["cfab-st-fb", "cfab-cl-fb", "cfab-mg-fb"] {
            assert!(ifs.contains(&bond.to_string()), "{member}: {ifs:?}");
        }
        let s = serde_json::to_string(&t).unwrap();
        for slave in ["cfab-st-fb-a", "cfab-st-fb-b", "cfab-st-fb-c"] {
            assert!(!s.contains(slave), "{member} carries slave {slave}");
        }
    }
}

#[test]
fn fallback_adds_exactly_three_interfaces_and_one_ospf_if_per_zone() {
    for member in ["pve1-tb", "pve2-tb", "pve3-tb"] {
        let t = tree(member);
        let names = if_names(&t);
        let fallback: Vec<&String> = names.iter().filter(|n| n.ends_with("-fb")).collect();
        assert_eq!(fallback.len(), 3, "{member}: {fallback:?}");
        for inst in ospf_instances(&t) {
            let n = ospf_ifs(inst)
                .iter()
                .filter(|i| i["name"].as_str().unwrap().ends_with("-fb"))
                .count();
            assert_eq!(n, 1, "{member} {}", inst["name"]);
        }
    }
}

#[test]
fn prefsrc_rules_one_per_zone() {
    let f = fabric();
    let v = view(&f, "pve1-tb");
    let want: Vec<(String, String)> = [
        ("10.99.0.0/16", "10.99.0.1"),
        ("10.199.0.0/16", "10.199.0.1"),
        ("10.249.0.0/16", "10.249.0.1"),
    ]
    .iter()
    .map(|(a, b)| (a.to_string(), b.to_string()))
    .collect();
    assert_eq!(engine::prefsrc_rules(&v), want);
}

/// The whole BGP subtree of a host, and where it stands.
#[test]
fn the_bgp_subtree_of_a_host_with_an_ingress_leg() {
    let t = tree("pve1-tb");
    let policy: Value = serde_json::from_str(
        r#"{
        "defined-sets": { "prefix-sets": { "prefix-set": [ {
            "name": "cfab-mgmt-id",
            "mode": "ipv4",
            "prefixes": { "prefix-list": [ {
                "ip-prefix": "10.249.0.0/24",
                "mask-length-lower": 32,
                "mask-length-upper": 32
            } ] }
        } ] } },
        "policy-definitions": { "policy-definition": [
            { "name": "cfab-mgmt-import",
              "statements": { "statement": [ {
                "name": "1",
                "conditions": { "match-prefix-set": { "prefix-set": "cfab-mgmt-id" } },
                "actions": {
                    "policy-result": "accept-route",
                    "ietf-bgp-policy:bgp-actions": { "set-med": "igp" }
                }
              } ] } },
            { "name": "cfab-mgmt-export",
              "statements": { "statement": [ {
                "name": "1",
                "conditions": { "match-prefix-set": { "prefix-set": "cfab-mgmt-id" } },
                "actions": {
                    "policy-result": "accept-route",
                    "ietf-bgp-policy:bgp-actions": { "set-next-hop": "self" }
                }
              } ] } }
        ] }
    }"#,
    )
    .unwrap();
    assert_eq!(t["ietf-routing-policy:routing-policy"], policy);
    let bgp: Value = serde_json::from_str(
        r#"{
        "type": "ietf-bgp:bgp",
        "name": "cfab",
        "ietf-bgp:bgp": {
            "global": {
                "as": 65010,
                "identifier": "10.249.0.1",
                "afi-safis": { "afi-safi": [ {
                    "name": "iana-bgp-types:ipv4-unicast",
                    "apply-policy": { "import-policy": ["cfab-mgmt-import"] },
                    "ipv4-unicast": {
                        "holo-bgp:redistribution": [
                            { "type": "ietf-routing:direct" },
                            { "type": "ietf-ospf:ospfv2" }
                        ],
                        "holo-bgp:network": ["10.249.0.1/32"]
                    }
                } ] }
            },
            "neighbors": { "neighbor": [ {
                "remote-address": "192.168.249.254",
                "peer-as": 65010,
                "timers": { "connect-retry-interval": 5, "hold-time": 9, "keepalive": 3 },
                "transport": { "local-address": "192.168.249.1" },
                "afi-safis": { "afi-safi": [ {
                    "name": "iana-bgp-types:ipv4-unicast",
                    "enabled": true,
                    "apply-policy": { "export-policy": ["cfab-mgmt-export"] }
                } ] }
            } ] }
        }
    }"#,
    )
    .unwrap();
    assert_eq!(bgp_instance(&t).unwrap(), &bgp);
    let names: Vec<&str> = instances(&t)
        .iter()
        .map(|p| p["name"].as_str().unwrap())
        .collect();
    assert_eq!(names, ["storage", "cluster", "mgmt", "cfab"]);
}

#[test]
fn a_leaf_emits_no_bgp_and_no_routing_policy() {
    let t = tree("pve3-tb");
    assert!(bgp_instance(&t).is_none());
    assert!(t.get("ietf-routing-policy:routing-policy").is_none());
    assert_eq!(instances(&t).len(), 3);
}

#[test]
fn a_host_with_no_gw_row_emits_no_bgp_and_no_routing_policy() {
    let f = fabric_without_a_gw();
    assert!(view(&f, "pve1-tb").gw_rows.is_empty());
    let t = made(&f, "pve1-tb");
    assert!(bgp_instance(&t).is_none());
    assert!(t.get("ietf-routing-policy:routing-policy").is_none());
}

#[test]
fn every_policy_and_prefix_set_reference_is_defined() {
    for f in [fabric(), fabric_with_two_gw_zones()] {
        for member in ["pve1-tb", "pve2-tb", "pve3-tb"] {
            let t = made(&f, member);
            if t.get("ietf-routing-policy:routing-policy").is_none() {
                let s = serde_json::to_string(&t).unwrap();
                assert!(!s.contains("policy"), "{member} references a policy: {s}");
                continue;
            }
            let policies = names_at(&t, &["policy-definitions", "policy-definition"]);
            let sets = names_at(&t, &["defined-sets", "prefix-sets", "prefix-set"]);
            let mut refs = Vec::new();
            collect(&t, "import-policy", &mut refs);
            collect(&t, "export-policy", &mut refs);
            assert!(!refs.is_empty(), "{member}");
            for r in &refs {
                assert!(policies.contains(r), "{member}: {r} not in {policies:?}");
            }
            let mut set_refs = Vec::new();
            collect(&t, "prefix-set", &mut set_refs);
            assert!(!set_refs.is_empty(), "{member}");
            for r in &set_refs {
                assert!(sets.contains(r), "{member}: {r} not in {sets:?}");
            }
        }
    }
}

#[test]
fn redistribution_always_carries_a_global_import_policy() {
    for f in [fabric(), fabric_with_two_gw_zones()] {
        for member in ["pve1-tb", "pve2-tb"] {
            let v = view(&f, member);
            let t = made(&f, member);
            let gw_zones: Vec<String> = v.gw_rows.iter().map(|r| r.zone.clone()).collect();
            let global = &bgp_instance(&t).unwrap()["ietf-bgp:bgp"]["global"];
            for afi in global["afi-safis"]["afi-safi"].as_array().unwrap() {
                let redist = &afi["ipv4-unicast"]["holo-bgp:redistribution"];
                assert!(redist.is_array(), "{member}");
                let imports = afi["apply-policy"]["import-policy"].as_array().unwrap();
                let want: Vec<Value> = gw_zones
                    .iter()
                    .map(|z| Value::String(format!("cfab-{z}-import")))
                    .collect();
                assert_eq!(imports, &want, "{member}");
            }
        }
    }
}

#[test]
fn network_carries_this_members_own_identity_per_gw_zone() {
    for f in [fabric(), fabric_with_two_gw_zones()] {
        for member in ["pve1-tb", "pve2-tb"] {
            let v = view(&f, member);
            let t = made(&f, member);
            let want: Vec<Value> = v
                .gw_rows
                .iter()
                .map(|r| {
                    let z = f.zones.iter().find(|z| z.name == r.zone).unwrap();
                    Value::String(format!("{}/32", v.identity_addr(z)))
                })
                .collect();
            let global = &bgp_instance(&t).unwrap()["ietf-bgp:bgp"]["global"];
            for afi in global["afi-safis"]["afi-safi"].as_array().unwrap() {
                let network = afi["ipv4-unicast"]["holo-bgp:network"].as_array().unwrap();
                assert_eq!(network, &want, "{member}");
            }
        }
    }
}

#[test]
fn a_zones_policies_name_only_its_own_identity_block() {
    let f = fabric_with_two_gw_zones();
    let t = made(&f, "pve1-tb");
    let pol = &t["ietf-routing-policy:routing-policy"];
    assert_eq!(
        names_at(&t, &["defined-sets", "prefix-sets", "prefix-set"]),
        ["cfab-cluster-id", "cfab-mgmt-id"]
    );
    assert_eq!(
        names_at(&t, &["policy-definitions", "policy-definition"]),
        [
            "cfab-cluster-import",
            "cfab-cluster-export",
            "cfab-mgmt-import",
            "cfab-mgmt-export"
        ]
    );
    for (set, block) in [
        ("cfab-cluster-id", "10.199.0.0/24"),
        ("cfab-mgmt-id", "10.249.0.0/24"),
    ] {
        let s = pol["defined-sets"]["prefix-sets"]["prefix-set"]
            .as_array()
            .unwrap()
            .iter()
            .find(|p| p["name"] == set)
            .unwrap();
        let list = s["prefixes"]["prefix-list"].as_array().unwrap();
        assert_eq!(list.len(), 1);
        assert_eq!(list[0]["ip-prefix"], block);
        assert_eq!(list[0]["mask-length-lower"], 32);
        assert_eq!(list[0]["mask-length-upper"], 32);
    }
    for p in pol["policy-definitions"]["policy-definition"].as_array().unwrap() {
        let name = p["name"].as_str().unwrap();
        let zone = name.split('-').nth(1).unwrap();
        let mut sets = Vec::new();
        collect(p, "prefix-set", &mut sets);
        assert_eq!(sets, [format!("cfab-{zone}-id")], "{name}");
    }
    for (zone, router) in [("cluster", "192.168.199.254"), ("mgmt", "192.168.249.254")] {
        let n = bgp_instance(&t).unwrap()["ietf-bgp:bgp"]["neighbors"]["neighbor"]
            .as_array()
            .unwrap()
            .iter()
            .find(|n| n["remote-address"] == router)
            .unwrap();
        let afi = &n["afi-safis"]["afi-safi"][0];
        assert_eq!(afi["enabled"], true, "{zone}");
        assert_eq!(
            afi["apply-policy"]["export-policy"],
            Value::Array(vec![Value::String(format!("cfab-{zone}-export"))])
        );
        assert!(afi["apply-policy"].get("import-policy").is_none(), "{zone}");
    }
}

#[test]
fn no_passive_mode_anywhere() {
    for f in [fabric(), fabric_with_two_gw_zones()] {
        for member in ["pve1-tb", "pve2-tb", "pve3-tb"] {
            let s = serde_json::to_string(&made(&f, member)).unwrap();
            assert!(!s.contains("passive-mode"), "{member}: {s}");
        }
    }
}

#[test]
fn tree_is_deterministic() {
    let a = serde_json::to_string_pretty(&tree("pve1-tb")).unwrap();
    let b = serde_json::to_string_pretty(&tree("pve1-tb")).unwrap();
    assert_eq!(a, b);
}

// ---- what the engine takes from the fabric ----

#[test]
fn the_control_priority_is_the_declared_pcp_ctrl() {
    let mut f = fabric();
    assert_eq!(control_priority(&f), Some(6));
    f.pcp_ctrl = 5;
    assert_eq!(control_priority(&f), Some(5));
}

#[test]
fn the_bfd_policy_asks_for_exactly_one_rx_socket() {
    let mut f = fabric();
    f.bfd_port = 3785;
    assert_eq!(bfd_socket_policy(&f), BfdSocketPolicy { single_hop_port: 3785, ipv6: false });
}

#[test]
fn no_member_of_the_shipped_fabric_binds_a_bgp_listener() {
    let f = fabric();
    assert!(!f.members.is_empty());
    for m in &f.members {
        let v = view(&f, &m.name);
        let policy = bgp_listen_policy(v.fabric);
        assert_eq!(policy, BgpListenPolicy::NoListener, "{}", m.name);
        assert!(!policy.binds_listener(), "{}", m.name);
    }
    assert!(BgpListenPolicy::Wildcard.binds_listener());
}

#[test]
fn every_generated_source_rule_is_read() {
    let f = fabric();
    for m in &f.members {
        let rules = engine::prefsrc_rules(&view(&f, &m.name));
        let read = parse_prefsrc(&rules).unwrap();
        assert_eq!(read.len(), 3);
        assert_eq!(
            read[2],
            (
                IpNet::V4(Ipv4Prefix::parse("10.249.0.0/16").unwrap()),
                IpHost::V4(Ipv4Addr::parse(&format!("10.249.0.{}", m.node)).unwrap())
            )
        );
    }
}

#[test]
fn prefsrc_rules_parse_into_policy_and_match_inside_the_block() {
    let rules = vec![
        ("10.99.0.0/16".to_string(), "10.99.0.1".to_string()),
        ("10.249.0.0/16".to_string(), "10.249.0.1".to_string()),
    ];
    let prefsrc = parse_prefsrc(&rules).unwrap();
    let prefsrc_for = |a: &str| {
        let a = Ipv4Addr::parse(a).unwrap();
        prefsrc
            .iter()
            .find(|(net, _)| matches!(net, IpNet::V4(p) if p.contains(a)))
            .map(|(_, src)| *src)
    };
    assert_eq!(
        prefsrc_for("10.249.0.2"),
        Some(IpHost::V4(Ipv4Addr::parse("10.249.0.1").unwrap()))
    );
    assert_eq!(prefsrc_for("192.168.249.0"), None);
    assert!(parse_prefsrc(&vec![("nonsense".to_string(), "10.0.0.1".to_string())]).is_err());
}

#[test]
fn a_source_rule_is_a_network_and_an_address() {
    let rule = |a: &str, b: &str| vec![(a.to_string(), b.to_string())];
    let ok = parse_prefsrc(&rule("fd00::/64", "fd00::1")).unwrap();
    assert_eq!(
        ok[0],
        (
            IpNet::V6 { bits: 0xfd00 << 112, len: 64 },
            IpHost::V6((0xfd00 << 112) + 1)
        )
    );
    assert_eq!(
        parse_prefsrc(&rule("nonsense", "10.0.0.1")).unwrap_err().to_string(),
        "FATAL: engine: prefsrc prefix nonsense: invalid address: nonsense"
    );
    for bad in ["10.0.0.1/32", "10.0.0", ""] {
        assert_eq!(
            parse_prefsrc(&rule("10.99.0.0/16", bad)).unwrap_err().to_string(),
            format!("FATAL: engine: prefsrc address {bad}: invalid IP address syntax")
        );
    }
}
