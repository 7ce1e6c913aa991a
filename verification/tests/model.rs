//! The declaration, resolved and checked.

use cfab::decl::{
    AdminDecl, BfdDecl, BgpDecl, CostDecl, Declaration, Defaults, ForwardDecl, GwDecl, MarkingDecl,
    MemberDecl, MemberWorkloadDecl, OspfDecl, RuntimeDecl, SegmentDecl, UniversalDecl, WireDecl,
    WorkloadDecl, ZoneDecl,
};
use cfab::error::Error;
use cfab::ipv4::Ipv4Addr;
use cfab::model::prefix::Ipv4Prefix;
use cfab::model::resolve::BFD_PORT_DEFAULT;
use cfab::model::{
    bond_ifname_too_long, gw_ifname, DomainId, Dscp, Fabric, MemberKind, SegScope, MAX_BOND_IFNAME,
};

fn wire(nic: &str, domain: &str, speed_mbps: u32) -> WireDecl {
    WireDecl {
        nic: nic.to_string(),
        domain: domain.to_string(),
        speed_mbps,
        driver_features: None,
        usb: None,
    }
}

fn member(name: &str, node: u8, kind: MemberKind, fast: u32) -> MemberDecl {
    MemberDecl {
        name: name.to_string(),
        node,
        kind,
        wires: vec![wire("eth9", "a", fast), wire("eth1", "b", 1000), wire("eth0", "c", 1000)],
        prefs: vec![],
        workloads: vec![],
    }
}

fn seg(ifname: &str, domain: &str, seg: u8, vid: u16) -> SegmentDecl {
    SegmentDecl {
        ifname: ifname.to_string(),
        domain: domain.to_string(),
        seg,
        vid,
    }
}

fn universal(ifname: &str, vid: u16) -> Option<UniversalDecl> {
    Some(UniversalDecl {
        ifname: ifname.to_string(),
        seg: 9,
        vid,
    })
}

/// Other values than the declaration's own, so that it shows which of the two is taken.
fn defaults() -> Defaults {
    Defaults {
        admin: AdminDecl {
            floor_mbps: 50,
            band: 2,
        },
        marking: MarkingDecl {
            pcp_ctrl: 5,
            set_dscp: false,
        },
        cost: CostDecl { leaf_offset: 20000 },
        bfd: BfdDecl {
            rx_ms: 300,
            tx_ms: 350,
            mult: 4,
            port: 4784,
        },
        ospf: OspfDecl {
            hello_s: 2,
            dead_s: 8,
        },
        bgp: BgpDecl {
            asn: 65020,
            keepalive_s: 10,
            hold_s: 30,
            connect_s: 15,
        },
        runtime: RuntimeDecl {
            run_dir: "/run/other".to_string(),
        },
    }
}

/// Three members on three switches, with three zones over them.
fn example() -> Declaration {
    Declaration {
        domains: vec!["a".to_string(), "b".to_string(), "c".to_string()],
        members: vec![
            member("pve1-tb", 1, MemberKind::Host, 5000),
            member("pve2-tb", 2, MemberKind::Host, 5000),
            member("pve3-tb", 3, MemberKind::Leaf, 10000),
        ],
        zones: vec![
            ZoneDecl {
                name: "storage".to_string(),
                id: 99,
                pcp: 0,
                dscp: Dscp::Cs0,
                floor_mbps: 2000,
                band: 2,
                weight: 4,
                primary: "a".to_string(),
                segments: vec![
                    seg("cfab-st", "a", 1, 100),
                    seg("cfab-st-bk", "b", 2, 101),
                    seg("cfab-st-b2", "c", 3, 102),
                ],
                universal: universal("cfab-st-fb", 300),
                gw: None,
            },
            ZoneDecl {
                name: "cluster".to_string(),
                id: 199,
                pcp: 6,
                dscp: Dscp::Cs6,
                floor_mbps: 200,
                band: 0,
                weight: 1,
                primary: "b".to_string(),
                segments: vec![
                    seg("cfab-cl", "b", 1, 200),
                    seg("cfab-cl-bk", "a", 2, 201),
                    seg("cfab-cl-b2", "c", 3, 202),
                ],
                universal: universal("cfab-cl-fb", 301),
                gw: None,
            },
            ZoneDecl {
                name: "mgmt".to_string(),
                id: 249,
                pcp: 2,
                dscp: Dscp::Cs2,
                floor_mbps: 100,
                band: 1,
                weight: 1,
                primary: "c".to_string(),
                segments: vec![
                    seg("cfab-mg", "c", 1, 250),
                    seg("cfab-mg-bk", "a", 2, 251),
                    seg("cfab-mg-b2", "b", 3, 252),
                ],
                universal: universal("cfab-mg-fb", 302),
                gw: Some(GwDecl {
                    domain: "any".to_string(),
                    vid: 249,
                    router: "192.168.249.254/24".to_string(),
                }),
            },
        ],
        workload: vec![],
        forward: ForwardDecl {
            enabled: true,
            allow: vec![
                "storage>storage".to_string(),
                "cluster>cluster".to_string(),
                "mgmt>mgmt".to_string(),
            ],
        },
        admin: Some(AdminDecl {
            floor_mbps: 100,
            band: 1,
        }),
        marking: Some(MarkingDecl {
            pcp_ctrl: 6,
            set_dscp: true,
        }),
        cost: Some(CostDecl { leaf_offset: 30000 }),
        bfd: Some(BfdDecl {
            rx_ms: 250,
            tx_ms: 250,
            mult: 3,
            port: 3784,
        }),
        ospf: Some(OspfDecl {
            hello_s: 1,
            dead_s: 3,
        }),
        bgp: Some(BgpDecl {
            asn: 65010,
            keepalive_s: 3,
            hold_s: 9,
            connect_s: 5,
        }),
        runtime: Some(RuntimeDecl {
            run_dir: "/run/cfab".to_string(),
        }),
        dns_domain: "fabric.example".to_string(),
        defaults: defaults(),
    }
}

fn workload_row() -> WorkloadDecl {
    WorkloadDecl {
        name: "vms".to_string(),
        uplink: "primary".to_string(),
        vid: 3,
        prefix: "192.168.20.0/24".to_string(),
        gw: "192.168.20.254".to_string(),
        dhcp_server: None,
        allow: vec!["storage".to_string()],
        span: None,
        router: None,
    }
}

fn member_row(name: &str, address: &str) -> MemberWorkloadDecl {
    MemberWorkloadDecl {
        name: name.to_string(),
        address: address.to_string(),
    }
}

/// The example with one workload, which two hosts carry.
fn with_workload() -> Declaration {
    let mut d = example();
    d.workload.push(workload_row());
    d.members[0].workloads.push(member_row("vms", "192.168.20.2/24"));
    d.members[1].workloads.push(member_row("vms", "192.168.20.3/24"));
    d
}

fn parse_fabric(edit: impl FnOnce(&mut Declaration)) -> Result<Fabric, Error> {
    let mut d = example();
    edit(&mut d);
    Fabric::from_decl(&d)
}

fn wl_fabric_edit(edit: impl FnOnce(&mut Declaration)) -> Result<Fabric, Error> {
    let mut d = with_workload();
    edit(&mut d);
    Fabric::from_decl(&d)
}

fn wl_err(edit: impl FnOnce(&mut Declaration)) -> String {
    wl_fabric_edit(edit).unwrap_err().to_string()
}

fn a() -> DomainId {
    DomainId::parse("a").unwrap()
}

#[test]
fn resolves_the_real_declaration() {
    let f = parse_fabric(|_| {}).unwrap();
    assert_eq!(f.members.len(), 3);
    assert_eq!(f.zones.len(), 3);
    assert_eq!(
        f.domains,
        vec![
            a(),
            DomainId::parse("b").unwrap(),
            DomainId::parse("c").unwrap()
        ]
    );
    assert_eq!(f.segments.len(), 12);
    assert_eq!(
        f.segments
            .iter()
            .map(|s| s.ifname.as_str())
            .collect::<Vec<_>>(),
        vec![
            "cfab-st",
            "cfab-st-bk",
            "cfab-st-b2",
            "cfab-st-fb",
            "cfab-cl",
            "cfab-cl-bk",
            "cfab-cl-b2",
            "cfab-cl-fb",
            "cfab-mg",
            "cfab-mg-bk",
            "cfab-mg-b2",
            "cfab-mg-fb",
        ]
    );
    assert_eq!(f.zone("mgmt").unwrap().id, 249);
    assert_eq!(f.zone("storage").unwrap().primary, a());
    let gw = f.zone("mgmt").unwrap().gw.as_ref().unwrap();
    assert_eq!(gw.router, "192.168.249.254");
    assert_eq!(gw.vid, 249);
    assert_eq!(gw.scope, SegScope::Universal);
    assert_eq!(gw.leg_cidr(2), "192.168.249.2/24");
    assert!(f.zone("storage").unwrap().gw.is_none());
    let universal = f
        .segments
        .iter()
        .find(|r| r.ifname == "cfab-st-fb")
        .unwrap();
    assert!(universal.scope.is_universal());
    assert_eq!(universal.zone, "storage");
    assert_eq!(f.member("pve3-tb").unwrap().kind, MemberKind::Leaf);
    assert_eq!(
        f.member("pve1-tb").unwrap().wire_on(&a()).unwrap().name,
        "eth9"
    );
    assert_eq!(
        f.member("pve1-tb")
            .unwrap()
            .wire_on(&a())
            .unwrap()
            .speed_mbps,
        5000
    );
    assert_eq!(f.dns_domain, "fabric.example");
    assert_eq!(f.run_dir, "/run/cfab");
    assert!(f.host_forward);
    assert_eq!(f.forward_allow.len(), 3);
}

#[test]
fn the_retired_driver_features_key_is_refused_by_name_with_the_remedy() {
    let err = parse_fabric(|d| {
        d.members[0].wires[0].driver_features = Some("sg off tso off".to_string())
    })
    .unwrap_err()
    .to_string();
    assert_eq!(
        err,
        "fabric.toml: member pve1-tb: wire eth9: 'driver_features' is gone: cfab no longer \
         sets NIC features; set them on the host (a udev rule on the netdev add event, see \
         README)"
    );
}

#[test]
fn the_retired_usb_key_is_refused_by_name_with_the_remedy() {
    let err = parse_fabric(|d| d.members[0].wires[0].usb = Some(true))
        .unwrap_err()
        .to_string();
    assert_eq!(
        err,
        "fabric.toml: member pve1-tb: wire eth9: 'usb' is gone: cfab no longer sets NIC \
         features; set them on the host (a udev rule on the netdev add event, see README)"
    );
}

#[test]
fn usb_false_is_refused_too() {
    let err = parse_fabric(|d| d.members[0].wires[1].usb = Some(false))
        .unwrap_err()
        .to_string();
    assert!(err.contains("wire eth1: 'usb' is gone"), "{err}");
}

#[test]
fn bfd_port_defaults_and_is_range_checked() {
    assert_eq!(parse_fabric(|_| {}).unwrap().bfd_port, 3784);
    assert_eq!(BFD_PORT_DEFAULT, 3784);
    assert_eq!(
        parse_fabric(|d| d.bfd.as_mut().unwrap().port = 3785).unwrap().bfd_port,
        3785
    );
    for (bad, want) in [
        (1023, "[bfd] port = 1023 is outside 1024..65535"),
        (0, "[bfd] port = 0 is outside 1024..65535"),
    ] {
        let err = parse_fabric(|d| d.bfd.as_mut().unwrap().port = bad).unwrap_err().to_string();
        assert!(err.contains(want), "{bad}: {err}");
    }
}

#[test]
fn pcp_ctrl_is_range_checked() {
    assert_eq!(parse_fabric(|_| {}).unwrap().pcp_ctrl, 6);
    assert_eq!(
        parse_fabric(|d| d.marking.as_mut().unwrap().pcp_ctrl = 5).unwrap().pcp_ctrl,
        5
    );
    for (bad, want) in [
        (
            7,
            "[marking] pcp_ctrl = 7 is outside 0..6 (7 needs CAP_NET_ADMIN on the engine's \
             control sockets)",
        ),
        (8, "pcp_ctrl = 8 is outside 0..6"),
        (255, "pcp_ctrl = 255 is outside 0..6"),
    ] {
        let err = parse_fabric(|d| d.marking.as_mut().unwrap().pcp_ctrl = bad)
            .unwrap_err()
            .to_string();
        assert!(err.contains(want), "{bad}: {err}");
    }
}

#[test]
fn a_section_that_is_left_out_takes_its_default() {
    let f = parse_fabric(|d| {
        d.admin = None;
        d.marking = None;
        d.cost = None;
        d.bfd = None;
        d.ospf = None;
        d.bgp = None;
        d.runtime = None;
    })
    .unwrap();
    assert_eq!((f.admin_floor_mbps, f.admin_band), (50, 2));
    assert_eq!((f.pcp_ctrl, f.dscp_mark), (5, false));
    assert_eq!(f.leaf_cost_offset, 20000);
    assert_eq!(
        (f.bfd_rx_ms, f.bfd_tx_ms, f.bfd_mult, f.bfd_port),
        (300, 350, 4, 4784)
    );
    assert_eq!((f.ospf_hello, f.ospf_dead), (2, 8));
    assert_eq!(
        (f.bgp_as, f.bgp_keepalive_s, f.bgp_hold_s, f.bgp_connect_s),
        (65020, 10, 30, 15)
    );
    assert_eq!(f.run_dir, "/run/other");

    let f = parse_fabric(|d| d.ospf = None).unwrap();
    assert_eq!((f.ospf_hello, f.ospf_dead), (2, 8));
    assert_eq!(f.leaf_cost_offset, 30000);
}

#[test]
fn a_default_is_held_to_the_same_ranges() {
    let err = parse_fabric(|d| {
        d.bfd = None;
        d.defaults.bfd.port = 1023;
    })
    .unwrap_err();
    assert_eq!(
        err.to_string(),
        "fabric.toml: [bfd] port = 1023 is outside 1024..65535"
    );
}

#[test]
fn duplicate_vid_fails() {
    let err = parse_fabric(|d| d.zones[0].segments[1].vid = 100).unwrap_err();
    assert!(
        err.to_string().contains("vid 100 used by two segments"),
        "{err:?}"
    );
}

#[test]
fn gw_vid_colliding_with_segment_vid_fails() {
    let err = parse_fabric(|d| d.zones[2].gw.as_mut().unwrap().vid = 250).unwrap_err();
    assert!(
        err.to_string()
            .contains("ingress vid 250 is also a segment vid"),
        "{err:?}"
    );
}

#[test]
fn router_octet_colliding_with_a_node_fails() {
    let err = parse_fabric(|d| {
        d.zones[2].gw.as_mut().unwrap().router = "192.168.249.3/24".to_string()
    })
    .unwrap_err();
    assert!(err.to_string().contains("collides with node 3"), "{err:?}");
}

#[test]
fn unknown_forward_allow_zone_fails() {
    let err = parse_fabric(|d| d.forward.allow[0] = "public>storage".to_string()).unwrap_err();
    assert!(err.to_string().contains("unknown zone 'public'"), "{err:?}");
}

#[test]
fn a_forward_pair_without_a_direction_fails() {
    let err = parse_fabric(|d| d.forward.allow[0] = "storage".to_string())
        .unwrap_err()
        .to_string();
    assert!(err.contains("[forward] allow 'storage'"), "{err}");
}

#[test]
fn gw_prefix_other_than_24_fails() {
    let err = parse_fabric(|d| {
        d.zones[2].gw.as_mut().unwrap().router = "192.168.249.254/25".to_string()
    })
    .unwrap_err();
    assert!(
        err.to_string()
            .contains("expected an IPv4 address with /24"),
        "{err:?}"
    );
}

#[test]
fn a_gw_router_without_a_prefix_fails() {
    let err = parse_fabric(|d| {
        d.zones[2].gw.as_mut().unwrap().router = "192.168.249.254".to_string()
    })
    .unwrap_err();
    assert!(
        err.to_string()
            .contains("expected an IPv4 address with /24"),
        "{err:?}"
    );
}

#[test]
fn a_gw_router_that_is_no_address_fails() {
    for bad in [
        "192.168.249.+3/24",
        "192.168.249.003/24",
        "192.168.249/24",
        "192.168.249.256/24",
        "192.168.249.3.4/24",
        "a.b.c.3/24",
        "/24",
    ] {
        let err = parse_fabric(|d| d.zones[2].gw.as_mut().unwrap().router = bad.to_string())
            .unwrap_err();
        assert_eq!(
            err.to_string(),
            format!(
                "fabric.toml: zone mgmt: gw router '{bad}' (expected an IPv4 address with /24, \
                 e.g. 192.168.249.254/24)"
            )
        );
    }
}

#[test]
fn duplicate_node_id_fails() {
    let err = parse_fabric(|d| d.members[1].node = 1).unwrap_err();
    assert!(err.to_string().contains("node id 1 used twice"), "{err:?}");
}

#[test]
fn duplicate_member_name_fails() {
    let err = parse_fabric(|d| d.members[1].name = "pve1-tb".to_string()).unwrap_err();
    assert!(
        err.to_string().contains("member pve1-tb declared twice"),
        "{err:?}"
    );
}

#[test]
fn unknown_member_error_lists_members() {
    let f = parse_fabric(|_| {}).unwrap();
    let err = f.member("nope").unwrap_err();
    assert!(
        err.to_string().contains("members: pve1-tb pve2-tb pve3-tb"),
        "{err:?}"
    );
}

#[test]
fn a_member_with_no_wires_is_refused() {
    let err = parse_fabric(|d| d.members[2].wires.clear())
        .unwrap_err()
        .to_string();
    assert!(err.contains("member pve3-tb: declares no wires"), "{err}");
}

#[test]
fn scope_parses_any_and_letters() {
    assert_eq!(SegScope::parse("any").unwrap(), SegScope::Universal);
    assert_eq!(SegScope::parse("a").unwrap(), SegScope::Domain(a()));
    assert_eq!(SegScope::Universal.to_string(), "any");
    assert_eq!(SegScope::Domain(a()).to_string(), "a");
    assert!(SegScope::parse("st").is_err());
}

#[test]
fn a_domain_token_is_one_letter() {
    assert!(DomainId::parse("a").is_ok());
    assert!(DomainId::parse("Z").is_ok());
    for bad in ["", "ab", "1", "-", "a1"] {
        assert!(DomainId::parse(bad).is_err(), "{bad}");
    }
    let err = parse_fabric(|d| d.members[0].wires[1].domain = "bb".to_string())
        .unwrap_err()
        .to_string();
    assert!(err.contains("member pve1-tb: wire eth1:"), "{err}");
    assert!(err.contains("is not a switch-domain token"), "{err}");
}

#[test]
fn universal_ifname_over_the_budget_fails() {
    let err = parse_fabric(|d| {
        d.zones[0].universal.as_mut().unwrap().ifname = "cfab-storage-fb".to_string()
    })
    .unwrap_err();
    assert!(
        err.to_string().contains("must be 13 characters or fewer"),
        "{err:?}"
    );
}

/// A bond leg's ports are `<ifname>-<domain>`, so that 13 characters fit and 14 do not.
#[test]
fn bond_ifname_longer_than_the_budget_is_refused() {
    assert_eq!(MAX_BOND_IFNAME, 13);
    assert!(!bond_ifname_too_long("cfab-st-fb"));
    assert!(!bond_ifname_too_long("1234567890123"));
    assert!(bond_ifname_too_long("12345678901234"));
}

#[test]
fn every_zone_id_yields_an_ingress_bond_name_that_fits() {
    for id in u8::MIN..=u8::MAX {
        let ifname = format!("cfab-gw{id}");
        assert_eq!(gw_ifname(id), ifname);
        assert!(!bond_ifname_too_long(&ifname), "{ifname}");
        assert!(format!("{ifname}-a").len() <= 15, "{ifname}");
    }
}

#[test]
fn gw_scope_any_is_accepted() {
    let f = parse_fabric(|_| {}).unwrap();
    assert!(f
        .zone("mgmt")
        .unwrap()
        .gw
        .as_ref()
        .unwrap()
        .scope
        .is_universal());
}

#[test]
fn gw_scope_of_one_domain_is_accepted() {
    let f = parse_fabric(|d| d.zones[2].gw.as_mut().unwrap().domain = "c".to_string()).unwrap();
    assert_eq!(
        f.zone("mgmt").unwrap().gw.as_ref().unwrap().scope,
        SegScope::Domain(DomainId::parse("c").unwrap())
    );
}

// ---- domains ----

#[test]
fn an_undeclared_wire_domain_is_refused() {
    let err = parse_fabric(|d| d.members[0].wires[1].domain = "d".to_string())
        .unwrap_err()
        .to_string();
    assert!(err.contains("is not in [domains] (a b c)"), "{err}");
}

#[test]
fn an_undeclared_segment_domain_is_refused() {
    let err = parse_fabric(|d| d.zones[0].segments[2].domain = "d".to_string())
        .unwrap_err()
        .to_string();
    assert!(
        err.contains("segment cfab-st-b2: domain d is not in [domains]"),
        "{err}"
    );
}

#[test]
fn a_declared_domain_nobody_wires_into_is_refused() {
    let err = parse_fabric(|d| d.domains.push("d".to_string()))
        .unwrap_err()
        .to_string();
    assert!(
        err.contains("[domains] declares d but no member has a wire on it"),
        "{err}"
    );
}

/// The fourth domain is declared and wired, but carries no segment.
#[test]
fn a_zone_primary_domain_without_a_segment_is_refused() {
    let err = parse_fabric(|d| {
        d.domains.push("d".to_string());
        d.members[0].wires.push(wire("eth2", "d", 1000));
        d.zones[0].primary = "d".to_string();
    })
    .unwrap_err()
    .to_string();
    assert!(
        err.contains("zone storage") && err.contains("primary domain d"),
        "the error must name the zone and its primary domain: {err}"
    );
    assert!(err.contains("has no segment"), "{err}");
}

#[test]
fn two_wires_on_one_domain_are_refused_with_the_reason() {
    let err = parse_fabric(|d| d.members[0].wires.insert(1, wire("eth8", "a", 5000)))
        .unwrap_err()
        .to_string();
    assert!(err.contains("two wires on domain a (eth9 eth8)"), "{err}");
    assert!(err.contains("ARP-ambiguous"), "{err}");
    assert!(err.contains("Put the wires in different domains"), "{err}");
    assert!(
        err.contains(
            "one bond over both NICs declared as a single wire, which cfab does not \
             build yet"
        ),
        "the second remedy is a separate sentence, and says it is not built: {err}"
    );
    assert!(
        !err.contains("SECOND segment"),
        "the second-segment clause was wrong (it does not fix this row): {err}"
    );
}

// ---- per-zone preference overrides ----

fn with_pref(zone: &str, order: &[&str]) -> Result<Fabric, Error> {
    parse_fabric(|d| {
        d.members[0].prefs.push((
            zone.to_string(),
            order.iter().map(|s| s.to_string()).collect(),
        ))
    })
}

#[test]
fn a_complete_pref_override_parses() {
    let f = with_pref("storage", &["eth1", "eth9", "eth0"]).unwrap();
    let p = f.wire_pref("pve1-tb", "storage").unwrap();
    assert_eq!(p.order, vec!["eth1", "eth9", "eth0"]);
}

#[test]
fn a_partial_pref_override_is_refused() {
    let err = with_pref("storage", &["eth1", "eth9"])
        .unwrap_err()
        .to_string();
    assert!(err.contains("COMPLETE order"), "{err}");
}

#[test]
fn a_pref_naming_an_unknown_wire_is_refused() {
    let err = with_pref("storage", &["eth1", "eth9", "eth5"])
        .unwrap_err()
        .to_string();
    assert!(
        err.contains("'eth5' is not one of pve1-tb's wires"),
        "{err}"
    );
}

#[test]
fn a_pref_for_an_unknown_zone_is_refused() {
    let err = with_pref("backup", &["eth1", "eth9", "eth0"])
        .unwrap_err()
        .to_string();
    assert!(err.contains("member pve1-tb prefs backup"), "{err}");
}

#[test]
fn a_pref_listing_a_wire_twice_is_refused() {
    let err = with_pref("storage", &["eth1", "eth1", "eth9"])
        .unwrap_err()
        .to_string();
    assert!(err.contains("a wire is listed twice"), "{err}");
}

// ---- workloads ----

#[test]
fn a_workload_row_becomes_a_model_workload_with_the_prefix_mask_on_gw() {
    let f = wl_fabric_edit(|_| {}).unwrap();
    let wl = f.workload("vms").unwrap();
    assert_eq!(wl.prefix.to_string(), "192.168.20.0/24");
    assert_eq!(wl.gw_cidr(), "192.168.20.254/24");
    assert_eq!(wl.dhcp_server, None);
    assert_eq!(
        f.member("pve1-tb").unwrap().workloads[0].address_cidr(),
        "192.168.20.2/24"
    );
    assert!(f.member("pve3-tb").unwrap().workloads.is_empty());
}

#[test]
fn check_refuses_a_gw_outside_the_prefix() {
    let e = wl_err(|d| d.workload[0].gw = "192.168.30.254".to_string());
    assert_eq!(
        e,
        "fabric.toml: workload vms: gw 192.168.30.254 is outside prefix 192.168.20.0/24"
    );
}

#[test]
fn check_refuses_a_gw_that_is_the_network_or_broadcast_address() {
    let e = wl_err(|d| d.workload[0].gw = "192.168.20.0".to_string());
    assert_eq!(
        e,
        "fabric.toml: workload vms: gw 192.168.20.0 is the network or broadcast address of \
         192.168.20.0/24"
    );
    let e = wl_err(|d| d.workload[0].gw = "192.168.20.255".to_string());
    assert_eq!(
        e,
        "fabric.toml: workload vms: gw 192.168.20.255 is the network or broadcast address \
         of 192.168.20.0/24"
    );
}

#[test]
fn the_retired_router_key_is_refused_by_name_with_the_remedy() {
    let e = wl_err(|d| d.workload[0].router = Some("192.168.20.1".to_string()));
    assert_eq!(
        e,
        "fabric.toml: workload vms: 'router' is gone: phase 2: VMs default to 'gw'; remove \
         'router'"
    );
}

#[test]
fn the_retired_span_key_is_refused_by_name_with_the_remedy() {
    for value in ["switch", "host", "nonsense"] {
        let e = wl_err(|d| d.workload[0].span = Some(value.to_string()));
        assert_eq!(
            e,
            "fabric.toml: workload vms: 'span' is gone: phase 2: the VM VLAN is host-local; \
             remove 'span'",
            "span = {value}"
        );
    }
}

fn with_dhcp_server(addr: &str) -> impl FnOnce(&mut Declaration) + '_ {
    move |d: &mut Declaration| d.workload[0].dhcp_server = Some(addr.to_string())
}

#[test]
fn dhcp_server_parses_as_an_ipv4_address_and_is_optional() {
    let f = wl_fabric_edit(with_dhcp_server("192.168.10.11")).unwrap();
    assert_eq!(
        f.workload("vms").unwrap().dhcp_server,
        Some(Ipv4Addr::parse("192.168.10.11").unwrap())
    );
    assert_eq!(
        wl_fabric_edit(|_| {})
            .unwrap()
            .workload("vms")
            .unwrap()
            .dhcp_server,
        None
    );
}

#[test]
fn check_refuses_a_malformed_dhcp_server() {
    assert_eq!(
        wl_err(with_dhcp_server("192.168.10.11/24")),
        "fabric.toml: workload vms: dhcp_server '192.168.10.11/24' must be a bare IPv4 \
         address (the DHCP server this row's relay forwards to)"
    );
}

#[test]
fn check_refuses_a_dhcp_server_inside_the_prefix() {
    assert_eq!(
        wl_err(with_dhcp_server("192.168.20.50")),
        "fabric.toml: workload vms: dhcp_server 192.168.20.50 is inside prefix \
         192.168.20.0/24; the relay forwards off the VLAN, so the server cannot be on it"
    );
}

#[test]
fn check_refuses_a_dhcp_server_that_is_the_gw_or_a_member_address() {
    assert_eq!(
        wl_err(with_dhcp_server("192.168.20.254")),
        "fabric.toml: workload vms: dhcp_server 192.168.20.254 is the gw; the relay \
         forwards off the VLAN, so the server cannot be cfab's own anycast gateway"
    );
    assert_eq!(
        wl_err(with_dhcp_server("192.168.20.3")),
        "fabric.toml: workload vms: dhcp_server 192.168.20.3 is member pve2-tb's own \
         address on this row; the relay forwards off the VLAN"
    );
}

#[test]
fn check_refuses_an_unspecified_or_broadcast_dhcp_server() {
    for addr in ["0.0.0.0", "255.255.255.255"] {
        assert_eq!(
            wl_err(with_dhcp_server(addr)),
            format!(
                "fabric.toml: workload vms: dhcp_server {addr} is not an address a relay \
                 can forward to (omit dhcp_server for no relay)"
            )
        );
    }
}

#[test]
fn check_refuses_two_members_sharing_a_workload_address() {
    let e = wl_err(|d| d.members[1].workloads[0].address = "192.168.20.2/24".to_string());
    assert_eq!(
        e,
        "fabric.toml: workload vms: address 192.168.20.2 is declared by both member \
         pve1-tb and member pve2-tb"
    );
}

#[test]
fn check_refuses_a_workload_prefix_overlapping_a_zone_block() {
    let e = wl_err(|d| {
        d.workload[0].prefix = "10.99.20.0/24".to_string();
        d.workload[0].gw = "10.99.20.254".to_string();
        d.members[0].workloads[0].address = "10.99.20.2/24".to_string();
        d.members[1].workloads[0].address = "10.99.20.3/24".to_string();
    });
    assert_eq!(
        e,
        "fabric.toml: workload vms: prefix 10.99.20.0/24 overlaps zone storage block \
         10.99.0.0/16"
    );
}

#[test]
fn check_refuses_a_workload_vid_outside_the_802_1q_range() {
    for bad in [0, 1, 4095, 65535] {
        let e = wl_err(|d| d.workload[0].vid = bad);
        assert_eq!(
            e,
            format!(
                "fabric.toml: workload vms: vid {bad} is outside 2-4094 (1 is the bridge's \
                 untagged default; 0 and 4095 are reserved)"
            )
        );
    }
    assert!(wl_fabric_edit(|d| d.workload[0].vid = 2).is_ok());
    assert!(wl_fabric_edit(|d| d.workload[0].vid = 4094).is_ok());
}

#[test]
fn the_leg_name_is_cfab_work_plus_the_row_name_cut_to_fifteen_bytes() {
    let leg = |name: &str| {
        wl_fabric_edit(|d| {
            d.workload[0].name = name.to_string();
            d.members[0].workloads[0].name = name.to_string();
            d.members[1].workloads[0].name = name.to_string();
        })
        .unwrap()
        .workload(name)
        .unwrap()
        .leg_ifname()
    };
    assert_eq!(leg("vms"), "cfab-work-vms");
    assert_eq!(leg("vmstore"), "cfab-work-vmsto");
    assert_eq!(leg("v"), "cfab-work-v");
    assert!(leg("vmstore").len() <= 15);
}

#[test]
fn check_refuses_two_workload_rows_whose_leg_names_truncate_alike() {
    let e = wl_err(|d| {
        d.members[0].workloads = vec![
            member_row("vmstorage-a", "192.168.20.2/24"),
            member_row("vmstorage-b", "192.168.30.2/24"),
        ];
        d.members[1].workloads = vec![member_row("vmstorage-a", "192.168.20.3/24")];
        d.workload[0].name = "vmstorage-a".to_string();
        let mut second = workload_row();
        second.name = "vmstorage-b".to_string();
        second.vid = 4;
        second.prefix = "192.168.30.0/24".to_string();
        second.gw = "192.168.30.254".to_string();
        d.workload.push(second);
    });
    assert_eq!(
        e,
        "fabric.toml: workload vmstorage-b: leg 'cfab-work-vmsto' is also used by workload \
         vmstorage-a (cfab-work-<name>, cut to 15 bytes)"
    );
}

#[test]
fn check_refuses_two_workload_rows_on_the_same_uplink_and_vid() {
    let e = wl_err(|d| {
        d.members[0]
            .workloads
            .push(member_row("vms2", "192.168.30.2/24"));
        let mut second = workload_row();
        second.name = "vms2".to_string();
        second.prefix = "192.168.30.0/24".to_string();
        second.gw = "192.168.30.254".to_string();
        d.workload.push(second);
    });
    assert_eq!(
        e,
        "fabric.toml: workload vms2: uplink 'primary' vid 3 is also used by workload vms \
         (one leg per bridge and vid)"
    );
}

#[test]
fn check_refuses_a_workload_leg_colliding_with_an_interface_cfab_creates() {
    let e = wl_err(|d| d.zones[0].segments[0].ifname = "cfab-work-vms".to_string());
    assert_eq!(
        e,
        "fabric.toml: workload vms: leg 'cfab-work-vms' collides with an interface cfab \
         creates"
    );
    let e = wl_err(|d| {
        for m in &mut d.members {
            m.wires[0].nic = "cfab-work-vms".to_string();
        }
    });
    assert_eq!(
        e,
        "fabric.toml: workload vms: leg 'cfab-work-vms' collides with an interface cfab \
         creates"
    );
}

#[test]
fn check_refuses_workload_allow_empty() {
    let e = wl_err(|d| d.workload[0].allow.clear());
    assert_eq!(
        e,
        "fabric.toml: workload vms: allow is empty; a workload must reach at least one zone"
    );
}

#[test]
fn check_refuses_workload_allow_when_forwarding_is_disabled() {
    let e = wl_err(|d| d.forward.enabled = false);
    assert_eq!(
        e,
        "fabric.toml: workload vms: [forward] enabled = false; enable forwarding or delete \
         the [[workload]] row"
    );
}

#[test]
fn check_refuses_a_member_address_outside_the_prefix() {
    let e = wl_err(|d| d.members[0].workloads[0].address = "192.168.30.2/24".to_string());
    assert_eq!(
        e,
        "fabric.toml: member pve1-tb: workload vms: address 192.168.30.2/24 is outside \
         prefix 192.168.20.0/24"
    );
}

#[test]
fn check_refuses_a_member_address_without_the_prefix_mask() {
    let e = wl_err(|d| d.members[0].workloads[0].address = "192.168.20.2/32".to_string());
    assert_eq!(
        e,
        "fabric.toml: member pve1-tb: workload vms: address 192.168.20.2/32 must carry the \
         prefix's mask /24"
    );
}

#[test]
fn check_refuses_a_member_address_that_is_the_gateway() {
    let e = wl_err(|d| d.members[0].workloads[0].address = "192.168.20.254/24".to_string());
    assert_eq!(
        e,
        "fabric.toml: member pve1-tb: workload vms: address 192.168.20.254/24 is the \
         gateway 192.168.20.254"
    );
}

#[test]
fn check_refuses_a_member_address_that_is_the_network_or_broadcast_address() {
    let e = wl_err(|d| d.members[0].workloads[0].address = "192.168.20.0/24".to_string());
    assert_eq!(
        e,
        "fabric.toml: member pve1-tb: workload vms: address 192.168.20.0/24 is the network \
         or broadcast address of 192.168.20.0/24"
    );
    let e = wl_err(|d| d.members[0].workloads[0].address = "192.168.20.255/24".to_string());
    assert_eq!(
        e,
        "fabric.toml: member pve1-tb: workload vms: address 192.168.20.255/24 is the \
         network or broadcast address of 192.168.20.0/24"
    );
}

#[test]
fn check_refuses_an_allow_naming_an_unknown_zone() {
    let e = wl_err(|d| d.workload[0].allow.push("backup".to_string()));
    assert_eq!(
        e,
        "fabric.toml: workload vms: allow 'backup': unknown zone (zones: storage, cluster, \
         mgmt)"
    );
}

#[test]
fn check_refuses_a_workload_no_member_carries() {
    let e = wl_err(|d| {
        for m in &mut d.members {
            m.workloads.clear();
        }
    });
    assert_eq!(
        e,
        "fabric.toml: workload vms: no member carries it (add workloads = [{ name = \
         \"vms\", address = \"<host address>/24\" }] to a member)"
    );
}

#[test]
fn check_refuses_a_member_workload_naming_an_unknown_row() {
    let e = wl_err(|d| d.members[0].workloads[0].name = "nope".to_string());
    assert_eq!(
        e,
        "fabric.toml: member pve1-tb: workload 'nope' is not a declared [[workload]] \
         (workloads: vms)"
    );
}

#[test]
fn check_refuses_a_member_workload_declared_twice() {
    let e = wl_err(|d| {
        d.members[0]
            .workloads
            .push(member_row("vms", "192.168.20.5/24"))
    });
    assert_eq!(
        e,
        "fabric.toml: member pve1-tb: workload vms is declared twice"
    );
}

#[test]
fn check_refuses_a_leaf_carrying_a_workload() {
    let e = wl_err(|d| {
        d.members[2]
            .workloads
            .push(member_row("vms", "192.168.20.4/24"))
    });
    assert_eq!(
        e,
        "fabric.toml: member pve3-tb: workload vms: a leaf carries no workload (kind = leaf)"
    );
}

#[test]
fn check_refuses_a_member_address_without_a_length() {
    let e = wl_err(|d| d.members[0].workloads[0].address = "192.168.20.2".to_string());
    assert_eq!(
        e,
        "fabric.toml: member pve1-tb: workload vms: address '192.168.20.2' is not an IPv4 \
         address with a length"
    );
}

#[test]
fn check_refuses_a_workload_named_like_a_zone_or_declared_twice() {
    let e = wl_err(|d| d.workload[0].name = "storage".to_string());
    assert_eq!(
        e,
        "fabric.toml: workload storage: name is also a zone (workload and zone names share \
         one vocabulary)"
    );
    let e = wl_err(|d| d.workload.push(workload_row()));
    assert_eq!(e, "fabric.toml: workload vms: declared twice");
}

#[test]
fn check_refuses_malformed_prefix_and_gw() {
    let e = wl_err(|d| d.workload[0].prefix = "192.168.20.0".to_string());
    assert_eq!(
        e,
        "fabric.toml: workload vms: prefix '192.168.20.0' is not an IPv4 prefix with a \
         length (example: 192.168.20.0/24)"
    );
    let e = wl_err(|d| d.workload[0].gw = "192.168.20.254/24".to_string());
    assert_eq!(
        e,
        "fabric.toml: workload vms: gw '192.168.20.254/24' must be a bare IPv4 address (the \
         prefix's mask is applied)"
    );
}

#[test]
fn first_host_and_broadcast_are_the_prefixs_edges() {
    let p = Ipv4Prefix::parse("192.168.20.0/24").unwrap();
    assert_eq!(p.first_host(), Ipv4Addr::new(192, 168, 20, 1));
    assert_eq!(p.broadcast(), Ipv4Addr::new(192, 168, 20, 255));
    let host_prefix = Ipv4Prefix::parse("255.255.255.255/32").unwrap();
    assert_eq!(
        host_prefix.first_host(),
        Ipv4Addr::new(255, 255, 255, 255),
        "saturates instead of wrapping at the top of the address space"
    );
}
