//! What is emitted for a member.

use cfab::decl::{
    AdminDecl, BfdDecl, BgpDecl, CostDecl, Declaration, Defaults, ForwardDecl, GwDecl, MarkingDecl,
    MemberDecl, OspfDecl, RuntimeDecl, SegmentDecl, UniversalDecl, WireDecl, ZoneDecl,
};
use cfab::derive::{Ceiling, ClassRow, FallbackRow, GwRow, LegPort, MemberView, ZoneList};
use cfab::model::{Dscp, Fabric, Member, MemberKind, SegScope};
use cfab::cli::check_report;
use cfab::emit::ceiling_ipt::Backend;
use cfab::emit::shape::{AppliedWire, ShapeApplied};
use cfab::emit::shape::rate_token;
use cfab::emit::shape::{self, Band, Derivation, LinkSource};
use cfab::emit::{ceiling_ipt, mark, policy, workload};
use cfab::ipv4::Ipv4Addr;
use cfab::model::wires_by_member;
use cfab::model::prefix::Ipv4Prefix;
use cfab::model::Workload;
use cfab::supervisor::workload::Uplink;
use cfab::textmap::TextMap;

fn wire(nic: &str, domain: &str, speed_mbps: u32) -> WireDecl {
    WireDecl {
        nic: nic.to_string(),
        domain: domain.to_string(),
        speed_mbps,
        driver_features: None,
        usb: None,
    }
}

fn member(name: &str, node: u8, kind: MemberKind, fast: u32) -> MemberDecl {
    MemberDecl {
        name: name.to_string(),
        node,
        kind,
        wires: vec![wire("eth9", "a", fast), wire("eth1", "b", 1000), wire("eth0", "c", 1000)],
        prefs: vec![],
        workloads: vec![],
    }
}

fn seg(ifname: &str, domain: &str, seg: u8, vid: u16) -> SegmentDecl {
    SegmentDecl {
        ifname: ifname.to_string(),
        domain: domain.to_string(),
        seg,
        vid,
    }
}

fn universal(ifname: &str, vid: u16) -> Option<UniversalDecl> {
    Some(UniversalDecl {
        ifname: ifname.to_string(),
        seg: 9,
        vid,
    })
}

fn zone(
    name: &str,
    id: u8,
    marks: (u8, Dscp),
    shape: (u32, u32, u32),
    primary: &str,
    segments: Vec<SegmentDecl>,
    universal: Option<UniversalDecl>,
) -> ZoneDecl {
    ZoneDecl {
        name: name.to_string(),
        id,
        pcp: marks.0,
        dscp: marks.1,
        floor_mbps: shape.0,
        band: shape.1,
        weight: shape.2,
        primary: primary.to_string(),
        segments,
        universal,
        gw: None,
    }
}

/// Other values than the declaration's own, so that it shows which of the two is taken.
fn defaults() -> Defaults {
    Defaults {
        admin: AdminDecl {
            floor_mbps: 50,
            band: 2,
        },
        marking: MarkingDecl {
            pcp_ctrl: 5,
            set_dscp: false,
        },
        cost: CostDecl { leaf_offset: 20000 },
        bfd: BfdDecl {
            rx_ms: 300,
            tx_ms: 350,
            mult: 4,
            port: 4784,
        },
        ospf: OspfDecl {
            hello_s: 2,
            dead_s: 8,
        },
        bgp: BgpDecl {
            asn: 65020,
            keepalive_s: 10,
            hold_s: 30,
            connect_s: 15,
        },
        runtime: RuntimeDecl {
            run_dir: "/run/other".to_string(),
        },
    }
}

/// Three members on three switches, with three zones over them.
fn example() -> Declaration {
    let mut mgmt = zone(
        "mgmt",
        249,
        (2, Dscp::Cs2),
        (100, 1, 1),
        "c",
        vec![
            seg("cfab-mg", "c", 1, 250),
            seg("cfab-mg-bk", "a", 2, 251),
            seg("cfab-mg-b2", "b", 3, 252),
        ],
        universal("cfab-mg-fb", 302),
    );
    mgmt.gw = Some(GwDecl {
        domain: "any".to_string(),
        vid: 249,
        router: "192.168.249.254/24".to_string(),
    });
    Declaration {
        domains: vec!["a".to_string(), "b".to_string(), "c".to_string()],
        members: vec![
            member("pve1-tb", 1, MemberKind::Host, 5000),
            member("pve2-tb", 2, MemberKind::Host, 5000),
            member("pve3-tb", 3, MemberKind::Leaf, 10000),
        ],
        zones: vec![
            zone(
                "storage",
                99,
                (0, Dscp::Cs0),
                (2000, 2, 4),
                "a",
                vec![
                    seg("cfab-st", "a", 1, 100),
                    seg("cfab-st-bk", "b", 2, 101),
                    seg("cfab-st-b2", "c", 3, 102),
                ],
                universal("cfab-st-fb", 300),
            ),
            zone(
                "cluster",
                199,
                (6, Dscp::Cs6),
                (200, 0, 1),
                "b",
                vec![
                    seg("cfab-cl", "b", 1, 200),
                    seg("cfab-cl-bk", "a", 2, 201),
                    seg("cfab-cl-b2", "c", 3, 202),
                ],
                universal("cfab-cl-fb", 301),
            ),
            mgmt,
        ],
        workload: vec![],
        forward: ForwardDecl {
            enabled: true,
            allow: vec![
                "storage>storage".to_string(),
                "cluster>cluster".to_string(),
                "mgmt>mgmt".to_string(),
            ],
        },
        admin: Some(AdminDecl {
            floor_mbps: 100,
            band: 1,
        }),
        marking: Some(MarkingDecl {
            pcp_ctrl: 6,
            set_dscp: true,
        }),
        cost: Some(CostDecl { leaf_offset: 30000 }),
        bfd: Some(BfdDecl {
            rx_ms: 250,
            tx_ms: 250,
            mult: 3,
            port: 3784,
        }),
        ospf: Some(OspfDecl {
            hello_s: 1,
            dead_s: 3,
        }),
        bgp: Some(BgpDecl {
            asn: 65010,
            keepalive_s: 3,
            hold_s: 9,
            connect_s: 5,
        }),
        runtime: Some(RuntimeDecl {
            run_dir: "/run/cfab".to_string(),
        }),
        dns_domain: "fabric.example".to_string(),
        defaults: defaults(),
    }
}

fn fabric() -> Fabric {
    Fabric::from_decl(&example()).unwrap()
}

fn names(zone: &str, names: Vec<String>) -> ZoneList {
    ZoneList {
        zone: zone.to_string(),
        names,
    }
}

/// A member's ports under a bond: one for each wire, named after the wire's domain.
fn ports(m: &Member, bond: &str) -> Vec<LegPort> {
    m.wires
        .iter()
        .map(|w| LegPort {
            ifname: format!("{bond}-{}", w.domain.as_str()),
            wire: w.name.clone(),
        })
        .collect()
}

/// A zone's wire order on a member: the primary domain first, then by speed.
fn order(m: &Member, primary: &str) -> Vec<String> {
    let mut w: Vec<(bool, u32, String)> = m
        .wires
        .iter()
        .map(|w| (w.domain.as_str() != primary, u32::MAX - w.speed_mbps, w.name.clone()))
        .collect();
    w.sort_by_key(|x| (x.0, x.1));
    w.into_iter().map(|x| x.2).collect()
}

/// What a member gets of the fabric.
fn view<'a>(f: &'a Fabric, name: &str) -> MemberView<'a> {
    let m = f.members.iter().find(|m| m.name == name).unwrap();
    let mut v = MemberView {
        fabric: f,
        member: m,
        class_rows: vec![],
        fallback_rows: vec![],
        gw_rows: vec![],
        prefs: vec![],
        fallback_members: vec![],
        zone_ifs: vec![],
        admin_ifs: vec![],
        owned_forwarding: vec![],
        workloads: vec![],
        dscp_ctrl: Dscp::Cs6,
        ceilings: vec![],
    };
    for z in &f.zones {
        let prefs = order(m, z.primary.as_str());
        let home = prefs[0].clone();
        let mut ifs = vec![];
        for s in f.segments.iter().filter(|s| s.zone == z.name) {
            ifs.push(s.ifname.clone());
            v.owned_forwarding.push(s.ifname.clone());
            match &s.scope {
                SegScope::Domain(d) => {
                    let wire = m.wire_on(d).unwrap().name.clone();
                    let rank = prefs.iter().position(|p| *p == wire).unwrap();
                    v.class_rows.push(ClassRow {
                        ifname: s.ifname.clone(),
                        zone: z.name.clone(),
                        wire,
                        ospf_cost: [10, 100, 1000][rank],
                    });
                }
                SegScope::Universal => {
                    let ports = ports(m, &s.ifname);
                    v.owned_forwarding.extend(ports.iter().map(|p| p.ifname.clone()));
                    v.fallback_rows.push(FallbackRow {
                        zone: z.name.clone(),
                        ifname: s.ifname.clone(),
                        seg: s.seg,
                        home: home.clone(),
                        ospf_cost: 5000,
                        ports,
                    });
                    v.ceilings.push(Ceiling {
                        ifname: s.ifname.clone(),
                        zone: z.name.clone(),
                        rate_pps: 80,
                        burst_pkts: 160,
                    });
                    let all = f.members.iter().map(|m| m.name.clone()).collect();
                    v.fallback_members.push(names(&z.name, all));
                }
            }
        }
        if let (Some(gw), MemberKind::Host) = (&z.gw, m.kind) {
            let ifname = format!("cfab-gw{}", z.id);
            let (home, ports) = match &gw.scope {
                SegScope::Universal => (home, ports(m, &ifname)),
                SegScope::Domain(d) => (m.wire_on(d).unwrap().name.clone(), vec![]),
            };
            v.owned_forwarding.push(ifname.clone());
            v.gw_rows.push(GwRow {
                zone: z.name.clone(),
                ifname,
                home,
                ports,
            });
        }
        v.prefs.push(names(&z.name, prefs));
        v.zone_ifs.push(names(&z.name, ifs));
    }
    if m.kind == MemberKind::Host {
        v.admin_ifs = m.wires.iter().map(|w| w.name.clone()).collect();
    }
    v
}

fn wires(names: &[&str]) -> Vec<String> {
    names.iter().map(|n| n.to_string()).collect()
}

fn all_up() -> Vec<String> {
    wires(&["eth0", "eth1", "eth9"])
}

// ---- the ceilings ----

#[test]
fn the_restore_input_for_the_example_declaration() {
    let f = fabric();
    assert_eq!(
        ceiling_ipt::generate(&view(&f, "pve3-tb")).unwrap(),
        "*mangle\n\
         :cfab-out - [0:0]\n\
         :cfab-ceil-storage - [0:0]\n\
         :cfab-ceil-cluster - [0:0]\n\
         :cfab-ceil-mgmt - [0:0]\n\
         -F cfab-out\n\
         -F cfab-ceil-storage\n\
         -F cfab-ceil-cluster\n\
         -F cfab-ceil-mgmt\n\
         -A cfab-out -o cfab-st-fb -p 89 -j cfab-ceil-storage\n\
         -A cfab-out -o cfab-cl-fb -p 89 -j cfab-ceil-cluster\n\
         -A cfab-out -o cfab-mg-fb -p 89 -j cfab-ceil-mgmt\n\
         -A cfab-ceil-storage -m limit --limit 80/second --limit-burst 160 -j RETURN\n\
         -A cfab-ceil-storage -j DROP\n\
         -A cfab-ceil-cluster -m limit --limit 80/second --limit-burst 160 -j RETURN\n\
         -A cfab-ceil-cluster -j DROP\n\
         -A cfab-ceil-mgmt -m limit --limit 80/second --limit-burst 160 -j RETURN\n\
         -A cfab-ceil-mgmt -j DROP\n\
         COMMIT\n"
    );
}

#[test]
fn both_backends_render_the_same_rate_and_burst() {
    let f = fabric();
    let v = view(&f, "pve3-tb");
    let ipt = ceiling_ipt::generate(&v).unwrap();
    for c in &v.ceilings {
        assert!(
            ipt.contains(&format!(
                "-A cfab-out -o {} -p 89 -j cfab-ceil-{}\n",
                c.ifname, c.zone
            )) && ipt.contains(&format!(
                "-A cfab-ceil-{} -m limit --limit {}/second --limit-burst {} -j RETURN\n\
                 -A cfab-ceil-{} -j DROP\n",
                c.zone, c.rate_pps, c.burst_pkts, c.zone
            )),
            "{ipt}"
        );
    }
}

#[test]
fn a_member_with_no_fallback_row_renders_an_empty_but_flushing_ruleset() {
    let mut d = example();
    for z in &mut d.zones {
        z.universal = None;
    }
    let f = Fabric::from_decl(&d).unwrap();
    assert_eq!(
        ceiling_ipt::generate(&view(&f, "pve3-tb")).unwrap(),
        "*mangle\n:cfab-out - [0:0]\n-F cfab-out\nCOMMIT\n"
    );
}

#[test]
fn the_render_marks_nothing_and_uses_no_comment_match() {
    let f = fabric();
    let out = ceiling_ipt::generate(&view(&f, "pve3-tb")).unwrap();
    for absent in ["DSCP", "CLASSIFY", "-m comment", "TOS", "--set-"] {
        assert!(!out.contains(absent), "{absent} in the render: {out}");
    }
}

#[test]
fn every_jump_into_a_ceiling_chain_is_selective_and_only_the_final_drop_is_unconditional() {
    let f = fabric();
    for member in ["pve1-tb", "pve3-tb"] {
        let v = view(&f, member);
        let out = ceiling_ipt::generate(&v).unwrap();
        let jumps: Vec<&str> = out
            .lines()
            .filter(|l| l.starts_with("-A cfab-out "))
            .collect();
        assert_eq!(jumps.len(), v.ceilings.len(), "{out}");
        for j in &jumps {
            let w: Vec<&str> = j.split_whitespace().collect();
            assert!(
                w.contains(&"-o") && w.contains(&"-p") && w.contains(&"89"),
                "{member}: an unconditional jump into a drop chain: {j}"
            );
        }
        for l in out.lines().filter(|l| l.starts_with("-A cfab-ceil-")) {
            let unconditional = !l.contains(" -m ") && !l.contains(" -o ") && !l.contains(" -p ");
            assert_eq!(unconditional, l.ends_with(" -j DROP"), "{member}: {l}");
        }
    }
}

#[test]
fn the_readback_filter_keeps_only_our_chains_and_rules() {
    let save = "# Generated\n*mangle\n:PREROUTING ACCEPT [0:0]\n:OUTPUT ACCEPT [7:9]\n\
                :DOCKER-USER - [0:0]\n:cfab-out - [0:0]\n:cfab-ceil-storage - [0:0]\n\
                -A OUTPUT -j cfab-out\n-A DOCKER-USER -j RETURN\n\
                -A cfab-out -j cfab-ceil-storage\n-A cfab-ceil-storage -j DROP\nCOMMIT\n";
    assert_eq!(
        ceiling_ipt::ours(save),
        ":cfab-out - [0:0]\n:cfab-ceil-storage - [0:0]\n\
         -A cfab-out -j cfab-ceil-storage\n-A cfab-ceil-storage -j DROP\n"
    );
    assert_eq!(
        ceiling_ipt::chains_in(save),
        vec!["cfab-out", "cfab-ceil-storage"]
    );
}

#[test]
fn a_chain_is_named_by_what_stands_behind_the_colon() {
    let save = "*mangle\n:cfab- - [0:0]\n:cfab-out\t- [0:0]\n:cfab-bare\n :cfab-indented - [0:0]\n\
                :DOCKER-USER - [0:0]\n:cfabric - [0:0]\nCOMMIT\n";
    let names = vec!["cfab-", "cfab-out", "cfab-bare"];
    assert_eq!(ceiling_ipt::chains_in(save), names);
    assert_eq!(ceiling_ipt::chains_in(&ceiling_ipt::ours(save)), names);
}

#[test]
fn the_drop_counter_is_read_from_the_chains_last_rule() {
    let save = "*mangle\n:cfab-ceil-storage - [0:0]\n\
                [6:312] -A cfab-ceil-storage -o cfab-st-fb -p 89 -m limit --limit 80/second \
                --limit-burst 160 -j RETURN\n\
                [35:1820] -A cfab-ceil-storage -j DROP\n\
                [99:9] -A cfab-ceil-cluster -j RETURN\nCOMMIT\n";
    assert_eq!(ceiling_ipt::drop_packets(save, "storage"), Some(35));
    assert_eq!(ceiling_ipt::drop_packets(save, "cluster"), None);
    assert_eq!(ceiling_ipt::drop_packets(save, "mgmt"), None);
}

#[test]
fn a_backend_is_recorded_and_read_back() {
    for b in [Backend::Nft, Backend::IptablesLegacy] {
        assert_eq!(Backend::parse(b.as_str()), Some(b));
        assert_eq!(ceiling_ipt::recorded(&Some(format!("{}\n", b.as_str()))), Some(b));
    }
    assert_eq!(ceiling_ipt::recorded(&None), None);
    assert_eq!(ceiling_ipt::recorded(&Some("ebtables".to_string())), None);
    assert_eq!(ceiling_ipt::record_path("/run/cfab").split('/').nth(2), Some("cfab"));
    assert_eq!(ceiling_ipt::ceil_chain("mgmt"), "cfab-ceil-mgmt");
}

// ---- the marking and the policy ----

#[test]
fn the_oifname_group_carries_the_rescue_bond_never_a_slave() {
    for member in ["pve1-tb", "pve3-tb"] {
        let f = fabric();
        let v = view(&f, member);
        let out = mark::generate(&v).unwrap();
        for row in &v.fallback_rows {
            assert!(out.contains(&format!("\"{}\"", row.ifname)), "{member}: {}", row.ifname);
            for port in &row.ports {
                assert!(!out.contains(&format!("\"{}\"", port.ifname)), "{member}");
            }
        }
    }
}

#[test]
fn control_is_lifted_where_the_zone_is_marked_below_it() {
    let f = fabric();
    let out = mark::generate(&view(&f, "pve1-tb")).unwrap();
    assert!(out.starts_with("table inet cfab\ndelete table inet cfab\ntable inet cfab {\n"));
    for zone in ["storage", "mgmt"] {
        for what in ["pcp-{}-ctrl", "pcp-{}-bfd", "dscp-{}-bulk", "dscp-{}-ctrl", "dscp-{}-bfd"] {
            assert!(out.contains(&what.replace("{}", zone)), "{zone} {what}: {out}");
        }
    }
    // The cluster zone is at the control marks already.
    assert!(out.contains("dscp-cluster-bulk"));
    for absent in ["pcp-cluster-ctrl", "pcp-cluster-bfd", "dscp-cluster-ctrl", "dscp-cluster-bfd"] {
        assert!(!out.contains(absent), "{absent}: {out}");
    }
}

#[test]
fn a_workload_gets_symmetric_stateless_accepts_and_its_ifname_in_the_owned_set() {
    let f = fabric();
    let mut v = view(&f, "pve1-tb");
    v.workloads.push(Workload {
        name: "vms".to_string(),
        uplink: "primary".to_string(),
        vid: 3,
        prefix: Ipv4Prefix::parse("192.168.20.0/24").unwrap(),
        gw: Ipv4Addr::parse("192.168.20.254").unwrap(),
        dhcp_server: None,
        allow: vec!["storage".to_string()],
    });
    v.owned_forwarding.push("cfab-work-vms".to_string());
    let t = policy::generate(&v).unwrap();
    assert!(
        t.contains(
            "iifname \"cfab-work-vms\" oifname @storage counter accept comment \"allow-vms-storage\""
        ),
        "{t}"
    );
    assert!(
        t.contains(
            "iifname @storage oifname \"cfab-work-vms\" counter accept comment \"allow-storage-vms\""
        ),
        "{t}"
    );
    let cfab_set = t.split("set cfab {").nth(1).unwrap();
    assert!(cfab_set.contains("cfab-work-vms"), "{cfab_set}");
    let pos = |s: &str| t.find(s).unwrap();
    assert!(
        pos("allow-vms-storage") > pos("return-of-allowed")
            && pos("allow-vms-storage") < pos("default-deny")
    );
}

#[test]
fn zone_set_carries_the_fallback_bond_never_a_port_owned_set_carries_both() {
    for member in ["pve1-tb", "pve3-tb"] {
        let f = fabric();
        let v = view(&f, member);
        let out = policy::generate(&v).unwrap();
        for row in &v.fallback_rows {
            let want = format!("\"{}\"", row.ifname);
            let set_line = out
                .lines()
                .find(|l| l.trim_start().starts_with(&format!("set {} {{", row.zone)))
                .unwrap();
            assert!(set_line.contains(&want), "{member}: {set_line}");
            let cfab_line = out
                .lines()
                .find(|l| l.trim_start().starts_with("set cfab {"))
                .unwrap();
            assert!(cfab_line.contains(&want), "{member}: {cfab_line}");
            for port in &row.ports {
                let port_tag = format!("\"{}\"", port.ifname);
                assert!(!set_line.contains(&port_tag), "{member}: {set_line}");
                assert!(cfab_line.contains(&port_tag), "{member}: {cfab_line}");
            }
        }
    }
}

#[test]
fn the_admin_set_is_every_wire_on_a_host_and_empty_on_a_leaf() {
    let f = fabric();
    let host = view(&f, "pve1-tb");
    let line = |out: &str| {
        out.lines()
            .find(|l| l.trim_start().starts_with("set admin "))
            .unwrap()
            .to_string()
    };
    let out = policy::generate(&host).unwrap();
    let set_line = line(&out);
    let all = all_up();
    for wire in &all {
        assert!(set_line.contains(&format!("\"{wire}\"")), "{set_line}");
    }
    assert_eq!(set_line.matches('"').count() / 2, all.len());

    let leaf = view(&f, "pve3-tb");
    let leaf_out = policy::generate(&leaf).unwrap();
    assert_eq!(line(&leaf_out).trim(), "set admin { type ifname; }");
    for rule in ["iifname @admin counter drop", "oifname @admin counter drop"] {
        assert!(leaf_out.contains(rule), "leaf lost {rule}");
    }
}

// ---- the shaping ----

fn label<'a>(d: &'a Derivation, label: &str) -> Option<&'a Band> {
    d.bands.iter().find(|b| b.label == label)
}

#[test]
fn all_up_full_floor_on_primary() {
    let f = fabric();
    let d = shape::derive(&view(&f, "pve1-tb"), "eth9", None, &all_up()).unwrap();
    let storage = label(&d, "storage").unwrap();
    assert_eq!(storage.floor, 2000);
    assert!(storage.is_default);
    assert_eq!(d.source, LinkSource::Declared);
    assert_eq!(d.l, 5000 * 97 / 100);
}

#[test]
fn bulk_token_off_primary_and_promotion_on_failover() {
    let f = fabric();
    let v = view(&f, "pve1-tb");
    let d = shape::derive(&v, "eth1", None, &all_up()).unwrap();
    assert_eq!(label(&d, "storage").unwrap().floor, 1);
    let d = shape::derive(&v, "eth1", None, &wires(&["eth0", "eth1"])).unwrap();
    assert_eq!(label(&d, "storage").unwrap().floor, 2000);
}

#[test]
fn the_bands_of_a_wire_stand_in_order_and_bulk_has_its_floor_on_one_wire() {
    let f = fabric();
    let v = view(&f, "pve1-tb");
    let mut full = 0;
    for dev in ["eth0", "eth1", "eth9"] {
        let d = shape::derive(&v, dev, None, &all_up()).unwrap();
        let order: Vec<(u32, &str)> = d.bands.iter().map(|b| (b.prio, b.label.as_str())).collect();
        let mut sorted = order.clone();
        sorted.sort();
        assert_eq!(order, sorted, "{dev}");
        let minors: Vec<u32> = d.bands.iter().map(|b| b.minor).collect();
        assert_eq!(minors, (1..=minors.len() as u32).map(|i| i * 10).collect::<Vec<_>>());
        if label(&d, "storage").unwrap().floor > 1 {
            full += 1;
        }
    }
    assert_eq!(full, 1);
}

#[test]
fn oversubscribed_protects_band0() {
    let f = fabric();
    let d = shape::derive(&view(&f, "pve1-tb"), "eth0", Some(300), &all_up()).unwrap();
    let l = 300 * 97 / 100; // 291
    assert!(d.warnings.iter().any(|w| w.contains("oversubscribed")), "{:?}", d.warnings);
    let cluster = label(&d, "cluster").unwrap();
    assert_eq!(cluster.eff, cluster.floor, "band-0 floor protected in full");
    assert!(d.sum_eff <= l);
}

#[test]
fn hard_warn_when_even_control_unfit() {
    let f = fabric();
    let d = shape::derive(&view(&f, "pve1-tb"), "eth0", Some(100), &all_up()).unwrap(); // L=97
    assert!(d.warnings.iter().any(|w| w.contains("HARD WARNING")), "{:?}", d.warnings);
    let cluster = label(&d, "cluster").unwrap();
    assert!(cluster.eff < cluster.floor);
}

#[test]
fn every_host_wire_gets_the_admin_band_and_no_leaf_wire_does() {
    let f = fabric();
    let v = view(&f, "pve1-tb");
    for wire in ["eth0", "eth1", "eth9"] {
        let d = shape::derive(&v, wire, None, &all_up()).unwrap();
        let admin = label(&d, "admin").unwrap();
        assert_eq!(admin.floor, f.admin_floor_mbps as u64, "{wire}");
    }
    let leaf = view(&f, "pve3-tb");
    for wire in ["eth0", "eth1", "eth9"] {
        let d = shape::derive(&leaf, wire, None, &all_up()).unwrap();
        assert!(label(&d, "admin").is_none(), "{wire}");
    }
}

#[test]
fn unknown_wire_fails_loud() {
    let f = fabric();
    let v = view(&f, "pve1-tb");
    let err = shape::derive(&v, "eth5", None, &all_up()).unwrap_err();
    assert!(
        err.to_string().contains("no declared link speed for pve1-tb:eth5"),
        "{}",
        err.to_string()
    );
    let err = shape::derive(&v, "eth5", Some(1000), &all_up()).unwrap_err();
    assert!(
        err.to_string().contains("no a zone's `segments` zone on wire 'eth5'"),
        "{}",
        err.to_string()
    );
}

#[test]
fn applied_record_round_trips() {
    let f = fabric();
    let d = shape::derive(&view(&f, "pve1-tb"), "eth9", None, &all_up()).unwrap();
    let mut wires = TextMap::new();
    wires.insert("eth9".to_string(), AppliedWire::Shaped(d.applied_classes()));
    wires.insert("eth1".to_string(), AppliedWire::NoCarrier);
    wires.insert(
        "eth0".to_string(),
        AppliedWire::Failed("gen-shape: nope".to_string()),
    );
    let rec = ShapeApplied { tick: 42, wires };
    let text = rec.render();
    assert!(text.starts_with("cfab-shape-applied 1\ntick 42\n"), "{text}");
    assert!(text.contains("dev eth1 no-carrier\n"), "{text}");
    assert!(text.contains("dev eth0 failed gen-shape: nope\n"), "{text}");
    assert_eq!(ShapeApplied::parse(&text).unwrap(), rec);
}

#[test]
fn a_message_of_several_lines_is_recorded_on_one() {
    let mut wires = TextMap::new();
    wires.insert(
        "eth0".to_string(),
        AppliedWire::Failed("tc: first\nsecond".to_string()),
    );
    wires.insert("eth1".to_string(), AppliedWire::NoCarrier);
    let text = ShapeApplied { tick: 7, wires }.render();
    assert_eq!(
        text,
        "cfab-shape-applied 1\ntick 7\ndev eth0 failed tc: first second\ndev eth1 no-carrier\n"
    );
    let back = ShapeApplied::parse(&text).unwrap();
    assert_eq!(
        back.wires.get("eth0"),
        Some(&AppliedWire::Failed("tc: first second".to_string()))
    );
    assert_eq!(back.wires.get("eth1"), Some(&AppliedWire::NoCarrier));
    assert_eq!(back.render(), text);
}

#[test]
fn applied_record_refuses_anything_it_does_not_understand() {
    for bad in [
        "",
        "cfab-shape-applied 2\ntick 1\n",
        "cfab-shape-applied 1\n",
        "cfab-shape-applied 1\ntick x\n",
        "cfab-shape-applied 1\ntick 1\neth9 shaped 1:10=1Mbit\n",
        "cfab-shape-applied 1\ntick 1\ndev eth9 wat\n",
        "cfab-shape-applied 1\ntick 1\ndev eth9 shaped 1:10\n",
        "cfab-shape-app",
    ] {
        assert!(ShapeApplied::parse(bad).is_err(), "accepted {bad:?}");
    }
}

#[test]
fn rate_tokens_are_spelled_the_way_tc_prints_them() {
    assert_eq!(rate_token(2000), "2Gbit");
    assert_eq!(rate_token(4850), "4850Mbit");
    assert_eq!(rate_token(1), "1Mbit");
    assert_eq!(rate_token(0), "1Kbit");
}

#[test]
fn the_text_of_a_shape_is_what_is_run() {
    let f = fabric();
    let v = view(&f, "pve1-tb");
    let d = shape::derive(&v, "eth9", Some(4000), &all_up()).unwrap();
    assert_eq!(d.source, LinkSource::Measured);
    assert_eq!(d.l, 3880);
    let mut lines = String::new();
    for (argv, ignored) in d.tc_argv() {
        lines.push_str(&argv.join(" "));
        lines.push_str(if ignored { " 2>/dev/null || true\n" } else { "\n" });
    }
    assert_eq!(d.render_tc(), lines);
    // Each class and its rate.
    for (b, (classid, rate)) in d.bands.iter().zip(d.applied_classes()) {
        assert_eq!(rate, rate_token(b.eff));
        assert!(d.render_expect().contains(&format!("{classid} {}\n", b.eff)));
    }
    assert!(d.render_derive(&v).contains("eth9"));
}

// ---- the workloads ----

fn agg_strs(ids: &[u8]) -> Vec<String> {
    workload::aggregate(ids).iter().map(|p| p.to_string()).collect()
}

fn addr(s: &str) -> Ipv4Addr {
    Ipv4Addr::parse(s).unwrap()
}

#[test]
fn aggregate_merges_aligned_neighboring_16s_and_leaves_the_rest() {
    assert_eq!(
        agg_strs(&[99, 199, 249]),
        ["10.99.0.0/16", "10.199.0.0/16", "10.249.0.0/16"]
    );
    assert_eq!(agg_strs(&[98, 99]), ["10.98.0.0/15"]);
    assert_eq!(agg_strs(&[96, 97, 98, 99]), ["10.96.0.0/14"]);
    assert_eq!(agg_strs(&[99, 100]), ["10.99.0.0/16", "10.100.0.0/16"]);
    assert_eq!(agg_strs(&[199, 99, 99]), ["10.99.0.0/16", "10.199.0.0/16"]);
}

#[test]
fn an_aggregate_holds_the_declared_blocks_and_nothing_else() {
    let ids = [2, 3, 99, 255];
    let p = workload::aggregate(&ids);
    assert_eq!(p.len(), 3);
    for id in 0..=255u8 {
        for a in [format!("10.{id}.0.0"), format!("10.{id}.255.255")] {
            let held = p.iter().any(|x| x.contains(addr(&a)));
            assert_eq!(held, ids.contains(&id), "{a}");
        }
    }
    for a in ["9.99.0.0", "11.99.0.0", "11.0.0.0", "9.255.255.255"] {
        assert!(!p.iter().any(|x| x.contains(addr(a))), "{a}");
    }
}

#[test]
fn every_block_makes_one_aggregate() {
    let all: Vec<u8> = (0..=255).collect();
    assert_eq!(agg_strs(&all), ["10.0.0.0/8"]);
    assert_eq!(agg_strs(&[]), Vec::<String>::new());
}

#[test]
fn the_dhcp_snippet_carries_the_aggregate_via_gw_and_the_default_inside_option_121() {
    let s = workload::dhcp_option_121(
        Ipv4Prefix::parse("192.168.20.0/24").unwrap(),
        &[
            Ipv4Prefix::parse("10.99.0.0/16").unwrap(),
            Ipv4Prefix::parse("10.199.0.0/16").unwrap(),
        ],
        addr("192.168.20.254"),
        addr("192.168.20.1"),
    );
    assert_eq!(
        s,
        "\
# dhcpd.conf (ISC): RFC 3442 classless static routes for this workload's subnet. A client that receives
# option 121 IGNORES option 3, so the default route (0.0.0.0/0 via 192.168.20.1) is INSIDE 121 (last entry).
# 10.99.0.0/16 via 192.168.20.254, 10.199.0.0/16 via 192.168.20.254, 0.0.0.0/0 via 192.168.20.1
subnet 192.168.20.0 netmask 255.255.255.0 {
\toption rfc3442-classless-static-routes 16, 10, 99, 192, 168, 20, 254, 16, 10, 199, 192, 168, 20, 254, 0, 192, 168, 20, 1;
}
"
    );
}

#[test]
fn two_rows_get_two_distinct_subnet_definition_lines() {
    let agg = [Ipv4Prefix::parse("10.99.0.0/16").unwrap()];
    let a = workload::dhcp_option_121(
        Ipv4Prefix::parse("192.168.20.0/24").unwrap(),
        &agg,
        addr("192.168.20.254"),
        addr("192.168.20.1"),
    );
    let b = workload::dhcp_option_121(
        Ipv4Prefix::parse("192.168.30.0/24").unwrap(),
        &agg,
        addr("192.168.30.254"),
        addr("192.168.30.1"),
    );
    assert!(a.contains("subnet 192.168.20.0 netmask 255.255.255.0 {"), "{a}");
    assert!(b.contains("subnet 192.168.30.0 netmask 255.255.255.0 {"), "{b}");
    assert_ne!(a, b);
    assert!(!a.contains("code 121"), "{a}");
    assert!(
        workload::DHCP_OPTION_121_DEFINITION.contains("code 121 = array of unsigned integer 8;")
    );
}

fn uplink(ports: &[&str]) -> Uplink {
    Uplink {
        bridge: "primary".to_string(),
        vid: 3,
        ports: wires(ports),
    }
}

#[test]
fn the_bridge_table_drops_arp_for_gw_arriving_on_the_uplink_at_filter_priority() {
    assert_eq!(
        workload::bridge_table(&vec![(addr("192.168.20.254"), uplink(&["eth0"]))]),
        "\
table bridge cfab
delete table bridge cfab
table bridge cfab {
    chain pre {
        type filter hook prerouting priority filter; policy accept;
        iifname \"eth0\" vlan id 3 vlan type arp arp saddr ip 192.168.20.254 counter drop comment \"gw-claim-from-uplink\"
        iifname \"eth0\" vlan id 3 vlan type arp arp daddr ip 192.168.20.254 counter drop comment \"gw-request-from-uplink\"
    }
}
"
    );
}

#[test]
fn two_uplink_ports_get_one_pair_of_rules_each() {
    let out = workload::bridge_table(&vec![(addr("192.168.20.254"), uplink(&["eth0", "eth1"]))]);
    assert_eq!(out.matches("counter drop").count(), 4);
    assert_eq!(out.matches("iifname \"eth0\"").count(), 2);
    assert_eq!(out.matches("iifname \"eth1\"").count(), 2);
}

// ---- the command line ----

#[test]
fn check_names_this_members_fallback_legs() {
    let f = fabric();
    assert_eq!(
        check_report(&view(&f, "pve1-tb")),
        "fabric.conf OK: 3 zones, 9 segments, 3 fallback legs, 3 members\n\
         this member: pve1-tb (node 1, host); 9 segment sub-ifs on wires [eth0 eth1 eth9], \
         3 fallback leg(s), 1 ingress leg(s)\n"
    );
}

#[test]
fn check_on_a_fallback_free_fabric_counts_zero() {
    let mut d = example();
    for z in &mut d.zones {
        z.universal = None;
    }
    let f = Fabric::from_decl(&d).unwrap();
    assert_eq!(
        check_report(&view(&f, "pve1-tb")),
        "fabric.conf OK: 3 zones, 9 segments, 0 fallback legs, 3 members\n\
         this member: pve1-tb (node 1, host); 9 segment sub-ifs on wires [eth0 eth1 eth9], \
         0 fallback leg(s), 1 ingress leg(s)\n"
    );
}

#[test]
fn wires_are_found_by_their_member() {
    let f = fabric();
    let m = wires_by_member(&f);
    assert_eq!(m.len(), 3);
    let of = m.get("pve3-tb").unwrap();
    assert_eq!(of[0].name, "eth9");
    assert_eq!(of[0].speed_mbps, 10000);
    assert!(m.get("pve4-tb").is_none());
}
