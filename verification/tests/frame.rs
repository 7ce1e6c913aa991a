//! The frames that are sent and heard.

use cfab::ipv4::Ipv4Addr;
use cfab::prober::frame::{hello_router_id, probe, reply_from, synthetic_mac, PROBE_LEN};


/// The router that answers
/// `192.168.249.254` to the synthetic `02:cf:ab:f2:10:00`.
const UDM: [u8; 6] = [0x68, 0xd7, 0x9a, 0x66, 0x91, 0xa9];
const OURS: [u8; 6] = [0x02, 0xcf, 0xab, 0xf2, 0x10, 0x00];
const ROUTER: Ipv4Addr = Ipv4Addr {
    bits: 0xc0a8_f9fe,
};

/// The reply the UDM sent, as captured: unicast to our synthetic MAC, sender IP the router,
/// target IP 0.0.0.0 because it is answering a probe.
fn rack_reply() -> Vec<u8> {
    let mut f = Vec::new();
    f.extend_from_slice(&OURS); // dst
    f.extend_from_slice(&UDM); // src
    f.extend_from_slice(&[0x08, 0x06]); // ARP
    f.extend_from_slice(&[0x00, 0x01, 0x08, 0x00, 0x06, 0x04, 0x00, 0x02]);
    f.extend_from_slice(&UDM); // sha
    f.extend_from_slice(&[192, 168, 249, 254]); // spa
    f.extend_from_slice(&OURS); // tha
    f.extend_from_slice(&[0, 0, 0, 0]); // tpa
    f
}

#[test]
fn the_probe_is_the_42_golden_bytes_of_an_rfc_5227_probe() {
    let want: [u8; PROBE_LEN] = [
        0xff, 0xff, 0xff, 0xff, 0xff, 0xff,
        0x02, 0xcf, 0xab, 0xf2, 0x10, 0x00,
        0x08, 0x06,
        0x00, 0x01,
        0x08, 0x00,
        0x06, 0x04,
        0x00, 0x01,
        0x02, 0xcf, 0xab, 0xf2, 0x10, 0x00,
        0x00, 0x00, 0x00, 0x00,
        0x00, 0x00, 0x00, 0x00, 0x00, 0x00,
        0xc0, 0xa8, 0xf9, 0xfe,
    ];
    assert_eq!(probe(OURS, ROUTER), want);
}

#[test]
fn the_rack_reply_yields_the_routers_mac() {
    assert_eq!(reply_from(&rack_reply(), OURS, &[ROUTER]), Some(UDM));
}

/// Ethernet pads a 42-byte frame to the 60-byte minimum; the parse must not care.
#[test]
fn a_padded_reply_still_parses() {
    let mut f = rack_reply();
    f.resize(60, 0);
    assert_eq!(reply_from(&f, OURS, &[ROUTER]), Some(UDM));
}

/// Our own broadcast probe floods back in through the other islands of the same VLAN. It is
/// op 1 and must never be counted as an answer.
#[test]
fn our_own_flooded_request_is_not_a_reply() {
    let mine = probe(OURS, ROUTER);
    assert_eq!(reply_from(&mine, OURS, &[ROUTER]), None);
}

#[test]
fn a_reply_from_another_address_is_not_ours() {
    assert_eq!(
        reply_from(&rack_reply(), OURS, &[Ipv4Addr::new(192, 168, 249, 1)]),
        None
    );
}

/// The whole point of the per-port source MAC: a reply addressed to a different port is
/// evidence about that port, never about this one.
#[test]
fn a_reply_to_another_ports_mac_is_not_ours() {
    let other = synthetic_mac(0xf2, 0x10, 1);
    assert_eq!(reply_from(&rack_reply(), other, &[ROUTER]), None);
}

#[test]
fn a_non_arp_or_short_frame_is_dropped_quietly() {
    let mut ip = rack_reply();
    ip[12..14].copy_from_slice(&[0x08, 0x00]);
    assert_eq!(reply_from(&ip, OURS, &[ROUTER]), None);
    assert_eq!(reply_from(&rack_reply()[..20], OURS, &[ROUTER]), None);
    assert_eq!(reply_from(&[], OURS, &[ROUTER]), None);
}

/// A tagged copy of the same reply parses identically: the tap is ETH_P_ALL, so a frame
/// that reached us with its tag still on is the same evidence.
#[test]
fn a_vlan_tagged_reply_parses() {
    let r = rack_reply();
    let mut f = r[..12].to_vec();
    f.extend_from_slice(&[0x81, 0x00, 0x00, 0xf9]);
    f.extend_from_slice(&r[12..]);
    assert_eq!(reply_from(&f, OURS, &[ROUTER]), Some(UDM));
}

/// The peers' own fallback addresses (`10.<zone>.<seg>.<node>`) are the escalation targets,
/// and there is more than one of them: a reply from ANY of them is evidence about the wire.
#[test]
fn a_reply_from_any_target_counts() {
    let peers = [Ipv4Addr::new(10, 99, 9, 2), Ipv4Addr::new(10, 99, 9, 3)];
    let mut f = rack_reply();
    f[28..32].copy_from_slice(&[10, 99, 9, 3]);
    assert_eq!(reply_from(&f, OURS, &peers), Some(UDM));
    f[28..32].copy_from_slice(&[10, 99, 9, 4]);
    assert_eq!(reply_from(&f, OURS, &peers), None, "not one of ours");
    assert_eq!(reply_from(&rack_reply(), OURS, &[]), None, "nobody to hear");
}

/// A golden OSPFv2 hello: the peer's own router id is at payload offset 4..8, and that is
/// the only field read.
fn hello(router_id: [u8; 4], ihl: u8) -> Vec<u8> {
    let mut f = Vec::new();
    f.extend_from_slice(&[0x01, 0x00, 0x5e, 0x00, 0x00, 0x05]); // AllSPFRouters
    f.extend_from_slice(&[0x02, 0xcf, 0xab, 0x00, 0x00, 0x01]);
    f.extend_from_slice(&[0x08, 0x00]); // IPv4
    let hlen = (ihl * 4) as usize;
    let mut ip = vec![0u8; hlen];
    ip[0] = 0x40 | ihl;
    ip[9] = 89; // OSPF
    ip[12..16].copy_from_slice(&[10, 99, 9, 2]); // src
    ip[16..20].copy_from_slice(&[224, 0, 0, 5]); // dst
    f.extend_from_slice(&ip);
    let mut ospf = vec![0u8; 24];
    ospf[0] = 2; // version
    ospf[1] = 1; // hello
    ospf[4..8].copy_from_slice(&router_id);
    f.extend_from_slice(&ospf);
    f
}

#[test]
fn a_golden_hello_yields_its_router_id() {
    let rid = u32::from_be_bytes([10, 99, 0, 2]);
    assert_eq!(hello_router_id(&hello([10, 99, 0, 2], 5)), Some(rid));
    assert_eq!(
        hello_router_id(&hello([10, 99, 0, 2], 6)),
        Some(rid),
        "an IHL 6 header (one option word) shifts the OSPF header"
    );
}

/// A tagged copy is the same evidence, exactly as for an ARP reply.
#[test]
fn a_vlan_tagged_hello_parses() {
    let h = hello([10, 99, 0, 3], 5);
    let mut f = h[..12].to_vec();
    f.extend_from_slice(&[0x81, 0x00, 0x01, 0x2c]);
    f.extend_from_slice(&h[12..]);
    assert_eq!(
        hello_router_id(&f),
        Some(u32::from_be_bytes([10, 99, 0, 3]))
    );
}

/// Anything that is not OSPF to AllSPFRouters is not evidence, and neither is a frame that
/// stops before the router id.
#[test]
fn a_non_ospf_or_short_frame_yields_no_router_id() {
    let mut wrong_proto = hello([10, 99, 0, 2], 5);
    wrong_proto[14 + 9] = 17;
    assert_eq!(hello_router_id(&wrong_proto), None);
    let mut wrong_dst = hello([10, 99, 0, 2], 5);
    wrong_dst[14 + 16..14 + 20].copy_from_slice(&[224, 0, 0, 6]);
    assert_eq!(hello_router_id(&wrong_dst), None);
    assert_eq!(
        hello_router_id(&rack_reply()),
        None,
        "an ARP reply is not a hello"
    );
    let h = hello([10, 99, 0, 2], 5);
    assert_eq!(hello_router_id(&h[..40]), None, "cut before the router id");
    assert_eq!(hello_router_id(&[]), None);
    let mut bad_ihl = hello([10, 99, 0, 2], 5);
    bad_ihl[14] = 0x43; // IHL 3: shorter than an IPv4 header can be
    assert_eq!(hello_router_id(&bad_ihl), None);
}

/// A type that is not Hello is still a live peer on that wire, and is read the same way.
#[test]
fn any_ospf_packet_type_is_evidence_of_the_peer() {
    let mut lsu = hello([10, 99, 0, 3], 5);
    lsu[14 + 20 + 1] = 4; // Link State Update
    assert_eq!(
        hello_router_id(&lsu),
        Some(u32::from_be_bytes([10, 99, 0, 3]))
    );
}

#[test]
fn the_synthetic_mac_is_locally_administered_and_unique_per_port() {
    let m = synthetic_mac(2, 249, 1);
    assert_eq!(m, [0x02, 0xcf, 0xab, 0x02, 0xf9, 0x01]);
    assert_eq!(m[0] & 0x03, 0x02, "locally administered, individual");
    assert_ne!(m, synthetic_mac(2, 249, 0), "port index separates");
    assert_ne!(m, synthetic_mac(3, 249, 1), "node separates");
    assert_ne!(m, synthetic_mac(2, 248, 1), "zone separates");
}
