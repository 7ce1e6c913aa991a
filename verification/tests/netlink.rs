//! What is asked of the kernel about a bond's ports, and what it answers.

use cfab::error::Error;
use cfab::netlink::readable::{is_readable, MAX_NESTING};
use cfab::netlink::{
    bond_link, drops_socket, get_link_request, is_no_device, is_refusal, next_seq, no_link,
    set_active_request, take_answer, Answer, BondLink, ByteOrder, Mii, PortState, ENODEV, NLM_F_REQUEST, NLM_F_REQUEST_ACK,
};
use netlink_packet_core::{ErrorMessage, NetlinkHeader, NetlinkMessage, NetlinkPayload};
use netlink_packet_route::link::{
    InfoBond, InfoBondPort, InfoData, InfoKind, InfoPortData, InfoPortKind, LinkAttribute,
    LinkFlags, LinkInfo, LinkMessage, MiiStatus,
};
use netlink_packet_route::RouteNetlinkMessage;

#[test]
fn mii_status_maps_to_the_domain_type_and_keeps_unknown_values() {
    assert_eq!(bond_link(Mii::Up), BondLink::Up);
    assert_eq!(bond_link(Mii::GoingBack), BondLink::GoingBack);
    assert_eq!(bond_link(Mii::GoingDown), BondLink::GoingDown);
    assert_eq!(bond_link(Mii::Down), BondLink::Down);
    assert_eq!(bond_link(Mii::Other(9)), BondLink::Unknown(9));
}

#[test]
fn only_enodev_reads_as_the_netdev_being_gone() {
    let io = |code| Error::Io {
        code: Some(code),
        message: String::new(),
    };
    assert!(is_no_device(&io(ENODEV)));
    assert!(!is_no_device(&io(22)));
    assert!(!is_no_device(&Error::fatal("no socket")));
    assert!(!is_no_device(&no_link("eth0")));
}

/// A request, read back.
fn asked(bytes: &[u8]) -> (NetlinkHeader, RouteNetlinkMessage) {
    let m = NetlinkMessage::<RouteNetlinkMessage>::deserialize(bytes).unwrap();
    match m.payload {
        NetlinkPayload::InnerMessage(r) => (m.header, r),
        other => panic!("{other:?}"),
    }
}

#[test]
fn the_active_port_write_is_a_newlink_carrying_the_bond_kind() {
    let (header, m) = asked(&set_active_request(7, 12, 5));
    assert_eq!((header.flags, header.sequence_number), (NLM_F_REQUEST_ACK, 5));
    let lm = match m {
        RouteNetlinkMessage::NewLink(lm) => lm,
        other => panic!("{other:?}"),
    };
    assert_eq!(lm.header.index, 7);
    assert_eq!(lm.attributes.len(), 1);
    match &lm.attributes[0] {
        LinkAttribute::LinkInfo(infos) => {
            assert_eq!(infos[0], LinkInfo::Kind(InfoKind::Bond));
            assert_eq!(
                infos[1],
                LinkInfo::Data(InfoData::Bond(vec![InfoBond::ActivePort(12)]))
            );
        }
        other => panic!("{other:?}"),
    }
}

#[test]
fn a_link_is_asked_for_by_its_name() {
    let (header, m) = asked(&get_link_request("cfab-mg-fb-a", 9));
    assert_eq!((header.flags, header.sequence_number), (NLM_F_REQUEST, 9));
    match m {
        RouteNetlinkMessage::GetLink(lm) => assert_eq!(
            lm.attributes,
            vec![LinkAttribute::IfName("cfab-mg-fb-a".to_string())]
        ),
        other => panic!("{other:?}"),
    }
}

/// The bytes of an answer.
fn answer(seq: u32, payload: NetlinkPayload<RouteNetlinkMessage>) -> Vec<u8> {
    let mut h = NetlinkHeader::default();
    h.sequence_number = seq;
    let mut m = NetlinkMessage::new(h, payload);
    m.finalize();
    let mut b = vec![0; m.buffer_len()];
    m.serialize(&mut b);
    b
}

fn link(seq: u32, index: u32, flags: LinkFlags, attributes: Vec<LinkAttribute>) -> Vec<u8> {
    let mut lm = LinkMessage::default();
    lm.header.index = index;
    lm.header.flags = flags;
    lm.attributes = attributes;
    answer(seq, NetlinkPayload::InnerMessage(RouteNetlinkMessage::NewLink(lm)))
}

fn port_attributes(status: MiiStatus) -> Vec<LinkAttribute> {
    vec![
        LinkAttribute::Controller(33),
        LinkAttribute::LinkInfo(vec![
            LinkInfo::PortKind(InfoPortKind::Bond),
            LinkInfo::PortData(InfoPortData::BondPort(vec![
                InfoBondPort::LinkFailureCount(2),
                InfoBondPort::MiiStatus(status),
            ])),
        ]),
    ]
}

#[test]
fn a_ports_state_is_read_from_its_link() {
    for (status, state) in [
        (MiiStatus::Up, BondLink::Up),
        (MiiStatus::GoingDown, BondLink::GoingDown),
        (MiiStatus::Down, BondLink::Down),
        (MiiStatus::GoingBack, BondLink::GoingBack),
        (MiiStatus::Other(9), BondLink::Unknown(9)),
    ] {
        assert_eq!(
            take_answer(4, &link(4, 12, LinkFlags::LowerUp, port_attributes(status))),
            Answer::Link {
                index: 12,
                state: PortState {
                    link: Some(state),
                    carrier: true,
                    master: Some(33),
                },
            }
        );
    }
}

#[test]
fn a_netdev_in_no_bond_has_no_link_state() {
    assert_eq!(
        take_answer(4, &link(4, 1, LinkFlags::empty(), vec![])),
        Answer::Link {
            index: 1,
            state: PortState {
                link: None,
                carrier: false,
                master: None,
            },
        }
    );
}

#[test]
fn a_leftover_answer_is_not_taken() {
    assert_eq!(take_answer(5, &link(4, 1, LinkFlags::LowerUp, vec![])), Answer::NotOurs);
    let ack = answer(4, NetlinkPayload::Error(ErrorMessage::default()));
    assert_eq!(take_answer(5, &ack), Answer::NotOurs);
    assert_eq!(take_answer(4, &ack), Answer::Done);
}

#[test]
fn a_refusal_carries_its_number() {
    let mut e = ErrorMessage::default();
    e.code = std::num::NonZeroI32::new(-ENODEV);
    let b = answer(4, NetlinkPayload::Error(e));
    assert_eq!(take_answer(4, &b), Answer::Refused { errno: 19 });
}

#[test]
fn only_the_kernels_own_refusal_keeps_the_socket() {
    let mut e = ErrorMessage::default();
    e.code = std::num::NonZeroI32::new(-22);
    let refused = take_answer(4, &answer(4, NetlinkPayload::Error(e)));
    assert!(is_refusal(&refused));
    assert!(!drops_socket(is_refusal(&refused)));
    let unreadable = take_answer(4, &[1, 2, 3]);
    assert!(!is_refusal(&unreadable));
    assert!(drops_socket(is_refusal(&unreadable)));
    assert!(!is_refusal(&Answer::Done));
    // No answer came in time: there is nothing that the kernel refused.
    assert!(drops_socket(false));
}

#[test]
fn what_is_no_answer_is_a_fault() {
    assert!(matches!(take_answer(4, &[1, 2, 3]), Answer::Fault { .. }));
    let done = RouteNetlinkMessage::DelLink(LinkMessage::default());
    let b = answer(4, NetlinkPayload::InnerMessage(done));
    assert_eq!(
        take_answer(4, &b),
        Answer::Fault {
            why: "unexpected netlink reply".to_string()
        }
    );
}

#[test]
fn two_requests_in_a_row_differ_in_their_number() {
    assert_eq!(next_seq(1), 2);
    assert_eq!(next_seq(u32::MAX), 1);
    assert_ne!(get_link_request("lo", 1), get_link_request("lo", next_seq(1)));
}

/// An attribute: its length, its kind and its value, filled up to a multiple of four bytes.
fn attr(kind: u16, value: &[u8]) -> Vec<u8> {
    let mut b = (4 + value.len() as u16).to_ne_bytes().to_vec();
    b.extend_from_slice(&kind.to_ne_bytes());
    b.extend_from_slice(value);
    while b.len() % 4 != 0 {
        b.push(0);
    }
    b
}

fn joined(parts: &[Vec<u8>]) -> Vec<u8> {
    parts.concat()
}

/// A whole message of this kind, whose sequence number is 4.
fn message(kind: u16, payload: &[u8]) -> Vec<u8> {
    let mut b = (16 + payload.len() as u32).to_ne_bytes().to_vec();
    b.extend_from_slice(&kind.to_ne_bytes());
    b.extend_from_slice(&0u16.to_ne_bytes());
    b.extend_from_slice(&4u32.to_ne_bytes());
    b.extend_from_slice(&0u32.to_ne_bytes());
    b.extend_from_slice(payload);
    b
}

/// A link of a kind, with the data of that kind.
fn link_of_kind(name: &[u8], data: &[u8]) -> Vec<u8> {
    let info = joined(&[attr(1, name), attr(2, data)]);
    joined(&[vec![0; 16], attr(18, &info)])
}

fn malformed() -> Answer {
    Answer::Fault {
        why: "malformed netlink reply".to_string(),
    }
}

/// The machine's own byte order.
fn own_order() -> ByteOrder {
    if 1u16.to_ne_bytes() == [1, 0] {
        ByteOrder::Little
    } else {
        ByteOrder::Big
    }
}

#[test]
fn a_source_port_of_two_bytes_is_read() {
    for name in [&b"bareudp\0"[..], &b"bareudp"[..]] {
        let m = message(16, &link_of_kind(name, &attr(3, &[1, 2])));
        assert!(is_readable(&m, own_order()));
        assert!(matches!(take_answer(4, &m), Answer::Link { index: 0, .. }));
    }
}

#[test]
fn a_source_port_of_another_length_is_no_answer() {
    for port in [&[][..], &[1][..], &[1, 2, 3][..], &[1, 2, 3, 4][..]] {
        for name in [&b"bareudp\0"[..], &b"bareudp"[..]] {
            // Behind another attribute, and in every kind of link message.
            let data = joined(&[attr(1, &[1, 2]), attr(3 | 0x8000, port)]);
            for kind in [16, 17, 18, 19] {
                let m = message(kind, &link_of_kind(name, &data));
                assert!(!is_readable(&m, own_order()));
                assert_eq!(take_answer(4, &m), malformed());
                assert_eq!(take_answer(5, &m), malformed());
            }
        }
    }
}

#[test]
fn a_source_port_of_another_kind_of_link_is_not_looked_at() {
    let data = attr(3, &[1]);
    for name in [&b"bareudp\0\0"[..], &b"bareud"[..], &b"dummy"[..]] {
        assert!(is_readable(&message(16, &link_of_kind(name, &data)), own_order()));
    }
    // The kind that counts is the last one before the data.
    let last = |a: &[u8], b: &[u8]| {
        let info = joined(&[attr(1, a), attr(1, b), attr(2, &data)]);
        message(16, &joined(&[vec![0; 16], attr(18, &info)]))
    };
    assert!(is_readable(&last(b"bareudp", b"dummy"), own_order()));
    assert!(!is_readable(&last(b"dummy", b"bareudp"), own_order()));
    // Nor one in a message that is not about links, nor one behind a broken attribute.
    let of_link = link_of_kind(b"bareudp", &data);
    assert!(is_readable(&message(20, &of_link), own_order()));
    let broken = joined(&[vec![0; 16], vec![0; 4], of_link[16..].to_vec()]);
    assert!(is_readable(&message(16, &broken), own_order()));
    assert!(matches!(take_answer(4, &message(16, &broken)), Answer::Fault { .. }));
}

#[test]
fn a_peer_is_looked_into() {
    let bad = link_of_kind(b"bareudp", &attr(3, &[1]));
    let good = link_of_kind(b"bareudp", &attr(3, &[1, 2]));
    for name in [&b"veth"[..], &b"vxcan\0"[..], &b"netkit"[..]] {
        assert_eq!(take_answer(4, &message(16, &link_of_kind(name, &attr(1, &bad)))), malformed());
        assert!(matches!(
            take_answer(4, &message(16, &link_of_kind(name, &attr(1, &good)))),
            Answer::Link { .. }
        ));
    }
    // A veth link has its peer in its first attribute alone, a netkit link in any.
    let second = joined(&[attr(2, &[0; 4]), attr(1, &bad)]);
    assert!(is_readable(&message(16, &link_of_kind(b"veth", &second)), own_order()));
    assert!(!is_readable(&message(16, &link_of_kind(b"netkit", &second)), own_order()));
}

#[test]
fn links_within_links_are_read_to_a_depth() {
    let nested = |levels: usize| {
        let mut l = vec![0; 16];
        for _ in 0..levels {
            l = link_of_kind(b"veth", &attr(1, &l));
        }
        message(16, &l)
    };
    let most = MAX_NESTING as usize;
    assert!(matches!(take_answer(4, &nested(most)), Answer::Link { index: 0, .. }));
    assert_eq!(take_answer(4, &nested(most + 1)), malformed());
    assert_eq!(take_answer(4, &nested(1000)), malformed());
}

#[test]
fn hops_within_hops_are_read_to_a_depth() {
    let nested = |levels: usize| {
        let mut attrs: Vec<u8> = Vec::new();
        for _ in 0..levels {
            let mut hop = (8 + attrs.len() as u16).to_ne_bytes().to_vec();
            hop.extend_from_slice(&[0; 6]);
            hop.extend_from_slice(&attrs);
            attrs = attr(9, &hop);
        }
        message(24, &joined(&[vec![0; 12], attrs]))
    };
    let most = MAX_NESTING as usize;
    assert_eq!(
        take_answer(4, &nested(most)),
        Answer::Fault {
            why: "unexpected netlink reply".to_string()
        }
    );
    assert_eq!(take_answer(4, &nested(most + 1)), malformed());
    assert_eq!(take_answer(4, &nested(5000)), malformed());
}

#[test]
fn the_last_attribute_of_a_kind_counts() {
    let mut attributes = port_attributes(MiiStatus::Up);
    attributes.extend(port_attributes(MiiStatus::Down));
    attributes.push(LinkAttribute::Controller(34));
    assert_eq!(
        take_answer(4, &link(4, 12, LinkFlags::empty(), attributes)),
        Answer::Link {
            index: 12,
            state: PortState {
                link: Some(BondLink::Down),
                carrier: false,
                master: Some(34),
            },
        }
    );
}
