//! The frames that the prober speaks and hears, byte for byte.
//!
//! The probe is an RFC 5227 probe, with the sender address 0.0.0.0: a request that carried an
//! address would teach switches and the router where that address is, on whichever wire was
//! asked last. The source MAC is synthetic and per port, so that a reply can land on one port
//! only.

use vstd::prelude::*;

use crate::ipv4::{lemma_quad_octets, octet, quad, Ipv4Addr};

verus! {

/// The bytes of a probe: 14 of Ethernet and 28 of ARP.
pub const PROBE_LEN: usize = 42;

/// The source address on one port: `02:cf:ab:<node>:<zone id>:<port index>`. The first byte says
/// locally administered and individual; the last three make it unique across the fabric.
pub fn synthetic_mac(node: u8, zone_id: u8, port_index: u8) -> (r: [u8; 6])
    ensures
        r@ == synthetic(node, zone_id, port_index),
{
    let r: [u8; 6] = [0x02, 0xcf, 0xab, node, zone_id, port_index];
    assert(r@ =~= synthetic(node, zone_id, port_index));
    r
}

pub open spec fn synthetic(node: u8, zone_id: u8, port_index: u8) -> Seq<u8> {
    seq![0x02u8, 0xcfu8, 0xabu8, node, zone_id, port_index]
}

/// Two ports share an address only if they are the same port of the same zone and member.
pub proof fn lemma_synthetic_unique(a: u8, b: u8, c: u8, x: u8, y: u8, z: u8)
    requires
        synthetic(a, b, c) == synthetic(x, y, z),
    ensures
        a == x && b == y && c == z,
{
    assert(synthetic(a, b, c)[3] == synthetic(x, y, z)[3]);
    assert(synthetic(a, b, c)[4] == synthetic(x, y, z)[4]);
    assert(synthetic(a, b, c)[5] == synthetic(x, y, z)[5]);
}

/// The ARP probe for `router` from `src`: broadcast, with neither a sender address nor a target
/// MAC.
pub open spec fn probe_bytes(src: Seq<u8>, router: u32) -> Seq<u8> {
    seq![
        255u8,
        255u8,
        255u8,
        255u8,
        255u8,
        255u8,
        src[0],
        src[1],
        src[2],
        src[3],
        src[4],
        src[5],
        8u8,
        6u8,
        0u8,
        1u8,
        8u8,
        0u8,
        6u8,
        4u8,
        0u8,
        1u8,
        src[0],
        src[1],
        src[2],
        src[3],
        src[4],
        src[5],
        0u8,
        0u8,
        0u8,
        0u8,
        0u8,
        0u8,
        0u8,
        0u8,
        0u8,
        0u8,
        octet(router, 0) as u8,
        octet(router, 1) as u8,
        octet(router, 2) as u8,
        octet(router, 3) as u8,
    ]
}

pub fn probe(src: [u8; 6], router: Ipv4Addr) -> (r: [u8; PROBE_LEN])
    ensures
        r@ == probe_bytes(src@, router.bits),
{
    let ip = router.octets();
    let r: [u8; PROBE_LEN] = [
        0xff,
        0xff,
        0xff,
        0xff,
        0xff,
        0xff,
        src[0],
        src[1],
        src[2],
        src[3],
        src[4],
        src[5],
        0x08,
        0x06,
        0,
        1,
        0x08,
        0,
        6,
        4,
        0,
        1,
        src[0],
        src[1],
        src[2],
        src[3],
        src[4],
        src[5],
        0,
        0,
        0,
        0,
        0,
        0,
        0,
        0,
        0,
        0,
        ip[0],
        ip[1],
        ip[2],
        ip[3],
    ];
    assert(r@ =~= probe_bytes(src@, router.bits));
    r
}

/// The big-endian number of the two bytes at `i`.
pub open spec fn be16(f: Seq<u8>, i: int) -> int {
    f[i] as int * 256 + f[i + 1] as int
}

pub open spec fn be32(f: Seq<u8>, i: int) -> int {
    quad(f[i] as int, f[i + 1] as int, f[i + 2] as int, f[i + 3] as int)
}

pub open spec fn is_tag(ethertype: int) -> bool {
    ethertype == 0x8100 || ethertype == 0x88a8
}

/// The type of the frame's payload, and where it starts. At most one VLAN tag is skipped.
pub open spec fn payload(f: Seq<u8>) -> Option<(int, int)> {
    if f.len() < 14 {
        None
    } else if is_tag(be16(f, 12)) {
        if f.len() < 18 {
            None
        } else {
            Some((be16(f, 16), 18))
        }
    } else {
        Some((be16(f, 12), 14))
    }
}

/// Is there an ARP reply for IPv4 over Ethernet at `a`?
pub open spec fn arp_reply_at(f: Seq<u8>, a: int) -> bool {
    &&& f.len() >= a + 28
    &&& be16(f, a) == 1
    &&& be16(f, a + 2) == 0x0800
    &&& f[a + 4] == 6
    &&& f[a + 5] == 4
    &&& be16(f, a + 6) == 2
}

pub open spec fn is_target(targets: Seq<Ipv4Addr>, bits: int) -> bool {
    exists|k: int| 0 <= k < targets.len() && (#[trigger] targets[k]).bits == bits
}

/// Is `f` a reply to the probe of the port with the address `src`: an ARP reply from one of
/// `targets` to that address?
pub open spec fn is_reply(f: Seq<u8>, src: Seq<u8>, targets: Seq<Ipv4Addr>) -> bool {
    payload(f) matches Some(p) && p.0 == 0x0806 && arp_reply_at(f, p.1) && is_target(
        targets,
        be32(f, p.1 + 14),
    ) && f.subrange(p.1 + 18, p.1 + 24) == src
}

/// The MAC that a reply comes from.
pub open spec fn reply_mac(f: Seq<u8>) -> Seq<u8> {
    f.subrange((payload(f)->0).1 + 8, (payload(f)->0).1 + 14)
}

fn read_be16(f: &[u8], i: usize) -> (r: u16)
    requires
        i + 2 <= f@.len(),
    ensures
        r as int == be16(f@, i as int),
{
    f[i] as u16 * 256 + f[i + 1] as u16
}

fn payload_of(f: &[u8]) -> (r: Option<(u16, usize)>)
    ensures
        match r {
            Some(p) => payload(f@) == Some((p.0 as int, p.1 as int)) && p.1 <= f@.len() && (p.1
                == 14 || p.1 == 18),
            None => payload(f@) is None,
        },
{
    if f.len() < 14 {
        return None;
    }
    let t: u16 = read_be16(f, 12);
    if t == 0x8100 || t == 0x88a8 {
        if f.len() < 18 {
            return None;
        }
        return Some((read_be16(f, 16), 18));
    }
    Some((t, 14))
}

fn has_target(targets: &[Ipv4Addr], a: Ipv4Addr) -> (r: bool)
    ensures
        r == is_target(targets@, a.bits as int),
{
    let mut i: usize = 0;
    while i < targets.len()
        invariant
            i <= targets@.len(),
            forall|k: int| 0 <= k < i ==> (#[trigger] targets@[k]).bits != a.bits,
        decreases targets@.len() - i,
    {
        if targets[i].bits == a.bits {
            return true;
        }
        i = i + 1;
    }
    false
}

/// The answering MAC, if `frame` is a reply to the probe of this port: an ARP reply whose sender
/// is one of `targets` and whose target MAC is the port's own address. Anything else is dropped
/// without comment.
pub fn reply_from(frame: &[u8], src: [u8; 6], targets: &[Ipv4Addr]) -> (r: Option<[u8; 6]>)
    ensures
        match r {
            Some(m) => is_reply(frame@, src@, targets@) && m@ == reply_mac(frame@),
            None => !is_reply(frame@, src@, targets@),
        },
{
    let (t, a) = match payload_of(frame) {
        Some(p) => p,
        None => {
            return None;
        },
    };
    if t != 0x0806 {
        return None;
    }
    if frame.len() < a + 28 {
        return None;
    }
    if read_be16(frame, a) != 1 || read_be16(frame, a + 2) != 0x0800 || frame[a + 4] != 6 || frame[a
        + 5] != 4 {
        return None;
    }
    if read_be16(frame, a + 6) != 2 {
        return None;
    }
    let sender = Ipv4Addr::new(frame[a + 14], frame[a + 15], frame[a + 16], frame[a + 17]);
    if !has_target(targets, sender) {
        return None;
    }
    let mut i: usize = 0;
    while i < 6
        invariant
            i <= 6,
            a + 28 <= frame@.len(),
            payload(frame@) == Some((t as int, a as int)),
            forall|k: int| 0 <= k < i ==> frame@[a + 18 + k] == #[trigger] src@[k],
        decreases 6 - i,
    {
        if frame[a + 18 + i] != src[i] {
            assert(frame@.subrange(a + 18, a + 24)[i as int] != src@[i as int]);
            return None;
        }
        i = i + 1;
    }
    assert(frame@.subrange(a + 18, a + 24) =~= src@);
    let m: [u8; 6] = [
        frame[a + 8],
        frame[a + 9],
        frame[a + 10],
        frame[a + 11],
        frame[a + 12],
        frame[a + 13],
    ];
    assert(m@ =~= reply_mac(frame@));
    Some(m)
}

/// The length of the IPv4 header at `ip`.
pub open spec fn header_len(f: Seq<u8>, ip: int) -> int {
    (f[ip] as int % 16) * 4
}

/// Is there an OSPF packet to AllSPFRouters at `ip`, with its Router ID?
pub open spec fn ospf_at(f: Seq<u8>, ip: int) -> bool {
    &&& f.len() > ip
    &&& header_len(f, ip) >= 20
    &&& f.len() >= ip + header_len(f, ip) + 8
    &&& f[ip + 9] == 89
    &&& be32(f, ip + 16) == quad(224, 0, 0, 5)
}

/// The Router ID of the member that sent `f`, if it is an OSPF packet to AllSPFRouters.
pub open spec fn router_id(f: Seq<u8>) -> Option<int> {
    match payload(f) {
        Some(p) => if p.0 == 0x0800 && ospf_at(f, p.1) {
            Some(be32(f, p.1 + header_len(f, p.1) + 4))
        } else {
            None
        },
        None => None,
    }
}

/// The Router ID of the member that sent `frame`, if it is an OSPF packet to AllSPFRouters. No
/// other field is read: a member that talks OSPF on a segment is a member that is there.
pub fn hello_router_id(frame: &[u8]) -> (r: Option<u32>)
    ensures
        match r {
            Some(n) => router_id(frame@) == Some(n as int),
            None => router_id(frame@) is None,
        },
{
    let (t, ip) = match payload_of(frame) {
        Some(p) => p,
        None => {
            return None;
        },
    };
    if t != 0x0800 || frame.len() <= ip {
        return None;
    }
    let ihl: usize = (frame[ip] % 16) as usize * 4;
    if ihl < 20 || frame.len() < ip + ihl + 8 {
        return None;
    }
    if frame[ip + 9] != 89 {
        return None;
    }
    let dst = Ipv4Addr::new(frame[ip + 16], frame[ip + 17], frame[ip + 18], frame[ip + 19]);
    if dst.bits != 0xe000_0005 {
        return None;
    }
    let k: usize = ip + ihl + 4;
    Some(Ipv4Addr::new(frame[k], frame[k + 1], frame[k + 2], frame[k + 3]).bits)
}

/// What the holder `mac` of the address `ip` answers to a probe from `dst`.
pub open spec fn reply_bytes(dst: Seq<u8>, mac: Seq<u8>, ip: u32) -> Seq<u8> {
    seq![
        dst[0],
        dst[1],
        dst[2],
        dst[3],
        dst[4],
        dst[5],
        mac[0],
        mac[1],
        mac[2],
        mac[3],
        mac[4],
        mac[5],
        8u8,
        6u8,
        0u8,
        1u8,
        8u8,
        0u8,
        6u8,
        4u8,
        0u8,
        2u8,
        mac[0],
        mac[1],
        mac[2],
        mac[3],
        mac[4],
        mac[5],
        octet(ip, 0) as u8,
        octet(ip, 1) as u8,
        octet(ip, 2) as u8,
        octet(ip, 3) as u8,
        dst[0],
        dst[1],
        dst[2],
        dst[3],
        dst[4],
        dst[5],
        0u8,
        0u8,
        0u8,
        0u8,
    ]
}

/// A probe is never taken for a reply, whoever hears it: our own broadcast floods back in through
/// the other wires.
pub proof fn lemma_probe_is_no_reply(
    src: Seq<u8>,
    router: u32,
    listener: Seq<u8>,
    targets: Seq<Ipv4Addr>,
)
    ensures
        !is_reply(probe_bytes(src, router), listener, targets),
{
    let f = probe_bytes(src, router);
    assert(be16(f, 12) == 0x0806);
    assert(be16(f, 20) == 1);
}

/// The answer to a probe is taken for a reply by the port that sent it, from whom it was asked,
/// and by no port with another address.
pub proof fn lemma_answer_is_reply(
    src: Seq<u8>,
    mac: Seq<u8>,
    ip: u32,
    listener: Seq<u8>,
    targets: Seq<Ipv4Addr>,
)
    requires
        src.len() == 6,
        mac.len() == 6,
        listener.len() == 6,
    ensures
        is_reply(reply_bytes(src, mac, ip), listener, targets) <==> listener == src && is_target(
            targets,
            ip as int,
        ),
        reply_mac(reply_bytes(src, mac, ip)) == mac,
{
    let f = reply_bytes(src, mac, ip);
    lemma_quad_octets(ip);
    assert(be16(f, 12) == 0x0806);
    assert(be16(f, 14) == 1);
    assert(be16(f, 16) == 0x0800);
    assert(be16(f, 20) == 2);
    assert(be32(f, 28) == ip);
    assert(f.subrange(32, 38) =~= src);
    assert(f.subrange(22, 28) =~= mac);
}

/// No frame is both a reply and a hello.
pub proof fn lemma_reply_is_no_hello(f: Seq<u8>, src: Seq<u8>, targets: Seq<Ipv4Addr>)
    requires
        is_reply(f, src, targets),
    ensures
        router_id(f) is None,
{
}

} // verus!
