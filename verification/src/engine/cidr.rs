//! Networks as they are spelled on the wire of the engine socket and in its rules, read by the
//! `ipnetwork` crate.

use vstd::prelude::*;

use crate::ipv4::{parse_dotted, Ipv4Addr};
use crate::model::prefix::{span, Ipv4Prefix};
use crate::text::{parse_uint, split_once};

verus! {

/// The length that a netmask stands for, where its set bits are its leading ones.
pub open spec fn mask_len(mask: u32) -> Option<int> {
    if exists|p: int| 0 <= p <= 32 && mask == 0x1_0000_0000 - #[trigger] span(p) {
        Some(choose|p: int| 0 <= p <= 32 && mask == 0x1_0000_0000 - #[trigger] span(p))
    } else {
        None
    }
}

/// The length behind a slash: a dotted netmask, or a number of bits.
pub open spec fn length_of(s: Seq<char>) -> Option<int> {
    match parse_dotted(s) {
        Some(mask) => mask_len(mask),
        None => match parse_uint(s, 255) {
            Some(n) => if n <= 32 {
                Some(n as int)
            } else {
                None
            },
            None => None,
        },
    }
}

/// The IPv4 network that a text spells: an address, which alone stands for itself, or an address,
/// one slash and a length. Host bits are kept.
pub open spec fn cidr_of(s: Seq<char>) -> Option<Ipv4Prefix> {
    let (addr, len) = match split_once(s, '/') {
        Some(p) => (parse_dotted(p.0), if p.1.contains('/') {
            None
        } else {
            length_of(p.1)
        }),
        None => (parse_dotted(s), Some(32int)),
    };
    match (addr, len) {
        (Some(bits), Some(n)) => Some(Ipv4Prefix { net: Ipv4Addr { bits }, len: n as u8 }),
        _ => None,
    }
}

/// `<ipnetwork::Ipv4Network as FromStr>::from_str`: the network that the text spells, with its
/// host bits, or nothing where it spells none. The text is an address in dotted form, alone or
/// with one slash behind it and then a length of at most 32 or a dotted netmask whose set bits
/// are its leading ones.
#[verifier::external_body]
pub(crate) fn read_cidr(s: &str) -> (r: Option<Ipv4Prefix>)
    ensures
        r == cidr_of(s@),
        r matches Some(p) ==> p.len <= 32,
{
    let net = s.parse::<ipnetwork::Ipv4Network>().ok()?;
    Some(Ipv4Prefix { net: Ipv4Addr { bits: u32::from(net.ip()) }, len: net.prefix() })
}

/// A network of either family, with its host bits.
#[derive(Debug, Clone, Copy, PartialEq, Eq, Structural)]
pub enum IpNet {
    V4(Ipv4Prefix),
    V6 { bits: u128, len: u8 },
}

/// The address and the length of the IPv6 network that a text spells.
pub uninterp spec fn cidr6_of(s: Seq<char>) -> Option<(u128, u8)>;

/// The network that a text spells, of the first family in which it spells one.
pub open spec fn network_of(s: Seq<char>) -> Option<IpNet> {
    match cidr_of(s) {
        Some(p) => Some(IpNet::V4(p)),
        None => match cidr6_of(s) {
            Some(q) => Some(IpNet::V6 { bits: q.0, len: q.1 }),
            None => None,
        },
    }
}

/// `<ipnetwork::IpNetwork as FromStr>::from_str`: the IPv4 network that the text spells, else the
/// IPv6 network that it spells, else nothing. Which texts spell an IPv6 network is a function of
/// the text, and no more is said of it.
#[verifier::external_body]
pub(crate) fn read_network(s: &str) -> (r: Option<IpNet>)
    ensures
        r == match cidr_of(s@) {
            Some(p) => Some(IpNet::V4(p)),
            None => match cidr6_of(s@) {
                Some(q) => Some(IpNet::V6 { bits: q.0, len: q.1 }),
                None => None,
            },
        },
{
    match s.parse::<ipnetwork::IpNetwork>().ok()? {
        ipnetwork::IpNetwork::V4(n) => Some(
            IpNet::V4(Ipv4Prefix { net: Ipv4Addr { bits: u32::from(n.ip()) }, len: n.prefix() }),
        ),
        ipnetwork::IpNetwork::V6(n) => Some(
            IpNet::V6 { bits: u128::from(n.ip()), len: n.prefix() },
        ),
    }
}

} // verus!
