//! Which bytes the parser of the netlink messages can be given. It panics on one attribute of a
//! link, and it calls itself for a link within a link and for a route's hops within a hop, so
//! that bytes decide how deep it goes: both are looked for before it is called.

use vstd::prelude::*;

use super::ByteOrder;

verus! {

/// How deep links within links, or hops within hops, are read. The kernel answers with neither.
pub const MAX_NESTING: u8 = 32;

// ---- the numbers and the attributes of a message ----

pub open spec fn num16(b: Seq<u8>, i: int, o: ByteOrder) -> int {
    match o {
        ByteOrder::Little => b[i] + 256 * b[i + 1],
        ByteOrder::Big => 256 * b[i] + b[i + 1],
    }
}

pub open spec fn num32(b: Seq<u8>, i: int, o: ByteOrder) -> int {
    match o {
        ByteOrder::Little => num16(b, i, o) + 65536 * num16(b, i + 2, o),
        ByteOrder::Big => 65536 * num16(b, i, o) + num16(b, i + 2, o),
    }
}

/// Is there a whole attribute at this place before the end?
pub open spec fn has_attr(b: Seq<u8>, at: int, end: int, o: ByteOrder) -> bool {
    at + 4 <= end && 4 <= num16(b, at, o) <= end - at
}

/// The kind of an attribute, without the two bits that say how it is written.
pub open spec fn attr_kind(b: Seq<u8>, at: int, o: ByteOrder) -> int {
    num16(b, at + 2, o) % 0x4000
}

/// The end of an attribute's value, which begins behind its header of four bytes.
pub open spec fn attr_end(b: Seq<u8>, at: int, o: ByteOrder) -> int {
    at + num16(b, at, o)
}

/// Where the attribute behind it would begin: at the next multiple of four bytes, or at the end.
pub open spec fn attr_next(b: Seq<u8>, at: int, end: int, o: ByteOrder) -> int {
    let next = at + (num16(b, at, o) + 3) / 4 * 4;
    if next <= end {
        next
    } else {
        end
    }
}

pub open spec fn room(at: int, end: int) -> nat {
    if at < end {
        (end - at) as nat
    } else {
        0
    }
}

// ---- links ----

/// A link's kind and data.
pub const IFLA_LINKINFO: u16 = 18;

pub const IFLA_INFO_KIND: u16 = 1;

pub const IFLA_INFO_DATA: u16 = 2;

/// The lowest source port of a bareudp link.
pub const IFLA_BAREUDP_SRCPORT_MIN: u16 = 3;

/// The other end of a veth, vxcan or netkit link.
pub const PEER: u16 = 1;

/// What the data of a link's kind holds, as far as it matters here.
#[derive(Debug, Clone, Copy, PartialEq, Eq, Structural)]
pub enum Holds {
    /// Ports, among them a source port.
    Ports,
    /// One attribute, which can be a peer.
    Peer,
    /// Attributes, each of which can be a peer.
    Peers,
    /// Nothing that matters.
    Nothing,
}

/// A name's bytes: the value without a zero behind it.
pub open spec fn name_end(b: Seq<u8>, lo: int, end: int) -> int {
    if lo < end && b[end - 1] == 0 {
        end - 1
    } else {
        end
    }
}

pub open spec fn bareudp() -> Seq<u8> {
    seq![98u8, 97u8, 114u8, 101u8, 117u8, 100u8, 112u8]
}

pub open spec fn veth() -> Seq<u8> {
    seq![118u8, 101u8, 116u8, 104u8]
}

pub open spec fn vxcan() -> Seq<u8> {
    seq![118u8, 120u8, 99u8, 97u8, 110u8]
}

pub open spec fn netkit() -> Seq<u8> {
    seq![110u8, 101u8, 116u8, 107u8, 105u8, 116u8]
}

/// What the data of the link kind of this name holds.
pub open spec fn holds_of(name: Seq<u8>) -> Holds {
    if name == bareudp() {
        Holds::Ports
    } else if name == veth() || name == vxcan() {
        Holds::Peer
    } else if name == netkit() {
        Holds::Peers
    } else {
        Holds::Nothing
    }
}

/// Is every source port of two bytes? The parser copies its value into two bytes without a look
/// at its length.
pub open spec fn ports_fit(b: Seq<u8>, at: int, end: int, o: ByteOrder) -> bool
    decreases room(at, end),
{
    has_attr(b, at, end, o) ==> {
        &&& attr_kind(b, at, o) == IFLA_BAREUDP_SRCPORT_MIN ==> num16(b, at, o) == 4 + 2
        &&& ports_fit(b, attr_next(b, at, end, o), end, o)
    }
}

/// Is an attribute no peer, or one that fits?
pub open spec fn peer_fits(b: Seq<u8>, at: int, o: ByteOrder, depth: nat) -> bool
    decreases depth, 0nat, 0nat,
{
    attr_kind(b, at, o) == PEER ==> depth > 0 && link_fits(
        b,
        at + 4,
        attr_end(b, at, o),
        o,
        (depth - 1) as nat,
    )
}

pub open spec fn peers_fit(b: Seq<u8>, at: int, end: int, o: ByteOrder, depth: nat) -> bool
    decreases depth, room(at, end), 1nat,
{
    has_attr(b, at, end, o) ==> {
        &&& peer_fits(b, at, o, depth)
        &&& peers_fit(b, attr_next(b, at, end, o), end, o, depth)
    }
}

pub open spec fn data_fits(
    b: Seq<u8>,
    at: int,
    end: int,
    o: ByteOrder,
    holds: Holds,
    depth: nat,
) -> bool
    decreases depth, room(at, end), 2nat,
{
    match holds {
        Holds::Ports => ports_fit(b, at, end, o),
        Holds::Peer => has_attr(b, at, end, o) ==> peer_fits(b, at, o, depth),
        Holds::Peers => peers_fit(b, at, end, o, depth),
        Holds::Nothing => true,
    }
}

/// Do the pieces of a link's information fit? A piece of data is that of the last kind before it.
pub open spec fn info_fits(
    b: Seq<u8>,
    at: int,
    end: int,
    o: ByteOrder,
    holds: Holds,
    depth: nat,
) -> bool
    decreases depth, room(at, end), 3nat,
{
    has_attr(b, at, end, o) ==> {
        let stop = attr_end(b, at, o);
        let next = attr_next(b, at, end, o);
        if attr_kind(b, at, o) == IFLA_INFO_KIND {
            info_fits(
                b,
                next,
                end,
                o,
                holds_of(b.subrange(at + 4, name_end(b, at + 4, stop))),
                depth,
            )
        } else {
            &&& attr_kind(b, at, o) == IFLA_INFO_DATA ==> data_fits(b, at + 4, stop, o, holds, depth)
            &&& info_fits(b, next, end, o, holds, depth)
        }
    }
}

pub open spec fn attrs_fit(b: Seq<u8>, at: int, end: int, o: ByteOrder, depth: nat) -> bool
    decreases depth, room(at, end), 4nat,
{
    has_attr(b, at, end, o) ==> {
        &&& attr_kind(b, at, o) == IFLA_LINKINFO ==> info_fits(
            b,
            at + 4,
            attr_end(b, at, o),
            o,
            Holds::Nothing,
            depth,
        )
        &&& attrs_fit(b, attr_next(b, at, end, o), end, o, depth)
    }
}

/// Does a link fit? Its attributes stand behind a header of sixteen bytes.
pub open spec fn link_fits(b: Seq<u8>, at: int, end: int, o: ByteOrder, depth: nat) -> bool
    decreases depth, room(at, end), 5nat,
{
    at + 16 <= end ==> attrs_fit(b, at + 16, end, o, depth)
}

// ---- routes ----

/// The hops of a route.
pub const RTA_MULTIPATH: u16 = 9;

/// Is there a whole hop at this place before the end?
pub open spec fn has_hop(b: Seq<u8>, at: int, end: int, o: ByteOrder) -> bool {
    at + 8 <= end && 8 <= num16(b, at, o) <= end - at
}

/// Do the hops fit? A hop's attributes stand behind a header of eight bytes.
pub open spec fn hops_fit(b: Seq<u8>, at: int, end: int, o: ByteOrder, depth: nat) -> bool
    decreases depth, room(at, end), 0nat,
{
    has_hop(b, at, end, o) ==> {
        &&& depth > 0
        &&& route_attrs_fit(b, at + 8, attr_end(b, at, o), o, (depth - 1) as nat)
        &&& hops_fit(b, attr_end(b, at, o), end, o, depth)
    }
}

pub open spec fn route_attrs_fit(b: Seq<u8>, at: int, end: int, o: ByteOrder, depth: nat) -> bool
    decreases depth, room(at, end), 1nat,
{
    has_attr(b, at, end, o) ==> {
        &&& attr_kind(b, at, o) == RTA_MULTIPATH ==> hops_fit(
            b,
            at + 4,
            attr_end(b, at, o),
            o,
            depth,
        )
        &&& route_attrs_fit(b, attr_next(b, at, end, o), end, o, depth)
    }
}

/// Does a route fit? Its attributes stand behind a header of twelve bytes.
pub open spec fn route_fits(b: Seq<u8>, at: int, end: int, o: ByteOrder) -> bool {
    at + 12 <= end ==> route_attrs_fit(b, at + 12, end, o, MAX_NESTING as nat)
}

// ---- a message ----

/// The messages of a link are of four kinds, from this one on.
pub const RTM_NEWLINK: u16 = 16;

/// The messages of a route are of three kinds, from this one on.
pub const RTM_NEWROUTE: u16 = 24;

/// Can the parser be given these bytes, on a machine of this byte order? A message that is not
/// whole is not looked into.
pub open spec fn readable(b: Seq<u8>, o: ByteOrder) -> bool {
    b.len() >= 16 && 16 <= num32(b, 0, o) <= b.len() ==> {
        let kind = num16(b, 4, o);
        let end = num32(b, 0, o);
        &&& RTM_NEWLINK <= kind < RTM_NEWLINK + 4 ==> link_fits(b, 16, end, o, MAX_NESTING as nat)
        &&& RTM_NEWROUTE <= kind < RTM_NEWROUTE + 3 ==> route_fits(b, 16, end, o)
    }
}

// ---- the walk ----

fn read16(b: &[u8], i: usize, o: ByteOrder) -> (r: usize)
    requires
        i + 2 <= b@.len(),
    ensures
        r == num16(b@, i as int, o),
        r < 65536,
{
    match o {
        ByteOrder::Little => b[i] as usize + 256 * b[i + 1] as usize,
        ByteOrder::Big => 256 * b[i] as usize + b[i + 1] as usize,
    }
}

/// The length in the header of a message, which is its first number.
fn read_len(b: &[u8], o: ByteOrder) -> (r: u64)
    requires
        4 <= b@.len(),
    ensures
        r == num32(b@, 0, o),
{
    let first = read16(b, 0, o) as u64;
    let second = read16(b, 2, o) as u64;
    match o {
        ByteOrder::Little => first + 65536 * second,
        ByteOrder::Big => 65536 * first + second,
    }
}

/// One attribute: its kind, the end of its value, and where the one behind it begins.
struct Found {
    kind: u16,
    stop: usize,
    next: usize,
}

spec fn is_found(f: Found, b: Seq<u8>, at: int, end: int, o: ByteOrder) -> bool {
    &&& f.kind == attr_kind(b, at, o)
    &&& f.stop == attr_end(b, at, o)
    &&& at + 4 <= f.stop <= end
    &&& at < f.next <= end
    &&& f.next == attr_next(b, at, end, o)
}

fn attr_at(b: &[u8], at: usize, end: usize, o: ByteOrder) -> (r: Option<Found>)
    requires
        at <= end <= b@.len(),
    ensures
        match r {
            Some(f) => has_attr(b@, at as int, end as int, o) && is_found(
                f,
                b@,
                at as int,
                end as int,
                o,
            ),
            None => !has_attr(b@, at as int, end as int, o),
        },
{
    if end - at < 4 {
        return None;
    }
    let len = read16(b, at, o);
    if len < 4 || len > end - at {
        return None;
    }
    let padded = (len + 3) / 4 * 4;
    let kind = (read16(b, at + 2, o) % 0x4000) as u16;
    let next = if padded <= end - at {
        at + padded
    } else {
        end
    };
    Some(Found { kind, stop: at + len, next })
}

fn is_name(b: &[u8], lo: usize, end: usize, name: &[u8]) -> (r: bool)
    requires
        lo <= end <= b@.len(),
    ensures
        r == (b@.subrange(lo as int, end as int) == name@),
{
    let ghost s = b@.subrange(lo as int, end as int);
    if end - lo != name.len() {
        assert(s.len() != name@.len());
        return false;
    }
    let mut i: usize = 0;
    while i < name.len()
        invariant
            i <= name@.len(),
            name@.len() == end - lo,
            lo <= end <= b@.len(),
            s == b@.subrange(lo as int, end as int),
            forall|j: int| 0 <= j < i ==> s[j] == name@[j],
        decreases name@.len() - i,
    {
        assert(s[i as int] == b@[lo + i]);
        if b[lo + i] != name[i] {
            return false;
        }
        i = i + 1;
    }
    assert(s =~= name@);
    true
}

fn holds_at(b: &[u8], lo: usize, stop: usize) -> (r: Holds)
    requires
        lo <= stop <= b@.len(),
    ensures
        r == holds_of(b@.subrange(lo as int, name_end(b@, lo as int, stop as int))),
{
    let end = if lo < stop && b[stop - 1] == 0 {
        stop - 1
    } else {
        stop
    };
    let a: [u8; 7] = [98, 97, 114, 101, 117, 100, 112];
    let v: [u8; 4] = [118, 101, 116, 104];
    let x: [u8; 5] = [118, 120, 99, 97, 110];
    let n: [u8; 6] = [110, 101, 116, 107, 105, 116];
    assert(a@ =~= bareudp());
    assert(v@ =~= veth());
    assert(x@ =~= vxcan());
    assert(n@ =~= netkit());
    if is_name(b, lo, end, &a) {
        Holds::Ports
    } else if is_name(b, lo, end, &v) || is_name(b, lo, end, &x) {
        Holds::Peer
    } else if is_name(b, lo, end, &n) {
        Holds::Peers
    } else {
        Holds::Nothing
    }
}

fn check_ports(b: &[u8], start: usize, end: usize, o: ByteOrder) -> (r: bool)
    requires
        start <= end <= b@.len(),
    ensures
        r == ports_fit(b@, start as int, end as int, o),
{
    let mut at = start;
    loop
        invariant
            at <= end <= b@.len(),
            ports_fit(b@, start as int, end as int, o) == ports_fit(b@, at as int, end as int, o),
        decreases end - at,
    {
        match attr_at(b, at, end, o) {
            None => {
                return true;
            },
            Some(f) => {
                if f.kind == IFLA_BAREUDP_SRCPORT_MIN && f.stop - at != 6 {
                    return false;
                }
                at = f.next;
            },
        }
    }
}

fn check_peer(b: &[u8], at: usize, f: &Found, end: usize, o: ByteOrder, depth: u8) -> (r: bool)
    requires
        at <= end <= b@.len(),
        is_found(*f, b@, at as int, end as int, o),
    ensures
        r == peer_fits(b@, at as int, o, depth as nat),
    decreases depth, 0nat, 0nat,
{
    f.kind != PEER || (depth > 0 && check_link(b, at + 4, f.stop, o, depth - 1))
}

fn check_peers(b: &[u8], start: usize, end: usize, o: ByteOrder, depth: u8) -> (r: bool)
    requires
        start <= end <= b@.len(),
    ensures
        r == peers_fit(b@, start as int, end as int, o, depth as nat),
    decreases depth, room(start as int, end as int), 1nat,
{
    let mut at = start;
    loop
        invariant
            start <= at <= end <= b@.len(),
            peers_fit(b@, start as int, end as int, o, depth as nat) == peers_fit(
                b@,
                at as int,
                end as int,
                o,
                depth as nat,
            ),
        decreases end - at,
    {
        match attr_at(b, at, end, o) {
            None => {
                return true;
            },
            Some(f) => {
                if !check_peer(b, at, &f, end, o, depth) {
                    return false;
                }
                at = f.next;
            },
        }
    }
}

fn check_data(b: &[u8], at: usize, end: usize, o: ByteOrder, holds: Holds, depth: u8) -> (r: bool)
    requires
        at <= end <= b@.len(),
    ensures
        r == data_fits(b@, at as int, end as int, o, holds, depth as nat),
    decreases depth, room(at as int, end as int), 2nat,
{
    match holds {
        Holds::Ports => check_ports(b, at, end, o),
        Holds::Peer => match attr_at(b, at, end, o) {
            None => true,
            Some(f) => check_peer(b, at, &f, end, o, depth),
        },
        Holds::Peers => check_peers(b, at, end, o, depth),
        Holds::Nothing => true,
    }
}

fn check_info(b: &[u8], start: usize, end: usize, o: ByteOrder, depth: u8) -> (r: bool)
    requires
        start <= end <= b@.len(),
    ensures
        r == info_fits(b@, start as int, end as int, o, Holds::Nothing, depth as nat),
    decreases depth, room(start as int, end as int), 3nat,
{
    let mut at = start;
    let mut holds = Holds::Nothing;
    loop
        invariant
            start <= at <= end <= b@.len(),
            info_fits(b@, start as int, end as int, o, Holds::Nothing, depth as nat) == info_fits(
                b@,
                at as int,
                end as int,
                o,
                holds,
                depth as nat,
            ),
        decreases end - at,
    {
        match attr_at(b, at, end, o) {
            None => {
                return true;
            },
            Some(f) => {
                if f.kind == IFLA_INFO_KIND {
                    holds = holds_at(b, at + 4, f.stop);
                } else if f.kind == IFLA_INFO_DATA {
                    if !check_data(b, at + 4, f.stop, o, holds, depth) {
                        return false;
                    }
                }
                at = f.next;
            },
        }
    }
}

fn check_attrs(b: &[u8], start: usize, end: usize, o: ByteOrder, depth: u8) -> (r: bool)
    requires
        start <= end <= b@.len(),
    ensures
        r == attrs_fit(b@, start as int, end as int, o, depth as nat),
    decreases depth, room(start as int, end as int), 4nat,
{
    let mut at = start;
    loop
        invariant
            start <= at <= end <= b@.len(),
            attrs_fit(b@, start as int, end as int, o, depth as nat) == attrs_fit(
                b@,
                at as int,
                end as int,
                o,
                depth as nat,
            ),
        decreases end - at,
    {
        match attr_at(b, at, end, o) {
            None => {
                return true;
            },
            Some(f) => {
                if f.kind == IFLA_LINKINFO && !check_info(b, at + 4, f.stop, o, depth) {
                    return false;
                }
                at = f.next;
            },
        }
    }
}

fn check_link(b: &[u8], at: usize, end: usize, o: ByteOrder, depth: u8) -> (r: bool)
    requires
        at <= end <= b@.len(),
    ensures
        r == link_fits(b@, at as int, end as int, o, depth as nat),
    decreases depth, room(at as int, end as int), 5nat,
{
    end - at < 16 || check_attrs(b, at + 16, end, o, depth)
}

fn check_hops(b: &[u8], start: usize, end: usize, o: ByteOrder, depth: u8) -> (r: bool)
    requires
        start <= end <= b@.len(),
    ensures
        r == hops_fit(b@, start as int, end as int, o, depth as nat),
    decreases depth, room(start as int, end as int), 0nat,
{
    let mut at = start;
    while end - at >= 8
        invariant
            start <= at <= end <= b@.len(),
            hops_fit(b@, start as int, end as int, o, depth as nat) == hops_fit(
                b@,
                at as int,
                end as int,
                o,
                depth as nat,
            ),
        decreases end - at,
    {
        let len = read16(b, at, o);
        if len < 8 || len > end - at {
            return true;
        }
        if depth == 0 || !check_route_attrs(b, at + 8, at + len, o, depth - 1) {
            return false;
        }
        at = at + len;
    }
    true
}

fn check_route_attrs(b: &[u8], start: usize, end: usize, o: ByteOrder, depth: u8) -> (r: bool)
    requires
        start <= end <= b@.len(),
    ensures
        r == route_attrs_fit(b@, start as int, end as int, o, depth as nat),
    decreases depth, room(start as int, end as int), 1nat,
{
    let mut at = start;
    loop
        invariant
            start <= at <= end <= b@.len(),
            route_attrs_fit(b@, start as int, end as int, o, depth as nat) == route_attrs_fit(
                b@,
                at as int,
                end as int,
                o,
                depth as nat,
            ),
        decreases end - at,
    {
        match attr_at(b, at, end, o) {
            None => {
                return true;
            },
            Some(f) => {
                if f.kind == RTA_MULTIPATH && !check_hops(b, at + 4, f.stop, o, depth) {
                    return false;
                }
                at = f.next;
            },
        }
    }
}

/// Can the parser be given these bytes, on a machine of this byte order?
pub fn is_readable(b: &[u8], o: ByteOrder) -> (r: bool)
    ensures
        r == readable(b@, o),
{
    if b.len() < 16 {
        return true;
    }
    let len = read_len(b, o);
    if len < 16 || len > b.len() as u64 {
        return true;
    }
    let end = len as usize;
    let kind = read16(b, 4, o) as u16;
    if kind >= RTM_NEWLINK && kind < RTM_NEWLINK + 4 {
        check_link(b, 16, end, o, MAX_NESTING)
    } else if kind >= RTM_NEWROUTE && kind < RTM_NEWROUTE + 3 {
        end < 28 || check_route_attrs(b, 28, end, o, MAX_NESTING)
    } else {
        true
    }
}

} // verus!
