//! The typed fabric: what a declaration is turned into, and the rules it has to meet.

pub mod prefix;
pub mod laws;
pub mod lookup;
pub mod naming;
pub mod resolve;
pub mod sound;
pub mod telling;
pub mod validate;

use vstd::prelude::*;

use crate::error::Error;
use crate::ipv4::{dotted, Ipv4Addr};
pub use crate::model::lookup::wires_by_member;
pub use crate::model::prefix::Ipv4Prefix;
use crate::text::{
    byte_len, bytes_in, cat2, cat3, cat4, chars_of, dec, dec_u64, fit, fitted,
    lemma_byte_len_concat, lemma_fit, parse_u64, parse_uint, rsplit_once, split_at_last, str_eq,
    texts,
};

verus! {

/// What the items of a list stand for.
pub open spec fn views<T: View>(v: Seq<T>) -> Seq<T::V> {
    Seq::new(v.len(), |i: int| v[i]@)
}

pub broadcast proof fn lemma_views_push<T: View>(v: Seq<T>, x: T)
    ensures
        #[trigger] views(v.push(x)) == views(v).push(x@),
{
    assert(views(v.push(x)) =~= views(v).push(x@));
}

// ---- switch domains ----

/// A physical switch domain: an opaque declared token of one letter, so that the bond-port
/// suffix `-<domain>` fits inside a netdev name.
#[derive(Debug, PartialEq, Eq, PartialOrd, Ord, Hash)]
pub struct DomainId(String);

impl View for DomainId {
    type V = Seq<char>;

    closed spec fn view(&self) -> Seq<char> {
        self.0@
    }
}

/// The widest a domain token may be.
pub const MAX_DOMAIN_TOKEN: usize = 1;

pub open spec fn is_letter(c: char) -> bool {
    'a' <= c <= 'z' || 'A' <= c <= 'Z'
}

/// One ASCII letter.
pub open spec fn is_domain_token(s: Seq<char>) -> bool {
    s.len() == MAX_DOMAIN_TOKEN && forall|i: int| 0 <= i < s.len() ==> is_letter(#[trigger] s[i])
}

pub open spec fn domain_refusal(s: Seq<char>) -> Seq<char> {
    "domain '"@ + s + "' is not a switch-domain token (one ASCII letter, e.g. a)"@
}

/// Why `s` is no domain token, if it is none.
pub open spec fn parse_domain_refusal(s: Seq<char>) -> Option<Seq<char>> {
    if is_domain_token(s) {
        None
    } else {
        Some(domain_refusal(s))
    }
}

impl DomainId {
    pub fn parse(s: &str) -> (r: Result<DomainId, Error>)
        ensures
            crate::error::refuses(r, parse_domain_refusal(s@)),
            r matches Ok(d) ==> d@ == s@,
    {
        let v = chars_of(s);
        if v.len() == MAX_DOMAIN_TOKEN {
            let c = v[0];
            if (c >= 'a' && c <= 'z') || (c >= 'A' && c <= 'Z') {
                return Ok(DomainId(s.to_owned()));
            }
            assert(!is_letter(s@[0]));
        }
        Err(
            Error::Config(
                cat3("domain '", s, "' is not a switch-domain token (one ASCII letter, e.g. a)"),
            ),
        )
    }

    pub fn as_str(&self) -> (r: &str)
        ensures
            r@ == self@,
    {
        self.0.as_str()
    }

    /// Is this the same domain?
    pub fn same(&self, other: &DomainId) -> (r: bool)
        ensures
            r == (self@ == other@),
    {
        str_eq(self.as_str(), other.as_str())
    }
}

impl Clone for DomainId {
    fn clone(&self) -> (r: DomainId)
        ensures
            r@ == self@,
    {
        DomainId(self.0.clone())
    }
}

/// Where a segment or an ingress leg lives: on one switch domain, or on every wire the member
/// has. `Universal` is a scope, not a domain.
#[derive(Debug, PartialEq, Eq)]
pub enum SegScope {
    Domain(DomainId),
    /// Every wire this member has.
    Universal,
}

impl View for SegScope {
    type V = Option<Seq<char>>;

    open spec fn view(&self) -> Option<Seq<char>> {
        match self {
            SegScope::Domain(d) => Some(d@),
            SegScope::Universal => None,
        }
    }
}

/// The word a scope is declared with.
pub open spec fn scope_text(s: Option<Seq<char>>) -> Seq<char> {
    match s {
        Some(d) => d,
        None => "any"@,
    }
}

/// The scope that `s` declares, where it declares one.
pub open spec fn parse_scope(s: Seq<char>) -> Option<Seq<char>> {
    if s == "any"@ {
        None
    } else {
        Some(s)
    }
}

pub open spec fn parse_scope_refusal(s: Seq<char>) -> Option<Seq<char>> {
    if s == "any"@ {
        None
    } else {
        parse_domain_refusal(s)
    }
}

impl SegScope {
    pub fn parse(s: &str) -> (r: Result<SegScope, Error>)
        ensures
            crate::error::refuses(r, parse_scope_refusal(s@)),
            r matches Ok(x) ==> x@ == parse_scope(s@),
    {
        if str_eq(s, "any") {
            return Ok(SegScope::Universal);
        }
        match DomainId::parse(s) {
            Ok(d) => Ok(SegScope::Domain(d)),
            Err(e) => Err(e),
        }
    }

    pub fn domain(&self) -> (r: Option<&DomainId>)
        ensures
            match r {
                Some(d) => self@ == Some(d@),
                None => self@ is None,
            },
    {
        match self {
            SegScope::Domain(d) => Some(d),
            SegScope::Universal => None,
        }
    }

    pub fn is_universal(&self) -> (r: bool)
        ensures
            r == (self@ is None),
    {
        match self {
            SegScope::Domain(_) => false,
            SegScope::Universal => true,
        }
    }

    /// The word this scope is declared with.
    pub fn to_string(&self) -> (r: String)
        ensures
            r@ == scope_text(self@),
    {
        match self {
            SegScope::Domain(d) => d.as_str().to_owned(),
            SegScope::Universal => "any".to_owned(),
        }
    }

    /// Is this the scope of the one domain `d`?
    pub fn is_domain(&self, d: &DomainId) -> (r: bool)
        ensures
            r == (self@ == Some(d@)),
    {
        match self {
            SegScope::Domain(x) => x.same(d),
            SegScope::Universal => false,
        }
    }
}

// ---- members ----

/// A host transits between zones, shapes, and carries every domain it has wires on. A leaf has
/// its own identity, never transits, and its externally managed addresses are never touched.
#[derive(Debug, Clone, Copy, PartialEq, Eq, Structural)]
pub enum MemberKind {
    Host,
    Leaf,
}

/// A member's physical NIC, the switch domain it is plugged into, and its declared link speed
/// in Mb/s.
#[derive(Debug, PartialEq, Eq)]
pub struct Wire {
    pub name: String,
    pub domain: DomainId,
    pub speed_mbps: u32,
}

pub struct WireV {
    pub name: Seq<char>,
    pub domain: Seq<char>,
    pub speed_mbps: u32,
}

impl View for Wire {
    type V = WireV;

    open spec fn view(&self) -> WireV {
        WireV { name: self.name@, domain: self.domain@, speed_mbps: self.speed_mbps }
    }
}

/// The widest a name of a bond leg may be: its ports are named `<ifname>-<domain>`, which has to
/// fit the 15 bytes of a netdev name.
pub const MAX_BOND_IFNAME: usize = 15 - 1 - MAX_DOMAIN_TOKEN;

/// Does this bond-leg name leave no room for the suffix that its ports need?
pub open spec fn bond_ifname_long(ifname: Seq<char>) -> bool {
    byte_len(ifname) > MAX_BOND_IFNAME
}

pub fn bond_ifname_too_long(ifname: &str) -> (r: bool)
    ensures
        r == bond_ifname_long(ifname@),
{
    bytes_in(ifname) > MAX_BOND_IFNAME
}

/// A bond-leg name that is not too long leaves room for every port name.
pub proof fn lemma_port_name_fits(ifname: Seq<char>, domain: Seq<char>)
    requires
        !bond_ifname_long(ifname),
        is_domain_token(domain),
    ensures
        byte_len(ifname + "-"@ + domain) <= IFNAME_MAX,
{
    reveal_strlit("-");
    lemma_byte_len_concat(ifname, "-"@);
    lemma_byte_len_concat(ifname + "-"@, domain);
    assert("-"@.drop_last() =~= seq![]);
    assert(domain.drop_last() =~= seq![]);
    assert(is_letter(domain[0]));
    reveal_with_fuel(byte_len, 3);
}

/// A member's address on a workload interface that it carries.
#[derive(Debug, PartialEq, Eq)]
pub struct MemberWorkload {
    pub name: String,
    pub address: Ipv4Addr,
    pub len: u8,
}

pub struct MemberWorkloadV {
    pub name: Seq<char>,
    pub address: Ipv4Addr,
    pub len: u8,
}

impl View for MemberWorkload {
    type V = MemberWorkloadV;

    open spec fn view(&self) -> MemberWorkloadV {
        MemberWorkloadV { name: self.name@, address: self.address, len: self.len }
    }
}

/// An address with its length, as `a.b.c.d/len`.
pub open spec fn cidr(a: Ipv4Addr, len: u8) -> Seq<char> {
    dotted(a.bits) + "/"@ + dec(len as nat)
}

pub fn cidr_text(a: Ipv4Addr, len: u8) -> (r: String)
    ensures
        r@ == cidr(a, len),
{
    cat3(a.to_string().as_str(), "/", dec_u64(len as u64).as_str())
}

impl MemberWorkload {
    pub fn address_cidr(&self) -> (r: String)
        ensures
            r@ == cidr(self.address, self.len),
    {
        cidr_text(self.address, self.len)
    }
}

/// One member.
#[derive(Debug, PartialEq, Eq)]
pub struct Member {
    pub name: String,
    /// The host octet of every address this member holds.
    pub node: u8,
    pub kind: MemberKind,
    /// Every wire this member has, in declaration order (the tie-break for equal speeds). On a
    /// host the untagged path of every one of these is the admin plane.
    pub wires: Vec<Wire>,
    /// This member's addresses on the workload interfaces that it carries.
    pub workloads: Vec<MemberWorkload>,
}

pub struct MemberV {
    pub name: Seq<char>,
    pub node: u8,
    pub kind: MemberKind,
    pub wires: Seq<WireV>,
    pub workloads: Seq<MemberWorkloadV>,
}

impl View for Member {
    type V = MemberV;

    open spec fn view(&self) -> MemberV {
        MemberV {
            name: self.name@,
            node: self.node,
            kind: self.kind,
            wires: views(self.wires@),
            workloads: views(self.workloads@),
        }
    }
}

// ---- zones ----

/// The DSCP class selectors the fabric uses: a closed set.
#[derive(Debug, Clone, Copy, PartialEq, Eq, Structural)]
pub enum Dscp {
    Cs0,
    Cs2,
    Cs6,
}

pub open spec fn dscp_text(d: Dscp) -> Seq<char> {
    match d {
        Dscp::Cs0 => "cs0"@,
        Dscp::Cs2 => "cs2"@,
        Dscp::Cs6 => "cs6"@,
    }
}

pub open spec fn tos_text(d: Dscp) -> Seq<char> {
    match d {
        Dscp::Cs0 => "0x00"@,
        Dscp::Cs2 => "0x40"@,
        Dscp::Cs6 => "0xc0"@,
    }
}

impl Dscp {
    pub fn as_str(self) -> (r: &'static str)
        ensures
            r@ == dscp_text(self),
    {
        match self {
            Dscp::Cs0 => "cs0",
            Dscp::Cs2 => "cs2",
            Dscp::Cs6 => "cs6",
        }
    }

    /// The IP tos byte (the class selector shifted left by two), in the spelling that the
    /// shaper's filters match.
    pub fn tos(self) -> (r: &'static str)
        ensures
            r@ == tos_text(self),
    {
        match self {
            Dscp::Cs0 => "0x00",
            Dscp::Cs2 => "0x40",
            Dscp::Cs6 => "0xc0",
        }
    }
}

/// Where the outside enters a zone: a router-owned VLAN, distinct from every segment.
#[derive(Debug, PartialEq, Eq)]
pub struct ZoneGw {
    pub scope: SegScope,
    pub vid: u16,
    /// The router's address; the subnet is its /24.
    pub router: String,
}

pub struct ZoneGwV {
    pub scope: Option<Seq<char>>,
    pub vid: u16,
    pub router: Seq<char>,
}

impl View for ZoneGw {
    type V = ZoneGwV;

    open spec fn view(&self) -> ZoneGwV {
        ZoneGwV { scope: self.scope@, vid: self.vid, router: self.router@ }
    }
}

/// What stands before the last dot.
pub open spec fn subnet_of(router: Seq<char>) -> Seq<char> {
    match rsplit_once(router, '.') {
        Some(p) => p.0,
        None => router,
    }
}

/// The number behind the last dot, if there is one that an octet holds.
pub open spec fn last_octet(router: Seq<char>) -> Option<nat> {
    match rsplit_once(router, '.') {
        Some(p) => parse_uint(p.1, 255),
        None => None,
    }
}

impl ZoneGw {
    /// `a.b.c` of the router's /24.
    pub fn subnet_prefix(&self) -> (r: String)
        ensures
            r@ == subnet_of(self.router@),
    {
        match split_at_last(self.router.as_str(), '.') {
            Some(p) => p.0,
            None => self.router.clone(),
        }
    }

    /// This node's address on the ingress leg: the router's /24, with the node as host octet.
    pub fn leg_cidr(&self, node: u8) -> (r: String)
        ensures
            r@ == subnet_of(self.router@) + "."@ + dec(node as nat) + "/24"@,
    {
        cat4(self.subnet_prefix().as_str(), ".", dec_u64(node as u64).as_str(), "/24")
    }

    /// The router's host octet.
    pub fn router_octet(&self) -> (r: u8)
        requires
            last_octet(self.router@) is Some,
        ensures
            last_octet(self.router@) == Some(r as nat),
    {
        match split_at_last(self.router.as_str(), '.') {
            Some(p) => match parse_u64(p.1.as_str(), 255) {
                Some(n) => n as u8,
                None => 0,
            },
            None => 0,
        }
    }
}

/// A traffic class and the segments that carry it.
#[derive(Debug, PartialEq, Eq)]
pub struct Zone {
    pub name: String,
    /// The zone's number: its block is `10.<id>.0.0/16`.
    pub id: u8,
    /// 802.1p for the zone's traffic.
    pub pcp: u8,
    /// The plane that a DSCP-trusting switch queues the zone's traffic on.
    pub dscp: Dscp,
    /// Minimum Mb/s guarantee for the zone's band.
    pub floor_mbps: u32,
    /// HTB priority band (0 = control).
    pub band: u32,
    /// Quantum ratio within a shared band.
    pub weight: u32,
    /// The switch domain whose segment is this zone's first wire on every member that has a
    /// wire there.
    pub primary: DomainId,
    /// Ingress; `None` where the outside never enters this zone.
    pub gw: Option<ZoneGw>,
}

pub struct ZoneV {
    pub name: Seq<char>,
    pub id: u8,
    pub pcp: u8,
    pub dscp: Dscp,
    pub floor_mbps: u32,
    pub band: u32,
    pub weight: u32,
    pub primary: Seq<char>,
    pub gw: Option<ZoneGwV>,
}

impl View for Zone {
    type V = ZoneV;

    open spec fn view(&self) -> ZoneV {
        ZoneV {
            name: self.name@,
            id: self.id,
            pcp: self.pcp,
            dscp: self.dscp,
            floor_mbps: self.floor_mbps,
            band: self.band,
            weight: self.weight,
            primary: self.primary@,
            gw: match self.gw {
                Some(g) => Some(g@),
                None => None,
            },
        }
    }
}

/// `10.<id>`: the prefix of a zone's block.
pub open spec fn block_text(id: u8) -> Seq<char> {
    "10."@ + dec(id as nat)
}

impl Zone {
    pub fn block(&self) -> (r: String)
        ensures
            r@ == block_text(self.id),
    {
        cat2("10.", dec_u64(self.id as u64).as_str())
    }
}

pub open spec fn identity_ifname(zone_id: u8) -> Seq<char> {
    "cfab-id"@ + dec(zone_id as nat)
}

pub open spec fn identity_peer(zone_id: u8) -> Seq<char> {
    identity_ifname(zone_id) + "-peer"@
}

/// The name of a zone's identity netdev, and that of its veth peer.
pub fn identity_ifnames(zone_id: u8) -> (r: (String, String))
    ensures
        r.0@ == identity_ifname(zone_id),
        r.1@ == identity_peer(zone_id),
{
    let id = cat2("cfab-id", dec_u64(zone_id as u64).as_str());
    let peer = cat2(id.as_str(), "-peer");
    (id, peer)
}

pub open spec fn gw_name(zone_id: u8) -> Seq<char> {
    "cfab-gw"@ + dec(zone_id as nat)
}

/// The name of a zone's ingress leg.
pub fn gw_ifname(zone_id: u8) -> (r: String)
    ensures
        r@ == gw_name(zone_id),
{
    cat2("cfab-gw", dec_u64(zone_id as u64).as_str())
}

/// Every ingress leg can be a bond: its name always leaves room for the port names.
pub proof fn lemma_gw_name_fits(zone_id: u8)
    ensures
        !bond_ifname_long(gw_name(zone_id)),
{
    reveal_strlit("cfab-gw");
    lemma_byte_len_concat("cfab-gw"@, dec(zone_id as nat));
    crate::text::lemma_dec(zone_id as nat);
    crate::text::lemma_dec_len(zone_id as nat);
    let s = "cfab-gw"@;
    lemma_ascii_byte_len(s);
    assert forall|i: int| 0 <= i < dec(zone_id as nat).len() implies (#[trigger] dec(
        zone_id as nat,
    )[i]) as u32 <= 0x7f by {
        assert(crate::text::is_digit(dec(zone_id as nat)[i]));
    }
    lemma_ascii_byte_len(dec(zone_id as nat));
}

/// Every ASCII character takes one byte.
pub proof fn lemma_ascii_byte_len(s: Seq<char>)
    requires
        forall|i: int| 0 <= i < s.len() ==> (#[trigger] s[i]) as u32 <= 0x7f,
    ensures
        byte_len(s) == s.len(),
    decreases s.len(),
{
    if s.len() > 0 {
        lemma_ascii_byte_len(s.drop_last());
    }
}

/// One segment: a zone on a scope, addressed `10.<id>.<seg>.<node>/24` and tagged `vid`.
#[derive(Debug, PartialEq, Eq)]
pub struct Segment {
    pub ifname: String,
    pub scope: SegScope,
    pub zone: String,
    pub seg: u8,
    pub vid: u16,
}

pub struct SegmentV {
    pub ifname: Seq<char>,
    pub scope: Option<Seq<char>>,
    pub zone: Seq<char>,
    pub seg: u8,
    pub vid: u16,
}

impl View for Segment {
    type V = SegmentV;

    open spec fn view(&self) -> SegmentV {
        SegmentV {
            ifname: self.ifname@,
            scope: self.scope@,
            zone: self.zone@,
            seg: self.seg,
            vid: self.vid,
        }
    }
}

/// A member's complete wire order for a zone, which replaces the derived one.
#[derive(Debug, PartialEq, Eq)]
pub struct WirePref {
    pub member: String,
    pub zone: String,
    pub order: Vec<String>,
}

pub struct WirePrefV {
    pub member: Seq<char>,
    pub zone: Seq<char>,
    pub order: Seq<Seq<char>>,
}

impl View for WirePref {
    type V = WirePrefV;

    open spec fn view(&self) -> WirePrefV {
        WirePrefV { member: self.member@, zone: self.zone@, order: texts(self.order@) }
    }
}

// ---- workloads ----

/// The usable bytes of a netdev name.
pub const IFNAME_MAX: usize = 15;

/// The room that `cfab-work-` leaves in a netdev name.
pub const LEG_ROOM: usize = 5;

/// The longest workload prefix that is accepted, as a prefix length.
pub const MIN_WORKLOAD_PREFIX_LEN: u8 = 22;

/// A VM workload VLAN, its anycast gateway, and the zones it may reach.
#[derive(Debug, PartialEq, Eq)]
pub struct Workload {
    pub name: String,
    /// The vlan-aware bridge that the VMs attach to.
    pub uplink: String,
    /// The 802.1Q tag that the VMs use on `uplink`.
    pub vid: u16,
    pub prefix: Ipv4Prefix,
    /// The anycast gateway that every host answers.
    pub gw: Ipv4Addr,
    /// The DHCP server that this row's relay forwards to; `None` for no relay.
    pub dhcp_server: Option<Ipv4Addr>,
    /// Zones that this workload may reach.
    pub allow: Vec<String>,
}

pub struct WorkloadV {
    pub name: Seq<char>,
    pub uplink: Seq<char>,
    pub vid: u16,
    pub prefix: Ipv4Prefix,
    pub gw: Ipv4Addr,
    pub dhcp_server: Option<Ipv4Addr>,
    pub allow: Seq<Seq<char>>,
}

impl View for Workload {
    type V = WorkloadV;

    open spec fn view(&self) -> WorkloadV {
        WorkloadV {
            name: self.name@,
            uplink: self.uplink@,
            vid: self.vid,
            prefix: self.prefix,
            gw: self.gw,
            dhcp_server: self.dhcp_server,
            allow: texts(self.allow@),
        }
    }
}

/// The leg of the row of this name: `cfab-work-` and as much of the name as a netdev name holds.
pub open spec fn leg_name(row: Seq<char>) -> Seq<char> {
    "cfab-work-"@ + fit(row, LEG_ROOM as int)
}

/// A leg's name is one that the kernel takes.
pub proof fn lemma_leg_name_fits(row: Seq<char>)
    ensures
        byte_len(leg_name(row)) <= IFNAME_MAX,
{
    reveal_strlit("cfab-work-");
    lemma_fit(row, LEG_ROOM as int);
    lemma_byte_len_concat("cfab-work-"@, fit(row, LEG_ROOM as int));
    lemma_ascii_byte_len("cfab-work-"@);
}

impl Workload {
    /// The leg that this row has on `uplink`. The cut lands on a character boundary.
    pub fn leg_ifname(&self) -> (r: String)
        ensures
            r@ == leg_name(self.name@),
    {
        cat2("cfab-work-", fitted(self.name.as_str(), LEG_ROOM).as_str())
    }

    /// `gw` with the prefix's length.
    pub fn gw_cidr(&self) -> (r: String)
        ensures
            r@ == cidr(self.gw, self.prefix.len),
    {
        cidr_text(self.gw, self.prefix.len)
    }

    /// The nft set of the VMs that this member currently knows on this row's leg.
    pub fn local_set(&self) -> (r: String)
        ensures
            r@ == leg_name(self.name@) + "-local"@,
    {
        cat2(self.leg_ifname().as_str(), "-local")
    }
}

// ---- the fabric ----

/// The whole declaration, typed.
#[derive(Debug, PartialEq, Eq)]
pub struct Fabric {
    /// The declared switch domains, in declaration order.
    pub domains: Vec<DomainId>,
    pub members: Vec<Member>,
    pub zones: Vec<Zone>,
    pub segments: Vec<Segment>,
    pub wire_prefs: Vec<WirePref>,
    pub leaf_cost_offset: u32,
    pub host_forward: bool,
    /// Allowed forward pairs (from, to).
    pub forward_allow: Vec<(String, String)>,
    pub admin_floor_mbps: u32,
    pub admin_band: u32,
    pub pcp_ctrl: u8,
    pub dscp_mark: bool,
    pub bfd_rx_ms: u32,
    pub bfd_tx_ms: u32,
    pub bfd_mult: u32,
    /// UDP port for single-hop BFD: every member and every peer must agree on it.
    pub bfd_port: u16,
    pub ospf_hello: u32,
    pub ospf_dead: u32,
    pub bgp_as: u32,
    pub bgp_keepalive_s: u32,
    pub bgp_hold_s: u32,
    pub bgp_connect_s: u32,
    /// The directory of the runtime state.
    pub run_dir: String,
    pub dns_domain: String,
    /// The workload rows, in declaration order.
    pub workloads: Vec<Workload>,
}

pub struct FabricV {
    pub domains: Seq<Seq<char>>,
    pub members: Seq<MemberV>,
    pub zones: Seq<ZoneV>,
    pub segments: Seq<SegmentV>,
    pub wire_prefs: Seq<WirePrefV>,
    pub leaf_cost_offset: u32,
    pub host_forward: bool,
    pub forward_allow: Seq<(Seq<char>, Seq<char>)>,
    pub admin_floor_mbps: u32,
    pub admin_band: u32,
    pub pcp_ctrl: u8,
    pub dscp_mark: bool,
    pub bfd_rx_ms: u32,
    pub bfd_tx_ms: u32,
    pub bfd_mult: u32,
    pub bfd_port: u16,
    pub ospf_hello: u32,
    pub ospf_dead: u32,
    pub bgp_as: u32,
    pub bgp_keepalive_s: u32,
    pub bgp_hold_s: u32,
    pub bgp_connect_s: u32,
    pub run_dir: Seq<char>,
    pub dns_domain: Seq<char>,
    pub workloads: Seq<WorkloadV>,
}

/// The texts of a list of pairs.
pub open spec fn pairs(v: Seq<(String, String)>) -> Seq<(Seq<char>, Seq<char>)> {
    Seq::new(v.len(), |i: int| (v[i].0@, v[i].1@))
}

impl View for Fabric {
    type V = FabricV;

    open spec fn view(&self) -> FabricV {
        FabricV {
            domains: views(self.domains@),
            members: views(self.members@),
            zones: views(self.zones@),
            segments: views(self.segments@),
            wire_prefs: views(self.wire_prefs@),
            leaf_cost_offset: self.leaf_cost_offset,
            host_forward: self.host_forward,
            forward_allow: pairs(self.forward_allow@),
            admin_floor_mbps: self.admin_floor_mbps,
            admin_band: self.admin_band,
            pcp_ctrl: self.pcp_ctrl,
            dscp_mark: self.dscp_mark,
            bfd_rx_ms: self.bfd_rx_ms,
            bfd_tx_ms: self.bfd_tx_ms,
            bfd_mult: self.bfd_mult,
            bfd_port: self.bfd_port,
            ospf_hello: self.ospf_hello,
            ospf_dead: self.ospf_dead,
            bgp_as: self.bgp_as,
            bgp_keepalive_s: self.bgp_keepalive_s,
            bgp_hold_s: self.bgp_hold_s,
            bgp_connect_s: self.bgp_connect_s,
            run_dir: self.run_dir@,
            dns_domain: self.dns_domain@,
            workloads: views(self.workloads@),
        }
    }
}

} // verus!
