//! From a declaration to the typed fabric.

use vstd::prelude::*;

use crate::decl::{
    admin_of, bfd_of, bgp_of, cost_of, marking_of, ospf_of, runtime_of, Declaration, GwDecl,
    MemberDecl, MemberWorkloadDecl, SegmentDecl, WireDecl, WorkloadDecl, ZoneDecl,
};
use crate::error::{refuses, Error};
use crate::ipv4::{is_octet, octet, parse_dotted, Ipv4Addr};
use crate::model::lookup::{has_member, lemma_place_of, member_names};
use crate::model::prefix::{parse_prefix, prefix_refusal, Ipv4Prefix};
use crate::model::validate::{fabric_wf, first, refusal};
use crate::model::{
    last_octet, lemma_views_push, pairs, parse_domain_refusal, parse_scope, parse_scope_refusal,
    views, DomainId, Fabric, FabricV, Member, MemberV, MemberWorkload, MemberWorkloadV, SegScope,
    Segment, SegmentV, Wire, WirePref, WirePrefV, WireV, Workload, WorkloadV, Zone, ZoneGw, ZoneGwV,
    ZoneV,
};
use crate::text::{
    cat2, cat3, cat4, cat5, cat7, copy_texts, dec, dec_u64, find, is_digit, lemma_find, parse_u64,
    parse_uint, rfind, split, split_at_first, split_from, split_once, str_eq, texts, unsigned_body,
};

pub mod reading;

verus! {

/// RFC 5881's single-hop port, which an unstated port defaults to.
pub const BFD_PORT_DEFAULT: u16 = crate::decl::BFD_PORT;

/// The lowest port that the engine may be told to bind, since it drops its privileges first.
pub const MIN_BFD_PORT: u16 = 1024;

/// A refusal with more context before it.
pub open spec fn within(at: Seq<char>, why: Option<Seq<char>>) -> Option<Seq<char>> {
    match why {
        Some(m) => Some(at + m),
        None => None,
    }
}

// ---- domains ----

pub open spec fn domains_refusal(d: Seq<Seq<char>>, i: int) -> Option<Seq<char>>
    decreases d.len() - i,
{
    if i >= d.len() {
        None
    } else {
        first(parse_domain_refusal(d[i]), domains_refusal(d, i + 1))
    }
}

fn resolve_domains(d: &Vec<String>) -> (r: Result<Vec<DomainId>, Error>)
    ensures
        refuses(r, domains_refusal(texts(d@), 0)),
        r matches Ok(v) ==> views(v@) == texts(d@),
{
    let mut out: Vec<DomainId> = Vec::new();
    let mut i: usize = 0;
    while i < d.len()
        invariant
            i <= d@.len(),
            out@.len() == i,
            forall|j: int| 0 <= j < i ==> out@[j]@ == d@[j]@,
            domains_refusal(texts(d@), 0) == domains_refusal(texts(d@), i as int),
        decreases d@.len() - i,
    {
        match DomainId::parse(d[i].as_str()) {
            Ok(x) => {
                out.push(x);
            },
            Err(e) => {
                return Err(e);
            },
        }
        i = i + 1;
    }
    assert(views(out@) =~= texts(d@));
    Ok(out)
}

// ---- members ----

pub open spec fn wire_of(w: WireDecl) -> WireV {
    WireV { name: w.nic@, domain: w.domain@, speed_mbps: w.speed_mbps }
}

pub open spec fn wires_of(w: Seq<WireDecl>) -> Seq<WireV> {
    Seq::new(w.len(), |i: int| wire_of(w[i]))
}

pub open spec fn wire_decl_refusal(member: Seq<char>, w: WireDecl) -> Option<Seq<char>> {
    let at = "member "@ + member + ": wire "@ + w.nic@ + ": "@;
    first(
        within(at, parse_domain_refusal(w.domain@)),
        if w.driver_features is Some {
            Some(
                at
                    + "'driver_features' is gone: cfab no longer sets NIC features; set them on the host (a udev rule on the netdev add event, see README)"@,
            )
        } else if w.usb is Some {
            Some(
                at
                    + "'usb' is gone: cfab no longer sets NIC features; set them on the host (a udev rule on the netdev add event, see README)"@,
            )
        } else {
            None
        },
    )
}

pub open spec fn wire_decls_refusal(
    member: Seq<char>,
    w: Seq<WireDecl>,
    j: int,
) -> Option<Seq<char>>
    decreases w.len() - j,
{
    if j >= w.len() {
        None
    } else {
        first(wire_decl_refusal(member, w[j]), wire_decls_refusal(member, w, j + 1))
    }
}

/// A host address with a length: unlike a prefix, it keeps its host bits.
pub open spec fn parse_host(s: Seq<char>) -> Option<(u32, nat)> {
    match split_once(s, '/') {
        Some(p) => match (parse_dotted(p.0), parse_uint(p.1, 255)) {
            (Some(bits), Some(len)) => if len <= 32 {
                Some((bits, len))
            } else {
                None
            },
            _ => None,
        },
        None => None,
    }
}

pub open spec fn carried_of(w: MemberWorkloadDecl) -> MemberWorkloadV {
    let p = parse_host(w.address@)->0;
    MemberWorkloadV { name: w.name@, address: Ipv4Addr { bits: p.0 }, len: p.1 as u8 }
}

pub open spec fn all_carried_of(w: Seq<MemberWorkloadDecl>) -> Seq<MemberWorkloadV> {
    Seq::new(w.len(), |i: int| carried_of(w[i]))
}

pub open spec fn carried_decls_refusal(
    member: Seq<char>,
    w: Seq<MemberWorkloadDecl>,
    j: int,
) -> Option<Seq<char>>
    decreases w.len() - j,
{
    if j >= w.len() {
        None
    } else if parse_host(w[j].address@) is None {
        Some(
            "member "@ + member + ": workload "@ + w[j].name@ + ": address '"@ + w[j].address@
                + "' is not an IPv4 address with a length"@,
        )
    } else {
        carried_decls_refusal(member, w, j + 1)
    }
}

pub open spec fn member_of(m: MemberDecl) -> MemberV {
    MemberV {
        name: m.name@,
        node: m.node,
        kind: m.kind,
        wires: wires_of(m.wires@),
        workloads: all_carried_of(m.workloads@),
    }
}

pub open spec fn members_of(m: Seq<MemberDecl>) -> Seq<MemberV> {
    Seq::new(m.len(), |i: int| member_of(m[i]))
}

pub open spec fn pref_of(m: MemberDecl, i: int) -> WirePrefV {
    WirePrefV { member: m.name@, zone: m.prefs@[i].0@, order: texts(m.prefs@[i].1@) }
}

/// The overrides of one member.
pub open spec fn member_prefs(m: MemberDecl) -> Seq<WirePrefV> {
    Seq::new(m.prefs@.len(), |i: int| pref_of(m, i))
}

/// The overrides of the first `n` members, member by member.
pub open spec fn prefs_of(m: Seq<MemberDecl>, n: int) -> Seq<WirePrefV>
    decreases n,
{
    if n <= 0 {
        seq![]
    } else {
        prefs_of(m, n - 1) + member_prefs(m[n - 1])
    }
}

pub open spec fn member_decl_refusal(m: MemberDecl) -> Option<Seq<char>> {
    first(
        wire_decls_refusal(m.name@, m.wires@, 0),
        carried_decls_refusal(m.name@, m.workloads@, 0),
    )
}

pub open spec fn members_refusal(m: Seq<MemberDecl>, i: int) -> Option<Seq<char>>
    decreases m.len() - i,
{
    if i >= m.len() {
        None
    } else {
        first(member_decl_refusal(m[i]), members_refusal(m, i + 1))
    }
}

fn parse_ipv4_with_len(s: &str) -> (r: Option<(Ipv4Addr, u8)>)
    ensures
        match r {
            Some(p) => parse_host(s@) == Some((p.0.bits, p.1 as nat)),
            None => parse_host(s@) is None,
        },
{
    match split_at_first(s, '/') {
        Some(p) => match Ipv4Addr::parse(p.0.as_str()) {
            Some(a) => match parse_u64(p.1.as_str(), 255) {
                Some(n) => if n <= 32 {
                    Some((a, n as u8))
                } else {
                    None
                },
                None => None,
            },
            None => None,
        },
        None => None,
    }
}

fn resolve_wire(member: &str, w: &WireDecl) -> (r: Result<Wire, Error>)
    ensures
        refuses(r, wire_decl_refusal(member@, *w)),
        r matches Ok(x) ==> x@ == wire_of(*w),
{
    let at = cat5("member ", member, ": wire ", w.nic.as_str(), ": ");
    let domain = match DomainId::parse(w.domain.as_str()) {
        Ok(d) => d,
        Err(e) => {
            return Err(Error::context(at.as_str(), e));
        },
    };
    if w.driver_features.is_some() {
        return Err(
            Error::Config(
                cat2(
                    at.as_str(),
                    "'driver_features' is gone: cfab no longer sets NIC features; set them on the host (a udev rule on the netdev add event, see README)",
                ),
            ),
        );
    }
    if w.usb.is_some() {
        return Err(
            Error::Config(
                cat2(
                    at.as_str(),
                    "'usb' is gone: cfab no longer sets NIC features; set them on the host (a udev rule on the netdev add event, see README)",
                ),
            ),
        );
    }
    Ok(Wire { name: w.nic.clone(), domain, speed_mbps: w.speed_mbps })
}

fn resolve_wires(member: &str, w: &Vec<WireDecl>) -> (r: Result<Vec<Wire>, Error>)
    ensures
        refuses(r, wire_decls_refusal(member@, w@, 0)),
        r matches Ok(v) ==> views(v@) == wires_of(w@),
{
    let mut out: Vec<Wire> = Vec::new();
    let mut i: usize = 0;
    while i < w.len()
        invariant
            i <= w@.len(),
            out@.len() == i,
            forall|j: int| 0 <= j < i ==> (#[trigger] out@[j])@ == wire_of(w@[j]),
            wire_decls_refusal(member@, w@, 0) == wire_decls_refusal(member@, w@, i as int),
        decreases w@.len() - i,
    {
        match resolve_wire(member, &w[i]) {
            Ok(x) => {
                out.push(x);
            },
            Err(e) => {
                return Err(e);
            },
        }
        i = i + 1;
    }
    assert(views(out@) =~= wires_of(w@));
    Ok(out)
}

fn resolve_carried(
    member: &str,
    w: &Vec<MemberWorkloadDecl>,
) -> (r: Result<Vec<MemberWorkload>, Error>)
    ensures
        refuses(r, carried_decls_refusal(member@, w@, 0)),
        r matches Ok(v) ==> views(v@) == all_carried_of(w@),
{
    let mut out: Vec<MemberWorkload> = Vec::new();
    let mut i: usize = 0;
    while i < w.len()
        invariant
            i <= w@.len(),
            out@.len() == i,
            forall|j: int| 0 <= j < i ==> (#[trigger] out@[j])@ == carried_of(w@[j]),
            carried_decls_refusal(member@, w@, 0) == carried_decls_refusal(
                member@,
                w@,
                i as int,
            ),
        decreases w@.len() - i,
    {
        match parse_ipv4_with_len(w[i].address.as_str()) {
            Some(p) => {
                out.push(MemberWorkload { name: w[i].name.clone(), address: p.0, len: p.1 });
            },
            None => {
                return Err(
                    Error::Config(
                        cat7(
                            "member ",
                            member,
                            ": workload ",
                            w[i].name.as_str(),
                            ": address '",
                            w[i].address.as_str(),
                            "' is not an IPv4 address with a length",
                        ),
                    ),
                );
            },
        }
        i = i + 1;
    }
    assert(views(out@) =~= all_carried_of(w@));
    Ok(out)
}

fn resolve_member(m: &MemberDecl) -> (r: Result<Member, Error>)
    ensures
        refuses(r, member_decl_refusal(*m)),
        r matches Ok(x) ==> x@ == member_of(*m),
{
    let wires = match resolve_wires(m.name.as_str(), &m.wires) {
        Ok(w) => w,
        Err(e) => {
            return Err(e);
        },
    };
    let workloads = match resolve_carried(m.name.as_str(), &m.workloads) {
        Ok(w) => w,
        Err(e) => {
            return Err(e);
        },
    };
    Ok(Member { name: m.name.clone(), node: m.node, kind: m.kind, wires, workloads })
}

fn push_prefs(out: &mut Vec<WirePref>, m: &MemberDecl)
    ensures
        views(final(out)@) == views(old(out)@) + member_prefs(*m),
{
    broadcast use lemma_views_push;

    let ghost before = views(out@);
    let ghost mine = member_prefs(*m);
    let mut i: usize = 0;
    assert(before + mine.take(0) =~= before);
    while i < m.prefs.len()
        invariant
            i <= m.prefs@.len(),
            before == views(old(out)@),
            mine == member_prefs(*m),
            views(out@) == before + mine.take(i as int),
        decreases m.prefs@.len() - i,
    {
        let p = WirePref {
            member: m.name.clone(),
            zone: m.prefs[i].0.clone(),
            order: copy_texts(&m.prefs[i].1),
        };
        assert(p@ == mine[i as int]);
        assert(before + mine.take(i + 1) =~= (before + mine.take(i as int)).push(mine[i as int]));
        out.push(p);
        i = i + 1;
    }
    assert(mine.take(i as int) =~= mine);
}

fn resolve_members(m: &Vec<MemberDecl>) -> (r: Result<(Vec<Member>, Vec<WirePref>), Error>)
    ensures
        refuses(r, members_refusal(m@, 0)),
        r matches Ok(p) ==> views(p.0@) == members_of(m@) && views(p.1@) == prefs_of(
            m@,
            m@.len() as int,
        ),
{
    let mut members: Vec<Member> = Vec::new();
    let mut prefs: Vec<WirePref> = Vec::new();
    let mut i: usize = 0;
    assert(views(prefs@) =~= seq![]);
    while i < m.len()
        invariant
            i <= m@.len(),
            members@.len() == i,
            forall|j: int| 0 <= j < i ==> (#[trigger] members@[j])@ == member_of(m@[j]),
            views(prefs@) == prefs_of(m@, i as int),
            members_refusal(m@, 0) == members_refusal(m@, i as int),
        decreases m@.len() - i,
    {
        match resolve_member(&m[i]) {
            Ok(x) => {
                members.push(x);
            },
            Err(e) => {
                return Err(e);
            },
        }
        push_prefs(&mut prefs, &m[i]);
        i = i + 1;
    }
    assert(views(members@) =~= members_of(m@));
    Ok((members, prefs))
}

// ---- zones ----

pub open spec fn segment_of(z: ZoneDecl, s: SegmentDecl) -> SegmentV {
    SegmentV {
        ifname: s.ifname@,
        scope: Some(s.domain@),
        zone: z.name@,
        seg: s.seg,
        vid: s.vid,
    }
}

/// The segments of one zone: those on domains, then the universal one.
pub open spec fn zone_segments(z: ZoneDecl) -> Seq<SegmentV> {
    let own = Seq::new(z.segments@.len(), |i: int| segment_of(z, z.segments@[i]));
    match z.universal {
        Some(u) => own.push(
            SegmentV { ifname: u.ifname@, scope: None, zone: z.name@, seg: u.seg, vid: u.vid },
        ),
        None => own,
    }
}

/// The segments of the first `n` zones, zone by zone.
pub open spec fn segments_of(z: Seq<ZoneDecl>, n: int) -> Seq<SegmentV>
    decreases n,
{
    if n <= 0 {
        seq![]
    } else {
        segments_of(z, n - 1) + zone_segments(z[n - 1])
    }
}

/// The router without its length, where it is an address and has the one length that is
/// supported.
pub open spec fn router_of(s: Seq<char>) -> Option<Seq<char>> {
    match split_once(s, '/') {
        Some(p) => if p.1 == "24"@ && parse_dotted(p.0) is Some {
            Some(p.0)
        } else {
            None
        },
        None => None,
    }
}

pub open spec fn gw_of(g: GwDecl) -> ZoneGwV {
    ZoneGwV { scope: parse_scope(g.domain@), vid: g.vid, router: router_of(g.router@)->0 }
}

pub open spec fn gw_decl_refusal(zone: Seq<char>, g: GwDecl) -> Option<Seq<char>> {
    if router_of(g.router@) is None {
        Some(
            "zone "@ + zone + ": gw router '"@ + g.router@
                + "' (expected an IPv4 address with /24, e.g. 192.168.249.254/24)"@,
        )
    } else {
        within("zone "@ + zone + ": gw "@, parse_scope_refusal(g.domain@))
    }
}

pub open spec fn zone_of(z: ZoneDecl) -> ZoneV {
    ZoneV {
        name: z.name@,
        id: z.id,
        pcp: z.pcp,
        dscp: z.dscp,
        floor_mbps: z.floor_mbps,
        band: z.band,
        weight: z.weight,
        primary: z.primary@,
        gw: match z.gw {
            Some(g) => Some(gw_of(g)),
            None => None,
        },
    }
}

pub open spec fn zones_of(z: Seq<ZoneDecl>) -> Seq<ZoneV> {
    Seq::new(z.len(), |i: int| zone_of(z[i]))
}

pub open spec fn segment_decls_refusal(z: ZoneDecl, j: int) -> Option<Seq<char>>
    decreases z.segments@.len() - j,
{
    if j >= z.segments@.len() {
        None
    } else {
        first(
            within(
                "zone "@ + z.name@ + ": segment "@ + z.segments@[j].ifname@ + ": "@,
                parse_domain_refusal(z.segments@[j].domain@),
            ),
            segment_decls_refusal(z, j + 1),
        )
    }
}

pub open spec fn zone_decl_refusal(z: ZoneDecl) -> Option<Seq<char>> {
    first(
        segment_decls_refusal(z, 0),
        first(
            match z.gw {
                Some(g) => gw_decl_refusal(z.name@, g),
                None => None,
            },
            within("zone "@ + z.name@ + ": primary "@, parse_domain_refusal(z.primary@)),
        ),
    )
}

pub open spec fn zones_refusal(z: Seq<ZoneDecl>, i: int) -> Option<Seq<char>>
    decreases z.len() - i,
{
    if i >= z.len() {
        None
    } else {
        first(zone_decl_refusal(z[i]), zones_refusal(z, i + 1))
    }
}

fn read_router(s: &str) -> (r: Option<String>)
    ensures
        match r {
            Some(x) => router_of(s@) == Some(x@),
            None => router_of(s@) is None,
        },
{
    match split_at_first(s, '/') {
        Some(p) => {
            if !str_eq(p.1.as_str(), "24") {
                return None;
            }
            if Ipv4Addr::parse(p.0.as_str()).is_none() {
                return None;
            }
            Some(p.0)
        },
        None => None,
    }
}

fn resolve_gw(zone: &str, g: &GwDecl) -> (r: Result<ZoneGw, Error>)
    ensures
        refuses(r, gw_decl_refusal(zone@, *g)),
        r matches Ok(x) ==> x@ == gw_of(*g),
{
    match read_router(g.router.as_str()) {
        None => Err(
            Error::Config(
                cat5(
                    "zone ",
                    zone,
                    ": gw router '",
                    g.router.as_str(),
                    "' (expected an IPv4 address with /24, e.g. 192.168.249.254/24)",
                ),
            ),
        ),
        Some(router) => match SegScope::parse(g.domain.as_str()) {
            Ok(scope) => Ok(ZoneGw { scope, vid: g.vid, router }),
            Err(e) => Err(Error::context(cat3("zone ", zone, ": gw ").as_str(), e)),
        },
    }
}

fn push_segments(out: &mut Vec<Segment>, z: &ZoneDecl) -> (r: Result<(), Error>)
    ensures
        refuses(r, segment_decls_refusal(*z, 0)),
        r is Ok ==> views(final(out)@) == views(old(out)@) + zone_segments(*z),
{
    broadcast use lemma_views_push;

    let ghost before = views(out@);
    let ghost own = Seq::new(z.segments@.len(), |i: int| segment_of(*z, z.segments@[i]));
    let mut i: usize = 0;
    assert(before + own.take(0) =~= before);
    while i < z.segments.len()
        invariant
            i <= z.segments@.len(),
            before == views(old(out)@),
            own == Seq::new(z.segments@.len(), |i: int| segment_of(*z, z.segments@[i])),
            views(out@) == before + own.take(i as int),
            segment_decls_refusal(*z, 0) == segment_decls_refusal(*z, i as int),
        decreases z.segments@.len() - i,
    {
        let s = &z.segments[i];
        match DomainId::parse(s.domain.as_str()) {
            Ok(d) => {
                let x = Segment {
                    ifname: s.ifname.clone(),
                    scope: SegScope::Domain(d),
                    zone: z.name.clone(),
                    seg: s.seg,
                    vid: s.vid,
                };
                assert(x@ == own[i as int]);
                assert(before + own.take(i + 1) =~= (before + own.take(i as int)).push(
                    own[i as int],
                ));
                out.push(x);
            },
            Err(e) => {
                let at = cat5("zone ", z.name.as_str(), ": segment ", s.ifname.as_str(), ": ");
                return Err(Error::context(at.as_str(), e));
            },
        }
        i = i + 1;
    }
    assert(own.take(i as int) =~= own);
    match &z.universal {
        Some(u) => {
            let x = Segment {
                ifname: u.ifname.clone(),
                scope: SegScope::Universal,
                zone: z.name.clone(),
                seg: u.seg,
                vid: u.vid,
            };
            assert(before + zone_segments(*z) =~= (before + own).push(x@));
            out.push(x);
        },
        None => {},
    }
    Ok(())
}

fn resolve_zone(z: &ZoneDecl) -> (r: Result<Zone, Error>)
    requires
        segment_decls_refusal(*z, 0) is None,
    ensures
        refuses(r, zone_decl_refusal(*z)),
        r matches Ok(x) ==> x@ == zone_of(*z),
{
    let gw = match &z.gw {
        Some(g) => match resolve_gw(z.name.as_str(), g) {
            Ok(x) => Some(x),
            Err(e) => {
                return Err(e);
            },
        },
        None => None,
    };
    let primary = match DomainId::parse(z.primary.as_str()) {
        Ok(d) => d,
        Err(e) => {
            return Err(Error::context(cat3("zone ", z.name.as_str(), ": primary ").as_str(), e));
        },
    };
    Ok(
        Zone {
            name: z.name.clone(),
            id: z.id,
            pcp: z.pcp,
            dscp: z.dscp,
            floor_mbps: z.floor_mbps,
            band: z.band,
            weight: z.weight,
            primary,
            gw,
        },
    )
}

fn resolve_zones(z: &Vec<ZoneDecl>) -> (r: Result<(Vec<Zone>, Vec<Segment>), Error>)
    ensures
        refuses(r, zones_refusal(z@, 0)),
        r matches Ok(p) ==> views(p.0@) == zones_of(z@) && views(p.1@) == segments_of(
            z@,
            z@.len() as int,
        ),
{
    let mut zones: Vec<Zone> = Vec::new();
    let mut segments: Vec<Segment> = Vec::new();
    let mut i: usize = 0;
    assert(views(segments@) =~= seq![]);
    while i < z.len()
        invariant
            i <= z@.len(),
            zones@.len() == i,
            forall|j: int| 0 <= j < i ==> (#[trigger] zones@[j])@ == zone_of(z@[j]),
            views(segments@) == segments_of(z@, i as int),
            zones_refusal(z@, 0) == zones_refusal(z@, i as int),
        decreases z@.len() - i,
    {
        match push_segments(&mut segments, &z[i]) {
            Ok(()) => {},
            Err(e) => {
                return Err(e);
            },
        }
        match resolve_zone(&z[i]) {
            Ok(x) => {
                zones.push(x);
            },
            Err(e) => {
                return Err(e);
            },
        }
        i = i + 1;
    }
    assert(views(zones@) =~= zones_of(z@));
    Ok((zones, segments))
}

// ---- workloads ----

pub open spec fn retired_refusal(w: WorkloadDecl) -> Option<Seq<char>> {
    if w.span is Some {
        Some(
            "workload "@ + w.name@
                + ": 'span' is gone: phase 2: the VM VLAN is host-local; remove 'span'"@,
        )
    } else if w.router is Some {
        Some(
            "workload "@ + w.name@
                + ": 'router' is gone: phase 2: VMs default to 'gw'; remove 'router'"@,
        )
    } else {
        None
    }
}

pub open spec fn server_of(w: WorkloadDecl) -> Option<Ipv4Addr> {
    match w.dhcp_server {
        Some(s) => Some(Ipv4Addr { bits: parse_dotted(s@)->0 }),
        None => None,
    }
}

pub open spec fn workload_of(w: WorkloadDecl) -> WorkloadV {
    WorkloadV {
        name: w.name@,
        uplink: w.uplink@,
        vid: w.vid,
        prefix: parse_prefix(w.prefix@)->0,
        gw: Ipv4Addr { bits: parse_dotted(w.gw@)->0 },
        dhcp_server: server_of(w),
        allow: texts(w.allow@),
    }
}

pub open spec fn workload_value_refusal(w: WorkloadDecl) -> Option<Seq<char>> {
    let at = "workload "@ + w.name@;
    if parse_prefix(w.prefix@) is None {
        Some(at + ": "@ + prefix_refusal(w.prefix@))
    } else if parse_dotted(w.gw@) is None {
        Some(
            at + ": gw '"@ + w.gw@
                + "' must be a bare IPv4 address (the prefix's mask is applied)"@,
        )
    } else if w.dhcp_server is Some && parse_dotted(w.dhcp_server->0@) is None {
        Some(
            at + ": dhcp_server '"@ + w.dhcp_server->0@
                + "' must be a bare IPv4 address (the DHCP server this row's relay forwards to)"@,
        )
    } else if !(2 <= w.vid <= 4094) {
        Some(
            at + ": vid "@ + dec(w.vid as nat)
                + " is outside 2-4094 (1 is the bridge's untagged default; 0 and 4095 are reserved)"@,
        )
    } else {
        None
    }
}

pub open spec fn workloads_of(w: Seq<WorkloadDecl>) -> Seq<WorkloadV> {
    Seq::new(w.len(), |i: int| workload_of(w[i]))
}

pub open spec fn workloads_refusal(w: Seq<WorkloadDecl>, i: int) -> Option<Seq<char>>
    decreases w.len() - i,
{
    if i >= w.len() {
        None
    } else {
        first(
            first(retired_refusal(w[i]), workload_value_refusal(w[i])),
            workloads_refusal(w, i + 1),
        )
    }
}

fn refuse_retired_workload_keys(w: &WorkloadDecl) -> (r: Result<(), Error>)
    ensures
        refuses(r, retired_refusal(*w)),
{
    if w.span.is_some() {
        return Err(
            Error::Config(
                cat3(
                    "workload ",
                    w.name.as_str(),
                    ": 'span' is gone: phase 2: the VM VLAN is host-local; remove 'span'",
                ),
            ),
        );
    }
    if w.router.is_some() {
        return Err(
            Error::Config(
                cat3(
                    "workload ",
                    w.name.as_str(),
                    ": 'router' is gone: phase 2: VMs default to 'gw'; remove 'router'",
                ),
            ),
        );
    }
    Ok(())
}

fn resolve_workload(w: &WorkloadDecl) -> (r: Result<Workload, Error>)
    ensures
        refuses(r, workload_value_refusal(*w)),
        r matches Ok(x) ==> x@ == workload_of(*w) && x.prefix.wf(),
{
    let at = cat2("workload ", w.name.as_str());
    let prefix = match Ipv4Prefix::parse(w.prefix.as_str()) {
        Ok(p) => p,
        Err(m) => {
            return Err(Error::Config(cat3(at.as_str(), ": ", m.as_str())));
        },
    };
    let gw = match Ipv4Addr::parse(w.gw.as_str()) {
        Some(a) => a,
        None => {
            return Err(
                Error::Config(
                    cat4(
                        at.as_str(),
                        ": gw '",
                        w.gw.as_str(),
                        "' must be a bare IPv4 address (the prefix's mask is applied)",
                    ),
                ),
            );
        },
    };
    let dhcp_server = match &w.dhcp_server {
        Some(s) => match Ipv4Addr::parse(s.as_str()) {
            Some(a) => Some(a),
            None => {
                return Err(
                    Error::Config(
                        cat4(
                            at.as_str(),
                            ": dhcp_server '",
                            s.as_str(),
                            "' must be a bare IPv4 address (the DHCP server this row's relay forwards to)",
                        ),
                    ),
                );
            },
        },
        None => None,
    };
    if !(w.vid >= 2 && w.vid <= 4094) {
        return Err(
            Error::Config(
                cat4(
                    at.as_str(),
                    ": vid ",
                    dec_u64(w.vid as u64).as_str(),
                    " is outside 2-4094 (1 is the bridge's untagged default; 0 and 4095 are reserved)",
                ),
            ),
        );
    }
    Ok(
        Workload {
            name: w.name.clone(),
            uplink: w.uplink.clone(),
            vid: w.vid,
            prefix,
            gw,
            dhcp_server,
            allow: copy_texts(&w.allow),
        },
    )
}

fn resolve_workloads(w: &Vec<WorkloadDecl>) -> (r: Result<Vec<Workload>, Error>)
    ensures
        refuses(r, workloads_refusal(w@, 0)),
        r matches Ok(v) ==> views(v@) == workloads_of(w@) && forall|i: int|
            0 <= i < v@.len() ==> (#[trigger] v@[i]).prefix.wf(),
{
    let mut out: Vec<Workload> = Vec::new();
    let mut i: usize = 0;
    while i < w.len()
        invariant
            i <= w@.len(),
            out@.len() == i,
            forall|j: int|
                0 <= j < i ==> (#[trigger] out@[j])@ == workload_of(w@[j]) && out@[j].prefix.wf(),
            workloads_refusal(w@, 0) == workloads_refusal(w@, i as int),
        decreases w@.len() - i,
    {
        match refuse_retired_workload_keys(&w[i]) {
            Ok(()) => {},
            Err(e) => {
                return Err(e);
            },
        }
        match resolve_workload(&w[i]) {
            Ok(x) => {
                out.push(x);
            },
            Err(e) => {
                return Err(e);
            },
        }
        i = i + 1;
    }
    assert(views(out@) =~= workloads_of(w@));
    Ok(out)
}

// ---- forwarding ----

pub open spec fn pairs_of(v: Seq<Seq<char>>) -> Seq<(Seq<char>, Seq<char>)> {
    Seq::new(v.len(), |i: int| split_once(v[i], '>')->0)
}

pub open spec fn pairs_refusal(v: Seq<Seq<char>>, i: int) -> Option<Seq<char>>
    decreases v.len() - i,
{
    if i >= v.len() {
        None
    } else if split_once(v[i], '>') is None {
        Some("[forward] allow '"@ + v[i] + "' (expected \"from>to\")"@)
    } else {
        pairs_refusal(v, i + 1)
    }
}

fn resolve_pairs(v: &Vec<String>) -> (r: Result<Vec<(String, String)>, Error>)
    ensures
        refuses(r, pairs_refusal(texts(v@), 0)),
        r matches Ok(p) ==> pairs(p@) == pairs_of(texts(v@)),
{
    let ghost t = texts(v@);
    let mut out: Vec<(String, String)> = Vec::new();
    let mut i: usize = 0;
    while i < v.len()
        invariant
            i <= v@.len(),
            t == texts(v@),
            out@.len() == i,
            forall|j: int|
                0 <= j < i ==> ((#[trigger] out@[j]).0@, out@[j].1@) == pairs_of(t)[j],
            pairs_refusal(t, 0) == pairs_refusal(t, i as int),
        decreases v@.len() - i,
    {
        match split_at_first(v[i].as_str(), '>') {
            Some(p) => {
                out.push(p);
            },
            None => {
                return Err(
                    Error::Config(
                        cat3("[forward] allow '", v[i].as_str(), "' (expected \"from>to\")"),
                    ),
                );
            },
        }
        i = i + 1;
    }
    assert(pairs(out@) =~= pairs_of(t));
    Ok(out)
}

// ---- the whole declaration ----

/// The first value of the declaration that cannot be what it has to be.
pub open spec fn decl_refusal(d: Declaration) -> Option<Seq<char>> {
    first(
        domains_refusal(texts(d.domains@), 0),
        first(
            members_refusal(d.members@, 0),
            first(
                zones_refusal(d.zones@, 0),
                first(
                    workloads_refusal(d.workload@, 0),
                    first(
                        pairs_refusal(texts(d.forward.allow@), 0),
                        if marking_of(d).pcp_ctrl > 6 {
                            Some(
                                "[marking] pcp_ctrl = "@ + dec(marking_of(d).pcp_ctrl as nat)
                                    + " is outside 0..6 (7 needs CAP_NET_ADMIN on the engine's control sockets)"@,
                            )
                        } else if bfd_of(d).port < MIN_BFD_PORT {
                            Some(
                                "[bfd] port = "@ + dec(bfd_of(d).port as nat)
                                    + " is outside 1024..65535"@,
                            )
                        } else {
                            None
                        },
                    ),
                ),
            ),
        ),
    )
}

/// The fabric that a declaration without such a value describes.
pub open spec fn resolved(d: Declaration) -> FabricV {
    FabricV {
        domains: texts(d.domains@),
        members: members_of(d.members@),
        zones: zones_of(d.zones@),
        segments: segments_of(d.zones@, d.zones@.len() as int),
        wire_prefs: prefs_of(d.members@, d.members@.len() as int),
        leaf_cost_offset: cost_of(d).leaf_offset,
        host_forward: d.forward.enabled,
        forward_allow: pairs_of(texts(d.forward.allow@)),
        admin_floor_mbps: admin_of(d).floor_mbps,
        admin_band: admin_of(d).band,
        pcp_ctrl: marking_of(d).pcp_ctrl,
        dscp_mark: marking_of(d).set_dscp,
        bfd_rx_ms: bfd_of(d).rx_ms,
        bfd_tx_ms: bfd_of(d).tx_ms,
        bfd_mult: bfd_of(d).mult,
        bfd_port: bfd_of(d).port,
        ospf_hello: ospf_of(d).hello_s,
        ospf_dead: ospf_of(d).dead_s,
        bgp_as: bgp_of(d).asn,
        bgp_keepalive_s: bgp_of(d).keepalive_s,
        bgp_hold_s: bgp_of(d).hold_s,
        bgp_connect_s: bgp_of(d).connect_s,
        run_dir: runtime_of(d).run_dir@,
        dns_domain: d.dns_domain@,
        workloads: workloads_of(d.workload@),
    }
}

proof fn lemma_prefs_members(m: Seq<MemberDecl>, n: int, i: int)
    requires
        0 <= n <= m.len(),
        0 <= i < prefs_of(m, n).len(),
    ensures
        exists|k: int| 0 <= k < n && prefs_of(m, n)[i].member == (#[trigger] m[k]).name@,
    decreases n,
{
    let p = prefs_of(m, n - 1);
    if i < p.len() {
        lemma_prefs_members(m, n - 1, i);
        assert(prefs_of(m, n)[i] == p[i]);
    } else {
        assert(prefs_of(m, n)[i] == member_prefs(m[n - 1])[i - p.len()]);
        assert(prefs_of(m, n)[i].member == m[n - 1].name@);
    }
}

proof fn lemma_last_piece(s: Seq<char>, c: char, i: int)
    requires
        0 <= i <= s.len(),
    ensures
        split_from(s, c, i).len() >= 1,
        split_from(s, c, i).last() == s.subrange(
            if rfind(s, c, s.len() as int) >= i {
                rfind(s, c, s.len() as int) + 1
            } else {
                i
            },
            s.len() as int,
        ),
    decreases s.len() - i,
{
    lemma_find(s, c, i);
    let k = find(s, c, i);
    let r = rfind(s, c, s.len() as int);
    lemma_rfind(s, c, s.len() as int);
    if k < s.len() {
        lemma_last_piece(s, c, k + 1);
        assert(r >= k);
    } else {
        assert(r < i);
    }
}

proof fn lemma_rfind(s: Seq<char>, c: char, j: int)
    requires
        0 <= j <= s.len(),
    ensures
        -1 <= rfind(s, c, j) < j || (j == 0 && rfind(s, c, j) == -1),
        rfind(s, c, j) >= 0 ==> s[rfind(s, c, j)] == c,
        forall|i: int| rfind(s, c, j) < i < j ==> s[i] != c,
    decreases j,
{
    if j > 0 && s[j - 1] != c {
        lemma_rfind(s, c, j - 1);
    }
}

/// The number behind the last dot of a router is its last octet.
proof fn lemma_router_octet(s: Seq<char>)
    requires
        parse_dotted(s) is Some,
    ensures
        last_octet(s) == Some(octet(parse_dotted(s)->0, 3)),
{
    let p = split(s, '.');
    lemma_last_piece(s, '.', 0);
    assert(is_octet(p[3]));
    assert(is_digit(p[3][0]));
    assert(unsigned_body(p[3]) == p[3]);
    lemma_rfind(s, '.', s.len() as int);
    if rfind(s, '.', s.len() as int) < 0 {
        lemma_find(s, '.', 0);
        assert(split_from(s, '.', 0).len() == 1);
    }
}

proof fn lemma_zones_ok(z: Seq<ZoneDecl>, i: int, k: int)
    requires
        0 <= i <= k < z.len(),
        zones_refusal(z, i) is None,
    ensures
        zone_decl_refusal(z[k]) is None,
    decreases k - i,
{
    if i < k {
        lemma_zones_ok(z, i + 1, k);
    }
}

proof fn lemma_workloads_ok(w: Seq<WorkloadDecl>, i: int, k: int)
    requires
        0 <= i <= k < w.len(),
        workloads_refusal(w, i) is None,
    ensures
        workload_value_refusal(w[k]) is None,
    decreases k - i,
{
    if i < k {
        lemma_workloads_ok(w, i + 1, k);
    }
}

/// The router of every ingress that a declaration is accepted with is an address, so that the
/// ingress has a router to ask.
pub proof fn lemma_a_resolved_router_is_an_address(d: Declaration, i: int)
    requires
        decl_refusal(d) is None,
        0 <= i < resolved(d).zones.len(),
        resolved(d).zones[i].gw is Some,
    ensures
        parse_dotted(resolved(d).zones[i].gw->0.router) is Some,
        last_octet(resolved(d).zones[i].gw->0.router) == Some(
            octet(parse_dotted(resolved(d).zones[i].gw->0.router)->0, 3),
        ),
{
    let f = resolved(d);
    lemma_zones_ok(d.zones@, 0, i);
    assert(f.zones[i] == zone_of(d.zones@[i]));
    let g = d.zones@[i].gw->0;
    assert(gw_decl_refusal(d.zones@[i].name@, g) is None);
    lemma_router_octet(router_of(g.router@)->0);
}

/// The fabric of a declaration whose values are what they have to be is one that its rules can
/// be asked of.
pub proof fn lemma_resolved_wf(d: Declaration)
    requires
        decl_refusal(d) is None,
    ensures
        fabric_wf(resolved(d)),
{
    let f = resolved(d);
    assert forall|i: int| 0 <= i < f.wire_prefs.len() implies has_member(
        f,
        (#[trigger] f.wire_prefs[i]).member,
    ) by {
        lemma_prefs_members(d.members@, d.members@.len() as int, i);
        let k = choose|k: int|
            0 <= k < d.members@.len() && f.wire_prefs[i].member == (#[trigger] d.members@[k]).name@;
        let names = member_names(f.members);
        assert(names[k] == f.wire_prefs[i].member);
        lemma_place_of(names, f.wire_prefs[i].member, 0);
    }
    assert forall|i: int| 0 <= i < f.workloads.len() implies (#[trigger] f.workloads[i]).prefix.wf() by {
        lemma_workloads_ok(d.workload@, 0, i);
        assert(f.workloads[i] == workload_of(d.workload@[i]));
    }
    assert forall|i: int| 0 <= i < f.zones.len() && (#[trigger] f.zones[i]).gw is Some implies last_octet(
        f.zones[i].gw->0.router,
    ) is Some by {
        lemma_a_resolved_router_is_an_address(d, i);
    }
}

impl Fabric {
    /// Resolve a declaration into the typed model, then validate it.
    pub fn from_decl(d: &Declaration) -> (r: Result<Fabric, Error>)
        ensures
            refuses(r, first(decl_refusal(*d), refusal(resolved(*d)))),
            r matches Ok(f) ==> f@ == resolved(*d) && fabric_wf(f@),
    {
        let domains = match resolve_domains(&d.domains) {
            Ok(x) => x,
            Err(e) => {
                return Err(e);
            },
        };
        let (members, wire_prefs) = match resolve_members(&d.members) {
            Ok(x) => x,
            Err(e) => {
                return Err(e);
            },
        };
        let (zones, segments) = match resolve_zones(&d.zones) {
            Ok(x) => x,
            Err(e) => {
                return Err(e);
            },
        };
        let workloads = match resolve_workloads(&d.workload) {
            Ok(x) => x,
            Err(e) => {
                return Err(e);
            },
        };
        let forward_allow = match resolve_pairs(&d.forward.allow) {
            Ok(x) => x,
            Err(e) => {
                return Err(e);
            },
        };
        if d.marking().pcp_ctrl > 6 {
            return Err(
                Error::Config(
                    cat3(
                        "[marking] pcp_ctrl = ",
                        dec_u64(d.marking().pcp_ctrl as u64).as_str(),
                        " is outside 0..6 (7 needs CAP_NET_ADMIN on the engine's control sockets)",
                    ),
                ),
            );
        }
        if d.bfd().port < MIN_BFD_PORT {
            return Err(
                Error::Config(
                    cat3(
                        "[bfd] port = ",
                        dec_u64(d.bfd().port as u64).as_str(),
                        " is outside 1024..65535",
                    ),
                ),
            );
        }
        let fabric = Fabric {
            domains,
            members,
            zones,
            segments,
            wire_prefs,
            leaf_cost_offset: d.cost().leaf_offset,
            host_forward: d.forward.enabled,
            forward_allow,
            admin_floor_mbps: d.admin().floor_mbps,
            admin_band: d.admin().band,
            pcp_ctrl: d.marking().pcp_ctrl,
            dscp_mark: d.marking().set_dscp,
            bfd_rx_ms: d.bfd().rx_ms,
            bfd_tx_ms: d.bfd().tx_ms,
            bfd_mult: d.bfd().mult,
            bfd_port: d.bfd().port,
            ospf_hello: d.ospf().hello_s,
            ospf_dead: d.ospf().dead_s,
            bgp_as: d.bgp().asn,
            bgp_keepalive_s: d.bgp().keepalive_s,
            bgp_hold_s: d.bgp().hold_s,
            bgp_connect_s: d.bgp().connect_s,
            run_dir: d.runtime().run_dir.clone(),
            dns_domain: d.dns_domain.clone(),
            workloads,
        };
        assert(fabric@ == resolved(*d));
        proof {
            lemma_resolved_wf(*d);
        }
        match fabric.validate() {
            Ok(()) => Ok(fabric),
            Err(e) => Err(e),
        }
    }
}

} // verus!
