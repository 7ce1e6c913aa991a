//! One member's view of the fabric: the rows that every generator reads.

use vstd::prelude::*;

use crate::error::{refuses, Error};
use crate::model::lookup::{place_of, wire_names, zone_names};
use crate::model::{
    block_text, identity_ifname, identity_ifnames, views, Dscp, Fabric, FabricV, Member, MemberKind,
    MemberV, Workload, WorkloadV, Zone, ZoneV,
};
use crate::text::{cat3, cat4, copy_texts, dec, dec_u64, has_text, str_eq, texts};

verus! {

/// A zone's sub-interface on one wire of the member.
#[derive(Debug)]
pub struct ClassRow {
    pub ifname: String,
    pub zone: String,
    pub wire: String,
    pub ospf_cost: u32,
}

pub struct ClassRowV {
    pub ifname: Seq<char>,
    pub zone: Seq<char>,
    pub wire: Seq<char>,
    pub ospf_cost: u32,
}

impl View for ClassRow {
    type V = ClassRowV;

    open spec fn view(&self) -> ClassRowV {
        ClassRowV {
            ifname: self.ifname@,
            zone: self.zone@,
            wire: self.wire@,
            ospf_cost: self.ospf_cost,
        }
    }
}

/// A port of a bond, on one wire.
#[derive(Debug)]
pub struct LegPort {
    pub ifname: String,
    pub wire: String,
}

pub struct LegPortV {
    pub ifname: Seq<char>,
    pub wire: Seq<char>,
}

impl View for LegPort {
    type V = LegPortV;

    open spec fn view(&self) -> LegPortV {
        LegPortV { ifname: self.ifname@, wire: self.wire@ }
    }
}

/// A zone's universal segment on the member: a bond over every wire.
#[derive(Debug)]
pub struct FallbackRow {
    pub zone: String,
    pub ifname: String,
    pub seg: u8,
    /// The wire that the bond starts on.
    pub home: String,
    pub ospf_cost: u32,
    pub ports: Vec<LegPort>,
}

pub struct FallbackRowV {
    pub zone: Seq<char>,
    pub ifname: Seq<char>,
    pub seg: u8,
    pub home: Seq<char>,
    pub ospf_cost: u32,
    pub ports: Seq<LegPortV>,
}

impl View for FallbackRow {
    type V = FallbackRowV;

    open spec fn view(&self) -> FallbackRowV {
        FallbackRowV {
            zone: self.zone@,
            ifname: self.ifname@,
            seg: self.seg,
            home: self.home@,
            ospf_cost: self.ospf_cost,
            ports: views(self.ports@),
        }
    }
}

/// A zone's ingress leg on the member: a bond where it migrates, a plain sub-interface otherwise.
#[derive(Debug)]
pub struct GwRow {
    pub zone: String,
    pub ifname: String,
    pub home: String,
    /// Empty for a leg that cannot migrate.
    pub ports: Vec<LegPort>,
}

pub struct GwRowV {
    pub zone: Seq<char>,
    pub ifname: Seq<char>,
    pub home: Seq<char>,
    pub ports: Seq<LegPortV>,
}

impl View for GwRow {
    type V = GwRowV;

    open spec fn view(&self) -> GwRowV {
        GwRowV {
            zone: self.zone@,
            ifname: self.ifname@,
            home: self.home@,
            ports: views(self.ports@),
        }
    }
}

impl GwRow {
    /// Can the leg be moved from one wire to another?
    pub fn migrates(&self) -> (r: bool)
        ensures
            r == (self@.ports.len() > 0),
    {
        self.ports.len() > 0
    }
}

/// A list of names that belongs to a zone.
#[derive(Debug)]
pub struct ZoneList {
    pub zone: String,
    pub names: Vec<String>,
}

pub struct ZoneListV {
    pub zone: Seq<char>,
    pub names: Seq<Seq<char>>,
}

impl View for ZoneList {
    type V = ZoneListV;

    open spec fn view(&self) -> ZoneListV {
        ZoneListV { zone: self.zone@, names: texts(self.names@) }
    }
}

/// The ceiling on what a fallback bond's control traffic may send.
#[derive(Debug)]
pub struct Ceiling {
    pub ifname: String,
    pub zone: String,
    pub rate_pps: u32,
    pub burst_pkts: u32,
}

pub struct CeilingV {
    pub ifname: Seq<char>,
    pub zone: Seq<char>,
    pub rate_pps: u32,
    pub burst_pkts: u32,
}

impl View for Ceiling {
    type V = CeilingV;

    open spec fn view(&self) -> CeilingV {
        CeilingV {
            ifname: self.ifname@,
            zone: self.zone@,
            rate_pps: self.rate_pps,
            burst_pkts: self.burst_pkts,
        }
    }
}

/// What one member gets of the fabric.
#[derive(Debug)]
pub struct MemberView<'a> {
    pub fabric: &'a Fabric,
    pub member: &'a Member,
    pub class_rows: Vec<ClassRow>,
    pub fallback_rows: Vec<FallbackRow>,
    pub gw_rows: Vec<GwRow>,
    /// Each zone's wire order on this member, best first.
    pub prefs: Vec<ZoneList>,
    /// The members that carry a fallback row, for each zone.
    pub fallback_members: Vec<ZoneList>,
    /// The interfaces that carry a zone on this member.
    pub zone_ifs: Vec<ZoneList>,
    /// The interfaces that carry the administration of this member.
    pub admin_ifs: Vec<String>,
    /// The interfaces whose forwarding this member owns.
    pub owned_forwarding: Vec<String>,
    /// The workloads that this member has a leg for.
    pub workloads: Vec<Workload>,
    /// The code point of control traffic.
    pub dscp_ctrl: Dscp,
    /// The ceilings on the fallback bonds.
    pub ceilings: Vec<Ceiling>,
}

pub struct MemberViewV {
    pub fabric: FabricV,
    pub member: MemberV,
    pub class_rows: Seq<ClassRowV>,
    pub fallback_rows: Seq<FallbackRowV>,
    pub gw_rows: Seq<GwRowV>,
    pub prefs: Seq<ZoneListV>,
    pub fallback_members: Seq<ZoneListV>,
    pub zone_ifs: Seq<ZoneListV>,
    pub admin_ifs: Seq<Seq<char>>,
    pub owned_forwarding: Seq<Seq<char>>,
    pub workloads: Seq<WorkloadV>,
    pub dscp_ctrl: Dscp,
    pub ceilings: Seq<CeilingV>,
}

impl<'a> View for MemberView<'a> {
    type V = MemberViewV;

    open spec fn view(&self) -> MemberViewV {
        MemberViewV {
            fabric: self.fabric@,
            member: self.member@,
            class_rows: views(self.class_rows@),
            fallback_rows: views(self.fallback_rows@),
            gw_rows: views(self.gw_rows@),
            prefs: views(self.prefs@),
            fallback_members: views(self.fallback_members@),
            zone_ifs: views(self.zone_ifs@),
            admin_ifs: texts(self.admin_ifs@),
            owned_forwarding: texts(self.owned_forwarding@),
            workloads: views(self.workloads@),
            dscp_ctrl: self.dscp_ctrl,
            ceilings: views(self.ceilings@),
        }
    }
}

/// The zone of this name.
pub open spec fn zone_named(v: MemberViewV, name: Seq<char>) -> ZoneV {
    v.fabric.zones[place_of(zone_names(v.fabric.zones), name, 0)]
}

/// The names of a zone from `i` on, and none where the lists have no such zone.
pub open spec fn list_of(lists: Seq<ZoneListV>, zone: Seq<char>, i: int) -> Seq<Seq<char>>
    decreases lists.len() - i,
{
    if i >= lists.len() {
        seq![]
    } else if lists[i].zone == zone {
        lists[i].names
    } else {
        list_of(lists, zone, i + 1)
    }
}

/// The names of a zone, and none where the lists have no such zone.
pub fn names_of(lists: &Vec<ZoneList>, zone: &str) -> (r: Vec<String>)
    ensures
        texts(r@) == list_of(views(lists@), zone@, 0),
{
    let mut i: usize = 0;
    while i < lists.len()
        invariant
            i <= lists@.len(),
            list_of(views(lists@), zone@, 0) == list_of(views(lists@), zone@, i as int),
        decreases lists@.len() - i,
    {
        if str_eq(lists[i].zone.as_str(), zone) {
            return copy_texts(&lists[i].names);
        }
        i = i + 1;
    }
    let r: Vec<String> = Vec::new();
    assert(texts(r@) =~= seq![]);
    r
}

/// A member's identity address in a zone.
pub open spec fn identity_of(zone_id: u8, node: u8) -> Seq<char> {
    block_text(zone_id) + ".0."@ + dec(node as nat)
}

pub fn identity_addr_of(z: &Zone, m: &Member) -> (r: String)
    ensures
        r@ == identity_of(z@.id, m@.node),
{
    cat3(z.block().as_str(), ".0.", dec_u64(m.node as u64).as_str())
}

pub open spec fn link_speed_refusal(member: Seq<char>, dev: Seq<char>) -> Seq<char> {
    "no declared link speed for "@ + member + ":"@ + dev
}

/// The declared speed of a wire, if the member has it.
pub open spec fn declared_speed(m: MemberV, dev: Seq<char>) -> Option<u32> {
    let k = place_of(wire_names(m.wires), dev, 0);
    if k < m.wires.len() {
        Some(m.wires[k].speed_mbps)
    } else {
        None
    }
}

impl<'a> MemberView<'a> {
    pub fn node(&self) -> (r: u8)
        ensures
            r == self@.member.node,
    {
        self.member.node
    }

    pub fn kind(&self) -> (r: MemberKind)
        ensures
            r == self@.member.kind,
    {
        self.member.kind
    }

    /// This member's identity address in a zone.
    pub fn identity_addr(&self, z: &Zone) -> (r: String)
        ensures
            r@ == identity_of(z@.id, self@.member.node),
    {
        identity_addr_of(z, self.member)
    }

    /// The interface that holds the identity address of a zone.
    pub fn identity_if(z: &Zone) -> (r: String)
        ensures
            r@ == identity_ifname(z@.id),
    {
        identity_ifnames(z.id).0
    }

    pub fn is_admin_if(&self, dev: &str) -> (r: bool)
        ensures
            r == self@.admin_ifs.contains(dev@),
    {
        let r = has_text(&self.admin_ifs, self.admin_ifs.len(), dev);
        proof {
            let t = texts(self.admin_ifs@);
            if t.contains(dev@) {
                let j = choose|j: int| 0 <= j < t.len() && t[j] == dev@;
                assert(t[j] == dev@);
            }
        }
        r
    }

    /// The declared speed of one of this member's wires.
    pub fn link_speed(&self, dev: &str) -> (r: Result<u32, Error>)
        ensures
            match declared_speed(self@.member, dev@) {
                Some(n) => r == Ok::<u32, Error>(n),
                None => refuses(r, Some(link_speed_refusal(self@.member.name, dev@))),
            },
    {
        match self.member.wire_named(dev) {
            Some(w) => Ok(w.speed_mbps),
            None => Err(
                Error::config(
                    cat4(
                        "no declared link speed for ",
                        self.member.name.as_str(),
                        ":",
                        dev,
                    ).as_str(),
                ),
            ),
        }
    }
}

} // verus!
