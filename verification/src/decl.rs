//! The declaration, as its file says it: the shape is known, the meaning is not checked yet.

use vstd::prelude::*;

use crate::model::{Dscp, MemberKind};

verus! {

/// RFC 5881's single-hop port.
pub const BFD_PORT: u16 = 3784;

#[derive(Debug, Clone)]
pub struct WireDecl {
    pub nic: String,
    pub domain: String,
    pub speed_mbps: u32,
    /// Retired, and refused by name with the remedy.
    pub driver_features: Option<String>,
    /// Retired, and refused by name with the remedy.
    pub usb: Option<bool>,
}

#[derive(Debug, Clone)]
pub struct MemberWorkloadDecl {
    pub name: String,
    pub address: String,
}

#[derive(Debug, Clone)]
pub struct MemberDecl {
    pub name: String,
    pub node: u8,
    pub kind: MemberKind,
    pub wires: Vec<WireDecl>,
    /// A complete wire order for each zone that has an override.
    pub prefs: Vec<(String, Vec<String>)>,
    pub workloads: Vec<MemberWorkloadDecl>,
}

#[derive(Debug, Clone)]
pub struct SegmentDecl {
    pub ifname: String,
    pub domain: String,
    pub seg: u8,
    pub vid: u16,
}

#[derive(Debug, Clone)]
pub struct UniversalDecl {
    pub ifname: String,
    pub seg: u8,
    pub vid: u16,
}

#[derive(Debug, Clone)]
pub struct GwDecl {
    pub domain: String,
    pub vid: u16,
    /// The router's address with its length, `/24`.
    pub router: String,
}

#[derive(Debug, Clone)]
pub struct ZoneDecl {
    pub name: String,
    pub id: u8,
    pub pcp: u8,
    pub dscp: Dscp,
    pub floor_mbps: u32,
    pub band: u32,
    pub weight: u32,
    pub primary: String,
    pub segments: Vec<SegmentDecl>,
    pub universal: Option<UniversalDecl>,
    pub gw: Option<GwDecl>,
}

#[derive(Debug, Clone)]
pub struct WorkloadDecl {
    pub name: String,
    pub uplink: String,
    pub vid: u16,
    pub prefix: String,
    pub gw: String,
    pub dhcp_server: Option<String>,
    pub allow: Vec<String>,
    /// Retired, and refused by name with the remedy.
    pub span: Option<String>,
    /// Retired, and refused by name with the remedy.
    pub router: Option<String>,
}

#[derive(Debug, Clone)]
pub struct ForwardDecl {
    pub enabled: bool,
    /// Pairs `from>to`.
    pub allow: Vec<String>,
}

#[derive(Debug, Clone)]
pub struct AdminDecl {
    pub floor_mbps: u32,
    pub band: u32,
}

#[derive(Debug, Clone)]
pub struct MarkingDecl {
    pub pcp_ctrl: u8,
    pub set_dscp: bool,
}

#[derive(Debug, Clone)]
pub struct CostDecl {
    pub leaf_offset: u32,
}

#[derive(Debug, Clone)]
pub struct BfdDecl {
    pub rx_ms: u32,
    pub tx_ms: u32,
    pub mult: u32,
    pub port: u16,
}

#[derive(Debug, Clone)]
pub struct OspfDecl {
    pub hello_s: u32,
    pub dead_s: u32,
}

#[derive(Debug, Clone)]
pub struct BgpDecl {
    pub asn: u32,
    pub keepalive_s: u32,
    pub hold_s: u32,
    pub connect_s: u32,
}

#[derive(Debug, Clone)]
pub struct RuntimeDecl {
    pub run_dir: String,
}

/// What the sections that a declaration can leave out hold where it does.
#[derive(Debug, Clone)]
pub struct Defaults {
    pub admin: AdminDecl,
    pub marking: MarkingDecl,
    pub cost: CostDecl,
    pub bfd: BfdDecl,
    pub ospf: OspfDecl,
    pub bgp: BgpDecl,
    pub runtime: RuntimeDecl,
}

#[derive(Debug, Clone)]
pub struct Declaration {
    /// The tokens of the switch domains.
    pub domains: Vec<String>,
    pub members: Vec<MemberDecl>,
    pub zones: Vec<ZoneDecl>,
    pub workload: Vec<WorkloadDecl>,
    pub forward: ForwardDecl,
    pub admin: Option<AdminDecl>,
    pub marking: Option<MarkingDecl>,
    pub cost: Option<CostDecl>,
    pub bfd: Option<BfdDecl>,
    pub ospf: Option<OspfDecl>,
    pub bgp: Option<BgpDecl>,
    pub runtime: Option<RuntimeDecl>,
    pub dns_domain: String,
    /// What stands for the sections that are left out.
    pub defaults: Defaults,
}

/// The declared section, or its default.
pub open spec fn admin_of(d: Declaration) -> AdminDecl {
    match d.admin {
        Some(x) => x,
        None => d.defaults.admin,
    }
}

/// The declared section, or its default.
pub open spec fn marking_of(d: Declaration) -> MarkingDecl {
    match d.marking {
        Some(x) => x,
        None => d.defaults.marking,
    }
}

/// The declared section, or its default.
pub open spec fn cost_of(d: Declaration) -> CostDecl {
    match d.cost {
        Some(x) => x,
        None => d.defaults.cost,
    }
}

/// The declared section, or its default.
pub open spec fn bfd_of(d: Declaration) -> BfdDecl {
    match d.bfd {
        Some(x) => x,
        None => d.defaults.bfd,
    }
}

/// The declared section, or its default.
pub open spec fn ospf_of(d: Declaration) -> OspfDecl {
    match d.ospf {
        Some(x) => x,
        None => d.defaults.ospf,
    }
}

/// The declared section, or its default.
pub open spec fn bgp_of(d: Declaration) -> BgpDecl {
    match d.bgp {
        Some(x) => x,
        None => d.defaults.bgp,
    }
}

/// The declared section, or its default.
pub open spec fn runtime_of(d: Declaration) -> RuntimeDecl {
    match d.runtime {
        Some(x) => x,
        None => d.defaults.runtime,
    }
}

impl Declaration {
    pub fn admin(&self) -> (r: &AdminDecl)
        ensures
            *r == admin_of(*self),
    {
        match &self.admin {
            Some(x) => x,
            None => &self.defaults.admin,
        }
    }

    pub fn marking(&self) -> (r: &MarkingDecl)
        ensures
            *r == marking_of(*self),
    {
        match &self.marking {
            Some(x) => x,
            None => &self.defaults.marking,
        }
    }

    pub fn cost(&self) -> (r: &CostDecl)
        ensures
            *r == cost_of(*self),
    {
        match &self.cost {
            Some(x) => x,
            None => &self.defaults.cost,
        }
    }

    pub fn bfd(&self) -> (r: &BfdDecl)
        ensures
            *r == bfd_of(*self),
    {
        match &self.bfd {
            Some(x) => x,
            None => &self.defaults.bfd,
        }
    }

    pub fn ospf(&self) -> (r: &OspfDecl)
        ensures
            *r == ospf_of(*self),
    {
        match &self.ospf {
            Some(x) => x,
            None => &self.defaults.ospf,
        }
    }

    pub fn bgp(&self) -> (r: &BgpDecl)
        ensures
            *r == bgp_of(*self),
    {
        match &self.bgp {
            Some(x) => x,
            None => &self.defaults.bgp,
        }
    }

    pub fn runtime(&self) -> (r: &RuntimeDecl)
        ensures
            *r == runtime_of(*self),
    {
        match &self.runtime {
            Some(x) => x,
            None => &self.defaults.runtime,
        }
    }
}

} // verus!
