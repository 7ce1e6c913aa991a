//! Finding rows of the fabric by name.

use vstd::prelude::*;

use crate::error::{refuses, Error};
use crate::model::{
    DomainId, Fabric, FabricV, Member, MemberV, Wire, WirePref, WirePrefV, WireV, Workload,
    WorkloadV, Zone, ZoneV, lemma_views_push, views,
};
use crate::text::{cat5, join, join_texts, lemma_texts_push, str_eq, texts};
use crate::textmap::TextMap;

verus! {

/// The first place from `i` on whose text is `name`, or the length.
pub open spec fn place_of(names: Seq<Seq<char>>, name: Seq<char>, i: int) -> int
    decreases names.len() - i,
{
    if i >= names.len() {
        names.len() as int
    } else if names[i] == name {
        i
    } else {
        place_of(names, name, i + 1)
    }
}

/// `place_of` names the first place that holds the text, and there is one exactly where the text
/// occurs.
pub proof fn lemma_place_of(names: Seq<Seq<char>>, name: Seq<char>, i: int)
    requires
        0 <= i <= names.len(),
    ensures
        i <= place_of(names, name, i) <= names.len(),
        place_of(names, name, i) < names.len() ==> names[place_of(names, name, i)] == name,
        forall|j: int| i <= j < place_of(names, name, i) ==> names[j] != name,
    decreases names.len() - i,
{
    if i < names.len() && names[i] != name {
        lemma_place_of(names, name, i + 1);
    }
}

pub open spec fn member_names(m: Seq<MemberV>) -> Seq<Seq<char>> {
    Seq::new(m.len(), |i: int| m[i].name)
}

pub open spec fn zone_names(z: Seq<ZoneV>) -> Seq<Seq<char>> {
    Seq::new(z.len(), |i: int| z[i].name)
}

pub open spec fn workload_names(w: Seq<WorkloadV>) -> Seq<Seq<char>> {
    Seq::new(w.len(), |i: int| w[i].name)
}

pub open spec fn wire_names(w: Seq<WireV>) -> Seq<Seq<char>> {
    Seq::new(w.len(), |i: int| w[i].name)
}

pub open spec fn wire_domains(w: Seq<WireV>) -> Seq<Seq<char>> {
    Seq::new(w.len(), |i: int| w[i].domain)
}

/// Is there a zone of this name?
pub open spec fn has_zone(f: FabricV, name: Seq<char>) -> bool {
    place_of(zone_names(f.zones), name, 0) < f.zones.len()
}

pub open spec fn has_member(f: FabricV, name: Seq<char>) -> bool {
    place_of(member_names(f.members), name, 0) < f.members.len()
}

pub open spec fn unknown_zone(f: FabricV, name: Seq<char>) -> Seq<char> {
    "'"@ + name + "' is not a declared zone (zones: "@ + join(zone_names(f.zones), " "@) + ")"@
}

pub open spec fn unknown_member(f: FabricV, name: Seq<char>) -> Seq<char> {
    "'"@ + name + "' is not a declared member (members: "@ + join(member_names(f.members), " "@)
        + ")"@
}

/// Why there is no zone of this name, where there is none.
pub open spec fn zone_refusal(f: FabricV, name: Seq<char>) -> Option<Seq<char>> {
    if has_zone(f, name) {
        None
    } else {
        Some(unknown_zone(f, name))
    }
}

/// Does the zone have a segment on this domain?
pub open spec fn carried(f: FabricV, zone: Seq<char>, domain: Seq<char>) -> bool {
    exists|i: int|
        0 <= i < f.segments.len() && (#[trigger] f.segments[i]).zone == zone && f.segments[i].scope
            == Some(domain)
}

/// Of the first `n` wires those whose domain has a segment in the zone, in order.
pub open spec fn candidates(f: FabricV, wires: Seq<WireV>, zone: Seq<char>, n: int) -> Seq<WireV>
    decreases n,
{
    if n <= 0 {
        seq![]
    } else if carried(f, zone, wires[n - 1].domain) {
        candidates(f, wires, zone, n - 1).push(wires[n - 1])
    } else {
        candidates(f, wires, zone, n - 1)
    }
}

impl Member {
    /// This member's wire on `domain`, if it has one.
    pub fn wire_on(&self, domain: &DomainId) -> (r: Option<&Wire>)
        ensures
            ({
                let p = place_of(wire_domains(self@.wires), domain@, 0);
                match r {
                    Some(w) => p < self@.wires.len() && w@ == self@.wires[p],
                    None => p == self@.wires.len(),
                }
            }),
    {
        let ghost d = wire_domains(self@.wires);
        let mut i: usize = 0;
        while i < self.wires.len()
            invariant
                i <= self.wires@.len(),
                d == wire_domains(self@.wires),
                place_of(d, domain@, 0) == place_of(d, domain@, i as int),
            decreases self.wires@.len() - i,
        {
            assert(d[i as int] == self.wires@[i as int].domain@);
            if self.wires[i].domain.same(domain) {
                return Some(&self.wires[i]);
            }
            i = i + 1;
        }
        None
    }

    /// This member's wire of this name, if it has one.
    pub fn wire_named(&self, name: &str) -> (r: Option<&Wire>)
        ensures
            ({
                let p = place_of(wire_names(self@.wires), name@, 0);
                match r {
                    Some(w) => p < self@.wires.len() && w@ == self@.wires[p],
                    None => p == self@.wires.len(),
                }
            }),
    {
        let ghost d = wire_names(self@.wires);
        let mut i: usize = 0;
        while i < self.wires.len()
            invariant
                i <= self.wires@.len(),
                d == wire_names(self@.wires),
                place_of(d, name@, 0) == place_of(d, name@, i as int),
            decreases self.wires@.len() - i,
        {
            assert(d[i as int] == self.wires@[i as int].name@);
            if str_eq(self.wires[i].name.as_str(), name) {
                return Some(&self.wires[i]);
            }
            i = i + 1;
        }
        None
    }
}

impl Fabric {
    pub fn member_names(&self) -> (r: Vec<String>)
        ensures
            texts(r@) == member_names(self@.members),
    {
        broadcast use lemma_texts_push;

        let mut out: Vec<String> = Vec::new();
        let mut i: usize = 0;
        while i < self.members.len()
            invariant
                i <= self.members@.len(),
                texts(out@) == member_names(self@.members).take(i as int),
            decreases self.members@.len() - i,
        {
            proof {
                let n = member_names(self@.members);
                assert(n.take(i + 1) =~= n.take(i as int).push(n[i as int]));
            }
            out.push(self.members[i].name.clone());
            i = i + 1;
        }
        out
    }

    pub fn zone_names(&self) -> (r: Vec<String>)
        ensures
            texts(r@) == zone_names(self@.zones),
    {
        broadcast use lemma_texts_push;

        let mut out: Vec<String> = Vec::new();
        let mut i: usize = 0;
        while i < self.zones.len()
            invariant
                i <= self.zones@.len(),
                texts(out@) == zone_names(self@.zones).take(i as int),
            decreases self.zones@.len() - i,
        {
            proof {
                let n = zone_names(self@.zones);
                assert(n.take(i + 1) =~= n.take(i as int).push(n[i as int]));
            }
            out.push(self.zones[i].name.clone());
            i = i + 1;
        }
        out
    }

    pub fn workload_names(&self) -> (r: Vec<String>)
        ensures
            texts(r@) == workload_names(self@.workloads),
    {
        broadcast use lemma_texts_push;

        let mut out: Vec<String> = Vec::new();
        let mut i: usize = 0;
        while i < self.workloads.len()
            invariant
                i <= self.workloads@.len(),
                texts(out@) == workload_names(self@.workloads).take(i as int),
            decreases self.workloads@.len() - i,
        {
            proof {
                let n = workload_names(self@.workloads);
                assert(n.take(i + 1) =~= n.take(i as int).push(n[i as int]));
            }
            out.push(self.workloads[i].name.clone());
            i = i + 1;
        }
        out
    }

    /// The member of this name.
    pub fn member(&self, name: &str) -> (r: Result<&Member, Error>)
        ensures
            refuses(
                r,
                if has_member(self@, name@) {
                    None
                } else {
                    Some(unknown_member(self@, name@))
                },
            ),
            r matches Ok(m) ==> {
                let p = place_of(member_names(self@.members), name@, 0);
                0 <= p < self.members@.len() && *m == self.members@[p]
            },
    {
        let ghost d = member_names(self@.members);
        let mut i: usize = 0;
        while i < self.members.len()
            invariant
                i <= self.members@.len(),
                d == member_names(self@.members),
                place_of(d, name@, 0) == place_of(d, name@, i as int),
            decreases self.members@.len() - i,
        {
            assert(d[i as int] == self.members@[i as int].name@);
            if str_eq(self.members[i].name.as_str(), name) {
                return Ok(&self.members[i]);
            }
            i = i + 1;
        }
        let names = join_texts(&self.member_names(), " ");
        Err(
            Error::Config(
                cat5("'", name, "' is not a declared member (members: ", names.as_str(), ")"),
            ),
        )
    }

    /// The zone of this name.
    pub fn zone(&self, name: &str) -> (r: Result<&Zone, Error>)
        ensures
            refuses(r, zone_refusal(self@, name@)),
            r matches Ok(z) ==> {
                let p = place_of(zone_names(self@.zones), name@, 0);
                0 <= p < self.zones@.len() && *z == self.zones@[p]
            },
    {
        match self.zone_place(name) {
            Some(i) => Ok(&self.zones[i]),
            None => {
                let names = join_texts(&self.zone_names(), " ");
                Err(
                    Error::Config(
                        cat5("'", name, "' is not a declared zone (zones: ", names.as_str(), ")"),
                    ),
                )
            },
        }
    }

    /// Where the zone of this name stands.
    pub fn zone_place(&self, name: &str) -> (r: Option<usize>)
        ensures
            match r {
                Some(i) => i < self.zones@.len() && i as int == place_of(
                    zone_names(self@.zones),
                    name@,
                    0,
                ),
                None => !has_zone(self@, name@),
            },
    {
        let ghost d = zone_names(self@.zones);
        let mut i: usize = 0;
        while i < self.zones.len()
            invariant
                i <= self.zones@.len(),
                d == zone_names(self@.zones),
                place_of(d, name@, 0) == place_of(d, name@, i as int),
            decreases self.zones@.len() - i,
        {
            assert(d[i as int] == self.zones@[i as int].name@);
            if str_eq(self.zones[i].name.as_str(), name) {
                return Some(i);
            }
            i = i + 1;
        }
        None
    }

    /// The workload row of this name, if any.
    pub fn workload(&self, name: &str) -> (r: Option<&Workload>)
        ensures
            ({
                let p = place_of(workload_names(self@.workloads), name@, 0);
                match r {
                    Some(w) => 0 <= p < self.workloads@.len() && *w == self.workloads@[p],
                    None => p == self.workloads@.len(),
                }
            }),
    {
        let ghost d = workload_names(self@.workloads);
        let mut i: usize = 0;
        while i < self.workloads.len()
            invariant
                i <= self.workloads@.len(),
                d == workload_names(self@.workloads),
                place_of(d, name@, 0) == place_of(d, name@, i as int),
            decreases self.workloads@.len() - i,
        {
            assert(d[i as int] == self.workloads@[i as int].name@);
            if str_eq(self.workloads[i].name.as_str(), name) {
                return Some(&self.workloads[i]);
            }
            i = i + 1;
        }
        None
    }

    /// The declared override for one member and zone, if any.
    pub fn wire_pref(&self, member: &str, zone: &str) -> (r: Option<&WirePref>)
        ensures
            match r {
                Some(p) => exists|i: int|
                    0 <= i < self.wire_prefs@.len() && *p == #[trigger] self.wire_prefs@[i]
                        && names_pref(self@.wire_prefs[i], member@, zone@) && forall|j: int|
                        0 <= j < i ==> !#[trigger] names_pref(self@.wire_prefs[j], member@, zone@),
                None => forall|j: int|
                    0 <= j < self@.wire_prefs.len() ==> !#[trigger] names_pref(
                        self@.wire_prefs[j],
                        member@,
                        zone@,
                    ),
            },
    {
        let mut i: usize = 0;
        while i < self.wire_prefs.len()
            invariant
                i <= self.wire_prefs@.len(),
                forall|j: int|
                    0 <= j < i ==> !#[trigger] names_pref(
                        self@.wire_prefs[j],
                        member@,
                        zone@,
                    ),
            decreases self.wire_prefs@.len() - i,
        {
            let p = &self.wire_prefs[i];
            if str_eq(p.member.as_str(), member) && str_eq(p.zone.as_str(), zone) {
                return Some(p);
            }
            i = i + 1;
        }
        None
    }

    /// Does the zone have a segment on this domain?
    pub fn is_carried(&self, zone: &str, domain: &DomainId) -> (r: bool)
        ensures
            r == carried(self@, zone@, domain@),
    {
        let mut i: usize = 0;
        while i < self.segments.len()
            invariant
                i <= self.segments@.len(),
                forall|j: int|
                    0 <= j < i ==> !((#[trigger] self@.segments[j]).zone == zone@
                        && self@.segments[j].scope == Some(domain@)),
            decreases self.segments@.len() - i,
        {
            let s = &self.segments[i];
            assert(s@ == self@.segments[i as int]);
            if str_eq(s.zone.as_str(), zone) && s.scope.is_domain(domain) {
                return true;
            }
            i = i + 1;
        }
        false
    }

    /// The wires of `member` that can carry `zone`: those whose domain has a segment in that
    /// zone, in declaration order. A universal segment is no candidate: it is a bond over every
    /// wire.
    pub fn candidate_wires<'a>(&self, member: &'a Member, zone: &str) -> (r: Vec<&'a Wire>)
        ensures
            views(r@) == candidates(self@, member@.wires, zone@, member@.wires.len() as int),
    {
        broadcast use lemma_views_push;

        let mut out: Vec<&'a Wire> = Vec::new();
        let mut i: usize = 0;
        assert(views(out@) =~= seq![]);
        while i < member.wires.len()
            invariant
                i <= member.wires@.len(),
                views(out@) == candidates(self@, member@.wires, zone@, i as int),
            decreases member.wires@.len() - i,
        {
            let w = &member.wires[i];
            assert(w@ == member@.wires[i as int]);
            if self.is_carried(zone, &w.domain) {
                out.push(w);
            }
            i = i + 1;
        }
        out
    }

    /// The declared domains, on one line.
    pub fn domains_list(&self) -> (r: String)
        ensures
            r@ == join(self@.domains, " "@),
    {
        broadcast use lemma_texts_push;

        let mut out: Vec<String> = Vec::new();
        let mut i: usize = 0;
        while i < self.domains.len()
            invariant
                i <= self.domains@.len(),
                texts(out@) == self@.domains.take(i as int),
            decreases self.domains@.len() - i,
        {
            proof {
                let n = self@.domains;
                assert(n.take(i + 1) =~= n.take(i as int).push(n[i as int]));
            }
            out.push(self.domains[i].as_str().to_owned());
            i = i + 1;
        }
        assert(self@.domains.take(i as int) =~= self@.domains);
        join_texts(&out, " ")
    }
}

pub open spec fn names_pref(p: WirePrefV, member: Seq<char>, zone: Seq<char>) -> bool {
    p.member == member && p.zone == zone
}

/// Where the last of the first `n` members of this name is, or -1.
pub open spec fn last_member(m: Seq<MemberV>, name: Seq<char>, n: int) -> int
    decreases n,
{
    if n <= 0 {
        -1
    } else if m[n - 1].name == name {
        n - 1
    } else {
        last_member(m, name, n - 1)
    }
}

/// Every member's wires, by its name.
pub fn wires_by_member(fabric: &Fabric) -> (r: TextMap<&Vec<Wire>>)
    ensures
        r.wf(),
        forall|name: Seq<char>| #[trigger]
            r.has(name) <==> last_member(
                fabric@.members,
                name,
                fabric.members@.len() as int,
            ) >= 0,
        forall|name: Seq<char>|
            r.has(name) ==> *(#[trigger] r.value_of(name)) == fabric.members@[last_member(
                fabric@.members,
                name,
                fabric.members@.len() as int,
            )].wires,
{
    let mut out: TextMap<&Vec<Wire>> = TextMap::new();
    let ghost m = fabric@.members;
    let mut i: usize = 0;
    while i < fabric.members.len()
        invariant
            i <= fabric.members@.len(),
            m == fabric@.members,
            out.wf(),
            forall|name: Seq<char>| #[trigger]
                out.has(name) <==> last_member(m, name, i as int) >= 0,
            forall|name: Seq<char>|
                out.has(name) ==> *(#[trigger] out.value_of(name)) == fabric.members@[last_member(
                    m,
                    name,
                    i as int,
                )].wires,
        decreases fabric.members@.len() - i,
    {
        let ghost was = out;
        assert(m[i as int] == fabric.members@[i as int]@);
        out.insert(fabric.members[i].name.clone(), &fabric.members[i].wires);
        proof {
            let k = fabric.members@[i as int].name@;
            assert forall|name: Seq<char>| #[trigger]
                out.has(name) <==> last_member(m, name, i + 1) >= 0 by {
                if name != k {
                    assert(out.has(name) == was.has(name));
                }
            }
            assert forall|name: Seq<char>| out.has(name) implies *(#[trigger] out.value_of(name))
                == fabric.members@[last_member(m, name, i + 1)].wires by {
                if name != k {
                    assert(out.has(name) == was.has(name));
                    assert(out.value_of(name) == was.value_of(name));
                }
            }
        }
        i = i + 1;
    }
    out
}

} // verus!
