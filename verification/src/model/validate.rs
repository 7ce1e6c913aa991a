//! The rules a fabric has to meet. Each rule is a refusal: the text of the first fault that it
//! finds, or nothing.

use vstd::prelude::*;

use crate::error::{refuses, Error};
use crate::ipv4::{dotted, quad, Ipv4Addr};
use crate::model::lookup::{
    candidates, carried, has_zone, member_names, place_of, unknown_zone, wire_domains, wire_names,
    workload_names, zone_names, zone_refusal,
};
use crate::model::prefix::{prefix_text, Ipv4Prefix};
use crate::model::{
    bond_ifname_long, bond_ifname_too_long, cidr, gw_ifname, gw_name, identity_ifname,
    identity_ifnames, identity_peer, last_octet, leg_name, scope_text, views, DomainId, Fabric,
    FabricV, Member, MemberKind, MemberV, MemberWorkloadV, SegmentV, WirePrefV, WireV, Workload,
    WorkloadV, ZoneGwV, ZoneV, MIN_WORKLOAD_PREFIX_LEN,
};
use crate::text::{
    cat10, cat2, cat3, cat4, cat5, cat6, cat7, cat8, cat9, dec, dec_u64, dup, first_dup, has_text,
    join, join_texts, lemma_texts_push, str_eq, texts,
};
use crate::textmap::{lemma_text_lt_total, lemma_text_lt_trans, sorts_before, text_lt};

verus! {

/// The first of two refusals.
pub open spec fn first(a: Option<Seq<char>>, b: Option<Seq<char>>) -> Option<Seq<char>> {
    if a is Some {
        a
    } else {
        b
    }
}

// ---- domains ----

pub open spec fn no_domains_refusal(f: FabricV) -> Option<Seq<char>> {
    if f.domains.len() == 0 {
        Some(
            "[domains] is empty (declare one token per physical switch domain, e.g. a = \"the 10G switch\")"@,
        )
    } else {
        None
    }
}

pub open spec fn declared(f: FabricV, d: Seq<char>) -> bool {
    f.domains.contains(d)
}

/// The first wire from `j` on whose domain is not declared.
pub open spec fn undeclared_wire(f: FabricV, m: MemberV, j: int) -> Option<Seq<char>>
    decreases m.wires.len() - j,
{
    if j >= m.wires.len() {
        None
    } else if !declared(f, m.wires[j].domain) {
        Some(
            "member "@ + m.name + ": wire "@ + m.wires[j].name + " on domain "@ + m.wires[j].domain
                + " is not in [domains] ("@ + join(f.domains, " "@) + ")"@,
        )
    } else {
        undeclared_wire(f, m, j + 1)
    }
}

/// The names of those of the first `n` wires that are on the domain `d`.
pub open spec fn names_on(wires: Seq<WireV>, d: Seq<char>, n: int) -> Seq<Seq<char>>
    decreases n,
{
    if n <= 0 {
        seq![]
    } else if wires[n - 1].domain == d {
        names_on(wires, d, n - 1).push(wires[n - 1].name)
    } else {
        names_on(wires, d, n - 1)
    }
}

/// Is there an earlier wire on the domain of wire `j`?
pub open spec fn domain_repeats(wires: Seq<WireV>, j: int) -> bool {
    exists|k: int| 0 <= k < j && (#[trigger] wires[k]).domain == wires[j].domain
}

/// The first wire from `j` on that shares its domain with an earlier one. Refused, since a
/// domain has one segment per zone, addressed `10.<id>.<seg>.<node>/24`.
pub open spec fn shared_domain(m: MemberV, j: int) -> Option<Seq<char>>
    decreases m.wires.len() - j,
{
    if j >= m.wires.len() {
        None
    } else if domain_repeats(m.wires, j) {
        Some(
            "member "@ + m.name + ": two wires on domain "@ + m.wires[j].domain + " ("@ + join(
                names_on(m.wires, m.wires[j].domain, m.wires.len() as int),
                " "@,
            )
                + "). The model cannot express it: a domain has one segment per zone, addressed 10.<id>.<seg>.<node>/24, so two wires in one broadcast domain would hold two addresses of one /24 on one node — ARP-ambiguous. Put the wires in different domains. The other coherent shape is one bond over both NICs declared as a single wire, which cfab does not build yet"@,
        )
    } else {
        shared_domain(m, j + 1)
    }
}

pub open spec fn member_wires_refusal(f: FabricV, m: MemberV) -> Option<Seq<char>> {
    if m.wires.len() == 0 {
        Some(
            "member "@ + m.name
                + ": declares no wires (a member needs at least one wire = { nic, domain, speed_mbps })"@,
        )
    } else {
        first(undeclared_wire(f, m, 0), shared_domain(m, 0))
    }
}

/// The first member from `i` on whose wires are refused.
pub open spec fn wires_refusal(f: FabricV, i: int) -> Option<Seq<char>>
    decreases f.members.len() - i,
{
    if i >= f.members.len() {
        None
    } else {
        first(member_wires_refusal(f, f.members[i]), wires_refusal(f, i + 1))
    }
}

pub open spec fn segment_domain_refusal(f: FabricV, i: int) -> Option<Seq<char>>
    decreases f.segments.len() - i,
{
    if i >= f.segments.len() {
        None
    } else {
        match f.segments[i].scope {
            Some(d) => if !declared(f, d) {
                Some(
                    "segment "@ + f.segments[i].ifname + ": domain "@ + d + " is not in [domains] ("@
                        + join(f.domains, " "@) + ")"@,
                )
            } else {
                segment_domain_refusal(f, i + 1)
            },
            None => segment_domain_refusal(f, i + 1),
        }
    }
}

pub open spec fn one_zone_domains(f: FabricV, z: ZoneV) -> Option<Seq<char>> {
    if !declared(f, z.primary) {
        Some(
            "zone "@ + z.name + ": primary domain "@ + z.primary + " is not in [domains] ("@ + join(
                f.domains,
                " "@,
            ) + ")"@,
        )
    } else {
        match z.gw {
            Some(g) => match g.scope {
                Some(d) => if !declared(f, d) {
                    Some(
                        "zone "@ + z.name + ": gw domain "@ + d + " is not in [domains] ("@ + join(
                            f.domains,
                            " "@,
                        ) + ")"@,
                    )
                } else {
                    None
                },
                None => None,
            },
            None => None,
        }
    }
}

pub open spec fn zone_domain_refusal(f: FabricV, i: int) -> Option<Seq<char>>
    decreases f.zones.len() - i,
{
    if i >= f.zones.len() {
        None
    } else {
        first(one_zone_domains(f, f.zones[i]), zone_domain_refusal(f, i + 1))
    }
}

/// Does this member have a wire on the domain?
pub open spec fn on_domain(m: MemberV, d: Seq<char>) -> bool {
    place_of(wire_domains(m.wires), d, 0) < m.wires.len()
}

pub open spec fn wired(f: FabricV, d: Seq<char>) -> bool {
    exists|i: int| 0 <= i < f.members.len() && on_domain(#[trigger] f.members[i], d)
}

/// The first declared domain from `i` on that no member has a wire on.
pub open spec fn unwired_domain(f: FabricV, i: int) -> Option<Seq<char>>
    decreases f.domains.len() - i,
{
    if i >= f.domains.len() {
        None
    } else if !wired(f, f.domains[i]) {
        Some(
            "[domains] declares "@ + f.domains[i]
                + " but no member has a wire on it (drop the token, or give a member a wire on domain "@
                + f.domains[i] + ")"@,
        )
    } else {
        unwired_domain(f, i + 1)
    }
}

impl Fabric {
    fn is_declared(&self, d: &DomainId) -> (r: bool)
        ensures
            r == declared(self@, d@),
    {
        let mut i: usize = 0;
        while i < self.domains.len()
            invariant
                i <= self.domains@.len(),
                forall|j: int| 0 <= j < i ==> #[trigger] self@.domains[j] != d@,
            decreases self.domains@.len() - i,
        {
            if self.domains[i].same(d) {
                assert(self@.domains[i as int] == d@);
                return true;
            }
            i = i + 1;
        }
        false
    }

    fn check_undeclared_wire(&self, m: &Member) -> (r: Result<(), Error>)
        ensures
            refuses(r, undeclared_wire(self@, m@, 0)),
    {
        let mut j: usize = 0;
        while j < m.wires.len()
            invariant
                j <= m.wires@.len(),
                undeclared_wire(self@, m@, 0) == undeclared_wire(self@, m@, j as int),
            decreases m.wires@.len() - j,
        {
            let w = &m.wires[j];
            assert(w@ == m@.wires[j as int]);
            if !self.is_declared(&w.domain) {
                let list = self.domains_list();
                return Err(
                    Error::Config(
                        cat9(
                            "member ",
                            m.name.as_str(),
                            ": wire ",
                            w.name.as_str(),
                            " on domain ",
                            w.domain.as_str(),
                            " is not in [domains] (",
                            list.as_str(),
                            ")",
                        ),
                    ),
                );
            }
            j = j + 1;
        }
        Ok(())
    }

    fn names_of_wires_on(m: &Member, d: &DomainId) -> (r: Vec<String>)
        ensures
            texts(r@) == names_on(m@.wires, d@, m@.wires.len() as int),
    {
        broadcast use lemma_texts_push;

        let mut out: Vec<String> = Vec::new();
        let mut j: usize = 0;
        assert(texts(out@) =~= seq![]);
        while j < m.wires.len()
            invariant
                j <= m.wires@.len(),
                texts(out@) == names_on(m@.wires, d@, j as int),
            decreases m.wires@.len() - j,
        {
            let w = &m.wires[j];
            assert(w@ == m@.wires[j as int]);
            if w.domain.same(d) {
                out.push(w.name.clone());
            }
            j = j + 1;
        }
        out
    }

    fn shares_domain(m: &Member, j: usize) -> (r: bool)
        requires
            j < m.wires@.len(),
        ensures
            r == domain_repeats(m@.wires, j as int),
    {
        let mut k: usize = 0;
        while k < j
            invariant
                k <= j < m.wires@.len(),
                forall|l: int|
                    0 <= l < k ==> (#[trigger] m@.wires[l]).domain != m@.wires[j as int].domain,
            decreases j - k,
        {
            if m.wires[k].domain.same(&m.wires[j].domain) {
                assert(m@.wires[k as int].domain == m@.wires[j as int].domain);
                return true;
            }
            k = k + 1;
        }
        false
    }

    fn check_shared_domain(m: &Member) -> (r: Result<(), Error>)
        ensures
            refuses(r, shared_domain(m@, 0)),
    {
        let mut j: usize = 0;
        while j < m.wires.len()
            invariant
                j <= m.wires@.len(),
                shared_domain(m@, 0) == shared_domain(m@, j as int),
            decreases m.wires@.len() - j,
        {
            if Self::shares_domain(m, j) {
                let w = &m.wires[j];
                let names = join_texts(&Self::names_of_wires_on(m, &w.domain), " ");
                return Err(
                    Error::Config(
                        cat7(
                            "member ",
                            m.name.as_str(),
                            ": two wires on domain ",
                            w.domain.as_str(),
                            " (",
                            names.as_str(),
                            "). The model cannot express it: a domain has one segment per zone, addressed 10.<id>.<seg>.<node>/24, so two wires in one broadcast domain would hold two addresses of one /24 on one node — ARP-ambiguous. Put the wires in different domains. The other coherent shape is one bond over both NICs declared as a single wire, which cfab does not build yet",
                        ),
                    ),
                );
            }
            j = j + 1;
        }
        Ok(())
    }

    fn check_member_wires(&self, m: &Member) -> (r: Result<(), Error>)
        ensures
            refuses(r, member_wires_refusal(self@, m@)),
    {
        if m.wires.len() == 0 {
            return Err(
                Error::Config(
                    cat3(
                        "member ",
                        m.name.as_str(),
                        ": declares no wires (a member needs at least one wire = { nic, domain, speed_mbps })",
                    ),
                ),
            );
        }
        match self.check_undeclared_wire(m) {
            Ok(()) => Self::check_shared_domain(m),
            Err(e) => Err(e),
        }
    }

    fn check_wires(&self) -> (r: Result<(), Error>)
        ensures
            refuses(r, wires_refusal(self@, 0)),
    {
        let mut i: usize = 0;
        while i < self.members.len()
            invariant
                i <= self.members@.len(),
                wires_refusal(self@, 0) == wires_refusal(self@, i as int),
            decreases self.members@.len() - i,
        {
            assert(self.members@[i as int]@ == self@.members[i as int]);
            match self.check_member_wires(&self.members[i]) {
                Ok(()) => {},
                Err(e) => {
                    return Err(e);
                },
            }
            i = i + 1;
        }
        Ok(())
    }

    fn check_segment_domains(&self) -> (r: Result<(), Error>)
        ensures
            refuses(r, segment_domain_refusal(self@, 0)),
    {
        let mut i: usize = 0;
        while i < self.segments.len()
            invariant
                i <= self.segments@.len(),
                segment_domain_refusal(self@, 0) == segment_domain_refusal(self@, i as int),
            decreases self.segments@.len() - i,
        {
            let s = &self.segments[i];
            assert(s@ == self@.segments[i as int]);
            if let Some(d) = s.scope.domain() {
                if !self.is_declared(d) {
                    let list = self.domains_list();
                    return Err(
                        Error::Config(
                            cat7(
                                "segment ",
                                s.ifname.as_str(),
                                ": domain ",
                                d.as_str(),
                                " is not in [domains] (",
                                list.as_str(),
                                ")",
                            ),
                        ),
                    );
                }
            }
            i = i + 1;
        }
        Ok(())
    }

    fn check_zone_domains(&self) -> (r: Result<(), Error>)
        ensures
            refuses(r, zone_domain_refusal(self@, 0)),
    {
        let mut i: usize = 0;
        while i < self.zones.len()
            invariant
                i <= self.zones@.len(),
                zone_domain_refusal(self@, 0) == zone_domain_refusal(self@, i as int),
            decreases self.zones@.len() - i,
        {
            let z = &self.zones[i];
            assert(z@ == self@.zones[i as int]);
            if !self.is_declared(&z.primary) {
                let list = self.domains_list();
                return Err(
                    Error::Config(
                        cat7(
                            "zone ",
                            z.name.as_str(),
                            ": primary domain ",
                            z.primary.as_str(),
                            " is not in [domains] (",
                            list.as_str(),
                            ")",
                        ),
                    ),
                );
            }
            if let Some(g) = &z.gw {
                if let Some(d) = g.scope.domain() {
                    if !self.is_declared(d) {
                        let list = self.domains_list();
                        return Err(
                            Error::Config(
                                cat7(
                                    "zone ",
                                    z.name.as_str(),
                                    ": gw domain ",
                                    d.as_str(),
                                    " is not in [domains] (",
                                    list.as_str(),
                                    ")",
                                ),
                            ),
                        );
                    }
                }
            }
            i = i + 1;
        }
        Ok(())
    }

    fn is_wired(&self, d: &DomainId) -> (r: bool)
        ensures
            r == wired(self@, d@),
    {
        let mut i: usize = 0;
        while i < self.members.len()
            invariant
                i <= self.members@.len(),
                forall|j: int| 0 <= j < i ==> !on_domain(#[trigger] self@.members[j], d@),
            decreases self.members@.len() - i,
        {
            assert(self.members@[i as int]@ == self@.members[i as int]);
            if self.members[i].wire_on(d).is_some() {
                assert(on_domain(self@.members[i as int], d@));
                return true;
            }
            i = i + 1;
        }
        false
    }

    fn check_unwired_domains(&self) -> (r: Result<(), Error>)
        ensures
            refuses(r, unwired_domain(self@, 0)),
    {
        let mut i: usize = 0;
        while i < self.domains.len()
            invariant
                i <= self.domains@.len(),
                unwired_domain(self@, 0) == unwired_domain(self@, i as int),
            decreases self.domains@.len() - i,
        {
            let d = &self.domains[i];
            assert(d@ == self@.domains[i as int]);
            if !self.is_wired(d) {
                return Err(
                    Error::Config(
                        cat5(
                            "[domains] declares ",
                            d.as_str(),
                            " but no member has a wire on it (drop the token, or give a member a wire on domain ",
                            d.as_str(),
                            ")",
                        ),
                    ),
                );
            }
            i = i + 1;
        }
        Ok(())
    }
}

// ---- segments ----

pub open spec fn vids(s: Seq<SegmentV>) -> Seq<Seq<char>> {
    Seq::new(s.len(), |i: int| dec(s[i].vid as nat))
}

pub open spec fn zone_segs(s: Seq<SegmentV>) -> Seq<Seq<char>> {
    Seq::new(s.len(), |i: int| s[i].zone + ":"@ + dec(s[i].seg as nat))
}

pub open spec fn zone_scopes(s: Seq<SegmentV>) -> Seq<Seq<char>> {
    Seq::new(s.len(), |i: int| s[i].zone + ":"@ + scope_text(s[i].scope))
}

pub open spec fn segment_ifnames(s: Seq<SegmentV>) -> Seq<Seq<char>> {
    Seq::new(s.len(), |i: int| s[i].ifname)
}

/// The first repeated item, between two texts.
pub open spec fn dup_refusal(
    items: Seq<Seq<char>>,
    before: Seq<char>,
    after: Seq<char>,
) -> Option<Seq<char>> {
    match dup(items) {
        Some(d) => Some(before + d + after),
        None => None,
    }
}

pub open spec fn segment_refusal(f: FabricV) -> Option<Seq<char>> {
    let s = f.segments;
    first(
        dup_refusal(vids(s), "vid "@, " used by two segments (one VLAN id per segment)"@),
        first(
            dup_refusal(zone_segs(s), "segment "@, " declared twice"@),
            first(
                dup_refusal(
                    zone_scopes(s),
                    "zone:domain "@,
                    " declared twice (a zone has one segment per domain, and one universal segment)"@,
                ),
                dup_refusal(segment_ifnames(s), "segment ifname "@, " declared twice"@),
            ),
        ),
    )
}

/// The first segment from `i` on that names no declared zone.
pub open spec fn segment_zone_refusal(f: FabricV, i: int) -> Option<Seq<char>>
    decreases f.segments.len() - i,
{
    if i >= f.segments.len() {
        None
    } else {
        first(zone_refusal(f, f.segments[i].zone), segment_zone_refusal(f, i + 1))
    }
}

/// The first universal segment from `i` on whose name leaves no room for its ports' names.
pub open spec fn universal_name_refusal(f: FabricV, i: int) -> Option<Seq<char>>
    decreases f.segments.len() - i,
{
    if i >= f.segments.len() {
        None
    } else if f.segments[i].scope is None && bond_ifname_long(f.segments[i].ifname) {
        Some(
            "zone "@ + f.segments[i].ifname
                + ": the universal leg's ifname must be 13 characters or fewer (ports are named <ifname>-<domain>, IFNAMSIZ 15)"@,
        )
    } else {
        universal_name_refusal(f, i + 1)
    }
}

fn refuse_dup(items: &Vec<String>, before: &str, after: &str) -> (r: Result<(), Error>)
    ensures
        refuses(r, dup_refusal(texts(items@), before@, after@)),
{
    match first_dup(items) {
        Some(d) => Err(Error::Config(cat3(before, d.as_str(), after))),
        None => Ok(()),
    }
}

impl Fabric {
    fn check_segments(&self) -> (r: Result<(), Error>)
        ensures
            refuses(r, segment_refusal(self@)),
    {
        broadcast use lemma_texts_push;

        let ghost s = self@.segments;
        let mut vid: Vec<String> = Vec::new();
        let mut seg: Vec<String> = Vec::new();
        let mut scope: Vec<String> = Vec::new();
        let mut ifname: Vec<String> = Vec::new();
        let mut i: usize = 0;
        while i < self.segments.len()
            invariant
                i <= self.segments@.len(),
                s == self@.segments,
                texts(vid@) == vids(s).take(i as int),
                texts(seg@) == zone_segs(s).take(i as int),
                texts(scope@) == zone_scopes(s).take(i as int),
                texts(ifname@) == segment_ifnames(s).take(i as int),
            decreases self.segments@.len() - i,
        {
            let r = &self.segments[i];
            assert(r@ == s[i as int]);
            proof {
                let k = i as int;
                assert(vids(s).take(k + 1) =~= vids(s).take(k).push(vids(s)[k]));
                assert(zone_segs(s).take(k + 1) =~= zone_segs(s).take(k).push(zone_segs(s)[k]));
                assert(zone_scopes(s).take(k + 1) =~= zone_scopes(s).take(k).push(
                    zone_scopes(s)[k],
                ));
                assert(segment_ifnames(s).take(k + 1) =~= segment_ifnames(s).take(k).push(
                    segment_ifnames(s)[k],
                ));
            }
            vid.push(dec_u64(r.vid as u64));
            seg.push(cat3(r.zone.as_str(), ":", dec_u64(r.seg as u64).as_str()));
            scope.push(cat3(r.zone.as_str(), ":", r.scope.to_string().as_str()));
            ifname.push(r.ifname.clone());
            i = i + 1;
        }
        proof {
            let k = s.len() as int;
            assert(vids(s).take(k) =~= vids(s));
            assert(zone_segs(s).take(k) =~= zone_segs(s));
            assert(zone_scopes(s).take(k) =~= zone_scopes(s));
            assert(segment_ifnames(s).take(k) =~= segment_ifnames(s));
        }
        match refuse_dup(&vid, "vid ", " used by two segments (one VLAN id per segment)") {
            Ok(()) => {},
            Err(e) => {
                return Err(e);
            },
        }
        match refuse_dup(&seg, "segment ", " declared twice") {
            Ok(()) => {},
            Err(e) => {
                return Err(e);
            },
        }
        match refuse_dup(
            &scope,
            "zone:domain ",
            " declared twice (a zone has one segment per domain, and one universal segment)",
        ) {
            Ok(()) => {},
            Err(e) => {
                return Err(e);
            },
        }
        refuse_dup(&ifname, "segment ifname ", " declared twice")
    }

    fn check_segment_zones(&self) -> (r: Result<(), Error>)
        ensures
            refuses(r, segment_zone_refusal(self@, 0)),
    {
        let mut i: usize = 0;
        while i < self.segments.len()
            invariant
                i <= self.segments@.len(),
                segment_zone_refusal(self@, 0) == segment_zone_refusal(self@, i as int),
            decreases self.segments@.len() - i,
        {
            assert(self.segments@[i as int]@ == self@.segments[i as int]);
            match self.zone(self.segments[i].zone.as_str()) {
                Ok(_) => {},
                Err(e) => {
                    return Err(e);
                },
            }
            i = i + 1;
        }
        Ok(())
    }

    fn check_universal_names(&self) -> (r: Result<(), Error>)
        ensures
            refuses(r, universal_name_refusal(self@, 0)),
    {
        let mut i: usize = 0;
        while i < self.segments.len()
            invariant
                i <= self.segments@.len(),
                universal_name_refusal(self@, 0) == universal_name_refusal(self@, i as int),
            decreases self.segments@.len() - i,
        {
            let s = &self.segments[i];
            assert(s@ == self@.segments[i as int]);
            if s.scope.is_universal() && bond_ifname_too_long(s.ifname.as_str()) {
                return Err(
                    Error::Config(
                        cat3(
                            "zone ",
                            s.ifname.as_str(),
                            ": the universal leg's ifname must be 13 characters or fewer (ports are named <ifname>-<domain>, IFNAMSIZ 15)",
                        ),
                    ),
                );
            }
            i = i + 1;
        }
        Ok(())
    }
}

// ---- zones and members ----

pub open spec fn zone_ids(z: Seq<ZoneV>) -> Seq<Seq<char>> {
    Seq::new(z.len(), |i: int| dec(z[i].id as nat))
}

pub open spec fn nodes(m: Seq<MemberV>) -> Seq<Seq<char>> {
    Seq::new(m.len(), |i: int| dec(m[i].node as nat))
}

/// The first zone from `i` on whose number is no block octet, or whose primary domain has no
/// segment in it.
pub open spec fn zone_primary_refusal(f: FabricV, i: int) -> Option<Seq<char>>
    decreases f.zones.len() - i,
{
    if i >= f.zones.len() {
        None
    } else if f.zones[i].id < 1 {
        Some("zone id "@ + dec(f.zones[i].id as nat) + " is not a valid block octet (1-254)"@)
    } else if !carried(f, f.zones[i].name, f.zones[i].primary) {
        Some(
            "zone "@ + f.zones[i].name + ": primary domain "@ + f.zones[i].primary
                + " has no segment (the zone's rank-0 wire is the wire on its primary domain)"@,
        )
    } else {
        zone_primary_refusal(f, i + 1)
    }
}

pub open spec fn member_refusal(f: FabricV) -> Option<Seq<char>> {
    first(
        dup_refusal(member_names(f.members), "member "@, " declared twice"@),
        dup_refusal(nodes(f.members), "node id "@, " used twice"@),
    )
}

impl Fabric {
    fn check_zone_ids(&self) -> (r: Result<(), Error>)
        ensures
            refuses(r, dup_refusal(zone_ids(self@.zones), "zone id "@, " used twice"@)),
    {
        broadcast use lemma_texts_push;

        let ghost z = self@.zones;
        let mut ids: Vec<String> = Vec::new();
        let mut i: usize = 0;
        while i < self.zones.len()
            invariant
                i <= self.zones@.len(),
                z == self@.zones,
                texts(ids@) == zone_ids(z).take(i as int),
            decreases self.zones@.len() - i,
        {
            assert(zone_ids(z).take(i + 1) =~= zone_ids(z).take(i as int).push(
                zone_ids(z)[i as int],
            ));
            ids.push(dec_u64(self.zones[i].id as u64));
            i = i + 1;
        }
        assert(zone_ids(z).take(z.len() as int) =~= zone_ids(z));
        refuse_dup(&ids, "zone id ", " used twice")
    }

    fn check_zone_primaries(&self) -> (r: Result<(), Error>)
        ensures
            refuses(r, zone_primary_refusal(self@, 0)),
    {
        let mut i: usize = 0;
        while i < self.zones.len()
            invariant
                i <= self.zones@.len(),
                zone_primary_refusal(self@, 0) == zone_primary_refusal(self@, i as int),
            decreases self.zones@.len() - i,
        {
            let z = &self.zones[i];
            assert(z@ == self@.zones[i as int]);
            if z.id < 1 {
                return Err(
                    Error::Config(
                        cat3(
                            "zone id ",
                            dec_u64(z.id as u64).as_str(),
                            " is not a valid block octet (1-254)",
                        ),
                    ),
                );
            }
            if !self.is_carried(z.name.as_str(), &z.primary) {
                return Err(
                    Error::Config(
                        cat5(
                            "zone ",
                            z.name.as_str(),
                            ": primary domain ",
                            z.primary.as_str(),
                            " has no segment (the zone's rank-0 wire is the wire on its primary domain)",
                        ),
                    ),
                );
            }
            i = i + 1;
        }
        Ok(())
    }

    fn check_members(&self) -> (r: Result<(), Error>)
        ensures
            refuses(r, member_refusal(self@)),
    {
        broadcast use lemma_texts_push;

        match refuse_dup(&self.member_names(), "member ", " declared twice") {
            Ok(()) => {},
            Err(e) => {
                return Err(e);
            },
        }
        let ghost m = self@.members;
        let mut ids: Vec<String> = Vec::new();
        let mut i: usize = 0;
        while i < self.members.len()
            invariant
                i <= self.members@.len(),
                m == self@.members,
                texts(ids@) == nodes(m).take(i as int),
            decreases self.members@.len() - i,
        {
            assert(nodes(m).take(i + 1) =~= nodes(m).take(i as int).push(nodes(m)[i as int]));
            ids.push(dec_u64(self.members[i].node as u64));
            i = i + 1;
        }
        assert(nodes(m).take(m.len() as int) =~= nodes(m));
        refuse_dup(&ids, "node id ", " used twice")
    }
}

// ---- wire preference overrides ----

/// `s` with `x` in its place from `i` on, unless it is there already.
pub open spec fn insert_from(s: Seq<Seq<char>>, x: Seq<char>, i: int) -> Seq<Seq<char>>
    decreases s.len() - i,
{
    if i >= s.len() {
        s.push(x)
    } else if s[i] == x {
        s
    } else if text_lt(x, s[i]) {
        s.insert(i, x)
    } else {
        insert_from(s, x, i + 1)
    }
}

/// The first `n` names, each once and in order.
pub open spec fn sorted_set(names: Seq<Seq<char>>, n: int) -> Seq<Seq<char>>
    decreases n,
{
    if n <= 0 {
        seq![]
    } else {
        insert_from(sorted_set(names, n - 1), names[n - 1], 0)
    }
}

pub open spec fn increasing(s: Seq<Seq<char>>) -> bool {
    forall|i: int, j: int| 0 <= i < j < s.len() ==> text_lt(#[trigger] s[i], #[trigger] s[j])
}

proof fn lemma_insert_from(s: Seq<Seq<char>>, x: Seq<char>, i: int)
    requires
        0 <= i <= s.len(),
        increasing(s),
        forall|j: int| 0 <= j < i ==> text_lt(#[trigger] s[j], x),
    ensures
        increasing(insert_from(s, x, i)),
        forall|y: Seq<char>| #[trigger] insert_from(s, x, i).contains(y) <==> y == x || s.contains(y),
    decreases s.len() - i,
{
    let r = insert_from(s, x, i);
    if i >= s.len() {
        assert(r == s.push(x));
        assert forall|y: Seq<char>| #[trigger] r.contains(y) <==> y == x || s.contains(y) by {
            if y == x {
                assert(r[s.len() as int] == x);
            } else if s.contains(y) {
                let k = choose|k: int| 0 <= k < s.len() && s[k] == y;
                assert(r[k] == y);
            }
        }
    } else if s[i] == x {
    } else if text_lt(x, s[i]) {
        assert forall|a: int, b: int| 0 <= a < b < r.len() implies text_lt(
            #[trigger] r[a],
            #[trigger] r[b],
        ) by {
            if a == i {
                if b - 1 > i {
                    lemma_text_lt_trans(x, s[i], s[b - 1]);
                }
            }
        }
        assert forall|y: Seq<char>| #[trigger] r.contains(y) <==> y == x || s.contains(y) by {
            if y == x {
                assert(r[i] == x);
            } else if s.contains(y) {
                let k = choose|k: int| 0 <= k < s.len() && s[k] == y;
                let k2 = if k < i {
                    k
                } else {
                    k + 1
                };
                assert(r[k2] == y);
            }
            if r.contains(y) && y != x {
                let k = choose|k: int| 0 <= k < r.len() && r[k] == y;
                let k2 = if k < i {
                    k
                } else {
                    k - 1
                };
                assert(s[k2] == y);
            }
        }
    } else {
        lemma_text_lt_total(x, s[i]);
        lemma_insert_from(s, x, i + 1);
    }
}

/// A sorted set is in order, without repeats, and holds exactly the names it was made from.
pub proof fn lemma_sorted_set(names: Seq<Seq<char>>, n: int)
    requires
        0 <= n <= names.len(),
    ensures
        increasing(sorted_set(names, n)),
        forall|y: Seq<char>|
            #[trigger] sorted_set(names, n).contains(y) <==> names.take(n).contains(y),
    decreases n,
{
    if n > 0 {
        lemma_sorted_set(names, n - 1);
        lemma_insert_from(sorted_set(names, n - 1), names[n - 1], 0);
        assert forall|y: Seq<char>|
            #[trigger] sorted_set(names, n).contains(y) <==> names.take(n).contains(y) by {
            if names.take(n - 1).contains(y) {
                let t = names.take(n - 1);
                let k = choose|k: int| 0 <= k < t.len() && t[k] == y;
                assert(names.take(n)[k] == y);
            }
            if y == names[n - 1] {
                assert(names.take(n)[n - 1] == y);
            }
            if names.take(n).contains(y) && y != names[n - 1] {
                let t = names.take(n);
                let k = choose|k: int| 0 <= k < t.len() && t[k] == y;
                assert(names.take(n - 1)[k] == y);
            }
        }
    }
}

/// The same texts, whatever their order.
pub open spec fn same_texts(a: Seq<Seq<char>>, b: Seq<Seq<char>>) -> bool {
    &&& forall|i: int| 0 <= i < a.len() ==> b.contains(#[trigger] a[i])
    &&& forall|i: int| 0 <= i < b.len() ==> a.contains(#[trigger] b[i])
}

pub open spec fn pref_at(p: WirePrefV) -> Seq<char> {
    "member "@ + p.member + " prefs "@ + p.zone + ": "@
}

/// The first wire from `j` on in the order that the member does not have.
pub open spec fn unknown_pref_wire(m: MemberV, p: WirePrefV, j: int) -> Option<Seq<char>>
    decreases p.order.len() - j,
{
    if j >= p.order.len() {
        None
    } else if place_of(wire_names(m.wires), p.order[j], 0) == m.wires.len() {
        Some(pref_at(p) + "'"@ + p.order[j] + "' is not one of "@ + p.member + "'s wires"@)
    } else {
        unknown_pref_wire(m, p, j + 1)
    }
}

/// The names of the wires that the override has to list.
pub open spec fn wanted_wires(f: FabricV, m: MemberV, zone: Seq<char>) -> Seq<Seq<char>> {
    wire_names(candidates(f, m.wires, zone, m.wires.len() as int))
}

/// An override is the complete order: every candidate wire exactly once.
pub open spec fn pref_order_refusal(f: FabricV, m: MemberV, p: WirePrefV) -> Option<Seq<char>> {
    let want = wanted_wires(f, m, p.zone);
    if dup(p.order) is Some {
        Some(pref_at(p) + "a wire is listed twice"@)
    } else if !same_texts(p.order, want) {
        Some(
            pref_at(p)
                + "an override is the COMPLETE order, never blended with the derived one — list exactly ["@
                + join(sorted_set(want, want.len() as int), " "@) + "], got ["@ + join(p.order, " "@)
                + "]"@,
        )
    } else {
        None
    }
}

pub open spec fn one_pref_refusal(f: FabricV, p: WirePrefV) -> Option<Seq<char>> {
    let m = f.members[place_of(member_names(f.members), p.member, 0)];
    if !has_zone(f, p.zone) {
        Some(pref_at(p) + unknown_zone(f, p.zone))
    } else {
        first(unknown_pref_wire(m, p, 0), pref_order_refusal(f, m, p))
    }
}

pub open spec fn prefs_refusal(f: FabricV, i: int) -> Option<Seq<char>>
    decreases f.wire_prefs.len() - i,
{
    if i >= f.wire_prefs.len() {
        None
    } else {
        first(one_pref_refusal(f, f.wire_prefs[i]), prefs_refusal(f, i + 1))
    }
}

/// Every override belongs to a declared member.
pub open spec fn prefs_have_members(f: FabricV) -> bool {
    forall|i: int|
        0 <= i < f.wire_prefs.len() ==> crate::model::lookup::has_member(
            f,
            (#[trigger] f.wire_prefs[i]).member,
        )
}

fn insert_name(s: &mut Vec<String>, x: String)
    ensures
        texts(final(s)@) == insert_from(texts(old(s)@), x@, 0),
{
    let ghost before = texts(s@);
    let mut i: usize = 0;
    while i < s.len()
        invariant
            i <= s@.len(),
            before == texts(old(s)@),
            texts(s@) == before,
            insert_from(before, x@, 0) == insert_from(before, x@, i as int),
        decreases s@.len() - i,
    {
        if str_eq(s[i].as_str(), x.as_str()) {
            return;
        }
        if sorts_before(x.as_str(), s[i].as_str()) {
            let ghost t = x@;
            s.insert(i, x);
            assert(texts(s@) =~= before.insert(i as int, t));
            return;
        }
        i = i + 1;
    }
    proof {
        lemma_texts_push(s@, x);
    }
    s.push(x);
}

pub fn sorted_names(names: &Vec<String>) -> (r: Vec<String>)
    ensures
        texts(r@) == sorted_set(texts(names@), names@.len() as int),
{
    let mut out: Vec<String> = Vec::new();
    let mut i: usize = 0;
    assert(texts(out@) =~= seq![]);
    while i < names.len()
        invariant
            i <= names@.len(),
            texts(out@) == sorted_set(texts(names@), i as int),
        decreases names@.len() - i,
    {
        insert_name(&mut out, names[i].clone());
        i = i + 1;
    }
    out
}

fn all_in(a: &Vec<String>, b: &Vec<String>) -> (r: bool)
    ensures
        r == forall|i: int| 0 <= i < a@.len() ==> texts(b@).contains(#[trigger] texts(a@)[i]),
{
    let mut i: usize = 0;
    while i < a.len()
        invariant
            i <= a@.len(),
            forall|j: int| 0 <= j < i ==> texts(b@).contains(#[trigger] texts(a@)[j]),
        decreases a@.len() - i,
    {
        if !has_text(b, b.len(), a[i].as_str()) {
            proof {
                assert(texts(a@)[i as int] == a@[i as int]@);
                assert(!texts(b@).contains(texts(a@)[i as int]));
            }
            return false;
        }
        proof {
            let j = choose|j: int| 0 <= j < b@.len() && #[trigger] texts(b@)[j] == a@[i as int]@;
            assert(texts(b@)[j] == texts(a@)[i as int]);
        }
        i = i + 1;
    }
    true
}

impl Fabric {
    fn check_pref_wires(m: &Member, p: &crate::model::WirePref) -> (r: Result<(), Error>)
        ensures
            refuses(r, unknown_pref_wire(m@, p@, 0)),
    {
        let mut j: usize = 0;
        while j < p.order.len()
            invariant
                j <= p.order@.len(),
                unknown_pref_wire(m@, p@, 0) == unknown_pref_wire(m@, p@, j as int),
            decreases p.order@.len() - j,
        {
            assert(p@.order[j as int] == p.order@[j as int]@);
            proof {
                crate::model::lookup::lemma_place_of(wire_names(m@.wires), p@.order[j as int], 0);
            }
            if m.wire_named(p.order[j].as_str()).is_none() {
                return Err(
                    Error::Config(
                        cat10(
                            "member ",
                            p.member.as_str(),
                            " prefs ",
                            p.zone.as_str(),
                            ": ",
                            "'",
                            p.order[j].as_str(),
                            "' is not one of ",
                            p.member.as_str(),
                            "'s wires",
                        ),
                    ),
                );
            }
            j = j + 1;
        }
        Ok(())
    }

    fn wanted(&self, m: &Member, zone: &str) -> (r: Vec<String>)
        ensures
            texts(r@) == wanted_wires(self@, m@, zone@),
    {
        broadcast use lemma_texts_push;

        let c = self.candidate_wires(m, zone);
        let ghost w = wanted_wires(self@, m@, zone@);
        let mut out: Vec<String> = Vec::new();
        let mut i: usize = 0;
        while i < c.len()
            invariant
                i <= c@.len(),
                w == wire_names(views(c@)),
                texts(out@) == w.take(i as int),
            decreases c@.len() - i,
        {
            assert(w.take(i + 1) =~= w.take(i as int).push(w[i as int]));
            assert(w[i as int] == c@[i as int].name@);
            out.push(c[i].name.clone());
            i = i + 1;
        }
        assert(w.take(i as int) =~= w);
        out
    }

    fn check_pref_order(&self, m: &Member, p: &crate::model::WirePref) -> (r: Result<(), Error>)
        ensures
            refuses(r, pref_order_refusal(self@, m@, p@)),
    {
        let want = self.wanted(m, p.zone.as_str());
        if first_dup(&p.order).is_some() {
            return Err(
                Error::Config(
                    cat6(
                        "member ",
                        p.member.as_str(),
                        " prefs ",
                        p.zone.as_str(),
                        ": ",
                        "a wire is listed twice",
                    ),
                ),
            );
        }
        if !(all_in(&p.order, &want) && all_in(&want, &p.order)) {
            let list = join_texts(&sorted_names(&want), " ");
            let got = join_texts(&p.order, " ");
            return Err(
                Error::Config(
                    cat10(
                        "member ",
                        p.member.as_str(),
                        " prefs ",
                        p.zone.as_str(),
                        ": ",
                        "an override is the COMPLETE order, never blended with the derived one — list exactly [",
                        list.as_str(),
                        "], got [",
                        got.as_str(),
                        "]",
                    ),
                ),
            );
        }
        Ok(())
    }

    fn check_wire_prefs(&self) -> (r: Result<(), Error>)
        requires
            prefs_have_members(self@),
        ensures
            refuses(r, prefs_refusal(self@, 0)),
    {
        let mut i: usize = 0;
        while i < self.wire_prefs.len()
            invariant
                i <= self.wire_prefs@.len(),
                prefs_have_members(self@),
                prefs_refusal(self@, 0) == prefs_refusal(self@, i as int),
            decreases self.wire_prefs@.len() - i,
        {
            let p = &self.wire_prefs[i];
            assert(p@ == self@.wire_prefs[i as int]);
            match self.member(p.member.as_str()) {
                Ok(m) => {
                    assert(m@ == self@.members[place_of(
                        member_names(self@.members),
                        p.member@,
                        0,
                    )]);
                    match self.zone(p.zone.as_str()) {
                        Ok(_) => {},
                        Err(e) => {
                            let at = cat5(
                                "member ",
                                p.member.as_str(),
                                " prefs ",
                                p.zone.as_str(),
                                ": ",
                            );
                            return Err(Error::context(at.as_str(), e));
                        },
                    }
                    match Self::check_pref_wires(m, p) {
                        Ok(()) => {},
                        Err(e) => {
                            return Err(e);
                        },
                    }
                    match self.check_pref_order(m, p) {
                        Ok(()) => {},
                        Err(e) => {
                            return Err(e);
                        },
                    }
                },
                Err(_) => {
                    assert(false);
                },
            }
            i = i + 1;
        }
        Ok(())
    }
}

// ---- forwarding ----

pub open spec fn pair_refusal(
    f: FabricV,
    p: (Seq<char>, Seq<char>),
    z: Seq<char>,
) -> Option<Seq<char>> {
    if has_zone(f, z) {
        None
    } else {
        Some("[forward] allow '"@ + p.0 + ">"@ + p.1 + "': unknown zone '"@ + z + "'"@)
    }
}

/// The first allowed pair from `i` on that names an unknown zone.
pub open spec fn forward_refusal(f: FabricV, i: int) -> Option<Seq<char>>
    decreases f.forward_allow.len() - i,
{
    if i >= f.forward_allow.len() {
        None
    } else {
        let p = f.forward_allow[i];
        first(first(pair_refusal(f, p, p.0), pair_refusal(f, p, p.1)), forward_refusal(f, i + 1))
    }
}

impl Fabric {
    fn check_pair(&self, from: &str, to: &str, z: &str) -> (r: Result<(), Error>)
        ensures
            refuses(r, pair_refusal(self@, (from@, to@), z@)),
    {
        if self.zone_place(z).is_none() {
            return Err(
                Error::Config(cat7("[forward] allow '", from, ">", to, "': unknown zone '", z, "'")),
            );
        }
        Ok(())
    }

    fn check_forward(&self) -> (r: Result<(), Error>)
        ensures
            refuses(r, forward_refusal(self@, 0)),
    {
        let mut i: usize = 0;
        while i < self.forward_allow.len()
            invariant
                i <= self.forward_allow@.len(),
                forward_refusal(self@, 0) == forward_refusal(self@, i as int),
            decreases self.forward_allow@.len() - i,
        {
            let from = self.forward_allow[i].0.as_str();
            let to = self.forward_allow[i].1.as_str();
            assert(self@.forward_allow[i as int] == (from@, to@));
            match self.check_pair(from, to, from) {
                Ok(()) => {},
                Err(e) => {
                    return Err(e);
                },
            }
            match self.check_pair(from, to, to) {
                Ok(()) => {},
                Err(e) => {
                    return Err(e);
                },
            }
            i = i + 1;
        }
        Ok(())
    }
}

// ---- workloads ----

pub open spec fn legs(w: Seq<WorkloadV>) -> Seq<Seq<char>> {
    Seq::new(w.len(), |i: int| leg_name(w[i].name))
}

/// The first row from `i` on that is on this bridge with this tag, or the number of rows.
pub open spec fn vlan_place(w: Seq<WorkloadV>, uplink: Seq<char>, vid: u16, i: int) -> int
    decreases w.len() - i,
{
    if i >= w.len() {
        w.len() as int
    } else if w[i].uplink == uplink && w[i].vid == vid {
        i
    } else {
        vlan_place(w, uplink, vid, i + 1)
    }
}

/// Names are unique over zones and rows, and no two rows share a leg or a bridge and tag.
pub open spec fn row_identity_refusal(f: FabricV, k: int) -> Option<Seq<char>> {
    let w = f.workloads[k];
    let leg = place_of(legs(f.workloads), leg_name(w.name), 0);
    let vlan = vlan_place(f.workloads, w.uplink, w.vid, 0);
    if has_zone(f, w.name) {
        Some(
            "workload "@ + w.name
                + ": name is also a zone (workload and zone names share one vocabulary)"@,
        )
    } else if place_of(workload_names(f.workloads), w.name, 0) < k {
        Some("workload "@ + w.name + ": declared twice"@)
    } else if leg < k {
        Some(
            "workload "@ + w.name + ": leg '"@ + leg_name(w.name) + "' is also used by workload "@
                + f.workloads[leg].name + " (cfab-work-<name>, cut to 15 bytes)"@,
        )
    } else if vlan < k {
        Some(
            "workload "@ + w.name + ": uplink '"@ + w.uplink + "' vid "@ + dec(w.vid as nat)
                + " is also used by workload "@ + f.workloads[vlan].name
                + " (one leg per bridge and vid)"@,
        )
    } else {
        None
    }
}

pub open spec fn has_wire(m: MemberV, name: Seq<char>) -> bool {
    exists|j: int| 0 <= j < m.wires.len() && (#[trigger] m.wires[j]).name == name
}

/// Is `name` the name of a port of the bond `bond`?
pub open spec fn is_port_name(f: FabricV, bond: Seq<char>, name: Seq<char>) -> bool {
    exists|j: int| 0 <= j < f.domains.len() && name == bond + "-"@ + #[trigger] f.domains[j]
}

pub open spec fn segment_takes(f: FabricV, s: SegmentV, name: Seq<char>) -> bool {
    s.ifname == name || (s.scope is None && is_port_name(f, s.ifname, name))
}

pub open spec fn zone_takes(f: FabricV, z: ZoneV, name: Seq<char>) -> bool {
    ||| name == gw_name(z.id)
    ||| name == identity_ifname(z.id)
    ||| name == identity_peer(z.id)
    ||| z.gw is Some && z.gw->0.scope is None && is_port_name(f, gw_name(z.id), name)
}

/// Is there another interface of this name: a wire, a segment, a bond port, or an ingress or
/// identity leg?
pub open spec fn name_taken(f: FabricV, name: Seq<char>) -> bool {
    ||| exists|i: int| 0 <= i < f.members.len() && has_wire(#[trigger] f.members[i], name)
    ||| exists|i: int| 0 <= i < f.segments.len() && segment_takes(f, #[trigger] f.segments[i], name)
    ||| exists|i: int| 0 <= i < f.zones.len() && zone_takes(f, #[trigger] f.zones[i], name)
}

pub open spec fn row_leg_refusal(f: FabricV, w: WorkloadV) -> Option<Seq<char>> {
    if name_taken(f, leg_name(w.name)) {
        Some(
            "workload "@ + w.name + ": leg '"@ + leg_name(w.name)
                + "' collides with an interface cfab creates"@,
        )
    } else {
        None
    }
}

pub open spec fn at_edge(p: Ipv4Prefix, a: Ipv4Addr) -> bool {
    a == p.net || a.bits == p.last_bits()
}

/// The prefix is not larger than a kernel's neighbor table, and the gateway is a host in it.
pub open spec fn row_gw_refusal(w: WorkloadV) -> Option<Seq<char>> {
    if w.prefix.len < MIN_WORKLOAD_PREFIX_LEN {
        Some(
            "workload "@ + w.name + ": prefix "@ + prefix_text(w.prefix)
                + " is larger than /22; a bigger                      workload VLAN than the kernel's own neighbor table can hold is not a                      workload cfab can serve"@,
        )
    } else if !w.prefix.holds(w.gw) {
        Some(
            "workload "@ + w.name + ": gw "@ + dotted(w.gw.bits) + " is outside prefix "@
                + prefix_text(w.prefix),
        )
    } else if at_edge(w.prefix, w.gw) {
        Some(
            "workload "@ + w.name + ": gw "@ + dotted(w.gw.bits)
                + " is the network or broadcast address of "@ + prefix_text(w.prefix),
        )
    } else {
        None
    }
}

/// Does the member hold this address on this row?
pub open spec fn holds_address(m: MemberV, row: Seq<char>, a: Ipv4Addr) -> bool {
    exists|j: int|
        0 <= j < m.workloads.len() && (#[trigger] m.workloads[j]).name == row
            && m.workloads[j].address == a
}

/// The first member from `i` on that holds this address on this row, or the number of members.
pub open spec fn holder(f: FabricV, row: Seq<char>, a: Ipv4Addr, i: int) -> int
    decreases f.members.len() - i,
{
    if i >= f.members.len() {
        f.members.len() as int
    } else if holds_address(f.members[i], row, a) {
        i
    } else {
        holder(f, row, a, i + 1)
    }
}

/// A relay's server is off the VLAN, and an address at all.
pub open spec fn row_dhcp_refusal(f: FabricV, w: WorkloadV) -> Option<Seq<char>> {
    match w.dhcp_server {
        None => None,
        Some(a) => {
            let at = "workload "@ + w.name + ": dhcp_server "@ + dotted(a.bits);
            let h = holder(f, w.name, a, 0);
            if a == w.gw {
                Some(
                    at
                        + " is the gw; the relay forwards off the VLAN, so the server cannot be cfab's own anycast gateway"@,
                )
            } else if h < f.members.len() {
                Some(
                    at + " is member "@ + f.members[h].name
                        + "'s own address on this row; the relay forwards off the VLAN"@,
                )
            } else if w.prefix.holds(a) {
                Some(
                    at + " is inside prefix "@ + prefix_text(w.prefix)
                        + "; the relay forwards off the VLAN, so the server cannot be on it"@,
                )
            } else if a.bits == 0 || a.bits == 0xffff_ffff {
                Some(
                    at
                        + " is not an address a relay can forward to (omit dhcp_server for no relay)"@,
                )
            } else {
                None
            }
        },
    }
}

/// `10.<id>.0.0/16`.
pub open spec fn zone_block(id: u8) -> Ipv4Prefix {
    Ipv4Prefix { net: Ipv4Addr { bits: quad(10, id as int, 0, 0) as u32 }, len: 16 }
}

/// The first zone from `i` on whose block overlaps the row's prefix.
pub open spec fn row_block_refusal(f: FabricV, w: WorkloadV, i: int) -> Option<Seq<char>>
    decreases f.zones.len() - i,
{
    if i >= f.zones.len() {
        None
    } else if w.prefix.meets(zone_block(f.zones[i].id)) {
        Some(
            "workload "@ + w.name + ": prefix "@ + prefix_text(w.prefix) + " overlaps zone "@
                + f.zones[i].name + " block "@ + prefix_text(zone_block(f.zones[i].id)),
        )
    } else {
        row_block_refusal(f, w, i + 1)
    }
}

/// The first zone from `j` on in the row's list that is not declared.
pub open spec fn unknown_allow(f: FabricV, w: WorkloadV, j: int) -> Option<Seq<char>>
    decreases w.allow.len() - j,
{
    if j >= w.allow.len() {
        None
    } else if !has_zone(f, w.allow[j]) {
        Some(
            "workload "@ + w.name + ": allow '"@ + w.allow[j] + "': unknown zone (zones: "@ + join(
                zone_names(f.zones),
                ", "@,
            ) + ")"@,
        )
    } else {
        unknown_allow(f, w, j + 1)
    }
}

pub open spec fn carries_row(m: MemberV, row: Seq<char>) -> bool {
    exists|j: int| 0 <= j < m.workloads.len() && (#[trigger] m.workloads[j]).name == row
}

pub open spec fn row_carried(f: FabricV, row: Seq<char>) -> bool {
    exists|i: int| 0 <= i < f.members.len() && carries_row(#[trigger] f.members[i], row)
}

/// A row reaches at least one zone, over hosts that forward, and some member carries it.
pub open spec fn row_reach_refusal(f: FabricV, w: WorkloadV) -> Option<Seq<char>> {
    if w.allow.len() == 0 {
        Some(
            "workload "@ + w.name + ": allow is empty; a workload must reach at least one zone"@,
        )
    } else if !f.host_forward {
        Some(
            "workload "@ + w.name
                + ": [forward] enabled = false; enable forwarding or delete the [[workload]] row"@,
        )
    } else {
        first(
            unknown_allow(f, w, 0),
            if row_carried(f, w.name) {
                None
            } else {
                Some(
                    "workload "@ + w.name
                        + ": no member carries it (add workloads = [{ name = \""@ + w.name
                        + "\", address = \"<host address>/"@ + dec(w.prefix.len as nat)
                        + "\" }] to a member)"@,
                )
            },
        )
    }
}

pub open spec fn row_refusal(f: FabricV, k: int) -> Option<Seq<char>> {
    let w = f.workloads[k];
    first(
        row_identity_refusal(f, k),
        first(
            row_leg_refusal(f, w),
            first(
                row_gw_refusal(w),
                first(
                    row_dhcp_refusal(f, w),
                    first(row_block_refusal(f, w, 0), row_reach_refusal(f, w)),
                ),
            ),
        ),
    )
}

/// The first row from `k` on that is refused.
pub open spec fn rows_refusal(f: FabricV, k: int) -> Option<Seq<char>>
    decreases f.workloads.len() - k,
{
    if k >= f.workloads.len() {
        None
    } else {
        first(row_refusal(f, k), rows_refusal(f, k + 1))
    }
}

/// Every prefix has a length that a prefix can have.
pub open spec fn prefixes_wf(f: FabricV) -> bool {
    forall|i: int| 0 <= i < f.workloads.len() ==> (#[trigger] f.workloads[i]).prefix.wf()
}

impl Fabric {
    fn legs(&self) -> (r: Vec<String>)
        ensures
            texts(r@) == legs(self@.workloads),
    {
        broadcast use lemma_texts_push;

        let ghost l = legs(self@.workloads);
        let mut out: Vec<String> = Vec::new();
        let mut i: usize = 0;
        while i < self.workloads.len()
            invariant
                i <= self.workloads@.len(),
                l == legs(self@.workloads),
                texts(out@) == l.take(i as int),
            decreases self.workloads@.len() - i,
        {
            assert(l.take(i + 1) =~= l.take(i as int).push(l[i as int]));
            out.push(self.workloads[i].leg_ifname());
            i = i + 1;
        }
        assert(l.take(i as int) =~= l);
        out
    }

    fn vlan_place(&self, uplink: &str, vid: u16) -> (r: usize)
        ensures
            r as int == vlan_place(self@.workloads, uplink@, vid, 0),
            r <= self.workloads@.len(),
    {
        let mut i: usize = 0;
        while i < self.workloads.len()
            invariant
                i <= self.workloads@.len(),
                vlan_place(self@.workloads, uplink@, vid, 0) == vlan_place(
                    self@.workloads,
                    uplink@,
                    vid,
                    i as int,
                ),
            decreases self.workloads@.len() - i,
        {
            assert(self.workloads@[i as int]@ == self@.workloads[i as int]);
            if str_eq(self.workloads[i].uplink.as_str(), uplink) && self.workloads[i].vid == vid {
                return i;
            }
            i = i + 1;
        }
        i
    }

    fn text_place(names: &Vec<String>, name: &str) -> (r: usize)
        ensures
            r as int == place_of(texts(names@), name@, 0),
            r <= names@.len(),
    {
        let mut i: usize = 0;
        while i < names.len()
            invariant
                i <= names@.len(),
                place_of(texts(names@), name@, 0) == place_of(texts(names@), name@, i as int),
            decreases names@.len() - i,
        {
            if str_eq(names[i].as_str(), name) {
                return i;
            }
            i = i + 1;
        }
        i
    }

    fn check_row_identity(&self, k: usize) -> (r: Result<(), Error>)
        requires
            k < self.workloads@.len(),
        ensures
            refuses(r, row_identity_refusal(self@, k as int)),
    {
        let w = &self.workloads[k];
        assert(w@ == self@.workloads[k as int]);
        let leg = w.leg_ifname();
        if self.zone_place(w.name.as_str()).is_some() {
            return Err(
                Error::Config(
                    cat3(
                        "workload ",
                        w.name.as_str(),
                        ": name is also a zone (workload and zone names share one vocabulary)",
                    ),
                ),
            );
        }
        if Self::text_place(&self.workload_names(), w.name.as_str()) < k {
            return Err(
                Error::Config(cat3("workload ", w.name.as_str(), ": declared twice")),
            );
        }
        let l = Self::text_place(&self.legs(), leg.as_str());
        if l < k {
            assert(self.workloads@[l as int]@ == self@.workloads[l as int]);
            return Err(
                Error::Config(
                    cat7(
                        "workload ",
                        w.name.as_str(),
                        ": leg '",
                        leg.as_str(),
                        "' is also used by workload ",
                        self.workloads[l].name.as_str(),
                        " (cfab-work-<name>, cut to 15 bytes)",
                    ),
                ),
            );
        }
        let v = self.vlan_place(w.uplink.as_str(), w.vid);
        if v < k {
            assert(self.workloads@[v as int]@ == self@.workloads[v as int]);
            return Err(
                Error::Config(
                    cat9(
                        "workload ",
                        w.name.as_str(),
                        ": uplink '",
                        w.uplink.as_str(),
                        "' vid ",
                        dec_u64(w.vid as u64).as_str(),
                        " is also used by workload ",
                        self.workloads[v].name.as_str(),
                        " (one leg per bridge and vid)",
                    ),
                ),
            );
        }
        Ok(())
    }

    fn is_port_name(&self, bond: &str, name: &str) -> (r: bool)
        ensures
            r == is_port_name(self@, bond@, name@),
    {
        let mut j: usize = 0;
        while j < self.domains.len()
            invariant
                j <= self.domains@.len(),
                forall|l: int|
                    0 <= l < j ==> name@ != bond@ + "-"@ + #[trigger] self@.domains[l],
            decreases self.domains@.len() - j,
        {
            assert(self@.domains[j as int] == self.domains@[j as int]@);
            if str_eq(name, cat3(bond, "-", self.domains[j].as_str()).as_str()) {
                return true;
            }
            j = j + 1;
        }
        false
    }

    fn member_has_wire(m: &Member, name: &str) -> (r: bool)
        ensures
            r == has_wire(m@, name@),
    {
        let mut j: usize = 0;
        while j < m.wires.len()
            invariant
                j <= m.wires@.len(),
                forall|l: int| 0 <= l < j ==> (#[trigger] m@.wires[l]).name != name@,
            decreases m.wires@.len() - j,
        {
            assert(m@.wires[j as int] == m.wires@[j as int]@);
            if str_eq(m.wires[j].name.as_str(), name) {
                return true;
            }
            j = j + 1;
        }
        false
    }

    fn is_taken(&self, name: &str) -> (r: bool)
        ensures
            r == name_taken(self@, name@),
    {
        let mut i: usize = 0;
        while i < self.members.len()
            invariant
                i <= self.members@.len(),
                forall|l: int| 0 <= l < i ==> !has_wire(#[trigger] self@.members[l], name@),
            decreases self.members@.len() - i,
        {
            assert(self@.members[i as int] == self.members@[i as int]@);
            if Self::member_has_wire(&self.members[i], name) {
                return true;
            }
            i = i + 1;
        }
        let mut i: usize = 0;
        while i < self.segments.len()
            invariant
                i <= self.segments@.len(),
                forall|l: int|
                    0 <= l < i ==> !segment_takes(self@, #[trigger] self@.segments[l], name@),
            decreases self.segments@.len() - i,
        {
            let s = &self.segments[i];
            assert(self@.segments[i as int] == s@);
            if str_eq(s.ifname.as_str(), name) || (s.scope.is_universal() && self.is_port_name(
                s.ifname.as_str(),
                name,
            )) {
                return true;
            }
            i = i + 1;
        }
        let mut i: usize = 0;
        while i < self.zones.len()
            invariant
                i <= self.zones@.len(),
                forall|l: int| 0 <= l < i ==> !zone_takes(self@, #[trigger] self@.zones[l], name@),
            decreases self.zones@.len() - i,
        {
            let z = &self.zones[i];
            assert(self@.zones[i as int] == z@);
            let g = gw_ifname(z.id);
            let ids = identity_ifnames(z.id);
            if str_eq(name, g.as_str()) || str_eq(name, ids.0.as_str()) || str_eq(
                name,
                ids.1.as_str(),
            ) {
                return true;
            }
            if let Some(gw) = &z.gw {
                if gw.scope.is_universal() && self.is_port_name(g.as_str(), name) {
                    return true;
                }
            }
            i = i + 1;
        }
        false
    }

    fn check_row_leg(&self, w: &Workload) -> (r: Result<(), Error>)
        ensures
            refuses(r, row_leg_refusal(self@, w@)),
    {
        let leg = w.leg_ifname();
        if self.is_taken(leg.as_str()) {
            return Err(
                Error::Config(
                    cat5(
                        "workload ",
                        w.name.as_str(),
                        ": leg '",
                        leg.as_str(),
                        "' collides with an interface cfab creates",
                    ),
                ),
            );
        }
        Ok(())
    }

    fn is_at_edge(p: &Ipv4Prefix, a: Ipv4Addr) -> (r: bool)
        requires
            p.wf(),
        ensures
            r == at_edge(*p, a),
    {
        a == p.net || a.bits == p.broadcast().bits
    }

    fn check_row_gw(w: &Workload) -> (r: Result<(), Error>)
        requires
            w.prefix.wf(),
        ensures
            refuses(r, row_gw_refusal(w@)),
    {
        if w.prefix.len < MIN_WORKLOAD_PREFIX_LEN {
            return Err(
                Error::Config(
                    cat5(
                        "workload ",
                        w.name.as_str(),
                        ": prefix ",
                        w.prefix.to_string().as_str(),
                        " is larger than /22; a bigger                      workload VLAN than the kernel's own neighbor table can hold is not a                      workload cfab can serve",
                    ),
                ),
            );
        }
        if !w.prefix.contains(w.gw) {
            return Err(
                Error::Config(
                    cat6(
                        "workload ",
                        w.name.as_str(),
                        ": gw ",
                        w.gw.to_string().as_str(),
                        " is outside prefix ",
                        w.prefix.to_string().as_str(),
                    ),
                ),
            );
        }
        if Self::is_at_edge(&w.prefix, w.gw) {
            return Err(
                Error::Config(
                    cat6(
                        "workload ",
                        w.name.as_str(),
                        ": gw ",
                        w.gw.to_string().as_str(),
                        " is the network or broadcast address of ",
                        w.prefix.to_string().as_str(),
                    ),
                ),
            );
        }
        Ok(())
    }

    fn member_holds(m: &Member, row: &str, a: Ipv4Addr) -> (r: bool)
        ensures
            r == holds_address(m@, row@, a),
    {
        let mut j: usize = 0;
        while j < m.workloads.len()
            invariant
                j <= m.workloads@.len(),
                forall|l: int|
                    0 <= l < j ==> !((#[trigger] m@.workloads[l]).name == row@
                        && m@.workloads[l].address == a),
            decreases m.workloads@.len() - j,
        {
            assert(m@.workloads[j as int] == m.workloads@[j as int]@);
            if str_eq(m.workloads[j].name.as_str(), row) && m.workloads[j].address == a {
                return true;
            }
            j = j + 1;
        }
        false
    }

    fn holder(&self, row: &str, a: Ipv4Addr) -> (r: usize)
        ensures
            r as int == holder(self@, row@, a, 0),
            r <= self.members@.len(),
    {
        let mut i: usize = 0;
        while i < self.members.len()
            invariant
                i <= self.members@.len(),
                holder(self@, row@, a, 0) == holder(self@, row@, a, i as int),
            decreases self.members@.len() - i,
        {
            assert(self@.members[i as int] == self.members@[i as int]@);
            if Self::member_holds(&self.members[i], row, a) {
                return i;
            }
            i = i + 1;
        }
        i
    }

    fn check_row_dhcp(&self, w: &Workload) -> (r: Result<(), Error>)
        requires
            w.prefix.wf(),
        ensures
            refuses(r, row_dhcp_refusal(self@, w@)),
    {
        match w.dhcp_server {
            None => Ok(()),
            Some(a) => {
                let at = cat4(
                    "workload ",
                    w.name.as_str(),
                    ": dhcp_server ",
                    a.to_string().as_str(),
                );
                if a == w.gw {
                    return Err(
                        Error::Config(
                            cat2(
                                at.as_str(),
                                " is the gw; the relay forwards off the VLAN, so the server cannot be cfab's own anycast gateway",
                            ),
                        ),
                    );
                }
                let h = self.holder(w.name.as_str(), a);
                if h < self.members.len() {
                    assert(self@.members[h as int] == self.members@[h as int]@);
                    return Err(
                        Error::Config(
                            cat4(
                                at.as_str(),
                                " is member ",
                                self.members[h].name.as_str(),
                                "'s own address on this row; the relay forwards off the VLAN",
                            ),
                        ),
                    );
                }
                if w.prefix.contains(a) {
                    return Err(
                        Error::Config(
                            cat4(
                                at.as_str(),
                                " is inside prefix ",
                                w.prefix.to_string().as_str(),
                                "; the relay forwards off the VLAN, so the server cannot be on it",
                            ),
                        ),
                    );
                }
                if a.is_unspecified() || a.is_broadcast() {
                    return Err(
                        Error::Config(
                            cat2(
                                at.as_str(),
                                " is not an address a relay can forward to (omit dhcp_server for no relay)",
                            ),
                        ),
                    );
                }
                Ok(())
            },
        }
    }

    fn check_row_blocks(&self, w: &Workload) -> (r: Result<(), Error>)
        requires
            w.prefix.wf(),
        ensures
            refuses(r, row_block_refusal(self@, w@, 0)),
    {
        let mut i: usize = 0;
        while i < self.zones.len()
            invariant
                i <= self.zones@.len(),
                w.prefix.wf(),
                row_block_refusal(self@, w@, 0) == row_block_refusal(self@, w@, i as int),
            decreases self.zones@.len() - i,
        {
            let z = &self.zones[i];
            assert(z@ == self@.zones[i as int]);
            let block = Ipv4Prefix { net: Ipv4Addr::new(10, z.id, 0, 0), len: 16 };
            assert(block == zone_block(z.id));
            if w.prefix.overlaps(&block) {
                return Err(
                    Error::Config(
                        cat8(
                            "workload ",
                            w.name.as_str(),
                            ": prefix ",
                            w.prefix.to_string().as_str(),
                            " overlaps zone ",
                            z.name.as_str(),
                            " block ",
                            block.to_string().as_str(),
                        ),
                    ),
                );
            }
            i = i + 1;
        }
        Ok(())
    }

    fn check_row_allow(&self, w: &Workload) -> (r: Result<(), Error>)
        ensures
            refuses(r, unknown_allow(self@, w@, 0)),
    {
        let mut j: usize = 0;
        while j < w.allow.len()
            invariant
                j <= w.allow@.len(),
                unknown_allow(self@, w@, 0) == unknown_allow(self@, w@, j as int),
            decreases w.allow@.len() - j,
        {
            assert(w@.allow[j as int] == w.allow@[j as int]@);
            if self.zone_place(w.allow[j].as_str()).is_none() {
                let names = join_texts(&self.zone_names(), ", ");
                return Err(
                    Error::Config(
                        cat7(
                            "workload ",
                            w.name.as_str(),
                            ": allow '",
                            w.allow[j].as_str(),
                            "': unknown zone (zones: ",
                            names.as_str(),
                            ")",
                        ),
                    ),
                );
            }
            j = j + 1;
        }
        Ok(())
    }

    fn member_carries(m: &Member, row: &str) -> (r: bool)
        ensures
            r == carries_row(m@, row@),
    {
        let mut j: usize = 0;
        while j < m.workloads.len()
            invariant
                j <= m.workloads@.len(),
                forall|l: int| 0 <= l < j ==> (#[trigger] m@.workloads[l]).name != row@,
            decreases m.workloads@.len() - j,
        {
            assert(m@.workloads[j as int] == m.workloads@[j as int]@);
            if str_eq(m.workloads[j].name.as_str(), row) {
                return true;
            }
            j = j + 1;
        }
        false
    }

    fn is_row_carried(&self, row: &str) -> (r: bool)
        ensures
            r == row_carried(self@, row@),
    {
        let mut i: usize = 0;
        while i < self.members.len()
            invariant
                i <= self.members@.len(),
                forall|l: int| 0 <= l < i ==> !carries_row(#[trigger] self@.members[l], row@),
            decreases self.members@.len() - i,
        {
            assert(self@.members[i as int] == self.members@[i as int]@);
            if Self::member_carries(&self.members[i], row) {
                return true;
            }
            i = i + 1;
        }
        false
    }

    fn check_row_reach(&self, w: &Workload) -> (r: Result<(), Error>)
        ensures
            refuses(r, row_reach_refusal(self@, w@)),
    {
        if w.allow.len() == 0 {
            return Err(
                Error::Config(
                    cat3(
                        "workload ",
                        w.name.as_str(),
                        ": allow is empty; a workload must reach at least one zone",
                    ),
                ),
            );
        }
        if !self.host_forward {
            return Err(
                Error::Config(
                    cat3(
                        "workload ",
                        w.name.as_str(),
                        ": [forward] enabled = false; enable forwarding or delete the [[workload]] row",
                    ),
                ),
            );
        }
        match self.check_row_allow(w) {
            Ok(()) => {},
            Err(e) => {
                return Err(e);
            },
        }
        if !self.is_row_carried(w.name.as_str()) {
            return Err(
                Error::Config(
                    cat7(
                        "workload ",
                        w.name.as_str(),
                        ": no member carries it (add workloads = [{ name = \"",
                        w.name.as_str(),
                        "\", address = \"<host address>/",
                        dec_u64(w.prefix.len as u64).as_str(),
                        "\" }] to a member)",
                    ),
                ),
            );
        }
        Ok(())
    }

    fn check_row(&self, k: usize) -> (r: Result<(), Error>)
        requires
            k < self.workloads@.len(),
            prefixes_wf(self@),
        ensures
            refuses(r, row_refusal(self@, k as int)),
    {
        let w = &self.workloads[k];
        assert(w@ == self@.workloads[k as int]);
        match self.check_row_identity(k) {
            Ok(()) => {},
            Err(e) => {
                return Err(e);
            },
        }
        match self.check_row_leg(w) {
            Ok(()) => {},
            Err(e) => {
                return Err(e);
            },
        }
        match Self::check_row_gw(w) {
            Ok(()) => {},
            Err(e) => {
                return Err(e);
            },
        }
        match self.check_row_dhcp(w) {
            Ok(()) => {},
            Err(e) => {
                return Err(e);
            },
        }
        match self.check_row_blocks(w) {
            Ok(()) => {},
            Err(e) => {
                return Err(e);
            },
        }
        self.check_row_reach(w)
    }

    fn check_rows(&self) -> (r: Result<(), Error>)
        requires
            prefixes_wf(self@),
        ensures
            refuses(r, rows_refusal(self@, 0)),
    {
        let mut k: usize = 0;
        while k < self.workloads.len()
            invariant
                k <= self.workloads@.len(),
                prefixes_wf(self@),
                rows_refusal(self@, 0) == rows_refusal(self@, k as int),
            decreases self.workloads@.len() - k,
        {
            match self.check_row(k) {
                Ok(()) => {},
                Err(e) => {
                    return Err(e);
                },
            }
            k = k + 1;
        }
        Ok(())
    }
}

// ---- what members carry ----

pub open spec fn carried_names(w: Seq<MemberWorkloadV>) -> Seq<Seq<char>> {
    Seq::new(w.len(), |i: int| w[i].name)
}

/// What is wrong with the address that a host holds on a row.
pub open spec fn address_refusal(
    m: MemberV,
    mw: MemberWorkloadV,
    wl: WorkloadV,
) -> Option<Seq<char>> {
    let at = "member "@ + m.name + ": workload "@ + wl.name;
    let address = ": address "@ + cidr(mw.address, mw.len);
    if m.kind == MemberKind::Leaf {
        Some(at + ": a leaf carries no workload (kind = leaf)"@)
    } else if !wl.prefix.holds(mw.address) {
        Some(at + address + " is outside prefix "@ + prefix_text(wl.prefix))
    } else if mw.len != wl.prefix.len {
        Some(at + address + " must carry the prefix's mask /"@ + dec(wl.prefix.len as nat))
    } else if mw.address == wl.gw {
        Some(at + address + " is the gateway "@ + dotted(wl.gw.bits))
    } else if at_edge(wl.prefix, mw.address) {
        Some(
            at + address + " is the network or broadcast address of "@ + prefix_text(wl.prefix),
        )
    } else {
        None
    }
}

pub open spec fn one_carried_refusal(f: FabricV, m: MemberV, j: int) -> Option<Seq<char>> {
    let mw = m.workloads[j];
    let p = place_of(workload_names(f.workloads), mw.name, 0);
    if place_of(carried_names(m.workloads), mw.name, 0) < j {
        Some("member "@ + m.name + ": workload "@ + mw.name + " is declared twice"@)
    } else if p >= f.workloads.len() {
        Some(
            "member "@ + m.name + ": workload '"@ + mw.name
                + "' is not a declared [[workload]] (workloads: "@ + join(
                workload_names(f.workloads),
                ", "@,
            ) + ")"@,
        )
    } else {
        address_refusal(m, mw, f.workloads[p])
    }
}

/// The first of the member's addresses from `j` on that is refused.
pub open spec fn carried_refusal(f: FabricV, m: MemberV, j: int) -> Option<Seq<char>>
    decreases m.workloads.len() - j,
{
    if j >= m.workloads.len() {
        None
    } else {
        first(one_carried_refusal(f, m, j), carried_refusal(f, m, j + 1))
    }
}

pub open spec fn all_carried_refusal(f: FabricV, i: int) -> Option<Seq<char>>
    decreases f.members.len() - i,
{
    if i >= f.members.len() {
        None
    } else {
        first(carried_refusal(f, f.members[i], 0), all_carried_refusal(f, i + 1))
    }
}

/// The member's address on the row, if it carries it.
pub open spec fn address_on(m: MemberV, row: Seq<char>) -> Option<Ipv4Addr> {
    let p = place_of(carried_names(m.workloads), row, 0);
    if p < m.workloads.len() {
        Some(m.workloads[p].address)
    } else {
        None
    }
}

/// The first member from `i` on whose address on the row is `a`, or the number of members.
pub open spec fn addressed(f: FabricV, row: Seq<char>, a: Ipv4Addr, i: int) -> int
    decreases f.members.len() - i,
{
    if i >= f.members.len() {
        f.members.len() as int
    } else if address_on(f.members[i], row) == Some(a) {
        i
    } else {
        addressed(f, row, a, i + 1)
    }
}

/// The first member from `i` on that holds the address of an earlier one on the row.
pub open spec fn shared_address(f: FabricV, row: Seq<char>, i: int) -> Option<Seq<char>>
    decreases f.members.len() - i,
{
    if i >= f.members.len() {
        None
    } else {
        match address_on(f.members[i], row) {
            Some(a) => if addressed(f, row, a, 0) < i {
                Some(
                    "workload "@ + row + ": address "@ + dotted(a.bits)
                        + " is declared by both member "@ + f.members[addressed(f, row, a, 0)].name
                        + " and member "@ + f.members[i].name,
                )
            } else {
                shared_address(f, row, i + 1)
            },
            None => shared_address(f, row, i + 1),
        }
    }
}

pub open spec fn shared_addresses(f: FabricV, k: int) -> Option<Seq<char>>
    decreases f.workloads.len() - k,
{
    if k >= f.workloads.len() {
        None
    } else {
        first(shared_address(f, f.workloads[k].name, 0), shared_addresses(f, k + 1))
    }
}

impl Fabric {
    fn carried_place(m: &Member, row: &str) -> (r: usize)
        ensures
            r as int == place_of(carried_names(m@.workloads), row@, 0),
            r <= m.workloads@.len(),
    {
        let ghost n = carried_names(m@.workloads);
        let mut j: usize = 0;
        while j < m.workloads.len()
            invariant
                j <= m.workloads@.len(),
                n == carried_names(m@.workloads),
                place_of(n, row@, 0) == place_of(n, row@, j as int),
            decreases m.workloads@.len() - j,
        {
            assert(n[j as int] == m.workloads@[j as int].name@);
            if str_eq(m.workloads[j].name.as_str(), row) {
                return j;
            }
            j = j + 1;
        }
        j
    }

    fn check_address(
        m: &Member,
        mw: &crate::model::MemberWorkload,
        wl: &Workload,
    ) -> (r: Result<(), Error>)
        requires
            wl.prefix.wf(),
        ensures
            refuses(r, address_refusal(m@, mw@, wl@)),
    {
        let at = cat4("member ", m.name.as_str(), ": workload ", wl.name.as_str());
        let address = cat2(": address ", mw.address_cidr().as_str());
        if m.kind == MemberKind::Leaf {
            return Err(
                Error::Config(cat2(at.as_str(), ": a leaf carries no workload (kind = leaf)")),
            );
        }
        if !wl.prefix.contains(mw.address) {
            return Err(
                Error::Config(
                    cat4(
                        at.as_str(),
                        address.as_str(),
                        " is outside prefix ",
                        wl.prefix.to_string().as_str(),
                    ),
                ),
            );
        }
        if mw.len != wl.prefix.len {
            return Err(
                Error::Config(
                    cat4(
                        at.as_str(),
                        address.as_str(),
                        " must carry the prefix's mask /",
                        dec_u64(wl.prefix.len as u64).as_str(),
                    ),
                ),
            );
        }
        if mw.address == wl.gw {
            return Err(
                Error::Config(
                    cat4(
                        at.as_str(),
                        address.as_str(),
                        " is the gateway ",
                        wl.gw.to_string().as_str(),
                    ),
                ),
            );
        }
        if Self::is_at_edge(&wl.prefix, mw.address) {
            return Err(
                Error::Config(
                    cat4(
                        at.as_str(),
                        address.as_str(),
                        " is the network or broadcast address of ",
                        wl.prefix.to_string().as_str(),
                    ),
                ),
            );
        }
        Ok(())
    }

    fn check_one_carried(&self, m: &Member, j: usize) -> (r: Result<(), Error>)
        requires
            j < m.workloads@.len(),
            prefixes_wf(self@),
        ensures
            refuses(r, one_carried_refusal(self@, m@, j as int)),
    {
        let mw = &m.workloads[j];
        assert(mw@ == m@.workloads[j as int]);
        if Self::carried_place(m, mw.name.as_str()) < j {
            return Err(
                Error::Config(
                    cat5(
                        "member ",
                        m.name.as_str(),
                        ": workload ",
                        mw.name.as_str(),
                        " is declared twice",
                    ),
                ),
            );
        }
        match self.workload(mw.name.as_str()) {
            None => {
                let names = join_texts(&self.workload_names(), ", ");
                Err(
                    Error::Config(
                        cat7(
                            "member ",
                            m.name.as_str(),
                            ": workload '",
                            mw.name.as_str(),
                            "' is not a declared [[workload]] (workloads: ",
                            names.as_str(),
                            ")",
                        ),
                    ),
                )
            },
            Some(wl) => {
                proof {
                    let p = place_of(workload_names(self@.workloads), mw.name@, 0);
                    assert(wl@ == self@.workloads[p]);
                }
                Self::check_address(m, mw, wl)
            },
        }
    }

    fn check_carried(&self, m: &Member) -> (r: Result<(), Error>)
        requires
            prefixes_wf(self@),
        ensures
            refuses(r, carried_refusal(self@, m@, 0)),
    {
        let mut j: usize = 0;
        while j < m.workloads.len()
            invariant
                j <= m.workloads@.len(),
                prefixes_wf(self@),
                carried_refusal(self@, m@, 0) == carried_refusal(self@, m@, j as int),
            decreases m.workloads@.len() - j,
        {
            match self.check_one_carried(m, j) {
                Ok(()) => {},
                Err(e) => {
                    return Err(e);
                },
            }
            j = j + 1;
        }
        Ok(())
    }

    fn check_all_carried(&self) -> (r: Result<(), Error>)
        requires
            prefixes_wf(self@),
        ensures
            refuses(r, all_carried_refusal(self@, 0)),
    {
        let mut i: usize = 0;
        while i < self.members.len()
            invariant
                i <= self.members@.len(),
                prefixes_wf(self@),
                all_carried_refusal(self@, 0) == all_carried_refusal(self@, i as int),
            decreases self.members@.len() - i,
        {
            assert(self@.members[i as int] == self.members@[i as int]@);
            match self.check_carried(&self.members[i]) {
                Ok(()) => {},
                Err(e) => {
                    return Err(e);
                },
            }
            i = i + 1;
        }
        Ok(())
    }

    fn address_on(m: &Member, row: &str) -> (r: Option<Ipv4Addr>)
        ensures
            r == address_on(m@, row@),
    {
        let p = Self::carried_place(m, row);
        if p < m.workloads.len() {
            assert(m@.workloads[p as int] == m.workloads@[p as int]@);
            Some(m.workloads[p].address)
        } else {
            None
        }
    }

    fn addressed(&self, row: &str, a: Ipv4Addr) -> (r: usize)
        ensures
            r as int == addressed(self@, row@, a, 0),
            r <= self.members@.len(),
    {
        let mut i: usize = 0;
        while i < self.members.len()
            invariant
                i <= self.members@.len(),
                addressed(self@, row@, a, 0) == addressed(self@, row@, a, i as int),
            decreases self.members@.len() - i,
        {
            assert(self@.members[i as int] == self.members@[i as int]@);
            if let Some(b) = Self::address_on(&self.members[i], row) {
                if b == a {
                    return i;
                }
            }
            i = i + 1;
        }
        i
    }

    fn check_shared_address(&self, row: &str) -> (r: Result<(), Error>)
        ensures
            refuses(r, shared_address(self@, row@, 0)),
    {
        let mut i: usize = 0;
        while i < self.members.len()
            invariant
                i <= self.members@.len(),
                shared_address(self@, row@, 0) == shared_address(self@, row@, i as int),
            decreases self.members@.len() - i,
        {
            assert(self@.members[i as int] == self.members@[i as int]@);
            if let Some(a) = Self::address_on(&self.members[i], row) {
                let p = self.addressed(row, a);
                if p < i {
                    assert(self@.members[p as int] == self.members@[p as int]@);
                    return Err(
                        Error::Config(
                            cat8(
                                "workload ",
                                row,
                                ": address ",
                                a.to_string().as_str(),
                                " is declared by both member ",
                                self.members[p].name.as_str(),
                                " and member ",
                                self.members[i].name.as_str(),
                            ),
                        ),
                    );
                }
            }
            i = i + 1;
        }
        Ok(())
    }

    fn check_shared_addresses(&self) -> (r: Result<(), Error>)
        ensures
            refuses(r, shared_addresses(self@, 0)),
    {
        let mut k: usize = 0;
        while k < self.workloads.len()
            invariant
                k <= self.workloads@.len(),
                shared_addresses(self@, 0) == shared_addresses(self@, k as int),
            decreases self.workloads@.len() - k,
        {
            assert(self@.workloads[k as int] == self.workloads@[k as int]@);
            match self.check_shared_address(self.workloads[k].name.as_str()) {
                Ok(()) => {},
                Err(e) => {
                    return Err(e);
                },
            }
            k = k + 1;
        }
        Ok(())
    }
}

// ---- ingress ----

/// The first member from `i` on whose node is the router's host octet.
pub open spec fn router_collision(
    f: FabricV,
    z: ZoneV,
    g: ZoneGwV,
    octet: nat,
    i: int,
) -> Option<Seq<char>>
    decreases f.members.len() - i,
{
    if i >= f.members.len() {
        None
    } else if f.members[i].node == octet {
        Some(
            "zone "@ + z.name + " router "@ + g.router + " collides with node "@ + dec(
                f.members[i].node as nat,
            ) + " ("@ + f.members[i].name + ")'s leg address"@,
        )
    } else {
        router_collision(f, z, g, octet, i + 1)
    }
}

pub open spec fn segment_tagged(f: FabricV, vid: u16) -> bool {
    exists|i: int| 0 <= i < f.segments.len() && (#[trigger] f.segments[i]).vid == vid
}

pub open spec fn one_gw_refusal(f: FabricV, z: ZoneV) -> Option<Seq<char>> {
    match z.gw {
        None => None,
        Some(g) => if g.scope is None && bond_ifname_long(gw_name(z.id)) {
            Some(
                "zone "@ + z.name + ": ingress bond cfab-gw"@ + dec(z.id as nat)
                    + " must be 13 characters or fewer (ports are named <ifname>-<domain>, IFNAMSIZ 15)"@,
            )
        } else if segment_tagged(f, g.vid) {
            Some(
                "zone "@ + z.name + " ingress vid "@ + dec(g.vid as nat)
                    + " is also a segment vid"@,
            )
        } else {
            match last_octet(g.router) {
                Some(o) => router_collision(f, z, g, o, 0),
                None => None,
            }
        },
    }
}

/// The first zone from `i` on whose ingress is refused.
pub open spec fn gw_refusal(f: FabricV, i: int) -> Option<Seq<char>>
    decreases f.zones.len() - i,
{
    if i >= f.zones.len() {
        None
    } else {
        first(one_gw_refusal(f, f.zones[i]), gw_refusal(f, i + 1))
    }
}

/// Every ingress router has a host octet.
pub open spec fn routers_wf(f: FabricV) -> bool {
    forall|i: int|
        0 <= i < f.zones.len() && (#[trigger] f.zones[i]).gw is Some ==> last_octet(
            f.zones[i].gw->0.router,
        ) is Some
}

impl Fabric {
    fn is_segment_tagged(&self, vid: u16) -> (r: bool)
        ensures
            r == segment_tagged(self@, vid),
    {
        let mut i: usize = 0;
        while i < self.segments.len()
            invariant
                i <= self.segments@.len(),
                forall|l: int| 0 <= l < i ==> (#[trigger] self@.segments[l]).vid != vid,
            decreases self.segments@.len() - i,
        {
            assert(self@.segments[i as int] == self.segments@[i as int]@);
            if self.segments[i].vid == vid {
                return true;
            }
            i = i + 1;
        }
        false
    }

    fn check_router_octet(
        &self,
        z: &crate::model::Zone,
        g: &crate::model::ZoneGw,
        octet: u8,
    ) -> (r: Result<(), Error>)
        ensures
            refuses(r, router_collision(self@, z@, g@, octet as nat, 0)),
    {
        let mut i: usize = 0;
        while i < self.members.len()
            invariant
                i <= self.members@.len(),
                router_collision(self@, z@, g@, octet as nat, 0) == router_collision(
                    self@,
                    z@,
                    g@,
                    octet as nat,
                    i as int,
                ),
            decreases self.members@.len() - i,
        {
            let m = &self.members[i];
            assert(self@.members[i as int] == m@);
            if m.node == octet {
                return Err(
                    Error::Config(
                        cat9(
                            "zone ",
                            z.name.as_str(),
                            " router ",
                            g.router.as_str(),
                            " collides with node ",
                            dec_u64(m.node as u64).as_str(),
                            " (",
                            m.name.as_str(),
                            ")'s leg address",
                        ),
                    ),
                );
            }
            i = i + 1;
        }
        Ok(())
    }

    fn check_one_gw(&self, z: &crate::model::Zone) -> (r: Result<(), Error>)
        requires
            z@.gw is Some ==> last_octet(z@.gw->0.router) is Some,
        ensures
            refuses(r, one_gw_refusal(self@, z@)),
    {
        match &z.gw {
            None => Ok(()),
            Some(g) => {
                if g.scope.is_universal() && bond_ifname_too_long(gw_ifname(z.id).as_str()) {
                    return Err(
                        Error::Config(
                            cat5(
                                "zone ",
                                z.name.as_str(),
                                ": ingress bond cfab-gw",
                                dec_u64(z.id as u64).as_str(),
                                " must be 13 characters or fewer (ports are named <ifname>-<domain>, IFNAMSIZ 15)",
                            ),
                        ),
                    );
                }
                if self.is_segment_tagged(g.vid) {
                    return Err(
                        Error::Config(
                            cat5(
                                "zone ",
                                z.name.as_str(),
                                " ingress vid ",
                                dec_u64(g.vid as u64).as_str(),
                                " is also a segment vid",
                            ),
                        ),
                    );
                }
                let octet: u8 = g.router_octet();
                self.check_router_octet(z, g, octet)
            },
        }
    }

    fn check_gws(&self) -> (r: Result<(), Error>)
        requires
            routers_wf(self@),
        ensures
            refuses(r, gw_refusal(self@, 0)),
    {
        let mut i: usize = 0;
        while i < self.zones.len()
            invariant
                i <= self.zones@.len(),
                routers_wf(self@),
                gw_refusal(self@, 0) == gw_refusal(self@, i as int),
            decreases self.zones@.len() - i,
        {
            assert(self@.zones[i as int] == self.zones@[i as int]@);
            match self.check_one_gw(&self.zones[i]) {
                Ok(()) => {},
                Err(e) => {
                    return Err(e);
                },
            }
            i = i + 1;
        }
        Ok(())
    }
}

// ---- the whole fabric ----

/// The first fault of the fabric, in the order in which the rules are asked: domains, segments,
/// zones, members, preference overrides, forwarding, workloads, and ingress.
pub open spec fn refusal(f: FabricV) -> Option<Seq<char>> {
    let domains = first(
        no_domains_refusal(f),
        first(
            wires_refusal(f, 0),
            first(
                segment_domain_refusal(f, 0),
                first(zone_domain_refusal(f, 0), unwired_domain(f, 0)),
            ),
        ),
    );
    let segments = first(
        segment_refusal(f),
        first(segment_zone_refusal(f, 0), universal_name_refusal(f, 0)),
    );
    let zones = first(
        dup_refusal(zone_ids(f.zones), "zone id "@, " used twice"@),
        zone_primary_refusal(f, 0),
    );
    let workloads = first(
        rows_refusal(f, 0),
        first(all_carried_refusal(f, 0), shared_addresses(f, 0)),
    );
    first(
        domains,
        first(
            segments,
            first(
                zones,
                first(
                    member_refusal(f),
                    first(
                        prefs_refusal(f, 0),
                        first(forward_refusal(f, 0), first(workloads, gw_refusal(f, 0))),
                    ),
                ),
            ),
        ),
    )
}

/// What every fabric that comes out of a declaration has: overrides belong to its members,
/// prefixes have possible lengths, and ingress routers have host octets.
pub open spec fn fabric_wf(f: FabricV) -> bool {
    &&& prefs_have_members(f)
    &&& prefixes_wf(f)
    &&& routers_wf(f)
}

impl Fabric {
    fn check_domains(&self) -> (r: Result<(), Error>)
        ensures
            refuses(
                r,
                first(
                    no_domains_refusal(self@),
                    first(
                        wires_refusal(self@, 0),
                        first(
                            segment_domain_refusal(self@, 0),
                            first(zone_domain_refusal(self@, 0), unwired_domain(self@, 0)),
                        ),
                    ),
                ),
            ),
    {
        if self.domains.len() == 0 {
            return Err(
                Error::config(
                    "[domains] is empty (declare one token per physical switch domain, e.g. a = \"the 10G switch\")",
                ),
            );
        }
        match self.check_wires() {
            Ok(()) => {},
            Err(e) => {
                return Err(e);
            },
        }
        match self.check_segment_domains() {
            Ok(()) => {},
            Err(e) => {
                return Err(e);
            },
        }
        match self.check_zone_domains() {
            Ok(()) => {},
            Err(e) => {
                return Err(e);
            },
        }
        self.check_unwired_domains()
    }

    /// Declaration consistency, checked for the whole fabric and not just for the running
    /// member, so that one member's check catches a collision that would only bite another.
    pub fn validate(&self) -> (r: Result<(), Error>)
        requires
            fabric_wf(self@),
        ensures
            refuses(r, refusal(self@)),
    {
        match self.check_domains() {
            Ok(()) => {},
            Err(e) => {
                return Err(e);
            },
        }
        match self.check_segments() {
            Ok(()) => {},
            Err(e) => {
                return Err(e);
            },
        }
        match self.check_segment_zones() {
            Ok(()) => {},
            Err(e) => {
                return Err(e);
            },
        }
        match self.check_universal_names() {
            Ok(()) => {},
            Err(e) => {
                return Err(e);
            },
        }
        match self.check_zone_ids() {
            Ok(()) => {},
            Err(e) => {
                return Err(e);
            },
        }
        match self.check_zone_primaries() {
            Ok(()) => {},
            Err(e) => {
                return Err(e);
            },
        }
        match self.check_members() {
            Ok(()) => {},
            Err(e) => {
                return Err(e);
            },
        }
        match self.check_wire_prefs() {
            Ok(()) => {},
            Err(e) => {
                return Err(e);
            },
        }
        match self.check_forward() {
            Ok(()) => {},
            Err(e) => {
                return Err(e);
            },
        }
        match self.check_rows() {
            Ok(()) => {},
            Err(e) => {
                return Err(e);
            },
        }
        match self.check_all_carried() {
            Ok(()) => {},
            Err(e) => {
                return Err(e);
            },
        }
        match self.check_shared_addresses() {
            Ok(()) => {},
            Err(e) => {
                return Err(e);
            },
        }
        self.check_gws()
    }
}

} // verus!
