//! What a fabric has to be like, said of its rows alone; and that validation refuses exactly the
//! fabrics that are not.

use vstd::arithmetic::power2::pow2;
use vstd::prelude::*;

use crate::ipv4::{quad, Ipv4Addr};
use crate::model::laws::accepted;
use crate::model::lookup::{
    candidates, carried, has_zone, lemma_place_of, member_names, place_of, wire_domains,
    wire_names, workload_names, zone_names,
};
use crate::model::prefix::{lemma_span, Ipv4Prefix};
use crate::model::validate::{
    address_on, addressed, all_carried_refusal, carried_names, carried_refusal, carries_row,
    dup_refusal, fabric_wf, first, forward_refusal, gw_refusal, has_wire, holder, holds_address, is_port_name, legs,
    member_wires_refusal, name_taken, nodes, on_domain, one_carried_refusal, one_gw_refusal,
    one_pref_refusal, one_zone_domains, prefs_refusal, refusal, router_collision,
    row_block_refusal, row_carried, row_identity_refusal, row_refusal, rows_refusal, same_texts,
    segment_domain_refusal, segment_ifnames, segment_refusal, segment_tagged, segment_takes, segment_zone_refusal,
    shared_address, shared_addresses, shared_domain, undeclared_wire, universal_name_refusal,
    unknown_allow, unknown_pref_wire, unwired_domain, vids, vlan_place, wanted_wires, wired,
    wires_refusal, zone_block, zone_domain_refusal, zone_ids, zone_primary_refusal, zone_scopes,
    zone_segs, zone_takes,
};
use crate::model::{
    gw_name, identity_ifname, last_octet, leg_name, lemma_gw_name_fits, FabricV, MemberKind,
    MemberV, WirePrefV, WireV, WorkloadV, ZoneV,
};
use crate::text::{byte_len, dec, dup, fit, lemma_dec, lemma_dup_from, repeats};

verus! {

/// Is there a zone of this name?
pub open spec fn zone_exists(f: FabricV, name: Seq<char>) -> bool {
    exists|k: int| 0 <= k < f.zones.len() && (#[trigger] f.zones[k]).name == name
}

/// Is this zone on this domain, by a segment of its own there?
pub open spec fn zone_on(f: FabricV, zone: Seq<char>, domain: Seq<char>) -> bool {
    exists|s: int|
        0 <= s < f.segments.len() && (#[trigger] f.segments[s]).zone == zone
            && f.segments[s].scope == Some(domain)
}

// ---- domains and wires ----

/// There is a domain; every member has a wire, each on a declared domain and no two on the same
/// one; whatever names a domain names a declared one; and every declared one has a wire.
pub open spec fn domains_sound(f: FabricV) -> bool {
    &&& f.domains.len() > 0
    &&& forall|i: int| 0 <= i < f.members.len() ==> (#[trigger] f.members[i]).wires.len() > 0
    &&& forall|i: int, j: int|
        0 <= i < f.members.len() && 0 <= j < f.members[i].wires.len() ==> f.domains.contains(
            (#[trigger] f.members[i].wires[j]).domain,
        )
    &&& forall|i: int, j: int, k: int|
        0 <= i < f.members.len() && 0 <= j < k < f.members[i].wires.len() ==> (
        #[trigger] f.members[i].wires[j]).domain != (#[trigger] f.members[i].wires[k]).domain
    &&& forall|s: int|
        0 <= s < f.segments.len() && (#[trigger] f.segments[s]).scope is Some
            ==> f.domains.contains(f.segments[s].scope->0)
    &&& forall|z: int|
        0 <= z < f.zones.len() ==> f.domains.contains((#[trigger] f.zones[z]).primary)
    &&& forall|z: int|
        0 <= z < f.zones.len() && (#[trigger] f.zones[z]).gw is Some && f.zones[z].gw->0.scope
            is Some ==> f.domains.contains(f.zones[z].gw->0.scope->0)
    &&& forall|d: int|
        0 <= d < f.domains.len() ==> exists|i: int, j: int|
            0 <= i < f.members.len() && 0 <= j < f.members[i].wires.len() && (
            #[trigger] f.members[i].wires[j]).domain == #[trigger] f.domains[d]
}

proof fn lemma_undeclared(f: FabricV, m: MemberV, k: int)
    requires
        0 <= k,
    ensures
        undeclared_wire(f, m, k) is None <==> forall|j: int|
            k <= j < m.wires.len() ==> f.domains.contains((#[trigger] m.wires[j]).domain),
    decreases m.wires.len() - k,
{
    if k < m.wires.len() {
        lemma_undeclared(f, m, k + 1);
    }
}

proof fn lemma_unshared(m: MemberV, k: int)
    requires
        0 <= k,
    ensures
        shared_domain(m, k) is None <==> forall|i: int, j: int|
            0 <= i < j < m.wires.len() && k <= j ==> (#[trigger] m.wires[i]).domain != (
            #[trigger] m.wires[j]).domain,
    decreases m.wires.len() - k,
{
    if k < m.wires.len() {
        lemma_unshared(m, k + 1);
    }
}

proof fn lemma_wires(f: FabricV, k: int)
    requires
        0 <= k,
    ensures
        wires_refusal(f, k) is None <==> forall|i: int|
            k <= i < f.members.len() ==> member_wires_refusal(f, #[trigger] f.members[i]) is None,
    decreases f.members.len() - k,
{
    if k < f.members.len() {
        lemma_wires(f, k + 1);
    }
}

proof fn lemma_segment_domains(f: FabricV, k: int)
    requires
        0 <= k,
    ensures
        segment_domain_refusal(f, k) is None <==> forall|s: int|
            k <= s < f.segments.len() && (#[trigger] f.segments[s]).scope is Some
                ==> f.domains.contains(f.segments[s].scope->0),
    decreases f.segments.len() - k,
{
    if k < f.segments.len() {
        lemma_segment_domains(f, k + 1);
    }
}

proof fn lemma_zone_domains(f: FabricV, k: int)
    requires
        0 <= k,
    ensures
        zone_domain_refusal(f, k) is None <==> forall|z: int|
            k <= z < f.zones.len() ==> one_zone_domains(f, #[trigger] f.zones[z]) is None,
    decreases f.zones.len() - k,
{
    if k < f.zones.len() {
        lemma_zone_domains(f, k + 1);
    }
}

proof fn lemma_unwired(f: FabricV, k: int)
    requires
        0 <= k,
    ensures
        unwired_domain(f, k) is None <==> forall|d: int|
            k <= d < f.domains.len() ==> wired(f, #[trigger] f.domains[d]),
    decreases f.domains.len() - k,
{
    if k < f.domains.len() {
        lemma_unwired(f, k + 1);
    }
}

proof fn lemma_on_domain(m: MemberV, d: Seq<char>)
    ensures
        on_domain(m, d) <==> exists|j: int|
            0 <= j < m.wires.len() && (#[trigger] m.wires[j]).domain == d,
{
    let w = wire_domains(m.wires);
    lemma_place_of(w, d, 0);
    let p = place_of(w, d, 0);
    if on_domain(m, d) {
        assert(w[p] == d);
        assert(m.wires[p].domain == d);
    }
    if exists|j: int| 0 <= j < m.wires.len() && (#[trigger] m.wires[j]).domain == d {
        let j = choose|j: int| 0 <= j < m.wires.len() && (#[trigger] m.wires[j]).domain == d;
        assert(w[j] == d);
    }
}

proof fn lemma_wired(f: FabricV, d: Seq<char>)
    ensures
        wired(f, d) <==> exists|i: int, j: int|
            0 <= i < f.members.len() && 0 <= j < f.members[i].wires.len() && (
            #[trigger] f.members[i].wires[j]).domain == d,
{
    if wired(f, d) {
        let i = choose|i: int| 0 <= i < f.members.len() && on_domain(#[trigger] f.members[i], d);
        lemma_on_domain(f.members[i], d);
        let j = choose|j: int|
            0 <= j < f.members[i].wires.len() && (#[trigger] f.members[i].wires[j]).domain == d;
        assert(f.members[i].wires[j].domain == d);
    }
    if exists|i: int, j: int|
        0 <= i < f.members.len() && 0 <= j < f.members[i].wires.len() && (
        #[trigger] f.members[i].wires[j]).domain == d {
        let (i, j) = choose|i: int, j: int|
            0 <= i < f.members.len() && 0 <= j < f.members[i].wires.len() && (
            #[trigger] f.members[i].wires[j]).domain == d;
        lemma_on_domain(f.members[i], d);
        assert(on_domain(f.members[i], d));
    }
}

proof fn lemma_domains_refused(f: FabricV)
    requires
        f.domains.len() > 0,
        wires_refusal(f, 0) is None,
        segment_domain_refusal(f, 0) is None,
        zone_domain_refusal(f, 0) is None,
        unwired_domain(f, 0) is None,
    ensures
        domains_sound(f),
{
    lemma_wires(f, 0);
    lemma_segment_domains(f, 0);
    lemma_zone_domains(f, 0);
    lemma_unwired(f, 0);
    assert forall|i: int| 0 <= i < f.members.len() implies {
        &&& (#[trigger] f.members[i]).wires.len() > 0
        &&& undeclared_wire(f, f.members[i], 0) is None
        &&& shared_domain(f.members[i], 0) is None
    } by {
        assert(member_wires_refusal(f, f.members[i]) is None);
    }
    assert forall|i: int, j: int|
        0 <= i < f.members.len() && 0 <= j < f.members[i].wires.len() implies f.domains.contains(
        (#[trigger] f.members[i].wires[j]).domain,
    ) by {
        lemma_undeclared(f, f.members[i], 0);
    }
    assert forall|i: int, j: int, k: int|
        0 <= i < f.members.len() && 0 <= j < k < f.members[i].wires.len() implies (
    #[trigger] f.members[i].wires[j]).domain != (#[trigger] f.members[i].wires[k]).domain by {
        lemma_unshared(f.members[i], 0);
    }
    assert forall|z: int| 0 <= z < f.zones.len() implies f.domains.contains(
        (#[trigger] f.zones[z]).primary,
    ) && (f.zones[z].gw is Some && f.zones[z].gw->0.scope is Some ==> f.domains.contains(
        f.zones[z].gw->0.scope->0,
    )) by {
        assert(one_zone_domains(f, f.zones[z]) is None);
    }
    assert forall|d: int| 0 <= d < f.domains.len() implies exists|i: int, j: int|
        0 <= i < f.members.len() && 0 <= j < f.members[i].wires.len() && (
        #[trigger] f.members[i].wires[j]).domain == #[trigger] f.domains[d] by {
        lemma_wired(f, f.domains[d]);
    }
}

proof fn lemma_domains_pass(f: FabricV)
    requires
        domains_sound(f),
    ensures
        wires_refusal(f, 0) is None,
        segment_domain_refusal(f, 0) is None,
        zone_domain_refusal(f, 0) is None,
        unwired_domain(f, 0) is None,
{
    assert forall|i: int| 0 <= i < f.members.len() implies member_wires_refusal(
        f,
        #[trigger] f.members[i],
    ) is None by {
        lemma_undeclared(f, f.members[i], 0);
        lemma_unshared(f.members[i], 0);
    }
    assert forall|z: int| 0 <= z < f.zones.len() implies one_zone_domains(
        f,
        #[trigger] f.zones[z],
    ) is None by {
        let z = f.zones[z];
    }
    assert forall|d: int| 0 <= d < f.domains.len() implies wired(f, #[trigger] f.domains[d]) by {
        lemma_wired(f, f.domains[d]);
    }
    lemma_wires(f, 0);
    lemma_segment_domains(f, 0);
    lemma_zone_domains(f, 0);
    lemma_unwired(f, 0);
}

// ---- segments, zones and members ----

/// No two segments share a tag, an interface name, or, within a zone, a number or a scope; each
/// is of a declared zone; and the name of one that is on every wire leaves two bytes of fifteen
/// for its ports.
pub open spec fn segments_sound(f: FabricV) -> bool {
    &&& forall|i: int, j: int|
        0 <= i < j < f.segments.len() ==> {
            let a = #[trigger] f.segments[i];
            let b = #[trigger] f.segments[j];
            &&& a.vid != b.vid
            &&& a.ifname != b.ifname
            &&& a.zone + ":"@ + dec(a.seg as nat) != b.zone + ":"@ + dec(b.seg as nat)
            &&& a.zone + ":"@ + (if a.scope is Some {
                a.scope->0
            } else {
                "any"@
            }) != b.zone + ":"@ + (if b.scope is Some {
                b.scope->0
            } else {
                "any"@
            })
        }
    &&& forall|s: int| 0 <= s < f.segments.len() ==> zone_exists(f, (#[trigger] f.segments[s]).zone)
    &&& forall|s: int|
        0 <= s < f.segments.len() && (#[trigger] f.segments[s]).scope is None ==> byte_len(
            f.segments[s].ifname,
        ) <= 13
}

/// Zones have numbers, no two the same, and a segment on their primary domain. No two members
/// share a name or a node.
pub open spec fn zones_and_members_sound(f: FabricV) -> bool {
    &&& forall|i: int, j: int|
        0 <= i < j < f.zones.len() ==> (#[trigger] f.zones[i]).id != (#[trigger] f.zones[j]).id
    &&& forall|z: int|
        0 <= z < f.zones.len() ==> 1 <= (#[trigger] f.zones[z]).id && zone_on(
            f,
            f.zones[z].name,
            f.zones[z].primary,
        )
    &&& forall|i: int, j: int|
        0 <= i < j < f.members.len() ==> (#[trigger] f.members[i]).name != (
        #[trigger] f.members[j]).name && f.members[i].node != f.members[j].node
}

proof fn lemma_no_dup(items: Seq<Seq<char>>)
    ensures
        dup(items) is None <==> forall|i: int, j: int|
            0 <= i < j < items.len() ==> #[trigger] items[i] != #[trigger] items[j],
{
    lemma_dup_from(items, 0);
    if dup(items) is None {
        assert forall|i: int, j: int| 0 <= i < j < items.len() implies #[trigger] items[i]
            != #[trigger] items[j] by {
            assert(!repeats(items, j));
        }
    }
}

proof fn lemma_dec_differs(a: nat, b: nat)
    ensures
        dec(a) == dec(b) <==> a == b,
{
    lemma_dec(a);
    lemma_dec(b);
}

proof fn lemma_zone_exists(f: FabricV, name: Seq<char>)
    ensures
        has_zone(f, name) <==> zone_exists(f, name),
{
    let n = zone_names(f.zones);
    lemma_place_of(n, name, 0);
    let p = place_of(n, name, 0);
    if has_zone(f, name) {
        assert(n[p] == name);
        assert(f.zones[p].name == name);
    }
    if zone_exists(f, name) {
        let k = choose|k: int| 0 <= k < f.zones.len() && (#[trigger] f.zones[k]).name == name;
        assert(n[k] == name);
    }
}

proof fn lemma_segment_zones(f: FabricV, k: int)
    requires
        0 <= k,
    ensures
        segment_zone_refusal(f, k) is None <==> forall|s: int|
            k <= s < f.segments.len() ==> zone_exists(f, (#[trigger] f.segments[s]).zone),
    decreases f.segments.len() - k,
{
    if k < f.segments.len() {
        lemma_segment_zones(f, k + 1);
        lemma_zone_exists(f, f.segments[k].zone);
    }
}

proof fn lemma_universal_names(f: FabricV, k: int)
    requires
        0 <= k,
    ensures
        universal_name_refusal(f, k) is None <==> forall|s: int|
            k <= s < f.segments.len() && (#[trigger] f.segments[s]).scope is None ==> byte_len(
                f.segments[s].ifname,
            ) <= 13,
    decreases f.segments.len() - k,
{
    if k < f.segments.len() {
        lemma_universal_names(f, k + 1);
    }
}

proof fn lemma_primaries(f: FabricV, k: int)
    requires
        0 <= k,
    ensures
        zone_primary_refusal(f, k) is None <==> forall|z: int|
            k <= z < f.zones.len() ==> 1 <= (#[trigger] f.zones[z]).id && zone_on(
                f,
                f.zones[z].name,
                f.zones[z].primary,
            ),
    decreases f.zones.len() - k,
{
    if k < f.zones.len() {
        lemma_primaries(f, k + 1);
        assert(carried(f, f.zones[k].name, f.zones[k].primary) <==> zone_on(
            f,
            f.zones[k].name,
            f.zones[k].primary,
        ));
    }
}

proof fn lemma_segments(f: FabricV)
    ensures
        (dup(vids(f.segments)) is None && dup(zone_segs(f.segments)) is None && dup(
            zone_scopes(f.segments),
        ) is None && dup(segment_ifnames(f.segments)) is None && segment_zone_refusal(f, 0) is None
            && universal_name_refusal(f, 0) is None) <==> segments_sound(f),
{
    let s = f.segments;
    lemma_segment_zones(f, 0);
    lemma_universal_names(f, 0);
    lemma_no_dup(vids(s));
    lemma_no_dup(zone_segs(s));
    lemma_no_dup(zone_scopes(s));
    lemma_no_dup(segment_ifnames(s));
    if dup(vids(s)) is None && dup(zone_segs(s)) is None && dup(zone_scopes(s)) is None && dup(
        segment_ifnames(s),
    ) is None {
        assert forall|i: int, j: int| 0 <= i < j < s.len() implies ({
            let a = #[trigger] s[i];
            let b = #[trigger] s[j];
            &&& a.vid != b.vid
            &&& a.ifname != b.ifname
            &&& a.zone + ":"@ + dec(a.seg as nat) != b.zone + ":"@ + dec(b.seg as nat)
            &&& a.zone + ":"@ + (if a.scope is Some {
                a.scope->0
            } else {
                "any"@
            }) != b.zone + ":"@ + (if b.scope is Some {
                b.scope->0
            } else {
                "any"@
            })
        }) by {
            lemma_dec_differs(s[i].vid as nat, s[j].vid as nat);
            assert(vids(s)[i] != vids(s)[j]);
            assert(zone_segs(s)[i] != zone_segs(s)[j]);
            assert(zone_scopes(s)[i] != zone_scopes(s)[j]);
            assert(segment_ifnames(s)[i] != segment_ifnames(s)[j]);
        }
    }
    if segments_sound(f) {
        assert forall|i: int, j: int| 0 <= i < j < s.len() implies #[trigger] vids(s)[i]
            != #[trigger] vids(s)[j] by {
            lemma_dec_differs(s[i].vid as nat, s[j].vid as nat);
            assert(s[i].vid != s[j].vid);
        }
        assert forall|i: int, j: int| 0 <= i < j < s.len() implies #[trigger] zone_segs(s)[i]
            != #[trigger] zone_segs(s)[j] by {
            let a = s[i];
            let b = s[j];
        }
        assert forall|i: int, j: int| 0 <= i < j < s.len() implies #[trigger] zone_scopes(s)[i]
            != #[trigger] zone_scopes(s)[j] by {
            let a = s[i];
            let b = s[j];
        }
        assert forall|i: int, j: int| 0 <= i < j < s.len() implies #[trigger] segment_ifnames(s)[i]
            != #[trigger] segment_ifnames(s)[j] by {
            let a = s[i];
            let b = s[j];
        }
    }
}

proof fn lemma_zones_and_members(f: FabricV)
    ensures
        (dup(zone_ids(f.zones)) is None && zone_primary_refusal(f, 0) is None && dup(
            member_names(f.members),
        ) is None && dup(nodes(f.members)) is None) <==> zones_and_members_sound(f),
{
    lemma_primaries(f, 0);
    lemma_no_dup(zone_ids(f.zones));
    lemma_no_dup(member_names(f.members));
    lemma_no_dup(nodes(f.members));
    let z = f.zones;
    let m = f.members;
    assert forall|i: int, j: int| 0 <= i < j < z.len() implies (#[trigger] zone_ids(z)[i]
        == #[trigger] zone_ids(z)[j] <==> z[i].id == z[j].id) by {
        lemma_dec_differs(z[i].id as nat, z[j].id as nat);
    }
    assert forall|i: int, j: int| 0 <= i < j < m.len() implies (#[trigger] nodes(m)[i]
        == #[trigger] nodes(m)[j] <==> m[i].node == m[j].node) by {
        lemma_dec_differs(m[i].node as nat, m[j].node as nat);
    }
    if dup(zone_ids(z)) is None && dup(member_names(m)) is None && dup(nodes(m)) is None {
        assert forall|i: int, j: int| 0 <= i < j < z.len() implies (#[trigger] z[i]).id != (
        #[trigger] z[j]).id by {
            assert(zone_ids(z)[i] != zone_ids(z)[j]);
        }
        assert forall|i: int, j: int| 0 <= i < j < m.len() implies (#[trigger] m[i]).name != (
        #[trigger] m[j]).name && m[i].node != m[j].node by {
            assert(member_names(m)[i] != member_names(m)[j]);
            assert(nodes(m)[i] != nodes(m)[j]);
        }
    }
    if zones_and_members_sound(f) {
        assert forall|i: int, j: int| 0 <= i < j < z.len() implies #[trigger] zone_ids(z)[i]
            != #[trigger] zone_ids(z)[j] by {
            assert(z[i].id != z[j].id);
        }
        assert forall|i: int, j: int| 0 <= i < j < m.len() implies #[trigger] nodes(m)[i]
            != #[trigger] nodes(m)[j] && member_names(m)[i] != member_names(m)[j] by {
            assert(m[i].node != m[j].node);
        }
        assert forall|i: int, j: int| 0 <= i < j < m.len() implies #[trigger] member_names(m)[i]
            != #[trigger] member_names(m)[j] by {
            assert(m[i].name != m[j].name);
        }
    }
}

// ---- overrides and forwarding ----

/// An override is of a declared zone, and its order is exactly the wires of its member that the
/// zone is on, each once. What may be forwarded is between declared zones.
pub open spec fn orders_sound(f: FabricV) -> bool {
    &&& forall|p: int|
        0 <= p < f.wire_prefs.len() ==> zone_exists(f, (#[trigger] f.wire_prefs[p]).zone)
    &&& forall|p: int, a: int, b: int|
        0 <= p < f.wire_prefs.len() && 0 <= a < b < f.wire_prefs[p].order.len() ==> (
        #[trigger] f.wire_prefs[p].order[a]) != #[trigger] f.wire_prefs[p].order[b]
    &&& forall|p: int, i: int|
        #![trigger f.wire_prefs[p], f.members[i]]
        0 <= p < f.wire_prefs.len() && 0 <= i < f.members.len() && f.wire_prefs[p].member
            == f.members[i].name ==> order_sound(f, f.members[i], f.wire_prefs[p])
    &&& forall|p: int|
        0 <= p < f.forward_allow.len() ==> zone_exists(f, (#[trigger] f.forward_allow[p]).0)
            && zone_exists(f, f.forward_allow[p].1)
}

/// The texts of the order are the names of the member's wires that the zone is on.
pub open spec fn order_sound(f: FabricV, m: MemberV, p: WirePrefV) -> bool {
    &&& forall|a: int|
        0 <= a < p.order.len() ==> exists|w: int|
            0 <= w < m.wires.len() && (#[trigger] m.wires[w]).name == #[trigger] p.order[a]
                && zone_on(f, p.zone, m.wires[w].domain)
    &&& forall|w: int|
        0 <= w < m.wires.len() && zone_on(f, p.zone, (#[trigger] m.wires[w]).domain)
            ==> p.order.contains(m.wires[w].name)
}

/// What is among the wires that can carry the zone.
proof fn lemma_candidates(f: FabricV, wires: Seq<WireV>, zone: Seq<char>, n: int, name: Seq<char>)
    requires
        0 <= n <= wires.len(),
    ensures
        wire_names(candidates(f, wires, zone, n)).contains(name) <==> exists|w: int|
            0 <= w < n && (#[trigger] wires[w]).name == name && zone_on(f, zone, wires[w].domain),
    decreases n,
{
    if n > 0 {
        lemma_candidates(f, wires, zone, n - 1, name);
        let c = candidates(f, wires, zone, n - 1);
        let old = wire_names(c);
        let now = wire_names(candidates(f, wires, zone, n));
        assert(carried(f, zone, wires[n - 1].domain) <==> zone_on(f, zone, wires[n - 1].domain));
        if zone_on(f, zone, wires[n - 1].domain) {
            assert(now =~= old.push(wires[n - 1].name));
            if old.contains(name) {
                let k = choose|k: int| 0 <= k < old.len() && old[k] == name;
                assert(now[k] == name);
            }
            if wires[n - 1].name == name {
                assert(now[old.len() as int] == name);
            }
            if now.contains(name) && wires[n - 1].name != name {
                let k = choose|k: int| 0 <= k < now.len() && now[k] == name;
                assert(old[k] == name);
            }
        }
    }
}

proof fn lemma_unknown_pref(m: MemberV, p: WirePrefV, k: int)
    requires
        0 <= k,
    ensures
        unknown_pref_wire(m, p, k) is None <==> forall|a: int|
            k <= a < p.order.len() ==> exists|w: int|
                0 <= w < m.wires.len() && (#[trigger] m.wires[w]).name == #[trigger] p.order[a],
    decreases p.order.len() - k,
{
    if k < p.order.len() {
        lemma_unknown_pref(m, p, k + 1);
        let n = wire_names(m.wires);
        lemma_place_of(n, p.order[k], 0);
        let q = place_of(n, p.order[k], 0);
        if q < m.wires.len() {
            assert(n[q] == p.order[k]);
            assert(m.wires[q].name == p.order[k]);
        }
        if exists|w: int| 0 <= w < m.wires.len() && (#[trigger] m.wires[w]).name == p.order[k] {
            let w = choose|w: int|
                0 <= w < m.wires.len() && (#[trigger] m.wires[w]).name == p.order[k];
            assert(n[w] == p.order[k]);
        }
    }
}

proof fn lemma_one_pref(f: FabricV, p: WirePrefV)
    ensures
        ({
            let m = f.members[place_of(member_names(f.members), p.member, 0)];
            one_pref_refusal(f, p) is None <==> zone_exists(f, p.zone) && dup(p.order) is None
                && order_sound(f, m, p)
        }),
{
    let m = f.members[place_of(member_names(f.members), p.member, 0)];
    let want = wanted_wires(f, m, p.zone);
    let n = m.wires.len() as int;
    lemma_zone_exists(f, p.zone);
    lemma_unknown_pref(m, p, 0);
    if same_texts(p.order, want) {
        assert forall|a: int| 0 <= a < p.order.len() implies exists|w: int|
            0 <= w < m.wires.len() && (#[trigger] m.wires[w]).name == #[trigger] p.order[a]
                && zone_on(f, p.zone, m.wires[w].domain) by {
            assert(want.contains(p.order[a]));
            lemma_candidates(f, m.wires, p.zone, n, p.order[a]);
        }
        assert forall|w: int|
            0 <= w < m.wires.len() && zone_on(
                f,
                p.zone,
                (#[trigger] m.wires[w]).domain,
            ) implies p.order.contains(m.wires[w].name) by {
            lemma_candidates(f, m.wires, p.zone, n, m.wires[w].name);
            let k = choose|k: int| 0 <= k < want.len() && want[k] == m.wires[w].name;
            assert(p.order.contains(want[k]));
        }
    }
    if order_sound(f, m, p) {
        assert forall|a: int| 0 <= a < p.order.len() implies want.contains(#[trigger] p.order[a]) by {
            lemma_candidates(f, m.wires, p.zone, n, p.order[a]);
        }
        assert forall|a: int| 0 <= a < want.len() implies p.order.contains(#[trigger] want[a]) by {
            lemma_candidates(f, m.wires, p.zone, n, want[a]);
            assert(want.contains(want[a]));
            let w = choose|w: int|
                0 <= w < n && (#[trigger] m.wires[w]).name == want[a] && zone_on(
                    f,
                    p.zone,
                    m.wires[w].domain,
                );
            assert(p.order.contains(m.wires[w].name));
        }
        assert forall|a: int| 0 <= a < p.order.len() implies exists|w: int|
            0 <= w < m.wires.len() && (#[trigger] m.wires[w]).name == #[trigger] p.order[a] by {}
    }
}

proof fn lemma_prefs(f: FabricV, k: int)
    requires
        0 <= k,
    ensures
        prefs_refusal(f, k) is None <==> forall|p: int|
            k <= p < f.wire_prefs.len() ==> one_pref_refusal(f, #[trigger] f.wire_prefs[p]) is None,
    decreases f.wire_prefs.len() - k,
{
    if k < f.wire_prefs.len() {
        lemma_prefs(f, k + 1);
    }
}

proof fn lemma_forward(f: FabricV, k: int)
    requires
        0 <= k,
    ensures
        forward_refusal(f, k) is None <==> forall|p: int|
            k <= p < f.forward_allow.len() ==> zone_exists(f, (#[trigger] f.forward_allow[p]).0)
                && zone_exists(f, f.forward_allow[p].1),
    decreases f.forward_allow.len() - k,
{
    if k < f.forward_allow.len() {
        lemma_forward(f, k + 1);
        lemma_zone_exists(f, f.forward_allow[k].0);
        lemma_zone_exists(f, f.forward_allow[k].1);
    }
}

proof fn lemma_orders(f: FabricV)
    requires
        fabric_wf(f),
        zones_and_members_sound(f),
    ensures
        (prefs_refusal(f, 0) is None && forward_refusal(f, 0) is None) <==> orders_sound(f),
{
    lemma_prefs(f, 0);
    lemma_forward(f, 0);
    let n = member_names(f.members);
    assert forall|p: int, i: int|
        #![trigger f.wire_prefs[p], f.members[i]]
        0 <= p < f.wire_prefs.len() && 0 <= i < f.members.len() && f.wire_prefs[p].member
            == f.members[i].name implies place_of(n, f.wire_prefs[p].member, 0) == i by {
        let x = f.wire_prefs[p].member;
        lemma_place_of(n, x, 0);
        let q = place_of(n, x, 0);
        assert(n[i] == x);
        assert(q <= i);
        assert(n[q] == x);
        if q < i {
            assert(f.members[q].name != f.members[i].name);
        }
    }
    if prefs_refusal(f, 0) is None {
        assert forall|p: int| 0 <= p < f.wire_prefs.len() implies zone_exists(
            f,
            (#[trigger] f.wire_prefs[p]).zone,
        ) && dup(f.wire_prefs[p].order) is None && order_sound(
            f,
            f.members[place_of(n, f.wire_prefs[p].member, 0)],
            f.wire_prefs[p],
        ) by {
            lemma_one_pref(f, f.wire_prefs[p]);
        }
        assert forall|p: int, a: int, b: int|
            0 <= p < f.wire_prefs.len() && 0 <= a < b < f.wire_prefs[p].order.len() implies (
        #[trigger] f.wire_prefs[p].order[a]) != #[trigger] f.wire_prefs[p].order[b] by {
            lemma_no_dup(f.wire_prefs[p].order);
        }
    }
    if orders_sound(f) {
        assert forall|p: int| 0 <= p < f.wire_prefs.len() implies one_pref_refusal(
            f,
            #[trigger] f.wire_prefs[p],
        ) is None by {
            let x = f.wire_prefs[p];
            lemma_one_pref(f, x);
            lemma_no_dup(x.order);
            lemma_place_of(n, x.member, 0);
            let q = place_of(n, x.member, 0);
            assert(crate::model::lookup::has_member(f, x.member));
            assert(n[q] == x.member);
            assert(f.members[q].name == x.member);
        }
    }
}

// ---- workloads ----

/// How many addresses a prefix has.
pub open spec fn size(p: Ipv4Prefix) -> int {
    pow2((32 - p.len) as nat) as int
}

/// A prefix begins at a multiple of its size.
pub open spec fn begins_whole(p: Ipv4Prefix) -> bool {
    p.len <= 32 && p.net.bits as int % size(p) == 0
}

/// Is this one of the prefix's addresses?
pub open spec fn inside(p: Ipv4Prefix, a: Ipv4Addr) -> bool {
    p.net.bits <= a.bits < p.net.bits + size(p)
}

/// Is this an address that a host of the prefix can have: neither its first nor its last?
pub open spec fn host_of(p: Ipv4Prefix, a: Ipv4Addr) -> bool {
    p.net.bits < a.bits < p.net.bits + size(p) - 1
}

/// Is there a wire, a segment, a port of a bond, or an ingress or identity leg of this name?
pub open spec fn name_in_use(f: FabricV, name: Seq<char>) -> bool {
    ||| exists|i: int, j: int|
        0 <= i < f.members.len() && 0 <= j < f.members[i].wires.len() && (
        #[trigger] f.members[i].wires[j]).name == name
    ||| exists|s: int| 0 <= s < f.segments.len() && (#[trigger] f.segments[s]).ifname == name
    ||| exists|s: int, d: int|
        0 <= s < f.segments.len() && 0 <= d < f.domains.len() && (#[trigger] f.segments[s]).scope
            is None && name == f.segments[s].ifname + "-"@ + #[trigger] f.domains[d]
    ||| exists|z: int|
        0 <= z < f.zones.len() && (name == "cfab-gw"@ + dec((#[trigger] f.zones[z]).id as nat)
            || name == "cfab-id"@ + dec(f.zones[z].id as nat) || name == "cfab-id"@ + dec(
            f.zones[z].id as nat,
        ) + "-peer"@)
    ||| exists|z: int, d: int|
        0 <= z < f.zones.len() && 0 <= d < f.domains.len() && (#[trigger] f.zones[z]).gw is Some
            && f.zones[z].gw->0.scope is None && name == "cfab-gw"@ + dec(f.zones[z].id as nat)
            + "-"@ + #[trigger] f.domains[d]
}

/// Does some member hold this address on the workload of this name?
pub open spec fn held_on(f: FabricV, row: Seq<char>, a: Ipv4Addr) -> bool {
    exists|i: int, j: int|
        0 <= i < f.members.len() && 0 <= j < f.members[i].workloads.len() && (
        #[trigger] f.members[i].workloads[j]).name == row && f.members[i].workloads[j].address == a
}

/// The workload's own rules: a network of at most 1024 addresses, apart from every zone's block,
/// with a host of it for a gateway; a relay's server off it; and at least one declared zone to
/// reach, over hosts that forward.
pub open spec fn workload_sound(f: FabricV, w: WorkloadV) -> bool {
    &&& !zone_exists(f, w.name)
    &&& !name_in_use(f, "cfab-work-"@ + fit(w.name, 5))
    &&& 22 <= w.prefix.len
    &&& host_of(w.prefix, w.gw)
    &&& w.dhcp_server is Some ==> {
        let a = w.dhcp_server->0;
        &&& !inside(w.prefix, a)
        &&& !held_on(f, w.name, a)
        &&& a.bits != 0
        &&& a.bits != 0xffff_ffff
    }
    &&& forall|z: int|
        0 <= z < f.zones.len() ==> w.prefix.net.bits as int / 65536 != 2560 + (
        #[trigger] f.zones[z]).id
    &&& w.allow.len() > 0
    &&& f.host_forward
    &&& forall|a: int| 0 <= a < w.allow.len() ==> zone_exists(f, #[trigger] w.allow[a])
    &&& exists|i: int, j: int|
        0 <= i < f.members.len() && 0 <= j < f.members[i].workloads.len() && (
        #[trigger] f.members[i].workloads[j]).name == w.name
}

/// Workloads are sound, each with a name, a leg, and a bridge and tag of its own.
pub open spec fn rows_sound(f: FabricV) -> bool {
    &&& forall|k: int| 0 <= k < f.workloads.len() ==> workload_sound(f, #[trigger] f.workloads[k])
    &&& forall|j: int, k: int|
        0 <= j < k < f.workloads.len() ==> {
            let a = #[trigger] f.workloads[j];
            let b = #[trigger] f.workloads[k];
            &&& a.name != b.name
            &&& fit(a.name, 5) != fit(b.name, 5)
            &&& !(a.uplink == b.uplink && a.vid == b.vid)
        }
}

/// What a member carries as its entry `j` is a declared workload, once, by a host, at a host's
/// address in its network that is not the gateway's.
pub open spec fn entry_sound(f: FabricV, m: MemberV, j: int) -> bool {
    let c = m.workloads[j];
    &&& m.kind == MemberKind::Host
    &&& forall|i: int| 0 <= i < j ==> (#[trigger] m.workloads[i]).name != c.name
    &&& exists|k: int|
        0 <= k < f.workloads.len() && (#[trigger] f.workloads[k]).name == c.name && c.len
            == f.workloads[k].prefix.len && host_of(f.workloads[k].prefix, c.address) && c.address
            != f.workloads[k].gw
}

pub open spec fn entries_sound(f: FabricV) -> bool {
    forall|i: int, j: int|
        #![trigger f.members[i].workloads[j]]
        0 <= i < f.members.len() && 0 <= j < f.members[i].workloads.len() ==> entry_sound(
            f,
            f.members[i],
            j,
        )
}

/// No two members hold the same address on a workload.
pub open spec fn addresses_apart(f: FabricV) -> bool {
    forall|i: int, j: int, m: int, n: int|
        0 <= i < m < f.members.len() && 0 <= j < f.members[i].workloads.len() && 0 <= n
            < f.members[m].workloads.len() ==> {
            let a = #[trigger] f.members[i].workloads[j];
            let b = #[trigger] f.members[m].workloads[n];
            a.name == b.name ==> a.address != b.address
        }
}

/// An ingress has a tag that no segment has, and a router whose last octet is no member's node.
pub open spec fn ingress_sound(f: FabricV) -> bool {
    forall|z: int|
        0 <= z < f.zones.len() && (#[trigger] f.zones[z]).gw is Some ==> {
            &&& forall|s: int|
                0 <= s < f.segments.len() ==> (#[trigger] f.segments[s]).vid
                    != f.zones[z].gw->0.vid
            &&& forall|m: int|
                0 <= m < f.members.len() ==> last_octet(f.zones[z].gw->0.router) != Some(
                    (#[trigger] f.members[m]).node as nat,
                )
        }
}

/// Where an address of a whole prefix stands.
proof fn lemma_inside(p: Ipv4Prefix, a: Ipv4Addr)
    requires
        begins_whole(p),
    ensures
        p.holds(a) <==> inside(p, a),
        p.last_bits() == p.net.bits + size(p) - 1,
        (p.holds(a) && a != p.net && a.bits != p.last_bits()) <==> host_of(p, a),
{
    lemma_span(p.len as int);
    crate::model::prefix::lemma_holds_range(p, a);
    if a.bits == p.net.bits {
        assert(a == p.net);
    }
}

/// A small prefix meets a block of 65536 addresses only where it stands in it.
proof fn lemma_block(p: Ipv4Prefix, id: u8)
    requires
        p.len <= 32,
        16 <= p.len,
    ensures
        p.meets(zone_block(id)) <==> p.net.bits as int / 65536 == 2560 + id,
{
    vstd::arithmetic::power2::lemma2_to64();
    let x = p.net.bits as int;
    let y = quad(10, id as int, 0, 0);
    assert(y == (2560 + id) * 65536);
    assert(y as u32 == y);
    assert(crate::model::prefix::span(16) == 65536);
    assert(x - x % 65536 == 65536 * (x / 65536));
    assert(y % 65536 == 0);
}

proof fn lemma_port_name(f: FabricV, bond: Seq<char>, name: Seq<char>)
    ensures
        is_port_name(f, bond, name) <==> exists|d: int|
            0 <= d < f.domains.len() && name == bond + "-"@ + #[trigger] f.domains[d],
{
}

proof fn lemma_name_in_use(f: FabricV, name: Seq<char>)
    ensures
        name_taken(f, name) <==> name_in_use(f, name),
{
    if name_taken(f, name) {
        if exists|i: int| 0 <= i < f.members.len() && has_wire(#[trigger] f.members[i], name) {
            let i = choose|i: int|
                0 <= i < f.members.len() && has_wire(#[trigger] f.members[i], name);
            let j = choose|j: int|
                0 <= j < f.members[i].wires.len() && (#[trigger] f.members[i].wires[j]).name
                    == name;
            assert(f.members[i].wires[j].name == name);
        } else if exists|s: int|
            0 <= s < f.segments.len() && segment_takes(f, #[trigger] f.segments[s], name) {
            let s = choose|s: int|
                0 <= s < f.segments.len() && segment_takes(f, #[trigger] f.segments[s], name);
            if f.segments[s].ifname != name {
                let d = choose|d: int|
                    0 <= d < f.domains.len() && name == f.segments[s].ifname + "-"@
                        + #[trigger] f.domains[d];
                assert(name == f.segments[s].ifname + "-"@ + f.domains[d]);
            }
        } else {
            let z = choose|z: int|
                0 <= z < f.zones.len() && zone_takes(f, #[trigger] f.zones[z], name);
            let id = f.zones[z].id;
            if name != gw_name(id) && name != identity_ifname(id) && name
                != crate::model::identity_peer(id) {
                let d = choose|d: int|
                    0 <= d < f.domains.len() && name == gw_name(id) + "-"@
                        + #[trigger] f.domains[d];
                assert(name == "cfab-gw"@ + dec(id as nat) + "-"@ + f.domains[d]);
            }
        }
    }
    if name_in_use(f, name) {
        if exists|i: int, j: int|
            0 <= i < f.members.len() && 0 <= j < f.members[i].wires.len() && (
            #[trigger] f.members[i].wires[j]).name == name {
            let (i, j) = choose|i: int, j: int|
                0 <= i < f.members.len() && 0 <= j < f.members[i].wires.len() && (
                #[trigger] f.members[i].wires[j]).name == name;
            assert(has_wire(f.members[i], name));
        } else if exists|s: int|
            0 <= s < f.segments.len() && (#[trigger] f.segments[s]).ifname == name {
            let s = choose|s: int|
                0 <= s < f.segments.len() && (#[trigger] f.segments[s]).ifname == name;
            assert(segment_takes(f, f.segments[s], name));
        } else if exists|s: int, d: int|
            0 <= s < f.segments.len() && 0 <= d < f.domains.len() && (
            #[trigger] f.segments[s]).scope is None && name == f.segments[s].ifname + "-"@
                + #[trigger] f.domains[d] {
            let (s, d) = choose|s: int, d: int|
                0 <= s < f.segments.len() && 0 <= d < f.domains.len() && (
                #[trigger] f.segments[s]).scope is None && name == f.segments[s].ifname + "-"@
                    + #[trigger] f.domains[d];
            assert(is_port_name(f, f.segments[s].ifname, name));
            assert(segment_takes(f, f.segments[s], name));
        } else if exists|z: int|
            0 <= z < f.zones.len() && (name == "cfab-gw"@ + dec((#[trigger] f.zones[z]).id as nat)
                || name == "cfab-id"@ + dec(f.zones[z].id as nat) || name == "cfab-id"@ + dec(
                f.zones[z].id as nat,
            ) + "-peer"@) {
            let z = choose|z: int|
                0 <= z < f.zones.len() && (name == "cfab-gw"@ + dec(
                    (#[trigger] f.zones[z]).id as nat,
                ) || name == "cfab-id"@ + dec(f.zones[z].id as nat) || name == "cfab-id"@ + dec(
                    f.zones[z].id as nat,
                ) + "-peer"@);
            assert(zone_takes(f, f.zones[z], name));
        } else {
            let (z, d) = choose|z: int, d: int|
                0 <= z < f.zones.len() && 0 <= d < f.domains.len() && (#[trigger] f.zones[z]).gw
                    is Some && f.zones[z].gw->0.scope is None && name == "cfab-gw"@ + dec(
                    f.zones[z].id as nat,
                ) + "-"@ + #[trigger] f.domains[d];
            assert(is_port_name(f, gw_name(f.zones[z].id), name));
            assert(zone_takes(f, f.zones[z], name));
        }
    }
}

proof fn lemma_holder(f: FabricV, row: Seq<char>, a: Ipv4Addr, k: int)
    requires
        0 <= k <= f.members.len(),
    ensures
        k <= holder(f, row, a, k) <= f.members.len(),
        holder(f, row, a, k) < f.members.len() <==> exists|i: int|
            k <= i < f.members.len() && holds_address(#[trigger] f.members[i], row, a),
    decreases f.members.len() - k,
{
    if k < f.members.len() {
        if holds_address(f.members[k], row, a) {
        } else {
            lemma_holder(f, row, a, k + 1);
        }
    }
}

proof fn lemma_held_on(f: FabricV, row: Seq<char>, a: Ipv4Addr)
    ensures
        holder(f, row, a, 0) < f.members.len() <==> held_on(f, row, a),
{
    lemma_holder(f, row, a, 0);
    if exists|i: int| 0 <= i < f.members.len() && holds_address(#[trigger] f.members[i], row, a) {
        let i = choose|i: int|
            0 <= i < f.members.len() && holds_address(#[trigger] f.members[i], row, a);
        let j = choose|j: int|
            0 <= j < f.members[i].workloads.len() && (#[trigger] f.members[i].workloads[j]).name
                == row && f.members[i].workloads[j].address == a;
        assert(f.members[i].workloads[j].name == row);
    }
    if held_on(f, row, a) {
        let (i, j) = choose|i: int, j: int|
            0 <= i < f.members.len() && 0 <= j < f.members[i].workloads.len() && (
            #[trigger] f.members[i].workloads[j]).name == row && f.members[i].workloads[j].address
                == a;
        assert(holds_address(f.members[i], row, a));
    }
}

proof fn lemma_row_carried(f: FabricV, row: Seq<char>)
    ensures
        row_carried(f, row) <==> exists|i: int, j: int|
            0 <= i < f.members.len() && 0 <= j < f.members[i].workloads.len() && (
            #[trigger] f.members[i].workloads[j]).name == row,
{
    if row_carried(f, row) {
        let i = choose|i: int| 0 <= i < f.members.len() && carries_row(#[trigger] f.members[i], row);
        let j = choose|j: int|
            0 <= j < f.members[i].workloads.len() && (#[trigger] f.members[i].workloads[j]).name
                == row;
        assert(f.members[i].workloads[j].name == row);
    }
    if exists|i: int, j: int|
        0 <= i < f.members.len() && 0 <= j < f.members[i].workloads.len() && (
        #[trigger] f.members[i].workloads[j]).name == row {
        let (i, j) = choose|i: int, j: int|
            0 <= i < f.members.len() && 0 <= j < f.members[i].workloads.len() && (
            #[trigger] f.members[i].workloads[j]).name == row;
        assert(carries_row(f.members[i], row));
    }
}

proof fn lemma_blocks(f: FabricV, w: WorkloadV, k: int)
    requires
        0 <= k,
        16 <= w.prefix.len <= 32,
    ensures
        row_block_refusal(f, w, k) is None <==> forall|z: int|
            k <= z < f.zones.len() ==> w.prefix.net.bits as int / 65536 != 2560 + (
            #[trigger] f.zones[z]).id,
    decreases f.zones.len() - k,
{
    if k < f.zones.len() {
        lemma_blocks(f, w, k + 1);
        lemma_block(w.prefix, f.zones[k].id);
    }
}

proof fn lemma_allowed(f: FabricV, w: WorkloadV, k: int)
    requires
        0 <= k,
    ensures
        unknown_allow(f, w, k) is None <==> forall|a: int|
            k <= a < w.allow.len() ==> zone_exists(f, #[trigger] w.allow[a]),
    decreases w.allow.len() - k,
{
    if k < w.allow.len() {
        lemma_allowed(f, w, k + 1);
        lemma_zone_exists(f, w.allow[k]);
    }
}

proof fn lemma_vlan(w: Seq<WorkloadV>, uplink: Seq<char>, vid: u16, i: int, k: int)
    requires
        0 <= i <= k <= w.len(),
    ensures
        vlan_place(w, uplink, vid, i) < k <==> exists|j: int|
            i <= j < k && (#[trigger] w[j]).uplink == uplink && w[j].vid == vid,
    decreases w.len() - i,
{
    if i < w.len() && !(w[i].uplink == uplink && w[i].vid == vid) {
        if i + 1 <= k {
            lemma_vlan(w, uplink, vid, i + 1, k);
        } else {
            lemma_vlan_at_least(w, uplink, vid, i + 1);
        }
    }
}

proof fn lemma_vlan_at_least(w: Seq<WorkloadV>, uplink: Seq<char>, vid: u16, i: int)
    requires
        0 <= i <= w.len(),
    ensures
        vlan_place(w, uplink, vid, i) >= i,
    decreases w.len() - i,
{
    if i < w.len() && !(w[i].uplink == uplink && w[i].vid == vid) {
        lemma_vlan_at_least(w, uplink, vid, i + 1);
    }
}

proof fn lemma_earlier(names: Seq<Seq<char>>, name: Seq<char>, k: int)
    requires
        0 <= k <= names.len(),
    ensures
        place_of(names, name, 0) < k <==> exists|j: int| 0 <= j < k && #[trigger] names[j] == name,
{
    lemma_place_of(names, name, 0);
}

/// Nothing before row `k` is taken again by it.
pub open spec fn row_apart(f: FabricV, k: int) -> bool {
    forall|j: int|
        0 <= j < k ==> {
            let a = #[trigger] f.workloads[j];
            let b = f.workloads[k];
            &&& a.name != b.name
            &&& fit(a.name, 5) != fit(b.name, 5)
            &&& !(a.uplink == b.uplink && a.vid == b.vid)
        }
}

proof fn lemma_row_identity(f: FabricV, k: int)
    requires
        0 <= k < f.workloads.len(),
    ensures
        row_identity_refusal(f, k) is None <==> !zone_exists(f, f.workloads[k].name) && row_apart(
            f,
            k,
        ),
{
    let w = f.workloads[k];
    let names = workload_names(f.workloads);
    let l = legs(f.workloads);
    lemma_zone_exists(f, w.name);
    lemma_earlier(names, w.name, k);
    lemma_earlier(l, leg_name(w.name), k);
    lemma_vlan(f.workloads, w.uplink, w.vid, 0, k);
    assert forall|j: int| 0 <= j < k implies ((#[trigger] l[j]) == leg_name(w.name) <==> fit(
        f.workloads[j].name,
        5,
    ) == fit(w.name, 5)) by {
        let x = fit(f.workloads[j].name, 5);
        let y = fit(w.name, 5);
        let p = "cfab-work-"@;
        assert((p + x).skip(p.len() as int) =~= x);
        assert((p + y).skip(p.len() as int) =~= y);
    }
    if row_identity_refusal(f, k) is None {
        assert forall|j: int| 0 <= j < k implies ({
            let a = #[trigger] f.workloads[j];
            &&& a.name != w.name
            &&& fit(a.name, 5) != fit(w.name, 5)
            &&& !(a.uplink == w.uplink && a.vid == w.vid)
        }) by {
            assert(names[j] == f.workloads[j].name);
            assert(l[j] == leg_name(f.workloads[j].name));
        }
    }
    if row_apart(f, k) {
        assert forall|j: int| 0 <= j < k implies #[trigger] names[j] != w.name by {
            assert(names[j] == f.workloads[j].name);
        }
        assert forall|j: int| 0 <= j < k implies #[trigger] l[j] != leg_name(w.name) by {
            let a = f.workloads[j];
        }
    }
}

proof fn lemma_row(f: FabricV, k: int)
    requires
        0 <= k < f.workloads.len(),
        begins_whole(f.workloads[k].prefix),
    ensures
        row_refusal(f, k) is None <==> workload_sound(f, f.workloads[k]) && row_apart(f, k),
{
    let w = f.workloads[k];
    lemma_row_identity(f, k);
    lemma_name_in_use(f, leg_name(w.name));
    lemma_inside(w.prefix, w.gw);
    lemma_allowed(f, w, 0);
    lemma_row_carried(f, w.name);
    if 22 <= w.prefix.len {
        lemma_blocks(f, w, 0);
    }
    if w.dhcp_server is Some {
        lemma_inside(w.prefix, w.dhcp_server->0);
        lemma_held_on(f, w.name, w.dhcp_server->0);
    }
}

proof fn lemma_rows(f: FabricV, k: int)
    requires
        0 <= k,
        forall|j: int| 0 <= j < f.workloads.len() ==> begins_whole((#[trigger] f.workloads[j]).prefix),
    ensures
        rows_refusal(f, k) is None <==> forall|j: int|
            k <= j < f.workloads.len() ==> workload_sound(f, #[trigger] f.workloads[j]) && row_apart(
                f,
                j,
            ),
    decreases f.workloads.len() - k,
{
    if k < f.workloads.len() {
        lemma_rows(f, k + 1);
        lemma_row(f, k);
    }
}

proof fn lemma_entry(f: FabricV, m: MemberV, j: int)
    requires
        0 <= j < m.workloads.len(),
        forall|k: int| 0 <= k < f.workloads.len() ==> begins_whole((#[trigger] f.workloads[k]).prefix),
        forall|i: int, k: int|
            0 <= i < k < f.workloads.len() ==> (#[trigger] f.workloads[i]).name != (
            #[trigger] f.workloads[k]).name,
    ensures
        one_carried_refusal(f, m, j) is None <==> entry_sound(f, m, j),
{
    let c = m.workloads[j];
    let n = workload_names(f.workloads);
    let own = carried_names(m.workloads);
    let p = place_of(n, c.name, 0);
    lemma_earlier(own, c.name, j);
    lemma_place_of(n, c.name, 0);
    assert(place_of(own, c.name, 0) < j <==> exists|i: int|
        0 <= i < j && (#[trigger] m.workloads[i]).name == c.name) by {
        if exists|i: int| 0 <= i < j && (#[trigger] m.workloads[i]).name == c.name {
            let i = choose|i: int| 0 <= i < j && (#[trigger] m.workloads[i]).name == c.name;
            assert(own[i] == c.name);
        }
        if exists|i: int| 0 <= i < j && #[trigger] own[i] == c.name {
            let i = choose|i: int| 0 <= i < j && #[trigger] own[i] == c.name;
            assert(m.workloads[i].name == c.name);
        }
    }
    if p < f.workloads.len() {
        assert(n[p] == c.name);
        assert(f.workloads[p].name == c.name);
        lemma_inside(f.workloads[p].prefix, c.address);
    }
    if entry_sound(f, m, j) {
        let k = choose|k: int|
            0 <= k < f.workloads.len() && (#[trigger] f.workloads[k]).name == c.name && c.len
                == f.workloads[k].prefix.len && host_of(f.workloads[k].prefix, c.address)
                && c.address != f.workloads[k].gw;
        assert(n[k] == c.name);
        assert(p <= k);
        if p < k {
            assert(f.workloads[p].name != f.workloads[k].name);
        }
    }
}

proof fn lemma_entries(f: FabricV, m: MemberV, k: int)
    requires
        0 <= k,
    ensures
        carried_refusal(f, m, k) is None <==> forall|j: int|
            #![trigger m.workloads[j]]
            k <= j < m.workloads.len() ==> one_carried_refusal(f, m, j) is None,
    decreases m.workloads.len() - k,
{
    if k < m.workloads.len() {
        lemma_entries(f, m, k + 1);
        let x = m.workloads[k];
    }
}

proof fn lemma_all_entries(f: FabricV, k: int)
    requires
        0 <= k,
    ensures
        all_carried_refusal(f, k) is None <==> forall|i: int|
            k <= i < f.members.len() ==> carried_refusal(f, #[trigger] f.members[i], 0) is None,
    decreases f.members.len() - k,
{
    if k < f.members.len() {
        lemma_all_entries(f, k + 1);
    }
}

/// Does the member hold this address on the workload of this name?
proof fn lemma_address_on(m: MemberV, row: Seq<char>, a: Ipv4Addr)
    requires
        forall|j: int, k: int|
            0 <= j < k < m.workloads.len() ==> (#[trigger] m.workloads[j]).name != (
            #[trigger] m.workloads[k]).name,
    ensures
        address_on(m, row) == Some(a) <==> exists|j: int|
            0 <= j < m.workloads.len() && (#[trigger] m.workloads[j]).name == row
                && m.workloads[j].address == a,
{
    let n = carried_names(m.workloads);
    lemma_place_of(n, row, 0);
    let p = place_of(n, row, 0);
    if p < m.workloads.len() {
        assert(n[p] == row);
        assert(m.workloads[p].name == row);
    }
    if exists|j: int|
        0 <= j < m.workloads.len() && (#[trigger] m.workloads[j]).name == row
            && m.workloads[j].address == a {
        let j = choose|j: int|
            0 <= j < m.workloads.len() && (#[trigger] m.workloads[j]).name == row
                && m.workloads[j].address == a;
        assert(n[j] == row);
        assert(p <= j);
        if p < j {
            assert(m.workloads[p].name != m.workloads[j].name);
        }
    }
}

proof fn lemma_addressed(f: FabricV, row: Seq<char>, a: Ipv4Addr, k: int, n: int)
    requires
        0 <= k <= n <= f.members.len(),
    ensures
        addressed(f, row, a, k) >= k,
        addressed(f, row, a, k) < n <==> exists|i: int|
            k <= i < n && address_on(#[trigger] f.members[i], row) == Some(a),
    decreases f.members.len() - k,
{
    if k < f.members.len() && address_on(f.members[k], row) != Some(a) {
        if k < n {
            lemma_addressed(f, row, a, k + 1, n);
        } else {
            lemma_addressed(f, row, a, k + 1, k + 1);
        }
    }
}

proof fn lemma_shared(f: FabricV, row: Seq<char>, k: int)
    requires
        0 <= k <= f.members.len(),
    ensures
        shared_address(f, row, k) is None <==> forall|i: int, m: int|
            0 <= i < m < f.members.len() && k <= m && address_on(#[trigger] f.members[m], row)
                is Some ==> address_on(#[trigger] f.members[i], row) != address_on(
                f.members[m],
                row,
            ),
    decreases f.members.len() - k,
{
    if k < f.members.len() {
        lemma_shared(f, row, k + 1);
        let x = address_on(f.members[k], row);
        if x is Some {
            lemma_addressed(f, row, x->0, 0, k);
        }
    }
}

proof fn lemma_all_shared(f: FabricV, k: int)
    requires
        0 <= k,
    ensures
        shared_addresses(f, k) is None <==> forall|w: int|
            k <= w < f.workloads.len() ==> shared_address(f, (#[trigger] f.workloads[w]).name, 0)
                is None,
    decreases f.workloads.len() - k,
{
    if k < f.workloads.len() {
        lemma_all_shared(f, k + 1);
    }
}

proof fn lemma_rows_sound(f: FabricV)
    requires
        forall|k: int| 0 <= k < f.workloads.len() ==> begins_whole((#[trigger] f.workloads[k]).prefix),
    ensures
        rows_refusal(f, 0) is None <==> rows_sound(f),
{
    lemma_rows(f, 0);
    if rows_refusal(f, 0) is None {
        assert forall|j: int, k: int| 0 <= j < k < f.workloads.len() implies ({
            let a = #[trigger] f.workloads[j];
            let b = #[trigger] f.workloads[k];
            &&& a.name != b.name
            &&& fit(a.name, 5) != fit(b.name, 5)
            &&& !(a.uplink == b.uplink && a.vid == b.vid)
        }) by {
            assert(row_apart(f, k));
        }
    }
    if rows_sound(f) {
        assert forall|k: int| 0 <= k < f.workloads.len() implies row_apart(f, k) && workload_sound(
            f,
            #[trigger] f.workloads[k],
        ) by {
            assert forall|j: int| 0 <= j < k implies ({
                let a = #[trigger] f.workloads[j];
                let b = f.workloads[k];
                &&& a.name != b.name
                &&& fit(a.name, 5) != fit(b.name, 5)
                &&& !(a.uplink == b.uplink && a.vid == b.vid)
            }) by {
                let b = f.workloads[k];
            }
        }
    }
}

proof fn lemma_entries_sound(f: FabricV)
    requires
        forall|k: int| 0 <= k < f.workloads.len() ==> begins_whole((#[trigger] f.workloads[k]).prefix),
        forall|i: int, k: int|
            0 <= i < k < f.workloads.len() ==> (#[trigger] f.workloads[i]).name != (
            #[trigger] f.workloads[k]).name,
    ensures
        all_carried_refusal(f, 0) is None <==> entries_sound(f),
{
    lemma_all_entries(f, 0);
    if all_carried_refusal(f, 0) is None {
        assert forall|i: int, j: int|
            #![trigger f.members[i].workloads[j]]
            0 <= i < f.members.len() && 0 <= j < f.members[i].workloads.len() implies entry_sound(
            f,
            f.members[i],
            j,
        ) by {
            let m = f.members[i];
            assert(carried_refusal(f, m, 0) is None);
            lemma_entries(f, m, 0);
            let x = m.workloads[j];
            assert(one_carried_refusal(f, m, j) is None);
            lemma_entry(f, m, j);
        }
    }
    if entries_sound(f) {
        assert forall|i: int| 0 <= i < f.members.len() implies carried_refusal(
            f,
            #[trigger] f.members[i],
            0,
        ) is None by {
            let m = f.members[i];
            assert forall|j: int|
                #![trigger m.workloads[j]]
                0 <= j < m.workloads.len() implies one_carried_refusal(f, m, j) is None by {
                let c = f.members[i].workloads[j];
                assert(entry_sound(f, m, j));
                lemma_entry(f, m, j);
            }
            lemma_entries(f, m, 0);
        }
    }
}

proof fn lemma_own_names_differ(f: FabricV, i: int)
    requires
        entries_sound(f),
        0 <= i < f.members.len(),
    ensures
        forall|j: int, k: int|
            0 <= j < k < f.members[i].workloads.len() ==> (#[trigger] f.members[i].workloads[j]).name
                != (#[trigger] f.members[i].workloads[k]).name,
{
    assert forall|j: int, k: int| 0 <= j < k < f.members[i].workloads.len() implies (
    #[trigger] f.members[i].workloads[j]).name != (#[trigger] f.members[i].workloads[k]).name by {
        assert(entry_sound(f, f.members[i], k));
    }
}

proof fn lemma_apart_refused(f: FabricV, i: int, j: int, m: int, n: int)
    requires
        entries_sound(f),
        shared_addresses(f, 0) is None,
        0 <= i < m < f.members.len(),
        0 <= j < f.members[i].workloads.len(),
        0 <= n < f.members[m].workloads.len(),
        f.members[i].workloads[j].name == f.members[m].workloads[n].name,
    ensures
        f.members[i].workloads[j].address != f.members[m].workloads[n].address,
{
    lemma_all_shared(f, 0);
    let a = f.members[i].workloads[j];
    let b = f.members[m].workloads[n];
    assert(entry_sound(f, f.members[i], j));
    let k = choose|k: int|
        0 <= k < f.workloads.len() && (#[trigger] f.workloads[k]).name == a.name && a.len
            == f.workloads[k].prefix.len && host_of(f.workloads[k].prefix, a.address) && a.address
            != f.workloads[k].gw;
    lemma_own_names_differ(f, i);
    lemma_own_names_differ(f, m);
    lemma_address_on(f.members[i], a.name, a.address);
    lemma_address_on(f.members[m], a.name, b.address);
    assert(shared_address(f, f.workloads[k].name, 0) is None);
    lemma_shared(f, a.name, 0);
}

proof fn lemma_apart_passes(f: FabricV, row: Seq<char>)
    requires
        entries_sound(f),
        addresses_apart(f),
    ensures
        shared_address(f, row, 0) is None,
{
    assert forall|i: int, m: int|
        0 <= i < m < f.members.len() && 0 <= m && address_on(#[trigger] f.members[m], row)
            is Some implies address_on(#[trigger] f.members[i], row) != address_on(
        f.members[m],
        row,
    ) by {
        let a = address_on(f.members[m], row)->0;
        if address_on(f.members[i], row) == Some(a) {
            lemma_own_names_differ(f, i);
            lemma_own_names_differ(f, m);
            lemma_address_on(f.members[i], row, a);
            lemma_address_on(f.members[m], row, a);
            let j = choose|j: int|
                0 <= j < f.members[i].workloads.len() && (#[trigger] f.members[i].workloads[j]).name
                    == row && f.members[i].workloads[j].address == a;
            let n = choose|n: int|
                0 <= n < f.members[m].workloads.len() && (#[trigger] f.members[m].workloads[n]).name
                    == row && f.members[m].workloads[n].address == a;
            assert(f.members[i].workloads[j].address != f.members[m].workloads[n].address);
        }
    }
    lemma_shared(f, row, 0);
}

proof fn lemma_addresses_apart(f: FabricV)
    requires
        entries_sound(f),
    ensures
        shared_addresses(f, 0) is None <==> addresses_apart(f),
{
    if shared_addresses(f, 0) is None {
        assert forall|i: int, j: int, m: int, n: int|
            0 <= i < m < f.members.len() && 0 <= j < f.members[i].workloads.len() && 0 <= n
                < f.members[m].workloads.len() implies ({
            let a = #[trigger] f.members[i].workloads[j];
            let b = #[trigger] f.members[m].workloads[n];
            a.name == b.name ==> a.address != b.address
        }) by {
            if f.members[i].workloads[j].name == f.members[m].workloads[n].name {
                lemma_apart_refused(f, i, j, m, n);
            }
        }
    }
    if addresses_apart(f) {
        lemma_all_shared(f, 0);
        assert forall|w: int| 0 <= w < f.workloads.len() implies shared_address(
            f,
            (#[trigger] f.workloads[w]).name,
            0,
        ) is None by {
            lemma_apart_passes(f, f.workloads[w].name);
        }
    }
}

// ---- ingress ----

proof fn lemma_collisions(
    f: FabricV,
    z: ZoneV,
    g: crate::model::ZoneGwV,
    octet: nat,
    k: int,
)
    requires
        0 <= k,
    ensures
        router_collision(f, z, g, octet, k) is None <==> forall|m: int|
            k <= m < f.members.len() ==> (#[trigger] f.members[m]).node != octet,
    decreases f.members.len() - k,
{
    if k < f.members.len() {
        lemma_collisions(f, z, g, octet, k + 1);
    }
}

/// What an ingress may be.
pub open spec fn gate_sound(f: FabricV, z: ZoneV) -> bool {
    z.gw is Some ==> {
        &&& forall|s: int|
            0 <= s < f.segments.len() ==> (#[trigger] f.segments[s]).vid != z.gw->0.vid
        &&& forall|m: int|
            0 <= m < f.members.len() ==> last_octet(z.gw->0.router) != Some(
                (#[trigger] f.members[m]).node as nat,
            )
    }
}

proof fn lemma_gate(f: FabricV, z: ZoneV)
    ensures
        one_gw_refusal(f, z) is None <==> gate_sound(f, z),
{
    lemma_gw_name_fits(z.id);
    if z.gw is Some {
        let g = z.gw->0;
        if last_octet(g.router) is Some {
            lemma_collisions(f, z, g, last_octet(g.router)->0, 0);
        }
        assert(segment_tagged(f, g.vid) <==> exists|s: int|
            0 <= s < f.segments.len() && (#[trigger] f.segments[s]).vid == g.vid);
    }
}

proof fn lemma_gates(f: FabricV, k: int)
    requires
        0 <= k,
    ensures
        gw_refusal(f, k) is None <==> forall|z: int|
            k <= z < f.zones.len() ==> gate_sound(f, #[trigger] f.zones[z]),
    decreases f.zones.len() - k,
{
    if k < f.zones.len() {
        lemma_gates(f, k + 1);
        lemma_gate(f, f.zones[k]);
    }
}

// ---- the whole ----

/// What every fabric has to be, and nothing more.
pub open spec fn sound(f: FabricV) -> bool {
    &&& domains_sound(f)
    &&& segments_sound(f)
    &&& zones_and_members_sound(f)
    &&& orders_sound(f)
    &&& rows_sound(f)
    &&& entries_sound(f)
    &&& addresses_apart(f)
    &&& ingress_sound(f)
}

/// Validation lets exactly the sound fabrics through: it refuses none for anything else, and none
/// that is not sound gets by.
pub proof fn lemma_accepted_is_sound(f: FabricV)
    requires
        fabric_wf(f),
        forall|k: int| 0 <= k < f.workloads.len() ==> begins_whole((#[trigger] f.workloads[k]).prefix),
    ensures
        accepted(f) <==> sound(f),
{
    lemma_segments(f);
    lemma_zones_and_members(f);
    lemma_gates(f, 0);
    assert(ingress_sound(f) <==> gw_refusal(f, 0) is None) by {
        if ingress_sound(f) {
            assert forall|z: int| 0 <= z < f.zones.len() implies gate_sound(
                f,
                #[trigger] f.zones[z],
            ) by {}
        }
    }
    if accepted(f) {
        lemma_domains_refused(f);
        lemma_orders(f);
        lemma_rows_sound(f);
        lemma_entries_sound(f);
        lemma_addresses_apart(f);
    }
    if sound(f) {
        lemma_domains_pass(f);
        lemma_orders(f);
        lemma_rows_sound(f);
        lemma_entries_sound(f);
        lemma_addresses_apart(f);
    }
}

/// A workload is not refused for its gateway, nor a member for its address, where that is any
/// address of the network but its first and its last.
pub proof fn lemma_any_host_may_be_the_gateway(w: WorkloadV)
    requires
        begins_whole(w.prefix),
        22 <= w.prefix.len,
    ensures
        crate::model::validate::row_gw_refusal(w) is None <==> w.prefix.net.bits < w.gw.bits
            && w.gw.bits < w.prefix.net.bits + size(w.prefix) - 1,
{
    lemma_inside(w.prefix, w.gw);
}

/// The rules are asked in their order, and the first that does not hold is the one that is told:
/// those on domains, on segments, on zones and members, on orders and pairs, on workloads, and on
/// ingress.
pub proof fn lemma_the_order_of_the_rules(f: FabricV)
    requires
        fabric_wf(f),
        forall|k: int| 0 <= k < f.workloads.len() ==> begins_whole((#[trigger] f.workloads[k]).prefix),
    ensures
        f.domains.len() == 0 ==> refusal(f) == Some(
            "[domains] is empty (declare one token per physical switch domain, e.g. a = \"the 10G switch\")"@,
        ),
        f.domains.len() > 0 && !domains_sound(f) ==> refusal(f) == first(
            wires_refusal(f, 0),
            first(
                segment_domain_refusal(f, 0),
                first(zone_domain_refusal(f, 0), unwired_domain(f, 0)),
            ),
        ),
        domains_sound(f) && !segments_sound(f) ==> refusal(f) == first(
            segment_refusal(f),
            first(segment_zone_refusal(f, 0), universal_name_refusal(f, 0)),
        ),
        domains_sound(f) && segments_sound(f) && !zones_and_members_sound(f) ==> refusal(f)
            == first(
            dup_refusal(zone_ids(f.zones), "zone id "@, " used twice"@),
            first(
                zone_primary_refusal(f, 0),
                first(
                    dup_refusal(member_names(f.members), "member "@, " declared twice"@),
                    dup_refusal(nodes(f.members), "node id "@, " used twice"@),
                ),
            ),
        ),
        domains_sound(f) && segments_sound(f) && zones_and_members_sound(f) && !orders_sound(f)
            ==> refusal(f) == first(prefs_refusal(f, 0), forward_refusal(f, 0)),
        domains_sound(f) && segments_sound(f) && zones_and_members_sound(f) && orders_sound(f)
            && !rows_sound(f) ==> refusal(f) == rows_refusal(f, 0),
        domains_sound(f) && segments_sound(f) && zones_and_members_sound(f) && orders_sound(f)
            && rows_sound(f) && !entries_sound(f) ==> refusal(f) == all_carried_refusal(f, 0),
        domains_sound(f) && segments_sound(f) && zones_and_members_sound(f) && orders_sound(f)
            && rows_sound(f) && entries_sound(f) && !addresses_apart(f) ==> refusal(f)
            == shared_addresses(f, 0),
        domains_sound(f) && segments_sound(f) && zones_and_members_sound(f) && orders_sound(f)
            && rows_sound(f) && entries_sound(f) && addresses_apart(f) ==> refusal(f)
            == gw_refusal(f, 0),
{
    lemma_segments(f);
    lemma_zones_and_members(f);
    if domains_sound(f) {
        lemma_domains_pass(f);
    } else if f.domains.len() > 0 && wires_refusal(f, 0) is None && segment_domain_refusal(f, 0)
        is None && zone_domain_refusal(f, 0) is None && unwired_domain(f, 0) is None {
        lemma_domains_refused(f);
    }
    if zones_and_members_sound(f) {
        lemma_orders(f);
    }
    lemma_rows_sound(f);
    if rows_sound(f) {
        lemma_entries_sound(f);
        if entries_sound(f) {
            lemma_addresses_apart(f);
        }
    }
}

} // verus!
