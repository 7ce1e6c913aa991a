//! What a fault of a fabric is told with.

use vstd::prelude::*;

use crate::ipv4::{dotted, Ipv4Addr};
use crate::model::lookup::{carried, has_zone, lemma_place_of, place_of, wire_names};
use crate::model::prefix::prefix_text;
use crate::model::validate::{
    address_on, address_refusal, addressed, at_edge, dup_refusal, first, forward_refusal, holder,
    member_wires_refusal, name_taken, names_on, one_carried_refusal, one_gw_refusal,
    one_pref_refusal, one_zone_domains, pref_order_refusal, router_collision, row_block_refusal,
    row_dhcp_refusal, row_gw_refusal, row_identity_refusal, row_leg_refusal, row_reach_refusal,
    same_texts, segment_domain_refusal, segment_refusal, shared_address, shared_domain,
    undeclared_wire, universal_name_refusal, unknown_allow, unknown_pref_wire, unwired_domain,
    vlan_place, wanted_wires, wired, zone_block, zone_primary_refusal,
};
use crate::model::{
    leg_name, FabricV, MemberKind, MemberV, MemberWorkloadV, WirePrefV, WorkloadV, ZoneGwV, ZoneV,
};
use crate::text::reading::lemma_the_first_twin;
use crate::text::{byte_len, dec, dup, join};

verus! {

proof fn lemma_a_wire_on_no_domain_at(f: FabricV, m: MemberV, i: int, k: int)
    requires
        0 <= i,
        i <= k <= m.wires.len(),
        forall|j: int| i <= j < k ==> f.domains.contains((#[trigger] m.wires[j]).domain),
        k < m.wires.len() ==> !f.domains.contains(m.wires[k].domain),
    ensures
        k < m.wires.len() ==> undeclared_wire(f, m, i) == Some("member "@ + m.name + ": wire "@ + m.wires[k].name + " on domain "@ + m.wires[k].domain + " is not in [domains] ("@ + join(f.domains, " "@) + ")"@),
        k == m.wires.len() ==> undeclared_wire(f, m, i) is None,
    decreases k - i,
{
    if i < k {
        assert(f.domains.contains(m.wires[i].domain));
        lemma_a_wire_on_no_domain_at(f, m, i + 1, k);
    }
}

/// The first wire on a domain that is not declared is named, with its member and its domain.
pub proof fn lemma_a_wire_on_no_domain(f: FabricV, m: MemberV, k: int)
    requires
        0 <= k <= m.wires.len(),
        forall|j: int| 0 <= j < k ==> f.domains.contains((#[trigger] m.wires[j]).domain),
        k < m.wires.len() ==> !f.domains.contains(m.wires[k].domain),
    ensures
        k < m.wires.len() ==> undeclared_wire(f, m, 0) == Some("member "@ + m.name + ": wire "@ + m.wires[k].name + " on domain "@ + m.wires[k].domain + " is not in [domains] ("@ + join(f.domains, " "@) + ")"@),
        k == m.wires.len() ==> undeclared_wire(f, m, 0) is None,
{
    lemma_a_wire_on_no_domain_at(f, m, 0, k);
}

/// Is an earlier wire on the domain of this one?
pub open spec fn twin_domain(m: MemberV, j: int) -> bool {
    exists|k: int| 0 <= k < j && (#[trigger] m.wires[k]).domain == m.wires[j].domain
}

proof fn lemma_two_wires_on_a_domain_at(m: MemberV, i: int, k: int)
    requires
        0 <= i,
        i <= k <= m.wires.len(),
        forall|j: int| i <= j < k ==> !(#[trigger] twin_domain(m, j)),
        k < m.wires.len() ==> twin_domain(m, k),
    ensures
        k < m.wires.len() ==> shared_domain(m, i) == Some("member "@ + m.name + ": two wires on domain "@ + m.wires[k].domain + " ("@ + join(names_on(m.wires, m.wires[k].domain, m.wires.len() as int), " "@) + "). The model cannot express it: a domain has one segment per zone, addressed 10.<id>.<seg>.<node>/24, so two wires in one broadcast domain would hold two addresses of one /24 on one node — ARP-ambiguous. Put the wires in different domains. The other coherent shape is one bond over both NICs declared as a single wire, which cfab does not build yet"@),
        k == m.wires.len() ==> shared_domain(m, i) is None,
    decreases k - i,
{
    if i < k {
        assert(!twin_domain(m, i));
        lemma_two_wires_on_a_domain_at(m, i + 1, k);
    }
}

/// The first wire whose domain an earlier one is on is named by the domain, with all the wires that
/// are on it.
pub proof fn lemma_two_wires_on_a_domain(m: MemberV, k: int)
    requires
        0 <= k <= m.wires.len(),
        forall|j: int| 0 <= j < k ==> !(#[trigger] twin_domain(m, j)),
        k < m.wires.len() ==> twin_domain(m, k),
    ensures
        k < m.wires.len() ==> shared_domain(m, 0) == Some("member "@ + m.name + ": two wires on domain "@ + m.wires[k].domain + " ("@ + join(names_on(m.wires, m.wires[k].domain, m.wires.len() as int), " "@) + "). The model cannot express it: a domain has one segment per zone, addressed 10.<id>.<seg>.<node>/24, so two wires in one broadcast domain would hold two addresses of one /24 on one node — ARP-ambiguous. Put the wires in different domains. The other coherent shape is one bond over both NICs declared as a single wire, which cfab does not build yet"@),
        k == m.wires.len() ==> shared_domain(m, 0) is None,
{
    lemma_two_wires_on_a_domain_at(m, 0, k);
}

proof fn lemma_a_segment_on_no_domain_at(f: FabricV, i: int, k: int)
    requires
        0 <= i,
        i <= k <= f.segments.len(),
        forall|j: int| i <= j < k ==> ((#[trigger] f.segments[j]).scope is None || f.domains.contains(f.segments[j].scope->0)),
        k < f.segments.len() ==> f.segments[k].scope is Some && !f.domains.contains(f.segments[k].scope->0),
    ensures
        k < f.segments.len() ==> segment_domain_refusal(f, i) == Some("segment "@ + f.segments[k].ifname + ": domain "@ + f.segments[k].scope->0 + " is not in [domains] ("@ + join(f.domains, " "@) + ")"@),
        k == f.segments.len() ==> segment_domain_refusal(f, i) is None,
    decreases k - i,
{
    if i < k {
        assert((f.segments[i].scope is None || f.domains.contains(f.segments[i].scope->0)));
        lemma_a_segment_on_no_domain_at(f, i + 1, k);
    }
}

/// The first segment on a domain that is not declared is named, with the domain.
pub proof fn lemma_a_segment_on_no_domain(f: FabricV, k: int)
    requires
        0 <= k <= f.segments.len(),
        forall|j: int| 0 <= j < k ==> ((#[trigger] f.segments[j]).scope is None || f.domains.contains(f.segments[j].scope->0)),
        k < f.segments.len() ==> f.segments[k].scope is Some && !f.domains.contains(f.segments[k].scope->0),
    ensures
        k < f.segments.len() ==> segment_domain_refusal(f, 0) == Some("segment "@ + f.segments[k].ifname + ": domain "@ + f.segments[k].scope->0 + " is not in [domains] ("@ + join(f.domains, " "@) + ")"@),
        k == f.segments.len() ==> segment_domain_refusal(f, 0) is None,
{
    lemma_a_segment_on_no_domain_at(f, 0, k);
}

proof fn lemma_a_domain_without_a_wire_at(f: FabricV, i: int, k: int)
    requires
        0 <= i,
        i <= k <= f.domains.len(),
        forall|j: int| i <= j < k ==> wired(f, #[trigger] f.domains[j]),
        k < f.domains.len() ==> !wired(f, f.domains[k]),
    ensures
        k < f.domains.len() ==> unwired_domain(f, i) == Some("[domains] declares "@ + f.domains[k] + " but no member has a wire on it (drop the token, or give a member a wire on domain "@ + f.domains[k] + ")"@),
        k == f.domains.len() ==> unwired_domain(f, i) is None,
    decreases k - i,
{
    if i < k {
        assert(wired(f, f.domains[i]));
        lemma_a_domain_without_a_wire_at(f, i + 1, k);
    }
}

/// The first domain that no member has a wire on is named.
pub proof fn lemma_a_domain_without_a_wire(f: FabricV, k: int)
    requires
        0 <= k <= f.domains.len(),
        forall|j: int| 0 <= j < k ==> wired(f, #[trigger] f.domains[j]),
        k < f.domains.len() ==> !wired(f, f.domains[k]),
    ensures
        k < f.domains.len() ==> unwired_domain(f, 0) == Some("[domains] declares "@ + f.domains[k] + " but no member has a wire on it (drop the token, or give a member a wire on domain "@ + f.domains[k] + ")"@),
        k == f.domains.len() ==> unwired_domain(f, 0) is None,
{
    lemma_a_domain_without_a_wire_at(f, 0, k);
}

proof fn lemma_a_leg_with_a_long_name_at(f: FabricV, i: int, k: int)
    requires
        0 <= i,
        i <= k <= f.segments.len(),
        forall|j: int| i <= j < k ==> ((#[trigger] f.segments[j]).scope is Some || byte_len(f.segments[j].ifname) <= 13),
        k < f.segments.len() ==> f.segments[k].scope is None && byte_len(f.segments[k].ifname) > 13,
    ensures
        k < f.segments.len() ==> universal_name_refusal(f, i) == Some("zone "@ + f.segments[k].ifname + ": the universal leg's ifname must be 13 characters or fewer (ports are named <ifname>-<domain>, IFNAMSIZ 15)"@),
        k == f.segments.len() ==> universal_name_refusal(f, i) is None,
    decreases k - i,
{
    if i < k {
        assert((f.segments[i].scope is Some || byte_len(f.segments[i].ifname) <= 13));
        lemma_a_leg_with_a_long_name_at(f, i + 1, k);
    }
}

/// The first leg of last resort whose name leaves no room for those of its ports is named.
pub proof fn lemma_a_leg_with_a_long_name(f: FabricV, k: int)
    requires
        0 <= k <= f.segments.len(),
        forall|j: int| 0 <= j < k ==> ((#[trigger] f.segments[j]).scope is Some || byte_len(f.segments[j].ifname) <= 13),
        k < f.segments.len() ==> f.segments[k].scope is None && byte_len(f.segments[k].ifname) > 13,
    ensures
        k < f.segments.len() ==> universal_name_refusal(f, 0) == Some("zone "@ + f.segments[k].ifname + ": the universal leg's ifname must be 13 characters or fewer (ports are named <ifname>-<domain>, IFNAMSIZ 15)"@),
        k == f.segments.len() ==> universal_name_refusal(f, 0) is None,
{
    lemma_a_leg_with_a_long_name_at(f, 0, k);
}

proof fn lemma_a_zone_without_its_primary_at(f: FabricV, i: int, k: int)
    requires
        0 <= i,
        i <= k <= f.zones.len(),
        forall|j: int| i <= j < k ==> (#[trigger] f.zones[j]).id >= 1 && carried(f, f.zones[j].name, f.zones[j].primary),
        k < f.zones.len() ==> f.zones[k].id < 1 || !carried(f, f.zones[k].name, f.zones[k].primary),
    ensures
        k < f.zones.len() ==> zone_primary_refusal(f, i) == Some(if f.zones[k].id < 1 { "zone id "@ + dec(f.zones[k].id as nat) + " is not a valid block octet (1-254)"@ } else { "zone "@ + f.zones[k].name + ": primary domain "@ + f.zones[k].primary + " has no segment (the zone's rank-0 wire is the wire on its primary domain)"@ }),
        k == f.zones.len() ==> zone_primary_refusal(f, i) is None,
    decreases k - i,
{
    if i < k {
        assert(f.zones[i].id >= 1 && carried(f, f.zones[i].name, f.zones[i].primary));
        lemma_a_zone_without_its_primary_at(f, i + 1, k);
    }
}

/// The first zone whose number is no octet of a block, or that has no segment on its primary domain,
/// is named with what is wrong.
pub proof fn lemma_a_zone_without_its_primary(f: FabricV, k: int)
    requires
        0 <= k <= f.zones.len(),
        forall|j: int| 0 <= j < k ==> (#[trigger] f.zones[j]).id >= 1 && carried(f, f.zones[j].name, f.zones[j].primary),
        k < f.zones.len() ==> f.zones[k].id < 1 || !carried(f, f.zones[k].name, f.zones[k].primary),
    ensures
        k < f.zones.len() ==> zone_primary_refusal(f, 0) == Some(if f.zones[k].id < 1 { "zone id "@ + dec(f.zones[k].id as nat) + " is not a valid block octet (1-254)"@ } else { "zone "@ + f.zones[k].name + ": primary domain "@ + f.zones[k].primary + " has no segment (the zone's rank-0 wire is the wire on its primary domain)"@ }),
        k == f.zones.len() ==> zone_primary_refusal(f, 0) is None,
{
    lemma_a_zone_without_its_primary_at(f, 0, k);
}

/// Does the member have a wire of this name?
pub open spec fn has_nic(m: MemberV, name: Seq<char>) -> bool {
    exists|i: int| 0 <= i < m.wires.len() && (#[trigger] m.wires[i]).name == name
}

proof fn lemma_has_nic(m: MemberV, name: Seq<char>)
    ensures
        has_nic(m, name) <==> place_of(wire_names(m.wires), name, 0) < m.wires.len(),
{
    let w = wire_names(m.wires);
    lemma_place_of(w, name, 0);
    let k = place_of(w, name, 0);
    if k < w.len() {
        assert(m.wires[k].name == name);
    }
    if has_nic(m, name) {
        let i = choose|i: int| 0 <= i < m.wires.len() && (#[trigger] m.wires[i]).name == name;
        assert(w[i] == name);
    }
}

proof fn lemma_an_order_with_a_strange_wire_at(m: MemberV, p: WirePrefV, i: int, k: int)
    requires
        0 <= i,
        i <= k <= p.order.len(),
        forall|j: int| i <= j < k ==> has_nic(m, #[trigger] p.order[j]),
        k < p.order.len() ==> !has_nic(m, p.order[k]),
    ensures
        k < p.order.len() ==> unknown_pref_wire(m, p, i) == Some("member "@ + p.member + " prefs "@ + p.zone + ": "@ + "'"@ + p.order[k] + "' is not one of "@ + p.member + "'s wires"@),
        k == p.order.len() ==> unknown_pref_wire(m, p, i) is None,
    decreases k - i,
{
    if i < p.order.len() {
        lemma_has_nic(m, p.order[i]);
        lemma_place_of(wire_names(m.wires), p.order[i], 0);
    }
    if i < k {
        assert(has_nic(m, p.order[i]));
        lemma_an_order_with_a_strange_wire_at(m, p, i + 1, k);
    }
}

/// The first wire of an order that the member does not have is named.
pub proof fn lemma_an_order_with_a_strange_wire(m: MemberV, p: WirePrefV, k: int)
    requires
        0 <= k <= p.order.len(),
        forall|j: int| 0 <= j < k ==> has_nic(m, #[trigger] p.order[j]),
        k < p.order.len() ==> !has_nic(m, p.order[k]),
    ensures
        k < p.order.len() ==> unknown_pref_wire(m, p, 0) == Some("member "@ + p.member + " prefs "@ + p.zone + ": "@ + "'"@ + p.order[k] + "' is not one of "@ + p.member + "'s wires"@),
        k == p.order.len() ==> unknown_pref_wire(m, p, 0) is None,
{
    lemma_an_order_with_a_strange_wire_at(m, p, 0, k);
}

proof fn lemma_a_pair_of_a_strange_zone_at(f: FabricV, i: int, k: int)
    requires
        0 <= i,
        i <= k <= f.forward_allow.len(),
        forall|j: int| i <= j < k ==> has_zone(f, (#[trigger] f.forward_allow[j]).0) && has_zone(f, f.forward_allow[j].1),
        k < f.forward_allow.len() ==> !has_zone(f, f.forward_allow[k].0) || !has_zone(f, f.forward_allow[k].1),
    ensures
        k < f.forward_allow.len() ==> forward_refusal(f, i) == Some("[forward] allow '"@ + f.forward_allow[k].0 + ">"@ + f.forward_allow[k].1 + "': unknown zone '"@ + (if has_zone(f, f.forward_allow[k].0) { f.forward_allow[k].1 } else { f.forward_allow[k].0 }) + "'"@),
        k == f.forward_allow.len() ==> forward_refusal(f, i) is None,
    decreases k - i,
{
    if i < k {
        assert(has_zone(f, f.forward_allow[i].0) && has_zone(f, f.forward_allow[i].1));
        lemma_a_pair_of_a_strange_zone_at(f, i + 1, k);
    }
}

/// The first pair with a zone that is not declared is named, with the first such zone of it.
pub proof fn lemma_a_pair_of_a_strange_zone(f: FabricV, k: int)
    requires
        0 <= k <= f.forward_allow.len(),
        forall|j: int| 0 <= j < k ==> has_zone(f, (#[trigger] f.forward_allow[j]).0) && has_zone(f, f.forward_allow[j].1),
        k < f.forward_allow.len() ==> !has_zone(f, f.forward_allow[k].0) || !has_zone(f, f.forward_allow[k].1),
    ensures
        k < f.forward_allow.len() ==> forward_refusal(f, 0) == Some("[forward] allow '"@ + f.forward_allow[k].0 + ">"@ + f.forward_allow[k].1 + "': unknown zone '"@ + (if has_zone(f, f.forward_allow[k].0) { f.forward_allow[k].1 } else { f.forward_allow[k].0 }) + "'"@),
        k == f.forward_allow.len() ==> forward_refusal(f, 0) is None,
{
    lemma_a_pair_of_a_strange_zone_at(f, 0, k);
}

proof fn lemma_a_row_over_a_block_at(f: FabricV, w: WorkloadV, i: int, k: int)
    requires
        0 <= i,
        i <= k <= f.zones.len(),
        forall|j: int| i <= j < k ==> !w.prefix.meets(zone_block((#[trigger] f.zones[j]).id)),
        k < f.zones.len() ==> w.prefix.meets(zone_block(f.zones[k].id)),
    ensures
        k < f.zones.len() ==> row_block_refusal(f, w, i) == Some("workload "@ + w.name + ": prefix "@ + prefix_text(w.prefix) + " overlaps zone "@ + f.zones[k].name + " block "@ + prefix_text(zone_block(f.zones[k].id))),
        k == f.zones.len() ==> row_block_refusal(f, w, i) is None,
    decreases k - i,
{
    if i < k {
        assert(!w.prefix.meets(zone_block(f.zones[i].id)));
        lemma_a_row_over_a_block_at(f, w, i + 1, k);
    }
}

/// The first zone whose block the row meets is named, with its block.
pub proof fn lemma_a_row_over_a_block(f: FabricV, w: WorkloadV, k: int)
    requires
        0 <= k <= f.zones.len(),
        forall|j: int| 0 <= j < k ==> !w.prefix.meets(zone_block((#[trigger] f.zones[j]).id)),
        k < f.zones.len() ==> w.prefix.meets(zone_block(f.zones[k].id)),
    ensures
        k < f.zones.len() ==> row_block_refusal(f, w, 0) == Some("workload "@ + w.name + ": prefix "@ + prefix_text(w.prefix) + " overlaps zone "@ + f.zones[k].name + " block "@ + prefix_text(zone_block(f.zones[k].id))),
        k == f.zones.len() ==> row_block_refusal(f, w, 0) is None,
{
    lemma_a_row_over_a_block_at(f, w, 0, k);
}

proof fn lemma_a_row_to_a_strange_zone_at(f: FabricV, w: WorkloadV, i: int, k: int)
    requires
        0 <= i,
        i <= k <= w.allow.len(),
        forall|j: int| i <= j < k ==> has_zone(f, #[trigger] w.allow[j]),
        k < w.allow.len() ==> !has_zone(f, w.allow[k]),
    ensures
        k < w.allow.len() ==> unknown_allow(f, w, i) == Some("workload "@ + w.name + ": allow '"@ + w.allow[k] + "': unknown zone (zones: "@ + join(Seq::new(f.zones.len(), |z: int| f.zones[z].name), ", "@) + ")"@),
        k == w.allow.len() ==> unknown_allow(f, w, i) is None,
    decreases k - i,
{
    if i < k {
        assert(has_zone(f, w.allow[i]));
        lemma_a_row_to_a_strange_zone_at(f, w, i + 1, k);
    }
}

/// The first zone of a row that is not declared is named, with those that are.
pub proof fn lemma_a_row_to_a_strange_zone(f: FabricV, w: WorkloadV, k: int)
    requires
        0 <= k <= w.allow.len(),
        forall|j: int| 0 <= j < k ==> has_zone(f, #[trigger] w.allow[j]),
        k < w.allow.len() ==> !has_zone(f, w.allow[k]),
    ensures
        k < w.allow.len() ==> unknown_allow(f, w, 0) == Some("workload "@ + w.name + ": allow '"@ + w.allow[k] + "': unknown zone (zones: "@ + join(Seq::new(f.zones.len(), |z: int| f.zones[z].name), ", "@) + ")"@),
        k == w.allow.len() ==> unknown_allow(f, w, 0) is None,
{
    lemma_a_row_to_a_strange_zone_at(f, w, 0, k);
}

proof fn lemma_a_router_on_a_node_at(f: FabricV, z: ZoneV, g: ZoneGwV, octet: nat, i: int, k: int)
    requires
        0 <= i,
        i <= k <= f.members.len(),
        forall|j: int| i <= j < k ==> (#[trigger] f.members[j]).node != octet,
        k < f.members.len() ==> f.members[k].node == octet,
    ensures
        k < f.members.len() ==> router_collision(f, z, g, octet, i) == Some("zone "@ + z.name + " router "@ + g.router + " collides with node "@ + dec(f.members[k].node as nat) + " ("@ + f.members[k].name + ")'s leg address"@),
        k == f.members.len() ==> router_collision(f, z, g, octet, i) is None,
    decreases k - i,
{
    if i < k {
        assert(f.members[i].node != octet);
        lemma_a_router_on_a_node_at(f, z, g, octet, i + 1, k);
    }
}

/// The first member whose node is the router's octet is named.
pub proof fn lemma_a_router_on_a_node(f: FabricV, z: ZoneV, g: ZoneGwV, octet: nat, k: int)
    requires
        0 <= k <= f.members.len(),
        forall|j: int| 0 <= j < k ==> (#[trigger] f.members[j]).node != octet,
        k < f.members.len() ==> f.members[k].node == octet,
    ensures
        k < f.members.len() ==> router_collision(f, z, g, octet, 0) == Some("zone "@ + z.name + " router "@ + g.router + " collides with node "@ + dec(f.members[k].node as nat) + " ("@ + f.members[k].name + ")'s leg address"@),
        k == f.members.len() ==> router_collision(f, z, g, octet, 0) is None,
{
    lemma_a_router_on_a_node_at(f, z, g, octet, 0, k);
}

/// What is used twice is named: a tag, a segment's number or its domain in a zone, an interface; in
/// this order.
pub proof fn lemma_what_two_segments_share(f: FabricV, j: int, k: int)
    requires
        0 <= j < k < f.segments.len(),
        f.segments[j].vid == f.segments[k].vid,
        forall|a: int, b: int|
            0 <= a < b < k ==> (#[trigger] f.segments[a]).vid != (#[trigger] f.segments[b]).vid,
    ensures
        segment_refusal(f) == Some(
            "vid "@ + dec(f.segments[k].vid as nat)
                + " used by two segments (one VLAN id per segment)"@,
        ),
{
    let v = crate::model::validate::vids(f.segments);
    assert forall|a: int, b: int| 0 <= a < b < k implies #[trigger] v[a] != #[trigger] v[b] by {
        crate::text::lemma_dec(f.segments[a].vid as nat);
        crate::text::lemma_dec(f.segments[b].vid as nat);
        assert(f.segments[a].vid != f.segments[b].vid);
    }
    lemma_the_first_twin(v, j, k);
}

/// A text that occurs twice is named between the words of its rule, the first one that does.
pub proof fn lemma_what_occurs_twice(
    items: Seq<Seq<char>>,
    before: Seq<char>,
    after: Seq<char>,
    j: int,
    k: int,
)
    requires
        0 <= j < k < items.len(),
        items[j] == items[k],
        forall|a: int, b: int| 0 <= a < b < k ==> #[trigger] items[a] != #[trigger] items[b],
    ensures
        dup_refusal(items, before, after) == Some(before + items[k] + after),
{
    lemma_the_first_twin(items, j, k);
}

/// What is said of a member without wires, and of a zone on domains that are not declared.
pub proof fn lemma_what_is_said_of_missing_wires(f: FabricV, m: MemberV, z: ZoneV)
    ensures
        m.wires.len() == 0 ==> member_wires_refusal(f, m) == Some(
            "member "@ + m.name
                + ": declares no wires (a member needs at least one wire = { nic, domain, speed_mbps })"@,
        ),
        !f.domains.contains(z.primary) ==> one_zone_domains(f, z) == Some(
            "zone "@ + z.name + ": primary domain "@ + z.primary + " is not in [domains] ("@ + join(
                f.domains,
                " "@,
            ) + ")"@,
        ),
        f.domains.contains(z.primary) && z.gw is Some && z.gw->0.scope is Some
            && !f.domains.contains(z.gw->0.scope->0) ==> one_zone_domains(f, z) == Some(
            "zone "@ + z.name + ": gw domain "@ + z.gw->0.scope->0 + " is not in [domains] ("@
                + join(f.domains, " "@) + ")"@,
        ),
{
}

/// What is said of an order that is not the whole order.
pub proof fn lemma_what_is_said_of_an_order(f: FabricV, m: MemberV, p: WirePrefV)
    ensures
        ({
            let at = "member "@ + p.member + " prefs "@ + p.zone + ": "@;
            let want = wanted_wires(f, m, p.zone);
            &&& dup(p.order) is Some ==> pref_order_refusal(f, m, p) == Some(
                at + "a wire is listed twice"@,
            )
            &&& dup(p.order) is None && !same_texts(p.order, want) ==> pref_order_refusal(f, m, p)
                == Some(
                at
                    + "an override is the COMPLETE order, never blended with the derived one — list exactly ["@
                    + join(crate::model::validate::sorted_set(want, want.len() as int), " "@)
                    + "], got ["@ + join(p.order, " "@) + "]"@,
            )
            &&& !has_zone(f, p.zone) ==> one_pref_refusal(f, p) == Some(
                at + ("'"@ + p.zone + "' is not a declared zone (zones: "@ + join(
                    Seq::new(f.zones.len(), |i: int| f.zones[i].name),
                    " "@,
                ) + ")"@),
            )
        }),
{
}

proof fn lemma_vlan_at(w: Seq<WorkloadV>, uplink: Seq<char>, vid: u16, i: int, k: int)
    requires
        0 <= i <= k < w.len(),
        w[k].uplink == uplink && w[k].vid == vid,
        forall|j: int| i <= j < k ==> !((#[trigger] w[j]).uplink == uplink && w[j].vid == vid),
    ensures
        vlan_place(w, uplink, vid, i) == k,
    decreases k - i,
{
    if i < k {
        assert(!(w[i].uplink == uplink && w[i].vid == vid));
        lemma_vlan_at(w, uplink, vid, i + 1, k);
    }
}

proof fn lemma_name_at(names: Seq<Seq<char>>, name: Seq<char>, k: int)
    requires
        0 <= k < names.len(),
        names[k] == name,
        forall|j: int| 0 <= j < k ==> #[trigger] names[j] != name,
    ensures
        place_of(names, name, 0) == k,
{
    lemma_place_of(names, name, 0);
    let p = place_of(names, name, 0);
    if p < k {
        assert(names[p] != name);
    }
}

/// What is said of a row that is not its own: one with a zone's name, with the name of an earlier
/// row, with its leg, or with its bridge and tag.
pub proof fn lemma_what_is_said_of_a_shared_row(f: FabricV, j: int, k: int)
    requires
        0 <= j < k < f.workloads.len(),
    ensures
        ({
            let w = f.workloads[k];
            let o = f.workloads[j];
            let names = forall|i: int| 0 <= i < k ==> (#[trigger] f.workloads[i]).name != w.name;
            let legs = forall|i: int|
                0 <= i < j ==> leg_name((#[trigger] f.workloads[i]).name) != leg_name(w.name);
            let all_legs = forall|i: int|
                0 <= i < k ==> leg_name((#[trigger] f.workloads[i]).name) != leg_name(w.name);
            let vlans = forall|i: int|
                0 <= i < j ==> !((#[trigger] f.workloads[i]).uplink == w.uplink
                    && f.workloads[i].vid == w.vid);
            &&& has_zone(f, w.name) ==> row_identity_refusal(f, k) == Some(
                "workload "@ + w.name
                    + ": name is also a zone (workload and zone names share one vocabulary)"@,
            )
            &&& !has_zone(f, w.name) && o.name == w.name ==> row_identity_refusal(f, k) == Some(
                "workload "@ + w.name + ": declared twice"@,
            )
            &&& !has_zone(f, w.name) && names && legs && leg_name(o.name) == leg_name(w.name)
                ==> row_identity_refusal(f, k) == Some(
                "workload "@ + w.name + ": leg '"@ + leg_name(w.name)
                    + "' is also used by workload "@ + o.name
                    + " (cfab-work-<name>, cut to 15 bytes)"@,
            )
            &&& !has_zone(f, w.name) && names && all_legs && vlans && o.uplink == w.uplink && o.vid
                == w.vid ==> row_identity_refusal(f, k) == Some(
                "workload "@ + w.name + ": uplink '"@ + w.uplink + "' vid "@ + dec(w.vid as nat)
                    + " is also used by workload "@ + o.name + " (one leg per bridge and vid)"@,
            )
        }),
{
    let w = f.workloads[k];
    let o = f.workloads[j];
    let n = crate::model::lookup::workload_names(f.workloads);
    let l = crate::model::validate::legs(f.workloads);
    lemma_place_of(n, w.name, 0);
    lemma_place_of(l, leg_name(w.name), 0);
    if o.name == w.name {
        assert(n[j] == w.name);
    }
    if forall|i: int| 0 <= i < k ==> (#[trigger] f.workloads[i]).name != w.name {
        assert forall|i: int| 0 <= i < k implies #[trigger] n[i] != w.name by {
            assert(f.workloads[i].name != w.name);
        }
        lemma_name_at(n, w.name, k);
    }
    if (forall|i: int|
        0 <= i < j ==> leg_name((#[trigger] f.workloads[i]).name) != leg_name(w.name)) && leg_name(
        o.name,
    ) == leg_name(w.name) {
        assert forall|i: int| 0 <= i < j implies #[trigger] l[i] != leg_name(w.name) by {
            assert(leg_name(f.workloads[i].name) != leg_name(w.name));
        }
        lemma_name_at(l, leg_name(w.name), j);
    }
    if forall|i: int|
        0 <= i < k ==> leg_name((#[trigger] f.workloads[i]).name) != leg_name(w.name) {
        assert forall|i: int| 0 <= i < k implies #[trigger] l[i] != leg_name(w.name) by {
            assert(leg_name(f.workloads[i].name) != leg_name(w.name));
        }
        lemma_name_at(l, leg_name(w.name), k);
    }
    if (forall|i: int|
        0 <= i < j ==> !((#[trigger] f.workloads[i]).uplink == w.uplink && f.workloads[i].vid
            == w.vid)) && o.uplink == w.uplink && o.vid == w.vid {
        lemma_vlan_at(f.workloads, w.uplink, w.vid, 0, j);
    }
}

/// What is said of a row's leg, and of its gateway: the first of what is wrong with it.
pub proof fn lemma_what_is_said_of_a_gateway(f: FabricV, w: WorkloadV)
    ensures
        name_taken(f, leg_name(w.name)) ==> row_leg_refusal(f, w) == Some(
            "workload "@ + w.name + ": leg '"@ + leg_name(w.name)
                + "' collides with an interface cfab creates"@,
        ),
        w.prefix.len >= 22 && !w.prefix.holds(w.gw) ==> row_gw_refusal(w) == Some(
            "workload "@ + w.name + ": gw "@ + dotted(w.gw.bits) + " is outside prefix "@
                + prefix_text(w.prefix),
        ),
        w.prefix.len >= 22 && w.prefix.holds(w.gw) && at_edge(w.prefix, w.gw) ==> row_gw_refusal(w)
            == Some(
            "workload "@ + w.name + ": gw "@ + dotted(w.gw.bits)
                + " is the network or broadcast address of "@ + prefix_text(w.prefix),
        ),
{
}

proof fn lemma_holder_at(f: FabricV, row: Seq<char>, a: Ipv4Addr, i: int, k: int)
    requires
        0 <= i <= k <= f.members.len(),
        forall|j: int|
            i <= j < k ==> !crate::model::validate::holds_address(#[trigger] f.members[j], row, a),
        k < f.members.len() ==> crate::model::validate::holds_address(f.members[k], row, a),
    ensures
        holder(f, row, a, i) == k,
    decreases k - i,
{
    if i < k {
        assert(!crate::model::validate::holds_address(f.members[i], row, a));
        lemma_holder_at(f, row, a, i + 1, k);
    }
}

/// What is said of a server that a relay cannot forward to: the first of what is wrong with it.
pub proof fn lemma_what_is_said_of_a_server(f: FabricV, w: WorkloadV, a: Ipv4Addr, k: int)
    requires
        w.dhcp_server == Some(a),
        0 <= k <= f.members.len(),
        forall|j: int|
            0 <= j < k ==> !crate::model::validate::holds_address(
                #[trigger] f.members[j],
                w.name,
                a,
            ),
        k < f.members.len() ==> crate::model::validate::holds_address(f.members[k], w.name, a),
    ensures
        ({
            let at = "workload "@ + w.name + ": dhcp_server "@ + dotted(a.bits);
            let why = row_dhcp_refusal(f, w);
            &&& a == w.gw ==> why == Some(
                at
                    + " is the gw; the relay forwards off the VLAN, so the server cannot be cfab's own anycast gateway"@,
            )
            &&& a != w.gw && k < f.members.len() ==> why == Some(
                at + " is member "@ + f.members[k].name
                    + "'s own address on this row; the relay forwards off the VLAN"@,
            )
            &&& a != w.gw && k == f.members.len() && w.prefix.holds(a) ==> why == Some(
                at + " is inside prefix "@ + prefix_text(w.prefix)
                    + "; the relay forwards off the VLAN, so the server cannot be on it"@,
            )
            &&& a != w.gw && k == f.members.len() && !w.prefix.holds(a) && (a.bits == 0 || a.bits
                == 0xffff_ffff) ==> why == Some(
                at + " is not an address a relay can forward to (omit dhcp_server for no relay)"@,
            )
        }),
{
    lemma_holder_at(f, w.name, a, 0, k);
}

/// What is said of a row that reaches nothing.
pub proof fn lemma_what_is_said_of_a_row_without_reach(f: FabricV, w: WorkloadV)
    ensures
        w.allow.len() == 0 ==> row_reach_refusal(f, w) == Some(
            "workload "@ + w.name + ": allow is empty; a workload must reach at least one zone"@,
        ),
        w.allow.len() > 0 && !f.host_forward ==> row_reach_refusal(f, w) == Some(
            "workload "@ + w.name
                + ": [forward] enabled = false; enable forwarding or delete the [[workload]] row"@,
        ),
        w.allow.len() > 0 && f.host_forward && unknown_allow(f, w, 0) is None
            && !crate::model::validate::row_carried(f, w.name) ==> row_reach_refusal(f, w) == Some(
            "workload "@ + w.name + ": no member carries it (add workloads = [{ name = \""@ + w.name
                + "\", address = \"<host address>/"@ + dec(w.prefix.len as nat)
                + "\" }] to a member)"@,
        ),
{
}

/// What is said of an address that a member cannot have on a row: the first of what is wrong with
/// it.
pub proof fn lemma_what_is_said_of_an_address(m: MemberV, mw: MemberWorkloadV, wl: WorkloadV)
    ensures
        ({
            let at = "member "@ + m.name + ": workload "@ + wl.name;
            let address = ": address "@ + (dotted(mw.address.bits) + "/"@ + dec(mw.len as nat));
            let why = address_refusal(m, mw, wl);
            let leaf = m.kind == MemberKind::Leaf;
            let inside = wl.prefix.holds(mw.address);
            &&& leaf ==> why == Some(at + ": a leaf carries no workload (kind = leaf)"@)
            &&& !leaf && !inside ==> why == Some(
                at + address + " is outside prefix "@ + prefix_text(wl.prefix),
            )
            &&& !leaf && inside && mw.len != wl.prefix.len ==> why == Some(
                at + address + " must carry the prefix's mask /"@ + dec(wl.prefix.len as nat),
            )
            &&& !leaf && inside && mw.len == wl.prefix.len && mw.address == wl.gw ==> why == Some(
                at + address + " is the gateway "@ + dotted(wl.gw.bits),
            )
            &&& !leaf && inside && mw.len == wl.prefix.len && mw.address != wl.gw && at_edge(
                wl.prefix,
                mw.address,
            ) ==> why == Some(
                at + address + " is the network or broadcast address of "@ + prefix_text(wl.prefix),
            )
        }),
{
}

proof fn lemma_addressed_at(f: FabricV, row: Seq<char>, a: Ipv4Addr, i: int, k: int)
    requires
        0 <= i <= k < f.members.len(),
        forall|j: int| i <= j < k ==> address_on(#[trigger] f.members[j], row) != Some(a),
        address_on(f.members[k], row) == Some(a),
    ensures
        addressed(f, row, a, i) == k,
    decreases k - i,
{
    if i < k {
        assert(address_on(f.members[i], row) != Some(a));
        lemma_addressed_at(f, row, a, i + 1, k);
    }
}

proof fn lemma_shared_at(f: FabricV, row: Seq<char>, i: int, j: int, k: int)
    requires
        0 <= i <= k,
        0 <= j < k < f.members.len(),
        address_on(f.members[j], row) is Some,
        address_on(f.members[k], row) == address_on(f.members[j], row),
        forall|x: int, y: int|
            0 <= x < y < k && address_on(#[trigger] f.members[x], row) is Some ==> address_on(
                f.members[x],
                row,
            ) != address_on(#[trigger] f.members[y], row),
    ensures
        shared_address(f, row, i) == Some(
            "workload "@ + row + ": address "@ + dotted(address_on(f.members[k], row)->0.bits)
                + " is declared by both member "@ + f.members[j].name + " and member "@
                + f.members[k].name,
        ),
    decreases k - i,
{
    let a = address_on(f.members[k], row)->0;
    assert forall|x: int| 0 <= x < j implies address_on(#[trigger] f.members[x], row) != Some(a) by {
        if address_on(f.members[x], row) is Some {
            assert(address_on(f.members[x], row) != address_on(f.members[j], row));
        }
    }
    lemma_addressed_at(f, row, a, 0, j);
    if i < k {
        match address_on(f.members[i], row) {
            Some(b) => {
                assert forall|x: int| 0 <= x < i implies address_on(#[trigger] f.members[x], row)
                    != Some(b) by {
                    if address_on(f.members[x], row) is Some {
                        assert(address_on(f.members[x], row) != address_on(f.members[i], row));
                    }
                }
                lemma_addressed_at(f, row, b, 0, i);
            },
            None => {},
        }
        lemma_shared_at(f, row, i + 1, j, k);
    }
}

/// Two members with one address on a row are both named: the first that an earlier one has the
/// address of, and that earlier one.
pub proof fn lemma_who_shares_an_address(f: FabricV, row: Seq<char>, j: int, k: int)
    requires
        0 <= j < k < f.members.len(),
        address_on(f.members[j], row) is Some,
        address_on(f.members[k], row) == address_on(f.members[j], row),
        forall|x: int, y: int|
            0 <= x < y < k && address_on(#[trigger] f.members[x], row) is Some ==> address_on(
                f.members[x],
                row,
            ) != address_on(#[trigger] f.members[y], row),
    ensures
        shared_address(f, row, 0) == Some(
            "workload "@ + row + ": address "@ + dotted(address_on(f.members[k], row)->0.bits)
                + " is declared by both member "@ + f.members[j].name + " and member "@
                + f.members[k].name,
        ),
{
    lemma_shared_at(f, row, 0, j, k);
}

/// What is said of an ingress: that its bond's name is too long, or that its tag is a segment's.
pub proof fn lemma_what_is_said_of_an_ingress(f: FabricV, z: ZoneV, g: ZoneGwV, k: int)
    requires
        z.gw == Some(g),
    ensures
        ({
            let long = g.scope is None && byte_len("cfab-gw"@ + dec(z.id as nat)) > 13;
            &&& long ==> one_gw_refusal(f, z) == Some(
                "zone "@ + z.name + ": ingress bond cfab-gw"@ + dec(z.id as nat)
                    + " must be 13 characters or fewer (ports are named <ifname>-<domain>, IFNAMSIZ 15)"@,
            )
            &&& !long && 0 <= k < f.segments.len() && f.segments[k].vid == g.vid ==> one_gw_refusal(
                f,
                z,
            ) == Some(
                "zone "@ + z.name + " ingress vid "@ + dec(g.vid as nat)
                    + " is also a segment vid"@,
            )
        }),
{
}

/// What is said of a row that a member carries twice, or that is not declared.
pub proof fn lemma_what_is_said_of_a_carried_row(f: FabricV, m: MemberV, i: int, j: int)
    requires
        0 <= j < m.workloads.len(),
    ensures
        ({
            let name = m.workloads[j].name;
            let known = exists|k: int|
                0 <= k < f.workloads.len() && (#[trigger] f.workloads[k]).name == name;
            let first = forall|k: int| 0 <= k < j ==> (#[trigger] m.workloads[k]).name != name;
            &&& 0 <= i < j && m.workloads[i].name == name ==> one_carried_refusal(f, m, j) == Some(
                "member "@ + m.name + ": workload "@ + name + " is declared twice"@,
            )
            &&& first && !known ==> one_carried_refusal(f, m, j) == Some(
                "member "@ + m.name + ": workload '"@ + name
                    + "' is not a declared [[workload]] (workloads: "@ + join(
                    Seq::new(f.workloads.len(), |k: int| f.workloads[k].name),
                    ", "@,
                ) + ")"@,
            )
        }),
{
    let name = m.workloads[j].name;
    let a = crate::model::validate::carried_names(m.workloads);
    let b = crate::model::lookup::workload_names(f.workloads);
    lemma_place_of(a, name, 0);
    lemma_place_of(b, name, 0);
    if 0 <= i < j && m.workloads[i].name == name {
        assert(a[i] == name);
    }
    if forall|k: int| 0 <= k < j ==> (#[trigger] m.workloads[k]).name != name {
        assert forall|k: int| 0 <= k < j implies #[trigger] a[k] != name by {
            assert(m.workloads[k].name != name);
        }
        lemma_name_at(a, name, j);
    }
    let p = place_of(b, name, 0);
    if p < b.len() {
        assert(f.workloads[p].name == name);
    }
}

} // verus!
