//! What holds of every fabric that validation lets through.

use vstd::prelude::*;

use crate::ipv4::{quad, Ipv4Addr};
use crate::model::lookup::{
    carried, has_zone, lemma_place_of, member_names, place_of, workload_names, zone_names,
};
use crate::model::validate::{
    address_on, addressed, all_carried_refusal, carried_names, carried_refusal, declared,
    domain_repeats, forward_refusal, gw_refusal, holder, holds_address, legs, name_taken, nodes,
    one_carried_refusal, one_pref_refusal, prefs_refusal, refusal,
    router_collision, row_block_refusal, row_carried, row_refusal, rows_refusal, same_texts,
    segment_domain_refusal, segment_ifnames, segment_tagged, segment_zone_refusal, shared_address,
    shared_addresses, shared_domain, undeclared_wire, universal_name_refusal, unknown_allow,
    unwired_domain, vids, vlan_place,
    wanted_wires, wired, wires_refusal, zone_block, zone_domain_refusal, zone_ids,
    zone_primary_refusal, zone_scopes, zone_segs,
};
use crate::model::{
    bond_ifname_long, gw_name, last_octet, leg_name, FabricV, MemberKind, MemberV, WorkloadV,
    MIN_WORKLOAD_PREFIX_LEN,
};
use crate::text::{dup, lemma_dup_from, repeats};

verus! {

/// Does validation let this fabric through?
pub open spec fn accepted(f: FabricV) -> bool {
    refusal(f) is None
}

/// Texts without a repeat all differ.
proof fn lemma_distinct(items: Seq<Seq<char>>, i: int, j: int)
    requires
        dup(items) is None,
        0 <= i < j < items.len(),
    ensures
        items[i] != items[j],
{
    lemma_dup_from(items, 0);
    assert(!repeats(items, j));
}

// ---- members ----

/// No two members have a name or a node in common.
pub proof fn lemma_members_differ(f: FabricV, i: int, j: int)
    requires
        accepted(f),
        0 <= i < j < f.members.len(),
    ensures
        f.members[i].name != f.members[j].name,
        f.members[i].node != f.members[j].node,
{
    lemma_distinct(member_names(f.members), i, j);
    lemma_distinct(nodes(f.members), i, j);
}

proof fn lemma_wires_from(f: FabricV, k: int, i: int)
    requires
        wires_refusal(f, k) is None,
        0 <= k <= i < f.members.len(),
    ensures
        f.members[i].wires.len() > 0,
        undeclared_wire(f, f.members[i], 0) is None,
        shared_domain(f.members[i], 0) is None,
    decreases i - k,
{
    if k < i {
        lemma_wires_from(f, k + 1, i);
    }
}

proof fn lemma_declared_from(f: FabricV, m: MemberV, k: int, j: int)
    requires
        undeclared_wire(f, m, k) is None,
        0 <= k <= j < m.wires.len(),
    ensures
        declared(f, m.wires[j].domain),
    decreases j - k,
{
    if k < j {
        lemma_declared_from(f, m, k + 1, j);
    }
}

proof fn lemma_unshared_from(m: MemberV, k: int, j: int)
    requires
        shared_domain(m, k) is None,
        0 <= k <= j < m.wires.len(),
    ensures
        !domain_repeats(m.wires, j),
    decreases j - k,
{
    if k < j {
        lemma_unshared_from(m, k + 1, j);
    }
}

/// Every member has a wire, every wire is on a declared domain, and no two wires of a member are
/// on the same one.
pub proof fn lemma_wires_are_sound(f: FabricV, i: int, j: int)
    requires
        accepted(f),
        0 <= i < f.members.len(),
        0 <= j < f.members[i].wires.len(),
    ensures
        f.members[i].wires.len() > 0,
        declared(f, f.members[i].wires[j].domain),
        forall|k: int|
            0 <= k < j ==> (#[trigger] f.members[i].wires[k]).domain
                != f.members[i].wires[j].domain,
{
    lemma_wires_from(f, 0, i);
    lemma_declared_from(f, f.members[i], 0, j);
    lemma_unshared_from(f.members[i], 0, j);
}

/// Every member has a wire.
pub proof fn lemma_every_member_is_wired(f: FabricV, i: int)
    requires
        accepted(f),
        0 <= i < f.members.len(),
    ensures
        f.members[i].wires.len() > 0,
{
    lemma_wires_from(f, 0, i);
}

proof fn lemma_wired_from(f: FabricV, k: int, i: int)
    requires
        unwired_domain(f, k) is None,
        0 <= k <= i < f.domains.len(),
    ensures
        wired(f, f.domains[i]),
    decreases i - k,
{
    if k < i {
        lemma_wired_from(f, k + 1, i);
    }
}

/// There is a domain, and every declared one has a wire on it.
pub proof fn lemma_every_domain_is_wired(f: FabricV, i: int)
    requires
        accepted(f),
        0 <= i < f.domains.len(),
    ensures
        wired(f, f.domains[i]),
{
    lemma_wired_from(f, 0, i);
}

// ---- zones and segments ----

proof fn lemma_zone_domains_from(f: FabricV, k: int, i: int)
    requires
        zone_domain_refusal(f, k) is None,
        0 <= k <= i < f.zones.len(),
    ensures
        declared(f, f.zones[i].primary),
        f.zones[i].gw matches Some(g) ==> (g.scope matches Some(d) ==> declared(f, d)),
    decreases i - k,
{
    if k < i {
        lemma_zone_domains_from(f, k + 1, i);
    }
}

proof fn lemma_primary_from(f: FabricV, k: int, i: int)
    requires
        zone_primary_refusal(f, k) is None,
        0 <= k <= i < f.zones.len(),
    ensures
        f.zones[i].id >= 1,
        carried(f, f.zones[i].name, f.zones[i].primary),
    decreases i - k,
{
    if k < i {
        lemma_primary_from(f, k + 1, i);
    }
}

/// Every zone has a block of its own, and a segment on its primary domain, which is declared.
pub proof fn lemma_zones_are_sound(f: FabricV, i: int)
    requires
        accepted(f),
        0 <= i < f.zones.len(),
    ensures
        f.zones[i].id >= 1,
        declared(f, f.zones[i].primary),
        carried(f, f.zones[i].name, f.zones[i].primary),
        f.zones[i].gw matches Some(g) ==> (g.scope matches Some(d) ==> declared(f, d)),
        forall|j: int| 0 <= j < i ==> (#[trigger] f.zones[j]).id != f.zones[i].id,
{
    lemma_zone_domains_from(f, 0, i);
    lemma_primary_from(f, 0, i);
    assert forall|j: int| 0 <= j < i implies (#[trigger] f.zones[j]).id != f.zones[i].id by {
        lemma_distinct(zone_ids(f.zones), j, i);
    }
}

proof fn lemma_segment_zone_from(f: FabricV, k: int, i: int)
    requires
        segment_zone_refusal(f, k) is None,
        0 <= k <= i < f.segments.len(),
    ensures
        has_zone(f, f.segments[i].zone),
    decreases i - k,
{
    if k < i {
        lemma_segment_zone_from(f, k + 1, i);
    }
}

proof fn lemma_segment_domain_from(f: FabricV, k: int, i: int)
    requires
        segment_domain_refusal(f, k) is None,
        0 <= k <= i < f.segments.len(),
    ensures
        f.segments[i].scope matches Some(d) ==> declared(f, d),
    decreases i - k,
{
    if k < i {
        lemma_segment_domain_from(f, k + 1, i);
    }
}

proof fn lemma_universal_from(f: FabricV, k: int, i: int)
    requires
        universal_name_refusal(f, k) is None,
        0 <= k <= i < f.segments.len(),
    ensures
        f.segments[i].scope is None ==> !bond_ifname_long(f.segments[i].ifname),
    decreases i - k,
{
    if k < i {
        lemma_universal_from(f, k + 1, i);
    }
}

/// Every segment is of a declared zone and on a declared domain, the name of a universal one
/// leaves room for those of its ports, and no two segments share a tag, an interface name, or,
/// within a zone, a number or a domain.
pub proof fn lemma_segments_are_sound(f: FabricV, i: int)
    requires
        accepted(f),
        0 <= i < f.segments.len(),
    ensures
        has_zone(f, f.segments[i].zone),
        f.segments[i].scope matches Some(d) ==> declared(f, d),
        f.segments[i].scope is None ==> !bond_ifname_long(f.segments[i].ifname),
        forall|j: int|
            0 <= j < i ==> {
                &&& (#[trigger] f.segments[j]).vid != f.segments[i].vid
                &&& f.segments[j].ifname != f.segments[i].ifname
                &&& f.segments[j].zone == f.segments[i].zone ==> f.segments[j].seg
                    != f.segments[i].seg && f.segments[j].scope != f.segments[i].scope
            },
{
    lemma_segment_zone_from(f, 0, i);
    lemma_segment_domain_from(f, 0, i);
    lemma_universal_from(f, 0, i);
    assert forall|j: int| 0 <= j < i implies {
        &&& (#[trigger] f.segments[j]).vid != f.segments[i].vid
        &&& f.segments[j].ifname != f.segments[i].ifname
        &&& f.segments[j].zone == f.segments[i].zone ==> f.segments[j].seg != f.segments[i].seg
            && f.segments[j].scope != f.segments[i].scope
    } by {
        lemma_distinct(vids(f.segments), j, i);
        lemma_distinct(segment_ifnames(f.segments), j, i);
        lemma_distinct(zone_segs(f.segments), j, i);
        lemma_distinct(zone_scopes(f.segments), j, i);
    }
}

/// The number of the zone of a segment.
pub open spec fn segment_block(f: FabricV, i: int) -> u8 {
    f.zones[place_of(zone_names(f.zones), f.segments[i].zone, 0)].id
}

/// The address of a member on a segment.
pub open spec fn segment_address(f: FabricV, i: int, m: int) -> int {
    quad(
        10,
        segment_block(f, i) as int,
        f.segments[i].seg as int,
        f.members[m].node as int,
    )
}

/// No two interfaces on the segments have the same address, whichever members they are of.
pub proof fn lemma_segment_addresses_differ(f: FabricV, i: int, m: int, j: int, n: int)
    requires
        accepted(f),
        0 <= i < f.segments.len(),
        0 <= j < f.segments.len(),
        0 <= m < f.members.len(),
        0 <= n < f.members.len(),
        i != j || m != n,
    ensures
        segment_address(f, i, m) != segment_address(f, j, n),
{
    lemma_segments_are_sound(f, i);
    lemma_segments_are_sound(f, j);
    let a = place_of(zone_names(f.zones), f.segments[i].zone, 0);
    let b = place_of(zone_names(f.zones), f.segments[j].zone, 0);
    lemma_place_of(zone_names(f.zones), f.segments[i].zone, 0);
    lemma_place_of(zone_names(f.zones), f.segments[j].zone, 0);
    assert(zone_names(f.zones)[a] == f.segments[i].zone);
    assert(zone_names(f.zones)[b] == f.segments[j].zone);
    if a < b {
        lemma_zones_are_sound(f, b);
        assert(f.zones[a].id != f.zones[b].id);
    }
    if b < a {
        lemma_zones_are_sound(f, a);
        assert(f.zones[b].id != f.zones[a].id);
    }
    if m < n {
        lemma_members_differ(f, m, n);
    }
    if n < m {
        lemma_members_differ(f, n, m);
    }
    if i < j {
        assert(f.segments[i].zone == f.segments[j].zone ==> f.segments[i].seg
            != f.segments[j].seg);
    }
    if j < i {
        assert(f.segments[j].zone == f.segments[i].zone ==> f.segments[j].seg
            != f.segments[i].seg);
    }
}

// ---- overrides and forwarding ----

proof fn lemma_pref_from(f: FabricV, k: int, i: int)
    requires
        prefs_refusal(f, k) is None,
        0 <= k <= i < f.wire_prefs.len(),
    ensures
        one_pref_refusal(f, f.wire_prefs[i]) is None,
    decreases i - k,
{
    if k < i {
        lemma_pref_from(f, k + 1, i);
    }
}

/// An override is of a declared zone, and lists every wire that carries the zone on its member,
/// each once, and no other.
pub proof fn lemma_overrides_are_complete(f: FabricV, i: int)
    requires
        accepted(f),
        0 <= i < f.wire_prefs.len(),
    ensures
        ({
            let p = f.wire_prefs[i];
            let m = f.members[place_of(member_names(f.members), p.member, 0)];
            &&& has_zone(f, p.zone)
            &&& dup(p.order) is None
            &&& same_texts(p.order, wanted_wires(f, m, p.zone))
        }),
{
    lemma_pref_from(f, 0, i);
}

proof fn lemma_forward_from(f: FabricV, k: int, i: int)
    requires
        forward_refusal(f, k) is None,
        0 <= k <= i < f.forward_allow.len(),
    ensures
        has_zone(f, f.forward_allow[i].0),
        has_zone(f, f.forward_allow[i].1),
    decreases i - k,
{
    if k < i {
        lemma_forward_from(f, k + 1, i);
    }
}

/// What may be forwarded is between declared zones.
pub proof fn lemma_forwarding_is_between_zones(f: FabricV, i: int)
    requires
        accepted(f),
        0 <= i < f.forward_allow.len(),
    ensures
        has_zone(f, f.forward_allow[i].0),
        has_zone(f, f.forward_allow[i].1),
{
    lemma_forward_from(f, 0, i);
}

// ---- workloads ----

proof fn lemma_row_from(f: FabricV, k: int, i: int)
    requires
        rows_refusal(f, k) is None,
        0 <= k <= i < f.workloads.len(),
    ensures
        row_refusal(f, i) is None,
    decreases i - k,
{
    if k < i {
        lemma_row_from(f, k + 1, i);
    }
}

proof fn lemma_block_from(f: FabricV, w: WorkloadV, k: int, i: int)
    requires
        row_block_refusal(f, w, k) is None,
        0 <= k <= i < f.zones.len(),
    ensures
        !w.prefix.meets(zone_block(f.zones[i].id)),
    decreases i - k,
{
    if k < i {
        lemma_block_from(f, w, k + 1, i);
    }
}

proof fn lemma_vlan_place(w: Seq<WorkloadV>, uplink: Seq<char>, vid: u16, i: int, j: int)
    requires
        0 <= i <= j < w.len(),
        w[j].uplink == uplink,
        w[j].vid == vid,
    ensures
        vlan_place(w, uplink, vid, i) <= j,
    decreases j - i,
{
    if i < j && !(w[i].uplink == uplink && w[i].vid == vid) {
        lemma_vlan_place(w, uplink, vid, i + 1, j);
    }
}

proof fn lemma_allowed_from(f: FabricV, w: WorkloadV, k: int, i: int)
    requires
        unknown_allow(f, w, k) is None,
        0 <= k <= i < w.allow.len(),
    ensures
        has_zone(f, w.allow[i]),
    decreases i - k,
{
    if k < i {
        lemma_allowed_from(f, w, k + 1, i);
    }
}

proof fn lemma_holder(f: FabricV, row: Seq<char>, a: Ipv4Addr, k: int, i: int)
    requires
        holder(f, row, a, k) >= f.members.len(),
        0 <= k <= i < f.members.len(),
    ensures
        !holds_address(f.members[i], row, a),
    decreases i - k,
{
    if k < i {
        lemma_holder(f, row, a, k + 1, i);
    }
}

/// A workload has a name that no zone and no other workload has, and a leg that is no other
/// interface's. Its prefix is no larger than is served and meets no zone's block, and its gateway
/// is a host of it. It reaches at least one zone, all of them declared, and some member carries
/// it. No other workload has its leg, or its bridge and tag.
pub proof fn lemma_workloads_are_sound(f: FabricV, k: int)
    requires
        accepted(f),
        0 <= k < f.workloads.len(),
    ensures
        ({
            let w = f.workloads[k];
            &&& !has_zone(f, w.name)
            &&& !name_taken(f, leg_name(w.name))
            &&& w.prefix.len >= MIN_WORKLOAD_PREFIX_LEN
            &&& w.prefix.holds(w.gw)
            &&& w.gw != w.prefix.net
            &&& w.gw.bits != w.prefix.last_bits()
            &&& w.allow.len() > 0
            &&& f.host_forward
            &&& row_carried(f, w.name)
            &&& forall|i: int| 0 <= i < w.allow.len() ==> has_zone(f, #[trigger] w.allow[i])
            &&& forall|i: int|
                0 <= i < f.zones.len() ==> !w.prefix.meets(zone_block((#[trigger] f.zones[i]).id))
            &&& forall|j: int|
                0 <= j < k ==> {
                    &&& (#[trigger] f.workloads[j]).name != w.name
                    &&& leg_name(f.workloads[j].name) != leg_name(w.name)
                    &&& !(f.workloads[j].uplink == w.uplink && f.workloads[j].vid == w.vid)
                }
        }),
{
    lemma_row_from(f, 0, k);
    let w = f.workloads[k];
    assert forall|i: int| 0 <= i < f.zones.len() implies !w.prefix.meets(
        zone_block((#[trigger] f.zones[i]).id),
    ) by {
        lemma_block_from(f, w, 0, i);
    }
    assert forall|i: int| 0 <= i < w.allow.len() implies has_zone(f, #[trigger] w.allow[i]) by {
        lemma_allowed_from(f, w, 0, i);
    }
    assert forall|j: int| 0 <= j < k implies {
        &&& (#[trigger] f.workloads[j]).name != w.name
        &&& leg_name(f.workloads[j].name) != leg_name(w.name)
        &&& !(f.workloads[j].uplink == w.uplink && f.workloads[j].vid == w.vid)
    } by {
        let l = legs(f.workloads);
        lemma_place_of(l, leg_name(w.name), 0);
        if leg_name(f.workloads[j].name) == leg_name(w.name) {
            assert(l[j] == leg_name(w.name));
        }
        if f.workloads[j].uplink == w.uplink && f.workloads[j].vid == w.vid {
            lemma_vlan_place(f.workloads, w.uplink, w.vid, 0, j);
        }
    }
}

/// A relay's server is off the workload's network: not its gateway, in none of its addresses and
/// no member's, and an address at all.
pub proof fn lemma_relay_servers_are_sound(f: FabricV, k: int, i: int)
    requires
        accepted(f),
        0 <= k < f.workloads.len(),
        f.workloads[k].dhcp_server is Some,
        0 <= i < f.members.len(),
    ensures
        ({
            let w = f.workloads[k];
            let a = w.dhcp_server->0;
            &&& a != w.gw
            &&& !w.prefix.holds(a)
            &&& !holds_address(f.members[i], w.name, a)
            &&& a.bits != 0
            &&& a.bits != 0xffff_ffff
        }),
{
    lemma_row_from(f, 0, k);
    let w = f.workloads[k];
    lemma_holder(f, w.name, w.dhcp_server->0, 0, i);
}

proof fn lemma_shared_from(f: FabricV, k: int, i: int)
    requires
        shared_addresses(f, k) is None,
        0 <= k <= i < f.workloads.len(),
    ensures
        shared_address(f, f.workloads[i].name, 0) is None,
    decreases i - k,
{
    if k < i {
        lemma_shared_from(f, k + 1, i);
    }
}

proof fn lemma_unshared_address(f: FabricV, row: Seq<char>, k: int, i: int)
    requires
        shared_address(f, row, k) is None,
        0 <= k <= i < f.members.len(),
    ensures
        address_on(f.members[i], row) matches Some(a) ==> addressed(f, row, a, 0) >= i,
    decreases i - k,
{
    if k < i {
        lemma_unshared_address(f, row, k + 1, i);
    }
}

proof fn lemma_addressed(f: FabricV, row: Seq<char>, a: Ipv4Addr, k: int, i: int)
    requires
        0 <= k <= i < f.members.len(),
        address_on(f.members[i], row) == Some(a),
    ensures
        addressed(f, row, a, k) <= i,
    decreases i - k,
{
    if k < i && address_on(f.members[k], row) != Some(a) {
        lemma_addressed(f, row, a, k + 1, i);
    }
}

/// No two members hold the same address on a workload's interface.
pub proof fn lemma_workload_addresses_differ(f: FabricV, k: int, i: int, j: int)
    requires
        accepted(f),
        0 <= k < f.workloads.len(),
        0 <= i < j < f.members.len(),
        address_on(f.members[i], f.workloads[k].name) is Some,
    ensures
        address_on(f.members[i], f.workloads[k].name) != address_on(
            f.members[j],
            f.workloads[k].name,
        ),
{
    let row = f.workloads[k].name;
    lemma_shared_from(f, 0, k);
    lemma_unshared_address(f, row, 0, j);
    lemma_addressed(f, row, address_on(f.members[i], row)->0, 0, i);
}

proof fn lemma_carried_from(f: FabricV, k: int, i: int)
    requires
        all_carried_refusal(f, k) is None,
        0 <= k <= i < f.members.len(),
    ensures
        carried_refusal(f, f.members[i], 0) is None,
    decreases i - k,
{
    if k < i {
        lemma_carried_from(f, k + 1, i);
    }
}

proof fn lemma_one_carried_from(f: FabricV, m: MemberV, k: int, j: int)
    requires
        carried_refusal(f, m, k) is None,
        0 <= k <= j < m.workloads.len(),
    ensures
        one_carried_refusal(f, m, j) is None,
    decreases j - k,
{
    if k < j {
        lemma_one_carried_from(f, m, k + 1, j);
    }
}

/// What a member carries is a declared workload, named once by it. The address that it holds
/// there is a host of the workload's prefix, under the prefix's mask, and not the gateway's.
pub proof fn lemma_carried_workloads_are_sound(f: FabricV, i: int, j: int)
    requires
        accepted(f),
        0 <= i < f.members.len(),
        0 <= j < f.members[i].workloads.len(),
    ensures
        ({
            let c = f.members[i].workloads[j];
            let p = place_of(workload_names(f.workloads), c.name, 0);
            let w = f.workloads[p];
            &&& f.members[i].kind == MemberKind::Host
            &&& 0 <= p < f.workloads.len()
            &&& w.name == c.name
            &&& w.prefix.holds(c.address)
            &&& c.len == w.prefix.len
            &&& c.address != w.gw
            &&& c.address != w.prefix.net
            &&& c.address.bits != w.prefix.last_bits()
            &&& forall|k: int|
                0 <= k < j ==> (#[trigger] f.members[i].workloads[k]).name != c.name
        }),
{
    lemma_carried_from(f, 0, i);
    let m = f.members[i];
    lemma_one_carried_from(f, m, 0, j);
    let c = m.workloads[j];
    lemma_place_of(workload_names(f.workloads), c.name, 0);
    lemma_place_of(carried_names(m.workloads), c.name, 0);
    assert forall|k: int| 0 <= k < j implies (#[trigger] m.workloads[k]).name != c.name by {
        if m.workloads[k].name == c.name {
            assert(carried_names(m.workloads)[k] == c.name);
        }
    }
}

/// A leaf carries no workload.
pub proof fn lemma_a_leaf_carries_no_workload(f: FabricV, i: int)
    requires
        accepted(f),
        0 <= i < f.members.len(),
        f.members[i].kind == MemberKind::Leaf,
    ensures
        f.members[i].workloads.len() == 0,
{
    lemma_carried_from(f, 0, i);
}

// ---- ingress ----

proof fn lemma_gw_from(f: FabricV, k: int, i: int)
    requires
        gw_refusal(f, k) is None,
        0 <= k <= i < f.zones.len(),
    ensures
        f.zones[i].gw matches Some(g) ==> !segment_tagged(f, g.vid) && (last_octet(g.router) matches Some(
            o,
        ) ==> router_collision(f, f.zones[i], g, o, 0) is None) && (g.scope is None
            ==> !bond_ifname_long(gw_name(f.zones[i].id))),
    decreases i - k,
{
    if k < i {
        lemma_gw_from(f, k + 1, i);
    }
}

proof fn lemma_collision_from(
    f: FabricV,
    z: crate::model::ZoneV,
    g: crate::model::ZoneGwV,
    o: nat,
    k: int,
    m: int,
)
    requires
        router_collision(f, z, g, o, k) is None,
        0 <= k <= m < f.members.len(),
    ensures
        f.members[m].node != o,
    decreases m - k,
{
    if k < m {
        lemma_collision_from(f, z, g, o, k + 1, m);
    }
}

/// An ingress leg has a tag that no segment has, its router's address is no member's, and its
/// name leaves room for those of its ports where it has several.
pub proof fn lemma_ingress_is_sound(f: FabricV, i: int, m: int)
    requires
        accepted(f),
        0 <= i < f.zones.len(),
        f.zones[i].gw is Some,
        0 <= m < f.members.len(),
    ensures
        !segment_tagged(f, f.zones[i].gw->0.vid),
        last_octet(f.zones[i].gw->0.router) matches Some(o) ==> f.members[m].node != o,
        f.zones[i].gw->0.scope is None ==> !bond_ifname_long(gw_name(f.zones[i].id)),
{
    lemma_gw_from(f, 0, i);
    let g = f.zones[i].gw->0;
    if last_octet(g.router) is Some {
        lemma_collision_from(f, f.zones[i], g, last_octet(g.router)->0, 0, m);
    }
}

} // verus!
