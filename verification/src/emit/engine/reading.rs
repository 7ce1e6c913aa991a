//! What a configuration tree says, read by its keys.

use vstd::prelude::*;

use crate::derive::{identity_of, MemberViewV};
use crate::emit::engine::{
    adjacency, area, bfd_settings, bgp_global, bgp_instance, bgp_timers, config_tree,
    export_definition, fallback_if, fallback_ifs, global_afi, gw_ifs, if_names, import_definition,
    import_names, interface_entries, leg_local, neighbor, neighbor_afi, neighbors, networks,
    ospf_body, ospf_ifs, ospf_instance, ospf_instances, passive_if, policies, policy, prefix_set,
    prefix_sets, prefsrc, redistribution, routing, routing_policy, row_zone, segment_if,
    segment_ifs, spf_control, TransitCost,
};
use crate::ipv4::{dotted, octet};
use crate::json::JsonV;
use crate::model::{subnet_of, MemberKind, ZoneV};
use crate::prober::rid_of;
use crate::text::dec;

verus! {

proof fn lemma_place_at(e: Seq<(Seq<char>, JsonV)>, k: int, i: int)
    requires
        0 <= i <= k < e.len(),
        forall|j: int| 0 <= j < k ==> (#[trigger] e[j]).0 != e[k].0,
    ensures
        JsonV::place(e, e[k].0, i) == k,
    decreases k - i,
{
    if i < k {
        lemma_place_at(e, k, i + 1);
    }
}

/// The value of an entry is found under its key, where no earlier entry has that key.
proof fn lemma_at(e: Seq<(Seq<char>, JsonV)>, k: int)
    requires
        0 <= k < e.len(),
        forall|j: int| 0 <= j < k ==> (#[trigger] e[j]).0 != e[k].0,
    ensures
        JsonV::Obj(e).at(e[k].0) == e[k].1,
        JsonV::Obj(e).has(e[k].0),
{
    lemma_place_at(e, k, 0);
}

/// No value is found under a key that no entry has.
proof fn lemma_not_at(e: Seq<(Seq<char>, JsonV)>, key: Seq<char>, i: int)
    requires
        0 <= i <= e.len(),
        forall|j: int| i <= j < e.len() ==> (#[trigger] e[j]).0 != key,
    ensures
        JsonV::place(e, key, i) == e.len(),
    decreases e.len() - i,
{
    if i < e.len() {
        lemma_not_at(e, key, i + 1);
    }
}

// ---- where things stand in the tree ----

/// The protocol instances of a tree.
pub open spec fn protocols(tree: JsonV) -> Seq<JsonV> {
    tree.at("ietf-routing:routing"@).at("control-plane-protocols"@).at(
        "control-plane-protocol"@,
    ).items()
}

/// The interfaces of an OSPF instance, which has one area.
pub open spec fn instance_ifs(inst: JsonV) -> Seq<JsonV> {
    inst.at("ietf-ospf:ospf"@).at("areas"@).at("area"@).items()[0].at("interfaces"@).at(
        "interface"@,
    ).items()
}

/// The sessions of a BGP instance.
pub open spec fn sessions(inst: JsonV) -> Seq<JsonV> {
    inst.at("ietf-bgp:bgp"@).at("neighbors"@).at("neighbor"@).items()
}

/// A member's address in the identity network of a zone: `10.<id>.0.<node>`.
pub open spec fn own_identity(id: u8, node: u8) -> Seq<char> {
    "10."@ + dec(id as nat) + ".0."@ + dec(node as nat)
}

proof fn lemma_tree(v: MemberViewV, t: TransitCost)
    ensures
        ({
            let p = ospf_instances(v, t, v.fabric.zones.len() as int);
            protocols(config_tree(v, t)) == if v.gw_rows.len() == 0 {
                p
            } else {
                p.push(bgp_instance(v))
            }
        }),
        v.gw_rows.len() > 0 ==> config_tree(v, t).at("ietf-routing-policy:routing-policy"@)
            == routing_policy(v),
        config_tree(v, t).at("ietf-interfaces:interfaces"@).at("interface"@) == JsonV::Arr(
            interface_entries(if_names(v), if_names(v).len() as int),
        ),
{
    reveal_strlit("ietf-interfaces:interfaces");
    assert("ietf-interfaces:interfaces"@.len() == 26);
    reveal_strlit("ietf-routing-policy:routing-policy");
    assert("ietf-routing-policy:routing-policy"@.len() == 34);
    reveal_strlit("ietf-routing:routing");
    assert("ietf-routing:routing"@.len() == 20);
    let e = config_tree(v, t)->Obj_0;
    lemma_at(e, 0);
    lemma_at(e, 1);
    if v.gw_rows.len() > 0 {
        lemma_at(e, 2);
    }
    let r = config_tree(v, t).at("ietf-routing:routing"@);
    lemma_at(r->Obj_0, 0);
    lemma_at(r.at("control-plane-protocols"@)->Obj_0, 0);
    lemma_at(config_tree(v, t).at("ietf-interfaces:interfaces"@)->Obj_0, 0);
}

proof fn lemma_instances(v: MemberViewV, t: TransitCost, n: int)
    requires
        0 <= n <= v.fabric.zones.len(),
    ensures
        ospf_instances(v, t, n).len() == n,
        forall|k: int|
            0 <= k < n ==> #[trigger] ospf_instances(v, t, n)[k] == ospf_instance(
                v,
                t,
                v.fabric.zones[k],
            ),
    decreases n,
{
    if n > 0 {
        lemma_instances(v, t, n - 1);
    }
}

#[verifier::spinoff_prover]
#[verifier::rlimit(60)]
proof fn lemma_instance(v: MemberViewV, t: TransitCost, z: ZoneV)
    ensures
        ({
            let i = ospf_instance(v, t, z);
            let b = i.at("ietf-ospf:ospf"@);
            &&& i.at("type"@) == JsonV::Str("ietf-ospf:ospfv2"@)
            &&& i.at("name"@) == JsonV::Str(z.name)
            &&& b.at("explicit-router-id"@) == JsonV::Str(own_identity(z.id, v.member.node))
            &&& b.at("areas"@).at("area"@).items().len() == 1
            &&& b.at("areas"@).at("area"@).items()[0].at("area-id"@) == JsonV::Str("0.0.0.0"@)
            &&& instance_ifs(i) == ospf_ifs(v, t, z)
            &&& b.at("spf-control"@).at("ietf-spf-delay"@).at("long-delay"@) == JsonV::Uint(100)
            &&& b.at("spf-control"@).at("ietf-spf-delay"@).at("hold-down"@) == JsonV::Uint(3000)
        }),
{
    reveal_strlit("type");
    assert("type"@.len() == 4);
    assert("type"@[0] == 't');
    reveal_strlit("name");
    assert("name"@.len() == 4);
    assert("name"@[0] == 'n');
    reveal_strlit("ietf-ospf:ospf");
    assert("ietf-ospf:ospf"@.len() == 14);
    reveal_strlit("explicit-router-id");
    assert("explicit-router-id"@.len() == 18);
    reveal_strlit("spf-control");
    assert("spf-control"@.len() == 11);
    reveal_strlit("areas");
    assert("areas"@.len() == 5);
    reveal_strlit("area-id");
    assert("area-id"@.len() == 7);
    reveal_strlit("interfaces");
    assert("interfaces"@.len() == 10);
    assert("interfaces"@[0] == 'i');
    reveal_strlit("long-delay");
    assert("long-delay"@.len() == 10);
    assert("long-delay"@[0] == 'l');
    reveal_strlit("hold-down");
    assert("hold-down"@.len() == 9);
    let i = ospf_instance(v, t, z);
    let e = i->Obj_0;
    lemma_at(e, 0);
    lemma_at(e, 1);
    lemma_at(e, 2);
    let b = ospf_body(v, t, z);
    let e = b->Obj_0;
    lemma_at(e, 0);
    lemma_at(e, 1);
    lemma_at(e, 2);
    lemma_at(b.at("areas"@)->Obj_0, 0);
    let a = area(ospf_ifs(v, t, z));
    assert(b.at("areas"@).at("area"@).items()[0] == a);
    let e = a->Obj_0;
    lemma_at(e, 0);
    lemma_at(e, 1);
    lemma_at(a.at("interfaces"@)->Obj_0, 0);
    lemma_at(spf_control()->Obj_0, 0);
    let e = spf_control()->Obj_0[0].1->Obj_0;
    lemma_at(e, 0);
    lemma_at(e, 1);
}

/// There is an OSPF instance for every zone, in their order and named after it, whose Router ID
/// is the member's identity in that very zone: the text that spells the Router ID which the
/// prober of another member expects. It has the one backbone area.
pub proof fn lemma_an_instance_for_every_zone(v: MemberViewV, t: TransitCost, k: int)
    requires
        0 <= k < v.fabric.zones.len(),
    ensures
        ({
            let i = protocols(config_tree(v, t))[k];
            let z = v.fabric.zones[k];
            let b = i.at("ietf-ospf:ospf"@);
            &&& i.at("type"@) == JsonV::Str("ietf-ospf:ospfv2"@)
            &&& i.at("name"@) == JsonV::Str(z.name)
            &&& b.at("explicit-router-id"@) == JsonV::Str(
                "10."@ + dec(z.id as nat) + ".0."@ + dec(v.member.node as nat),
            )
            &&& b.at("explicit-router-id"@) == JsonV::Str(dotted(rid_of(z.id, v.member.node)))
            &&& b.at("areas"@).at("area"@).items().len() == 1
            &&& b.at("areas"@).at("area"@).items()[0].at("area-id"@) == JsonV::Str("0.0.0.0"@)
            &&& b.at("spf-control"@).at("ietf-spf-delay"@).at("long-delay"@) == JsonV::Uint(100)
            &&& b.at("spf-control"@).at("ietf-spf-delay"@).at("hold-down"@) == JsonV::Uint(3000)
        }),
        protocols(config_tree(v, t)).len() == v.fabric.zones.len() + if v.gw_rows.len() == 0 {
            0int
        } else {
            1
        },
{
    lemma_tree(v, t);
    lemma_instances(v, t, v.fabric.zones.len() as int);
    let z = v.fabric.zones[k];
    lemma_instance(v, t, z);
    lemma_identity_is_dotted(z.id, v.member.node);
}

/// A member's identity is spelled as its Router ID is.
proof fn lemma_identity_is_dotted(id: u8, node: u8)
    ensures
        own_identity(id, node) == dotted(rid_of(id, node)),
        identity_of(id, node) == own_identity(id, node),
{
    let x = rid_of(id, node);
    assert(x == 10 * 16777216 + id * 65536 + node);
    assert(octet(x, 0) == 10);
    assert(octet(x, 1) == id);
    assert(octet(x, 2) == 0);
    assert(octet(x, 3) == node);
    reveal_strlit("10.");
    reveal_strlit(".0.");
    reveal_strlit(".");
    reveal_with_fuel(dec, 3);
    assert("10."@ =~= dec(10) + "."@);
    assert(".0."@ =~= "."@ + dec(0) + "."@);
    assert(own_identity(id, node) =~= dotted(x));
}

// ---- the interfaces of an instance ----

/// Is this the interface of a segment or a fallback bond, with this name and cost and the
/// declared timers?
pub open spec fn speaks(v: MemberViewV, j: JsonV, name: Seq<char>, cost: int) -> bool {
    &&& j.at("name"@) == JsonV::Str(name)
    &&& j.at("interface-type"@) == JsonV::Str("broadcast"@)
    &&& j.at("hello-interval"@) == JsonV::Uint(v.fabric.ospf_hello as u64)
    &&& j.at("dead-interval"@) == JsonV::Uint(v.fabric.ospf_dead as u64)
    &&& j.at("cost"@) == JsonV::Uint(cost as u64)
    &&& !j.has("passive"@)
}

/// Is there a BFD session on it, with the declared intervals in microseconds?
pub open spec fn has_session(v: MemberViewV, j: JsonV) -> bool {
    let b = j.at("bfd"@);
    &&& b.at("enabled"@) == JsonV::Bool(true)
    &&& b.at("local-multiplier"@) == JsonV::Uint(v.fabric.bfd_mult as u64)
    &&& b.at("desired-min-tx-interval"@) == JsonV::Uint((v.fabric.bfd_tx_ms * 1000) as u64)
    &&& b.at("required-min-rx-interval"@) == JsonV::Uint((v.fabric.bfd_rx_ms * 1000) as u64)
}

/// Is this an interface that is announced and does not speak?
pub open spec fn announced(j: JsonV, name: Seq<char>) -> bool {
    j.at("name"@) == JsonV::Str(name) && j.at("passive"@) == JsonV::Bool(true) && !j.has("cost"@)
}

/// The cost of a link: the declared one, and on a leaf, or on a host that is asked to be one, the
/// declared offset more.
pub open spec fn link_cost(v: MemberViewV, t: TransitCost, declared: u32) -> int {
    if v.member.kind == MemberKind::Leaf || t == TransitCost::LeafOffset {
        declared + v.fabric.leaf_cost_offset
    } else {
        declared as int
    }
}

#[verifier::spinoff_prover]
#[verifier::rlimit(60)]
proof fn lemma_speaks(v: MemberViewV, t: TransitCost, name: Seq<char>, cost: u32)
    ensures
        speaks(v, adjacency(v, t, name, cost), name, link_cost(v, t, cost)),
        !adjacency(v, t, name, cost).has("bfd"@),
        speaks(
            v,
            adjacency(v, t, name, cost).with("bfd"@, bfd_settings(v)),
            name,
            link_cost(v, t, cost),
        ),
        has_session(v, adjacency(v, t, name, cost).with("bfd"@, bfd_settings(v))),
{
    reveal_strlit("name");
    assert("name"@.len() == 4);
    assert("name"@[0] == 'n');
    reveal_strlit("interface-type");
    assert("interface-type"@.len() == 14);
    assert("interface-type"@[0] == 'i');
    reveal_strlit("hello-interval");
    assert("hello-interval"@.len() == 14);
    assert("hello-interval"@[0] == 'h');
    reveal_strlit("dead-interval");
    assert("dead-interval"@.len() == 13);
    reveal_strlit("cost");
    assert("cost"@.len() == 4);
    assert("cost"@[0] == 'c');
    reveal_strlit("bfd");
    assert("bfd"@.len() == 3);
    reveal_strlit("passive");
    assert("passive"@.len() == 7);
    assert("passive"@[0] == 'p');
    reveal_strlit("enabled");
    assert("enabled"@.len() == 7);
    assert("enabled"@[0] == 'e');
    reveal_strlit("local-multiplier");
    assert("local-multiplier"@.len() == 16);
    reveal_strlit("desired-min-tx-interval");
    assert("desired-min-tx-interval"@.len() == 23);
    reveal_strlit("required-min-rx-interval");
    assert("required-min-rx-interval"@.len() == 24);
    let j = adjacency(v, t, name, cost);
    let e = j->Obj_0;
    lemma_at(e, 0);
    lemma_at(e, 1);
    lemma_at(e, 2);
    lemma_at(e, 3);
    lemma_at(e, 4);
    lemma_not_at(e, "passive"@, 0);
    lemma_not_at(e, "bfd"@, 0);
    let b = bfd_settings(v);
    let s = j.with("bfd"@, b);
    let e = s->Obj_0;
    lemma_at(e, 0);
    lemma_at(e, 1);
    lemma_at(e, 2);
    lemma_at(e, 3);
    lemma_at(e, 4);
    lemma_at(e, 5);
    lemma_not_at(e, "passive"@, 0);
    let e = b->Obj_0;
    lemma_at(e, 0);
    lemma_at(e, 1);
    lemma_at(e, 2);
    lemma_at(e, 3);
}

proof fn lemma_announced(name: Seq<char>)
    ensures
        announced(passive_if(name), name),
{
    reveal_strlit("name");
    assert("name"@.len() == 4);
    assert("name"@[0] == 'n');
    reveal_strlit("passive");
    assert("passive"@.len() == 7);
    reveal_strlit("cost");
    assert("cost"@.len() == 4);
    assert("cost"@[0] == 'c');
    let e = passive_if(name)->Obj_0;
    lemma_at(e, 0);
    lemma_at(e, 1);
    lemma_not_at(e, "cost"@, 0);
}

/// Is this what one of the member's rows of the zone asks for: a segment with a session, a
/// fallback bond without one, the zone's identity, or an ingress leg?
pub open spec fn asked_for(v: MemberViewV, t: TransitCost, z: ZoneV, j: JsonV) -> bool {
    ||| exists|i: int|
        0 <= i < v.class_rows.len() && (#[trigger] v.class_rows[i]).zone == z.name && speaks(
            v,
            j,
            v.class_rows[i].ifname,
            link_cost(v, t, v.class_rows[i].ospf_cost),
        ) && has_session(v, j)
    ||| exists|i: int|
        0 <= i < v.fallback_rows.len() && (#[trigger] v.fallback_rows[i]).zone == z.name && speaks(
            v,
            j,
            v.fallback_rows[i].ifname,
            link_cost(v, t, v.fallback_rows[i].ospf_cost),
        ) && !j.has("bfd"@)
    ||| announced(j, "cfab-id"@ + dec(z.id as nat))
    ||| exists|i: int|
        0 <= i < v.gw_rows.len() && (#[trigger] v.gw_rows[i]).zone == z.name && announced(
            j,
            v.gw_rows[i].ifname,
        )
}

/// Every interface of a list is asked for by a row of the zone.
pub open spec fn all_asked_for(v: MemberViewV, t: TransitCost, z: ZoneV, ifs: Seq<JsonV>) -> bool {
    forall|k: int| 0 <= k < ifs.len() ==> asked_for(v, t, z, #[trigger] ifs[k])
}

/// Every row of the zone among the first ones has its interface in the list.
pub open spec fn all_there(
    v: MemberViewV,
    t: TransitCost,
    z: ZoneV,
    ifs: Seq<JsonV>,
    classes: int,
    fallbacks: int,
    gws: int,
) -> bool {
    &&& forall|i: int|
        0 <= i < classes && (#[trigger] v.class_rows[i]).zone == z.name ==> exists|k: int|
            0 <= k < ifs.len() && speaks(
                v,
                #[trigger] ifs[k],
                v.class_rows[i].ifname,
                link_cost(v, t, v.class_rows[i].ospf_cost),
            ) && has_session(v, ifs[k])
    &&& forall|i: int|
        0 <= i < fallbacks && (#[trigger] v.fallback_rows[i]).zone == z.name ==> exists|k: int|
            0 <= k < ifs.len() && speaks(
                v,
                #[trigger] ifs[k],
                v.fallback_rows[i].ifname,
                link_cost(v, t, v.fallback_rows[i].ospf_cost),
            ) && !ifs[k].has("bfd"@)
    &&& forall|i: int|
        0 <= i < gws && (#[trigger] v.gw_rows[i]).zone == z.name ==> exists|k: int|
            0 <= k < ifs.len() && announced(#[trigger] ifs[k], v.gw_rows[i].ifname)
}

proof fn lemma_there_push(
    v: MemberViewV,
    t: TransitCost,
    z: ZoneV,
    ifs: Seq<JsonV>,
    j: JsonV,
    classes: int,
    fallbacks: int,
    gws: int,
)
    requires
        all_there(v, t, z, ifs, classes, fallbacks, gws),
    ensures
        all_there(v, t, z, ifs.push(j), classes, fallbacks, gws),
{
    let r = ifs.push(j);
    assert forall|i: int| 0 <= i < classes && (#[trigger] v.class_rows[i]).zone
        == z.name implies exists|k: int|
        0 <= k < r.len() && speaks(
            v,
            #[trigger] r[k],
            v.class_rows[i].ifname,
            link_cost(v, t, v.class_rows[i].ospf_cost),
        ) && has_session(v, r[k]) by {
        let k = choose|k: int|
            0 <= k < ifs.len() && speaks(
                v,
                #[trigger] ifs[k],
                v.class_rows[i].ifname,
                link_cost(v, t, v.class_rows[i].ospf_cost),
            ) && has_session(v, ifs[k]);
        assert(r[k] == ifs[k]);
    }
    assert forall|i: int| 0 <= i < fallbacks && (#[trigger] v.fallback_rows[i]).zone
        == z.name implies exists|k: int|
        0 <= k < r.len() && speaks(
            v,
            #[trigger] r[k],
            v.fallback_rows[i].ifname,
            link_cost(v, t, v.fallback_rows[i].ospf_cost),
        ) && !r[k].has("bfd"@) by {
        let k = choose|k: int|
            0 <= k < ifs.len() && speaks(
                v,
                #[trigger] ifs[k],
                v.fallback_rows[i].ifname,
                link_cost(v, t, v.fallback_rows[i].ospf_cost),
            ) && !ifs[k].has("bfd"@);
        assert(r[k] == ifs[k]);
    }
    assert forall|i: int| 0 <= i < gws && (#[trigger] v.gw_rows[i]).zone
        == z.name implies exists|k: int|
        0 <= k < r.len() && announced(#[trigger] r[k], v.gw_rows[i].ifname) by {
        let k = choose|k: int|
            0 <= k < ifs.len() && announced(#[trigger] ifs[k], v.gw_rows[i].ifname);
        assert(r[k] == ifs[k]);
    }
}

proof fn lemma_segments_there(v: MemberViewV, t: TransitCost, z: ZoneV, n: int)
    requires
        0 <= n <= v.class_rows.len(),
    ensures
        all_there(v, t, z, segment_ifs(v, t, z.name, n), n, 0, 0),
        all_asked_for(v, t, z, segment_ifs(v, t, z.name, n)),
    decreases n,
{
    if n > 0 {
        lemma_segments_there(v, t, z, n - 1);
        let b = segment_ifs(v, t, z.name, n - 1);
        let r = segment_ifs(v, t, z.name, n);
        let row = v.class_rows[n - 1];
        if row.zone == z.name {
            let j = segment_if(v, t, row);
            lemma_speaks(v, t, row.ifname, row.ospf_cost);
            lemma_there_push(v, t, z, b, j, n - 1, 0, 0);
            assert(r[b.len() as int] == j);
            assert(asked_for(v, t, z, j)) by {
                assert(v.class_rows[n - 1].zone == z.name);
            }
            assert forall|k: int| 0 <= k < r.len() implies asked_for(v, t, z, #[trigger] r[k]) by {
                if k < b.len() {
                    assert(r[k] == b[k]);
                }
            }
        }
    }
}

proof fn lemma_fallbacks_there(v: MemberViewV, t: TransitCost, z: ZoneV, n: int)
    requires
        0 <= n <= v.fallback_rows.len(),
    ensures
        all_there(v, t, z, fallback_ifs(v, t, z.name, n), v.class_rows.len() as int, n, 0),
        all_asked_for(v, t, z, fallback_ifs(v, t, z.name, n)),
    decreases n,
{
    let c = v.class_rows.len() as int;
    if n > 0 {
        lemma_fallbacks_there(v, t, z, n - 1);
        let b = fallback_ifs(v, t, z.name, n - 1);
        let r = fallback_ifs(v, t, z.name, n);
        let row = v.fallback_rows[n - 1];
        if row.zone == z.name {
            let j = fallback_if(v, t, row);
            lemma_speaks(v, t, row.ifname, row.ospf_cost);
            lemma_there_push(v, t, z, b, j, c, n - 1, 0);
            assert(r[b.len() as int] == j);
            assert(asked_for(v, t, z, j)) by {
                assert(v.fallback_rows[n - 1].zone == z.name);
            }
            assert forall|k: int| 0 <= k < r.len() implies asked_for(v, t, z, #[trigger] r[k]) by {
                if k < b.len() {
                    assert(r[k] == b[k]);
                }
            }
        }
    } else {
        lemma_segments_there(v, t, z, c);
    }
}

proof fn lemma_gws_there(v: MemberViewV, t: TransitCost, z: ZoneV, n: int)
    requires
        0 <= n <= v.gw_rows.len(),
    ensures
        all_there(
            v,
            t,
            z,
            gw_ifs(v, t, z, n),
            v.class_rows.len() as int,
            v.fallback_rows.len() as int,
            n,
        ),
        all_asked_for(v, t, z, gw_ifs(v, t, z, n)),
        exists|k: int|
            0 <= k < gw_ifs(v, t, z, n).len() && announced(
                #[trigger] gw_ifs(v, t, z, n)[k],
                "cfab-id"@ + dec(z.id as nat),
            ),
    decreases n,
{
    let c = v.class_rows.len() as int;
    let f = v.fallback_rows.len() as int;
    let own = "cfab-id"@ + dec(z.id as nat);
    let r = gw_ifs(v, t, z, n);
    if n > 0 {
        lemma_gws_there(v, t, z, n - 1);
        let b = gw_ifs(v, t, z, n - 1);
        let row = v.gw_rows[n - 1];
        let o = choose|k: int| 0 <= k < b.len() && announced(#[trigger] b[k], own);
        assert(r[o] == b[o]);
        if row.zone == z.name {
            let j = passive_if(row.ifname);
            lemma_announced(row.ifname);
            lemma_there_push(v, t, z, b, j, c, f, n - 1);
            assert(r[b.len() as int] == j);
            assert(asked_for(v, t, z, j)) by {
                assert(v.gw_rows[n - 1].zone == z.name);
            }
            assert forall|k: int| 0 <= k < r.len() implies asked_for(v, t, z, #[trigger] r[k]) by {
                if k < b.len() {
                    assert(r[k] == b[k]);
                }
            }
        }
    } else {
        lemma_fallbacks_there(v, t, z, f);
        let b = fallback_ifs(v, t, z.name, f);
        let j = passive_if(own);
        lemma_announced(own);
        lemma_there_push(v, t, z, b, j, c, f, 0);
        assert(r[b.len() as int] == j);
        assert forall|k: int| 0 <= k < r.len() implies asked_for(v, t, z, #[trigger] r[k]) by {
            if k < b.len() {
                assert(r[k] == b[k]);
            }
        }
    }
}

/// The interfaces of a zone's instance are those that the member's rows of that zone ask for, all
/// of them and no other: the segments at their costs with sessions, the fallback bonds at theirs
/// without, and, announced only, the zone's identity and its ingress legs.
pub proof fn lemma_the_interfaces_of_an_instance(v: MemberViewV, t: TransitCost, k: int)
    requires
        0 <= k < v.fabric.zones.len(),
    ensures
        ({
            let ifs = instance_ifs(protocols(config_tree(v, t))[k]);
            let z = v.fabric.zones[k];
            &&& all_asked_for(v, t, z, ifs)
            &&& all_there(
                v,
                t,
                z,
                ifs,
                v.class_rows.len() as int,
                v.fallback_rows.len() as int,
                v.gw_rows.len() as int,
            )
            &&& exists|i: int|
                0 <= i < ifs.len() && announced(
                    #[trigger] ifs[i],
                    "cfab-id"@ + dec(z.id as nat),
                )
        }),
{
    lemma_tree(v, t);
    lemma_instances(v, t, v.fabric.zones.len() as int);
    let z = v.fabric.zones[k];
    lemma_instance(v, t, z);
    lemma_gws_there(v, t, z, v.gw_rows.len() as int);
}

// ---- the sessions with the routers ----

/// Every ingress row has a session with its zone's router, from the member's address in the
/// router's network, in the declared system and with the declared timers, and exports its zone's
/// own policy.
#[verifier::spinoff_prover]
#[verifier::rlimit(60)]
pub proof fn lemma_a_session_for_every_ingress(v: MemberViewV, t: TransitCost, i: int)
    requires
        0 <= i < v.gw_rows.len(),
        row_zone(v, i).gw is Some,
        forall|k: int|
            0 <= k < subnet_of(row_zone(v, i).gw->0.router).len() ==> #[trigger] subnet_of(
                row_zone(v, i).gw->0.router,
            )[k] != '/',
    ensures
        ({
            let p = protocols(config_tree(v, t));
            let inst = p[v.fabric.zones.len() as int];
            let s = sessions(inst);
            let z = row_zone(v, i);
            let afi = s[i].at("afi-safis"@).at("afi-safi"@).items();
            &&& inst.at("type"@) == JsonV::Str("ietf-bgp:bgp"@)
            &&& s.len() == v.gw_rows.len()
            &&& s[i].at("remote-address"@) == JsonV::Str(z.gw->0.router)
            &&& s[i].at("peer-as"@) == JsonV::Uint(v.fabric.bgp_as as u64)
            &&& s[i].at("timers"@).at("connect-retry-interval"@) == JsonV::Uint(
                v.fabric.bgp_connect_s as u64,
            )
            &&& s[i].at("timers"@).at("hold-time"@) == JsonV::Uint(v.fabric.bgp_hold_s as u64)
            &&& s[i].at("timers"@).at("keepalive"@) == JsonV::Uint(v.fabric.bgp_keepalive_s as u64)
            &&& s[i].at("transport"@).at("local-address"@) == JsonV::Str(
                subnet_of(z.gw->0.router) + "."@ + dec(v.member.node as nat),
            )
            &&& afi.len() == 1
            &&& afi[0].at("name"@) == JsonV::Str("iana-bgp-types:ipv4-unicast"@)
            &&& afi[0].at("enabled"@) == JsonV::Bool(true)
            &&& afi[0].at("apply-policy"@).at("export-policy"@).items() == seq![
                JsonV::Str("cfab-"@ + z.name + "-export"@),
            ]
        }),
{
    reveal_strlit("type");
    assert("type"@.len() == 4);
    assert("type"@[0] == 't');
    reveal_strlit("name");
    assert("name"@.len() == 4);
    assert("name"@[0] == 'n');
    reveal_strlit("ietf-bgp:bgp");
    assert("ietf-bgp:bgp"@.len() == 12);
    assert("ietf-bgp:bgp"@[0] == 'i');
    reveal_strlit("global");
    assert("global"@.len() == 6);
    assert("global"@[0] == 'g');
    reveal_strlit("neighbors");
    assert("neighbors"@.len() == 9);
    assert("neighbors"@[0] == 'n');
    reveal_strlit("remote-address");
    assert("remote-address"@.len() == 14);
    reveal_strlit("peer-as");
    assert("peer-as"@.len() == 7);
    assert("peer-as"@[0] == 'p');
    reveal_strlit("timers");
    assert("timers"@.len() == 6);
    assert("timers"@[0] == 't');
    reveal_strlit("transport");
    assert("transport"@.len() == 9);
    assert("transport"@[0] == 't');
    reveal_strlit("afi-safis");
    assert("afi-safis"@.len() == 9);
    assert("afi-safis"@[0] == 'a');
    reveal_strlit("connect-retry-interval");
    assert("connect-retry-interval"@.len() == 22);
    reveal_strlit("hold-time");
    assert("hold-time"@.len() == 9);
    assert("hold-time"@[0] == 'h');
    reveal_strlit("keepalive");
    assert("keepalive"@.len() == 9);
    assert("keepalive"@[0] == 'k');
    reveal_strlit("enabled");
    assert("enabled"@.len() == 7);
    assert("enabled"@[0] == 'e');
    reveal_strlit("apply-policy");
    assert("apply-policy"@.len() == 12);
    assert("apply-policy"@[0] == 'a');
    lemma_tree(v, t);
    lemma_instances(v, t, v.fabric.zones.len() as int);
    lemma_lists(v, v.gw_rows.len() as int);
    let inst = bgp_instance(v);
    let e = inst->Obj_0;
    lemma_at(e, 0);
    lemma_at(e, 1);
    lemma_at(e, 2);
    let e = inst.at("ietf-bgp:bgp"@)->Obj_0;
    lemma_at(e, 0);
    lemma_at(e, 1);
    lemma_at(inst.at("ietf-bgp:bgp"@).at("neighbors"@)->Obj_0, 0);
    let z = row_zone(v, i);
    let s = neighbor(v, z);
    let e = s->Obj_0;
    lemma_at(e, 0);
    lemma_at(e, 1);
    lemma_at(e, 2);
    lemma_at(e, 3);
    lemma_at(e, 4);
    let e = bgp_timers(v)->Obj_0;
    lemma_at(e, 0);
    lemma_at(e, 1);
    lemma_at(e, 2);
    lemma_at(s.at("transport"@)->Obj_0, 0);
    lemma_leg_local(z.gw->0, v.member.node);
    lemma_at(s.at("afi-safis"@)->Obj_0, 0);
    let a = neighbor_afi(z.name);
    assert(s.at("afi-safis"@).at("afi-safi"@).items()[0] == a);
    let e = a->Obj_0;
    lemma_at(e, 0);
    lemma_at(e, 1);
    lemma_at(e, 2);
    lemma_at(a.at("apply-policy"@)->Obj_0, 0);
    assert(a.at("apply-policy"@).at("export-policy"@).items() =~= seq![
        JsonV::Str("cfab-"@ + z.name + "-export"@),
    ]);
}

proof fn lemma_leg_local(gw: crate::model::ZoneGwV, node: u8)
    requires
        forall|k: int|
            0 <= k < subnet_of(gw.router).len() ==> #[trigger] subnet_of(gw.router)[k] != '/',
    ensures
        leg_local(gw, node) == subnet_of(gw.router) + "."@ + dec(node as nat),
{
    reveal_strlit(".");
    reveal_strlit("/24");
    crate::text::lemma_dec(node as nat);
    let a = subnet_of(gw.router) + "."@ + dec(node as nat);
    let s = subnet_of(gw.router) + "."@ + dec(node as nat) + "/24"@;
    let k = a.len() as int;
    assert forall|j: int| 0 <= j < k implies #[trigger] s[j] != '/' by {
        if j > subnet_of(gw.router).len() {
            assert(crate::text::is_digit(dec(node as nat)[j - subnet_of(gw.router).len() - 1]));
        }
    }
    assert(s[k] == '/');
    crate::text::lemma_find(s, '/', 0);
    assert(crate::text::find(s, '/', 0) == k);
    assert(s.subrange(0, k) =~= a);
}

proof fn lemma_lists(v: MemberViewV, n: int)
    requires
        0 <= n,
    ensures
        policies(v, n).len() == 2 * n,
        prefix_sets(v, n).len() == n,
        import_names(v, n).len() == n,
        neighbors(v, n).len() == n,
        networks(v, n).len() == n,
        forall|i: int|
            0 <= i < n ==> {
                &&& policies(v, n)[2 * i] == import_definition(#[trigger] row_zone(v, i))
                &&& policies(v, n)[2 * i + 1] == export_definition(row_zone(v, i))
                &&& prefix_sets(v, n)[i] == prefix_set(row_zone(v, i))
                &&& import_names(v, n)[i] == JsonV::Str(
                    "cfab-"@ + row_zone(v, i).name + "-import"@,
                )
                &&& neighbors(v, n)[i] == neighbor(v, row_zone(v, i))
                &&& networks(v, n)[i] == JsonV::Str(
                    own_identity(row_zone(v, i).id, v.member.node) + "/32"@,
                )
            },
    decreases n,
{
    if n > 0 {
        lemma_lists(v, n - 1);
        assert forall|i: int| 0 <= i < n implies {
            &&& policies(v, n)[2 * i] == import_definition(#[trigger] row_zone(v, i))
            &&& policies(v, n)[2 * i + 1] == export_definition(row_zone(v, i))
            &&& prefix_sets(v, n)[i] == prefix_set(row_zone(v, i))
            &&& import_names(v, n)[i] == JsonV::Str("cfab-"@ + row_zone(v, i).name + "-import"@)
            &&& neighbors(v, n)[i] == neighbor(v, row_zone(v, i))
            &&& networks(v, n)[i] == JsonV::Str(
                own_identity(row_zone(v, i).id, v.member.node) + "/32"@,
            )
        } by {
            lemma_identity_is_dotted(row_zone(v, i).id, v.member.node);
            if i < n - 1 {
                assert(policies(v, n)[2 * i] == policies(v, n - 1)[2 * i]);
                assert(policies(v, n)[2 * i + 1] == policies(v, n - 1)[2 * i + 1]);
            }
        }
    }
}

/// What the member says of itself to every router: the declared system, its identity in the zone
/// of its first ingress, each zone's identity as a network of one address, and what it learned
/// over OSPF and on its own links, through each zone's import policy.
#[verifier::spinoff_prover]
#[verifier::rlimit(60)]
pub proof fn lemma_what_is_announced(v: MemberViewV, t: TransitCost, i: int)
    requires
        0 <= i < v.gw_rows.len(),
    ensures
        ({
            let g = protocols(config_tree(v, t))[v.fabric.zones.len() as int].at(
                "ietf-bgp:bgp"@,
            ).at("global"@);
            let afi = g.at("afi-safis"@).at("afi-safi"@).items();
            let uni = afi[0].at("ipv4-unicast"@);
            let red = uni.at("holo-bgp:redistribution"@).items();
            let net = uni.at("holo-bgp:network"@).items();
            let imp = afi[0].at("apply-policy"@).at("import-policy"@).items();
            &&& g.at("as"@) == JsonV::Uint(v.fabric.bgp_as as u64)
            &&& g.at("identifier"@) == JsonV::Str(
                "10."@ + dec(row_zone(v, 0).id as nat) + ".0."@ + dec(v.member.node as nat),
            )
            &&& afi.len() == 1
            &&& afi[0].at("name"@) == JsonV::Str("iana-bgp-types:ipv4-unicast"@)
            &&& net.len() == v.gw_rows.len()
            &&& net[i] == JsonV::Str(
                "10."@ + dec(row_zone(v, i).id as nat) + ".0."@ + dec(v.member.node as nat)
                    + "/32"@,
            )
            &&& imp.len() == v.gw_rows.len()
            &&& imp[i] == JsonV::Str("cfab-"@ + row_zone(v, i).name + "-import"@)
            &&& red.len() == 2
            &&& red[0].at("type"@) == JsonV::Str("ietf-routing:direct"@)
            &&& red[1].at("type"@) == JsonV::Str("ietf-ospf:ospfv2"@)
        }),
{
    reveal_strlit("type");
    assert("type"@.len() == 4);
    assert("type"@[0] == 't');
    reveal_strlit("name");
    assert("name"@.len() == 4);
    assert("name"@[0] == 'n');
    reveal_strlit("ietf-bgp:bgp");
    assert("ietf-bgp:bgp"@.len() == 12);
    assert("ietf-bgp:bgp"@[0] == 'i');
    assert("ietf-bgp:bgp"@[1] == 'e');
    reveal_strlit("global");
    assert("global"@.len() == 6);
    reveal_strlit("neighbors");
    assert("neighbors"@.len() == 9);
    assert("neighbors"@[0] == 'n');
    reveal_strlit("as");
    assert("as"@.len() == 2);
    reveal_strlit("identifier");
    assert("identifier"@.len() == 10);
    reveal_strlit("afi-safis");
    assert("afi-safis"@.len() == 9);
    assert("afi-safis"@[0] == 'a');
    reveal_strlit("apply-policy");
    assert("apply-policy"@.len() == 12);
    assert("apply-policy"@[0] == 'a');
    reveal_strlit("ipv4-unicast");
    assert("ipv4-unicast"@.len() == 12);
    assert("ipv4-unicast"@[0] == 'i');
    assert("ipv4-unicast"@[1] == 'p');
    reveal_strlit("holo-bgp:redistribution");
    assert("holo-bgp:redistribution"@.len() == 23);
    reveal_strlit("holo-bgp:network");
    assert("holo-bgp:network"@.len() == 16);
    lemma_tree(v, t);
    lemma_instances(v, t, v.fabric.zones.len() as int);
    let n = v.gw_rows.len() as int;
    lemma_lists(v, n);
    lemma_identity_is_dotted(row_zone(v, 0).id, v.member.node);
    let inst = bgp_instance(v);
    let e = inst->Obj_0;
    lemma_at(e, 0);
    lemma_at(e, 1);
    lemma_at(e, 2);
    let e = inst.at("ietf-bgp:bgp"@)->Obj_0;
    lemma_at(e, 0);
    lemma_at(e, 1);
    let g = bgp_global(v);
    let e = g->Obj_0;
    lemma_at(e, 0);
    lemma_at(e, 1);
    lemma_at(e, 2);
    lemma_at(g.at("afi-safis"@)->Obj_0, 0);
    let a = global_afi(v);
    assert(g.at("afi-safis"@).at("afi-safi"@).items()[0] == a);
    let e = a->Obj_0;
    lemma_at(e, 0);
    lemma_at(e, 1);
    lemma_at(e, 2);
    lemma_at(a.at("apply-policy"@)->Obj_0, 0);
    let e = a.at("ipv4-unicast"@)->Obj_0;
    lemma_at(e, 0);
    lemma_at(e, 1);
    let red = redistribution()->Arr_0;
    lemma_at(red[0]->Obj_0, 0);
    lemma_at(red[1]->Obj_0, 0);
}

/// The sets and policies of every ingress row: the set holds the identities of the row's zone and
/// nothing else, and both policies accept exactly what is in it. The import takes its metric from
/// the cost of the route, and the export names this member as the next hop.
#[verifier::spinoff_prover]
#[verifier::rlimit(60)]
pub proof fn lemma_the_policies_of_an_ingress(v: MemberViewV, t: TransitCost, i: int)
    requires
        0 <= i < v.gw_rows.len(),
    ensures
        ({
            let r = config_tree(v, t).at("ietf-routing-policy:routing-policy"@);
            let sets = r.at("defined-sets"@).at("prefix-sets"@).at("prefix-set"@).items();
            let defs = r.at("policy-definitions"@).at("policy-definition"@).items();
            let z = row_zone(v, i);
            let list = sets[i].at("prefixes"@).at("prefix-list"@).items();
            &&& sets.len() == v.gw_rows.len()
            &&& defs.len() == 2 * v.gw_rows.len()
            &&& sets[i].at("name"@) == JsonV::Str("cfab-"@ + z.name + "-id"@)
            &&& sets[i].at("mode"@) == JsonV::Str("ipv4"@)
            &&& list.len() == 1
            &&& list[0].at("ip-prefix"@) == JsonV::Str("10."@ + dec(z.id as nat) + ".0.0/24"@)
            &&& list[0].at("mask-length-lower"@) == JsonV::Uint(32)
            &&& list[0].at("mask-length-upper"@) == JsonV::Uint(32)
            &&& accepts_only(
                defs[2 * i],
                "cfab-"@ + z.name + "-import"@,
                "cfab-"@ + z.name + "-id"@,
                "set-med"@,
                "igp"@,
            )
            &&& accepts_only(
                defs[2 * i + 1],
                "cfab-"@ + z.name + "-export"@,
                "cfab-"@ + z.name + "-id"@,
                "set-next-hop"@,
                "self"@,
            )
        }),
{
    reveal_strlit("defined-sets");
    assert("defined-sets"@.len() == 12);
    reveal_strlit("policy-definitions");
    assert("policy-definitions"@.len() == 18);
    reveal_strlit("name");
    assert("name"@.len() == 4);
    assert("name"@[0] == 'n');
    reveal_strlit("mode");
    assert("mode"@.len() == 4);
    assert("mode"@[0] == 'm');
    reveal_strlit("prefixes");
    assert("prefixes"@.len() == 8);
    reveal_strlit("ip-prefix");
    assert("ip-prefix"@.len() == 9);
    reveal_strlit("mask-length-lower");
    assert("mask-length-lower"@.len() == 17);
    assert("mask-length-lower"@[12] == 'l');
    reveal_strlit("mask-length-upper");
    assert("mask-length-upper"@.len() == 17);
    assert("mask-length-upper"@[12] == 'u');
    lemma_tree(v, t);
    let n = v.gw_rows.len() as int;
    lemma_lists(v, n);
    let r = routing_policy(v);
    let e = r->Obj_0;
    lemma_at(e, 0);
    lemma_at(e, 1);
    lemma_at(r.at("defined-sets"@)->Obj_0, 0);
    lemma_at(r.at("defined-sets"@).at("prefix-sets"@)->Obj_0, 0);
    lemma_at(r.at("policy-definitions"@)->Obj_0, 0);
    let z = row_zone(v, i);
    let s = prefix_set(z);
    let e = s->Obj_0;
    lemma_at(e, 0);
    lemma_at(e, 1);
    lemma_at(e, 2);
    lemma_at(s.at("prefixes"@)->Obj_0, 0);
    let e = s.at("prefixes"@).at("prefix-list"@).items()[0]->Obj_0;
    lemma_at(e, 0);
    lemma_at(e, 1);
    lemma_at(e, 2);
    let x = "cfab-"@ + z.name;
    lemma_policy(x + "-import"@, x + "-id"@, "set-med"@, "igp"@);
    lemma_policy(x + "-export"@, x + "-id"@, "set-next-hop"@, "self"@);
}

/// A policy of this name that accepts the routes of a set, with one attribute set, and says
/// nothing of any other.
pub open spec fn accepts_only(
    p: JsonV,
    name: Seq<char>,
    set: Seq<char>,
    key: Seq<char>,
    val: Seq<char>,
) -> bool {
    let s = p.at("statements"@).at("statement"@).items();
    let a = s[0].at("actions"@);
    &&& p.at("name"@) == JsonV::Str(name)
    &&& s.len() == 1
    &&& s[0].at("conditions"@).at("match-prefix-set"@).at("prefix-set"@) == JsonV::Str(set)
    &&& a.at("policy-result"@) == JsonV::Str("accept-route"@)
    &&& a.at("ietf-bgp-policy:bgp-actions"@).at(key) == JsonV::Str(val)
}

proof fn lemma_policy(name: Seq<char>, set: Seq<char>, key: Seq<char>, val: Seq<char>)
    ensures
        accepts_only(policy(name, set, key, val), name, set, key, val),
{
    reveal_strlit("name");
    assert("name"@.len() == 4);
    reveal_strlit("statements");
    assert("statements"@.len() == 10);
    assert("statements"@[0] == 's');
    reveal_strlit("conditions");
    assert("conditions"@.len() == 10);
    assert("conditions"@[0] == 'c');
    reveal_strlit("actions");
    assert("actions"@.len() == 7);
    reveal_strlit("policy-result");
    assert("policy-result"@.len() == 13);
    reveal_strlit("ietf-bgp-policy:bgp-actions");
    assert("ietf-bgp-policy:bgp-actions"@.len() == 27);
    let p = policy(name, set, key, val);
    let e = p->Obj_0;
    lemma_at(e, 0);
    lemma_at(e, 1);
    lemma_at(p.at("statements"@)->Obj_0, 0);
    let s = p.at("statements"@).at("statement"@).items()[0];
    let e = s->Obj_0;
    lemma_at(e, 0);
    lemma_at(e, 1);
    lemma_at(e, 2);
    lemma_at(s.at("conditions"@)->Obj_0, 0);
    lemma_at(s.at("conditions"@).at("match-prefix-set"@)->Obj_0, 0);
    let e = s.at("actions"@)->Obj_0;
    lemma_at(e, 0);
    lemma_at(e, 1);
    lemma_at(s.at("actions"@).at("ietf-bgp-policy:bgp-actions"@)->Obj_0, 0);
}

/// The rules for source addresses: in each zone's block of 65536 addresses, the member's identity
/// in that zone.
pub proof fn lemma_the_source_of_a_zones_routes(v: MemberViewV, k: int)
    requires
        0 <= k < v.fabric.zones.len(),
    ensures
        prefsrc(v).len() == v.fabric.zones.len(),
        prefsrc(v)[k].0 == "10."@ + dec(v.fabric.zones[k].id as nat) + ".0.0/16"@,
        prefsrc(v)[k].1 == "10."@ + dec(v.fabric.zones[k].id as nat) + ".0."@ + dec(
            v.member.node as nat,
        ),
{
    lemma_identity_is_dotted(v.fabric.zones[k].id, v.member.node);
}

} // verus!
