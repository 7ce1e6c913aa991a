//! What holds of every configuration tree.

use vstd::prelude::*;

use crate::derive::MemberViewV;
use crate::emit::engine::{
    adjacency, area, bfd_settings, bgp_global, bgp_instance, bgp_timers, class_names, config_tree,
    cost_of, export_definition, export_policy, fallback_if, fallback_ifs, fallback_names,
    global_afi, gw_ifs, gw_names, id_set, identity_names, if_names, import_definition, import_names,
    import_policy, interface_entries, interface_entry, neighbor, neighbor_afi, neighbors, networks,
    ospf_body, ospf_ifs, ospf_instance, ospf_instances, passive_if, policies, policy, prefix_set,
    prefix_sets, redistribution, routing, routing_policy, row_zone, segment_if, segment_ifs,
    spf_control, with_name, TransitCost,
};
use crate::json::JsonV;
use crate::model::{identity_ifname, MemberKind, ZoneV};

verus! {

// ---- the transit cost ----

/// A value with every cost taken out of it.
pub open spec fn without_costs(j: JsonV) -> JsonV
    decreases j,
{
    match j {
        JsonV::Arr(v) => JsonV::Arr(
            Seq::new(
                v.len(),
                |i: int|
                    if 0 <= i < v.len() {
                        without_costs(v[i])
                    } else {
                        JsonV::Null
                    },
            ),
        ),
        JsonV::Obj(e) => JsonV::Obj(
            Seq::new(
                e.len(),
                |i: int|
                    if 0 <= i < e.len() {
                        (
                            e[i].0,
                            if e[i].0 == "cost"@ {
                                JsonV::Null
                            } else {
                                without_costs(e[i].1)
                            },
                        )
                    } else {
                        (seq![], JsonV::Null)
                    },
            ),
        ),
        _ => j,
    }
}

pub open spec fn all_without_costs(v: Seq<JsonV>) -> Seq<JsonV> {
    Seq::new(v.len(), |i: int| without_costs(v[i]))
}

broadcast proof fn lemma_without_arr(v: Seq<JsonV>)
    ensures
        #[trigger] without_costs(JsonV::Arr(v)) == JsonV::Arr(all_without_costs(v)),
{
    assert(without_costs(JsonV::Arr(v))->Arr_0 =~= all_without_costs(v));
}

broadcast proof fn lemma_without_with(j: JsonV, key: Seq<char>, val: JsonV)
    requires
        j is Obj,
    ensures
        #[trigger] without_costs(j.with(key, val)) == without_costs(j).with(
            key,
            if key == "cost"@ {
                JsonV::Null
            } else {
                without_costs(val)
            },
        ),
{
    let a = without_costs(j.with(key, val));
    let b = without_costs(j).with(
        key,
        if key == "cost"@ {
            JsonV::Null
        } else {
            without_costs(val)
        },
    );
    let e = j->Obj_0;
    assert(j.with(key, val)->Obj_0 == e.push((key, val)));
    assert(a->Obj_0 =~= b->Obj_0);
}

broadcast proof fn lemma_without_push(v: Seq<JsonV>, j: JsonV)
    ensures
        #[trigger] all_without_costs(v.push(j)) == all_without_costs(v).push(without_costs(j)),
{
    assert(all_without_costs(v.push(j)) =~= all_without_costs(v).push(without_costs(j)));
}

proof fn lemma_adjacency_same(v: MemberViewV, a: TransitCost, b: TransitCost, name: Seq<char>, c: u32)
    ensures
        without_costs(adjacency(v, a, name, c)) == without_costs(adjacency(v, b, name, c)),
{
    broadcast use lemma_without_with;

}

proof fn lemma_segments_same(
    v: MemberViewV,
    a: TransitCost,
    b: TransitCost,
    zone: Seq<char>,
    n: int,
)
    ensures
        all_without_costs(segment_ifs(v, a, zone, n)) == all_without_costs(
            segment_ifs(v, b, zone, n),
        ),
    decreases n,
{
    broadcast use {lemma_without_with, lemma_without_push};

    if n > 0 {
        lemma_segments_same(v, a, b, zone, n - 1);
        let r = v.class_rows[n - 1];
        lemma_adjacency_same(v, a, b, r.ifname, r.ospf_cost);
    }
}

proof fn lemma_fallbacks_same(
    v: MemberViewV,
    a: TransitCost,
    b: TransitCost,
    zone: Seq<char>,
    n: int,
)
    ensures
        all_without_costs(fallback_ifs(v, a, zone, n)) == all_without_costs(
            fallback_ifs(v, b, zone, n),
        ),
    decreases n,
{
    broadcast use lemma_without_push;

    if n > 0 {
        lemma_fallbacks_same(v, a, b, zone, n - 1);
        let r = v.fallback_rows[n - 1];
        lemma_adjacency_same(v, a, b, r.ifname, r.ospf_cost);
    } else {
        lemma_segments_same(v, a, b, zone, v.class_rows.len() as int);
    }
}

proof fn lemma_gws_same(v: MemberViewV, a: TransitCost, b: TransitCost, z: ZoneV, n: int)
    ensures
        all_without_costs(gw_ifs(v, a, z, n)) == all_without_costs(gw_ifs(v, b, z, n)),
    decreases n,
{
    broadcast use lemma_without_push;

    if n > 0 {
        lemma_gws_same(v, a, b, z, n - 1);
    } else {
        lemma_fallbacks_same(v, a, b, z.name, v.fallback_rows.len() as int);
    }
}

proof fn lemma_instance_same(v: MemberViewV, a: TransitCost, b: TransitCost, z: ZoneV)
    ensures
        without_costs(ospf_instance(v, a, z)) == without_costs(ospf_instance(v, b, z)),
{
    broadcast use {lemma_without_with, lemma_without_arr, lemma_without_push};

    lemma_gws_same(v, a, b, z, v.gw_rows.len() as int);
    assert(without_costs(area(ospf_ifs(v, a, z))) == without_costs(area(ospf_ifs(v, b, z))));
    let ea: Seq<JsonV> = seq![];
    assert(all_without_costs(ea.push(area(ospf_ifs(v, a, z)))) == all_without_costs(
        ea.push(area(ospf_ifs(v, b, z))),
    ));
    assert(without_costs(ospf_body(v, a, z)) == without_costs(ospf_body(v, b, z)));
}

proof fn lemma_instances_same(v: MemberViewV, a: TransitCost, b: TransitCost, n: int)
    ensures
        all_without_costs(ospf_instances(v, a, n)) == all_without_costs(ospf_instances(v, b, n)),
    decreases n,
{
    broadcast use lemma_without_push;

    if n > 0 {
        lemma_instances_same(v, a, b, n - 1);
        lemma_instance_same(v, a, b, v.fabric.zones[n - 1]);
    }
}

/// Only the costs move with the transit cost: the timers, the sessions, the identities and the
/// ingress are the same, so that asking for another cost re-advertises and does not reconfigure.
pub proof fn lemma_only_costs_move(v: MemberViewV, a: TransitCost, b: TransitCost)
    ensures
        without_costs(config_tree(v, a)) == without_costs(config_tree(v, b)),
{
    broadcast use {lemma_without_with, lemma_without_arr, lemma_without_push};

    let n = v.fabric.zones.len() as int;
    lemma_instances_same(v, a, b, n);
    let pa = ospf_instances(v, a, n);
    let pb = ospf_instances(v, b, n);
    assert(without_costs(routing(pa)) == without_costs(routing(pb)));
    assert(without_costs(routing(pa.push(bgp_instance(v)))) == without_costs(
        routing(pb.push(bgp_instance(v))),
    ));
}

proof fn lemma_leaf_ifs(v: MemberViewV, a: TransitCost, b: TransitCost, z: ZoneV)
    requires
        v.member.kind == MemberKind::Leaf,
    ensures
        ospf_ifs(v, a, z) == ospf_ifs(v, b, z),
{
    lemma_leaf_segments(v, a, b, z.name, v.class_rows.len() as int);
    lemma_leaf_fallbacks(v, a, b, z.name, v.fallback_rows.len() as int);
    lemma_leaf_gws(v, a, b, z, v.gw_rows.len() as int);
}

proof fn lemma_leaf_segments(v: MemberViewV, a: TransitCost, b: TransitCost, zone: Seq<char>, n: int)
    requires
        v.member.kind == MemberKind::Leaf,
    ensures
        segment_ifs(v, a, zone, n) == segment_ifs(v, b, zone, n),
    decreases n,
{
    if n > 0 {
        lemma_leaf_segments(v, a, b, zone, n - 1);
    }
}

proof fn lemma_leaf_fallbacks(
    v: MemberViewV,
    a: TransitCost,
    b: TransitCost,
    zone: Seq<char>,
    n: int,
)
    requires
        v.member.kind == MemberKind::Leaf,
    ensures
        fallback_ifs(v, a, zone, n) == fallback_ifs(v, b, zone, n),
    decreases n,
{
    if n > 0 {
        lemma_leaf_fallbacks(v, a, b, zone, n - 1);
    } else {
        lemma_leaf_segments(v, a, b, zone, v.class_rows.len() as int);
    }
}

proof fn lemma_leaf_gws(v: MemberViewV, a: TransitCost, b: TransitCost, z: ZoneV, n: int)
    requires
        v.member.kind == MemberKind::Leaf,
    ensures
        gw_ifs(v, a, z, n) == gw_ifs(v, b, z, n),
    decreases n,
{
    if n > 0 {
        lemma_leaf_gws(v, a, b, z, n - 1);
    } else {
        lemma_leaf_fallbacks(v, a, b, z.name, v.fallback_rows.len() as int);
    }
}

proof fn lemma_leaf_instances(v: MemberViewV, a: TransitCost, b: TransitCost, n: int)
    requires
        v.member.kind == MemberKind::Leaf,
    ensures
        ospf_instances(v, a, n) == ospf_instances(v, b, n),
    decreases n,
{
    if n > 0 {
        lemma_leaf_instances(v, a, b, n - 1);
        lemma_leaf_ifs(v, a, b, v.fabric.zones[n - 1]);
    }
}

/// A leaf is offset already by what it is: asking it for another transit cost changes nothing.
pub proof fn lemma_leaf_ignores_transit_cost(v: MemberViewV, a: TransitCost, b: TransitCost)
    requires
        v.member.kind == MemberKind::Leaf,
    ensures
        config_tree(v, a) == config_tree(v, b),
{
    lemma_leaf_instances(v, a, b, v.fabric.zones.len() as int);
}

/// A host that is asked to be no path through advertises every link at its declared cost and the
/// offset, and at the declared cost otherwise.
pub proof fn lemma_host_cost(v: MemberViewV, declared: u32)
    requires
        v.member.kind == MemberKind::Host,
    ensures
        cost_of(v, TransitCost::Declared, declared) == declared,
        cost_of(v, TransitCost::LeafOffset, declared) == declared + v.fabric.leaf_cost_offset,
{
}

// ---- what a raised cost changes ----

/// A value with every cost in it raised.
pub open spec fn with_costs_raised(j: JsonV, by: u32) -> JsonV
    decreases j,
{
    match j {
        JsonV::Arr(v) => JsonV::Arr(
            Seq::new(
                v.len(),
                |i: int|
                    if 0 <= i < v.len() {
                        with_costs_raised(v[i], by)
                    } else {
                        JsonV::Null
                    },
            ),
        ),
        JsonV::Obj(e) => JsonV::Obj(
            Seq::new(
                e.len(),
                |i: int|
                    if 0 <= i < e.len() {
                        (
                            e[i].0,
                            if e[i].0 == "cost"@ && e[i].1 is Uint {
                                JsonV::Uint((e[i].1->Uint_0 + by) as u64)
                            } else {
                                with_costs_raised(e[i].1, by)
                            },
                        )
                    } else {
                        (seq![], JsonV::Null)
                    },
            ),
        ),
        _ => j,
    }
}

pub open spec fn all_with_costs_raised(v: Seq<JsonV>, by: u32) -> Seq<JsonV> {
    Seq::new(v.len(), |i: int| with_costs_raised(v[i], by))
}

broadcast proof fn lemma_raised_arr(v: Seq<JsonV>, by: u32)
    ensures
        #[trigger] with_costs_raised(JsonV::Arr(v), by) == JsonV::Arr(all_with_costs_raised(v, by)),
{
    assert(with_costs_raised(JsonV::Arr(v), by)->Arr_0 =~= all_with_costs_raised(v, by));
}

broadcast proof fn lemma_raised_with(j: JsonV, key: Seq<char>, val: JsonV, by: u32)
    requires
        j is Obj,
        key != "cost"@,
    ensures
        #[trigger] with_costs_raised(j.with(key, val), by) == with_costs_raised(j, by).with(
            key,
            with_costs_raised(val, by),
        ),
{
    let a = with_costs_raised(j.with(key, val), by);
    let b = with_costs_raised(j, by).with(key, with_costs_raised(val, by));
    let e = j->Obj_0;
    assert(j.with(key, val)->Obj_0 == e.push((key, val)));
    assert(a->Obj_0 =~= b->Obj_0);
}

broadcast proof fn lemma_raised_cost(j: JsonV, n: u64, by: u32)
    requires
        j is Obj,
    ensures
        #[trigger] with_costs_raised(j.with("cost"@, JsonV::Uint(n)), by) == with_costs_raised(
            j,
            by,
        ).with("cost"@, JsonV::Uint((n + by) as u64)),
{
    let a = with_costs_raised(j.with("cost"@, JsonV::Uint(n)), by);
    let b = with_costs_raised(j, by).with("cost"@, JsonV::Uint((n + by) as u64));
    let e = j->Obj_0;
    assert(j.with("cost"@, JsonV::Uint(n))->Obj_0 == e.push(("cost"@, JsonV::Uint(n))));
    assert(a->Obj_0 =~= b->Obj_0);
}

broadcast proof fn lemma_raised_empty(by: u32)
    ensures
        #[trigger] with_costs_raised(JsonV::empty(), by) == JsonV::empty(),
{
    assert(with_costs_raised(JsonV::empty(), by)->Obj_0 =~= JsonV::empty()->Obj_0);
}

broadcast proof fn lemma_raised_push(v: Seq<JsonV>, j: JsonV, by: u32)
    ensures
        #[trigger] all_with_costs_raised(v.push(j), by) == all_with_costs_raised(v, by).push(
            with_costs_raised(j, by),
        ),
{
    assert(all_with_costs_raised(v.push(j), by) =~= all_with_costs_raised(v, by).push(
        with_costs_raised(j, by),
    ));
}

broadcast proof fn lemma_raised_none(by: u32)
    ensures
        #[trigger] all_with_costs_raised(Seq::<JsonV>::empty(), by) == Seq::<JsonV>::empty(),
{
    assert(all_with_costs_raised(Seq::<JsonV>::empty(), by) =~= Seq::<JsonV>::empty());
}

broadcast group group_raised {
    lemma_raised_arr,
    lemma_raised_with,
    lemma_raised_cost,
    lemma_raised_empty,
    lemma_raised_push,
    lemma_raised_none,
}

proof fn lemma_interface_keys()
    ensures
        "ietf-interfaces:interfaces"@ != "cost"@,
        "interface"@ != "cost"@,
        "name"@ != "cost"@,
        "type"@ != "cost"@,
        "ietf-routing:routing"@ != "cost"@,
        "ietf-routing-policy:routing-policy"@ != "cost"@,
        "control-plane-protocols"@ != "cost"@,
        "control-plane-protocol"@ != "cost"@,
{
    reveal_strlit("cost");
    assert("cost"@[0] == 'c');
    assert("cost"@.len() == 4);
    reveal_strlit("ietf-interfaces:interfaces");
    assert("ietf-interfaces:interfaces"@.len() == 26);
    reveal_strlit("interface");
    assert("interface"@.len() == 9);
    reveal_strlit("name");
    assert("name"@[0] == 'n');
    reveal_strlit("type");
    assert("type"@[0] == 't');
    reveal_strlit("ietf-routing:routing");
    assert("ietf-routing:routing"@.len() == 20);
    reveal_strlit("ietf-routing-policy:routing-policy");
    assert("ietf-routing-policy:routing-policy"@.len() == 34);
    reveal_strlit("control-plane-protocols");
    assert("control-plane-protocols"@.len() == 23);
    reveal_strlit("control-plane-protocol");
    assert("control-plane-protocol"@.len() == 22);
}

proof fn lemma_ospf_keys()
    ensures
        "name"@ != "cost"@,
        "type"@ != "cost"@,
        "interface-type"@ != "cost"@,
        "hello-interval"@ != "cost"@,
        "dead-interval"@ != "cost"@,
        "bfd"@ != "cost"@,
        "enabled"@ != "cost"@,
        "local-multiplier"@ != "cost"@,
        "desired-min-tx-interval"@ != "cost"@,
        "required-min-rx-interval"@ != "cost"@,
        "passive"@ != "cost"@,
{
    reveal_strlit("cost");
    assert("cost"@[0] == 'c');
    assert("cost"@.len() == 4);
    reveal_strlit("name");
    assert("name"@[0] == 'n');
    reveal_strlit("type");
    assert("type"@[0] == 't');
    reveal_strlit("interface-type");
    assert("interface-type"@.len() == 14);
    reveal_strlit("hello-interval");
    assert("hello-interval"@.len() == 14);
    reveal_strlit("dead-interval");
    assert("dead-interval"@.len() == 13);
    reveal_strlit("bfd");
    assert("bfd"@.len() == 3);
    reveal_strlit("enabled");
    assert("enabled"@.len() == 7);
    reveal_strlit("local-multiplier");
    assert("local-multiplier"@.len() == 16);
    reveal_strlit("desired-min-tx-interval");
    assert("desired-min-tx-interval"@.len() == 23);
    reveal_strlit("required-min-rx-interval");
    assert("required-min-rx-interval"@.len() == 24);
    reveal_strlit("passive");
    assert("passive"@.len() == 7);
}

proof fn lemma_area_keys()
    ensures
        "type"@ != "cost"@,
        "name"@ != "cost"@,
        "ietf-spf-delay"@ != "cost"@,
        "long-delay"@ != "cost"@,
        "hold-down"@ != "cost"@,
        "area-id"@ != "cost"@,
        "interfaces"@ != "cost"@,
        "interface"@ != "cost"@,
        "explicit-router-id"@ != "cost"@,
        "spf-control"@ != "cost"@,
        "areas"@ != "cost"@,
        "area"@ != "cost"@,
        "ietf-ospf:ospf"@ != "cost"@,
{
    reveal_strlit("cost");
    assert("cost"@[0] == 'c');
    assert("cost"@.len() == 4);
    reveal_strlit("type");
    assert("type"@[0] == 't');
    reveal_strlit("name");
    assert("name"@[0] == 'n');
    reveal_strlit("ietf-spf-delay");
    assert("ietf-spf-delay"@.len() == 14);
    reveal_strlit("long-delay");
    assert("long-delay"@.len() == 10);
    reveal_strlit("hold-down");
    assert("hold-down"@.len() == 9);
    reveal_strlit("area-id");
    assert("area-id"@.len() == 7);
    reveal_strlit("interfaces");
    assert("interfaces"@.len() == 10);
    reveal_strlit("interface");
    assert("interface"@.len() == 9);
    reveal_strlit("explicit-router-id");
    assert("explicit-router-id"@.len() == 18);
    reveal_strlit("spf-control");
    assert("spf-control"@.len() == 11);
    reveal_strlit("areas");
    assert("areas"@.len() == 5);
    reveal_strlit("area");
    assert("area"@[0] == 'a');
    reveal_strlit("ietf-ospf:ospf");
    assert("ietf-ospf:ospf"@.len() == 14);
}

proof fn lemma_policy_keys()
    ensures
        "name"@ != "cost"@,
        "mode"@ != "cost"@,
        "prefixes"@ != "cost"@,
        "prefix-list"@ != "cost"@,
        "ip-prefix"@ != "cost"@,
        "mask-length-lower"@ != "cost"@,
        "mask-length-upper"@ != "cost"@,
        "statements"@ != "cost"@,
        "statement"@ != "cost"@,
        "conditions"@ != "cost"@,
        "match-prefix-set"@ != "cost"@,
        "prefix-set"@ != "cost"@,
        "actions"@ != "cost"@,
        "policy-result"@ != "cost"@,
        "ietf-bgp-policy:bgp-actions"@ != "cost"@,
        "set-med"@ != "cost"@,
        "set-next-hop"@ != "cost"@,
        "defined-sets"@ != "cost"@,
        "prefix-sets"@ != "cost"@,
        "policy-definitions"@ != "cost"@,
        "policy-definition"@ != "cost"@,
{
    reveal_strlit("cost");
    assert("cost"@[0] == 'c');
    assert("cost"@.len() == 4);
    reveal_strlit("name");
    assert("name"@[0] == 'n');
    reveal_strlit("mode");
    assert("mode"@[0] == 'm');
    reveal_strlit("prefixes");
    assert("prefixes"@.len() == 8);
    reveal_strlit("prefix-list");
    assert("prefix-list"@.len() == 11);
    reveal_strlit("ip-prefix");
    assert("ip-prefix"@.len() == 9);
    reveal_strlit("mask-length-lower");
    assert("mask-length-lower"@.len() == 17);
    reveal_strlit("mask-length-upper");
    assert("mask-length-upper"@.len() == 17);
    reveal_strlit("statements");
    assert("statements"@.len() == 10);
    reveal_strlit("statement");
    assert("statement"@.len() == 9);
    reveal_strlit("conditions");
    assert("conditions"@.len() == 10);
    reveal_strlit("match-prefix-set");
    assert("match-prefix-set"@.len() == 16);
    reveal_strlit("prefix-set");
    assert("prefix-set"@.len() == 10);
    reveal_strlit("actions");
    assert("actions"@.len() == 7);
    reveal_strlit("policy-result");
    assert("policy-result"@.len() == 13);
    reveal_strlit("ietf-bgp-policy:bgp-actions");
    assert("ietf-bgp-policy:bgp-actions"@.len() == 27);
    reveal_strlit("set-med");
    assert("set-med"@.len() == 7);
    reveal_strlit("set-next-hop");
    assert("set-next-hop"@.len() == 12);
    reveal_strlit("defined-sets");
    assert("defined-sets"@.len() == 12);
    reveal_strlit("prefix-sets");
    assert("prefix-sets"@.len() == 11);
    reveal_strlit("policy-definitions");
    assert("policy-definitions"@.len() == 18);
    reveal_strlit("policy-definition");
    assert("policy-definition"@.len() == 17);
}

proof fn lemma_bgp_keys()
    ensures
        "name"@ != "cost"@,
        "type"@ != "cost"@,
        "enabled"@ != "cost"@,
        "connect-retry-interval"@ != "cost"@,
        "hold-time"@ != "cost"@,
        "keepalive"@ != "cost"@,
        "apply-policy"@ != "cost"@,
        "export-policy"@ != "cost"@,
        "remote-address"@ != "cost"@,
        "peer-as"@ != "cost"@,
        "timers"@ != "cost"@,
        "transport"@ != "cost"@,
        "local-address"@ != "cost"@,
        "afi-safis"@ != "cost"@,
        "afi-safi"@ != "cost"@,
        "import-policy"@ != "cost"@,
        "ipv4-unicast"@ != "cost"@,
        "holo-bgp:redistribution"@ != "cost"@,
        "holo-bgp:network"@ != "cost"@,
        "as"@ != "cost"@,
        "identifier"@ != "cost"@,
        "global"@ != "cost"@,
        "neighbors"@ != "cost"@,
        "neighbor"@ != "cost"@,
        "ietf-bgp:bgp"@ != "cost"@,
{
    reveal_strlit("cost");
    assert("cost"@[0] == 'c');
    assert("cost"@.len() == 4);
    reveal_strlit("name");
    assert("name"@[0] == 'n');
    reveal_strlit("type");
    assert("type"@[0] == 't');
    reveal_strlit("enabled");
    assert("enabled"@.len() == 7);
    reveal_strlit("connect-retry-interval");
    assert("connect-retry-interval"@.len() == 22);
    reveal_strlit("hold-time");
    assert("hold-time"@.len() == 9);
    reveal_strlit("keepalive");
    assert("keepalive"@.len() == 9);
    reveal_strlit("apply-policy");
    assert("apply-policy"@.len() == 12);
    reveal_strlit("export-policy");
    assert("export-policy"@.len() == 13);
    reveal_strlit("remote-address");
    assert("remote-address"@.len() == 14);
    reveal_strlit("peer-as");
    assert("peer-as"@.len() == 7);
    reveal_strlit("timers");
    assert("timers"@.len() == 6);
    reveal_strlit("transport");
    assert("transport"@.len() == 9);
    reveal_strlit("local-address");
    assert("local-address"@.len() == 13);
    reveal_strlit("afi-safis");
    assert("afi-safis"@.len() == 9);
    reveal_strlit("afi-safi");
    assert("afi-safi"@.len() == 8);
    reveal_strlit("import-policy");
    assert("import-policy"@.len() == 13);
    reveal_strlit("ipv4-unicast");
    assert("ipv4-unicast"@.len() == 12);
    reveal_strlit("holo-bgp:redistribution");
    assert("holo-bgp:redistribution"@.len() == 23);
    reveal_strlit("holo-bgp:network");
    assert("holo-bgp:network"@.len() == 16);
    reveal_strlit("as");
    assert("as"@.len() == 2);
    reveal_strlit("identifier");
    assert("identifier"@.len() == 10);
    reveal_strlit("global");
    assert("global"@.len() == 6);
    reveal_strlit("neighbors");
    assert("neighbors"@.len() == 9);
    reveal_strlit("neighbor");
    assert("neighbor"@.len() == 8);
    reveal_strlit("ietf-bgp:bgp");
    assert("ietf-bgp:bgp"@.len() == 12);
}

proof fn lemma_interfaces_raised(names: Seq<Seq<char>>, n: int, by: u32)
    ensures
        all_with_costs_raised(interface_entries(names, n), by) == interface_entries(names, n),
    decreases n,
{
    broadcast use group_raised;

    lemma_interface_keys();
    if n > 0 {
        lemma_interfaces_raised(names, n - 1, by);
        assert(with_costs_raised(interface_entry(names[n - 1]), by) == interface_entry(names[n - 1]));
    }
}

proof fn lemma_adjacency_raised(v: MemberViewV, name: Seq<char>, c: u32)
    requires
        v.member.kind == MemberKind::Host,
    ensures
        with_costs_raised(
            adjacency(v, TransitCost::Declared, name, c),
            v.fabric.leaf_cost_offset,
        ) == adjacency(v, TransitCost::LeafOffset, name, c),
{
    broadcast use group_raised;

    lemma_ospf_keys();
}

proof fn lemma_segments_raised(v: MemberViewV, zone: Seq<char>, n: int)
    requires
        v.member.kind == MemberKind::Host,
    ensures
        all_with_costs_raised(
            segment_ifs(v, TransitCost::Declared, zone, n),
            v.fabric.leaf_cost_offset,
        ) == segment_ifs(v, TransitCost::LeafOffset, zone, n),
    decreases n,
{
    broadcast use group_raised;

    if n > 0 {
        lemma_segments_raised(v, zone, n - 1);
        let r = v.class_rows[n - 1];
        lemma_adjacency_raised(v, r.ifname, r.ospf_cost);
        lemma_ospf_keys();
        let by = v.fabric.leaf_cost_offset;
        assert(with_costs_raised(bfd_settings(v), by) == bfd_settings(v));
    }
}

proof fn lemma_fallbacks_raised(v: MemberViewV, zone: Seq<char>, n: int)
    requires
        v.member.kind == MemberKind::Host,
    ensures
        all_with_costs_raised(
            fallback_ifs(v, TransitCost::Declared, zone, n),
            v.fabric.leaf_cost_offset,
        ) == fallback_ifs(v, TransitCost::LeafOffset, zone, n),
    decreases n,
{
    broadcast use group_raised;

    if n > 0 {
        lemma_fallbacks_raised(v, zone, n - 1);
        let r = v.fallback_rows[n - 1];
        lemma_adjacency_raised(v, r.ifname, r.ospf_cost);
    } else {
        lemma_segments_raised(v, zone, v.class_rows.len() as int);
    }
}

proof fn lemma_passive_raised(name: Seq<char>, by: u32)
    ensures
        with_costs_raised(passive_if(name), by) == passive_if(name),
{
    broadcast use group_raised;

    lemma_ospf_keys();
}

proof fn lemma_gws_raised(v: MemberViewV, z: ZoneV, n: int)
    requires
        v.member.kind == MemberKind::Host,
    ensures
        all_with_costs_raised(
            gw_ifs(v, TransitCost::Declared, z, n),
            v.fabric.leaf_cost_offset,
        ) == gw_ifs(v, TransitCost::LeafOffset, z, n),
    decreases n,
{
    broadcast use group_raised;

    let by = v.fabric.leaf_cost_offset;
    if n > 0 {
        lemma_gws_raised(v, z, n - 1);
        lemma_passive_raised(v.gw_rows[n - 1].ifname, by);
    } else {
        lemma_fallbacks_raised(v, z.name, v.fallback_rows.len() as int);
        lemma_passive_raised(identity_ifname(z.id), by);
    }
}

proof fn lemma_instance_raised(v: MemberViewV, z: ZoneV)
    requires
        v.member.kind == MemberKind::Host,
    ensures
        with_costs_raised(
            ospf_instance(v, TransitCost::Declared, z),
            v.fabric.leaf_cost_offset,
        ) == ospf_instance(v, TransitCost::LeafOffset, z),
{
    broadcast use group_raised;

    let by = v.fabric.leaf_cost_offset;
    let a = TransitCost::Declared;
    let b = TransitCost::LeafOffset;
    lemma_area_keys();
    lemma_gws_raised(v, z, v.gw_rows.len() as int);
    assert(with_costs_raised(area(ospf_ifs(v, a, z)), by) == area(ospf_ifs(v, b, z)));
    assert(with_costs_raised(spf_control(), by) == spf_control());
    assert(with_costs_raised(ospf_body(v, a, z), by) == ospf_body(v, b, z));
}

proof fn lemma_instances_raised(v: MemberViewV, n: int)
    requires
        v.member.kind == MemberKind::Host,
    ensures
        all_with_costs_raised(
            ospf_instances(v, TransitCost::Declared, n),
            v.fabric.leaf_cost_offset,
        ) == ospf_instances(v, TransitCost::LeafOffset, n),
    decreases n,
{
    broadcast use group_raised;

    if n > 0 {
        lemma_instances_raised(v, n - 1);
        lemma_instance_raised(v, v.fabric.zones[n - 1]);
    }
}

proof fn lemma_policy_raised(
    name: Seq<char>,
    set: Seq<char>,
    key: Seq<char>,
    val: Seq<char>,
    by: u32,
)
    requires
        key != "cost"@,
    ensures
        with_costs_raised(policy(name, set, key, val), by) == policy(name, set, key, val),
{
    broadcast use group_raised;

    lemma_policy_keys();
}

proof fn lemma_prefix_set_raised(z: ZoneV, by: u32)
    ensures
        with_costs_raised(prefix_set(z), by) == prefix_set(z),
{
    broadcast use group_raised;

    lemma_policy_keys();
}

proof fn lemma_policies_raised(v: MemberViewV, n: int, by: u32)
    ensures
        all_with_costs_raised(policies(v, n), by) == policies(v, n),
        all_with_costs_raised(prefix_sets(v, n), by) == prefix_sets(v, n),
    decreases n,
{
    broadcast use group_raised;

    if n > 0 {
        lemma_policies_raised(v, n - 1, by);
        lemma_policy_keys();
        let z = row_zone(v, n - 1);
        lemma_policy_raised(import_policy(z.name), id_set(z.name), "set-med"@, "igp"@, by);
        lemma_policy_raised(export_policy(z.name), id_set(z.name), "set-next-hop"@, "self"@, by);
        lemma_prefix_set_raised(z, by);
    }
}

proof fn lemma_routing_policy_raised(v: MemberViewV, by: u32)
    ensures
        with_costs_raised(routing_policy(v), by) == routing_policy(v),
{
    broadcast use group_raised;

    lemma_policy_keys();
    lemma_policies_raised(v, v.gw_rows.len() as int, by);
}

proof fn lemma_neighbor_raised(v: MemberViewV, z: ZoneV, by: u32)
    ensures
        with_costs_raised(neighbor(v, z), by) == neighbor(v, z),
{
    broadcast use group_raised;

    lemma_bgp_keys();
    assert(with_costs_raised(bgp_timers(v), by) == bgp_timers(v));
    assert(with_costs_raised(neighbor_afi(z.name), by) == neighbor_afi(z.name));
}

proof fn lemma_bgp_lists_raised(v: MemberViewV, n: int, by: u32)
    ensures
        all_with_costs_raised(neighbors(v, n), by) == neighbors(v, n),
        all_with_costs_raised(networks(v, n), by) == networks(v, n),
        all_with_costs_raised(import_names(v, n), by) == import_names(v, n),
    decreases n,
{
    broadcast use group_raised;

    if n > 0 {
        lemma_bgp_lists_raised(v, n - 1, by);
        lemma_neighbor_raised(v, row_zone(v, n - 1), by);
    }
}

proof fn lemma_bgp_instance_raised(v: MemberViewV, by: u32)
    ensures
        with_costs_raised(bgp_instance(v), by) == bgp_instance(v),
{
    broadcast use group_raised;

    lemma_bgp_keys();
    lemma_bgp_lists_raised(v, v.gw_rows.len() as int, by);
    assert(with_costs_raised(redistribution(), by) == redistribution());
    assert(with_costs_raised(global_afi(v), by) == global_afi(v));
    assert(with_costs_raised(bgp_global(v), by) == bgp_global(v));
}

/// A host that is asked to be no path through is given the tree that it was declared with, every
/// cost in it raised by the leaf offset and nothing else changed.
pub proof fn lemma_a_host_is_offset_by_raising_every_cost(v: MemberViewV)
    requires
        v.member.kind == MemberKind::Host,
    ensures
        config_tree(v, TransitCost::LeafOffset) == with_costs_raised(
            config_tree(v, TransitCost::Declared),
            v.fabric.leaf_cost_offset,
        ),
{
    broadcast use group_raised;

    let by = v.fabric.leaf_cost_offset;
    let n = v.fabric.zones.len() as int;
    let names = if_names(v);
    lemma_interface_keys();
    lemma_interfaces_raised(names, names.len() as int, by);
    lemma_instances_raised(v, n);
    lemma_bgp_instance_raised(v, by);
    lemma_routing_policy_raised(v, by);
    let pa = ospf_instances(v, TransitCost::Declared, n);
    let pb = ospf_instances(v, TransitCost::LeafOffset, n);
    assert(with_costs_raised(routing(pa), by) == routing(pb));
    assert(with_costs_raised(routing(pa.push(bgp_instance(v))), by) == routing(
        pb.push(bgp_instance(v)),
    ));
}

// ---- the interfaces ----

proof fn lemma_with_name(names: Seq<Seq<char>>, name: Seq<char>)
    ensures
        with_name(names, name).contains(name),
        forall|x: Seq<char>| names.contains(x) ==> #[trigger] with_name(names, name).contains(x),
        names.no_duplicates() ==> with_name(names, name).no_duplicates(),
{
    let r = with_name(names, name);
    if !names.contains(name) {
        assert(r[names.len() as int] == name);
        assert forall|x: Seq<char>| names.contains(x) implies #[trigger] r.contains(x) by {
            let i = choose|i: int| 0 <= i < names.len() && names[i] == x;
            assert(r[i] == x);
        }
        if names.no_duplicates() {
            assert forall|i: int, j: int| 0 <= i < r.len() && 0 <= j < r.len() && i != j implies r[i]
                != r[j] by {
                if i == names.len() {
                    assert(names.contains(names[j]));
                } else if j == names.len() {
                    assert(names.contains(names[i]));
                }
            }
        }
    }
}

proof fn lemma_class_names(v: MemberViewV, n: int)
    requires
        0 <= n <= v.class_rows.len(),
    ensures
        class_names(v, n).no_duplicates(),
        forall|i: int| 0 <= i < n ==> class_names(v, n).contains((#[trigger] v.class_rows[i]).ifname),
    decreases n,
{
    if n > 0 {
        lemma_class_names(v, n - 1);
        lemma_with_name(class_names(v, n - 1), v.class_rows[n - 1].ifname);
    }
}

proof fn lemma_fallback_names(v: MemberViewV, n: int)
    requires
        0 <= n <= v.fallback_rows.len(),
    ensures
        fallback_names(v, n).no_duplicates(),
        forall|i: int|
            0 <= i < n ==> fallback_names(v, n).contains((#[trigger] v.fallback_rows[i]).ifname),
        forall|i: int|
            0 <= i < v.class_rows.len() ==> fallback_names(v, n).contains(
                (#[trigger] v.class_rows[i]).ifname,
            ),
    decreases n,
{
    if n > 0 {
        lemma_fallback_names(v, n - 1);
        lemma_with_name(fallback_names(v, n - 1), v.fallback_rows[n - 1].ifname);
    } else {
        lemma_class_names(v, v.class_rows.len() as int);
    }
}

proof fn lemma_identity_names(v: MemberViewV, n: int)
    requires
        0 <= n <= v.fabric.zones.len(),
    ensures
        identity_names(v, n).no_duplicates(),
        forall|i: int|
            0 <= i < n ==> identity_names(v, n).contains(
                identity_ifname((#[trigger] v.fabric.zones[i]).id),
            ),
        forall|i: int|
            0 <= i < v.class_rows.len() ==> identity_names(v, n).contains(
                (#[trigger] v.class_rows[i]).ifname,
            ),
        forall|i: int|
            0 <= i < v.fallback_rows.len() ==> identity_names(v, n).contains(
                (#[trigger] v.fallback_rows[i]).ifname,
            ),
    decreases n,
{
    if n > 0 {
        lemma_identity_names(v, n - 1);
        lemma_with_name(identity_names(v, n - 1), identity_ifname(v.fabric.zones[n - 1].id));
    } else {
        lemma_fallback_names(v, v.fallback_rows.len() as int);
    }
}

proof fn lemma_gw_names(v: MemberViewV, n: int)
    requires
        0 <= n <= v.gw_rows.len(),
    ensures
        gw_names(v, n).no_duplicates(),
        forall|i: int| 0 <= i < n ==> gw_names(v, n).contains((#[trigger] v.gw_rows[i]).ifname),
        forall|i: int|
            0 <= i < v.fabric.zones.len() ==> gw_names(v, n).contains(
                identity_ifname((#[trigger] v.fabric.zones[i]).id),
            ),
        forall|i: int|
            0 <= i < v.class_rows.len() ==> gw_names(v, n).contains(
                (#[trigger] v.class_rows[i]).ifname,
            ),
        forall|i: int|
            0 <= i < v.fallback_rows.len() ==> gw_names(v, n).contains(
                (#[trigger] v.fallback_rows[i]).ifname,
            ),
    decreases n,
{
    if n > 0 {
        lemma_gw_names(v, n - 1);
        lemma_with_name(gw_names(v, n - 1), v.gw_rows[n - 1].ifname);
    } else {
        lemma_identity_names(v, v.fabric.zones.len() as int);
    }
}

/// Is every value an interface whose name is listed?
pub open spec fn all_listed(v: MemberViewV, ifs: Seq<JsonV>) -> bool {
    forall|i: int|
        0 <= i < ifs.len() ==> {
            let name = (#[trigger] ifs[i]).at("name"@);
            name is Str && if_names(v).contains(name->Str_0)
        }
}

proof fn lemma_named(j: JsonV, name: Seq<char>)
    requires
        j is Obj,
        j->Obj_0.len() > 0,
        j->Obj_0[0] == ("name"@, JsonV::Str(name)),
    ensures
        j.at("name"@) == JsonV::Str(name),
{
    assert(JsonV::place(j->Obj_0, "name"@, 0) == 0);
}

proof fn lemma_listed_push(v: MemberViewV, ifs: Seq<JsonV>, j: JsonV, name: Seq<char>)
    requires
        all_listed(v, ifs),
        j is Obj,
        j->Obj_0.len() > 0,
        j->Obj_0[0] == ("name"@, JsonV::Str(name)),
        if_names(v).contains(name),
    ensures
        all_listed(v, ifs.push(j)),
{
    lemma_named(j, name);
    let r = ifs.push(j);
    assert forall|i: int| 0 <= i < r.len() implies {
        let n = (#[trigger] r[i]).at("name"@);
        n is Str && if_names(v).contains(n->Str_0)
    } by {
        if i < ifs.len() {
            assert(r[i] == ifs[i]);
        }
    }
}

proof fn lemma_segments_listed(v: MemberViewV, t: TransitCost, zone: Seq<char>, n: int)
    requires
        0 <= n <= v.class_rows.len(),
    ensures
        all_listed(v, segment_ifs(v, t, zone, n)),
    decreases n,
{
    if n > 0 {
        lemma_segments_listed(v, t, zone, n - 1);
        lemma_gw_names(v, v.gw_rows.len() as int);
        let r = v.class_rows[n - 1];
        let j = segment_if(v, t, r);
        assert(j->Obj_0[0] == ("name"@, JsonV::Str(r.ifname)));
        if r.zone == zone {
            lemma_listed_push(v, segment_ifs(v, t, zone, n - 1), j, r.ifname);
        }
    }
}

proof fn lemma_fallbacks_listed(v: MemberViewV, t: TransitCost, zone: Seq<char>, n: int)
    requires
        0 <= n <= v.fallback_rows.len(),
    ensures
        all_listed(v, fallback_ifs(v, t, zone, n)),
    decreases n,
{
    if n > 0 {
        lemma_fallbacks_listed(v, t, zone, n - 1);
        lemma_gw_names(v, v.gw_rows.len() as int);
        let r = v.fallback_rows[n - 1];
        let j = fallback_if(v, t, r);
        assert(j->Obj_0[0] == ("name"@, JsonV::Str(r.ifname)));
        if r.zone == zone {
            lemma_listed_push(v, fallback_ifs(v, t, zone, n - 1), j, r.ifname);
        }
    } else {
        lemma_segments_listed(v, t, zone, v.class_rows.len() as int);
    }
}

proof fn lemma_gws_listed(v: MemberViewV, t: TransitCost, k: int, n: int)
    requires
        0 <= n <= v.gw_rows.len(),
        0 <= k < v.fabric.zones.len(),
    ensures
        all_listed(v, gw_ifs(v, t, v.fabric.zones[k], n)),
    decreases n,
{
    let z = v.fabric.zones[k];
    lemma_gw_names(v, v.gw_rows.len() as int);
    if n > 0 {
        lemma_gws_listed(v, t, k, n - 1);
        let r = v.gw_rows[n - 1];
        let j = passive_if(r.ifname);
        assert(j->Obj_0[0] == ("name"@, JsonV::Str(r.ifname)));
        if r.zone == z.name {
            lemma_listed_push(v, gw_ifs(v, t, z, n - 1), j, r.ifname);
        }
    } else {
        lemma_fallbacks_listed(v, t, z.name, v.fallback_rows.len() as int);
        let name = identity_ifname(z.id);
        let j = passive_if(name);
        assert(j->Obj_0[0] == ("name"@, JsonV::Str(name)));
        lemma_listed_push(
            v,
            fallback_ifs(v, t, z.name, v.fallback_rows.len() as int),
            j,
            name,
        );
    }
}

/// Every interface that an instance names is in the interface list, and the list names none
/// twice.
pub proof fn lemma_interfaces_listed(v: MemberViewV, t: TransitCost, k: int)
    requires
        0 <= k < v.fabric.zones.len(),
    ensures
        all_listed(v, ospf_ifs(v, t, v.fabric.zones[k])),
        if_names(v).no_duplicates(),
{
    lemma_gws_listed(v, t, k, v.gw_rows.len() as int);
    lemma_gw_names(v, v.gw_rows.len() as int);
}

/// The interface list names exactly the interfaces.
pub proof fn lemma_interface_entries(names: Seq<Seq<char>>, n: int)
    requires
        0 <= n <= names.len(),
    ensures
        interface_entries(names, n).len() == n,
        forall|i: int|
            0 <= i < n ==> #[trigger] interface_entries(names, n)[i] == interface_entry(names[i]),
    decreases n,
{
    if n > 0 {
        lemma_interface_entries(names, n - 1);
    }
}

// ---- the policies ----

/// The names under which policies are defined.
pub open spec fn defined_policy(v: MemberViewV, name: Seq<char>) -> bool {
    let p = policies(v, v.gw_rows.len() as int);
    exists|i: int| 0 <= i < p.len() && (#[trigger] p[i]).at("name"@) == JsonV::Str(name)
}

pub open spec fn defined_set(v: MemberViewV, name: Seq<char>) -> bool {
    let p = prefix_sets(v, v.gw_rows.len() as int);
    exists|i: int| 0 <= i < p.len() && (#[trigger] p[i]).at("name"@) == JsonV::Str(name)
}

proof fn lemma_policies(v: MemberViewV, n: int)
    requires
        0 <= n,
    ensures
        policies(v, n).len() == 2 * n,
        prefix_sets(v, n).len() == n,
        import_names(v, n).len() == n,
        neighbors(v, n).len() == n,
        networks(v, n).len() == n,
        forall|i: int|
            0 <= i < n ==> {
                &&& policies(v, n)[2 * i] == import_definition(#[trigger] row_zone(v, i))
                &&& policies(v, n)[2 * i + 1] == export_definition(row_zone(v, i))
                &&& prefix_sets(v, n)[i] == prefix_set(row_zone(v, i))
                &&& import_names(v, n)[i] == JsonV::Str(import_policy(row_zone(v, i).name))
                &&& neighbors(v, n)[i] == neighbor(v, row_zone(v, i))
                &&& networks(v, n)[i] == JsonV::Str(
                    crate::derive::identity_of(row_zone(v, i).id, v.member.node) + "/32"@,
                )
            },
    decreases n,
{
    if n > 0 {
        lemma_policies(v, n - 1);
        assert forall|i: int| 0 <= i < n implies {
            &&& policies(v, n)[2 * i] == import_definition(#[trigger] row_zone(v, i))
            &&& policies(v, n)[2 * i + 1] == export_definition(row_zone(v, i))
            &&& prefix_sets(v, n)[i] == prefix_set(row_zone(v, i))
            &&& import_names(v, n)[i] == JsonV::Str(import_policy(row_zone(v, i).name))
            &&& neighbors(v, n)[i] == neighbor(v, row_zone(v, i))
            &&& networks(v, n)[i] == JsonV::Str(
                crate::derive::identity_of(row_zone(v, i).id, v.member.node) + "/32"@,
            )
        } by {
            if i < n - 1 {
                assert(policies(v, n)[2 * i] == policies(v, n - 1)[2 * i]);
                assert(policies(v, n)[2 * i + 1] == policies(v, n - 1)[2 * i + 1]);
            }
        }
    }
}

/// Every policy and every prefix set that the tree names is defined in the same tree: the import
/// policies of the redistribution, the export policy of each session, and the set that each policy
/// matches.
pub proof fn lemma_references_are_defined(v: MemberViewV, i: int)
    requires
        0 <= i < v.gw_rows.len(),
    ensures
        import_names(v, v.gw_rows.len() as int)[i] == JsonV::Str(import_policy(row_zone(v, i).name)),
        defined_policy(v, import_policy(row_zone(v, i).name)),
        neighbors(v, v.gw_rows.len() as int)[i] == neighbor(v, row_zone(v, i)),
        defined_policy(v, export_policy(row_zone(v, i).name)),
        defined_set(v, id_set(row_zone(v, i).name)),
{
    let n = v.gw_rows.len() as int;
    lemma_policies(v, n);
    let z = row_zone(v, i);
    let p = policies(v, n);
    let a = import_definition(z);
    let b = export_definition(z);
    let c = prefix_set(z);
    assert(a->Obj_0[0] == ("name"@, JsonV::Str(import_policy(z.name))));
    assert(b->Obj_0[0] == ("name"@, JsonV::Str(export_policy(z.name))));
    assert(c->Obj_0[0] == ("name"@, JsonV::Str(id_set(z.name))));
    lemma_named(a, import_policy(z.name));
    lemma_named(b, export_policy(z.name));
    lemma_named(c, id_set(z.name));
    assert(p[2 * i].at("name"@) == JsonV::Str(import_policy(z.name)));
    assert(p[2 * i + 1].at("name"@) == JsonV::Str(export_policy(z.name)));
    assert(prefix_sets(v, n)[i].at("name"@) == JsonV::Str(id_set(z.name)));
}

/// There is one session, one network and one import policy for each ingress row, in their order.
pub proof fn lemma_one_session_for_each_row(v: MemberViewV)
    ensures
        neighbors(v, v.gw_rows.len() as int).len() == v.gw_rows.len(),
        networks(v, v.gw_rows.len() as int).len() == v.gw_rows.len(),
        import_names(v, v.gw_rows.len() as int).len() == v.gw_rows.len(),
        policies(v, v.gw_rows.len() as int).len() == 2 * v.gw_rows.len(),
{
    lemma_policies(v, v.gw_rows.len() as int);
}

/// A member without an ingress row emits no session and no policy.
pub proof fn lemma_no_ingress_no_bgp(v: MemberViewV, t: TransitCost)
    requires
        v.gw_rows.len() == 0,
    ensures
        config_tree(v, t)->Obj_0.len() == 2,
        config_tree(v, t)->Obj_0[1] == (
            "ietf-routing:routing"@,
            routing(ospf_instances(v, t, v.fabric.zones.len() as int)),
        ),
{
}

} // verus!
