//! The routing engine's configuration tree for one member: an OSPF instance for each zone, and the
//! BGP ingress where the member has one.

use vstd::prelude::*;

pub mod laws;
pub mod reading;
pub mod refusing;

use crate::derive::{identity_of, zone_named, ClassRowV, FallbackRowV, MemberView, MemberViewV};
use crate::error::{refuses, Error};
use crate::json::{lemma_arr, lemma_models_push, models, Json, JsonV};
use crate::model::lookup::zone_refusal;
use crate::model::{block_text, identity_ifname, subnet_of, MemberKind, ZoneGwV, ZoneV};
use crate::text::{
    cat2, cat3, dec, has_text, lemma_texts_push, split, split_on, str_eq, texts,
};

verus! {

/// The base of the engine's own range of kernel route protocols.
pub const PROTO_BASE: u8 = 201;

/// The kernel route protocol of the routes that this program installs itself, outside the range
/// that the engine purges.
pub const CFAB_PROTO: u8 = 205;

/// How long a second topology event waits for the shortest-path computation, in milliseconds.
pub const SPF_LONG_DELAY_MS: u32 = 100;

pub const SPF_HOLD_DOWN_MS: u32 = 3000;

/// What a transit link's cost is generated at.
#[derive(Debug, Clone, Copy, PartialEq, Eq, Structural)]
pub enum TransitCost {
    /// The cost that the declaration asks for.
    Declared,
    /// The declared cost and the leaf offset: reachable, but never chosen as a path through.
    LeafOffset,
}

pub open spec fn transit_word(t: TransitCost) -> Seq<char> {
    match t {
        TransitCost::Declared => "normal"@,
        TransitCost::LeafOffset => "leaf"@,
    }
}

impl TransitCost {
    /// The word for it, in the request and in the reply.
    pub fn word(self) -> (r: &'static str)
        ensures
            r@ == transit_word(self),
    {
        match self {
            TransitCost::Declared => "normal",
            TransitCost::LeafOffset => "leaf",
        }
    }
}

/// A link's cost: a leaf is offset by what it is, and a host when it is asked to be.
pub open spec fn cost_of(v: MemberViewV, t: TransitCost, declared: u32) -> u64 {
    if v.member.kind == MemberKind::Leaf || t == TransitCost::LeafOffset {
        (declared + v.fabric.leaf_cost_offset) as u64
    } else {
        declared as u64
    }
}

fn link_cost(view: &MemberView, t: TransitCost, declared: u32) -> (r: u64)
    ensures
        r == cost_of(view@, t, declared),
{
    if view.kind() == MemberKind::Leaf || t == TransitCost::LeafOffset {
        declared as u64 + view.fabric.leaf_cost_offset as u64
    } else {
        declared as u64
    }
}

// ---- the interfaces ----

/// The names with one more, unless it is there already.
pub open spec fn with_name(names: Seq<Seq<char>>, name: Seq<char>) -> Seq<Seq<char>> {
    if names.contains(name) {
        names
    } else {
        names.push(name)
    }
}

pub open spec fn class_names(v: MemberViewV, n: int) -> Seq<Seq<char>>
    decreases n,
{
    if n <= 0 {
        seq![]
    } else {
        with_name(class_names(v, n - 1), v.class_rows[n - 1].ifname)
    }
}

pub open spec fn fallback_names(v: MemberViewV, n: int) -> Seq<Seq<char>>
    decreases n,
{
    if n <= 0 {
        class_names(v, v.class_rows.len() as int)
    } else {
        with_name(fallback_names(v, n - 1), v.fallback_rows[n - 1].ifname)
    }
}

pub open spec fn identity_names(v: MemberViewV, n: int) -> Seq<Seq<char>>
    decreases n,
{
    if n <= 0 {
        fallback_names(v, v.fallback_rows.len() as int)
    } else {
        with_name(identity_names(v, n - 1), identity_ifname(v.fabric.zones[n - 1].id))
    }
}

pub open spec fn gw_names(v: MemberViewV, n: int) -> Seq<Seq<char>>
    decreases n,
{
    if n <= 0 {
        identity_names(v, v.fabric.zones.len() as int)
    } else {
        with_name(gw_names(v, n - 1), v.gw_rows[n - 1].ifname)
    }
}

/// Every interface that an instance names, once: the segments, the fallback bonds, the
/// identities, and the ingress legs.
pub open spec fn if_names(v: MemberViewV) -> Seq<Seq<char>> {
    gw_names(v, v.gw_rows.len() as int)
}

pub open spec fn interface_entry(name: Seq<char>) -> JsonV {
    JsonV::empty().with("name"@, JsonV::Str(name)).with(
        "type"@,
        JsonV::Str("iana-if-type:ethernetCsmacd"@),
    )
}

pub open spec fn interface_entries(names: Seq<Seq<char>>, n: int) -> Seq<JsonV>
    decreases n,
{
    if n <= 0 {
        seq![]
    } else {
        interface_entries(names, n - 1).push(interface_entry(names[n - 1]))
    }
}

// ---- the instances ----

/// What a segment and a fallback bond have in common.
pub open spec fn adjacency(v: MemberViewV, t: TransitCost, ifname: Seq<char>, cost: u32) -> JsonV {
    JsonV::empty().with("name"@, JsonV::Str(ifname)).with(
        "interface-type"@,
        JsonV::Str("broadcast"@),
    ).with("hello-interval"@, JsonV::Uint(v.fabric.ospf_hello as u64)).with(
        "dead-interval"@,
        JsonV::Uint(v.fabric.ospf_dead as u64),
    ).with("cost"@, JsonV::Uint(cost_of(v, t, cost)))
}

/// A segment's session settings; the intervals are in microseconds.
pub open spec fn bfd_settings(v: MemberViewV) -> JsonV {
    JsonV::empty().with("enabled"@, JsonV::Bool(true)).with(
        "local-multiplier"@,
        JsonV::Uint(v.fabric.bfd_mult as u64),
    ).with("desired-min-tx-interval"@, JsonV::Uint((v.fabric.bfd_tx_ms * 1000) as u64)).with(
        "required-min-rx-interval"@,
        JsonV::Uint((v.fabric.bfd_rx_ms * 1000) as u64),
    )
}

pub open spec fn segment_if(v: MemberViewV, t: TransitCost, r: ClassRowV) -> JsonV {
    adjacency(v, t, r.ifname, r.ospf_cost).with("bfd"@, bfd_settings(v))
}

/// A fallback bond: an adjacency without a session, which would only be torn down and set up
/// again at each of its moves.
pub open spec fn fallback_if(v: MemberViewV, t: TransitCost, r: FallbackRowV) -> JsonV {
    adjacency(v, t, r.ifname, r.ospf_cost)
}

pub open spec fn passive_if(ifname: Seq<char>) -> JsonV {
    JsonV::empty().with("name"@, JsonV::Str(ifname)).with("passive"@, JsonV::Bool(true))
}

/// A zone's segments among the first `n` rows.
pub open spec fn segment_ifs(v: MemberViewV, t: TransitCost, zone: Seq<char>, n: int) -> Seq<JsonV>
    decreases n,
{
    if n <= 0 {
        seq![]
    } else if v.class_rows[n - 1].zone == zone {
        segment_ifs(v, t, zone, n - 1).push(segment_if(v, t, v.class_rows[n - 1]))
    } else {
        segment_ifs(v, t, zone, n - 1)
    }
}

pub open spec fn fallback_ifs(v: MemberViewV, t: TransitCost, zone: Seq<char>, n: int) -> Seq<JsonV>
    decreases n,
{
    if n <= 0 {
        segment_ifs(v, t, zone, v.class_rows.len() as int)
    } else if v.fallback_rows[n - 1].zone == zone {
        fallback_ifs(v, t, zone, n - 1).push(fallback_if(v, t, v.fallback_rows[n - 1]))
    } else {
        fallback_ifs(v, t, zone, n - 1)
    }
}

pub open spec fn gw_ifs(v: MemberViewV, t: TransitCost, z: ZoneV, n: int) -> Seq<JsonV>
    decreases n,
{
    if n <= 0 {
        fallback_ifs(v, t, z.name, v.fallback_rows.len() as int).push(
            passive_if(identity_ifname(z.id)),
        )
    } else if v.gw_rows[n - 1].zone == z.name {
        gw_ifs(v, t, z, n - 1).push(passive_if(v.gw_rows[n - 1].ifname))
    } else {
        gw_ifs(v, t, z, n - 1)
    }
}

/// A zone's interfaces: its segments, its fallback bonds, its identity, and its ingress legs.
pub open spec fn ospf_ifs(v: MemberViewV, t: TransitCost, z: ZoneV) -> Seq<JsonV> {
    gw_ifs(v, t, z, v.gw_rows.len() as int)
}

pub open spec fn spf_control() -> JsonV {
    JsonV::empty().with(
        "ietf-spf-delay"@,
        JsonV::empty().with("long-delay"@, JsonV::Uint(SPF_LONG_DELAY_MS as u64)).with(
            "hold-down"@,
            JsonV::Uint(SPF_HOLD_DOWN_MS as u64),
        ),
    )
}

pub open spec fn area(ifs: Seq<JsonV>) -> JsonV {
    JsonV::empty().with("area-id"@, JsonV::Str("0.0.0.0"@)).with(
        "interfaces"@,
        JsonV::empty().with("interface"@, JsonV::Arr(ifs)),
    )
}

pub open spec fn ospf_body(v: MemberViewV, t: TransitCost, z: ZoneV) -> JsonV {
    JsonV::empty().with(
        "explicit-router-id"@,
        JsonV::Str(identity_of(z.id, v.member.node)),
    ).with("spf-control"@, spf_control()).with(
        "areas"@,
        JsonV::empty().with("area"@, JsonV::Arr(seq![].push(area(ospf_ifs(v, t, z))))),
    )
}

pub open spec fn ospf_instance(v: MemberViewV, t: TransitCost, z: ZoneV) -> JsonV {
    JsonV::empty().with("type"@, JsonV::Str("ietf-ospf:ospfv2"@)).with(
        "name"@,
        JsonV::Str(z.name),
    ).with("ietf-ospf:ospf"@, ospf_body(v, t, z))
}

pub open spec fn ospf_instances(v: MemberViewV, t: TransitCost, n: int) -> Seq<JsonV>
    decreases n,
{
    if n <= 0 {
        seq![]
    } else {
        ospf_instances(v, t, n - 1).push(ospf_instance(v, t, v.fabric.zones[n - 1]))
    }
}

// ---- the ingress ----

/// The identity prefix set of a zone. All names share one space, so that each is prefixed.
pub open spec fn id_set(zone: Seq<char>) -> Seq<char> {
    "cfab-"@ + zone + "-id"@
}

pub open spec fn import_policy(zone: Seq<char>) -> Seq<char> {
    "cfab-"@ + zone + "-import"@
}

pub open spec fn export_policy(zone: Seq<char>) -> Seq<char> {
    "cfab-"@ + zone + "-export"@
}

/// The zone of an ingress row.
pub open spec fn row_zone(v: MemberViewV, i: int) -> ZoneV {
    zone_named(v, v.gw_rows[i].zone)
}

/// Why the ingress rows from `i` on cannot be emitted, where they cannot.
pub open spec fn gw_refusal(v: MemberViewV, i: int) -> Option<Seq<char>>
    decreases v.gw_rows.len() - i,
{
    if i >= v.gw_rows.len() {
        None
    } else if zone_refusal(v.fabric, v.gw_rows[i].zone) is Some {
        zone_refusal(v.fabric, v.gw_rows[i].zone)
    } else if row_zone(v, i).gw is None {
        Some("zone "@ + row_zone(v, i).name + " carries an ingress leg but no gw"@)
    } else {
        gw_refusal(v, i + 1)
    }
}

/// The identities of the zone and nothing else.
pub open spec fn prefix_set(z: ZoneV) -> JsonV {
    JsonV::empty().with("name"@, JsonV::Str(id_set(z.name))).with("mode"@, JsonV::Str("ipv4"@)).with(
        "prefixes"@,
        JsonV::empty().with(
            "prefix-list"@,
            JsonV::Arr(
                seq![].push(
                    JsonV::empty().with(
                        "ip-prefix"@,
                        JsonV::Str(block_text(z.id) + ".0.0/24"@),
                    ).with("mask-length-lower"@, JsonV::Uint(32)).with(
                        "mask-length-upper"@,
                        JsonV::Uint(32),
                    ),
                ),
            ),
        ),
    )
}

/// A policy of one statement: the zone's identities are accepted, and one attribute is set.
pub open spec fn policy(name: Seq<char>, set: Seq<char>, key: Seq<char>, val: Seq<char>) -> JsonV {
    JsonV::empty().with("name"@, JsonV::Str(name)).with(
        "statements"@,
        JsonV::empty().with(
            "statement"@,
            JsonV::Arr(
                seq![].push(
                    JsonV::empty().with("name"@, JsonV::Str("1"@)).with(
                        "conditions"@,
                        JsonV::empty().with(
                            "match-prefix-set"@,
                            JsonV::empty().with("prefix-set"@, JsonV::Str(set)),
                        ),
                    ).with(
                        "actions"@,
                        JsonV::empty().with("policy-result"@, JsonV::Str("accept-route"@)).with(
                            "ietf-bgp-policy:bgp-actions"@,
                            JsonV::empty().with(key, JsonV::Str(val)),
                        ),
                    ),
                ),
            ),
        ),
    )
}

/// The import carries the cost of an identity, so that its owner is preferred.
pub open spec fn import_definition(z: ZoneV) -> JsonV {
    policy(import_policy(z.name), id_set(z.name), "set-med"@, "igp"@)
}

/// The export replaces a next hop that the router cannot resolve.
pub open spec fn export_definition(z: ZoneV) -> JsonV {
    policy(export_policy(z.name), id_set(z.name), "set-next-hop"@, "self"@)
}

pub open spec fn prefix_sets(v: MemberViewV, n: int) -> Seq<JsonV>
    decreases n,
{
    if n <= 0 {
        seq![]
    } else {
        prefix_sets(v, n - 1).push(prefix_set(row_zone(v, n - 1)))
    }
}

pub open spec fn policies(v: MemberViewV, n: int) -> Seq<JsonV>
    decreases n,
{
    if n <= 0 {
        seq![]
    } else {
        policies(v, n - 1).push(import_definition(row_zone(v, n - 1))).push(
            export_definition(row_zone(v, n - 1)),
        )
    }
}

pub open spec fn import_names(v: MemberViewV, n: int) -> Seq<JsonV>
    decreases n,
{
    if n <= 0 {
        seq![]
    } else {
        import_names(v, n - 1).push(JsonV::Str(import_policy(row_zone(v, n - 1).name)))
    }
}

/// This member's own identities, which redistribution would not originate.
pub open spec fn networks(v: MemberViewV, n: int) -> Seq<JsonV>
    decreases n,
{
    if n <= 0 {
        seq![]
    } else {
        networks(v, n - 1).push(
            JsonV::Str(identity_of(row_zone(v, n - 1).id, v.member.node) + "/32"@),
        )
    }
}

/// This member's address on an ingress leg.
pub open spec fn leg_local(gw: ZoneGwV, node: u8) -> Seq<char> {
    split(subnet_of(gw.router) + "."@ + dec(node as nat) + "/24"@, '/')[0]
}

pub open spec fn bgp_timers(v: MemberViewV) -> JsonV {
    JsonV::empty().with("connect-retry-interval"@, JsonV::Uint(v.fabric.bgp_connect_s as u64)).with(
        "hold-time"@,
        JsonV::Uint(v.fabric.bgp_hold_s as u64),
    ).with("keepalive"@, JsonV::Uint(v.fabric.bgp_keepalive_s as u64))
}

/// A session exports its own zone's policy and no other.
pub open spec fn neighbor_afi(zone: Seq<char>) -> JsonV {
    JsonV::empty().with("name"@, JsonV::Str("iana-bgp-types:ipv4-unicast"@)).with(
        "enabled"@,
        JsonV::Bool(true),
    ).with(
        "apply-policy"@,
        JsonV::empty().with(
            "export-policy"@,
            JsonV::Arr(seq![].push(JsonV::Str(export_policy(zone)))),
        ),
    )
}

pub open spec fn neighbor(v: MemberViewV, z: ZoneV) -> JsonV {
    JsonV::empty().with("remote-address"@, JsonV::Str(z.gw->0.router)).with(
        "peer-as"@,
        JsonV::Uint(v.fabric.bgp_as as u64),
    ).with("timers"@, bgp_timers(v)).with(
        "transport"@,
        JsonV::empty().with("local-address"@, JsonV::Str(leg_local(z.gw->0, v.member.node))),
    ).with(
        "afi-safis"@,
        JsonV::empty().with("afi-safi"@, JsonV::Arr(seq![].push(neighbor_afi(z.name)))),
    )
}

pub open spec fn neighbors(v: MemberViewV, n: int) -> Seq<JsonV>
    decreases n,
{
    if n <= 0 {
        seq![]
    } else {
        neighbors(v, n - 1).push(neighbor(v, row_zone(v, n - 1)))
    }
}

pub open spec fn redistribution() -> JsonV {
    JsonV::Arr(
        seq![].push(JsonV::empty().with("type"@, JsonV::Str("ietf-routing:direct"@))).push(
            JsonV::empty().with("type"@, JsonV::Str("ietf-ospf:ospfv2"@)),
        ),
    )
}

/// What is redistributed runs the global import policies.
pub open spec fn global_afi(v: MemberViewV) -> JsonV {
    let n = v.gw_rows.len() as int;
    JsonV::empty().with("name"@, JsonV::Str("iana-bgp-types:ipv4-unicast"@)).with(
        "apply-policy"@,
        JsonV::empty().with("import-policy"@, JsonV::Arr(import_names(v, n))),
    ).with(
        "ipv4-unicast"@,
        JsonV::empty().with("holo-bgp:redistribution"@, redistribution()).with(
            "holo-bgp:network"@,
            JsonV::Arr(networks(v, n)),
        ),
    )
}

pub open spec fn bgp_global(v: MemberViewV) -> JsonV {
    JsonV::empty().with("as"@, JsonV::Uint(v.fabric.bgp_as as u64)).with(
        "identifier"@,
        JsonV::Str(identity_of(row_zone(v, 0).id, v.member.node)),
    ).with(
        "afi-safis"@,
        JsonV::empty().with("afi-safi"@, JsonV::Arr(seq![].push(global_afi(v)))),
    )
}

/// The member's one BGP instance, over every zone that has an ingress.
pub open spec fn bgp_instance(v: MemberViewV) -> JsonV {
    JsonV::empty().with("type"@, JsonV::Str("ietf-bgp:bgp"@)).with("name"@, JsonV::Str("cfab"@)).with(
        "ietf-bgp:bgp"@,
        JsonV::empty().with("global"@, bgp_global(v)).with(
            "neighbors"@,
            JsonV::empty().with(
                "neighbor"@,
                JsonV::Arr(neighbors(v, v.gw_rows.len() as int)),
            ),
        ),
    )
}

pub open spec fn routing_policy(v: MemberViewV) -> JsonV {
    let n = v.gw_rows.len() as int;
    JsonV::empty().with(
        "defined-sets"@,
        JsonV::empty().with(
            "prefix-sets"@,
            JsonV::empty().with("prefix-set"@, JsonV::Arr(prefix_sets(v, n))),
        ),
    ).with(
        "policy-definitions"@,
        JsonV::empty().with("policy-definition"@, JsonV::Arr(policies(v, n))),
    )
}

// ---- the tree ----

pub open spec fn routing(protocols: Seq<JsonV>) -> JsonV {
    JsonV::empty().with(
        "control-plane-protocols"@,
        JsonV::empty().with("control-plane-protocol"@, JsonV::Arr(protocols)),
    )
}

/// The configuration tree. A member without an ingress has neither the instance nor the policies.
pub open spec fn config_tree(v: MemberViewV, t: TransitCost) -> JsonV {
    let names = if_names(v);
    let head = JsonV::empty().with(
        "ietf-interfaces:interfaces"@,
        JsonV::empty().with(
            "interface"@,
            JsonV::Arr(interface_entries(names, names.len() as int)),
        ),
    );
    let p = ospf_instances(v, t, v.fabric.zones.len() as int);
    if v.gw_rows.len() == 0 {
        head.with("ietf-routing:routing"@, routing(p))
    } else {
        head.with("ietf-routing-policy:routing-policy"@, routing_policy(v)).with(
            "ietf-routing:routing"@,
            routing(p.push(bgp_instance(v))),
        )
    }
}

/// A route inside a zone's block is installed with this member's identity as its source.
pub open spec fn prefsrc(v: MemberViewV) -> Seq<(Seq<char>, Seq<char>)> {
    Seq::new(
        v.fabric.zones.len(),
        |i: int|
            (
                block_text(v.fabric.zones[i].id) + ".0.0/16"@,
                identity_of(v.fabric.zones[i].id, v.member.node),
            ),
    )
}

// ---- the tree, built ----

fn list(v: Vec<Json>) -> (r: Json)
    ensures
        r@ == JsonV::Arr(models(v@)),
{
    broadcast use lemma_arr;

    Json::Arr(v)
}

fn single(j: Json) -> (r: Json)
    ensures
        r@ == JsonV::Arr(seq![].push(j@)),
{
    let mut v: Vec<Json> = Vec::new();
    v.push(j);
    assert(models(v@) =~= seq![].push(j@));
    list(v)
}

fn add_name(names: &mut Vec<String>, name: String)
    ensures
        texts(final(names)@) == with_name(texts(old(names)@), name@),
{
    broadcast use lemma_texts_push;

    let there = has_text(names, names.len(), name.as_str());
    proof {
        let t = texts(names@);
        if t.contains(name@) {
            let j = choose|j: int| 0 <= j < t.len() && t[j] == name@;
            assert(t[j] == name@);
        }
    }
    if !there {
        names.push(name);
    }
}

fn all_names(view: &MemberView) -> (r: Vec<String>)
    ensures
        texts(r@) == if_names(view@),
{
    let ghost v = view@;
    let mut names: Vec<String> = Vec::new();
    assert(texts(names@) =~= seq![]);
    let mut i: usize = 0;
    while i < view.class_rows.len()
        invariant
            i <= view.class_rows@.len(),
            v == view@,
            texts(names@) == class_names(v, i as int),
        decreases view.class_rows@.len() - i,
    {
        assert(view.class_rows@[i as int]@ == v.class_rows[i as int]);
        add_name(&mut names, view.class_rows[i].ifname.clone());
        i = i + 1;
    }
    i = 0;
    while i < view.fallback_rows.len()
        invariant
            i <= view.fallback_rows@.len(),
            v == view@,
            texts(names@) == fallback_names(v, i as int),
        decreases view.fallback_rows@.len() - i,
    {
        assert(view.fallback_rows@[i as int]@ == v.fallback_rows[i as int]);
        add_name(&mut names, view.fallback_rows[i].ifname.clone());
        i = i + 1;
    }
    i = 0;
    while i < view.fabric.zones.len()
        invariant
            i <= view.fabric.zones@.len(),
            v == view@,
            texts(names@) == identity_names(v, i as int),
        decreases view.fabric.zones@.len() - i,
    {
        assert(view.fabric.zones@[i as int]@ == v.fabric.zones[i as int]);
        add_name(&mut names, MemberView::identity_if(&view.fabric.zones[i]));
        i = i + 1;
    }
    i = 0;
    while i < view.gw_rows.len()
        invariant
            i <= view.gw_rows@.len(),
            v == view@,
            texts(names@) == gw_names(v, i as int),
        decreases view.gw_rows@.len() - i,
    {
        assert(view.gw_rows@[i as int]@ == v.gw_rows[i as int]);
        add_name(&mut names, view.gw_rows[i].ifname.clone());
        i = i + 1;
    }
    names
}

fn interfaces(names: &Vec<String>) -> (r: Json)
    ensures
        r@ == JsonV::Arr(interface_entries(texts(names@), names@.len() as int)),
{
    broadcast use lemma_models_push;

    let mut out: Vec<Json> = Vec::new();
    let mut i: usize = 0;
    assert(models(out@) =~= seq![]);
    while i < names.len()
        invariant
            i <= names@.len(),
            models(out@) == interface_entries(texts(names@), i as int),
        decreases names@.len() - i,
    {
        out.push(
            Json::empty().with("name", Json::str(names[i].as_str())).with(
                "type",
                Json::str("iana-if-type:ethernetCsmacd"),
            ),
        );
        i = i + 1;
    }
    list(out)
}

fn adjacency_of(view: &MemberView, t: TransitCost, ifname: &str, cost: u32) -> (r: Json)
    ensures
        r@ == adjacency(view@, t, ifname@, cost),
{
    let f = view.fabric;
    Json::empty().with("name", Json::str(ifname)).with("interface-type", Json::str("broadcast")).with(
        "hello-interval",
        Json::Uint(f.ospf_hello as u64),
    ).with("dead-interval", Json::Uint(f.ospf_dead as u64)).with(
        "cost",
        Json::Uint(link_cost(view, t, cost)),
    )
}

fn bfd_of(view: &MemberView) -> (r: Json)
    ensures
        r@ == bfd_settings(view@),
{
    let f = view.fabric;
    Json::empty().with("enabled", Json::Bool(true)).with(
        "local-multiplier",
        Json::Uint(f.bfd_mult as u64),
    ).with("desired-min-tx-interval", Json::Uint(f.bfd_tx_ms as u64 * 1000)).with(
        "required-min-rx-interval",
        Json::Uint(f.bfd_rx_ms as u64 * 1000),
    )
}

fn passive_of(ifname: &str) -> (r: Json)
    ensures
        r@ == passive_if(ifname@),
{
    Json::empty().with("name", Json::str(ifname)).with("passive", Json::Bool(true))
}

fn zone_ifs(view: &MemberView, t: TransitCost, z: &crate::model::Zone) -> (r: Json)
    ensures
        r@ == JsonV::Arr(ospf_ifs(view@, t, z@)),
{
    broadcast use lemma_models_push;

    let ghost v = view@;
    let zone = z.name.as_str();
    let mut out: Vec<Json> = Vec::new();
    assert(models(out@) =~= seq![]);
    let mut i: usize = 0;
    while i < view.class_rows.len()
        invariant
            i <= view.class_rows@.len(),
            v == view@,
            zone@ == z@.name,
            models(out@) == segment_ifs(v, t, z@.name, i as int),
        decreases view.class_rows@.len() - i,
    {
        let r = &view.class_rows[i];
        assert(r@ == v.class_rows[i as int]);
        if str_eq(r.zone.as_str(), zone) {
            out.push(
                adjacency_of(view, t, r.ifname.as_str(), r.ospf_cost).with("bfd", bfd_of(view)),
            );
        }
        i = i + 1;
    }
    i = 0;
    while i < view.fallback_rows.len()
        invariant
            i <= view.fallback_rows@.len(),
            v == view@,
            zone@ == z@.name,
            models(out@) == fallback_ifs(v, t, z@.name, i as int),
        decreases view.fallback_rows@.len() - i,
    {
        let r = &view.fallback_rows[i];
        assert(r@ == v.fallback_rows[i as int]);
        if str_eq(r.zone.as_str(), zone) {
            out.push(adjacency_of(view, t, r.ifname.as_str(), r.ospf_cost));
        }
        i = i + 1;
    }
    out.push(passive_of(MemberView::identity_if(z).as_str()));
    i = 0;
    while i < view.gw_rows.len()
        invariant
            i <= view.gw_rows@.len(),
            v == view@,
            zone@ == z@.name,
            models(out@) == gw_ifs(v, t, z@, i as int),
        decreases view.gw_rows@.len() - i,
    {
        let r = &view.gw_rows[i];
        assert(r@ == v.gw_rows[i as int]);
        if str_eq(r.zone.as_str(), zone) {
            out.push(passive_of(r.ifname.as_str()));
        }
        i = i + 1;
    }
    list(out)
}

fn instance_of(view: &MemberView, t: TransitCost, z: &crate::model::Zone) -> (r: Json)
    ensures
        r@ == ospf_instance(view@, t, z@),
{
    let spf = Json::empty().with(
        "ietf-spf-delay",
        Json::empty().with("long-delay", Json::Uint(SPF_LONG_DELAY_MS as u64)).with(
            "hold-down",
            Json::Uint(SPF_HOLD_DOWN_MS as u64),
        ),
    );
    let a = Json::empty().with("area-id", Json::str("0.0.0.0")).with(
        "interfaces",
        Json::empty().with("interface", zone_ifs(view, t, z)),
    );
    let body = Json::empty().with(
        "explicit-router-id",
        Json::str(view.identity_addr(z).as_str()),
    ).with("spf-control", spf).with("areas", Json::empty().with("area", single(a)));
    Json::empty().with("type", Json::str("ietf-ospf:ospfv2")).with(
        "name",
        Json::str(z.name.as_str()),
    ).with("ietf-ospf:ospf", body)
}

fn set_name(zone: &str) -> (r: String)
    ensures
        r@ == id_set(zone@),
{
    cat3("cfab-", zone, "-id")
}

fn prefix_set_of(z: &crate::model::Zone) -> (r: Json)
    ensures
        r@ == prefix_set(z@),
{
    let entry = Json::empty().with(
        "ip-prefix",
        Json::str(cat2(z.block().as_str(), ".0.0/24").as_str()),
    ).with("mask-length-lower", Json::Uint(32)).with("mask-length-upper", Json::Uint(32));
    Json::empty().with("name", Json::str(set_name(z.name.as_str()).as_str())).with(
        "mode",
        Json::str("ipv4"),
    ).with("prefixes", Json::empty().with("prefix-list", single(entry)))
}

fn policy_of(name: &str, set: &str, key: &str, val: &str) -> (r: Json)
    ensures
        r@ == policy(name@, set@, key@, val@),
{
    let actions = Json::empty().with("policy-result", Json::str("accept-route")).with(
        "ietf-bgp-policy:bgp-actions",
        Json::empty().with(key, Json::str(val)),
    );
    let statement = Json::empty().with("name", Json::str("1")).with(
        "conditions",
        Json::empty().with("match-prefix-set", Json::empty().with("prefix-set", Json::str(set))),
    ).with("actions", actions);
    Json::empty().with("name", Json::str(name)).with(
        "statements",
        Json::empty().with("statement", single(statement)),
    )
}

fn neighbor_of(view: &MemberView, z: &crate::model::Zone, gw: &crate::model::ZoneGw) -> (r: Json)
    requires
        z@.gw == Some(gw@),
    ensures
        r@ == neighbor(view@, z@),
{
    let f = view.fabric;
    let leg = gw.leg_cidr(view.node());
    let parts = split_on(leg.as_str(), '/');
    proof {
        assert(texts(parts@).len() == parts@.len());
        assert(split(leg@, '/').len() > 0);
        assert(texts(parts@)[0] == parts@[0]@);
    }
    let timers = Json::empty().with("connect-retry-interval", Json::Uint(f.bgp_connect_s as u64)).with(
        "hold-time",
        Json::Uint(f.bgp_hold_s as u64),
    ).with("keepalive", Json::Uint(f.bgp_keepalive_s as u64));
    let export = cat3("cfab-", z.name.as_str(), "-export");
    let afi = Json::empty().with("name", Json::str("iana-bgp-types:ipv4-unicast")).with(
        "enabled",
        Json::Bool(true),
    ).with(
        "apply-policy",
        Json::empty().with("export-policy", single(Json::str(export.as_str()))),
    );
    Json::empty().with("remote-address", Json::str(gw.router.as_str())).with(
        "peer-as",
        Json::Uint(f.bgp_as as u64),
    ).with("timers", timers).with(
        "transport",
        Json::empty().with("local-address", Json::str(parts[0].as_str())),
    ).with("afi-safis", Json::empty().with("afi-safi", single(afi)))
}

/// The routing policy and the instance of the ingress.
fn ingress_bgp(view: &MemberView) -> (r: Result<Option<(Json, Json)>, Error>)
    ensures
        refuses(r, gw_refusal(view@, 0)),
        r matches Ok(o) ==> match o {
            Some(p) => view@.gw_rows.len() > 0 && p.0@ == routing_policy(view@) && p.1@
                == bgp_instance(view@),
            None => view@.gw_rows.len() == 0,
        },
{
    broadcast use lemma_models_push;

    let ghost v = view@;
    let f = view.fabric;
    if view.gw_rows.len() == 0 {
        return Ok(None);
    }
    let mut sets: Vec<Json> = Vec::new();
    let mut defs: Vec<Json> = Vec::new();
    let mut imports: Vec<Json> = Vec::new();
    let mut nbrs: Vec<Json> = Vec::new();
    let mut nets: Vec<Json> = Vec::new();
    let mut identifier = String::new();
    proof {
        assert(models(sets@) =~= seq![]);
        assert(models(defs@) =~= seq![]);
        assert(models(imports@) =~= seq![]);
        assert(models(nbrs@) =~= seq![]);
        assert(models(nets@) =~= seq![]);
    }
    let mut i: usize = 0;
    while i < view.gw_rows.len()
        invariant
            i <= view.gw_rows@.len(),
            v == view@,
            f == view.fabric,
            gw_refusal(v, 0) == gw_refusal(v, i as int),
            models(sets@) == prefix_sets(v, i as int),
            models(defs@) == policies(v, i as int),
            models(imports@) == import_names(v, i as int),
            models(nbrs@) == neighbors(v, i as int),
            models(nets@) == networks(v, i as int),
            i > 0 ==> identifier@ == identity_of(row_zone(v, 0).id, v.member.node),
        decreases view.gw_rows@.len() - i,
    {
        let r = &view.gw_rows[i];
        assert(r@ == v.gw_rows[i as int]);
        let z = match f.zone(r.zone.as_str()) {
            Ok(z) => z,
            Err(e) => {
                return Err(e);
            },
        };
        assert(z@ == row_zone(v, i as int));
        let gw = match &z.gw {
            Some(g) => g,
            None => {
                return Err(
                    Error::Config(
                        cat3("zone ", z.name.as_str(), " carries an ingress leg but no gw"),
                    ),
                );
            },
        };
        let zone = z.name.as_str();
        let set = set_name(zone);
        let import = cat3("cfab-", zone, "-import");
        let export = cat3("cfab-", zone, "-export");
        sets.push(prefix_set_of(z));
        defs.push(policy_of(import.as_str(), set.as_str(), "set-med", "igp"));
        defs.push(policy_of(export.as_str(), set.as_str(), "set-next-hop", "self"));
        imports.push(Json::str(import.as_str()));
        let id = view.identity_addr(z);
        nets.push(Json::str(cat2(id.as_str(), "/32").as_str()));
        nbrs.push(neighbor_of(view, z, gw));
        if i == 0 {
            identifier = id;
        }
        i = i + 1;
    }
    let mut kinds: Vec<Json> = Vec::new();
    assert(models(kinds@) =~= seq![]);
    kinds.push(Json::empty().with("type", Json::str("ietf-routing:direct")));
    kinds.push(Json::empty().with("type", Json::str("ietf-ospf:ospfv2")));
    let afi = Json::empty().with("name", Json::str("iana-bgp-types:ipv4-unicast")).with(
        "apply-policy",
        Json::empty().with("import-policy", list(imports)),
    ).with(
        "ipv4-unicast",
        Json::empty().with("holo-bgp:redistribution", list(kinds)).with(
            "holo-bgp:network",
            list(nets),
        ),
    );
    let global = Json::empty().with("as", Json::Uint(f.bgp_as as u64)).with(
        "identifier",
        Json::str(identifier.as_str()),
    ).with("afi-safis", Json::empty().with("afi-safi", single(afi)));
    let bgp = Json::empty().with("type", Json::str("ietf-bgp:bgp")).with("name", Json::str("cfab")).with(
        "ietf-bgp:bgp",
        Json::empty().with("global", global).with(
            "neighbors",
            Json::empty().with("neighbor", list(nbrs)),
        ),
    );
    let pol = Json::empty().with(
        "defined-sets",
        Json::empty().with("prefix-sets", Json::empty().with("prefix-set", list(sets))),
    ).with("policy-definitions", Json::empty().with("policy-definition", list(defs)));
    Ok(Some((pol, bgp)))
}

/// The tree at the declared costs.
pub fn generate(view: &MemberView) -> (r: Result<Json, Error>)
    ensures
        refuses(r, gw_refusal(view@, 0)),
        r is Ok ==> r->Ok_0@ == config_tree(view@, TransitCost::Declared),
{
    generate_at(view, TransitCost::Declared)
}

/// The tree, with the transit links at this cost.
pub fn generate_at(view: &MemberView, transit: TransitCost) -> (r: Result<Json, Error>)
    ensures
        refuses(r, gw_refusal(view@, 0)),
        r is Ok ==> r->Ok_0@ == config_tree(view@, transit),
{
    broadcast use lemma_models_push;

    let ghost v = view@;
    let names = all_names(view);
    assert(texts(names@).len() == names@.len());
    let mut protocols: Vec<Json> = Vec::new();
    assert(models(protocols@) =~= seq![]);
    let mut i: usize = 0;
    while i < view.fabric.zones.len()
        invariant
            i <= view.fabric.zones@.len(),
            v == view@,
            models(protocols@) == ospf_instances(v, transit, i as int),
        decreases view.fabric.zones@.len() - i,
    {
        assert(view.fabric.zones@[i as int]@ == v.fabric.zones[i as int]);
        protocols.push(instance_of(view, transit, &view.fabric.zones[i]));
        i = i + 1;
    }
    let head = Json::empty().with(
        "ietf-interfaces:interfaces",
        Json::empty().with("interface", interfaces(&names)),
    );
    match ingress_bgp(view) {
        Err(e) => Err(e),
        Ok(None) => Ok(
            head.with(
                "ietf-routing:routing",
                Json::empty().with(
                    "control-plane-protocols",
                    Json::empty().with("control-plane-protocol", list(protocols)),
                ),
            ),
        ),
        Ok(Some((pol, bgp))) => {
            protocols.push(bgp);
            Ok(
                head.with("ietf-routing-policy:routing-policy", pol).with(
                    "ietf-routing:routing",
                    Json::empty().with(
                        "control-plane-protocols",
                        Json::empty().with("control-plane-protocol", list(protocols)),
                    ),
                ),
            )
        },
    }
}

/// The source of every route, zone by zone.
pub fn prefsrc_rules(view: &MemberView) -> (r: Vec<(String, String)>)
    ensures
        crate::model::pairs(r@) == prefsrc(view@),
{
    let mut out: Vec<(String, String)> = Vec::new();
    let mut i: usize = 0;
    while i < view.fabric.zones.len()
        invariant
            i <= view.fabric.zones@.len(),
            out@.len() == i,
            forall|j: int|
                0 <= j < i ==> ((#[trigger] out@[j]).0@, out@[j].1@) == prefsrc(view@)[j],
        decreases view.fabric.zones@.len() - i,
    {
        let z = &view.fabric.zones[i];
        assert(z@ == view@.fabric.zones[i as int]);
        out.push((cat2(z.block().as_str(), ".0.0/16"), view.identity_addr(z)));
        i = i + 1;
    }
    assert(crate::model::pairs(out@) =~= prefsrc(view@));
    out
}

} // verus!
