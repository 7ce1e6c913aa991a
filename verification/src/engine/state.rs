//! The engine's state document, distilled from the providers' operational trees and from this
//! member's own configuration tree.

use vstd::prelude::*;

use crate::ipv4::{dotted, Ipv4Addr};
use crate::json::read::json_parsed;
use crate::json::{lemma_arr, lemma_models_push, models, same_value, Json, JsonV};
use crate::text::{chars_of, rsplit_once, split_at_last, str_eq};

pub mod reading;

verus! {

// ---- paths through a tree ----

/// The protocols of a tree.
pub open spec fn protocols(tree: JsonV) -> Seq<JsonV> {
    tree.at("ietf-routing:routing"@).at("control-plane-protocols"@).at(
        "control-plane-protocol"@,
    ).items()
}

/// The entries of a list inside a container.
pub open spec fn entries_in(v: JsonV, container: Seq<char>, entry: Seq<char>) -> Seq<JsonV> {
    v.at(container).at(entry).items()
}

/// What stands behind the last colon of a value: a name without the module that it may carry.
pub open spec fn local_name(v: JsonV) -> Option<Seq<char>> {
    match v.text() {
        Some(s) => match rsplit_once(s, ':') {
            Some(p) => Some(p.1),
            None => Some(s),
        },
        None => None,
    }
}

/// A text, or null.
pub open spec fn text_or_null(s: Option<Seq<char>>) -> JsonV {
    match s {
        Some(t) => JsonV::Str(t),
        None => JsonV::Null,
    }
}

/// The first of the values from `i` on that has this name, or their number.
pub open spec fn named_from(v: Seq<JsonV>, name: Seq<char>, i: int) -> int
    decreases v.len() - i,
{
    if i >= v.len() {
        v.len() as int
    } else if v[i].at("name"@) == JsonV::Str(name) {
        i
    } else {
        named_from(v, name, i + 1)
    }
}

// ---- one OSPF instance ----

/// The configured interfaces of the first `n` areas.
pub open spec fn configured(areas: Seq<JsonV>, n: int) -> Seq<JsonV>
    decreases n,
{
    if n <= 0 {
        seq![]
    } else {
        configured(areas, n - 1) + entries_in(areas[n - 1], "interfaces"@, "interface"@)
    }
}

pub open spec fn configured_ifs(cfg: Option<JsonV>) -> Seq<JsonV> {
    match cfg {
        Some(c) => {
            let a = entries_in(c.at("ietf-ospf:ospf"@), "areas"@, "area"@);
            configured(a, a.len() as int)
        },
        None => seq![],
    }
}

pub open spec fn neighbor_entry(n: JsonV) -> JsonV {
    JsonV::empty().with("router_id"@, n.at("neighbor-router-id"@)).with(
        "addr"@,
        n.at("address"@),
    ).with("state"@, n.at("state"@))
}

pub open spec fn neighbor_entries(v: Seq<JsonV>, n: int) -> Seq<JsonV>
    decreases n,
{
    if n <= 0 {
        seq![]
    } else {
        neighbor_entries(v, n - 1).push(neighbor_entry(v[n - 1]))
    }
}

/// One interface: its state, its neighbors, and what the configuration says of its cost and of
/// its being passive.
pub open spec fn interface_entry(i: JsonV, name: Seq<char>, cfg_ifs: Seq<JsonV>) -> JsonV {
    let k = named_from(cfg_ifs, name, 0);
    let nbrs = entries_in(i, "neighbors"@, "neighbor"@);
    JsonV::empty().with("state"@, i.at("state"@)).with(
        "cost"@,
        if k < cfg_ifs.len() {
            cfg_ifs[k].at("cost"@)
        } else {
            JsonV::Null
        },
    ).with(
        "passive"@,
        JsonV::Bool(k < cfg_ifs.len() && cfg_ifs[k].at("passive"@) == JsonV::Bool(true)),
    ).with("neighbors"@, JsonV::Arr(neighbor_entries(nbrs, nbrs.len() as int)))
}

/// The interfaces so far, with the first `n` of an area.
pub open spec fn with_interfaces(
    base: JsonV,
    ifs: Seq<JsonV>,
    cfg_ifs: Seq<JsonV>,
    n: int,
) -> JsonV
    decreases n,
{
    if n <= 0 {
        base
    } else {
        let b = with_interfaces(base, ifs, cfg_ifs, n - 1);
        match ifs[n - 1].at("name"@).text() {
            Some(name) => b.set(name, interface_entry(ifs[n - 1], name, cfg_ifs)),
            None => b,
        }
    }
}

pub open spec fn all_interfaces(areas: Seq<JsonV>, cfg_ifs: Seq<JsonV>, n: int) -> JsonV
    decreases n,
{
    if n <= 0 {
        JsonV::empty()
    } else {
        let ifs = entries_in(areas[n - 1], "interfaces"@, "interface"@);
        with_interfaces(all_interfaces(areas, cfg_ifs, n - 1), ifs, cfg_ifs, ifs.len() as int)
    }
}

/// One link of our own router advertisement; its metric is that of its first topology.
pub open spec fn link_entry(link: JsonV) -> JsonV {
    let t = entries_in(link, "topologies"@, "topology"@);
    JsonV::empty().with("if"@, link.at("link-data"@)).with("link_id"@, link.at("link-id"@)).with(
        "type"@,
        text_or_null(local_name(link.at("type"@))),
    ).with(
        "metric"@,
        if t.len() > 0 {
            t[0].at("metric"@)
        } else {
            JsonV::Null
        },
    )
}

pub open spec fn link_entries(links: Seq<JsonV>, n: int) -> Seq<JsonV>
    decreases n,
{
    if n <= 0 {
        seq![]
    } else {
        link_entries(links, n - 1).push(link_entry(links[n - 1]))
    }
}

/// Is this our own router advertisement?
pub open spec fn own_router_lsa(lsa: JsonV, router_id: JsonV) -> bool {
    let hdr = lsa.at("ospfv2"@).at("header"@);
    local_name(hdr.at("type"@)) == Some("ospfv2-router-lsa"@) && same_value(
        hdr.at("adv-router"@),
        router_id,
    )
}

pub open spec fn lsa_links(lsa: JsonV, router_id: JsonV) -> Seq<JsonV> {
    let links = entries_in(lsa.at("ospfv2"@).at("body"@).at("router"@), "links"@, "link"@);
    if own_router_lsa(lsa, router_id) {
        link_entries(links, links.len() as int)
    } else {
        seq![]
    }
}

pub open spec fn lsas_links(lsas: Seq<JsonV>, router_id: JsonV, n: int) -> Seq<JsonV>
    decreases n,
{
    if n <= 0 {
        seq![]
    } else {
        lsas_links(lsas, router_id, n - 1) + lsa_links(lsas[n - 1], router_id)
    }
}

pub open spec fn types_links(types: Seq<JsonV>, router_id: JsonV, n: int) -> Seq<JsonV>
    decreases n,
{
    if n <= 0 {
        seq![]
    } else {
        let l = entries_in(types[n - 1], "area-scope-lsas"@, "area-scope-lsa"@);
        types_links(types, router_id, n - 1) + lsas_links(l, router_id, l.len() as int)
    }
}

/// The links that the first `n` areas hold of our own advertisements.
pub open spec fn areas_links(areas: Seq<JsonV>, router_id: JsonV, n: int) -> Seq<JsonV>
    decreases n,
{
    if n <= 0 {
        seq![]
    } else {
        let t = entries_in(areas[n - 1], "database"@, "area-scope-lsa-type"@);
        areas_links(areas, router_id, n - 1) + types_links(t, router_id, t.len() as int)
    }
}

pub open spec fn ospf_entry(proto: JsonV, cfg: Option<JsonV>) -> JsonV {
    let ospf = proto.at("ietf-ospf:ospf"@);
    let id = ospf.at("router-id"@);
    let areas = entries_in(ospf, "areas"@, "area"@);
    let n = areas.len() as int;
    JsonV::empty().with("router_id"@, id).with(
        "interfaces"@,
        all_interfaces(areas, configured_ifs(cfg), n),
    ).with("self_lsa_links"@, JsonV::Arr(areas_links(areas, id, n)))
}

// ---- the sessions ----

pub open spec fn lower_char(c: char) -> char {
    if 'A' <= c && c <= 'Z' {
        ((c as u32 + 32) as u32) as char
    } else {
        c
    }
}

/// The text in lower case, as far as it is ASCII.
pub open spec fn lower(s: Seq<char>) -> Seq<char> {
    Seq::new(s.len(), |i: int| lower_char(s[i]))
}

pub open spec fn bfd_state(s: Option<Seq<char>>) -> JsonV {
    match s {
        Some(t) => if t == "adminDown"@ {
            JsonV::Str("admin-down"@)
        } else {
            JsonV::Str(lower(t))
        },
        None => JsonV::Null,
    }
}

pub open spec fn bfd_entry(s: JsonV) -> JsonV {
    let run = s.at("session-running"@);
    JsonV::empty().with("local"@, s.at("source-addr"@)).with("peer"@, s.at("dest-addr"@)).with(
        "if"@,
        s.at("interface"@),
    ).with("state"@, bfd_state(local_name(run.at("local-state"@)))).with(
        "rx_us"@,
        run.at("negotiated-rx-interval"@),
    ).with("tx_us"@, run.at("negotiated-tx-interval"@)).with("mult"@, s.at("remote-multiplier"@))
}

/// The sessions of a BFD protocol.
pub open spec fn bfd_list(p: JsonV) -> Seq<JsonV> {
    entries_in(p.at("ietf-bfd:bfd"@).at("ietf-bfd-ip-sh:ip-sh"@), "sessions"@, "session"@)
}

pub open spec fn bfd_entries(s: Seq<JsonV>, n: int) -> Seq<JsonV>
    decreases n,
{
    if n <= 0 {
        seq![]
    } else {
        bfd_entries(s, n - 1).push(bfd_entry(s[n - 1]))
    }
}

/// The word for a session's state. A state that is not in the table passes unchanged.
pub open spec fn bgp_state(s: Option<Seq<char>>) -> JsonV {
    match s {
        Some(t) => JsonV::Str(
            if t == "idle"@ {
                "Idle"@
            } else if t == "connect"@ {
                "Connect"@
            } else if t == "active"@ {
                "Active"@
            } else if t == "opensent"@ {
                "OpenSent"@
            } else if t == "openconfirm"@ {
                "OpenConfirm"@
            } else if t == "established"@ {
                "Established"@
            } else {
                t
            },
        ),
        None => JsonV::Null,
    }
}

/// The first address family from `i` on that is IPv4 unicast, or their number.
pub open spec fn ipv4_from(a: Seq<JsonV>, i: int) -> int
    decreases a.len() - i,
{
    if i >= a.len() {
        a.len() as int
    } else if local_name(a[i].at("name"@)) == Some("ipv4-unicast"@) {
        i
    } else {
        ipv4_from(a, i + 1)
    }
}

/// A prefix counter of a neighbor: nothing where the family is not there.
pub open spec fn prefix_count(n: JsonV, key: Seq<char>) -> u64 {
    let a = entries_in(n, "afi-safis"@, "afi-safi"@);
    let k = ipv4_from(a, 0);
    if k < a.len() && a[k].at("prefixes"@).at(key) is Uint {
        a[k].at("prefixes"@).at(key)->Uint_0
    } else {
        0
    }
}

/// A neighbor: what it sent counts as far as it was accepted.
pub open spec fn bgp_entry(n: JsonV) -> JsonV {
    JsonV::empty().with("peer"@, n.at("remote-address"@)).with(
        "state"@,
        bgp_state(local_name(n.at("session-state"@))),
    ).with("pfx_rcd"@, JsonV::Uint(prefix_count(n, "installed"@))).with(
        "pfx_snt"@,
        JsonV::Uint(prefix_count(n, "sent"@)),
    )
}

/// The neighbors of a BGP protocol.
pub open spec fn bgp_list(p: JsonV) -> Seq<JsonV> {
    entries_in(p.at("ietf-bgp:bgp"@), "neighbors"@, "neighbor"@)
}

pub open spec fn bgp_entries(s: Seq<JsonV>, n: int) -> Seq<JsonV>
    decreases n,
{
    if n <= 0 {
        seq![]
    } else {
        bgp_entries(s, n - 1).push(bgp_entry(s[n - 1]))
    }
}

// ---- the document ----

/// The configured instance of this name from `i` on.
pub open spec fn cfg_from(p: Seq<JsonV>, name: Seq<char>, i: int) -> Option<JsonV>
    decreases p.len() - i,
{
    if i >= p.len() {
        None
    } else if p[i].at("type"@) == JsonV::Str("ietf-ospf:ospfv2"@) && p[i].at("name"@)
        == JsonV::Str(name) {
        Some(p[i])
    } else {
        cfg_from(p, name, i + 1)
    }
}

/// The parts of the document, while it is put together.
pub struct PartsV {
    pub ospf: JsonV,
    pub bfd: Seq<JsonV>,
    pub bgp: Seq<JsonV>,
}

/// The parts with one more protocol. What is none of the three kinds is passed over.
pub open spec fn with_protocol(b: PartsV, cfg: JsonV, p: JsonV) -> PartsV {
    let kind = p.at("type"@).text();
    if kind == Some("ietf-ospf:ospfv2"@) {
        match p.at("name"@).text() {
            Some(name) => PartsV {
                ospf: b.ospf.set(name, ospf_entry(p, cfg_from(protocols(cfg), name, 0))),
                ..b
            },
            None => b,
        }
    } else if kind == Some("ietf-bfd-types:bfdv1"@) {
        let s = bfd_list(p);
        PartsV { bfd: b.bfd + bfd_entries(s, s.len() as int), ..b }
    } else if kind == Some("ietf-bgp:bgp"@) {
        let s = bgp_list(p);
        PartsV { bgp: b.bgp + bgp_entries(s, s.len() as int), ..b }
    } else {
        b
    }
}

pub open spec fn with_protocols(b: PartsV, cfg: JsonV, p: Seq<JsonV>, n: int) -> PartsV
    decreases n,
{
    if n <= 0 {
        b
    } else {
        with_protocol(with_protocols(b, cfg, p, n - 1), cfg, p[n - 1])
    }
}

pub open spec fn with_trees(cfg: JsonV, trees: Seq<JsonV>, n: int) -> PartsV
    decreases n,
{
    if n <= 0 {
        PartsV { ospf: JsonV::empty(), bfd: seq![], bgp: seq![] }
    } else {
        let p = protocols(trees[n - 1]);
        with_protocols(with_trees(cfg, trees, n - 1), cfg, p, p.len() as int)
    }
}

pub open spec fn state_document(ready: bool, cfg: JsonV, trees: Seq<JsonV>) -> JsonV {
    let b = with_trees(cfg, trees, trees.len() as int);
    JsonV::empty().with("ready"@, JsonV::Bool(ready)).with("ospf"@, b.ospf).with(
        "bfd"@,
        JsonV::Arr(b.bfd),
    ).with("bgp"@, JsonV::Arr(b.bgp))
}

// ---- reading the document ----

/// The neighbors that the document has on an interface of a zone, where it has the interface.
pub open spec fn neighbors_on(doc: JsonV, zone: Seq<char>, ifname: Seq<char>) -> Option<Seq<JsonV>> {
    match doc.at("ospf"@).at(zone).at("interfaces"@).at(ifname).at("neighbors"@) {
        JsonV::Arr(v) => Some(v),
        _ => None,
    }
}

/// The state of the first neighbor from `i` on with this Router ID, where there is one.
pub open spec fn state_from(nbrs: Seq<JsonV>, rid: Seq<char>, i: int) -> Option<Seq<char>>
    decreases nbrs.len() - i,
{
    if i >= nbrs.len() {
        None
    } else if nbrs[i].at("router_id"@) == JsonV::Str(rid) {
        nbrs[i].at("state"@).text()
    } else {
        state_from(nbrs, rid, i + 1)
    }
}

/// Has the adjacency reached the two-way state, or gone beyond it?
pub open spec fn two_way(state: Option<Seq<char>>) -> bool {
    state == Some("2-way"@) || state == Some("exstart"@) || state == Some("exchange"@) || state
        == Some("loading"@) || state == Some("full"@)
}

/// Is some expected peer at least two-way?
pub open spec fn any_two_way(nbrs: Seq<JsonV>, peers: Seq<u32>) -> bool {
    exists|i: int|
        0 <= i < peers.len() && two_way(state_from(nbrs, dotted(#[trigger] peers[i]), 0))
}

/// Does a document say that every expected peer is below two-way on this interface? Nothing where
/// it does not carry the interface.
pub open spec fn all_below(doc: JsonV, zone: Seq<char>, ifname: Seq<char>, peers: Seq<u32>) -> Option<
    bool,
> {
    match neighbors_on(doc, zone, ifname) {
        Some(n) => Some(!any_two_way(n, peers)),
        None => None,
    }
}

/// The engine's word on an interface, given its reply: nothing where there was no reply, or where
/// the reply is no document.
pub open spec fn engine_word(
    reply: Option<Seq<char>>,
    zone: Seq<char>,
    ifname: Seq<char>,
    peers: Seq<u32>,
) -> Option<bool> {
    match reply {
        Some(t) => match json_parsed(t) {
            Some(doc) => all_below(doc, zone, ifname, peers),
            None => None,
        },
        None => None,
    }
}

// ---- walking a tree ----

/// What a place holds: null where there is nothing.
pub open spec fn held(v: Option<&Json>) -> JsonV {
    match v {
        Some(j) => j@,
        None => JsonV::Null,
    }
}

/// One step down from a place.
fn step<'a>(v: Option<&'a Json>, key: &str) -> (r: Option<&'a Json>)
    ensures
        held(r) == held(v).at(key@),
{
    match v {
        Some(j) => j.get(key),
        None => None,
    }
}

/// The list inside a container.
fn list_in<'a>(v: Option<&'a Json>, container: &str, entry: &str) -> (r: Option<&'a Json>)
    ensures
        held(r).items() == entries_in(held(v), container@, entry@),
{
    step(step(v, container), entry)
}

/// How many values a list has.
fn count(v: Option<&Json>) -> (r: usize)
    ensures
        r == held(v).items().len(),
{
    broadcast use lemma_arr;

    match v {
        Some(Json::Arr(a)) => a.len(),
        _ => 0,
    }
}

/// One value of a list.
fn nth<'a>(v: Option<&'a Json>, i: usize) -> (r: Option<&'a Json>)
    ensures
        r is Some <==> i < held(v).items().len(),
        r is Some ==> held(r) == held(v).items()[i as int],
{
    broadcast use lemma_arr;

    match v {
        Some(Json::Arr(a)) => if i < a.len() {
            Some(&a[i])
        } else {
            None
        },
        _ => None,
    }
}

/// A copy of what a place holds.
fn copied(v: Option<&Json>) -> (r: Json)
    ensures
        r@ == held(v),
{
    match v {
        Some(j) => j.copy(),
        None => Json::Null,
    }
}

fn is_text(v: Option<&Json>, s: &str) -> (r: bool)
    ensures
        r == (held(v) == JsonV::Str(s@)),
{
    match v {
        Some(j) => j.is_str(s),
        None => false,
    }
}

fn text_at<'a>(v: Option<&'a Json>) -> (r: Option<&'a str>)
    ensures
        match r {
            Some(t) => held(v).text() == Some(t@),
            None => held(v).text() is None,
        },
{
    match v {
        Some(j) => j.as_str(),
        None => None,
    }
}

fn protocols_of<'a>(tree: &'a Json) -> (r: Option<&'a Json>)
    ensures
        held(r).items() == protocols(tree@),
{
    let routing = step(Some(tree), "ietf-routing:routing");
    step(step(routing, "control-plane-protocols"), "control-plane-protocol")
}

fn local_name_of(v: Option<&Json>) -> (r: Option<String>)
    ensures
        match r {
            Some(t) => local_name(held(v)) == Some(t@),
            None => local_name(held(v)) is None,
        },
{
    match text_at(v) {
        Some(s) => match split_at_last(s, ':') {
            Some(p) => Some(p.1),
            None => Some(String::from_str(s)),
        },
        None => None,
    }
}

/// Does a value have this name, taken without its module?
fn has_local_name(v: Option<&Json>, name: &str) -> (r: bool)
    ensures
        r == (local_name(held(v)) == Some(name@)),
{
    match local_name_of(v) {
        Some(t) => str_eq(t.as_str(), name),
        None => false,
    }
}

fn text_json(s: Option<String>) -> (r: Json)
    ensures
        r@ == text_or_null(
            match s {
                Some(t) => Some(t@),
                None => None,
            },
        ),
{
    match s {
        Some(t) => Json::Str(t),
        None => Json::Null,
    }
}

// ---- one OSPF instance ----

fn configured_of<'a>(cfg: Option<&'a Json>) -> (r: Vec<&'a Json>)
    ensures
        seen(r@) == configured_ifs(
            match cfg {
                Some(c) => Some(c@),
                None => None,
            },
        ),
{
    let mut out: Vec<&'a Json> = Vec::new();
    assert(seen(out@) =~= seq![]);
    if cfg.is_none() {
        return out;
    }
    let areas = list_in(step(cfg, "ietf-ospf:ospf"), "areas", "area");
    let n = count(areas);
    let mut i: usize = 0;
    while i < n
        invariant
            i <= n,
            n == held(areas).items().len(),
            seen(out@) == configured(held(areas).items(), i as int),
        decreases n - i,
    {
        let ifs = list_in(nth(areas, i), "interfaces", "interface");
        let m = count(ifs);
        let ghost before = seen(out@);
        let mut k: usize = 0;
        while k < m
            invariant
                k <= m,
                m == held(ifs).items().len(),
                seen(out@) == before + held(ifs).items().take(k as int),
            decreases m - k,
        {
            if let Some(x) = nth(ifs, k) {
                let ghost o = out@;
                out.push(x);
                assert(seen(out@) =~= seen(o).push(x@));
                assert(held(ifs).items().take(k + 1) =~= held(ifs).items().take(k as int).push(
                    held(ifs).items()[k as int],
                ));
            }
            k = k + 1;
        }
        assert(held(ifs).items().take(m as int) =~= held(ifs).items());
        i = i + 1;
    }
    out
}

/// What a list of places holds.
pub open spec fn seen(v: Seq<&Json>) -> Seq<JsonV> {
    Seq::new(v.len(), |i: int| v[i]@)
}

/// The first of the values that has this name.
fn named<'a>(v: &Vec<&'a Json>, name: &str) -> (r: Option<&'a Json>)
    ensures
        match r {
            Some(j) => named_from(seen(v@), name@, 0) < v@.len() && j@ == seen(v@)[named_from(
                seen(v@),
                name@,
                0,
            )],
            None => named_from(seen(v@), name@, 0) == v@.len(),
        },
{
    let mut i: usize = 0;
    while i < v.len()
        invariant
            i <= v@.len(),
            named_from(seen(v@), name@, 0) == named_from(seen(v@), name@, i as int),
        decreases v@.len() - i,
    {
        assert(seen(v@)[i as int] == v@[i as int]@);
        if is_text(step(Some(v[i]), "name"), name) {
            return Some(v[i]);
        }
        i = i + 1;
    }
    None
}

fn neighbors_of(i: Option<&Json>) -> (r: Vec<Json>)
    ensures
        models(r@) == neighbor_entries(
            entries_in(held(i), "neighbors"@, "neighbor"@),
            entries_in(held(i), "neighbors"@, "neighbor"@).len() as int,
        ),
{
    broadcast use lemma_models_push;

    let nbrs = list_in(i, "neighbors", "neighbor");
    let n = count(nbrs);
    let mut out: Vec<Json> = Vec::new();
    assert(models(out@) =~= seq![]);
    let mut k: usize = 0;
    while k < n
        invariant
            k <= n,
            n == held(nbrs).items().len(),
            models(out@) == neighbor_entries(held(nbrs).items(), k as int),
        decreases n - k,
    {
        let x = nth(nbrs, k);
        out.push(
            Json::empty().with("router_id", copied(step(x, "neighbor-router-id"))).with(
                "addr",
                copied(step(x, "address")),
            ).with("state", copied(step(x, "state"))),
        );
        k = k + 1;
    }
    out
}

fn interface_of(i: Option<&Json>, name: &str, cfg_ifs: &Vec<&Json>) -> (r: Json)
    ensures
        r@ == interface_entry(held(i), name@, seen(cfg_ifs@)),
{
    broadcast use lemma_arr;

    let (cost, passive) = match named(cfg_ifs, name) {
        Some(c) => (c.at("cost"), c.at("passive").same(&Json::Bool(true))),
        None => (Json::Null, false),
    };
    Json::empty().with("state", copied(step(i, "state"))).with("cost", cost).with(
        "passive",
        Json::Bool(passive),
    ).with("neighbors", Json::Arr(neighbors_of(i)))
}

fn interfaces_of(areas: Option<&Json>, cfg_ifs: &Vec<&Json>) -> (r: Json)
    ensures
        r@ == all_interfaces(
            held(areas).items(),
            seen(cfg_ifs@),
            held(areas).items().len() as int,
        ),
{
    let n = count(areas);
    let mut out = Json::empty();
    let mut k: usize = 0;
    while k < n
        invariant
            k <= n,
            n == held(areas).items().len(),
            out@ == all_interfaces(held(areas).items(), seen(cfg_ifs@), k as int),
        decreases n - k,
    {
        let ifs = list_in(nth(areas, k), "interfaces", "interface");
        let m = count(ifs);
        let ghost base = out@;
        let mut j: usize = 0;
        while j < m
            invariant
                j <= m,
                m == held(ifs).items().len(),
                out@ == with_interfaces(base, held(ifs).items(), seen(cfg_ifs@), j as int),
            decreases m - j,
        {
            let x = nth(ifs, j);
            if let Some(name) = text_at(step(x, "name")) {
                out = out.set(name, interface_of(x, name, cfg_ifs));
            }
            j = j + 1;
        }
        k = k + 1;
    }
    out
}

fn link_of(link: Option<&Json>) -> (r: Json)
    ensures
        r@ == link_entry(held(link)),
{
    let t = list_in(link, "topologies", "topology");
    let metric = copied(step(nth(t, 0), "metric"));
    Json::empty().with("if", copied(step(link, "link-data"))).with(
        "link_id",
        copied(step(link, "link-id")),
    ).with("type", text_json(local_name_of(step(link, "type")))).with("metric", metric)
}

/// Add the links of one advertisement, where it is our own.
fn push_links(lsa: Option<&Json>, router_id: &Json, out: &mut Vec<Json>)
    ensures
        models(final(out)@) == models(old(out)@) + lsa_links(held(lsa), router_id@),
{
    broadcast use lemma_models_push;

    let ghost before = models(out@);
    let hdr = step(step(lsa, "ospfv2"), "header");
    let own = copied(step(hdr, "adv-router")).same(router_id);
    if !has_local_name(step(hdr, "type"), "ospfv2-router-lsa") || !own {
        assert(before + seq![] =~= before);
        return;
    }
    let body = step(step(step(lsa, "ospfv2"), "body"), "router");
    let links = list_in(body, "links", "link");
    let n = count(links);
    let mut k: usize = 0;
    assert(before + seq![] =~= before);
    while k < n
        invariant
            k <= n,
            n == held(links).items().len(),
            models(out@) == before + link_entries(held(links).items(), k as int),
        decreases n - k,
    {
        let x = link_of(nth(links, k));
        out.push(x);
        proof {
            let e = link_entries(held(links).items(), k as int);
            assert((before + e).push(x@) =~= before + e.push(x@));
        }
        k = k + 1;
    }
}

fn links_of(areas: Option<&Json>, router_id: &Json) -> (r: Vec<Json>)
    ensures
        models(r@) == areas_links(
            held(areas).items(),
            router_id@,
            held(areas).items().len() as int,
        ),
{
    let n = count(areas);
    let mut out: Vec<Json> = Vec::new();
    assert(models(out@) =~= seq![]);
    let mut k: usize = 0;
    while k < n
        invariant
            k <= n,
            n == held(areas).items().len(),
            models(out@) == areas_links(held(areas).items(), router_id@, k as int),
        decreases n - k,
    {
        let types = list_in(nth(areas, k), "database", "area-scope-lsa-type");
        let m = count(types);
        let ghost b0 = models(out@);
        let mut t: usize = 0;
        assert(b0 + seq![] =~= b0);
        while t < m
            invariant
                t <= m,
                m == held(types).items().len(),
                models(out@) == b0 + types_links(held(types).items(), router_id@, t as int),
            decreases m - t,
        {
            let lsas = list_in(nth(types, t), "area-scope-lsas", "area-scope-lsa");
            let p = count(lsas);
            let ghost b1 = models(out@);
            let mut l: usize = 0;
            assert(b1 + seq![] =~= b1);
            while l < p
                invariant
                    l <= p,
                    p == held(lsas).items().len(),
                    models(out@) == b1 + lsas_links(held(lsas).items(), router_id@, l as int),
                decreases p - l,
            {
                let ghost e = lsas_links(held(lsas).items(), router_id@, l as int);
                let x = nth(lsas, l);
                push_links(x, router_id, &mut out);
                assert((b1 + e) + lsa_links(held(x), router_id@) =~= b1 + (e + lsa_links(
                    held(x),
                    router_id@,
                )));
                l = l + 1;
            }
            proof {
                let e = types_links(held(types).items(), router_id@, t as int);
                let f = lsas_links(held(lsas).items(), router_id@, p as int);
                assert((b0 + e) + f =~= b0 + (e + f));
            }
            t = t + 1;
        }
        k = k + 1;
    }
    out
}

fn ospf_instance(proto: Option<&Json>, cfg: Option<&Json>) -> (r: Json)
    ensures
        r@ == ospf_entry(
            held(proto),
            match cfg {
                Some(c) => Some(c@),
                None => None,
            },
        ),
{
    broadcast use lemma_arr;

    let ospf = step(proto, "ietf-ospf:ospf");
    let router_id = copied(step(ospf, "router-id"));
    let cfg_ifs = configured_of(cfg);
    let areas = list_in(ospf, "areas", "area");
    let interfaces = interfaces_of(areas, &cfg_ifs);
    let links = links_of(areas, &router_id);
    Json::empty().with("router_id", router_id).with("interfaces", interfaces).with(
        "self_lsa_links",
        Json::Arr(links),
    )
}

// ---- the sessions ----

fn lowered(s: &str) -> (r: String)
    ensures
        r@ == lower(s@),
{
    let v = chars_of(s);
    let mut out = String::new();
    let mut i: usize = 0;
    while i < v.len()
        invariant
            i <= v@.len(),
            v@ == s@,
            out@ == lower(s@).take(i as int),
        decreases v@.len() - i,
    {
        let c = v[i];
        if 'A' <= c && c <= 'Z' {
            let n: u8 = c as u8;
            out.push((n + 32) as char);
        } else {
            out.push(c);
        }
        assert(lower(s@).take(i + 1) =~= lower(s@).take(i as int).push(lower(s@)[i as int]));
        i = i + 1;
    }
    assert(lower(s@).take(v@.len() as int) =~= lower(s@));
    out
}

fn bfd_state_of(v: Option<&Json>) -> (r: Json)
    ensures
        r@ == bfd_state(local_name(held(v))),
{
    match local_name_of(v) {
        Some(t) => if str_eq(t.as_str(), "adminDown") {
            Json::str("admin-down")
        } else {
            Json::Str(lowered(t.as_str()))
        },
        None => Json::Null,
    }
}

/// Add the sessions of a BFD protocol.
fn push_bfd(proto: Option<&Json>, out: &mut Vec<Json>)
    ensures
        models(final(out)@) == models(old(out)@) + bfd_entries(
            bfd_list(held(proto)),
            bfd_list(held(proto)).len() as int,
        ),
{
    broadcast use lemma_models_push;

    let ghost before = models(out@);
    let ip = step(step(proto, "ietf-bfd:bfd"), "ietf-bfd-ip-sh:ip-sh");
    let list = list_in(ip, "sessions", "session");
    let n = count(list);
    let mut k: usize = 0;
    assert(before + seq![] =~= before);
    while k < n
        invariant
            k <= n,
            n == held(list).items().len(),
            models(out@) == before + bfd_entries(held(list).items(), k as int),
        decreases n - k,
    {
        let s = nth(list, k);
        let run = step(s, "session-running");
        let x = Json::empty().with("local", copied(step(s, "source-addr"))).with(
            "peer",
            copied(step(s, "dest-addr")),
        ).with("if", copied(step(s, "interface"))).with(
            "state",
            bfd_state_of(step(run, "local-state")),
        ).with("rx_us", copied(step(run, "negotiated-rx-interval"))).with(
            "tx_us",
            copied(step(run, "negotiated-tx-interval")),
        ).with("mult", copied(step(s, "remote-multiplier")));
        out.push(x);
        proof {
            let e = bfd_entries(held(list).items(), k as int);
            assert((before + e).push(x@) =~= before + e.push(x@));
        }
        k = k + 1;
    }
}

fn bgp_state_of(v: Option<&Json>) -> (r: Json)
    ensures
        r@ == bgp_state(local_name(held(v))),
{
    match local_name_of(v) {
        Some(t) => {
            let s = t.as_str();
            if str_eq(s, "idle") {
                Json::str("Idle")
            } else if str_eq(s, "connect") {
                Json::str("Connect")
            } else if str_eq(s, "active") {
                Json::str("Active")
            } else if str_eq(s, "opensent") {
                Json::str("OpenSent")
            } else if str_eq(s, "openconfirm") {
                Json::str("OpenConfirm")
            } else if str_eq(s, "established") {
                Json::str("Established")
            } else {
                Json::Str(t)
            }
        },
        None => Json::Null,
    }
}

/// The counters of the IPv4 unicast family of a neighbor.
fn prefixes_of<'a>(n: Option<&'a Json>) -> (r: Option<&'a Json>)
    ensures
        forall|key: Seq<char>|
            prefix_count(held(n), key) == (if (#[trigger] held(r).at(key)) is Uint {
                held(r).at(key)->Uint_0
            } else {
                0
            }),
{
    let a = list_in(n, "afi-safis", "afi-safi");
    let m = count(a);
    let mut i: usize = 0;
    while i < m
        invariant
            i <= m,
            m == held(a).items().len(),
            held(a).items() == entries_in(held(n), "afi-safis"@, "afi-safi"@),
            ipv4_from(held(a).items(), 0) == ipv4_from(held(a).items(), i as int),
        decreases m - i,
    {
        let x = nth(a, i);
        if has_local_name(step(x, "name"), "ipv4-unicast") {
            return step(x, "prefixes");
        }
        i = i + 1;
    }
    None
}

fn number_at(v: Option<&Json>, key: &str) -> (r: u64)
    ensures
        r == (if held(v).at(key@) is Uint {
            held(v).at(key@)->Uint_0
        } else {
            0
        }),
{
    match step(v, key) {
        Some(j) => match j.as_u64() {
            Some(n) => n,
            None => 0,
        },
        None => 0,
    }
}

/// Add the neighbors of a BGP protocol.
fn push_bgp(proto: Option<&Json>, out: &mut Vec<Json>)
    ensures
        models(final(out)@) == models(old(out)@) + bgp_entries(
            bgp_list(held(proto)),
            bgp_list(held(proto)).len() as int,
        ),
{
    broadcast use lemma_models_push;

    let ghost before = models(out@);
    let list = list_in(step(proto, "ietf-bgp:bgp"), "neighbors", "neighbor");
    let n = count(list);
    let mut k: usize = 0;
    assert(before + seq![] =~= before);
    while k < n
        invariant
            k <= n,
            n == held(list).items().len(),
            models(out@) == before + bgp_entries(held(list).items(), k as int),
        decreases n - k,
    {
        let s = nth(list, k);
        let p = prefixes_of(s);
        let x = Json::empty().with("peer", copied(step(s, "remote-address"))).with(
            "state",
            bgp_state_of(step(s, "session-state")),
        ).with("pfx_rcd", Json::Uint(number_at(p, "installed"))).with(
            "pfx_snt",
            Json::Uint(number_at(p, "sent")),
        );
        out.push(x);
        proof {
            let e = bgp_entries(held(list).items(), k as int);
            assert((before + e).push(x@) =~= before + e.push(x@));
        }
        k = k + 1;
    }
}

// ---- the document ----

fn cfg_instance<'a>(cfg: &'a Json, name: &str) -> (r: Option<&'a Json>)
    ensures
        match r {
            Some(j) => cfg_from(protocols(cfg@), name@, 0) == Some(j@),
            None => cfg_from(protocols(cfg@), name@, 0) is None,
        },
{
    let p = protocols_of(cfg);
    let n = count(p);
    let mut i: usize = 0;
    while i < n
        invariant
            i <= n,
            n == held(p).items().len(),
            held(p).items() == protocols(cfg@),
            cfg_from(protocols(cfg@), name@, 0) == cfg_from(protocols(cfg@), name@, i as int),
        decreases n - i,
    {
        let x = nth(p, i);
        if is_text(step(x, "type"), "ietf-ospf:ospfv2") && is_text(step(x, "name"), name) {
            return x;
        }
        i = i + 1;
    }
    None
}

struct Parts {
    ospf: Json,
    bfd: Vec<Json>,
    bgp: Vec<Json>,
}

impl View for Parts {
    type V = PartsV;

    closed spec fn view(&self) -> PartsV {
        PartsV { ospf: self.ospf@, bfd: models(self.bfd@), bgp: models(self.bgp@) }
    }
}

fn add_protocol(b: Parts, cfg: &Json, p: Option<&Json>) -> (r: Parts)
    ensures
        r@ == with_protocol(b@, cfg@, held(p)),
{
    let mut b = b;
    if let Some(kind) = text_at(step(p, "type")) {
        if str_eq(kind, "ietf-ospf:ospfv2") {
            if let Some(name) = text_at(step(p, "name")) {
                let c = cfg_instance(cfg, name);
                b.ospf = b.ospf.set(name, ospf_instance(p, c));
            }
        } else if str_eq(kind, "ietf-bfd-types:bfdv1") {
            push_bfd(p, &mut b.bfd);
        } else if str_eq(kind, "ietf-bgp:bgp") {
            push_bgp(p, &mut b.bgp);
        }
    }
    b
}

/// The document that `status` and `up` read. `cfg` is the configuration tree, which knows cost
/// and passive of each OSPF interface; the trees are the providers' operational ones.
pub fn document(ready: bool, cfg: &Json, state_trees: &Vec<Json>) -> (r: Json)
    ensures
        r@ == state_document(ready, cfg@, models(state_trees@)),
{
    broadcast use lemma_arr;

    let mut b = Parts { ospf: Json::empty(), bfd: Vec::new(), bgp: Vec::new() };
    assert(models(b.bfd@) =~= seq![]);
    assert(models(b.bgp@) =~= seq![]);
    let mut i: usize = 0;
    while i < state_trees.len()
        invariant
            i <= state_trees@.len(),
            b@ == with_trees(cfg@, models(state_trees@), i as int),
        decreases state_trees@.len() - i,
    {
        assert(models(state_trees@)[i as int] == state_trees@[i as int]@);
        let p = protocols_of(&state_trees[i]);
        let n = count(p);
        let ghost base = b@;
        let mut k: usize = 0;
        while k < n
            invariant
                k <= n,
                n == held(p).items().len(),
                b@ == with_protocols(base, cfg@, held(p).items(), k as int),
            decreases n - k,
        {
            b = add_protocol(b, cfg, nth(p, k));
            k = k + 1;
        }
        i = i + 1;
    }
    Json::empty().with("ready", Json::Bool(ready)).with("ospf", b.ospf).with(
        "bfd",
        Json::Arr(b.bfd),
    ).with("bgp", Json::Arr(b.bgp))
}

// ---- reading the document ----

/// The neighbors that a document has on an interface of a zone, where it has the interface.
pub fn ospf_neighbors<'a>(doc: &'a Json, zone: &str, ifname: &str) -> (r: Option<&'a Vec<Json>>)
    ensures
        match r {
            Some(v) => neighbors_on(doc@, zone@, ifname@) == Some(models(v@)),
            None => neighbors_on(doc@, zone@, ifname@) is None,
        },
{
    broadcast use lemma_arr;

    let z = step(step(Some(doc), "ospf"), zone);
    match step(step(step(z, "interfaces"), ifname), "neighbors") {
        Some(Json::Arr(v)) => Some(v),
        _ => None,
    }
}

/// The state of the first neighbor with this Router ID, where there is one.
pub fn neighbor_state<'a>(nbrs: &'a Vec<Json>, rid: &str) -> (r: Option<&'a str>)
    ensures
        match r {
            Some(t) => state_from(models(nbrs@), rid@, 0) == Some(t@),
            None => state_from(models(nbrs@), rid@, 0) is None,
        },
{
    let mut i: usize = 0;
    while i < nbrs.len()
        invariant
            i <= nbrs@.len(),
            state_from(models(nbrs@), rid@, 0) == state_from(models(nbrs@), rid@, i as int),
        decreases nbrs@.len() - i,
    {
        assert(models(nbrs@)[i as int] == nbrs@[i as int]@);
        let x = Some(&nbrs[i]);
        if is_text(step(x, "router_id"), rid) {
            return text_at(step(x, "state"));
        }
        i = i + 1;
    }
    None
}

/// Is this the two-way state, or one beyond it?
pub fn at_least_two_way(state: &str) -> (r: bool)
    ensures
        r == two_way(Some(state@)),
{
    str_eq(state, "2-way") || str_eq(state, "exstart") || str_eq(state, "exchange") || str_eq(
        state,
        "loading",
    ) || str_eq(state, "full")
}

/// Is every expected peer below two-way on this interface? Nothing where the document does not
/// carry the interface.
pub fn all_below_two_way(doc: &Json, zone: &str, ifname: &str, peers: &Vec<u32>) -> (r: Option<
    bool,
>)
    ensures
        r == all_below(doc@, zone@, ifname@, peers@),
{
    match ospf_neighbors(doc, zone, ifname) {
        Some(nbrs) => {
            let mut i: usize = 0;
            while i < peers.len()
                invariant
                    i <= peers@.len(),
                    forall|j: int|
                        0 <= j < i ==> !two_way(
                            state_from(models(nbrs@), dotted(#[trigger] peers@[j]), 0),
                        ),
                    neighbors_on(doc@, zone@, ifname@) == Some(models(nbrs@)),
                decreases peers@.len() - i,
            {
                let rid = Ipv4Addr { bits: peers[i] }.to_string();
                if let Some(s) = neighbor_state(nbrs, rid.as_str()) {
                    if at_least_two_way(s) {
                        return Some(false);
                    }
                }
                i = i + 1;
            }
            Some(true)
        },
        None => None,
    }
}

/// The engine's word on an interface, given its reply.
pub fn peers_all_below_two_way(
    reply: Option<&str>,
    zone: &str,
    ifname: &str,
    peers: &Vec<u32>,
) -> (r: Option<bool>)
    ensures
        r == engine_word(
            match reply {
                Some(t) => Some(t@),
                None => None,
            },
            zone@,
            ifname@,
            peers@,
        ),
{
    match reply {
        Some(t) => match Json::parse(t) {
            Some(doc) => all_below_two_way(&doc, zone, ifname, peers),
            None => None,
        },
        None => None,
    }
}

} // verus!
