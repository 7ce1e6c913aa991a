//! What the state document says, read by its keys.

use vstd::prelude::*;

use crate::engine::state::{
    all_below, all_interfaces, areas_links, bfd_entries, bfd_entry, bfd_list, bfd_state,
    bgp_entries, bgp_entry, bgp_list, bgp_state, cfg_from, configured, configured_ifs, engine_word,
    interface_entry, ipv4_from, link_entries, link_entry, local_name, lsa_links, lsas_links,
    named_from, neighbor_entries, neighbor_entry, neighbors_on, ospf_entry, prefix_count,
    state_document, state_from, two_way, types_links, with_interfaces, with_protocol,
    with_protocols, with_trees, PartsV,
};
use crate::ipv4::dotted;
use crate::json::keys::{lemma_found_under_its_key, lemma_put_and_found};
use crate::json::{same_value, JsonV};
use crate::text::reading::lemma_cut_at_the_last;

verus! {

/// The name in a value is what stands behind the last colon, or all of it where there is none;
/// what is no text has none.
pub proof fn lemma_a_local_name(module: Seq<char>, name: Seq<char>, v: JsonV)
    requires
        !name.contains(':'),
        !(v is Str),
    ensures
        local_name(JsonV::Str(module + seq![':'] + name)) == Some(name),
        local_name(JsonV::Str(name)) == Some(name),
        local_name(v) is None,
{
    lemma_cut_at_the_last(module, ':', name);
}

/// A neighbor is reported by its Router ID, its address and its state.
pub proof fn lemma_a_neighbor(n: JsonV)
    ensures
        neighbor_entry(n).at("router_id"@) == n.at("neighbor-router-id"@),
        neighbor_entry(n).at("addr"@) == n.at("address"@),
        neighbor_entry(n).at("state"@) == n.at("state"@),
{
    let e = neighbor_entry(n)->Obj_0;
    reveal_strlit("router_id");
    assert("router_id"@.len() == 9);
    reveal_strlit("addr");
    assert("addr"@.len() == 4);
    reveal_strlit("state");
    assert("state"@.len() == 5);
    lemma_found_under_its_key(e, 0);
    lemma_found_under_its_key(e, 1);
    lemma_found_under_its_key(e, 2);
}

proof fn lemma_neighbors(v: Seq<JsonV>, n: int)
    requires
        0 <= n <= v.len(),
    ensures
        neighbor_entries(v, n).len() == n,
        forall|k: int| 0 <= k < n ==> #[trigger] neighbor_entries(v, n)[k] == neighbor_entry(v[k]),
    decreases n,
{
    if n > 0 {
        lemma_neighbors(v, n - 1);
    }
}

proof fn lemma_named(v: Seq<JsonV>, name: Seq<char>, i: int, k: int)
    requires
        0 <= i <= k <= v.len(),
        forall|j: int| i <= j < k ==> (#[trigger] v[j]).at("name"@) != JsonV::Str(name),
        k < v.len() ==> v[k].at("name"@) == JsonV::Str(name),
    ensures
        named_from(v, name, i) == k,
    decreases k - i,
{
    if i < k {
        lemma_named(v, name, i + 1, k);
    }
}

/// An interface is reported with its state and all its neighbors in their order, and with the cost
/// and the passiveness that the configuration has under its name: without a cost, and as active,
/// where it has none.
pub proof fn lemma_an_interface(i: JsonV, name: Seq<char>, cfg_ifs: Seq<JsonV>, k: int)
    requires
        0 <= k <= cfg_ifs.len(),
        forall|j: int| 0 <= j < k ==> (#[trigger] cfg_ifs[j]).at("name"@) != JsonV::Str(name),
        k < cfg_ifs.len() ==> cfg_ifs[k].at("name"@) == JsonV::Str(name),
    ensures
        interface_entry(i, name, cfg_ifs).at("state"@) == i.at("state"@),
        interface_entry(i, name, cfg_ifs).at("cost"@) == if k < cfg_ifs.len() {
            cfg_ifs[k].at("cost"@)
        } else {
            JsonV::Null
        },
        interface_entry(i, name, cfg_ifs).at("passive"@) == JsonV::Bool(
            k < cfg_ifs.len() && cfg_ifs[k].at("passive"@) == JsonV::Bool(true),
        ),
        ({
            let got = interface_entry(i, name, cfg_ifs).at("neighbors"@).items();
            let had = i.at("neighbors"@).at("neighbor"@).items();
            &&& got.len() == had.len()
            &&& forall|j: int| 0 <= j < had.len() ==> #[trigger] got[j] == neighbor_entry(had[j])
        }),
{
    let e = interface_entry(i, name, cfg_ifs)->Obj_0;
    reveal_strlit("state");
    assert("state"@.len() == 5);
    reveal_strlit("cost");
    assert("cost"@.len() == 4);
    reveal_strlit("passive");
    assert("passive"@.len() == 7);
    reveal_strlit("neighbors");
    assert("neighbors"@.len() == 9);
    lemma_found_under_its_key(e, 0);
    lemma_found_under_its_key(e, 1);
    lemma_found_under_its_key(e, 2);
    lemma_found_under_its_key(e, 3);
    lemma_named(cfg_ifs, name, 0, k);
    let had = i.at("neighbors"@).at("neighbor"@).items();
    lemma_neighbors(had, had.len() as int);
}

/// A link of an advertisement is reported by its data, its id, its type, and the metric of its
/// first topology.
pub proof fn lemma_a_link(link: JsonV)
    ensures
        link_entry(link).at("if"@) == link.at("link-data"@),
        link_entry(link).at("link_id"@) == link.at("link-id"@),
        link_entry(link).at("type"@) == match local_name(link.at("type"@)) {
            Some(t) => JsonV::Str(t),
            None => JsonV::Null,
        },
        link_entry(link).at("metric"@) == if link.at("topologies"@).at("topology"@).items().len() > 0 {
            link.at("topologies"@).at("topology"@).items()[0].at("metric"@)
        } else {
            JsonV::Null
        },
{
    let e = link_entry(link)->Obj_0;
    reveal_strlit("if");
    assert("if"@.len() == 2);
    reveal_strlit("link_id");
    assert("link_id"@.len() == 7);
    reveal_strlit("type");
    assert("type"@.len() == 4);
    reveal_strlit("metric");
    assert("metric"@.len() == 6);
    lemma_found_under_its_key(e, 0);
    lemma_found_under_its_key(e, 1);
    lemma_found_under_its_key(e, 2);
    lemma_found_under_its_key(e, 3);
}

/// A BFD session is reported by its ends, its interface, its own state, and what was negotiated.
pub proof fn lemma_a_bfd_session(s: JsonV)
    ensures
        bfd_entry(s).at("local"@) == s.at("source-addr"@),
        bfd_entry(s).at("peer"@) == s.at("dest-addr"@),
        bfd_entry(s).at("if"@) == s.at("interface"@),
        bfd_entry(s).at("state"@) == bfd_state(local_name(s.at("session-running"@).at("local-state"@))),
        bfd_entry(s).at("rx_us"@) == s.at("session-running"@).at("negotiated-rx-interval"@),
        bfd_entry(s).at("tx_us"@) == s.at("session-running"@).at("negotiated-tx-interval"@),
        bfd_entry(s).at("mult"@) == s.at("remote-multiplier"@),
{
    let e = bfd_entry(s)->Obj_0;
    reveal_strlit("local");
    assert("local"@.len() == 5);
    reveal_strlit("peer");
    assert("peer"@.len() == 4);
    reveal_strlit("if");
    assert("if"@.len() == 2);
    reveal_strlit("state");
    assert("state"@.len() == 5);
    reveal_strlit("rx_us");
    assert("rx_us"@.len() == 5);
    reveal_strlit("tx_us");
    assert("tx_us"@.len() == 5);
    reveal_strlit("mult");
    assert("mult"@.len() == 4);
    assert("state"@[0] != "local"@[0]);
    assert("rx_us"@[0] != "local"@[0]);
    assert("rx_us"@[0] != "state"@[0]);
    assert("tx_us"@[0] != "local"@[0]);
    assert("tx_us"@[0] != "state"@[0]);
    assert("tx_us"@[0] != "rx_us"@[0]);
    assert("mult"@[0] != "peer"@[0]);
    lemma_found_under_its_key(e, 0);
    lemma_found_under_its_key(e, 1);
    lemma_found_under_its_key(e, 2);
    lemma_found_under_its_key(e, 3);
    lemma_found_under_its_key(e, 4);
    lemma_found_under_its_key(e, 5);
    lemma_found_under_its_key(e, 6);
}

/// A BGP session is reported by its peer and its state, and by how many prefixes were installed
/// and how many were sent.
pub proof fn lemma_a_bgp_session(n: JsonV)
    ensures
        bgp_entry(n).at("peer"@) == n.at("remote-address"@),
        bgp_entry(n).at("state"@) == bgp_state(local_name(n.at("session-state"@))),
        bgp_entry(n).at("pfx_rcd"@) == JsonV::Uint(prefix_count(n, "installed"@)),
        bgp_entry(n).at("pfx_snt"@) == JsonV::Uint(prefix_count(n, "sent"@)),
{
    let e = bgp_entry(n)->Obj_0;
    reveal_strlit("peer");
    assert("peer"@.len() == 4);
    reveal_strlit("state");
    assert("state"@.len() == 5);
    reveal_strlit("pfx_rcd");
    assert("pfx_rcd"@.len() == 7);
    reveal_strlit("pfx_snt");
    assert("pfx_snt"@.len() == 7);
    assert("pfx_snt"@[4] != "pfx_rcd"@[4]);
    lemma_found_under_its_key(e, 0);
    lemma_found_under_its_key(e, 1);
    lemma_found_under_its_key(e, 2);
    lemma_found_under_its_key(e, 3);
}

proof fn lemma_ipv4(a: Seq<JsonV>, i: int, k: int)
    requires
        0 <= i <= k <= a.len(),
        forall|j: int|
            i <= j < k ==> local_name((#[trigger] a[j]).at("name"@)) != Some("ipv4-unicast"@),
        k < a.len() ==> local_name(a[k].at("name"@)) == Some("ipv4-unicast"@),
    ensures
        ipv4_from(a, i) == k,
    decreases k - i,
{
    if i < k {
        lemma_ipv4(a, i + 1, k);
    }
}

/// Prefixes are counted in the first family that is IPv4 unicast, and count as none where there is
/// no such family or no number in it.
pub proof fn lemma_what_is_counted(n: JsonV, key: Seq<char>, k: int)
    requires
        ({
            let a = n.at("afi-safis"@).at("afi-safi"@).items();
            &&& 0 <= k <= a.len()
            &&& forall|j: int|
                0 <= j < k ==> local_name((#[trigger] a[j]).at("name"@)) != Some("ipv4-unicast"@)
            &&& k < a.len() ==> local_name(a[k].at("name"@)) == Some("ipv4-unicast"@)
        }),
    ensures
        ({
            let a = n.at("afi-safis"@).at("afi-safi"@).items();
            &&& k == a.len() ==> prefix_count(n, key) == 0
            &&& k < a.len() && a[k].at("prefixes"@).at(key) is Uint ==> JsonV::Uint(
                prefix_count(n, key),
            ) == a[k].at("prefixes"@).at(key)
            &&& k < a.len() && !(a[k].at("prefixes"@).at(key) is Uint) ==> prefix_count(n, key) == 0
        }),
{
    lemma_ipv4(n.at("afi-safis"@).at("afi-safi"@).items(), 0, k);
}

/// The words for the states of sessions: those of BFD in lower case but for one, those of BGP by
/// a table, and what is in neither passes as it is.
pub proof fn lemma_the_words_for_states(t: Seq<char>)
    ensures
        bfd_state(Some("adminDown"@)) == JsonV::Str("admin-down"@),
        t != "adminDown"@ ==> bfd_state(Some(t)) is Str && bfd_state(Some(t))->Str_0.len()
            == t.len(),
        t != "adminDown"@ ==> forall|i: int|
            0 <= i < t.len() ==> #[trigger] bfd_state(Some(t))->Str_0[i] == if 'A' <= t[i] && t[i]
                <= 'Z' {
                (t[i] as u32 + 32) as char
            } else {
                t[i]
            },
        bfd_state(None) == JsonV::Null,
        bgp_state(Some("idle"@)) == JsonV::Str("Idle"@),
        bgp_state(Some("connect"@)) == JsonV::Str("Connect"@),
        bgp_state(Some("active"@)) == JsonV::Str("Active"@),
        bgp_state(Some("opensent"@)) == JsonV::Str("OpenSent"@),
        bgp_state(Some("openconfirm"@)) == JsonV::Str("OpenConfirm"@),
        bgp_state(Some("established"@)) == JsonV::Str("Established"@),
        t != "idle"@ && t != "connect"@ && t != "active"@ && t != "opensent"@ && t
            != "openconfirm"@ && t != "established"@ ==> bgp_state(Some(t)) == JsonV::Str(t),
        bgp_state(None) == JsonV::Null,
{
    reveal_strlit("idle");
    assert("idle"@.len() == 4);
    reveal_strlit("connect");
    assert("connect"@.len() == 7);
    reveal_strlit("active");
    assert("active"@.len() == 6);
    reveal_strlit("opensent");
    assert("opensent"@.len() == 8);
    reveal_strlit("openconfirm");
    assert("openconfirm"@.len() == 11);
    reveal_strlit("established");
    assert("established"@.len() == 11);
    assert("established"@[0] != "openconfirm"@[0]);
}

// ---- our own advertisements ----

/// Is this a router advertisement of ours?
pub open spec fn ours(lsa: JsonV, router_id: JsonV) -> bool {
    let hdr = lsa.at("ospfv2"@).at("header"@);
    local_name(hdr.at("type"@)) == Some("ospfv2-router-lsa"@) && same_value(
        hdr.at("adv-router"@),
        router_id,
    )
}

/// Does an advertisement of ours in these areas hold the link?
pub open spec fn links_of_ours(areas: Seq<JsonV>, router_id: JsonV, n: int, link: JsonV) -> bool {
    exists|a: int, t: int, l: int, k: int|
        #![trigger link_place(areas, a, t, l, k)]
        0 <= a < n && ours(lsa_at(areas, a, t, l), router_id) && link_place(areas, a, t, l, k)
            && link_at(areas, a, t, l, k) == link
}

pub open spec fn lsa_types(area: JsonV) -> Seq<JsonV> {
    area.at("database"@).at("area-scope-lsa-type"@).items()
}

pub open spec fn lsas_of(kind: JsonV) -> Seq<JsonV> {
    kind.at("area-scope-lsas"@).at("area-scope-lsa"@).items()
}

pub open spec fn links_of(lsa: JsonV) -> Seq<JsonV> {
    lsa.at("ospfv2"@).at("body"@).at("router"@).at("links"@).at("link"@).items()
}

pub open spec fn lsa_at(areas: Seq<JsonV>, a: int, t: int, l: int) -> JsonV {
    lsas_of(lsa_types(areas[a])[t])[l]
}

pub open spec fn link_at(areas: Seq<JsonV>, a: int, t: int, l: int, k: int) -> JsonV {
    links_of(lsa_at(areas, a, t, l))[k]
}

pub open spec fn link_place(areas: Seq<JsonV>, a: int, t: int, l: int, k: int) -> bool {
    &&& 0 <= a < areas.len()
    &&& 0 <= t < lsa_types(areas[a]).len()
    &&& 0 <= l < lsas_of(lsa_types(areas[a])[t]).len()
    &&& 0 <= k < links_of(lsa_at(areas, a, t, l)).len()
}

proof fn lemma_links(links: Seq<JsonV>, n: int)
    requires
        0 <= n <= links.len(),
    ensures
        link_entries(links, n).len() == n,
        forall|k: int| 0 <= k < n ==> #[trigger] link_entries(links, n)[k] == link_entry(links[k]),
    decreases n,
{
    if n > 0 {
        lemma_links(links, n - 1);
    }
}

proof fn lemma_in_either(a: Seq<JsonV>, b: Seq<JsonV>, x: JsonV)
    ensures
        (a + b).contains(x) <==> a.contains(x) || b.contains(x),
{
    if a.contains(x) {
        let i = choose|i: int| 0 <= i < a.len() && a[i] == x;
        assert((a + b)[i] == x);
    }
    if b.contains(x) {
        let i = choose|i: int| 0 <= i < b.len() && b[i] == x;
        assert((a + b)[a.len() + i] == x);
    }
    if (a + b).contains(x) {
        let i = choose|i: int| 0 <= i < (a + b).len() && (a + b)[i] == x;
        if i < a.len() {
            assert(a[i] == x);
        } else {
            assert(b[i - a.len()] == x);
        }
    }
}

proof fn lemma_lsa(lsa: JsonV, id: JsonV, x: JsonV)
    ensures
        lsa_links(lsa, id).contains(x) <==> ours(lsa, id) && exists|k: int|
            0 <= k < links_of(lsa).len() && link_entry(#[trigger] links_of(lsa)[k]) == x,
{
    let v = links_of(lsa);
    lemma_links(v, v.len() as int);
    let r = lsa_links(lsa, id);
    if ours(lsa, id) {
        assert(r == link_entries(v, v.len() as int));
        if r.contains(x) {
            let k = choose|k: int| 0 <= k < r.len() && r[k] == x;
            assert(link_entry(v[k]) == x);
        }
        if exists|k: int| 0 <= k < v.len() && link_entry(#[trigger] v[k]) == x {
            let k = choose|k: int| 0 <= k < v.len() && link_entry(#[trigger] v[k]) == x;
            assert(r[k] == x);
        }
    }
}

proof fn lemma_lsas(lsas: Seq<JsonV>, id: JsonV, n: int, x: JsonV)
    requires
        0 <= n <= lsas.len(),
    ensures
        lsas_links(lsas, id, n).contains(x) <==> exists|l: int|
            0 <= l < n && lsa_links(#[trigger] lsas[l], id).contains(x),
    decreases n,
{
    if n > 0 {
        lemma_lsas(lsas, id, n - 1, x);
        lemma_in_either(lsas_links(lsas, id, n - 1), lsa_links(lsas[n - 1], id), x);
    }
}

proof fn lemma_types(types: Seq<JsonV>, id: JsonV, n: int, x: JsonV)
    requires
        0 <= n <= types.len(),
    ensures
        types_links(types, id, n).contains(x) <==> exists|t: int|
            0 <= t < n && lsas_links(
                lsas_of(#[trigger] types[t]),
                id,
                lsas_of(types[t]).len() as int,
            ).contains(x),
    decreases n,
{
    if n > 0 {
        lemma_types(types, id, n - 1, x);
        let l = lsas_of(types[n - 1]);
        lemma_in_either(types_links(types, id, n - 1), lsas_links(l, id, l.len() as int), x);
    }
}

proof fn lemma_areas(areas: Seq<JsonV>, id: JsonV, n: int, x: JsonV)
    requires
        0 <= n <= areas.len(),
    ensures
        areas_links(areas, id, n).contains(x) <==> exists|a: int|
            0 <= a < n && types_links(
                lsa_types(#[trigger] areas[a]),
                id,
                lsa_types(areas[a]).len() as int,
            ).contains(x),
    decreases n,
{
    if n > 0 {
        lemma_areas(areas, id, n - 1, x);
        let t = lsa_types(areas[n - 1]);
        lemma_in_either(areas_links(areas, id, n - 1), types_links(t, id, t.len() as int), x);
    }
}

/// The links that are reported are those that our own router advertisements hold, in whichever
/// area: all of them, and no link of another router's.
pub proof fn lemma_our_own_links_are_reported(areas: Seq<JsonV>, id: JsonV, n: int, x: JsonV)
    requires
        0 <= n <= areas.len(),
    ensures
        areas_links(areas, id, n).contains(x) <==> exists|link: JsonV|
            #[trigger] links_of_ours(areas, id, n, link) && link_entry(link) == x,
{
    lemma_areas(areas, id, n, x);
    if areas_links(areas, id, n).contains(x) {
        let a = choose|a: int|
            0 <= a < n && types_links(
                lsa_types(#[trigger] areas[a]),
                id,
                lsa_types(areas[a]).len() as int,
            ).contains(x);
        let ty = lsa_types(areas[a]);
        lemma_types(ty, id, ty.len() as int, x);
        let t = choose|t: int|
            0 <= t < ty.len() && lsas_links(
                lsas_of(#[trigger] ty[t]),
                id,
                lsas_of(ty[t]).len() as int,
            ).contains(x);
        let ls = lsas_of(ty[t]);
        lemma_lsas(ls, id, ls.len() as int, x);
        let l = choose|l: int| 0 <= l < ls.len() && lsa_links(#[trigger] ls[l], id).contains(x);
        lemma_lsa(ls[l], id, x);
        let v = links_of(ls[l]);
        let k = choose|k: int| 0 <= k < v.len() && link_entry(#[trigger] v[k]) == x;
        assert(link_place(areas, a, t, l, k));
        assert(links_of_ours(areas, id, n, v[k]));
    }
    if exists|link: JsonV| #[trigger]
        links_of_ours(areas, id, n, link) && link_entry(link) == x {
        let link = choose|link: JsonV| #[trigger]
            links_of_ours(areas, id, n, link) && link_entry(link) == x;
        let (a, t, l, k) = choose|a: int, t: int, l: int, k: int|
            #![trigger link_place(areas, a, t, l, k)]
            0 <= a < n && ours(lsa_at(areas, a, t, l), id) && link_place(areas, a, t, l, k)
                && link_at(areas, a, t, l, k) == link;
        let ty = lsa_types(areas[a]);
        let ls = lsas_of(ty[t]);
        let v = links_of(ls[l]);
        assert(link_entry(v[k]) == x);
        lemma_lsa(ls[l], id, x);
        lemma_lsas(ls, id, ls.len() as int, x);
        lemma_types(ty, id, ty.len() as int, x);
        assert(lsa_links(ls[l], id).contains(x));
        assert(lsas_links(lsas_of(ty[t]), id, ls.len() as int).contains(x));
        assert(types_links(lsa_types(areas[a]), id, ty.len() as int).contains(x));
    }
}

// ---- an instance ----

proof fn lemma_configured(areas: Seq<JsonV>, n: int, x: JsonV)
    requires
        0 <= n <= areas.len(),
    ensures
        configured(areas, n).contains(x) <==> exists|a: int|
            0 <= a < n && (#[trigger] areas[a]).at("interfaces"@).at("interface"@).items().contains(
                x,
            ),
    decreases n,
{
    if n > 0 {
        lemma_configured(areas, n - 1, x);
        lemma_in_either(
            configured(areas, n - 1),
            areas[n - 1].at("interfaces"@).at("interface"@).items(),
            x,
        );
    }
}

/// What is configured of an instance are the interfaces of all its areas; of an instance that is
/// not configured there are none.
pub proof fn lemma_what_is_configured(c: JsonV, x: JsonV)
    ensures
        configured_ifs(None).len() == 0,
        configured_ifs(Some(c)).contains(x) <==> exists|a: int|
            0 <= a < c.at("ietf-ospf:ospf"@).at("areas"@).at("area"@).items().len() && (
            #[trigger] c.at("ietf-ospf:ospf"@).at("areas"@).at("area"@).items()[a]).at(
                "interfaces"@,
            ).at("interface"@).items().contains(x),
{
    let areas = c.at("ietf-ospf:ospf"@).at("areas"@).at("area"@).items();
    lemma_configured(areas, areas.len() as int, x);
}

/// An instance is reported by its Router ID, its interfaces, and the links of its own
/// advertisements.
pub proof fn lemma_an_instance(p: JsonV, cfg: Option<JsonV>)
    ensures
        ospf_entry(p, cfg).at("router_id"@) == p.at("ietf-ospf:ospf"@).at("router-id"@),
        ospf_entry(p, cfg).at("interfaces"@) == ({
            let areas = p.at("ietf-ospf:ospf"@).at("areas"@).at("area"@).items();
            all_interfaces(areas, configured_ifs(cfg), areas.len() as int)
        }),
        ospf_entry(p, cfg).at("self_lsa_links"@) == ({
            let areas = p.at("ietf-ospf:ospf"@).at("areas"@).at("area"@).items();
            JsonV::Arr(
                areas_links(areas, p.at("ietf-ospf:ospf"@).at("router-id"@), areas.len() as int),
            )
        }),
{
    let e = ospf_entry(p, cfg)->Obj_0;
    reveal_strlit("router_id");
    assert("router_id"@.len() == 9);
    reveal_strlit("interfaces");
    assert("interfaces"@.len() == 10);
    reveal_strlit("self_lsa_links");
    assert("self_lsa_links"@.len() == 14);
    lemma_found_under_its_key(e, 0);
    lemma_found_under_its_key(e, 1);
    lemma_found_under_its_key(e, 2);
}

proof fn lemma_with_interfaces(
    base: JsonV,
    ifs: Seq<JsonV>,
    cfg_ifs: Seq<JsonV>,
    n: int,
    name: Seq<char>,
)
    requires
        base is Obj,
        0 <= n <= ifs.len(),
    ensures
        with_interfaces(base, ifs, cfg_ifs, n) is Obj,
        forall|i: int|
            0 <= i < n && (#[trigger] ifs[i]).at("name"@) == JsonV::Str(name) && (forall|j: int|
                i < j < n ==> (#[trigger] ifs[j]).at("name"@) != JsonV::Str(name))
                ==> with_interfaces(base, ifs, cfg_ifs, n).at(name) == interface_entry(
                ifs[i],
                name,
                cfg_ifs,
            ),
        (forall|j: int| 0 <= j < n ==> (#[trigger] ifs[j]).at("name"@) != JsonV::Str(name))
            ==> with_interfaces(base, ifs, cfg_ifs, n).at(name) == base.at(name),
    decreases n,
{
    if n > 0 {
        lemma_with_interfaces(base, ifs, cfg_ifs, n - 1, name);
        let b = with_interfaces(base, ifs, cfg_ifs, n - 1);
        match ifs[n - 1].at("name"@).text() {
            Some(s) => {
                let e = interface_entry(ifs[n - 1], s, cfg_ifs);
                lemma_put_and_found(b, s, e, name);
                assert(ifs[n - 1].at("name"@) == JsonV::Str(s));
            },
            None => {},
        }
    }
}

proof fn lemma_interfaces_so_far(areas: Seq<JsonV>, cfg_ifs: Seq<JsonV>, n: int)
    requires
        0 <= n <= areas.len(),
    ensures
        all_interfaces(areas, cfg_ifs, n) is Obj,
    decreases n,
{
    if n > 0 {
        lemma_interfaces_so_far(areas, cfg_ifs, n - 1);
        let ifs = areas[n - 1].at("interfaces"@).at("interface"@).items();
        lemma_with_interfaces(
            all_interfaces(areas, cfg_ifs, n - 1),
            ifs,
            cfg_ifs,
            ifs.len() as int,
            seq![],
        );
    }
}

/// An interface is reported under its name, whichever area it is in: where a name occurs again,
/// the last one is.
pub proof fn lemma_every_interface_is_reported(
    areas: Seq<JsonV>,
    cfg_ifs: Seq<JsonV>,
    n: int,
    a: int,
    i: int,
    name: Seq<char>,
)
    requires
        0 <= a < n <= areas.len(),
        ({
            let ifs = areas[a].at("interfaces"@).at("interface"@).items();
            &&& 0 <= i < ifs.len()
            &&& ifs[i].at("name"@) == JsonV::Str(name)
            &&& forall|j: int|
                i < j < ifs.len() ==> (#[trigger] ifs[j]).at("name"@) != JsonV::Str(name)
        }),
        forall|b: int, j: int|
            a < b < n && 0 <= j < areas[b].at("interfaces"@).at("interface"@).items().len()
                ==> (#[trigger] areas[b].at("interfaces"@).at("interface"@).items()[j]).at("name"@)
                != JsonV::Str(name),
    ensures
        all_interfaces(areas, cfg_ifs, n).at(name) == interface_entry(
            areas[a].at("interfaces"@).at("interface"@).items()[i],
            name,
            cfg_ifs,
        ),
    decreases n,
{
    let ifs = areas[n - 1].at("interfaces"@).at("interface"@).items();
    lemma_interfaces_so_far(areas, cfg_ifs, n - 1);
    lemma_with_interfaces(
        all_interfaces(areas, cfg_ifs, n - 1),
        ifs,
        cfg_ifs,
        ifs.len() as int,
        name,
    );
    if a < n - 1 {
        lemma_every_interface_is_reported(areas, cfg_ifs, n - 1, a, i, name);
        assert forall|j: int| 0 <= j < ifs.len() implies (#[trigger] ifs[j]).at("name"@)
            != JsonV::Str(name) by {
            assert(areas[n - 1].at("interfaces"@).at("interface"@).items()[j].at("name"@)
                != JsonV::Str(name));
        }
    }
}

// ---- the document ----

/// The protocols of a tree.
pub open spec fn protocols_of(tree: JsonV) -> Seq<JsonV> {
    tree.at("ietf-routing:routing"@).at("control-plane-protocols"@).at(
        "control-plane-protocol"@,
    ).items()
}

/// The BFD sessions of a protocol, which has some only where it is BFD.
pub open spec fn bfd_of(p: JsonV) -> Seq<JsonV> {
    if p.at("type"@) == JsonV::Str("ietf-bfd-types:bfdv1"@) {
        p.at("ietf-bfd:bfd"@).at("ietf-bfd-ip-sh:ip-sh"@).at("sessions"@).at("session"@).items()
    } else {
        seq![]
    }
}

/// The BGP sessions of a protocol, which has some only where it is BGP.
pub open spec fn bgp_of(p: JsonV) -> Seq<JsonV> {
    if p.at("type"@) == JsonV::Str("ietf-bgp:bgp"@) {
        p.at("ietf-bgp:bgp"@).at("neighbors"@).at("neighbor"@).items()
    } else {
        seq![]
    }
}

/// Is this the OSPF instance of the name?
pub open spec fn is_instance(p: JsonV, name: Seq<char>) -> bool {
    p.at("type"@) == JsonV::Str("ietf-ospf:ospfv2"@) && p.at("name"@) == JsonV::Str(name)
}

/// The sessions of the first `n` protocols, in their order.
pub open spec fn sessions_upto(p: Seq<JsonV>, bgp: bool, n: int) -> Seq<JsonV>
    decreases n,
{
    if n <= 0 {
        seq![]
    } else {
        sessions_upto(p, bgp, n - 1) + if bgp {
            bgp_of(p[n - 1])
        } else {
            bfd_of(p[n - 1])
        }
    }
}

/// The protocols of the first `n` trees, in their order.
pub open spec fn all_protocols(trees: Seq<JsonV>, n: int) -> Seq<JsonV>
    decreases n,
{
    if n <= 0 {
        seq![]
    } else {
        all_protocols(trees, n - 1) + protocols_of(trees[n - 1])
    }
}

proof fn lemma_kinds()
    ensures
        "ietf-ospf:ospfv2"@ != "ietf-bfd-types:bfdv1"@,
        "ietf-ospf:ospfv2"@ != "ietf-bgp:bgp"@,
        "ietf-bfd-types:bfdv1"@ != "ietf-bgp:bgp"@,
{
    reveal_strlit("ietf-ospf:ospfv2");
    assert("ietf-ospf:ospfv2"@.len() == 16);
    reveal_strlit("ietf-bfd-types:bfdv1");
    assert("ietf-bfd-types:bfdv1"@.len() == 20);
    reveal_strlit("ietf-bgp:bgp");
    assert("ietf-bgp:bgp"@.len() == 12);
}

/// What the parts hold when these protocols were read in turn.
pub open spec fn parts_of(b: PartsV, cfg: JsonV, p: Seq<JsonV>, n: int) -> bool {
    let bfd = sessions_upto(p, false, n);
    let bgp = sessions_upto(p, true, n);
    &&& b.ospf is Obj
    &&& b.bfd.len() == bfd.len()
    &&& forall|i: int| 0 <= i < bfd.len() ==> #[trigger] b.bfd[i] == bfd_entry(bfd[i])
    &&& b.bgp.len() == bgp.len()
    &&& forall|i: int| 0 <= i < bgp.len() ==> #[trigger] b.bgp[i] == bgp_entry(bgp[i])
}

proof fn lemma_bfd_entries(s: Seq<JsonV>, n: int)
    requires
        0 <= n <= s.len(),
    ensures
        bfd_entries(s, n).len() == n,
        forall|k: int| 0 <= k < n ==> #[trigger] bfd_entries(s, n)[k] == bfd_entry(s[k]),
    decreases n,
{
    if n > 0 {
        lemma_bfd_entries(s, n - 1);
    }
}

proof fn lemma_bgp_entries(s: Seq<JsonV>, n: int)
    requires
        0 <= n <= s.len(),
    ensures
        bgp_entries(s, n).len() == n,
        forall|k: int| 0 <= k < n ==> #[trigger] bgp_entries(s, n)[k] == bgp_entry(s[k]),
    decreases n,
{
    if n > 0 {
        lemma_bgp_entries(s, n - 1);
    }
}

proof fn lemma_protocol(b: PartsV, cfg: JsonV, p: Seq<JsonV>, n: int)
    requires
        0 < n <= p.len(),
        parts_of(b, cfg, p, n - 1),
    ensures
        parts_of(with_protocol(b, cfg, p[n - 1]), cfg, p, n),
{
    let q = p[n - 1];
    let r = with_protocol(b, cfg, q);
    lemma_kinds();
    lemma_bfd_entries(bfd_list(q), bfd_list(q).len() as int);
    lemma_bgp_entries(bgp_list(q), bgp_list(q).len() as int);
    match q.at("type"@).text() {
        Some(s) => {
            assert(q.at("type"@) == JsonV::Str(s));
        },
        None => {},
    }
    assert(r.ospf is Obj);
    assert(r.bfd.len() == b.bfd.len() + bfd_of(q).len());
    assert(r.bgp.len() == b.bgp.len() + bgp_of(q).len());
    let f = sessions_upto(p, false, n);
    let g = sessions_upto(p, true, n);
    let m = sessions_upto(p, false, n - 1);
    let h = sessions_upto(p, true, n - 1);
    assert forall|i: int| 0 <= i < f.len() implies #[trigger] r.bfd[i] == bfd_entry(f[i]) by {
        if i < m.len() {
            assert(r.bfd[i] == b.bfd[i]);
            assert(f[i] == m[i]);
        } else {
            assert(f[i] == bfd_of(q)[i - m.len()]);
        }
    }
    assert forall|i: int| 0 <= i < g.len() implies #[trigger] r.bgp[i] == bgp_entry(g[i]) by {
        if i < h.len() {
            assert(r.bgp[i] == b.bgp[i]);
            assert(g[i] == h[i]);
        } else {
            assert(g[i] == bgp_of(q)[i - h.len()]);
        }
    }
}

proof fn lemma_sessions_same(p: Seq<JsonV>, q: Seq<JsonV>, bgp: bool, n: int)
    requires
        n <= p.len(),
        n <= q.len(),
        forall|i: int| 0 <= i < n ==> p[i] == q[i],
    ensures
        sessions_upto(p, bgp, n) == sessions_upto(q, bgp, n),
    decreases n,
{
    if n > 0 {
        lemma_sessions_same(p, q, bgp, n - 1);
    }
}

/// What the parts have under a name once the first `n` protocols were read: the last instance of
/// that name.
pub open spec fn instances_of(ospf: JsonV, cfg: JsonV, p: Seq<JsonV>, n: int) -> bool {
    forall|k: int, name: Seq<char>|
        #![trigger is_instance(p[k], name)]
        0 <= k < n && is_instance(p[k], name) && (forall|j: int|
            k < j < n ==> !is_instance(#[trigger] p[j], name)) ==> ospf.at(name) == ospf_entry(
            p[k],
            cfg_from(protocols_of(cfg), name, 0),
        )
}

proof fn lemma_instance(b: PartsV, cfg: JsonV, p: Seq<JsonV>, n: int)
    requires
        0 < n <= p.len(),
        b.ospf is Obj,
        instances_of(b.ospf, cfg, p, n - 1),
    ensures
        instances_of(with_protocol(b, cfg, p[n - 1]).ospf, cfg, p, n),
{
    let q = p[n - 1];
    let r = with_protocol(b, cfg, q);
    lemma_kinds();
    match q.at("type"@).text() {
        Some(s) => {
            assert(q.at("type"@) == JsonV::Str(s));
        },
        None => {},
    }
    assert forall|k: int, name: Seq<char>|
        #![trigger is_instance(p[k], name)]
        0 <= k < n && is_instance(p[k], name) && (forall|j: int|
            k < j < n ==> !is_instance(#[trigger] p[j], name)) implies r.ospf.at(name)
        == ospf_entry(p[k], cfg_from(protocols_of(cfg), name, 0)) by {
        if k < n - 1 {
            assert(!is_instance(p[n - 1], name));
            assert(b.ospf.at(name) == ospf_entry(p[k], cfg_from(protocols_of(cfg), name, 0)));
        }
        match q.at("name"@).text() {
            Some(s) => {
                assert(q.at("name"@) == JsonV::Str(s));
                let e = ospf_entry(q, cfg_from(protocols_of(cfg), s, 0));
                lemma_put_and_found(b.ospf, s, e, name);
            },
            None => {},
        }
    }
}

proof fn lemma_protocols(b: PartsV, cfg: JsonV, p: Seq<JsonV>, q: Seq<JsonV>, n: int)
    requires
        0 <= n <= q.len(),
        parts_of(b, cfg, p, p.len() as int),
        instances_of(b.ospf, cfg, p, p.len() as int),
    ensures
        parts_of(with_protocols(b, cfg, q, n), cfg, p + q, p.len() + n),
        instances_of(with_protocols(b, cfg, q, n).ospf, cfg, p + q, p.len() + n),
    decreases n,
{
    let m = p.len() as int;
    if n <= 0 {
        lemma_sessions_same(p, p + q, false, m);
        lemma_sessions_same(p, p + q, true, m);
        assert forall|k: int, name: Seq<char>|
            #![trigger is_instance((p + q)[k], name)]
            0 <= k < m && is_instance((p + q)[k], name) && (forall|j: int|
                k < j < m ==> !is_instance(#[trigger] (p + q)[j], name)) implies b.ospf.at(name)
            == ospf_entry((p + q)[k], cfg_from(protocols_of(cfg), name, 0)) by {
            assert((p + q)[k] == p[k]);
            assert(is_instance(p[k], name));
            assert forall|j: int| k < j < m implies !is_instance(#[trigger] p[j], name) by {
                assert((p + q)[j] == p[j]);
            }
        }
    } else {
        lemma_protocols(b, cfg, p, q, n - 1);
        let c = with_protocols(b, cfg, q, n - 1);
        assert((p + q)[m + n - 1] == q[n - 1]);
        lemma_protocol(c, cfg, p + q, m + n);
        lemma_instance(c, cfg, p + q, m + n);
    }
}

proof fn lemma_trees(cfg: JsonV, trees: Seq<JsonV>, n: int)
    requires
        0 <= n <= trees.len(),
    ensures
        ({
            let p = all_protocols(trees, n);
            &&& parts_of(with_trees(cfg, trees, n), cfg, p, p.len() as int)
            &&& instances_of(with_trees(cfg, trees, n).ospf, cfg, p, p.len() as int)
        }),
    decreases n,
{
    if n > 0 {
        lemma_trees(cfg, trees, n - 1);
        let q = protocols_of(trees[n - 1]);
        lemma_protocols(
            with_trees(cfg, trees, n - 1),
            cfg,
            all_protocols(trees, n - 1),
            q,
            q.len() as int,
        );
    }
}

/// The document says whether the engine is ready, and of every protocol of every tree what it
/// holds: an instance of OSPF under its name, with the configuration of that name, the last one
/// where a name occurs again; and the sessions of BFD and of BGP, all of them in their order.
pub proof fn lemma_what_the_document_says(ready: bool, cfg: JsonV, trees: Seq<JsonV>)
    ensures
        ({
            let doc = state_document(ready, cfg, trees);
            let p = all_protocols(trees, trees.len() as int);
            let bfd = sessions_upto(p, false, p.len() as int);
            let bgp = sessions_upto(p, true, p.len() as int);
            &&& doc.at("ready"@) == JsonV::Bool(ready)
            &&& instances_of(doc.at("ospf"@), cfg, p, p.len() as int)
            &&& doc.at("bfd"@).items().len() == bfd.len()
            &&& forall|i: int|
                0 <= i < bfd.len() ==> #[trigger] doc.at("bfd"@).items()[i] == bfd_entry(bfd[i])
            &&& doc.at("bgp"@).items().len() == bgp.len()
            &&& forall|i: int|
                0 <= i < bgp.len() ==> #[trigger] doc.at("bgp"@).items()[i] == bgp_entry(bgp[i])
        }),
{
    lemma_trees(cfg, trees, trees.len() as int);
    let e = state_document(ready, cfg, trees)->Obj_0;
    reveal_strlit("ready");
    assert("ready"@.len() == 5);
    reveal_strlit("ospf");
    assert("ospf"@.len() == 4);
    reveal_strlit("bfd");
    assert("bfd"@.len() == 3);
    reveal_strlit("bgp");
    assert("bgp"@.len() == 3);
    assert("bgp"@[1] != "bfd"@[1]);
    lemma_found_under_its_key(e, 0);
    lemma_found_under_its_key(e, 1);
    lemma_found_under_its_key(e, 2);
    lemma_found_under_its_key(e, 3);
}

proof fn lemma_cfg(p: Seq<JsonV>, name: Seq<char>, i: int, k: int)
    requires
        0 <= i <= k <= p.len(),
        forall|j: int| i <= j < k ==> !is_instance(#[trigger] p[j], name),
        k < p.len() ==> is_instance(p[k], name),
    ensures
        cfg_from(p, name, i) == if k < p.len() {
            Some(p[k])
        } else {
            None
        },
    decreases k - i,
{
    if i < k {
        assert(!is_instance(p[i], name));
        lemma_cfg(p, name, i + 1, k);
    }
}

/// The configuration of an instance is the first instance of its name.
pub proof fn lemma_the_configuration_of_an_instance(p: Seq<JsonV>, name: Seq<char>, k: int)
    requires
        0 <= k <= p.len(),
        forall|j: int| 0 <= j < k ==> !is_instance(#[trigger] p[j], name),
        k < p.len() ==> is_instance(p[k], name),
    ensures
        k < p.len() ==> cfg_from(p, name, 0) == Some(p[k]),
        k == p.len() ==> cfg_from(p, name, 0) is None,
{
    lemma_cfg(p, name, 0, k);
}

// ---- the engine's word ----

/// Is the first neighbor with this Router ID in the two-way state, or beyond it?
pub open spec fn sees_us(nbrs: Seq<JsonV>, rid: u32) -> bool {
    exists|k: int|
        0 <= k < nbrs.len() && (#[trigger] nbrs[k]).at("router_id"@) == JsonV::Str(dotted(rid)) && (
        forall|j: int|
            0 <= j < k ==> (#[trigger] nbrs[j]).at("router_id"@) != JsonV::Str(dotted(rid))) && {
            let s = nbrs[k].at("state"@);
            ||| s == JsonV::Str("2-way"@)
            ||| s == JsonV::Str("exstart"@)
            ||| s == JsonV::Str("exchange"@)
            ||| s == JsonV::Str("loading"@)
            ||| s == JsonV::Str("full"@)
        }
}

proof fn lemma_state_from(nbrs: Seq<JsonV>, rid: Seq<char>, i: int) -> (k: int)
    requires
        0 <= i <= nbrs.len(),
    ensures
        i <= k <= nbrs.len(),
        forall|j: int| i <= j < k ==> (#[trigger] nbrs[j]).at("router_id"@) != JsonV::Str(rid),
        k < nbrs.len() ==> nbrs[k].at("router_id"@) == JsonV::Str(rid) && state_from(nbrs, rid, i)
            == nbrs[k].at("state"@).text(),
        k == nbrs.len() ==> state_from(nbrs, rid, i) is None,
    decreases nbrs.len() - i,
{
    if i < nbrs.len() && nbrs[i].at("router_id"@) != JsonV::Str(rid) {
        lemma_state_from(nbrs, rid, i + 1)
    } else {
        i
    }
}

proof fn lemma_sees(nbrs: Seq<JsonV>, rid: u32)
    ensures
        two_way(state_from(nbrs, dotted(rid), 0)) <==> sees_us(nbrs, rid),
{
    let k = lemma_state_from(nbrs, dotted(rid), 0);
    if k < nbrs.len() {
        let s = nbrs[k].at("state"@);
        match s.text() {
            Some(t) => {
                assert(s == JsonV::Str(t));
            },
            None => {},
        }
        if sees_us(nbrs, rid) {
            let m = choose|m: int|
                0 <= m < nbrs.len() && (#[trigger] nbrs[m]).at("router_id"@) == JsonV::Str(
                    dotted(rid),
                ) && (forall|j: int|
                    0 <= j < m ==> (#[trigger] nbrs[j]).at("router_id"@) != JsonV::Str(
                        dotted(rid),
                    )) && {
                    let s = nbrs[m].at("state"@);
                    ||| s == JsonV::Str("2-way"@)
                    ||| s == JsonV::Str("exstart"@)
                    ||| s == JsonV::Str("exchange"@)
                    ||| s == JsonV::Str("loading"@)
                    ||| s == JsonV::Str("full"@)
                };
            assert(m == k);
        }
        if two_way(state_from(nbrs, dotted(rid), 0)) {
            assert(nbrs[k].at("router_id"@) == JsonV::Str(dotted(rid)));
            assert(sees_us(nbrs, rid));
        }
    } else {
        if sees_us(nbrs, rid) {
            let m = choose|m: int|
                0 <= m < nbrs.len() && (#[trigger] nbrs[m]).at("router_id"@) == JsonV::Str(
                    dotted(rid),
                );
            assert(nbrs[m].at("router_id"@) != JsonV::Str(dotted(rid)));
        }
    }
}

/// The engine says that a leg is deaf where the document has the leg's neighbors and none of the
/// expected peers is two-way among them; that it is not where one is; and nothing where the
/// document does not have the leg, or there is no document.
pub proof fn lemma_the_engines_word(
    doc: JsonV,
    zone: Seq<char>,
    ifname: Seq<char>,
    peers: Seq<u32>,
)
    ensures
        ({
            let n = doc.at("ospf"@).at(zone).at("interfaces"@).at(ifname).at("neighbors"@);
            &&& all_below(doc, zone, ifname, peers) is None <==> !(n is Arr)
            &&& all_below(doc, zone, ifname, peers) == Some(true) <==> n is Arr && forall|i: int|
                0 <= i < peers.len() ==> !sees_us(n.items(), #[trigger] peers[i])
        }),
        engine_word(None, zone, ifname, peers) is None,
{
    let n = doc.at("ospf"@).at(zone).at("interfaces"@).at(ifname).at("neighbors"@);
    if n is Arr {
        let v = n.items();
        assert(neighbors_on(doc, zone, ifname) == Some(v));
        assert forall|i: int| 0 <= i < peers.len() implies (two_way(
            state_from(v, dotted(#[trigger] peers[i]), 0),
        ) <==> sees_us(v, peers[i])) by {
            lemma_sees(v, peers[i]);
        }
        if crate::engine::state::any_two_way(v, peers) {
            let i = choose|i: int|
                0 <= i < peers.len() && two_way(state_from(v, dotted(#[trigger] peers[i]), 0));
            assert(sees_us(v, peers[i]));
        } else {
            assert forall|i: int| 0 <= i < peers.len() implies !sees_us(
                v,
                #[trigger] peers[i],
            ) by {
                assert(!two_way(state_from(v, dotted(peers[i]), 0)));
            }
        }
    }
}

} // verus!
