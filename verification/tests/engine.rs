//! The engine's socket, its document, and the commits to its providers.

use cfab::emit::engine::TransitCost;
use cfab::engine::northbound::{
    batches, first_unmapped, invalid_configuration, nb_err, read_state, rejected_tree,
    resolve_provider_paths, to_commit, yang_err, ChangeOp, Commit, CommitPhase, ConfigChange,
    NbError, Reply, YangError,
};
use cfab::engine::sock::{
    parse_request, refuse_if_live, transit_answer, unknown_answer_of, unknown_request, Request,
};
use cfab::engine::state::{
    all_below_two_way, at_least_two_way, document, neighbor_state, ospf_neighbors,
    peers_all_below_two_way,
};
use cfab::engine::{already_running, file_in, on_event, Event, Next, LOCK_NAME, SOCK_NAME};
use cfab::json::Json;
use cfab::model::prefix::Ipv4Prefix;
use cfab::textmap::TextMap;
use serde_json::Value;

/// A value as another JSON library holds it.
fn value(j: &Json) -> Value {
    match j {
        Json::Null => Value::Null,
        Json::Bool(b) => Value::from(*b),
        Json::Uint(n) => Value::from(*n),
        Json::Int(n) => Value::from(*n),
        Json::Real(s) => s.parse::<f64>().unwrap().into(),
        Json::Str(s) => Value::from(s.as_str()),
        Json::Arr(v) => Value::Array(v.iter().map(value).collect()),
        Json::Obj(v) => Value::Object(v.iter().map(|(k, x)| (k.clone(), value(x))).collect()),
    }
}

/// The value that a text is.
fn text(s: &str) -> Value {
    serde_json::from_str(s).unwrap()
}

// ---- the document ----

/// An operational tree with one OSPF instance and two BFD sessions.
fn state() -> &'static str {
    r#"{
    "ietf-routing:routing": { "control-plane-protocols": { "control-plane-protocol": [
        { "type": "ietf-ospf:ospfv2", "name": "mgmt", "ietf-ospf:ospf": {
            "router-id": "10.249.0.1",
            "areas": { "area": [ { "area-id": "0.0.0.0",
                "interfaces": { "interface": [
                    { "name": "cfab-mg", "state": "dr", "neighbors": { "neighbor": [
                        { "neighbor-router-id": "10.249.0.2", "address": "10.249.1.2",
                          "state": "full", "statistics": { "nbr-retrans-qlen": 0 } } ] } },
                    { "name": "cfab-id249", "state": "loopback" }
                ] },
                "database": { "area-scope-lsa-type": [
                    { "lsa-type": 1, "area-scope-lsas": { "area-scope-lsa": [
                        { "lsa-id": "10.249.0.1", "adv-router": "10.249.0.1", "ospfv2": {
                            "header": { "type": "ospfv2-router-lsa", "adv-router": "10.249.0.1" },
                            "body": { "router": { "links": { "link": [
                                { "link-id": "10.249.1.2", "link-data": "10.249.1.1",
                                  "type": "transit-network-link",
                                  "topologies": { "topology": [ { "mt-id": 0, "metric": 10 } ] } },
                                { "link-id": "10.249.0.1", "link-data": "255.255.255.255",
                                  "type": "stub-network-link",
                                  "topologies": { "topology": [ { "mt-id": 0, "metric": 0 } ] } }
                            ] } } } } },
                        { "lsa-id": "10.249.0.2", "adv-router": "10.249.0.2", "ospfv2": {
                            "header": { "type": "ospfv2-router-lsa", "adv-router": "10.249.0.2" },
                            "body": { "router": { "links": { "link": [
                                { "link-id": "10.249.1.2", "link-data": "10.249.1.2",
                                  "type": "transit-network-link",
                                  "topologies": { "topology": [ { "mt-id": 0, "metric": 10 } ] } }
                            ] } } } } }
                    ] } },
                    { "lsa-type": 2, "area-scope-lsas": { "area-scope-lsa": [
                        { "lsa-id": "10.249.1.2", "adv-router": "10.249.0.1", "ospfv2": {
                            "header": { "type": "ospfv2-network-lsa", "adv-router": "10.249.0.1" },
                            "body": { "network": { "network-mask": "255.255.255.0" } } } }
                    ] } }
                ] }
            } ] }
        } },
        { "type": "ietf-bfd-types:bfdv1", "name": "main", "ietf-bfd:bfd": {
            "ietf-bfd-ip-sh:ip-sh": { "sessions": { "session": [
                { "interface": "cfab-mg", "dest-addr": "10.249.1.2",
                  "path-type": "ietf-bfd-types:path-ip-sh", "ip-encapsulation": true,
                  "local-discriminator": 1, "remote-discriminator": 7, "remote-multiplier": 3,
                  "session-running": { "session-index": 1, "local-state": "up",
                      "remote-state": "up", "negotiated-tx-interval": 250000,
                      "negotiated-rx-interval": 250000, "detection-time": 750000 } },
                { "interface": "cfab-st", "dest-addr": "10.99.1.2",
                  "local-discriminator": 2,
                  "session-running": { "local-state": "adminDown" } }
            ] } }
        } }
    ] } }
}"#
}

fn cfg() -> Json {
    Json::parse(
        r#"{
        "ietf-interfaces:interfaces": { "interface": [
            { "name": "cfab-mg", "type": "iana-if-type:ethernetCsmacd" } ] },
        "ietf-routing:routing": { "control-plane-protocols": { "control-plane-protocol": [
            { "type": "ietf-ospf:ospfv2", "name": "mgmt", "ietf-ospf:ospf": {
                "explicit-router-id": "10.249.0.1",
                "areas": { "area": [ { "area-id": "0.0.0.0", "interfaces": { "interface": [
                    { "name": "cfab-mg", "cost": 10, "bfd": { "enabled": true } },
                    { "name": "cfab-id249", "passive": true }
                ] } } ] }
            } }
        ] } }
    }"#,
    )
    .unwrap()
}

fn doc(ready: bool, trees: &[&str]) -> Value {
    let trees: Vec<Json> = trees.iter().map(|t| Json::parse(t).unwrap()).collect();
    value(&document(ready, &cfg(), &trees))
}

#[test]
fn ospf_instance_router_id_interfaces_neighbors_and_self_links() {
    let d = doc(true, &[state()]);
    assert_eq!(d["ready"], true);
    let mgmt = &d["ospf"]["mgmt"];
    assert_eq!(mgmt["router_id"], "10.249.0.1");
    let mg = &mgmt["interfaces"]["cfab-mg"];
    assert_eq!(mg["state"], "dr");
    assert_eq!(mg["cost"], 10);
    assert_eq!(mg["passive"], false);
    assert_eq!(
        mg["neighbors"],
        text(r#"[{ "router_id": "10.249.0.2", "addr": "10.249.1.2", "state": "full" }]"#)
    );
    let id = &mgmt["interfaces"]["cfab-id249"];
    assert_eq!(id["state"], "loopback");
    assert_eq!(id["passive"], true);
    assert_eq!(id["cost"], Value::Null);
    assert_eq!(id["neighbors"], text("[]"));
    // Only this router's router-LSA links, never the neighbor's.
    assert_eq!(
        mgmt["self_lsa_links"],
        text(
            r#"[
            { "if": "10.249.1.1", "link_id": "10.249.1.2",
              "type": "transit-network-link", "metric": 10 },
            { "if": "255.255.255.255", "link_id": "10.249.0.1",
              "type": "stub-network-link", "metric": 0 }
        ]"#
        )
    );
}

#[test]
fn bfd_sessions_with_state_normalized() {
    let d = doc(true, &[state()]);
    let bfd = d["bfd"].as_array().unwrap();
    assert_eq!(bfd.len(), 2);
    assert_eq!(
        bfd[0],
        text(
            r#"{ "local": null, "peer": "10.249.1.2", "if": "cfab-mg", "state": "up",
                "rx_us": 250000, "tx_us": 250000, "mult": 3 }"#
        )
    );
    assert_eq!(bfd[1]["state"], "admin-down");
    assert_eq!(bfd[1]["peer"], "10.99.1.2");
}

/// An instance of type `ietf-bgp:bgp` with one neighbor.
fn bgp_state_tree(session_state: &str, installed: u64, sent: u64) -> String {
    format!(
        r#"{{
        "ietf-routing:routing": {{ "control-plane-protocols": {{ "control-plane-protocol": [
            {{ "type": "ietf-bgp:bgp", "name": "main", "ietf-bgp:bgp": {{
                "neighbors": {{ "neighbor": [
                    {{ "remote-address": "192.168.249.254", "session-state": "{session_state}",
                       "afi-safis": {{ "afi-safi": [
                           {{ "name": "iana-bgp-types:ipv4-unicast", "prefixes": {{
                               "received": 99, "installed": {installed}, "sent": {sent} }} }},
                           {{ "name": "iana-bgp-types:ipv6-unicast", "prefixes": {{
                               "received": 7, "installed": 7, "sent": 7 }} }}
                       ] }} }}
                ] }}
            }} }}
        ] }} }}
    }}"#
    )
}

#[test]
fn no_bgp_protocol_yields_an_empty_array() {
    assert_eq!(doc(true, &[state()])["bgp"], text("[]"));
}

#[test]
fn an_established_neighbor_distils_the_four_fields() {
    let d = doc(true, &[&bgp_state_tree("established", 12, 34)]);
    assert_eq!(
        d["bgp"],
        text(
            r#"[{
            "peer": "192.168.249.254",
            "state": "Established",
            "pfx_rcd": 12,
            "pfx_snt": 34
        }]"#
        )
    );
}

#[test]
fn session_state_maps_through_the_frr_table_not_capitalize_first() {
    for (yang, frr) in [
        ("idle", "Idle"),
        ("connect", "Connect"),
        ("active", "Active"),
        ("opensent", "OpenSent"),
        ("openconfirm", "OpenConfirm"),
        ("established", "Established"),
    ] {
        let d = doc(true, &[&bgp_state_tree(yang, 0, 0)]);
        assert_eq!(d["bgp"][0]["state"], frr, "{yang}");
    }
    let d = doc(true, &[&bgp_state_tree("opensent", 0, 0)]);
    assert_ne!(d["bgp"][0]["state"], "Opensent");
}

#[test]
fn an_unknown_session_state_passes_through_unchanged() {
    let d = doc(true, &[&bgp_state_tree("clearing", 0, 0)]);
    assert_eq!(d["bgp"][0]["state"], "clearing");
}

#[test]
fn empty_state_is_empty_document() {
    let d = doc(false, &["{}"]);
    assert_eq!(d["ready"], false);
    assert_eq!(d["ospf"], text("{}"));
    assert_eq!(d["bfd"], text("[]"));
    let d = doc(true, &[]);
    assert_eq!(d["ospf"], text("{}"));
}

#[test]
fn identity_values_accept_a_module_prefix() {
    let mut s = text(state());
    let lsa = &mut s["ietf-routing:routing"]["control-plane-protocols"]["control-plane-protocol"]
        [0]["ietf-ospf:ospf"]["areas"]["area"][0]["database"]["area-scope-lsa-type"][0]
        ["area-scope-lsas"]["area-scope-lsa"][0]["ospfv2"];
    lsa["header"]["type"] = Value::from("ietf-ospf:ospfv2-router-lsa");
    lsa["body"]["router"]["links"]["link"][0]["type"] =
        Value::from("ietf-ospf:transit-network-link");
    let d = doc(true, &[&s.to_string()]);
    let links = d["ospf"]["mgmt"]["self_lsa_links"].as_array().unwrap();
    assert_eq!(links.len(), 2);
    assert_eq!(links[0]["type"], "transit-network-link");
}

#[test]
fn an_advertisement_is_our_own_by_the_value_of_its_router() {
    let own = |id: &str, router: &str| {
        let mut s = text(state());
        let ospf = &mut s["ietf-routing:routing"]["control-plane-protocols"]
            ["control-plane-protocol"][0]["ietf-ospf:ospf"];
        ospf["router-id"] = text(id);
        ospf["areas"]["area"][0]["database"]["area-scope-lsa-type"][0]["area-scope-lsas"]
            ["area-scope-lsa"][0]["ospfv2"]["header"]["adv-router"] = text(router);
        let d = doc(true, &[&s.to_string()]);
        d["ospf"]["mgmt"]["self_lsa_links"].as_array().unwrap().len()
    };
    assert_eq!(own("0.0", "-0.0"), 2);
    assert_eq!(own(r#"{"a": 1, "b": 2}"#, r#"{"b": 2, "a": 1}"#), 2);
    assert_eq!(own("0.0", "0.5"), 0);
    assert_eq!(own("[1, 2]", "[2, 1]"), 0);
}

// ---- the engine's word on an interface ----

fn adjacency(state: &str) -> String {
    format!(
        r#"{{"ospf": {{"mgmt": {{"interfaces": {{"cfab-mg-fb": {{"neighbors": [
            {{"router_id": "10.249.0.2", "state": "{state}"}} ]}} }} }} }} }}"#
    )
}

fn router(node: u32) -> u32 {
    (10 << 24) + (249 << 16) + node
}

#[test]
fn a_peer_is_below_two_way_by_its_state_or_its_absence() {
    for (state, above) in [
        ("down", false),
        ("attempt", false),
        ("init", false),
        ("2-way", true),
        ("exstart", true),
        ("exchange", true),
        ("loading", true),
        ("full", true),
    ] {
        assert_eq!(at_least_two_way(state), above, "{state}");
        let reply = adjacency(state);
        assert_eq!(
            peers_all_below_two_way(Some(&reply), "mgmt", "cfab-mg-fb", &vec![router(2)]),
            Some(!above),
            "{state}"
        );
    }
    let d = Json::parse(&adjacency("full")).unwrap();
    let nbrs = ospf_neighbors(&d, "mgmt", "cfab-mg-fb").unwrap();
    assert_eq!(neighbor_state(nbrs, "10.249.0.2"), Some("full"));
    assert_eq!(neighbor_state(nbrs, "10.249.0.3"), None);
    // A peer that is not there at all is below.
    assert_eq!(all_below_two_way(&d, "mgmt", "cfab-mg-fb", &vec![router(3)]), Some(true));
    assert_eq!(
        all_below_two_way(&d, "mgmt", "cfab-mg-fb", &vec![router(3), router(2)]),
        Some(false)
    );
}

#[test]
fn an_engine_that_says_nothing_of_the_interface_has_no_word_on_it() {
    let peers = vec![router(2)];
    let reply = adjacency("full");
    for (r, zone, ifname) in [
        (None, "mgmt", "cfab-mg-fb"),
        (Some("not json"), "mgmt", "cfab-mg-fb"),
        (Some("{}"), "mgmt", "cfab-mg-fb"),
        (Some(reply.as_str()), "cluster", "cfab-mg-fb"),
        (Some(reply.as_str()), "mgmt", "cfab-mg"),
    ] {
        assert_eq!(peers_all_below_two_way(r, zone, ifname, &peers), None);
    }
}

// ---- the socket ----

#[test]
fn the_protocol_is_three_verbs_and_nothing_else() {
    assert_eq!(parse_request("state\n"), Some(Request::State));
    assert_eq!(
        parse_request("transit-cost leaf\n"),
        Some(Request::TransitCost(TransitCost::LeafOffset))
    );
    assert_eq!(
        parse_request("transit-cost normal\n"),
        Some(Request::TransitCost(TransitCost::Declared))
    );
    for bogus in [
        "",
        "State",
        "transit-cost",
        "transit-cost lea",
        "transit-cost leaf x",
        "workload-routes",
        "workload-routes cfab-work-vms",
    ] {
        assert_eq!(parse_request(bogus), None, "{bogus:?}");
    }
}

fn routes(cidrs: &[&str]) -> Vec<Ipv4Prefix> {
    cidrs.iter().map(|c| Ipv4Prefix::parse(c).unwrap()).collect()
}

#[test]
fn workload_routes_carries_a_leg_an_ifindex_and_the_whole_wanted_set() {
    assert_eq!(
        parse_request("workload-routes cfab-work-vms 42 192.168.20.103/32\n"),
        Some(Request::WorkloadRoutes {
            leg: "cfab-work-vms".into(),
            ifindex: 42,
            cidrs: routes(&["192.168.20.103/32"]),
        })
    );
    assert_eq!(
        parse_request("workload-routes cfab-work-vms 42\n"),
        Some(Request::WorkloadRoutes {
            leg: "cfab-work-vms".into(),
            ifindex: 42,
            cidrs: routes(&[]),
        })
    );
    // More than one, each once and in order, whatever order they come in.
    assert_eq!(
        parse_request(
            "workload-routes cfab-work-vms 7 192.168.20.104/32 192.168.20.103/32 192.168.20.104/32\n"
        ),
        Some(Request::WorkloadRoutes {
            leg: "cfab-work-vms".into(),
            ifindex: 7,
            cidrs: routes(&["192.168.20.103/32", "192.168.20.104/32"]),
        })
    );
}

#[test]
fn a_malformed_workload_routes_request_is_refused_whole() {
    for bogus in [
        "workload-routes cfab-work-vms 42 nonsense",
        "workload-routes cfab-work-vms 42 192.168.20.103/33",
        "workload-routes cfab-work-vms 42 192.168.20.256/32",
        "workload-routes cfab-work-vms 42 192.168.20.103/24", // host bits set
        "workload-routes cfab-work-vms 42 192.168.20.103/32 nonsense",
        "workload-routes cfab-work-vms -1 192.168.20.103/32",
        "workload-routes cfab-work-vms notanifindex 192.168.20.103/32",
        "workload-routes cfab-work-vms 42 ::1/128",
    ] {
        assert_eq!(parse_request(bogus), None, "{bogus:?}");
    }
}

#[test]
fn a_route_is_a_network_in_any_form_that_is_read() {
    // A mask in place of a length, and no length at all.
    assert_eq!(
        parse_request("workload-routes w 1 10.2.0.0/255.255.0.0 10.1.1.1"),
        Some(Request::WorkloadRoutes {
            leg: "w".into(),
            ifindex: 1,
            cidrs: routes(&["10.1.1.1/32", "10.2.0.0/16"]),
        })
    );
    assert_eq!(parse_request("workload-routes w 1 10.2.0.0/255.0.255.0"), None);
}

#[test]
fn a_request_is_summed_up_in_one_line() {
    for (line, summary) in [
        ("state", "state"),
        ("transit-cost leaf", "transit-cost leaf"),
        (
            "workload-routes cfab-work-vms 42 10.0.0.1/32 10.0.0.2/32",
            "workload-routes cfab-work-vms 42 (2 routes)",
        ),
    ] {
        assert_eq!(parse_request(line).unwrap().summary(), summary);
    }
}

#[test]
fn the_answers_of_the_engine() {
    assert_eq!(
        value(&unknown_request("bo\"gus\n")),
        text(r#"{"error": "unknown request \"bo\\\"gus\""}"#)
    );
    assert_eq!(value(&unknown_answer_of("x")), text(r#"{"error": "unknown request x"}"#));
    assert_eq!(
        value(&transit_answer(TransitCost::LeafOffset)),
        text(r#"{"transit_cost": "leaf"}"#)
    );
}

#[test]
fn a_live_engine_is_never_taken_over() {
    assert!(refuse_if_live(false, "/run/cfab/engine.sock").is_ok());
    assert_eq!(
        refuse_if_live(true, "/run/cfab/engine.sock").unwrap_err().to_string(),
        "FATAL: another engine is running (answering on /run/cfab/engine.sock); stop it first (cfab down)"
    );
    assert_eq!(
        already_running(Some(7), &file_in("/run/cfab", LOCK_NAME)).to_string(),
        "FATAL: another engine is running (pid 7 per /run/cfab/engine.lock); stop it first (cfab down)"
    );
    assert_eq!(
        already_running(None, &file_in("/run/cfab", SOCK_NAME)).to_string(),
        "FATAL: another engine is running (pid unknown per /run/cfab/engine.sock); \
         stop it first (cfab down)"
    );
}

#[test]
fn what_wakes_the_engine_decides_what_it_does() {
    assert!(matches!(on_event(Event::Accepted), Next::Serve));
    assert!(matches!(on_event(Event::Ignore), Next::Wait));
    assert!(matches!(on_event(Event::Signal), Next::Stop));
    assert!(matches!(on_event(Event::ProvidersGone), Next::Fail(_)));
}

// ---- the providers ----

fn change(path: &str, data_path: &str) -> ConfigChange {
    ConfigChange {
        path: path.to_string(),
        op: ChangeOp::Create,
        data_path: data_path.to_string(),
    }
}

fn owned(paths: &[(&str, usize)]) -> TextMap<usize> {
    let mut m = TextMap::new();
    for (p, i) in paths {
        m.insert(p.to_string(), *i);
    }
    m
}

#[test]
fn unmapped_change_is_named() {
    let paths = owned(&[("/ietf-interfaces:interfaces/interface", 0)]);
    let mut changes = vec![
        change(
            "/ietf-interfaces:interfaces/interface",
            "/ietf-interfaces:interfaces/interface[name='cfab-st']",
        ),
        change(
            "/ietf-interfaces:interfaces/interface/description",
            "/ietf-interfaces:interfaces/interface[name='cfab-st']/description",
        ),
    ];
    assert_eq!(
        first_unmapped(&changes, &paths),
        Some("/ietf-interfaces:interfaces/interface[name='cfab-st']/description")
    );
    assert_eq!(
        to_commit(false, &changes, &paths).unwrap_err().to_string(),
        "FATAL: engine: no provider owns configuration path \
         /ietf-interfaces:interfaces/interface[name='cfab-st']/description \
         (holo-yang module set and started providers disagree; refusing to drop it silently)"
    );
    assert!(!to_commit(true, &changes, &paths).unwrap());
    changes.truncate(1);
    assert_eq!(first_unmapped(&changes, &paths), None);
    assert!(to_commit(false, &changes, &paths).unwrap());
}

#[test]
fn a_path_belongs_to_the_nearest_registered_one_above_it() {
    let registered = owned(&[("/a", 0), ("/a/b", 1), ("/c", 2)]);
    let paths: Vec<String> = ["/a", "/a/x", "/a/b", "/a/b/y/z", "/c/d", "/e/f"]
        .iter()
        .map(|p| p.to_string())
        .collect();
    let m = resolve_provider_paths(&paths, &registered);
    assert_eq!(m.get("/a"), Some(&0));
    assert_eq!(m.get("/a/x"), Some(&0));
    assert_eq!(m.get("/a/b"), Some(&1));
    assert_eq!(m.get("/a/b/y/z"), Some(&1));
    assert_eq!(m.get("/c/d"), Some(&2));
    assert_eq!(m.get("/e/f"), None);
}

#[test]
fn each_provider_gets_its_own_changes_in_order() {
    let m = owned(&[("/a", 0), ("/b", 2)]);
    let changes = vec![change("/a", "/a[1]"), change("/b", "/b[1]"), change("/a", "/a[2]")];
    let b = batches(&changes, &m, 3);
    assert_eq!(b.len(), 3);
    assert_eq!(b[0], vec![change("/a", "/a[1]"), change("/a", "/a[2]")]);
    assert!(b[1].is_empty());
    assert_eq!(b[2], vec![change("/b", "/b[1]")]);
}

#[test]
fn a_provider_is_told_what_is_done_to_each_node() {
    let m = owned(&[("/a", 0), ("/b", 1)]);
    let with = |path: &str, data_path: &str, op: ChangeOp| ConfigChange {
        op,
        ..change(path, data_path)
    };
    let changes = vec![
        with("/a", "/a[1]", ChangeOp::Delete),
        with("/b", "/b[1]", ChangeOp::Create),
        with("/a", "/a[1]", ChangeOp::Modify),
    ];
    let b = batches(&changes, &m, 2);
    let ops = |c: &Vec<ConfigChange>| c.iter().map(|x| x.op).collect::<Vec<_>>();
    assert_eq!(ops(&b[0]), vec![ChangeOp::Delete, ChangeOp::Modify]);
    assert_eq!(ops(&b[1]), vec![ChangeOp::Create]);
}

/// Every phase that is asked for, in order, and how it ends.
fn run(providers: usize, replies: Vec<Reply>) -> (Vec<(CommitPhase, usize)>, Commit) {
    let mut asked = Vec::new();
    let mut c = Commit::start(providers);
    for r in &replies {
        match &c {
            Commit::Asking { phase, next, .. } => asked.push((*phase, *next)),
            _ => panic!("asked after the end"),
        }
        c = c.step(r);
    }
    (asked, c)
}

#[test]
fn a_commit_prepares_everywhere_before_it_applies_anywhere() {
    let (asked, end) = run(
        2,
        vec![Reply::Accepted, Reply::Accepted, Reply::Accepted, Reply::Accepted],
    );
    assert_eq!(
        asked,
        vec![
            (CommitPhase::Prepare, 0),
            (CommitPhase::Prepare, 1),
            (CommitPhase::Apply, 0),
            (CommitPhase::Apply, 1),
        ]
    );
    assert_eq!(end, Commit::Applied);
    assert_eq!(Commit::start(0), Commit::Applied);
}

#[test]
fn a_refused_prepare_aborts_everywhere_and_is_what_is_reported() {
    let (asked, end) = run(
        2,
        vec![
            Reply::Accepted,
            Reply::Rejected(NbError::Prepare {
                message: "no such policy".to_string(),
                path: "/a".to_string(),
            }),
            Reply::Accepted,
            Reply::Accepted,
        ],
    );
    assert_eq!(asked[2..], [(CommitPhase::Abort, 0), (CommitPhase::Abort, 1)]);
    match end {
        Commit::Failed { why } => {
            assert_eq!(why, "engine: commit Prepare rejected: no such policy at /a");
        }
        other => panic!("{other:?}"),
    }
}

#[test]
fn a_refused_apply_fails_at_once() {
    for (reply, why) in [
        (Reply::Exited, "engine: a provider exited during commit"),
        (Reply::Dropped, "engine: a provider dropped its commit response"),
    ] {
        let (_, end) = run(1, vec![Reply::Accepted, reply]);
        assert_eq!(end, Commit::Failed { why: why.to_string() });
    }
}

#[test]
fn a_schema_error_says_what_and_where() {
    let mut e = YangError {
        msg: Some("bad leaf".to_string()),
        code: 7,
        path: None,
    };
    assert_eq!(yang_err(&e), "bad leaf");
    e.path = Some("/a/b".to_string());
    assert_eq!(yang_err(&e), "bad leaf (path /a/b)");
    assert_eq!(
        rejected_tree(&e).to_string(),
        "FATAL: engine: configuration tree rejected: bad leaf (path /a/b)"
    );
    e.msg = None;
    assert_eq!(yang_err(&e), "libyang error 7 (path /a/b)");
    let s = |t: &str| t.to_string();
    for (n, shown) in [
        (NbError::Validate { message: s("no"), path: s("/x") }, "no at /x"),
        (
            NbError::Parse { path: s("/x"), shown: s("odd") },
            "cannot parse change at /x: odd",
        ),
        (NbError::Prepare { message: s("no"), path: s("/x") }, "no at /x"),
        (NbError::Plain { shown: s("odd") }, "odd"),
        (NbError::Yang { shown: s("odd"), error: e }, "odd: libyang error 7 (path /a/b)"),
    ] {
        assert_eq!(nb_err(&n), shown);
        assert_eq!(
            invalid_configuration(&n).to_string(),
            format!("FATAL: engine: configuration validation failed: {shown}")
        );
    }
}

#[test]
fn an_empty_print_is_an_empty_tree() {
    assert_eq!(value(&read_state("").unwrap()), text("{}"));
    assert_eq!(value(&read_state(r#"{"a": 1}"#).unwrap()), text(r#"{"a": 1}"#));
    assert!(read_state("{").is_none());
}
