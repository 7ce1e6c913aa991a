//! JSON values, texts and the ordered map.

use cfab::ipv4::Ipv4Addr;
use cfab::json::Json;
use cfab::model::prefix::Ipv4Prefix;
use cfab::textmap::{sorts_before, TextMap};
use cfab::time::{Duration, Instant};

fn parse(text: &str) -> Json {
    Json::parse(text).unwrap()
}

#[test]
fn every_kind_of_value_is_read() {
    assert!(matches!(parse("null"), Json::Null));
    assert!(matches!(parse(" true "), Json::Bool(true)));
    assert!(matches!(parse("18446744073709551615"), Json::Uint(u64::MAX)));
    assert!(matches!(parse("-9"), Json::Int(-9)));
    assert!(matches!(parse("0.5"), Json::Real(s) if s == "0.5"));
    assert!(matches!(parse("18446744073709551616"), Json::Real(_)));
    assert!(matches!(parse(r#""aé\n""#), Json::Str(s) if s == "aé\n"));
    assert!(matches!(parse("[1, [], {}]"), Json::Arr(v) if v.len() == 3));
}

#[test]
fn what_is_no_document_is_nothing() {
    for bad in ["", "{", "[1,]", "{'a': 1}", "1 2", "nul", "\"\n\""] {
        assert!(Json::parse(bad).is_none(), "{bad}");
    }
}

#[test]
fn an_object_keeps_its_order_and_its_last_value() {
    match parse(r#"{"b": 1, "a": 2, "b": 3}"#) {
        Json::Obj(v) => {
            assert_eq!((v[0].0.as_str(), v[1].0.as_str(), v.len()), ("b", "a", 2));
            assert_eq!(v[0].1.as_u64(), Some(3));
        }
        other => panic!("{other:?}"),
    }
}

#[test]
fn a_value_is_found_by_its_key() {
    let j = parse(r#"{"a": {"b": "x"}, "n": 7}"#);
    assert_eq!(j.at("a").at("b").as_str(), Some("x"));
    assert!(j.at("a").at("b").is_str("x"));
    assert!(j.get("c").is_none());
    assert!(matches!(j.at("c"), Json::Null));
    assert!(matches!(j.at("n").at("deeper"), Json::Null));
    assert_eq!(j.at("n").as_u64(), Some(7));
    assert_eq!(j.at("n").as_str(), None);
}

#[test]
fn values_are_built_and_compared() {
    let names = vec!["x".to_string(), "y".to_string()];
    let j = Json::empty()
        .with("a", Json::Uint(1))
        .with("b", Json::strings(&names))
        .set("a", Json::Null)
        .set("c", Json::str("z"));
    assert!(j.same(&parse(r#"{"a": null, "b": ["x", "y"], "c": "z"}"#)));
    assert!(j.same(&j.copy()));
    for other in [
        r#"{"a": null, "b": ["x"], "c": "z"}"#,
        r#"{"a": null, "b": ["y", "x"], "c": "z"}"#,
        r#"{"a": null, "b": ["x", "z"], "c": "z"}"#,
        r#"{"a": null, "b": ["x", "y"], "d": "z"}"#,
        "[]",
    ] {
        assert!(!j.same(&parse(other)), "{other}");
    }
    assert!(!Json::Uint(1).same(&Json::Int(1)));
}

#[test]
fn two_values_are_the_same_whatever_the_order_of_their_keys() {
    let a = parse(r#"{"a": null, "b": [{"x": 1, "y": 2}], "c": "z"}"#);
    let b = parse(r#"{"c": "z", "b": [{"y": 2, "x": 1}], "a": null}"#);
    assert!(a.same(&b) && b.same(&a));
    assert!(!a.same(&parse(r#"{"c": "z", "b": [{"y": 1, "x": 2}], "a": null}"#)));
}

#[test]
fn the_two_zeros_are_the_same_number() {
    assert!(parse("0.0").same(&parse("-0.0")));
    assert!(parse("[-0.0]").same(&parse("[0.0]")));
    assert!(parse("1.5").same(&parse("1.50")));
    assert!(!parse("1.5").same(&parse("-1.5")));
    assert!(!parse("0.0").same(&parse("0")));
}

#[test]
fn the_map_is_walked_in_the_order_of_its_keys() {
    let mut m = TextMap::new();
    for (k, v) in [("b", 1), ("a", 2), ("ab", 3), ("b", 4)] {
        m.insert(k.to_string(), v);
    }
    let walked: Vec<(String, i32)> =
        (0..m.len()).map(|i| (m.key_at(i).clone(), *m.value_at(i))).collect();
    let want = [("a", 2), ("ab", 3), ("b", 4)];
    assert_eq!(walked, want.map(|(k, v)| (k.to_string(), v)));
    assert_eq!(m.get("ab"), Some(&3));
    assert_eq!(m.get("c"), None);
    assert!(sorts_before("a", "ab") && sorts_before("Z", "a") && !sorts_before("a", "a"));
}

#[test]
fn an_address_is_four_numbers() {
    let a = Ipv4Addr::parse("10.99.0.254").unwrap();
    assert_eq!(a.octets(), [10, 99, 0, 254]);
    assert_eq!(a.to_string(), "10.99.0.254");
    assert_eq!(Ipv4Addr::new(10, 99, 0, 254), a);
    for bad in ["", "10.99.0", "10.99.0.256", "10.99.0.01", "10.99.0.1 ", "1.2.3.4.5", "a.b.c.d"] {
        assert!(Ipv4Addr::parse(bad).is_none(), "{bad}");
    }
}

#[test]
fn two_networks_overlap_where_they_share_an_address() {
    let p = |s: &str| Ipv4Prefix::parse(s).unwrap();
    assert!(p("10.0.0.0/8").overlaps(&p("10.9.0.0/16")));
    assert!(p("10.9.0.0/16").overlaps(&p("10.0.0.0/8")));
    assert!(!p("10.8.0.0/16").overlaps(&p("10.9.0.0/16")));
    assert!(p("0.0.0.0/0").overlaps(&p("10.9.0.1/32")));
    assert!(p("10.9.0.0/30").contains(Ipv4Addr::new(10, 9, 0, 3)));
    assert!(!p("10.9.0.0/30").contains(Ipv4Addr::new(10, 9, 0, 4)));
    assert_eq!(p("10.9.0.0/30").broadcast().to_string(), "10.9.0.3");
    assert_eq!(p("10.9.0.0/22").netmask().to_string(), "255.255.252.0");
}

#[test]
fn time_is_counted_in_nanoseconds() {
    assert_eq!(Duration::from_secs(3), Duration::from_millis(3000));
    assert_eq!(Duration::from_millis(1500).as_millis(), 1500);
    let t = Instant { ns: 5 };
    assert_eq!(t.after(Duration { ns: 7 }), Instant { ns: 12 });
}
