//! Text, JSON values and sets.

use uncia::document::{read_json, write_json};
use uncia::json::{array_of, strings_of, JsonNumber, JsonValue, Object};
use uncia::set::TextSet;
use uncia::text::{
    copied_texts, decimal_text, integer_text, joined_text, sorted_texts, starts_with, tail_after,
};
use uncia::types::resource::text_of;
use uncia::{Config, ResourceKind};
use uncia::store::sqlite::SqliteStore;
use uncia::DriftReport;

fn json(text: &str) -> JsonValue {
    read_json(text).unwrap()
}

fn strings(list: &[&str]) -> Vec<String> {
    list.iter().map(|s| s.to_string()).collect()
}

#[test]
fn numbers_are_written_in_decimal() {
    assert_eq!(decimal_text(0), "0");
    assert_eq!(decimal_text(7), "7");
    assert_eq!(decimal_text(10), "10");
    assert_eq!(decimal_text(u64::MAX as u128), "18446744073709551615");
    assert_eq!(integer_text(-42), "-42");
    assert_eq!(integer_text(0), "0");
    assert_eq!(integer_text(i64::MIN), "-9223372036854775808");
    assert_eq!(integer_text(i64::MAX), "9223372036854775807");
}

#[test]
fn texts_sort_by_code_point() {
    assert_eq!(
        sorted_texts(strings(&["b", "a", "", "B", "ab", "a", "é"])),
        strings(&["", "B", "a", "a", "ab", "b", "é"])
    );
    assert_eq!(copied_texts(&strings(&["x", "y"])), strings(&["x", "y"]));
}

#[test]
fn texts_join_and_split() {
    assert_eq!(joined_text(&strings(&["a", "b", "c"]), ", "), "a, b, c");
    assert_eq!(joined_text(&strings(&["a"]), ", "), "a");
    assert_eq!(joined_text(&strings(&[]), ", "), "");
    assert_eq!(tail_after("a/b/c", '/'), "c");
    assert_eq!(tail_after("abc", '/'), "abc");
    assert!(starts_with("1.0", "1."));
    assert!(!starts_with("1", "1."));
    assert!(starts_with("anything", ""));
}

#[test]
fn a_document_reads_as_the_value_it_writes() {
    let value = json(r#"{"b": [true, null, -7, "x\n\"y\""], "a": {"k": 18446744073709551615}}"#);
    assert_eq!(
        write_json(&value),
        r#"{"a":{"k":18446744073709551615},"b":[true,null,-7,"x\n\"y\""]}"#
    );
    assert_eq!(json(&write_json(&value)), value);
}

#[test]
fn what_is_not_json_is_an_error() {
    assert!(read_json("").is_err());
    assert!(read_json("{").is_err());
    assert!(read_json("[1,]").is_err());
    assert!(read_json("1 2").is_err());
}

#[test]
fn values_say_what_they_are() {
    let value = json(r#"{"t": "x", "n": 5, "m": -5, "f": 1.5, "b": true, "z": null, "l": [1]}"#);
    assert_eq!(value.get("t").unwrap().as_str(), Some("x"));
    assert_eq!(value.get("n").unwrap().as_i64(), Some(5));
    assert_eq!(value.get("n").unwrap().as_u64(), Some(5));
    assert_eq!(value.get("m").unwrap().as_i64(), Some(-5));
    assert_eq!(value.get("m").unwrap().as_u64(), None);
    assert_eq!(value.get("f").unwrap().as_i64(), None);
    assert_eq!(value.get("f").unwrap().as_u64(), None);
    assert_eq!(value.get("b").unwrap().as_bool(), Some(true));
    assert_eq!(value.get("z"), Some(&JsonValue::Null));
    assert_eq!(value.get("l").unwrap().as_array().map(|l| l.len()), Some(1));
    assert_eq!(value.get("absent"), None);
    assert_eq!(json("[1]").get("t"), None);
    assert_eq!(json("9223372036854775808").as_i64(), None);
}

#[test]
fn equality_is_of_the_values_and_not_of_their_order() {
    assert_eq!(json(r#"{"a": 1, "b": 2}"#), json(r#"{"b": 2, "a": 1}"#));
    assert_ne!(json("[1, 2]"), json("[2, 1]"));
    assert_ne!(json("1"), json("1.0"));
    assert_ne!(json("1"), json("\"1\""));
    assert_eq!(json("1.50"), json("1.5"));
    assert_eq!(json("0.0"), json("-0.0"));
    assert_ne!(json(r#"{"a": null}"#), json("{}"));
}

#[test]
fn equality_is_an_equivalence() {
    let a = json(r#"[{"x": [0.0, "t"]}, null]"#);
    let b = json(r#"[{"x": [-0.0, "t"]}, null]"#);
    let c = a.clone();
    assert_eq!(a, a);
    assert_eq!(a, b);
    assert_eq!(b, a);
    assert_eq!(b, c);
    assert_eq!(a, c);
}

#[test]
fn the_last_entry_under_a_key_counts() {
    assert_eq!(json(r#"{"a": 1, "a": 2}"#), json(r#"{"a": 2}"#));
    let mut object = Object::new();
    object.insert("k".to_string(), JsonValue::from_i64(1));
    object.insert("k".to_string(), JsonValue::from_text("v"));
    assert_eq!(object.get("k").and_then(|v| v.as_str()), Some("v"));
    assert!(object.contains_key("k"));
    assert!(!object.contains_key("other"));
    assert_eq!(text_of(&object, "k"), Some("v"));
    assert_eq!(text_of(&object, "other"), None);
}

#[test]
fn the_texts_of_an_array_are_those_that_are_texts() {
    assert_eq!(strings_of(Some(&json(r#"["a", 1, "b", null]"#))), strings(&["a", "b"]));
    assert!(strings_of(Some(&json("\"a\""))).is_empty());
    assert!(strings_of(None).is_empty());
    assert_eq!(array_of(&strings(&["a", "b"])), json(r#"["a", "b"]"#));
    assert_eq!(strings_of(Some(&array_of(&strings(&["x", "x"])))), strings(&["x", "x"]));
}

#[test]
fn numbers_keep_their_text() {
    let number = |text: &str| match json(text) {
        JsonValue::Number(n) => n.text(),
        other => panic!("not a number: {other:?}"),
    };
    assert_eq!(number("0"), "0");
    assert_eq!(number("-3"), "-3");
    assert_eq!(number("2.5"), "2.5");
    assert!(matches!(json("3"), JsonValue::Number(JsonNumber::PosInt(3))));
    assert!(matches!(json("-3"), JsonValue::Number(JsonNumber::NegInt(-3))));
}

#[test]
fn a_set_holds_each_text_once_and_in_order() {
    let mut set = TextSet::new();
    assert!(set.is_empty());
    for text in ["b", "a", "b", "c", "a"] {
        set.insert(text.to_string());
    }
    assert_eq!(*set.members(), strings(&["a", "b", "c"]));
    assert!(set.contains("b"));
    assert!(!set.contains("d"));

    let mut other = TextSet::new();
    other.insert("c".to_string());
    other.insert("d".to_string());
    set.extend(&other);
    assert_eq!(*set.members(), strings(&["a", "b", "c", "d"]));
    assert_ne!(set, other);
    assert_eq!(set, set.clone());
}

#[test]
fn a_kind_is_named_by_its_terraform_type() {
    for name in [
        "aws_security_group",
        "aws_instance",
        "aws_lb",
        "aws_lb_target_group",
        "aws_security_group_rule",
        "aws_vpc_security_group_ingress_rule",
        "aws_vpc_security_group_egress_rule",
        "aws_lb_target_group_attachment",
        "aws_lambda_function",
        "aws_db_instance",
        "aws_ecs_service",
        "aws_network_acl",
        "aws_s3_bucket",
    ] {
        let kind = ResourceKind::from_terraform_type(name);
        assert_eq!(kind.as_str(), name);
        assert!(kind.same_as(&kind.clone()));
    }
    assert_eq!(ResourceKind::from_terraform_type("aws_alb"), ResourceKind::AwsLoadBalancer);
    assert_eq!(
        ResourceKind::from_terraform_type("aws_default_network_acl"),
        ResourceKind::AwsNetworkAcl
    );
    assert!(!ResourceKind::AwsInstance.same_as(&ResourceKind::AwsDbInstance));
    assert!(!ResourceKind::Other("a".to_string()).same_as(&ResourceKind::Other("b".to_string())));
}

#[test]
fn configuration_and_store_open() {
    assert!(Config::resolve().is_ok());
    let store = SqliteStore::open("history.db").unwrap();
    assert!(store.record(&DriftReport::default()).is_ok());
}
