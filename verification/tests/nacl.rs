//! Network ACLs decide by the lowest-numbered matching rule.

use uncia::diff::semantic::nacl::{evaluate, Verdict};
use uncia::json::{JsonValue, Object};

trait ToJson {
    fn to_json(self) -> JsonValue;
}

impl ToJson for JsonValue {
    fn to_json(self) -> JsonValue {
        self
    }
}

impl ToJson for &str {
    fn to_json(self) -> JsonValue {
        JsonValue::from_text(self)
    }
}

impl ToJson for String {
    fn to_json(self) -> JsonValue {
        JsonValue::from_text(&self)
    }
}

impl ToJson for i64 {
    fn to_json(self) -> JsonValue {
        JsonValue::from_i64(self)
    }
}

impl ToJson for bool {
    fn to_json(self) -> JsonValue {
        JsonValue::Bool(self)
    }
}

impl<T: ToJson + Clone> ToJson for &[T] {
    fn to_json(self) -> JsonValue {
        JsonValue::Array(self.iter().map(|v| v.clone().to_json()).collect())
    }
}

impl<T: ToJson> ToJson for Vec<T> {
    fn to_json(self) -> JsonValue {
        JsonValue::Array(self.into_iter().map(|v| v.to_json()).collect())
    }
}

fn value(v: impl ToJson) -> JsonValue {
    v.to_json()
}

fn object(entries: Vec<(&str, JsonValue)>) -> JsonValue {
    let mut map = Object::new();
    for (key, v) in entries {
        map.insert(key.to_string(), v);
    }
    JsonValue::Object(map)
}

fn array(items: Vec<JsonValue>) -> JsonValue {
    JsonValue::Array(items)
}

fn rule(rule_no: i64, action: &str, protocol: &str, cidr: &str, from: i64, to: i64) -> JsonValue {
    object(vec![
        ("rule_no", value(rule_no)),
        ("action", value(action)),
        ("protocol", value(protocol)),
        ("cidr_block", value(cidr)),
        ("ipv6_cidr_block", JsonValue::from_text("")),
        ("from_port", value(from)),
        ("to_port", value(to)),
        ("icmp_type", JsonValue::from_i64(0)),
        ("icmp_code", JsonValue::from_i64(0)),
    ])
}

fn ipv6_rule(
    rule_no: i64,
    action: &str,
    protocol: &str,
    cidr6: &str,
    from: i64,
    to: i64,
) -> JsonValue {
    object(vec![
        ("rule_no", value(rule_no)),
        ("action", value(action)),
        ("protocol", value(protocol)),
        ("cidr_block", JsonValue::from_text("")),
        ("ipv6_cidr_block", value(cidr6)),
        ("from_port", value(from)),
        ("to_port", value(to)),
        ("icmp_type", JsonValue::from_i64(0)),
        ("icmp_code", JsonValue::from_i64(0)),
    ])
}

#[test]
fn an_explicit_allow_rule_matching_the_flow_allows_it() {
    let entries = vec![rule(100, "allow", "6", "0.0.0.0/0", 443, 443)];
    assert_eq!(
        evaluate(&entries, "0.0.0.0/0", "6", 443, 443),
        Verdict::Allow
    );
}

#[test]
fn an_explicit_deny_rule_matching_the_flow_denies_it() {
    let entries = vec![rule(100, "deny", "6", "0.0.0.0/0", 443, 443)];
    assert_eq!(
        evaluate(&entries, "0.0.0.0/0", "6", 443, 443),
        Verdict::Deny
    );
}

#[test]
fn no_matching_rule_is_implicit_deny() {
    let entries = vec![rule(100, "allow", "6", "0.0.0.0/0", 22, 22)];
    assert_eq!(
        evaluate(&entries, "0.0.0.0/0", "6", 443, 443),
        Verdict::Deny
    );
}

#[test]
fn an_empty_rule_set_is_implicit_deny() {
    assert_eq!(evaluate(&[], "0.0.0.0/0", "6", 443, 443), Verdict::Deny);
}

#[test]
fn the_lowest_rule_number_wins_even_when_declared_out_of_order() {
    let entries = vec![
        rule(200, "allow", "-1", "0.0.0.0/0", 0, 0),
        rule(100, "deny", "6", "0.0.0.0/0", 443, 443),
    ];
    assert_eq!(
        evaluate(&entries, "0.0.0.0/0", "6", 443, 443),
        Verdict::Deny
    );
}

#[test]
fn a_lower_numbered_rule_for_a_different_flow_does_not_shadow_a_later_match() {
    let entries = vec![
        rule(100, "deny", "6", "0.0.0.0/0", 22, 22),
        rule(200, "allow", "6", "0.0.0.0/0", 443, 443),
    ];
    assert_eq!(
        evaluate(&entries, "0.0.0.0/0", "6", 443, 443),
        Verdict::Allow
    );
}

#[test]
fn protocol_all_matches_any_protocol_and_ignores_the_placeholder_port_range() {
    let entries = vec![rule(100, "allow", "-1", "0.0.0.0/0", 0, 0)];
    assert_eq!(
        evaluate(&entries, "0.0.0.0/0", "6", 443, 443),
        Verdict::Allow
    );
    assert_eq!(
        evaluate(&entries, "0.0.0.0/0", "17", 53, 53),
        Verdict::Allow
    );
}

#[test]
fn a_query_for_protocol_all_only_matches_an_unrestricted_rule() {
    let entries = vec![rule(100, "allow", "6", "0.0.0.0/0", 443, 443)];
    assert_eq!(evaluate(&entries, "0.0.0.0/0", "-1", 0, 0), Verdict::Deny);
}

#[test]
fn a_narrower_cidr_does_not_match_an_internet_wide_query() {
    let entries = vec![rule(100, "allow", "6", "10.0.0.0/8", 443, 443)];
    assert_eq!(
        evaluate(&entries, "0.0.0.0/0", "6", 443, 443),
        Verdict::Deny
    );
}

#[test]
fn an_ipv6_rule_matches_the_ipv6_literal_source() {
    let entries = vec![ipv6_rule(100, "allow", "6", "::/0", 443, 443)];
    assert_eq!(evaluate(&entries, "::/0", "6", 443, 443), Verdict::Allow);
    assert_eq!(
        evaluate(&entries, "0.0.0.0/0", "6", 443, 443),
        Verdict::Deny
    );
}

#[test]
fn a_port_within_a_ranged_rule_matches() {
    let entries = vec![rule(100, "allow", "6", "0.0.0.0/0", 1024, 65535)];
    assert_eq!(
        evaluate(&entries, "0.0.0.0/0", "6", 8080, 8080),
        Verdict::Allow
    );
}

#[test]
fn a_port_outside_the_ranged_rule_does_not_match() {
    let entries = vec![rule(100, "allow", "6", "0.0.0.0/0", 1024, 65535)];
    assert_eq!(evaluate(&entries, "0.0.0.0/0", "6", 80, 80), Verdict::Deny);
}

#[test]
fn a_query_range_fully_contained_in_the_rules_range_matches() {
    let entries = vec![rule(100, "allow", "6", "0.0.0.0/0", 1024, 65535)];
    assert_eq!(
        evaluate(&entries, "0.0.0.0/0", "6", 8000, 9000),
        Verdict::Allow
    );
}

#[test]
fn a_query_range_only_partially_covered_does_not_match() {
    let entries = vec![rule(100, "allow", "6", "0.0.0.0/0", 1024, 65535)];
    assert_eq!(evaluate(&entries, "0.0.0.0/0", "6", 80, 443), Verdict::Deny);
}
