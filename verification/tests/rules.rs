//! Rules in their three shapes, and the atoms they reduce to.

use uncia::diff::rules::{explode_rules, rule_base, sibling_rule_atoms, SiblingRules};
use uncia::document::read_json;
use uncia::json::{JsonValue, Object};
use uncia::set::TextSet;
use uncia::{Resource, ResourceId, ResourceKind};

fn json(text: &str) -> JsonValue {
    read_json(text).unwrap()
}

fn attrs(v: JsonValue) -> Object {
    match v {
        JsonValue::Object(entries) => entries,
        other => panic!("not an object: {other:?}"),
    }
}

fn set(members: &[&str]) -> TextSet {
    let mut set = TextSet::new();
    for member in members {
        set.insert(member.to_string());
    }
    set
}

#[test]
fn all_traffic_rule_normalizes_absent_ports_and_protocol() {
    assert_eq!(rule_base(&json(r#"{}"#)), "-1/0-0");
    assert_eq!(
        rule_base(&json(r#"{"protocol": "tcp", "from_port": 443, "to_port": 443}"#)),
        "tcp/443-443"
    );
}

#[test]
fn protocol_all_and_minus_one_are_the_same_rule() {
    assert_eq!(
        rule_base(&json(r#"{"protocol": "all"}"#)),
        rule_base(&json(r#"{}"#))
    );
}

#[test]
fn grouping_of_sources_into_rules_is_not_meaningful() {
    let split = json(r#"[
        {
            "protocol": "tcp", "from_port": 443, "to_port": 443, "cidr_blocks": ["10.0.0.0/8"]
        },
        {
            "protocol": "tcp", "from_port": 443, "to_port": 443,
            "cidr_blocks": ["192.168.0.0/16"]
        }
    ]"#);
    let grouped = json(r#"[
        {
            "protocol": "tcp", "from_port": 443, "to_port": 443,
            "cidr_blocks": ["192.168.0.0/16", "10.0.0.0/8"]
        }
    ]"#);
    assert_eq!(explode_rules(&split), explode_rules(&grouped));
}

#[test]
fn self_reference_and_group_sources_are_distinct_atoms() {
    let atoms = explode_rules(&json(r#"[
        {
            "protocol": "tcp", "from_port": 443, "to_port": 443, "security_groups": ["sg-app"],
            "self": true
        }
    ]"#));
    assert!(atoms.contains("tcp/443-443/sg:sg-app"), "{atoms:?}");
    assert!(atoms.contains("tcp/443-443/self"), "{atoms:?}");
}

#[test]
fn a_non_array_rule_list_explodes_to_nothing() {
    assert!(explode_rules(&JsonValue::Null).is_empty());
}

#[test]
fn all_three_shapes_reduce_to_the_same_atom() {
    let inline = explode_rules(&json(r#"[
        {
            "protocol": "tcp", "from_port": 443, "to_port": 443, "cidr_blocks": ["10.0.0.0/8"]
        }
    ]"#));
    let legacy = sibling_rule_atoms(
        &ResourceKind::AwsSecurityGroupRule,
        &attrs(
            json(r#"{
                "type": "ingress", "protocol": "tcp", "from_port": 443, "to_port": 443,
                "cidr_blocks": ["10.0.0.0/8"]
            }"#),
        ),
        "sg-web",
    );
    let modern = sibling_rule_atoms(
        &ResourceKind::AwsVpcSecurityGroupIngressRule,
        &attrs(
            json(r#"{
                "ip_protocol": "tcp", "from_port": 443, "to_port": 443,
                "cidr_ipv4": "10.0.0.0/8"
            }"#),
        ),
        "sg-web",
    );

    assert_eq!(inline, legacy);
    assert_eq!(inline, modern);
    assert_eq!(
        inline,
        set(&["tcp/443-443/cidr:10.0.0.0/8"])
    );
}

#[test]
fn the_modern_form_reads_ip_protocol_not_protocol() {
    let atoms = sibling_rule_atoms(
        &ResourceKind::AwsVpcSecurityGroupIngressRule,
        &attrs(
            json(r#"{
                "ip_protocol": "tcp", "from_port": 443, "to_port": 443,
                "cidr_ipv4": "10.0.0.0/8"
            }"#),
        ),
        "sg-web",
    );
    assert!(atoms.contains("tcp/443-443/cidr:10.0.0.0/8"), "{atoms:?}");
}

#[test]
fn a_modern_reference_to_the_own_group_becomes_the_self_atom() {
    let atoms = sibling_rule_atoms(
        &ResourceKind::AwsVpcSecurityGroupIngressRule,
        &attrs(json(r#"{"ip_protocol": "-1", "referenced_security_group_id": "sg-web"}"#)),
        "sg-web",
    );
    assert_eq!(atoms, set(&["-1/0-0/self"]));
}

#[test]
fn a_legacy_source_of_the_own_group_becomes_the_self_atom() {
    let atoms = sibling_rule_atoms(
        &ResourceKind::AwsSecurityGroupRule,
        &attrs(json(r#"{"type": "ingress", "protocol": "-1", "source_security_group_id": "sg-web"}"#)),
        "sg-web",
    );
    assert_eq!(atoms, set(&["-1/0-0/self"]));
}

#[test]
fn a_reference_to_another_group_stays_a_group_atom() {
    let atoms = sibling_rule_atoms(
        &ResourceKind::AwsVpcSecurityGroupIngressRule,
        &attrs(
            json(r#"{
                "ip_protocol": "tcp", "from_port": 443, "to_port": 443,
                "referenced_security_group_id": "sg-app"
            }"#),
        ),
        "sg-web",
    );
    assert_eq!(atoms, set(&["tcp/443-443/sg:sg-app"]));
}

#[test]
fn ipv6_and_prefix_lists_survive_the_singular_to_plural_difference() {
    let modern = sibling_rule_atoms(
        &ResourceKind::AwsVpcSecurityGroupIngressRule,
        &attrs(
            json(r#"{
                "ip_protocol": "tcp", "from_port": 443, "to_port": 443, "cidr_ipv6": "::/0",
                "prefix_list_id": "pl-1"
            }"#),
        ),
        "sg-web",
    );
    let inline = explode_rules(&json(r#"[
        {
            "protocol": "tcp", "from_port": 443, "to_port": 443, "ipv6_cidr_blocks": ["::/0"],
            "prefix_list_ids": ["pl-1"]
        }
    ]"#));
    assert_eq!(modern, inline);
}

fn rule_resource(address: &str, kind: ResourceKind, values: JsonValue) -> Resource {
    Resource {
        id: ResourceId(address.to_string()),
        kind,
        attributes: attrs(values),
    }
}

#[test]
fn the_index_separates_directions_and_groups() {
    let declared = [
        rule_resource(
            "aws_vpc_security_group_ingress_rule.a",
            ResourceKind::AwsVpcSecurityGroupIngressRule,
            json(r#"{
                "security_group_id": "sg-web", "ip_protocol": "tcp", "from_port": 443,
                "to_port": 443, "cidr_ipv4": "0.0.0.0/0"
            }"#),
        ),
        rule_resource(
            "aws_vpc_security_group_egress_rule.b",
            ResourceKind::AwsVpcSecurityGroupEgressRule,
            json(r#"{
                "security_group_id": "sg-web", "ip_protocol": "-1", "cidr_ipv4": "0.0.0.0/0"
            }"#),
        ),
        rule_resource(
            "aws_vpc_security_group_ingress_rule.other",
            ResourceKind::AwsVpcSecurityGroupIngressRule,
            json(r#"{
                "security_group_id": "sg-other", "ip_protocol": "tcp", "from_port": 22,
                "to_port": 22, "cidr_ipv4": "0.0.0.0/0"
            }"#),
        ),
    ];
    let index = SiblingRules::index(&declared);

    assert_eq!(
        index.atoms("sg-web", "ingress"),
        set(&["tcp/443-443/cidr:0.0.0.0/0"])
    );
    assert_eq!(
        index.atoms("sg-web", "egress"),
        set(&["-1/0-0/cidr:0.0.0.0/0"])
    );
    assert_eq!(
        index.atoms("sg-other", "ingress"),
        set(&["tcp/22-22/cidr:0.0.0.0/0"])
    );
    assert!(index.atoms("sg-nothing", "ingress").is_empty());
}

#[test]
fn a_legacy_rule_with_no_type_contributes_nothing() {
    let declared = [rule_resource(
        "aws_security_group_rule.broken",
        ResourceKind::AwsSecurityGroupRule,
        json(r#"{"security_group_id": "sg-web", "protocol": "tcp"}"#),
    )];
    let index = SiblingRules::index(&declared);
    assert!(index.atoms("sg-web", "ingress").is_empty());
    assert!(index.atoms("sg-web", "egress").is_empty());
}

#[test]
fn a_rule_naming_no_group_contributes_nothing() {
    let declared = [rule_resource(
        "aws_vpc_security_group_ingress_rule.orphan",
        ResourceKind::AwsVpcSecurityGroupIngressRule,
        json(r#"{"ip_protocol": "tcp", "cidr_ipv4": "0.0.0.0/0"}"#),
    )];
    assert!(
        SiblingRules::index(&declared)
            .atoms("sg-web", "ingress")
            .is_empty()
    );
}
