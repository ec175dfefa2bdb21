//! Rules declared as resources of their own rather than inline blocks.

use uncia::diff::behavioral::compare;
use uncia::document::read_json;
use uncia::json::{JsonValue, Object};
use uncia::{DriftKind, LiveResource, Resource, ResourceId, ResourceKind};

fn json(text: &str) -> JsonValue {
    read_json(text).unwrap()
}

fn attrs(v: JsonValue) -> Object {
    match v {
        JsonValue::Object(entries) => entries,
        other => panic!("not an object: {other:?}"),
    }
}

trait ToJson {
    fn to_json(self) -> JsonValue;
}

impl ToJson for JsonValue {
    fn to_json(self) -> JsonValue {
        self
    }
}

impl ToJson for &str {
    fn to_json(self) -> JsonValue {
        JsonValue::from_text(self)
    }
}

impl ToJson for String {
    fn to_json(self) -> JsonValue {
        JsonValue::from_text(&self)
    }
}

impl ToJson for i64 {
    fn to_json(self) -> JsonValue {
        JsonValue::from_i64(self)
    }
}

impl ToJson for bool {
    fn to_json(self) -> JsonValue {
        JsonValue::Bool(self)
    }
}

impl<T: ToJson + Clone> ToJson for &[T] {
    fn to_json(self) -> JsonValue {
        JsonValue::Array(self.iter().map(|v| v.clone().to_json()).collect())
    }
}

impl<T: ToJson> ToJson for Vec<T> {
    fn to_json(self) -> JsonValue {
        JsonValue::Array(self.into_iter().map(|v| v.to_json()).collect())
    }
}

fn value(v: impl ToJson) -> JsonValue {
    v.to_json()
}

fn object(entries: Vec<(&str, JsonValue)>) -> JsonValue {
    let mut map = Object::new();
    for (key, v) in entries {
        map.insert(key.to_string(), v);
    }
    JsonValue::Object(map)
}

fn array(items: Vec<JsonValue>) -> JsonValue {
    JsonValue::Array(items)
}

fn declared(address: &str, kind: ResourceKind, values: JsonValue) -> Resource {
    Resource {
        id: ResourceId(address.to_string()),
        kind,
        attributes: attrs(values),
    }
}

fn declared_bare_group(address: &str, id: &str) -> Resource {
    declared(
        address,
        ResourceKind::AwsSecurityGroup,
        object(vec![
            ("id", value(id)),
            ("name", JsonValue::from_text("web")),
            ("description", JsonValue::from_text("d")),
            ("vpc_id", JsonValue::from_text("vpc-1")),
            ("tags", json(r#"{}"#)),
            ("ingress", json(r#"[]"#)),
            ("egress", json(r#"[]"#)),
        ]),
    )
}

fn live_group_with_ingress(id: &str, rules: JsonValue) -> LiveResource {
    LiveResource {
        cloud_id: id.to_string(),
        kind: ResourceKind::AwsSecurityGroup,
        attributes: attrs(object(vec![
            ("id", value(id)),
            ("name", JsonValue::from_text("web")),
            ("description", JsonValue::from_text("d")),
            ("vpc_id", JsonValue::from_text("vpc-1")),
            ("tags", json(r#"{}"#)),
            ("ingress", value(rules)),
            ("egress", json(r#"[]"#)),
        ])),
    }
}

fn live_rule(
    from: i64,
    to: i64,
    protocol: &str,
    cidrs: JsonValue,
    sgs: JsonValue,
    self_ref: bool,
) -> JsonValue {
    object(vec![
        ("from_port", value(from)),
        ("to_port", value(to)),
        ("protocol", value(protocol)),
        ("cidr_blocks", value(cidrs)),
        ("ipv6_cidr_blocks", json(r#"[]"#)),
        ("prefix_list_ids", json(r#"[]"#)),
        ("security_groups", value(sgs)),
        ("self", value(self_ref)),
    ])
}

fn modern_ingress_rule(address: &str, sg: &str, values: JsonValue) -> Resource {
    let mut v = attrs(values);
    v.insert("security_group_id".into(), value(sg));
    declared(
        address,
        ResourceKind::AwsVpcSecurityGroupIngressRule,
        JsonValue::Object(v),
    )
}

#[test]
fn a_rule_declared_as_a_separate_resource_is_not_drift() {
    let declared = [
        declared_bare_group("aws_security_group.web", "sg-web"),
        modern_ingress_rule(
            "aws_vpc_security_group_ingress_rule.https",
            "sg-web",
            json(r#"{
                "id": "sgr-1", "from_port": 443, "to_port": 443, "ip_protocol": "tcp",
                "cidr_ipv4": "0.0.0.0/0"
            }"#),
        ),
    ];
    let live = [live_group_with_ingress(
        "sg-web",
        array(vec![value(live_rule(
            443,
            443,
            "tcp",
            json(r#"["0.0.0.0/0"]"#),
            json(r#"[]"#),
            false
        ))]),
    )];

    let report = compare(&declared, &live);
    assert!(report.drifts.is_empty(), "{:?}", report.drifts);
}

#[test]
fn a_separately_declared_rule_missing_from_the_account_is_still_drift() {
    let declared = [
        declared_bare_group("aws_security_group.web", "sg-web"),
        modern_ingress_rule(
            "aws_vpc_security_group_ingress_rule.https",
            "sg-web",
            json(r#"{
                "id": "sgr-1", "from_port": 443, "to_port": 443, "ip_protocol": "tcp",
                "cidr_ipv4": "0.0.0.0/0"
            }"#),
        ),
    ];
    let live = [live_group_with_ingress("sg-web", json(r#"[]"#))];

    let report = compare(&declared, &live);
    assert_eq!(report.drifts.len(), 1, "{:?}", report.drifts);
    assert!(matches!(
        &report.drifts[0].kind,
        DriftKind::FieldChanged { field, .. } if field == "ingress"
    ));
}

#[test]
fn a_live_rule_declared_nowhere_is_still_drift() {
    let declared = [
        declared_bare_group("aws_security_group.web", "sg-web"),
        modern_ingress_rule(
            "aws_vpc_security_group_ingress_rule.https",
            "sg-web",
            json(r#"{
                "id": "sgr-1", "from_port": 443, "to_port": 443, "ip_protocol": "tcp",
                "cidr_ipv4": "0.0.0.0/0"
            }"#),
        ),
    ];
    let live = [live_group_with_ingress(
        "sg-web",
        array(vec![value(live_rule(443, 443, "tcp", json(r#"["0.0.0.0/0"]"#), json(r#"[]"#), false)), value(live_rule(22, 22, "tcp", json(r#"["0.0.0.0/0"]"#), json(r#"[]"#), false))]),
    )];

    let report = compare(&declared, &live);
    assert_eq!(report.drifts.len(), 1, "{:?}", report.drifts);
}

#[test]
fn a_group_with_no_rules_declared_anywhere_still_reports_live_rules() {
    let declared = [declared_bare_group("aws_security_group.web", "sg-web")];
    let live = [live_group_with_ingress(
        "sg-web",
        array(vec![value(live_rule(
            22,
            22,
            "tcp",
            json(r#"["0.0.0.0/0"]"#),
            json(r#"[]"#),
            false
        ))]),
    )];

    let report = compare(&declared, &live);
    assert_eq!(report.drifts.len(), 1, "{:?}", report.drifts);
}

#[test]
fn a_modern_self_reference_matches_the_collectors_self_flag() {
    let declared = [
        declared_bare_group("aws_security_group.web", "sg-web"),
        modern_ingress_rule(
            "aws_vpc_security_group_ingress_rule.internal",
            "sg-web",
            json(r#"{
                "id": "sgr-1", "from_port": 0, "to_port": 0, "ip_protocol": "-1",
                "referenced_security_group_id": "sg-web"
            }"#),
        ),
    ];
    let live = [live_group_with_ingress(
        "sg-web",
        array(vec![value(live_rule(0, 0, "-1", json(r#"[]"#), json(r#"[]"#), true))]),
    )];

    let report = compare(&declared, &live);
    assert!(report.drifts.is_empty(), "{:?}", report.drifts);
}

#[test]
fn a_modern_rule_referencing_another_group_is_not_a_self_reference() {
    let declared = [
        declared_bare_group("aws_security_group.web", "sg-web"),
        modern_ingress_rule(
            "aws_vpc_security_group_ingress_rule.from_app",
            "sg-web",
            json(r#"{
                "id": "sgr-1", "from_port": 443, "to_port": 443, "ip_protocol": "tcp",
                "referenced_security_group_id": "sg-app"
            }"#),
        ),
    ];
    let live = [live_group_with_ingress(
        "sg-web",
        array(vec![value(live_rule(
            443,
            443,
            "tcp",
            json(r#"[]"#),
            json(r#"["sg-app"]"#),
            false
        ))]),
    )];

    let report = compare(&declared, &live);
    assert!(report.drifts.is_empty(), "{:?}", report.drifts);
}

#[test]
fn the_legacy_rule_resource_routes_by_its_type_field() {
    let declared = [
        declared_bare_group("aws_security_group.web", "sg-web"),
        declared(
            "aws_security_group_rule.out",
            ResourceKind::AwsSecurityGroupRule,
            json(r#"{
                "id": "sgrule-1", "security_group_id": "sg-web", "type": "egress",
                "from_port": 0, "to_port": 0, "protocol": "-1", "cidr_blocks": ["0.0.0.0/0"]
            }"#),
        ),
    ];
    let live = [LiveResource {
        cloud_id: "sg-web".to_string(),
        kind: ResourceKind::AwsSecurityGroup,
        attributes: attrs(object(vec![
            ("id", JsonValue::from_text("sg-web")),
            ("name", JsonValue::from_text("web")),
            ("description", JsonValue::from_text("d")),
            ("vpc_id", JsonValue::from_text("vpc-1")),
            ("tags", json(r#"{}"#)),
            ("ingress", json(r#"[]"#)),
            ("egress", array(vec![value(live_rule(0, 0, "-1", json(r#"["0.0.0.0/0"]"#), json(r#"[]"#), false))])),
        ])),
    }];

    let report = compare(&declared, &live);
    assert!(report.drifts.is_empty(), "{:?}", report.drifts);
}

#[test]
fn a_legacy_egress_rule_does_not_satisfy_an_ingress_rule() {
    let declared = [
        declared_bare_group("aws_security_group.web", "sg-web"),
        declared(
            "aws_security_group_rule.out",
            ResourceKind::AwsSecurityGroupRule,
            json(r#"{
                "id": "sgrule-1", "security_group_id": "sg-web", "type": "egress",
                "from_port": 443, "to_port": 443, "protocol": "tcp",
                "cidr_blocks": ["10.0.0.0/8"]
            }"#),
        ),
    ];
    let live = [live_group_with_ingress(
        "sg-web",
        array(vec![value(live_rule(
            443,
            443,
            "tcp",
            json(r#"["10.0.0.0/8"]"#),
            json(r#"[]"#),
            false
        ))]),
    )];

    let report = compare(&declared, &live);
    assert_eq!(report.drifts.len(), 2, "{:?}", report.drifts);
}

#[test]
fn legacy_and_modern_forms_agree_on_the_same_logical_rule() {
    let live = [live_group_with_ingress(
        "sg-web",
        array(vec![value(live_rule(
            443,
            443,
            "tcp",
            json(r#"["10.0.0.0/8"]"#),
            json(r#"[]"#),
            false
        ))]),
    )];

    let legacy = [
        declared_bare_group("aws_security_group.web", "sg-web"),
        declared(
            "aws_security_group_rule.https",
            ResourceKind::AwsSecurityGroupRule,
            json(r#"{
                "id": "sgrule-1", "security_group_id": "sg-web", "type": "ingress",
                "from_port": 443, "to_port": 443, "protocol": "tcp",
                "cidr_blocks": ["10.0.0.0/8"]
            }"#),
        ),
    ];
    let modern = [
        declared_bare_group("aws_security_group.web", "sg-web"),
        modern_ingress_rule(
            "aws_vpc_security_group_ingress_rule.https",
            "sg-web",
            json(r#"{
                "id": "sgr-1", "from_port": 443, "to_port": 443, "ip_protocol": "tcp",
                "cidr_ipv4": "10.0.0.0/8"
            }"#),
        ),
    ];

    assert!(compare(&legacy, &live).drifts.is_empty());
    assert!(compare(&modern, &live).drifts.is_empty());
}

#[test]
fn inline_blocks_and_sibling_rules_are_unioned() {
    let declared = [
        declared(
            "aws_security_group.web",
            ResourceKind::AwsSecurityGroup,
            object(vec![
                ("id", JsonValue::from_text("sg-web")),
                ("name", JsonValue::from_text("web")),
                ("description", JsonValue::from_text("d")),
                ("vpc_id", JsonValue::from_text("vpc-1")),
                ("tags", json(r#"{}"#)),
                ("ingress", array(vec![value(live_rule(443, 443, "tcp", json(r#"["10.0.0.0/8"]"#), json(r#"[]"#), false))])),
                ("egress", json(r#"[]"#)),
            ]),
        ),
        modern_ingress_rule(
            "aws_vpc_security_group_ingress_rule.ssh",
            "sg-web",
            json(r#"{
                "id": "sgr-1", "from_port": 22, "to_port": 22, "ip_protocol": "tcp",
                "cidr_ipv4": "10.0.0.0/8"
            }"#),
        ),
    ];
    let live = [live_group_with_ingress(
        "sg-web",
        array(vec![value(live_rule(443, 443, "tcp", json(r#"["10.0.0.0/8"]"#), json(r#"[]"#), false)), value(live_rule(22, 22, "tcp", json(r#"["10.0.0.0/8"]"#), json(r#"[]"#), false))]),
    )];

    let report = compare(&declared, &live);
    assert!(report.drifts.is_empty(), "{:?}", report.drifts);
}

#[test]
fn sibling_rules_target_only_their_own_group() {
    let declared = [
        declared_bare_group("aws_security_group.web", "sg-web"),
        modern_ingress_rule(
            "aws_vpc_security_group_ingress_rule.elsewhere",
            "sg-other",
            json(r#"{
                "id": "sgr-1", "from_port": 443, "to_port": 443, "ip_protocol": "tcp",
                "cidr_ipv4": "0.0.0.0/0"
            }"#),
        ),
    ];
    let live = [live_group_with_ingress(
        "sg-web",
        array(vec![value(live_rule(
            443,
            443,
            "tcp",
            json(r#"["0.0.0.0/0"]"#),
            json(r#"[]"#),
            false
        ))]),
    )];

    let report = compare(&declared, &live);
    assert_eq!(report.drifts.len(), 1, "{:?}", report.drifts);
}

#[test]
fn a_rule_resource_is_never_itself_a_comparison_subject() {
    let declared = [modern_ingress_rule(
        "aws_vpc_security_group_ingress_rule.https",
        "sg-web",
        json(r#"{
            "id": "sgr-1", "from_port": 443, "to_port": 443, "ip_protocol": "tcp",
            "cidr_ipv4": "0.0.0.0/0"
        }"#),
    )];

    let report = compare(&declared, &[]);
    assert!(report.drifts.is_empty(), "{:?}", report.drifts);
    assert!(report.unjoinable.is_empty(), "{:?}", report.unjoinable);
}

#[test]
fn a_sibling_rule_contributes_before_it_has_been_applied() {
    let declared = [
        declared_bare_group("aws_security_group.web", "sg-web"),
        modern_ingress_rule(
            "aws_vpc_security_group_ingress_rule.https",
            "sg-web",
            json(r#"{
                "from_port": 443, "to_port": 443, "ip_protocol": "tcp",
                "cidr_ipv4": "0.0.0.0/0"
            }"#),
        ),
    ];
    let live = [live_group_with_ingress(
        "sg-web",
        array(vec![value(live_rule(
            443,
            443,
            "tcp",
            json(r#"["0.0.0.0/0"]"#),
            json(r#"[]"#),
            false
        ))]),
    )];

    let report = compare(&declared, &live);
    assert!(report.drifts.is_empty(), "{:?}", report.drifts);
}

#[test]
fn a_sibling_declared_trust_rule_does_not_become_a_semantic_false_positive() {
    let declared = [
        declared_bare_group("aws_security_group.web", "sg-web"),
        modern_ingress_rule(
            "aws_vpc_security_group_ingress_rule.from_app",
            "sg-web",
            json(r#"{
                "id": "sgr-1", "from_port": 443, "to_port": 443, "ip_protocol": "tcp",
                "referenced_security_group_id": "sg-app"
            }"#),
        ),
        declared_bare_group("aws_security_group.app", "sg-app"),
        declared(
            "aws_instance.worker",
            ResourceKind::AwsInstance,
            json(r#"{
                "id": "i-worker", "instance_type": "t3.micro", "ami": "ami-1", "tags": {},
                "vpc_security_group_ids": ["sg-app"], "iam_instance_profile": "",
                "metadata_options": [
                    {
                        "http_endpoint": "enabled", "http_tokens": "required",
                        "http_put_response_hop_limit": 1, "instance_metadata_tags": "disabled"
                    }
                ]
            }"#),
        ),
    ];
    let live = [
        live_group_with_ingress(
            "sg-web",
            array(vec![value(live_rule(
                443,
                443,
                "tcp",
                json(r#"[]"#),
                json(r#"["sg-app"]"#),
                false
            ))]),
        ),
        live_group_with_ingress("sg-app", json(r#"[]"#)),
        LiveResource {
            cloud_id: "i-worker".to_string(),
            kind: ResourceKind::AwsInstance,
            attributes: attrs(json(r#"{
                "id": "i-worker", "instance_type": "t3.micro", "ami": "ami-1", "tags": {},
                "vpc_security_group_ids": ["sg-app"], "iam_instance_profile": "",
                "metadata_options": [
                    {
                        "http_endpoint": "enabled", "http_tokens": "required",
                        "http_put_response_hop_limit": 1, "instance_metadata_tags": "disabled"
                    }
                ]
            }"#)),
        },
    ];

    let report = uncia::diff::compare(&declared, &live);
    assert!(report.drifts.is_empty(), "{:?}", report.drifts);
}

#[test]
fn semantic_drift_is_still_detected_through_a_sibling_declared_rule() {
    let declared = [
        declared_bare_group("aws_security_group.web", "sg-web"),
        modern_ingress_rule(
            "aws_vpc_security_group_ingress_rule.from_app",
            "sg-web",
            json(r#"{
                "id": "sgr-1", "from_port": 443, "to_port": 443, "ip_protocol": "tcp",
                "referenced_security_group_id": "sg-app"
            }"#),
        ),
        declared_bare_group("aws_security_group.app", "sg-app"),
        declared(
            "aws_instance.worker",
            ResourceKind::AwsInstance,
            json(r#"{
                "id": "i-worker", "instance_type": "t3.micro", "ami": "ami-1", "tags": {},
                "vpc_security_group_ids": ["sg-app"], "iam_instance_profile": "",
                "metadata_options": [
                    {
                        "http_endpoint": "enabled", "http_tokens": "required",
                        "http_put_response_hop_limit": 1, "instance_metadata_tags": "disabled"
                    }
                ]
            }"#),
        ),
    ];
    let instance = |id: &str| LiveResource {
        cloud_id: id.to_string(),
        kind: ResourceKind::AwsInstance,
        attributes: attrs(object(vec![
            ("id", value(id)),
            ("instance_type", JsonValue::from_text("t3.micro")),
            ("ami", JsonValue::from_text("ami-1")),
            ("tags", json(r#"{}"#)),
            ("vpc_security_group_ids", json(r#"["sg-app"]"#)),
            ("iam_instance_profile", JsonValue::from_text("")),
            ("metadata_options", json(r#"[
                {
                    "http_endpoint": "enabled", "http_tokens": "required",
                    "http_put_response_hop_limit": 1, "instance_metadata_tags": "disabled"
                }
            ]"#)),
        ])),
    };
    let live = [
        live_group_with_ingress(
            "sg-web",
            array(vec![value(live_rule(
                443,
                443,
                "tcp",
                json(r#"[]"#),
                json(r#"["sg-app"]"#),
                false
            ))]),
        ),
        live_group_with_ingress("sg-app", json(r#"[]"#)),
        instance("i-worker"),
        instance("i-console"),
    ];

    let report = uncia::diff::compare(&declared, &live);

    assert_eq!(report.drifts.len(), 1, "{:?}", report.drifts);
    assert_eq!(report.drifts[0].resource.0, "aws_security_group.web");
    let DriftKind::SemanticChanged {
        via,
        actual_effective,
        ..
    } = &report.drifts[0].kind
    else {
        panic!("expected SemanticChanged, got {:?}", report.drifts[0].kind);
    };
    assert_eq!(via, &["sg-app"], "the path must survive reconciliation");
    assert_eq!(
        actual_effective,
        &json(r#"["tcp/443-443/member:i-console", "tcp/443-443/member:i-worker"]"#)
    );
}
