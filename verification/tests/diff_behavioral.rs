//! Literal drift: the join, what is missing, changed fields, and what cannot be checked.

use uncia::diff::behavioral::compare;
use uncia::document::read_json;
use uncia::json::{JsonValue, Object};
use uncia::{DriftKind, LiveResource, Resource, ResourceId, ResourceKind};

fn json(text: &str) -> JsonValue {
    read_json(text).unwrap()
}

fn attrs(v: JsonValue) -> Object {
    match v {
        JsonValue::Object(entries) => entries,
        other => panic!("not an object: {other:?}"),
    }
}

trait ToJson {
    fn to_json(self) -> JsonValue;
}

impl ToJson for JsonValue {
    fn to_json(self) -> JsonValue {
        self
    }
}

impl ToJson for &str {
    fn to_json(self) -> JsonValue {
        JsonValue::from_text(self)
    }
}

impl ToJson for String {
    fn to_json(self) -> JsonValue {
        JsonValue::from_text(&self)
    }
}

impl ToJson for i64 {
    fn to_json(self) -> JsonValue {
        JsonValue::from_i64(self)
    }
}

impl ToJson for bool {
    fn to_json(self) -> JsonValue {
        JsonValue::Bool(self)
    }
}

impl<T: ToJson + Clone> ToJson for &[T] {
    fn to_json(self) -> JsonValue {
        JsonValue::Array(self.iter().map(|v| v.clone().to_json()).collect())
    }
}

impl<T: ToJson> ToJson for Vec<T> {
    fn to_json(self) -> JsonValue {
        JsonValue::Array(self.into_iter().map(|v| v.to_json()).collect())
    }
}

fn value(v: impl ToJson) -> JsonValue {
    v.to_json()
}

fn object(entries: Vec<(&str, JsonValue)>) -> JsonValue {
    let mut map = Object::new();
    for (key, v) in entries {
        map.insert(key.to_string(), v);
    }
    JsonValue::Object(map)
}

fn array(items: Vec<JsonValue>) -> JsonValue {
    JsonValue::Array(items)
}

fn declared_sg(address: &str, values: JsonValue) -> Resource {
    Resource {
        id: ResourceId(address.to_string()),
        kind: ResourceKind::AwsSecurityGroup,
        attributes: attrs(values),
    }
}

fn live_sg(cloud_id: &str, values: JsonValue) -> LiveResource {
    LiveResource {
        cloud_id: cloud_id.to_string(),
        kind: ResourceKind::AwsSecurityGroup,
        attributes: attrs(values),
    }
}

fn rule(from: i64, to: i64, protocol: &str, cidrs: JsonValue) -> JsonValue {
    object(vec![
        ("from_port", value(from)),
        ("to_port", value(to)),
        ("protocol", value(protocol)),
        ("cidr_blocks", value(cidrs)),
        ("ipv6_cidr_blocks", json(r#"[]"#)),
        ("prefix_list_ids", json(r#"[]"#)),
        ("security_groups", json(r#"[]"#)),
        ("self", JsonValue::Bool(false)),
    ])
}

#[test]
fn identical_resources_produce_no_drift() {
    let declared = [declared_sg(
        "aws_security_group.web",
        object(vec![
            ("id", JsonValue::from_text("sg-1")),
            ("name", JsonValue::from_text("web")),
            ("description", JsonValue::from_text("d")),
            ("vpc_id", JsonValue::from_text("vpc-1")),
            ("tags", json(r#"{"Name": "web"}"#)),
            ("ingress", array(vec![value(rule(443, 443, "tcp", json(r#"["0.0.0.0/0"]"#)))])),
            ("egress", json(r#"[]"#)),
        ]),
    )];
    let live = [live_sg(
        "sg-1",
        object(vec![
            ("id", JsonValue::from_text("sg-1")),
            ("name", JsonValue::from_text("web")),
            ("description", JsonValue::from_text("d")),
            ("vpc_id", JsonValue::from_text("vpc-1")),
            ("tags", json(r#"{"Name": "web"}"#)),
            ("ingress", array(vec![value(rule(443, 443, "tcp", json(r#"["0.0.0.0/0"]"#)))])),
            ("egress", json(r#"[]"#)),
        ]),
    )];

    let report = compare(&declared, &live);
    assert!(report.drifts.is_empty(), "{:?}", report.drifts);
    assert!(report.unjoinable.is_empty());
}

#[test]
fn declared_but_absent_is_missing() {
    let declared = [declared_sg(
        "aws_security_group.gone",
        json(r#"{"id": "sg-gone"}"#),
    )];

    let report = compare(&declared, &[]);
    assert_eq!(report.drifts.len(), 1);
    assert_eq!(report.drifts[0].resource.0, "aws_security_group.gone");
    assert!(matches!(report.drifts[0].kind, DriftKind::Missing));
}

#[test]
fn changed_field_is_reported_with_both_values() {
    let declared = [declared_sg(
        "aws_security_group.web",
        json(r#"{
            "id": "sg-1", "name": "web", "description": "web tier", "vpc_id": "vpc-1",
            "tags": {}, "ingress": [], "egress": []
        }"#),
    )];
    let live = [live_sg(
        "sg-1",
        json(r#"{
            "id": "sg-1", "name": "web", "description": "edited in console", "vpc_id": "vpc-1",
            "tags": {}, "ingress": [], "egress": []
        }"#),
    )];

    let report = compare(&declared, &live);
    assert_eq!(report.drifts.len(), 1);
    assert!(matches!(
        &report.drifts[0].kind,
        DriftKind::FieldChanged { field, declared, actual }
            if field == "description" && declared.as_str() == Some("web tier") && actual.as_str() == Some("edited in console")
    ));
}

#[test]
fn rule_order_and_grouping_differences_are_not_drift() {
    let declared = [declared_sg(
        "aws_security_group.web",
        object(vec![
            ("id", JsonValue::from_text("sg-1")),
            ("name", JsonValue::from_text("web")),
            ("description", JsonValue::from_text("d")),
            ("vpc_id", JsonValue::from_text("vpc-1")),
            ("tags", json(r#"{}"#)),
            ("ingress", array(vec![value(rule(443, 443, "tcp", json(r#"["10.0.0.0/8"]"#))), value(rule(443, 443, "tcp", json(r#"["192.168.0.0/16"]"#)))])),
            ("egress", json(r#"[]"#)),
        ]),
    )];
    let live = [live_sg(
        "sg-1",
        object(vec![
            ("id", JsonValue::from_text("sg-1")),
            ("name", JsonValue::from_text("web")),
            ("description", JsonValue::from_text("d")),
            ("vpc_id", JsonValue::from_text("vpc-1")),
            ("tags", json(r#"{}"#)),
            ("ingress", array(vec![value(rule(443, 443, "tcp", json(r#"["192.168.0.0/16", "10.0.0.0/8"]"#)))])),
            ("egress", json(r#"[]"#)),
        ]),
    )];

    let report = compare(&declared, &live);
    assert!(report.drifts.is_empty(), "{:?}", report.drifts);
}

#[test]
fn extra_live_rule_is_drift() {
    let declared = [declared_sg(
        "aws_security_group.web",
        object(vec![
            ("id", JsonValue::from_text("sg-1")),
            ("name", JsonValue::from_text("web")),
            ("description", JsonValue::from_text("d")),
            ("vpc_id", JsonValue::from_text("vpc-1")),
            ("tags", json(r#"{}"#)),
            ("ingress", array(vec![value(rule(443, 443, "tcp", json(r#"["10.0.0.0/8"]"#)))])),
            ("egress", json(r#"[]"#)),
        ]),
    )];
    let live = [live_sg(
        "sg-1",
        object(vec![
            ("id", JsonValue::from_text("sg-1")),
            ("name", JsonValue::from_text("web")),
            ("description", JsonValue::from_text("d")),
            ("vpc_id", JsonValue::from_text("vpc-1")),
            ("tags", json(r#"{}"#)),
            ("ingress", array(vec![value(rule(443, 443, "tcp", json(r#"["10.0.0.0/8"]"#))), value(rule(22, 22, "tcp", json(r#"["0.0.0.0/0"]"#)))])),
            ("egress", json(r#"[]"#)),
        ]),
    )];

    let report = compare(&declared, &live);
    assert_eq!(report.drifts.len(), 1);
    assert!(matches!(
        &report.drifts[0].kind,
        DriftKind::FieldChanged { field, .. } if field == "ingress"
    ));
}

#[test]
fn missing_cloud_id_is_unjoinable_not_missing() {
    let declared = [declared_sg(
        "aws_security_group.unappl",
        json(r#"{"name": "unappl"}"#),
    )];

    let report = compare(&declared, &[]);
    assert!(report.drifts.is_empty(), "must not fabricate Missing drift");
    assert_eq!(report.unjoinable.len(), 1);
    assert_eq!(report.unjoinable[0].resource.0, "aws_security_group.unappl");
}

#[test]
fn uncovered_kinds_are_skipped_entirely() {
    let declared = [Resource {
        id: ResourceId("aws_s3_bucket.assets".to_string()),
        kind: ResourceKind::Other("aws_s3_bucket".to_string()),
        attributes: attrs(json(r#"{"id": "assets-bucket"}"#)),
    }];

    let report = compare(&declared, &[]);
    assert!(report.drifts.is_empty());
    assert!(report.unjoinable.is_empty());
}

#[test]
fn tags_all_is_preferred_over_tags_when_present() {
    let declared = [declared_sg(
        "aws_security_group.web",
        json(r#"{
            "id": "sg-1", "name": "web", "description": "d", "vpc_id": "vpc-1",
            "tags": {"Name": "web"}, "tags_all": {"Name": "web", "Env": "prod"}, "ingress": [],
            "egress": []
        }"#),
    )];
    let live = [live_sg(
        "sg-1",
        json(r#"{
            "id": "sg-1", "name": "web", "description": "d", "vpc_id": "vpc-1",
            "tags": {"Name": "web", "Env": "prod"}, "ingress": [], "egress": []
        }"#),
    )];

    let report = compare(&declared, &live);
    assert!(report.drifts.is_empty(), "{:?}", report.drifts);
}

fn declared_instance(address: &str, values: JsonValue) -> Resource {
    Resource {
        id: ResourceId(address.to_string()),
        kind: ResourceKind::AwsInstance,
        attributes: attrs(values),
    }
}

fn live_instance(cloud_id: &str, values: JsonValue) -> LiveResource {
    LiveResource {
        cloud_id: cloud_id.to_string(),
        kind: ResourceKind::AwsInstance,
        attributes: attrs(values),
    }
}

fn instance_meta(http_tokens: &str) -> JsonValue {
    array(vec![object(vec![
        ("http_endpoint", JsonValue::from_text("enabled")),
        ("http_tokens", value(http_tokens)),
        ("http_put_response_hop_limit", JsonValue::from_i64(1)),
        ("instance_metadata_tags", JsonValue::from_text("disabled")),
    ])])
}

fn base_instance(id: &str, instance_type: &str, sgs: JsonValue, http_tokens: &str) -> JsonValue {
    object(vec![
        ("id", value(id)),
        ("instance_type", value(instance_type)),
        ("ami", JsonValue::from_text("ami-1")),
        ("tags", json(r#"{"Name": "web"}"#)),
        ("vpc_security_group_ids", value(sgs)),
        ("iam_instance_profile", JsonValue::from_text("app-role")),
        ("metadata_options", value(instance_meta(http_tokens))),
    ])
}

#[test]
fn instance_type_change_is_drift() {
    let declared = [declared_instance(
        "aws_instance.web",
        base_instance("i-1", "t3.medium", json(r#"["sg-a"]"#), "required"),
    )];
    let live = [live_instance(
        "i-1",
        base_instance("i-1", "t3.large", json(r#"["sg-a"]"#), "required"),
    )];

    let report = compare(&declared, &live);
    assert_eq!(report.drifts.len(), 1);
    assert!(matches!(
        &report.drifts[0].kind,
        DriftKind::FieldChanged { field, declared, actual }
            if field == "instance_type" && declared.as_str() == Some("t3.medium") && actual.as_str() == Some("t3.large")
    ));
}

#[test]
fn security_group_id_order_is_not_drift() {
    let declared = [declared_instance(
        "aws_instance.web",
        base_instance("i-1", "t3.medium", json(r#"["sg-a", "sg-b"]"#), "required"),
    )];
    let live = [live_instance(
        "i-1",
        base_instance("i-1", "t3.medium", json(r#"["sg-b", "sg-a"]"#), "required"),
    )];

    let report = compare(&declared, &live);
    assert!(report.drifts.is_empty(), "{:?}", report.drifts);
}

#[test]
fn changed_security_group_attachment_is_drift() {
    let declared = [declared_instance(
        "aws_instance.web",
        base_instance("i-1", "t3.medium", json(r#"["sg-a"]"#), "required"),
    )];
    let live = [live_instance(
        "i-1",
        base_instance("i-1", "t3.medium", json(r#"["sg-b"]"#), "required"),
    )];

    let report = compare(&declared, &live);
    assert_eq!(report.drifts.len(), 1);
    assert!(matches!(
        &report.drifts[0].kind,
        DriftKind::FieldChanged { field, .. } if field == "vpc_security_group_ids"
    ));
}

#[test]
fn imdsv2_downgrade_is_drift() {
    let declared = [declared_instance(
        "aws_instance.web",
        base_instance("i-1", "t3.medium", json(r#"["sg-a"]"#), "required"),
    )];
    let live = [live_instance(
        "i-1",
        base_instance("i-1", "t3.medium", json(r#"["sg-a"]"#), "optional"),
    )];

    let report = compare(&declared, &live);
    assert_eq!(report.drifts.len(), 1);
    assert!(matches!(
        &report.drifts[0].kind,
        DriftKind::FieldChanged { field, .. } if field == "metadata_options"
    ));
}

#[test]
fn extra_metadata_key_in_state_is_not_drift() {
    let mut block = attrs(instance_meta("required").as_array().unwrap()[0].clone());
    block.insert("http_protocol_ipv6".to_string(), JsonValue::from_text("disabled"));
    let declared_meta = array(vec![JsonValue::Object(block)]);

    let declared = [declared_instance(
        "aws_instance.web",
        object(vec![
            ("id", JsonValue::from_text("i-1")),
            ("instance_type", JsonValue::from_text("t3.medium")),
            ("ami", JsonValue::from_text("ami-1")),
            ("tags", json(r#"{"Name": "web"}"#)),
            ("vpc_security_group_ids", json(r#"["sg-a"]"#)),
            ("iam_instance_profile", JsonValue::from_text("app-role")),
            ("metadata_options", value(declared_meta)),
        ]),
    )];
    let live = [live_instance(
        "i-1",
        base_instance("i-1", "t3.medium", json(r#"["sg-a"]"#), "required"),
    )];

    let report = compare(&declared, &live);
    assert!(report.drifts.is_empty(), "{:?}", report.drifts);
}

#[test]
fn declared_instance_absent_from_live_is_missing() {
    let declared = [declared_instance(
        "aws_instance.gone",
        base_instance("i-gone", "t3.medium", json(r#"["sg-a"]"#), "required"),
    )];

    let report = compare(&declared, &[]);
    assert_eq!(report.drifts.len(), 1);
    assert!(matches!(report.drifts[0].kind, DriftKind::Missing));
}
