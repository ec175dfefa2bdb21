//! The graph both sides of a comparison are read as.

use uncia::diff::semantic::graph::build;
use uncia::document::read_json;
use uncia::json::{JsonValue, Object};
use uncia::set::TextSet;
use uncia::ResourceKind;

fn json(text: &str) -> JsonValue {
    read_json(text).unwrap()
}

fn attrs(v: JsonValue) -> Object {
    match v {
        JsonValue::Object(entries) => entries,
        other => panic!("not an object: {other:?}"),
    }
}

trait ToJson {
    fn to_json(self) -> JsonValue;
}

impl ToJson for JsonValue {
    fn to_json(self) -> JsonValue {
        self
    }
}

impl ToJson for &str {
    fn to_json(self) -> JsonValue {
        JsonValue::from_text(self)
    }
}

impl ToJson for String {
    fn to_json(self) -> JsonValue {
        JsonValue::from_text(&self)
    }
}

impl ToJson for i64 {
    fn to_json(self) -> JsonValue {
        JsonValue::from_i64(self)
    }
}

impl ToJson for bool {
    fn to_json(self) -> JsonValue {
        JsonValue::Bool(self)
    }
}

impl<T: ToJson + Clone> ToJson for &[T] {
    fn to_json(self) -> JsonValue {
        JsonValue::Array(self.iter().map(|v| v.clone().to_json()).collect())
    }
}

impl<T: ToJson> ToJson for Vec<T> {
    fn to_json(self) -> JsonValue {
        JsonValue::Array(self.into_iter().map(|v| v.to_json()).collect())
    }
}

fn value(v: impl ToJson) -> JsonValue {
    v.to_json()
}

fn object(entries: Vec<(&str, JsonValue)>) -> JsonValue {
    let mut map = Object::new();
    for (key, v) in entries {
        map.insert(key.to_string(), v);
    }
    JsonValue::Object(map)
}

fn array(items: Vec<JsonValue>) -> JsonValue {
    JsonValue::Array(items)
}

fn set(members: &[&str]) -> TextSet {
    let mut set = TextSet::new();
    for member in members {
        set.insert(member.to_string());
    }
    set
}

fn instance(sgs: JsonValue) -> Object {
    attrs(object(vec![
        ("instance_type", JsonValue::from_text("t3.micro")),
        ("vpc_security_group_ids", value(sgs)),
    ]))
}

#[test]
fn membership_is_derived_from_the_referencing_side() {
    let sg = attrs(json(r#"{"name": "app"}"#));
    let worker = instance(json(r#"["sg-app"]"#));
    let other = instance(json(r#"["sg-web"]"#));

    let graph = build(&[
            (&ResourceKind::AwsSecurityGroup, "sg-app", &sg),
            (&ResourceKind::AwsInstance, "i-worker", &worker),
            (&ResourceKind::AwsInstance, "i-other", &other),
        ]);

    assert_eq!(
        graph.referrers("sg-app", &ResourceKind::AwsInstance),
        set(&["i-worker"])
    );
    assert!(
        graph
            .referrers("sg-app", &ResourceKind::AwsSecurityGroup)
            .is_empty(),
        "referrers must filter by kind"
    );
}

#[test]
fn one_resource_can_reference_several_targets() {
    let worker = instance(json(r#"["sg-app", "sg-web"]"#));
    let graph = build(&[(&ResourceKind::AwsInstance, "i-worker", &worker)]);

    for sg in ["sg-app", "sg-web"] {
        assert_eq!(
            graph.referrers(sg, &ResourceKind::AwsInstance),
            set(&["i-worker"])
        );
    }
}

#[test]
fn declared_and_live_inputs_build_the_same_shape() {
    let sg = attrs(json(r#"{"name": "app"}"#));
    let worker = instance(json(r#"["sg-app"]"#));
    let make = || {
        build(&[
                (&ResourceKind::AwsSecurityGroup, "sg-app", &sg),
                (&ResourceKind::AwsInstance, "i-worker", &worker),
            ])
    };

    let declared = make();
    let live = make();
    assert_eq!(
        declared.referrers("sg-app", &ResourceKind::AwsInstance),
        live.referrers("sg-app", &ResourceKind::AwsInstance)
    );
    assert_eq!(
        declared
            .node(&ResourceKind::AwsSecurityGroup, "sg-app")
            .map(|n| &n.attributes),
        live.node(&ResourceKind::AwsSecurityGroup, "sg-app")
            .map(|n| &n.attributes)
    );
}

#[test]
fn nodes_are_keyed_by_cloud_id_and_kind() {
    let sg = attrs(json(r#"{"name": "app"}"#));
    let graph = build(&[(&ResourceKind::AwsSecurityGroup, "sg-app", &sg)]);

    assert!(
        graph
            .node(&ResourceKind::AwsSecurityGroup, "sg-app")
            .is_some()
    );
    assert!(
        graph.node(&ResourceKind::AwsInstance, "sg-app").is_none(),
        "same id under a different kind must not collide"
    );
    assert!(graph.has_kind(&ResourceKind::AwsSecurityGroup));
    assert!(!graph.has_kind(&ResourceKind::AwsInstance));
}

#[test]
fn a_resource_with_no_edge_fields_contributes_no_edges() {
    let bucket = attrs(json(r#"{"vpc_security_group_ids": ["sg-app"]}"#));
    let graph = build(&[(
            &ResourceKind::Other("aws_s3_bucket".to_string()),
            "assets",
            &bucket,
        )]);

    assert!(
        graph
            .referrers("sg-app", &ResourceKind::AwsInstance)
            .is_empty(),
        "edge fields are per-kind, not global field names"
    );
}
