//! Registrations declared as resources of their own.

use uncia::diff::target_attachments::TargetAttachments;
use uncia::document::read_json;
use uncia::json::{JsonValue, Object};
use uncia::{Resource, ResourceId, ResourceKind};

fn json(text: &str) -> JsonValue {
    read_json(text).unwrap()
}

fn attrs(v: JsonValue) -> Object {
    match v {
        JsonValue::Object(entries) => entries,
        other => panic!("not an object: {other:?}"),
    }
}

trait ToJson {
    fn to_json(self) -> JsonValue;
}

impl ToJson for JsonValue {
    fn to_json(self) -> JsonValue {
        self
    }
}

impl ToJson for &str {
    fn to_json(self) -> JsonValue {
        JsonValue::from_text(self)
    }
}

impl ToJson for String {
    fn to_json(self) -> JsonValue {
        JsonValue::from_text(&self)
    }
}

impl ToJson for i64 {
    fn to_json(self) -> JsonValue {
        JsonValue::from_i64(self)
    }
}

impl ToJson for bool {
    fn to_json(self) -> JsonValue {
        JsonValue::Bool(self)
    }
}

impl<T: ToJson + Clone> ToJson for &[T] {
    fn to_json(self) -> JsonValue {
        JsonValue::Array(self.iter().map(|v| v.clone().to_json()).collect())
    }
}

impl<T: ToJson> ToJson for Vec<T> {
    fn to_json(self) -> JsonValue {
        JsonValue::Array(self.into_iter().map(|v| v.to_json()).collect())
    }
}

fn value(v: impl ToJson) -> JsonValue {
    v.to_json()
}

fn object(entries: Vec<(&str, JsonValue)>) -> JsonValue {
    let mut map = Object::new();
    for (key, v) in entries {
        map.insert(key.to_string(), v);
    }
    JsonValue::Object(map)
}

fn array(items: Vec<JsonValue>) -> JsonValue {
    JsonValue::Array(items)
}

fn attachment(target_group_arn: &str, target_id: &str) -> Resource {
    Resource {
        id: ResourceId("aws_lb_target_group_attachment.x".to_string()),
        kind: ResourceKind::AwsLbTargetGroupAttachment,
        attributes: attrs(object(vec![
            ("target_group_arn", value(target_group_arn)),
            ("target_id", value(target_id)),
        ])),
    }
}

#[test]
fn multiple_attachments_to_the_same_group_accumulate() {
    let declared = [attachment("arn:tg/1", "i-a"), attachment("arn:tg/1", "i-b")];
    let index = TargetAttachments::index(&declared);
    assert_eq!(index.targets("arn:tg/1"), vec!["i-a", "i-b"]);
}

#[test]
fn attachments_to_different_groups_stay_separate() {
    let declared = [attachment("arn:tg/1", "i-a"), attachment("arn:tg/2", "i-b")];
    let index = TargetAttachments::index(&declared);
    assert_eq!(index.targets("arn:tg/1"), vec!["i-a"]);
    assert_eq!(index.targets("arn:tg/2"), vec!["i-b"]);
}

#[test]
fn an_attachment_naming_no_target_group_contributes_nothing() {
    let declared = [Resource {
        id: ResourceId(
            "aws_lb_target_group_attachment.orphan".to_string(),
        ),
        kind: ResourceKind::AwsLbTargetGroupAttachment,
        attributes: attrs(json(r#"{"target_id": "i-a"}"#)),
    }];
    assert!(
        TargetAttachments::index(&declared)
            .targets("arn:tg/1")
            .is_empty()
    );
}

#[test]
fn an_attachment_naming_no_target_id_contributes_nothing() {
    let declared = [Resource {
        id: ResourceId(
            "aws_lb_target_group_attachment.no_target".to_string(),
        ),
        kind: ResourceKind::AwsLbTargetGroupAttachment,
        attributes: attrs(json(r#"{"target_group_arn": "arn:tg/1"}"#)),
    }];
    assert!(
        TargetAttachments::index(&declared)
            .targets("arn:tg/1")
            .is_empty()
    );
}

#[test]
fn an_unindexed_group_returns_empty() {
    let index = TargetAttachments::index(&[]);
    assert!(index.targets("arn:tg/unknown").is_empty());
}

#[test]
fn a_resource_of_a_different_kind_is_ignored() {
    let declared = [Resource {
        id: ResourceId("aws_instance.web".to_string()),
        kind: ResourceKind::AwsInstance,
        attributes: attrs(json(r#"{"target_group_arn": "arn:tg/1", "target_id": "i-a"}"#)),
    }];
    assert!(
        TargetAttachments::index(&declared)
            .targets("arn:tg/1")
            .is_empty()
    );
}
