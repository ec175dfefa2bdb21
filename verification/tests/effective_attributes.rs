//! What a declared resource amounts to once everything declared beside it is folded in.

use uncia::diff::rules::SiblingRules;
use uncia::diff::semantic::effective_attributes;
use uncia::diff::target_attachments::TargetAttachments;
use uncia::document::read_json;
use uncia::json::{JsonValue, Object};
use uncia::{Resource, ResourceId, ResourceKind};

fn json(text: &str) -> JsonValue {
    read_json(text).unwrap()
}

fn attrs(v: JsonValue) -> Object {
    match v {
        JsonValue::Object(entries) => entries,
        other => panic!("not an object: {other:?}"),
    }
}

fn resource(kind: ResourceKind, attributes: JsonValue) -> Resource {
    Resource {
        id: ResourceId("under_test".to_string()),
        kind,
        attributes: attrs(attributes),
    }
}

#[test]
fn a_lambda_functions_declared_vpc_config_flattens_subnet_ids_to_the_top_level() {
    let r = resource(
        ResourceKind::AwsLambdaFunction,
        json(r#"{
            "id": "my-function",
            "vpc_config": [
                {
                    "security_group_ids": ["sg-1111"],
                    "subnet_ids": ["subnet-1111", "subnet-2222"]
                }
            ]
        }"#),
    );
    let effective =
        effective_attributes(&r, &SiblingRules::index(&[]), &TargetAttachments::index(&[]));
    assert_eq!(effective.get("subnet_ids"), Some(&json(r#"["subnet-1111", "subnet-2222"]"#)));
}

#[test]
fn a_lambda_function_with_no_vpc_config_flattens_subnet_ids_to_an_empty_list() {
    let r = resource(
        ResourceKind::AwsLambdaFunction,
        json(r#"{"id": "my-function"}"#),
    );
    let effective =
        effective_attributes(&r, &SiblingRules::index(&[]), &TargetAttachments::index(&[]));
    assert_eq!(effective.get("subnet_ids"), Some(&json(r#"[]"#)));
}

#[test]
fn an_ecs_services_declared_network_configuration_flattens_subnets_to_the_top_level() {
    let r = resource(
        ResourceKind::AwsEcsService,
        json(r#"{
            "id": "arn:svc/1",
            "network_configuration": [
                {
                    "security_groups": ["sg-1111"], "subnets": ["subnet-1111", "subnet-2222"]
                }
            ]
        }"#),
    );
    let effective =
        effective_attributes(&r, &SiblingRules::index(&[]), &TargetAttachments::index(&[]));
    assert_eq!(effective.get("subnet_ids"), Some(&json(r#"["subnet-1111", "subnet-2222"]"#)));
}

#[test]
fn an_ecs_service_with_no_network_configuration_flattens_subnets_to_an_empty_list() {
    let r = resource(ResourceKind::AwsEcsService, json(r#"{"id": "arn:svc/1"}"#));
    let effective =
        effective_attributes(&r, &SiblingRules::index(&[]), &TargetAttachments::index(&[]));
    assert_eq!(effective.get("subnet_ids"), Some(&json(r#"[]"#)));
}

#[test]
fn a_db_instance_gets_no_subnet_ids_arm() {
    let r = resource(
        ResourceKind::AwsDbInstance,
        json(r#"{"id": "db-ABCDEF", "vpc_security_group_ids": ["sg-1111"]}"#),
    );
    let effective =
        effective_attributes(&r, &SiblingRules::index(&[]), &TargetAttachments::index(&[]));
    assert!(!effective.contains_key("subnet_ids"));
}
