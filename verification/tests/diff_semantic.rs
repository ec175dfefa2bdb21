//! Drift of meaning: the values are the same on both sides, what they mean is not.

use uncia::diff::compare;
use uncia::document::read_json;
use uncia::json::{JsonValue, Object};
use uncia::{
    Drift, DriftKind, DriftReport, LiveResource, Resource, ResourceId, ResourceKind, Severity,
};

fn json(text: &str) -> JsonValue {
    read_json(text).unwrap()
}

fn attrs(v: JsonValue) -> Object {
    match v {
        JsonValue::Object(entries) => entries,
        other => panic!("not an object: {other:?}"),
    }
}

trait ToJson {
    fn to_json(self) -> JsonValue;
}

impl ToJson for JsonValue {
    fn to_json(self) -> JsonValue {
        self
    }
}

impl ToJson for &str {
    fn to_json(self) -> JsonValue {
        JsonValue::from_text(self)
    }
}

impl ToJson for String {
    fn to_json(self) -> JsonValue {
        JsonValue::from_text(&self)
    }
}

impl ToJson for i64 {
    fn to_json(self) -> JsonValue {
        JsonValue::from_i64(self)
    }
}

impl ToJson for bool {
    fn to_json(self) -> JsonValue {
        JsonValue::Bool(self)
    }
}

impl<T: ToJson + Clone> ToJson for &[T] {
    fn to_json(self) -> JsonValue {
        JsonValue::Array(self.iter().map(|v| v.clone().to_json()).collect())
    }
}

impl<T: ToJson> ToJson for Vec<T> {
    fn to_json(self) -> JsonValue {
        JsonValue::Array(self.into_iter().map(|v| v.to_json()).collect())
    }
}

fn value(v: impl ToJson) -> JsonValue {
    v.to_json()
}

fn object(entries: Vec<(&str, JsonValue)>) -> JsonValue {
    let mut map = Object::new();
    for (key, v) in entries {
        map.insert(key.to_string(), v);
    }
    JsonValue::Object(map)
}

fn array(items: Vec<JsonValue>) -> JsonValue {
    JsonValue::Array(items)
}

fn sg_attrs(id: &str, trusts: &[&str]) -> JsonValue {
    object(vec![
        ("id", value(id)),
        ("name", value(id)),
        ("description", JsonValue::from_text("d")),
        ("vpc_id", JsonValue::from_text("vpc-1")),
        ("tags", json(r#"{}"#)),
        ("ingress", array(vec![object(vec![
            ("from_port", JsonValue::from_i64(443)),
            ("to_port", JsonValue::from_i64(443)),
            ("protocol", JsonValue::from_text("tcp")),
            ("cidr_blocks", json(r#"[]"#)),
            ("ipv6_cidr_blocks", json(r#"[]"#)),
            ("prefix_list_ids", json(r#"[]"#)),
            ("security_groups", value(trusts)),
            ("self", JsonValue::Bool(false)),
        ])])),
        ("egress", json(r#"[]"#)),
    ])
}

fn instance_attrs(id: &str, sgs: &[&str]) -> JsonValue {
    object(vec![
        ("id", value(id)),
        ("instance_type", JsonValue::from_text("t3.micro")),
        ("ami", JsonValue::from_text("ami-1")),
        ("tags", json(r#"{}"#)),
        ("vpc_security_group_ids", value(sgs)),
        ("iam_instance_profile", JsonValue::from_text("")),
        ("metadata_options", json(r#"[
            {
                "http_endpoint": "enabled", "http_tokens": "required",
                "http_put_response_hop_limit": 1, "instance_metadata_tags": "disabled"
            }
        ]"#)),
    ])
}

fn declared(address: &str, kind: ResourceKind, values: JsonValue) -> Resource {
    Resource {
        id: ResourceId(address.to_string()),
        kind,
        attributes: attrs(values),
    }
}

fn live(cloud_id: &str, kind: ResourceKind, values: JsonValue) -> LiveResource {
    LiveResource {
        cloud_id: cloud_id.to_string(),
        kind,
        attributes: attrs(values),
    }
}

fn declared_sg(address: &str, id: &str, trusts: &[&str]) -> Resource {
    declared(
        address,
        ResourceKind::AwsSecurityGroup,
        sg_attrs(id, trusts),
    )
}

fn live_sg(id: &str, trusts: &[&str]) -> LiveResource {
    live(id, ResourceKind::AwsSecurityGroup, sg_attrs(id, trusts))
}

fn sg_open_attrs(id: &str, ports: &[i64]) -> JsonValue {
    let ingress: Vec<JsonValue> = ports
        .iter()
        .map(|p| {
            object(vec![
                ("from_port", value(*p)),
                ("to_port", value(*p)),
                ("protocol", JsonValue::from_text("tcp")),
                ("cidr_blocks", json(r#"["0.0.0.0/0"]"#)),
                ("ipv6_cidr_blocks", json(r#"[]"#)),
                ("prefix_list_ids", json(r#"[]"#)),
                ("security_groups", json(r#"[]"#)),
                ("self", JsonValue::Bool(false)),
            ])
        })
        .collect();
    object(vec![
        ("id", value(id)),
        ("name", value(id)),
        ("description", JsonValue::from_text("d")),
        ("vpc_id", JsonValue::from_text("vpc-1")),
        ("tags", json(r#"{}"#)),
        ("ingress", value(ingress)),
        ("egress", json(r#"[]"#)),
    ])
}

fn declared_sg_open(address: &str, id: &str, ports: &[i64]) -> Resource {
    declared(
        address,
        ResourceKind::AwsSecurityGroup,
        sg_open_attrs(id, ports),
    )
}

fn live_sg_open(id: &str, ports: &[i64]) -> LiveResource {
    live(id, ResourceKind::AwsSecurityGroup, sg_open_attrs(id, ports))
}

fn declared_instance(address: &str, id: &str, sgs: &[&str]) -> Resource {
    declared(address, ResourceKind::AwsInstance, instance_attrs(id, sgs))
}

fn live_instance(id: &str, sgs: &[&str]) -> LiveResource {
    live(id, ResourceKind::AwsInstance, instance_attrs(id, sgs))
}

fn live_lb(arn: &str, sgs: &[&str]) -> LiveResource {
    live(
        arn,
        ResourceKind::AwsLoadBalancer,
        object(vec![
            ("id", value(arn)),
            ("security_groups", value(sgs)),
        ]),
    )
}

fn declared_lb(address: &str, arn: &str, sgs: &[&str]) -> Resource {
    declared(
        address,
        ResourceKind::AwsLoadBalancer,
        object(vec![
            ("id", value(arn)),
            ("security_groups", value(sgs)),
        ]),
    )
}

fn declared_tg(address: &str, arn: &str, lb_arn: &str) -> Resource {
    declared(
        address,
        ResourceKind::AwsLbTargetGroup,
        object(vec![
            ("id", value(arn)),
            ("load_balancer_arns", array(vec![value(lb_arn)])),
        ]),
    )
}

fn live_tg(arn: &str, lb_arn: &str, targets: &[&str]) -> LiveResource {
    live(
        arn,
        ResourceKind::AwsLbTargetGroup,
        object(vec![
            ("id", value(arn)),
            ("load_balancer_arns", array(vec![value(lb_arn)])),
            ("targets", value(targets)),
        ]),
    )
}

fn declared_attachment(address: &str, target_group_arn: &str, target_id: &str) -> Resource {
    declared(
        address,
        ResourceKind::AwsLbTargetGroupAttachment,
        object(vec![
            ("target_group_arn", value(target_group_arn)),
            ("target_id", value(target_id)),
        ]),
    )
}

#[test]
fn an_undeclared_instance_joining_a_trusted_group_is_drift() {
    let declared = [
        declared_sg("aws_security_group.web", "sg-web", &["sg-app"]),
        declared_sg("aws_security_group.app", "sg-app", &[]),
        declared_instance("aws_instance.worker", "i-worker", &["sg-app"]),
    ];
    let live = [
        live_sg("sg-web", &["sg-app"]),
        live_sg("sg-app", &[]),
        live_instance("i-worker", &["sg-app"]),
        live_instance("i-console", &["sg-app"]),
    ];

    let report = compare(&declared, &live);

    assert_eq!(report.drifts.len(), 1, "{:?}", report.drifts);
    let drift = &report.drifts[0];
    assert_eq!(drift.resource.0, "aws_security_group.web");
    assert_eq!(
        drift.severity,
        Severity::High,
        "membership grew: more machines can reach 443"
    );

    let DriftKind::SemanticChanged {
        field,
        relation,
        declared_effective,
        actual_effective,
        via,
    } = &drift.kind
    else {
        panic!("expected SemanticChanged, got {:?}", drift.kind);
    };
    assert_eq!(field, "ingress");
    assert_eq!(relation, "sg_membership");
    assert_eq!(via, &["sg-app"], "the path that explains the finding");
    assert_eq!(declared_effective, &json(r#"["tcp/443-443/member:i-worker"]"#));
    assert_eq!(
        actual_effective,
        &json(r#"["tcp/443-443/member:i-console", "tcp/443-443/member:i-worker"]"#)
    );
}

#[test]
fn matching_membership_is_not_drift() {
    let declared = [
        declared_sg("aws_security_group.web", "sg-web", &["sg-app"]),
        declared_sg("aws_security_group.app", "sg-app", &[]),
        declared_instance("aws_instance.worker", "i-worker", &["sg-app"]),
    ];
    let live = [
        live_sg("sg-web", &["sg-app"]),
        live_sg("sg-app", &[]),
        live_instance("i-worker", &["sg-app"]),
    ];

    let report = compare(&declared, &live);
    assert!(report.drifts.is_empty(), "{:?}", report.drifts);
    assert!(report.unresolved.is_empty(), "{:?}", report.unresolved);
}

#[test]
fn a_field_that_drifted_literally_gets_only_the_behavioral_finding() {
    let declared = [
        declared_sg("aws_security_group.web", "sg-web", &["sg-app"]),
        declared_sg("aws_security_group.app", "sg-app", &[]),
        declared_instance("aws_instance.worker", "i-worker", &["sg-app"]),
    ];
    let live = [
        live_sg("sg-web", &["sg-other"]),
        live_sg("sg-app", &[]),
        live_sg("sg-other", &[]),
        live_instance("i-worker", &["sg-app"]),
        live_instance("i-console", &["sg-app"]),
    ];

    let report = compare(&declared, &live);

    let on_web: Vec<_> = report
        .drifts
        .iter()
        .filter(|d| d.resource.0 == "aws_security_group.web")
        .collect();
    assert_eq!(on_web.len(), 1, "{on_web:?}");
    assert!(
        matches!(&on_web[0].kind, DriftKind::FieldChanged { field, .. } if field == "ingress"),
        "{:?}",
        on_web[0].kind
    );
}

#[test]
fn a_cause_that_drifted_behaviorally_does_not_suppress_the_consequence() {
    let declared = [
        declared_sg("aws_security_group.web", "sg-web", &["sg-app"]),
        declared_sg("aws_security_group.app", "sg-app", &[]),
        declared_instance("aws_instance.worker", "i-worker", &["sg-app"]),
    ];
    let live = [
        live_sg("sg-web", &["sg-app"]),
        live_sg("sg-app", &[]),
        live_instance("i-worker", &[]),
    ];

    let report = compare(&declared, &live);

    assert!(
        report.drifts.iter().any(|d| {
            d.resource.0 == "aws_instance.worker"
                && matches!(&d.kind, DriftKind::FieldChanged { field, .. } if field == "vpc_security_group_ids")
        }),
        "the cause: {:?}",
        report.drifts
    );
    assert!(
        report.drifts.iter().any(|d| {
            d.resource.0 == "aws_security_group.web"
                && matches!(d.kind, DriftKind::SemanticChanged { .. })
        }),
        "the consequence: {:?}",
        report.drifts
    );
}

#[test]
fn a_state_file_declaring_no_instances_reports_no_membership_drift() {
    let declared = [
        declared_sg("aws_security_group.web", "sg-web", &["sg-app"]),
        declared_sg("aws_security_group.app", "sg-app", &[]),
    ];
    let live = [
        live_sg("sg-web", &["sg-app"]),
        live_sg("sg-app", &[]),
        live_instance("i-owned-elsewhere", &["sg-app"]),
        live_instance("i-also-elsewhere", &["sg-app"]),
    ];

    let report = compare(&declared, &live);

    assert!(
        report.drifts.is_empty(),
        "must not fabricate drift from a non-authoritative state file: {:?}",
        report.drifts
    );
    assert_eq!(report.unresolved.len(), 1, "{:?}", report.unresolved);
    let unresolved = &report.unresolved[0];
    assert_eq!(unresolved.relation, "sg_membership");
    assert!(
        unresolved.resource.is_none(),
        "the state file is not authoritative, not any one resource"
    );
    assert!(
        unresolved.reason.contains("aws_instance"),
        "{}",
        unresolved.reason
    );
}

#[test]
fn a_shrinking_membership_is_low_severity() {
    let declared = [
        declared_sg("aws_security_group.web", "sg-web", &["sg-app"]),
        declared_sg("aws_security_group.app", "sg-app", &[]),
        declared_instance("aws_instance.worker", "i-worker", &["sg-app"]),
        declared_instance("aws_instance.second", "i-second", &["sg-app"]),
    ];
    let live = [
        live_sg("sg-web", &["sg-app"]),
        live_sg("sg-app", &[]),
        live_instance("i-worker", &["sg-app"]),
        live_instance("i-second", &["sg-app"]),
    ];
    assert!(compare(&declared, &live).drifts.is_empty());

    let live = [
        live_sg("sg-web", &["sg-app"]),
        live_sg("sg-app", &[]),
        live_instance("i-worker", &["sg-app"]),
    ];
    let report = compare(&declared, &live);

    let semantic: Vec<_> = report
        .drifts
        .iter()
        .filter(|d| matches!(d.kind, DriftKind::SemanticChanged { .. }))
        .collect();
    assert_eq!(semantic.len(), 1, "{:?}", report.drifts);
    assert_eq!(semantic[0].severity, Severity::Low);
}

#[test]
fn a_deleted_trusted_group_is_unresolved_not_a_narrowing_finding() {
    let declared = [
        declared_sg("aws_security_group.web", "sg-web", &["sg-app"]),
        declared_sg("aws_security_group.app", "sg-app", &[]),
        declared_instance("aws_instance.worker", "i-worker", &["sg-app"]),
    ];
    let live = [
        live_sg("sg-web", &["sg-app"]),
        live_instance("i-worker", &[]),
    ];

    let report = compare(&declared, &live);

    assert!(
        !report
            .drifts
            .iter()
            .any(|d| matches!(d.kind, DriftKind::SemanticChanged { .. })),
        "{:?}",
        report.drifts
    );
    let unresolved = report
        .unresolved
        .iter()
        .find(|u| {
            u.resource
                .as_ref()
                .is_some_and(|r| r.0 == "aws_security_group.web")
        })
        .expect("expected an Unresolved for web");
    assert_eq!(unresolved.relation, "sg_membership");
    assert!(
        unresolved.reason.contains("sg-app"),
        "{}",
        unresolved.reason
    );
}

#[test]
fn a_subject_missing_from_the_account_is_not_semantically_checked() {
    let declared = [
        declared_sg("aws_security_group.web", "sg-web", &["sg-app"]),
        declared_sg("aws_security_group.app", "sg-app", &[]),
        declared_instance("aws_instance.worker", "i-worker", &["sg-app"]),
    ];
    let live = [
        live_sg("sg-app", &[]),
        live_instance("i-worker", &["sg-app"]),
    ];

    let report = compare(&declared, &live);

    assert!(
        report
            .drifts
            .iter()
            .any(|d| d.resource.0 == "aws_security_group.web"
                && matches!(d.kind, DriftKind::Missing)),
        "{:?}",
        report.drifts
    );
    assert!(
        !report
            .drifts
            .iter()
            .any(|d| matches!(d.kind, DriftKind::SemanticChanged { .. })),
        "{:?}",
        report.drifts
    );
}

#[test]
fn groups_with_no_group_sourced_rules_are_never_reported() {
    let declared = [
        declared(
            "aws_security_group.web",
            ResourceKind::AwsSecurityGroup,
            json(r#"{
                "id": "sg-web", "name": "web", "description": "d", "vpc_id": "vpc-1",
                "tags": {},
                "ingress": [
                    {
                        "from_port": 443, "to_port": 443, "protocol": "tcp",
                        "cidr_blocks": ["0.0.0.0/0"], "ipv6_cidr_blocks": [],
                        "prefix_list_ids": [], "security_groups": [], "self": false
                    }
                ],
                "egress": []
            }"#),
        ),
        declared_sg("aws_security_group.app", "sg-app", &[]),
        declared_instance("aws_instance.worker", "i-worker", &["sg-app"]),
    ];
    let live = [
        live(
            "sg-web",
            ResourceKind::AwsSecurityGroup,
            json(r#"{
                "id": "sg-web", "name": "web", "description": "d", "vpc_id": "vpc-1",
                "tags": {},
                "ingress": [
                    {
                        "from_port": 443, "to_port": 443, "protocol": "tcp",
                        "cidr_blocks": ["0.0.0.0/0"], "ipv6_cidr_blocks": [],
                        "prefix_list_ids": [], "security_groups": [], "self": false
                    }
                ],
                "egress": []
            }"#),
        ),
        live_sg("sg-app", &[]),
        live_instance("i-worker", &["sg-app"]),
        live_instance("i-console", &["sg-app"]),
    ];

    let report = compare(&declared, &live);
    assert!(report.drifts.is_empty(), "{:?}", report.drifts);
    assert!(report.unresolved.is_empty(), "{:?}", report.unresolved);
}

#[test]
fn a_console_rule_on_an_attached_group_reads_as_exposure_drift_on_the_instance() {
    let declared = [
        declared_sg_open("aws_security_group.app", "sg-app", &[443]),
        declared_instance("aws_instance.worker", "i-worker", &["sg-app"]),
    ];
    let live = [
        live_sg_open("sg-app", &[443, 22]),
        live_instance("i-worker", &["sg-app"]),
    ];

    let report = compare(&declared, &live);

    assert!(
        report.drifts.iter().any(|d| {
            d.resource.0 == "aws_security_group.app"
                && matches!(&d.kind, DriftKind::FieldChanged { field, .. } if field == "ingress")
        }),
        "the cause: {:?}",
        report.drifts
    );

    let consequence = report
        .drifts
        .iter()
        .find(|d| d.resource.0 == "aws_instance.worker")
        .expect("expected an exposure finding on the instance");
    assert_eq!(
        consequence.severity,
        Severity::High,
        "more ports reachable than declared"
    );

    let DriftKind::SemanticChanged {
        field,
        relation,
        declared_effective,
        actual_effective,
        via,
    } = &consequence.kind
    else {
        panic!("expected SemanticChanged, got {:?}", consequence.kind);
    };
    assert_eq!(field, "vpc_security_group_ids");
    assert_eq!(relation, "instance_exposure");
    assert_eq!(via, &["sg-app"], "the path that explains the finding");
    assert_eq!(declared_effective, &json(r#"["tcp/443-443/cidr:0.0.0.0/0"]"#));
    assert_eq!(
        actual_effective,
        &json(r#"["tcp/22-22/cidr:0.0.0.0/0", "tcp/443-443/cidr:0.0.0.0/0"]"#)
    );
}

#[test]
fn matching_exposure_is_not_drift() {
    let declared = [
        declared_sg_open("aws_security_group.app", "sg-app", &[443]),
        declared_instance("aws_instance.worker", "i-worker", &["sg-app"]),
    ];
    let live = [
        live_sg_open("sg-app", &[443]),
        live_instance("i-worker", &["sg-app"]),
    ];

    let report = compare(&declared, &live);
    assert!(report.drifts.is_empty(), "{:?}", report.drifts);
    assert!(report.unresolved.is_empty(), "{:?}", report.unresolved);
}

#[test]
fn an_instances_own_group_list_changing_gets_only_the_behavioral_finding() {
    let declared = [
        declared_sg_open("aws_security_group.app", "sg-app", &[443]),
        declared_sg_open("aws_security_group.extra", "sg-extra", &[22]),
        declared_instance("aws_instance.worker", "i-worker", &["sg-app"]),
    ];
    let live = [
        live_sg_open("sg-app", &[443]),
        live_sg_open("sg-extra", &[22]),
        live_instance("i-worker", &["sg-app", "sg-extra"]),
    ];

    let report = compare(&declared, &live);

    let on_worker: Vec<_> = report
        .drifts
        .iter()
        .filter(|d| d.resource.0 == "aws_instance.worker")
        .collect();
    assert_eq!(on_worker.len(), 1, "{on_worker:?}");
    assert!(
        matches!(&on_worker[0].kind, DriftKind::FieldChanged { field, .. } if field == "vpc_security_group_ids"),
        "{:?}",
        on_worker[0].kind
    );
}

#[test]
fn a_state_file_declaring_no_security_groups_reports_no_exposure_drift() {
    let declared = [declared_instance(
        "aws_instance.worker",
        "i-worker",
        &["sg-app"],
    )];
    let live = [
        live_sg_open("sg-app", &[443]),
        live_instance("i-worker", &["sg-app"]),
    ];

    let report = compare(&declared, &live);

    assert!(
        report.drifts.is_empty(),
        "must not fabricate drift from a non-authoritative state file: {:?}",
        report.drifts
    );
    let unresolved = report
        .unresolved
        .iter()
        .find(|u| u.relation == "instance_exposure")
        .expect("expected an unresolved instance_exposure entry");
    assert!(
        unresolved.resource.is_none(),
        "the state file is not authoritative, not any one resource"
    );
    assert!(
        unresolved.reason.contains("aws_security_group"),
        "{}",
        unresolved.reason
    );
}

#[test]
fn an_attached_group_missing_from_declared_state_is_unresolved_not_a_narrowing_finding() {
    let declared = [
        declared_sg_open("aws_security_group.other", "sg-other", &[]),
        declared_instance("aws_instance.worker", "i-worker", &["sg-app"]),
    ];
    let live = [live_instance("i-worker", &["sg-app"])];

    let report = compare(&declared, &live);

    assert!(
        !report
            .drifts
            .iter()
            .any(|d| matches!(d.kind, DriftKind::SemanticChanged { .. })),
        "{:?}",
        report.drifts
    );
    let unresolved = report
        .unresolved
        .iter()
        .find(|u| {
            u.resource
                .as_ref()
                .is_some_and(|r| r.0 == "aws_instance.worker")
        })
        .expect("expected an Unresolved for worker");
    assert_eq!(unresolved.relation, "instance_exposure");
    assert!(
        unresolved.reason.contains("sg-app"),
        "{}",
        unresolved.reason
    );
}

#[test]
fn a_removed_console_rule_is_low_severity_exposure_drift() {
    let declared = [
        declared_sg_open("aws_security_group.app", "sg-app", &[443, 22]),
        declared_instance("aws_instance.worker", "i-worker", &["sg-app"]),
    ];
    let live = [
        live_sg_open("sg-app", &[443]),
        live_instance("i-worker", &["sg-app"]),
    ];

    let report = compare(&declared, &live);
    let consequence = report
        .drifts
        .iter()
        .find(|d| {
            d.resource.0 == "aws_instance.worker"
                && matches!(d.kind, DriftKind::SemanticChanged { .. })
        })
        .expect("expected an exposure finding");
    assert_eq!(consequence.severity, Severity::Low);
}

#[test]
fn an_undeclared_load_balancer_joining_a_trusted_group_is_drift() {
    let declared = [
        declared_sg("aws_security_group.web", "sg-web", &["sg-app"]),
        declared_sg("aws_security_group.app", "sg-app", &[]),
        declared_instance("aws_instance.other", "i-other", &[]),
    ];
    let live = [
        live_sg("sg-web", &["sg-app"]),
        live_sg("sg-app", &[]),
        live_instance("i-other", &[]),
        live_lb(
            "arn:aws:elasticloadbalancing:us-east-1:000000000000:loadbalancer/app/my-alb/1",
            &["sg-app"],
        ),
    ];

    let report = compare(&declared, &live);

    assert_eq!(report.drifts.len(), 1, "{:?}", report.drifts);
    let drift = &report.drifts[0];
    assert_eq!(drift.resource.0, "aws_security_group.web");
    assert_eq!(
        drift.severity,
        Severity::High,
        "membership grew: the ALB can now reach 443"
    );

    let DriftKind::SemanticChanged {
        field,
        relation,
        declared_effective,
        actual_effective,
        via,
    } = &drift.kind
    else {
        panic!("expected SemanticChanged, got {:?}", drift.kind);
    };
    assert_eq!(field, "ingress");
    assert_eq!(relation, "sg_membership");
    assert_eq!(via, &["sg-app"]);
    assert_eq!(declared_effective, &json(r#"[]"#));
    assert_eq!(
        actual_effective,
        &json(r#"[
            "tcp/443-443/member:arn:aws:elasticloadbalancing:us-east-1:000000000000:loadbalancer/app/my-alb/1"
        ]"#)
    );
}

#[test]
fn matching_load_balancer_membership_is_not_drift() {
    let arn = "arn:aws:elasticloadbalancing:us-east-1:000000000000:loadbalancer/app/my-alb/1";
    let declared = [
        declared_sg("aws_security_group.web", "sg-web", &["sg-app"]),
        declared_sg("aws_security_group.app", "sg-app", &[]),
        declared_lb("aws_lb.app", arn, &["sg-app"]),
        declared_instance("aws_instance.other", "i-other", &[]),
    ];
    let live = [
        live_sg("sg-web", &["sg-app"]),
        live_sg("sg-app", &[]),
        live_lb(arn, &["sg-app"]),
        live_instance("i-other", &[]),
    ];

    let report = compare(&declared, &live);
    assert!(report.drifts.is_empty(), "{:?}", report.drifts);
    assert!(report.unresolved.is_empty(), "{:?}", report.unresolved);
}

fn reachability_drift(report: &DriftReport) -> Option<&Drift> {
    report.drifts.iter().find(
        |d| matches!(&d.kind, DriftKind::SemanticChanged { relation, .. } if relation == "internet_reachability"),
    )
}

#[test]
fn a_declared_target_group_attachment_matching_live_registration_is_not_drift() {
    let alb_arn = "arn:aws:elasticloadbalancing:us-east-1:000000000000:loadbalancer/app/my-alb/1";
    let tg_arn = "arn:aws:elasticloadbalancing:us-east-1:000000000000:targetgroup/my-targets/1";
    let declared = [
        declared_sg_open("aws_security_group.web", "sg-web", &[443]),
        declared_lb("aws_lb.app", alb_arn, &["sg-web"]),
        declared_tg("aws_lb_target_group.app", tg_arn, alb_arn),
        declared_attachment("aws_lb_target_group_attachment.app", tg_arn, "i-app"),
        declared_instance("aws_instance.app", "i-app", &[]),
    ];
    let live = [
        live_sg_open("sg-web", &[443]),
        live_lb(alb_arn, &["sg-web"]),
        live_tg(tg_arn, alb_arn, &["i-app"]),
        live_instance("i-app", &[]),
    ];

    let report = compare(&declared, &live);
    assert!(reachability_drift(&report).is_none(), "{:?}", report.drifts);
}

#[test]
fn a_target_registered_live_but_never_declared_is_high_severity_drift() {
    let alb_arn = "arn:aws:elasticloadbalancing:us-east-1:000000000000:loadbalancer/app/my-alb/1";
    let tg_arn = "arn:aws:elasticloadbalancing:us-east-1:000000000000:targetgroup/my-targets/1";
    let declared = [
        declared_sg_open("aws_security_group.web", "sg-web", &[443]),
        declared_lb("aws_lb.app", alb_arn, &["sg-web"]),
        declared_tg("aws_lb_target_group.app", tg_arn, alb_arn),
        declared_instance("aws_instance.app", "i-app", &[]),
    ];
    let live = [
        live_sg_open("sg-web", &[443]),
        live_lb(alb_arn, &["sg-web"]),
        live_tg(tg_arn, alb_arn, &["i-app"]),
        live_instance("i-app", &[]),
    ];

    let report = compare(&declared, &live);

    let drift = reachability_drift(&report).unwrap_or_else(|| {
        panic!(
            "expected an internet_reachability finding: {:?}",
            report.drifts
        )
    });
    assert_eq!(drift.resource.0, "aws_instance.app");
    assert_eq!(
        drift.severity,
        Severity::High,
        "reachability grew: the instance is now reachable from the internet"
    );

    let DriftKind::SemanticChanged {
        field,
        declared_effective,
        actual_effective,
        via,
        ..
    } = &drift.kind
    else {
        panic!("expected SemanticChanged, got {:?}", drift.kind);
    };
    assert_eq!(field, "vpc_security_group_ids");
    assert_eq!(declared_effective, &json(r#"[]"#));
    assert_eq!(
        actual_effective,
        &array(vec![value(format!("via:sg-web>{alb_arn}>{tg_arn}>i-app"))])
    );
    assert!(via.contains(&"sg-web".to_string()), "{via:?}");
    assert!(via.contains(&"i-app".to_string()), "{via:?}");
}

#[test]
fn a_declared_attachment_no_longer_registered_live_is_low_severity_drift() {
    let alb_arn = "arn:aws:elasticloadbalancing:us-east-1:000000000000:loadbalancer/app/my-alb/1";
    let tg_arn = "arn:aws:elasticloadbalancing:us-east-1:000000000000:targetgroup/my-targets/1";
    let declared = [
        declared_sg_open("aws_security_group.web", "sg-web", &[443]),
        declared_lb("aws_lb.app", alb_arn, &["sg-web"]),
        declared_tg("aws_lb_target_group.app", tg_arn, alb_arn),
        declared_attachment("aws_lb_target_group_attachment.app", tg_arn, "i-app"),
        declared_instance("aws_instance.app", "i-app", &[]),
    ];
    let live = [
        live_sg_open("sg-web", &[443]),
        live_lb(alb_arn, &["sg-web"]),
        live_tg(tg_arn, alb_arn, &[]),
        live_instance("i-app", &[]),
    ];

    let report = compare(&declared, &live);

    let drift = reachability_drift(&report).unwrap_or_else(|| {
        panic!(
            "expected an internet_reachability finding: {:?}",
            report.drifts
        )
    });
    assert_eq!(drift.severity, Severity::Low);
}

#[test]
fn reachability_through_a_pure_security_group_trust_chain_needs_no_load_balancer() {
    let declared = [
        declared_sg_open("aws_security_group.web", "sg-web", &[443]),
        declared_sg("aws_security_group.app", "sg-app", &[]),
        declared_sg("aws_security_group.db", "sg-db", &["sg-app"]),
        declared_instance("aws_instance.web", "i-web", &["sg-web"]),
        declared_instance("aws_instance.db", "i-db", &["sg-db"]),
    ];
    let live = [
        live_sg_open("sg-web", &[443]),
        live_sg("sg-app", &[]),
        live_sg("sg-db", &["sg-app"]),
        live_instance("i-web", &["sg-web", "sg-app"]),
        live_instance("i-db", &["sg-db"]),
    ];

    let report = compare(&declared, &live);

    assert!(
        report.drifts.iter().any(|d| {
            d.resource.0 == "aws_instance.web"
                && matches!(&d.kind, DriftKind::FieldChanged { field, .. } if field == "vpc_security_group_ids")
        }),
        "the cause: {:?}",
        report.drifts
    );
    let drift = reachability_drift(&report)
        .unwrap_or_else(|| panic!("the consequence: {:?}", report.drifts));
    assert_eq!(drift.resource.0, "aws_instance.db");
    assert_eq!(drift.severity, Severity::High);
}

#[test]
fn a_state_file_declaring_no_security_groups_reports_no_reachability_drift() {
    let declared = [declared_instance("aws_instance.app", "i-app", &[])];
    let live = [
        live_sg_open("sg-app", &[443]),
        live_instance("i-app", &["sg-app"]),
    ];

    let report = compare(&declared, &live);

    assert!(
        reachability_drift(&report).is_none(),
        "must not fabricate drift from a non-authoritative state file: {:?}",
        report.drifts
    );
    let unresolved = report
        .unresolved
        .iter()
        .find(|u| u.relation == "internet_reachability")
        .expect("expected an unresolved internet_reachability entry");
    assert!(
        unresolved.resource.is_none(),
        "the state file is not authoritative, not any one resource"
    );
    assert!(
        unresolved.reason.contains("aws_security_group"),
        "{}",
        unresolved.reason
    );
}
