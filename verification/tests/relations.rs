//! What each relation reads a resource to mean.

use uncia::diff::semantic::graph::{build, Graph, Node};
use uncia::diff::semantic::relations::{InstanceExposure, InternetReachability, SgMembership};
use uncia::diff::semantic::Relation;
use uncia::document::read_json;
use uncia::json::{JsonValue, Object};
use uncia::ResourceKind;

fn json(text: &str) -> JsonValue {
    read_json(text).unwrap()
}

fn attrs(v: JsonValue) -> Object {
    match v {
        JsonValue::Object(entries) => entries,
        other => panic!("not an object: {other:?}"),
    }
}

trait ToJson {
    fn to_json(self) -> JsonValue;
}

impl ToJson for JsonValue {
    fn to_json(self) -> JsonValue {
        self
    }
}

impl ToJson for &str {
    fn to_json(self) -> JsonValue {
        JsonValue::from_text(self)
    }
}

impl ToJson for String {
    fn to_json(self) -> JsonValue {
        JsonValue::from_text(&self)
    }
}

impl ToJson for i64 {
    fn to_json(self) -> JsonValue {
        JsonValue::from_i64(self)
    }
}

impl ToJson for bool {
    fn to_json(self) -> JsonValue {
        JsonValue::Bool(self)
    }
}

impl<T: ToJson + Clone> ToJson for &[T] {
    fn to_json(self) -> JsonValue {
        JsonValue::Array(self.iter().map(|v| v.clone().to_json()).collect())
    }
}

impl<T: ToJson> ToJson for Vec<T> {
    fn to_json(self) -> JsonValue {
        JsonValue::Array(self.into_iter().map(|v| v.to_json()).collect())
    }
}

fn value(v: impl ToJson) -> JsonValue {
    v.to_json()
}

fn object(entries: Vec<(&str, JsonValue)>) -> JsonValue {
    let mut map = Object::new();
    for (key, v) in entries {
        map.insert(key.to_string(), v);
    }
    JsonValue::Object(map)
}

fn array(items: Vec<JsonValue>) -> JsonValue {
    JsonValue::Array(items)
}

fn sg_trusting(source: &str) -> Object {
    attrs(object(vec![
        ("ingress", array(vec![object(vec![
            ("from_port", JsonValue::from_i64(443)),
            ("to_port", JsonValue::from_i64(443)),
            ("protocol", JsonValue::from_text("tcp")),
            ("cidr_blocks", json(r#"[]"#)),
            ("ipv6_cidr_blocks", json(r#"[]"#)),
            ("prefix_list_ids", json(r#"[]"#)),
            ("security_groups", array(vec![value(source)])),
            ("self", JsonValue::Bool(false)),
        ])])),
    ]))
}

fn instance_in(sgs: JsonValue) -> Object {
    attrs(object(vec![
        ("vpc_security_group_ids", value(sgs)),
    ]))
}

fn graph_with(members: &[(&str, Object)]) -> (Object, Graph) {
    let web = sg_trusting("sg-app");
    let app = attrs(json(r#"{"name": "app"}"#));
    let mut triples: Vec<(&ResourceKind, &str, &Object)> = vec![
        (&ResourceKind::AwsSecurityGroup, "sg-web", &web),
        (&ResourceKind::AwsSecurityGroup, "sg-app", &app),
    ];
    for (id, a) in members {
        triples.push((&ResourceKind::AwsInstance, id, a));
    }
    let g = build(&triples);
    (web.clone(), g)
}

fn subject(attributes: &Object) -> Node {
    Node {
        kind: ResourceKind::AwsSecurityGroup,
        cloud_id: "sg-web".to_string(),
        attributes: attributes.clone(),
    }
}

#[test]
fn membership_expands_to_one_atom_per_member() {
    let worker = instance_in(json(r#"["sg-app"]"#));
    let (web, g) = graph_with(&[("i-worker", worker)]);

    let effective = SgMembership.expand(&subject(&web), &g).unwrap();
    assert_eq!(effective, json(r#"["tcp/443-443/member:i-worker"]"#));
}

#[test]
fn an_undeclared_member_widens_the_effective_set() {
    let worker = instance_in(json(r#"["sg-app"]"#));
    let console = instance_in(json(r#"["sg-app"]"#));
    let (web, declared) = graph_with(&[("i-worker", worker.clone())]);
    let (_, live) = graph_with(&[("i-worker", worker), ("i-console", console)]);

    let before = SgMembership.expand(&subject(&web), &declared).unwrap();
    let after = SgMembership.expand(&subject(&web), &live).unwrap();

    assert_ne!(before, after);
    assert_eq!(
        after,
        json(r#"["tcp/443-443/member:i-console", "tcp/443-443/member:i-worker"]"#)
    );
}

#[test]
fn an_empty_group_expands_to_nothing_without_erroring() {
    let (web, g) = graph_with(&[]);
    assert_eq!(SgMembership.expand(&subject(&web), &g).unwrap(), json(r#"[]"#));
}

#[test]
fn a_rule_with_no_group_sources_expands_to_nothing() {
    let cidr_only = attrs(json(r#"{
        "ingress": [
            {
                "from_port": 443, "to_port": 443, "protocol": "tcp",
                "cidr_blocks": ["0.0.0.0/0"], "security_groups": [], "self": false
            }
        ]
    }"#));
    let g = build(&[]);

    assert_eq!(
        SgMembership.expand(&subject(&cidr_only), &g).unwrap(),
        json(r#"[]"#),
        "literal sources carry no membership to expand"
    );
}

#[test]
fn a_missing_referenced_group_is_unresolvable_not_empty() {
    let web = sg_trusting("sg-gone");
    let g = build(&[]);

    let err = SgMembership.expand(&subject(&web), &g).unwrap_err();
    assert!(err.contains("sg-gone"), "{err}");
}

#[test]
fn expansion_is_insensitive_to_member_discovery_order() {
    let a = instance_in(json(r#"["sg-app"]"#));
    let b = instance_in(json(r#"["sg-app"]"#));
    let (web, one) = graph_with(&[("i-a", a.clone()), ("i-b", b.clone())]);
    let (_, two) = graph_with(&[("i-b", b), ("i-a", a)]);

    assert_eq!(
        SgMembership.expand(&subject(&web), &one).unwrap(),
        SgMembership.expand(&subject(&web), &two).unwrap()
    );
}

#[test]
fn via_lists_the_groups_a_subject_trusts() {
    let web = sg_trusting("sg-app");
    let g = build(&[]);
    assert_eq!(SgMembership.via(&subject(&web), &g), vec!["sg-app"]);
}

fn lb_in(sgs: JsonValue) -> Object {
    attrs(object(vec![
        ("security_groups", value(sgs)),
    ]))
}

#[test]
fn a_load_balancer_attached_to_the_trusted_group_is_a_member() {
    let web = sg_trusting("sg-app");
    let app = attrs(json(r#"{"name": "app"}"#));
    let alb = lb_in(json(r#"["sg-app"]"#));
    let g = build(&[
            (&ResourceKind::AwsSecurityGroup, "sg-web", &web),
            (&ResourceKind::AwsSecurityGroup, "sg-app", &app),
            (&ResourceKind::AwsLoadBalancer, "arn:alb/1", &alb),
        ]);

    let effective = SgMembership.expand(&subject(&web), &g).unwrap();
    assert_eq!(effective, json(r#"["tcp/443-443/member:arn:alb/1"]"#));
}

#[test]
fn membership_includes_instances_and_load_balancers_together() {
    let web = sg_trusting("sg-app");
    let app = attrs(json(r#"{"name": "app"}"#));
    let worker = instance_in(json(r#"["sg-app"]"#));
    let alb = lb_in(json(r#"["sg-app"]"#));
    let g = build(&[
            (&ResourceKind::AwsSecurityGroup, "sg-web", &web),
            (&ResourceKind::AwsSecurityGroup, "sg-app", &app),
            (&ResourceKind::AwsInstance, "i-worker", &worker),
            (&ResourceKind::AwsLoadBalancer, "arn:alb/1", &alb),
        ]);

    let effective = SgMembership.expand(&subject(&web), &g).unwrap();
    assert_eq!(
        effective,
        json(r#"["tcp/443-443/member:arn:alb/1", "tcp/443-443/member:i-worker"]"#)
    );
}

#[test]
fn a_load_balancer_attaching_to_a_trusted_group_widens_the_effective_set() {
    let web = sg_trusting("sg-app");
    let app = attrs(json(r#"{"name": "app"}"#));
    let alb = lb_in(json(r#"["sg-app"]"#));

    let declared = build(&[
            (&ResourceKind::AwsSecurityGroup, "sg-web", &web),
            (&ResourceKind::AwsSecurityGroup, "sg-app", &app),
        ]);
    let live = build(&[
            (&ResourceKind::AwsSecurityGroup, "sg-web", &web),
            (&ResourceKind::AwsSecurityGroup, "sg-app", &app),
            (&ResourceKind::AwsLoadBalancer, "arn:alb/1", &alb),
        ]);

    let before = SgMembership.expand(&subject(&web), &declared).unwrap();
    let after = SgMembership.expand(&subject(&web), &live).unwrap();

    assert_eq!(before, json(r#"[]"#));
    assert_eq!(after, json(r#"["tcp/443-443/member:arn:alb/1"]"#));
}

fn sg_with_ingress(rule: JsonValue) -> Object {
    attrs(object(vec![
        ("ingress", array(vec![value(rule)])),
    ]))
}

fn cidr_rule(from: i64, to: i64, cidr: &str) -> JsonValue {
    object(vec![
        ("from_port", value(from)),
        ("to_port", value(to)),
        ("protocol", JsonValue::from_text("tcp")),
        ("cidr_blocks", array(vec![value(cidr)])),
        ("ipv6_cidr_blocks", json(r#"[]"#)),
        ("prefix_list_ids", json(r#"[]"#)),
        ("security_groups", json(r#"[]"#)),
        ("self", JsonValue::Bool(false)),
    ])
}

fn instance_subject(cloud_id: &str, attributes: &Object) -> Node {
    Node {
        kind: ResourceKind::AwsInstance,
        cloud_id: cloud_id.to_string(),
        attributes: attributes.clone(),
    }
}

#[test]
fn exposure_is_the_union_of_attached_groups_rules() {
    let app = sg_with_ingress(cidr_rule(22, 22, "0.0.0.0/0"));
    let worker = instance_in(json(r#"["sg-app"]"#));
    let g = build(&[
            (&ResourceKind::AwsSecurityGroup, "sg-app", &app),
            (&ResourceKind::AwsInstance, "i-worker", &worker),
        ]);

    let effective = InstanceExposure
        .expand(&instance_subject("i-worker", &worker), &g)
        .unwrap();
    assert_eq!(effective, json(r#"["tcp/22-22/cidr:0.0.0.0/0"]"#));
}

#[test]
fn a_rule_added_to_an_attached_group_widens_exposure() {
    let worker = instance_in(json(r#"["sg-app"]"#));
    let declared_app = sg_with_ingress(cidr_rule(443, 443, "0.0.0.0/0"));
    let live_app = attrs(object(vec![
        ("ingress", array(vec![value(cidr_rule(443, 443, "0.0.0.0/0")), value(cidr_rule(22, 22, "0.0.0.0/0"))])),
    ]));

    let declared = build(&[
            (&ResourceKind::AwsSecurityGroup, "sg-app", &declared_app),
            (&ResourceKind::AwsInstance, "i-worker", &worker),
        ]);
    let live = build(&[
            (&ResourceKind::AwsSecurityGroup, "sg-app", &live_app),
            (&ResourceKind::AwsInstance, "i-worker", &worker),
        ]);

    let before = InstanceExposure
        .expand(&instance_subject("i-worker", &worker), &declared)
        .unwrap();
    let after = InstanceExposure
        .expand(&instance_subject("i-worker", &worker), &live)
        .unwrap();

    assert_ne!(before, after);
    assert_eq!(
        after,
        json(r#"["tcp/22-22/cidr:0.0.0.0/0", "tcp/443-443/cidr:0.0.0.0/0"]"#)
    );
}

#[test]
fn exposure_unions_rules_from_every_attached_group() {
    let app = sg_with_ingress(cidr_rule(443, 443, "0.0.0.0/0"));
    let db = sg_with_ingress(cidr_rule(5432, 5432, "10.0.0.0/8"));
    let worker = instance_in(json(r#"["sg-app", "sg-db"]"#));
    let g = build(&[
            (&ResourceKind::AwsSecurityGroup, "sg-app", &app),
            (&ResourceKind::AwsSecurityGroup, "sg-db", &db),
            (&ResourceKind::AwsInstance, "i-worker", &worker),
        ]);

    let effective = InstanceExposure
        .expand(&instance_subject("i-worker", &worker), &g)
        .unwrap();
    assert_eq!(
        effective,
        json(r#"["tcp/443-443/cidr:0.0.0.0/0", "tcp/5432-5432/cidr:10.0.0.0/8"]"#)
    );
}

#[test]
fn an_instance_with_no_groups_expands_to_nothing() {
    let worker = instance_in(json(r#"[]"#));
    let g = build(&[]);
    assert_eq!(
        InstanceExposure
            .expand(&instance_subject("i-worker", &worker), &g)
            .unwrap(),
        json(r#"[]"#)
    );
}

#[test]
fn a_missing_attached_group_is_unresolvable_not_empty() {
    let worker = instance_in(json(r#"["sg-gone"]"#));
    let g = build(&[]);

    let err = InstanceExposure
        .expand(&instance_subject("i-worker", &worker), &g)
        .unwrap_err();
    assert!(err.contains("sg-gone"), "{err}");
}

#[test]
fn via_lists_the_groups_an_instance_is_attached_to() {
    let worker = instance_in(json(r#"["sg-app", "sg-db"]"#));
    let g = build(&[]);
    assert_eq!(
        InstanceExposure.via(&instance_subject("i-worker", &worker), &g),
        vec!["sg-app", "sg-db"]
    );
}

fn tg_in(lb_arn: &str, targets: JsonValue) -> Object {
    attrs(object(vec![
        ("load_balancer_arns", array(vec![value(lb_arn)])),
        ("targets", value(targets)),
    ]))
}

#[test]
fn an_instance_directly_in_an_internet_facing_group_is_reachable() {
    let web = sg_with_ingress(cidr_rule(443, 443, "0.0.0.0/0"));
    let worker = instance_in(json(r#"["sg-web"]"#));
    let g = build(&[
            (&ResourceKind::AwsSecurityGroup, "sg-web", &web),
            (&ResourceKind::AwsInstance, "i-worker", &worker),
        ]);

    let effective = InternetReachability
        .expand(&instance_subject("i-worker", &worker), &g)
        .unwrap();
    assert_eq!(effective, json(r#"["via:sg-web>i-worker"]"#));
    assert_eq!(
        InternetReachability.via(&instance_subject("i-worker", &worker), &g),
        vec!["i-worker", "sg-web"]
    );
}

#[test]
fn relations_reaches_a_database_instance_through_a_web_and_app_tier() {
    let sg_web = sg_with_ingress(cidr_rule(443, 443, "0.0.0.0/0"));
    let alb = lb_in(json(r#"["sg-web"]"#));
    let tg = tg_in("arn:alb/1", json(r#"["i-app"]"#));
    let app = instance_in(json(r#"["sg-app"]"#));
    let sg_app = attrs(json(r#"{"name": "app"}"#));
    let sg_db = sg_trusting("sg-app");
    let db = instance_in(json(r#"["sg-db"]"#));

    let g = build(&[
            (&ResourceKind::AwsSecurityGroup, "sg-web", &sg_web),
            (&ResourceKind::AwsLoadBalancer, "arn:alb/1", &alb),
            (&ResourceKind::AwsLbTargetGroup, "arn:tg/1", &tg),
            (&ResourceKind::AwsInstance, "i-app", &app),
            (&ResourceKind::AwsSecurityGroup, "sg-app", &sg_app),
            (&ResourceKind::AwsSecurityGroup, "sg-db", &sg_db),
            (&ResourceKind::AwsInstance, "i-db", &db),
        ]);

    let effective = InternetReachability
        .expand(&instance_subject("i-db", &db), &g)
        .unwrap();
    assert_eq!(
        effective,
        json(r#"["via:sg-web>arn:alb/1>arn:tg/1>i-app>sg-db>i-db"]"#)
    );
}

#[test]
fn a_new_live_target_group_registration_widens_reachability() {
    let sg_web = sg_with_ingress(cidr_rule(443, 443, "0.0.0.0/0"));
    let alb = lb_in(json(r#"["sg-web"]"#));
    let app = instance_in(json(r#"[]"#));

    let declared_tg = tg_in("arn:alb/1", json(r#"[]"#));
    let declared = build(&[
            (&ResourceKind::AwsSecurityGroup, "sg-web", &sg_web),
            (&ResourceKind::AwsLoadBalancer, "arn:alb/1", &alb),
            (&ResourceKind::AwsLbTargetGroup, "arn:tg/1", &declared_tg),
            (&ResourceKind::AwsInstance, "i-app", &app),
        ]);

    let live_tg = tg_in("arn:alb/1", json(r#"["i-app"]"#));
    let live = build(&[
            (&ResourceKind::AwsSecurityGroup, "sg-web", &sg_web),
            (&ResourceKind::AwsLoadBalancer, "arn:alb/1", &alb),
            (&ResourceKind::AwsLbTargetGroup, "arn:tg/1", &live_tg),
            (&ResourceKind::AwsInstance, "i-app", &app),
        ]);

    let before = InternetReachability
        .expand(&instance_subject("i-app", &app), &declared)
        .unwrap();
    let after = InternetReachability
        .expand(&instance_subject("i-app", &app), &live)
        .unwrap();

    assert_eq!(before, json(r#"[]"#));
    assert_eq!(after, json(r#"["via:sg-web>arn:alb/1>arn:tg/1>i-app"]"#));
}

#[test]
fn an_instance_with_no_path_from_the_internet_expands_to_nothing() {
    let web = sg_with_ingress(cidr_rule(443, 443, "0.0.0.0/0"));
    let isolated = attrs(json(r#"{"name": "isolated"}"#));
    let worker = instance_in(json(r#"["sg-isolated"]"#));
    let g = build(&[
            (&ResourceKind::AwsSecurityGroup, "sg-web", &web),
            (&ResourceKind::AwsSecurityGroup, "sg-isolated", &isolated),
            (&ResourceKind::AwsInstance, "i-worker", &worker),
        ]);

    let effective = InternetReachability
        .expand(&instance_subject("i-worker", &worker), &g)
        .unwrap();
    assert_eq!(effective, json(r#"[]"#));
    assert!(
        InternetReachability
            .via(&instance_subject("i-worker", &worker), &g)
            .is_empty()
    );
}

#[test]
fn a_graph_with_no_internet_facing_group_reports_nothing_reachable() {
    let private = sg_with_ingress(cidr_rule(443, 443, "10.0.0.0/8"));
    let worker = instance_in(json(r#"["sg-private"]"#));
    let g = build(&[
            (&ResourceKind::AwsSecurityGroup, "sg-private", &private),
            (&ResourceKind::AwsInstance, "i-worker", &worker),
        ]);

    let effective = InternetReachability
        .expand(&instance_subject("i-worker", &worker), &g)
        .unwrap();
    assert_eq!(effective, json(r#"[]"#));
}

fn subject_of(kind: ResourceKind, cloud_id: &str, attributes: &Object) -> Node {
    Node {
        kind,
        cloud_id: cloud_id.to_string(),
        attributes: attributes.clone(),
    }
}

#[test]
fn an_rds_instance_attached_to_the_trusted_group_is_a_member() {
    let web = sg_trusting("sg-app");
    let app = attrs(json(r#"{"name": "app"}"#));
    let db = instance_in(json(r#"["sg-app"]"#));
    let g = build(&[
            (&ResourceKind::AwsSecurityGroup, "sg-web", &web),
            (&ResourceKind::AwsSecurityGroup, "sg-app", &app),
            (&ResourceKind::AwsDbInstance, "db-ABCDEF", &db),
        ]);

    let effective = SgMembership.expand(&subject(&web), &g).unwrap();
    assert_eq!(effective, json(r#"["tcp/443-443/member:db-ABCDEF"]"#));
}

#[test]
fn a_database_instance_directly_in_an_internet_facing_group_is_reachable() {
    let web = sg_with_ingress(cidr_rule(5432, 5432, "0.0.0.0/0"));
    let db = instance_in(json(r#"["sg-web"]"#));
    let g = build(&[
            (&ResourceKind::AwsSecurityGroup, "sg-web", &web),
            (&ResourceKind::AwsDbInstance, "db-ABCDEF", &db),
        ]);

    let subject = subject_of(ResourceKind::AwsDbInstance, "db-ABCDEF", &db);
    let effective = InternetReachability.expand(&subject, &g).unwrap();
    assert_eq!(effective, json(r#"["via:sg-web>db-ABCDEF"]"#));
}

#[test]
fn reaches_an_rds_instance_through_a_web_and_app_tier() {
    let sg_web = sg_with_ingress(cidr_rule(443, 443, "0.0.0.0/0"));
    let alb = lb_in(json(r#"["sg-web"]"#));
    let tg = tg_in("arn:alb/1", json(r#"["i-app"]"#));
    let app = instance_in(json(r#"["sg-app"]"#));
    let sg_app = attrs(json(r#"{"name": "app"}"#));
    let sg_db = sg_trusting("sg-app");
    let db = instance_in(json(r#"["sg-db"]"#));

    let g = build(&[
            (&ResourceKind::AwsSecurityGroup, "sg-web", &sg_web),
            (&ResourceKind::AwsLoadBalancer, "arn:alb/1", &alb),
            (&ResourceKind::AwsLbTargetGroup, "arn:tg/1", &tg),
            (&ResourceKind::AwsInstance, "i-app", &app),
            (&ResourceKind::AwsSecurityGroup, "sg-app", &sg_app),
            (&ResourceKind::AwsSecurityGroup, "sg-db", &sg_db),
            (&ResourceKind::AwsDbInstance, "db-ABCDEF", &db),
        ]);

    let subject = subject_of(ResourceKind::AwsDbInstance, "db-ABCDEF", &db);
    let effective = InternetReachability.expand(&subject, &g).unwrap();
    assert_eq!(
        effective,
        json(r#"["via:sg-web>arn:alb/1>arn:tg/1>i-app>sg-db>db-ABCDEF"]"#)
    );
}

fn instance_in_subnet(sgs: JsonValue, subnet_id: &str) -> Object {
    attrs(object(vec![
        ("vpc_security_group_ids", value(sgs)),
        ("subnet_id", value(subnet_id)),
    ]))
}

fn nacl_rule(
    rule_no: i64,
    action: &str,
    protocol: &str,
    cidr: &str,
    from: i64,
    to: i64,
) -> JsonValue {
    object(vec![
        ("rule_no", value(rule_no)),
        ("action", value(action)),
        ("protocol", value(protocol)),
        ("cidr_block", value(cidr)),
        ("ipv6_cidr_block", JsonValue::from_text("")),
        ("from_port", value(from)),
        ("to_port", value(to)),
        ("icmp_type", JsonValue::from_i64(0)),
        ("icmp_code", JsonValue::from_i64(0)),
    ])
}

fn nacl_with_ingress(subnet_ids: JsonValue, rule: JsonValue) -> Object {
    attrs(object(vec![
        ("subnet_ids", value(subnet_ids)),
        ("ingress", array(vec![value(rule)])),
        ("egress", json(r#"[]"#)),
    ]))
}

#[test]
fn a_denying_nacl_on_the_subjects_subnet_blocks_an_otherwise_reachable_instance() {
    let web = sg_with_ingress(cidr_rule(443, 443, "0.0.0.0/0"));
    let worker = instance_in_subnet(json(r#"["sg-web"]"#), "subnet-a");
    let nacl = nacl_with_ingress(
        json(r#"["subnet-a"]"#),
        nacl_rule(100, "deny", "6", "0.0.0.0/0", 443, 443),
    );
    let g = build(&[
            (&ResourceKind::AwsSecurityGroup, "sg-web", &web),
            (&ResourceKind::AwsInstance, "i-worker", &worker),
            (&ResourceKind::AwsNetworkAcl, "acl-1", &nacl),
        ]);

    let subject = instance_subject("i-worker", &worker);
    let effective = InternetReachability.expand(&subject, &g).unwrap();
    assert_eq!(
        effective,
        json(r#"[]"#),
        "the NACL denies port 443, so no chain survives"
    );
}

#[test]
fn an_allowing_nacl_on_the_subjects_subnet_keeps_the_chain() {
    let web = sg_with_ingress(cidr_rule(443, 443, "0.0.0.0/0"));
    let worker = instance_in_subnet(json(r#"["sg-web"]"#), "subnet-a");
    let nacl = nacl_with_ingress(
        json(r#"["subnet-a"]"#),
        nacl_rule(100, "allow", "6", "0.0.0.0/0", 443, 443),
    );
    let g = build(&[
            (&ResourceKind::AwsSecurityGroup, "sg-web", &web),
            (&ResourceKind::AwsInstance, "i-worker", &worker),
            (&ResourceKind::AwsNetworkAcl, "acl-1", &nacl),
        ]);

    let subject = instance_subject("i-worker", &worker);
    let effective = InternetReachability.expand(&subject, &g).unwrap();
    assert_eq!(effective, json(r#"["via:sg-web>i-worker"]"#));
}

#[test]
fn a_nacl_loosening_outside_terraform_widens_reachability_with_nothing_on_the_sg_changing() {
    let web = sg_with_ingress(cidr_rule(443, 443, "0.0.0.0/0"));
    let worker = instance_in_subnet(json(r#"["sg-web"]"#), "subnet-a");

    let declared_nacl = nacl_with_ingress(
        json(r#"["subnet-a"]"#),
        nacl_rule(100, "deny", "6", "0.0.0.0/0", 443, 443),
    );
    let declared = build(&[
            (&ResourceKind::AwsSecurityGroup, "sg-web", &web),
            (&ResourceKind::AwsInstance, "i-worker", &worker),
            (&ResourceKind::AwsNetworkAcl, "acl-1", &declared_nacl),
        ]);

    let live_nacl = nacl_with_ingress(
        json(r#"["subnet-a"]"#),
        nacl_rule(100, "allow", "6", "0.0.0.0/0", 443, 443),
    );
    let live = build(&[
            (&ResourceKind::AwsSecurityGroup, "sg-web", &web),
            (&ResourceKind::AwsInstance, "i-worker", &worker),
            (&ResourceKind::AwsNetworkAcl, "acl-1", &live_nacl),
        ]);

    let subject = instance_subject("i-worker", &worker);
    let before = InternetReachability.expand(&subject, &declared).unwrap();
    let after = InternetReachability.expand(&subject, &live).unwrap();

    assert_eq!(before, json(r#"[]"#));
    assert_eq!(after, json(r#"["via:sg-web>i-worker"]"#));
}

#[test]
fn reachable_through_any_one_of_a_functions_several_subnets() {
    let web = sg_with_ingress(cidr_rule(443, 443, "0.0.0.0/0"));
    let function = attrs(json(r#"{"vpc_security_group_ids": ["sg-web"], "subnet_ids": ["subnet-a", "subnet-b"]}"#));
    let nacl_a = nacl_with_ingress(
        json(r#"["subnet-a"]"#),
        nacl_rule(100, "deny", "6", "0.0.0.0/0", 443, 443),
    );
    let nacl_b = nacl_with_ingress(
        json(r#"["subnet-b"]"#),
        nacl_rule(100, "allow", "6", "0.0.0.0/0", 443, 443),
    );
    let g = build(&[
            (&ResourceKind::AwsSecurityGroup, "sg-web", &web),
            (&ResourceKind::AwsLambdaFunction, "my-function", &function),
            (&ResourceKind::AwsNetworkAcl, "acl-a", &nacl_a),
            (&ResourceKind::AwsNetworkAcl, "acl-b", &nacl_b),
        ]);

    let subject = subject_of(ResourceKind::AwsLambdaFunction, "my-function", &function);
    let effective = InternetReachability.expand(&subject, &g).unwrap();
    assert_eq!(effective, json(r#"["via:sg-web>my-function"]"#));
}

#[test]
fn rds_subjects_are_never_nacl_gated_pending_subnet_group_support() {
    let web = sg_with_ingress(cidr_rule(5432, 5432, "0.0.0.0/0"));
    let db = instance_in(json(r#"["sg-web"]"#));
    let nacl = nacl_with_ingress(
        json(r#"["subnet-a"]"#),
        nacl_rule(100, "deny", "-1", "0.0.0.0/0", 0, 0),
    );
    let g = build(&[
            (&ResourceKind::AwsSecurityGroup, "sg-web", &web),
            (&ResourceKind::AwsDbInstance, "db-ABCDEF", &db),
            (&ResourceKind::AwsNetworkAcl, "acl-a", &nacl),
        ]);

    let subject = subject_of(ResourceKind::AwsDbInstance, "db-ABCDEF", &db);
    let effective = InternetReachability.expand(&subject, &g).unwrap();
    assert_eq!(effective, json(r#"["via:sg-web>db-ABCDEF"]"#));
}

fn sg_trusting_on(source: &str, port: i64) -> Object {
    attrs(object(vec![
        ("ingress", array(vec![object(vec![
            ("from_port", value(port)),
            ("to_port", value(port)),
            ("protocol", JsonValue::from_text("tcp")),
            ("cidr_blocks", json(r#"[]"#)),
            ("ipv6_cidr_blocks", json(r#"[]"#)),
            ("prefix_list_ids", json(r#"[]"#)),
            ("security_groups", array(vec![value(source)])),
            ("self", JsonValue::Bool(false)),
        ])])),
    ]))
}

#[test]
fn the_nacl_check_at_the_end_of_a_chain_uses_the_final_hops_port_not_the_entrys() {
    let sg_web = sg_with_ingress(cidr_rule(443, 443, "0.0.0.0/0"));
    let app = instance_in(json(r#"["sg-web", "sg-app"]"#));
    let sg_app = attrs(json(r#"{"name": "app"}"#));
    let sg_db = sg_trusting_on("sg-app", 5432);
    let db = instance_in_subnet(json(r#"["sg-db"]"#), "subnet-db");

    let nacl = nacl_with_ingress(
        json(r#"["subnet-db"]"#),
        nacl_rule(100, "allow", "6", "0.0.0.0/0", 5432, 5432),
    );
    let g = build(&[
            (&ResourceKind::AwsSecurityGroup, "sg-web", &sg_web),
            (&ResourceKind::AwsInstance, "i-app", &app),
            (&ResourceKind::AwsSecurityGroup, "sg-app", &sg_app),
            (&ResourceKind::AwsSecurityGroup, "sg-db", &sg_db),
            (&ResourceKind::AwsInstance, "i-db", &db),
            (&ResourceKind::AwsNetworkAcl, "acl-db", &nacl),
        ]);

    let subject = instance_subject("i-db", &db);
    let effective = InternetReachability.expand(&subject, &g).unwrap();
    assert_eq!(effective, json(r#"["via:sg-web>i-app>sg-db>i-db"]"#));
}
