//! What the internet can reach, hop by hop.

use uncia::diff::semantic::graph::build;
use uncia::diff::semantic::reachability::{
    internet_facing_groups, reachable_from, EntryPoint, PortSpec, Reached,
};
use uncia::document::read_json;
use uncia::json::{JsonValue, Object};
use uncia::ResourceKind;

fn json(text: &str) -> JsonValue {
    read_json(text).unwrap()
}

fn attrs(v: JsonValue) -> Object {
    match v {
        JsonValue::Object(entries) => entries,
        other => panic!("not an object: {other:?}"),
    }
}

trait ToJson {
    fn to_json(self) -> JsonValue;
}

impl ToJson for JsonValue {
    fn to_json(self) -> JsonValue {
        self
    }
}

impl ToJson for &str {
    fn to_json(self) -> JsonValue {
        JsonValue::from_text(self)
    }
}

impl ToJson for String {
    fn to_json(self) -> JsonValue {
        JsonValue::from_text(&self)
    }
}

impl ToJson for i64 {
    fn to_json(self) -> JsonValue {
        JsonValue::from_i64(self)
    }
}

impl ToJson for bool {
    fn to_json(self) -> JsonValue {
        JsonValue::Bool(self)
    }
}

impl<T: ToJson + Clone> ToJson for &[T] {
    fn to_json(self) -> JsonValue {
        JsonValue::Array(self.iter().map(|v| v.clone().to_json()).collect())
    }
}

impl<T: ToJson> ToJson for Vec<T> {
    fn to_json(self) -> JsonValue {
        JsonValue::Array(self.into_iter().map(|v| v.to_json()).collect())
    }
}

fn value(v: impl ToJson) -> JsonValue {
    v.to_json()
}

fn object(entries: Vec<(&str, JsonValue)>) -> JsonValue {
    let mut map = Object::new();
    for (key, v) in entries {
        map.insert(key.to_string(), v);
    }
    JsonValue::Object(map)
}

fn array(items: Vec<JsonValue>) -> JsonValue {
    JsonValue::Array(items)
}

fn entries<'a>(found: &'a [(String, Vec<EntryPoint>)], group: &str) -> Option<&'a Vec<EntryPoint>> {
    found.iter().find(|f| f.0 == group).map(|f| &f.1)
}

fn sg_with_cidr(cidr: &str) -> Object {
    attrs(object(vec![
        ("ingress", array(vec![object(vec![
            ("from_port", JsonValue::from_i64(443)),
            ("to_port", JsonValue::from_i64(443)),
            ("protocol", JsonValue::from_text("tcp")),
            ("cidr_blocks", array(vec![value(cidr)])),
            ("ipv6_cidr_blocks", json(r#"[]"#)),
            ("security_groups", json(r#"[]"#)),
            ("self", JsonValue::Bool(false)),
        ])])),
    ]))
}

fn sg_with_ipv6_cidr(cidr: &str) -> Object {
    attrs(object(vec![
        ("ingress", array(vec![object(vec![
            ("from_port", JsonValue::from_i64(443)),
            ("to_port", JsonValue::from_i64(443)),
            ("protocol", JsonValue::from_text("tcp")),
            ("cidr_blocks", json(r#"[]"#)),
            ("ipv6_cidr_blocks", array(vec![value(cidr)])),
            ("security_groups", json(r#"[]"#)),
            ("self", JsonValue::Bool(false)),
        ])])),
    ]))
}

fn sg_trusting(source: &str) -> Object {
    attrs(object(vec![
        ("ingress", array(vec![object(vec![
            ("from_port", JsonValue::from_i64(5432)),
            ("to_port", JsonValue::from_i64(5432)),
            ("protocol", JsonValue::from_text("tcp")),
            ("cidr_blocks", json(r#"[]"#)),
            ("ipv6_cidr_blocks", json(r#"[]"#)),
            ("security_groups", array(vec![value(source)])),
            ("self", JsonValue::Bool(false)),
        ])])),
    ]))
}

fn empty_sg() -> Object {
    attrs(json(r#"{"name": "app"}"#))
}

fn instance_in(sgs: &[&str]) -> Object {
    attrs(object(vec![
        ("vpc_security_group_ids", value(sgs)),
    ]))
}

fn lb_in(sgs: &[&str]) -> Object {
    attrs(object(vec![
        ("security_groups", value(sgs)),
    ]))
}

fn target_group(lb_arn: &str, targets: &[&str]) -> Object {
    attrs(object(vec![
        ("load_balancer_arns", array(vec![value(lb_arn)])),
        ("targets", value(targets)),
    ]))
}

fn target_group_with_port(lb_arn: &str, targets: &[&str], port: i64) -> Object {
    attrs(object(vec![
        ("load_balancer_arns", array(vec![value(lb_arn)])),
        ("targets", value(targets)),
        ("port", value(port)),
    ]))
}

fn tcp(from: i64, to: i64) -> PortSpec {
    PortSpec {
        protocol: "6".to_string(),
        from,
        to,
    }
}

#[test]
fn finds_a_group_with_an_ipv4_wildcard_rule() {
    let sg = sg_with_cidr("0.0.0.0/0");
    let graph = build(&[(&ResourceKind::AwsSecurityGroup, "sg-web", &sg)]);
    let found = internet_facing_groups(&graph);
    assert_eq!(
        entries(&found, "sg-web"),
        Some(&vec![EntryPoint {
            source_cidr: "0.0.0.0/0".to_string(),
            port: tcp(443, 443),
        }])
    );
}

#[test]
fn finds_a_group_with_an_ipv6_wildcard_rule() {
    let sg = sg_with_ipv6_cidr("::/0");
    let graph = build(&[(&ResourceKind::AwsSecurityGroup, "sg-web", &sg)]);
    let found = internet_facing_groups(&graph);
    assert_eq!(
        entries(&found, "sg-web"),
        Some(&vec![EntryPoint {
            source_cidr: "::/0".to_string(),
            port: tcp(443, 443),
        }])
    );
}

#[test]
fn does_not_flag_a_group_with_only_private_or_group_sourced_rules() {
    let private = sg_with_cidr("10.0.0.0/8");
    let trusting = sg_trusting("sg-app");
    let graph = build(&[
            (&ResourceKind::AwsSecurityGroup, "sg-private", &private),
            (&ResourceKind::AwsSecurityGroup, "sg-db", &trusting),
        ]);
    assert!(internet_facing_groups(&graph).is_empty());
}

#[test]
fn a_rule_open_to_both_ip_families_is_two_distinct_entry_points() {
    let sg = attrs(json(r#"{
        "ingress": [
            {
                "from_port": 443, "to_port": 443, "protocol": "tcp",
                "cidr_blocks": ["0.0.0.0/0"], "ipv6_cidr_blocks": ["::/0"],
                "security_groups": [], "self": false
            }
        ]
    }"#));
    let graph = build(&[(&ResourceKind::AwsSecurityGroup, "sg-web", &sg)]);
    let found = internet_facing_groups(&graph);
    assert_eq!(
        entries(&found, "sg-web"),
        Some(&vec![
            EntryPoint {
                source_cidr: "0.0.0.0/0".to_string(),
                port: tcp(443, 443),
            },
            EntryPoint {
                source_cidr: "::/0".to_string(),
                port: tcp(443, 443),
            },
        ])
    );
}

#[test]
fn reaches_a_direct_member_of_the_entry_group() {
    let sg = sg_with_cidr("0.0.0.0/0");
    let worker = instance_in(&["sg-web"]);
    let graph = build(&[
            (&ResourceKind::AwsSecurityGroup, "sg-web", &sg),
            (&ResourceKind::AwsInstance, "i-worker", &worker),
        ]);

    let reached = reachable_from(
        &graph,
        &ResourceKind::AwsSecurityGroup,
        "sg-web",
        &[tcp(443, 443)],
        10,
    );
    assert_eq!(
        reached,
        vec![Reached {
            kind: ResourceKind::AwsInstance,
            cloud_id: "i-worker".to_string(),
            path: vec!["i-worker".to_string()],
            ports: vec![tcp(443, 443)],
        }]
    );
}

#[test]
fn a_membership_hop_inherits_the_entry_ports_unchanged() {
    let sg = sg_with_cidr("0.0.0.0/0");
    let worker = instance_in(&["sg-web"]);
    let graph = build(&[
            (&ResourceKind::AwsSecurityGroup, "sg-web", &sg),
            (&ResourceKind::AwsInstance, "i-worker", &worker),
        ]);

    let reached = reachable_from(
        &graph,
        &ResourceKind::AwsSecurityGroup,
        "sg-web",
        &[tcp(443, 443)],
        10,
    );
    assert_eq!(reached[0].ports, vec![tcp(443, 443)]);
}

#[test]
fn reaches_a_target_group_instance_through_an_alb() {
    let sg = sg_with_cidr("0.0.0.0/0");
    let alb = lb_in(&["sg-web"]);
    let tg = target_group_with_port("arn:alb/1", &["i-app"], 8080);
    let app = instance_in(&[]);
    let graph = build(&[
            (&ResourceKind::AwsSecurityGroup, "sg-web", &sg),
            (&ResourceKind::AwsLoadBalancer, "arn:alb/1", &alb),
            (&ResourceKind::AwsLbTargetGroup, "arn:tg/1", &tg),
            (&ResourceKind::AwsInstance, "i-app", &app),
        ]);

    let reached = reachable_from(
        &graph,
        &ResourceKind::AwsSecurityGroup,
        "sg-web",
        &[tcp(443, 443)],
        10,
    );
    let ids: Vec<&str> = reached.iter().map(|r| r.cloud_id.as_str()).collect();
    assert_eq!(ids, vec!["arn:alb/1", "arn:tg/1", "i-app"], "{reached:?}");

    let app_reached = reached.iter().find(|r| r.cloud_id == "i-app").unwrap();
    assert_eq!(
        app_reached.path,
        vec![
            "arn:alb/1".to_string(),
            "arn:tg/1".to_string(),
            "i-app".to_string()
        ]
    );
}

#[test]
fn a_registered_instance_is_reached_on_the_target_groups_own_port() {
    let sg = sg_with_cidr("0.0.0.0/0");
    let alb = lb_in(&["sg-web"]);
    let tg = target_group_with_port("arn:alb/1", &["i-app"], 8080);
    let app = instance_in(&[]);
    let graph = build(&[
            (&ResourceKind::AwsSecurityGroup, "sg-web", &sg),
            (&ResourceKind::AwsLoadBalancer, "arn:alb/1", &alb),
            (&ResourceKind::AwsLbTargetGroup, "arn:tg/1", &tg),
            (&ResourceKind::AwsInstance, "i-app", &app),
        ]);

    let reached = reachable_from(
        &graph,
        &ResourceKind::AwsSecurityGroup,
        "sg-web",
        &[tcp(443, 443)],
        10,
    );
    let app_reached = reached.iter().find(|r| r.cloud_id == "i-app").unwrap();
    assert_eq!(app_reached.ports, vec![tcp(8080, 8080)]);
}

#[test]
fn a_target_group_with_no_port_set_reaches_its_target_on_the_placeholder_range() {
    let sg = sg_with_cidr("0.0.0.0/0");
    let alb = lb_in(&["sg-web"]);
    let tg = target_group("arn:alb/1", &["i-app"]);
    let app = instance_in(&[]);
    let graph = build(&[
            (&ResourceKind::AwsSecurityGroup, "sg-web", &sg),
            (&ResourceKind::AwsLoadBalancer, "arn:alb/1", &alb),
            (&ResourceKind::AwsLbTargetGroup, "arn:tg/1", &tg),
            (&ResourceKind::AwsInstance, "i-app", &app),
        ]);

    let reached = reachable_from(
        &graph,
        &ResourceKind::AwsSecurityGroup,
        "sg-web",
        &[tcp(443, 443)],
        10,
    );
    let app_reached = reached.iter().find(|r| r.cloud_id == "i-app").unwrap();
    assert_eq!(app_reached.ports, vec![tcp(0, 0)]);
}

#[test]
fn reachability_reaches_a_database_instance_through_a_web_and_app_tier() {
    let sg_web = sg_with_cidr("0.0.0.0/0");
    let alb = lb_in(&["sg-web"]);
    let tg = target_group("arn:alb/1", &["i-app"]);
    let app = instance_in(&["sg-app"]);
    let sg_app = empty_sg();
    let sg_db = sg_trusting("sg-app");
    let db = instance_in(&["sg-db"]);

    let graph = build(&[
            (&ResourceKind::AwsSecurityGroup, "sg-web", &sg_web),
            (&ResourceKind::AwsLoadBalancer, "arn:alb/1", &alb),
            (&ResourceKind::AwsLbTargetGroup, "arn:tg/1", &tg),
            (&ResourceKind::AwsInstance, "i-app", &app),
            (&ResourceKind::AwsSecurityGroup, "sg-app", &sg_app),
            (&ResourceKind::AwsSecurityGroup, "sg-db", &sg_db),
            (&ResourceKind::AwsInstance, "i-db", &db),
        ]);

    let reached = reachable_from(
        &graph,
        &ResourceKind::AwsSecurityGroup,
        "sg-web",
        &[tcp(443, 443)],
        10,
    );
    let db_reached = reached
        .iter()
        .find(|r| r.cloud_id == "i-db")
        .unwrap_or_else(|| panic!("database instance not reached: {reached:?}"));

    assert_eq!(db_reached.kind, ResourceKind::AwsInstance);
    assert_eq!(
        db_reached.path,
        vec![
            "arn:alb/1".to_string(),
            "arn:tg/1".to_string(),
            "i-app".to_string(),
            "sg-db".to_string(),
            "i-db".to_string(),
        ]
    );
    assert_eq!(db_reached.ports, vec![tcp(5432, 5432)]);
}

#[test]
fn two_groups_trusting_each_other_terminate_without_looping() {
    let sg_a = sg_trusting("sg-b");
    let sg_b = sg_trusting("sg-a");
    let i_a = instance_in(&["sg-a"]);
    let i_b = instance_in(&["sg-b"]);
    let graph = build(&[
            (&ResourceKind::AwsSecurityGroup, "sg-a", &sg_a),
            (&ResourceKind::AwsSecurityGroup, "sg-b", &sg_b),
            (&ResourceKind::AwsInstance, "i-a", &i_a),
            (&ResourceKind::AwsInstance, "i-b", &i_b),
        ]);

    let reached = reachable_from(
        &graph,
        &ResourceKind::AwsSecurityGroup,
        "sg-a",
        &[tcp(5432, 5432)],
        50,
    );
    let ids: Vec<&str> = reached.iter().map(|r| r.cloud_id.as_str()).collect();
    assert_eq!(ids, vec!["i-a", "sg-b", "i-b"], "{reached:?}");
}

#[test]
fn a_chain_longer_than_max_hops_is_cut_off() {
    let sg = sg_with_cidr("0.0.0.0/0");
    let worker = instance_in(&["sg-web"]);
    let graph = build(&[
            (&ResourceKind::AwsSecurityGroup, "sg-web", &sg),
            (&ResourceKind::AwsInstance, "i-worker", &worker),
        ]);

    let reached = reachable_from(
        &graph,
        &ResourceKind::AwsSecurityGroup,
        "sg-web",
        &[tcp(443, 443)],
        0,
    );
    assert!(reached.is_empty(), "{reached:?}");
}
