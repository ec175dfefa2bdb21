//! What holds of the passes as a whole, on concrete inputs.

use uncia::diff::behavioral;
use uncia::diff::compare;
use uncia::diff::rules::{explode_rules, SiblingRules};
use uncia::diff::semantic;
use uncia::diff::semantic::graph::{build, Graph, Node};
use uncia::diff::semantic::nacl::{evaluate, Verdict};
use uncia::diff::semantic::reachability::{
    neighbors, protocol_number, reachable_from, PortSpec,
};
use uncia::diff::semantic::relations::{subnet_allows, InternetReachability};
use uncia::diff::semantic::Relation;
use uncia::diff::target_attachments::TargetAttachments;
use uncia::document::read_json;
use uncia::json::{JsonValue, Object};
use uncia::{
    DriftKind, DriftReport, LiveResource, Resource, ResourceId, ResourceKind, Severity,
};

fn json(text: &str) -> JsonValue {
    read_json(text).unwrap()
}

fn attrs(text: &str) -> Object {
    match json(text) {
        JsonValue::Object(entries) => entries,
        other => panic!("not an object: {other:?}"),
    }
}

fn declared(address: &str, kind: ResourceKind, text: &str) -> Resource {
    Resource { id: ResourceId(address.to_string()), kind, attributes: attrs(text) }
}

fn live(cloud_id: &str, kind: ResourceKind, text: &str) -> LiveResource {
    LiveResource { cloud_id: cloud_id.to_string(), kind, attributes: attrs(text) }
}

const WEB: &str = r#"{"id": "sg-web", "name": "web", "description": "d", "vpc_id": "v", "tags": {},
    "ingress": [{"from_port": 443, "to_port": 443, "protocol": "tcp",
                 "security_groups": ["sg-app"]}], "egress": []}"#;
const APP: &str = r#"{"id": "sg-app", "name": "app", "description": "d", "vpc_id": "v", "tags": {},
    "ingress": [{"from_port": 22, "to_port": 22, "protocol": "tcp",
                 "cidr_blocks": ["0.0.0.0/0"]}], "egress": []}"#;
const WORKER: &str = r#"{"id": "i-worker", "instance_type": "t3.micro", "ami": "a", "tags": {},
    "vpc_security_group_ids": ["sg-app"], "iam_instance_profile": "", "metadata_options": []}"#;

fn state() -> Vec<Resource> {
    vec![
        declared("aws_security_group.web", ResourceKind::AwsSecurityGroup, WEB),
        declared("aws_security_group.app", ResourceKind::AwsSecurityGroup, APP),
        declared("aws_instance.worker", ResourceKind::AwsInstance, WORKER),
    ]
}

fn account() -> Vec<LiveResource> {
    vec![
        live("sg-web", ResourceKind::AwsSecurityGroup, WEB),
        live("sg-app", ResourceKind::AwsSecurityGroup, APP),
        live("i-worker", ResourceKind::AwsInstance, WORKER),
    ]
}

#[test]
fn an_account_as_declared_has_no_drift() {
    let report = compare(&state(), &account());
    assert!(report.drifts.is_empty(), "{:?}", report.drifts);
    assert!(report.unjoinable.is_empty());
    assert!(report.unresolved.is_empty());
}

#[test]
fn the_order_of_an_account_does_not_matter() {
    let mut account = account();
    account.push(live("i-console", ResourceKind::AwsInstance, WORKER));
    let report = compare(&state(), &account);
    account.reverse();
    let reversed = compare(&state(), &account);
    assert_eq!(report.drifts.len(), 1);
    assert_eq!(format!("{report:?}"), format!("{reversed:?}"));
}

#[test]
fn every_change_of_meaning_has_a_path_and_no_literal_change_beside_it() {
    let mut account = account();
    account.push(live("i-console", ResourceKind::AwsInstance, WORKER));
    account[1] = live(
        "sg-app",
        ResourceKind::AwsSecurityGroup,
        &APP.replace("22", "2222").replace("\"name\": \"app\"", "\"name\": \"renamed\""),
    );
    let report = compare(&state(), &account);

    let mut literal = Vec::new();
    let mut semantic = Vec::new();
    for drift in &report.drifts {
        match &drift.kind {
            DriftKind::FieldChanged { field, .. } => literal.push((&drift.resource.0, field)),
            DriftKind::SemanticChanged { field, via, .. } => {
                assert!(!via.is_empty(), "{drift:?}");
                semantic.push((&drift.resource.0, field));
            }
            _ => {}
        }
    }
    assert_eq!(literal.len(), 2, "{:?}", report.drifts);
    assert_eq!(semantic.len(), 2, "{:?}", report.drifts);
    assert!(semantic.iter().all(|pair| !literal.contains(pair)));
}

#[test]
fn the_semantic_pass_only_adds() {
    let mut account = account();
    account.push(live("i-console", ResourceKind::AwsInstance, WORKER));
    account.remove(0);
    let mut report = behavioral::compare(&state(), &account);
    assert_eq!(report.drifts.len(), 1);
    let before = format!("{:?}", report.drifts[0]);
    semantic::compare(&state(), &account, &mut report);
    assert_eq!(format!("{:?}", report.drifts[0]), before);
}

#[test]
fn without_security_groups_two_relations_are_not_resolved() {
    let state = vec![declared("aws_instance.worker", ResourceKind::AwsInstance, WORKER)];
    let report = compare(&state, &account());
    assert!(report.drifts.is_empty());
    let relations: Vec<&str> = report.unresolved.iter().map(|u| u.relation.as_str()).collect();
    assert_eq!(relations, ["instance_exposure", "internet_reachability"]);
    assert!(report.unresolved.iter().all(|u| u.resource.is_none()));
    assert_eq!(
        report.unresolved[0].reason,
        "declared state contains no `aws_security_group`, so it is not authoritative for this relation"
    );
}

#[test]
fn a_resource_that_is_not_there_is_missing_and_nothing_else() {
    let report = behavioral::compare(&state(), &[]);
    assert_eq!(report.drifts.len(), 3);
    for drift in &report.drifts {
        assert!(matches!(drift.kind, DriftKind::Missing));
        assert_eq!(drift.severity, Severity::High);
    }
}

#[test]
fn a_changed_field_is_of_medium_severity() {
    let mut account = account();
    account[2] = live(
        "i-worker",
        ResourceKind::AwsInstance,
        &WORKER.replace("t3.micro", "t3.large"),
    );
    let report = behavioral::compare(&state(), &account);
    assert_eq!(report.drifts.len(), 1);
    assert_eq!(report.drifts[0].severity, Severity::Medium);
}

#[test]
fn of_two_observations_of_one_resource_the_later_counts() {
    let mut account = account();
    account.push(live(
        "i-worker",
        ResourceKind::AwsInstance,
        &WORKER.replace("\"ami\": \"a\"", "\"ami\": \"b\""),
    ));
    let report = behavioral::compare(&state(), &account);
    assert_eq!(report.drifts.len(), 1);
    assert!(matches!(
        &report.drifts[0].kind,
        DriftKind::FieldChanged { field, actual, .. }
            if field == "ami" && actual.as_str() == Some("b")
    ));
}

#[test]
fn an_empty_state_finds_nothing() {
    let report = compare(&[], &account());
    assert!(report.drifts.is_empty());
    assert_eq!(report.unresolved.len(), 3, "no state is an authority on nothing");
    let nothing = DriftReport::default();
    assert!(nothing.drifts.is_empty());
}

#[test]
fn atoms_do_not_depend_on_the_order_of_the_rules() {
    let a = json(r#"[{"protocol": "tcp", "cidr_blocks": ["x"]}, {"protocol": "udp", "self": true}]"#);
    let b = json(
        r#"[{"protocol": "udp", "self": true}, {"protocol": "tcp", "cidr_blocks": ["x"]},
            {"protocol": "tcp", "cidr_blocks": ["x"]}]"#,
    );
    assert_eq!(explode_rules(&a), explode_rules(&b));
    assert_eq!(*explode_rules(&a).members(), ["tcp/0-0/cidr:x", "udp/0-0/self"]);
}

#[test]
fn of_two_entries_with_one_number_the_earlier_decides() {
    let entry = |action: &str| {
        json(&format!(
            r#"{{"rule_no": 100, "action": "{action}", "protocol": "-1",
                 "cidr_block": "0.0.0.0/0", "from_port": 0, "to_port": 0}}"#
        ))
    };
    assert_eq!(
        evaluate(&[entry("allow"), entry("deny")], "0.0.0.0/0", "6", 1, 1),
        Verdict::Allow
    );
    assert_eq!(
        evaluate(&[entry("deny"), entry("allow")], "0.0.0.0/0", "6", 1, 1),
        Verdict::Deny
    );
}

fn port(port: i64) -> PortSpec {
    PortSpec { protocol: "6".to_string(), from: port, to: port }
}

#[test]
fn what_is_reached_is_reached_once_and_by_a_path_that_ends_at_it() {
    let web = attrs(
        r#"{"ingress": [{"from_port": 443, "to_port": 443, "protocol": "tcp",
            "cidr_blocks": ["0.0.0.0/0"], "security_groups": ["sg-app"]}]}"#,
    );
    let app = attrs(
        r#"{"ingress": [{"from_port": 80, "to_port": 80, "protocol": "tcp",
            "security_groups": ["sg-web"]}]}"#,
    );
    let both = attrs(r#"{"vpc_security_group_ids": ["sg-web", "sg-app"]}"#);
    let graph = build(&[
        (&ResourceKind::AwsSecurityGroup, "sg-web", &web),
        (&ResourceKind::AwsSecurityGroup, "sg-app", &app),
        (&ResourceKind::AwsInstance, "i-both", &both),
    ]);
    let reached =
        reachable_from(&graph, &ResourceKind::AwsSecurityGroup, "sg-web", &[port(443)], 12);
    let ids: Vec<&str> = reached.iter().map(|r| r.cloud_id.as_str()).collect();
    assert_eq!(ids, ["i-both", "sg-app"]);
    for found in &reached {
        assert_eq!(found.path.last(), Some(&found.cloud_id));
        assert!(found.path.len() <= 12);
    }

    let subject = Node {
        kind: ResourceKind::AwsInstance,
        cloud_id: "i-both".to_string(),
        attributes: both,
    };
    assert_eq!(InternetReachability::chains(&subject, &graph), [["sg-web", "i-both"]]);
    assert_eq!(InternetReachability.via(&subject, &graph), ["i-both", "sg-web"]);
}

#[test]
fn a_subnet_without_an_acl_is_not_judged() {
    let worker = attrs(r#"{"vpc_security_group_ids": [], "subnet_id": "subnet-a"}"#);
    let acl = attrs(
        r#"{"subnet_ids": ["subnet-a"], "ingress": [{"rule_no": 1, "action": "allow",
            "protocol": "6", "cidr_block": "0.0.0.0/0", "from_port": 443, "to_port": 443}]}"#,
    );
    let subject = Node {
        kind: ResourceKind::AwsInstance,
        cloud_id: "i-worker".to_string(),
        attributes: worker,
    };
    let without = build(&[]);
    assert_eq!(subnet_allows(&subject, &without, "0.0.0.0/0", &[port(443)]), None);
    let with = build(&[(&ResourceKind::AwsNetworkAcl, "acl-1", &acl)]);
    assert_eq!(subnet_allows(&subject, &with, "0.0.0.0/0", &[port(443)]), Some(true));
    assert_eq!(subnet_allows(&subject, &with, "0.0.0.0/0", &[port(22)]), Some(false));
}

#[test]
fn a_protocol_number_stays_what_it_is() {
    let numbers = [
        ("tcp", "6"),
        ("udp", "17"),
        ("icmp", "1"),
        ("icmpv6", "58"),
        ("-1", "-1"),
        ("50", "50"),
        ("TCP", "TCP"),
    ];
    for (protocol, number) in numbers {
        assert_eq!(protocol_number(protocol), number);
        assert_eq!(protocol_number(&protocol_number(protocol)), number);
    }
}

fn node(kind: ResourceKind, cloud_id: &str, text: &str) -> Node {
    Node { kind, cloud_id: cloud_id.to_string(), attributes: attrs(text) }
}

#[test]
fn only_membership_keeps_the_ports() {
    let web = r#"{"ingress": []}"#;
    let db = r#"{"ingress": [{"from_port": 5432, "to_port": 5432, "protocol": "tcp",
        "security_groups": ["sg-web"]}]}"#;
    let worker = r#"{"vpc_security_group_ids": ["sg-web"]}"#;
    let targets = r#"{"port": 8080, "targets": ["i-worker"], "load_balancer_arns": ["lb"]}"#;
    let balancer = r#"{"security_groups": ["sg-web"]}"#;
    let (web_attrs, db_attrs, worker_attrs) = (attrs(web), attrs(db), attrs(worker));
    let (targets_attrs, balancer_attrs) = (attrs(targets), attrs(balancer));
    let graph = build(&[
        (&ResourceKind::AwsSecurityGroup, "sg-web", &web_attrs),
        (&ResourceKind::AwsSecurityGroup, "sg-db", &db_attrs),
        (&ResourceKind::AwsInstance, "i-worker", &worker_attrs),
        (&ResourceKind::AwsLbTargetGroup, "tg", &targets_attrs),
        (&ResourceKind::AwsLoadBalancer, "lb", &balancer_attrs),
    ]);
    for ports in [vec![port(443)], vec![port(1), port(2)], vec![]] {
        let group = node(ResourceKind::AwsSecurityGroup, "sg-web", web);
        let steps = neighbors(&graph, &group, &ports);
        let ids: Vec<&str> = steps.iter().map(|s| s.cloud_id.as_str()).collect();
        assert_eq!(ids, ["i-worker", "lb"]);
        assert!(steps.iter().all(|s| s.ports == ports));

        let instance = node(ResourceKind::AwsInstance, "i-worker", worker);
        let steps = neighbors(&graph, &instance, &ports);
        assert_eq!(steps.len(), 1);
        assert_eq!((steps[0].cloud_id.as_str(), &steps[0].ports), ("sg-db", &vec![port(5432)]));

        let group = node(ResourceKind::AwsLbTargetGroup, "tg", targets);
        let steps = neighbors(&graph, &group, &ports);
        assert_eq!(steps.len(), 1);
        assert_eq!((steps[0].cloud_id.as_str(), &steps[0].ports), ("i-worker", &vec![port(8080)]));

        let lb = node(ResourceKind::AwsLoadBalancer, "lb", balancer);
        let steps = neighbors(&graph, &lb, &ports);
        assert_eq!(steps.len(), 2);
        assert_eq!((steps[0].cloud_id.as_str(), &steps[0].ports), ("sg-db", &vec![port(5432)]));
        assert_eq!((steps[1].cloud_id.as_str(), &steps[1].ports), ("tg", &ports));
    }
}

#[test]
fn a_larger_bound_only_appends() {
    let tier = |source: &str| {
        attrs(&format!(
            r#"{{"ingress": [{{"from_port": 1, "to_port": 1, "protocol": "tcp",
                "security_groups": ["{source}"]}}]}}"#
        ))
    };
    let member = |group: &str| attrs(&format!(r#"{{"vpc_security_group_ids": ["{group}"]}}"#));
    let (a, b, c) = (tier("none"), tier("sg-a"), tier("sg-b"));
    let (i, j, k) = (member("sg-a"), member("sg-b"), member("sg-c"));
    let graph = build(&[
        (&ResourceKind::AwsSecurityGroup, "sg-a", &a),
        (&ResourceKind::AwsSecurityGroup, "sg-b", &b),
        (&ResourceKind::AwsSecurityGroup, "sg-c", &c),
        (&ResourceKind::AwsInstance, "i-a", &i),
        (&ResourceKind::AwsInstance, "i-b", &j),
        (&ResourceKind::AwsInstance, "i-c", &k),
    ]);
    let within = |hops: usize| {
        reachable_from(&graph, &ResourceKind::AwsSecurityGroup, "sg-a", &[port(1)], hops)
    };
    assert_eq!(within(5).len(), 5);
    for hops in 0..6 {
        let fewer = within(hops);
        let more = within(hops + 1);
        assert_eq!(fewer[..], more[..fewer.len()]);
    }
}

#[test]
fn chains_are_found_group_by_group_and_entry_by_entry() {
    let open = |ports: &[i64]| {
        let rules: Vec<String> = ports
            .iter()
            .map(|port| {
                format!(
                    r#"{{"from_port": {port}, "to_port": {port}, "protocol": "tcp",
                        "cidr_blocks": ["0.0.0.0/0"]}}"#
                )
            })
            .collect();
        attrs(&format!(r#"{{"ingress": [{}]}}"#, rules.join(", ")))
    };
    let (a, b) = (open(&[443, 22]), open(&[80]));
    let worker = r#"{"vpc_security_group_ids": ["sg-b", "sg-a"], "subnet_id": "subnet-1"}"#;
    let worker_attrs = attrs(worker);
    let subject = node(ResourceKind::AwsInstance, "i-worker", worker);
    let graph = build(&[
        (&ResourceKind::AwsSecurityGroup, "sg-b", &b),
        (&ResourceKind::AwsSecurityGroup, "sg-a", &a),
        (&ResourceKind::AwsInstance, "i-worker", &worker_attrs),
    ]);
    let all = InternetReachability::chains(&subject, &graph);
    assert_eq!(
        all,
        [["sg-a", "i-worker"], ["sg-a", "i-worker"], ["sg-b", "i-worker"]]
    );

    // A network ACL that lets in one of the ports leaves the chains of that port.
    let acl = attrs(
        r#"{"subnet_ids": ["subnet-1"], "ingress": [{"rule_no": 1, "action": "allow",
            "protocol": "6", "cidr_block": "0.0.0.0/0", "from_port": 80, "to_port": 80}]}"#,
    );
    let guarded = build(&[
        (&ResourceKind::AwsSecurityGroup, "sg-b", &b),
        (&ResourceKind::AwsSecurityGroup, "sg-a", &a),
        (&ResourceKind::AwsInstance, "i-worker", &worker_attrs),
        (&ResourceKind::AwsNetworkAcl, "acl-1", &acl),
    ]);
    let left = InternetReachability::chains(&subject, &guarded);
    assert_eq!(left, [["sg-b", "i-worker"]]);
    assert!(left.iter().all(|chain| all.contains(chain)));
}

#[test]
fn paths_are_strictly_ascending() {
    let mut account = account();
    account.push(live("i-console", ResourceKind::AwsInstance, WORKER));
    account[1] = live("sg-app", ResourceKind::AwsSecurityGroup, &APP.replace("22", "2222"));
    let report = compare(&state(), &account);
    let mut seen = 0;
    for drift in &report.drifts {
        if let DriftKind::SemanticChanged { via, .. } = &drift.kind {
            seen += 1;
            assert!(!via.is_empty());
            assert!(via.windows(2).all(|pair| pair[0] < pair[1]), "{via:?}");
        }
    }
    assert!(seen > 0);
}

#[test]
fn a_resource_without_a_counterpart_is_not_asked_what_it_means() {
    let mut state = state();
    state.push(declared(
        "aws_instance.unborn",
        ResourceKind::AwsInstance,
        r#"{"vpc_security_group_ids": ["sg-gone"]}"#,
    ));
    state.push(declared(
        "aws_instance.gone",
        ResourceKind::AwsInstance,
        &WORKER.replace("i-worker", "i-gone").replace("sg-app", "sg-gone"),
    ));
    let mut report = DriftReport::default();
    semantic::compare(&state, &account(), &mut report);
    let about = |address: &str| {
        report.drifts.iter().any(|d| d.resource.0 == address)
            || report
                .unresolved
                .iter()
                .any(|u| u.resource.as_ref().is_some_and(|r| r.0 == address))
    };
    assert!(!about("aws_instance.unborn"));
    assert!(!about("aws_instance.gone"));
}

#[test]
fn changes_are_compared_by_what_they_say() {
    let changed = |actual: &str| DriftKind::FieldChanged {
        field: "ami".to_string(),
        declared: json("1"),
        actual: json(actual),
    };
    let meant = |via: &[&str]| DriftKind::SemanticChanged {
        field: "ingress".to_string(),
        relation: "sg_membership".to_string(),
        declared_effective: json("[]"),
        actual_effective: json(r#"["x"]"#),
        via: via.iter().map(|id| id.to_string()).collect(),
    };
    assert_eq!(DriftKind::Missing, DriftKind::Missing);
    assert_eq!(changed(r#"{"a": 1, "b": 2}"#), changed(r#"{"b": 2, "a": 1}"#));
    assert_ne!(changed("2"), changed("3"));
    assert_ne!(changed("2"), DriftKind::Missing);
    assert_eq!(meant(&["sg-1"]), meant(&["sg-1"]));
    assert_ne!(meant(&["sg-1"]), meant(&["sg-1", "sg-2"]));
    assert_ne!(meant(&["sg-1"]), meant(&["sg-2"]));
    assert_ne!(meant(&[]), changed("2"));
}

#[test]
fn the_defaults_are_empty() {
    let nothing = Graph::default();
    assert!(nothing.node(&ResourceKind::AwsInstance, "i-1").is_none());
    assert!(InternetReachability::chains(
        &node(ResourceKind::AwsInstance, "i-1", "{}"),
        &nothing
    )
    .is_empty());
    let rules = SiblingRules::default();
    let targets = TargetAttachments::default();
    let group = declared(
        "aws_security_group.web",
        ResourceKind::AwsSecurityGroup,
        WEB,
    );
    assert_eq!(semantic::effective_attributes(&group, &rules, &targets), attrs(WEB));
}
