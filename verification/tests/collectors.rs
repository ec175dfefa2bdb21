//! What the AWS APIs report, in the shape of Terraform state.

use uncia::collector::aws::ec2::{self, Instance, MetadataOptions};
use uncia::collector::aws::ecs::{self, Service};
use uncia::collector::aws::lambda::{self, FunctionConfiguration};
use uncia::collector::aws::load_balancer::{self, LoadBalancer};
use uncia::collector::aws::network_acl::{
    self, IcmpTypeCode, NetworkAcl, NetworkAclEntry, PortRange,
};
use uncia::collector::aws::rds::{self, DbInstance};
use uncia::collector::aws::security_group::{self, IpPermission, SecurityGroup};
use uncia::collector::aws::target_group::{self, TargetGroup};
use uncia::collector::aws::Tag;
use uncia::document::read_json;
use uncia::json::{JsonValue, Object};
use uncia::ResourceKind;

fn json(text: &str) -> JsonValue {
    read_json(text).unwrap()
}

fn some(text: &str) -> Option<String> {
    Some(text.to_string())
}

fn name_tag(name: &str) -> Vec<Tag> {
    vec![Tag { key: some("Name"), value: some(name) }]
}

/// The value at a path of keys and indices.
fn at<'a>(attributes: &'a Object, path: &[&str]) -> &'a JsonValue {
    inside(attributes.get(path[0]).unwrap(), &path[1..])
}

fn inside<'a>(value: &'a JsonValue, path: &[&str]) -> &'a JsonValue {
    let mut value = value;
    for step in path {
        value = match step.parse::<usize>() {
            Ok(index) => &value.as_array().unwrap()[index],
            Err(_) => value.get(step).unwrap(),
        };
    }
    value
}

fn text_at(attributes: &Object, path: &[&str]) -> String {
    at(attributes, path).as_str().unwrap().to_string()
}

fn number_at(attributes: &Object, path: &[&str]) -> i64 {
    at(attributes, path).as_i64().unwrap()
}

fn text_in(value: &JsonValue, key: &str) -> String {
    inside(value, &[key]).as_str().unwrap().to_string()
}

fn number_in(value: &JsonValue, key: &str) -> i64 {
    inside(value, &[key]).as_i64().unwrap()
}

// --- EC2 instances ---

fn bare_instance(id: &str, state: &str) -> Instance {
    Instance {
        state: some(state),
        instance_id: some(id),
        instance_type: None,
        image_id: None,
        tags: Vec::new(),
        security_groups: Vec::new(),
        iam_instance_profile_arn: None,
        metadata_options: None,
    }
}

fn running_instance() -> Instance {
    Instance {
        instance_type: some("t3.medium"),
        image_id: some("ami-0aabbccdd11223344"),
        tags: name_tag("web"),
        security_groups: vec![some("sg-1111"), some("sg-2222")],
        iam_instance_profile_arn: some("arn:aws:iam::123456789012:instance-profile/app-role"),
        metadata_options: Some(MetadataOptions {
            http_endpoint: some("enabled"),
            http_tokens: some("required"),
            http_put_response_hop_limit: Some(2),
            instance_metadata_tags: some("disabled"),
        }),
        ..bare_instance("i-0abc123def4567890", "running")
    }
}

#[test]
fn ec2_normalizes_to_terraform_shape() {
    let live = ec2::normalize(&running_instance()).unwrap();

    assert_eq!(live.cloud_id, "i-0abc123def4567890");
    assert_eq!(live.kind, ResourceKind::AwsInstance);
    assert_eq!(text_at(&live.attributes, &["instance_type"]), "t3.medium");
    assert_eq!(text_at(&live.attributes, &["ami"]), "ami-0aabbccdd11223344");
    assert_eq!(text_at(&live.attributes, &["tags", "Name"]), "web");
    assert_eq!(
        *at(&live.attributes, &["vpc_security_group_ids"]),
        json(r#"["sg-1111", "sg-2222"]"#)
    );
    assert_eq!(text_at(&live.attributes, &["iam_instance_profile"]), "app-role");

    let meta = at(&live.attributes, &["metadata_options", "0"]);
    assert_eq!(text_in(meta, "http_tokens"), "required");
    assert_eq!(number_in(meta, "http_put_response_hop_limit"), 2);
    assert_eq!(text_in(meta, "http_endpoint"), "enabled");
}

#[test]
fn terminated_instance_is_not_collected() {
    let terminated = bare_instance("i-deadbeef00000000", "terminated");
    assert!(ec2::normalize(&terminated).is_none());
}

#[test]
fn an_instance_shutting_down_is_not_collected() {
    assert!(ec2::normalize(&bare_instance("i-1", "shutting-down")).is_none());
}

#[test]
fn instance_without_profile_emits_empty_string() {
    let bare = Instance {
        instance_type: some("t3.micro"),
        image_id: some("ami-1"),
        ..bare_instance("i-noprofile0000000", "stopped")
    };
    let live = ec2::normalize(&bare).unwrap();
    assert_eq!(text_at(&live.attributes, &["iam_instance_profile"]), "");
    assert_eq!(live.cloud_id, "i-noprofile0000000");
}

#[test]
fn a_profile_name_is_what_follows_the_last_slash() {
    assert_eq!(ec2::profile_name_from_arn("arn:aws:iam::1:instance-profile/a/b"), "b");
    assert_eq!(ec2::profile_name_from_arn("plain"), "plain");
    assert_eq!(ec2::profile_name_from_arn("ends/"), "");
}

// --- ECS services ---

#[test]
fn ecs_normalizes_to_terraform_shape() {
    let service = Service {
        service_arn: some("arn:aws:ecs:us-east-1:123456789012:service/my-cluster/my-service"),
        awsvpc_security_groups: Some(vec!["sg-1111".to_string(), "sg-2222".to_string()]),
    };
    let live = ecs::normalize(&service).unwrap();

    assert_eq!(
        live.cloud_id,
        "arn:aws:ecs:us-east-1:123456789012:service/my-cluster/my-service"
    );
    assert_eq!(live.kind, ResourceKind::AwsEcsService);
    assert_eq!(text_at(&live.attributes, &["id"]), live.cloud_id);
    assert_eq!(
        *at(&live.attributes, &["vpc_security_group_ids"]),
        json(r#"["sg-1111", "sg-2222"]"#)
    );
}

#[test]
fn a_service_with_no_network_configuration_normalizes_to_an_empty_list() {
    let service = Service {
        service_arn: some("arn:aws:ecs:us-east-1:123456789012:service/my-cluster/bridge-service"),
        awsvpc_security_groups: None,
    };
    let live = ecs::normalize(&service).unwrap();
    assert_eq!(*at(&live.attributes, &["vpc_security_group_ids"]), json("[]"));
}

#[test]
fn a_service_with_no_arn_is_not_collected() {
    let bare = Service { service_arn: None, awsvpc_security_groups: None };
    assert!(ecs::normalize(&bare).is_none());
}

#[test]
fn services_are_described_ten_at_a_time() {
    let arns: Vec<String> = (0..23).map(|i| format!("arn:{i}")).collect();
    let batches = ecs::batches(&arns);
    assert_eq!(batches.iter().map(|b| b.len()).collect::<Vec<_>>(), vec![10, 10, 3]);
    assert_eq!(batches.concat(), arns);
    assert!(ecs::batches(&Vec::new()).is_empty());
}

// --- Lambda functions ---

#[test]
fn lambda_normalizes_to_terraform_shape() {
    let function = FunctionConfiguration {
        function_name: some("my-function"),
        vpc_security_group_ids: Some(vec!["sg-1111".to_string(), "sg-2222".to_string()]),
    };
    let live = lambda::normalize(&function).unwrap();

    assert_eq!(live.cloud_id, "my-function");
    assert_eq!(live.kind, ResourceKind::AwsLambdaFunction);
    assert_eq!(text_at(&live.attributes, &["id"]), "my-function");
    assert_eq!(
        *at(&live.attributes, &["vpc_security_group_ids"]),
        json(r#"["sg-1111", "sg-2222"]"#)
    );
}

#[test]
fn a_function_with_no_vpc_config_normalizes_to_an_empty_list() {
    let function = FunctionConfiguration {
        function_name: some("no-vpc-function"),
        vpc_security_group_ids: None,
    };
    let live = lambda::normalize(&function).unwrap();
    assert_eq!(*at(&live.attributes, &["vpc_security_group_ids"]), json("[]"));
}

#[test]
fn a_function_with_no_name_is_not_collected() {
    let bare = FunctionConfiguration { function_name: None, vpc_security_group_ids: None };
    assert!(lambda::normalize(&bare).is_none());
}

// --- Load balancers ---

#[test]
fn load_balancer_normalizes_to_terraform_shape() {
    let alb = LoadBalancer {
        load_balancer_arn: some(
            "arn:aws:elasticloadbalancing:us-east-1:123456789012:loadbalancer/app/my-alb/50dc6c495c0c9188",
        ),
        security_groups: vec!["sg-1111".to_string(), "sg-2222".to_string()],
    };
    let live = load_balancer::normalize(&alb).unwrap();

    assert_eq!(
        live.cloud_id,
        "arn:aws:elasticloadbalancing:us-east-1:123456789012:loadbalancer/app/my-alb/50dc6c495c0c9188"
    );
    assert_eq!(live.kind, ResourceKind::AwsLoadBalancer);
    assert_eq!(text_at(&live.attributes, &["id"]), live.cloud_id);
    assert_eq!(
        *at(&live.attributes, &["security_groups"]),
        json(r#"["sg-1111", "sg-2222"]"#)
    );
}

#[test]
fn a_load_balancer_with_no_security_groups_normalizes_to_an_empty_list() {
    let nlb = LoadBalancer {
        load_balancer_arn: some(
            "arn:aws:elasticloadbalancing:us-east-1:123456789012:loadbalancer/net/my-nlb/1234567890abcdef",
        ),
        security_groups: Vec::new(),
    };
    let live = load_balancer::normalize(&nlb).unwrap();
    assert_eq!(*at(&live.attributes, &["security_groups"]), json("[]"));
}

#[test]
fn a_load_balancer_with_no_arn_is_not_collected() {
    let bare = LoadBalancer { load_balancer_arn: None, security_groups: Vec::new() };
    assert!(load_balancer::normalize(&bare).is_none());
}

// --- Network ACLs ---

fn entry(
    rule_no: i32,
    egress: bool,
    action: &str,
    protocol: &str,
    cidr: &str,
) -> NetworkAclEntry {
    NetworkAclEntry {
        rule_number: Some(rule_no),
        egress: Some(egress),
        rule_action: some(action),
        protocol: some(protocol),
        cidr_block: some(cidr),
        ipv6_cidr_block: None,
        port_range: None,
        icmp_type_code: None,
    }
}

fn bare_nacl(id: Option<&str>) -> NetworkAcl {
    NetworkAcl {
        network_acl_id: id.map(|id| id.to_string()),
        vpc_id: some("vpc-1"),
        owner_id: None,
        tags: Vec::new(),
        associations: Vec::new(),
        entries: Vec::new(),
    }
}

fn sample_nacl() -> NetworkAcl {
    NetworkAcl {
        network_acl_id: some("acl-0123456789abcdef0"),
        vpc_id: some("vpc-0aa11bb22cc33dd44"),
        owner_id: some("123456789012"),
        tags: name_tag("web"),
        associations: vec![some("subnet-b"), some("subnet-a")],
        entries: vec![
            NetworkAclEntry {
                port_range: Some(PortRange { from: Some(443), to: Some(443) }),
                ..entry(100, false, "allow", "6", "0.0.0.0/0")
            },
            entry(200, false, "deny", "-1", "10.0.0.0/8"),
            entry(100, true, "allow", "-1", "0.0.0.0/0"),
            entry(32767, false, "deny", "-1", "0.0.0.0/0"),
            entry(32768, false, "deny", "-1", "::/0"),
            entry(32767, true, "deny", "-1", "0.0.0.0/0"),
            entry(32768, true, "deny", "-1", "::/0"),
        ],
    }
}

#[test]
fn network_acl_normalizes_to_terraform_shape() {
    let live = network_acl::normalize(&sample_nacl()).unwrap();

    assert_eq!(live.cloud_id, "acl-0123456789abcdef0");
    assert_eq!(live.kind, ResourceKind::AwsNetworkAcl);
    assert_eq!(text_at(&live.attributes, &["id"]), "acl-0123456789abcdef0");
    assert_eq!(text_at(&live.attributes, &["vpc_id"]), "vpc-0aa11bb22cc33dd44");
    assert_eq!(text_at(&live.attributes, &["owner_id"]), "123456789012");
    assert_eq!(text_at(&live.attributes, &["tags", "Name"]), "web");
    assert_eq!(
        *at(&live.attributes, &["subnet_ids"]),
        json(r#"["subnet-a", "subnet-b"]"#)
    );

    let ingress = at(&live.attributes, &["ingress"]).as_array().unwrap();
    assert_eq!(ingress.len(), 2, "the two implicit deny-all rules are excluded");
    let allow_443 = ingress.iter().find(|r| number_in(r, "rule_no") == 100).unwrap();
    assert_eq!(text_in(allow_443, "action"), "allow");
    assert_eq!(text_in(allow_443, "protocol"), "6");
    assert_eq!(text_in(allow_443, "cidr_block"), "0.0.0.0/0");
    assert_eq!(number_in(allow_443, "from_port"), 443);
    assert_eq!(number_in(allow_443, "to_port"), 443);
    assert_eq!(number_in(allow_443, "icmp_type"), 0);
    assert_eq!(number_in(allow_443, "icmp_code"), 0);

    let deny_all = ingress.iter().find(|r| number_in(r, "rule_no") == 200).unwrap();
    assert_eq!(text_in(deny_all, "action"), "deny");
    assert_eq!(text_in(deny_all, "protocol"), "-1");
    assert_eq!(text_in(deny_all, "cidr_block"), "10.0.0.0/8");
    assert_eq!(number_in(deny_all, "from_port"), 0);
    assert_eq!(number_in(deny_all, "to_port"), 0);

    let egress = at(&live.attributes, &["egress"]).as_array().unwrap();
    assert_eq!(egress.len(), 1, "the two implicit deny-all rules are excluded");
    assert_eq!(number_in(&egress[0], "rule_no"), 100);
    assert_eq!(text_in(&egress[0], "action"), "allow");
}

#[test]
fn an_icmp_rule_normalizes_type_and_code() {
    let nacl = NetworkAcl {
        entries: vec![NetworkAclEntry {
            icmp_type_code: Some(IcmpTypeCode { icmp_type: Some(8), code: Some(0) }),
            ..entry(50, false, "allow", "1", "0.0.0.0/0")
        }],
        ..bare_nacl(Some("acl-icmp"))
    };

    let live = network_acl::normalize(&nacl).unwrap();
    let rule = at(&live.attributes, &["ingress", "0"]);
    assert_eq!(text_in(rule, "protocol"), "1");
    assert_eq!(number_in(rule, "icmp_type"), 8);
    assert_eq!(number_in(rule, "icmp_code"), 0);
    assert_eq!(number_in(rule, "from_port"), 0);
    assert_eq!(number_in(rule, "to_port"), 0);
}

#[test]
fn a_nacl_with_no_associated_subnets_normalizes_to_an_empty_list() {
    let live = network_acl::normalize(&bare_nacl(Some("acl-unattached"))).unwrap();
    assert_eq!(*at(&live.attributes, &["subnet_ids"]), json("[]"));
    assert_eq!(*at(&live.attributes, &["ingress"]), json("[]"));
    assert_eq!(*at(&live.attributes, &["egress"]), json("[]"));
}

#[test]
fn a_nacl_with_no_id_is_not_collected() {
    assert!(network_acl::normalize(&bare_nacl(None)).is_none());
}

// --- Database instances ---

#[test]
fn rds_normalizes_to_terraform_shape() {
    let instance = DbInstance {
        dbi_resource_id: some("db-ABCDEFGHIJKLMNOPQRSTUVWXYZ"),
        vpc_security_groups: vec![some("sg-1111"), some("sg-2222")],
    };
    let live = rds::normalize(&instance).unwrap();

    assert_eq!(live.cloud_id, "db-ABCDEFGHIJKLMNOPQRSTUVWXYZ");
    assert_eq!(live.kind, ResourceKind::AwsDbInstance);
    assert_eq!(text_at(&live.attributes, &["id"]), "db-ABCDEFGHIJKLMNOPQRSTUVWXYZ");
    assert_eq!(
        *at(&live.attributes, &["vpc_security_group_ids"]),
        json(r#"["sg-1111", "sg-2222"]"#),
        "every membership survives regardless of status"
    );
}

#[test]
fn an_instance_with_no_memberships_normalizes_to_an_empty_list() {
    let instance = DbInstance {
        dbi_resource_id: some("db-EMPTY"),
        vpc_security_groups: Vec::new(),
    };
    let live = rds::normalize(&instance).unwrap();
    assert_eq!(*at(&live.attributes, &["vpc_security_group_ids"]), json("[]"));
}

#[test]
fn an_instance_with_no_resource_id_is_not_collected() {
    let bare = DbInstance { dbi_resource_id: None, vpc_security_groups: Vec::new() };
    assert!(rds::normalize(&bare).is_none());
}

// --- Security groups ---

fn permission(protocol: &str, ports: Option<i32>) -> IpPermission {
    IpPermission {
        from_port: ports,
        to_port: ports,
        ip_protocol: some(protocol),
        ip_ranges: vec![some("0.0.0.0/0")],
        ipv6_ranges: Vec::new(),
        prefix_list_ids: Vec::new(),
        user_id_group_pairs: Vec::new(),
    }
}

#[test]
fn security_group_normalizes_to_terraform_shape() {
    let group = SecurityGroup {
        group_id: some("sg-0123456789abcdef0"),
        group_name: some("web"),
        description: some("web tier"),
        vpc_id: some("vpc-0aa11bb22cc33dd44"),
        owner_id: some("123456789012"),
        tags: name_tag("web"),
        ip_permissions: vec![IpPermission {
            user_id_group_pairs: vec![some("sg-0123456789abcdef0"), some("sg-other0000000000")],
            ..permission("tcp", Some(443))
        }],
        ip_permissions_egress: vec![permission("-1", None)],
    };
    let live = security_group::normalize(&group).unwrap();

    assert_eq!(live.cloud_id, "sg-0123456789abcdef0");
    assert_eq!(live.kind, ResourceKind::AwsSecurityGroup);
    assert_eq!(text_at(&live.attributes, &["id"]), "sg-0123456789abcdef0");
    assert_eq!(text_at(&live.attributes, &["name"]), "web");
    assert_eq!(text_at(&live.attributes, &["vpc_id"]), "vpc-0aa11bb22cc33dd44");
    assert_eq!(text_at(&live.attributes, &["tags", "Name"]), "web");

    let ingress = at(&live.attributes, &["ingress", "0"]);
    assert_eq!(number_in(ingress, "from_port"), 443);
    assert_eq!(text_in(ingress, "protocol"), "tcp");
    assert_eq!(inside(ingress, &["cidr_blocks", "0"]).as_str(), Some("0.0.0.0/0"));
    assert_eq!(inside(ingress, &["self"]).as_bool(), Some(true));
    assert_eq!(
        *inside(ingress, &["security_groups"]),
        json(r#"["sg-other0000000000"]"#)
    );

    let egress = at(&live.attributes, &["egress", "0"]);
    assert_eq!(number_in(egress, "from_port"), 0);
    assert_eq!(number_in(egress, "to_port"), 0);
    assert_eq!(text_in(egress, "protocol"), "-1");
}

// --- Target groups ---

fn instance_target_group() -> TargetGroup {
    TargetGroup {
        target_group_arn: some(
            "arn:aws:elasticloadbalancing:us-east-1:123456789012:targetgroup/my-targets/50dc6c495c0c9188",
        ),
        target_type: some("instance"),
        load_balancer_arns: vec![
            "arn:aws:elasticloadbalancing:us-east-1:123456789012:loadbalancer/app/my-alb/1234567890abcdef"
                .to_string(),
        ],
    }
}

#[test]
fn target_group_normalizes_to_terraform_shape() {
    let targets = vec!["i-1111".to_string(), "i-2222".to_string()];
    let live = target_group::normalize(&instance_target_group(), targets).unwrap();

    assert_eq!(
        live.cloud_id,
        "arn:aws:elasticloadbalancing:us-east-1:123456789012:targetgroup/my-targets/50dc6c495c0c9188"
    );
    assert_eq!(live.kind, ResourceKind::AwsLbTargetGroup);
    assert_eq!(text_at(&live.attributes, &["id"]), live.cloud_id);
    assert_eq!(
        *at(&live.attributes, &["load_balancer_arns"]),
        json(
            r#"["arn:aws:elasticloadbalancing:us-east-1:123456789012:loadbalancer/app/my-alb/1234567890abcdef"]"#
        )
    );
    assert_eq!(*at(&live.attributes, &["targets"]), json(r#"["i-1111", "i-2222"]"#));
}

#[test]
fn a_target_group_with_no_registered_targets_normalizes_to_an_empty_list() {
    let live = target_group::normalize(&instance_target_group(), Vec::new()).unwrap();
    assert_eq!(*at(&live.attributes, &["targets"]), json("[]"));
}

#[test]
fn a_target_group_with_no_arn_is_not_collected() {
    let bare = TargetGroup {
        target_group_arn: None,
        target_type: None,
        load_balancer_arns: Vec::new(),
    };
    assert!(target_group::normalize(&bare, Vec::new()).is_none());
}

#[test]
fn fetch_only_resolves_targets_for_instance_type_groups() {
    let ip_tg = TargetGroup {
        target_group_arn: some(
            "arn:aws:elasticloadbalancing:us-east-1:123456789012:targetgroup/ip-targets/aaaaaaaaaaaaaaaa",
        ),
        target_type: some("ip"),
        load_balancer_arns: Vec::new(),
    };
    assert!(!target_group::has_instance_targets(&ip_tg));
    assert!(target_group::has_instance_targets(&instance_target_group()));
}

#[test]
fn targets_without_an_id_are_left_out() {
    let targets = vec![some("i-1"), None, some("i-2")];
    assert_eq!(target_group::target_ids(&targets), vec!["i-1", "i-2"]);
}
