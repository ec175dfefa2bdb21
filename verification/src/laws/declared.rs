//! What a declared resource effectively is.

use vstd::prelude::*;

use crate::collector::Observed;
use crate::diff::rules::{contributions, siblings, Sibling};
use crate::diff::semantic::{declared_graph, effective, sides_of};
use crate::diff::target_attachments::{attachments, registered, registered_means_declared};
use crate::json::{text_array, texts_among_members, texts_of_text_array, Json};
use crate::laws::{lists, says};
use crate::types::resource::{kind_named, Declared, Kind};

verus! {

/// A declared resource as a node: with its cloud ID, and with what it effectively allows or contains.
pub open spec fn as_node(declared: Seq<Declared>, n: int, id: Seq<char>) -> Observed {
    Observed {
        cloud_id: id,
        kind: declared[n].kind,
        attributes: effective(declared[n], siblings(declared), attachments(declared)),
    }
}

/// The value of a declared resource under `key`.
pub open spec fn value_at(declared: Seq<Declared>, n: int, key: Seq<char>) -> Option<Json> {
    Json::Object(declared[n].attributes).get(key)
}

/// The value of the node of a declared resource under `key`.
pub open spec fn node_value_at(
    declared: Seq<Declared>,
    n: int,
    id: Seq<char>,
    key: Seq<char>,
) -> Option<Json> {
    Json::Object(as_node(declared, n, id).attributes).get(key)
}

/// The state gives the resource numbered `n` the cloud ID `id`.
pub open spec fn is_known_as(declared: Seq<Declared>, n: int, id: Seq<char>) -> bool {
    0 <= n < declared.len() && says(Json::Object(declared[n].attributes), "id"@, id)
}

proof fn graph_in_words(
    declared: Seq<Declared>,
    rules: Seq<Sibling>,
    pairs: Seq<(Seq<char>, Seq<char>)>,
    node: Observed,
)
    ensures
        declared_graph(declared, rules, pairs).contains(node) <==> exists|n: int|
            is_known_as(declared, n, node.cloud_id) && (#[trigger] declared[n]).kind == node.kind
                && node.attributes == effective(declared[n], rules, pairs),
    decreases declared.len(),
{
    broadcast use vstd::seq_lib::group_seq_properties;

    if declared.len() > 0 {
        let rest = declared.drop_last();
        let last = declared.last();
        let m = declared.len() - 1;
        graph_in_words(rest, rules, pairs, node);
        assert(declared[m] == last);
        if declared_graph(rest, rules, pairs).contains(node) {
            let n = choose|n: int|
                is_known_as(rest, n, node.cloud_id) && (#[trigger] rest[n]).kind == node.kind
                    && node.attributes == effective(rest[n], rules, pairs);
            assert(declared[n] == rest[n]);
            assert(is_known_as(declared, n, node.cloud_id));
        }
        if declared_graph(declared, rules, pairs).contains(node) && !declared_graph(
            rest,
            rules,
            pairs,
        ).contains(node) {
            assert(is_known_as(declared, m, node.cloud_id));
        }
        if exists|n: int|
            is_known_as(declared, n, node.cloud_id) && (#[trigger] declared[n]).kind == node.kind
                && node.attributes == effective(declared[n], rules, pairs) {
            let n = choose|n: int|
                is_known_as(declared, n, node.cloud_id) && (#[trigger] declared[n]).kind
                    == node.kind && node.attributes == effective(declared[n], rules, pairs);
            if n < m {
                assert(rest[n] == declared[n]);
                assert(is_known_as(rest, n, node.cloud_id));
            }
        }
    }
}

/// The declared side of a comparison has a node for each declared resource with a cloud ID, and no
/// other; the live side is what was observed.
pub proof fn every_declared_resource_is_a_node(
    declared: Seq<Declared>,
    live: Seq<Observed>,
    node: Observed,
)
    ensures
        sides_of(declared, live).declared.contains(node) <==> exists|n: int| #[trigger]
            is_known_as(declared, n, node.cloud_id) && node == as_node(declared, n, node.cloud_id),
        sides_of(declared, live).live == live,
{
    graph_in_words(declared, siblings(declared), attachments(declared), node);
    if sides_of(declared, live).declared.contains(node) {
        let n = choose|n: int|
            is_known_as(declared, n, node.cloud_id) && (#[trigger] declared[n]).kind == node.kind
                && node.attributes == effective(
                declared[n],
                siblings(declared),
                attachments(declared),
            );
        assert(node == as_node(declared, n, node.cloud_id));
    }
    if exists|n: int| #[trigger]
        is_known_as(declared, n, node.cloud_id) && node == as_node(declared, n, node.cloud_id) {
        let n = choose|n: int| #[trigger]
            is_known_as(declared, n, node.cloud_id) && node == as_node(declared, n, node.cloud_id);
        assert(declared[n].kind == node.kind);
    }
}

/// A security group has, besides the rules of its own blocks, those that are declared as resources of
/// their own, in either direction; all else stays as declared.
pub proof fn a_group_has_all_its_rules(
    declared: Seq<Declared>,
    n: int,
    id: Seq<char>,
    rule: Json,
    key: Seq<char>,
)
    requires
        is_known_as(declared, n, id),
        declared[n].kind == Kind::AwsSecurityGroup,
    ensures
        (node_value_at(declared, n, id, "ingress"@) matches Some(Json::Array(rules))
            && rules.contains(rule)) <==> (value_at(declared, n, "ingress"@) matches Some(
            Json::Array(own),
        ) && own.contains(rule)) || contributions(siblings(declared), id, "ingress"@).contains(
            rule,
        ),
        (node_value_at(declared, n, id, "egress"@) matches Some(Json::Array(rules))
            && rules.contains(rule)) <==> (value_at(declared, n, "egress"@) matches Some(
            Json::Array(own),
        ) && own.contains(rule)) || contributions(siblings(declared), id, "egress"@).contains(rule),
        key != "ingress"@ && key != "egress"@ ==> node_value_at(declared, n, id, key) == value_at(
            declared,
            n,
            key,
        ),
{
    broadcast use vstd::seq_lib::group_seq_properties;

    reveal_strlit("ingress");
    reveal_strlit("egress");
    assert("ingress"@.len() == 7 && "egress"@.len() == 6);
}

/// A target group's targets are those that some attachment registers with it; all else stays as
/// declared.
pub proof fn a_target_group_has_its_registered_targets(
    declared: Seq<Declared>,
    n: int,
    id: Seq<char>,
    target: Seq<char>,
    key: Seq<char>,
)
    requires
        is_known_as(declared, n, id),
        declared[n].kind == Kind::AwsLbTargetGroup,
    ensures
        lists(Json::Object(as_node(declared, n, id).attributes), "targets"@, target) <==> exists|
            m: int,
        |
            0 <= m < declared.len() && (#[trigger] declared[m]).kind
                == Kind::AwsLbTargetGroupAttachment && says(
                Json::Object(declared[m].attributes),
                "target_group_arn"@,
                id,
            ) && says(Json::Object(declared[m].attributes), "target_id"@, target),
        key != "targets"@ ==> node_value_at(declared, n, id, key) == value_at(declared, n, key),
{
    registered_means_declared(declared, id, target);
    text_array_holds(registered(attachments(declared), id), target);
    assert forall|m: int| 0 <= m < declared.len() implies (crate::types::resource::text_at(
        (#[trigger] declared[m]).attributes,
        "target_group_arn"@,
    ) == Some(id) <==> says(Json::Object(declared[m].attributes), "target_group_arn"@, id)) && (
    crate::types::resource::text_at(declared[m].attributes, "target_id"@) == Some(target) <==> says(
        Json::Object(declared[m].attributes),
        "target_id"@,
        target,
    )) by {}
}

/// An array of texts holds what the list has.
pub proof fn text_array_holds(list: Seq<Seq<char>>, text: Seq<char>)
    ensures
        text_array(list) is Array,
        text_array(list)->Array_0.contains(Json::Text(text)) <==> list.contains(text),
{
    texts_of_text_array(list);
    texts_among_members(text_array(list)->Array_0, text);
}

/// `text` is listed under `field` in the first of the blocks that are under `block`.
pub open spec fn nests(value: Option<Json>, field: Seq<char>, text: Seq<char>) -> bool {
    value matches Some(Json::Array(blocks)) && blocks.len() > 0 && lists(blocks[0], field, text)
}

/// A Lambda function carries the groups, and runs in the subnets, that its `vpc_config` block lists;
/// all else stays as declared.
pub proof fn a_function_has_what_its_block_lists(
    declared: Seq<Declared>,
    n: int,
    id: Seq<char>,
    text: Seq<char>,
    key: Seq<char>,
)
    requires
        is_known_as(declared, n, id),
        declared[n].kind == Kind::AwsLambdaFunction,
    ensures
        lists(
            Json::Object(as_node(declared, n, id).attributes),
            "vpc_security_group_ids"@,
            text,
        ) <==> nests(value_at(declared, n, "vpc_config"@), "security_group_ids"@, text),
        lists(Json::Object(as_node(declared, n, id).attributes), "subnet_ids"@, text) <==> nests(
            value_at(declared, n, "vpc_config"@),
            "subnet_ids"@,
            text,
        ),
        key != "vpc_security_group_ids"@ && key != "subnet_ids"@ ==> node_value_at(
            declared,
            n,
            id,
            key,
        ) == value_at(declared, n, key),
{
    reveal_strlit("vpc_security_group_ids");
    reveal_strlit("subnet_ids");
    reveal_strlit("vpc_config");
    assert("vpc_security_group_ids"@.len() == 22);
    assert("subnet_ids"@.len() == 10 && "vpc_config"@.len() == 10);
    assert("subnet_ids"@[0] != "vpc_config"@[0]);
}

/// An ECS service carries the groups, and runs in the subnets, that its `network_configuration` block
/// lists; all else stays as declared.
pub proof fn a_service_has_what_its_block_lists(
    declared: Seq<Declared>,
    n: int,
    id: Seq<char>,
    text: Seq<char>,
    key: Seq<char>,
)
    requires
        is_known_as(declared, n, id),
        declared[n].kind == Kind::AwsEcsService,
    ensures
        lists(
            Json::Object(as_node(declared, n, id).attributes),
            "vpc_security_group_ids"@,
            text,
        ) <==> nests(value_at(declared, n, "network_configuration"@), "security_groups"@, text),
        lists(Json::Object(as_node(declared, n, id).attributes), "subnet_ids"@, text) <==> nests(
            value_at(declared, n, "network_configuration"@),
            "subnets"@,
            text,
        ),
        key != "vpc_security_group_ids"@ && key != "subnet_ids"@ ==> node_value_at(
            declared,
            n,
            id,
            key,
        ) == value_at(declared, n, key),
{
    reveal_strlit("vpc_security_group_ids");
    reveal_strlit("subnet_ids");
    reveal_strlit("network_configuration");
    assert("vpc_security_group_ids"@.len() == 22 && "network_configuration"@.len() == 21);
    assert("subnet_ids"@.len() == 10);
}

/// Everything else is just what is declared.
pub proof fn other_resources_are_as_declared(declared: Seq<Declared>, n: int, id: Seq<char>)
    requires
        is_known_as(declared, n, id),
        declared[n].kind != Kind::AwsSecurityGroup,
        declared[n].kind != Kind::AwsLbTargetGroup,
        declared[n].kind != Kind::AwsLambdaFunction,
        declared[n].kind != Kind::AwsEcsService,
    ensures
        as_node(declared, n, id).attributes == declared[n].attributes,
{
}

/// Each kind is named by its Terraform resource type, a load balancer also by the older `aws_alb` and
/// a network ACL also as a default one, and any other type is a kind of its own.
pub proof fn kinds_are_named_by_their_types(name: Seq<char>)
    ensures
        kind_named(name) == Kind::AwsSecurityGroup <==> name == "aws_security_group"@,
        kind_named(name) == Kind::AwsInstance <==> name == "aws_instance"@,
        kind_named(name) == Kind::AwsLoadBalancer <==> name == "aws_lb"@ || name == "aws_alb"@,
        kind_named(name) == Kind::AwsLbTargetGroup <==> name == "aws_lb_target_group"@,
        kind_named(name) == Kind::AwsSecurityGroupRule <==> name == "aws_security_group_rule"@,
        kind_named(name) == Kind::AwsVpcSecurityGroupIngressRule <==> name
            == "aws_vpc_security_group_ingress_rule"@,
        kind_named(name) == Kind::AwsVpcSecurityGroupEgressRule <==> name
            == "aws_vpc_security_group_egress_rule"@,
        kind_named(name) == Kind::AwsLbTargetGroupAttachment <==> name
            == "aws_lb_target_group_attachment"@,
        kind_named(name) == Kind::AwsLambdaFunction <==> name == "aws_lambda_function"@,
        kind_named(name) == Kind::AwsDbInstance <==> name == "aws_db_instance"@,
        kind_named(name) == Kind::AwsEcsService <==> name == "aws_ecs_service"@,
        kind_named(name) == Kind::AwsNetworkAcl <==> name == "aws_network_acl"@ || name
            == "aws_default_network_acl"@,
        kind_named(name) is Other ==> kind_named(name) == Kind::Other(name),
        kind_named(name).name() == name || name == "aws_alb"@ || name == "aws_default_network_acl"@,
        kind_named(kind_named(name).name()) == kind_named(name),
{
    reveal_strlit("aws_security_group");
    reveal_strlit("aws_instance");
    reveal_strlit("aws_lb");
    reveal_strlit("aws_alb");
    reveal_strlit("aws_lb_target_group");
    reveal_strlit("aws_security_group_rule");
    reveal_strlit("aws_vpc_security_group_ingress_rule");
    reveal_strlit("aws_vpc_security_group_egress_rule");
    reveal_strlit("aws_lb_target_group_attachment");
    reveal_strlit("aws_lambda_function");
    reveal_strlit("aws_db_instance");
    reveal_strlit("aws_ecs_service");
    reveal_strlit("aws_network_acl");
    reveal_strlit("aws_default_network_acl");
    assert("aws_security_group"@.len() == 18 && "aws_instance"@.len() == 12 && "aws_lb"@.len() == 6
        && "aws_alb"@.len() == 7);
    assert("aws_lb_target_group"@.len() == 19 && "aws_lambda_function"@.len() == 19);
    assert("aws_lb_target_group"@[5] != "aws_lambda_function"@[5]);
    assert("aws_security_group_rule"@.len() == 23 && "aws_default_network_acl"@.len() == 23);
    assert("aws_security_group_rule"@[4] != "aws_default_network_acl"@[4]);
    assert("aws_vpc_security_group_ingress_rule"@.len() == 35
        && "aws_vpc_security_group_egress_rule"@.len() == 34);
    assert("aws_lb_target_group_attachment"@.len() == 30);
    assert("aws_db_instance"@.len() == 15 && "aws_ecs_service"@.len() == 15
        && "aws_network_acl"@.len() == 15);
    assert("aws_db_instance"@[4] != "aws_ecs_service"@[4]);
    assert("aws_db_instance"@[4] != "aws_network_acl"@[4]);
    assert("aws_ecs_service"@[4] != "aws_network_acl"@[4]);
}

} // verus!
