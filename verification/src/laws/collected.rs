//! What is read off the records of the AWS APIs.

use vstd::prelude::*;

use crate::collector::aws::ec2::{instance_attributes, is_gone, metadata_block, Instance};
use crate::collector::aws::ecs::{service_attributes, Service};
use crate::collector::aws::lambda::{function_attributes, FunctionConfiguration};
use crate::collector::aws::load_balancer::{load_balancer_attributes, LoadBalancer};
use crate::collector::aws::network_acl::{
    acl_attributes, configured_entries_only, entry_block, NetworkAcl, NetworkAclEntry,
};
use crate::collector::aws::rds::{db_instance_attributes, DbInstance};
use crate::collector::aws::security_group::{
    group_attributes, own_pair_is_self, rule_block, IpPermission, SecurityGroup,
};
use crate::collector::aws::target_group::{target_group_attributes, TargetGroup};
use crate::collector::aws::{given, tag_map, Tag};
use crate::json::{text_array, texts_among_members, Json, Numeral};
use crate::laws::declared::text_array_holds;
use crate::laws::{lists, says};
use crate::text::{after_last, not_after, sorted, texts, texts_are_totally_ordered};

verus! {

/// `text` is in a list, some of whose places may be empty.
pub open spec fn is_given(list: Seq<Option<String>>, text: Seq<char>) -> bool {
    exists|i: int| 0 <= i < list.len() && ((#[trigger] list[i]) matches Some(held) && held@ == text)
}

/// `text` is in a list.
pub open spec fn is_among(list: Seq<String>, text: Seq<char>) -> bool {
    exists|i: int| 0 <= i < list.len() && (#[trigger] list[i])@ == text
}

/// `value` has the text of `text` under `key`, an empty one when there is none.
pub open spec fn writes(value: Json, key: Seq<char>, text: Option<String>) -> bool {
    match text {
        Some(held) => says(value, key, held@),
        None => says(value, key, Seq::empty()),
    }
}

/// `value` has the number `number` under `key`, zero when there is none.
pub open spec fn numbers(value: Json, key: Seq<char>, number: Option<i32>) -> bool {
    match number {
        Some(n) => value.get(key) == Some(Json::Number(Numeral::Int(n as int))),
        None => value.get(key) == Some(Json::Number(Numeral::Int(0))),
    }
}

proof fn given_in_words(list: Seq<Option<String>>, text: Seq<char>)
    ensures
        given(list).contains(text) <==> is_given(list, text),
    decreases list.len(),
{
    broadcast use vstd::seq_lib::group_seq_properties;

    if list.len() > 0 {
        let rest = list.drop_last();
        given_in_words(rest, text);
        assert(list[list.len() - 1] == list.last());
        if is_given(rest, text) {
            let i = choose|i: int|
                0 <= i < rest.len() && ((#[trigger] rest[i]) matches Some(held) && held@ == text);
            assert(list[i] == rest[i]);
        }
        if is_given(list, text) {
            let i = choose|i: int|
                0 <= i < list.len() && ((#[trigger] list[i]) matches Some(held) && held@ == text);
            if i < rest.len() {
                assert(rest[i] == list[i]);
            }
        }
    }
}

proof fn texts_in_words(list: Seq<String>, text: Seq<char>)
    ensures
        texts(list).contains(text) <==> is_among(list, text),
{
    let all = texts(list);
    if all.contains(text) {
        let i = choose|i: int| 0 <= i < all.len() && all[i] == text;
        assert(list[i]@ == text);
    }
    if is_among(list, text) {
        let i = choose|i: int| 0 <= i < list.len() && (#[trigger] list[i])@ == text;
        assert(all[i] == text);
    }
}

proof fn given_array_holds(list: Seq<Option<String>>, text: Seq<char>)
    ensures
        text_array(given(list)) is Array,
        text_array(given(list))->Array_0.contains(Json::Text(text)) <==> is_given(list, text),
{
    given_in_words(list, text);
    text_array_holds(given(list), text);
}

proof fn array_holds(list: Seq<String>, text: Seq<char>)
    ensures
        text_array(texts(list)) is Array,
        text_array(texts(list))->Array_0.contains(Json::Text(text)) <==> is_among(list, text),
{
    texts_in_words(list, text);
    text_array_holds(texts(list), text);
}

/// The tag at `i` is the last one with the key `key`.
pub open spec fn is_last_tag(tags: Seq<Tag>, i: int, key: Seq<char>) -> bool {
    &&& 0 <= i < tags.len()
    &&& tags[i].key matches Some(own) && own@ == key
    &&& forall|j: int|
        i < j < tags.len() ==> !((#[trigger] tags[j]).key matches Some(other) && other@ == key)
}

/// Under each key is the value of the last tag with that key, empty where that has none, and there is
/// nothing under a key that no tag has.
pub proof fn the_last_tag_counts(tags: Seq<Tag>, key: Seq<char>)
    ensures
        forall|i: int| #[trigger]
            is_last_tag(tags, i, key) ==> writes(Json::Object(tag_map(tags)), key, tags[i].value),
        Json::Object(tag_map(tags)).get(key) is Some ==> exists|i: int|
            is_last_tag(tags, i, key),
    decreases tags.len(),
{
    if tags.len() > 0 {
        let rest = tags.drop_last();
        let n = tags.len() - 1;
        the_last_tag_counts(rest, key);
        assert(tags[n] == tags.last());
        assert forall|i: int| #[trigger] is_last_tag(tags, i, key) implies writes(
            Json::Object(tag_map(tags)),
            key,
            tags[i].value,
        ) by {
            if i < n {
                assert(rest[i] == tags[i]);
                assert forall|j: int| i < j < rest.len() implies !((
                #[trigger] rest[j]).key matches Some(other) && other@ == key) by {
                    assert(rest[j] == tags[j]);
                }
                assert(is_last_tag(rest, i, key));
            }
        }
        if Json::Object(tag_map(tags)).get(key) is Some {
            if tags[n].key matches Some(own) && own@ == key {
                assert(is_last_tag(tags, n, key));
            } else {
                let i = choose|i: int| is_last_tag(rest, i, key);
                assert(tags[i] == rest[i]);
                assert forall|j: int| i < j < tags.len() implies !((
                #[trigger] tags[j]).key matches Some(other) && other@ == key) by {
                    if j < n {
                        assert(tags[j] == rest[j]);
                    }
                }
                assert(is_last_tag(tags, i, key));
            }
        }
    }
}

proof fn tail_of_joined(front: Seq<char>, tail: Seq<char>, mark: char)
    requires
        !tail.contains(mark),
    ensures
        after_last(front + seq![mark] + tail, mark) == tail,
    decreases tail.len(),
{
    let whole = front + seq![mark] + tail;
    if tail.len() > 0 {
        let rest = tail.drop_last();
        assert(tail[tail.len() - 1] == tail.last());
        assert forall|i: int| 0 <= i < rest.len() implies rest[i] != mark by {
            assert(rest[i] == tail[i]);
        }
        tail_of_joined(front, rest, mark);
        assert(whole.drop_last() =~= front + seq![mark] + rest);
        assert(whole.last() == tail.last());
        assert(tail =~= rest.push(tail.last()));
    } else {
        assert(whole.last() == mark);
        assert(tail =~= Seq::empty());
    }
}

proof fn tail_of_unmarked(text: Seq<char>, mark: char)
    requires
        !text.contains(mark),
    ensures
        after_last(text, mark) == text,
    decreases text.len(),
{
    if text.len() > 0 {
        let rest = text.drop_last();
        assert(text[text.len() - 1] == text.last());
        assert forall|i: int| 0 <= i < rest.len() implies rest[i] != mark by {
            assert(rest[i] == text[i]);
        }
        tail_of_unmarked(rest, mark);
        assert(text =~= rest.push(text.last()));
    } else {
        assert(text =~= Seq::empty());
    }
}

proof fn instance_keys()
    ensures
        "id"@.len() == 2,
        "ami"@.len() == 3,
        "tags"@.len() == 4,
        "instance_type"@.len() == 13,
        "metadata_options"@.len() == 16,
        "iam_instance_profile"@.len() == 20,
        "vpc_security_group_ids"@.len() == 22,
{
    reveal_strlit("id");
    reveal_strlit("ami");
    reveal_strlit("tags");
    reveal_strlit("instance_type");
    reveal_strlit("metadata_options");
    reveal_strlit("iam_instance_profile");
    reveal_strlit("vpc_security_group_ids");
}

/// A terminated instance, or one that is shutting down, is as good as gone, and no other is.
pub proof fn ended_instances_are_gone(instance: Instance)
    ensures
        is_gone(instance) <==> (instance.state matches Some(state) && (state@ == "terminated"@
            || state@ == "shutting-down"@)),
{
}

/// An instance is collected with its type, its image, its tags, the groups it is attached to and the
/// name of its profile, which is what follows the last slash of the profile's ARN.
pub proof fn a_collected_instance(instance: Instance, id: Seq<char>, group: Seq<char>)
    ensures
        ({
            let value = Json::Object(instance_attributes(instance, id));
            &&& says(value, "id"@, id)
            &&& writes(value, "instance_type"@, instance.instance_type)
            &&& writes(value, "ami"@, instance.image_id)
            &&& value.get("tags"@) == Some(Json::Object(tag_map(instance.tags@)))
            &&& lists(value, "vpc_security_group_ids"@, group) <==> is_given(
                instance.security_groups@,
                group,
            )
            &&& instance.iam_instance_profile_arn is None ==> says(
                value,
                "iam_instance_profile"@,
                Seq::empty(),
            )
            &&& forall|front: Seq<char>, name: Seq<char>|
                #![trigger front + seq!['/'] + name]
                !name.contains('/') && (instance.iam_instance_profile_arn matches Some(arn) && arn@
                    == front + seq!['/'] + name) ==> says(value, "iam_instance_profile"@, name)
            &&& (instance.iam_instance_profile_arn matches Some(arn) && !arn@.contains('/')) ==> says(
                value,
                "iam_instance_profile"@,
                instance.iam_instance_profile_arn->0@,
            )
        }),
{
    instance_keys();
    let value = Json::Object(instance_attributes(instance, id));
    given_array_holds(instance.security_groups@, group);
    assert forall|front: Seq<char>, name: Seq<char>|
        #![trigger front + seq!['/'] + name]
        !name.contains('/') && (instance.iam_instance_profile_arn matches Some(arn) && arn@ == front
            + seq!['/'] + name) implies says(value, "iam_instance_profile"@, name) by {
        tail_of_joined(front, name, '/');
    }
    if let Some(arn) = instance.iam_instance_profile_arn {
        if !arn@.contains('/') {
            tail_of_unmarked(arn@, '/');
        }
    }
}

/// An instance with metadata options is collected with one block of them, and one without with none.
pub proof fn collected_metadata_options(instance: Instance, id: Seq<char>)
    ensures
        match instance.metadata_options {
            Some(options) => Json::Object(instance_attributes(instance, id)).get(
                "metadata_options"@,
            ) matches Some(Json::Array(blocks)) && blocks.len() == 1 && {
                &&& writes(blocks[0], "http_endpoint"@, options.http_endpoint)
                &&& writes(blocks[0], "http_tokens"@, options.http_tokens)
                &&& numbers(
                    blocks[0],
                    "http_put_response_hop_limit"@,
                    options.http_put_response_hop_limit,
                )
                &&& writes(blocks[0], "instance_metadata_tags"@, options.instance_metadata_tags)
            },
            None => Json::Object(instance_attributes(instance, id)).get("metadata_options"@) == Some(
                Json::Array(Seq::empty()),
            ),
        },
{
    instance_keys();
    reveal_strlit("http_endpoint");
    reveal_strlit("http_tokens");
    reveal_strlit("http_put_response_hop_limit");
    reveal_strlit("instance_metadata_tags");
    assert("http_endpoint"@.len() == 13 && "http_tokens"@.len() == 11);
    assert("http_put_response_hop_limit"@.len() == 27 && "instance_metadata_tags"@.len() == 22);
    assert(Json::Object(instance_attributes(instance, id)).get("metadata_options"@) == Some(
        metadata_block(instance.metadata_options),
    ));
}

/// A Lambda function carries, as collected, the groups of its VPC configuration, and none without
/// one.
pub proof fn a_collected_function(
    function: FunctionConfiguration,
    name: Seq<char>,
    group: Seq<char>,
)
    ensures
        says(Json::Object(function_attributes(function, name)), "id"@, name),
        lists(
            Json::Object(function_attributes(function, name)),
            "vpc_security_group_ids"@,
            group,
        ) <==> (function.vpc_security_group_ids matches Some(groups) && is_among(groups@, group)),
{
    instance_keys();
    if let Some(groups) = function.vpc_security_group_ids {
        array_holds(groups@, group);
    }
}

/// An ECS service carries, as collected, the groups of its `awsvpc` configuration, and none without
/// one.
pub proof fn a_collected_service(service: Service, arn: Seq<char>, group: Seq<char>)
    ensures
        says(Json::Object(service_attributes(service, arn)), "id"@, arn),
        lists(Json::Object(service_attributes(service, arn)), "vpc_security_group_ids"@, group)
            <==> (service.awsvpc_security_groups matches Some(groups) && is_among(groups@, group)),
{
    instance_keys();
    if let Some(groups) = service.awsvpc_security_groups {
        array_holds(groups@, group);
    }
}

/// An RDS instance carries, as collected, every group that it is a member of.
pub proof fn a_collected_db_instance(instance: DbInstance, id: Seq<char>, group: Seq<char>)
    ensures
        says(Json::Object(db_instance_attributes(instance, id)), "id"@, id),
        lists(
            Json::Object(db_instance_attributes(instance, id)),
            "vpc_security_group_ids"@,
            group,
        ) <==> is_given(instance.vpc_security_groups@, group),
{
    instance_keys();
    given_array_holds(instance.vpc_security_groups@, group);
}

/// A load balancer carries, as collected, the groups that it names.
pub proof fn a_collected_load_balancer(balancer: LoadBalancer, arn: Seq<char>, group: Seq<char>)
    ensures
        says(Json::Object(load_balancer_attributes(balancer, arn)), "id"@, arn),
        lists(Json::Object(load_balancer_attributes(balancer, arn)), "security_groups"@, group)
            <==> is_among(balancer.security_groups@, group),
{
    instance_keys();
    reveal_strlit("security_groups");
    assert("security_groups"@.len() == 15);
    array_holds(balancer.security_groups@, group);
}

/// A target group is collected with the load balancers that forward to it and the targets that it
/// was given.
pub proof fn a_collected_target_group(
    group: TargetGroup,
    targets: Seq<Seq<char>>,
    arn: Seq<char>,
    text: Seq<char>,
)
    ensures
        ({
            let value = Json::Object(target_group_attributes(group, targets, arn));
            &&& says(value, "id"@, arn)
            &&& lists(value, "load_balancer_arns"@, text) <==> is_among(
                group.load_balancer_arns@,
                text,
            )
            &&& lists(value, "targets"@, text) <==> targets.contains(text)
        }),
{
    instance_keys();
    reveal_strlit("load_balancer_arns");
    reveal_strlit("targets");
    assert("load_balancer_arns"@.len() == 18 && "targets"@.len() == 7);
    array_holds(group.load_balancer_arns@, text);
    text_array_holds(targets, text);
}

/// A security group is collected with its name, description, VPC, owner and tags, and with one rule
/// for each permission, in either direction.
pub proof fn a_collected_group(group: SecurityGroup, id: Seq<char>)
    ensures
        ({
            let value = Json::Object(group_attributes(group, id));
            &&& says(value, "id"@, id)
            &&& writes(value, "name"@, group.group_name)
            &&& writes(value, "description"@, group.description)
            &&& writes(value, "vpc_id"@, group.vpc_id)
            &&& writes(value, "owner_id"@, group.owner_id)
            &&& value.get("tags"@) == Some(Json::Object(tag_map(group.tags@)))
            &&& value.get("ingress"@) matches Some(Json::Array(rules)) && rules.len()
                == group.ip_permissions.len() && forall|i: int|
                0 <= i < rules.len() ==> #[trigger] rules[i] == rule_block(
                    group.ip_permissions[i],
                    id,
                )
            &&& value.get("egress"@) matches Some(Json::Array(rules)) && rules.len()
                == group.ip_permissions_egress.len() && forall|i: int|
                0 <= i < rules.len() ==> #[trigger] rules[i] == rule_block(
                    group.ip_permissions_egress[i],
                    id,
                )
        }),
{
    instance_keys();
    reveal_strlit("name");
    reveal_strlit("tags");
    reveal_strlit("description");
    reveal_strlit("vpc_id");
    reveal_strlit("owner_id");
    reveal_strlit("ingress");
    reveal_strlit("egress");
    assert("name"@.len() == 4 && "name"@[0] != "tags"@[0]);
    assert("description"@.len() == 11 && "owner_id"@.len() == 8 && "ingress"@.len() == 7);
    assert("vpc_id"@.len() == 6 && "egress"@.len() == 6 && "vpc_id"@[0] != "egress"@[0]);
}

/// A permission reads as a rule from each of its sources, on its ports and for its protocol, all of
/// them when it names none; a pair with the group itself is the rule's own flag.
pub proof fn a_collected_rule(permission: IpPermission, own: Seq<char>, source: Seq<char>)
    ensures
        ({
            let rule = rule_block(permission, own);
            &&& numbers(rule, "from_port"@, permission.from_port)
            &&& numbers(rule, "to_port"@, permission.to_port)
            &&& match permission.ip_protocol {
                Some(protocol) => says(rule, "protocol"@, protocol@),
                None => says(rule, "protocol"@, "-1"@),
            }
            &&& lists(rule, "cidr_blocks"@, source) <==> is_given(permission.ip_ranges@, source)
            &&& lists(rule, "ipv6_cidr_blocks"@, source) <==> is_given(
                permission.ipv6_ranges@,
                source,
            )
            &&& lists(rule, "prefix_list_ids"@, source) <==> is_given(
                permission.prefix_list_ids@,
                source,
            )
            &&& lists(rule, "security_groups"@, source) <==> source != own && is_given(
                permission.user_id_group_pairs@,
                source,
            )
            &&& rule.get("self"@) == Some(Json::Bool(is_given(permission.user_id_group_pairs@, own)))
        }),
{
    let rule = rule_block(permission, own);
    reveal_strlit("from_port");
    reveal_strlit("to_port");
    reveal_strlit("protocol");
    reveal_strlit("cidr_blocks");
    reveal_strlit("ipv6_cidr_blocks");
    reveal_strlit("prefix_list_ids");
    reveal_strlit("security_groups");
    reveal_strlit("self");
    assert("from_port"@.len() == 9 && "to_port"@.len() == 7 && "protocol"@.len() == 8);
    assert("cidr_blocks"@.len() == 11 && "ipv6_cidr_blocks"@.len() == 16 && "self"@.len() == 4);
    assert("prefix_list_ids"@.len() == 15 && "security_groups"@.len() == 15);
    assert("prefix_list_ids"@[0] != "security_groups"@[0]);
    given_array_holds(permission.ip_ranges@, source);
    given_array_holds(permission.ipv6_ranges@, source);
    given_array_holds(permission.prefix_list_ids@, source);
    given_in_words(permission.user_id_group_pairs@, source);
    given_in_words(permission.user_id_group_pairs@, own);
    own_pair_is_self(permission, own, source);
    if let Some(Json::Array(items)) = rule.get("security_groups"@) {
        texts_among_members(items, source);
    }
}

/// A network ACL is collected with its VPC, owner and tags, the subnets it is associated with, and its
/// entries in either direction, but for the two that AWS creates on every network ACL.
pub proof fn a_collected_acl(acl: NetworkAcl, id: Seq<char>, subnet: Seq<char>, block: Json)
    ensures
        ({
            let value = Json::Object(acl_attributes(acl, id));
            &&& says(value, "id"@, id)
            &&& writes(value, "vpc_id"@, acl.vpc_id)
            &&& writes(value, "owner_id"@, acl.owner_id)
            &&& value.get("tags"@) == Some(Json::Object(tag_map(acl.tags@)))
            &&& lists(value, "subnet_ids"@, subnet) <==> is_given(acl.associations@, subnet)
            &&& (value.get("ingress"@) matches Some(Json::Array(entries)) && entries.contains(block))
                <==> exists|i: int|
                0 <= i < acl.entries.len() && block == entry_block(#[trigger] acl.entries[i])
                    && acl.entries[i].egress != Some(true) && acl.entries[i].rule_number != Some(
                    32767i32,
                ) && acl.entries[i].rule_number != Some(32768i32)
            &&& (value.get("egress"@) matches Some(Json::Array(entries)) && entries.contains(block))
                <==> exists|i: int|
                0 <= i < acl.entries.len() && block == entry_block(#[trigger] acl.entries[i])
                    && acl.entries[i].egress == Some(true) && acl.entries[i].rule_number != Some(
                    32767i32,
                ) && acl.entries[i].rule_number != Some(32768i32)
        }),
{
    instance_keys();
    reveal_strlit("vpc_id");
    reveal_strlit("owner_id");
    reveal_strlit("subnet_ids");
    reveal_strlit("ingress");
    reveal_strlit("egress");
    assert("owner_id"@.len() == 8 && "ingress"@.len() == 7 && "subnet_ids"@.len() == 10);
    assert("vpc_id"@.len() == 6 && "egress"@.len() == 6 && "vpc_id"@[0] != "egress"@[0]);
    let subnets = given(acl.associations@);
    given_in_words(acl.associations@, subnet);
    sorting_keeps(subnets, subnet);
    text_array_holds(sorted(subnets), subnet);
    configured_entries_only(acl.entries@, false, block);
    configured_entries_only(acl.entries@, true, block);
}

proof fn sorting_keeps(list: Seq<Seq<char>>, text: Seq<char>)
    ensures
        sorted(list).contains(text) <==> list.contains(text),
{
    broadcast use vstd::seq_lib::group_to_multiset_ensures;

    texts_are_totally_ordered();
    list.lemma_sort_by_ensures(|a: Seq<char>, b: Seq<char>| not_after(a, b));
    assert(list.contains(text) <==> list.to_multiset().count(text) > 0);
    assert(sorted(list).contains(text) <==> sorted(list).to_multiset().count(text) > 0);
}

/// An entry reads with its number, action, protocol and source, with its port range and its ICMP type
/// and code, all of which are zero where it has none.
pub proof fn a_collected_entry(entry: NetworkAclEntry)
    ensures
        ({
            let block = entry_block(entry);
            &&& numbers(block, "rule_no"@, entry.rule_number)
            &&& writes(block, "action"@, entry.rule_action)
            &&& writes(block, "protocol"@, entry.protocol)
            &&& writes(block, "cidr_block"@, entry.cidr_block)
            &&& writes(block, "ipv6_cidr_block"@, entry.ipv6_cidr_block)
            &&& match entry.port_range {
                Some(range) => numbers(block, "from_port"@, range.from) && numbers(
                    block,
                    "to_port"@,
                    range.to,
                ),
                None => numbers(block, "from_port"@, None) && numbers(block, "to_port"@, None),
            }
            &&& match entry.icmp_type_code {
                Some(icmp) => numbers(block, "icmp_type"@, icmp.icmp_type) && numbers(
                    block,
                    "icmp_code"@,
                    icmp.code,
                ),
                None => numbers(block, "icmp_type"@, None) && numbers(block, "icmp_code"@, None),
            }
        }),
{
    reveal_strlit("rule_no");
    reveal_strlit("action");
    reveal_strlit("protocol");
    reveal_strlit("cidr_block");
    reveal_strlit("ipv6_cidr_block");
    reveal_strlit("from_port");
    reveal_strlit("to_port");
    reveal_strlit("icmp_type");
    reveal_strlit("icmp_code");
    assert("rule_no"@.len() == 7 && "to_port"@.len() == 7 && "rule_no"@[0] != "to_port"@[0]);
    assert("action"@.len() == 6 && "protocol"@.len() == 8);
    assert("cidr_block"@.len() == 10 && "ipv6_cidr_block"@.len() == 15);
    assert("from_port"@.len() == 9 && "icmp_type"@.len() == 9 && "icmp_code"@.len() == 9);
    assert("from_port"@[0] != "icmp_type"@[0] && "from_port"@[0] != "icmp_code"@[0]);
    assert("icmp_type"@[5] != "icmp_code"@[5]);
}

} // verus!
