//! AWS security groups, as `DescribeSecurityGroups` reports them, in the shape of
//! `aws_security_group`.
//!
//! Normalization pitfalls handled here:
//! - protocol `"-1"` means "all"; Terraform stores it as the literal `"-1"`.
//! - `from_port`/`to_port` are absent on all-traffic permissions; Terraform stores them as `0`.
//! - AWS models a self-reference as a group pair whose group id equals the group's own id; Terraform
//!   models it as `self = true` and excludes the group from `security_groups`.
//! - AWS may group many sources under one permission where Terraform splits them into several blocks
//!   (and vice versa); the diff compares rules as exploded atoms, so grouping differences never
//!   register as drift.
//!
//! Not yet detected: per-rule description drift (AWS carries descriptions per source range, Terraform
//! per block).

use vstd::prelude::*;

use crate::collector::aws::{
    given, given_array, given_texts, int_json, number_or_zero, or_empty, or_zero, tag_map,
    tags_object, text_or_empty, Tag,
};
use crate::collector::{LiveResource, Observed};
use crate::json::{
    array_of, jsons, listed_texts, text_array, texts_of_text_array, value_view, Json, JsonValue,
    Object,
};
use crate::text::{same, texts};
use crate::types::resource::{Kind, ResourceKind};

verus! {

/// A permission of a security group.
#[derive(Debug)]
pub struct IpPermission {
    pub from_port: Option<i32>,
    pub to_port: Option<i32>,
    pub ip_protocol: Option<String>,
    /// The CIDR of each IPv4 range.
    pub ip_ranges: Vec<Option<String>>,
    /// The CIDR of each IPv6 range.
    pub ipv6_ranges: Vec<Option<String>>,
    /// The id of each prefix list.
    pub prefix_list_ids: Vec<Option<String>>,
    /// The group id of each group pair.
    pub user_id_group_pairs: Vec<Option<String>>,
}

/// A security group.
#[derive(Debug)]
pub struct SecurityGroup {
    pub group_id: Option<String>,
    pub group_name: Option<String>,
    pub description: Option<String>,
    pub vpc_id: Option<String>,
    pub owner_id: Option<String>,
    pub tags: Vec<Tag>,
    pub ip_permissions: Vec<IpPermission>,
    pub ip_permissions_egress: Vec<IpPermission>,
}

/// Being another group than `own`.
pub open spec fn other_than(own: Seq<char>) -> spec_fn(Seq<char>) -> bool {
    |group: Seq<char>| group != own
}

/// Those of some groups that are not the group `own`.
pub open spec fn other_groups(groups: Seq<Seq<char>>, own: Seq<char>) -> Seq<Seq<char>> {
    groups.filter(other_than(own))
}

/// A permission of the group `own` as a rule block.
pub open spec fn rule_block(permission: IpPermission, own: Seq<char>) -> Json {
    let groups = given(permission.user_id_group_pairs@);
    Json::Object(
        map![
            "from_port"@ => int_json(or_zero(permission.from_port)),
            "to_port"@ => int_json(or_zero(permission.to_port)),
            "protocol"@ => Json::Text(
                match permission.ip_protocol {
                    Some(protocol) => protocol@,
                    None => "-1"@,
                },
            ),
            "cidr_blocks"@ => text_array(given(permission.ip_ranges@)),
            "ipv6_cidr_blocks"@ => text_array(given(permission.ipv6_ranges@)),
            "prefix_list_ids"@ => text_array(given(permission.prefix_list_ids@)),
            "security_groups"@ => text_array(other_groups(groups, own)),
            "self"@ => Json::Bool(groups.contains(own)),
        ],
    )
}

/// The permissions of the group `own` as rule blocks.
pub open spec fn rule_blocks(permissions: Seq<IpPermission>, own: Seq<char>) -> Json {
    Json::Array(permissions.map_values(|permission: IpPermission| rule_block(permission, own)))
}

/// The attributes of a security group.
pub open spec fn group_attributes(group: SecurityGroup, id: Seq<char>) -> Map<Seq<char>, Json> {
    map![
        "id"@ => Json::Text(id),
        "name"@ => Json::Text(or_empty(group.group_name)),
        "description"@ => Json::Text(or_empty(group.description)),
        "vpc_id"@ => Json::Text(or_empty(group.vpc_id)),
        "owner_id"@ => Json::Text(or_empty(group.owner_id)),
        "tags"@ => Json::Object(tag_map(group.tags@)),
        "ingress"@ => rule_blocks(group.ip_permissions@, id),
        "egress"@ => rule_blocks(group.ip_permissions_egress@, id),
    ]
}

fn block_of(permission: &IpPermission, own_group_id: &str) -> (r: JsonValue)
    ensures
        r@ == rule_block(*permission, own_group_id@),
{
    broadcast use value_view;
    let groups = given_texts(&permission.user_id_group_pairs);
    let ghost all = texts(groups@);
    let ghost other = other_than(own_group_id@);
    let mut security_groups: Vec<String> = Vec::new();
    let mut self_reference = false;
    let mut i: usize = 0;
    assert(all.take(0) =~= Seq::empty());
    assert(texts(security_groups@) =~= all.take(0).filter(other)) by {
        reveal(Seq::filter);
    }
    while i < groups.len()
        invariant
            i <= groups.len(),
            all == texts(groups@),
            other == other_than(own_group_id@),
            texts(security_groups@) == all.take(i as int).filter(other),
            self_reference == all.take(i as int).contains(own_group_id@),
        decreases groups.len() - i,
    {
        let ghost before = security_groups@;
        let ghost prefix = all.take(i + 1);
        proof {
            assert(prefix.drop_last() =~= all.take(i as int));
            assert(prefix.last() == groups[i as int]@);
            reveal(Seq::filter);
        }
        if same(groups[i].as_str(), own_group_id) {
            self_reference = true;
            assert(prefix[i as int] == own_group_id@);
        } else {
            security_groups.push(groups[i].clone());
            assert(texts(security_groups@) =~= texts(before).push(groups[i as int]@));
            proof {
                if prefix.contains(own_group_id@) {
                    let k = choose|k: int| 0 <= k < prefix.len() && prefix[k] == own_group_id@;
                    assert(all.take(i as int)[k] == own_group_id@);
                }
                if all.take(i as int).contains(own_group_id@) {
                    let k = choose|k: int|
                        0 <= k < i && all.take(i as int)[k] == own_group_id@;
                    assert(prefix[k] == own_group_id@);
                }
            }
        }
        i += 1;
    }
    assert(all.take(i as int) =~= all);
    let protocol = match &permission.ip_protocol {
        Some(protocol) => protocol.clone(),
        None => "-1".to_owned(),
    };
    let block = Object::new().with("from_port", number_or_zero(permission.from_port)).with(
        "to_port",
        number_or_zero(permission.to_port),
    ).with("protocol", JsonValue::String(protocol)).with(
        "cidr_blocks",
        given_array(&permission.ip_ranges),
    ).with("ipv6_cidr_blocks", given_array(&permission.ipv6_ranges)).with(
        "prefix_list_ids",
        given_array(&permission.prefix_list_ids),
    ).with("security_groups", array_of(&security_groups)).with(
        "self",
        JsonValue::Bool(self_reference),
    );
    assert(block@ =~= rule_block(*permission, own_group_id@)->Object_0);
    JsonValue::Object(block)
}

/// The permissions of a group as rule blocks.
pub fn rules_to_value(permissions: &Vec<IpPermission>, own_group_id: &str) -> (r: JsonValue)
    ensures
        r@ == rule_blocks(permissions@, own_group_id@),
{
    broadcast use value_view;
    let mut blocks: Vec<JsonValue> = Vec::new();
    let mut i: usize = 0;
    while i < permissions.len()
        invariant
            i <= permissions.len(),
            blocks.len() == i,
            forall|j: int|
                0 <= j < i ==> (#[trigger] blocks[j])@ == rule_block(
                    permissions[j],
                    own_group_id@,
                ),
        decreases permissions.len() - i,
    {
        blocks.push(block_of(&permissions[i], own_group_id));
        i += 1;
    }
    assert(jsons(blocks@) =~= permissions@.map_values(
        |permission: IpPermission| rule_block(permission, own_group_id@),
    ));
    JsonValue::Array(blocks)
}

/// Normalize one API-shaped security group into Terraform-state-shaped attributes. Returns `None` for
/// a group with no id (never observed in practice, but the API models it as optional).
pub fn normalize(group: &SecurityGroup) -> (r: Option<LiveResource>)
    ensures
        match r {
            Some(live) => group.group_id matches Some(id) && live@ == (Observed {
                cloud_id: id@,
                kind: Kind::AwsSecurityGroup,
                attributes: group_attributes(*group, id@),
            }),
            None => group.group_id is None,
        },
{
    let group_id = match &group.group_id {
        Some(group_id) => group_id.clone(),
        None => return None,
    };
    let attributes = Object::new().with("id", JsonValue::from_text(group_id.as_str())).with(
        "name",
        text_or_empty(&group.group_name),
    ).with("description", text_or_empty(&group.description)).with(
        "vpc_id",
        text_or_empty(&group.vpc_id),
    ).with("owner_id", text_or_empty(&group.owner_id)).with("tags", tags_object(&group.tags)).with(
        "ingress",
        rules_to_value(&group.ip_permissions, group_id.as_str()),
    ).with("egress", rules_to_value(&group.ip_permissions_egress, group_id.as_str()));
    assert(attributes@ =~= group_attributes(*group, group_id@));
    Some(LiveResource { cloud_id: group_id, kind: ResourceKind::AwsSecurityGroup, attributes })
}

/// A pair with the group's own id is the `self` flag and not a group source; every other pair is a
/// group source.
pub proof fn own_pair_is_self(permission: IpPermission, own: Seq<char>, group: Seq<char>)
    ensures
        rule_block(permission, own).get("self"@) == Some(
            Json::Bool(given(permission.user_id_group_pairs@).contains(own)),
        ),
        listed_texts(rule_block(permission, own).get("security_groups"@)).contains(group) <==> (
        group != own && given(permission.user_id_group_pairs@).contains(group)),
{
    let groups = given(permission.user_id_group_pairs@);
    let other = other_than(own);
    reveal_strlit("security_groups");
    reveal_strlit("self");
    assert("security_groups"@.len() != "self"@.len());
    texts_of_text_array(other_groups(groups, own));
    assert(rule_block(permission, own).get("security_groups"@) == Some(
        text_array(other_groups(groups, own)),
    ));
    let kept = other_groups(groups, own);
    if kept.contains(group) {
        groups.lemma_filter_contains_rev(other, group);
        groups.lemma_filter_pred(other, kept.index_of(group));
    }
    if group != own && groups.contains(group) {
        groups.lemma_filter_contains(other, groups.index_of(group));
    }
}

} // verus!
