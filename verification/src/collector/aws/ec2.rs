//! AWS EC2 instances, as `DescribeInstances` reports them, in the shape of `aws_instance`.
//!
//! Compared (the security-focused field set): `instance_type`, `ami`, `tags`,
//! `vpc_security_group_ids`, `iam_instance_profile`, and `metadata_options` (IMDSv2). Volatile
//! fields (`public_ip`, `private_ip`, public/private DNS, `instance_state`, `arn`) are never emitted
//! for comparison: they change on stop/start and would drown the signal.
//!
//! Normalization pitfalls handled here:
//! - Terminated / shutting-down instances are skipped. Such an instance is effectively gone, so the
//!   declared resource fails to join and is correctly reported as missing rather than matched to a
//!   dead box. Stopped instances are kept: their config is intact.
//! - `iam_instance_profile`: the API returns an ARN (`arn:aws:iam::123:instance-profile/NAME`) but
//!   Terraform state stores the bare NAME; the trailing segment is extracted. An unset profile is
//!   emitted as `""` to match Terraform's representation of an empty optional string.
//! - `metadata_options` is emitted as Terraform's canonical one-element block.

use vstd::prelude::*;

use crate::collector::aws::{
    given, given_array, int_json, number_or_zero, or_empty, or_zero, tag_map, tags_object,
    text_or_empty, Tag,
};
use crate::collector::{LiveResource, Observed};
use crate::json::{jsons, text_array, value_view, Json, JsonValue, Object};
use crate::text::{after_last, same, tail_after};
use crate::types::resource::{Kind, ResourceKind};

verus! {

/// The metadata options of an instance.
#[derive(Debug)]
pub struct MetadataOptions {
    pub http_endpoint: Option<String>,
    pub http_tokens: Option<String>,
    pub http_put_response_hop_limit: Option<i32>,
    pub instance_metadata_tags: Option<String>,
}

/// An instance.
#[derive(Debug)]
pub struct Instance {
    /// The name of the state, such as `running`.
    pub state: Option<String>,
    pub instance_id: Option<String>,
    pub instance_type: Option<String>,
    pub image_id: Option<String>,
    pub tags: Vec<Tag>,
    /// The id of each attached group.
    pub security_groups: Vec<Option<String>>,
    /// The ARN of the instance profile.
    pub iam_instance_profile_arn: Option<String>,
    pub metadata_options: Option<MetadataOptions>,
}

/// The instance is effectively gone.
pub open spec fn is_gone(instance: Instance) -> bool {
    instance.state matches Some(state) && (state@ == "terminated"@ || state@ == "shutting-down"@)
}

/// The metadata options as Terraform's block: a list of one, or of none when there are none.
pub open spec fn metadata_block(options: Option<MetadataOptions>) -> Json {
    match options {
        Some(options) => Json::Array(
            seq![
                Json::Object(
                    map![
                        "http_endpoint"@ => Json::Text(or_empty(options.http_endpoint)),
                        "http_tokens"@ => Json::Text(or_empty(options.http_tokens)),
                        "http_put_response_hop_limit"@ => int_json(
                            or_zero(options.http_put_response_hop_limit),
                        ),
                        "instance_metadata_tags"@ => Json::Text(
                            or_empty(options.instance_metadata_tags),
                        ),
                    ],
                ),
            ],
        ),
        None => Json::Array(Seq::empty()),
    }
}

/// The attributes of an instance.
pub open spec fn instance_attributes(instance: Instance, id: Seq<char>) -> Map<Seq<char>, Json> {
    map![
        "id"@ => Json::Text(id),
        "instance_type"@ => Json::Text(or_empty(instance.instance_type)),
        "ami"@ => Json::Text(or_empty(instance.image_id)),
        "tags"@ => Json::Object(tag_map(instance.tags@)),
        "vpc_security_group_ids"@ => text_array(given(instance.security_groups@)),
        "iam_instance_profile"@ => Json::Text(
            match instance.iam_instance_profile_arn {
                Some(arn) => after_last(arn@, '/'),
                None => Seq::empty(),
            },
        ),
        "metadata_options"@ => metadata_block(instance.metadata_options),
    ]
}

/// The bare instance-profile name from its ARN (`arn:aws:iam::123:instance-profile/NAME` -> `NAME`).
pub fn profile_name_from_arn(arn: &str) -> (r: &str)
    ensures
        r@ == after_last(arn@, '/'),
{
    tail_after(arn, '/')
}

/// Terraform models `metadata_options` as a one-element block; match that shape.
pub fn metadata_options(options: &Option<MetadataOptions>) -> (r: JsonValue)
    ensures
        r@ == metadata_block(*options),
{
    broadcast use value_view;
    let mut blocks: Vec<JsonValue> = Vec::new();
    if let Some(options) = options {
        let block = Object::new().with("http_endpoint", text_or_empty(&options.http_endpoint)).with(
            "http_tokens",
            text_or_empty(&options.http_tokens),
        ).with(
            "http_put_response_hop_limit",
            number_or_zero(options.http_put_response_hop_limit),
        ).with("instance_metadata_tags", text_or_empty(&options.instance_metadata_tags));
        assert(block@ =~= metadata_block(Some(*options))->Array_0[0]->Object_0);
        blocks.push(JsonValue::Object(block));
    }
    assert(jsons(blocks@) =~= metadata_block(*options)->Array_0);
    JsonValue::Array(blocks)
}

/// Normalize one API-shaped instance into Terraform-state-shaped attributes. Returns `None` for a
/// terminated/shutting-down instance (treated as gone) or one with no id.
pub fn normalize(instance: &Instance) -> (r: Option<LiveResource>)
    ensures
        match r {
            Some(live) => !is_gone(*instance) && (instance.instance_id matches Some(id) && live@
                == (Observed {
                cloud_id: id@,
                kind: Kind::AwsInstance,
                attributes: instance_attributes(*instance, id@),
            })),
            None => is_gone(*instance) || instance.instance_id is None,
        },
{
    broadcast use value_view;
    if let Some(state) = &instance.state {
        if same(state.as_str(), "terminated") || same(state.as_str(), "shutting-down") {
            return None;
        }
    }
    let instance_id = match &instance.instance_id {
        Some(instance_id) => instance_id.clone(),
        None => return None,
    };
    let profile = match &instance.iam_instance_profile_arn {
        Some(arn) => JsonValue::from_text(profile_name_from_arn(arn.as_str())),
        None => {
            let nothing = String::new();
            JsonValue::String(nothing)
        },
    };
    let attributes = Object::new().with("id", JsonValue::from_text(instance_id.as_str())).with(
        "instance_type",
        text_or_empty(&instance.instance_type),
    ).with("ami", text_or_empty(&instance.image_id)).with("tags", tags_object(&instance.tags)).with(
        "vpc_security_group_ids",
        given_array(&instance.security_groups),
    ).with("iam_instance_profile", profile).with(
        "metadata_options",
        metadata_options(&instance.metadata_options),
    );
    assert(attributes@ =~= instance_attributes(*instance, instance_id@));
    Some(LiveResource { cloud_id: instance_id, kind: ResourceKind::AwsInstance, attributes })
}

} // verus!
