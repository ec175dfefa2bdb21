//! AWS target groups, as `DescribeTargetGroups` and `DescribeTargetHealth` report them, in the shape
//! of `aws_lb_target_group`.
//!
//! An ALB being reachable doesn't mean anything is reachable *behind* it: that depends on what's
//! actually registered as a target.
//!
//! **Deliberately minimal**: only `id` (the ARN), `load_balancer_arns` (passed through: the API
//! already gives the owning load balancer directly), and `targets` are normalized.
//!
//! **`targets` is only populated for `instance`-type target groups.** `ip` targets aren't a resource
//! the graph models; `lambda` and `alb` targets need their own handling rather than being silently
//! misrepresented as instances.
//!
//! **Every registered target is included regardless of health state.** A target's health is a
//! liveness/routing concern, not a security boundary.

use vstd::prelude::*;

use crate::collector::aws::{given, given_texts};
use crate::collector::{LiveResource, Observed};
use crate::json::{array_of, text_array, Json, JsonValue, Object};
use crate::text::{same, texts};
use crate::types::resource::{Kind, ResourceKind};

verus! {

/// A target group.
#[derive(Debug)]
pub struct TargetGroup {
    pub target_group_arn: Option<String>,
    /// The name of the target type, such as `instance`.
    pub target_type: Option<String>,
    pub load_balancer_arns: Vec<String>,
}

/// Whether the registered targets of a group are to be looked up: they are where it has an ARN and
/// its targets are instances.
pub fn has_instance_targets(group: &TargetGroup) -> (r: bool)
    ensures
        r == (group.target_group_arn is Some && (group.target_type matches Some(named) && named@
            == "instance"@)),
{
    match (&group.target_group_arn, &group.target_type) {
        (Some(_), Some(named)) => same(named.as_str(), "instance"),
        _ => false,
    }
}

/// The instance ids among registered targets, regardless of health state.
pub fn target_ids(targets: &Vec<Option<String>>) -> (r: Vec<String>)
    ensures
        texts(r@) == given(targets@),
{
    given_texts(targets)
}

/// The attributes of a target group with these targets.
pub open spec fn target_group_attributes(
    group: TargetGroup,
    targets: Seq<Seq<char>>,
    arn: Seq<char>,
) -> Map<Seq<char>, Json> {
    map![
        "id"@ => Json::Text(arn),
        "load_balancer_arns"@ => text_array(texts(group.load_balancer_arns@)),
        "targets"@ => text_array(targets),
    ]
}

/// Normalize one API-shaped target group into Terraform-state-shaped attributes. Returns `None` for a
/// target group with no ARN (never observed in practice, but the API models it as optional).
pub fn normalize(group: &TargetGroup, targets: Vec<String>) -> (r: Option<LiveResource>)
    ensures
        match r {
            Some(live) => group.target_group_arn matches Some(arn) && live@ == (Observed {
                cloud_id: arn@,
                kind: Kind::AwsLbTargetGroup,
                attributes: target_group_attributes(*group, texts(targets@), arn@),
            }),
            None => group.target_group_arn is None,
        },
{
    let arn = match &group.target_group_arn {
        Some(arn) => arn.clone(),
        None => return None,
    };
    let attributes = Object::new().with("id", JsonValue::from_text(arn.as_str())).with(
        "load_balancer_arns",
        array_of(&group.load_balancer_arns),
    ).with("targets", array_of(&targets));
    Some(LiveResource { cloud_id: arn, kind: ResourceKind::AwsLbTargetGroup, attributes })
}

} // verus!
