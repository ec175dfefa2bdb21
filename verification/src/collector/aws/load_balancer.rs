//! AWS load balancers (ALBs, NLBs, and GWLBs), as `DescribeLoadBalancers` reports them, in the shape
//! of `aws_lb`.
//!
//! **Deliberately minimal.** An ALB's ENI carries whatever security groups the load balancer names,
//! exactly like an EC2 instance carries `vpc_security_group_ids`, so only `id` (the ARN) and
//! `security_groups` are normalized.
//!
//! Network and Gateway Load Balancers commonly report an empty `security_groups` list; an empty list
//! just contributes no membership edges, same as an ALB with none attached.

use vstd::prelude::*;

use crate::collector::{LiveResource, Observed};
use crate::json::{array_of, text_array, Json, JsonValue, Object};
use crate::text::texts;
use crate::types::resource::{Kind, ResourceKind};

verus! {

/// A load balancer.
#[derive(Debug)]
pub struct LoadBalancer {
    pub load_balancer_arn: Option<String>,
    pub security_groups: Vec<String>,
}

/// The attributes of a load balancer.
pub open spec fn load_balancer_attributes(
    balancer: LoadBalancer,
    arn: Seq<char>,
) -> Map<Seq<char>, Json> {
    map![
        "id"@ => Json::Text(arn),
        "security_groups"@ => text_array(texts(balancer.security_groups@)),
    ]
}

/// Normalize one API-shaped load balancer into Terraform-state-shaped attributes. Returns `None` for
/// a load balancer with no ARN (never observed in practice, but the API models it as optional).
pub fn normalize(balancer: &LoadBalancer) -> (r: Option<LiveResource>)
    ensures
        match r {
            Some(live) => balancer.load_balancer_arn matches Some(arn) && live@ == (Observed {
                cloud_id: arn@,
                kind: Kind::AwsLoadBalancer,
                attributes: load_balancer_attributes(*balancer, arn@),
            }),
            None => balancer.load_balancer_arn is None,
        },
{
    let arn = match &balancer.load_balancer_arn {
        Some(arn) => arn.clone(),
        None => return None,
    };
    let attributes = Object::new().with("id", JsonValue::from_text(arn.as_str())).with(
        "security_groups",
        array_of(&balancer.security_groups),
    );
    Some(LiveResource { cloud_id: arn, kind: ResourceKind::AwsLoadBalancer, attributes })
}

} // verus!
