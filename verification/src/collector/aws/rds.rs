//! AWS RDS instances, as `DescribeDBInstances` reports them, in the shape of `aws_db_instance`.
//!
//! **The join key is not the identifier or the ARN.** Terraform's `aws_db_instance.id` is
//! `DbiResourceId`, an immutable AWS-internal id. Keying on either of the others would silently break
//! the join between declared and live state for every RDS instance.
//!
//! **Deliberately minimal**: only `id` and `vpc_security_group_ids` are normalized.
//!
//! **Every VPC security group membership is included regardless of `status`** (`active`, `adding`,
//! `removing`, ...). Membership is a trust question, not a liveness one.

use vstd::prelude::*;

use crate::collector::aws::{given, given_array};
use crate::collector::{LiveResource, Observed};
use crate::json::{text_array, Json, JsonValue, Object};
use crate::types::resource::{Kind, ResourceKind};

verus! {

/// A DB instance.
#[derive(Debug)]
pub struct DbInstance {
    pub dbi_resource_id: Option<String>,
    /// The group id of each VPC security group membership.
    pub vpc_security_groups: Vec<Option<String>>,
}

/// The attributes of a DB instance.
pub open spec fn db_instance_attributes(instance: DbInstance, id: Seq<char>) -> Map<Seq<char>, Json> {
    map![
        "id"@ => Json::Text(id),
        "vpc_security_group_ids"@ => text_array(given(instance.vpc_security_groups@)),
    ]
}

/// Normalize one API-shaped DB instance into Terraform-state-shaped attributes. Returns `None` for an
/// instance with no `DbiResourceId` (never observed in practice, but the API models it as optional).
pub fn normalize(instance: &DbInstance) -> (r: Option<LiveResource>)
    ensures
        match r {
            Some(live) => instance.dbi_resource_id matches Some(id) && live@ == (Observed {
                cloud_id: id@,
                kind: Kind::AwsDbInstance,
                attributes: db_instance_attributes(*instance, id@),
            }),
            None => instance.dbi_resource_id is None,
        },
{
    let resource_id = match &instance.dbi_resource_id {
        Some(resource_id) => resource_id.clone(),
        None => return None,
    };
    let attributes = Object::new().with("id", JsonValue::from_text(resource_id.as_str())).with(
        "vpc_security_group_ids",
        given_array(&instance.vpc_security_groups),
    );
    Some(LiveResource { cloud_id: resource_id, kind: ResourceKind::AwsDbInstance, attributes })
}

} // verus!
