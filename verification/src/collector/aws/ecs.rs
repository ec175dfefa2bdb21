//! AWS ECS services, as `DescribeServices` reports them, in the shape of `aws_ecs_service`.
//!
//! **Why the subject is the service, not the task.** A running task carries no security groups at
//! all. Security groups for `awsvpc`-mode tasks live on the *service* that runs them; every task under
//! that service inherits it.
//!
//! **The walk is not a choice.** Services are enumerated per cluster, and `DescribeServices` accepts
//! at most ten service ARNs per call, so the listed ARNs are taken in batches.
//!
//! **Deliberately minimal**: only `id` (the service ARN) and `vpc_security_group_ids` are normalized.
//!
//! Services not running in `awsvpc` mode don't carry a per-service security-group list: that
//! normalizes to an empty membership list, not a skipped service.

use vstd::prelude::*;

use crate::collector::aws::lambda::{array_or_empty, listed_or_none};
use crate::collector::{LiveResource, Observed};
use crate::json::{text_array, Json, JsonValue, Object};
use crate::text::texts;
use crate::types::resource::{Kind, ResourceKind};

verus! {

/// `DescribeServices` accepts at most this many service ARNs per call.
pub const DESCRIBE_SERVICES_BATCH_SIZE: usize = 10;

/// A service.
#[derive(Debug)]
pub struct Service {
    pub service_arn: Option<String>,
    /// The security groups of the `awsvpc` configuration, when there is one.
    pub awsvpc_security_groups: Option<Vec<String>>,
}

/// What some batches hold, one after the other.
pub open spec fn flat(batches: Seq<Vec<String>>) -> Seq<Seq<char>>
    decreases batches.len(),
{
    if batches.len() == 0 {
        Seq::empty()
    } else {
        flat(batches.drop_last()) + texts(batches.last()@)
    }
}

/// Service ARNs in batches that `DescribeServices` accepts: in their order, each batch full but for
/// the last.
pub fn batches(service_arns: &Vec<String>) -> (r: Vec<Vec<String>>)
    ensures
        flat(r@) == texts(service_arns@),
        forall|i: int|
            0 <= i < r.len() - 1 ==> (#[trigger] r[i])@.len() == DESCRIBE_SERVICES_BATCH_SIZE,
        r.len() > 0 ==> 0 < r[r.len() - 1]@.len() <= DESCRIBE_SERVICES_BATCH_SIZE,
        forall|i: int| 0 <= i < r.len() ==> 0 < (#[trigger] r[i])@.len() <= 10,
{
    let ghost all = texts(service_arns@);
    let mut done: Vec<Vec<String>> = Vec::new();
    let mut batch: Vec<String> = Vec::new();
    let mut i: usize = 0;
    assert(flat(done@) + texts(batch@) =~= all.take(0));
    while i < service_arns.len()
        invariant
            i <= service_arns.len(),
            all == texts(service_arns@),
            flat(done@) + texts(batch@) == all.take(i as int),
            forall|k: int|
                0 <= k < done.len() ==> (#[trigger] done[k])@.len() == DESCRIBE_SERVICES_BATCH_SIZE,
            batch.len() <= DESCRIBE_SERVICES_BATCH_SIZE,
            i > 0 ==> batch.len() > 0,
            i == 0 ==> done.len() == 0,
        decreases service_arns.len() - i,
    {
        if batch.len() == DESCRIBE_SERVICES_BATCH_SIZE {
            let ghost before = done@;
            let ghost full = batch;
            done.push(batch);
            batch = Vec::new();
            proof {
                assert(done@.drop_last() =~= before);
                assert(flat(done@) =~= flat(before) + texts(full@));
                assert(flat(done@) + texts(batch@) =~= all.take(i as int));
            }
        }
        let ghost held = batch@;
        batch.push(service_arns[i].clone());
        proof {
            assert(texts(batch@) =~= texts(held).push(service_arns[i as int]@));
            assert(all.take(i + 1) =~= all.take(i as int).push(all[i as int]));
            assert(flat(done@) + texts(batch@) =~= all.take(i + 1));
        }
        i += 1;
    }
    assert(all.take(i as int) =~= all);
    if batch.len() > 0 {
        let ghost before = done@;
        let ghost rest = batch;
        done.push(batch);
        proof {
            assert(done@.drop_last() =~= before);
            assert(flat(done@) =~= flat(before) + texts(rest@));
        }
    } else {
        assert(flat(done@) + texts(batch@) =~= flat(done@));
    }
    done
}

/// The attributes of a service.
pub open spec fn service_attributes(service: Service, arn: Seq<char>) -> Map<Seq<char>, Json> {
    map![
        "id"@ => Json::Text(arn),
        "vpc_security_group_ids"@ => text_array(listed_or_none(service.awsvpc_security_groups)),
    ]
}

/// Normalize one API-shaped service into Terraform-state-shaped attributes. Returns `None` for a
/// service with no ARN (never observed in practice, but the API models it as optional).
pub fn normalize(service: &Service) -> (r: Option<LiveResource>)
    ensures
        match r {
            Some(live) => service.service_arn matches Some(arn) && live@ == (Observed {
                cloud_id: arn@,
                kind: Kind::AwsEcsService,
                attributes: service_attributes(*service, arn@),
            }),
            None => service.service_arn is None,
        },
{
    let arn = match &service.service_arn {
        Some(arn) => arn.clone(),
        None => return None,
    };
    let attributes = Object::new().with("id", JsonValue::from_text(arn.as_str())).with(
        "vpc_security_group_ids",
        array_or_empty(&service.awsvpc_security_groups),
    );
    Some(LiveResource { cloud_id: arn, kind: ResourceKind::AwsEcsService, attributes })
}

} // verus!
