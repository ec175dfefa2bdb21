//! Collectors: what live backends report, in the shape Terraform records it.
//!
//! Fetching is left to the program; turning what was fetched into attributes that compare like
//! against like is here.

pub mod aws;

use vstd::prelude::*;

use crate::json::{Json, Object};
use crate::types::resource::{Kind, ResourceKind};

verus! {

/// A resource as observed live, keyed by its cloud-assigned identifier.
#[derive(Debug)]
pub struct LiveResource {
    pub cloud_id: String,
    pub kind: ResourceKind,
    /// The attribute values, under the names Terraform state uses.
    pub attributes: Object,
}

/// What a [`LiveResource`] denotes.
pub struct Observed {
    pub cloud_id: Seq<char>,
    pub kind: Kind,
    pub attributes: Map<Seq<char>, Json>,
}

impl View for LiveResource {
    type V = Observed;

    open spec fn view(&self) -> Observed {
        Observed {
            cloud_id: self.cloud_id@,
            kind: self.kind@,
            attributes: self.attributes@,
        }
    }
}

impl Clone for LiveResource {
    fn clone(&self) -> (r: Self)
        ensures
            r@ == self@,
    {
        LiveResource {
            cloud_id: self.cloud_id.clone(),
            kind: self.kind.clone(),
            attributes: self.attributes.clone(),
        }
    }
}

/// What each of a list of observations denotes.
pub open spec fn observed_views(live: Seq<LiveResource>) -> Seq<Observed> {
    live.map_values(|l: LiveResource| l@)
}

/// The last observation of a resource of this kind with this cloud id.
pub open spec fn observation(live: Seq<Observed>, kind: Kind, cloud_id: Seq<char>) -> Option<
    Observed,
>
    decreases live.len(),
{
    if live.len() == 0 {
        None
    } else if live.last().kind == kind && live.last().cloud_id == cloud_id {
        Some(live.last())
    } else {
        observation(live.drop_last(), kind, cloud_id)
    }
}

/// What is found as the observation of a resource is an observation of it, and where nothing is
/// found there is none.
pub proof fn observation_is_of_the_resource(live: Seq<Observed>, kind: Kind, cloud_id: Seq<char>)
    ensures
        match observation(live, kind, cloud_id) {
            Some(observed) => observed.kind == kind && observed.cloud_id == cloud_id
                && live.contains(observed),
            None => forall|i: int|
                0 <= i < live.len() ==> (#[trigger] live[i]).kind != kind || live[i].cloud_id
                    != cloud_id,
        },
    decreases live.len(),
{
    if live.len() > 0 {
        let rest = live.drop_last();
        observation_is_of_the_resource(rest, kind, cloud_id);
        match observation(live, kind, cloud_id) {
            Some(observed) => {
                if live.last().kind == kind && live.last().cloud_id == cloud_id {
                    assert(live[live.len() - 1] == observed);
                } else {
                    let i = choose|i: int| 0 <= i < rest.len() && rest[i] == observed;
                    assert(live[i] == observed);
                }
            },
            None => {
                assert forall|i: int| 0 <= i < live.len() implies (#[trigger] live[i]).kind != kind
                    || live[i].cloud_id != cloud_id by {
                    if i < rest.len() {
                        assert(rest[i] == live[i]);
                    }
                }
            },
        }
    }
}

} // verus!
