//! AWS Lambda functions, as `ListFunctions` reports them, in the shape of `aws_lambda_function`.
//!
//! **Deliberately minimal**: a VPC-attached Lambda function's ENI carries whatever security groups
//! its `vpc_config` names, exactly like an instance carries `vpc_security_group_ids`, so only `id`
//! (the function name) and `vpc_security_group_ids` are normalized.
//!
//! Most functions aren't VPC-attached at all, so `vpc_config` is commonly absent: that normalizes to
//! an empty membership list, not a skipped function; a function gaining VPC config outside Terraform
//! is itself real drift to catch.

use vstd::prelude::*;

use crate::collector::{LiveResource, Observed};
use crate::json::{array_of, text_array, Json, JsonValue, Object};
use crate::text::texts;
use crate::types::resource::{Kind, ResourceKind};

verus! {

/// A function.
#[derive(Debug)]
pub struct FunctionConfiguration {
    pub function_name: Option<String>,
    /// The security groups of the VPC config, when there is one.
    pub vpc_security_group_ids: Option<Vec<String>>,
}

/// The texts of an optional list, none when there is no list.
pub open spec fn listed_or_none(list: Option<Vec<String>>) -> Seq<Seq<char>> {
    match list {
        Some(list) => texts(list@),
        None => Seq::empty(),
    }
}

pub(crate) fn array_or_empty(list: &Option<Vec<String>>) -> (r: JsonValue)
    ensures
        r@ == text_array(listed_or_none(*list)),
{
    match list {
        Some(list) => array_of(list),
        None => {
            let nothing: Vec<String> = Vec::new();
            assert(texts(nothing@) =~= Seq::empty());
            array_of(&nothing)
        },
    }
}

/// The attributes of a function.
pub open spec fn function_attributes(
    function: FunctionConfiguration,
    name: Seq<char>,
) -> Map<Seq<char>, Json> {
    map![
        "id"@ => Json::Text(name),
        "vpc_security_group_ids"@ => text_array(listed_or_none(function.vpc_security_group_ids)),
    ]
}

/// Normalize one API-shaped function into Terraform-state-shaped attributes. Returns `None` for a
/// function with no name (never observed in practice, but the API models it as optional).
pub fn normalize(function: &FunctionConfiguration) -> (r: Option<LiveResource>)
    ensures
        match r {
            Some(live) => function.function_name matches Some(name) && live@ == (Observed {
                cloud_id: name@,
                kind: Kind::AwsLambdaFunction,
                attributes: function_attributes(*function, name@),
            }),
            None => function.function_name is None,
        },
{
    let name = match &function.function_name {
        Some(name) => name.clone(),
        None => return None,
    };
    let attributes = Object::new().with("id", JsonValue::from_text(name.as_str())).with(
        "vpc_security_group_ids",
        array_or_empty(&function.vpc_security_group_ids),
    );
    Some(LiveResource { cloud_id: name, kind: ResourceKind::AwsLambdaFunction, attributes })
}

} // verus!
