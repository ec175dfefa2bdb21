//! What is compared field by field, and what is said of it.

use vstd::prelude::*;

use crate::collector::{observation, observation_is_of_the_resource, Observed};
use crate::diff::behavioral::{
    behavioral_report, changed, compared_fields, drifts_are_reported_exactly, field_agrees,
    is_drift_of, without_cloud_id_not_checked,
};
use crate::diff::drift_report;
use crate::diff::rules::{atoms, contributions, list_atoms, siblings};
use crate::diff::semantic::laws::meaning_is_reported_exactly;
use crate::diff::semantic::Outcome;
use crate::json::{listed_texts, same_json, texts_among_members, Json};
use crate::laws::{lists, says};
use crate::types::drift::{Change, Finding, Severity, Unchecked};
use crate::types::resource::{Declared, Kind};

verus! {

/// The value under `key`, `null` when there is none.
pub open spec fn held(attributes: Map<Seq<char>, Json>, key: Seq<char>) -> Json {
    match Json::Object(attributes).get(key) {
        Some(value) => value,
        None => Json::Null,
    }
}

/// The tags that a resource is declared with: all of them where the state has them all, those of the
/// provider among them.
pub open spec fn declared_tags(attributes: Map<Seq<char>, Json>) -> Json {
    match Json::Object(attributes).get("tags_all"@) {
        Some(all) => all,
        None => held(attributes, "tags"@),
    }
}

/// What a resource declares for `field`.
pub open spec fn declared_as(resource: Declared, field: Seq<char>) -> Json {
    if field == "tags"@ {
        declared_tags(resource.attributes)
    } else {
        held(resource.attributes, field)
    }
}

/// One of two lists has a text that the other has not.
pub open spec fn lists_differ(a: Json, b: Json) -> bool {
    exists|text: Seq<char>| #[trigger] is_item(a, text) != is_item(b, text)
}

/// `value` is a list, and `text` is in it.
pub open spec fn is_item(value: Json, text: Seq<char>) -> bool {
    value matches Json::Array(items) && items.contains(Json::Text(text))
}

/// The option under `key` in the first block of a list of blocks.
pub open spec fn option(value: Json, key: Seq<char>) -> Option<Json> {
    match value {
        Json::Array(blocks) => if blocks.len() > 0 {
            blocks[0].get(key)
        } else {
            None
        },
        _ => None,
    }
}

/// Two blocks differ in the option under `key`: only one has it, or they have different values.
pub open spec fn options_differ(a: Json, b: Json, key: Seq<char>) -> bool {
    match (option(a, key), option(b, key)) {
        (Some(x), Some(y)) => !same_json(x, y),
        (None, None) => false,
        _ => true,
    }
}

/// A security group is not as declared in `field`: its name, its description, its VPC or its tags
/// differ, or its rules, whether they are declared inline or as resources of their own, say something
/// else.
pub open spec fn group_differs(
    declared: Seq<Declared>,
    resource: Declared,
    observed: Observed,
    field: Seq<char>,
) -> bool {
    ||| (field == "name"@ || field == "description"@ || field == "vpc_id"@) && !same_json(
        held(resource.attributes, field),
        held(observed.attributes, field),
    )
    ||| field == "tags"@ && !same_json(
        declared_tags(resource.attributes),
        held(observed.attributes, "tags"@),
    )
    ||| (field == "ingress"@ || field == "egress"@) && atoms(
        held(resource.attributes, field),
    ).union(list_atoms(contributions(siblings(declared), observed.cloud_id, field))) != atoms(
        held(observed.attributes, field),
    )
}

/// An instance is not as declared in `field`: its type, its image, its profile or its tags differ, it
/// is in other security groups, or one of the four options of its metadata service differs.
pub open spec fn instance_differs(
    resource: Declared,
    observed: Observed,
    field: Seq<char>,
) -> bool {
    let declared = held(resource.attributes, field);
    let actual = held(observed.attributes, field);
    ||| (field == "instance_type"@ || field == "ami"@ || field == "iam_instance_profile"@)
        && !same_json(declared, actual)
    ||| field == "tags"@ && !same_json(declared_tags(resource.attributes), actual)
    ||| field == "vpc_security_group_ids"@ && lists_differ(declared, actual)
    ||| field == "metadata_options"@ && (options_differ(declared, actual, "http_endpoint"@)
        || options_differ(declared, actual, "http_tokens"@) || options_differ(
        declared,
        actual,
        "http_put_response_hop_limit"@,
    ) || options_differ(declared, actual, "instance_metadata_tags"@))
}

/// The finding that `field` of a resource is not what was declared.
pub open spec fn field_finding(resource: Declared, observed: Observed, field: Seq<char>) -> Finding {
    Finding {
        resource: resource.id,
        change: Change::FieldChanged {
            field,
            declared: declared_as(resource, field),
            actual: held(observed.attributes, field),
        },
        severity: Severity::Medium,
    }
}

proof fn names_of_fields()
    ensures
        "name"@.len() == 4,
        "description"@.len() == 11,
        "vpc_id"@.len() == 6,
        "tags"@.len() == 4,
        "tags"@[0] == 't',
        "name"@[0] == 'n',
        "ingress"@.len() == 7,
        "egress"@.len() == 6,
        "egress"@[0] == 'e',
        "vpc_id"@[0] == 'v',
        "instance_type"@.len() == 13,
        "ami"@.len() == 3,
        "vpc_security_group_ids"@.len() == 22,
        "iam_instance_profile"@.len() == 20,
        "metadata_options"@.len() == 16,
{
    reveal_strlit("name");
    reveal_strlit("description");
    reveal_strlit("vpc_id");
    reveal_strlit("tags");
    reveal_strlit("ingress");
    reveal_strlit("egress");
    reveal_strlit("instance_type");
    reveal_strlit("ami");
    reveal_strlit("vpc_security_group_ids");
    reveal_strlit("iam_instance_profile");
    reveal_strlit("metadata_options");
}

proof fn sets_of_texts(a: Json, b: Json)
    ensures
        (listed_texts(Some(a)).to_set() != listed_texts(Some(b)).to_set()) == lists_differ(a, b),
{
    let x = listed_texts(Some(a));
    let y = listed_texts(Some(b));
    assert forall|text: Seq<char>| #[trigger] is_item(a, text) <==> x.to_set().contains(text) by {
        if let Json::Array(items) = a {
            texts_among_members(items, text);
        }
    }
    assert forall|text: Seq<char>| #[trigger] is_item(b, text) <==> y.to_set().contains(text) by {
        if let Json::Array(items) = b {
            texts_among_members(items, text);
        }
    }
    if x.to_set() != y.to_set() {
        assert(!(x.to_set() =~= y.to_set()));
        let text = choose|text: Seq<char>| x.to_set().contains(text) != y.to_set().contains(text);
        assert(is_item(a, text) != is_item(b, text));
    }
}

proof fn group_agreement(
    declared: Seq<Declared>,
    resource: Declared,
    observed: Observed,
    field: Seq<char>,
)
    requires
        field == "name"@ || field == "description"@ || field == "vpc_id"@ || field == "tags"@
            || field == "ingress"@ || field == "egress"@,
    ensures
        group_differs(declared, resource, observed, field) == !field_agrees(
            resource,
            observed,
            siblings(declared),
            field,
        ),
        changed(resource, observed, field) == field_finding(resource, observed, field),
{
    names_of_fields();
}

proof fn instance_agreement(
    declared: Seq<Declared>,
    resource: Declared,
    observed: Observed,
    field: Seq<char>,
)
    requires
        field == "instance_type"@ || field == "ami"@ || field == "tags"@ || field
            == "vpc_security_group_ids"@ || field == "iam_instance_profile"@ || field
            == "metadata_options"@,
    ensures
        instance_differs(resource, observed, field) == !field_agrees(
            resource,
            observed,
            siblings(declared),
            field,
        ),
        changed(resource, observed, field) == field_finding(resource, observed, field),
{
    names_of_fields();
    sets_of_texts(held(resource.attributes, field), held(observed.attributes, field));
}

proof fn reported_in_both(declared: Seq<Declared>, live: Seq<Observed>, finding: Finding)
    requires
        behavioral_report(declared, live).drifts.contains(finding),
    ensures
        drift_report(declared, live).drifts.contains(finding),
{
    meaning_is_reported_exactly(
        declared,
        live,
        behavioral_report(declared, live),
        Outcome::Drifted(finding),
    );
}

/// A declared security group that is in the account and is not as declared is reported: for each of
/// its name, description, VPC, tags, ingress and egress that differs there is a finding with both
/// values.
pub proof fn a_changed_group_is_reported(
    declared: Seq<Declared>,
    live: Seq<Observed>,
    n: int,
    id: Seq<char>,
    observed: Observed,
    field: Seq<char>,
)
    requires
        0 <= n < declared.len(),
        declared[n].kind == Kind::AwsSecurityGroup,
        says(Json::Object(declared[n].attributes), "id"@, id),
        observation(live, Kind::AwsSecurityGroup, id) == Some(observed),
        group_differs(declared, declared[n], observed, field),
    ensures
        behavioral_report(declared, live).drifts.contains(
            field_finding(declared[n], observed, field),
        ),
        drift_report(declared, live).drifts.contains(field_finding(declared[n], observed, field)),
{
    let resource = declared[n];
    let fields = compared_fields(resource.kind);
    let finding = field_finding(resource, observed, field);
    group_agreement(declared, resource, observed, field);
    let k = if field == "name"@ {
        0
    } else if field == "description"@ {
        1
    } else if field == "vpc_id"@ {
        2
    } else if field == "tags"@ {
        3
    } else if field == "ingress"@ {
        4
    } else {
        5int
    };
    assert(fields[k] == field);
    assert(is_drift_of(resource, live, siblings(declared), finding));
    drifts_are_reported_exactly(declared, live, siblings(declared), finding);
    reported_in_both(declared, live, finding);
}

/// A declared instance that is in the account and is not as declared is reported: for each of its
/// type, image, tags, security groups, profile and metadata options that differs there is a finding
/// with both values.
pub proof fn a_changed_instance_is_reported(
    declared: Seq<Declared>,
    live: Seq<Observed>,
    n: int,
    id: Seq<char>,
    observed: Observed,
    field: Seq<char>,
)
    requires
        0 <= n < declared.len(),
        declared[n].kind == Kind::AwsInstance,
        says(Json::Object(declared[n].attributes), "id"@, id),
        observation(live, Kind::AwsInstance, id) == Some(observed),
        instance_differs(declared[n], observed, field),
    ensures
        behavioral_report(declared, live).drifts.contains(
            field_finding(declared[n], observed, field),
        ),
        drift_report(declared, live).drifts.contains(field_finding(declared[n], observed, field)),
{
    let resource = declared[n];
    let fields = compared_fields(resource.kind);
    let finding = field_finding(resource, observed, field);
    instance_agreement(declared, resource, observed, field);
    let k = if field == "instance_type"@ {
        0
    } else if field == "ami"@ {
        1
    } else if field == "tags"@ {
        2
    } else if field == "vpc_security_group_ids"@ {
        3
    } else if field == "iam_instance_profile"@ {
        4
    } else {
        5int
    };
    assert(fields[k] == field);
    assert(is_drift_of(resource, live, siblings(declared), finding));
    drifts_are_reported_exactly(declared, live, siblings(declared), finding);
    reported_in_both(declared, live, finding);
}

/// There is nothing of this kind with this cloud ID in an account.
pub open spec fn is_absent(live: Seq<Observed>, kind: Kind, id: Seq<char>) -> bool {
    forall|i: int|
        0 <= i < live.len() ==> (#[trigger] live[i]).kind != kind || live[i].cloud_id != id
}

/// The finding that a resource is not in the account.
pub open spec fn missing_finding(resource: Declared) -> Finding {
    Finding { resource: resource.id, change: Change::Missing, severity: Severity::High }
}

/// A declared security group or instance that the account has nothing of is reported missing.
pub proof fn a_missing_resource_is_reported(
    declared: Seq<Declared>,
    live: Seq<Observed>,
    n: int,
    id: Seq<char>,
)
    requires
        0 <= n < declared.len(),
        declared[n].kind == Kind::AwsSecurityGroup || declared[n].kind == Kind::AwsInstance,
        says(Json::Object(declared[n].attributes), "id"@, id),
        is_absent(live, declared[n].kind, id),
    ensures
        behavioral_report(declared, live).drifts.contains(missing_finding(declared[n])),
        drift_report(declared, live).drifts.contains(missing_finding(declared[n])),
{
    let resource = declared[n];
    let finding = missing_finding(resource);
    observation_is_of_the_resource(live, resource.kind, id);
    if let Some(observed) = observation(live, resource.kind, id) {
        let i = choose|i: int| 0 <= i < live.len() && live[i] == observed;
        assert(live[i].kind == resource.kind);
    }
    assert(is_drift_of(resource, live, siblings(declared), finding));
    drifts_are_reported_exactly(declared, live, siblings(declared), finding);
    reported_in_both(declared, live, finding);
}

/// A declared security group or instance without a cloud ID is listed as one that could not be
/// checked.
pub proof fn a_resource_without_an_id_is_listed(
    declared: Seq<Declared>,
    live: Seq<Observed>,
    n: int,
)
    requires
        0 <= n < declared.len(),
        declared[n].kind == Kind::AwsSecurityGroup || declared[n].kind == Kind::AwsInstance,
        !(Json::Object(declared[n].attributes).get("id"@) matches Some(Json::Text(_))),
    ensures
        behavioral_report(declared, live).unjoinable.contains(
            Unchecked {
                resource: declared[n].id,
                reason: "no cloud id recorded in state (attributes[\"id\"] missing or not a string)"@,
            },
        ),
{
    without_cloud_id_not_checked(declared, n, live, siblings(declared));
}

/// `finding` is called for by a declared resource: a security group or an instance that the account
/// has nothing of, or one that the account has and that differs in a field.
pub open spec fn is_called_for(
    declared: Seq<Declared>,
    live: Seq<Observed>,
    finding: Finding,
    n: int,
    id: Seq<char>,
) -> bool {
    let resource = declared[n];
    says(Json::Object(resource.attributes), "id"@, id) && {
        ||| (resource.kind == Kind::AwsSecurityGroup || resource.kind == Kind::AwsInstance)
            && is_absent(live, resource.kind, id) && finding == missing_finding(resource)
        ||| resource.kind == Kind::AwsSecurityGroup && (observation(
            live,
            Kind::AwsSecurityGroup,
            id,
        ) matches Some(observed) && exists|field: Seq<char>| #[trigger]
            group_differs(declared, resource, observed, field) && finding == field_finding(
                resource,
                observed,
                field,
            ))
        ||| resource.kind == Kind::AwsInstance && (observation(
            live,
            Kind::AwsInstance,
            id,
        ) matches Some(observed) && exists|field: Seq<char>| #[trigger]
            instance_differs(resource, observed, field) && finding == field_finding(
                resource,
                observed,
                field,
            ))
    }
}

/// Nothing else is reported: every finding is called for by a declared resource.
pub proof fn every_finding_is_called_for(
    declared: Seq<Declared>,
    live: Seq<Observed>,
    finding: Finding,
)
    requires
        behavioral_report(declared, live).drifts.contains(finding),
    ensures
        exists|n: int, id: Seq<char>|
            0 <= n < declared.len() && #[trigger] is_called_for(declared, live, finding, n, id),
{
    let rules = siblings(declared);
    drifts_are_reported_exactly(declared, live, rules, finding);
    let n = choose|n: int|
        0 <= n < declared.len() && is_drift_of(#[trigger] declared[n], live, rules, finding);
    let resource = declared[n];
    let id = resource.cloud_id()->0;
    observation_is_of_the_resource(live, resource.kind, id);
    if let Some(observed) = observation(live, resource.kind, id) {
        let fields = compared_fields(resource.kind);
        let k = choose|k: int|
            0 <= k < fields.len() && !field_agrees(
                resource,
                observed,
                rules,
                #[trigger] fields[k],
            ) && finding == changed(resource, observed, fields[k]);
        if resource.kind == Kind::AwsSecurityGroup {
            group_agreement(declared, resource, observed, fields[k]);
            assert(group_differs(declared, resource, observed, fields[k]));
        } else {
            instance_agreement(declared, resource, observed, fields[k]);
            assert(instance_differs(resource, observed, fields[k]));
        }
    }
    assert(is_called_for(declared, live, finding, n, id));
}

/// Of two observations of one resource the later counts, and what else is observed does not matter.
pub proof fn the_latest_observation_counts(
    live: Seq<Observed>,
    more: Observed,
    kind: Kind,
    id: Seq<char>,
)
    ensures
        more.kind == kind && more.cloud_id == id ==> observation(live.push(more), kind, id) == Some(
            more,
        ),
        more.kind != kind || more.cloud_id != id ==> observation(live.push(more), kind, id)
            == observation(live, kind, id),
{
    assert(live.push(more).drop_last() =~= live);
}

} // verus!
