//! Behavioral diff: field-by-field comparison of declared state against live observations.
//!
//! Declared resources are keyed by Terraform address, live observations by cloud ID, and the two
//! meet *only* here, via `Resource::cloud_id()`. A declared resource with no usable cloud ID is
//! neither skipped nor reported as missing: it lands in `DriftReport::unjoinable` so "no drift" and
//! "couldn't check" stay distinguishable.

use vstd::prelude::*;

use crate::collector::{
    observation, observation_is_of_the_resource, observed_views, LiveResource, Observed,
};
use crate::diff::rules::{
    atoms, contributions, explode_rules, list_atoms, siblings, Sibling, SiblingRules,
};
use crate::json::{
    listed_texts, maybe_json, same_json, same_json_reflexive, strings_of, value_view, Json,
    JsonValue, Object,
};
use crate::set::TextSet;
use crate::text::{same, texts};
use crate::types::drift::{
    Change, Drift, DriftKind, DriftReport, Finding, Report, Severity, Unchecked, Unjoinable,
};
use crate::types::resource::{declared_views, Declared, Kind, Resource, ResourceKind};

verus! {

/// The fields compared for a kind; none for the kinds that no collector covers.
pub open spec fn compared_fields(kind: Kind) -> Seq<Seq<char>> {
    match kind {
        Kind::AwsSecurityGroup => seq![
            "name"@,
            "description"@,
            "vpc_id"@,
            "tags"@,
            "ingress"@,
            "egress"@,
        ],
        Kind::AwsInstance => seq![
            "instance_type"@,
            "ami"@,
            "tags"@,
            "vpc_security_group_ids"@,
            "iam_instance_profile"@,
            "metadata_options"@,
        ],
        _ => Seq::empty(),
    }
}

/// The value under `key`, `null` when there is none.
pub open spec fn value_or_null(attributes: Map<Seq<char>, Json>, key: Seq<char>) -> Json {
    match Json::Object(attributes).get(key) {
        Some(value) => value,
        None => Json::Null,
    }
}

/// The declared value of a field. Terraform records provider default tags only in `tags_all`, and
/// the live side reports every tag, so `tags_all` is what `tags` is compared as where there is one.
pub open spec fn declared_value(attributes: Map<Seq<char>, Json>, field: Seq<char>) -> Json {
    if field == "tags"@ && attributes.contains_key("tags_all"@) {
        attributes["tags_all"@]
    } else {
        value_or_null(attributes, field)
    }
}

/// The option under `key` in a `metadata_options` value, which is a list of one block.
pub open spec fn metadata_option(value: Json, key: Seq<char>) -> Option<Json> {
    match value {
        Json::Array(blocks) => if blocks.len() > 0 {
            blocks[0].get(key)
        } else {
            None
        },
        _ => None,
    }
}

/// Both sides have no such option, or equal ones.
pub open spec fn same_option(declared: Json, actual: Json, key: Seq<char>) -> bool {
    match (metadata_option(declared, key), metadata_option(actual, key)) {
        (Some(a), Some(b)) => same_json(a, b),
        (None, None) => true,
        _ => false,
    }
}

/// The options that are understood agree. Others, such as those that a newer provider adds, are not
/// compared.
pub open spec fn same_metadata(declared: Json, actual: Json) -> bool {
    same_option(declared, actual, "http_endpoint"@) && same_option(
        declared,
        actual,
        "http_tokens"@,
    ) && same_option(declared, actual, "http_put_response_hop_limit"@) && same_option(
        declared,
        actual,
        "instance_metadata_tags"@,
    )
}

/// The declared value of a field agrees with the actual one: rule lists by their atoms, those of
/// `sibling_atoms` being declared as well, security group ids as a set, metadata options by the
/// options that are understood, and anything else by equality.
pub open spec fn agrees(
    field: Seq<char>,
    declared: Json,
    actual: Json,
    sibling_atoms: Set<Seq<char>>,
) -> bool {
    if field == "ingress"@ || field == "egress"@ {
        atoms(declared).union(sibling_atoms) == atoms(actual)
    } else if field == "vpc_security_group_ids"@ {
        listed_texts(Some(declared)).to_set() == listed_texts(Some(actual)).to_set()
    } else if field == "metadata_options"@ {
        same_metadata(declared, actual)
    } else {
        same_json(declared, actual)
    }
}

/// The field of a declared resource agrees with what was observed of it.
pub open spec fn field_agrees(
    declared: Declared,
    observed: Observed,
    rules: Seq<Sibling>,
    field: Seq<char>,
) -> bool {
    agrees(
        field,
        declared_value(declared.attributes, field),
        value_or_null(observed.attributes, field),
        list_atoms(contributions(rules, observed.cloud_id, field)),
    )
}

/// The finding of a field that does not agree: its two values.
pub open spec fn changed(declared: Declared, observed: Observed, field: Seq<char>) -> Finding {
    Finding {
        resource: declared.id,
        change: Change::FieldChanged {
            field,
            declared: declared_value(declared.attributes, field),
            actual: value_or_null(observed.attributes, field),
        },
        severity: Severity::Medium,
    }
}

/// The finding of a resource that was not observed.
pub open spec fn missing(declared: Declared) -> Finding {
    Finding { resource: declared.id, change: Change::Missing, severity: Severity::High }
}

/// The findings of the fields that do not agree, in the order of the fields.
pub open spec fn field_findings(
    declared: Declared,
    observed: Observed,
    rules: Seq<Sibling>,
    fields: Seq<Seq<char>>,
) -> Seq<Finding>
    decreases fields.len(),
{
    if fields.len() == 0 {
        Seq::empty()
    } else {
        let before = field_findings(declared, observed, rules, fields.drop_last());
        let field = fields.last();
        if field_agrees(declared, observed, rules, field) {
            before
        } else {
            before.push(changed(declared, observed, field))
        }
    }
}

/// Why a resource without a cloud id could not be checked.
pub open spec fn no_cloud_id() -> Seq<char> {
    "no cloud id recorded in state (attributes[\"id\"] missing or not a string)"@
}

/// The drift of one declared resource.
pub open spec fn resource_findings(
    declared: Declared,
    live: Seq<Observed>,
    rules: Seq<Sibling>,
) -> Seq<Finding> {
    let fields = compared_fields(declared.kind);
    match declared.cloud_id() {
        Some(cloud_id) => if fields.len() == 0 {
            Seq::empty()
        } else {
            match observation(live, declared.kind, cloud_id) {
                Some(observed) => field_findings(declared, observed, rules, fields),
                None => seq![missing(declared)],
            }
        },
        None => Seq::empty(),
    }
}

/// The resources that should be checked and have no cloud id, one after the other.
pub open spec fn unjoinable_among(declared: Seq<Declared>) -> Seq<Unchecked>
    decreases declared.len(),
{
    if declared.len() == 0 {
        Seq::empty()
    } else {
        let before = unjoinable_among(declared.drop_last());
        let last = declared.last();
        if compared_fields(last.kind).len() > 0 && last.cloud_id() is None {
            before.push(Unchecked { resource: last.id, reason: no_cloud_id() })
        } else {
            before
        }
    }
}

/// The drift of some declared resources, one after the other.
pub open spec fn findings_among(
    declared: Seq<Declared>,
    live: Seq<Observed>,
    rules: Seq<Sibling>,
) -> Seq<Finding>
    decreases declared.len(),
{
    if declared.len() == 0 {
        Seq::empty()
    } else {
        findings_among(declared.drop_last(), live, rules) + resource_findings(
            declared.last(),
            live,
            rules,
        )
    }
}

/// The report of the behavioral pass.
pub open spec fn behavioral_report(declared: Seq<Declared>, live: Seq<Observed>) -> Report {
    Report {
        drifts: findings_among(declared, live, siblings(declared)),
        unjoinable: unjoinable_among(declared),
        unresolved: Seq::empty(),
    }
}

fn fields_for(kind: &ResourceKind) -> (r: Vec<&'static str>)
    ensures
        r@.map_values(|field: &'static str| field@) == compared_fields(kind@),
{
    let r = match kind {
        ResourceKind::AwsSecurityGroup => vec![
            "name",
            "description",
            "vpc_id",
            "tags",
            "ingress",
            "egress",
        ],
        ResourceKind::AwsInstance => vec![
            "instance_type",
            "ami",
            "tags",
            "vpc_security_group_ids",
            "iam_instance_profile",
            "metadata_options",
        ],
        _ => Vec::new(),
    };
    assert(r@.map_values(|field: &'static str| field@) =~= compared_fields(kind@));
    r
}

/// Collect a JSON array of strings into a set, ignoring order and duplicates.
fn as_string_set(value: &JsonValue) -> (r: TextSet)
    ensures
        r@ == listed_texts(Some(value@)).to_set(),
{
    let list = strings_of(Some(value));
    let mut set = TextSet::new();
    let mut i: usize = 0;
    assert(texts(list@).take(0).to_set() =~= Set::empty());
    while i < list.len()
        invariant
            i <= list.len(),
            set@ == texts(list@).take(i as int).to_set(),
        decreases list.len() - i,
    {
        set.insert(list[i].clone());
        proof {
            let all = texts(list@);
            assert(all.take(i + 1) =~= all.take(i as int).push(all[i as int]));
            all.take(i as int).lemma_push_to_set_commute(all[i as int]);
        }
        i += 1;
    }
    assert(texts(list@).take(i as int) =~= texts(list@));
    set
}

fn get_option<'a>(value: &'a JsonValue, key: &str) -> (r: Option<&'a JsonValue>)
    ensures
        maybe_json(r) == metadata_option(value@, key@),
{
    broadcast use value_view;
    match value {
        JsonValue::Array(blocks) => if blocks.len() > 0 {
            blocks[0].get(key)
        } else {
            None
        },
        _ => None,
    }
}

fn equal_option(declared: &JsonValue, actual: &JsonValue, key: &str) -> (r: bool)
    ensures
        r == same_option(declared@, actual@, key@),
{
    match (get_option(declared, key), get_option(actual, key)) {
        (Some(a), Some(b)) => *a == *b,
        (None, None) => true,
        _ => false,
    }
}

fn equal_metadata(declared: &JsonValue, actual: &JsonValue) -> (r: bool)
    ensures
        r == same_metadata(declared@, actual@),
{
    equal_option(declared, actual, "http_endpoint") && equal_option(
        declared,
        actual,
        "http_tokens",
    ) && equal_option(declared, actual, "http_put_response_hop_limit") && equal_option(
        declared,
        actual,
        "instance_metadata_tags",
    )
}

fn get_or_null(attributes: &Object, key: &str) -> (r: JsonValue)
    ensures
        r@ == value_or_null(attributes@, key@),
{
    broadcast use value_view;
    match attributes.get(key) {
        Some(value) => value.clone(),
        None => JsonValue::Null,
    }
}

fn get_declared(attributes: &Object, field: &str) -> (r: JsonValue)
    ensures
        r@ == declared_value(attributes@, field@),
{
    if same(field, "tags") && attributes.contains_key("tags_all") {
        get_or_null(attributes, "tags_all")
    } else {
        get_or_null(attributes, field)
    }
}

/// Whether the declared value of a field agrees with the actual one.
pub fn fields_agree(
    field: &str,
    declared: &JsonValue,
    actual: &JsonValue,
    sibling_atoms: &TextSet,
) -> (r: bool)
    ensures
        r == agrees(field@, declared@, actual@, sibling_atoms@),
{
    if same(field, "ingress") || same(field, "egress") {
        let mut declared_atoms = explode_rules(declared);
        declared_atoms.extend(sibling_atoms);
        declared_atoms == explode_rules(actual)
    } else if same(field, "vpc_security_group_ids") {
        as_string_set(declared) == as_string_set(actual)
    } else if same(field, "metadata_options") {
        equal_metadata(declared, actual)
    } else {
        *declared == *actual
    }
}

fn find_observation<'a>(live: &'a [LiveResource], kind: &ResourceKind, cloud_id: &str) -> (r:
    Option<&'a LiveResource>)
    ensures
        match r {
            Some(found) => observation(observed_views(live@), kind@, cloud_id@) == Some(found@),
            None => observation(observed_views(live@), kind@, cloud_id@) is None,
        },
{
    let mut i: usize = live.len();
    assert(observed_views(live@).take(i as int) =~= observed_views(live@));
    while i > 0
        invariant
            i <= live.len(),
            observation(observed_views(live@), kind@, cloud_id@) == observation(
                observed_views(live@).take(i as int),
                kind@,
                cloud_id@,
            ),
        decreases i,
    {
        let ghost prefix = observed_views(live@).take(i as int);
        i -= 1;
        assert(prefix.drop_last() =~= observed_views(live@).take(i as int));
        assert(prefix.last() == live[i as int]@);
        if live[i].kind.same_as(kind) && same(live[i].cloud_id.as_str(), cloud_id) {
            return Some(&live[i]);
        }
    }
    None
}

fn check_fields(
    resource: &Resource,
    observed: &LiveResource,
    rules: &SiblingRules,
    report: &mut DriftReport,
)
    ensures
        final(report)@ == (Report {
            drifts: old(report)@.drifts + field_findings(
                resource@,
                observed@,
                rules@,
                compared_fields(resource.kind@),
            ),
            ..old(report)@
        }),
{
    let fields = fields_for(&resource.kind);
    let ghost names = compared_fields(resource.kind@);
    let mut i: usize = 0;
    assert(report@.drifts =~= old(report)@.drifts + Seq::<Finding>::empty());
    while i < fields.len()
        invariant
            i <= fields.len(),
            names == fields@.map_values(|field: &'static str| field@),
            report@ == (Report {
                drifts: old(report)@.drifts + field_findings(
                    resource@,
                    observed@,
                    rules@,
                    names.take(i as int),
                ),
                ..old(report)@
            }),
        decreases fields.len() - i,
    {
        let field = fields[i];
        let ghost before = report@;
        assert(names.take(i + 1).drop_last() =~= names.take(i as int));
        assert(names.take(i + 1).last() == field@);
        let declared = get_declared(&resource.attributes, field);
        let actual = get_or_null(&observed.attributes, field);
        let sibling_atoms = rules.atoms(observed.cloud_id.as_str(), field);
        if !fields_agree(field, &declared, &actual, &sibling_atoms) {
            let drift = Drift {
                resource: resource.id.clone(),
                kind: DriftKind::FieldChanged { field: field.to_owned(), declared, actual },
                severity: Severity::Medium,
            };
            let ghost finding = drift@;
            report.drifts.push(drift);
            assert(report@.drifts =~= before.drifts.push(finding));
            assert(report@.drifts =~= old(report)@.drifts + field_findings(
                resource@,
                observed@,
                rules@,
                names.take(i + 1),
            ));
        }
        i += 1;
    }
    assert(names.take(i as int) =~= names);
}

fn check_resource(
    resource: &Resource,
    live: &[LiveResource],
    rules: &SiblingRules,
    report: &mut DriftReport,
)
    ensures
        final(report)@.drifts == old(report)@.drifts + resource_findings(
            resource@,
            observed_views(live@),
            rules@,
        ),
        final(report)@.unjoinable == if compared_fields(resource.kind@).len() > 0
            && resource@.cloud_id() is None {
            old(report)@.unjoinable.push(
                Unchecked { resource: resource.id@, reason: no_cloud_id() },
            )
        } else {
            old(report)@.unjoinable
        },
        final(report)@.unresolved == old(report)@.unresolved,
{
    assert(old(report)@.drifts =~= old(report)@.drifts + Seq::<Finding>::empty());
    // Kinds no collector covers yet can't be checked either way.
    if fields_for(&resource.kind).len() == 0 {
        return;
    }
    match resource.cloud_id() {
        None => {
            let unjoinable = Unjoinable {
                resource: resource.id.clone(),
                reason: "no cloud id recorded in state (attributes[\"id\"] missing or not a string)".to_owned(),
            };
            let ghost unchecked = unjoinable@;
            report.unjoinable.push(unjoinable);
            assert(report@.unjoinable =~= old(report)@.unjoinable.push(unchecked));
        },
        Some(cloud_id) => match find_observation(live, &resource.kind, cloud_id) {
            None => {
                let drift = Drift {
                    resource: resource.id.clone(),
                    kind: DriftKind::Missing,
                    severity: Severity::High,
                };
                let ghost finding = drift@;
                report.drifts.push(drift);
                assert(report@.drifts =~= old(report)@.drifts + seq![finding]);
            },
            Some(observed) => check_fields(resource, observed, rules, report),
        },
    }
}

/// Compare declared resources against live observations and report drift.
pub fn compare(declared: &[Resource], live: &[LiveResource]) -> (r: DriftReport)
    ensures
        r@ == behavioral_report(declared_views(declared@), observed_views(live@)),
{
    let rules = SiblingRules::index(declared);
    let mut report = DriftReport::default();
    let mut i: usize = 0;
    while i < declared.len()
        invariant
            i <= declared.len(),
            report@.drifts == findings_among(
                declared_views(declared@).take(i as int),
                observed_views(live@),
                rules@,
            ),
            report@.unjoinable == unjoinable_among(declared_views(declared@).take(i as int)),
            report@.unresolved == Seq::<crate::types::drift::Unanswered>::empty(),
        decreases declared.len() - i,
    {
        let ghost prefix = declared_views(declared@).take(i + 1);
        assert(prefix.drop_last() =~= declared_views(declared@).take(i as int));
        assert(prefix.last() == declared[i as int]@);
        check_resource(&declared[i], live, &rules, &mut report);
        i += 1;
    }
    assert(declared_views(declared@).take(i as int) =~= declared_views(declared@));
    report
}

proof fn field_findings_shape(
    declared: Declared,
    observed: Observed,
    rules: Seq<Sibling>,
    fields: Seq<Seq<char>>,
)
    ensures
        forall|i: int|
            0 <= i < field_findings(declared, observed, rules, fields).len() ==> {
                let finding = #[trigger] field_findings(declared, observed, rules, fields)[i];
                &&& finding.resource == declared.id
                &&& finding.change matches Change::FieldChanged { field, .. }
                    && fields.contains(field)
                &&& !field_agrees(declared, observed, rules, finding.change->FieldChanged_field)
            },
    decreases fields.len(),
{
    if fields.len() > 0 {
        let rest = fields.drop_last();
        field_findings_shape(declared, observed, rules, rest);
        let before = field_findings(declared, observed, rules, rest);
        let all = field_findings(declared, observed, rules, fields);
        assert forall|i: int| 0 <= i < all.len() implies {
            let finding = #[trigger] all[i];
            &&& finding.resource == declared.id
            &&& finding.change matches Change::FieldChanged { field, .. } && fields.contains(field)
            &&& !field_agrees(declared, observed, rules, finding.change->FieldChanged_field)
        } by {
            if i < before.len() {
                assert(all[i] == before[i]);
                let field = before[i].change->FieldChanged_field;
                let k = choose|k: int| 0 <= k < rest.len() && rest[k] == field;
                assert(fields[k] == field);
            } else {
                assert(fields[fields.len() - 1] == fields.last());
            }
        }
    }
}

/// A resource is reported missing exactly when it is of a kind that is compared, has a cloud id,
/// and was not observed.
pub proof fn missing_means_not_observed(
    declared: Declared,
    live: Seq<Observed>,
    rules: Seq<Sibling>,
)
    ensures
        (exists|i: int|
            0 <= i < resource_findings(declared, live, rules).len() && (
            #[trigger] resource_findings(declared, live, rules)[i]).change is Missing) <==> (
        compared_fields(declared.kind).len() > 0 && (declared.cloud_id() matches Some(cloud_id)
            && forall|i: int|
            0 <= i < live.len() ==> (#[trigger] live[i]).kind != declared.kind || live[i].cloud_id
                != cloud_id)),
{
    let findings = resource_findings(declared, live, rules);
    match declared.cloud_id() {
        Some(cloud_id) => {
            observation_is_of_the_resource(live, declared.kind, cloud_id);
            match observation(live, declared.kind, cloud_id) {
                Some(observed) => {
                    field_findings_shape(
                        declared,
                        observed,
                        rules,
                        compared_fields(declared.kind),
                    );
                    let i = choose|i: int| 0 <= i < live.len() && live[i] == observed;
                    assert(live[i].kind == declared.kind);
                },
                None => {
                    if compared_fields(declared.kind).len() > 0 {
                        assert(findings[0].change is Missing);
                    }
                },
            }
        },
        None => {},
    }
}

/// A resource without a cloud id has no drift: it was not checked. It is listed as unjoinable when
/// its kind is one that is compared.
pub proof fn without_cloud_id_not_checked(
    declared: Seq<Declared>,
    i: int,
    live: Seq<Observed>,
    rules: Seq<Sibling>,
)
    requires
        0 <= i < declared.len(),
        declared[i].cloud_id() is None,
    ensures
        resource_findings(declared[i], live, rules) == Seq::<Finding>::empty(),
        compared_fields(declared[i].kind).len() > 0 ==> unjoinable_among(declared).contains(
            Unchecked { resource: declared[i].id, reason: no_cloud_id() },
        ),
    decreases declared.len(),
{
    if compared_fields(declared[i].kind).len() > 0 {
        let unchecked = Unchecked { resource: declared[i].id, reason: no_cloud_id() };
        if i == declared.len() - 1 {
            assert(unjoinable_among(declared).last() == unchecked);
        } else {
            let rest = declared.drop_last();
            assert(rest[i] == declared[i]);
            without_cloud_id_not_checked(rest, i, live, rules);
            let k = choose|k: int|
                0 <= k < unjoinable_among(rest).len() && unjoinable_among(rest)[k] == unchecked;
            assert(unjoinable_among(declared)[k] == unchecked);
        }
    }
}

/// A resource of a kind that no collector covers is neither drift nor unjoinable: without it the
/// report is the same.
pub proof fn uncovered_kinds_are_silent(
    declared: Seq<Declared>,
    more: Declared,
    live: Seq<Observed>,
    rules: Seq<Sibling>,
)
    requires
        compared_fields(more.kind).len() == 0,
    ensures
        findings_among(declared.push(more), live, rules) == findings_among(declared, live, rules),
        unjoinable_among(declared.push(more)) == unjoinable_among(declared),
{
    assert(declared.push(more).drop_last() =~= declared);
    assert(resource_findings(more, live, rules) =~= Seq::empty());
    assert(findings_among(declared.push(more), live, rules) =~= findings_among(
        declared,
        live,
        rules,
    ));
}

/// A resource observed exactly as it is declared does not drift: where every compared field has the
/// declared value, and no rule declared elsewhere adds to the group's own, there is no finding.
pub proof fn unchanged_means_no_drift(
    declared: Declared,
    observed: Observed,
    rules: Seq<Sibling>,
    fields: Seq<Seq<char>>,
)
    requires
        forall|i: int|
            0 <= i < fields.len() ==> declared_value(declared.attributes, #[trigger] fields[i])
                == value_or_null(observed.attributes, fields[i]),
        forall|i: int|
            0 <= i < fields.len() ==> contributions(
                rules,
                observed.cloud_id,
                #[trigger] fields[i],
            ).len() == 0,
    ensures
        field_findings(declared, observed, rules, fields) == Seq::<Finding>::empty(),
    decreases fields.len(),
{
    if fields.len() > 0 {
        let rest = fields.drop_last();
        assert forall|i: int| 0 <= i < rest.len() implies declared_value(
            declared.attributes,
            #[trigger] rest[i],
        ) == value_or_null(observed.attributes, rest[i]) by {
            assert(rest[i] == fields[i]);
        }
        assert forall|i: int| 0 <= i < rest.len() implies contributions(
            rules,
            observed.cloud_id,
            #[trigger] rest[i],
        ).len() == 0 by {
            assert(rest[i] == fields[i]);
        }
        unchanged_means_no_drift(declared, observed, rules, rest);
        let field = fields[fields.len() - 1];
        let value = declared_value(declared.attributes, field);
        same_json_reflexive(value);
        assert forall|key: Seq<char>| #[trigger] same_option(value, value, key) by {
            if let Some(option) = metadata_option(value, key) {
                same_json_reflexive(option);
            }
        }
        let nothing = contributions(rules, observed.cloud_id, field);
        assert(list_atoms(nothing) =~= Set::empty());
        assert(atoms(value).union(list_atoms(nothing)) =~= atoms(value));
    }
}

/// The behavioral pass finds missing resources and changed fields only, and resolves no relation.
pub proof fn only_behavioral(declared: Seq<Declared>, live: Seq<Observed>)
    ensures
        forall|i: int|
            0 <= i < behavioral_report(declared, live).drifts.len() ==> !((
            #[trigger] behavioral_report(declared, live).drifts[i]).change is SemanticChanged),
        behavioral_report(declared, live).unresolved.len() == 0,
{
    only_behavioral_among(declared, live, siblings(declared));
}

proof fn only_behavioral_among(declared: Seq<Declared>, live: Seq<Observed>, rules: Seq<Sibling>)
    ensures
        forall|i: int|
            0 <= i < findings_among(declared, live, rules).len() ==> !((#[trigger] findings_among(
                declared,
                live,
                rules,
            )[i]).change is SemanticChanged),
    decreases declared.len(),
{
    if declared.len() > 0 {
        let rest = declared.drop_last();
        let last = declared.last();
        only_behavioral_among(rest, live, rules);
        if let Some(cloud_id) = last.cloud_id() {
            if let Some(observed) = observation(live, last.kind, cloud_id) {
                field_findings_shape(last, observed, rules, compared_fields(last.kind));
            }
        }
        let before = findings_among(rest, live, rules);
        let more = resource_findings(last, live, rules);
        let all = findings_among(declared, live, rules);
        assert forall|i: int| 0 <= i < all.len() implies !((#[trigger] all[i]).change
            is SemanticChanged) by {
            if i < before.len() {
                assert(all[i] == before[i]);
            } else {
                assert(all[i] == more[i - before.len()]);
            }
        }
    }
}

/// `finding` is a literal drift of a declared resource: it should be in the account and is not, or
/// a compared field does not agree with what was observed.
pub open spec fn is_drift_of(
    declared: Declared,
    live: Seq<Observed>,
    rules: Seq<Sibling>,
    finding: Finding,
) -> bool {
    compared_fields(declared.kind).len() > 0 && (declared.cloud_id() matches Some(cloud_id) && (
    match observation(live, declared.kind, cloud_id) {
        None => finding == missing(declared),
        Some(observed) => exists|k: int|
            0 <= k < compared_fields(declared.kind).len() && !field_agrees(
                declared,
                observed,
                rules,
                #[trigger] compared_fields(declared.kind)[k],
            ) && finding == changed(declared, observed, compared_fields(declared.kind)[k]),
    }))
}

proof fn fields_reported_exactly(
    declared: Declared,
    observed: Observed,
    rules: Seq<Sibling>,
    fields: Seq<Seq<char>>,
    finding: Finding,
)
    ensures
        field_findings(declared, observed, rules, fields).contains(finding) <==> exists|k: int|
            0 <= k < fields.len() && !field_agrees(
                declared,
                observed,
                rules,
                #[trigger] fields[k],
            ) && finding == changed(declared, observed, fields[k]),
    decreases fields.len(),
{
    broadcast use vstd::seq_lib::group_seq_properties;

    if fields.len() > 0 {
        let rest = fields.drop_last();
        fields_reported_exactly(declared, observed, rules, rest, finding);
        let before = field_findings(declared, observed, rules, rest);
        let all = field_findings(declared, observed, rules, fields);
        assert(fields[fields.len() - 1] == fields.last());
        if before.contains(finding) {
            let k = choose|k: int|
                0 <= k < rest.len() && !field_agrees(
                    declared,
                    observed,
                    rules,
                    #[trigger] rest[k],
                ) && finding == changed(declared, observed, rest[k]);
            assert(fields[k] == rest[k]);
        }
        assert forall|k: int|
            0 <= k < fields.len() && !field_agrees(
                declared,
                observed,
                rules,
                #[trigger] fields[k],
            ) && finding == changed(declared, observed, fields[k]) implies all.contains(
            finding,
        ) by {
            if k < rest.len() {
                assert(rest[k] == fields[k]);
            }
        }
    }
}

/// The behavioral pass reports exactly the literal drifts of the declared resources: no change of a
/// compared field is passed over, and none is invented.
pub proof fn drifts_are_reported_exactly(
    declared: Seq<Declared>,
    live: Seq<Observed>,
    rules: Seq<Sibling>,
    finding: Finding,
)
    ensures
        findings_among(declared, live, rules).contains(finding) <==> exists|n: int|
            0 <= n < declared.len() && is_drift_of(
                #[trigger] declared[n],
                live,
                rules,
                finding,
            ),
    decreases declared.len(),
{
    broadcast use vstd::seq_lib::group_seq_properties;

    if declared.len() > 0 {
        let rest = declared.drop_last();
        let last = declared.last();
        drifts_are_reported_exactly(rest, live, rules, finding);
        let before = findings_among(rest, live, rules);
        let more = resource_findings(last, live, rules);
        let all = findings_among(declared, live, rules);
        assert(declared[declared.len() - 1] == last);
        if let Some(cloud_id) = last.cloud_id() {
            match observation(live, last.kind, cloud_id) {
                Some(observed) => {
                    fields_reported_exactly(
                        last,
                        observed,
                        rules,
                        compared_fields(last.kind),
                        finding,
                    );
                },
                None => {
                    if compared_fields(last.kind).len() > 0 {
                        assert(more[0] == missing(last));
                    }
                },
            }
        }
        assert(more.contains(finding) <==> is_drift_of(last, live, rules, finding));
        if before.contains(finding) {
            let n = choose|n: int|
                0 <= n < rest.len() && is_drift_of(#[trigger] rest[n], live, rules, finding);
            assert(declared[n] == rest[n]);
        }
        assert forall|n: int|
            0 <= n < declared.len() && is_drift_of(
                #[trigger] declared[n],
                live,
                rules,
                finding,
            ) implies all.contains(finding) by {
            if n < rest.len() {
                assert(rest[n] == declared[n]);
            }
        }
    }
}

} // verus!
