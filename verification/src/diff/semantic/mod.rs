//! Semantic diff: the declared and live values are identical, but the resource no longer *means*
//! what it did, because something it depends on changed.
//!
//! Behavioral drift is a function of one resource: its stored attributes against its live
//! attributes. Semantic drift is a function of a resource *and its neighbourhood*: resolve each
//! side's effective meaning from the state it belongs to, then compare. No amount of field-level
//! comparison finds it, because the information needed is not in the resource.
//!
//! Both baselines are resolved from fully-read inputs, so this stays deterministic and fully
//! observed: a finding is always a concrete difference between two computed sets, carrying the path
//! that produced it.
//!
//! The failure mode to design against here is not a missed finding but a *confident wrong* one, so
//! guards run before anything is reported; see [`compare`].

pub mod graph;
pub mod laws;
pub mod nacl;
pub mod reachability;
pub mod relations;

use vstd::prelude::*;

use crate::collector::{observation, observed_views, LiveResource, Observed};
use crate::diff::rules::{contributions, siblings, Sibling, SiblingRules};
use crate::diff::semantic::graph::{build, has_node_of, triples, Graph, Node};
use crate::diff::semantic::relations::{InstanceExposure, InternetReachability, SgMembership};
use crate::diff::target_attachments::{attachments, registered, TargetAttachments};
use crate::json::{
    array_of, jsons, listed_texts, same_json, strings_of, text_array, value_view, Json, JsonValue,
    Object,
};
use crate::ordered::{listing, lists};
use crate::set::TextSet;
use crate::text::{copied_texts, same, texts};
use crate::types::drift::{
    Change, Drift, DriftKind, DriftReport, Finding, Report, Severity, Unanswered, Unresolved,
};
use crate::types::resource::{declared_views, Declared, Kind, Resource, ResourceKind};

verus! {

/// One way meaning flows between resource kinds: the unit of extension.
pub trait Relation {
    /// What [`Relation::name`] gives.
    spec fn called(&self) -> Seq<char>;

    /// What [`Relation::required_kinds`] gives.
    spec fn needed(&self) -> Seq<Kind>;

    /// What [`Relation::subject`] gives.
    spec fn subjects(&self) -> Seq<(Kind, Seq<char>)>;

    /// The effective meaning of a subject's stored value, or why it could not be resolved.
    spec fn meaning(&self, subject: Observed, graph: Seq<Observed>) -> std::result::Result<
        Json,
        Seq<char>,
    >;

    /// The cloud IDs that the meaning of a subject passes through.
    spec fn passed(&self, subject: Observed, graph: Seq<Observed>) -> Set<Seq<char>>;

    /// Where the meanings on two sides differ, there is a path to report on one of them.
    proof fn differences_have_a_path(
        &self,
        a: Observed,
        a_graph: Seq<Observed>,
        b: Observed,
        b_graph: Seq<Observed>,
    )
        requires
            self.meaning(a, a_graph) is Ok,
            self.meaning(b, b_graph) is Ok,
            !same_json(self.meaning(a, a_graph)->Ok_0, self.meaning(b, b_graph)->Ok_0),
        ensures
            exists|id: Seq<char>| #[trigger]
                self.passed(a, a_graph).union(self.passed(b, b_graph)).contains(id),
    ;

    /// A path passes through finitely many cloud IDs.
    proof fn paths_are_finite(&self, subject: Observed, graph: Seq<Observed>)
        ensures
            self.passed(subject, graph).finite(),
    ;

    /// Stable identifier, reported on every finding this relation produces.
    fn name(&self) -> (r: &str)
        ensures
            r@ == self.called(),
    ;

    /// Kinds the declared side must contain for this relation to be resolvable.
    fn required_kinds(&self) -> (r: Vec<ResourceKind>)
        ensures
            r@.map_values(|kind: ResourceKind| kind@) == self.needed(),
    ;

    /// The subject kinds and the field whose meaning this relation expands on each. Usually one
    /// kind; a relation whose claim applies uniformly across several kinds lists them all here
    /// rather than needing a near-duplicate relation per kind.
    fn subject(&self) -> (r: Vec<(ResourceKind, &'static str)>)
        ensures
            r@.map_values(|s: (ResourceKind, &'static str)| (s.0@, s.1@)) == self.subjects(),
    ;

    /// Expand a subject's stored value into its effective meaning.
    ///
    /// Pure: reads an already-built graph and returns a value. `Err` carries the reason the subject
    /// could not be resolved, which becomes an `Unresolved` rather than a finding.
    fn expand(&self, subject: &Node, graph: &Graph) -> (r: std::result::Result<JsonValue, String>)
        ensures
            match r {
                Ok(value) => self.meaning(subject@, graph@) == Ok::<Json, Seq<char>>(value@),
                Err(reason) => self.meaning(subject@, graph@) == Err::<Json, Seq<char>>(reason@),
            },
    ;

    /// The cloud IDs a subject's stored value points at, reported on every finding as `via`: the
    /// path that makes a semantic claim checkable against the account without reading this source.
    /// A relation's path can exist on only one side (a chain that's new live, or one that
    /// disappeared).
    fn via(&self, subject: &Node, graph: &Graph) -> (r: Vec<String>)
        ensures
            lists::<String>(texts(r@), self.passed(subject@, graph@)),
    ;
}

/// The rules under `list` with those declared as their own resources behind them; a group to which
/// no such rule contributes keeps its attributes as they are.
pub open spec fn with_siblings(
    attributes: Map<Seq<char>, Json>,
    rules: Seq<Sibling>,
    group: Seq<char>,
    list: Seq<char>,
) -> Map<Seq<char>, Json> {
    let extra = contributions(rules, group, list);
    let own = match Json::Object(attributes).get(list) {
        Some(Json::Array(items)) => items,
        _ => Seq::empty(),
    };
    if extra.len() == 0 {
        attributes
    } else {
        attributes.insert(list, Json::Array(own + extra))
    }
}

/// The value of `field` inside the single block that `block` is a list of; an empty list when there
/// is none.
pub open spec fn nested_field(
    attributes: Map<Seq<char>, Json>,
    block: Seq<char>,
    field: Seq<char>,
) -> Json {
    let found = match Json::Object(attributes).get(block) {
        Some(Json::Array(blocks)) => if blocks.len() > 0 {
            blocks[0].get(field)
        } else {
            None
        },
        _ => None,
    };
    match found {
        Some(value) => value,
        None => Json::Array(Seq::empty()),
    }
}

/// The security groups and subnets inside a block, under the names that every other kind has them
/// under.
pub open spec fn flattened(
    attributes: Map<Seq<char>, Json>,
    block: Seq<char>,
    groups: Seq<char>,
    subnets: Seq<char>,
) -> Map<Seq<char>, Json> {
    let grouped = attributes.insert(
        "vpc_security_group_ids"@,
        nested_field(attributes, block, groups),
    );
    grouped.insert("subnet_ids"@, nested_field(grouped, block, subnets))
}

/// A declared resource's attributes with its separately-declared rules or target registrations
/// folded in, and with nested security groups and subnets copied up.
pub open spec fn effective(
    resource: Declared,
    rules: Seq<Sibling>,
    pairs: Seq<(Seq<char>, Seq<char>)>,
) -> Map<Seq<char>, Json> {
    match resource.cloud_id() {
        None => resource.attributes,
        Some(id) => match resource.kind {
            Kind::AwsSecurityGroup => with_siblings(
                with_siblings(resource.attributes, rules, id, "ingress"@),
                rules,
                id,
                "egress"@,
            ),
            Kind::AwsLbTargetGroup => resource.attributes.insert(
                "targets"@,
                text_array(registered(pairs, id)),
            ),
            Kind::AwsLambdaFunction => flattened(
                resource.attributes,
                "vpc_config"@,
                "security_group_ids"@,
                "subnet_ids"@,
            ),
            Kind::AwsEcsService => flattened(
                resource.attributes,
                "network_configuration"@,
                "security_groups"@,
                "subnets"@,
            ),
            _ => resource.attributes,
        },
    }
}

/// The graph of the declared side: the resources that have a cloud id, with what they effectively
/// allow or contain.
pub open spec fn declared_graph(
    declared: Seq<Declared>,
    rules: Seq<Sibling>,
    pairs: Seq<(Seq<char>, Seq<char>)>,
) -> Seq<Observed>
    decreases declared.len(),
{
    if declared.len() == 0 {
        Seq::empty()
    } else {
        let before = declared_graph(declared.drop_last(), rules, pairs);
        let last = declared.last();
        match last.cloud_id() {
            Some(cloud_id) => before.push(
                Observed {
                    cloud_id,
                    kind: last.kind,
                    attributes: effective(last, rules, pairs),
                },
            ),
            None => before,
        }
    }
}

/// The behavioral pass has reported this field of this resource.
pub open spec fn field_drifted(
    drifts: Seq<Finding>,
    resource: Seq<char>,
    field: Seq<char>,
) -> bool {
    exists|i: int|
        0 <= i < drifts.len() && (#[trigger] drifts[i]).resource == resource && (
        drifts[i].change matches Change::FieldChanged { field: changed, .. } && changed == field)
}

/// The actual side has a text that the declared side does not have.
pub open spec fn widened(declared: Json, actual: Json) -> bool {
    exists|text: Seq<char>| #[trigger]
        listed_texts(Some(actual)).contains(text) && !listed_texts(Some(declared)).contains(text)
}

/// Severity from blast-radius direction: a set that *grew* admits more principals than declared,
/// which is worse than one that shrank.
pub open spec fn direction_severity(declared: Json, actual: Json) -> Severity {
    if widened(declared, actual) {
        Severity::High
    } else {
        Severity::Low
    }
}

/// What a relation has to say about one resource.
pub enum Outcome {
    Silent,
    Drifted(Finding),
    Unanswerable(Unanswered),
}

/// The two sides of a comparison.
pub struct Sides {
    pub declared: Seq<Observed>,
    pub live: Seq<Observed>,
}

/// What a relation has to say about a resource as a subject of `kind`: nothing unless both sides
/// have it and the behavioral pass has not reported its `field`; otherwise that its meaning could not
/// be resolved, or that it differs, with the path.
pub open spec fn judged<R: Relation>(
    relation: &R,
    resource: Declared,
    kind: Kind,
    field: Seq<char>,
    sides: Sides,
    drifts: Seq<Finding>,
) -> Outcome {
    match resource.cloud_id() {
        None => Outcome::Silent,
        Some(id) => match (
            observation(sides.declared, kind, id),
            observation(sides.live, kind, id),
        ) {
            (Some(declared), Some(live)) => if resource.kind != kind || field_drifted(
                drifts,
                resource.id,
                field,
            ) {
                Outcome::Silent
            } else {
                match (
                    relation.meaning(declared, sides.declared),
                    relation.meaning(live, sides.live),
                ) {
                    (Err(reason), _) => Outcome::Unanswerable(
                        Unanswered {
                            resource: Some(resource.id),
                            relation: relation.called(),
                            reason,
                        },
                    ),
                    (_, Err(reason)) => Outcome::Unanswerable(
                        Unanswered {
                            resource: Some(resource.id),
                            relation: relation.called(),
                            reason,
                        },
                    ),
                    (Ok(declared_effective), Ok(actual_effective)) => if same_json(
                        declared_effective,
                        actual_effective,
                    ) {
                        Outcome::Silent
                    } else {
                        Outcome::Drifted(
                            Finding {
                                resource: resource.id,
                                change: Change::SemanticChanged {
                                    field,
                                    relation: relation.called(),
                                    declared_effective,
                                    actual_effective,
                                    via: listing::<String>(
                                        relation.passed(declared, sides.declared).union(
                                            relation.passed(live, sides.live),
                                        ),
                                    ),
                                },
                                severity: direction_severity(
                                    declared_effective,
                                    actual_effective,
                                ),
                            },
                        )
                    },
                }
            },
            _ => Outcome::Silent,
        },
    }
}

/// A report with an outcome added.
pub open spec fn noted(report: Report, outcome: Outcome) -> Report {
    match outcome {
        Outcome::Silent => report,
        Outcome::Drifted(finding) => Report { drifts: report.drifts.push(finding), ..report },
        Outcome::Unanswerable(unanswered) => Report {
            unresolved: report.unresolved.push(unanswered),
            ..report
        },
    }
}

/// A report with what a relation has to say about the resources added, for one sort of subject.
pub open spec fn subject_report<R: Relation>(
    relation: &R,
    kind: Kind,
    field: Seq<char>,
    declared: Seq<Declared>,
    sides: Sides,
    drifts: Seq<Finding>,
    report: Report,
) -> Report
    decreases declared.len(),
{
    if declared.len() == 0 {
        report
    } else {
        noted(
            subject_report(relation, kind, field, declared.drop_last(), sides, drifts, report),
            judged(relation, declared.last(), kind, field, sides, drifts),
        )
    }
}

/// A report with what a relation has to say about the resources added, for some sorts of subject.
pub open spec fn subjects_report<R: Relation>(
    relation: &R,
    subjects: Seq<(Kind, Seq<char>)>,
    declared: Seq<Declared>,
    sides: Sides,
    drifts: Seq<Finding>,
    report: Report,
) -> Report
    decreases subjects.len(),
{
    if subjects.len() == 0 {
        report
    } else {
        subject_report(
            relation,
            subjects.last().0,
            subjects.last().1,
            declared,
            sides,
            drifts,
            subjects_report(relation, subjects.drop_last(), declared, sides, drifts, report),
        )
    }
}

/// The first of some kinds that a graph has no node of.
pub open spec fn first_missing(graph: Seq<Observed>, kinds: Seq<Kind>) -> Option<Kind>
    decreases kinds.len(),
{
    if kinds.len() == 0 {
        None
    } else {
        match first_missing(graph, kinds.drop_last()) {
            Some(kind) => Some(kind),
            None => if has_node_of(graph, kinds.last()) {
                None
            } else {
                Some(kinds.last())
            },
        }
    }
}

/// Why a state that declares nothing of a kind does not answer for a relation.
pub open spec fn no_authority(kind: Kind) -> Seq<char> {
    "declared state contains no `"@ + kind.name()
        + "`, so it is not authoritative for this relation"@
}

/// A report with what a relation has to say added. Where the declared side has none of a kind that
/// the relation needs, that is a single entry that the relation is not resolved.
pub open spec fn relation_report<R: Relation>(
    relation: &R,
    declared: Seq<Declared>,
    sides: Sides,
    drifts: Seq<Finding>,
    report: Report,
) -> Report {
    match first_missing(sides.declared, relation.needed()) {
        Some(kind) => noted(
            report,
            Outcome::Unanswerable(
                Unanswered {
                    resource: None,
                    relation: relation.called(),
                    reason: no_authority(kind),
                },
            ),
        ),
        None => subjects_report(relation, relation.subjects(), declared, sides, drifts, report),
    }
}

/// The two sides that the semantic pass compares.
pub open spec fn sides_of(declared: Seq<Declared>, live: Seq<Observed>) -> Sides {
    Sides {
        declared: declared_graph(declared, siblings(declared), attachments(declared)),
        live,
    }
}

/// A report with the findings of every relation of the catalog added, one relation after the other.
pub open spec fn semantic_report(
    declared: Seq<Declared>,
    live: Seq<Observed>,
    report: Report,
) -> Report {
    let sides = sides_of(declared, live);
    let membership = relation_report(&SgMembership, declared, sides, report.drifts, report);
    let exposure = relation_report(&InstanceExposure, declared, sides, report.drifts, membership);
    relation_report(&InternetReachability, declared, sides, report.drifts, exposure)
}

fn append_siblings(attributes: &mut Object, rules: &SiblingRules, group: &str, list: &str)
    ensures
        final(attributes)@ == with_siblings(old(attributes)@, rules@, group@, list@),
{
    broadcast use value_view;
    let mut extra = rules.blocks(group, list);
    assert(jsons(extra@).len() == extra.len());
    if extra.len() == 0 {
        return;
    }
    let mut items: Vec<JsonValue> = Vec::new();
    if let Some(JsonValue::Array(own)) = attributes.get(list) {
        let mut i: usize = 0;
        while i < own.len()
            invariant
                i <= own.len(),
                items.len() == i,
                forall|j: int| 0 <= j < i ==> (#[trigger] items[j])@ == own[j]@,
            decreases own.len() - i,
        {
            items.push(own[i].clone());
            i += 1;
        }
        assert(jsons(items@) =~= jsons(own@));
    } else {
        assert(jsons(items@) =~= Seq::empty());
    }
    let ghost own = jsons(items@);
    let ghost more = jsons(extra@);
    items.append(&mut extra);
    assert(jsons(items@) =~= own + more);
    attributes.insert(list.to_owned(), JsonValue::Array(items));
}

/// The value of `field` inside the single-element block `attributes[block]` renders as in `terraform
/// show -json`: an empty list when the block or field is absent, matching how a collector normalizes
/// "nothing here" to an empty membership list rather than an error.
fn nested_block_field(attributes: &Object, block: &str, field: &str) -> (r: JsonValue)
    ensures
        r@ == nested_field(attributes@, block@, field@),
{
    broadcast use value_view;
    let found = match attributes.get(block) {
        Some(JsonValue::Array(blocks)) => if blocks.len() > 0 {
            blocks[0].get(field)
        } else {
            None
        },
        _ => None,
    };
    match found {
        Some(value) => value.clone(),
        None => {
            let nothing: Vec<JsonValue> = Vec::new();
            assert(jsons(nothing@) =~= Seq::empty());
            JsonValue::Array(nothing)
        },
    }
}

fn flatten(attributes: &mut Object, block: &str, groups: &str, subnets: &str)
    ensures
        final(attributes)@ == flattened(old(attributes)@, block@, groups@, subnets@),
{
    let found = nested_block_field(attributes, block, groups);
    attributes.insert("vpc_security_group_ids".to_owned(), found);
    let found = nested_block_field(attributes, block, subnets);
    attributes.insert("subnet_ids".to_owned(), found);
}

/// A declared resource's attributes with its separately-declared rules or target registrations
/// folded in, so relations see what the resource effectively allows or contains.
///
/// A Lambda function and an ECS service nest their security-group and subnet lists one level inside a
/// single block, which `terraform show -json` renders as a one-element array; both get copied up to
/// the keys that every other member kind has. `aws_db_instance` has its security groups flat
/// already, and no subnets of its own.
pub fn effective_attributes(
    resource: &Resource,
    rules: &SiblingRules,
    registrations: &TargetAttachments,
) -> (r: Object)
    ensures
        r@ == effective(resource@, rules@, registrations@),
{
    let mut attributes = resource.attributes.clone();
    let cloud_id = match resource.cloud_id() {
        Some(cloud_id) => cloud_id,
        None => return attributes,
    };
    match resource.kind {
        ResourceKind::AwsSecurityGroup => {
            append_siblings(&mut attributes, rules, cloud_id, "ingress");
            append_siblings(&mut attributes, rules, cloud_id, "egress");
        },
        ResourceKind::AwsLbTargetGroup => {
            let targets = array_of(&registrations.targets(cloud_id));
            attributes.insert("targets".to_owned(), targets);
        },
        ResourceKind::AwsLambdaFunction => flatten(
            &mut attributes,
            "vpc_config",
            "security_group_ids",
            "subnet_ids",
        ),
        ResourceKind::AwsEcsService => flatten(
            &mut attributes,
            "network_configuration",
            "security_groups",
            "subnets",
        ),
        _ => {},
    }
    attributes
}

fn build_declared(declared: &[Resource]) -> (r: Graph)
    ensures
        r@ == declared_graph(
            declared_views(declared@),
            siblings(declared_views(declared@)),
            attachments(declared_views(declared@)),
        ),
{
    let rules = SiblingRules::index(declared);
    let registrations = TargetAttachments::index(declared);
    let mut attributes: Vec<Object> = Vec::new();
    let mut i: usize = 0;
    while i < declared.len()
        invariant
            i <= declared.len(),
            attributes.len() == i,
            forall|j: int|
                0 <= j < i ==> (#[trigger] attributes[j])@ == effective(
                    declared[j]@,
                    rules@,
                    registrations@,
                ),
        decreases declared.len() - i,
    {
        attributes.push(effective_attributes(&declared[i], &rules, &registrations));
        i += 1;
    }
    let mut nodes: Vec<(&ResourceKind, &str, &Object)> = Vec::new();
    let mut k: usize = 0;
    assert(triples(nodes@) =~= Seq::empty());
    while k < declared.len()
        invariant
            k <= declared.len() == attributes.len(),
            forall|j: int|
                0 <= j < attributes.len() ==> (#[trigger] attributes[j])@ == effective(
                    declared[j]@,
                    rules@,
                    registrations@,
                ),
            triples(nodes@) == declared_graph(
                declared_views(declared@).take(k as int),
                rules@,
                registrations@,
            ),
        decreases declared.len() - k,
    {
        let ghost prefix = declared_views(declared@).take(k + 1);
        let ghost before = nodes@;
        assert(prefix.drop_last() =~= declared_views(declared@).take(k as int));
        assert(prefix.last() == declared[k as int]@);
        if let Some(cloud_id) = declared[k].cloud_id() {
            nodes.push((&declared[k].kind, cloud_id, &attributes[k]));
            assert(triples(nodes@) =~= triples(before).push(
                Observed {
                    cloud_id: cloud_id@,
                    kind: declared[k as int].kind@,
                    attributes: attributes[k as int]@,
                },
            ));
        }
        k += 1;
    }
    assert(declared_views(declared@).take(k as int) =~= declared_views(declared@));
    build(nodes.as_slice())
}

fn build_live(live: &[LiveResource]) -> (r: Graph)
    ensures
        r@ == observed_views(live@),
{
    let mut nodes: Vec<(&ResourceKind, &str, &Object)> = Vec::new();
    let mut i: usize = 0;
    while i < live.len()
        invariant
            i <= live.len(),
            nodes.len() == i,
            forall|j: int| 0 <= j < i ==> #[trigger] triples(nodes@)[j] == live[j]@,
        decreases live.len() - i,
    {
        let ghost before = nodes@;
        nodes.push((&live[i].kind, live[i].cloud_id.as_str(), &live[i].attributes));
        assert forall|j: int| 0 <= j < i + 1 implies #[trigger] triples(nodes@)[j] == live[j]@ by {
            if j < i {
                assert(triples(before)[j] == live[j]@);
            }
        }
        i += 1;
    }
    assert(triples(nodes@) =~= observed_views(live@));
    build(nodes.as_slice())
}

/// Whether the behavioral pass reported this exact resource and field, among the first `count`
/// drifts.
fn has_field_drift(report: &DriftReport, count: usize, address: &str, field: &str) -> (r: bool)
    requires
        count <= report.drifts.len(),
    ensures
        r == field_drifted(report@.drifts.take(count as int), address@, field@),
{
    let ghost drifts = report@.drifts.take(count as int);
    let mut i: usize = 0;
    while i < count
        invariant
            i <= count <= report.drifts.len(),
            drifts == report@.drifts.take(count as int),
            forall|j: int|
                0 <= j < i ==> !((#[trigger] drifts[j]).resource == address@ && (
                drifts[j].change matches Change::FieldChanged { field: changed, .. } && changed
                    == field@)),
        decreases count - i,
    {
        let drift = &report.drifts[i];
        assert(drifts[i as int] == drift@);
        if same(drift.resource.0.as_str(), address) {
            if let DriftKind::FieldChanged { field: changed, .. } = &drift.kind {
                if same(changed.as_str(), field) {
                    return true;
                }
            }
        }
        i += 1;
    }
    false
}

fn severity_for(declared: &JsonValue, actual: &JsonValue) -> (r: Severity)
    ensures
        r == direction_severity(declared@, actual@),
{
    let before = strings_of(Some(declared));
    let after = strings_of(Some(actual));
    let mut i: usize = 0;
    while i < after.len()
        invariant
            i <= after.len(),
            texts(before@) == listed_texts(Some(declared@)),
            texts(after@) == listed_texts(Some(actual@)),
            forall|j: int| 0 <= j < i ==> texts(before@).contains(#[trigger] texts(after@)[j]),
        decreases after.len() - i,
    {
        assert(texts(after@)[i as int] == after[i as int]@);
        let mut known = false;
        let mut k: usize = 0;
        while k < before.len() && !known
            invariant
                k <= before.len(),
                i < after.len(),
                known ==> texts(before@).contains(after[i as int]@),
                !known ==> forall|j: int|
                    0 <= j < k ==> #[trigger] texts(before@)[j] != after[i as int]@,
            decreases before.len() - k,
        {
            assert(texts(before@)[k as int] == before[k as int]@);
            known = same(before[k].as_str(), after[i].as_str());
            k += 1;
        }
        if !known {
            assert(!texts(before@).contains(after[i as int]@));
            assert(texts(after@).contains(after[i as int]@));
            assert(listed_texts(Some(actual@)).contains(after[i as int]@));
            return Severity::High;
        }
        i += 1;
    }
    proof {
        if widened(declared@, actual@) {
            let text = choose|text: Seq<char>| #[trigger]
                listed_texts(Some(actual@)).contains(text) && !listed_texts(
                    Some(declared@),
                ).contains(text);
            let j = choose|j: int| 0 <= j < texts(after@).len() && texts(after@)[j] == text;
            assert(texts(before@).contains(texts(after@)[j]));
        }
    }
    Severity::Low
}

fn united(a: &Vec<String>, b: &Vec<String>) -> (r: Vec<String>)
    ensures
        texts(r@) == listing::<String>(texts(a@).to_set().union(texts(b@).to_set())),
        texts(r@).to_set() == texts(a@).to_set().union(texts(b@).to_set()),
{
    let mut set = TextSet::new();
    let mut i: usize = 0;
    assert(texts(a@).take(0).to_set() =~= Set::empty());
    while i < a.len()
        invariant
            i <= a.len(),
            set@ == texts(a@).take(i as int).to_set(),
        decreases a.len() - i,
    {
        set.insert(a[i].clone());
        proof {
            let all = texts(a@);
            assert(all.take(i + 1) =~= all.take(i as int).push(all[i as int]));
            all.take(i as int).lemma_push_to_set_commute(all[i as int]);
        }
        i += 1;
    }
    assert(texts(a@).take(i as int) =~= texts(a@));
    let mut k: usize = 0;
    assert(texts(b@).take(0).to_set() =~= Set::empty());
    assert(set@ =~= texts(a@).to_set().union(texts(b@).take(0).to_set()));
    while k < b.len()
        invariant
            k <= b.len(),
            set@ == texts(a@).to_set().union(texts(b@).take(k as int).to_set()),
        decreases b.len() - k,
    {
        set.insert(b[k].clone());
        proof {
            let all = texts(b@);
            assert(all.take(k + 1) =~= all.take(k as int).push(all[k as int]));
            all.take(k as int).lemma_push_to_set_commute(all[k as int]);
            assert(set@ =~= texts(a@).to_set().union(all.take(k + 1).to_set()));
        }
        k += 1;
    }
    assert(texts(b@).take(k as int) =~= texts(b@));
    copied_texts(set.members())
}

fn judge<R: Relation>(
    relation: &R,
    resource: &Resource,
    kind: &ResourceKind,
    field: &str,
    declared_graph: &Graph,
    live_graph: &Graph,
    checked: usize,
    report: &mut DriftReport,
)
    requires
        checked <= old(report).drifts.len(),
    ensures
        final(report)@ == noted(
            old(report)@,
            judged(
                relation,
                resource@,
                kind@,
                field@,
                Sides { declared: declared_graph@, live: live_graph@ },
                old(report)@.drifts.take(checked as int),
            ),
        ),
        paths_from(final(report)@.drifts, old(report)@.drifts.len() as int),
{
    if !resource.kind.same_as(kind) {
        return;
    }
    // No cloud id, or absent live: the behavioral pass already recorded these. Nothing semantic to
    // add.

    let cloud_id = match resource.cloud_id() {
        Some(cloud_id) => cloud_id,
        None => return,
    };
    let declared_node = match declared_graph.node(kind, cloud_id) {
        Some(node) => node,
        None => return,
    };
    let live_node = match live_graph.node(kind, cloud_id) {
        Some(node) => node,
        None => return,
    };
    // Disjointness. If the field itself drifted, behavioral owns it. This does not suppress a finding
    // whose *cause* drifted elsewhere: the consequence is the point, and `via` links them.

    if has_field_drift(report, checked, resource.id.0.as_str(), field) {
        return;
    }
    let declared_effective = relation.expand(declared_node, declared_graph);
    let actual_effective = relation.expand(live_node, live_graph);
    match (declared_effective, actual_effective) {
        (Ok(declared_effective), Ok(actual_effective)) => {
            if declared_effective == actual_effective {
                return;
            }
            let declared_via = relation.via(declared_node, declared_graph);
            let live_via = relation.via(live_node, live_graph);
            let via = united(&declared_via, &live_via);
            proof {
                let declared = declared_node@;
                let live = live_node@;
                relation.differences_have_a_path(declared, declared_graph@, live, live_graph@);
                let all = relation.passed(declared, declared_graph@).union(
                    relation.passed(live, live_graph@),
                );
                let id = choose|id: Seq<char>| #[trigger] all.contains(id);
                assert(all.contains(id));
                assert(texts(via@).to_set().contains(id));
            }
            let drift = Drift {
                resource: resource.id.clone(),
                severity: severity_for(&declared_effective, &actual_effective),
                kind: DriftKind::SemanticChanged {
                    field: field.to_owned(),
                    relation: relation.name().to_owned(),
                    declared_effective,
                    actual_effective,
                    via,
                },
            };
            let ghost finding = drift@;
            report.drifts.push(drift);
            assert(report@.drifts =~= old(report)@.drifts.push(finding));
        },
        (Err(reason), _) => {
            let unresolved = Unresolved {
                resource: Some(resource.id.clone()),
                relation: relation.name().to_owned(),
                reason,
            };
            let ghost unanswered = unresolved@;
            report.unresolved.push(unresolved);
            assert(report@.unresolved =~= old(report)@.unresolved.push(unanswered));
        },
        (_, Err(reason)) => {
            let unresolved = Unresolved {
                resource: Some(resource.id.clone()),
                relation: relation.name().to_owned(),
                reason,
            };
            let ghost unanswered = unresolved@;
            report.unresolved.push(unresolved);
            assert(report@.unresolved =~= old(report)@.unresolved.push(unanswered));
        },
    }
}

fn find_missing(graph: &Graph, kinds: &Vec<ResourceKind>) -> (r: Option<usize>)
    ensures
        match r {
            Some(i) => i < kinds.len() && first_missing(
                graph@,
                kinds@.map_values(|kind: ResourceKind| kind@),
            ) == Some(kinds[i as int]@),
            None => first_missing(graph@, kinds@.map_values(|kind: ResourceKind| kind@)) is None,
        },
{
    let ghost all = kinds@.map_values(|kind: ResourceKind| kind@);
    let mut i: usize = 0;
    while i < kinds.len()
        invariant
            i <= kinds.len(),
            all == kinds@.map_values(|kind: ResourceKind| kind@),
            first_missing(graph@, all.take(i as int)) is None,
        decreases kinds.len() - i,
    {
        assert(all.take(i + 1).drop_last() =~= all.take(i as int));
        assert(all.take(i + 1).last() == kinds[i as int]@);
        if !graph.has_kind(&kinds[i]) {
            proof {
                missing_stays(graph@, all, i + 1);
            }
            return Some(i);
        }
        i += 1;
    }
    assert(all.take(i as int) =~= all);
    None
}

proof fn missing_stays(graph: Seq<Observed>, kinds: Seq<Kind>, n: int)
    requires
        0 <= n <= kinds.len(),
        first_missing(graph, kinds.take(n)) is Some,
    ensures
        first_missing(graph, kinds) == first_missing(graph, kinds.take(n)),
    decreases kinds.len() - n,
{
    if n < kinds.len() {
        assert(kinds.take(n + 1).drop_last() =~= kinds.take(n));
        missing_stays(graph, kinds, n + 1);
    } else {
        assert(kinds.take(n) =~= kinds);
    }
}

/// A semantic finding that says through which resources its claim can be checked.
pub open spec fn has_path(finding: Finding) -> bool {
    finding.change matches Change::SemanticChanged { via, .. } && via.len() > 0
}

/// The findings from `start` on are semantic and say their path.
pub open spec fn paths_from(drifts: Seq<Finding>, start: int) -> bool {
    forall|i: int| start <= i < drifts.len() ==> has_path(#[trigger] drifts[i])
}

/// A report only grows at its end.
pub open spec fn extends(longer: Report, shorter: Report) -> bool {
    shorter.drifts.is_prefix_of(longer.drifts) && shorter.unresolved.is_prefix_of(
        longer.unresolved,
    ) && longer.unjoinable == shorter.unjoinable
}

proof fn judged_only_adds<R: Relation>(
    relation: &R,
    kind: Kind,
    field: Seq<char>,
    declared: Seq<Declared>,
    sides: Sides,
    drifts: Seq<Finding>,
    report: Report,
)
    ensures
        extends(
            subject_report(relation, kind, field, declared, sides, drifts, report),
            report,
        ),
    decreases declared.len(),
{
    if declared.len() > 0 {
        judged_only_adds(relation, kind, field, declared.drop_last(), sides, drifts, report);
    }
}

proof fn subjects_only_add<R: Relation>(
    relation: &R,
    subjects: Seq<(Kind, Seq<char>)>,
    declared: Seq<Declared>,
    sides: Sides,
    drifts: Seq<Finding>,
    report: Report,
)
    ensures
        extends(
            subjects_report(relation, subjects, declared, sides, drifts, report),
            report,
        ),
    decreases subjects.len(),
{
    if subjects.len() > 0 {
        let before = subjects_report(
            relation,
            subjects.drop_last(),
            declared,
            sides,
            drifts,
            report,
        );
        subjects_only_add(relation, subjects.drop_last(), declared, sides, drifts, report);
        judged_only_adds(
            relation,
            subjects.last().0,
            subjects.last().1,
            declared,
            sides,
            drifts,
            before,
        );
    }
}

proof fn later_paths(earlier: Seq<Finding>, drifts: Seq<Finding>, start: int)
    requires
        0 <= start,
        earlier.is_prefix_of(drifts),
        paths_from(earlier, start),
        paths_from(drifts, earlier.len() as int),
    ensures
        paths_from(drifts, start),
{
    assert forall|i: int| start <= i < drifts.len() implies has_path(#[trigger] drifts[i]) by {
        if 0 <= i < earlier.len() {
            assert(drifts.subrange(0, earlier.len() as int)[i] == drifts[i]);
            assert(has_path(earlier[i]));
        }
    }
}

fn judge_all<R: Relation>(
    relation: &R,
    kind: &ResourceKind,
    field: &str,
    declared: &[Resource],
    declared_graph: &Graph,
    live_graph: &Graph,
    checked: usize,
    report: &mut DriftReport,
)
    requires
        checked <= old(report).drifts.len(),
    ensures
        final(report)@ == subject_report(
            relation,
            kind@,
            field@,
            declared_views(declared@),
            Sides { declared: declared_graph@, live: live_graph@ },
            old(report)@.drifts.take(checked as int),
            old(report)@,
        ),
        paths_from(final(report)@.drifts, old(report)@.drifts.len() as int),
{
    let ghost sides = Sides { declared: declared_graph@, live: live_graph@ };
    let ghost drifts = report@.drifts.take(checked as int);
    let ghost all = declared_views(declared@);
    let mut i: usize = 0;
    assert(all.take(0) =~= Seq::empty());
    while i < declared.len()
        invariant
            i <= declared.len(),
            all == declared_views(declared@),
            sides == (Sides { declared: declared_graph@, live: live_graph@ }),
            checked <= old(report).drifts.len(),
            drifts == old(report)@.drifts.take(checked as int),
            report@ == subject_report(
                relation,
                kind@,
                field@,
                all.take(i as int),
                sides,
                drifts,
                old(report)@,
            ),
            paths_from(report@.drifts, old(report)@.drifts.len() as int),
        decreases declared.len() - i,
    {
        let ghost earlier = report@;
        proof {
            assert(all.take(i + 1).drop_last() =~= all.take(i as int));
            assert(all.take(i + 1).last() == declared[i as int]@);
            judged_only_adds(
                relation,
                kind@,
                field@,
                all.take(i as int),
                sides,
                drifts,
                old(report)@,
            );
            assert(report@.drifts.len() == report.drifts.len());
            assert(report@.drifts.take(checked as int) =~= drifts);
        }
        judge(
            relation,
            &declared[i],
            kind,
            field,
            declared_graph,
            live_graph,
            checked,
            report,
        );
        proof {
            later_paths(earlier.drifts, report@.drifts, old(report)@.drifts.len() as int);
        }
        i += 1;
    }
    assert(all.take(i as int) =~= all);
}

fn evaluate_relation<R: Relation>(
    relation: &R,
    declared: &[Resource],
    declared_graph: &Graph,
    live_graph: &Graph,
    checked: usize,
    report: &mut DriftReport,
)
    requires
        checked <= old(report).drifts.len(),
    ensures
        final(report)@ == relation_report(
            relation,
            declared_views(declared@),
            Sides { declared: declared_graph@, live: live_graph@ },
            old(report)@.drifts.take(checked as int),
            old(report)@,
        ),
        extends(final(report)@, old(report)@),
        paths_from(final(report)@.drifts, old(report)@.drifts.len() as int),
{
    let ghost sides = Sides { declared: declared_graph@, live: live_graph@ };
    let ghost drifts = report@.drifts.take(checked as int);
    // Authority. A state file that declares none of a required kind is not the authority on that
    // relation: comparing a real live set against a vacuous empty one would fire on every subject in
    // the account. Splitting network and compute into separate state files is a common enough layout
    // that this is not hypothetical.
    let kinds = relation.required_kinds();
    if let Some(missing) = find_missing(declared_graph, &kinds) {
        let mut reason = "declared state contains no `".to_owned();
        reason.append(kinds[missing].as_str());
        reason.append("`, so it is not authoritative for this relation");
        let unresolved = Unresolved {
            resource: None,
            relation: relation.name().to_owned(),
            reason,
        };
        let ghost unanswered = unresolved@;
        report.unresolved.push(unresolved);
        assert(report@.unresolved =~= old(report)@.unresolved.push(unanswered));
        return;
    }
    let subjects = relation.subject();
    let ghost all = relation.subjects();
    let mut i: usize = 0;
    assert(all.take(0) =~= Seq::empty());
    while i < subjects.len()
        invariant
            i <= subjects.len(),
            all == subjects@.map_values(|s: (ResourceKind, &'static str)| (s.0@, s.1@)),
            sides == (Sides { declared: declared_graph@, live: live_graph@ }),
            checked <= old(report).drifts.len(),
            drifts == old(report)@.drifts.take(checked as int),
            report@ == subjects_report(
                relation,
                all.take(i as int),
                declared_views(declared@),
                sides,
                drifts,
                old(report)@,
            ),
            paths_from(report@.drifts, old(report)@.drifts.len() as int),
        decreases subjects.len() - i,
    {
        let subject = &subjects[i];
        let ghost earlier = report@;
        proof {
            assert(all.take(i + 1).drop_last() =~= all.take(i as int));
            assert(all.take(i + 1).last() == (subject.0@, subject.1@));
            subjects_only_add(
                relation,
                all.take(i as int),
                declared_views(declared@),
                sides,
                drifts,
                old(report)@,
            );
            assert(report@.drifts.len() == report.drifts.len());
            assert(report@.drifts.take(checked as int) =~= drifts);
        }
        judge_all(
            relation,
            &subject.0,
            subject.1,
            declared,
            declared_graph,
            live_graph,
            checked,
            report,
        );
        proof {
            judged_only_adds(
                relation,
                subject.0@,
                subject.1@,
                declared_views(declared@),
                sides,
                drifts,
                earlier,
            );
            later_paths(earlier.drifts, report@.drifts, old(report)@.drifts.len() as int);
        }
        i += 1;
    }
    proof {
        assert(all.take(i as int) =~= all);
        subjects_only_add(
            relation,
            all,
            declared_views(declared@),
            sides,
            drifts,
            old(report)@,
        );
    }
}

/// Append semantic findings to a report that already holds the behavioral pass.
///
/// Takes the existing report because semantic drift is *defined* as the field being unchanged, so a
/// field the behavioral pass already flagged must not also produce a semantic finding.
///
/// The declared graph carries *effective* rules, not raw inline blocks: a group whose rules are
/// declared as sibling resources has empty inline blocks, so a relation reading them straight off the
/// node would compare an empty declared rule set against a real live one and invent drift.
pub fn compare(declared: &[Resource], live: &[LiveResource], report: &mut DriftReport)
    ensures
        final(report)@ == semantic_report(
            declared_views(declared@),
            observed_views(live@),
            old(report)@,
        ),
        extends(final(report)@, old(report)@),
        paths_from(final(report)@.drifts, old(report)@.drifts.len() as int),
{
    let declared_side = build_declared(declared);
    let live_side = build_live(live);
    let checked: usize = report.drifts.len();
    let ghost drifts = report@.drifts;
    assert(report@.drifts.take(checked as int) =~= drifts);
    evaluate_relation(&SgMembership, declared, &declared_side, &live_side, checked, report);
    let ghost first = report@;
    assert(report@.drifts.len() == report.drifts.len());
    assert(report@.drifts.take(checked as int) =~= drifts);
    evaluate_relation(&InstanceExposure, declared, &declared_side, &live_side, checked, report);
    let ghost second = report@;
    assert(report@.drifts.len() == report.drifts.len());
    assert(report@.drifts.take(checked as int) =~= drifts);
    evaluate_relation(
        &InternetReachability,
        declared,
        &declared_side,
        &live_side,
        checked,
        report,
    );
    proof {
        later_paths(first.drifts, second.drifts, checked as int);
        later_paths(second.drifts, report@.drifts, checked as int);
    }
}

/// The findings from `start` on are about a resource and field of which the behavioral pass has
/// reported no drift.
pub open spec fn unflagged_from(
    findings: Seq<Finding>,
    start: int,
    drifts: Seq<Finding>,
) -> bool {
    forall|i: int|
        start <= i < findings.len() ==> ((#[trigger] findings[i]).change matches
            Change::SemanticChanged { field, .. } && !field_drifted(
            drifts,
            findings[i].resource,
            field,
        ))
}

proof fn subject_unflagged<R: Relation>(
    relation: &R,
    kind: Kind,
    field: Seq<char>,
    declared: Seq<Declared>,
    sides: Sides,
    drifts: Seq<Finding>,
    report: Report,
    start: int,
)
    requires
        0 <= start <= report.drifts.len(),
        unflagged_from(report.drifts, start, drifts),
    ensures
        unflagged_from(
            subject_report(relation, kind, field, declared, sides, drifts, report).drifts,
            start,
            drifts,
        ),
    decreases declared.len(),
{
    if declared.len() > 0 {
        let rest = declared.drop_last();
        subject_unflagged(relation, kind, field, rest, sides, drifts, report, start);
        judged_only_adds(relation, kind, field, rest, sides, drifts, report);
        let before = subject_report(relation, kind, field, rest, sides, drifts, report);
        let after = subject_report(relation, kind, field, declared, sides, drifts, report);
        assert forall|i: int| start <= i < after.drifts.len() implies ((
        #[trigger] after.drifts[i]).change matches Change::SemanticChanged { field, .. }
            && !field_drifted(drifts, after.drifts[i].resource, field)) by {
            if i < before.drifts.len() {
                assert(after.drifts[i] == before.drifts[i]);
            }
        }
    }
}

proof fn subjects_unflagged<R: Relation>(
    relation: &R,
    subjects: Seq<(Kind, Seq<char>)>,
    declared: Seq<Declared>,
    sides: Sides,
    drifts: Seq<Finding>,
    report: Report,
    start: int,
)
    requires
        0 <= start <= report.drifts.len(),
        unflagged_from(report.drifts, start, drifts),
    ensures
        unflagged_from(
            subjects_report(relation, subjects, declared, sides, drifts, report).drifts,
            start,
            drifts,
        ),
    decreases subjects.len(),
{
    if subjects.len() > 0 {
        let rest = subjects.drop_last();
        subjects_unflagged(relation, rest, declared, sides, drifts, report, start);
        subjects_only_add(relation, rest, declared, sides, drifts, report);
        subject_unflagged(
            relation,
            subjects.last().0,
            subjects.last().1,
            declared,
            sides,
            drifts,
            subjects_report(relation, rest, declared, sides, drifts, report),
            start,
        );
    }
}

proof fn relation_unflagged<R: Relation>(
    relation: &R,
    declared: Seq<Declared>,
    sides: Sides,
    drifts: Seq<Finding>,
    report: Report,
    start: int,
)
    requires
        0 <= start <= report.drifts.len(),
        unflagged_from(report.drifts, start, drifts),
    ensures
        unflagged_from(
            relation_report(relation, declared, sides, drifts, report).drifts,
            start,
            drifts,
        ),
        extends(relation_report(relation, declared, sides, drifts, report), report),
{
    subjects_unflagged(relation, relation.subjects(), declared, sides, drifts, report, start);
    subjects_only_add(relation, relation.subjects(), declared, sides, drifts, report);
}

/// The two passes are disjoint, and the semantic pass only adds: what was in the report stays, and
/// what comes behind it is semantic and about a resource and field that the behavioral pass has not
/// reported.
pub proof fn passes_are_disjoint(declared: Seq<Declared>, live: Seq<Observed>, report: Report)
    ensures
        extends(semantic_report(declared, live, report), report),
        unflagged_from(
            semantic_report(declared, live, report).drifts,
            report.drifts.len() as int,
            report.drifts,
        ),
{
    let sides = sides_of(declared, live);
    let start = report.drifts.len() as int;
    relation_unflagged(&SgMembership, declared, sides, report.drifts, report, start);
    let first = relation_report(&SgMembership, declared, sides, report.drifts, report);
    relation_unflagged(&InstanceExposure, declared, sides, report.drifts, first, start);
    let second = relation_report(&InstanceExposure, declared, sides, report.drifts, first);
    relation_unflagged(&InternetReachability, declared, sides, report.drifts, second, start);
    let third = relation_report(&InternetReachability, declared, sides, report.drifts, second);
    assert(extends(second, report)) by {
        prefixes_chain(report.drifts, first.drifts, second.drifts);
        prefixes_chain(report.unresolved, first.unresolved, second.unresolved);
    }
    prefixes_chain(report.drifts, second.drifts, third.drifts);
    prefixes_chain(report.unresolved, second.unresolved, third.unresolved);
}

proof fn prefixes_chain<T>(a: Seq<T>, b: Seq<T>, c: Seq<T>)
    requires
        a.is_prefix_of(b),
        b.is_prefix_of(c),
    ensures
        a.is_prefix_of(c),
{
    assert(a =~= c.subrange(0, a.len() as int)) by {
        assert forall|i: int| 0 <= i < a.len() implies a[i] == c.subrange(0, a.len() as int)[i] by {
            assert(a[i] == b.subrange(0, a.len() as int)[i]);
            assert(b[i] == c.subrange(0, b.len() as int)[i]);
        }
    }
}

/// A state that declares none of a kind that a relation needs is not an authority on it: that is
/// said once, for no resource in particular, and the relation finds no drift.
pub proof fn without_authority_no_findings<R: Relation>(
    relation: &R,
    declared: Seq<Declared>,
    sides: Sides,
    drifts: Seq<Finding>,
    report: Report,
    i: int,
)
    requires
        0 <= i < relation.needed().len(),
        !has_node_of(sides.declared, relation.needed()[i]),
    ensures
        ({
            let after = relation_report(relation, declared, sides, drifts, report);
            &&& after.drifts == report.drifts
            &&& after.unjoinable == report.unjoinable
            &&& after.unresolved.len() == report.unresolved.len() + 1
            &&& after.unresolved.drop_last() == report.unresolved
            &&& after.unresolved.last().resource is None
            &&& after.unresolved.last().relation == relation.called()
        }),
{
    missing_is_found(sides.declared, relation.needed(), i);
    let after = relation_report(relation, declared, sides, drifts, report);
    assert(after.unresolved.drop_last() =~= report.unresolved);
}

proof fn missing_is_found(graph: Seq<Observed>, kinds: Seq<Kind>, i: int)
    requires
        0 <= i < kinds.len(),
        !has_node_of(graph, kinds[i]),
    ensures
        first_missing(graph, kinds) is Some,
    decreases kinds.len(),
{
    if i < kinds.len() - 1 {
        assert(kinds.drop_last()[i] == kinds[i]);
        missing_is_found(graph, kinds.drop_last(), i);
    }
}

/// Where both sides are one graph, no resource means two things.
pub proof fn same_meaning_is_silent<R: Relation>(
    relation: &R,
    resource: Declared,
    kind: Kind,
    field: Seq<char>,
    graph: Seq<Observed>,
    drifts: Seq<Finding>,
)
    ensures
        !(judged(
            relation,
            resource,
            kind,
            field,
            Sides { declared: graph, live: graph },
            drifts,
        ) is Drifted),
{
    if let Some(id) = resource.cloud_id() {
        if let Some(node) = observation(graph, kind, id) {
            if let Ok(meaning) = relation.meaning(node, graph) {
                crate::json::same_json_reflexive(meaning);
            }
        }
    }
}

/// A finding is severe exactly when the actual side has something that the declared side does not.
pub proof fn severity_follows_direction<R: Relation>(
    relation: &R,
    resource: Declared,
    kind: Kind,
    field: Seq<char>,
    sides: Sides,
    drifts: Seq<Finding>,
)
    ensures
        judged(relation, resource, kind, field, sides, drifts) matches Outcome::Drifted(finding)
            ==> (finding.change matches Change::SemanticChanged {
            declared_effective,
            actual_effective,
            ..
        } && finding.severity == (if widened(declared_effective, actual_effective) {
            Severity::High
        } else {
            Severity::Low
        })),
{
}

} // verus!
