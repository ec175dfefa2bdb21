//! What the semantic pass reports, taken as a whole.

use vstd::prelude::*;

use crate::collector::{observation, Observed};
use crate::diff::semantic::relations::{InstanceExposure, InternetReachability, SgMembership};
use crate::diff::semantic::{
    first_missing, judged, no_authority, noted, relation_report, same_meaning_is_silent,
    semantic_report, sides_of, subject_report, subjects_report, Outcome, Relation, Sides,
};
use crate::ordered::{ascending, finite_is_listed, listing};
use crate::types::drift::{Change, Finding, Report, Unanswered};
use crate::types::resource::{Declared, Kind};

verus! {

/// A report has an outcome in it.
pub open spec fn holds(report: Report, outcome: Outcome) -> bool {
    match outcome {
        Outcome::Silent => true,
        Outcome::Drifted(finding) => report.drifts.contains(finding),
        Outcome::Unanswerable(unanswered) => report.unresolved.contains(unanswered),
    }
}

/// `outcome` is what `relation` has to say about some resource as a subject of `kind`.
pub open spec fn said_as<R: Relation>(
    relation: &R,
    kind: Kind,
    field: Seq<char>,
    declared: Seq<Declared>,
    sides: Sides,
    drifts: Seq<Finding>,
    outcome: Outcome,
) -> bool {
    exists|n: int|
        0 <= n < declared.len() && judged(
            relation,
            #[trigger] declared[n],
            kind,
            field,
            sides,
            drifts,
        ) == outcome
}

/// `outcome` is what `relation` has to say about some resource as one of some sorts of subject.
pub open spec fn said_among<R: Relation>(
    relation: &R,
    subjects: Seq<(Kind, Seq<char>)>,
    declared: Seq<Declared>,
    sides: Sides,
    drifts: Seq<Finding>,
    outcome: Outcome,
) -> bool {
    exists|m: int|
        0 <= m < subjects.len() && said_as(
            relation,
            (#[trigger] subjects[m]).0,
            subjects[m].1,
            declared,
            sides,
            drifts,
            outcome,
        )
}

/// `relation` comes to `outcome`: where the declared side is an authority on it, for one of the
/// resources; where it is not, that it is not.
pub open spec fn said_by<R: Relation>(
    relation: &R,
    declared: Seq<Declared>,
    sides: Sides,
    drifts: Seq<Finding>,
    outcome: Outcome,
) -> bool {
    match first_missing(sides.declared, relation.needed()) {
        None => said_among(relation, relation.subjects(), declared, sides, drifts, outcome),
        Some(kind) => outcome == Outcome::Unanswerable(
            Unanswered {
                resource: None,
                relation: relation.called(),
                reason: no_authority(kind),
            },
        ),
    }
}

proof fn subject_exactly<R: Relation>(
    relation: &R,
    kind: Kind,
    field: Seq<char>,
    declared: Seq<Declared>,
    sides: Sides,
    drifts: Seq<Finding>,
    report: Report,
    outcome: Outcome,
)
    requires
        !(outcome is Silent),
    ensures
        holds(subject_report(relation, kind, field, declared, sides, drifts, report), outcome)
            <==> holds(report, outcome) || said_as(
            relation,
            kind,
            field,
            declared,
            sides,
            drifts,
            outcome,
        ),
    decreases declared.len(),
{
    broadcast use vstd::seq_lib::group_seq_properties;

    if declared.len() > 0 {
        let rest = declared.drop_last();
        subject_exactly(relation, kind, field, rest, sides, drifts, report, outcome);
        assert(declared[declared.len() - 1] == declared.last());
        if said_as(relation, kind, field, rest, sides, drifts, outcome) {
            let n = choose|n: int|
                0 <= n < rest.len() && judged(
                    relation,
                    #[trigger] rest[n],
                    kind,
                    field,
                    sides,
                    drifts,
                ) == outcome;
            assert(declared[n] == rest[n]);
        }
        if said_as(relation, kind, field, declared, sides, drifts, outcome) {
            let n = choose|n: int|
                0 <= n < declared.len() && judged(
                    relation,
                    #[trigger] declared[n],
                    kind,
                    field,
                    sides,
                    drifts,
                ) == outcome;
            if n < rest.len() {
                assert(rest[n] == declared[n]);
            }
        }
        let before = subject_report(relation, kind, field, rest, sides, drifts, report);
        noted_exactly(
            before,
            judged(relation, declared.last(), kind, field, sides, drifts),
            outcome,
        );
    }
}

proof fn noted_exactly(report: Report, added: Outcome, outcome: Outcome)
    requires
        !(outcome is Silent),
    ensures
        holds(noted(report, added), outcome) <==> holds(report, outcome)
            || outcome == added,
{
    broadcast use vstd::seq_lib::group_seq_properties;

    match added {
        Outcome::Drifted(finding) => {
            assert(report.drifts.push(finding).last() == finding);
        },
        Outcome::Unanswerable(unanswered) => {
            assert(report.unresolved.push(unanswered).last() == unanswered);
        },
        Outcome::Silent => {},
    }
}

proof fn subjects_exactly<R: Relation>(
    relation: &R,
    subjects: Seq<(Kind, Seq<char>)>,
    declared: Seq<Declared>,
    sides: Sides,
    drifts: Seq<Finding>,
    report: Report,
    outcome: Outcome,
)
    requires
        !(outcome is Silent),
    ensures
        holds(subjects_report(relation, subjects, declared, sides, drifts, report), outcome)
            <==> holds(report, outcome) || said_among(
            relation,
            subjects,
            declared,
            sides,
            drifts,
            outcome,
        ),
    decreases subjects.len(),
{
    if subjects.len() > 0 {
        let rest = subjects.drop_last();
        let last = subjects.last();
        subjects_exactly(relation, rest, declared, sides, drifts, report, outcome);
        let before = subjects_report(relation, rest, declared, sides, drifts, report);
        subject_exactly(relation, last.0, last.1, declared, sides, drifts, before, outcome);
        assert(subjects[subjects.len() - 1] == last);
        if said_among(relation, rest, declared, sides, drifts, outcome) {
            let m = choose|m: int|
                0 <= m < rest.len() && said_as(
                    relation,
                    (#[trigger] rest[m]).0,
                    rest[m].1,
                    declared,
                    sides,
                    drifts,
                    outcome,
                );
            assert(subjects[m] == rest[m]);
        }
        if said_among(relation, subjects, declared, sides, drifts, outcome) {
            let m = choose|m: int|
                0 <= m < subjects.len() && said_as(
                    relation,
                    (#[trigger] subjects[m]).0,
                    subjects[m].1,
                    declared,
                    sides,
                    drifts,
                    outcome,
                );
            if m < rest.len() {
                assert(rest[m] == subjects[m]);
            }
        }
    }
}

/// A relation adds to a report exactly what it has to say: every difference of meaning as drift,
/// and everything that it could not resolve as unresolved.
pub proof fn relation_reports_exactly<R: Relation>(
    relation: &R,
    declared: Seq<Declared>,
    sides: Sides,
    drifts: Seq<Finding>,
    report: Report,
    outcome: Outcome,
)
    requires
        !(outcome is Silent),
    ensures
        holds(relation_report(relation, declared, sides, drifts, report), outcome) <==> holds(
            report,
            outcome,
        ) || said_by(relation, declared, sides, drifts, outcome),
{
    match first_missing(sides.declared, relation.needed()) {
        None => {
            subjects_exactly(
                relation,
                relation.subjects(),
                declared,
                sides,
                drifts,
                report,
                outcome,
            );
        },
        Some(kind) => {
            noted_exactly(
                report,
                Outcome::Unanswerable(
                    Unanswered {
                        resource: None,
                        relation: relation.called(),
                        reason: no_authority(kind),
                    },
                ),
                outcome,
            );
        },
    }
}

/// The semantic pass adds to a report exactly what the three relations have to say: nothing is
/// passed over, and nothing is invented.
pub proof fn meaning_is_reported_exactly(
    declared: Seq<Declared>,
    live: Seq<Observed>,
    report: Report,
    outcome: Outcome,
)
    requires
        !(outcome is Silent),
    ensures
        holds(semantic_report(declared, live, report), outcome) <==> {
            let sides = sides_of(declared, live);
            ||| holds(report, outcome)
            ||| said_by(&SgMembership, declared, sides, report.drifts, outcome)
            ||| said_by(&InstanceExposure, declared, sides, report.drifts, outcome)
            ||| said_by(&InternetReachability, declared, sides, report.drifts, outcome)
        },
{
    let sides = sides_of(declared, live);
    let drifts = report.drifts;
    let first = relation_report(&SgMembership, declared, sides, drifts, report);
    let second = relation_report(&InstanceExposure, declared, sides, drifts, first);
    relation_reports_exactly(&SgMembership, declared, sides, drifts, report, outcome);
    relation_reports_exactly(&InstanceExposure, declared, sides, drifts, first, outcome);
    relation_reports_exactly(&InternetReachability, declared, sides, drifts, second, outcome);
}

/// `finding` says by which path a meaning differs, each cloud ID on it once and in order.
pub open spec fn has_ordered_path(finding: Finding) -> bool {
    finding.change matches Change::SemanticChanged { via, .. } && via.len() > 0 && ascending::<
        String,
    >(via)
}

proof fn judged_by_an_ordered_path<R: Relation>(
    relation: &R,
    resource: Declared,
    kind: Kind,
    field: Seq<char>,
    sides: Sides,
    drifts: Seq<Finding>,
)
    ensures
        judged(relation, resource, kind, field, sides, drifts) matches Outcome::Drifted(finding)
            ==> has_ordered_path(finding),
{
    if judged(relation, resource, kind, field, sides, drifts) is Drifted {
        let id = resource.cloud_id()->0;
        let a = observation(sides.declared, kind, id)->0;
        let b = observation(sides.live, kind, id)->0;
        let all = relation.passed(a, sides.declared).union(relation.passed(b, sides.live));
        relation.paths_are_finite(a, sides.declared);
        relation.paths_are_finite(b, sides.live);
        finite_is_listed::<String>(all);
        relation.differences_have_a_path(a, sides.declared, b, sides.live);
        let passed = choose|id: Seq<char>| #[trigger] all.contains(id);
        assert(listing::<String>(all).to_set().contains(passed));
        assert(listing::<String>(all).contains(passed));
    }
}

proof fn said_by_an_ordered_path<R: Relation>(
    relation: &R,
    declared: Seq<Declared>,
    sides: Sides,
    drifts: Seq<Finding>,
    finding: Finding,
)
    requires
        said_by(relation, declared, sides, drifts, Outcome::Drifted(finding)),
    ensures
        has_ordered_path(finding),
{
    let outcome = Outcome::Drifted(finding);
    let subjects = relation.subjects();
    let m = choose|m: int|
        0 <= m < subjects.len() && said_as(
            relation,
            (#[trigger] subjects[m]).0,
            subjects[m].1,
            declared,
            sides,
            drifts,
            outcome,
        );
    let n = choose|n: int|
        0 <= n < declared.len() && judged(
            relation,
            #[trigger] declared[n],
            subjects[m].0,
            subjects[m].1,
            sides,
            drifts,
        ) == outcome;
    judged_by_an_ordered_path(relation, declared[n], subjects[m].0, subjects[m].1, sides, drifts);
}

/// Every finding of the semantic pass has a path that can be checked: it is not empty, and its cloud
/// IDs are strictly ascending, so that none comes twice.
pub proof fn paths_ascend(
    declared: Seq<Declared>,
    live: Seq<Observed>,
    report: Report,
    finding: Finding,
)
    requires
        semantic_report(declared, live, report).drifts.contains(finding),
        !report.drifts.contains(finding),
    ensures
        has_ordered_path(finding),
{
    let sides = sides_of(declared, live);
    let outcome = Outcome::Drifted(finding);
    meaning_is_reported_exactly(declared, live, report, outcome);
    if said_by(&SgMembership, declared, sides, report.drifts, outcome) {
        said_by_an_ordered_path(&SgMembership, declared, sides, report.drifts, finding);
    } else if said_by(&InstanceExposure, declared, sides, report.drifts, outcome) {
        said_by_an_ordered_path(&InstanceExposure, declared, sides, report.drifts, finding);
    } else {
        said_by_an_ordered_path(&InternetReachability, declared, sides, report.drifts, finding);
    }
}

/// `outcome` is about the resource at this address.
pub open spec fn is_about(outcome: Outcome, address: Seq<char>) -> bool {
    match outcome {
        Outcome::Silent => false,
        Outcome::Drifted(finding) => finding.resource == address,
        Outcome::Unanswerable(unanswered) => unanswered.resource == Some(address),
    }
}

/// The resource cannot be held against an account: it has no cloud ID to join it by, or the account
/// has nothing of its kind under that ID.
pub open spec fn has_no_counterpart(resource: Declared, live: Seq<Observed>) -> bool {
    match resource.cloud_id() {
        Some(id) => observation(live, resource.kind, id) is None,
        None => true,
    }
}

proof fn nothing_said_about<R: Relation>(
    relation: &R,
    declared: Seq<Declared>,
    sides: Sides,
    drifts: Seq<Finding>,
    n: int,
    outcome: Outcome,
)
    requires
        0 <= n < declared.len(),
        forall|m: int|
            0 <= m < declared.len() && m != n ==> (#[trigger] declared[m]).id != declared[n].id,
        has_no_counterpart(declared[n], sides.live),
        is_about(outcome, declared[n].id),
    ensures
        !said_by(relation, declared, sides, drifts, outcome),
{
    let subjects = relation.subjects();
    assert forall|m: int| 0 <= m < subjects.len() implies !said_as(
        relation,
        (#[trigger] subjects[m]).0,
        subjects[m].1,
        declared,
        sides,
        drifts,
        outcome,
    ) by {
        assert forall|k: int| 0 <= k < declared.len() implies judged(
            relation,
            #[trigger] declared[k],
            subjects[m].0,
            subjects[m].1,
            sides,
            drifts,
        ) != outcome by {}
    }
}

/// A resource that is missing from the account, or that has no cloud ID to join it by, is not asked
/// what it means: where no other resource has its address, the semantic pass adds nothing about it.
pub proof fn without_counterpart_nothing_is_said(
    declared: Seq<Declared>,
    live: Seq<Observed>,
    report: Report,
    n: int,
    outcome: Outcome,
)
    requires
        0 <= n < declared.len(),
        forall|m: int|
            0 <= m < declared.len() && m != n ==> (#[trigger] declared[m]).id != declared[n].id,
        has_no_counterpart(declared[n], live),
        is_about(outcome, declared[n].id),
    ensures
        holds(semantic_report(declared, live, report), outcome) <==> holds(report, outcome),
{
    let sides = sides_of(declared, live);
    meaning_is_reported_exactly(declared, live, report, outcome);
    nothing_said_about(&SgMembership, declared, sides, report.drifts, n, outcome);
    nothing_said_about(&InstanceExposure, declared, sides, report.drifts, n, outcome);
    nothing_said_about(&InternetReachability, declared, sides, report.drifts, n, outcome);
}

proof fn no_drift_in_one_graph<R: Relation>(
    relation: &R,
    declared: Seq<Declared>,
    graph: Seq<Observed>,
    drifts: Seq<Finding>,
    finding: Finding,
)
    ensures
        !said_by(
            relation,
            declared,
            Sides { declared: graph, live: graph },
            drifts,
            Outcome::Drifted(finding),
        ),
{
    let sides = Sides { declared: graph, live: graph };
    let subjects = relation.subjects();
    assert forall|m: int| 0 <= m < subjects.len() implies !said_as(
        relation,
        (#[trigger] subjects[m]).0,
        subjects[m].1,
        declared,
        sides,
        drifts,
        Outcome::Drifted(finding),
    ) by {
        assert forall|n: int| 0 <= n < declared.len() implies judged(
            relation,
            #[trigger] declared[n],
            subjects[m].0,
            subjects[m].1,
            sides,
            drifts,
        ) != Outcome::Drifted(finding) by {
            same_meaning_is_silent(
                relation,
                declared[n],
                subjects[m].0,
                subjects[m].1,
                graph,
                drifts,
            );
        }
    }
}

/// An account that is as the state declares it has no drift of meaning.
pub proof fn account_as_declared_is_silent(
    declared: Seq<Declared>,
    live: Seq<Observed>,
    report: Report,
    finding: Finding,
)
    requires
        sides_of(declared, live).declared == live,
    ensures
        semantic_report(declared, live, report).drifts.contains(finding)
            <==> report.drifts.contains(finding),
{
    meaning_is_reported_exactly(declared, live, report, Outcome::Drifted(finding));
    no_drift_in_one_graph(&SgMembership, declared, live, report.drifts, finding);
    no_drift_in_one_graph(&InstanceExposure, declared, live, report.drifts, finding);
    no_drift_in_one_graph(&InternetReachability, declared, live, report.drifts, finding);
}

} // verus!
