//! What is said of resources whose meaning has drifted.

use vstd::prelude::*;

use crate::collector::{observation, Observed};
use crate::diff::behavioral::behavioral_report;
use crate::diff::drift_report;
use crate::diff::rules::{has_text, siblings};
use crate::diff::semantic::graph::has_node_of;
use crate::diff::semantic::laws::{meaning_is_reported_exactly, said_as, said_by};
use crate::diff::semantic::relations::{
    attached, internet_chains, trusted_set, trusts, InstanceExposure, InternetReachability,
    SgMembership,
};
use crate::diff::semantic::{
    declared_graph, field_drifted, first_missing, judged, passes_are_disjoint, semantic_report,
    sides_of, widened, Outcome, Relation, Sides,
};
use crate::diff::target_attachments::attachments;
use crate::json::{listed_texts, same_json, texts_among_members, Json};
use crate::laws::behavioral::{is_item, lists_differ};
use crate::laws::meaning::{is_attached, is_trusted, reachability_means_the_chains, rules_of};
use crate::laws::{lists, says};
use crate::ordered::{finite_is_listed, listing};
use crate::text::joined;
use crate::types::drift::{Change, Finding, Report, Severity, Unanswered};
use crate::types::resource::{Declared, Kind};

verus! {

/// The state declares something of this kind that has a cloud ID.
pub open spec fn is_declared(declared: Seq<Declared>, kind: Kind) -> bool {
    exists|m: int|
        0 <= m < declared.len() && (#[trigger] declared[m]).kind == kind && (Json::Object(
            declared[m].attributes,
        ).get("id"@) matches Some(Json::Text(_)))
}

/// The literal pass has not reported this field of this resource.
pub open spec fn is_unreported(report: Report, address: Seq<char>, field: Seq<char>) -> bool {
    forall|i: int|
        0 <= i < report.drifts.len() && (#[trigger] report.drifts[i]).resource == address ==> !(
        report.drifts[i].change matches Change::FieldChanged { field: changed, .. } && changed
            == field)
}

/// The live meaning has an entry that the declared one has not.
pub open spec fn has_grown(declared: Json, actual: Json) -> bool {
    exists|text: Seq<char>| #[trigger] is_item(actual, text) && !is_item(declared, text)
}

/// The finding that what a field means has drifted: severe when the meaning has grown.
pub open spec fn meaning_finding(
    address: Seq<char>,
    field: Seq<char>,
    relation: Seq<char>,
    declared: Json,
    actual: Json,
    via: Seq<Seq<char>>,
) -> Finding {
    Finding {
        resource: address,
        change: Change::SemanticChanged {
            field,
            relation,
            declared_effective: declared,
            actual_effective: actual,
            via,
        },
        severity: if has_grown(declared, actual) {
            Severity::High
        } else {
            Severity::Low
        },
    }
}

proof fn different_lists(a: Json, b: Json)
    requires
        lists_differ(a, b),
    ensures
        !same_json(a, b),
{
    let text = choose|text: Seq<char>| #[trigger] is_item(a, text) != is_item(b, text);
    if same_json(a, b) {
        if is_item(a, text) {
            let x = a->Array_0;
            let i = choose|i: int| 0 <= i < x.len() && x[i] == Json::Text(text);
            assert(same_json(x[i], b->Array_0[i]));
            assert(b->Array_0[i] == Json::Text(text));
        } else {
            let y = b->Array_0;
            let i = choose|i: int| 0 <= i < y.len() && y[i] == Json::Text(text);
            assert(same_json(a->Array_0[i], y[i]));
            assert(a->Array_0[i] == Json::Text(text));
        }
    }
}

proof fn growth_in_words(declared: Json, actual: Json)
    ensures
        widened(declared, actual) == has_grown(declared, actual),
{
    assert forall|text: Seq<char>|
        #![trigger is_item(declared, text)]
        #![trigger listed_texts(Some(declared)).contains(text)]
        is_item(declared, text) <==> listed_texts(Some(declared)).contains(text) by {
        if let Json::Array(items) = declared {
            texts_among_members(items, text);
        }
    }
    assert forall|text: Seq<char>|
        #![trigger is_item(actual, text)]
        #![trigger listed_texts(Some(actual)).contains(text)]
        is_item(actual, text) <==> listed_texts(Some(actual)).contains(text) by {
        if let Json::Array(items) = actual {
            texts_among_members(items, text);
        }
    }
    if widened(declared, actual) {
        let text = choose|text: Seq<char>| #[trigger]
            listed_texts(Some(actual)).contains(text) && !listed_texts(Some(declared)).contains(
                text,
            );
        assert(is_item(actual, text) && !is_item(declared, text));
    }
    if has_grown(declared, actual) {
        let text = choose|text: Seq<char>| #[trigger] is_item(actual, text) && !is_item(
            declared,
            text,
        );
        assert(listed_texts(Some(actual)).contains(text));
    }
}

proof fn declared_nodes(declared: Seq<Declared>, whole: Seq<Declared>, kind: Kind)
    ensures
        has_node_of(declared_graph(declared, siblings(whole), attachments(whole)), kind)
            == is_declared(declared, kind),
    decreases declared.len(),
{
    if declared.len() > 0 {
        let rest = declared.drop_last();
        let last = declared.last();
        declared_nodes(rest, whole, kind);
        let before = declared_graph(rest, siblings(whole), attachments(whole));
        let all = declared_graph(declared, siblings(whole), attachments(whole));
        assert(declared[declared.len() - 1] == last);
        if is_declared(rest, kind) {
            let m = choose|m: int|
                0 <= m < rest.len() && (#[trigger] rest[m]).kind == kind && (Json::Object(
                    rest[m].attributes,
                ).get("id"@) matches Some(Json::Text(_)));
            assert(declared[m] == rest[m]);
        }
        if has_node_of(before, kind) {
            let i = choose|i: int| 0 <= i < before.len() && (#[trigger] before[i]).kind == kind;
            assert(all[i] == before[i]);
        }
        if last.cloud_id() is Some && last.kind == kind {
            assert(all[before.len() as int].kind == kind);
        }
        if has_node_of(all, kind) {
            let i = choose|i: int| 0 <= i < all.len() && (#[trigger] all[i]).kind == kind;
            if i < before.len() {
                assert(before[i] == all[i]);
            }
        }
        if is_declared(declared, kind) {
            let m = choose|m: int|
                0 <= m < declared.len() && (#[trigger] declared[m]).kind == kind && (Json::Object(
                    declared[m].attributes,
                ).get("id"@) matches Some(Json::Text(_)));
            if m < rest.len() {
                assert(rest[m] == declared[m]);
            }
        }
    }
}

proof fn authority<R: Relation>(
    relation: &R,
    declared: Seq<Declared>,
    live: Seq<Observed>,
    kind: Kind,
)
    requires
        relation.needed() == seq![kind],
    ensures
        first_missing(sides_of(declared, live).declared, relation.needed()) == if is_declared(
            declared,
            kind,
        ) {
            None
        } else {
            Some(kind)
        },
{
    let kinds = relation.needed();
    declared_nodes(declared, declared, kind);
    assert(kinds.drop_last() =~= Seq::empty());
    reveal_with_fuel(first_missing, 2);
}

proof fn unreported_in_words(report: Report, address: Seq<char>, field: Seq<char>)
    requires
        is_unreported(report, address, field),
    ensures
        !field_drifted(report.drifts, address, field),
{
}

/// What is compared when a relation is asked about the declared resource numbered `n`: it has the
/// cloud ID `id`, is `d` in the declared graph and `l` in the account, and the field that it is asked
/// about has not been reported.
pub open spec fn is_asked(
    declared: Seq<Declared>,
    live: Seq<Observed>,
    report: Report,
    n: int,
    id: Seq<char>,
    d: Observed,
    l: Observed,
    field: Seq<char>,
) -> bool {
    &&& 0 <= n < declared.len()
    &&& says(Json::Object(declared[n].attributes), "id"@, id)
    &&& observation(sides_of(declared, live).declared, declared[n].kind, id) == Some(d)
    &&& observation(live, declared[n].kind, id) == Some(l)
    &&& is_unreported(report, declared[n].id, field)
}

proof fn asked_and_answered<R: Relation>(
    relation: &R,
    declared: Seq<Declared>,
    live: Seq<Observed>,
    report: Report,
    n: int,
    id: Seq<char>,
    d: Observed,
    l: Observed,
    m: int,
) -> (via: Seq<Seq<char>>)
    requires
        0 <= m < relation.subjects().len(),
        relation.subjects()[m].0 == declared[n].kind,
        is_asked(declared, live, report, n, id, d, l, relation.subjects()[m].1),
        first_missing(sides_of(declared, live).declared, relation.needed()) is None,
        relation.meaning(d, sides_of(declared, live).declared) is Ok,
        relation.meaning(l, live) is Ok,
        lists_differ(
            relation.meaning(d, sides_of(declared, live).declared)->Ok_0,
            relation.meaning(l, live)->Ok_0,
        ),
    ensures
        said_by(
            relation,
            declared,
            sides_of(declared, live),
            report.drifts,
            Outcome::Drifted(
                meaning_finding(
                    declared[n].id,
                    relation.subjects()[m].1,
                    relation.called(),
                    relation.meaning(d, sides_of(declared, live).declared)->Ok_0,
                    relation.meaning(l, live)->Ok_0,
                    via,
                ),
            ),
        ),
        forall|passed: Seq<char>| #[trigger]
            via.contains(passed) <==> relation.passed(
                d,
                sides_of(declared, live).declared,
            ).contains(passed) || relation.passed(l, live).contains(passed),
{
    let sides = sides_of(declared, live);
    let field = relation.subjects()[m].1;
    let a = relation.meaning(d, sides.declared)->Ok_0;
    let b = relation.meaning(l, live)->Ok_0;
    let all = relation.passed(d, sides.declared).union(relation.passed(l, live));
    let via = listing::<String>(all);
    relation.paths_are_finite(d, sides.declared);
    relation.paths_are_finite(l, live);
    finite_is_listed::<String>(all);
    different_lists(a, b);
    growth_in_words(a, b);
    unreported_in_words(report, declared[n].id, field);
    let outcome = Outcome::Drifted(
        meaning_finding(declared[n].id, field, relation.called(), a, b, via),
    );
    assert(judged(relation, declared[n], declared[n].kind, field, sides, report.drifts) == outcome);
    assert(said_as(
        relation,
        relation.subjects()[m].0,
        field,
        declared,
        sides,
        report.drifts,
        outcome,
    ));
    assert forall|passed: Seq<char>| #[trigger] via.contains(passed) <==> relation.passed(
        d,
        sides.declared,
    ).contains(passed) || relation.passed(l, live).contains(passed) by {
        assert(via.to_set().contains(passed) <==> all.contains(passed));
    }
    via
}

/// Membership drift is reported: when what the rules of a declared security group let in by the
/// groups they trust differs between the state and the account, there is a finding on its `ingress`,
/// by way of the groups that its rules trust on either side.
pub proof fn a_change_of_members_is_reported(
    declared: Seq<Declared>,
    live: Seq<Observed>,
    report: Report,
    n: int,
    id: Seq<char>,
    d: Observed,
    l: Observed,
    a: Json,
    b: Json,
)
    requires
        is_asked(declared, live, report, n, id, d, l, "ingress"@),
        declared[n].kind == Kind::AwsSecurityGroup,
        is_declared(declared, Kind::AwsInstance),
        SgMembership.meaning(d, sides_of(declared, live).declared) == Ok::<_, Seq<char>>(a),
        SgMembership.meaning(l, live) == Ok::<_, Seq<char>>(b),
        lists_differ(a, b),
    ensures
        exists|via: Seq<Seq<char>>|
            {
                &&& #[trigger] semantic_report(declared, live, report).drifts.contains(
                    meaning_finding(declared[n].id, "ingress"@, "sg_membership"@, a, b, via),
                )
                &&& forall|group: Seq<char>| #[trigger]
                    via.contains(group) <==> is_trusted(rules_of(d), group) || is_trusted(
                        rules_of(l),
                        group,
                    )
            },
{
    authority(&SgMembership, declared, live, Kind::AwsInstance);
    let via = asked_and_answered(&SgMembership, declared, live, report, n, id, d, l, 0);
    let finding = meaning_finding(declared[n].id, "ingress"@, "sg_membership"@, a, b, via);
    meaning_is_reported_exactly(declared, live, report, Outcome::Drifted(finding));
    assert forall|group: Seq<char>| #[trigger] via.contains(group) <==> is_trusted(
        rules_of(d),
        group,
    ) || is_trusted(rules_of(l), group) by {
        trusted_set_in_words(d, group);
        trusted_set_in_words(l, group);
    }
}

proof fn trusted_set_in_words(subject: Observed, group: Seq<char>)
    ensures
        trusted_set(rules_of(subject)).contains(group) <==> is_trusted(rules_of(subject), group),
{
    let rules = rules_of(subject);
    if trusted_set(rules).contains(group) {
        let i = choose|i: int| 0 <= i < rules.len() && trusts(#[trigger] rules[i], group);
        assert(lists(rules[i], "security_groups"@, group));
    }
    if is_trusted(rules, group) {
        let i = choose|i: int|
            0 <= i < rules.len() && lists(#[trigger] rules[i], "security_groups"@, group);
        assert(has_text(rules[i].get("security_groups"@), group));
        assert(trusts(rules[i], group));
    }
}

/// Exposure drift is reported: when the rules of the groups that a declared EC2 instance is attached
/// to differ between the state and the account, there is a finding on its `vpc_security_group_ids`,
/// by way of the groups that it is attached to on either side.
pub proof fn a_change_of_exposure_is_reported(
    declared: Seq<Declared>,
    live: Seq<Observed>,
    report: Report,
    n: int,
    id: Seq<char>,
    d: Observed,
    l: Observed,
    a: Json,
    b: Json,
)
    requires
        is_asked(declared, live, report, n, id, d, l, "vpc_security_group_ids"@),
        declared[n].kind == Kind::AwsInstance,
        is_declared(declared, Kind::AwsSecurityGroup),
        InstanceExposure.meaning(d, sides_of(declared, live).declared) == Ok::<_, Seq<char>>(a),
        InstanceExposure.meaning(l, live) == Ok::<_, Seq<char>>(b),
        lists_differ(a, b),
    ensures
        exists|via: Seq<Seq<char>>|
            {
                &&& #[trigger] semantic_report(declared, live, report).drifts.contains(
                    meaning_finding(
                        declared[n].id,
                        "vpc_security_group_ids"@,
                        "instance_exposure"@,
                        a,
                        b,
                        via,
                    ),
                )
                &&& forall|group: Seq<char>| #[trigger]
                    via.contains(group) <==> is_attached(d, group) || is_attached(l, group)
            },
{
    authority(&InstanceExposure, declared, live, Kind::AwsSecurityGroup);
    let via = asked_and_answered(&InstanceExposure, declared, live, report, n, id, d, l, 0);
    let finding = meaning_finding(
        declared[n].id,
        "vpc_security_group_ids"@,
        "instance_exposure"@,
        a,
        b,
        via,
    );
    meaning_is_reported_exactly(declared, live, report, Outcome::Drifted(finding));
    assert forall|group: Seq<char>| #[trigger] via.contains(group) <==> is_attached(d, group)
        || is_attached(l, group) by {
        attached_in_words(d, group);
        attached_in_words(l, group);
    }
}

proof fn attached_in_words(subject: Observed, group: Seq<char>)
    ensures
        attached(subject).to_set().contains(group) <==> is_attached(subject, group),
{
    if let Some(Json::Array(items)) = Json::Object(subject.attributes).get(
        "vpc_security_group_ids"@,
    ) {
        texts_among_members(items, group);
    }
}

/// `id` is on a chain by which the internet reaches a resource.
pub open spec fn is_on_a_chain(subject: Observed, graph: Seq<Observed>, id: Seq<char>) -> bool {
    exists|chain: Seq<Seq<char>>| #[trigger]
        internet_chains(subject, graph).contains(chain) && chain.contains(id)
}

/// Reachability drift is reported: when the chains by which the internet reaches a declared EC2
/// instance, RDS instance, Lambda function or ECS service differ between the state and the account,
/// there is a finding on its `vpc_security_group_ids`, by way of everything on a chain on either side.
pub proof fn a_change_of_reachability_is_reported(
    declared: Seq<Declared>,
    live: Seq<Observed>,
    report: Report,
    n: int,
    id: Seq<char>,
    d: Observed,
    l: Observed,
    a: Json,
    b: Json,
)
    requires
        is_asked(declared, live, report, n, id, d, l, "vpc_security_group_ids"@),
        declared[n].kind == Kind::AwsInstance || declared[n].kind == Kind::AwsDbInstance
            || declared[n].kind == Kind::AwsLambdaFunction || declared[n].kind
            == Kind::AwsEcsService,
        is_declared(declared, Kind::AwsSecurityGroup),
        InternetReachability.meaning(d, sides_of(declared, live).declared) == Ok::<_, Seq<char>>(
            a,
        ),
        InternetReachability.meaning(l, live) == Ok::<_, Seq<char>>(b),
        lists_differ(a, b),
    ensures
        exists|via: Seq<Seq<char>>|
            {
                &&& #[trigger] semantic_report(declared, live, report).drifts.contains(
                    meaning_finding(
                        declared[n].id,
                        "vpc_security_group_ids"@,
                        "internet_reachability"@,
                        a,
                        b,
                        via,
                    ),
                )
                &&& forall|passed: Seq<char>| #[trigger]
                    via.contains(passed) <==> is_on_a_chain(
                        d,
                        sides_of(declared, live).declared,
                        passed,
                    ) || is_on_a_chain(l, live, passed)
            },
{
    authority(&InternetReachability, declared, live, Kind::AwsSecurityGroup);
    let m = if declared[n].kind == Kind::AwsInstance {
        0
    } else if declared[n].kind == Kind::AwsDbInstance {
        1
    } else if declared[n].kind == Kind::AwsLambdaFunction {
        2
    } else {
        3int
    };
    assert(InternetReachability.subjects()[m].0 == declared[n].kind);
    let via = asked_and_answered(&InternetReachability, declared, live, report, n, id, d, l, m);
    let finding = meaning_finding(
        declared[n].id,
        "vpc_security_group_ids"@,
        "internet_reachability"@,
        a,
        b,
        via,
    );
    meaning_is_reported_exactly(declared, live, report, Outcome::Drifted(finding));
}

/// `text` spells out a chain by which the internet reaches a resource.
pub open spec fn is_chain_text(subject: Observed, graph: Seq<Observed>, text: Seq<char>) -> bool {
    exists|chain: Seq<Seq<char>>| #[trigger]
        internet_chains(subject, graph).contains(chain) && text == "via:"@ + joined(chain, ">"@)
}

/// The report of both passes has a finding wherever a chain from the internet to a declared EC2
/// instance, RDS instance, Lambda function or ECS service is there in the state and not in the
/// account, or the other way round. The finding lists the chains of both sides.
pub proof fn every_new_or_lost_chain_is_reported(
    declared: Seq<Declared>,
    live: Seq<Observed>,
    n: int,
    id: Seq<char>,
    d: Observed,
    l: Observed,
    text: Seq<char>,
)
    requires
        is_asked(
            declared,
            live,
            behavioral_report(declared, live),
            n,
            id,
            d,
            l,
            "vpc_security_group_ids"@,
        ),
        declared[n].kind == Kind::AwsInstance || declared[n].kind == Kind::AwsDbInstance
            || declared[n].kind == Kind::AwsLambdaFunction || declared[n].kind
            == Kind::AwsEcsService,
        is_declared(declared, Kind::AwsSecurityGroup),
        is_chain_text(d, sides_of(declared, live).declared, text) != is_chain_text(l, live, text),
    ensures
        exists|a: Json, b: Json, via: Seq<Seq<char>>|
            {
                &&& #[trigger] drift_report(declared, live).drifts.contains(
                    meaning_finding(
                        declared[n].id,
                        "vpc_security_group_ids"@,
                        "internet_reachability"@,
                        a,
                        b,
                        via,
                    ),
                )
                &&& forall|t: Seq<char>| #[trigger]
                    is_item(a, t) <==> is_chain_text(d, sides_of(declared, live).declared, t)
                &&& forall|t: Seq<char>| #[trigger] is_item(b, t) <==> is_chain_text(l, live, t)
            },
{
    let graph = sides_of(declared, live).declared;
    reachability_means_the_chains(d, graph, text);
    reachability_means_the_chains(l, live, text);
    let a = InternetReachability.meaning(d, graph)->Ok_0;
    let b = InternetReachability.meaning(l, live)->Ok_0;
    assert forall|t: Seq<char>| #[trigger] is_item(a, t) <==> is_chain_text(d, graph, t) by {
        reachability_means_the_chains(d, graph, t);
    }
    assert forall|t: Seq<char>| #[trigger] is_item(b, t) <==> is_chain_text(l, live, t) by {
        reachability_means_the_chains(l, live, t);
    }
    assert(is_item(a, text) != is_item(b, text));
    let report = behavioral_report(declared, live);
    a_change_of_reachability_is_reported(declared, live, report, n, id, d, l, a, b);
    let via = choose|via: Seq<Seq<char>>| #[trigger]
        semantic_report(declared, live, report).drifts.contains(
            meaning_finding(
                declared[n].id,
                "vpc_security_group_ids"@,
                "internet_reachability"@,
                a,
                b,
                via,
            ),
        );
    assert(drift_report(declared, live).drifts.contains(
        meaning_finding(
            declared[n].id,
            "vpc_security_group_ids"@,
            "internet_reachability"@,
            a,
            b,
            via,
        ),
    ));
}

/// What the literal pass reports stays in the report of both passes.
pub proof fn nothing_is_taken_back(declared: Seq<Declared>, live: Seq<Observed>)
    ensures
        forall|finding: Finding| #[trigger]
            behavioral_report(declared, live).drifts.contains(finding) ==> drift_report(
                declared,
                live,
            ).drifts.contains(finding),
        drift_report(declared, live).unjoinable == behavioral_report(declared, live).unjoinable,
        forall|gap: Unanswered| #[trigger]
            behavioral_report(declared, live).unresolved.contains(gap) ==> drift_report(
                declared,
                live,
            ).unresolved.contains(gap),
{
    let report = behavioral_report(declared, live);
    passes_are_disjoint(declared, live, report);
    assert forall|finding: Finding| #[trigger]
        report.drifts.contains(finding) implies drift_report(declared, live).drifts.contains(
        finding,
    ) by {
        meaning_is_reported_exactly(declared, live, report, Outcome::Drifted(finding));
    }
    assert forall|gap: Unanswered| #[trigger]
        report.unresolved.contains(gap) implies drift_report(declared, live).unresolved.contains(
        gap,
    ) by {
        meaning_is_reported_exactly(declared, live, report, Outcome::Unanswerable(gap));
    }
}

/// A relation that the state is no authority on is listed, once for all resources, with what the
/// state lacks.
pub proof fn want_of_authority_is_listed(
    declared: Seq<Declared>,
    live: Seq<Observed>,
    report: Report,
)
    ensures
        !is_declared(declared, Kind::AwsInstance) ==> semantic_report(
            declared,
            live,
            report,
        ).unresolved.contains(
            Unanswered {
                resource: None,
                relation: "sg_membership"@,
                reason: "declared state contains no `"@ + "aws_instance"@
                    + "`, so it is not authoritative for this relation"@,
            },
        ),
        !is_declared(declared, Kind::AwsSecurityGroup) ==> semantic_report(
            declared,
            live,
            report,
        ).unresolved.contains(
            Unanswered {
                resource: None,
                relation: "instance_exposure"@,
                reason: "declared state contains no `"@ + "aws_security_group"@
                    + "`, so it is not authoritative for this relation"@,
            },
        ),
        !is_declared(declared, Kind::AwsSecurityGroup) ==> semantic_report(
            declared,
            live,
            report,
        ).unresolved.contains(
            Unanswered {
                resource: None,
                relation: "internet_reachability"@,
                reason: "declared state contains no `"@ + "aws_security_group"@
                    + "`, so it is not authoritative for this relation"@,
            },
        ),
{
    authority(&SgMembership, declared, live, Kind::AwsInstance);
    authority(&InstanceExposure, declared, live, Kind::AwsSecurityGroup);
    authority(&InternetReachability, declared, live, Kind::AwsSecurityGroup);
    let group = "declared state contains no `"@ + "aws_security_group"@
        + "`, so it is not authoritative for this relation"@;
    meaning_is_reported_exactly(
        declared,
        live,
        report,
        Outcome::Unanswerable(
            Unanswered {
                resource: None,
                relation: "sg_membership"@,
                reason: "declared state contains no `"@ + "aws_instance"@
                    + "`, so it is not authoritative for this relation"@,
            },
        ),
    );
    meaning_is_reported_exactly(
        declared,
        live,
        report,
        Outcome::Unanswerable(
            Unanswered { resource: None, relation: "instance_exposure"@, reason: group },
        ),
    );
    meaning_is_reported_exactly(
        declared,
        live,
        report,
        Outcome::Unanswerable(
            Unanswered { resource: None, relation: "internet_reachability"@, reason: group },
        ),
    );
}

proof fn unknown_is_listed<R: Relation>(
    relation: &R,
    declared: Seq<Declared>,
    live: Seq<Observed>,
    report: Report,
    n: int,
    id: Seq<char>,
    d: Observed,
    l: Observed,
    reason: Seq<char>,
)
    requires
        relation.subjects().len() > 0,
        relation.subjects()[0].0 == declared[n].kind,
        is_asked(declared, live, report, n, id, d, l, relation.subjects()[0].1),
        first_missing(sides_of(declared, live).declared, relation.needed()) is None,
        relation.meaning(d, sides_of(declared, live).declared) == Err::<Json, _>(reason) || (
        relation.meaning(d, sides_of(declared, live).declared) is Ok && relation.meaning(l, live)
            == Err::<Json, _>(reason)),
    ensures
        said_by(
            relation,
            declared,
            sides_of(declared, live),
            report.drifts,
            Outcome::Unanswerable(
                Unanswered {
                    resource: Some(declared[n].id),
                    relation: relation.called(),
                    reason,
                },
            ),
        ),
{
    let sides = sides_of(declared, live);
    let field = relation.subjects()[0].1;
    unreported_in_words(report, declared[n].id, field);
    let outcome = Outcome::Unanswerable(
        Unanswered { resource: Some(declared[n].id), relation: relation.called(), reason },
    );
    assert(judged(relation, declared[n], declared[n].kind, field, sides, report.drifts) == outcome);
    assert(said_as(
        relation,
        relation.subjects()[0].0,
        field,
        declared,
        sides,
        report.drifts,
        outcome,
    ));
}

/// A declared security group whose rules trust a group that one side has not is listed as one whose
/// meaning is not known, with the reason.
pub proof fn an_unknown_member_group_is_listed(
    declared: Seq<Declared>,
    live: Seq<Observed>,
    report: Report,
    n: int,
    id: Seq<char>,
    d: Observed,
    l: Observed,
    reason: Seq<char>,
)
    requires
        is_asked(declared, live, report, n, id, d, l, "ingress"@),
        declared[n].kind == Kind::AwsSecurityGroup,
        is_declared(declared, Kind::AwsInstance),
        SgMembership.meaning(d, sides_of(declared, live).declared) == Err::<Json, _>(reason) || (
        SgMembership.meaning(d, sides_of(declared, live).declared) is Ok && SgMembership.meaning(
            l,
            live,
        ) == Err::<Json, _>(reason)),
    ensures
        semantic_report(declared, live, report).unresolved.contains(
            Unanswered {
                resource: Some(declared[n].id),
                relation: "sg_membership"@,
                reason,
            },
        ),
{
    authority(&SgMembership, declared, live, Kind::AwsInstance);
    unknown_is_listed(&SgMembership, declared, live, report, n, id, d, l, reason);
    meaning_is_reported_exactly(
        declared,
        live,
        report,
        Outcome::Unanswerable(
            Unanswered { resource: Some(declared[n].id), relation: "sg_membership"@, reason },
        ),
    );
}

/// A declared EC2 instance that is attached to a group that one side has not is listed as one whose
/// exposure is not known, with the reason.
pub proof fn an_unknown_attached_group_is_listed(
    declared: Seq<Declared>,
    live: Seq<Observed>,
    report: Report,
    n: int,
    id: Seq<char>,
    d: Observed,
    l: Observed,
    reason: Seq<char>,
)
    requires
        is_asked(declared, live, report, n, id, d, l, "vpc_security_group_ids"@),
        declared[n].kind == Kind::AwsInstance,
        is_declared(declared, Kind::AwsSecurityGroup),
        InstanceExposure.meaning(d, sides_of(declared, live).declared) == Err::<Json, _>(reason)
            || (InstanceExposure.meaning(d, sides_of(declared, live).declared) is Ok
            && InstanceExposure.meaning(l, live) == Err::<Json, _>(reason)),
    ensures
        semantic_report(declared, live, report).unresolved.contains(
            Unanswered {
                resource: Some(declared[n].id),
                relation: "instance_exposure"@,
                reason,
            },
        ),
{
    authority(&InstanceExposure, declared, live, Kind::AwsSecurityGroup);
    unknown_is_listed(&InstanceExposure, declared, live, report, n, id, d, l, reason);
    meaning_is_reported_exactly(
        declared,
        live,
        report,
        Outcome::Unanswerable(
            Unanswered { resource: Some(declared[n].id), relation: "instance_exposure"@, reason },
        ),
    );
}

/// A relation has this to say of the declared resource numbered `n`: its meaning, `a` in the state
/// and `b` in the account, is known on both sides and differs.
pub open spec fn is_difference(
    declared: Seq<Declared>,
    live: Seq<Observed>,
    report: Report,
    finding: Finding,
    n: int,
    id: Seq<char>,
    d: Observed,
    l: Observed,
) -> bool {
    let graph = sides_of(declared, live).declared;
    let resource = declared[n];
    &&& finding.resource == resource.id
    &&& finding.change matches Change::SemanticChanged {
        field,
        relation,
        declared_effective: a,
        actual_effective: b,
        ..
    } && is_asked(declared, live, report, n, id, d, l, field) && !same_json(a, b) && {
        ||| resource.kind == Kind::AwsSecurityGroup && field == "ingress"@ && relation
            == "sg_membership"@ && is_declared(declared, Kind::AwsInstance) && SgMembership.meaning(
            d,
            graph,
        ) == Ok::<_, Seq<char>>(a) && SgMembership.meaning(l, live) == Ok::<_, Seq<char>>(b)
        ||| resource.kind == Kind::AwsInstance && field == "vpc_security_group_ids"@ && relation
            == "instance_exposure"@ && is_declared(declared, Kind::AwsSecurityGroup)
            && InstanceExposure.meaning(d, graph) == Ok::<_, Seq<char>>(a)
            && InstanceExposure.meaning(l, live) == Ok::<_, Seq<char>>(b)
        ||| (resource.kind == Kind::AwsInstance || resource.kind == Kind::AwsDbInstance
            || resource.kind == Kind::AwsLambdaFunction || resource.kind == Kind::AwsEcsService)
            && field == "vpc_security_group_ids"@ && relation == "internet_reachability"@
            && is_declared(declared, Kind::AwsSecurityGroup) && InternetReachability.meaning(
            d,
            graph,
        ) == Ok::<_, Seq<char>>(a) && InternetReachability.meaning(l, live) == Ok::<_, Seq<char>>(b)
    }
}

proof fn where_said<R: Relation>(
    relation: &R,
    declared: Seq<Declared>,
    sides: Sides,
    drifts: Seq<Finding>,
    finding: Finding,
) -> (r: (int, int))
    requires
        said_by(relation, declared, sides, drifts, Outcome::Drifted(finding)),
    ensures
        0 <= r.0 < relation.subjects().len(),
        0 <= r.1 < declared.len(),
        judged(
            relation,
            declared[r.1],
            relation.subjects()[r.0].0,
            relation.subjects()[r.0].1,
            sides,
            drifts,
        ) == Outcome::Drifted(finding),
        first_missing(sides.declared, relation.needed()) is None,
{
    let outcome = Outcome::Drifted(finding);
    let subjects = relation.subjects();
    let m = choose|m: int|
        0 <= m < subjects.len() && said_as(
            relation,
            (#[trigger] subjects[m]).0,
            subjects[m].1,
            declared,
            sides,
            drifts,
            outcome,
        );
    let n = choose|n: int|
        0 <= n < declared.len() && judged(
            relation,
            #[trigger] declared[n],
            subjects[m].0,
            subjects[m].1,
            sides,
            drifts,
        ) == outcome;
    (m, n)
}

/// Nothing else is said: every finding that the pass over meanings adds is that what a security group,
/// an EC2 instance, an RDS instance, a Lambda function or an ECS service means differs.
pub proof fn every_meaning_finding_is_a_difference(
    declared: Seq<Declared>,
    live: Seq<Observed>,
    report: Report,
    finding: Finding,
)
    requires
        semantic_report(declared, live, report).drifts.contains(finding),
        !report.drifts.contains(finding),
    ensures
        exists|n: int, id: Seq<char>, d: Observed, l: Observed| #[trigger]
            is_difference(declared, live, report, finding, n, id, d, l),
{
    let sides = sides_of(declared, live);
    let outcome = Outcome::Drifted(finding);
    meaning_is_reported_exactly(declared, live, report, outcome);
    authority(&SgMembership, declared, live, Kind::AwsInstance);
    authority(&InstanceExposure, declared, live, Kind::AwsSecurityGroup);
    authority(&InternetReachability, declared, live, Kind::AwsSecurityGroup);
    let (m, n) = if said_by(&SgMembership, declared, sides, report.drifts, outcome) {
        where_said(&SgMembership, declared, sides, report.drifts, finding)
    } else if said_by(&InstanceExposure, declared, sides, report.drifts, outcome) {
        where_said(&InstanceExposure, declared, sides, report.drifts, finding)
    } else {
        where_said(&InternetReachability, declared, sides, report.drifts, finding)
    };
    let resource = declared[n];
    let id = resource.cloud_id()->0;
    let d = observation(sides.declared, resource.kind, id)->0;
    let l = observation(live, resource.kind, id)->0;
    assert(is_difference(declared, live, report, finding, n, id, d, l));
}

} // verus!
