//! The report as text: what is printed after a check, and the code it ends with.

use vstd::prelude::*;

use crate::document::{compact, write_json};
use crate::json::JsonValue;
use crate::text::{decimal, decimal_text, joined, joined_text, texts};
use crate::types::drift::{
    Change, Drift, DriftKind, DriftReport, Finding, Report, Unanswered, Unchecked, Unjoinable,
    Unresolved,
};

verus! {

/// The warning on a resource that could not be checked.
pub open spec fn unjoinable_warning(unjoinable: Unchecked) -> Seq<char> {
    "warning: cannot check "@ + unjoinable.resource + ": "@ + unjoinable.reason
}

fn write_unjoinable(unjoinable: &Unjoinable) -> (r: String)
    ensures
        r@ == unjoinable_warning(unjoinable@),
{
    let mut r = "warning: cannot check ".to_owned();
    r.append(unjoinable.resource.0.as_str());
    r.append(": ");
    r.append(unjoinable.reason.as_str());
    r
}

/// The warning on a relation that could not be evaluated, for one resource or for all of them.
pub open spec fn unresolved_warning(unresolved: Unanswered) -> Seq<char> {
    let subject = match unresolved.resource {
        Some(resource) => resource,
        None => "(all subjects)"@,
    };
    "warning: cannot resolve `"@ + unresolved.relation + "` for "@ + subject + ": "@
        + unresolved.reason
}

fn write_unresolved(unresolved: &Unresolved) -> (r: String)
    ensures
        r@ == unresolved_warning(unresolved@),
{
    let mut r = "warning: cannot resolve `".to_owned();
    r.append(unresolved.relation.as_str());
    r.append("` for ");
    match &unresolved.resource {
        Some(resource) => {
            r.append(resource.0.as_str());
        },
        None => {
            r.append("(all subjects)");
        },
    }
    r.append(": ");
    r.append(unresolved.reason.as_str());
    r
}

/// What every line on a drift starts with: how severe it is, and the resource it is about.
pub open spec fn drift_head(drift: Finding) -> Seq<char> {
    "["@ + drift.severity.name() + "] "@ + drift.resource + ": "@
}

/// The lines on one drift.
///
/// The `via` path of a semantic finding is among them because it is what makes the claim checkable
/// against the account.
pub open spec fn drift_lines(drift: Finding) -> Seq<Seq<char>> {
    match drift.change {
        Change::Missing => seq![drift_head(drift) + "declared in state but not found live"@],
        Change::FieldChanged { field, declared, actual } => seq![
            drift_head(drift) + "'"@ + field + "' drifted"@,
            "    declared: "@ + compact(declared),
            "    actual:   "@ + compact(actual),
        ],
        Change::SemanticChanged { field, relation, declared_effective, actual_effective, via } =>
        seq![
            drift_head(drift) + "`"@ + field + "` unchanged but its meaning drifted ("@ + relation
                + ")"@,
            "    via:      "@ + joined(via, ", "@),
            "    declared: "@ + compact(declared_effective),
            "    actual:   "@ + compact(actual_effective),
        ],
    }
}

fn value_line(label: &str, value: &JsonValue) -> (r: String)
    ensures
        r@ == label@ + compact(value@),
{
    let mut r = label.to_owned();
    r.append(write_json(value).as_str());
    r
}

fn write_drift_head(drift: &Drift) -> (r: String)
    ensures
        r@ == drift_head(drift@),
{
    let mut r = "[".to_owned();
    r.append(drift.severity.label());
    r.append("] ");
    r.append(drift.resource.0.as_str());
    r.append(": ");
    r
}

fn write_drift(drift: &Drift) -> (r: Vec<String>)
    ensures
        texts(r@) == drift_lines(drift@),
{
    let mut head = write_drift_head(drift);
    let r = match &drift.kind {
        DriftKind::Missing => {
            head.append("declared in state but not found live");
            vec![head]
        },
        DriftKind::FieldChanged { field, declared, actual } => {
            head.append("'");
            head.append(field.as_str());
            head.append("' drifted");
            vec![
                head,
                value_line("    declared: ", declared),
                value_line("    actual:   ", actual),
            ]
        },
        DriftKind::SemanticChanged {
            field,
            relation,
            declared_effective,
            actual_effective,
            via,
        } => {
            head.append("`");
            head.append(field.as_str());
            head.append("` unchanged but its meaning drifted (");
            head.append(relation.as_str());
            head.append(")");
            let mut path = "    via:      ".to_owned();
            path.append(joined_text(via, ", ").as_str());
            vec![
                head,
                path,
                value_line("    declared: ", declared_effective),
                value_line("    actual:   ", actual_effective),
            ]
        },
    };
    assert(texts(r@) =~= drift_lines(drift@));
    r
}

/// The lines on some drifts, one after the other.
pub open spec fn all_drift_lines(drifts: Seq<Finding>) -> Seq<Seq<char>>
    decreases drifts.len(),
{
    if drifts.len() == 0 {
        Seq::empty()
    } else {
        all_drift_lines(drifts.drop_last()) + drift_lines(drifts.last())
    }
}

/// What the report ends with.
///
/// "No drift" never absorbs "couldn't check": what could not be checked is counted, so that silence
/// is only ever reported where it was earned.
pub open spec fn closing_lines(report: Report) -> Seq<Seq<char>> {
    let unchecked = report.unjoinable.len() + report.unresolved.len();
    if report.drifts.len() > 0 {
        seq![Seq::empty(), decimal(report.drifts.len()) + " drift(s) detected"@]
    } else if unchecked > 0 {
        seq![
            "no drift detected ("@ + decimal(unchecked) + " check(s) could not be completed)"@,
        ]
    } else {
        seq!["no drift detected"@]
    }
}

fn write_closing(report: &DriftReport) -> (r: Vec<String>)
    ensures
        texts(r@) == closing_lines(report@),
{
    let r = if report.drifts.len() > 0 {
        let mut line = decimal_text(report.drifts.len() as u128);
        line.append(" drift(s) detected");
        vec![String::new(), line]
    } else {
        let unchecked: u128 = report.unjoinable.len() as u128 + report.unresolved.len() as u128;
        if unchecked > 0 {
            let mut line = "no drift detected (".to_owned();
            line.append(decimal_text(unchecked).as_str());
            line.append(" check(s) could not be completed)");
            vec![line]
        } else {
            vec!["no drift detected".to_owned()]
        }
    };
    assert(texts(r@) =~= closing_lines(report@));
    r
}

/// A report as text.
#[derive(Debug)]
pub struct Printed {
    /// What goes to the error stream, line by line.
    pub warnings: Vec<String>,
    /// What goes to the output stream, line by line.
    pub lines: Vec<String>,
}

/// The warnings of a report: first the resources that could not be checked, then the relations
/// that could not be evaluated.
pub open spec fn warnings_of(report: Report) -> Seq<Seq<char>> {
    report.unjoinable.map_values(|u: Unchecked| unjoinable_warning(u))
        + report.unresolved.map_values(|u: Unanswered| unresolved_warning(u))
}

/// The lines of a report: every drift, and how many there are.
pub open spec fn lines_of(report: Report) -> Seq<Seq<char>> {
    all_drift_lines(report.drifts) + closing_lines(report)
}

/// Writes a report as text.
pub fn print_report(report: &DriftReport) -> (r: Printed)
    ensures
        texts(r.warnings@) == warnings_of(report@),
        texts(r.lines@) == lines_of(report@),
{
    let mut warnings: Vec<String> = Vec::new();
    let ghost checks = report@.unjoinable.map_values(|u: Unchecked| unjoinable_warning(u));
    let ghost relations = report@.unresolved.map_values(|u: Unanswered| unresolved_warning(u));
    let mut i: usize = 0;
    while i < report.unjoinable.len()
        invariant
            i <= report.unjoinable.len(),
            checks == report@.unjoinable.map_values(|u: Unchecked| unjoinable_warning(u)),
            texts(warnings@) =~= checks.take(i as int),
        decreases report.unjoinable.len() - i,
    {
        let warning = write_unjoinable(&report.unjoinable[i]);
        let ghost before = texts(warnings@);
        let ghost added = warning@;
        warnings.push(warning);
        assert(texts(warnings@) =~= before.push(added));
        assert(added == checks[i as int]);
        i += 1;
    }
    assert(texts(warnings@) =~= checks + relations.take(0));
    let mut j: usize = 0;
    while j < report.unresolved.len()
        invariant
            j <= report.unresolved.len(),
            relations == report@.unresolved.map_values(|u: Unanswered| unresolved_warning(u)),
            texts(warnings@) =~= checks + relations.take(j as int),
        decreases report.unresolved.len() - j,
    {
        let warning = write_unresolved(&report.unresolved[j]);
        let ghost before = texts(warnings@);
        let ghost added = warning@;
        warnings.push(warning);
        assert(texts(warnings@) =~= before.push(added));
        assert(added == relations[j as int]);
        j += 1;
    }
    assert(texts(warnings@) =~= warnings_of(report@));
    let mut lines: Vec<String> = Vec::new();
    let mut k: usize = 0;
    assert(report@.drifts.take(0) =~= Seq::empty());
    while k < report.drifts.len()
        invariant
            k <= report.drifts.len(),
            texts(lines@) =~= all_drift_lines(report@.drifts.take(k as int)),
        decreases report.drifts.len() - k,
    {
        proof {
            let next = report@.drifts.take(k + 1);
            assert(next.drop_last() =~= report@.drifts.take(k as int));
            assert(next.last() == report.drifts[k as int]@);
        }
        let mut more = write_drift(&report.drifts[k]);
        let ghost before = texts(lines@);
        let ghost added = texts(more@);
        lines.append(&mut more);
        assert(texts(lines@) =~= before + added);
        k += 1;
    }
    assert(report@.drifts.take(k as int) =~= report@.drifts);
    let mut closing = write_closing(report);
    let ghost before = texts(lines@);
    let ghost added = texts(closing@);
    lines.append(&mut closing);
    assert(texts(lines@) =~= before + added);
    Printed { warnings, lines }
}

/// What a check ends with: 0 when it found no drift, 2 when it found some. The code 1 is left for
/// a check that failed.
pub fn exit_code(report: &DriftReport) -> (r: u8)
    ensures
        r == (if report@.drifts.len() == 0 {
            0u8
        } else {
            2u8
        }),
{
    if report.drifts.len() == 0 {
        0
    } else {
        2
    }
}

/// A report that says "no drift detected" and nothing more has found no drift, and has completed
/// every check.
pub proof fn silence_is_earned(report: Report)
    ensures
        (closing_lines(report) == seq!["no drift detected"@]) == (report.drifts.len() == 0
            && report.unjoinable.len() == 0 && report.unresolved.len() == 0),
        warnings_of(report).len() == report.unjoinable.len() + report.unresolved.len(),
{
    let unchecked = report.unjoinable.len() + report.unresolved.len();
    reveal_strlit("no drift detected");
    reveal_strlit("no drift detected (");
    if report.drifts.len() > 0 {
        assert(closing_lines(report).len() == 2);
    } else if unchecked > 0 {
        assert(closing_lines(report)[0].len() > "no drift detected"@.len());
        assert(seq!["no drift detected"@][0].len() == "no drift detected"@.len());
    }
}

/// Every drift has its lines in the text, after those of the drifts before it and before those of
/// the drifts after it.
pub proof fn every_drift_is_printed(drifts: Seq<Finding>, place: int)
    requires
        0 <= place < drifts.len(),
    ensures
        all_drift_lines(drifts) == all_drift_lines(drifts.take(place)) + drift_lines(drifts[place])
            + all_drift_lines(drifts.skip(place + 1)),
    decreases drifts.len(),
{
    let init = drifts.drop_last();
    if place == drifts.len() - 1 {
        assert(drifts.take(place) =~= init);
        assert(drifts.skip(place + 1) =~= Seq::empty());
        assert(all_drift_lines(drifts) =~= all_drift_lines(drifts.take(place)) + drift_lines(
            drifts[place],
        ) + all_drift_lines(drifts.skip(place + 1)));
    } else {
        every_drift_is_printed(init, place);
        assert(init.take(place) =~= drifts.take(place));
        assert(drifts.skip(place + 1).drop_last() =~= init.skip(place + 1));
        assert(drifts.skip(place + 1).last() == drifts.last());
        assert(all_drift_lines(drifts) =~= all_drift_lines(drifts.take(place)) + drift_lines(
            drifts[place],
        ) + all_drift_lines(drifts.skip(place + 1)));
    }
}

} // verus!
