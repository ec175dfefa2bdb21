//! What is printed of a report, and what the browser shows of it and does with keys.

use vstd::prelude::*;

use crate::document::compact;
use crate::report::{
    all_drift_lines, closing_lines, drift_lines, every_drift_is_printed, lines_of, unjoinable_warning,
    unresolved_warning, warnings_of,
};
use crate::text::{decimal, joined};
use crate::tui::app::{pressed, KeyCode, Moved, Tab};
use crate::tui::views::{
    badge, body, drift_detail, drift_entry, piece, severities, severity_count, severity_tone,
    tab_texts, unjoinable_entry, unresolved_entry, with_severity, Pane, Piece, Tone,
};
use crate::types::drift::{Change, Finding, Report, Severity};

verus! {

/// The word for a severity.
pub open spec fn word_for(severity: Severity) -> Seq<char> {
    match severity {
        Severity::Info => "Info"@,
        Severity::Low => "Low"@,
        Severity::Medium => "Medium"@,
        Severity::High => "High"@,
        Severity::Critical => "Critical"@,
    }
}

/// A printed line starts with how severe a finding is and what it is about.
pub open spec fn opening(drift: Finding) -> Seq<char> {
    "["@ + word_for(drift.severity) + "] "@ + drift.resource + ": "@
}

/// Every finding is printed, with everything that it says: how severe it is and what resource it is
/// about; of a changed field, its name and both values; of a changed meaning, besides, the relation
/// and the path.
pub proof fn every_finding_is_printed(report: Report, k: int)
    requires
        0 <= k < report.drifts.len(),
    ensures
        ({
            let lines = lines_of(report);
            let drift = report.drifts[k];
            match drift.change {
                Change::Missing => lines.contains(
                    opening(drift) + "declared in state but not found live"@,
                ),
                Change::FieldChanged { field, declared, actual } => {
                    &&& lines.contains(opening(drift) + "'"@ + field + "' drifted"@)
                    &&& lines.contains("    declared: "@ + compact(declared))
                    &&& lines.contains("    actual:   "@ + compact(actual))
                },
                Change::SemanticChanged {
                    field,
                    relation,
                    declared_effective,
                    actual_effective,
                    via,
                } => {
                    &&& lines.contains(
                        opening(drift) + "`"@ + field + "` unchanged but its meaning drifted ("@
                            + relation + ")"@,
                    )
                    &&& lines.contains("    via:      "@ + joined(via, ", "@))
                    &&& lines.contains("    declared: "@ + compact(declared_effective))
                    &&& lines.contains("    actual:   "@ + compact(actual_effective))
                },
            }
        }),
{
    let drifts = report.drifts;
    let lines = lines_of(report);
    let own = drift_lines(drifts[k]);
    every_drift_is_printed(drifts, k);
    let before = all_drift_lines(drifts.take(k));
    assert forall|i: int| 0 <= i < own.len() implies lines.contains(#[trigger] own[i]) by {
        assert(lines[before.len() + i] == own[i]);
    }
    match drifts[k].change {
        Change::Missing => {
            assert(lines.contains(own[0]));
        },
        Change::FieldChanged { .. } => {
            assert(lines.contains(own[0]) && lines.contains(own[1]) && lines.contains(own[2]));
        },
        Change::SemanticChanged { .. } => {
            assert(lines.contains(own[0]) && lines.contains(own[1]) && lines.contains(own[2])
                && lines.contains(own[3]));
        },
    }
}

/// The last line says how many findings there are, and where there are none that there is no drift,
/// with how many checks could not be completed, if there are such.
pub proof fn the_last_line_counts(report: Report)
    ensures
        report.drifts.len() > 0 ==> lines_of(report).last() == decimal(report.drifts.len())
            + " drift(s) detected"@,
        report.drifts.len() == 0 && report.unjoinable.len() + report.unresolved.len() > 0
            ==> lines_of(report) == seq![
            "no drift detected ("@ + decimal(report.unjoinable.len() + report.unresolved.len())
                + " check(s) could not be completed)"@,
        ],
        report.drifts.len() == 0 && report.unjoinable.len() == 0 && report.unresolved.len() == 0
            ==> lines_of(report) == seq!["no drift detected"@],
{
    let closing = closing_lines(report);
    assert(lines_of(report).last() == closing.last());
    if report.drifts.len() == 0 {
        assert(lines_of(report) =~= closing);
    }
}

/// Everything that could not be checked is warned of: each resource with the reason, and each
/// relation with the reason and the resource, or for all of them.
pub proof fn everything_unchecked_is_warned_of(report: Report)
    ensures
        forall|i: int|
            0 <= i < report.unjoinable.len() ==> warnings_of(report).contains(
                "warning: cannot check "@ + (#[trigger] report.unjoinable[i]).resource + ": "@
                    + report.unjoinable[i].reason,
            ),
        forall|i: int|
            0 <= i < report.unresolved.len() ==> match (#[trigger] report.unresolved[i]).resource {
                Some(resource) => warnings_of(report).contains(
                    "warning: cannot resolve `"@ + report.unresolved[i].relation + "` for "@
                        + resource + ": "@ + report.unresolved[i].reason,
                ),
                None => warnings_of(report).contains(
                    "warning: cannot resolve `"@ + report.unresolved[i].relation + "` for "@
                        + "(all subjects)"@ + ": "@ + report.unresolved[i].reason,
                ),
            },
        warnings_of(report).len() == report.unjoinable.len() + report.unresolved.len(),
{
    let warnings = warnings_of(report);
    let n = report.unjoinable.len() as int;
    assert forall|i: int| 0 <= i < n implies warnings.contains(
        unjoinable_warning(#[trigger] report.unjoinable[i]),
    ) by {
        assert(warnings[i] == unjoinable_warning(report.unjoinable[i]));
    }
    assert forall|i: int| 0 <= i < report.unresolved.len() implies warnings.contains(
        unresolved_warning(#[trigger] report.unresolved[i]),
    ) by {
        assert(warnings[n + i] == unresolved_warning(report.unresolved[i]));
    }
}

/// The screen after this one: from the drifts to what is unresolved, to what is unjoinable, and back.
pub open spec fn after(tab: Tab) -> Tab {
    match tab {
        Tab::Drifts => Tab::Unresolved,
        Tab::Unresolved => Tab::Unjoinable,
        Tab::Unjoinable => Tab::Drifts,
    }
}

/// `Tab` goes on to the next screen and `Shift+Tab` comes back from it, and neither does anything
/// else.
pub proof fn tab_keys_turn_the_screens(from: Moved, length: nat)
    ensures
        pressed(from, length, KeyCode::Tab) == (Moved { tab: after(from.tab), ..from }),
        after(pressed(from, length, KeyCode::BackTab).tab) == from.tab,
        pressed(from, length, KeyCode::BackTab).selected == from.selected,
        pressed(from, length, KeyCode::BackTab).should_quit == from.should_quit,
{
}

/// Among the drifts, down and `j` move the selection one further, to the first where there was none,
/// and stop at the last; up and `k` move it one back, to the last where there was none, and stop at
/// the first. Nothing else changes.
pub proof fn arrow_keys_move_the_selection(from: Moved, length: nat)
    requires
        from.tab == Tab::Drifts,
        0 < length <= usize::MAX,
        from.selected matches Some(i) ==> i < length,
    ensures
        pressed(from, length, KeyCode::Char('j')) == pressed(from, length, KeyCode::Down),
        pressed(from, length, KeyCode::Char('k')) == pressed(from, length, KeyCode::Up),
        ({
            let down = pressed(from, length, KeyCode::Down);
            &&& down.tab == from.tab && down.should_quit == from.should_quit
            &&& down.selected matches Some(to) && match from.selected {
                None => to == 0,
                Some(i) => if i + 1 < length {
                    to == i + 1
                } else {
                    to == i
                },
            }
        }),
        ({
            let up = pressed(from, length, KeyCode::Up);
            &&& up.tab == from.tab && up.should_quit == from.should_quit
            &&& up.selected matches Some(to) && match from.selected {
                None => to == length - 1,
                Some(i) => if i > 0 {
                    to == i - 1
                } else {
                    to == i
                },
            }
        }),
{
}

/// `q` and `Esc` quit, and every other key that is no arrow or tab key does nothing; away from the
/// drifts the arrow keys do nothing either.
pub proof fn other_keys(from: Moved, length: nat, key: KeyCode)
    ensures
        pressed(from, length, KeyCode::Char('q')) == (Moved { should_quit: true, ..from }),
        pressed(from, length, KeyCode::Esc) == (Moved { should_quit: true, ..from }),
        key == KeyCode::Other || (key matches KeyCode::Char(c) && c != 'q' && c != 'j' && c != 'k')
            ==> pressed(from, length, key) == from,
        from.tab != Tab::Drifts && (key == KeyCode::Up || key == KeyCode::Down || key
            == KeyCode::Char('j') || key == KeyCode::Char('k')) ==> pressed(from, length, key)
            == from,
{
}

/// The three sorts of findings have badges of their own, and the five severities tones of their own.
pub proof fn findings_are_told_apart(change: Change, severity: Severity)
    ensures
        change is Missing ==> badge(change) == ("MISS"@, Tone::Critical),
        change is FieldChanged ==> badge(change) == ("FIELD"@, Tone::Low),
        change is SemanticChanged ==> badge(change) == ("SEM"@, Tone::Semantic),
        severity_tone(severity) == Tone::Critical <==> severity == Severity::Critical,
        severity_tone(severity) == Tone::High <==> severity == Severity::High,
        severity_tone(severity) == Tone::Medium <==> severity == Severity::Medium,
        severity_tone(severity) == Tone::Low <==> severity == Severity::Low,
        severity_tone(severity) == Tone::Info <==> severity == Severity::Info,
{
}

/// The row of tabs names each screen, with how many entries it lists.
pub proof fn tabs_count_their_entries(report: Report)
    ensures
        tab_texts(report).len() == 3,
        tab_texts(report)[0] == " "@ + "Drifts"@ + " ("@ + decimal(report.drifts.len()) + ") "@,
        tab_texts(report)[1] == " "@ + "Unresolved"@ + " ("@ + decimal(report.unresolved.len())
            + ") "@,
        tab_texts(report)[2] == " "@ + "Unjoinable"@ + " ("@ + decimal(report.unjoinable.len())
            + ") "@,
{
}

proof fn counted_among(drifts: Seq<Finding>, severity: Severity)
    ensures
        severity_count(drifts, severity) == drifts.filter(
            |drift: Finding| drift.severity == severity,
        ).len(),
    decreases drifts.len(),
{
    reveal(Seq::filter);
    if drifts.len() > 0 {
        counted_among(drifts.drop_last(), severity);
    }
}

proof fn stays_on_the_line(line: Seq<Piece>, drifts: Seq<Finding>, severity: Severity, held: Piece)
    requires
        line.contains(held),
    ensures
        with_severity(line, drifts, severity).contains(held),
{
    broadcast use vstd::seq_lib::group_seq_properties;

}

proof fn comes_on_the_line(line: Seq<Piece>, drifts: Seq<Finding>, severity: Severity)
    requires
        severity_count(drifts, severity) > 0,
    ensures
        with_severity(line, drifts, severity).contains(
            piece(
                word_for(severity) + " "@ + decimal(severity_count(drifts, severity)),
                Tone::TextDim,
            ),
        ),
{
    broadcast use vstd::seq_lib::group_seq_properties;

}

/// The status line counts the findings of every severity that there are some of.
pub proof fn every_severity_is_counted(drifts: Seq<Finding>, severity: Severity)
    requires
        drifts.filter(|drift: Finding| drift.severity == severity).len() > 0,
    ensures
        severities(drifts).contains(
            piece(
                word_for(severity) + " "@ + decimal(
                    drifts.filter(|drift: Finding| drift.severity == severity).len(),
                ),
                Tone::TextDim,
            ),
        ),
{
    counted_among(drifts, severity);
    let held = piece(
        word_for(severity) + " "@ + decimal(severity_count(drifts, severity)),
        Tone::TextDim,
    );
    let critical = with_severity(Seq::empty(), drifts, Severity::Critical);
    let high = with_severity(critical, drifts, Severity::High);
    let medium = with_severity(high, drifts, Severity::Medium);
    let low = with_severity(medium, drifts, Severity::Low);
    if severity == Severity::Critical {
        comes_on_the_line(Seq::empty(), drifts, severity);
        assert(critical.contains(held));
    }
    if severity == Severity::High {
        comes_on_the_line(critical, drifts, severity);
    }
    if severity == Severity::Critical {
        stays_on_the_line(critical, drifts, Severity::High, held);
    }
    if severity == Severity::Medium {
        comes_on_the_line(high, drifts, severity);
    }
    if high.contains(held) {
        stays_on_the_line(high, drifts, Severity::Medium, held);
    }
    if severity == Severity::Low {
        comes_on_the_line(medium, drifts, severity);
    }
    if medium.contains(held) {
        stays_on_the_line(medium, drifts, Severity::Low, held);
    }
    if severity == Severity::Info {
        comes_on_the_line(low, drifts, severity);
    }
    if low.contains(held) {
        stays_on_the_line(low, drifts, Severity::Info, held);
    }
}

/// `text` is shown on one of some lines.
pub open spec fn is_shown(lines: Seq<Seq<Piece>>, text: Seq<char>) -> bool {
    exists|i: int, j: int|
        0 <= i < lines.len() && 0 <= j < lines[i].len() && (#[trigger] lines[i][j]).text == text
}

proof fn shown_at(lines: Seq<Seq<Piece>>, i: int, j: int)
    requires
        0 <= i < lines.len(),
        0 <= j < lines[i].len(),
    ensures
        is_shown(lines, lines[i][j].text),
{
}

/// The detail of a finding shows everything that it says.
pub proof fn the_detail_shows_everything(drift: Finding)
    ensures
        is_shown(drift_detail(drift), drift.resource),
        match drift.change {
            Change::Missing => is_shown(
                drift_detail(drift),
                "declared in state with a cloud id, but not found live"@,
            ),
            Change::FieldChanged { field, declared, actual } => {
                &&& is_shown(drift_detail(drift), field)
                &&& is_shown(drift_detail(drift), compact(declared))
                &&& is_shown(drift_detail(drift), compact(actual))
            },
            Change::SemanticChanged { field, relation, declared_effective, via, .. } => {
                &&& is_shown(drift_detail(drift), field)
                &&& is_shown(drift_detail(drift), relation)
                &&& is_shown(drift_detail(drift), joined(via, ", "@))
                &&& is_shown(drift_detail(drift), compact(declared_effective))
            },
        },
{
    let lines = drift_detail(drift);
    shown_at(lines, 0, 0);
    match drift.change {
        Change::Missing => {
            shown_at(lines, 3, 0);
        },
        Change::FieldChanged { .. } => {
            shown_at(lines, 2, 1);
            shown_at(lines, 5, 0);
            shown_at(lines, 8, 0);
        },
        Change::SemanticChanged { .. } => {
            shown_at(lines, 2, 1);
            shown_at(lines, 3, 1);
            shown_at(lines, 5, 1);
            shown_at(lines, 8, 0);
        },
    }
}

/// Each screen lists its own part of the report, entry by entry, and an entry shows what it is about
/// and, of a check that could not be completed, why.
pub proof fn each_screen_lists_its_part(report: Report, selected: Option<usize>, k: int)
    ensures
        0 <= k < report.drifts.len() ==> (body(report, Tab::Drifts, selected) matches Pane::Drifts {
            entries,
            ..
        } && entries.len() == report.drifts.len() && is_shown(
            entries[k],
            report.drifts[k].resource,
        )),
        0 <= k < report.unresolved.len() ==> (body(
            report,
            Tab::Unresolved,
            selected,
        ) matches Pane::Entries(entries) && entries.len() == report.unresolved.len() && is_shown(
            entries[k],
            report.unresolved[k].relation,
        ) && is_shown(entries[k], report.unresolved[k].reason) && is_shown(
            entries[k],
            match report.unresolved[k].resource {
                Some(resource) => resource,
                None => "(all subjects)"@,
            },
        )),
        0 <= k < report.unjoinable.len() ==> (body(
            report,
            Tab::Unjoinable,
            selected,
        ) matches Pane::Entries(entries) && entries.len() == report.unjoinable.len() && is_shown(
            entries[k],
            report.unjoinable[k].resource,
        ) && is_shown(entries[k], report.unjoinable[k].reason)),
        (selected matches Some(i) && i < report.drifts.len()) ==> (body(
            report,
            Tab::Drifts,
            selected,
        ) matches Pane::Drifts { detail, .. } && detail == drift_detail(
            report.drifts[selected->0 as int],
        )),
{
    if 0 <= k < report.drifts.len() {
        shown_at(drift_entry(report.drifts[k]), 0, 3);
    }
    if 0 <= k < report.unresolved.len() {
        let lines = unresolved_entry(report.unresolved[k]);
        shown_at(lines, 0, 0);
        shown_at(lines, 0, 2);
        shown_at(lines, 1, 0);
    }
    if 0 <= k < report.unjoinable.len() {
        let lines = unjoinable_entry(report.unjoinable[k]);
        shown_at(lines, 0, 0);
        shown_at(lines, 1, 0);
    }
}

} // verus!
