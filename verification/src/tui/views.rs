//! What each screen shows: lines of styled text, for a terminal to lay out.

use vstd::prelude::*;

use crate::document::{compact, write_json};
use crate::json::{listed_texts, strings_of, Json, JsonValue};
use crate::text::{
    capitals, decimal, decimal_text, in_capitals, joined, joined_text, pad, padded, same, texts,
};
use crate::tui::app::{App, Tab};
use crate::types::drift::{
    Change, Drift, DriftKind, DriftReport, Finding, Report, Severity, Unanswered, Unchecked,
    Unjoinable, Unresolved,
};

verus! {

/// What a piece of text stands for, which decides its color.
#[derive(Debug, Clone, Copy, PartialEq, Eq, Structural)]
pub enum Tone {
    /// The terminal's own color.
    Plain,
    Text,
    TextDim,
    TextFaint,
    Accent,
    Semantic,
    Critical,
    High,
    Medium,
    Low,
    Info,
    DiffAdd,
}

/// A piece of text in one style.
#[derive(Debug)]
pub struct Span {
    pub text: String,
    pub tone: Tone,
    pub bold: bool,
}

/// What a [`Span`] denotes.
pub struct Piece {
    pub text: Seq<char>,
    pub tone: Tone,
    pub bold: bool,
}

impl View for Span {
    type V = Piece;

    open spec fn view(&self) -> Piece {
        Piece { text: self.text@, tone: self.tone, bold: self.bold }
    }
}

/// One line of a screen.
pub type Line = Vec<Span>;

/// What a line shows.
pub open spec fn line_of(line: Seq<Span>) -> Seq<Piece> {
    line.map_values(|s: Span| s@)
}

/// What some lines show.
pub open spec fn lines_of(lines: Seq<Line>) -> Seq<Seq<Piece>> {
    lines.map_values(|l: Line| line_of(l@))
}

/// What some entries of several lines show.
pub open spec fn entries_of(entries: Seq<Vec<Line>>) -> Seq<Seq<Seq<Piece>>> {
    entries.map_values(|e: Vec<Line>| lines_of(e@))
}

/// Text in a tone.
pub open spec fn piece(text: Seq<char>, tone: Tone) -> Piece {
    Piece { text, tone, bold: false }
}

/// Bold text in a tone.
pub open spec fn strong(text: Seq<char>, tone: Tone) -> Piece {
    Piece { text, tone, bold: true }
}

fn styled(text: String, tone: Tone) -> (r: Span)
    ensures
        r@ == piece(text@, tone),
{
    Span { text, tone, bold: false }
}

fn bold(text: String, tone: Tone) -> (r: Span)
    ensures
        r@ == strong(text@, tone),
{
    Span { text, tone, bold: true }
}

fn single(span: Span) -> (r: Line)
    ensures
        line_of(r@) == seq![span@],
{
    let r = vec![span];
    assert(line_of(r@) =~= seq![span@]);
    r
}

fn pair(first: Span, second: Span) -> (r: Line)
    ensures
        line_of(r@) == seq![first@, second@],
{
    let r = vec![first, second];
    assert(line_of(r@) =~= seq![first@, second@]);
    r
}

fn blank() -> (r: Line)
    ensures
        line_of(r@) == Seq::<Piece>::empty(),
{
    let r: Line = Vec::new();
    assert(line_of(r@) =~= Seq::<Piece>::empty());
    r
}

fn push_span(line: &mut Line, span: Span)
    ensures
        line_of(final(line)@) == line_of(old(line)@).push(span@),
{
    line.push(span);
    assert(line_of(line@) =~= line_of(old(line)@).push(span@));
}

fn push_line(lines: &mut Vec<Line>, line: Line)
    ensures
        lines_of(final(lines)@) == lines_of(old(lines)@).push(line_of(line@)),
{
    let ghost added = line_of(line@);
    lines.push(line);
    assert(lines_of(lines@) =~= lines_of(old(lines)@).push(added));
}

/// The title: what this is, and the state it looks at.
pub open spec fn title(state_path: Seq<char>) -> Seq<Piece> {
    seq![
        strong("uncia"@, Tone::Accent),
        piece("  ·  "@, Tone::TextFaint),
        piece(state_path, Tone::TextDim),
    ]
}

/// Writes the title line.
pub fn draw_title(app: &App) -> (r: Line)
    ensures
        line_of(r@) == title(app.state_path@),
{
    let r = vec![
        bold("uncia".to_owned(), Tone::Accent),
        styled("  ·  ".to_owned(), Tone::TextFaint),
        styled(app.state_path.clone(), Tone::TextDim),
    ];
    assert(line_of(r@) =~= title(app.state_path@));
    r
}

/// How many entries a screen lists.
pub open spec fn entry_count(tab: Tab, report: Report) -> nat {
    match tab {
        Tab::Drifts => report.drifts.len(),
        Tab::Unresolved => report.unresolved.len(),
        Tab::Unjoinable => report.unjoinable.len(),
    }
}

/// The text on a tab: its name and how many entries are behind it.
pub open spec fn tab_text(tab: Tab, report: Report) -> Seq<char> {
    " "@ + tab.title() + " ("@ + decimal(entry_count(tab, report)) + ") "@
}

fn tab_label(tab: Tab, report: &DriftReport) -> (r: String)
    ensures
        r@ == tab_text(tab, report@),
{
    let count: usize = match tab {
        Tab::Drifts => report.drifts.len(),
        Tab::Unresolved => report.unresolved.len(),
        Tab::Unjoinable => report.unjoinable.len(),
    };
    let mut r = " ".to_owned();
    r.append(tab.label());
    r.append(" (");
    r.append(decimal_text(count as u128).as_str());
    r.append(") ");
    r
}

/// The row of tabs.
pub open spec fn tab_texts(report: Report) -> Seq<Seq<char>> {
    seq![
        tab_text(Tab::Drifts, report),
        tab_text(Tab::Unresolved, report),
        tab_text(Tab::Unjoinable, report),
    ]
}

/// Writes the row of tabs.
pub fn draw_tabs(app: &App) -> (r: Vec<String>)
    ensures
        texts(r@) == tab_texts(app.report@),
{
    let r = vec![
        tab_label(Tab::Drifts, &app.report),
        tab_label(Tab::Unresolved, &app.report),
        tab_label(Tab::Unjoinable, &app.report),
    ];
    assert(texts(r@) =~= tab_texts(app.report@));
    r
}

/// How many drifts have a severity.
pub open spec fn severity_count(drifts: Seq<Finding>, severity: Severity) -> nat
    decreases drifts.len(),
{
    if drifts.len() == 0 {
        0
    } else {
        severity_count(drifts.drop_last(), severity) + if drifts.last().severity == severity {
            1nat
        } else {
            0nat
        }
    }
}

/// Every drift has exactly one severity: the counts add up to the number of drifts.
pub proof fn severities_add_up(drifts: Seq<Finding>)
    ensures
        severity_count(drifts, Severity::Critical) + severity_count(drifts, Severity::High)
            + severity_count(drifts, Severity::Medium) + severity_count(drifts, Severity::Low)
            + severity_count(drifts, Severity::Info) == drifts.len(),
    decreases drifts.len(),
{
    if drifts.len() > 0 {
        severities_add_up(drifts.drop_last());
    }
}

fn count_severity(drifts: &Vec<Drift>, severity: Severity) -> (r: usize)
    ensures
        r == severity_count(drifts@.map_values(|d: Drift| d@), severity),
{
    let ghost all = drifts@.map_values(|d: Drift| d@);
    let mut r: usize = 0;
    let mut i: usize = 0;
    while i < drifts.len()
        invariant
            i <= drifts.len(),
            r <= i,
            all == drifts@.map_values(|d: Drift| d@),
            r == severity_count(all.take(i as int), severity),
        decreases drifts.len() - i,
    {
        proof {
            assert(all.take(i + 1).drop_last() =~= all.take(i as int));
            assert(all.take(i + 1).last() == drifts[i as int]@);
        }
        if drifts[i].severity == severity {
            r += 1;
        }
        i += 1;
    }
    assert(all.take(i as int) =~= all);
    r
}

/// The tone of a severity.
pub open spec fn severity_tone(severity: Severity) -> Tone {
    match severity {
        Severity::Critical => Tone::Critical,
        Severity::High => Tone::High,
        Severity::Medium => Tone::Medium,
        Severity::Low => Tone::Low,
        Severity::Info => Tone::Info,
    }
}

/// The tone of a severity.
pub fn severity_color(severity: Severity) -> (r: Tone)
    ensures
        r == severity_tone(severity),
{
    match severity {
        Severity::Critical => Tone::Critical,
        Severity::High => Tone::High,
        Severity::Medium => Tone::Medium,
        Severity::Low => Tone::Low,
        Severity::Info => Tone::Info,
    }
}

/// A line of counts with one more severity on it: a dot and the count, set off from what stands
/// before. A severity that no drift has is left out.
pub open spec fn with_severity(
    line: Seq<Piece>,
    drifts: Seq<Finding>,
    severity: Severity,
) -> Seq<Piece> {
    let n = severity_count(drifts, severity);
    if n == 0 {
        line
    } else {
        (if line.len() == 0 {
            line
        } else {
            line.push(piece("   "@, Tone::Plain))
        }).push(piece("● "@, severity_tone(severity))).push(
            piece(severity.name() + " "@ + decimal(n), Tone::TextDim),
        )
    }
}

/// How many drifts there are of each severity, the worst first.
pub open spec fn severities(drifts: Seq<Finding>) -> Seq<Piece> {
    let critical = with_severity(Seq::empty(), drifts, Severity::Critical);
    let high = with_severity(critical, drifts, Severity::High);
    let medium = with_severity(high, drifts, Severity::Medium);
    let low = with_severity(medium, drifts, Severity::Low);
    with_severity(low, drifts, Severity::Info)
}

/// The status line: the drifts by severity, and how many checks could not be completed.
pub open spec fn status(report: Report) -> Seq<Piece> {
    let shown = if severities(report.drifts).len() == 0 {
        seq![piece("no drift detected"@, Tone::TextFaint)]
    } else {
        severities(report.drifts)
    };
    let incomplete = report.unresolved.len() + report.unjoinable.len();
    if incomplete == 0 {
        shown
    } else {
        shown.push(piece("   "@, Tone::Plain)).push(
            piece(decimal(incomplete) + " check(s) incomplete"@, Tone::TextFaint),
        )
    }
}

/// The status line says that there is no drift exactly when there is none, and says of every check
/// that could not be completed that it was not.
pub proof fn status_is_honest(report: Report)
    ensures
        (status(report)[0] == piece("no drift detected"@, Tone::TextFaint))
            == (report.drifts.len() == 0),
        report.unresolved.len() + report.unjoinable.len() > 0 ==> status(report).last() == piece(
            decimal(report.unresolved.len() + report.unjoinable.len()) + " check(s) incomplete"@,
            Tone::TextFaint,
        ),
{
    let drifts = report.drifts;
    severities_add_up(drifts);
    let critical = with_severity(Seq::empty(), drifts, Severity::Critical);
    let high = with_severity(critical, drifts, Severity::High);
    let medium = with_severity(high, drifts, Severity::Medium);
    let low = with_severity(medium, drifts, Severity::Low);
    first_piece_is_a_dot(Seq::empty(), drifts, Severity::Critical);
    first_piece_is_a_dot(critical, drifts, Severity::High);
    first_piece_is_a_dot(high, drifts, Severity::Medium);
    first_piece_is_a_dot(medium, drifts, Severity::Low);
    first_piece_is_a_dot(low, drifts, Severity::Info);
}

/// A line that is empty or starts with a severity's dot stays so with one more severity on it.
proof fn first_piece_is_a_dot(line: Seq<Piece>, drifts: Seq<Finding>, severity: Severity)
    requires
        line.len() > 0 ==> line[0].tone != Tone::TextFaint,
    ensures
        with_severity(line, drifts, severity).len() > 0 ==> with_severity(
            line,
            drifts,
            severity,
        )[0].tone != Tone::TextFaint,
        with_severity(line, drifts, severity).len() > 0 <==> line.len() > 0 || severity_count(
            drifts,
            severity,
        ) > 0,
{
}

fn push_severity(line: &mut Line, drifts: &Vec<Drift>, severity: Severity)
    ensures
        line_of(final(line)@) == with_severity(
            line_of(old(line)@),
            drifts@.map_values(|d: Drift| d@),
            severity,
        ),
{
    let n: usize = count_severity(drifts, severity);
    if n > 0 {
        if line.len() > 0 {
            push_span(line, styled("   ".to_owned(), Tone::Plain));
        }
        push_span(line, styled("● ".to_owned(), severity_color(severity)));
        let mut counted = severity.label().to_owned();
        counted.append(" ");
        counted.append(decimal_text(n as u128).as_str());
        push_span(line, styled(counted, Tone::TextDim));
    }
}

/// Writes the status line.
pub fn draw_status(app: &App) -> (r: Line)
    ensures
        line_of(r@) == status(app.report@),
{
    let drifts = &app.report.drifts;
    let mut r = blank();
    push_severity(&mut r, drifts, Severity::Critical);
    push_severity(&mut r, drifts, Severity::High);
    push_severity(&mut r, drifts, Severity::Medium);
    push_severity(&mut r, drifts, Severity::Low);
    push_severity(&mut r, drifts, Severity::Info);
    if r.len() == 0 {
        r = single(styled("no drift detected".to_owned(), Tone::TextFaint));
    }
    let incomplete: u128 = app.report.unresolved.len() as u128
        + app.report.unjoinable.len() as u128;
    if incomplete > 0 {
        push_span(&mut r, styled("   ".to_owned(), Tone::Plain));
        let mut counted = decimal_text(incomplete);
        counted.append(" check(s) incomplete");
        push_span(&mut r, styled(counted, Tone::TextFaint));
    }
    r
}

/// The badge of a drift's kind and its tone. It is the loudest signal in the list, ahead of severity:
/// telling behavioral from semantic drift is what uncia is for.
pub open spec fn badge(change: Change) -> (Seq<char>, Tone) {
    match change {
        Change::Missing => ("MISS"@, Tone::Critical),
        Change::FieldChanged { .. } => ("FIELD"@, Tone::Low),
        Change::SemanticChanged { .. } => ("SEM"@, Tone::Semantic),
    }
}

/// Gives the badge of a drift's kind and its tone.
pub fn badge_for(kind: &DriftKind) -> (r: (&'static str, Tone))
    ensures
        (r.0@, r.1) == badge(kind@),
{
    match kind {
        DriftKind::Missing => ("MISS", Tone::Critical),
        DriftKind::FieldChanged { .. } => ("FIELD", Tone::Low),
        DriftKind::SemanticChanged { .. } => ("SEM", Tone::Semantic),
    }
}

/// One line on what happened.
pub open spec fn summary(change: Change) -> Seq<char> {
    match change {
        Change::Missing => "declared, not found live"@,
        Change::FieldChanged { field, .. } => field + " drifted"@,
        Change::SemanticChanged { field, relation, via, .. } => field + " unchanged · "@ + relation
            + " · via "@ + joined(via, ", "@),
    }
}

/// Writes one line on what happened.
pub fn summary_for(kind: &DriftKind) -> (r: String)
    ensures
        r@ == summary(kind@),
{
    match kind {
        DriftKind::Missing => "declared, not found live".to_owned(),
        DriftKind::FieldChanged { field, .. } => {
            let mut r = field.clone();
            r.append(" drifted");
            r
        },
        DriftKind::SemanticChanged { field, relation, via, .. } => {
            let mut r = field.clone();
            r.append(" unchanged · ");
            r.append(relation.as_str());
            r.append(" · via ");
            r.append(joined_text(via, ", ").as_str());
            r
        },
    }
}

/// A drift in the list: its severity as a stripe, its badge, as wide as the widest, and its resource,
/// and below them what happened.
pub open spec fn drift_entry(drift: Finding) -> Seq<Seq<Piece>> {
    seq![
        seq![
            piece("▌ "@, severity_tone(drift.severity)),
            strong(padded(badge(drift.change).0, 5), badge(drift.change).1),
            piece(" "@, Tone::Plain),
            piece(drift.resource, Tone::Text),
        ],
        seq![piece("    "@, Tone::Plain), piece(summary(drift.change), Tone::TextFaint)],
    ]
}

fn write_drift_entry(drift: &Drift) -> (r: Vec<Line>)
    ensures
        lines_of(r@) == drift_entry(drift@),
{
    let (badge, tone) = badge_for(&drift.kind);
    let top = vec![
        styled("▌ ".to_owned(), severity_color(drift.severity)),
        bold(pad(badge, 5), tone),
        styled(" ".to_owned(), Tone::Plain),
        styled(drift.resource.0.clone(), Tone::Text),
    ];
    assert(line_of(top@) =~= drift_entry(drift@)[0]);
    let bottom = pair(
        styled("    ".to_owned(), Tone::Plain),
        styled(summary_for(&drift.kind), Tone::TextFaint),
    );
    let r = vec![top, bottom];
    assert(lines_of(r@) =~= drift_entry(drift@));
    r
}

/// A heading in the detail pane, in capitals.
pub open spec fn heading(label: Seq<char>) -> Seq<Piece> {
    seq![strong(capitals(label), Tone::TextFaint)]
}

/// Writes a heading of the detail pane.
pub fn field_label(label: &str) -> (r: Line)
    ensures
        line_of(r@) == heading(label@),
{
    single(bold(in_capitals(label), Tone::TextFaint))
}

/// Writes a text on a line of its own.
pub fn code_line(text: &str, tone: Tone) -> (r: Line)
    ensures
        line_of(r@) == seq![piece(text@, tone)],
{
    single(styled(text.to_owned(), tone))
}

/// Writes a JSON value.
pub fn format_value(value: &JsonValue) -> (r: String)
    ensures
        r@ == compact(value@),
{
    write_json(value)
}

/// An item of a list of texts: the text, and nothing for what is no text.
pub open spec fn text_or_nothing(item: Json) -> Seq<char> {
    match item.text() {
        Some(text) => text,
        None => Seq::empty(),
    }
}

/// An item of the effective meaning in quotes, set apart when it is not among the declared ones.
pub open spec fn diff_item(declared: Seq<Seq<char>>, item: Json) -> Piece {
    piece(
        "\""@ + text_or_nothing(item) + "\""@,
        if declared.contains(text_or_nothing(item)) {
            Tone::Text
        } else {
            Tone::DiffAdd
        },
    )
}

/// Some items of the effective meaning, separated by commas.
pub open spec fn diff_items(declared: Seq<Seq<char>>, items: Seq<Json>) -> Seq<Piece>
    decreases items.len(),
{
    if items.len() == 0 {
        Seq::empty()
    } else if items.len() == 1 {
        seq![diff_item(declared, items[0])]
    } else {
        diff_items(declared, items.drop_last()).push(piece(", "@, Tone::TextDim)).push(
            diff_item(declared, items.last()),
        )
    }
}

/// The live effective meaning as a bracketed list, with what it holds beyond the declared one set
/// apart: the widened members are the whole point of a semantic finding.
pub open spec fn effective_diff(declared: Json, actual: Json) -> Seq<Piece> {
    match actual.items() {
        Some(items) if items.len() > 0 => seq![piece("["@, Tone::TextDim)] + diff_items(
            listed_texts(Some(declared)),
            items,
        ) + seq![piece("]"@, Tone::TextDim)],
        _ => seq![piece("[]"@, Tone::TextDim)],
    }
}

/// Every item of the live meaning is shown, in its place, and set apart exactly when the declared
/// meaning does not hold it.
pub proof fn new_members_are_set_apart(declared: Json, actual: Json, place: int)
    requires
        actual.items() is Some,
        0 <= place < actual.items()->0.len(),
    ensures
        effective_diff(declared, actual).len() == 2 * actual.items()->0.len() + 1,
        effective_diff(declared, actual)[2 * place + 1].text == "\""@ + text_or_nothing(
            actual.items()->0[place],
        ) + "\""@,
        (effective_diff(declared, actual)[2 * place + 1].tone == Tone::DiffAdd)
            == !listed_texts(Some(declared)).contains(text_or_nothing(actual.items()->0[place])),
{
    diff_items_in_place(listed_texts(Some(declared)), actual.items()->0, place);
}

proof fn diff_items_in_place(declared: Seq<Seq<char>>, items: Seq<Json>, place: int)
    requires
        0 <= place < items.len(),
    ensures
        diff_items(declared, items).len() == 2 * items.len() - 1,
        diff_items(declared, items)[2 * place] == diff_item(declared, items[place]),
    decreases items.len(),
{
    if items.len() > 1 {
        if place < items.len() - 1 {
            diff_items_in_place(declared, items.drop_last(), place);
        } else {
            diff_items_in_place(declared, items.drop_last(), 0);
        }
    }
}

fn among(list: &Vec<String>, text: &str) -> (r: bool)
    ensures
        r == texts(list@).contains(text@),
{
    let mut i: usize = 0;
    while i < list.len()
        invariant
            i <= list.len(),
            forall|j: int| 0 <= j < i ==> (#[trigger] texts(list@)[j]) != text@,
        decreases list.len() - i,
    {
        assert(texts(list@)[i as int] == list[i as int]@);
        if same(list[i].as_str(), text) {
            return true;
        }
        i += 1;
    }
    false
}

/// Writes the live effective meaning, with what it holds beyond the declared one set apart.
pub fn effective_diff_line(declared: &JsonValue, actual: &JsonValue) -> (r: Line)
    ensures
        line_of(r@) == effective_diff(declared@, actual@),
{
    let known = strings_of(Some(declared));
    let ghost declared_texts = listed_texts(Some(declared@));
    match actual.as_array() {
        Some(items) => if items.len() > 0 {
            let ghost all = actual@.items()->0;
            let ghost bracket = seq![piece("["@, Tone::TextDim)];
            let mut r = single(styled("[".to_owned(), Tone::TextDim));
            let mut i: usize = 0;
            assert(line_of(r@) =~= bracket + diff_items(declared_texts, all.take(0)));
            while i < items.len()
                invariant
                    i <= items.len(),
                    items.len() == all.len(),
                    forall|n: int| 0 <= n < items.len() ==> (#[trigger] items[n])@ == all[n],
                    texts(known@) == declared_texts,
                    line_of(r@) == bracket + diff_items(declared_texts, all.take(i as int)),
                decreases items.len() - i,
            {
                let ghost done = diff_items(declared_texts, all.take(i as int));
                proof {
                    assert(all.take(i + 1).drop_last() =~= all.take(i as int));
                    assert(all.take(i + 1).last() == items[i as int]@);
                }
                if i > 0 {
                    push_span(&mut r, styled(", ".to_owned(), Tone::TextDim));
                }
                let text = match items[i].as_str() {
                    Some(text) => text,
                    None => "",
                };
                proof {
                    reveal_strlit("");
                    assert(text@ =~= text_or_nothing(items[i as int]@));
                }
                let tone = if among(&known, text) {
                    Tone::Text
                } else {
                    Tone::DiffAdd
                };
                let mut quoted = "\"".to_owned();
                quoted.append(text);
                quoted.append("\"");
                push_span(&mut r, styled(quoted, tone));
                proof {
                    assert(line_of(r@) =~= bracket + diff_items(
                        declared_texts,
                        all.take(i + 1),
                    ));
                }
                i += 1;
            }
            assert(all.take(i as int) =~= all);
            push_span(&mut r, styled("]".to_owned(), Tone::TextDim));
            assert(line_of(r@) =~= effective_diff(declared@, actual@));
            r
        } else {
            single(styled("[]".to_owned(), Tone::TextDim))
        },
        None => single(styled("[]".to_owned(), Tone::TextDim)),
    }
}

/// Everything known of one drift.
pub open spec fn drift_detail(drift: Finding) -> Seq<Seq<Piece>> {
    let top = seq![seq![strong(drift.resource, Tone::Text)], Seq::empty()];
    match drift.change {
        Change::Missing => top + seq![
            heading("note"@),
            seq![
                piece("declared in state with a cloud id, but not found live"@, Tone::TextDim),
            ],
        ],
        Change::FieldChanged { field, declared, actual } => top + seq![
            seq![piece("field  "@, Tone::TextFaint), piece(field, Tone::Text)],
            Seq::empty(),
            heading("declared"@),
            seq![piece(compact(declared), Tone::TextDim)],
            Seq::empty(),
            heading("actual"@),
            seq![piece(compact(actual), Tone::Text)],
        ],
        Change::SemanticChanged { field, relation, declared_effective, actual_effective, via } =>
        top + seq![
            seq![piece("field     "@, Tone::TextFaint), piece(field, Tone::Text)],
            seq![piece("relation  "@, Tone::TextFaint), piece(relation, Tone::Text)],
            Seq::empty(),
            seq![piece("via  "@, Tone::TextFaint), piece(joined(via, ", "@), Tone::Semantic)],
            Seq::empty(),
            heading("declared_effective"@),
            seq![piece(compact(declared_effective), Tone::TextDim)],
            Seq::empty(),
            heading("actual_effective"@),
            effective_diff(declared_effective, actual_effective),
        ],
    }
}

/// The detail pane: everything known of the selected drift.
pub open spec fn detail(drift: Option<Finding>) -> Seq<Seq<Piece>> {
    match drift {
        Some(drift) => drift_detail(drift),
        None => seq![seq![piece("no drift selected"@, Tone::TextFaint)]],
    }
}

/// What an optional drift denotes.
pub open spec fn maybe_finding(drift: Option<&Drift>) -> Option<Finding> {
    match drift {
        Some(drift) => Some(drift@),
        None => None,
    }
}

/// Writes the detail pane.
pub fn draw_drift_detail(drift: Option<&Drift>) -> (r: Vec<Line>)
    ensures
        lines_of(r@) == detail(maybe_finding(drift)),
{
    let drift = match drift {
        Some(drift) => drift,
        None => {
            let r = vec![single(styled("no drift selected".to_owned(), Tone::TextFaint))];
            assert(lines_of(r@) =~= detail(None));
            return r;
        },
    };
    let mut lines: Vec<Line> = vec![single(bold(drift.resource.0.clone(), Tone::Text)), blank()];
    assert(lines_of(lines@) =~= seq![seq![strong(drift@.resource, Tone::Text)], Seq::empty()]);
    match &drift.kind {
        DriftKind::Missing => {
            push_line(&mut lines, field_label("note"));
            push_line(
                &mut lines,
                single(
                    styled(
                        "declared in state with a cloud id, but not found live".to_owned(),
                        Tone::TextDim,
                    ),
                ),
            );
        },
        DriftKind::FieldChanged { field, declared, actual } => {
            push_line(
                &mut lines,
                pair(
                    styled("field  ".to_owned(), Tone::TextFaint),
                    styled(field.clone(), Tone::Text),
                ),
            );
            push_line(&mut lines, blank());
            push_line(&mut lines, field_label("declared"));
            push_line(&mut lines, code_line(format_value(declared).as_str(), Tone::TextDim));
            push_line(&mut lines, blank());
            push_line(&mut lines, field_label("actual"));
            push_line(&mut lines, code_line(format_value(actual).as_str(), Tone::Text));
        },
        DriftKind::SemanticChanged {
            field,
            relation,
            declared_effective,
            actual_effective,
            via,
        } => {
            push_line(
                &mut lines,
                pair(
                    styled("field     ".to_owned(), Tone::TextFaint),
                    styled(field.clone(), Tone::Text),
                ),
            );
            push_line(
                &mut lines,
                pair(
                    styled("relation  ".to_owned(), Tone::TextFaint),
                    styled(relation.clone(), Tone::Text),
                ),
            );
            push_line(&mut lines, blank());
            push_line(
                &mut lines,
                pair(
                    styled("via  ".to_owned(), Tone::TextFaint),
                    styled(joined_text(via, ", "), Tone::Semantic),
                ),
            );
            push_line(&mut lines, blank());
            push_line(&mut lines, field_label("declared_effective"));
            push_line(&mut lines, code_line(format_value(declared_effective).as_str(), Tone::TextDim));
            push_line(&mut lines, blank());
            push_line(&mut lines, field_label("actual_effective"));
            push_line(&mut lines, effective_diff_line(declared_effective, actual_effective));
        },
    }
    assert(lines_of(lines@) =~= drift_detail(drift@));
    lines
}

/// A relation that could not be evaluated, and why.
pub open spec fn unresolved_entry(unresolved: Unanswered) -> Seq<Seq<Piece>> {
    let subject = match unresolved.resource {
        Some(resource) => resource,
        None => "(all subjects)"@,
    };
    seq![
        seq![
            strong(subject, Tone::Text),
            piece("  "@, Tone::Plain),
            piece(unresolved.relation, Tone::Info),
        ],
        seq![piece(unresolved.reason, Tone::TextDim)],
        Seq::empty(),
    ]
}

fn write_unresolved_entry(unresolved: &Unresolved) -> (r: Vec<Line>)
    ensures
        lines_of(r@) == unresolved_entry(unresolved@),
{
    let subject = match &unresolved.resource {
        Some(resource) => resource.0.clone(),
        None => "(all subjects)".to_owned(),
    };
    let top = vec![
        bold(subject, Tone::Text),
        styled("  ".to_owned(), Tone::Plain),
        styled(unresolved.relation.clone(), Tone::Info),
    ];
    assert(line_of(top@) =~= unresolved_entry(unresolved@)[0]);
    let r = vec![top, single(styled(unresolved.reason.clone(), Tone::TextDim)), blank()];
    assert(lines_of(r@) =~= unresolved_entry(unresolved@));
    r
}

/// A resource that could not be checked, and why.
pub open spec fn unjoinable_entry(unjoinable: Unchecked) -> Seq<Seq<Piece>> {
    seq![
        seq![strong(unjoinable.resource, Tone::Text)],
        seq![piece(unjoinable.reason, Tone::TextDim)],
        Seq::empty(),
    ]
}

fn write_unjoinable_entry(unjoinable: &Unjoinable) -> (r: Vec<Line>)
    ensures
        lines_of(r@) == unjoinable_entry(unjoinable@),
{
    let r = vec![
        single(bold(unjoinable.resource.0.clone(), Tone::Text)),
        single(styled(unjoinable.reason.clone(), Tone::TextDim)),
        blank(),
    ];
    assert(lines_of(r@) =~= unjoinable_entry(unjoinable@));
    r
}

/// The middle of a screen.
#[derive(Debug)]
pub enum Body {
    /// The list of drifts, and beside it what is known of the selected one.
    Drifts { entries: Vec<Vec<Line>>, detail: Vec<Line> },
    /// A list that nothing is selected in.
    Entries(Vec<Vec<Line>>),
    /// What stands in place of an empty list.
    Nothing(Line),
}

/// What a [`Body`] shows.
pub enum Pane {
    Drifts { entries: Seq<Seq<Seq<Piece>>>, detail: Seq<Seq<Piece>> },
    Entries(Seq<Seq<Seq<Piece>>>),
    Nothing(Seq<Piece>),
}

impl View for Body {
    type V = Pane;

    open spec fn view(&self) -> Pane {
        match self {
            Body::Drifts { entries, detail } => Pane::Drifts {
                entries: entries_of(entries@),
                detail: lines_of(detail@),
            },
            Body::Entries(entries) => Pane::Entries(entries_of(entries@)),
            Body::Nothing(line) => Pane::Nothing(line_of(line@)),
        }
    }
}

/// A list, or what is said of an empty one.
pub open spec fn listed(entries: Seq<Seq<Seq<Piece>>>, empty_label: Seq<char>) -> Pane {
    if entries.len() == 0 {
        Pane::Nothing(seq![piece(empty_label, Tone::TextFaint)])
    } else {
        Pane::Entries(entries)
    }
}

fn flat_list(entries: Vec<Vec<Line>>, empty_label: &str) -> (r: Body)
    ensures
        r@ == listed(entries_of(entries@), empty_label@),
{
    if entries.len() == 0 {
        Body::Nothing(single(styled(empty_label.to_owned(), Tone::TextFaint)))
    } else {
        Body::Entries(entries)
    }
}

/// The selected one of some drifts.
pub open spec fn selection(drifts: Seq<Finding>, selected: Option<usize>) -> Option<Finding> {
    match selected {
        Some(i) if i < drifts.len() => Some(drifts[i as int]),
        _ => None,
    }
}

/// What the middle of a screen shows.
pub open spec fn body(report: Report, tab: Tab, selected: Option<usize>) -> Pane {
    match tab {
        Tab::Drifts => Pane::Drifts {
            entries: report.drifts.map_values(|d: Finding| drift_entry(d)),
            detail: detail(selection(report.drifts, selected)),
        },
        Tab::Unresolved => listed(
            report.unresolved.map_values(|u: Unanswered| unresolved_entry(u)),
            "nothing unresolved"@,
        ),
        Tab::Unjoinable => listed(
            report.unjoinable.map_values(|u: Unchecked| unjoinable_entry(u)),
            "nothing unjoinable"@,
        ),
    }
}

/// Writes the list of drifts and what is known of the selected one.
pub fn draw_drifts(app: &App) -> (r: Body)
    ensures
        r@ == body(app.report@, Tab::Drifts, app.drift_list@),
{
    let drifts = &app.report.drifts;
    let mut entries: Vec<Vec<Line>> = Vec::new();
    let mut i: usize = 0;
    while i < drifts.len()
        invariant
            i <= drifts.len(),
            entries.len() == i,
            forall|n: int|
                0 <= n < i ==> lines_of((#[trigger] entries[n])@) == drift_entry(drifts[n]@),
        decreases drifts.len() - i,
    {
        entries.push(write_drift_entry(&drifts[i]));
        i += 1;
    }
    proof {
        assert(entries_of(entries@) =~= app.report@.drifts.map_values(
            |d: Finding| drift_entry(d),
        ));
    }
    Body::Drifts { entries, detail: draw_drift_detail(app.selected_drift()) }
}

/// Writes the relations that could not be evaluated.
pub fn draw_unresolved(app: &App) -> (r: Body)
    ensures
        r@ == body(app.report@, Tab::Unresolved, app.drift_list@),
{
    let unresolved = &app.report.unresolved;
    let mut entries: Vec<Vec<Line>> = Vec::new();
    let mut i: usize = 0;
    while i < unresolved.len()
        invariant
            i <= unresolved.len(),
            entries.len() == i,
            forall|n: int|
                0 <= n < i ==> lines_of((#[trigger] entries[n])@) == unresolved_entry(
                    unresolved[n]@,
                ),
        decreases unresolved.len() - i,
    {
        entries.push(write_unresolved_entry(&unresolved[i]));
        i += 1;
    }
    proof {
        assert(entries_of(entries@) =~= app.report@.unresolved.map_values(
            |u: Unanswered| unresolved_entry(u),
        ));
    }
    flat_list(entries, "nothing unresolved")
}

/// Writes the resources that could not be checked.
pub fn draw_unjoinable(app: &App) -> (r: Body)
    ensures
        r@ == body(app.report@, Tab::Unjoinable, app.drift_list@),
{
    let unjoinable = &app.report.unjoinable;
    let mut entries: Vec<Vec<Line>> = Vec::new();
    let mut i: usize = 0;
    while i < unjoinable.len()
        invariant
            i <= unjoinable.len(),
            entries.len() == i,
            forall|n: int|
                0 <= n < i ==> lines_of((#[trigger] entries[n])@) == unjoinable_entry(
                    unjoinable[n]@,
                ),
        decreases unjoinable.len() - i,
    {
        entries.push(write_unjoinable_entry(&unjoinable[i]));
        i += 1;
    }
    proof {
        assert(entries_of(entries@) =~= app.report@.unjoinable.map_values(
            |u: Unchecked| unjoinable_entry(u),
        ));
    }
    flat_list(entries, "nothing unjoinable")
}

/// The keys that do something on a screen.
pub open spec fn hints(tab: Tab) -> Seq<Piece> {
    let switch = seq![piece("Tab/Shift+Tab"@ + " "@ + "switch view"@, Tone::TextFaint)];
    let select = if tab == Tab::Drifts {
        seq![piece("   "@, Tone::Plain), piece("↑/↓"@ + " "@ + "select"@, Tone::TextFaint)]
    } else {
        Seq::empty()
    };
    switch + select + seq![
        piece("   "@, Tone::Plain),
        piece("q"@ + " "@ + "quit"@, Tone::TextFaint),
    ]
}

fn key_hint(key: &str, action: &str) -> (r: Span)
    ensures
        r@ == piece(key@ + " "@ + action@, Tone::TextFaint),
{
    let mut text = key.to_owned();
    text.append(" ");
    text.append(action);
    styled(text, Tone::TextFaint)
}

/// Writes the footer: the keys that do something here.
pub fn draw_footer(app: &App) -> (r: Line)
    ensures
        line_of(r@) == hints(app.tab),
{
    let mut r = single(key_hint("Tab/Shift+Tab", "switch view"));
    if app.tab == Tab::Drifts {
        push_span(&mut r, styled("   ".to_owned(), Tone::Plain));
        push_span(&mut r, key_hint("↑/↓", "select"));
    }
    push_span(&mut r, styled("   ".to_owned(), Tone::Plain));
    push_span(&mut r, key_hint("q", "quit"));
    assert(line_of(r@) =~= hints(app.tab));
    r
}

/// A whole screen, top to bottom.
#[derive(Debug)]
pub struct Screen {
    pub title: Line,
    pub tabs: Vec<String>,
    pub selected_tab: usize,
    pub status: Line,
    pub body: Body,
    pub footer: Line,
}

/// What a [`Screen`] shows.
pub struct Shown {
    pub title: Seq<Piece>,
    pub tabs: Seq<Seq<char>>,
    pub selected_tab: int,
    pub status: Seq<Piece>,
    pub body: Pane,
    pub footer: Seq<Piece>,
}

impl View for Screen {
    type V = Shown;

    open spec fn view(&self) -> Shown {
        Shown {
            title: line_of(self.title@),
            tabs: texts(self.tabs@),
            selected_tab: self.selected_tab as int,
            status: line_of(self.status@),
            body: self.body@,
            footer: line_of(self.footer@),
        }
    }
}

/// What the browser shows.
pub open spec fn screen(
    state_path: Seq<char>,
    report: Report,
    tab: Tab,
    selected: Option<usize>,
) -> Shown {
    Shown {
        title: title(state_path),
        tabs: tab_texts(report),
        selected_tab: tab.place(),
        status: status(report),
        body: body(report, tab, selected),
        footer: hints(tab),
    }
}

/// Writes the screen that is currently showing.
pub fn draw(app: &App) -> (r: Screen)
    ensures
        r@ == screen(app.state_path@, app.report@, app.tab, app.drift_list@),
{
    Screen {
        title: draw_title(app),
        tabs: draw_tabs(app),
        selected_tab: app.tab.index(),
        status: draw_status(app),
        body: match app.tab {
            Tab::Drifts => draw_drifts(app),
            Tab::Unresolved => draw_unresolved(app),
            Tab::Unjoinable => draw_unjoinable(app),
        },
        footer: draw_footer(app),
    }
}

} // verus!
