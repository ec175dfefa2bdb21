//! What the screens show, as flat text.

use uncia::document::read_json;
use uncia::json::JsonValue;
use uncia::tui::app::{App, Tab};
use uncia::tui::views::{self, Body, Line, Tone};
use uncia::types::drift::{Unjoinable, Unresolved};
use uncia::{Drift, DriftKind, DriftReport, ResourceId, Severity};

fn json(text: &str) -> JsonValue {
    read_json(text).unwrap()
}

fn sample_report() -> DriftReport {
    DriftReport {
        drifts: vec![
            Drift {
                resource: ResourceId("aws_security_group.existing".to_string()),
                kind: DriftKind::FieldChanged {
                    field: "tags".to_string(),
                    declared: json(r#"{}"#),
                    actual: json(r#"{"test-ec2-collector": ""}"#),
                },
                severity: Severity::Medium,
            },
            Drift {
                resource: ResourceId("aws_security_group.web".to_string()),
                kind: DriftKind::SemanticChanged {
                    field: "ingress".to_string(),
                    relation: "sg_membership".to_string(),
                    declared_effective: json(r#"["tcp/443-443/member:i-worker"]"#),
                    actual_effective: json(r#"["tcp/443-443/member:i-console", "tcp/443-443/member:i-worker"]"#),
                    via: vec!["sg-app".to_string()],
                },
                severity: Severity::High,
            },
            Drift {
                resource: ResourceId("aws_instance.legacy_worker".to_string()),
                kind: DriftKind::Missing,
                severity: Severity::Critical,
            },
        ],
        unresolved: vec![Unresolved {
            resource: None,
            relation: "sg_membership".to_string(),
            reason: "declared state contains no `aws_instance`".to_string(),
        }],
        unjoinable: vec![Unjoinable {
            resource: ResourceId("aws_security_group.imported".to_string()),
            reason: "no cloud id recorded in state".to_string(),
        }],
    }
}

fn app() -> App {
    App::new("state.json".to_string(), sample_report())
}

fn flat(line: &Line) -> String {
    line.iter().map(|span| span.text.as_str()).collect()
}

fn render(app: &mut App) -> String {
    let screen = views::draw(app);
    let mut rows = vec![flat(&screen.title), screen.tabs.concat(), flat(&screen.status)];
    match &screen.body {
        Body::Drifts { entries, detail } => {
            rows.extend(entries.iter().flatten().map(flat));
            rows.extend(detail.iter().map(flat));
        }
        Body::Entries(entries) => rows.extend(entries.iter().flatten().map(flat)),
        Body::Nothing(line) => rows.push(flat(line)),
    }
    rows.push(flat(&screen.footer));
    rows.join("\n")
}

#[test]
fn drifts_tab_shows_resources_badges_and_severity_counts() {
    let mut app = app();
    let screen = render(&mut app);

    assert!(screen.contains("uncia"));
    assert!(screen.contains("state.json"));
    assert!(screen.contains("Drifts"));
    assert!(screen.contains("Unresolved"));
    assert!(screen.contains("Unjoinable"));

    assert!(screen.contains("FIELD"), "{screen}");
    assert!(screen.contains("SEM"), "{screen}");
    assert!(screen.contains("MISS"), "{screen}");

    assert!(screen.contains("aws_security_group.existing"), "{screen}");
    assert!(screen.contains("Critical 1"), "{screen}");
    assert!(screen.contains("High 1"), "{screen}");
    assert!(screen.contains("Medium 1"), "{screen}");

    assert!(screen.contains("declared"), "{screen}");
}

#[test]
fn selecting_the_semantic_drift_shows_its_via_chain_in_detail() {
    let mut app = app();
    app.drift_list.select(Some(1));
    let screen = render(&mut app);

    assert!(screen.contains("aws_security_group.web"), "{screen}");
    assert!(screen.contains("sg_membership"), "{screen}");
    assert!(screen.contains("sg-app"), "{screen}");
    assert!(screen.contains("i-console"), "{screen}");
}

#[test]
fn unresolved_tab_shows_the_relation_and_reason() {
    let mut app = app();
    app.tab = Tab::Unresolved;
    let screen = render(&mut app);

    assert!(screen.contains("sg_membership"), "{screen}");
    assert!(screen.contains("declared state contains no"), "{screen}");
}

#[test]
fn unjoinable_tab_shows_the_resource_and_reason() {
    let mut app = app();
    app.tab = Tab::Unjoinable;
    let screen = render(&mut app);

    assert!(screen.contains("aws_security_group.imported"), "{screen}");
    assert!(screen.contains("no cloud id recorded"), "{screen}");
}

#[test]
fn an_empty_report_renders_without_panicking() {
    let mut app = App::new("state.json".to_string(), DriftReport::default());
    let screen = render(&mut app);
    assert!(screen.contains("no drift detected"), "{screen}");
}

fn span(text: &str, tone: Tone, bold: bool) -> (String, Tone, bool) {
    (text.to_string(), tone, bold)
}

fn spans(line: &Line) -> Vec<(String, Tone, bool)> {
    line.iter().map(|s| (s.text.clone(), s.tone, s.bold)).collect()
}

#[test]
fn the_status_counts_by_severity_and_says_what_is_incomplete() {
    assert_eq!(
        spans(&views::draw_status(&app())),
        vec![
            span("● ", Tone::Critical, false),
            span("Critical 1", Tone::TextDim, false),
            span("   ", Tone::Plain, false),
            span("● ", Tone::High, false),
            span("High 1", Tone::TextDim, false),
            span("   ", Tone::Plain, false),
            span("● ", Tone::Medium, false),
            span("Medium 1", Tone::TextDim, false),
            span("   ", Tone::Plain, false),
            span("2 check(s) incomplete", Tone::TextFaint, false),
        ]
    );
}

#[test]
fn an_entry_has_a_stripe_a_badge_and_a_summary() {
    let Body::Drifts { entries, .. } = views::draw_drifts(&app()) else {
        panic!("expected the list of drifts");
    };
    assert_eq!(
        spans(&entries[1][0]),
        vec![
            span("▌ ", Tone::High, false),
            span("SEM  ", Tone::Semantic, true),
            span(" ", Tone::Plain, false),
            span("aws_security_group.web", Tone::Text, false),
        ]
    );
    assert_eq!(
        flat(&entries[1][1]),
        "    ingress unchanged · sg_membership · via sg-app"
    );
    assert_eq!(flat(&entries[0][1]), "    tags drifted");
    assert_eq!(flat(&entries[2][1]), "    declared, not found live");
    assert_eq!(entries[2][0][1].text, "MISS ");
}

#[test]
fn members_beyond_the_declared_ones_are_set_apart() {
    let line = views::effective_diff_line(&json(r#"["a"]"#), &json(r#"["b", "a", 7]"#));
    assert_eq!(
        spans(&line),
        vec![
            span("[", Tone::TextDim, false),
            span("\"b\"", Tone::DiffAdd, false),
            span(", ", Tone::TextDim, false),
            span("\"a\"", Tone::Text, false),
            span(", ", Tone::TextDim, false),
            span("\"\"", Tone::DiffAdd, false),
            span("]", Tone::TextDim, false),
        ]
    );
    assert_eq!(flat(&views::effective_diff_line(&json("[]"), &json("[]"))), "[]");
    assert_eq!(flat(&views::effective_diff_line(&json("[]"), &json("null"))), "[]");
}

#[test]
fn the_detail_of_a_changed_field_has_both_values() {
    let report = sample_report();
    let lines: Vec<String> =
        views::draw_drift_detail(Some(&report.drifts[0])).iter().map(flat).collect();
    assert_eq!(
        lines,
        [
            "aws_security_group.existing",
            "",
            "field  tags",
            "",
            "DECLARED",
            "{}",
            "",
            "ACTUAL",
            "{\"test-ec2-collector\":\"\"}",
        ]
    );
    let nothing: Vec<String> = views::draw_drift_detail(None).iter().map(flat).collect();
    assert_eq!(nothing, ["no drift selected"]);
}

#[test]
fn empty_lists_say_so() {
    let mut app = App::new("state.json".to_string(), DriftReport::default());
    app.tab = Tab::Unresolved;
    assert!(render(&mut app).contains("nothing unresolved"));
    app.tab = Tab::Unjoinable;
    assert!(render(&mut app).contains("nothing unjoinable"));
    assert_eq!(flat(&views::draw_footer(&app)), "Tab/Shift+Tab switch view   q quit");
    app.tab = Tab::Drifts;
    assert_eq!(
        flat(&views::draw_footer(&app)),
        "Tab/Shift+Tab switch view   ↑/↓ select   q quit"
    );
}

#[test]
fn a_badge_is_as_long_as_its_word() {
    let report = sample_report();
    let badges: Vec<(&str, Tone)> =
        report.drifts.iter().map(|drift| views::badge_for(&drift.kind)).collect();
    assert_eq!(
        badges,
        [("FIELD", Tone::Low), ("SEM", Tone::Semantic), ("MISS", Tone::Critical)]
    );
}

#[test]
fn headings_are_in_capitals() {
    let heading = |label: &str| spans(&views::field_label(label));
    assert_eq!(heading("note"), vec![span("NOTE", Tone::TextFaint, true)]);
    assert_eq!(
        heading("declared_effective"),
        vec![span("DECLARED_EFFECTIVE", Tone::TextFaint, true)]
    );
    assert_eq!(heading("Größe 1"), vec![span("GRÖSSE 1", Tone::TextFaint, true)]);
    assert_eq!(heading(""), vec![span("", Tone::TextFaint, true)]);
}

#[test]
fn values_are_written_on_one_line() {
    let text = views::format_value(&json(r#"{ "b": [1, null], "a": "x" }"#));
    assert_eq!(text, r#"{"a":"x","b":[1,null]}"#);
    assert_eq!(
        spans(&views::code_line(&text, Tone::Text)),
        vec![span(&text, Tone::Text, false)]
    );
}
