//! The report as text, and the code a check ends with.

use uncia::document::read_json;
use uncia::json::JsonValue;
use uncia::report::{exit_code, print_report};
use uncia::types::drift::{Unjoinable, Unresolved};
use uncia::{Drift, DriftKind, DriftReport, ResourceId, Severity};

fn json(text: &str) -> JsonValue {
    read_json(text).unwrap()
}

fn id(address: &str) -> ResourceId {
    ResourceId(address.to_string())
}

fn incomplete() -> DriftReport {
    DriftReport {
        drifts: Vec::new(),
        unjoinable: vec![Unjoinable {
            resource: id("aws_security_group.imported"),
            reason: "no cloud id".to_string(),
        }],
        unresolved: vec![
            Unresolved {
                resource: None,
                relation: "sg_membership".to_string(),
                reason: "no authority".to_string(),
            },
            Unresolved {
                resource: Some(id("aws_instance.web")),
                relation: "instance_exposure".to_string(),
                reason: "group gone".to_string(),
            },
        ],
    }
}

#[test]
fn a_changed_field_is_printed_with_both_values() {
    let report = DriftReport {
        drifts: vec![Drift {
            resource: id("aws_security_group.existing"),
            kind: DriftKind::FieldChanged {
                field: "tags".to_string(),
                declared: json("{}"),
                actual: json(r#"{"test-ec2-collector": ""}"#),
            },
            severity: Severity::Medium,
        }],
        ..DriftReport::default()
    };
    let printed = print_report(&report);
    assert_eq!(
        printed.lines,
        [
            "[Medium] aws_security_group.existing: 'tags' drifted",
            "    declared: {}",
            "    actual:   {\"test-ec2-collector\":\"\"}",
            "",
            "1 drift(s) detected",
        ]
    );
    assert!(printed.warnings.is_empty());
    assert_eq!(exit_code(&report), 2);
}

#[test]
fn a_change_of_meaning_is_printed_with_its_path() {
    let report = DriftReport {
        drifts: vec![
            Drift {
                resource: id("aws_security_group.web"),
                kind: DriftKind::SemanticChanged {
                    field: "ingress".to_string(),
                    relation: "sg_membership".to_string(),
                    declared_effective: json(r#"["tcp/443-443/member:i-worker"]"#),
                    actual_effective: json(
                        r#"["tcp/443-443/member:i-console", "tcp/443-443/member:i-worker"]"#,
                    ),
                    via: vec!["sg-app".to_string(), "sg-db".to_string()],
                },
                severity: Severity::High,
            },
            Drift {
                resource: id("aws_instance.gone"),
                kind: DriftKind::Missing,
                severity: Severity::Critical,
            },
        ],
        ..DriftReport::default()
    };
    assert_eq!(
        print_report(&report).lines,
        [
            "[High] aws_security_group.web: `ingress` unchanged but its meaning drifted (sg_membership)",
            "    via:      sg-app, sg-db",
            "    declared: [\"tcp/443-443/member:i-worker\"]",
            "    actual:   [\"tcp/443-443/member:i-console\",\"tcp/443-443/member:i-worker\"]",
            "[Critical] aws_instance.gone: declared in state but not found live",
            "",
            "2 drift(s) detected",
        ]
    );
}

#[test]
fn silence_is_only_reported_where_it_was_earned() {
    let clean = DriftReport::default();
    assert_eq!(print_report(&clean).lines, ["no drift detected"]);
    assert_eq!(exit_code(&clean), 0);

    let report = incomplete();
    let printed = print_report(&report);
    assert_eq!(
        printed.lines,
        ["no drift detected (3 check(s) could not be completed)"]
    );
    assert_eq!(
        printed.warnings,
        [
            "warning: cannot check aws_security_group.imported: no cloud id",
            "warning: cannot resolve `sg_membership` for (all subjects): no authority",
            "warning: cannot resolve `instance_exposure` for aws_instance.web: group gone",
        ]
    );
    assert_eq!(exit_code(&report), 0);
}

#[test]
fn a_copied_report_prints_the_same() {
    let report = incomplete();
    assert_eq!(print_report(&report.clone()).warnings, print_report(&report).warnings);
}
