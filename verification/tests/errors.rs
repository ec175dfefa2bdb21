//! What the errors say.

use uncia::error::StateJsonError;
use uncia::state::{self, terraform, tfstate};
use uncia::UnciaError;

#[test]
fn encrypted_state_names_the_way_out() {
    assert_eq!(
        UnciaError::EncryptedState.message(),
        "state input is encrypted and uncia holds no decryption keys; \
         run `tofu show -json` so the state is decrypted before parsing"
    );
}

#[test]
fn unsupported_versions_are_named() {
    assert_eq!(
        UnciaError::UnsupportedStateVersion { found: 3 }.message(),
        "unsupported .tfstate schema version `3`; expected 4"
    );
    assert_eq!(
        UnciaError::UnsupportedFormatVersion { found: "2.0".to_string() }.message(),
        "unsupported state format_version `2.0`; expected 1.x"
    );
}

#[test]
fn a_plan_is_named_by_its_marker() {
    assert_eq!(
        UnciaError::WrongDocumentKind { marker: "planned_values".to_string() }.message(),
        "state input is a plan, not state (found `planned_values`); run \
         `terraform show -json` without a plan file argument"
    );
}

#[test]
fn a_raw_state_file_is_named() {
    assert_eq!(
        UnciaError::RawStateFile.message(),
        "state input is a raw .tfstate file where `show -json` output is expected; \
         run `terraform show -json` to render it"
    );
}

#[test]
fn a_collector_failure_is_passed_on() {
    assert_eq!(
        UnciaError::Collector("DescribeInstances: denied".to_string()).message(),
        "collector error: DescribeInstances: denied"
    );
}

#[test]
fn a_failure_to_read_says_why() {
    let error = UnciaError::Io(std::io::Error::other("no such file"));
    assert_eq!(error.message(), "failed to read input: no such file");
    assert_eq!(error.message_with("gone"), "failed to read input: gone");
}

#[test]
fn what_is_not_json_says_where() {
    let error = state::parse("not json").unwrap_err();
    assert_eq!(
        error.message(),
        "state input is not valid JSON: expected ident at line 1 column 2"
    );
    assert_eq!(error.message_with("x"), "state input is not valid JSON: x");
}

#[test]
fn a_wrong_field_is_named() {
    let error = UnciaError::StateJson(StateJsonError::Field("type".to_string()));
    assert_eq!(
        error.message(),
        "state input is not valid JSON: missing, repeated or invalid field `type`"
    );
}

#[test]
fn the_complaint_of_the_reader_is_passed_on() {
    let text = "{\"version\": 4,\n \"resources\": [}";
    let complaint = "state input is not valid JSON: expected value at line 2 column 16";
    assert_eq!(state::parse(text).unwrap_err().message(), complaint);
    assert_eq!(terraform::parse(text).unwrap_err().message(), complaint);
    assert_eq!(tfstate::parse(text).unwrap_err().message(), complaint);
}
