//! Reading raw `.tfstate` text: what counts as a field, what is skipped, and what is refused.

use uncia::error::StateJsonError;
use uncia::json::JsonValue;
use uncia::state::raw::read_known;
use uncia::state::{self, tfstate};
use uncia::{Resource, UnciaError};

fn addresses(resources: &[Resource]) -> Vec<&str> {
    resources.iter().map(|r| r.id.0.as_str()).collect()
}

fn refused_field(text: &str) -> String {
    match tfstate::parse(text) {
        Err(UnciaError::StateJson(StateJsonError::Field(field))) => field,
        other => panic!("expected a wrong field, got {other:?}"),
    }
}

fn is_not_json(text: &str) -> bool {
    matches!(tfstate::parse(text), Err(UnciaError::StateJson(StateJsonError::NotJson(_))))
}

fn state_with(instance: &str) -> String {
    format!(
        r#"{{"version": 4, "resources": [{{"mode": "managed", "type": "aws_instance",
            "name": "web", "instances": [{instance}]}}]}}"#
    )
}

fn nested(levels: usize) -> String {
    format!("{}{}", "[".repeat(levels), "]".repeat(levels))
}

#[test]
fn a_known_field_must_not_come_twice() {
    let twice = [
        (r#"{"version": 4, "version": 4, "resources": []}"#.to_string(), "version"),
        (r#"{"version": 4, "resources": [], "resources": []}"#.to_string(), "resources"),
        (
            r#"{"version": 4, "resources": [{"mode": "managed", "mode": "data",
                "type": "t", "name": "n"}]}"#
                .to_string(),
            "mode",
        ),
        (
            r#"{"version": 4, "resources": [{"mode": "managed", "type": "t", "name": "n",
                "instances": [], "instances": []}]}"#
                .to_string(),
            "instances",
        ),
        (state_with(r#"{"attributes": {}, "attributes": {"id": "i"}}"#), "attributes"),
        (state_with(r#"{"deposed": null, "deposed": null}"#), "deposed"),
        (state_with(r#"{"index_key": 0, "index_key": 1}"#), "index_key"),
    ];
    for (text, field) in &twice {
        assert_eq!(refused_field(text), *field, "{text}");
        assert!(
            matches!(
                state::parse(text),
                Err(UnciaError::StateJson(StateJsonError::Field(f))) if f == *field
            ),
            "{text}"
        );
    }
}

#[test]
fn a_key_is_what_it_reads_as() {
    assert_eq!(
        refused_field(r#"{"version": 4, "\u0076ersion": 4, "resources": []}"#),
        "version"
    );
    let text = r#"{"\u0076ersion": 4, "resources": []}"#;
    assert!(tfstate::parse(text).unwrap().is_empty());
}

#[test]
fn other_keys_may_come_twice() {
    let text = state_with(r#"{"attributes": {"id": "i-1", "id": "i-2"}, "x": 1, "x": 2}"#)
        .replacen('{', r#"{"serial": 1, "serial": 2, "#, 1);
    let resources = tfstate::parse(&text).unwrap();
    assert_eq!(addresses(&resources), ["aws_instance.web"]);
    assert_eq!(resources[0].cloud_id(), Some("i-2"));
    assert_eq!(state::parse(&text).unwrap().len(), 1);
}

#[test]
fn what_is_skipped_need_not_be_a_value() {
    // A number out of range and a lone surrogate are well formed, but no value can hold them.
    for skipped in ["1e999", r#""\ud800""#, &nested(500)] {
        let text = format!(r#"{{"version": 4, "outputs": {skipped}, "resources": []}}"#);
        assert!(tfstate::parse(&text).unwrap().is_empty(), "{skipped}");
        // The dispatcher reads the whole document as a value first.
        assert!(
            matches!(
                state::parse(&text),
                Err(UnciaError::StateJson(StateJsonError::NotJson(_)))
            ),
            "{skipped}"
        );
    }
}

#[test]
fn what_is_kept_must_be_a_value() {
    assert!(is_not_json(&state_with(r#"{"attributes": {"n": 1e999}}"#)));
    assert!(is_not_json(&state_with(r#"{"attributes": {"s": "\ud800"}}"#)));
    assert!(is_not_json(r#"{"version": 4, "\ud800": 0, "resources": []}"#));
}

#[test]
fn what_is_not_well_formed_is_refused_wherever_it_stands() {
    for text in [
        "",
        "not json",
        r#"{"version": 4, "resources": []"#,
        r#"{"version": 4, "resources": []} x"#,
        r#"{"version": 4, "resources": [],}"#,
        r#"{"version": 4, "outputs": {"a" 1}, "resources": []}"#,
        r#"{"version": 4, "outputs": [1,,2], "resources": []}"#,
    ] {
        assert!(is_not_json(text), "{text}");
    }
}

#[test]
fn brackets_and_separators_inside_strings_are_text() {
    let text = state_with(
        r#"{ "note" : "a,b:c]}[{" , "attributes" : {"id": "i-\"],}{[:\\", "k\"": ":"} }"#,
    );
    let resources = tfstate::parse(&text).unwrap();
    assert_eq!(addresses(&resources), ["aws_instance.web"]);
    assert_eq!(resources[0].cloud_id(), Some("i-\"],}{[:\\"));
    assert_eq!(resources[0].attributes.get("k\""), Some(&JsonValue::from_text(":")));
}

#[test]
fn space_is_allowed_between_all_tokens() {
    let text = "\n{\t\"version\" :\r\n4 , \"resources\"\n:\n[ { } ] }\n";
    assert_eq!(refused_field(text), "mode");
    let text = " { \"version\" : 4 , \"resources\" : [ \n ] } ";
    assert!(tfstate::parse(text).unwrap().is_empty());
}

#[test]
fn records_may_be_written_as_arrays() {
    let text = r#"[4, [[null, "managed", "aws_instance", "web", [[{"id": "i-1"}, 0, null]]]]]"#;
    let resources = tfstate::parse(text).unwrap();
    assert_eq!(addresses(&resources), ["aws_instance.web[0]"]);
    assert_eq!(resources[0].cloud_id(), Some("i-1"));
    // A field at the end may be left out; there must be no more than the fields.
    assert!(tfstate::parse("[4]").unwrap().is_empty());
    assert_eq!(refused_field("[4, [], 0]"), "version");
    assert_eq!(refused_field("[]"), "version");
    assert_eq!(refused_field("4"), "version");
    assert_eq!(refused_field("\"{}\""), "version");
}

#[test]
fn values_are_nested_as_deeply_as_their_place_allows() {
    // The state, its resources, the resource, its instances, the instance and the attributes are six
    // of the levels that a reader of values allows.
    let allowed = state_with(&format!(r#"{{"attributes": {{"a": {}}}}}"#, nested(121)));
    assert_eq!(tfstate::parse(&allowed).unwrap().len(), 1);
    let refused = state_with(&format!(r#"{{"attributes": {{"a": {}}}}}"#, nested(122)));
    assert!(is_not_json(&refused));
}

#[test]
fn only_known_fields_are_kept() {
    let text = r#"{"version": 4, "serial": 7, "resources": [{"mode": "managed", "type": "t",
        "name": "n", "provider": "p", "instances": [{"schema_version": 1, "index_key": "k"}]}]}"#;
    let known = read_known(text).unwrap();
    assert!(known.get("serial").is_none());
    assert_eq!(known.get("version"), Some(&JsonValue::from_i64(4)));
    let resource = &known.get("resources").unwrap().as_array().unwrap()[0];
    assert!(resource.get("provider").is_none());
    assert!(resource.get("module").is_none());
    let instance = &resource.get("instances").unwrap().as_array().unwrap()[0];
    assert!(instance.get("schema_version").is_none());
    assert_eq!(instance.get("index_key"), Some(&JsonValue::from_text("k")));
}

#[test]
fn lists_must_be_lists() {
    assert_eq!(refused_field(r#"{"version": 4, "resources": {}}"#), "resources");
    assert_eq!(refused_field(r#"{"version": 4, "resources": null}"#), "resources");
    assert_eq!(refused_field(r#"{"version": 4, "resources": [7]}"#), "resources");
    assert_eq!(
        refused_field(
            r#"{"version": 4, "resources": [{"mode": "m", "type": "t", "name": "n",
                "instances": "i"}]}"#
        ),
        "instances"
    );
    assert_eq!(refused_field(&state_with("7")), "instances");
}

#[test]
fn the_version_is_looked_at_last() {
    let old = r#"{"version": 3, "resources": []}"#;
    assert!(matches!(
        tfstate::parse(old),
        Err(UnciaError::UnsupportedStateVersion { found: 3 })
    ));
    assert_eq!(refused_field(r#"{"version": 3, "resources": 0}"#), "resources");
}

#[test]
fn a_resource_is_read_as_often_as_it_is_declared() {
    let item = r#"{"address": "aws_instance.web", "mode": "managed", "type": "aws_instance",
        "values": {"id": "i-1"}}"#;
    let show = format!(
        r#"{{"format_version": "1.0", "values": {{"root_module": {{"resources": [{item}, {item}],
            "child_modules": [{{"resources": [{item}]}}]}}}}}}"#
    );
    let instance = r#"{"attributes": {"id": "i-1"}}"#;
    let raw = state_with(&format!("{instance}, {instance}, {instance}"));
    let shown = state::parse(&show).unwrap();
    let stored = state::parse(&raw).unwrap();
    assert_eq!(shown.len(), 3);
    assert_eq!(addresses(&shown), addresses(&stored));
}
