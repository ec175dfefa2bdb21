//! Desired-state ingestion: read what the IaC tool thinks should exist.
//!
//! Two document kinds carry declared state, and [`parse`] accepts either:
//!
//! - `terraform show -json` output ([`terraform`]): the rendered view.
//! - a raw `.tfstate` file ([`tfstate`]): what Terraform actually stores, on disk or in a remote
//!   backend.
//!
//! Callers should use [`parse`] and let it route; the per-format parsers stay public for explicit
//! use.

pub mod raw;
pub mod schema;
pub mod terraform;
pub mod tfstate;

use vstd::prelude::*;

use crate::document::{read, read_json};
use crate::error::{Result, StateFailure, StateJsonError, UnciaError};
use crate::json::{maybe_text, Json, JsonValue};
use crate::state::raw::known;
use crate::state::schema::{items_or_empty, member};
use crate::types::resource::{declared_views, Declared, Resource};

verus! {

/// What parsing a state comes to: the declared resources, or why there are none.
pub type Parsed = std::result::Result<Seq<Declared>, StateFailure>;

/// What the result of a parser denotes.
pub open spec fn outcome(result: Result<Vec<Resource>>) -> Parsed {
    match result {
        Ok(resources) => Ok(declared_views(resources@)),
        Err(error) => Err(error@),
    }
}

/// `document` has a key that only an OpenTofu state file encrypted at rest has.
pub open spec fn encrypted(document: Json) -> bool {
    document.get("encrypted_data"@) is Some || document.get("encryption_version"@) is Some
        || document.get("encryption"@) is Some
}

/// The first of the keys by which `terraform show -json <planfile>` output is recognised that
/// `document` has.
pub open spec fn plan_marker(document: Json) -> Option<Seq<char>> {
    if document.get("planned_values"@) is Some {
        Some("planned_values"@)
    } else if document.get("resource_changes"@) is Some {
        Some("resource_changes"@)
    } else {
        None
    }
}

/// The kinds of document that carry declared state.
#[derive(Debug, Clone, Copy)]
pub enum DocumentKind {
    /// `terraform show -json` output.
    Show,
    /// A raw `.tfstate` file.
    Raw,
}

/// Which kind of document this is, or why it is none.
///
/// The guards come before the routing, so every way a document can be the wrong thing is rejected
/// before an empty result is accepted; a document that is recognised as neither kind is an error.
pub open spec fn recognised(document: Json) -> std::result::Result<DocumentKind, StateFailure> {
    if encrypted(document) {
        Err(StateFailure::Encrypted)
    } else if plan_marker(document) is Some {
        Err(StateFailure::Plan(plan_marker(document)->0))
    } else if document.get("format_version"@) is Some {
        Ok(DocumentKind::Show)
    } else if (document.get("version"@) matches Some(version) && version.unsigned() is Some)
        && document.get("resources"@) is Some {
        Ok(DocumentKind::Raw)
    } else {
        Err(StateFailure::FormatVersion("(none)"@))
    }
}

/// What a text comes to.
pub open spec fn parsed(text: Seq<char>) -> Parsed {
    match read(text) {
        Ok(document) => match recognised(document) {
            Ok(DocumentKind::Show) => terraform::parsed_document(document),
            Ok(DocumentKind::Raw) => tfstate::parsed(text),
            Err(failure) => Err(failure),
        },
        Err(words) => Err(StateFailure::NotJson(Some(words))),
    }
}

pub(crate) fn is_encrypted(document: &JsonValue) -> (r: bool)
    ensures
        r == encrypted(document@),
{
    document.get("encrypted_data").is_some() || document.get("encryption_version").is_some()
        || document.get("encryption").is_some()
}

pub(crate) fn find_plan_marker(document: &JsonValue) -> (r: Option<&'static str>)
    ensures
        maybe_text(r) == plan_marker(document@),
{
    if document.get("planned_values").is_some() {
        Some("planned_values")
    } else if document.get("resource_changes").is_some() {
        Some("resource_changes")
    } else {
        None
    }
}

/// Tell which of the supported kinds a JSON document is of.
pub fn recognise(document: &JsonValue) -> (r: Result<DocumentKind>)
    ensures
        match r {
            Ok(kind) => recognised(document@) == Ok::<_, StateFailure>(kind),
            Err(error) => recognised(document@) == Err::<DocumentKind, _>(error@),
        },
{
    // Encrypted state is checked first: an encrypted OpenTofu file also carries `serial` and
    // `lineage` and would otherwise look raw-state-shaped, producing a confusing downstream error
    // instead of naming the real problem.
    if is_encrypted(document) {
        return Err(UnciaError::EncryptedState);
    }
    // A plan carries a 1.x format_version and no `values`, so without this it would route to the
    // show-json parser and read as an empty state.

    if let Some(marker) = find_plan_marker(document) {
        return Err(UnciaError::WrongDocumentKind { marker: marker.to_owned() });
    }
    let versioned = match document.get("version") {
        Some(version) => version.as_u64().is_some(),
        None => false,
    };
    if document.get("format_version").is_some() {
        Ok(DocumentKind::Show)
    } else if versioned && document.get("resources").is_some() {
        Ok(DocumentKind::Raw)
    } else {
        Err(UnciaError::UnsupportedFormatVersion { found: "(none)".to_owned() })
    }
}

/// Parse declared state from either supported document kind.
///
/// Wrong-document guards run *before* routing, so every way an input can be the wrong thing is
/// rejected with a specific error before an empty result is ever accepted. An unrecognized document
/// is an error, never a silent zero resources.
pub fn parse(json: &str) -> (r: Result<Vec<Resource>>)
    ensures
        outcome(r) == parsed(json@),
{
    match read_json(json) {
        Ok(document) => match recognise(&document) {
            Ok(DocumentKind::Show) => terraform::parse_document(&document),
            Ok(DocumentKind::Raw) => tfstate::parse(json),
            Err(error) => Err(error),
        },
        Err(error) => Err(UnciaError::StateJson(StateJsonError::NotJson(error))),
    }
}

/// No document is accepted that is the wrong thing: one that parses is not encrypted, is no plan, and
/// is recognised as one of the two kinds, in a supported version.
pub proof fn wrong_documents_are_rejected(text: Seq<char>, document: Json)
    requires
        read(text) == Ok::<Json, Seq<char>>(document),
    ensures
        encrypted(document) ==> parsed(text) == Err::<Seq<Declared>, _>(StateFailure::Encrypted),
        !encrypted(document) ==> (plan_marker(document) matches Some(marker) ==> parsed(text)
            == Err::<Seq<Declared>, _>(StateFailure::Plan(marker))),
        parsed(text) is Ok ==> {
            &&& !encrypted(document)
            &&& plan_marker(document) is None
            &&& terraform::supported(terraform::format_version(document)) || (known(
                text,
            ) matches Ok(fields) && tfstate::is_version_four(fields))
        },
{
}

/// A text that is not JSON is never an empty state: by each way in it is an error, and where the
/// whole text is read as a value, the error says what the reader says of it.
pub proof fn what_is_not_json_is_rejected(text: Seq<char>, words: Seq<char>)
    requires
        read(text) == Err::<Json, _>(words),
    ensures
        parsed(text) == Err::<Seq<Declared>, _>(StateFailure::NotJson(Some(words))),
        terraform::parsed(text) == Err::<Seq<Declared>, _>(StateFailure::NotJson(Some(words))),
{
}

/// A `show -json` document of a supported version comes to the same by either way in.
pub proof fn routes_to_show_json(text: Seq<char>, document: Json)
    requires
        read(text) == Ok::<Json, Seq<char>>(document),
        document.get("format_version"@) is Some,
        terraform::supported(terraform::format_version(document)),
    ensures
        parsed(text) == terraform::parsed(text),
{
}

/// A raw state document that is neither encrypted nor a plan comes to the same by either way in.
pub proof fn routes_to_raw_state(text: Seq<char>, document: Json)
    requires
        read(text) == Ok::<Json, Seq<char>>(document),
        !encrypted(document),
        plan_marker(document) is None,
        document.get("format_version"@) is None,
        document.get("version"@) matches Some(version) && version.unsigned() is Some,
        document.get("resources"@) is Some,
    ensures
        parsed(text) == tfstate::parsed(text),
{
}

/// How often a `show -json` document declares `resource`.
pub open spec fn times_shown(document: Json, resource: Declared) -> nat {
    match document.get("values"@) {
        Some(values) => match member(values, "root_module"@, 0) {
            Some(module) => terraform::times_declared(module, resource),
            None => 0,
        },
        None => 0,
    }
}

/// How often the known fields of a raw state declare `resource`.
pub open spec fn times_stored(fields: Json, resource: Declared) -> nat {
    match items_or_empty(fields, "resources"@, 1) {
        Some(entries) => tfstate::times_stored(entries, resource),
        None => 0,
    }
}

/// How often a text of either kind declares `resource`.
pub open spec fn times_declared(text: Seq<char>, resource: Declared) -> nat {
    match read(text) {
        Ok(document) => match recognised(document) {
            Ok(DocumentKind::Show) => times_shown(document, resource),
            Ok(DocumentKind::Raw) => match known(text) {
                Ok(fields) => times_stored(fields, resource),
                Err(_) => 0,
            },
            Err(_) => 0,
        },
        Err(_) => 0,
    }
}

/// A document of either kind comes to exactly the resources that it declares, each as often as it
/// does.
pub proof fn read_exactly(text: Seq<char>, resource: Declared)
    requires
        parsed(text) is Ok,
    ensures
        parsed(text)->Ok_0.to_multiset().count(resource) == times_declared(text, resource),
        parsed(text)->Ok_0.contains(resource) <==> times_declared(text, resource) > 0,
{
    broadcast use vstd::seq_lib::group_to_multiset_ensures;

    let document = read(text)->Ok_0;
    match recognised(document) {
        Ok(DocumentKind::Show) => {
            if let Some(values) = document.get("values"@) {
                if let Some(module) = member(values, "root_module"@, 0) {
                    terraform::declared_as_often(module, resource);
                }
            }
        },
        _ => {
            let fields = known(text)->Ok_0;
            tfstate::current_as_often(items_or_empty(fields, "resources"@, 1)->0, resource);
        },
    }
}

/// The two kinds of document feed one comparison: where a `show -json` document and a raw state
/// declare the same resources equally often, they come to the same resources, equally many of them.
pub proof fn formats_agree(show: Seq<char>, raw: Seq<char>)
    requires
        parsed(show) is Ok,
        parsed(raw) is Ok,
        recognised(read(show)->Ok_0) == Ok::<_, StateFailure>(DocumentKind::Show),
        recognised(read(raw)->Ok_0) == Ok::<_, StateFailure>(DocumentKind::Raw),
        forall|resource: Declared|
            #![trigger times_shown(read(show)->Ok_0, resource)]
            #![trigger times_stored(known(raw)->Ok_0, resource)]
            times_shown(read(show)->Ok_0, resource) == times_stored(known(raw)->Ok_0, resource),
    ensures
        parsed(show)->Ok_0.to_multiset() == parsed(raw)->Ok_0.to_multiset(),
        parsed(show)->Ok_0.len() == parsed(raw)->Ok_0.len(),
{
    broadcast use vstd::seq_lib::group_to_multiset_ensures;

    let a = parsed(show)->Ok_0;
    let b = parsed(raw)->Ok_0;
    assert forall|resource: Declared| a.to_multiset().count(resource) == b.to_multiset().count(
        resource,
    ) by {
        read_exactly(show, resource);
        read_exactly(raw, resource);
        assert(times_shown(read(show)->Ok_0, resource) == times_stored(known(raw)->Ok_0, resource));
    }
    assert(a.to_multiset() =~= b.to_multiset());
    vstd::seq_lib::to_multiset_len(a);
    vstd::seq_lib::to_multiset_len(b);
}

} // verus!
