//! Parse the JSON emitted by `terraform show -json` (or the identical `tofu show -json`) into uncia
//! resources.
//!
//! Guard order matters: every way an input can be the *wrong document* is rejected with a specific
//! error before "no resources" is ever accepted as a legitimate empty state. "No drift found" must
//! never be produced by silently parsing the wrong file.

use vstd::prelude::*;

use crate::document::{read, read_json};
use crate::error::{Result, StateFailure, StateJsonError, UnciaError};
use crate::json::{jsons, value_view, Json, JsonValue};
use crate::state::schema::{
    get_member, get_object_or_empty, get_required_text, holds_record, is_record, items_or_empty,
    member, object_or_empty, required_text,
};
use crate::state::{encrypted, find_plan_marker, is_encrypted, outcome, plan_marker, Parsed};
use crate::text::{same, starts_with};
use crate::types::resource::{
    declared_views, kind_named, Declared, Resource, ResourceId, ResourceKind,
};

verus! {

/// What a part of a document comes to: the managed resources in it, or the field that is absent or
/// has the wrong type.
pub type Shown = std::result::Result<Seq<Declared>, Seq<char>>;

/// The `format_version` of a document, `(none)` when it has none that is a text.
pub open spec fn format_version(document: Json) -> Seq<char> {
    match document.get("format_version"@) {
        Some(Json::Text(version)) => version,
        _ => "(none)"@,
    }
}

/// Version 1 and its minor versions are supported.
pub open spec fn supported(version: Seq<char>) -> bool {
    version == "1"@ || "1."@.is_prefix_of(version)
}

/// The document is a raw `.tfstate` file rather than `show -json` output.
pub open spec fn raw_state(document: Json) -> bool {
    document.get("format_version"@) is None && document.get("version"@) is Some && document.get(
        "resources"@,
    ) is Some
}

/// What a `show -json` document comes to.
pub open spec fn parsed_document(document: Json) -> Parsed {
    if encrypted(document) {
        Err(StateFailure::Encrypted)
    } else if raw_state(document) {
        Err(StateFailure::RawStateFile)
    } else if !supported(format_version(document)) {
        Err(StateFailure::FormatVersion(format_version(document)))
    } else if plan_marker(document) is Some {
        Err(StateFailure::Plan(plan_marker(document)->0))
    } else {
        match shown_values(document) {
            Ok(resources) => Ok(resources),
            Err(field) => Err(StateFailure::Field(field)),
        }
    }
}

/// What a text comes to.
pub open spec fn parsed(text: Seq<char>) -> Parsed {
    match read(text) {
        Ok(document) => parsed_document(document),
        Err(words) => Err(StateFailure::NotJson(Some(words))),
    }
}

/// The resources under `values`; without `values` the state is empty.
pub open spec fn shown_values(document: Json) -> Shown {
    match document.get("values"@) {
        None => Ok(Seq::empty()),
        Some(Json::Null) => Ok(Seq::empty()),
        Some(values) => if !is_record(values, 1) {
            Err("values"@)
        } else {
            match member(values, "root_module"@, 0) {
                Some(module) => shown_module(module),
                None => Ok(Seq::empty()),
            }
        },
    }
}

/// The resources of a module: its own, then those of its child modules in their order.
pub open spec fn shown_module(module: Json) -> Shown
    decreases module,
{
    if !is_record(module, 2) {
        Err("root_module"@)
    } else {
        match items_or_empty(module, "resources"@, 0) {
            None => Err("resources"@),
            Some(items) => match shown_resources(items) {
                Err(field) => Err(field),
                Ok(own) => match member(module, "child_modules"@, 1) {
                    None => Ok(own),
                    Some(Json::Array(modules)) => match shown_modules(modules) {
                        Ok(nested) => Ok(own + nested),
                        Err(field) => Err(field),
                    },
                    Some(_) => Err("child_modules"@),
                },
            },
        }
    }
}

/// The resources of some modules, one after the other.
pub open spec fn shown_modules(modules: Seq<Json>) -> Shown
    decreases modules,
{
    if modules.len() == 0 {
        Ok(Seq::empty())
    } else {
        match shown_modules(modules.subrange(0, modules.len() - 1)) {
            Err(field) => Err(field),
            Ok(before) => match shown_module(modules[modules.len() - 1]) {
                Ok(last) => Ok(before + last),
                Err(field) => Err(field),
            },
        }
    }
}

/// The managed ones among some resources.
pub open spec fn shown_resources(items: Seq<Json>) -> Shown
    decreases items.len(),
{
    if items.len() == 0 {
        Ok(Seq::empty())
    } else {
        match shown_resources(items.drop_last()) {
            Err(field) => Err(field),
            Ok(before) => match shown_resource(items.last()) {
                Ok(Some(resource)) => Ok(before.push(resource)),
                Ok(None) => Ok(before),
                Err(field) => Err(field),
            },
        }
    }
}

/// One resource; a data source is a declared lookup rather than managed infrastructure, and is left
/// out.
pub open spec fn shown_resource(item: Json) -> std::result::Result<Option<Declared>, Seq<char>> {
    if !is_record(item, 4) {
        Err("resources"@)
    } else {
        match (
            required_text(item, "address"@, 0),
            required_text(item, "mode"@, 1),
            required_text(item, "type"@, 2),
            object_or_empty(item, "values"@, 3),
        ) {
            (None, _, _, _) => Err("address"@),
            (_, None, _, _) => Err("mode"@),
            (_, _, None, _) => Err("type"@),
            (_, _, _, None) => Err("values"@),
            (Some(address), Some(mode), Some(named), Some(attributes)) => Ok(
                if mode == "managed"@ {
                    Some(Declared { id: address, kind: kind_named(named), attributes })
                } else {
                    None
                },
            ),
        }
    }
}

/// What a partial result denotes.
pub open spec fn shown(result: std::result::Result<Vec<Resource>, String>) -> Shown {
    match result {
        Ok(resources) => Ok(declared_views(resources@)),
        Err(field) => Err(field@),
    }
}

fn decode_resource(item: &JsonValue) -> (r: std::result::Result<Option<Resource>, String>)
    ensures
        match r {
            Ok(Some(resource)) => shown_resource(item@) == Ok::<_, Seq<char>>(Some(resource@)),
            Ok(None) => shown_resource(item@) == Ok::<_, Seq<char>>(None::<Declared>),
            Err(field) => shown_resource(item@) == Err::<Option<Declared>, _>(field@),
        },
{
    if !holds_record(item, 4) {
        return Err("resources".to_owned());
    }
    let address = match get_required_text(item, "address", 0) {
        Some(address) => address,
        None => return Err("address".to_owned()),
    };
    let mode = match get_required_text(item, "mode", 1) {
        Some(mode) => mode,
        None => return Err("mode".to_owned()),
    };
    let named = match get_required_text(item, "type", 2) {
        Some(named) => named,
        None => return Err("type".to_owned()),
    };
    let attributes = match get_object_or_empty(item, "values", 3) {
        Some(attributes) => attributes,
        None => return Err("values".to_owned()),
    };
    if same(mode, "managed") {
        Ok(
            Some(
                Resource {
                    id: ResourceId(address.to_owned()),
                    kind: ResourceKind::from_terraform_type(named),
                    attributes,
                },
            ),
        )
    } else {
        Ok(None)
    }
}

fn decode_resources(items: &Vec<JsonValue>) -> (r: std::result::Result<Vec<Resource>, String>)
    ensures
        shown(r) == shown_resources(jsons(items@)),
{
    let mut resources: Vec<Resource> = Vec::new();
    let mut i: usize = 0;
    assert(declared_views(resources@) =~= Seq::empty());
    while i < items.len()
        invariant
            i <= items.len(),
            shown_resources(jsons(items@).take(i as int)) == Ok::<_, Seq<char>>(
                declared_views(resources@),
            ),
        decreases items.len() - i,
    {
        let ghost prefix = jsons(items@).take(i + 1);
        assert(prefix.drop_last() =~= jsons(items@).take(i as int));
        assert(prefix.last() == items[i as int]@);
        match decode_resource(&items[i]) {
            Ok(Some(resource)) => {
                let ghost before = resources@;
                resources.push(resource);
                assert(declared_views(resources@) =~= declared_views(before).push(resource@));
            },
            Ok(None) => {},
            Err(field) => {
                proof {
                    stays_wrong(jsons(items@), i + 1);
                }
                return Err(field);
            },
        }
        i += 1;
    }
    assert(jsons(items@).take(i as int) =~= jsons(items@));
    Ok(resources)
}

proof fn stays_wrong(items: Seq<Json>, n: int)
    requires
        0 <= n <= items.len(),
        shown_resources(items.take(n)) is Err,
    ensures
        shown_resources(items) == shown_resources(items.take(n)),
    decreases items.len() - n,
{
    if n < items.len() {
        assert(items.take(n + 1).drop_last() =~= items.take(n));
        stays_wrong(items, n + 1);
    } else {
        assert(items.take(n) =~= items);
    }
}

proof fn modules_stay_wrong(modules: Seq<Json>, n: int)
    requires
        0 <= n <= modules.len(),
        shown_modules(modules.take(n)) is Err,
    ensures
        shown_modules(modules) == shown_modules(modules.take(n)),
    decreases modules.len() - n,
{
    if n < modules.len() {
        assert(modules.take(n + 1).subrange(0, n) =~= modules.take(n));
        modules_stay_wrong(modules, n + 1);
    } else {
        assert(modules.take(n) =~= modules);
    }
}

/// Collect managed resources from a module and its children.
fn walk_module(module: &JsonValue) -> (r: std::result::Result<Vec<Resource>, String>)
    ensures
        shown(r) == shown_module(module@),
    decreases module,
{
    broadcast use value_view;
    if !holds_record(module, 2) {
        return Err("root_module".to_owned());
    }
    let mut resources: Vec<Resource> = match get_member(module, "resources", 0) {
        Some(JsonValue::Array(items)) => match decode_resources(items) {
            Ok(resources) => resources,
            Err(field) => return Err(field),
        },
        None => Vec::new(),
        Some(_) => return Err("resources".to_owned()),
    };
    let ghost own = declared_views(resources@);
    assert(items_or_empty(module@, "resources"@, 0) matches Some(items) && shown_resources(items)
        == Ok::<_, Seq<char>>(own)) by {
        assert(declared_views(Seq::<Resource>::empty()) =~= Seq::empty());
    }
    match get_member(module, "child_modules", 1) {
        Some(value) => match value {
            JsonValue::Array(modules) => {
                let mut i: usize = 0;
                assert(own + Seq::<Declared>::empty() =~= own);
                while i < modules.len()
                    invariant
                        i <= modules.len(),
                        decreases_to!(module => modules),
                        is_record(module@, 2),
                        items_or_empty(module@, "resources"@, 0) matches Some(items)
                            && shown_resources(items) == Ok::<_, Seq<char>>(own),
                        member(module@, "child_modules"@, 1) == Some(
                            Json::Array(jsons(modules@)),
                        ),
                        shown_modules(jsons(modules@).take(i as int)) matches Ok(nested)
                            && declared_views(resources@) == own + nested,
                    decreases modules.len() - i,
                {
                    let ghost prefix = jsons(modules@).take(i + 1);
                    assert(prefix.subrange(0, i as int) =~= jsons(modules@).take(i as int));
                    assert(prefix[i as int] == modules[i as int]@);
                    assert(decreases_to!(modules@ => modules@[i as int]));
                    match walk_module(&modules[i]) {
                        Ok(more) => {
                            let mut more = more;
                            let ghost before = resources@;
                            let ghost added = more@;
                            resources.append(&mut more);
                            assert(declared_views(resources@) =~= declared_views(before)
                                + declared_views(added));
                            proof {
                                let nested = shown_modules(
                                    jsons(modules@).take(i as int),
                                )->Ok_0;
                                assert((own + nested) + declared_views(added) =~= own + (nested
                                    + declared_views(added)));
                            }
                        },
                        Err(field) => {
                            proof {
                                modules_stay_wrong(jsons(modules@), i + 1);
                            }
                            return Err(field);
                        },
                    }
                    i += 1;
                }
                assert(jsons(modules@).take(i as int) =~= jsons(modules@));
                Ok(resources)
            },
            _ => Err("child_modules".to_owned()),
        },
        None => Ok(resources),
    }
}

fn decode_values(document: &JsonValue) -> (r: std::result::Result<Vec<Resource>, String>)
    ensures
        shown(r) == shown_values(document@),
{
    broadcast use value_view;
    assert(declared_views(Seq::<Resource>::empty()) =~= Seq::empty());
    match document.get("values") {
        None => Ok(Vec::new()),
        Some(JsonValue::Null) => Ok(Vec::new()),
        Some(values) => {
            if !holds_record(values, 1) {
                return Err("values".to_owned());
            }
            match get_member(values, "root_module", 0) {
                Some(module) => walk_module(module),
                None => Ok(Vec::new()),
            }
        },
    }
}

/// Parse a `terraform show -json` document into the crate's resource model.
pub fn parse_document(document: &JsonValue) -> (r: Result<Vec<Resource>>)
    ensures
        outcome(r) == parsed_document(document@),
{
    broadcast use value_view;
    // Encrypted state fed raw. Checked before anything else so the error names the real problem
    // rather than a downstream symptom.
    if is_encrypted(document) {
        return Err(UnciaError::EncryptedState);
    }
    // A raw .tfstate file (schema `version: 4`, no `format_version`) rather than `show -json`
    // output.

    if document.get("format_version").is_none() && document.get("version").is_some()
        && document.get("resources").is_some() {
        return Err(UnciaError::RawStateFile);
    }
    // A recognizable and supported format_version.

    let version = match document.get("format_version") {
        Some(JsonValue::String(version)) => version.as_str(),
        _ => "(none)",
    };
    if !same(version, "1") && !starts_with(version, "1.") {
        return Err(UnciaError::UnsupportedFormatVersion { found: version.to_owned() });
    }
    // Plan output, not state. A plan has a 1.x format_version and no `values` key, and would
    // otherwise fall through to the empty-state case below.

    if let Some(marker) = find_plan_marker(document) {
        return Err(UnciaError::WrongDocumentKind { marker: marker.to_owned() });
    }
    // Only now is a missing `values` a legitimate empty state.

    match decode_values(document) {
        Ok(resources) => Ok(resources),
        Err(field) => Err(UnciaError::StateJson(StateJsonError::Field(field))),
    }
}

/// Parse `terraform show -json` output into the crate's resource model.
///
/// Returns only `mode == "managed"` resources; data sources are declared lookups, not managed
/// infrastructure, and cannot drift in uncia's sense.
pub fn parse(json: &str) -> (r: Result<Vec<Resource>>)
    ensures
        outcome(r) == parsed(json@),
{
    match read_json(json) {
        Ok(document) => parse_document(&document),
        Err(error) => Err(UnciaError::StateJson(StateJsonError::NotJson(error))),
    }
}

/// `item` declares `resource`: it is in managed mode, and has the address, the type and the values
/// of the resource.
pub open spec fn is_declared_by(resource: Declared, item: Json) -> bool {
    &&& required_text(item, "mode"@, 1) == Some("managed"@)
    &&& required_text(item, "address"@, 0) == Some(resource.id)
    &&& required_text(item, "type"@, 2) matches Some(named) && resource.kind == kind_named(named)
    &&& object_or_empty(item, "values"@, 3) == Some(resource.attributes)
}

/// A module declares `resource`, itself or in a module inside it.
pub open spec fn declares(module: Json, resource: Declared) -> bool
    decreases module,
{
    (items_or_empty(module, "resources"@, 0) matches Some(items) && exists|i: int|
        0 <= i < items.len() && is_declared_by(resource, #[trigger] items[i])) || match member(
        module,
        "child_modules"@,
        1,
    ) {
        Some(Json::Array(modules)) => any_declares(modules, resource),
        _ => false,
    }
}

/// One of some modules declares `resource`.
pub open spec fn any_declares(modules: Seq<Json>, resource: Declared) -> bool
    decreases modules,
{
    modules.len() > 0 && (any_declares(modules.subrange(0, modules.len() - 1), resource)
        || declares(modules[modules.len() - 1], resource))
}

/// How many of some items declare `resource`.
pub open spec fn times_among(items: Seq<Json>, resource: Declared) -> nat
    decreases items.len(),
{
    if items.len() == 0 {
        0
    } else {
        times_among(items.drop_last(), resource) + if is_declared_by(resource, items.last()) {
            1nat
        } else {
            0nat
        }
    }
}

/// How often a module declares `resource`, itself and in the modules inside it.
pub open spec fn times_declared(module: Json, resource: Declared) -> nat
    decreases module,
{
    let own = match items_or_empty(module, "resources"@, 0) {
        Some(items) => times_among(items, resource),
        None => 0,
    };
    match member(module, "child_modules"@, 1) {
        Some(Json::Array(modules)) => own + times_declared_in(modules, resource),
        _ => own,
    }
}

/// How often some modules declare `resource`.
pub open spec fn times_declared_in(modules: Seq<Json>, resource: Declared) -> nat
    decreases modules,
{
    if modules.len() == 0 {
        0
    } else {
        times_declared_in(modules.subrange(0, modules.len() - 1), resource) + times_declared(
            modules[modules.len() - 1],
            resource,
        )
    }
}

/// A resource is read as often as it is declared in managed mode.
pub proof fn declared_as_often(module: Json, resource: Declared)
    requires
        shown_module(module) is Ok,
    ensures
        shown_module(module)->Ok_0.to_multiset().count(resource) == times_declared(module, resource),
    decreases module,
{
    let items = items_or_empty(module, "resources"@, 0)->0;
    items_counted(items, resource);
    match member(module, "child_modules"@, 1) {
        Some(Json::Array(modules)) => {
            modules_counted(modules, resource);
            vstd::seq_lib::lemma_multiset_commutative(
                shown_resources(items)->Ok_0,
                shown_modules(modules)->Ok_0,
            );
        },
        _ => {},
    }
}

proof fn modules_counted(modules: Seq<Json>, resource: Declared)
    requires
        shown_modules(modules) is Ok,
    ensures
        shown_modules(modules)->Ok_0.to_multiset().count(resource) == times_declared_in(
            modules,
            resource,
        ),
    decreases modules,
{
    broadcast use vstd::seq_lib::group_to_multiset_ensures;

    if modules.len() > 0 {
        let rest = modules.subrange(0, modules.len() - 1);
        modules_counted(rest, resource);
        declared_as_often(modules[modules.len() - 1], resource);
        vstd::seq_lib::lemma_multiset_commutative(
            shown_modules(rest)->Ok_0,
            shown_module(modules[modules.len() - 1])->Ok_0,
        );
    }
}

proof fn items_counted(items: Seq<Json>, resource: Declared)
    requires
        shown_resources(items) is Ok,
    ensures
        shown_resources(items)->Ok_0.to_multiset().count(resource) == times_among(items, resource),
    decreases items.len(),
{
    broadcast use vstd::seq_lib::group_to_multiset_ensures;

    if items.len() > 0 {
        items_counted(items.drop_last(), resource);
        assert(shown_resource(items.last()) == Ok::<_, Seq<char>>(Some(resource))
            <==> is_declared_by(resource, items.last()));
    }
}

/// Every resource that is declared in managed mode is read, in whatever module it is, and nothing
/// else is.
pub proof fn declared_exactly(module: Json, resource: Declared)
    requires
        shown_module(module) is Ok,
    ensures
        shown_module(module)->Ok_0.contains(resource) <==> declares(module, resource),
    decreases module,
{
    broadcast use vstd::seq_lib::group_seq_properties;

    let items = items_or_empty(module, "resources"@, 0)->0;
    list_declared_exactly(items, resource);
    match member(module, "child_modules"@, 1) {
        Some(Json::Array(modules)) => {
            modules_declared_exactly(modules, resource);
        },
        _ => {},
    }
}

proof fn modules_declared_exactly(modules: Seq<Json>, resource: Declared)
    requires
        shown_modules(modules) is Ok,
    ensures
        shown_modules(modules)->Ok_0.contains(resource) <==> any_declares(modules, resource),
    decreases modules,
{
    broadcast use vstd::seq_lib::group_seq_properties;

    if modules.len() > 0 {
        modules_declared_exactly(modules.subrange(0, modules.len() - 1), resource);
        declared_exactly(modules[modules.len() - 1], resource);
    }
}

proof fn list_declared_exactly(items: Seq<Json>, resource: Declared)
    requires
        shown_resources(items) is Ok,
    ensures
        shown_resources(items)->Ok_0.contains(resource) <==> exists|i: int|
            0 <= i < items.len() && is_declared_by(resource, #[trigger] items[i]),
    decreases items.len(),
{
    broadcast use vstd::seq_lib::group_seq_properties;

    if items.len() > 0 {
        let rest = items.drop_last();
        list_declared_exactly(rest, resource);
        let read = shown_resources(items)->Ok_0;
        let before = shown_resources(rest)->Ok_0;
        assert forall|i: int| 0 <= i < items.len() && is_declared_by(
            resource,
            #[trigger] items[i],
        ) implies read.contains(resource) by {
            if i < rest.len() {
                assert(is_declared_by(resource, rest[i]));
            }
        }
        if read.contains(resource) {
            if before.contains(resource) {
                let i = choose|i: int|
                    0 <= i < rest.len() && is_declared_by(resource, #[trigger] rest[i]);
                assert(items[i] == rest[i]);
            } else {
                assert(is_declared_by(resource, items[items.len() - 1]));
            }
        }
    }
}

} // verus!
