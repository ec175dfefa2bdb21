//! What is read of a state, and what is refused.

use vstd::prelude::*;

use crate::document::read;
use crate::error::StateFailure;
use crate::json::{numeral_text, Json, Numeral};
use crate::state::raw::known;
use crate::state::schema::{items_or_empty, member};
use crate::state::terraform::{
    any_declares, declared_exactly, declares, is_declared_by, supported,
};
use crate::state::tfstate::{
    current_exactly, is_current_instance, stored_resources, stores,
};
use crate::state::{parsed, terraform, tfstate};
use crate::types::resource::{kind_named, Declared};

verus! {

/// The document has one of the keys of a state that is encrypted at rest.
pub open spec fn is_sealed(document: Json) -> bool {
    ||| document.get("encrypted_data"@) is Some
    ||| document.get("encryption_version"@) is Some
    ||| document.get("encryption"@) is Some
}

/// The document has one of the keys of a plan.
pub open spec fn is_plan(document: Json) -> bool {
    document.get("planned_values"@) is Some || document.get("resource_changes"@) is Some
}

/// The version is `1` or starts with `1.`.
pub open spec fn is_first_version(version: Seq<char>) -> bool {
    version == "1"@ || exists|minor: Seq<char>| version == #[trigger] ("1."@ + minor)
}

proof fn versions_in_words(version: Seq<char>)
    ensures
        supported(version) <==> is_first_version(version),
{
    if "1."@.is_prefix_of(version) {
        assert(version =~= "1."@ + version.skip("1."@.len() as int));
    }
    if exists|minor: Seq<char>| version == #[trigger] ("1."@ + minor) {
        let minor = choose|minor: Seq<char>| version == #[trigger] ("1."@ + minor);
        assert("1."@ =~= version.subrange(0, "1."@.len() as int));
    }
}

/// An encrypted state is refused as such, by whichever of its keys it is known and whatever else the
/// document has.
pub proof fn encrypted_states_are_refused(text: Seq<char>, document: Json)
    requires
        read(text) == Ok::<Json, Seq<char>>(document),
        is_sealed(document),
    ensures
        parsed(text) == Err::<Seq<Declared>, _>(StateFailure::Encrypted),
        terraform::parsed(text) == Err::<Seq<Declared>, _>(StateFailure::Encrypted),
{
}

/// A plan is refused, and the error names the key that it was known by.
pub proof fn plans_are_refused(text: Seq<char>, document: Json)
    requires
        read(text) == Ok::<Json, Seq<char>>(document),
        !is_sealed(document),
        is_plan(document),
    ensures
        document.get("planned_values"@) is Some ==> parsed(text) == Err::<Seq<Declared>, _>(
            StateFailure::Plan("planned_values"@),
        ),
        document.get("planned_values"@) is None ==> parsed(text) == Err::<Seq<Declared>, _>(
            StateFailure::Plan("resource_changes"@),
        ),
        (document.get("format_version"@) matches Some(Json::Text(version)) && is_first_version(
            version,
        )) ==> terraform::parsed(text) == parsed(text),
{
    if let Some(Json::Text(version)) = document.get("format_version"@) {
        versions_in_words(version);
    }
}

/// A format version other than the first is refused, and the error names it; a document that says
/// neither a format version nor, with resources, a numbered version is refused as having none.
pub proof fn other_versions_are_refused(text: Seq<char>, document: Json, version: Seq<char>)
    requires
        read(text) == Ok::<Json, Seq<char>>(document),
        !is_sealed(document),
        !is_plan(document),
    ensures
        document.get("format_version"@) == Some(Json::Text(version)) && !is_first_version(version)
            ==> parsed(text) == Err::<Seq<Declared>, _>(StateFailure::FormatVersion(version))
            && terraform::parsed(text) == parsed(text),
        document.get("format_version"@) is None && (document.get("resources"@) is None || !(
        document.get("version"@) matches Some(Json::Number(Numeral::Int(n))) && 0 <= n <= u64::MAX))
            ==> parsed(text) == Err::<Seq<Declared>, _>(StateFailure::FormatVersion("(none)"@)),
{
    versions_in_words(version);
}

/// A raw state is refused where only `show -json` output is read.
pub proof fn raw_states_are_told_apart(text: Seq<char>, document: Json)
    requires
        read(text) == Ok::<Json, Seq<char>>(document),
        !is_sealed(document),
        document.get("format_version"@) is None,
        document.get("version"@) is Some,
        document.get("resources"@) is Some,
    ensures
        terraform::parsed(text) == Err::<Seq<Declared>, _>(StateFailure::RawStateFile),
{
}

/// Nothing but a state is read as one.
pub proof fn only_states_are_read(text: Seq<char>)
    requires
        parsed(text) is Ok,
    ensures
        read(text) matches Ok(document) && !is_sealed(document) && !is_plan(document) && {
            ||| document.get("format_version"@) matches Some(Json::Text(version))
                && is_first_version(version)
            ||| document.get("format_version"@) is None && document.get("resources"@) is Some && (
            known(text) matches Ok(fields) && member(fields, "version"@, 0) == Some(
                Json::Number(Numeral::Int(4)),
            ))
        },
{
    let document = read(text)->Ok_0;
    if let Some(Json::Text(version)) = document.get("format_version"@) {
        versions_in_words(version);
    }
    reveal_strlit("(none)");
    reveal_strlit("1");
    reveal_strlit("1.");
    assert("(none)"@.len() == 6 && "1"@.len() == 1);
    assert("(none)"@[0] != "1."@[0]);
    assert(!supported("(none)"@));
}

/// `item` is among the resources of a module, or of a module inside it, `depth` levels down.
pub open spec fn is_at(module: Json, item: Json, depth: nat) -> bool
    decreases depth,
{
    if depth == 0 {
        member(module, "resources"@, 0) matches Some(Json::Array(items)) && items.contains(item)
    } else {
        member(module, "child_modules"@, 1) matches Some(Json::Array(modules)) && exists|i: int|
            0 <= i < modules.len() && is_at(#[trigger] modules[i], item, (depth - 1) as nat)
    }
}

/// An item is a managed resource: with this address, of a kind that its type names, with these
/// values.
pub open spec fn is_managed(item: Json, resource: Declared) -> bool {
    &&& member(item, "mode"@, 1) == Some(Json::Text("managed"@))
    &&& member(item, "address"@, 0) == Some(Json::Text(resource.id))
    &&& member(item, "type"@, 2) matches Some(Json::Text(named)) && resource.kind == kind_named(
        named,
    )
    &&& match member(item, "values"@, 3) {
        Some(Json::Object(values)) => resource.attributes == values,
        Some(_) => false,
        None => resource.attributes == Map::<Seq<char>, Json>::empty(),
    }
}

proof fn declared_at_some_depth(module: Json, resource: Declared) -> (r: (Json, nat))
    requires
        declares(module, resource),
    ensures
        is_at(module, r.0, r.1),
        is_managed(r.0, resource),
    decreases module,
{
    match member(module, "resources"@, 0) {
        Some(Json::Array(items)) if exists|i: int|
            0 <= i < items.len() && is_declared_by(resource, #[trigger] items[i]) => {
            let i = choose|i: int|
                0 <= i < items.len() && is_declared_by(resource, #[trigger] items[i]);
            assert(items.contains(items[i]));
            (items[i], 0)
        },
        _ => {
            let modules = member(module, "child_modules"@, 1)->0->Array_0;
            let (i, item, depth) = declared_in_some(modules, resource);
            assert(is_at(modules[i], item, depth));
            assert(is_at(module, item, depth + 1));
            (item, depth + 1)
        },
    }
}

proof fn declared_in_some(modules: Seq<Json>, resource: Declared) -> (r: (int, Json, nat))
    requires
        any_declares(modules, resource),
    ensures
        0 <= r.0 < modules.len(),
        is_at(modules[r.0], r.1, r.2),
        is_managed(r.1, resource),
    decreases modules,
{
    let n = modules.len() - 1;
    let rest = modules.subrange(0, n);
    if any_declares(rest, resource) {
        let (i, item, depth) = declared_in_some(rest, resource);
        assert(rest[i] == modules[i]);
        (i, item, depth)
    } else {
        let (item, depth) = declared_at_some_depth(modules[n], resource);
        (n, item, depth)
    }
}

proof fn one_of_them_declares(modules: Seq<Json>, i: int, resource: Declared)
    requires
        0 <= i < modules.len(),
        declares(modules[i], resource),
    ensures
        any_declares(modules, resource),
    decreases modules.len(),
{
    let n = modules.len() - 1;
    if i < n {
        let rest = modules.subrange(0, n);
        assert(rest[i] == modules[i]);
        one_of_them_declares(rest, i, resource);
    }
}

proof fn what_is_there_is_declared(module: Json, item: Json, depth: nat, resource: Declared)
    requires
        is_at(module, item, depth),
        is_managed(item, resource),
    ensures
        declares(module, resource),
    decreases depth,
{
    if depth == 0 {
        let items = member(module, "resources"@, 0)->0->Array_0;
        let i = choose|i: int| 0 <= i < items.len() && items[i] == item;
        let listed = items_or_empty(module, "resources"@, 0)->0;
        assert(is_declared_by(resource, listed[i]));
    } else {
        let modules = member(module, "child_modules"@, 1)->0->Array_0;
        assert(member(module, "child_modules"@, 1) == Some(Json::Array(modules)));
        let i = choose|i: int|
            0 <= i < modules.len() && is_at(#[trigger] modules[i], item, (depth - 1) as nat);
        what_is_there_is_declared(modules[i], item, (depth - 1) as nat, resource);
        one_of_them_declares(modules, i, resource);
    }
}

/// From `show -json` output the managed resources of the root module, and of every module inside it,
/// are read, and nothing else.
pub proof fn every_managed_resource_is_read(
    text: Seq<char>,
    document: Json,
    module: Json,
    resource: Declared,
)
    requires
        read(text) == Ok::<Json, Seq<char>>(document),
        document.get("format_version"@) is Some,
        document.get("values"@) matches Some(values) && member(values, "root_module"@, 0) == Some(
            module,
        ),
        parsed(text) is Ok,
    ensures
        parsed(text)->Ok_0.contains(resource) <==> exists|item: Json, depth: nat| #[trigger]
            is_at(module, item, depth) && is_managed(item, resource),
{
    declared_exactly(module, resource);
    if declares(module, resource) {
        let (item, depth) = declared_at_some_depth(module, resource);
        assert(is_at(module, item, depth) && is_managed(item, resource));
    }
    if exists|item: Json, depth: nat| #[trigger]
        is_at(module, item, depth) && is_managed(item, resource) {
        let (item, depth) = choose|item: Json, depth: nat| #[trigger]
            is_at(module, item, depth) && is_managed(item, resource);
        what_is_there_is_declared(module, item, depth, resource);
    }
}

/// The address of an instance: what its module is called, its type and its name, each followed by a
/// dot but for the last, and what tells it from the other instances in square brackets, in quotes
/// when it is a text.
pub open spec fn is_address(
    module: Option<Json>,
    named: Seq<char>,
    name: Seq<char>,
    index: Option<Json>,
    address: Seq<char>,
) -> bool {
    let plain = match module {
        Some(Json::Text(module)) => module + "."@ + named + "."@ + name,
        _ => named + "."@ + name,
    };
    match index {
        Some(Json::Number(n)) => address == plain + "["@ + numeral_text(n) + "]"@,
        Some(Json::Text(key)) => address == plain + "[\""@ + key + "\"]"@,
        _ => address == plain,
    }
}

/// There is no value, or it is `null`.
pub open spec fn is_absent(value: Option<Json>) -> bool {
    value is None || value == Some(Json::Null)
}

/// An instance of an entry is a current object of a managed resource: with the address that it would
/// be shown under, of a kind that the entry's type names, with these attributes.
pub open spec fn is_current(entry: Json, instance: Json, resource: Declared) -> bool {
    &&& member(entry, "mode"@, 1) == Some(Json::Text("managed"@))
    &&& is_absent(member(instance, "deposed"@, 2))
    &&& is_absent(member(entry, "module"@, 0)) || (member(entry, "module"@, 0) matches Some(
        Json::Text(_),
    ))
    &&& member(entry, "type"@, 2) matches Some(Json::Text(named)) && (member(
        entry,
        "name"@,
        3,
    ) matches Some(Json::Text(name)) && resource.kind == kind_named(named) && is_address(
        member(entry, "module"@, 0),
        named,
        name,
        member(instance, "index_key"@, 1),
        resource.id,
    ))
    &&& match member(instance, "attributes"@, 0) {
        Some(Json::Object(attributes)) => resource.attributes == attributes,
        Some(_) => false,
        None => resource.attributes == Map::<Seq<char>, Json>::empty(),
    }
}

/// The entry `entry`, of `entries`, has the instance `instance`.
pub open spec fn is_instance(entries: Seq<Json>, entry: Json, instance: Json) -> bool {
    entries.contains(entry) && (member(entry, "instances"@, 4) matches Some(Json::Array(instances))
        && instances.contains(instance))
}

proof fn current_in_words(entry: Json, instance: Json, resource: Declared)
    requires
        member(entry, "instances"@, 4) matches Some(Json::Array(instances)) && instances.contains(
            instance,
        ),
    ensures
        is_current_instance(resource, entry, instance) <==> is_current(entry, instance, resource),
{
    if let Some(Json::Text(named)) = member(entry, "type"@, 2) {
        if let Some(Json::Text(name)) = member(entry, "name"@, 3) {
            let index = member(instance, "index_key"@, 1);
            let module = match member(entry, "module"@, 0) {
                Some(Json::Text(module)) => Some(module),
                _ => None,
            };
            let address = crate::state::tfstate::address(module, named, name, index);
            let plain = match module {
                Some(module) => module + "."@ + named + "."@ + name,
                None => named + "."@ + name,
            };
            match index {
                Some(Json::Number(n)) => {
                    assert(address =~= plain + "["@ + numeral_text(n) + "]"@);
                },
                Some(Json::Text(key)) => {
                    assert(address =~= plain + "[\""@ + key + "\"]"@);
                },
                _ => {
                    assert(address =~= plain);
                },
            }
        }
    }
}

/// From a raw state, which is one of the fourth version, the current objects of managed resources are
/// read, and nothing else.
pub proof fn every_current_object_is_read(
    text: Seq<char>,
    fields: Json,
    entries: Seq<Json>,
    resource: Declared,
)
    requires
        known(text) == Ok::<Json, StateFailure>(fields),
        member(fields, "resources"@, 1) == Some(Json::Array(entries)),
        tfstate::parsed(text) is Ok,
    ensures
        member(fields, "version"@, 0) == Some(Json::Number(Numeral::Int(4))),
        tfstate::parsed(text)->Ok_0.contains(resource) <==> exists|entry: Json, instance: Json|
            #[trigger] is_instance(entries, entry, instance) && is_current(
                entry,
                instance,
                resource,
            ),
{
    current_exactly(entries, resource);
    if stores(entries, resource) {
        let (i, instance) = choose|i: int, instance: Json|
            0 <= i < entries.len() && #[trigger] is_current_instance(
                resource,
                entries[i],
                instance,
            );
        assert(entries.contains(entries[i]));
        assert(member(entries[i], "instances"@, 4) is Some);
        current_in_words(entries[i], instance, resource);
        assert(is_instance(entries, entries[i], instance));
    }
    if exists|entry: Json, instance: Json| #[trigger]
        is_instance(entries, entry, instance) && is_current(entry, instance, resource) {
        let (entry, instance) = choose|entry: Json, instance: Json| #[trigger]
            is_instance(entries, entry, instance) && is_current(entry, instance, resource);
        current_in_words(entry, instance, resource);
        let i = choose|i: int| 0 <= i < entries.len() && entries[i] == entry;
        assert(is_current_instance(resource, entries[i], instance));
    }
}

/// A raw state of another version than the fourth is refused, and the error names the version.
pub proof fn other_raw_versions_are_refused(text: Seq<char>, fields: Json, n: int)
    requires
        known(text) == Ok::<Json, StateFailure>(fields),
        member(fields, "version"@, 0) == Some(Json::Number(Numeral::Int(n))),
        0 <= n <= u64::MAX,
        n != 4,
    ensures
        member(fields, "resources"@, 1) is None ==> tfstate::parsed(text) == Err::<Seq<Declared>, _>(
            StateFailure::StateVersion(n),
        ),
        (member(fields, "resources"@, 1) matches Some(Json::Array(entries)) && stored_resources(
            entries,
        ) is Ok) && crate::state::schema::is_record(fields, 2) ==> tfstate::parsed(text) == Err::<
            Seq<Declared>,
            _,
        >(StateFailure::StateVersion(n)),
{
    if fields is Array {
        assert(member(fields, "version"@, 0) == Some(fields->Array_0[0]));
    }
    reveal_with_fuel(stored_resources, 2);
}

} // verus!
