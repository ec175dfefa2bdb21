//! Parse a raw `.tfstate` file (schema version 4) into uncia resources.
//!
//! This is the file Terraform actually stores, on disk as `terraform.tfstate` or as the object in an
//! S3/remote backend, and its schema differs from `terraform show -json` output: resources are
//! grouped, each carrying one or more *instances*, and there is no precomputed `address` field.
//!
//! Attribute values themselves are the same provider-schema-shaped maps the show-json path
//! produces, which is what lets both parsers feed one diff engine.
//!
//! **Secrets**: unlike `show -json`, a raw state file is the stored object and routinely contains
//! sensitive attribute values in plaintext. uncia reads them only to diff, but anything that later
//! *transmits* a `DriftKind::FieldChanged` payload must redact before sending.

use vstd::prelude::*;

use crate::error::{Result, StateFailure, StateJsonError, UnciaError};
use crate::json::{jsons, maybe_json, maybe_text, numeral_text, value_view, Json, JsonValue};
use crate::state::raw::{known, read_known};
use crate::state::schema::{
    get_member, get_object_or_empty, get_optional_text, get_required_text, holds_record, is_record,
    items_or_empty, member, object_or_empty, optional_text, required_text,
};
use crate::state::terraform::{shown, Shown};
use crate::state::{outcome, Parsed};
use crate::text::same;
use crate::types::resource::{
    declared_views, kind_named, Declared, Resource, ResourceId, ResourceKind,
};

verus! {

/// The only raw-state schema version uncia understands. Version 3 and older predate Terraform 0.12
/// and are a genuinely different shape.
pub const SUPPORTED_VERSION: u64 = 4;

/// The Terraform address of an instance: `{module.}{type}.{name}{[index]}`, an index that is a
/// number as `[0]` and one that is a text as `["blue"]`.
pub open spec fn address(
    module: Option<Seq<char>>,
    named: Seq<char>,
    name: Seq<char>,
    index: Option<Json>,
) -> Seq<char> {
    let prefix = match module {
        Some(module) => module + "."@,
        None => Seq::empty(),
    };
    let suffix = match index {
        Some(Json::Number(n)) => "["@ + numeral_text(n) + "]"@,
        Some(Json::Text(s)) => "[\""@ + s + "\"]"@,
        _ => Seq::empty(),
    };
    prefix + named + "."@ + name + suffix
}

/// One instance of a resource; a deposed object is the leftover of a failed
/// `create_before_destroy` rather than the resource's current object, and is left out.
pub open spec fn stored_instance(
    module: Option<Seq<char>>,
    named: Seq<char>,
    name: Seq<char>,
    instance: Json,
) -> std::result::Result<Option<Declared>, Seq<char>> {
    if !is_record(instance, 3) {
        Err("instances"@)
    } else {
        match (
            object_or_empty(instance, "attributes"@, 0),
            optional_text(instance, "deposed"@, 2),
        ) {
            (None, _) => Err("attributes"@),
            (_, None) => Err("deposed"@),
            (Some(attributes), Some(None)) => Ok(
                Some(
                    Declared {
                        id: address(module, named, name, member(instance, "index_key"@, 1)),
                        kind: kind_named(named),
                        attributes,
                    },
                ),
            ),
            (Some(_), Some(Some(_))) => Ok(None),
        }
    }
}

/// The current ones among the instances of a resource.
pub open spec fn stored_instances(
    module: Option<Seq<char>>,
    named: Seq<char>,
    name: Seq<char>,
    instances: Seq<Json>,
) -> Shown
    decreases instances.len(),
{
    if instances.len() == 0 {
        Ok(Seq::empty())
    } else {
        match stored_instances(module, named, name, instances.drop_last()) {
            Err(field) => Err(field),
            Ok(before) => match stored_instance(module, named, name, instances.last()) {
                Ok(Some(resource)) => Ok(before.push(resource)),
                Ok(None) => Ok(before),
                Err(field) => Err(field),
            },
        }
    }
}

/// The current instances of one resource; those of a data source are checked and left out.
pub open spec fn stored_resource(entry: Json) -> Shown {
    if !is_record(entry, 5) {
        Err("resources"@)
    } else {
        match (
            optional_text(entry, "module"@, 0),
            required_text(entry, "mode"@, 1),
            required_text(entry, "type"@, 2),
            required_text(entry, "name"@, 3),
            items_or_empty(entry, "instances"@, 4),
        ) {
            (None, _, _, _, _) => Err("module"@),
            (_, None, _, _, _) => Err("mode"@),
            (_, _, None, _, _) => Err("type"@),
            (_, _, _, None, _) => Err("name"@),
            (_, _, _, _, None) => Err("instances"@),
            (
                Some(module),
                Some(mode),
                Some(named),
                Some(name),
                Some(instances),
            ) => match stored_instances(module, named, name, instances) {
                Err(field) => Err(field),
                Ok(resources) => Ok(
                    if mode == "managed"@ {
                        resources
                    } else {
                        Seq::empty()
                    },
                ),
            },
        }
    }
}

/// The current instances of some resources, one after the other.
pub open spec fn stored_resources(entries: Seq<Json>) -> Shown
    decreases entries.len(),
{
    if entries.len() == 0 {
        Ok(Seq::empty())
    } else {
        match stored_resources(entries.drop_last()) {
            Err(field) => Err(field),
            Ok(before) => match stored_resource(entries.last()) {
                Ok(more) => Ok(before + more),
                Err(field) => Err(field),
            },
        }
    }
}

/// What the known fields of a raw `.tfstate` document come to.
pub open spec fn parsed_document(document: Json) -> Parsed {
    if !is_record(document, 2) {
        Err(StateFailure::Field("version"@))
    } else {
        match (
            match member(document, "version"@, 0) {
                Some(version) => version.unsigned(),
                None => None,
            },
            match items_or_empty(document, "resources"@, 1) {
                Some(entries) => stored_resources(entries),
                None => Err("resources"@),
            },
        ) {
            (None, _) => Err(StateFailure::Field("version"@)),
            (_, Err(field)) => Err(StateFailure::Field(field)),
            (Some(version), Ok(resources)) => if version != SUPPORTED_VERSION {
                Err(StateFailure::StateVersion(version))
            } else {
                Ok(resources)
            },
        }
    }
}

/// The document has the supported schema version.
pub open spec fn is_version_four(document: Json) -> bool {
    member(document, "version"@, 0) matches Some(version) && version.unsigned() == Some(
        SUPPORTED_VERSION as int,
    )
}

/// What a text comes to.
pub open spec fn parsed(text: Seq<char>) -> Parsed {
    match known(text) {
        Ok(document) => parsed_document(document),
        Err(failure) => Err(failure),
    }
}

/// Rebuild the Terraform address that `show -json` would have emitted.
///
/// The `module` field already arrives fully qualified (`module.network`, and nested as
/// `module.network.module.private`), so it prefixes directly. An `index_key` is an integer under
/// `count` and a string under `for_each`; Terraform renders them as `[0]` and `["blue"]`
/// respectively.
pub fn address_of(module: Option<&str>, named: &str, name: &str, index_key: Option<&JsonValue>) -> (r:
    String)
    ensures
        r@ == address(maybe_text(module), named@, name@, maybe_json(index_key)),
{
    broadcast use value_view;
    let mut address = String::new();
    if let Some(module) = module {
        address.append(module);
        address.append(".");
    }
    address.append(named);
    address.append(".");
    address.append(name);
    match index_key {
        Some(JsonValue::Number(n)) => {
            address.append("[");
            address.append(n.text().as_str());
            address.append("]");
        },
        Some(JsonValue::String(s)) => {
            address.append("[\"");
            address.append(s.as_str());
            address.append("\"]");
        },
        _ => {},
    }
    proof {
        let suffix = match maybe_json(index_key) {
            Some(Json::Number(n)) => "["@ + numeral_text(n) + "]"@,
            Some(Json::Text(s)) => "[\""@ + s + "\"]"@,
            _ => Seq::empty(),
        };
        assert(address@ =~= (match module {
            Some(module) => module@ + "."@,
            None => Seq::empty(),
        }) + named@ + "."@ + name@ + suffix);
    }
    address
}

fn decode_instance(
    module: Option<&str>,
    named: &str,
    name: &str,
    instance: &JsonValue,
) -> (r: std::result::Result<Option<Resource>, String>)
    ensures
        match r {
            Ok(Some(resource)) => stored_instance(maybe_text(module), named@, name@, instance@)
                == Ok::<_, Seq<char>>(Some(resource@)),
            Ok(None) => stored_instance(maybe_text(module), named@, name@, instance@) == Ok::<
                _,
                Seq<char>,
            >(None::<Declared>),
            Err(field) => stored_instance(maybe_text(module), named@, name@, instance@) == Err::<
                Option<Declared>,
                _,
            >(field@),
        },
{
    if !holds_record(instance, 3) {
        return Err("instances".to_owned());
    }
    let attributes = match get_object_or_empty(instance, "attributes", 0) {
        Some(attributes) => attributes,
        None => return Err("attributes".to_owned()),
    };
    match get_optional_text(instance, "deposed", 2) {
        None => Err("deposed".to_owned()),
        Some(Some(_)) => Ok(None),
        Some(None) => Ok(
            Some(
                Resource {
                    id: ResourceId(
                        address_of(module, named, name, get_member(instance, "index_key", 1)),
                    ),
                    kind: ResourceKind::from_terraform_type(named),
                    attributes,
                },
            ),
        ),
    }
}

proof fn instances_stay_wrong(
    module: Option<Seq<char>>,
    named: Seq<char>,
    name: Seq<char>,
    instances: Seq<Json>,
    n: int,
)
    requires
        0 <= n <= instances.len(),
        stored_instances(module, named, name, instances.take(n)) is Err,
    ensures
        stored_instances(module, named, name, instances) == stored_instances(
            module,
            named,
            name,
            instances.take(n),
        ),
    decreases instances.len() - n,
{
    if n < instances.len() {
        assert(instances.take(n + 1).drop_last() =~= instances.take(n));
        instances_stay_wrong(module, named, name, instances, n + 1);
    } else {
        assert(instances.take(n) =~= instances);
    }
}

fn decode_instances(
    module: Option<&str>,
    named: &str,
    name: &str,
    instances: &Vec<JsonValue>,
) -> (r: std::result::Result<Vec<Resource>, String>)
    ensures
        shown(r) == stored_instances(maybe_text(module), named@, name@, jsons(instances@)),
{
    let mut resources: Vec<Resource> = Vec::new();
    let mut i: usize = 0;
    assert(declared_views(resources@) =~= Seq::empty());
    while i < instances.len()
        invariant
            i <= instances.len(),
            stored_instances(
                maybe_text(module),
                named@,
                name@,
                jsons(instances@).take(i as int),
            ) == Ok::<_, Seq<char>>(declared_views(resources@)),
        decreases instances.len() - i,
    {
        let ghost prefix = jsons(instances@).take(i + 1);
        assert(prefix.drop_last() =~= jsons(instances@).take(i as int));
        assert(prefix.last() == instances[i as int]@);
        match decode_instance(module, named, name, &instances[i]) {
            Ok(Some(resource)) => {
                let ghost before = resources@;
                resources.push(resource);
                assert(declared_views(resources@) =~= declared_views(before).push(resource@));
            },
            Ok(None) => {},
            Err(field) => {
                proof {
                    instances_stay_wrong(
                        maybe_text(module),
                        named@,
                        name@,
                        jsons(instances@),
                        i + 1,
                    );
                }
                return Err(field);
            },
        }
        i += 1;
    }
    assert(jsons(instances@).take(i as int) =~= jsons(instances@));
    Ok(resources)
}

fn decode_resource(entry: &JsonValue) -> (r: std::result::Result<Vec<Resource>, String>)
    ensures
        shown(r) == stored_resource(entry@),
{
    broadcast use value_view;
    assert(declared_views(Seq::<Resource>::empty()) =~= Seq::empty());
    if !holds_record(entry, 5) {
        return Err("resources".to_owned());
    }
    let module = match get_optional_text(entry, "module", 0) {
        Some(module) => module,
        None => return Err("module".to_owned()),
    };
    let mode = match get_required_text(entry, "mode", 1) {
        Some(mode) => mode,
        None => return Err("mode".to_owned()),
    };
    let named = match get_required_text(entry, "type", 2) {
        Some(named) => named,
        None => return Err("type".to_owned()),
    };
    let name = match get_required_text(entry, "name", 3) {
        Some(name) => name,
        None => return Err("name".to_owned()),
    };
    let resources = match get_member(entry, "instances", 4) {
        Some(JsonValue::Array(instances)) => match decode_instances(
            module,
            named,
            name,
            instances,
        ) {
            Ok(resources) => resources,
            Err(field) => return Err(field),
        },
        None => Vec::new(),
        Some(_) => return Err("instances".to_owned()),
    };
    if same(mode, "managed") {
        Ok(resources)
    } else {
        Ok(Vec::new())
    }
}

proof fn resources_stay_wrong(entries: Seq<Json>, n: int)
    requires
        0 <= n <= entries.len(),
        stored_resources(entries.take(n)) is Err,
    ensures
        stored_resources(entries) == stored_resources(entries.take(n)),
    decreases entries.len() - n,
{
    if n < entries.len() {
        assert(entries.take(n + 1).drop_last() =~= entries.take(n));
        resources_stay_wrong(entries, n + 1);
    } else {
        assert(entries.take(n) =~= entries);
    }
}

fn decode_resources(entries: &Vec<JsonValue>) -> (r: std::result::Result<Vec<Resource>, String>)
    ensures
        shown(r) == stored_resources(jsons(entries@)),
{
    let mut resources: Vec<Resource> = Vec::new();
    let mut i: usize = 0;
    assert(declared_views(resources@) =~= Seq::empty());
    while i < entries.len()
        invariant
            i <= entries.len(),
            stored_resources(jsons(entries@).take(i as int)) == Ok::<_, Seq<char>>(
                declared_views(resources@),
            ),
        decreases entries.len() - i,
    {
        let ghost prefix = jsons(entries@).take(i + 1);
        assert(prefix.drop_last() =~= jsons(entries@).take(i as int));
        assert(prefix.last() == entries[i as int]@);
        match decode_resource(&entries[i]) {
            Ok(more) => {
                let mut more = more;
                let ghost before = resources@;
                let ghost added = more@;
                resources.append(&mut more);
                assert(declared_views(resources@) =~= declared_views(before) + declared_views(
                    added,
                ));
            },
            Err(field) => {
                proof {
                    resources_stay_wrong(jsons(entries@), i + 1);
                }
                return Err(field);
            },
        }
        i += 1;
    }
    assert(jsons(entries@).take(i as int) =~= jsons(entries@));
    Ok(resources)
}

/// Parse the known fields of a raw `.tfstate` document into the crate's resource model.
pub fn parse_document(document: &JsonValue) -> (r: Result<Vec<Resource>>)
    ensures
        outcome(r) == parsed_document(document@),
{
    broadcast use value_view;
    assert(declared_views(Seq::<Resource>::empty()) =~= Seq::empty());
    let unversioned = Err(UnciaError::StateJson(StateJsonError::Field("version".to_owned())));
    if !holds_record(document, 2) {
        return unversioned;
    }
    let version: u64 = match get_member(document, "version", 0) {
        Some(version) => match version.as_u64() {
            Some(version) => version,
            None => return unversioned,
        },
        None => return unversioned,
    };
    let decoded = match get_member(document, "resources", 1) {
        Some(JsonValue::Array(entries)) => decode_resources(entries),
        None => Ok(Vec::new()),
        Some(_) => Err("resources".to_owned()),
    };
    match decoded {
        Err(field) => Err(UnciaError::StateJson(StateJsonError::Field(field))),
        Ok(resources) => if version != SUPPORTED_VERSION {
            Err(UnciaError::UnsupportedStateVersion { found: version })
        } else {
            Ok(resources)
        },
    }
}

/// Parse a raw `.tfstate` document into the crate's resource model.
///
/// Returns only `mode == "managed"` resources; data sources are declared lookups, not managed
/// infrastructure, and cannot drift in uncia's sense. Fields that the schema does not know (lineage,
/// serial, outputs, ...) are skipped; one that it knows must not come twice in its record.
pub fn parse(json: &str) -> (r: Result<Vec<Resource>>)
    ensures
        outcome(r) == parsed(json@),
{
    match read_known(json) {
        Ok(document) => parse_document(&document),
        Err(error) => Err(error),
    }
}

/// `resource` is what `instance` of `entry` declares: a current object of a managed resource, under
/// the address that `show -json` would have given it.
pub open spec fn is_current_instance(resource: Declared, entry: Json, instance: Json) -> bool {
    &&& required_text(entry, "mode"@, 1) == Some("managed"@)
    &&& items_or_empty(entry, "instances"@, 4) matches Some(instances) && instances.contains(
        instance,
    )
    &&& optional_text(instance, "deposed"@, 2) == Some(None::<Seq<char>>)
    &&& optional_text(entry, "module"@, 0) matches Some(module) && (required_text(
        entry,
        "type"@,
        2,
    ) matches Some(named) && (required_text(entry, "name"@, 3) matches Some(name) && resource.id
        == address(module, named, name, member(instance, "index_key"@, 1)) && resource.kind
        == kind_named(named)))
    &&& object_or_empty(instance, "attributes"@, 0) == Some(resource.attributes)
}

/// `resource` is a current object of one of some resources.
pub open spec fn stores(entries: Seq<Json>, resource: Declared) -> bool {
    exists|i: int, instance: Json|
        0 <= i < entries.len() && #[trigger] is_current_instance(resource, entries[i], instance)
}

/// How many of some instances of `entry` are what `resource` is read from.
pub open spec fn times_among(entry: Json, instances: Seq<Json>, resource: Declared) -> nat
    decreases instances.len(),
{
    if instances.len() == 0 {
        0
    } else {
        times_among(entry, instances.drop_last(), resource) + if is_current_instance(
            resource,
            entry,
            instances.last(),
        ) {
            1nat
        } else {
            0nat
        }
    }
}

/// How often some resources have `resource` as a current object.
pub open spec fn times_stored(entries: Seq<Json>, resource: Declared) -> nat
    decreases entries.len(),
{
    if entries.len() == 0 {
        0
    } else {
        times_stored(entries.drop_last(), resource) + match items_or_empty(
            entries.last(),
            "instances"@,
            4,
        ) {
            Some(instances) => times_among(entries.last(), instances, resource),
            None => 0,
        }
    }
}

proof fn instances_counted(entry: Json, instances: Seq<Json>, resource: Declared)
    requires
        stored_resource(entry) is Ok,
        required_text(entry, "mode"@, 1) == Some("managed"@),
        stored_instances(
            optional_text(entry, "module"@, 0)->0,
            required_text(entry, "type"@, 2)->0,
            required_text(entry, "name"@, 3)->0,
            instances,
        ) is Ok,
        forall|n: int|
            0 <= n < instances.len() ==> items_or_empty(entry, "instances"@, 4)->0.contains(
                #[trigger] instances[n],
            ),
    ensures
        stored_instances(
            optional_text(entry, "module"@, 0)->0,
            required_text(entry, "type"@, 2)->0,
            required_text(entry, "name"@, 3)->0,
            instances,
        )->Ok_0.to_multiset().count(resource) == times_among(entry, instances, resource),
    decreases instances.len(),
{
    broadcast use vstd::seq_lib::group_to_multiset_ensures;

    let module = optional_text(entry, "module"@, 0)->0;
    let named = required_text(entry, "type"@, 2)->0;
    let name = required_text(entry, "name"@, 3)->0;
    if instances.len() > 0 {
        let rest = instances.drop_last();
        assert forall|n: int| 0 <= n < rest.len() implies items_or_empty(
            entry,
            "instances"@,
            4,
        )->0.contains(#[trigger] rest[n]) by {
            assert(rest[n] == instances[n]);
        }
        instances_counted(entry, rest, resource);
        let last = instances.last();
        assert(instances[instances.len() - 1] == last);
        assert(stored_instance(module, named, name, last) == Ok::<_, Seq<char>>(Some(resource))
            <==> is_current_instance(resource, entry, last));
    }
}

proof fn none_counted(entry: Json, instances: Seq<Json>, resource: Declared)
    requires
        required_text(entry, "mode"@, 1) != Some("managed"@),
    ensures
        times_among(entry, instances, resource) == 0,
    decreases instances.len(),
{
    if instances.len() > 0 {
        none_counted(entry, instances.drop_last(), resource);
    }
}

/// A resource is read as often as it is a current object of a managed resource.
pub proof fn current_as_often(entries: Seq<Json>, resource: Declared)
    requires
        stored_resources(entries) is Ok,
    ensures
        stored_resources(entries)->Ok_0.to_multiset().count(resource) == times_stored(
            entries,
            resource,
        ),
    decreases entries.len(),
{
    broadcast use vstd::seq_lib::group_to_multiset_ensures;

    if entries.len() > 0 {
        let rest = entries.drop_last();
        let last = entries.last();
        current_as_often(rest, resource);
        let before = stored_resources(rest)->Ok_0;
        let more = stored_resource(last)->Ok_0;
        vstd::seq_lib::lemma_multiset_commutative(before, more);
        let instances = items_or_empty(last, "instances"@, 4)->0;
        if required_text(last, "mode"@, 1) == Some("managed"@) {
            assert forall|n: int| 0 <= n < instances.len() implies instances.contains(
                #[trigger] instances[n],
            ) by {}
            instances_counted(last, instances, resource);
        } else {
            none_counted(last, instances, resource);
        }
    }
}

/// Every current object of a managed resource is read, and nothing else is.
pub proof fn current_exactly(entries: Seq<Json>, resource: Declared)
    requires
        stored_resources(entries) is Ok,
    ensures
        stored_resources(entries)->Ok_0.contains(resource) <==> stores(entries, resource),
    decreases entries.len(),
{
    broadcast use vstd::seq_lib::group_seq_properties;

    if entries.len() > 0 {
        let rest = entries.drop_last();
        let last = entries.last();
        current_exactly(rest, resource);
        let read = stored_resources(entries)->Ok_0;
        let before = stored_resources(rest)->Ok_0;
        let more = stored_resource(last)->Ok_0;
        assert(read == before + more);
        let module = optional_text(last, "module"@, 0)->0;
        let named = required_text(last, "type"@, 2)->0;
        let name = required_text(last, "name"@, 3)->0;
        let instances = items_or_empty(last, "instances"@, 4)->0;
        instances_exactly(module, named, name, instances, resource);
        assert forall|i: int, instance: Json|
            0 <= i < entries.len() && #[trigger] is_current_instance(
                resource,
                entries[i],
                instance,
            ) implies read.contains(resource) by {
            if i < rest.len() {
                assert(is_current_instance(resource, rest[i], instance));
            } else {
                let n = instances.index_of(instance);
                assert(instances[n] == instance);
                assert(stored_instance(module, named, name, instances[n]) is Ok);
                assert(more.contains(resource));
            }
        }
        if before.contains(resource) {
            let (i, instance) = choose|i: int, instance: Json|
                0 <= i < rest.len() && #[trigger] is_current_instance(
                    resource,
                    rest[i],
                    instance,
                );
            assert(is_current_instance(resource, entries[i], instance));
        } else if more.contains(resource) {
            let n = choose|n: int|
                0 <= n < instances.len() && stored_instance(
                    module,
                    named,
                    name,
                    #[trigger] instances[n],
                ) == Ok::<_, Seq<char>>(Some(resource));
            assert(instances.contains(instances[n]));
            assert(is_current_instance(
                resource,
                entries[entries.len() - 1],
                instances[n],
            ));
        }
    }
}

proof fn instances_exactly(
    module: Option<Seq<char>>,
    named: Seq<char>,
    name: Seq<char>,
    instances: Seq<Json>,
    resource: Declared,
)
    requires
        stored_instances(module, named, name, instances) is Ok,
    ensures
        stored_instances(module, named, name, instances)->Ok_0.contains(resource) <==> exists|n: int|
            0 <= n < instances.len() && stored_instance(
                module,
                named,
                name,
                #[trigger] instances[n],
            ) == Ok::<_, Seq<char>>(Some(resource)),
        forall|n: int|
            0 <= n < instances.len() ==> stored_instance(
                module,
                named,
                name,
                #[trigger] instances[n],
            ) is Ok,
    decreases instances.len(),
{
    broadcast use vstd::seq_lib::group_seq_properties;

    if instances.len() > 0 {
        let rest = instances.drop_last();
        instances_exactly(module, named, name, rest, resource);
        let read = stored_instances(module, named, name, instances)->Ok_0;
        let before = stored_instances(module, named, name, rest)->Ok_0;
        assert forall|n: int| 0 <= n < instances.len() implies stored_instance(
            module,
            named,
            name,
            #[trigger] instances[n],
        ) is Ok by {
            if n < rest.len() {
                assert(rest[n] == instances[n]);
            }
        }
        assert forall|n: int| 0 <= n < instances.len() && stored_instance(
            module,
            named,
            name,
            #[trigger] instances[n],
        ) == Ok::<_, Seq<char>>(Some(resource)) implies read.contains(resource) by {
            if n < rest.len() {
                assert(rest[n] == instances[n]);
            }
        }
        if read.contains(resource) {
            if before.contains(resource) {
                let n = choose|n: int|
                    0 <= n < rest.len() && stored_instance(
                        module,
                        named,
                        name,
                        #[trigger] rest[n],
                    ) == Ok::<_, Seq<char>>(Some(resource));
                assert(instances[n] == rest[n]);
            } else {
                assert(instances[instances.len() - 1] == instances.last());
            }
        }
    }
}

} // verus!
