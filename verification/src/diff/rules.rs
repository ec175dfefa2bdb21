//! Canonicalization of security-group rules, in every shape they arrive in.
//!
//! Lives here rather than in either consumer because both the behavioral and the semantic pass
//! reduce rules to atoms, and they must agree on how. The normalizations are small but easy to get
//! subtly wrong twice: an all-traffic permission omits the ports on the wire and Terraform stores
//! them as `0`, and an absent protocol means "all", which Terraform stores as the literal `"-1"`.
//!
//! # Three shapes, one vocabulary
//!
//! A group's rules can be declared three ways, and the field names differ more than one would
//! guess:
//!
//! | | inline block | `aws_security_group_rule` | `aws_vpc_security_group_*_rule` |
//! |---|---|---|---|
//! | direction | which block | `type` | the resource type |
//! | protocol | `protocol` | `protocol` | `ip_protocol` |
//! | IPv4 | `cidr_blocks` (list) | `cidr_blocks` (list) | `cidr_ipv4` (single) |
//! | other group | `security_groups` (list) | `source_security_group_id` | `referenced_security_group_id` |
//! | self | `self` (bool) | `self` (bool) | *no field* |
//!
//! All three reduce to the **same atom vocabulary** here, so comparison stays in one place.
//!
//! The last column is the trap. The modern resources have no `self` field: a self-reference is
//! `referenced_security_group_id` pointing at the group's own id. The live side reports it as
//! `self: true`, so without folding these together every self-referencing rule declared the modern
//! way would read as drift.

use vstd::prelude::*;

use crate::json::{
    array_of, jsons, listed_texts, maybe_text, strings_of, text_array, value_view, Json, JsonValue,
    Numeral, Object,
};
use crate::set::TextSet;
use crate::text::{integer, integer_text, same, texts};
use crate::types::resource::{
    declared_views, text_at, text_of, Declared, Kind, Resource, ResourceKind,
};

verus! {

/// The 64-bit integer that a rule has under `key`, `0` when it has none: ports that are absent are
/// the ports of an all-traffic rule.
pub open spec fn number_at(rule: Json, key: Seq<char>) -> int {
    match rule.get(key) {
        Some(value) => match value.signed() {
            Some(n) => n,
            None => 0,
        },
        None => 0,
    }
}

/// The protocol that a rule has under `key`. Absent and `all` are `-1`, which is how the live side
/// reports all protocols.
pub open spec fn protocol_at(rule: Json, key: Seq<char>) -> Seq<char> {
    match rule.get(key) {
        Some(Json::Text(protocol)) => if protocol == "all"@ {
            "-1"@
        } else {
            protocol
        },
        _ => "-1"@,
    }
}

/// The part that every atom of a rule starts with: `{protocol}/{from}-{to}`.
pub open spec fn base(rule: Json) -> Seq<char> {
    protocol_at(rule, "protocol"@) + "/"@ + integer(number_at(rule, "from_port"@)) + "-"@ + integer(
        number_at(rule, "to_port"@),
    )
}

/// `value` is a list that has the text `text` among its items.
pub open spec fn has_text(value: Option<Json>, text: Seq<char>) -> bool {
    value matches Some(Json::Array(items)) && items.contains(Json::Text(text))
}

/// The atom of a rule and one source: `{base}/{tag}:{source}`.
pub open spec fn source_atom(rule: Json, tag: Seq<char>, source: Seq<char>) -> Seq<char> {
    base(rule) + "/"@ + tag + ":"@ + source
}

/// The atoms of a rule and the sources it lists under `key`.
pub open spec fn source_atoms(rule: Json, key: Seq<char>, tag: Seq<char>) -> Set<Seq<char>> {
    Set::new(
        |atom: Seq<char>|
            exists|source: Seq<char>| #[trigger]
                has_text(rule.get(key), source) && atom == source_atom(rule, tag, source),
    )
}

/// The rule applies to the members of the group itself.
pub open spec fn refers_to_self(rule: Json) -> bool {
    rule.get("self"@) == Some(Json::Bool(true))
}

/// The atoms of a rule: one for each source, of whichever sort.
pub open spec fn rule_atoms(rule: Json) -> Set<Seq<char>> {
    source_atoms(rule, "cidr_blocks"@, "cidr"@).union(
        source_atoms(rule, "ipv6_cidr_blocks"@, "cidr6"@),
    ).union(source_atoms(rule, "prefix_list_ids"@, "pl"@)).union(
        source_atoms(rule, "security_groups"@, "sg"@),
    ).union(
        if refers_to_self(rule) {
            set![base(rule) + "/self"@]
        } else {
            Set::empty()
        },
    )
}

/// The atoms of some rules.
pub open spec fn list_atoms(rules: Seq<Json>) -> Set<Seq<char>> {
    Set::new(
        |atom: Seq<char>|
            exists|i: int| 0 <= i < rules.len() && rule_atoms(#[trigger] rules[i]).contains(atom),
    )
}

/// The atoms of a rule list; a value that is not a list has none.
pub open spec fn atoms(rules: Json) -> Set<Seq<char>> {
    match rules {
        Json::Array(list) => list_atoms(list),
        _ => Set::empty(),
    }
}

pub(crate) fn get_number(rule: &JsonValue, key: &str) -> (r: i64)
    ensures
        r == number_at(rule@, key@),
{
    match rule.get(key) {
        Some(value) => match value.as_i64() {
            Some(n) => n,
            None => 0,
        },
        None => 0,
    }
}

/// The protocol a rule specifies, normalized the way the live side reports it.
///
/// Terraform accepts `protocol = "all"`; AWS always answers `"-1"`.
fn protocol_of(rule: &JsonValue, protocol_key: &str) -> (r: String)
    ensures
        r@ == protocol_at(rule@, protocol_key@),
{
    broadcast use value_view;
    match rule.get(protocol_key) {
        Some(JsonValue::String(protocol)) => if same(protocol.as_str(), "all") {
            "-1".to_owned()
        } else {
            protocol.clone()
        },
        _ => "-1".to_owned(),
    }
}

/// The canonical `"{protocol}/{from}-{to}"` prefix shared by every atom derived from one rule.
///
/// Absent ports normalize to `0` and an absent protocol to `"-1"`, matching how Terraform records an
/// all-traffic rule.
pub fn rule_base(rule: &JsonValue) -> (r: String)
    ensures
        r@ == base(rule@),
{
    let mut r = protocol_of(rule, "protocol");
    r.append("/");
    r.append(integer_text(get_number(rule, "from_port")).as_str());
    r.append("-");
    r.append(integer_text(get_number(rule, "to_port")).as_str());
    r
}

fn add_source_atoms(rule: &JsonValue, base: &str, key: &str, tag: &str, atoms: &mut TextSet)
    requires
        base@ == self::base(rule@),
    ensures
        final(atoms)@ == old(atoms)@.union(source_atoms(rule@, key@, tag@)),
{
    broadcast use value_view;
    let ghost all = source_atoms(rule@, key@, tag@);
    match rule.get(key) {
        Some(JsonValue::Array(sources)) => {
            let mut i: usize = 0;
            while i < sources.len()
                invariant
                    i <= sources.len(),
                    base@ == self::base(rule@),
                    rule@.get(key@) == Some(Json::Array(jsons(sources@))),
                    all == source_atoms(rule@, key@, tag@),
                    atoms@.subset_of(old(atoms)@.union(all)),
                    old(atoms)@.subset_of(atoms@),
                    forall|j: int, s: Seq<char>|
                        0 <= j < i && #[trigger] jsons(sources@)[j] == Json::Text(s)
                            ==> atoms@.contains(#[trigger] source_atom(rule@, tag@, s)),
                decreases sources.len() - i,
            {
                assert(jsons(sources@)[i as int] == sources[i as int]@);
                match sources[i].as_str() {
                    Some(source) => {
                        let mut atom = base.to_owned();
                        atom.append("/");
                        atom.append(tag);
                        atom.append(":");
                        atom.append(source);
                        assert(atom@ == source_atom(rule@, tag@, source@));
                        assert(has_text(rule@.get(key@), source@));
                        atoms.insert(atom);
                    },
                    None => {},
                }
                i += 1;
            }
            assert forall|atom: Seq<char>| all.contains(atom) implies atoms@.contains(atom) by {
                let s = choose|s: Seq<char>| #[trigger]
                    has_text(rule@.get(key@), s) && atom == source_atom(rule@, tag@, s);
                let j = choose|j: int|
                    0 <= j < jsons(sources@).len() && jsons(sources@)[j] == Json::Text(s);
                assert(jsons(sources@)[j] == Json::Text(s));
            }
        },
        _ => {},
    }
    assert(atoms@ =~= old(atoms)@.union(all));
}

fn add_rule_atoms(rule: &JsonValue, atoms: &mut TextSet)
    ensures
        final(atoms)@ == old(atoms)@.union(rule_atoms(rule@)),
{
    broadcast use value_view;
    let base = rule_base(rule);
    add_source_atoms(rule, base.as_str(), "cidr_blocks", "cidr", atoms);
    add_source_atoms(rule, base.as_str(), "ipv6_cidr_blocks", "cidr6", atoms);
    add_source_atoms(rule, base.as_str(), "prefix_list_ids", "pl", atoms);
    add_source_atoms(rule, base.as_str(), "security_groups", "sg", atoms);
    match rule.get("self") {
        Some(JsonValue::Bool(true)) => {
            let mut atom = base;
            atom.append("/self");
            atoms.insert(atom);
        },
        _ => {},
    }
    assert(atoms@ =~= old(atoms)@.union(rule_atoms(rule@)));
}

/// The atoms of some rules.
pub fn explode_list(rules: &Vec<JsonValue>) -> (r: TextSet)
    ensures
        r@ == list_atoms(jsons(rules@)),
{
    let mut atoms = TextSet::new();
    let mut i: usize = 0;
    while i < rules.len()
        invariant
            i <= rules.len(),
            atoms@ =~= list_atoms(jsons(rules@).take(i as int)),
        decreases rules.len() - i,
    {
        add_rule_atoms(&rules[i], &mut atoms);
        proof {
            let list = jsons(rules@);
            assert(list[i as int] == rules[i as int]@);
            assert(list.take(i + 1) =~= list.take(i as int).push(list[i as int]));
            atoms_of_push(list.take(i as int), list[i as int]);
        }
        i += 1;
    }
    assert(jsons(rules@).take(i as int) =~= jsons(rules@));
    atoms
}

/// Explode a rule list into a canonical set of atoms, one per (port-range, protocol, source).
/// Insensitive to rule order *and* to how sources are grouped into rules: AWS and Terraform group
/// differently, and neither grouping is meaningful.
///
/// Rule descriptions are deliberately not part of the atom.
pub fn explode_rules(rules: &JsonValue) -> (r: TextSet)
    ensures
        r@ == atoms(rules@),
{
    broadcast use value_view;
    match rules {
        JsonValue::Array(list) => explode_list(list),
        _ => TextSet::new(),
    }
}

/// The list of a group's that a rule declared as its own resource contributes to. The legacy
/// resource carries the direction in a field rather than in its type.
pub open spec fn direction(kind: Kind, attributes: Map<Seq<char>, Json>) -> Option<Seq<char>> {
    match kind {
        Kind::AwsVpcSecurityGroupIngressRule => Some("ingress"@),
        Kind::AwsVpcSecurityGroupEgressRule => Some("egress"@),
        Kind::AwsSecurityGroupRule => match text_at(attributes, "type"@) {
            Some(named) => if named == "ingress"@ || named == "egress"@ {
                Some(named)
            } else {
                None
            },
            None => None,
        },
        _ => None,
    }
}

/// The texts that a rule resource names for one sort of source: a list of them under `plural` in
/// the legacy form, at most one under `singular` in the modern form.
pub open spec fn named_sources(
    kind: Kind,
    attributes: Map<Seq<char>, Json>,
    plural: Seq<char>,
    singular: Seq<char>,
) -> Seq<Seq<char>> {
    if kind == Kind::AwsSecurityGroupRule {
        listed_texts(Json::Object(attributes).get(plural))
    } else {
        match text_at(attributes, singular) {
            Some(source) => seq![source],
            None => Seq::empty(),
        }
    }
}

/// The other group that a rule resource names as its source.
pub open spec fn referenced_group(kind: Kind, attributes: Map<Seq<char>, Json>) -> Option<
    Seq<char>,
> {
    text_at(
        attributes,
        if kind == Kind::AwsSecurityGroupRule {
            "source_security_group_id"@
        } else {
            "referenced_security_group_id"@
        },
    )
}

/// A rule resource of the group `own` in the shape of an inline block. A reference to the group
/// itself is the `self` flag, which is how the live side reports it.
pub open spec fn inline_block(
    kind: Kind,
    attributes: Map<Seq<char>, Json>,
    own: Seq<char>,
) -> Map<Seq<char>, Json> {
    let rule = Json::Object(attributes);
    let referenced = referenced_group(kind, attributes);
    let protocol_key = if kind == Kind::AwsSecurityGroupRule {
        "protocol"@
    } else {
        "ip_protocol"@
    };
    map![
        "from_port"@ => Json::Number(Numeral::Int(number_at(rule, "from_port"@))),
        "to_port"@ => Json::Number(Numeral::Int(number_at(rule, "to_port"@))),
        "protocol"@ => Json::Text(protocol_at(rule, protocol_key)),
        "cidr_blocks"@ => text_array(named_sources(kind, attributes, "cidr_blocks"@, "cidr_ipv4"@)),
        "ipv6_cidr_blocks"@ => text_array(
            named_sources(kind, attributes, "ipv6_cidr_blocks"@, "cidr_ipv6"@),
        ),
        "prefix_list_ids"@ => text_array(
            named_sources(kind, attributes, "prefix_list_ids"@, "prefix_list_id"@),
        ),
        "security_groups"@ => text_array(
            match referenced {
                Some(group) => if group == own {
                    Seq::empty()
                } else {
                    seq![group]
                },
                None => Seq::empty(),
            },
        ),
        "self"@ => Json::Bool(refers_to_self(rule) || referenced == Some(own)),
    ]
}

/// A rule resource of the group `own`: the list it contributes to, and what it contributes.
pub open spec fn sibling_block(
    kind: Kind,
    attributes: Map<Seq<char>, Json>,
    own: Seq<char>,
) -> Option<(Seq<char>, Json)> {
    match direction(kind, attributes) {
        Some(list) => Some((list, Json::Object(inline_block(kind, attributes, own)))),
        None => None,
    }
}

/// Which of a group's rule lists a separately-declared rule contributes to.
fn direction_of(kind: &ResourceKind, attributes: &Object) -> (r: Option<&'static str>)
    ensures
        maybe_text(r) == direction(kind@, attributes@),
{
    match kind {
        ResourceKind::AwsVpcSecurityGroupIngressRule => Some("ingress"),
        ResourceKind::AwsVpcSecurityGroupEgressRule => Some("egress"),
        ResourceKind::AwsSecurityGroupRule => match text_of(attributes, "type") {
            Some(named) => if same(named, "ingress") {
                Some("ingress")
            } else if same(named, "egress") {
                Some("egress")
            } else {
                None
            },
            None => None,
        },
        _ => None,
    }
}

fn sources_of(legacy: bool, attributes: &Object, plural: &str, singular: &str) -> (r: JsonValue)
    ensures
        forall|kind: Kind|
            (kind == Kind::AwsSecurityGroupRule) == legacy ==> r@ == text_array(
                #[trigger] named_sources(kind, attributes@, plural@, singular@),
            ),
{
    let mut list: Vec<String> = Vec::new();
    if legacy {
        list = strings_of(attributes.get(plural));
    } else {
        if let Some(source) = text_of(attributes, singular) {
            list.push(source.to_owned());
        }
    }
    proof {
        if !legacy {
            assert(texts(list@) =~= match text_at(attributes@, singular@) {
                Some(source) => seq![source],
                None => Seq::empty(),
            });
        }
    }
    array_of(&list)
}

/// Rewrite one separately-declared rule into the shape an inline `ingress`/`egress` block has, along
/// with the list it belongs to.
///
/// Normalizing to the *inline shape* rather than straight to atoms is what keeps this to one code
/// path: atoms then come from [`explode_rules`] exactly as they do for a real inline block, and the
/// semantic pass, which reasons over rule objects, can consume the same output.
pub fn sibling_rule_block(kind: &ResourceKind, attributes: &Object, own_group_id: &str) -> (r: Option<
    (&'static str, JsonValue),
>)
    ensures
        match r {
            Some((list, block)) => sibling_block(kind@, attributes@, own_group_id@) == Some(
                (list@, block@),
            ),
            None => sibling_block(kind@, attributes@, own_group_id@) is None,
        },
{
    broadcast use value_view;
    let direction = match direction_of(kind, attributes) {
        Some(direction) => direction,
        None => return None,
    };
    let legacy = match kind {
        ResourceKind::AwsSecurityGroupRule => true,
        _ => false,
    };
    let rule = JsonValue::Object(attributes.clone());
    let referenced = text_of(
        attributes,
        if legacy {
            "source_security_group_id"
        } else {
            "referenced_security_group_id"
        },
    );
    let own = match referenced {
        Some(group) => same(group, own_group_id),
        None => false,
    };
    let mut security_groups: Vec<String> = Vec::new();
    if let Some(group) = referenced {
        if !own {
            security_groups.push(group.to_owned());
        }
    }
    let flagged = match rule.get("self") {
        Some(JsonValue::Bool(true)) => true,
        _ => false,
    };
    let protocol = protocol_of(
        &rule,
        if legacy {
            "protocol"
        } else {
            "ip_protocol"
        },
    );
    let block = Object::new().with(
        "from_port",
        JsonValue::from_i64(get_number(&rule, "from_port")),
    ).with("to_port", JsonValue::from_i64(get_number(&rule, "to_port"))).with(
        "protocol",
        JsonValue::String(protocol),
    ).with("cidr_blocks", sources_of(legacy, attributes, "cidr_blocks", "cidr_ipv4")).with(
        "ipv6_cidr_blocks",
        sources_of(legacy, attributes, "ipv6_cidr_blocks", "cidr_ipv6"),
    ).with(
        "prefix_list_ids",
        sources_of(legacy, attributes, "prefix_list_ids", "prefix_list_id"),
    ).with("security_groups", array_of(&security_groups)).with(
        "self",
        JsonValue::Bool(flagged || own),
    );
    proof {
        assert(texts(security_groups@) =~= match referenced_group(kind@, attributes@) {
            Some(group) => if group == own_group_id@ {
                Seq::empty()
            } else {
                seq![group]
            },
            None => Seq::empty(),
        });
        assert(block@ =~= inline_block(kind@, attributes@, own_group_id@));
    }
    Some((direction, JsonValue::Object(block)))
}

/// Atoms contributed by one separately-declared rule resource.
pub fn sibling_rule_atoms(kind: &ResourceKind, attributes: &Object, own_group_id: &str) -> (r:
    TextSet)
    ensures
        r@ == (match sibling_block(kind@, attributes@, own_group_id@) {
            Some((_, block)) => rule_atoms(block),
            None => Set::empty(),
        }),
{
    match sibling_rule_block(kind, attributes, own_group_id) {
        Some((_, block)) => {
            let mut atoms = TextSet::new();
            add_rule_atoms(&block, &mut atoms);
            assert(atoms@ =~= rule_atoms(block@));
            atoms
        },
        None => TextSet::new(),
    }
}

/// A rule declared as its own resource, as what it contributes and where.
pub struct Sibling {
    pub group: Seq<char>,
    pub direction: Seq<char>,
    pub block: Json,
}

/// The rules declared as their own resources, in the order of their declaration.
///
/// A rule contributes whether or not it has a cloud id: unlike a comparison subject it is read as
/// declared *intent*, and intent counts before it has been applied.
pub open spec fn siblings(declared: Seq<Declared>) -> Seq<Sibling>
    decreases declared.len(),
{
    if declared.len() == 0 {
        Seq::empty()
    } else {
        let before = siblings(declared.drop_last());
        let last = declared.last();
        match text_at(last.attributes, "security_group_id"@) {
            Some(group) => match sibling_block(last.kind, last.attributes, group) {
                Some((direction, block)) => before.push(Sibling { group, direction, block }),
                None => before,
            },
            None => before,
        }
    }
}

/// The list that `direction` stands for: `egress`, or else `ingress`.
pub open spec fn normal_direction(direction: Seq<char>) -> Seq<char> {
    if direction == "egress"@ {
        "egress"@
    } else {
        "ingress"@
    }
}

/// What the rules among `rules` contribute to one list of one group, in their order.
pub open spec fn contributions(
    rules: Seq<Sibling>,
    group: Seq<char>,
    direction: Seq<char>,
) -> Seq<Json>
    decreases rules.len(),
{
    if rules.len() == 0 {
        Seq::empty()
    } else {
        let before = contributions(rules.drop_last(), group, direction);
        let last = rules.last();
        if last.group == group && last.direction == normal_direction(direction) {
            before.push(last.block)
        } else {
            before
        }
    }
}

/// Rules declared as separate resources, indexed by the group they target.
///
/// Only the *declared* side needs this. AWS reports a group's rules on the group whatever Terraform
/// did, so the live side is already complete.
#[derive(Debug)]
pub struct SiblingRules {
    rules: Vec<(String, &'static str, JsonValue)>,
}

impl View for SiblingRules {
    type V = Seq<Sibling>;

    closed spec fn view(&self) -> Seq<Sibling> {
        self.rules@.map_values(
            |rule: (String, &'static str, JsonValue)|
                Sibling { group: rule.0@, direction: rule.1@, block: rule.2@ },
        )
    }
}

impl Default for SiblingRules {
    fn default() -> (r: Self)
        ensures
            r@ == Seq::<Sibling>::empty(),
    {
        let empty = SiblingRules { rules: Vec::new() };
        assert(empty@ =~= Seq::empty());
        empty
    }
}

fn normalize_direction(direction: &str) -> (r: &'static str)
    ensures
        r@ == normal_direction(direction@),
{
    if same(direction, "egress") {
        "egress"
    } else {
        "ingress"
    }
}

impl SiblingRules {
    /// Index every separately-declared rule in a set of declared resources.
    pub fn index(declared: &[Resource]) -> (r: Self)
        ensures
            r@ == siblings(declared_views(declared@)),
    {
        let mut found = SiblingRules::default();
        let mut i: usize = 0;
        assert(found@ =~= Seq::empty());
        while i < declared.len()
            invariant
                i <= declared.len(),
                found@ == siblings(declared_views(declared@).take(i as int)),
            decreases declared.len() - i,
        {
            let resource = &declared[i];
            let ghost prefix = declared_views(declared@).take(i + 1);
            let ghost before = found@;
            assert(prefix.drop_last() =~= declared_views(declared@).take(i as int));
            assert(prefix.last() == resource@);
            if let Some(group) = text_of(&resource.attributes, "security_group_id") {
                if let Some((direction, block)) = sibling_rule_block(
                    &resource.kind,
                    &resource.attributes,
                    group,
                ) {
                    found.rules.push((group.to_owned(), direction, block));
                    assert(found@ =~= before.push(
                        Sibling { group: group@, direction: direction@, block: block@ },
                    ));
                }
            }
            i += 1;
        }
        assert(declared_views(declared@).take(i as int) =~= declared_views(declared@));
        found
    }

    /// Sibling rules as inline-shaped blocks, for callers that reason over rule objects rather than
    /// atoms (the semantic pass).
    pub fn blocks(&self, group_cloud_id: &str, direction: &str) -> (r: Vec<JsonValue>)
        ensures
            jsons(r@) == contributions(self@, group_cloud_id@, direction@),
    {
        let list = normalize_direction(direction);
        let mut blocks: Vec<JsonValue> = Vec::new();
        let mut i: usize = 0;
        assert(jsons(blocks@) =~= Seq::empty());
        while i < self.rules.len()
            invariant
                i <= self.rules.len(),
                list@ == normal_direction(direction@),
                jsons(blocks@) == contributions(
                    self@.take(i as int),
                    group_cloud_id@,
                    direction@,
                ),
            decreases self.rules.len() - i,
        {
            let rule = &self.rules[i];
            let ghost prefix = self@.take(i + 1);
            let ghost before = blocks@;
            assert(prefix.drop_last() =~= self@.take(i as int));
            assert(prefix.last() == Sibling {
                group: rule.0@,
                direction: rule.1@,
                block: rule.2@,
            });
            if same(rule.0.as_str(), group_cloud_id) && same(rule.1, list) {
                blocks.push(rule.2.clone());
                assert(jsons(blocks@) =~= jsons(before).push(rule.2@));
            }
            i += 1;
        }
        assert(self@.take(i as int) =~= self@);
        blocks
    }

    /// Atoms contributed to one group's `ingress` or `egress` by sibling rules.
    pub fn atoms(&self, group_cloud_id: &str, direction: &str) -> (r: TextSet)
        ensures
            r@ == list_atoms(contributions(self@, group_cloud_id@, direction@)),
    {
        explode_list(&self.blocks(group_cloud_id, direction))
    }
}

proof fn atoms_of_push(rules: Seq<Json>, rule: Json)
    ensures
        list_atoms(rules.push(rule)) == list_atoms(rules).union(rule_atoms(rule)),
{
    let all = rules.push(rule);
    assert forall|atom: Seq<char>| list_atoms(all).contains(atom) implies list_atoms(rules).union(
        rule_atoms(rule),
    ).contains(atom) by {
        let i = choose|i: int| 0 <= i < all.len() && rule_atoms(#[trigger] all[i]).contains(atom);
        if i < rules.len() {
            assert(rules[i] == all[i]);
        }
    }
    assert forall|atom: Seq<char>| list_atoms(rules).union(rule_atoms(rule)).contains(
        atom,
    ) implies list_atoms(all).contains(atom) by {
        if rule_atoms(rule).contains(atom) {
            assert(rule_atoms(all[rules.len() as int]).contains(atom));
        } else {
            let i = choose|i: int|
                0 <= i < rules.len() && rule_atoms(#[trigger] rules[i]).contains(atom);
            assert(rule_atoms(all[i]).contains(atom));
        }
    }
    assert(list_atoms(all) =~= list_atoms(rules).union(rule_atoms(rule)));
}

/// The order of the rules, and how often one is repeated, do not matter.
pub proof fn order_does_not_matter(a: Seq<Json>, b: Seq<Json>)
    requires
        a.to_set() == b.to_set(),
    ensures
        list_atoms(a) == list_atoms(b),
{
    assert forall|atom: Seq<char>| list_atoms(a).contains(atom) implies list_atoms(b).contains(
        atom,
    ) by {
        let i = choose|i: int| 0 <= i < a.len() && rule_atoms(#[trigger] a[i]).contains(atom);
        assert(a.to_set().contains(a[i]));
        assert(b.contains(a[i]));
        let j = choose|j: int| 0 <= j < b.len() && b[j] == a[i];
        assert(rule_atoms(b[j]).contains(atom));
    }
    assert forall|atom: Seq<char>| list_atoms(b).contains(atom) implies list_atoms(a).contains(
        atom,
    ) by {
        let i = choose|i: int| 0 <= i < b.len() && rule_atoms(#[trigger] b[i]).contains(atom);
        assert(b.to_set().contains(b[i]));
        assert(a.contains(b[i]));
        let j = choose|j: int| 0 <= j < a.len() && a[j] == b[i];
        assert(rule_atoms(a[j]).contains(atom));
    }
    assert(list_atoms(a) =~= list_atoms(b));
}

/// The atoms of two lists are those of the lists joined.
pub proof fn atoms_of_joined_lists(a: Seq<Json>, b: Seq<Json>)
    ensures
        list_atoms(a + b) == list_atoms(a).union(list_atoms(b)),
{
    let all = a + b;
    assert forall|atom: Seq<char>| list_atoms(all).contains(atom) implies list_atoms(a).union(
        list_atoms(b),
    ).contains(atom) by {
        let i = choose|i: int| 0 <= i < all.len() && rule_atoms(#[trigger] all[i]).contains(atom);
        if i < a.len() {
            assert(rule_atoms(a[i]).contains(atom));
        } else {
            assert(rule_atoms(b[i - a.len()]).contains(atom));
        }
    }
    assert forall|atom: Seq<char>| list_atoms(a).union(list_atoms(b)).contains(
        atom,
    ) implies list_atoms(all).contains(atom) by {
        if list_atoms(a).contains(atom) {
            let i = choose|i: int| 0 <= i < a.len() && rule_atoms(#[trigger] a[i]).contains(atom);
            assert(rule_atoms(all[i]).contains(atom));
        } else {
            let i = choose|i: int| 0 <= i < b.len() && rule_atoms(#[trigger] b[i]).contains(atom);
            assert(rule_atoms(all[a.len() + i]).contains(atom));
        }
    }
    assert(list_atoms(all) =~= list_atoms(a).union(list_atoms(b)));
}

/// The sources that `whole` lists under `key` are those that one of `parts` lists there.
pub open spec fn splits(whole: Json, parts: Seq<Json>, key: Seq<char>) -> bool {
    forall|source: Seq<char>| #[trigger]
        has_text(whole.get(key), source) <==> exists|i: int|
            0 <= i < parts.len() && has_text((#[trigger] parts[i]).get(key), source)
}

proof fn split_sources(whole: Json, parts: Seq<Json>, key: Seq<char>, tag: Seq<char>)
    requires
        forall|i: int| 0 <= i < parts.len() ==> base(#[trigger] parts[i]) == base(whole),
        splits(whole, parts, key),
    ensures
        forall|atom: Seq<char>| #[trigger]
            source_atoms(whole, key, tag).contains(atom) <==> exists|i: int|
                0 <= i < parts.len() && source_atoms(#[trigger] parts[i], key, tag).contains(atom),
{
    assert forall|atom: Seq<char>| #[trigger]
        source_atoms(whole, key, tag).contains(atom) implies exists|i: int|
        0 <= i < parts.len() && source_atoms(#[trigger] parts[i], key, tag).contains(atom) by {
        let source = choose|source: Seq<char>| #[trigger]
            has_text(whole.get(key), source) && atom == source_atom(whole, tag, source);
        let i = choose|i: int|
            0 <= i < parts.len() && has_text((#[trigger] parts[i]).get(key), source);
        assert(atom == source_atom(parts[i], tag, source));
        assert(source_atoms(parts[i], key, tag).contains(atom));
    }
    assert forall|atom: Seq<char>|
        (exists|i: int|
            0 <= i < parts.len() && source_atoms(#[trigger] parts[i], key, tag).contains(
                atom,
            )) implies #[trigger] source_atoms(whole, key, tag).contains(atom) by {
        let i = choose|i: int|
            0 <= i < parts.len() && source_atoms(#[trigger] parts[i], key, tag).contains(atom);
        let source = choose|source: Seq<char>| #[trigger]
            has_text(parts[i].get(key), source) && atom == source_atom(parts[i], tag, source);
        assert(has_text(whole.get(key), source));
        assert(atom == source_atom(whole, tag, source));
    }
}

/// How sources are grouped into rules does not matter: rules that share the ports and the protocol
/// of one rule, and the sources among them, have the atoms of that one rule.
pub proof fn grouping_does_not_matter(whole: Json, parts: Seq<Json>)
    requires
        forall|i: int| 0 <= i < parts.len() ==> base(#[trigger] parts[i]) == base(whole),
        splits(whole, parts, "cidr_blocks"@),
        splits(whole, parts, "ipv6_cidr_blocks"@),
        splits(whole, parts, "prefix_list_ids"@),
        splits(whole, parts, "security_groups"@),
        refers_to_self(whole) <==> exists|i: int|
            0 <= i < parts.len() && refers_to_self(#[trigger] parts[i]),
    ensures
        list_atoms(parts) == rule_atoms(whole),
{
    split_sources(whole, parts, "cidr_blocks"@, "cidr"@);
    split_sources(whole, parts, "ipv6_cidr_blocks"@, "cidr6"@);
    split_sources(whole, parts, "prefix_list_ids"@, "pl"@);
    split_sources(whole, parts, "security_groups"@, "sg"@);
    assert forall|atom: Seq<char>| rule_atoms(whole).contains(atom) implies list_atoms(
        parts,
    ).contains(atom) by {
        if source_atoms(whole, "cidr_blocks"@, "cidr"@).contains(atom) {
            let i = choose|i: int|
                0 <= i < parts.len() && source_atoms(
                    #[trigger] parts[i],
                    "cidr_blocks"@,
                    "cidr"@,
                ).contains(atom);
            assert(rule_atoms(parts[i]).contains(atom));
        } else if source_atoms(whole, "ipv6_cidr_blocks"@, "cidr6"@).contains(atom) {
            let i = choose|i: int|
                0 <= i < parts.len() && source_atoms(
                    #[trigger] parts[i],
                    "ipv6_cidr_blocks"@,
                    "cidr6"@,
                ).contains(atom);
            assert(rule_atoms(parts[i]).contains(atom));
        } else if source_atoms(whole, "prefix_list_ids"@, "pl"@).contains(atom) {
            let i = choose|i: int|
                0 <= i < parts.len() && source_atoms(
                    #[trigger] parts[i],
                    "prefix_list_ids"@,
                    "pl"@,
                ).contains(atom);
            assert(rule_atoms(parts[i]).contains(atom));
        } else if source_atoms(whole, "security_groups"@, "sg"@).contains(atom) {
            let i = choose|i: int|
                0 <= i < parts.len() && source_atoms(
                    #[trigger] parts[i],
                    "security_groups"@,
                    "sg"@,
                ).contains(atom);
            assert(rule_atoms(parts[i]).contains(atom));
        } else {
            let i = choose|i: int| 0 <= i < parts.len() && refers_to_self(#[trigger] parts[i]);
            assert(rule_atoms(parts[i]).contains(atom));
        }
    }
    assert forall|atom: Seq<char>| list_atoms(parts).contains(atom) implies rule_atoms(
        whole,
    ).contains(atom) by {
        let i = choose|i: int|
            0 <= i < parts.len() && rule_atoms(#[trigger] parts[i]).contains(atom);
        assert(base(parts[i]) == base(whole));
    }
    assert(list_atoms(parts) =~= rule_atoms(whole));
}

/// What an inline-shaped block has under each of its keys.
pub proof fn inline_block_entries(kind: Kind, attributes: Map<Seq<char>, Json>, own: Seq<char>)
    ensures
        ({
            let rule = Json::Object(attributes);
            let block = Json::Object(inline_block(kind, attributes, own));
            let referenced = referenced_group(kind, attributes);
            &&& number_at(block, "from_port"@) == number_at(rule, "from_port"@)
            &&& number_at(block, "to_port"@) == number_at(rule, "to_port"@)
            &&& protocol_at(block, "protocol"@) == protocol_at(
                rule,
                if kind == Kind::AwsSecurityGroupRule {
                    "protocol"@
                } else {
                    "ip_protocol"@
                },
            )
            &&& block.get("cidr_blocks"@) == Some(
                text_array(named_sources(kind, attributes, "cidr_blocks"@, "cidr_ipv4"@)),
            )
            &&& block.get("ipv6_cidr_blocks"@) == Some(
                text_array(named_sources(kind, attributes, "ipv6_cidr_blocks"@, "cidr_ipv6"@)),
            )
            &&& block.get("prefix_list_ids"@) == Some(
                text_array(named_sources(kind, attributes, "prefix_list_ids"@, "prefix_list_id"@)),
            )
            &&& block.get("security_groups"@) == Some(
                text_array(
                    match referenced {
                        Some(group) => if group == own {
                            Seq::empty()
                        } else {
                            seq![group]
                        },
                        None => Seq::empty(),
                    },
                ),
            )
            &&& refers_to_self(block) == (refers_to_self(rule) || referenced == Some(own))
        }),
{
    reveal_strlit("from_port");
    reveal_strlit("to_port");
    reveal_strlit("protocol");
    reveal_strlit("cidr_blocks");
    reveal_strlit("ipv6_cidr_blocks");
    reveal_strlit("prefix_list_ids");
    reveal_strlit("security_groups");
    reveal_strlit("self");
    reveal_strlit("all");
    reveal_strlit("-1");
    assert("protocol"@.len() == 8 && "from_port"@.len() == 9 && "to_port"@.len() == 7);
    assert("cidr_blocks"@.len() == 11 && "ipv6_cidr_blocks"@.len() == 16);
    assert("prefix_list_ids"@.len() == 15 && "security_groups"@.len() == 15);
    assert("prefix_list_ids"@[0] == 'p' && "security_groups"@[0] == 's');
    assert("self"@.len() == 4 && "all"@.len() == 3 && "-1"@.len() == 2);
}

/// One logical rule reduces to the same atoms however it was declared: a rule resource whose ports,
/// protocol, sources and group reference say what an inline rule says has the atoms of that inline
/// rule.
pub proof fn shapes_agree(
    inline: Json,
    kind: Kind,
    attributes: Map<Seq<char>, Json>,
    own: Seq<char>,
)
    requires
        direction(kind, attributes) is Some,
        ({
            let rule = Json::Object(attributes);
            let referenced = referenced_group(kind, attributes);
            &&& number_at(inline, "from_port"@) == number_at(rule, "from_port"@)
            &&& number_at(inline, "to_port"@) == number_at(rule, "to_port"@)
            &&& protocol_at(inline, "protocol"@) == protocol_at(
                rule,
                if kind == Kind::AwsSecurityGroupRule {
                    "protocol"@
                } else {
                    "ip_protocol"@
                },
            )
            &&& forall|source: Seq<char>| #[trigger]
                has_text(inline.get("cidr_blocks"@), source) <==> named_sources(
                    kind,
                    attributes,
                    "cidr_blocks"@,
                    "cidr_ipv4"@,
                ).contains(source)
            &&& forall|source: Seq<char>| #[trigger]
                has_text(inline.get("ipv6_cidr_blocks"@), source) <==> named_sources(
                    kind,
                    attributes,
                    "ipv6_cidr_blocks"@,
                    "cidr_ipv6"@,
                ).contains(source)
            &&& forall|source: Seq<char>| #[trigger]
                has_text(inline.get("prefix_list_ids"@), source) <==> named_sources(
                    kind,
                    attributes,
                    "prefix_list_ids"@,
                    "prefix_list_id"@,
                ).contains(source)
            &&& forall|source: Seq<char>| #[trigger]
                has_text(inline.get("security_groups"@), source) <==> referenced == Some(source)
                    && source != own
            &&& refers_to_self(inline) == (refers_to_self(rule) || referenced == Some(own))
        }),
    ensures
        sibling_block(kind, attributes, own) matches Some((_, block)) && rule_atoms(block)
            == rule_atoms(inline),
{
    let block = Json::Object(inline_block(kind, attributes, own));
    inline_block_entries(kind, attributes, own);
    assert(base(block) == base(inline));
    same_sources(
        inline,
        block,
        "cidr_blocks"@,
        "cidr"@,
        named_sources(kind, attributes, "cidr_blocks"@, "cidr_ipv4"@),
    );
    same_sources(
        inline,
        block,
        "ipv6_cidr_blocks"@,
        "cidr6"@,
        named_sources(kind, attributes, "ipv6_cidr_blocks"@, "cidr_ipv6"@),
    );
    same_sources(
        inline,
        block,
        "prefix_list_ids"@,
        "pl"@,
        named_sources(kind, attributes, "prefix_list_ids"@, "prefix_list_id"@),
    );
    let referenced = referenced_group(kind, attributes);
    let groups = match referenced {
        Some(group) => if group == own {
            Seq::empty()
        } else {
            seq![group]
        },
        None => Seq::empty(),
    };
    assert forall|source: Seq<char>| groups.contains(source) <==> referenced == Some(source)
        && source != own by {
        if referenced == Some(source) && source != own {
            assert(groups[0] == source);
        }
    }
    same_sources(inline, block, "security_groups"@, "sg"@, groups);
    assert(rule_atoms(block) =~= rule_atoms(inline));
}

proof fn same_sources(
    a: Json,
    b: Json,
    key: Seq<char>,
    tag: Seq<char>,
    sources: Seq<Seq<char>>,
)
    requires
        base(a) == base(b),
        b.get(key) == Some(text_array(sources)),
        forall|source: Seq<char>| #[trigger]
            has_text(a.get(key), source) <==> sources.contains(source),
    ensures
        source_atoms(a, key, tag) == source_atoms(b, key, tag),
{
    let items = text_array(sources)->Array_0;
    assert forall|source: Seq<char>| #[trigger] has_text(b.get(key), source) <==> has_text(
        a.get(key),
        source,
    ) by {
        if has_text(b.get(key), source) {
            let i = choose|i: int| 0 <= i < items.len() && items[i] == Json::Text(source);
            assert(sources[i] == source);
        }
        if sources.contains(source) {
            let i = choose|i: int| 0 <= i < sources.len() && sources[i] == source;
            assert(items[i] == Json::Text(source));
        }
    }
    assert forall|atom: Seq<char>| source_atoms(a, key, tag).contains(atom) implies source_atoms(
        b,
        key,
        tag,
    ).contains(atom) by {
        let source = choose|source: Seq<char>| #[trigger]
            has_text(a.get(key), source) && atom == source_atom(a, tag, source);
        assert(has_text(b.get(key), source));
        assert(atom == source_atom(b, tag, source));
    }
    assert forall|atom: Seq<char>| source_atoms(b, key, tag).contains(atom) implies source_atoms(
        a,
        key,
        tag,
    ).contains(atom) by {
        let source = choose|source: Seq<char>| #[trigger]
            has_text(b.get(key), source) && atom == source_atom(b, tag, source);
        assert(has_text(a.get(key), source));
        assert(atom == source_atom(a, tag, source));
    }
    assert(source_atoms(a, key, tag) =~= source_atoms(b, key, tag));
}

/// A reference to the rule's own group is the `/self` atom, and no atom of a group source.
pub proof fn own_group_is_self(kind: Kind, attributes: Map<Seq<char>, Json>, own: Seq<char>)
    requires
        direction(kind, attributes) is Some,
        referenced_group(kind, attributes) == Some(own),
    ensures
        sibling_block(kind, attributes, own) matches Some((_, block)) && rule_atoms(block).contains(
            base(block) + "/self"@,
        ) && source_atoms(block, "security_groups"@, "sg"@) == Set::<Seq<char>>::empty(),
{
    let block = Json::Object(inline_block(kind, attributes, own));
    inline_block_entries(kind, attributes, own);
    assert forall|source: Seq<char>| !#[trigger] has_text(
        block.get("security_groups"@),
        source,
    ) by {
        assert(block.get("security_groups"@) == Some(text_array(Seq::empty())));
    }
    assert(source_atoms(block, "security_groups"@, "sg"@) =~= Set::empty());
}

/// A resource contributes to no list of a group other than the one it names.
pub proof fn other_groups_untouched(
    declared: Seq<Declared>,
    more: Declared,
    group: Seq<char>,
    list: Seq<char>,
)
    requires
        text_at(more.attributes, "security_group_id"@) != Some(group),
    ensures
        contributions(siblings(declared.push(more)), group, list) == contributions(
            siblings(declared),
            group,
            list,
        ),
{
    assert(declared.push(more).drop_last() =~= declared);
    let all = siblings(declared.push(more));
    if all.len() > siblings(declared).len() {
        assert(all.drop_last() =~= siblings(declared));
    }
}

/// A resource contributes to no list of the other direction, and one whose direction is unknown
/// contributes nowhere.
pub proof fn other_direction_untouched(
    declared: Seq<Declared>,
    more: Declared,
    group: Seq<char>,
    list: Seq<char>,
)
    requires
        direction(more.kind, more.attributes) != Some(normal_direction(list)),
    ensures
        contributions(siblings(declared.push(more)), group, list) == contributions(
            siblings(declared),
            group,
            list,
        ),
{
    assert(declared.push(more).drop_last() =~= declared);
    let all = siblings(declared.push(more));
    if all.len() > siblings(declared).len() {
        assert(all.drop_last() =~= siblings(declared));
    }
}

} // verus!
