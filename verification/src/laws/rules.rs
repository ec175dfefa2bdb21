//! What the atoms of security-group rules say.

use vstd::prelude::*;

use crate::diff::rules::{
    atoms, base, contributions, has_text, inline_block_entries, list_atoms, referenced_group,
    rule_atoms, sibling_block, siblings, source_atom, source_atoms,
};
use crate::json::{text_array, texts_among_members, Json};
use crate::laws::{counts, lists, says};
use crate::text::{decimal, digit, integer};
use crate::types::resource::{text_at, Declared, Kind};

verus! {

/// A rule is for this protocol: under `key` it says so, where nothing and `all` both mean `-1`.
pub open spec fn is_for_protocol(rule: Json, key: Seq<char>, protocol: Seq<char>) -> bool {
    match rule.get(key) {
        Some(Json::Text(said)) => protocol == if said == "all"@ {
            "-1"@
        } else {
            said
        },
        _ => protocol == "-1"@,
    }
}

/// A rule is for this protocol and these ports.
pub open spec fn is_for(rule: Json, protocol: Seq<char>, from: int, to: int) -> bool {
    is_for_protocol(rule, "protocol"@, protocol) && counts(rule, "from_port"@, from) && counts(
        rule,
        "to_port"@,
        to,
    )
}

/// What the atoms of a rule for this protocol and these ports start with.
pub open spec fn range_text(protocol: Seq<char>, from: int, to: int) -> Seq<char> {
    protocol + "/"@ + integer(from) + "-"@ + integer(to)
}

proof fn base_is_range(rule: Json, protocol: Seq<char>, from: int, to: int)
    requires
        is_for(rule, protocol, from, to),
    ensures
        base(rule) == range_text(protocol, from, to),
{
}

proof fn tagged(range: Seq<char>, tag: Seq<char>, whole: Seq<char>, source: Seq<char>)
    requires
        whole == "/"@ + tag + ":"@,
    ensures
        range + "/"@ + tag + ":"@ + source == range + whole + source,
{
    assert(range + "/"@ + tag + ":"@ + source =~= range + whole + source);
}

/// Every source of every rule of a list has an atom of its own: the protocol, the ports, the sort of
/// the source, and the source. A rule that refers to its own group has one too.
pub proof fn every_source_has_its_atom(
    rules: Seq<Json>,
    i: int,
    protocol: Seq<char>,
    from: int,
    to: int,
    source: Seq<char>,
)
    requires
        0 <= i < rules.len(),
        is_for(rules[i], protocol, from, to),
    ensures
        lists(rules[i], "cidr_blocks"@, source) ==> atoms(Json::Array(rules)).contains(
            range_text(protocol, from, to) + "/cidr:"@ + source,
        ),
        lists(rules[i], "ipv6_cidr_blocks"@, source) ==> atoms(Json::Array(rules)).contains(
            range_text(protocol, from, to) + "/cidr6:"@ + source,
        ),
        lists(rules[i], "prefix_list_ids"@, source) ==> atoms(Json::Array(rules)).contains(
            range_text(protocol, from, to) + "/pl:"@ + source,
        ),
        lists(rules[i], "security_groups"@, source) ==> atoms(Json::Array(rules)).contains(
            range_text(protocol, from, to) + "/sg:"@ + source,
        ),
        rules[i].get("self"@) == Some(Json::Bool(true)) ==> atoms(Json::Array(rules)).contains(
            range_text(protocol, from, to) + "/self"@,
        ),
{
    let rule = rules[i];
    let range = range_text(protocol, from, to);
    base_is_range(rule, protocol, from, to);
    tags_in_full();
    tagged(range, "cidr"@, "/cidr:"@, source);
    tagged(range, "cidr6"@, "/cidr6:"@, source);
    tagged(range, "pl"@, "/pl:"@, source);
    tagged(range, "sg"@, "/sg:"@, source);
    if lists(rule, "cidr_blocks"@, source) {
        assert(has_text(rule.get("cidr_blocks"@), source));
        assert(rule_atoms(rule).contains(source_atom(rule, "cidr"@, source)));
    }
    if lists(rule, "ipv6_cidr_blocks"@, source) {
        assert(has_text(rule.get("ipv6_cidr_blocks"@), source));
        assert(rule_atoms(rule).contains(source_atom(rule, "cidr6"@, source)));
    }
    if lists(rule, "prefix_list_ids"@, source) {
        assert(has_text(rule.get("prefix_list_ids"@), source));
        assert(rule_atoms(rule).contains(source_atom(rule, "pl"@, source)));
    }
    if lists(rule, "security_groups"@, source) {
        assert(has_text(rule.get("security_groups"@), source));
        assert(rule_atoms(rule).contains(source_atom(rule, "sg"@, source)));
    }
    if rule.get("self"@) == Some(Json::Bool(true)) {
        assert(rule_atoms(rule).contains(base(rule) + "/self"@));
    }
}

proof fn tags_in_full()
    ensures
        "/cidr:"@ == "/"@ + "cidr"@ + ":"@,
        "/cidr6:"@ == "/"@ + "cidr6"@ + ":"@,
        "/pl:"@ == "/"@ + "pl"@ + ":"@,
        "/sg:"@ == "/"@ + "sg"@ + ":"@,
{
    reveal_strlit("/");
    reveal_strlit(":");
    reveal_strlit("cidr");
    reveal_strlit("cidr6");
    reveal_strlit("pl");
    reveal_strlit("sg");
    reveal_strlit("/cidr:");
    reveal_strlit("/cidr6:");
    reveal_strlit("/pl:");
    reveal_strlit("/sg:");
    assert("/cidr:"@ =~= "/"@ + "cidr"@ + ":"@);
    assert("/cidr6:"@ =~= "/"@ + "cidr6"@ + ":"@);
    assert("/pl:"@ =~= "/"@ + "pl"@ + ":"@);
    assert("/sg:"@ =~= "/"@ + "sg"@ + ":"@);
}

/// `rule` gives `atom` as what it says of one source.
pub open spec fn gives(
    rule: Json,
    atom: Seq<char>,
    protocol: Seq<char>,
    from: int,
    to: int,
    source: Seq<char>,
) -> bool {
    let range = range_text(protocol, from, to);
    is_for(rule, protocol, from, to) && {
        ||| lists(rule, "cidr_blocks"@, source) && atom == range + "/cidr:"@ + source
        ||| lists(rule, "ipv6_cidr_blocks"@, source) && atom == range + "/cidr6:"@ + source
        ||| lists(rule, "prefix_list_ids"@, source) && atom == range + "/pl:"@ + source
        ||| lists(rule, "security_groups"@, source) && atom == range + "/sg:"@ + source
        ||| rule.get("self"@) == Some(Json::Bool(true)) && atom == range + "/self"@
    }
}

/// There is no other atom: each one is what some rule says of one of its sources.
pub proof fn every_atom_has_its_source(rules: Seq<Json>, atom: Seq<char>)
    requires
        atoms(Json::Array(rules)).contains(atom),
    ensures
        exists|i: int, protocol: Seq<char>, from: int, to: int, source: Seq<char>|
            0 <= i < rules.len() && #[trigger] gives(rules[i], atom, protocol, from, to, source),
{
    let i = choose|i: int| 0 <= i < rules.len() && rule_atoms(#[trigger] rules[i]).contains(atom);
    let rule = rules[i];
    let protocol = match rule.get("protocol"@) {
        Some(Json::Text(said)) => if said == "all"@ {
            "-1"@
        } else {
            said
        },
        _ => "-1"@,
    };
    let from = crate::diff::rules::number_at(rule, "from_port"@);
    let to = crate::diff::rules::number_at(rule, "to_port"@);
    assert(is_for(rule, protocol, from, to));
    base_is_range(rule, protocol, from, to);
    let range = range_text(protocol, from, to);
    tags_in_full();
    if source_atoms(rule, "cidr_blocks"@, "cidr"@).contains(atom) {
        let source = choose|source: Seq<char>| #[trigger]
            has_text(rule.get("cidr_blocks"@), source) && atom == source_atom(
                rule,
                "cidr"@,
                source,
            );
        tagged(range, "cidr"@, "/cidr:"@, source);
        assert(gives(rules[i], atom, protocol, from, to, source));
    } else if source_atoms(rule, "ipv6_cidr_blocks"@, "cidr6"@).contains(atom) {
        let source = choose|source: Seq<char>| #[trigger]
            has_text(rule.get("ipv6_cidr_blocks"@), source) && atom == source_atom(
                rule,
                "cidr6"@,
                source,
            );
        tagged(range, "cidr6"@, "/cidr6:"@, source);
        assert(gives(rules[i], atom, protocol, from, to, source));
    } else if source_atoms(rule, "prefix_list_ids"@, "pl"@).contains(atom) {
        let source = choose|source: Seq<char>| #[trigger]
            has_text(rule.get("prefix_list_ids"@), source) && atom == source_atom(
                rule,
                "pl"@,
                source,
            );
        tagged(range, "pl"@, "/pl:"@, source);
        assert(gives(rules[i], atom, protocol, from, to, source));
    } else if source_atoms(rule, "security_groups"@, "sg"@).contains(atom) {
        let source = choose|source: Seq<char>| #[trigger]
            has_text(rule.get("security_groups"@), source) && atom == source_atom(
                rule,
                "sg"@,
                source,
            );
        tagged(range, "sg"@, "/sg:"@, source);
        assert(gives(rules[i], atom, protocol, from, to, source));
    } else {
        assert(gives(rules[i], atom, protocol, from, to, Seq::empty()));
    }
}

/// `c` is nowhere in `text`.
pub open spec fn is_free_of(text: Seq<char>, c: char) -> bool {
    forall|i: int| 0 <= i < text.len() ==> (#[trigger] text[i]) != c
}

proof fn one_place_to_cut(a: Seq<char>, x: Seq<char>, b: Seq<char>, y: Seq<char>, c: char)
    requires
        a + seq![c] + x == b + seq![c] + y,
        is_free_of(a, c),
        is_free_of(b, c),
    ensures
        a == b,
        x == y,
{
    let whole = a + seq![c] + x;
    let other = b + seq![c] + y;
    assert(whole[a.len() as int] == c);
    assert(other[b.len() as int] == c);
    if a.len() < b.len() {
        assert(other[a.len() as int] == b[a.len() as int]);
    } else if b.len() < a.len() {
        assert(whole[b.len() as int] == a[b.len() as int]);
    }
    assert(a =~= whole.take(a.len() as int));
    assert(b =~= other.take(b.len() as int));
    assert(x =~= whole.skip(a.len() as int + 1));
    assert(y =~= other.skip(b.len() as int + 1));
}

proof fn numbers_have_no_slash(n: nat)
    ensures
        is_free_of(decimal(n), '/'),
    decreases n,
{
    reveal_strlit("0");
    reveal_strlit("1");
    reveal_strlit("2");
    reveal_strlit("3");
    reveal_strlit("4");
    reveal_strlit("5");
    reveal_strlit("6");
    reveal_strlit("7");
    reveal_strlit("8");
    reveal_strlit("9");
    if n >= 10 {
        numbers_have_no_slash(n / 10);
        assert(is_free_of(digit(n % 10), '/'));
    }
}

proof fn range_has_no_slash(from: int, to: int)
    ensures
        is_free_of(integer(from) + "-"@ + integer(to), '/'),
{
    reveal_strlit("-");
    numbers_have_no_slash(from as nat);
    numbers_have_no_slash((-from) as nat);
    numbers_have_no_slash(to as nat);
    numbers_have_no_slash((-to) as nat);
}

proof fn ranges_are_told_apart(
    protocol: Seq<char>,
    from: int,
    to: int,
    rest: Seq<char>,
    other_protocol: Seq<char>,
    other_from: int,
    other_to: int,
    other_rest: Seq<char>,
)
    requires
        is_free_of(protocol, '/'),
        is_free_of(other_protocol, '/'),
        range_text(protocol, from, to) + seq!['/'] + rest == range_text(
            other_protocol,
            other_from,
            other_to,
        ) + seq!['/'] + other_rest,
    ensures
        range_text(protocol, from, to) == range_text(other_protocol, other_from, other_to),
        rest == other_rest,
{
    reveal_strlit("/");
    let ports = integer(from) + "-"@ + integer(to);
    let other_ports = integer(other_from) + "-"@ + integer(other_to);
    range_has_no_slash(from, to);
    range_has_no_slash(other_from, other_to);
    assert("/"@ =~= seq!['/']);
    assert(range_text(protocol, from, to) =~= protocol + seq!['/'] + ports);
    assert(range_text(other_protocol, other_from, other_to) =~= other_protocol + seq!['/']
        + other_ports);
    assert(range_text(protocol, from, to) + seq!['/'] + rest =~= protocol + seq!['/'] + (ports
        + seq!['/'] + rest));
    assert(range_text(other_protocol, other_from, other_to) + seq!['/'] + other_rest
        =~= other_protocol + seq!['/'] + (other_ports + seq!['/'] + other_rest));
    one_place_to_cut(
        protocol,
        ports + seq!['/'] + rest,
        other_protocol,
        other_ports + seq!['/'] + other_rest,
        '/',
    );
    one_place_to_cut(ports, rest, other_ports, other_rest, '/');
}

/// The protocols of some rules are ones that can be told from the ports behind them.
pub open spec fn has_plain_protocols(rules: Seq<Json>) -> bool {
    forall|i: int, protocol: Seq<char>|
        0 <= i < rules.len() && #[trigger] is_for_protocol(rules[i], "protocol"@, protocol)
            ==> is_free_of(protocol, '/')
}

/// Some rule for this protocol and these ports lists `source` under `key`.
pub open spec fn is_listed(
    rules: Seq<Json>,
    range: Seq<char>,
    key: Seq<char>,
    source: Seq<char>,
) -> bool {
    exists|j: int, protocol: Seq<char>, from: int, to: int|
        0 <= j < rules.len() && #[trigger] is_for(rules[j], protocol, from, to) && range_text(
            protocol,
            from,
            to,
        ) == range && lists(rules[j], key, source)
}

/// Some rule for this protocol and these ports refers to its own group.
pub open spec fn is_own(rules: Seq<Json>, range: Seq<char>) -> bool {
    exists|j: int, protocol: Seq<char>, from: int, to: int|
        0 <= j < rules.len() && #[trigger] is_for(rules[j], protocol, from, to) && range_text(
            protocol,
            from,
            to,
        ) == range && rules[j].get("self"@) == Some(Json::Bool(true))
}

spec fn is_tag(tag: Seq<char>, source: Seq<char>) -> bool {
    tag == "/cidr:"@ || tag == "/cidr6:"@ || tag == "/pl:"@ || tag == "/sg:"@ || (tag == "/self"@
        && source.len() == 0)
}

proof fn who_says(
    rules: Seq<Json>,
    protocol: Seq<char>,
    from: int,
    to: int,
    tag: Seq<char>,
    source: Seq<char>,
) -> (r: (int, Seq<char>, int, int))
    requires
        has_plain_protocols(rules),
        is_free_of(protocol, '/'),
        is_tag(tag, source),
        atoms(Json::Array(rules)).contains(range_text(protocol, from, to) + tag + source),
    ensures
        0 <= r.0 < rules.len(),
        is_for(rules[r.0], r.1, r.2, r.3),
        range_text(r.1, r.2, r.3) == range_text(protocol, from, to),
        tag == "/cidr:"@ ==> lists(rules[r.0], "cidr_blocks"@, source),
        tag == "/cidr6:"@ ==> lists(rules[r.0], "ipv6_cidr_blocks"@, source),
        tag == "/pl:"@ ==> lists(rules[r.0], "prefix_list_ids"@, source),
        tag == "/sg:"@ ==> lists(rules[r.0], "security_groups"@, source),
        tag == "/self"@ ==> rules[r.0].get("self"@) == Some(Json::Bool(true)),
{
    let range = range_text(protocol, from, to);
    let atom = range + tag + source;
    every_atom_has_its_source(rules, atom);
    let (i, p, f, t, s) = choose|
        i: int,
        protocol: Seq<char>,
        from: int,
        to: int,
        source: Seq<char>,
    |
        0 <= i < rules.len() && #[trigger] gives(rules[i], atom, protocol, from, to, source);
    assert(is_for_protocol(rules[i], "protocol"@, p));
    let own = range_text(p, f, t);
    reveal_strlit("/cidr:");
    reveal_strlit("/cidr6:");
    reveal_strlit("/pl:");
    reveal_strlit("/sg:");
    reveal_strlit("/self");
    assert(own + "/self"@ =~= own + "/self"@ + Seq::<char>::empty());
    let (said, y) = if lists(rules[i], "cidr_blocks"@, s) && atom == own + "/cidr:"@ + s {
        ("/cidr:"@, s)
    } else if lists(rules[i], "ipv6_cidr_blocks"@, s) && atom == own + "/cidr6:"@ + s {
        ("/cidr6:"@, s)
    } else if lists(rules[i], "prefix_list_ids"@, s) && atom == own + "/pl:"@ + s {
        ("/pl:"@, s)
    } else if lists(rules[i], "security_groups"@, s) && atom == own + "/sg:"@ + s {
        ("/sg:"@, s)
    } else {
        ("/self"@, Seq::empty())
    };
    assert(atom == own + said + y);
    assert(tag[0] == '/' && said[0] == '/');
    let rest = tag.drop_first() + source;
    let other_rest = said.drop_first() + y;
    assert(range + tag + source =~= range + seq!['/'] + rest);
    assert(own + said + y =~= own + seq!['/'] + other_rest);
    ranges_are_told_apart(protocol, from, to, rest, p, f, t, other_rest);
    assert(tag + source =~= seq!['/'] + rest);
    assert(said + y =~= seq!['/'] + other_rest);
    told_apart(tag, source, said, y);
    assert("/cidr:"@.len() == 6 && "/cidr6:"@.len() == 7 && "/pl:"@.len() == 4 && "/sg:"@.len()
        == 4 && "/self"@.len() == 5 && "/pl:"@[1] != "/sg:"@[1]);
    (i, p, f, t)
}

proof fn told_apart(a: Seq<char>, x: Seq<char>, b: Seq<char>, y: Seq<char>)
    requires
        a == "/cidr:"@ || a == "/cidr6:"@ || a == "/pl:"@ || a == "/sg:"@ || (a == "/self"@
            && x.len() == 0),
        b == "/cidr:"@ || b == "/cidr6:"@ || b == "/pl:"@ || b == "/sg:"@ || (b == "/self"@
            && y.len() == 0),
        a + x == b + y,
    ensures
        a == b,
        x == y,
{
    reveal_strlit("/cidr:");
    reveal_strlit("/cidr6:");
    reveal_strlit("/pl:");
    reveal_strlit("/sg:");
    reveal_strlit("/self");
    let whole = a + x;
    let other = b + y;
    assert(whole[1] == a[1] && other[1] == b[1]);
    assert(whole[2] == a[2] && other[2] == b[2]);
    if a == "/cidr:"@ || a == "/cidr6:"@ {
        assert(whole[5] == a[5]);
    }
    if b == "/cidr:"@ || b == "/cidr6:"@ {
        assert(other[5] == b[5]);
    }
    assert(a == b);
    assert(x =~= whole.skip(a.len() as int));
    assert(y =~= other.skip(b.len() as int));
}

/// Rule lists with the same atoms let in the same sources: whatever IPv4 range, IPv6 range, prefix
/// list or group one of them names for a protocol and ports, and the group's own members, the other
/// names for them too.
pub proof fn same_atoms_same_sources(
    a: Seq<Json>,
    b: Seq<Json>,
    i: int,
    protocol: Seq<char>,
    from: int,
    to: int,
    source: Seq<char>,
)
    requires
        atoms(Json::Array(a)) == atoms(Json::Array(b)),
        has_plain_protocols(a),
        has_plain_protocols(b),
        0 <= i < a.len(),
        is_for(a[i], protocol, from, to),
    ensures
        lists(a[i], "cidr_blocks"@, source) ==> is_listed(
            b,
            range_text(protocol, from, to),
            "cidr_blocks"@,
            source,
        ),
        lists(a[i], "ipv6_cidr_blocks"@, source) ==> is_listed(
            b,
            range_text(protocol, from, to),
            "ipv6_cidr_blocks"@,
            source,
        ),
        lists(a[i], "prefix_list_ids"@, source) ==> is_listed(
            b,
            range_text(protocol, from, to),
            "prefix_list_ids"@,
            source,
        ),
        lists(a[i], "security_groups"@, source) ==> is_listed(
            b,
            range_text(protocol, from, to),
            "security_groups"@,
            source,
        ),
        a[i].get("self"@) == Some(Json::Bool(true)) ==> is_own(b, range_text(protocol, from, to)),
{
    let range = range_text(protocol, from, to);
    every_source_has_its_atom(a, i, protocol, from, to, source);
    assert(is_for_protocol(a[i], "protocol"@, protocol));
    if lists(a[i], "cidr_blocks"@, source) {
        let (j, p, f, t) = who_says(b, protocol, from, to, "/cidr:"@, source);
        assert(is_for(b[j], p, f, t));
    }
    if lists(a[i], "ipv6_cidr_blocks"@, source) {
        let (j, p, f, t) = who_says(b, protocol, from, to, "/cidr6:"@, source);
        assert(is_for(b[j], p, f, t));
    }
    if lists(a[i], "prefix_list_ids"@, source) {
        let (j, p, f, t) = who_says(b, protocol, from, to, "/pl:"@, source);
        assert(is_for(b[j], p, f, t));
    }
    if lists(a[i], "security_groups"@, source) {
        let (j, p, f, t) = who_says(b, protocol, from, to, "/sg:"@, source);
        assert(is_for(b[j], p, f, t));
    }
    if a[i].get("self"@) == Some(Json::Bool(true)) {
        assert(range + "/self"@ =~= range + "/self"@ + Seq::<char>::empty());
        let (j, p, f, t) = who_says(b, protocol, from, to, "/self"@, Seq::empty());
        assert(is_for(b[j], p, f, t));
    }
}

proof fn contributed(declared: Seq<Declared>, group: Seq<char>, list: Seq<char>, block: Json)
    requires
        list == "ingress"@ || list == "egress"@,
    ensures
        contributions(siblings(declared), group, list).contains(block) <==> exists|n: int|
            0 <= n < declared.len() && text_at(
                (#[trigger] declared[n]).attributes,
                "security_group_id"@,
            ) == Some(group) && sibling_block(declared[n].kind, declared[n].attributes, group)
                == Some((list, block)),
    decreases declared.len(),
{
    broadcast use vstd::seq_lib::group_seq_properties;

    reveal_strlit("ingress");
    reveal_strlit("egress");
    assert("ingress"@.len() != "egress"@.len());
    if declared.len() > 0 {
        let rest = declared.drop_last();
        let last = declared.last();
        contributed(rest, group, list, block);
        let before = contributions(siblings(rest), group, list);
        let all = contributions(siblings(declared), group, list);
        if siblings(declared).len() > siblings(rest).len() {
            assert(siblings(declared).drop_last() =~= siblings(rest));
        }
        assert(declared[declared.len() - 1] == last);
        if before.contains(block) {
            let n = choose|n: int|
                0 <= n < rest.len() && text_at(
                    (#[trigger] rest[n]).attributes,
                    "security_group_id"@,
                ) == Some(group) && sibling_block(rest[n].kind, rest[n].attributes, group) == Some(
                    (list, block),
                );
            assert(declared[n] == rest[n]);
        }
        assert forall|n: int|
            0 <= n < declared.len() && text_at(
                (#[trigger] declared[n]).attributes,
                "security_group_id"@,
            ) == Some(group) && sibling_block(declared[n].kind, declared[n].attributes, group)
                == Some((list, block)) implies all.contains(block) by {
            if n < rest.len() {
                assert(rest[n] == declared[n]);
            }
        }
    }
}

/// `resource` declares a rule of `group` as a resource of its own: for this list of the group, this
/// protocol and these ports.
pub open spec fn declares_rule(
    resource: Declared,
    group: Seq<char>,
    list: Seq<char>,
    protocol: Seq<char>,
    from: int,
    to: int,
) -> bool {
    let rule = Json::Object(resource.attributes);
    says(rule, "security_group_id"@, group) && counts(rule, "from_port"@, from) && counts(
        rule,
        "to_port"@,
        to,
    ) && match resource.kind {
        Kind::AwsVpcSecurityGroupIngressRule => list == "ingress"@ && is_for_protocol(
            rule,
            "ip_protocol"@,
            protocol,
        ),
        Kind::AwsVpcSecurityGroupEgressRule => list == "egress"@ && is_for_protocol(
            rule,
            "ip_protocol"@,
            protocol,
        ),
        Kind::AwsSecurityGroupRule => (list == "ingress"@ || list == "egress"@) && says(
            rule,
            "type"@,
            list,
        ) && is_for_protocol(rule, "protocol"@, protocol),
        _ => false,
    }
}

/// `resource` names `source`: in a list in the older form of a rule resource, alone in the newer.
pub open spec fn names(
    resource: Declared,
    plural: Seq<char>,
    singular: Seq<char>,
    source: Seq<char>,
) -> bool {
    if resource.kind == Kind::AwsSecurityGroupRule {
        lists(Json::Object(resource.attributes), plural, source)
    } else {
        says(Json::Object(resource.attributes), singular, source)
    }
}

/// `resource` names `group` as the group that its rule trusts.
pub open spec fn trusts_group(resource: Declared, group: Seq<char>) -> bool {
    says(
        Json::Object(resource.attributes),
        if resource.kind == Kind::AwsSecurityGroupRule {
            "source_security_group_id"@
        } else {
            "referenced_security_group_id"@
        },
        group,
    )
}

/// `resource` declares a rule of `group` that refers to the group itself.
pub open spec fn trusts_itself(resource: Declared, group: Seq<char>) -> bool {
    trusts_group(resource, group) || Json::Object(resource.attributes).get("self"@) == Some(
        Json::Bool(true),
    )
}

spec fn block_says(
    block: Json,
    resource: Declared,
    group: Seq<char>,
    protocol: Seq<char>,
    from: int,
    to: int,
) -> bool {
    &&& is_for(block, protocol, from, to)
    &&& forall|source: Seq<char>| #[trigger]
        lists(block, "cidr_blocks"@, source) <==> names(
            resource,
            "cidr_blocks"@,
            "cidr_ipv4"@,
            source,
        )
    &&& forall|source: Seq<char>| #[trigger]
        lists(block, "ipv6_cidr_blocks"@, source) <==> names(
            resource,
            "ipv6_cidr_blocks"@,
            "cidr_ipv6"@,
            source,
        )
    &&& forall|source: Seq<char>| #[trigger]
        lists(block, "prefix_list_ids"@, source) <==> names(
            resource,
            "prefix_list_ids"@,
            "prefix_list_id"@,
            source,
        )
    &&& forall|source: Seq<char>| #[trigger]
        lists(block, "security_groups"@, source) <==> source != group && trusts_group(
            resource,
            source,
        )
    &&& (block.get("self"@) == Some(Json::Bool(true))) == trusts_itself(resource, group)
}

proof fn listed_in_array(list: Seq<Seq<char>>, source: Seq<char>)
    ensures
        text_array(list)->Array_0.contains(Json::Text(source)) <==> list.contains(source),
{
    let items = text_array(list)->Array_0;
    if items.contains(Json::Text(source)) {
        let i = choose|i: int| 0 <= i < items.len() && items[i] == Json::Text(source);
        assert(list[i] == source);
    }
    if list.contains(source) {
        let i = choose|i: int| 0 <= i < list.len() && list[i] == source;
        assert(items[i] == Json::Text(source));
    }
}

proof fn named_or_not(resource: Declared, plural: Seq<char>, singular: Seq<char>, source: Seq<char>)
    requires
        resource.kind == Kind::AwsSecurityGroupRule || resource.kind
            == Kind::AwsVpcSecurityGroupIngressRule || resource.kind
            == Kind::AwsVpcSecurityGroupEgressRule,
    ensures
        text_array(
            crate::diff::rules::named_sources(
                resource.kind,
                resource.attributes,
                plural,
                singular,
            ),
        )->Array_0.contains(Json::Text(source)) <==> names(resource, plural, singular, source),
{
    let list = crate::diff::rules::named_sources(
        resource.kind,
        resource.attributes,
        plural,
        singular,
    );
    listed_in_array(list, source);
    let value = Json::Object(resource.attributes).get(plural);
    if resource.kind == Kind::AwsSecurityGroupRule {
        if let Some(Json::Array(items)) = value {
            texts_among_members(items, source);
        }
    } else if let Some(only) = text_at(resource.attributes, singular) {
        assert(list[0] == only);
    }
}

proof fn block_of_rule(
    resource: Declared,
    group: Seq<char>,
    list: Seq<char>,
    protocol: Seq<char>,
    from: int,
    to: int,
) -> (block: Json)
    requires
        declares_rule(resource, group, list, protocol, from, to),
    ensures
        sibling_block(resource.kind, resource.attributes, group) == Some((list, block)),
        block_says(block, resource, group, protocol, from, to),
{
    let block = Json::Object(
        crate::diff::rules::inline_block(resource.kind, resource.attributes, group),
    );
    let rule = Json::Object(resource.attributes);
    reveal_strlit("from_port");
    reveal_strlit("to_port");
    reveal_strlit("protocol");
    reveal_strlit("cidr_blocks");
    reveal_strlit("ipv6_cidr_blocks");
    reveal_strlit("prefix_list_ids");
    reveal_strlit("security_groups");
    reveal_strlit("self");
    reveal_strlit("all");
    reveal_strlit("-1");
    assert("protocol"@.len() == 8 && "from_port"@.len() == 9 && "to_port"@.len() == 7);
    assert("cidr_blocks"@.len() == 11 && "ipv6_cidr_blocks"@.len() == 16);
    assert("prefix_list_ids"@.len() == 15 && "security_groups"@.len() == 15);
    assert("prefix_list_ids"@[0] == 'p' && "security_groups"@[0] == 's');
    assert("self"@.len() == 4 && "all"@.len() == 3 && "-1"@.len() == 2);
    inline_block_entries(resource.kind, resource.attributes, group);
    assert(is_for(block, protocol, from, to));
    assert forall|source: Seq<char>| #[trigger]
        lists(block, "cidr_blocks"@, source) <==> names(
            resource,
            "cidr_blocks"@,
            "cidr_ipv4"@,
            source,
        ) by {
        named_or_not(resource, "cidr_blocks"@, "cidr_ipv4"@, source);
    }
    assert forall|source: Seq<char>| #[trigger]
        lists(block, "ipv6_cidr_blocks"@, source) <==> names(
            resource,
            "ipv6_cidr_blocks"@,
            "cidr_ipv6"@,
            source,
        ) by {
        named_or_not(resource, "ipv6_cidr_blocks"@, "cidr_ipv6"@, source);
    }
    assert forall|source: Seq<char>| #[trigger]
        lists(block, "prefix_list_ids"@, source) <==> names(
            resource,
            "prefix_list_ids"@,
            "prefix_list_id"@,
            source,
        ) by {
        named_or_not(resource, "prefix_list_ids"@, "prefix_list_id"@, source);
    }
    let referenced = referenced_group(resource.kind, resource.attributes);
    let groups = match referenced {
        Some(other) => if other == group {
            Seq::empty()
        } else {
            seq![other]
        },
        None => Seq::empty(),
    };
    assert forall|source: Seq<char>| #[trigger]
        lists(block, "security_groups"@, source) <==> source != group && trusts_group(
            resource,
            source,
        ) by {
        listed_in_array(groups, source);
        if source != group && trusts_group(resource, source) {
            assert(groups[0] == source);
        }
    }
    block
}

/// A rule declared as a resource of its own counts among the rules of its group: each source that it
/// names has the atom that an inline rule would give it, and a reference to the group itself is that
/// of the group's own members.
pub proof fn every_declared_rule_counts(
    declared: Seq<Declared>,
    n: int,
    group: Seq<char>,
    list: Seq<char>,
    protocol: Seq<char>,
    from: int,
    to: int,
    source: Seq<char>,
)
    requires
        0 <= n < declared.len(),
        declares_rule(declared[n], group, list, protocol, from, to),
    ensures
        ({
            let counted = list_atoms(contributions(siblings(declared), group, list));
            let range = range_text(protocol, from, to);
            &&& names(declared[n], "cidr_blocks"@, "cidr_ipv4"@, source) ==> counted.contains(
                range + "/cidr:"@ + source,
            )
            &&& names(declared[n], "ipv6_cidr_blocks"@, "cidr_ipv6"@, source)
                ==> counted.contains(range + "/cidr6:"@ + source)
            &&& names(declared[n], "prefix_list_ids"@, "prefix_list_id"@, source)
                ==> counted.contains(range + "/pl:"@ + source)
            &&& trusts_group(declared[n], source) && source != group ==> counted.contains(
                range + "/sg:"@ + source,
            )
            &&& trusts_itself(declared[n], group) ==> counted.contains(range + "/self"@)
        }),
{
    let block = block_of_rule(declared[n], group, list, protocol, from, to);
    contributed(declared, group, list, block);
    let rules = contributions(siblings(declared), group, list);
    assert(text_at(declared[n].attributes, "security_group_id"@) == Some(group));
    let i = choose|i: int| 0 <= i < rules.len() && rules[i] == block;
    every_source_has_its_atom(rules, i, protocol, from, to, source);
    assert(lists(block, "cidr_blocks"@, source) <==> names(
        declared[n],
        "cidr_blocks"@,
        "cidr_ipv4"@,
        source,
    ));
    assert(lists(block, "ipv6_cidr_blocks"@, source) <==> names(
        declared[n],
        "ipv6_cidr_blocks"@,
        "cidr_ipv6"@,
        source,
    ));
    assert(lists(block, "prefix_list_ids"@, source) <==> names(
        declared[n],
        "prefix_list_ids"@,
        "prefix_list_id"@,
        source,
    ));
    assert(lists(block, "security_groups"@, source) <==> source != group && trusts_group(
        declared[n],
        source,
    ));
}

/// `resource` declares a rule that gives `atom` to a list of `group`.
pub open spec fn declares_atom(
    resource: Declared,
    group: Seq<char>,
    list: Seq<char>,
    atom: Seq<char>,
    protocol: Seq<char>,
    from: int,
    to: int,
    source: Seq<char>,
) -> bool {
    let range = range_text(protocol, from, to);
    declares_rule(resource, group, list, protocol, from, to) && {
        ||| names(resource, "cidr_blocks"@, "cidr_ipv4"@, source) && atom == range + "/cidr:"@
            + source
        ||| names(resource, "ipv6_cidr_blocks"@, "cidr_ipv6"@, source) && atom == range
            + "/cidr6:"@ + source
        ||| names(resource, "prefix_list_ids"@, "prefix_list_id"@, source) && atom == range
            + "/pl:"@ + source
        ||| trusts_group(resource, source) && source != group && atom == range + "/sg:"@ + source
        ||| trusts_itself(resource, group) && atom == range + "/self"@
    }
}

/// Nothing else counts: each atom that rule resources add to a list of a group is one that a rule
/// resource of that group and that list declares.
pub proof fn only_declared_rules_count(
    declared: Seq<Declared>,
    group: Seq<char>,
    list: Seq<char>,
    atom: Seq<char>,
)
    requires
        list == "ingress"@ || list == "egress"@,
        list_atoms(contributions(siblings(declared), group, list)).contains(atom),
    ensures
        exists|n: int, protocol: Seq<char>, from: int, to: int, source: Seq<char>|
            0 <= n < declared.len() && #[trigger] declares_atom(
                declared[n],
                group,
                list,
                atom,
                protocol,
                from,
                to,
                source,
            ),
{
    let rules = contributions(siblings(declared), group, list);
    every_atom_has_its_source(rules, atom);
    let (i, p, f, t, s) = choose|
        i: int,
        protocol: Seq<char>,
        from: int,
        to: int,
        source: Seq<char>,
    |
        0 <= i < rules.len() && #[trigger] gives(rules[i], atom, protocol, from, to, source);
    let block = rules[i];
    contributed(declared, group, list, block);
    let n = choose|n: int|
        0 <= n < declared.len() && text_at(
            (#[trigger] declared[n]).attributes,
            "security_group_id"@,
        ) == Some(group) && sibling_block(declared[n].kind, declared[n].attributes, group) == Some(
            (list, block),
        );
    let resource = declared[n];
    let rule = Json::Object(resource.attributes);
    let key = if resource.kind == Kind::AwsSecurityGroupRule {
        "protocol"@
    } else {
        "ip_protocol"@
    };
    let protocol = match rule.get(key) {
        Some(Json::Text(said)) => if said == "all"@ {
            "-1"@
        } else {
            said
        },
        _ => "-1"@,
    };
    let from = crate::diff::rules::number_at(rule, "from_port"@);
    let to = crate::diff::rules::number_at(rule, "to_port"@);
    assert(declares_rule(resource, group, list, protocol, from, to));
    let same = block_of_rule(resource, group, list, protocol, from, to);
    assert(same == block);
    assert(is_for(block, protocol, from, to) && is_for(block, p, f, t));
    assert(p == protocol && f == from && t == to);
    assert(lists(block, "cidr_blocks"@, s) <==> names(resource, "cidr_blocks"@, "cidr_ipv4"@, s));
    assert(lists(block, "ipv6_cidr_blocks"@, s) <==> names(
        resource,
        "ipv6_cidr_blocks"@,
        "cidr_ipv6"@,
        s,
    ));
    assert(lists(block, "prefix_list_ids"@, s) <==> names(
        resource,
        "prefix_list_ids"@,
        "prefix_list_id"@,
        s,
    ));
    assert(lists(block, "security_groups"@, s) <==> s != group && trusts_group(resource, s));
    assert(declares_atom(declared[n], group, list, atom, protocol, from, to, s));
}

} // verus!
