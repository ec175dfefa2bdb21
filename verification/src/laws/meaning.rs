//! What security groups and instances mean beyond their own fields.

use vstd::prelude::*;

use crate::collector::{observation, observation_is_of_the_resource, Observed};
use crate::diff::rules::{atoms, base, has_text, list_atoms, rule_atoms, source_atom, source_atoms};
use crate::diff::semantic::reachability::ingress;
use crate::diff::semantic::relations::{
    admitted, admitted_by, attached, chain_atom, chain_atoms, every_chain_is_found, exposed_by,
    first_absent, found_chains, internet_chains, member_atom, member_atoms, members_of, set_array,
    trusted_groups, trusts, InstanceExposure, InternetReachability, SgMembership,
};
use crate::diff::semantic::Relation;
use crate::json::{listed_texts, texts_among, texts_among_members, Json};
use crate::laws::behavioral::is_item;
use crate::laws::rules::{is_for, range_text};
use crate::laws::lists;
use crate::ordered::{finite_is_listed, listing};
use crate::text::joined;
use crate::types::resource::Kind;

verus! {

/// The rules that a group lets in by.
pub open spec fn rules_of(group: Observed) -> Seq<Json> {
    match Json::Object(group.attributes).get("ingress"@) {
        Some(Json::Array(rules)) => rules,
        _ => Seq::empty(),
    }
}

/// `node` is something that can carry security groups, and carries `group`: an EC2 instance, a Lambda
/// function, an RDS instance, an ECS service, or a load balancer.
pub open spec fn carries(node: Observed, group: Seq<char>) -> bool {
    let value = Json::Object(node.attributes);
    match node.kind {
        Kind::AwsInstance => lists(value, "vpc_security_group_ids"@, group),
        Kind::AwsLambdaFunction => lists(value, "vpc_security_group_ids"@, group),
        Kind::AwsDbInstance => lists(value, "vpc_security_group_ids"@, group),
        Kind::AwsEcsService => lists(value, "vpc_security_group_ids"@, group),
        Kind::AwsLoadBalancer => lists(value, "security_groups"@, group),
        _ => false,
    }
}

/// The graph has the security group `group`.
pub open spec fn has_group(graph: Seq<Observed>, group: Seq<char>) -> bool {
    exists|i: int|
        0 <= i < graph.len() && (#[trigger] graph[i]).kind == Kind::AwsSecurityGroup
            && graph[i].cloud_id == group
}

/// Some rule trusts `group`.
pub open spec fn is_trusted(rules: Seq<Json>, group: Seq<char>) -> bool {
    exists|i: int| 0 <= i < rules.len() && lists(#[trigger] rules[i], "security_groups"@, group)
}

/// `atom` is what a rule, for this protocol and these ports, means by the node at `j`: the node
/// carries a group that the rule trusts, so the rule lets it in.
pub open spec fn lets_in_member(
    rule: Json,
    graph: Seq<Observed>,
    j: int,
    source: Seq<char>,
    protocol: Seq<char>,
    from: int,
    to: int,
    atom: Seq<char>,
) -> bool {
    &&& is_for(rule, protocol, from, to)
    &&& lists(rule, "security_groups"@, source)
    &&& 0 <= j < graph.len()
    &&& carries(graph[j], source)
    &&& atom == range_text(protocol, from, to) + "/member:"@ + graph[j].cloud_id
}

proof fn members_in_words(graph: Seq<Observed>, group: Seq<char>, id: Seq<char>)
    ensures
        members_of(graph, group).contains(id) <==> exists|j: int|
            0 <= j < graph.len() && carries(#[trigger] graph[j], group) && graph[j].cloud_id == id,
{
    assert forall|j: int| 0 <= j < graph.len() && carries(#[trigger] graph[j], group)
        && graph[j].cloud_id == id implies members_of(graph, group).contains(id) by {
        assert(crate::diff::semantic::graph::references(graph[j], group));
        assert(crate::diff::semantic::graph::referrers_of(
            graph,
            group,
            graph[j].kind,
        ).contains(id));
    }
    if members_of(graph, group).contains(id) {
        let kind = if crate::diff::semantic::graph::referrers_of(
            graph,
            group,
            Kind::AwsInstance,
        ).contains(id) {
            Kind::AwsInstance
        } else if crate::diff::semantic::graph::referrers_of(
            graph,
            group,
            Kind::AwsLoadBalancer,
        ).contains(id) {
            Kind::AwsLoadBalancer
        } else if crate::diff::semantic::graph::referrers_of(
            graph,
            group,
            Kind::AwsLambdaFunction,
        ).contains(id) {
            Kind::AwsLambdaFunction
        } else if crate::diff::semantic::graph::referrers_of(
            graph,
            group,
            Kind::AwsDbInstance,
        ).contains(id) {
            Kind::AwsDbInstance
        } else {
            Kind::AwsEcsService
        };
        let j = choose|j: int|
            0 <= j < graph.len() && (#[trigger] graph[j]).kind == kind && graph[j].cloud_id == id
                && crate::diff::semantic::graph::references(graph[j], group);
        assert(carries(graph[j], group));
    }
}

proof fn absent_in_words(graph: Seq<Observed>, groups: Seq<Seq<char>>)
    ensures
        match first_absent(graph, groups) {
            Some(group) => groups.contains(group) && !has_group(graph, group),
            None => forall|i: int| 0 <= i < groups.len() ==> has_group(graph, #[trigger] groups[i]),
        },
    decreases groups.len(),
{
    if groups.len() > 0 {
        let rest = groups.drop_last();
        let last = groups.last();
        absent_in_words(graph, rest);
        observation_is_of_the_resource(graph, Kind::AwsSecurityGroup, last);
        if let Some(found) = observation(graph, Kind::AwsSecurityGroup, last) {
            let i = choose|i: int| 0 <= i < graph.len() && graph[i] == found;
            assert(graph[i].kind == Kind::AwsSecurityGroup);
            assert(has_group(graph, last));
        }
        match first_absent(graph, groups) {
            Some(group) => {
                if first_absent(graph, rest) is Some {
                    let i = choose|i: int| 0 <= i < rest.len() && rest[i] == group;
                    assert(groups[i] == group);
                } else {
                    assert(groups[groups.len() - 1] == group);
                }
            },
            None => {
                assert forall|i: int| 0 <= i < groups.len() implies has_group(
                    graph,
                    #[trigger] groups[i],
                ) by {
                    if i < rest.len() {
                        assert(rest[i] == groups[i]);
                    }
                }
            },
        }
    }
}

proof fn trusted_in_words(rules: Seq<Json>, group: Seq<char>)
    ensures
        trusted_groups(rules).contains(group) <==> is_trusted(rules, group),
    decreases rules.len(),
{
    broadcast use vstd::seq_lib::group_seq_properties;

    if rules.len() > 0 {
        let rest = rules.drop_last();
        let last = rules.last();
        trusted_in_words(rest, group);
        if let Some(Json::Array(items)) = last.get("security_groups"@) {
            texts_among_members(items, group);
        }
        assert(rules[rules.len() - 1] == last);
        if is_trusted(rest, group) {
            let i = choose|i: int|
                0 <= i < rest.len() && lists(#[trigger] rest[i], "security_groups"@, group);
            assert(rules[i] == rest[i]);
        }
        assert forall|i: int|
            0 <= i < rules.len() && lists(
                #[trigger] rules[i],
                "security_groups"@,
                group,
            ) implies trusted_groups(rules).contains(group) by {
            if i < rest.len() {
                assert(rest[i] == rules[i]);
            }
        }
    }
}

proof fn array_holds(set: Set<Seq<char>>, text: Seq<char>)
    requires
        set.finite(),
    ensures
        is_item(set_array(set), text) <==> set.contains(text),
{
    let list = listing::<String>(set);
    finite_is_listed::<String>(set);
    let items = set_array(set)->Array_0;
    if items.contains(Json::Text(text)) {
        let i = choose|i: int| 0 <= i < items.len() && items[i] == Json::Text(text);
        assert(list[i] == text);
        assert(list.to_set().contains(text));
    }
    if set.contains(text) {
        assert(list.to_set().contains(text));
        let i = choose|i: int| 0 <= i < list.len() && list[i] == text;
        assert(items[i] == Json::Text(text));
    }
}

proof fn finite_within(set: Set<Seq<char>>, list: Seq<Seq<char>>)
    requires
        forall|text: Seq<char>| #[trigger] set.contains(text) ==> list.contains(text),
    ensures
        set.finite(),
{
    vstd::seq_lib::seq_to_set_is_finite(list);
    assert forall|text: Seq<char>| #[trigger] set.contains(text) implies list.to_set().contains(
        text,
    ) by {}
    vstd::set_lib::lemma_len_subset(set, list.to_set());
}

proof fn admitted_is_finite(rules: Seq<Json>, graph: Seq<Observed>)
    ensures
        admitted(rules, graph).finite(),
    decreases rules.len(),
{
    if rules.len() == 0 {
        assert(admitted(rules, graph) =~= Set::empty());
    } else {
        let rest = rules.drop_last();
        let last = rules.last();
        admitted_is_finite(rest, graph);
        let list = graph.map_values(|node: Observed| member_atom(last, node.cloud_id));
        assert forall|atom: Seq<char>| #[trigger]
            admitted_by(last, graph).contains(atom) implies list.contains(atom) by {
            let source = choose|source: Seq<char>| #[trigger]
                trusts(last, source) && member_atoms(last, graph, source).contains(atom);
            let member = choose|member: Seq<char>| #[trigger]
                members_of(graph, source).contains(member) && atom == member_atom(last, member);
            members_in_words(graph, source, member);
            let j = choose|j: int|
                0 <= j < graph.len() && carries(#[trigger] graph[j], source) && graph[j].cloud_id
                    == member;
            assert(list[j] == atom);
        }
        finite_within(admitted_by(last, graph), list);
        assert forall|atom: Seq<char>| admitted(rules, graph).contains(atom) implies admitted(
            rest,
            graph,
        ).union(admitted_by(last, graph)).contains(atom) by {
            let i = choose|i: int|
                0 <= i < rules.len() && admitted_by(#[trigger] rules[i], graph).contains(atom);
            if i < rest.len() {
                assert(admitted_by(rest[i], graph).contains(atom));
            }
        }
        vstd::set_lib::lemma_len_subset(
            admitted(rules, graph),
            admitted(rest, graph).union(admitted_by(last, graph)),
        );
    }
}

proof fn range_of(rule: Json) -> (r: (Seq<char>, int, int))
    ensures
        is_for(rule, r.0, r.1, r.2),
        base(rule) == range_text(r.0, r.1, r.2),
        forall|protocol: Seq<char>, from: int, to: int| #[trigger]
            is_for(rule, protocol, from, to) ==> base(rule) == range_text(protocol, from, to),
{
    let protocol = match rule.get("protocol"@) {
        Some(Json::Text(said)) => if said == "all"@ {
            "-1"@
        } else {
            said
        },
        _ => "-1"@,
    };
    (
        protocol,
        crate::diff::rules::number_at(rule, "from_port"@),
        crate::diff::rules::number_at(rule, "to_port"@),
    )
}

/// What a group means by the groups it trusts: where the graph has all of them, its meaning is a list
/// with one entry for each thing that carries a trusted group, for each protocol and ports on which a
/// rule trusts that group, and with no other entry.
pub proof fn a_group_means_its_members(subject: Observed, graph: Seq<Observed>, atom: Seq<char>)
    requires
        forall|source: Seq<char>| #[trigger]
            is_trusted(rules_of(subject), source) ==> has_group(graph, source),
    ensures
        SgMembership.meaning(subject, graph) matches Ok(value) && (is_item(value, atom)
            <==> exists|
            i: int,
            j: int,
            source: Seq<char>,
            protocol: Seq<char>,
            from: int,
            to: int,
        |
            0 <= i < rules_of(subject).len() && #[trigger] lets_in_member(
                rules_of(subject)[i],
                graph,
                j,
                source,
                protocol,
                from,
                to,
                atom,
            )),
{
    let rules = rules_of(subject);
    let groups = trusted_groups(rules);
    assert(rules == ingress(subject));
    absent_in_words(graph, groups);
    if let Some(group) = first_absent(graph, groups) {
        trusted_in_words(rules, group);
        assert(is_trusted(rules, group));
    }
    let set = admitted(rules, graph);
    admitted_is_finite(rules, graph);
    array_holds(set, atom);
    if set.contains(atom) {
        let i = choose|i: int|
            0 <= i < rules.len() && admitted_by(#[trigger] rules[i], graph).contains(atom);
        let rule = rules[i];
        let source = choose|source: Seq<char>| #[trigger]
            trusts(rule, source) && member_atoms(rule, graph, source).contains(atom);
        let member = choose|member: Seq<char>| #[trigger]
            members_of(graph, source).contains(member) && atom == member_atom(rule, member);
        members_in_words(graph, source, member);
        let j = choose|j: int|
            0 <= j < graph.len() && carries(#[trigger] graph[j], source) && graph[j].cloud_id
                == member;
        let (protocol, from, to) = range_of(rule);
        assert(lets_in_member(rules[i], graph, j, source, protocol, from, to, atom));
    }
    if exists|
        i: int,
        j: int,
        source: Seq<char>,
        protocol: Seq<char>,
        from: int,
        to: int,
    |
        0 <= i < rules.len() && #[trigger] lets_in_member(
            rules[i],
            graph,
            j,
            source,
            protocol,
            from,
            to,
            atom,
        ) {
        let (i, j, source, protocol, from, to) = choose|
            i: int,
            j: int,
            source: Seq<char>,
            protocol: Seq<char>,
            from: int,
            to: int,
        |
            0 <= i < rules.len() && #[trigger] lets_in_member(
                rules[i],
                graph,
                j,
                source,
                protocol,
                from,
                to,
                atom,
            );
        let rule = rules[i];
        let known = range_of(rule);
        members_in_words(graph, source, graph[j].cloud_id);
        assert(members_of(graph, source).contains(graph[j].cloud_id));
        assert(atom == member_atom(rule, graph[j].cloud_id));
        assert(has_text(rule.get("security_groups"@), source));
        assert(trusts(rule, source));
        assert(member_atoms(rule, graph, source).contains(atom));
        assert(admitted_by(rules[i], graph).contains(atom));
    }
}

/// A group that trusts a group that the graph has not means nothing that can be said, and the reason
/// names such a group.
pub proof fn a_group_with_an_unknown_member_group(
    subject: Observed,
    graph: Seq<Observed>,
    source: Seq<char>,
)
    requires
        is_trusted(rules_of(subject), source),
        !has_group(graph, source),
    ensures
        exists|group: Seq<char>|
            is_trusted(rules_of(subject), group) && !#[trigger] has_group(graph, group)
                && SgMembership.meaning(subject, graph) == Err::<Json, _>(
                "rule references security group `"@ + group + "`, which is not present"@,
            ),
{
    let rules = rules_of(subject);
    let groups = trusted_groups(rules);
    absent_in_words(graph, groups);
    trusted_in_words(rules, source);
    if first_absent(graph, groups) is None {
        let i = choose|i: int| 0 <= i < groups.len() && groups[i] == source;
        assert(has_group(graph, groups[i]));
    }
    let group = first_absent(graph, groups)->0;
    trusted_in_words(rules, group);
    assert(!has_group(graph, group));
}

proof fn sources_are_finite(rule: Json, key: Seq<char>, tag: Seq<char>)
    ensures
        source_atoms(rule, key, tag).finite(),
{
    let list = listed_texts(rule.get(key)).map_values(
        |source: Seq<char>| source_atom(rule, tag, source),
    );
    assert forall|atom: Seq<char>| #[trigger]
        source_atoms(rule, key, tag).contains(atom) implies list.contains(atom) by {
        let source = choose|source: Seq<char>| #[trigger]
            has_text(rule.get(key), source) && atom == source_atom(rule, tag, source);
        if let Some(Json::Array(items)) = rule.get(key) {
            texts_among_members(items, source);
            let i = choose|i: int| 0 <= i < texts_among(items).len() && texts_among(items)[i]
                == source;
            assert(list[i] == atom);
        }
    }
    finite_within(source_atoms(rule, key, tag), list);
}

proof fn atoms_are_finite(rules: Seq<Json>)
    ensures
        list_atoms(rules).finite(),
    decreases rules.len(),
{
    if rules.len() == 0 {
        assert(list_atoms(rules) =~= Set::empty());
    } else {
        let rest = rules.drop_last();
        let last = rules.last();
        atoms_are_finite(rest);
        sources_are_finite(last, "cidr_blocks"@, "cidr"@);
        sources_are_finite(last, "ipv6_cidr_blocks"@, "cidr6"@);
        sources_are_finite(last, "prefix_list_ids"@, "pl"@);
        sources_are_finite(last, "security_groups"@, "sg"@);
        assert(rule_atoms(last).finite());
        assert forall|atom: Seq<char>| list_atoms(rules).contains(atom) implies list_atoms(
            rest,
        ).union(rule_atoms(last)).contains(atom) by {
            let i = choose|i: int|
                0 <= i < rules.len() && rule_atoms(#[trigger] rules[i]).contains(atom);
            if i < rest.len() {
                assert(rule_atoms(rest[i]).contains(atom));
            }
        }
        vstd::set_lib::lemma_len_subset(
            list_atoms(rules),
            list_atoms(rest).union(rule_atoms(last)),
        );
    }
}

proof fn exposed_is_finite(graph: Seq<Observed>, groups: Seq<Seq<char>>)
    ensures
        exposed_by(graph, groups).finite(),
    decreases groups.len(),
{
    if groups.len() == 0 {
        assert(exposed_by(graph, groups) =~= Set::empty());
    } else {
        let rest = groups.drop_last();
        let last = groups.last();
        exposed_is_finite(graph, rest);
        let own = match observation(graph, Kind::AwsSecurityGroup, last) {
            Some(group) => list_atoms(ingress(group)),
            None => Set::empty(),
        };
        if let Some(group) = observation(graph, Kind::AwsSecurityGroup, last) {
            atoms_are_finite(ingress(group));
        }
        assert forall|atom: Seq<char>| exposed_by(graph, groups).contains(
            atom,
        ) implies exposed_by(graph, rest).union(own).contains(atom) by {
            let i = choose|i: int|
                0 <= i < groups.len() && (observation(
                    graph,
                    Kind::AwsSecurityGroup,
                    #[trigger] groups[i],
                ) matches Some(group) && list_atoms(ingress(group)).contains(atom));
            if i < rest.len() {
                assert(rest[i] == groups[i]);
            }
        }
        vstd::set_lib::lemma_len_subset(
            exposed_by(graph, groups),
            exposed_by(graph, rest).union(own),
        );
    }
}

/// An instance is attached to `group`.
pub open spec fn is_attached(subject: Observed, group: Seq<char>) -> bool {
    lists(Json::Object(subject.attributes), "vpc_security_group_ids"@, group)
}

/// What an instance is exposed to: where the graph has all the groups that it is attached to, its
/// meaning is a list of the atoms of their ingress rules, and of nothing else.
pub proof fn an_instance_means_the_rules_of_its_groups(
    subject: Observed,
    graph: Seq<Observed>,
    atom: Seq<char>,
)
    requires
        forall|group: Seq<char>| #[trigger]
            is_attached(subject, group) ==> has_group(graph, group),
    ensures
        InstanceExposure.meaning(subject, graph) matches Ok(value) && (is_item(value, atom)
            <==> exists|group: Seq<char>| #[trigger]
            is_attached(subject, group) && (observation(graph, Kind::AwsSecurityGroup, group)
                matches Some(node) && atoms(Json::Array(rules_of(node))).contains(atom))),
{
    let groups = attached(subject);
    let value = Json::Object(subject.attributes).get("vpc_security_group_ids"@);
    assert forall|group: Seq<char>| #[trigger] is_attached(subject, group) <==> groups.contains(
        group,
    ) by {
        if let Some(Json::Array(items)) = value {
            texts_among_members(items, group);
        }
    }
    absent_in_words(graph, groups);
    if let Some(group) = first_absent(graph, groups) {
        assert(is_attached(subject, group));
    }
    exposed_is_finite(graph, groups);
    let set = exposed_by(graph, groups);
    array_holds(set, atom);
    if set.contains(atom) {
        let i = choose|i: int|
            0 <= i < groups.len() && (observation(
                graph,
                Kind::AwsSecurityGroup,
                #[trigger] groups[i],
            ) matches Some(group) && list_atoms(ingress(group)).contains(atom));
        assert(is_attached(subject, groups[i]));
    }
    if exists|group: Seq<char>| #[trigger]
        is_attached(subject, group) && (observation(graph, Kind::AwsSecurityGroup, group) matches
            Some(node) && atoms(Json::Array(rules_of(node))).contains(atom)) {
        let group = choose|group: Seq<char>| #[trigger]
            is_attached(subject, group) && (observation(graph, Kind::AwsSecurityGroup, group)
                matches Some(node) && atoms(Json::Array(rules_of(node))).contains(atom));
        let i = choose|i: int| 0 <= i < groups.len() && groups[i] == group;
        let node = observation(graph, Kind::AwsSecurityGroup, groups[i])->0;
        assert(rules_of(node) == ingress(node));
        assert(set.contains(atom));
    }
}

/// An instance that is attached to a group that the graph has not means nothing that can be said, and
/// the reason names such a group.
pub proof fn an_instance_with_an_unknown_group(
    subject: Observed,
    graph: Seq<Observed>,
    source: Seq<char>,
)
    requires
        is_attached(subject, source),
        !has_group(graph, source),
    ensures
        exists|group: Seq<char>|
            is_attached(subject, group) && !#[trigger] has_group(graph, group)
                && InstanceExposure.meaning(subject, graph) == Err::<Json, _>(
                "attached to security group `"@ + group + "`, which is not present"@,
            ),
{
    let groups = attached(subject);
    let value = Json::Object(subject.attributes).get("vpc_security_group_ids"@);
    if let Some(Json::Array(items)) = value {
        texts_among_members(items, source);
        absent_in_words(graph, groups);
        if first_absent(graph, groups) is None {
            let i = choose|i: int| 0 <= i < groups.len() && groups[i] == source;
            assert(has_group(graph, groups[i]));
        }
        let group = first_absent(graph, groups)->0;
        texts_among_members(items, group);
        assert(!has_group(graph, group));
    }
}

proof fn chain_texts_are_finite(chains: Seq<Seq<Seq<char>>>)
    ensures
        chain_atoms(chains.to_set()).finite(),
{
    let list = chains.map_values(|chain: Seq<Seq<char>>| chain_atom(chain));
    assert forall|atom: Seq<char>| #[trigger]
        chain_atoms(chains.to_set()).contains(atom) implies list.contains(atom) by {
        let chain = choose|chain: Seq<Seq<char>>| #[trigger]
            chains.to_set().contains(chain) && atom == chain_atom(chain);
        let i = choose|i: int| 0 <= i < chains.len() && chains[i] == chain;
        assert(list[i] == atom);
    }
    finite_within(chain_atoms(chains.to_set()), list);
}

/// What the internet means to a resource: a list with one entry for each chain by which it is
/// reached, spelled out from the group that lets the internet in to the resource, and with no other.
pub proof fn reachability_means_the_chains(
    subject: Observed,
    graph: Seq<Observed>,
    atom: Seq<char>,
)
    ensures
        InternetReachability.meaning(subject, graph) matches Ok(value) && (is_item(value, atom)
            <==> exists|chain: Seq<Seq<char>>| #[trigger]
            internet_chains(subject, graph).contains(chain) && atom == "via:"@ + joined(
                chain,
                ">"@,
            )),
{
    every_chain_is_found(subject, graph);
    chain_texts_are_finite(found_chains(subject, graph));
    array_holds(chain_atoms(internet_chains(subject, graph)), atom);
}

} // verus!
