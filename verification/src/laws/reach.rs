//! How the internet gets to a resource.

use vstd::prelude::*;

use crate::collector::{observation, observation_is_of_the_resource, Observed};
use crate::diff::rules::{has_text, number_at};
use crate::diff::semantic::graph::{
    ids_of, nodes_of, references, referrers_are_finite, referrers_of,
};
use crate::diff::semantic::reachability::{
    ingress, listed_at, member_steps, numbers_stay, rule_ports, steps_from, trust_steps,
    trusted_ports, trusting, trusting_among, PortSpec, Ports, Step,
};
use crate::json::{texts_among_members, Json};
use crate::laws::meaning::{carries, is_trusted, rules_of};
use crate::laws::{counts, lists};
use crate::ordered::{finite_is_listed, listing};
use crate::types::resource::Kind;

verus! {

/// A rule is for these ports. The four protocols that have names are known by their numbers, a rule
/// that names no protocol is for all of them, and any other protocol is known as the rule has it.
pub open spec fn is_port_of(rule: Json, ports: Ports) -> bool {
    &&& counts(rule, "from_port"@, ports.from)
    &&& counts(rule, "to_port"@, ports.to)
    &&& match rule.get("protocol"@) {
        Some(Json::Text(protocol)) => {
            ||| protocol == "tcp"@ && ports.protocol == "6"@
            ||| protocol == "udp"@ && ports.protocol == "17"@
            ||| protocol == "icmp"@ && ports.protocol == "1"@
            ||| protocol == "icmpv6"@ && ports.protocol == "58"@
            ||| protocol != "tcp"@ && protocol != "udp"@ && protocol != "icmp"@ && protocol
                != "icmpv6"@ && ports.protocol == protocol
        },
        _ => ports.protocol == "-1"@,
    }
}

/// The group at the end of a step is one of the graph, has rules that trust `source`, and is stepped
/// to on just the ports of those rules.
pub open spec fn is_trust(graph: Seq<Observed>, source: Seq<char>, step: Step) -> bool {
    &&& step.kind == Kind::AwsSecurityGroup
    &&& observation(graph, Kind::AwsSecurityGroup, step.id) matches Some(group) && is_trusted(
        rules_of(group),
        source,
    ) && forall|ports: Ports| #[trigger]
        step.ports.contains(ports) <==> exists|i: int|
            0 <= i < rules_of(group).len() && lists(
                #[trigger] rules_of(group)[i],
                "security_groups"@,
                source,
            ) && is_port_of(rules_of(group)[i], ports)
}

/// The graph has what is at the end of a step, and it carries the group `group`.
pub open spec fn is_membership(graph: Seq<Observed>, group: Seq<char>, step: Step) -> bool {
    exists|j: int|
        0 <= j < graph.len() && (#[trigger] graph[j]).kind == step.kind && graph[j].cloud_id
            == step.id && carries(graph[j], group)
}

/// The graph has the target group at the end of a step, and it is registered with `balancer`.
pub open spec fn is_forwarding(graph: Seq<Observed>, balancer: Seq<char>, step: Step) -> bool {
    step.kind == Kind::AwsLbTargetGroup && exists|j: int|
        0 <= j < graph.len() && (#[trigger] graph[j]).kind == Kind::AwsLbTargetGroup
            && graph[j].cloud_id == step.id && lists(
            Json::Object(graph[j].attributes),
            "load_balancer_arns"@,
            balancer,
        )
}

/// What can be stepped to from `node`, which was reached on `ports`.
///
/// From a group: what carries it, on the same ports. From what carries groups: the groups whose rules
/// trust one of them, on the ports of those rules. From a load balancer, besides, its target groups,
/// on the same ports. From a target group: its targets, over TCP on its own port.
pub open spec fn is_step(graph: Seq<Observed>, node: Observed, ports: Seq<Ports>, step: Step) -> bool {
    let value = Json::Object(node.attributes);
    match node.kind {
        Kind::AwsSecurityGroup => is_membership(graph, node.cloud_id, step) && step.ports == ports,
        Kind::AwsLoadBalancer => {
            ||| exists|source: Seq<char>| #[trigger]
                is_trust(graph, source, step) && lists(value, "security_groups"@, source)
            ||| is_forwarding(graph, node.cloud_id, step) && step.ports == ports
        },
        Kind::AwsLbTargetGroup => {
            &&& step.kind == Kind::AwsInstance
            &&& lists(value, "targets"@, step.id)
            &&& step.ports.len() == 1 && step.ports[0].protocol == "6"@ && step.ports[0].from
                == step.ports[0].to && counts(value, "port"@, step.ports[0].from)
        },
        _ => (node.kind == Kind::AwsInstance || node.kind == Kind::AwsLambdaFunction || node.kind
            == Kind::AwsDbInstance || node.kind == Kind::AwsEcsService) && exists|
            source: Seq<char>,
        | #[trigger]
            is_trust(graph, source, step) && lists(value, "vpc_security_group_ids"@, source),
    }
}

/// The nodes of a kind are what the graph has for their cloud IDs.
pub proof fn nodes_in_words(graph: Seq<Observed>, kind: Kind, node: Observed)
    ensures
        nodes_of(graph, kind).contains(node) <==> observation(graph, kind, node.cloud_id) == Some(
            node,
        ),
{
    let ids = ids_of(graph, kind);
    let all = graph.map_values(|node: Observed| node.cloud_id);
    assert forall|id: Seq<char>| ids.contains(id) implies all.to_set().contains(id) by {
        let i = choose|i: int|
            0 <= i < graph.len() && (#[trigger] graph[i]).kind == kind && graph[i].cloud_id == id;
        assert(all[i] == id);
    }
    vstd::seq_lib::seq_to_set_is_finite(all);
    vstd::set_lib::lemma_len_subset(ids, all.to_set());
    finite_is_listed::<String>(ids);
    let listed = listing::<String>(ids);
    let nodes = nodes_of(graph, kind);
    if nodes.contains(node) {
        let i = choose|i: int| 0 <= i < nodes.len() && nodes[i] == node;
        assert(listed.to_set().contains(listed[i]));
        observation_is_of_the_resource(graph, kind, listed[i]);
    }
    if observation(graph, kind, node.cloud_id) == Some(node) {
        observation_is_of_the_resource(graph, kind, node.cloud_id);
        let k = choose|k: int| 0 <= k < graph.len() && graph[k] == node;
        assert(graph[k].kind == kind);
        assert(ids.contains(node.cloud_id));
        assert(listed.to_set().contains(node.cloud_id));
        let i = choose|i: int| 0 <= i < listed.len() && listed[i] == node.cloud_id;
        assert(nodes[i] == node);
    }
}

/// The ports of a rule are the ones that it is for.
pub proof fn port_in_words(rule: Json, ports: Ports)
    ensures
        is_port_of(rule, ports) <==> ports == rule_ports(rule),
{
    numbers_stay("-1"@);
    reveal_strlit("tcp");
    reveal_strlit("udp");
    reveal_strlit("icmp");
    reveal_strlit("icmpv6");
    assert("tcp"@[0] != "udp"@[0]);
    assert("icmp"@.len() == 4 && "icmpv6"@.len() == 6 && "tcp"@.len() == 3 && "udp"@.len() == 3);
    assert(counts(rule, "from_port"@, ports.from) <==> ports.from == number_at(rule, "from_port"@));
    assert(counts(rule, "to_port"@, ports.to) <==> ports.to == number_at(rule, "to_port"@));
    let other = rule_ports(rule);
    assert(ports == other <==> ports.protocol == other.protocol && ports.from == other.from
        && ports.to == other.to);
}

proof fn trusted_ports_in_words(group: Observed, source: Seq<char>)
    ensures
        forall|ports: Ports| #[trigger]
            listing::<PortSpec>(trusted_ports(ingress(group), source)).contains(ports)
                <==> exists|i: int|
                0 <= i < rules_of(group).len() && lists(
                    #[trigger] rules_of(group)[i],
                    "security_groups"@,
                    source,
                ) && is_port_of(rules_of(group)[i], ports),
        trusted_ports(ingress(group), source) == Set::<Ports>::empty() <==> !is_trusted(
            rules_of(group),
            source,
        ),
{
    let rules = rules_of(group);
    let set = trusted_ports(rules, source);
    let all = rules.map_values(|rule: Json| rule_ports(rule));
    assert forall|ports: Ports| set.contains(ports) implies all.to_set().contains(ports) by {
        let i = choose|i: int|
            0 <= i < rules.len() && has_text((#[trigger] rules[i]).get("security_groups"@), source)
                && ports == rule_ports(rules[i]);
        assert(all[i] == ports);
    }
    vstd::seq_lib::seq_to_set_is_finite(all);
    vstd::set_lib::lemma_len_subset(set, all.to_set());
    finite_is_listed::<PortSpec>(set);
    let listed = listing::<PortSpec>(set);
    assert forall|ports: Ports| #[trigger] listed.contains(ports) <==> exists|i: int|
        0 <= i < rules.len() && lists(#[trigger] rules[i], "security_groups"@, source)
            && is_port_of(rules[i], ports) by {
        assert(listed.to_set().contains(ports) <==> set.contains(ports));
        if set.contains(ports) {
            let i = choose|i: int|
                0 <= i < rules.len() && has_text(
                    (#[trigger] rules[i]).get("security_groups"@),
                    source,
                ) && ports == rule_ports(rules[i]);
            port_in_words(rules[i], ports);
            assert(lists(rules[i], "security_groups"@, source));
        }
        if exists|i: int|
            0 <= i < rules.len() && lists(#[trigger] rules[i], "security_groups"@, source)
                && is_port_of(rules[i], ports) {
            let i = choose|i: int|
                0 <= i < rules.len() && lists(#[trigger] rules[i], "security_groups"@, source)
                    && is_port_of(rules[i], ports);
            port_in_words(rules[i], ports);
            assert(has_text(rules[i].get("security_groups"@), source));
        }
    }
    if is_trusted(rules, source) {
        let i = choose|i: int|
            0 <= i < rules.len() && lists(#[trigger] rules[i], "security_groups"@, source);
        assert(has_text(rules[i].get("security_groups"@), source));
        assert(set.contains(rule_ports(rules[i])));
    } else {
        assert forall|ports: Ports| !set.contains(ports) by {
            if set.contains(ports) {
                let i = choose|i: int|
                    0 <= i < rules.len() && has_text(
                        (#[trigger] rules[i]).get("security_groups"@),
                        source,
                    ) && ports == rule_ports(rules[i]);
                assert(lists(rules[i], "security_groups"@, source));
            }
        }
        assert(set =~= Set::empty());
    }
}

/// The groups among `groups` that trust `source` are those, with those ports.
proof fn trusting_in_words(groups: Seq<Observed>, source: Seq<char>, id: Seq<char>, on: Seq<Ports>)
    ensures
        trusting_among(groups, source).contains((id, on)) <==> exists|i: int|
            0 <= i < groups.len() && (#[trigger] groups[i]).cloud_id == id && is_trusted(
                rules_of(groups[i]),
                source,
            ) && on == listing::<PortSpec>(trusted_ports(ingress(groups[i]), source)),
    decreases groups.len(),
{
    broadcast use vstd::seq_lib::group_seq_properties;

    if groups.len() > 0 {
        let rest = groups.drop_last();
        let last = groups.last();
        let n = groups.len() - 1;
        trusting_in_words(rest, source, id, on);
        trusted_ports_in_words(last, source);
        if trusting_among(groups, source).contains((id, on)) {
            if trusting_among(rest, source).contains((id, on)) {
                let i = choose|i: int|
                    0 <= i < rest.len() && (#[trigger] rest[i]).cloud_id == id && is_trusted(
                        rules_of(rest[i]),
                        source,
                    ) && on == listing::<PortSpec>(trusted_ports(ingress(rest[i]), source));
                assert(groups[i] == rest[i]);
            } else {
                assert(groups[n] == last);
            }
        }
        if exists|i: int|
            0 <= i < groups.len() && (#[trigger] groups[i]).cloud_id == id && is_trusted(
                rules_of(groups[i]),
                source,
            ) && on == listing::<PortSpec>(trusted_ports(ingress(groups[i]), source)) {
            let i = choose|i: int|
                0 <= i < groups.len() && (#[trigger] groups[i]).cloud_id == id && is_trusted(
                    rules_of(groups[i]),
                    source,
                ) && on == listing::<PortSpec>(trusted_ports(ingress(groups[i]), source));
            if i < n {
                assert(rest[i] == groups[i]);
            }
        }
    }
}

/// Some step by trust from `source` ends at `id`, and every such step is one.
proof fn trust_in_words(graph: Seq<Observed>, source: Seq<char>, id: Seq<char>)
    ensures
        forall|on: Seq<Ports>| #[trigger]
            trusting(graph, source).contains((id, on)) ==> is_trust(
                graph,
                source,
                Step { kind: Kind::AwsSecurityGroup, id, ports: on },
            ),
        (observation(graph, Kind::AwsSecurityGroup, id) matches Some(group) && is_trusted(
            rules_of(group),
            source,
        )) ==> exists|on: Seq<Ports>| #[trigger] trusting(graph, source).contains((id, on)),
{
    let groups = nodes_of(graph, Kind::AwsSecurityGroup);
    assert forall|on: Seq<Ports>| #[trigger]
        trusting(graph, source).contains((id, on)) implies is_trust(
        graph,
        source,
        Step { kind: Kind::AwsSecurityGroup, id, ports: on },
    ) by {
        trusting_in_words(groups, source, id, on);
        let i = choose|i: int|
            0 <= i < groups.len() && (#[trigger] groups[i]).cloud_id == id && is_trusted(
                rules_of(groups[i]),
                source,
            ) && on == listing::<PortSpec>(trusted_ports(ingress(groups[i]), source));
        nodes_in_words(graph, Kind::AwsSecurityGroup, groups[i]);
        trusted_ports_in_words(groups[i], source);
    }
    if let Some(group) = observation(graph, Kind::AwsSecurityGroup, id) {
        if is_trusted(rules_of(group), source) {
            observation_is_of_the_resource(graph, Kind::AwsSecurityGroup, id);
            nodes_in_words(graph, Kind::AwsSecurityGroup, group);
            let on = listing::<PortSpec>(trusted_ports(ingress(group), source));
            let i = choose|i: int| 0 <= i < groups.len() && groups[i] == group;
            assert(groups[i].cloud_id == id);
            trusting_in_words(groups, source, id, on);
            assert(trusting(graph, source).contains((id, on)));
        }
    }
}

proof fn trust_steps_in_words(graph: Seq<Observed>, sources: Seq<Seq<char>>, step: Step)
    ensures
        trust_steps(graph, sources).contains(step) <==> step.kind == Kind::AwsSecurityGroup
            && exists|source: Seq<char>| #[trigger]
            sources.contains(source) && trusting(graph, source).contains((step.id, step.ports)),
    decreases sources.len(),
{
    broadcast use vstd::seq_lib::group_seq_properties;

    if sources.len() > 0 {
        let rest = sources.drop_last();
        let last = sources.last();
        trust_steps_in_words(graph, rest, step);
        let groups = trusting(graph, last);
        let more = groups.map_values(
            |group: (Seq<char>, Seq<Ports>)|
                Step { kind: Kind::AwsSecurityGroup, id: group.0, ports: group.1 },
        );
        assert(more.contains(step) <==> step.kind == Kind::AwsSecurityGroup && groups.contains(
            (step.id, step.ports),
        )) by {
            if more.contains(step) {
                let i = choose|i: int| 0 <= i < more.len() && more[i] == step;
                assert(groups[i] == (step.id, step.ports));
            }
            if step.kind == Kind::AwsSecurityGroup && groups.contains((step.id, step.ports)) {
                let i = choose|i: int| 0 <= i < groups.len() && groups[i] == (step.id, step.ports);
                assert(more[i] == step);
            }
        }
        assert(trust_steps(graph, sources) == trust_steps(graph, rest) + more);
        assert(sources =~= rest.push(last));
        assert forall|source: Seq<char>| #[trigger]
            sources.contains(source) <==> rest.contains(source) || source == last by {}
        assert(sources.contains(last));
        if exists|source: Seq<char>| #[trigger]
            rest.contains(source) && trusting(graph, source).contains((step.id, step.ports)) {
            let source = choose|source: Seq<char>| #[trigger]
                rest.contains(source) && trusting(graph, source).contains((step.id, step.ports));
            assert(sources.contains(source));
        }
        if exists|source: Seq<char>| #[trigger]
            sources.contains(source) && trusting(graph, source).contains((step.id, step.ports)) {
            let source = choose|source: Seq<char>| #[trigger]
                sources.contains(source) && trusting(graph, source).contains((step.id, step.ports));
            assert(rest.contains(source) || source == last);
        }
    }
}

proof fn member_steps_in_words(
    graph: Seq<Observed>,
    target: Seq<char>,
    kind: Kind,
    ports: Seq<Ports>,
    step: Step,
)
    ensures
        member_steps(graph, target, kind, ports).contains(step) <==> step.kind == kind && step.ports
            == ports && exists|j: int|
            0 <= j < graph.len() && (#[trigger] graph[j]).kind == kind && graph[j].cloud_id
                == step.id && references(graph[j], target),
{
    let set = referrers_of(graph, target, kind);
    referrers_are_finite(graph, target, kind);
    finite_is_listed::<String>(set);
    let listed = listing::<String>(set);
    let steps = member_steps(graph, target, kind, ports);
    assert(listed.to_set().contains(step.id) <==> set.contains(step.id));
    if steps.contains(step) {
        let i = choose|i: int| 0 <= i < steps.len() && steps[i] == step;
        assert(listed[i] == step.id);
        assert(listed.contains(step.id));
    }
    if step.kind == kind && step.ports == ports && set.contains(step.id) {
        let i = choose|i: int| 0 <= i < listed.len() && listed[i] == step.id;
        assert(steps[i] == step);
    }
}

proof fn listed_in_words(node: Observed, field: Seq<char>, text: Seq<char>)
    ensures
        listed_at(node, field).contains(text) <==> lists(
            Json::Object(node.attributes),
            field,
            text,
        ),
{
    if let Some(Json::Array(items)) = Json::Object(node.attributes).get(field) {
        texts_among_members(items, text);
    }
}

/// Steps are taken only where they lead somewhere, and on the right ports: whatever one hop reaches is
/// stepped to.
pub proof fn every_hop_is_a_step(
    graph: Seq<Observed>,
    node: Observed,
    ports: Seq<Ports>,
    step: Step,
)
    requires
        steps_from(graph, node, ports).contains(step),
    ensures
        is_step(graph, node, ports, step),
{
    hops_in_words(graph, node, ports, step);
    if step.kind == Kind::AwsSecurityGroup && node.kind != Kind::AwsSecurityGroup && node.kind
        != Kind::AwsLbTargetGroup {
        let field = if node.kind == Kind::AwsLoadBalancer {
            "security_groups"@
        } else {
            "vpc_security_group_ids"@
        };
        let sources = listed_at(node, field);
        trust_steps_in_words(graph, sources, step);
        let source = choose|source: Seq<char>| #[trigger]
            sources.contains(source) && trusting(graph, source).contains((step.id, step.ports));
        listed_in_words(node, field, source);
        trust_in_words(graph, source, step.id);
        assert(is_trust(graph, source, step));
    }
}

/// The steps by membership, by forwarding and by registration, and where the steps by trust come from.
proof fn hops_in_words(graph: Seq<Observed>, node: Observed, ports: Seq<Ports>, step: Step)
    ensures
        node.kind == Kind::AwsSecurityGroup ==> (steps_from(graph, node, ports).contains(step)
            <==> is_step(graph, node, ports, step)),
        node.kind == Kind::AwsLbTargetGroup ==> (steps_from(graph, node, ports).contains(step)
            <==> is_step(graph, node, ports, step)),
        node.kind == Kind::AwsLoadBalancer ==> (steps_from(graph, node, ports).contains(step)
            <==> trust_steps(graph, listed_at(node, "security_groups"@)).contains(step) || (
        is_forwarding(graph, node.cloud_id, step) && step.ports == ports)),
        node.kind == Kind::AwsInstance || node.kind == Kind::AwsLambdaFunction || node.kind
            == Kind::AwsDbInstance || node.kind == Kind::AwsEcsService ==> steps_from(
            graph,
            node,
            ports,
        ) == trust_steps(graph, listed_at(node, "vpc_security_group_ids"@)),
        node.kind == Kind::AwsLoadBalancer || node.kind == Kind::AwsInstance || node.kind
            == Kind::AwsLambdaFunction || node.kind == Kind::AwsDbInstance || node.kind
            == Kind::AwsEcsService || node.kind == Kind::AwsSecurityGroup || node.kind
            == Kind::AwsLbTargetGroup || !steps_from(graph, node, ports).contains(step),
        node.kind != Kind::AwsSecurityGroup && node.kind != Kind::AwsLbTargetGroup && node.kind
            != Kind::AwsLoadBalancer && steps_from(graph, node, ports).contains(step) ==> step.kind
            == Kind::AwsSecurityGroup,
        node.kind == Kind::AwsLoadBalancer && trust_steps(
            graph,
            listed_at(node, "security_groups"@),
        ).contains(step) ==> step.kind == Kind::AwsSecurityGroup,
{
    broadcast use vstd::seq_lib::group_seq_properties;

    let id = node.cloud_id;
    if node.kind == Kind::AwsSecurityGroup {
        member_steps_in_words(graph, id, Kind::AwsInstance, ports, step);
        member_steps_in_words(graph, id, Kind::AwsLoadBalancer, ports, step);
        member_steps_in_words(graph, id, Kind::AwsLambdaFunction, ports, step);
        member_steps_in_words(graph, id, Kind::AwsDbInstance, ports, step);
        member_steps_in_words(graph, id, Kind::AwsEcsService, ports, step);
        assert forall|j: int| 0 <= j < graph.len() implies carries(#[trigger] graph[j], id) == (
        references(graph[j], id) && (graph[j].kind == Kind::AwsInstance || graph[j].kind
            == Kind::AwsLoadBalancer || graph[j].kind == Kind::AwsLambdaFunction || graph[j].kind
            == Kind::AwsDbInstance || graph[j].kind == Kind::AwsEcsService)) by {}
        if steps_from(graph, node, ports).contains(step) {
            let j = choose|j: int|
                0 <= j < graph.len() && (#[trigger] graph[j]).kind == step.kind && graph[j].cloud_id
                    == step.id && references(graph[j], id);
            assert(carries(graph[j], id));
        }
        if is_step(graph, node, ports, step) {
            let j = choose|j: int|
                0 <= j < graph.len() && (#[trigger] graph[j]).kind == step.kind && graph[j].cloud_id
                    == step.id && carries(graph[j], id);
            assert(references(graph[j], id));
        }
    } else if node.kind == Kind::AwsLoadBalancer {
        member_steps_in_words(graph, id, Kind::AwsLbTargetGroup, ports, step);
        trust_steps_in_words(graph, listed_at(node, "security_groups"@), step);
        assert forall|j: int|
            0 <= j < graph.len() && (#[trigger] graph[j]).kind == Kind::AwsLbTargetGroup implies references(
            graph[j],
            id,
        ) == lists(Json::Object(graph[j].attributes), "load_balancer_arns"@, id) by {}
        if is_forwarding(graph, id, step) && step.ports == ports {
            let j = choose|j: int|
                0 <= j < graph.len() && (#[trigger] graph[j]).kind == Kind::AwsLbTargetGroup
                    && graph[j].cloud_id == step.id && lists(
                    Json::Object(graph[j].attributes),
                    "load_balancer_arns"@,
                    id,
                );
            assert(references(graph[j], id));
        }
        if member_steps(graph, id, Kind::AwsLbTargetGroup, ports).contains(step) {
            let j = choose|j: int|
                0 <= j < graph.len() && (#[trigger] graph[j]).kind == Kind::AwsLbTargetGroup
                    && graph[j].cloud_id == step.id && references(graph[j], id);
            assert(lists(Json::Object(graph[j].attributes), "load_balancer_arns"@, id));
        }
    } else if node.kind == Kind::AwsLbTargetGroup {
        let targets = listed_at(node, "targets"@);
        let steps = steps_from(graph, node, ports);
        listed_in_words(node, "targets"@, step.id);
        if steps.contains(step) {
            let i = choose|i: int| 0 <= i < steps.len() && steps[i] == step;
            assert(targets[i] == step.id);
        }
        if is_step(graph, node, ports, step) {
            let i = choose|i: int| 0 <= i < targets.len() && targets[i] == step.id;
            assert(steps[i].ports =~= step.ports);
            assert(steps[i] == step);
        }
    } else {
        trust_steps_in_words(graph, listed_at(node, "vpc_security_group_ids"@), step);
    }
}

/// Every step is taken: what can be stepped to, one hop reaches.
pub proof fn every_step_is_a_hop(graph: Seq<Observed>, node: Observed, ports: Seq<Ports>, step: Step)
    requires
        is_step(graph, node, ports, step),
    ensures
        exists|on: Seq<Ports>| #[trigger]
            steps_from(graph, node, ports).contains(
                Step { kind: step.kind, id: step.id, ports: on },
            ) && is_step(graph, node, ports, Step { kind: step.kind, id: step.id, ports: on }),
{
    hops_in_words(graph, node, ports, step);
    if node.kind == Kind::AwsSecurityGroup || node.kind == Kind::AwsLbTargetGroup || (node.kind
        == Kind::AwsLoadBalancer && is_forwarding(graph, node.cloud_id, step) && step.ports
        == ports) {
        assert(steps_from(graph, node, ports).contains(
            Step { kind: step.kind, id: step.id, ports: step.ports },
        ));
    } else {
        let field = if node.kind == Kind::AwsLoadBalancer {
            "security_groups"@
        } else {
            "vpc_security_group_ids"@
        };
        let sources = listed_at(node, field);
        let source = choose|source: Seq<char>| #[trigger]
            is_trust(graph, source, step) && lists(Json::Object(node.attributes), field, source);
        listed_in_words(node, field, source);
        trust_in_words(graph, source, step.id);
        let on = choose|on: Seq<Ports>| #[trigger]
            trusting(graph, source).contains((step.id, on));
        let found = Step { kind: step.kind, id: step.id, ports: on };
        trust_steps_in_words(graph, sources, found);
        hops_in_words(graph, node, ports, found);
        assert(is_trust(graph, source, found));
        assert(steps_from(graph, node, ports).contains(found));
    }
}

} // verus!
