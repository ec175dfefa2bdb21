//! Which chains lead from the internet to a resource.

use vstd::prelude::*;

use crate::collector::{observation, observation_is_of_the_resource, Observed};
use crate::diff::semantic::graph::nodes_of;
use crate::diff::semantic::nacl::{allows, Flow};
use crate::diff::semantic::reachability::{
    discovered, entries_among, facing, facing_among, fresh, hops_from, ingress, is_internet, is_walk,
    key_of, keys_of, linked, more_hops_only_append, ports_do_not_steer, reachable,
    reachable_is_reported, reported_is_reachable, rule_ports, sourced_from, steps_from, walked, Entry,
    EntryPoint, Hop, Ports, Step,
};
use crate::diff::semantic::relations::{
    admitting, chain_from, chain_of_entry, gets_to, governed, governs, internet_chains, lets_in,
    reached_from, subnet_verdict, subnets_of,
};
use crate::json::{texts_among_members, Json};
use crate::laws::meaning::{carries, rules_of};
use crate::laws::reach::{
    every_hop_is_a_step, every_step_is_a_hop, is_port_of, is_step, nodes_in_words, port_in_words,
};
use crate::laws::{lists, says};
use crate::ordered::{finite_is_listed, listing};
use crate::types::resource::Kind;

verus! {

/// The graph has the group `group`, and a rule of it is open to the whole internet of one address
/// family: from the source and on the ports of `entry`.
pub open spec fn is_open(graph: Seq<Observed>, group: Seq<char>, entry: Entry) -> bool {
    &&& entry.source_cidr == "0.0.0.0/0"@ || entry.source_cidr == "::/0"@
    &&& observation(graph, Kind::AwsSecurityGroup, group) matches Some(node) && exists|i: int|
        0 <= i < rules_of(node).len() && (lists(
            #[trigger] rules_of(node)[i],
            "cidr_blocks"@,
            entry.source_cidr,
        ) || lists(rules_of(node)[i], "ipv6_cidr_blocks"@, entry.source_cidr)) && is_port_of(
            rules_of(node)[i],
            entry.port,
        )
}

proof fn entries_in_words(rules: Seq<Json>, entry: Entry)
    ensures
        entries_among(rules).finite(),
        listing::<EntryPoint>(entries_among(rules)).contains(entry) <==> (entry.source_cidr
            == "0.0.0.0/0"@ || entry.source_cidr == "::/0"@) && exists|i: int|
            0 <= i < rules.len() && (lists(
                #[trigger] rules[i],
                "cidr_blocks"@,
                entry.source_cidr,
            ) || lists(rules[i], "ipv6_cidr_blocks"@, entry.source_cidr)) && is_port_of(
                rules[i],
                entry.port,
            ),
{
    let set = entries_among(rules);
    let four = rules.map_values(
        |rule: Json| Entry { source_cidr: "0.0.0.0/0"@, port: rule_ports(rule) },
    );
    let six = rules.map_values(
        |rule: Json| Entry { source_cidr: "::/0"@, port: rule_ports(rule) },
    );
    let all = four + six;
    assert forall|e: Entry| set.contains(e) implies all.to_set().contains(e) by {
        let i = choose|i: int|
            0 <= i < rules.len() && sourced_from(#[trigger] rules[i], e.source_cidr) && e.port
                == rule_ports(rules[i]);
        if e.source_cidr == "0.0.0.0/0"@ {
            assert(all[i] == e);
        } else {
            assert(all[four.len() + i] == e);
        }
    }
    vstd::seq_lib::seq_to_set_is_finite(all);
    vstd::set_lib::lemma_len_subset(set, all.to_set());
    finite_is_listed::<EntryPoint>(set);
    assert(listing::<EntryPoint>(set).to_set().contains(entry) <==> set.contains(entry));
    if set.contains(entry) {
        let i = choose|i: int|
            0 <= i < rules.len() && sourced_from(#[trigger] rules[i], entry.source_cidr)
                && entry.port == rule_ports(rules[i]);
        port_in_words(rules[i], entry.port);
        assert(lists(rules[i], "cidr_blocks"@, entry.source_cidr) || lists(
            rules[i],
            "ipv6_cidr_blocks"@,
            entry.source_cidr,
        ));
    }
    if is_internet(entry.source_cidr) && exists|i: int|
        0 <= i < rules.len() && (lists(#[trigger] rules[i], "cidr_blocks"@, entry.source_cidr)
            || lists(rules[i], "ipv6_cidr_blocks"@, entry.source_cidr)) && is_port_of(
            rules[i],
            entry.port,
        ) {
        let i = choose|i: int|
            0 <= i < rules.len() && (lists(#[trigger] rules[i], "cidr_blocks"@, entry.source_cidr)
                || lists(rules[i], "ipv6_cidr_blocks"@, entry.source_cidr)) && is_port_of(
                rules[i],
                entry.port,
            );
        port_in_words(rules[i], entry.port);
        assert(sourced_from(rules[i], entry.source_cidr));
    }
}

/// `entry` is an entry point of the group `id` among `found`.
pub open spec fn is_entry_of(
    found: Seq<(Seq<char>, Seq<Entry>)>,
    id: Seq<char>,
    entry: Entry,
) -> bool {
    exists|i: int| 0 <= i < found.len() && (#[trigger] found[i]).0 == id && found[i].1.contains(entry)
}

proof fn facing_in_words(groups: Seq<Observed>, id: Seq<char>, entry: Entry)
    ensures
        is_entry_of(facing_among(groups), id, entry) <==> exists|i: int|
            0 <= i < groups.len() && (#[trigger] groups[i]).cloud_id == id && listing::<EntryPoint>(
                entries_among(ingress(groups[i])),
            ).contains(entry),
    decreases groups.len(),
{
    if groups.len() > 0 {
        let rest = groups.drop_last();
        let last = groups.last();
        let n = groups.len() - 1;
        facing_in_words(rest, id, entry);
        entries_in_words(ingress(last), entry);
        let entries = entries_among(ingress(last));
        finite_is_listed::<EntryPoint>(entries);
        assert(listing::<EntryPoint>(entries).to_set().contains(entry) <==> entries.contains(
            entry,
        ));
        let before = facing_among(rest);
        let all = facing_among(groups);
        if is_entry_of(all, id, entry) {
            let i = choose|i: int|
                0 <= i < all.len() && (#[trigger] all[i]).0 == id && all[i].1.contains(entry);
            if i < before.len() {
                assert(before[i] == all[i]);
                assert(is_entry_of(before, id, entry));
                let k = choose|k: int|
                    0 <= k < rest.len() && (#[trigger] rest[k]).cloud_id == id && listing::<
                        EntryPoint,
                    >(entries_among(ingress(rest[k]))).contains(entry);
                assert(groups[k] == rest[k]);
            } else {
                assert(groups[n].cloud_id == id);
            }
        }
        if exists|i: int|
            0 <= i < groups.len() && (#[trigger] groups[i]).cloud_id == id && listing::<EntryPoint>(
                entries_among(ingress(groups[i])),
            ).contains(entry) {
            let k = choose|k: int|
                0 <= k < groups.len() && (#[trigger] groups[k]).cloud_id == id && listing::<
                    EntryPoint,
                >(entries_among(ingress(groups[k]))).contains(entry);
            if k < n {
                assert(rest[k] == groups[k]);
                assert(is_entry_of(before, id, entry));
                let i = choose|i: int|
                    0 <= i < before.len() && (#[trigger] before[i]).0 == id && before[i].1.contains(
                        entry,
                    );
                assert(all[i] == before[i]);
            } else {
                assert(entries.contains(entry));
                assert(all[before.len() as int].0 == id);
            }
        }
    }
}

/// The entry points that the internet has are the open rules of the groups, and no others.
pub proof fn entry_points_are_the_open_rules(graph: Seq<Observed>, group: Seq<char>, entry: Entry)
    ensures
        is_entry_of(facing(graph), group, entry) <==> is_open(graph, group, entry),
{
    let groups = nodes_of(graph, Kind::AwsSecurityGroup);
    facing_in_words(groups, group, entry);
    if is_entry_of(facing(graph), group, entry) {
        let i = choose|i: int|
            0 <= i < groups.len() && (#[trigger] groups[i]).cloud_id == group && listing::<
                EntryPoint,
            >(entries_among(ingress(groups[i]))).contains(entry);
        nodes_in_words(graph, Kind::AwsSecurityGroup, groups[i]);
        entries_in_words(ingress(groups[i]), entry);
        assert(ingress(groups[i]) == rules_of(groups[i]));
    }
    if is_open(graph, group, entry) {
        let node = observation(graph, Kind::AwsSecurityGroup, group)->0;
        observation_is_of_the_resource(graph, Kind::AwsSecurityGroup, group);
        nodes_in_words(graph, Kind::AwsSecurityGroup, node);
        let i = choose|i: int| 0 <= i < groups.len() && groups[i] == node;
        assert(groups[i].cloud_id == group);
        assert(ingress(node) == rules_of(node));
        entries_in_words(rules_of(node), entry);
    }
}

/// A resource runs in `subnet`: an EC2 instance names its one subnet, a Lambda function and an ECS
/// service list theirs, and of nothing else it is known.
pub open spec fn runs_in(subject: Observed, subnet: Seq<char>) -> bool {
    let value = Json::Object(subject.attributes);
    match subject.kind {
        Kind::AwsInstance => says(value, "subnet_id"@, subnet) && subnet.len() > 0,
        Kind::AwsLambdaFunction => lists(value, "subnet_ids"@, subnet),
        Kind::AwsEcsService => lists(value, "subnet_ids"@, subnet),
        _ => false,
    }
}

/// `acl` is a network ACL of the graph, and is that of a subnet that the subject runs in.
pub open spec fn guards(acl: Observed, subject: Observed, graph: Seq<Observed>) -> bool {
    &&& observation(graph, Kind::AwsNetworkAcl, acl.cloud_id) == Some(acl)
    &&& exists|subnet: Seq<char>| #[trigger]
        runs_in(subject, subnet) && lists(Json::Object(acl.attributes), "subnet_ids"@, subnet)
}

/// A network ACL lets traffic from `source` through on one of `ports`.
pub open spec fn passes(acl: Observed, source: Seq<char>, ports: Seq<Ports>) -> bool {
    exists|i: int|
        0 <= i < ports.len() && allows(
            rules_of(acl),
            Flow {
                source_cidr: source,
                protocol: (#[trigger] ports[i]).protocol,
                port_from: ports[i].from,
                port_to: ports[i].to,
            },
        )
}

/// Traffic is kept from a resource: there are network ACLs that guard it, and none lets it through.
pub open spec fn is_blocked(
    subject: Observed,
    graph: Seq<Observed>,
    source: Seq<char>,
    ports: Seq<Ports>,
) -> bool {
    &&& exists|acl: Observed| guards(acl, subject, graph)
    &&& forall|acl: Observed| #[trigger] guards(acl, subject, graph) ==> !passes(acl, source, ports)
}

proof fn guarding_in_words(acl: Observed, subject: Observed, graph: Seq<Observed>)
    ensures
        guards(acl, subject, graph) <==> nodes_of(graph, Kind::AwsNetworkAcl).contains(acl)
            && governs(acl, subnets_of(subject)),
{
    nodes_in_words(graph, Kind::AwsNetworkAcl, acl);
    let subnets = subnets_of(subject);
    assert forall|subnet: Seq<char>| #[trigger] runs_in(subject, subnet) <==> subnets.contains(
        subnet,
    ) by {
        if let Some(Json::Array(items)) = Json::Object(subject.attributes).get("subnet_ids"@) {
            texts_among_members(items, subnet);
        }
        if runs_in(subject, subnet) && subject.kind == Kind::AwsInstance {
            assert(subnets[0] == subnet);
        }
    }
    if guards(acl, subject, graph) {
        let subnet = choose|subnet: Seq<char>| #[trigger]
            runs_in(subject, subnet) && lists(Json::Object(acl.attributes), "subnet_ids"@, subnet);
        let i = choose|i: int| 0 <= i < subnets.len() && subnets[i] == subnet;
        assert(governs(acl, subnets)) by {
            assert(subnets[i] == subnet);
        }
    }
    if governs(acl, subnets) {
        let i = choose|i: int|
            0 <= i < subnets.len() && crate::diff::rules::has_text(
                Json::Object(acl.attributes).get("subnet_ids"@),
                #[trigger] subnets[i],
            );
        assert(subnets.contains(subnets[i]));
        assert(runs_in(subject, subnets[i]));
        assert(lists(Json::Object(acl.attributes), "subnet_ids"@, subnets[i]));
    }
}

proof fn passing_in_words(acl: Observed, source: Seq<char>, ports: Seq<Ports>)
    ensures
        passes(acl, source, ports) <==> lets_in(acl, source, ports),
{
    assert(ingress(acl) == rules_of(acl));
}

/// The subnet of a resource has the last word: traffic that its network ACLs all keep out is refused,
/// one that lets it through is enough, and where no network ACL is known nothing is said.
pub proof fn the_subnet_decides(
    subject: Observed,
    graph: Seq<Observed>,
    source: Seq<char>,
    ports: Seq<Ports>,
)
    ensures
        subnet_verdict(subject, graph, source, ports) == Some(false) <==> is_blocked(
            subject,
            graph,
            source,
            ports,
        ),
        subnet_verdict(subject, graph, source, ports) == Some(true) <==> exists|acl: Observed|
            #[trigger] guards(acl, subject, graph) && passes(acl, source, ports),
        subnet_verdict(subject, graph, source, ports) is None <==> forall|acl: Observed|
            !#[trigger] guards(acl, subject, graph),
{
    let acls = nodes_of(graph, Kind::AwsNetworkAcl);
    let subnets = subnets_of(subject);
    assert forall|acl: Observed| #[trigger] guards(acl, subject, graph) <==> acls.contains(acl)
        && governs(acl, subnets) by {
        guarding_in_words(acl, subject, graph);
    }
    assert forall|acl: Observed| #[trigger] passes(acl, source, ports) <==> lets_in(
        acl,
        source,
        ports,
    ) by {
        passing_in_words(acl, source, ports);
    }
    if admitting(acls, subnets, source, ports) {
        let i = choose|i: int|
            0 <= i < acls.len() && governs(#[trigger] acls[i], subnets) && lets_in(
                acls[i],
                source,
                ports,
            );
        assert(acls.contains(acls[i]));
        assert(guards(acls[i], subject, graph) && passes(acls[i], source, ports));
    }
    if exists|acl: Observed| #[trigger] guards(acl, subject, graph) && passes(acl, source, ports) {
        let acl = choose|acl: Observed| #[trigger]
            guards(acl, subject, graph) && passes(acl, source, ports);
        let i = choose|i: int| 0 <= i < acls.len() && acls[i] == acl;
        assert(governs(acls[i], subnets));
        assert(admitting(acls, subnets, source, ports));
    }
    if governed(acls, subnets) {
        let i = choose|i: int| 0 <= i < acls.len() && governs(#[trigger] acls[i], subnets);
        assert(acls.contains(acls[i]));
        assert(guards(acls[i], subject, graph));
    }
    if exists|acl: Observed| guards(acl, subject, graph) {
        let acl = choose|acl: Observed| guards(acl, subject, graph);
        let i = choose|i: int| 0 <= i < acls.len() && acls[i] == acl;
        assert(governs(acls[i], subnets));
    }
}

/// `b` is one step after `a`.
pub open spec fn is_next(graph: Seq<Observed>, a: Hop, b: Hop) -> bool {
    &&& observation(graph, a.kind, a.id) matches Some(node) && is_step(
        graph,
        node,
        a.ports,
        Step { kind: b.kind, id: b.id, ports: b.ports },
    )
    &&& b.path == a.path.push(b.id)
}

/// `trail` goes from `start` step by step.
pub open spec fn is_trail(graph: Seq<Observed>, start: Hop, trail: Seq<Hop>) -> bool {
    &&& trail.len() > 0
    &&& trail[0] == start
    &&& forall|i: int| 0 <= i < trail.len() - 1 ==> is_next(graph, #[trigger] trail[i], trail[i + 1])
}

/// Some trail from `start` ends at `hop`.
pub open spec fn is_trailed(graph: Seq<Observed>, start: Hop, hop: Hop) -> bool {
    exists|trail: Seq<Hop>| #[trigger] is_trail(graph, start, trail) && trail.last() == hop
}

proof fn hop_is_next(graph: Seq<Observed>, hop: Hop, i: int)
    requires
        0 <= i < hops_from(graph, hop).len(),
    ensures
        is_next(graph, hop, hops_from(graph, hop)[i]),
{
    let node = observation(graph, hop.kind, hop.id)->0;
    let step = steps_from(graph, node, hop.ports)[i];
    assert(steps_from(graph, node, hop.ports).contains(step));
    every_hop_is_a_step(graph, node, hop.ports, step);
}

proof fn fresh_is_among(hops: Seq<Hop>, seen: Set<(Kind, Seq<char>)>)
    ensures
        forall|i: int|
            0 <= i < fresh(hops, seen).len() ==> hops.contains(#[trigger] fresh(hops, seen)[i]),
    decreases hops.len(),
{
    broadcast use vstd::seq_lib::group_seq_properties;

    if hops.len() > 0 {
        let rest = hops.drop_last();
        fresh_is_among(rest, seen);
        let all = fresh(hops, seen);
        let before = fresh(rest, seen);
        assert(hops =~= rest.push(hops.last()));
        assert forall|i: int| 0 <= i < all.len() implies hops.contains(#[trigger] all[i]) by {
            if i < before.len() {
                assert(all[i] == before[i]);
                assert(rest.contains(before[i]));
            }
        }
    }
}

proof fn discovered_is_trailed(
    graph: Seq<Observed>,
    start: Hop,
    layer: Seq<Hop>,
    seen: Set<(Kind, Seq<char>)>,
)
    requires
        forall|i: int| 0 <= i < layer.len() ==> is_trailed(graph, start, #[trigger] layer[i]),
    ensures
        forall|i: int|
            0 <= i < discovered(graph, layer, seen).len() ==> is_trailed(
                graph,
                start,
                #[trigger] discovered(graph, layer, seen)[i],
            ),
    decreases layer.len(),
{
    if layer.len() > 0 {
        let rest = layer.drop_last();
        assert forall|i: int| 0 <= i < rest.len() implies is_trailed(
            graph,
            start,
            #[trigger] rest[i],
        ) by {
            assert(rest[i] == layer[i]);
        }
        discovered_is_trailed(graph, start, rest, seen);
        let before = discovered(graph, rest, seen);
        let last = layer.last();
        assert(layer[layer.len() - 1] == last);
        let next = hops_from(graph, last);
        let more = fresh(next, seen.union(keys_of(before)));
        fresh_is_among(next, seen.union(keys_of(before)));
        let all = discovered(graph, layer, seen);
        let trail = choose|trail: Seq<Hop>| #[trigger]
            is_trail(graph, start, trail) && trail.last() == last;
        assert forall|i: int| 0 <= i < all.len() implies is_trailed(
            graph,
            start,
            #[trigger] all[i],
        ) by {
            if i < before.len() {
                assert(all[i] == before[i]);
            } else {
                let hop = more[i - before.len()];
                let k = choose|k: int| 0 <= k < next.len() && next[k] == hop;
                hop_is_next(graph, last, k);
                let longer = trail.push(hop);
                assert forall|m: int| 0 <= m < longer.len() - 1 implies is_next(
                    graph,
                    #[trigger] longer[m],
                    longer[m + 1],
                ) by {
                    assert(longer[m] == trail[m]);
                    if m < trail.len() - 1 {
                        assert(is_next(graph, trail[m], trail[m + 1]));
                    }
                }
                assert(is_trail(graph, start, longer));
                assert(longer.last() == hop);
            }
        }
    }
}

proof fn walked_is_trailed(
    graph: Seq<Observed>,
    start: Hop,
    layer: Seq<Hop>,
    seen: Set<(Kind, Seq<char>)>,
    hops: nat,
)
    requires
        forall|i: int| 0 <= i < layer.len() ==> is_trailed(graph, start, #[trigger] layer[i]),
    ensures
        forall|i: int|
            0 <= i < walked(graph, layer, seen, hops).len() ==> is_trailed(
                graph,
                start,
                #[trigger] walked(graph, layer, seen, hops)[i],
            ),
    decreases hops,
{
    if hops > 0 {
        let next = discovered(graph, layer, seen);
        discovered_is_trailed(graph, start, layer, seen);
        let seen2 = seen.union(keys_of(next));
        walked_is_trailed(graph, start, next, seen2, (hops - 1) as nat);
        let more = walked(graph, next, seen2, (hops - 1) as nat);
        let all = walked(graph, layer, seen, hops);
        assert forall|i: int| 0 <= i < all.len() implies is_trailed(
            graph,
            start,
            #[trigger] all[i],
        ) by {
            if i < next.len() {
                assert(all[i] == next[i]);
            } else {
                assert(all[i] == more[i - next.len()]);
            }
        }
    }
}

/// Where a walk starts: at a group, on the ports that it was reached on.
pub open spec fn start_at(group: Seq<char>, ports: Seq<Ports>) -> Hop {
    Hop { kind: Kind::AwsSecurityGroup, id: group, path: Seq::empty(), ports }
}

proof fn trail_spells_its_path(graph: Seq<Observed>, start: Hop, trail: Seq<Hop>, n: int)
    requires
        is_trail(graph, start, trail),
        start.path.len() == 0,
        0 <= n < trail.len(),
    ensures
        trail[n].path.len() == n,
        forall|i: int| 0 <= i < n ==> trail[n].path[i] == (#[trigger] trail[i + 1]).id,
    decreases n,
{
    if n > 0 {
        trail_spells_its_path(graph, start, trail, n - 1);
        assert(is_next(graph, trail[n - 1], trail[n - 1 + 1]));
        assert forall|i: int| 0 <= i < n implies trail[n].path[i] == (#[trigger] trail[i + 1]).id by {
            if i < n - 1 {
                assert(trail[n - 1].path[i] == trail[i + 1].id);
            }
        }
    }
}

/// `trail` is how the internet gets to the subject by `entry`, and `chain` is what it passes: from a
/// group that is open by `entry`, in at most twelve steps, to the subject, whose subnet does not keep
/// out what arrives.
pub open spec fn is_way_in(
    subject: Observed,
    graph: Seq<Observed>,
    chain: Seq<Seq<char>>,
    entry: Entry,
    trail: Seq<Hop>,
) -> bool {
    &&& is_open(graph, chain[0], entry)
    &&& is_trail(graph, start_at(chain[0], seq![entry.port]), trail)
    &&& 2 <= trail.len() <= 13
    &&& chain.len() == trail.len()
    &&& forall|i: int| 0 <= i < chain.len() ==> #[trigger] chain[i] == trail[i].id
    &&& trail.last().kind == subject.kind
    &&& trail.last().id == subject.cloud_id
    &&& !is_blocked(subject, graph, entry.source_cidr, trail.last().ports)
}

/// Every chain is a way in.
pub proof fn every_chain_is_a_way_in(
    subject: Observed,
    graph: Seq<Observed>,
    chain: Seq<Seq<char>>,
)
    requires
        internet_chains(subject, graph).contains(chain),
    ensures
        exists|entry: Entry, trail: Seq<Hop>| #[trigger]
            is_way_in(subject, graph, chain, entry, trail),
{
    let i = choose|i: int|
        0 <= i < facing(graph).len() && chain_from(
            subject,
            graph,
            #[trigger] facing(graph)[i],
            chain,
        );
    let group = facing(graph)[i];
    let j = choose|j: int|
        0 <= j < group.1.len() && #[trigger] chain_of_entry(
            subject,
            graph,
            group.0,
            group.1[j],
            chain,
        );
    let entry = group.1[j];
    let reached = reached_from(graph, group.0, entry);
    let k = choose|k: int|
        0 <= k < reached.len() && gets_to(subject, graph, entry, #[trigger] reached[k]) && chain
            == seq![group.0] + reached[k].path;
    let hop = reached[k];
    let ports = seq![entry.port];
    let start = start_at(group.0, ports);
    assert(group.1.contains(entry));
    assert(is_entry_of(facing(graph), group.0, entry));
    entry_points_are_the_open_rules(graph, group.0, entry);
    reported_is_reachable(graph, Kind::AwsSecurityGroup, group.0, ports, 12, k);
    let layer = seq![start];
    assert(is_trail(graph, start, layer) && layer.last() == start);
    assert forall|m: int| 0 <= m < layer.len() implies is_trailed(
        graph,
        start,
        #[trigger] layer[m],
    ) by {
        assert(layer[m] == start);
    }
    walked_is_trailed(graph, start, layer, set![(Kind::AwsSecurityGroup, group.0)], 12);
    assert(is_trailed(graph, start, hop));
    let trail = choose|trail: Seq<Hop>| #[trigger]
        is_trail(graph, start, trail) && trail.last() == hop;
    trail_spells_its_path(graph, start, trail, trail.len() - 1);
    assert(trail.last() == trail[trail.len() - 1]);
    assert forall|m: int| 0 <= m < chain.len() implies #[trigger] chain[m] == trail[m].id by {
        if m > 0 {
            assert(hop.path[m - 1] == trail[m - 1 + 1].id);
        }
    }
    the_subnet_decides(subject, graph, entry.source_cidr, hop.ports);
    assert(is_way_in(subject, graph, chain, entry, trail));
}

proof fn next_is_linked(graph: Seq<Observed>, a: Hop, b: Hop)
    requires
        is_next(graph, a, b),
    ensures
        linked(graph, key_of(a), key_of(b)),
{
    let node = observation(graph, a.kind, a.id)->0;
    every_step_is_a_hop(graph, node, a.ports, Step { kind: b.kind, id: b.id, ports: b.ports });
    let on = choose|on: Seq<Ports>| #[trigger]
        steps_from(graph, node, a.ports).contains(Step { kind: b.kind, id: b.id, ports: on });
    let steps = steps_from(graph, node, a.ports);
    let i = choose|i: int|
        0 <= i < steps.len() && steps[i] == (Step { kind: b.kind, id: b.id, ports: on });
    ports_do_not_steer(graph, node, a.ports, Seq::empty());
    assert(steps_from(graph, node, Seq::empty())[i].kind == b.kind);
}

proof fn reached_along(graph: Seq<Observed>, group: Seq<char>, ports: Seq<Ports>, trail: Seq<Hop>) -> (
r: Hop)
    requires
        is_trail(graph, start_at(group, ports), trail),
        trail.len() <= 13,
        trail.last().kind != Kind::AwsSecurityGroup,
    ensures
        reachable(graph, Kind::AwsSecurityGroup, group, ports, 12).contains(r),
        reachable(
            graph,
            Kind::AwsSecurityGroup,
            group,
            ports,
            (trail.len() - 1) as nat,
        ).contains(r),
        key_of(r) == key_of(trail.last()),
        1 <= r.path.len() < trail.len(),
{
    let keys = trail.map_values(|hop: Hop| key_of(hop));
    let kind = Kind::AwsSecurityGroup;
    let hops = (trail.len() - 1) as nat;
    assert forall|i: int| 0 <= i < keys.len() - 1 implies linked(
        graph,
        #[trigger] keys[i],
        keys[i + 1],
    ) by {
        assert(is_next(graph, trail[i], trail[i + 1]));
        next_is_linked(graph, trail[i], trail[i + 1]);
    }
    assert(is_walk(graph, keys));
    reachable_is_reported(graph, kind, group, ports, hops, keys);
    let near = reachable(graph, kind, group, ports, hops);
    let far = reachable(graph, kind, group, ports, 12);
    assert(keys_of(near).contains(key_of(trail.last())));
    let named = near.map_values(|hop: Hop| key_of(hop));
    let i = choose|i: int| 0 <= i < named.len() && named[i] == key_of(trail.last());
    reported_is_reachable(graph, kind, group, ports, hops, i);
    more_hops_only_append(graph, kind, group, ports, hops, 12);
    assert(far.subrange(0, near.len() as int)[i] == near[i]);
    assert(far[i] == near[i]);
    near[i]
}

proof fn reached_is_a_chain(
    subject: Observed,
    graph: Seq<Observed>,
    group: Seq<char>,
    entry: Entry,
    hop: Hop,
)
    requires
        is_open(graph, group, entry),
        reachable(graph, Kind::AwsSecurityGroup, group, seq![entry.port], 12).contains(hop),
        hop.kind == subject.kind,
        hop.id == subject.cloud_id,
        !is_blocked(subject, graph, entry.source_cidr, hop.ports),
    ensures
        internet_chains(subject, graph).contains(seq![group] + hop.path),
{
    entry_points_are_the_open_rules(graph, group, entry);
    let all = facing(graph);
    let i = choose|i: int|
        0 <= i < all.len() && (#[trigger] all[i]).0 == group && all[i].1.contains(entry);
    let j = choose|j: int| 0 <= j < all[i].1.len() && all[i].1[j] == entry;
    let reached = reached_from(graph, group, entry);
    let k = choose|k: int| 0 <= k < reached.len() && reached[k] == hop;
    the_subnet_decides(subject, graph, entry.source_cidr, hop.ports);
    assert(gets_to(subject, graph, entry, reached[k]));
    let chain = seq![group] + hop.path;
    assert(chain_of_entry(subject, graph, all[i].0, all[i].1[j], chain));
    assert(chain_from(subject, graph, all[i], chain));
}

/// Every way in is found: when a trail of at most twelve steps leads from an open group to a resource
/// that no network ACL guards, there is a chain from that group to the resource, no longer than the
/// trail.
pub proof fn every_way_in_is_found(
    subject: Observed,
    graph: Seq<Observed>,
    group: Seq<char>,
    entry: Entry,
    trail: Seq<Hop>,
)
    requires
        is_open(graph, group, entry),
        is_trail(graph, start_at(group, seq![entry.port]), trail),
        trail.len() <= 13,
        trail.last().kind == subject.kind,
        trail.last().id == subject.cloud_id,
        subject.kind != Kind::AwsSecurityGroup,
        forall|acl: Observed| !#[trigger] guards(acl, subject, graph),
    ensures
        exists|chain: Seq<Seq<char>>| #[trigger]
            internet_chains(subject, graph).contains(chain) && chain[0] == group && chain.last()
                == subject.cloud_id && chain.len() <= trail.len(),
{
    let hop = reached_along(graph, group, seq![entry.port], trail);
    reached_is_a_chain(subject, graph, group, entry, hop);
    let chain = seq![group] + hop.path;
    assert(internet_chains(subject, graph).contains(chain));
    crate::diff::semantic::relations::chains_end_at_the_subject(subject, graph, chain);
}

/// What carries an open group is reached straight through it, unless its subnet keeps out what the
/// group lets in.
pub proof fn an_open_group_reaches_its_members(
    subject: Observed,
    graph: Seq<Observed>,
    group: Seq<char>,
    entry: Entry,
)
    requires
        graph.contains(subject),
        carries(subject, group),
        is_open(graph, group, entry),
        !is_blocked(subject, graph, entry.source_cidr, seq![entry.port]),
    ensures
        internet_chains(subject, graph).contains(seq![group, subject.cloud_id]),
{
    let ports = seq![entry.port];
    let start = start_at(group, ports);
    let kind = Kind::AwsSecurityGroup;
    let node = observation(graph, kind, group)->0;
    observation_is_of_the_resource(graph, kind, group);
    let j = choose|j: int| 0 <= j < graph.len() && graph[j] == subject;
    assert(graph[j].kind == subject.kind);
    let hop = Hop {
        kind: subject.kind,
        id: subject.cloud_id,
        path: Seq::empty().push(subject.cloud_id),
        ports,
    };
    let step = Step { kind: hop.kind, id: hop.id, ports };
    assert(is_step(graph, node, ports, step));
    assert(is_next(graph, start, hop));
    let trail = seq![start, hop];
    assert(is_trail(graph, start, trail));
    let found = reached_along(graph, group, ports, trail);
    let layer = seq![start];
    let seen = set![(kind, group)];
    let next = discovered(graph, layer, seen);
    assert(reachable(graph, kind, group, ports, 1) =~= next) by {
        reveal_with_fuel(walked, 2);
        assert(next + Seq::<Hop>::empty() =~= next);
    }
    let i = choose|i: int| 0 <= i < next.len() && next[i] == found;
    assert(layer.drop_last() =~= Seq::empty());
    reveal_with_fuel(discovered, 2);
    let candidates = hops_from(graph, start);
    let none = discovered(graph, Seq::<Hop>::empty(), seen);
    let seen2 = seen.union(keys_of(none));
    fresh_is_among(candidates, seen2);
    assert(next =~= fresh(candidates, seen2));
    let k = choose|k: int| 0 <= k < candidates.len() && candidates[k] == found;
    hop_is_next(graph, start, k);
    assert(found.ports == ports);
    assert(found.path =~= seq![subject.cloud_id]);
    reached_is_a_chain(subject, graph, group, entry, found);
    assert(seq![group] + found.path =~= seq![group, subject.cloud_id]);
}

} // verus!
