//! Multi-hop reachability: a bounded walk from internet-facing security groups through membership,
//! load-balancer target registration, and group-to-group trust, independent of any single
//! [`super::Relation`].
//!
//! This is deliberately *not* a relation itself: no subject, no `expand`, nothing compared. It is
//! the traversal a relation composes: given a graph, which resources can the public internet
//! actually reach, and through what chain.
//!
//! **Why the "trusts" edge below is not an edge field.** Edge fields are flat top-level attribute
//! fields. A rule's `security_groups` source, by contrast, is nested inside the `ingress` array: one
//! security group's rule naming another group as a trusted source.
//!
//! **Why a three-tier chain, not just one hop.** `internet -> web tier -> app tier -> database tier`
//! is the ordinary shape of a real VPC, and getting from the web tier to the database tier needs
//! exactly the "trusts" edge above: the database's security group names the app tier's group as an
//! allowed source, not the other way around.
//!
//! **Ports travel with the walk, not just resource identity.** A security-group *membership* edge
//! doesn't change the port: the group's own admitting rule already set it, and every member inherits
//! exactly that. A group-to-group *trust* edge and a target-group *registration* edge are different:
//! each is a new gate with its own rule (or, for a target group, its own `port` field), so the port
//! set is *replaced*, not carried forward.

use vstd::prelude::*;

use crate::collector::{observation, Observed};
use crate::diff::rules::{get_number, has_text, number_at};
use crate::diff::semantic::graph::{
    lists_text, nodes_of, referrers_are_finite, referrers_of, Graph, Node,
};
use crate::json::{jsons, listed_texts, strings_of, value_view, Json, JsonValue, Object};
use crate::ordered::{
    ascending, ascending_is_listing, finite_is_listed, insert_ordered, listing, models, Ordered,
};
use crate::text::{
    before, before_irreflexive, before_total, before_transitive, copied_texts, precedes, same,
    texts,
};
use crate::types::resource::{Kind, ResourceKind};

verus! {

/// A protocol and port range a resource is reachable on, in the NACL API's own protocol-*number*
/// convention (`"-1"`, `"6"` for tcp, `"17"` for udp, ...), translated once, at the point a
/// security-group rule is read.
#[derive(Debug, PartialEq, Eq, PartialOrd, Ord)]
pub struct PortSpec {
    pub protocol: String,
    pub from: i64,
    pub to: i64,
}

/// What a [`PortSpec`] denotes.
pub struct Ports {
    pub protocol: Seq<char>,
    pub from: int,
    pub to: int,
}

impl View for PortSpec {
    type V = Ports;

    open spec fn view(&self) -> Ports {
        Ports { protocol: self.protocol@, from: self.from as int, to: self.to as int }
    }
}

impl Clone for PortSpec {
    fn clone(&self) -> (r: Self)
        ensures
            r@ == self@,
    {
        PortSpec { protocol: self.protocol.clone(), from: self.from, to: self.to }
    }
}

/// By protocol, then by the first port, then by the last.
pub open spec fn ports_before(a: Ports, b: Ports) -> bool {
    before(a.protocol, b.protocol) || (a.protocol == b.protocol && (a.from < b.from || (a.from
        == b.from && a.to < b.to)))
}

impl Ordered for PortSpec {
    type Model = Ports;

    open spec fn model(&self) -> Ports {
        self@
    }

    open spec fn less(a: Ports, b: Ports) -> bool {
        ports_before(a, b)
    }

    proof fn irreflexive(a: Ports) {
        before_irreflexive(a.protocol);
    }

    proof fn transitive(a: Ports, b: Ports, c: Ports) {
        if before(a.protocol, b.protocol) && before(b.protocol, c.protocol) {
            before_transitive(a.protocol, b.protocol, c.protocol);
        }
    }

    proof fn total(a: Ports, b: Ports) {
        before_total(a.protocol, b.protocol);
    }

    fn comes_before(&self, other: &Self) -> (r: bool) {
        precedes(self.protocol.as_str(), other.protocol.as_str()) || (same(
            self.protocol.as_str(),
            other.protocol.as_str(),
        ) && (self.from < other.from || (self.from == other.from && self.to < other.to)))
    }
}

/// One internet-facing rule on a security group: the literal CIDR that sources it, and the port it
/// admits. A group can have several, different ports or the same port opened to both `0.0.0.0/0` and
/// `::/0`.
#[derive(Debug, PartialEq, Eq, PartialOrd, Ord)]
pub struct EntryPoint {
    pub source_cidr: String,
    pub port: PortSpec,
}

/// What an [`EntryPoint`] denotes.
pub struct Entry {
    pub source_cidr: Seq<char>,
    pub port: Ports,
}

impl View for EntryPoint {
    type V = Entry;

    open spec fn view(&self) -> Entry {
        Entry { source_cidr: self.source_cidr@, port: self.port@ }
    }
}

impl Clone for EntryPoint {
    fn clone(&self) -> (r: Self)
        ensures
            r@ == self@,
    {
        EntryPoint { source_cidr: self.source_cidr.clone(), port: self.port.clone() }
    }
}

impl Ordered for EntryPoint {
    type Model = Entry;

    open spec fn model(&self) -> Entry {
        self@
    }

    open spec fn less(a: Entry, b: Entry) -> bool {
        before(a.source_cidr, b.source_cidr) || (a.source_cidr == b.source_cidr && ports_before(
            a.port,
            b.port,
        ))
    }

    proof fn irreflexive(a: Entry) {
        before_irreflexive(a.source_cidr);
        PortSpec::irreflexive(a.port);
    }

    proof fn transitive(a: Entry, b: Entry, c: Entry) {
        if before(a.source_cidr, b.source_cidr) && before(b.source_cidr, c.source_cidr) {
            before_transitive(a.source_cidr, b.source_cidr, c.source_cidr);
        }
        if ports_before(a.port, b.port) && ports_before(b.port, c.port) {
            PortSpec::transitive(a.port, b.port, c.port);
        }
    }

    proof fn total(a: Entry, b: Entry) {
        before_total(a.source_cidr, b.source_cidr);
        PortSpec::total(a.port, b.port);
    }

    fn comes_before(&self, other: &Self) -> (r: bool) {
        precedes(self.source_cidr.as_str(), other.source_cidr.as_str()) || (same(
            self.source_cidr.as_str(),
            other.source_cidr.as_str(),
        ) && self.port.comes_before(&other.port))
    }
}

/// What each of a list of ports denotes.
pub open spec fn port_views(list: Seq<PortSpec>) -> Seq<Ports> {
    list.map_values(|p: PortSpec| p@)
}

/// What each of a list of entry points denotes.
pub open spec fn entry_views(list: Seq<EntryPoint>) -> Seq<Entry> {
    list.map_values(|e: EntryPoint| e@)
}

fn copied_ports(list: &[PortSpec]) -> (r: Vec<PortSpec>)
    ensures
        port_views(r@) == port_views(list@),
{
    let mut copy: Vec<PortSpec> = Vec::new();
    let mut i: usize = 0;
    while i < list.len()
        invariant
            i <= list.len(),
            copy.len() == i,
            forall|j: int| 0 <= j < i ==> (#[trigger] copy[j])@ == list[j]@,
        decreases list.len() - i,
    {
        copy.push(list[i].clone());
        i += 1;
    }
    assert(port_views(copy@) =~= port_views(list@));
    copy
}

/// The public internet as a rule source: a literal match, not a general CIDR-overlap judgment.
pub open spec fn is_internet(cidr: Seq<char>) -> bool {
    cidr == "0.0.0.0/0"@ || cidr == "::/0"@
}

/// The protocol number of a protocol as security-group rules write it: names for the four well-known
/// protocols, numbers for everything else.
pub open spec fn number_of(protocol: Seq<char>) -> Seq<char> {
    if protocol == "tcp"@ {
        "6"@
    } else if protocol == "udp"@ {
        "17"@
    } else if protocol == "icmp"@ {
        "1"@
    } else if protocol == "icmpv6"@ {
        "58"@
    } else {
        protocol
    }
}

/// The ports that a rule admits.
pub open spec fn rule_ports(rule: Json) -> Ports {
    Ports {
        protocol: number_of(
            match rule.get("protocol"@) {
                Some(Json::Text(protocol)) => protocol,
                _ => "-1"@,
            },
        ),
        from: number_at(rule, "from_port"@),
        to: number_at(rule, "to_port"@),
    }
}

/// The ingress rules of a group.
pub open spec fn ingress(group: Observed) -> Seq<Json> {
    match Json::Object(group.attributes).get("ingress"@) {
        Some(Json::Array(rules)) => rules,
        _ => Seq::empty(),
    }
}

/// A rule is sourced from `cidr`, of either address family.
pub open spec fn sourced_from(rule: Json, cidr: Seq<char>) -> bool {
    has_text(rule.get("cidr_blocks"@), cidr) || has_text(rule.get("ipv6_cidr_blocks"@), cidr)
}

/// The entry points that some rules offer the internet.
pub open spec fn entries_among(rules: Seq<Json>) -> Set<Entry> {
    Set::new(
        |entry: Entry|
            is_internet(entry.source_cidr) && exists|i: int|
                0 <= i < rules.len() && sourced_from(#[trigger] rules[i], entry.source_cidr)
                    && entry.port == rule_ports(rules[i]),
    )
}

/// The groups among `groups` that offer the internet an entry point, each with its entry points in
/// order.
pub open spec fn facing_among(groups: Seq<Observed>) -> Seq<(Seq<char>, Seq<Entry>)>
    decreases groups.len(),
{
    if groups.len() == 0 {
        Seq::empty()
    } else {
        let before = facing_among(groups.drop_last());
        let last = groups.last();
        let entries = entries_among(ingress(last));
        if entries == Set::<Entry>::empty() {
            before
        } else {
            before.push((last.cloud_id, listing::<EntryPoint>(entries)))
        }
    }
}

/// The internet-facing groups of a graph, in the order of their cloud IDs.
pub open spec fn facing(graph: Seq<Observed>) -> Seq<(Seq<char>, Seq<Entry>)> {
    facing_among(nodes_of(graph, Kind::AwsSecurityGroup))
}

/// The ports of the rules among `rules` that trust the group `source`.
pub open spec fn trusted_ports(rules: Seq<Json>, source: Seq<char>) -> Set<Ports> {
    Set::new(
        |ports: Ports|
            exists|i: int|
                0 <= i < rules.len() && has_text(
                    (#[trigger] rules[i]).get("security_groups"@),
                    source,
                ) && ports == rule_ports(rules[i]),
    )
}

/// The groups among `groups` that trust the group `source`, each with the ports of the rules that
/// do, in order.
pub open spec fn trusting_among(groups: Seq<Observed>, source: Seq<char>) -> Seq<
    (Seq<char>, Seq<Ports>),
>
    decreases groups.len(),
{
    if groups.len() == 0 {
        Seq::empty()
    } else {
        let before = trusting_among(groups.drop_last(), source);
        let last = groups.last();
        let ports = trusted_ports(ingress(last), source);
        if ports == Set::<Ports>::empty() {
            before
        } else {
            before.push((last.cloud_id, listing::<PortSpec>(ports)))
        }
    }
}

/// The groups of a graph that trust the group `source`, in the order of their cloud IDs.
pub open spec fn trusting(graph: Seq<Observed>, source: Seq<char>) -> Seq<(Seq<char>, Seq<Ports>)> {
    trusting_among(nodes_of(graph, Kind::AwsSecurityGroup), source)
}

/// A resource that one hop reaches, and the ports on which it does.
pub struct Step {
    pub kind: Kind,
    pub id: Seq<char>,
    pub ports: Seq<Ports>,
}

/// The resources of a kind that reference `target`, reached on `ports`.
pub open spec fn member_steps(
    graph: Seq<Observed>,
    target: Seq<char>,
    kind: Kind,
    ports: Seq<Ports>,
) -> Seq<Step> {
    listing::<String>(referrers_of(graph, target, kind)).map_values(
        |id: Seq<char>| Step { kind, id, ports },
    )
}

/// The groups that trust one of `sources`, each reached on the ports of the rules that do.
pub open spec fn trust_steps(graph: Seq<Observed>, sources: Seq<Seq<char>>) -> Seq<Step>
    decreases sources.len(),
{
    if sources.len() == 0 {
        Seq::empty()
    } else {
        trust_steps(graph, sources.drop_last()) + trusting(graph, sources.last()).map_values(
            |group: (Seq<char>, Seq<Ports>)|
                Step { kind: Kind::AwsSecurityGroup, id: group.0, ports: group.1 },
        )
    }
}

/// The texts that a node lists under `field`.
pub open spec fn listed_at(node: Observed, field: Seq<char>) -> Seq<Seq<char>> {
    listed_texts(Json::Object(node.attributes).get(field))
}

/// The port that a target group forwards to, as tcp; without one it is `0`.
pub open spec fn forwarded_ports(node: Observed) -> Seq<Ports> {
    let port = number_at(Json::Object(node.attributes), "port"@);
    seq![Ports { protocol: "6"@, from: port, to: port }]
}

/// The resources that one hop reaches from `node`, which was reached on `ports`.
///
/// The members of a group inherit its ports: being in the group adds no gate of its own. A trusting
/// group is reached on the ports of the rules that trust, and a registered target on the port of its
/// target group.
pub open spec fn steps_from(graph: Seq<Observed>, node: Observed, ports: Seq<Ports>) -> Seq<Step> {
    match node.kind {
        Kind::AwsSecurityGroup => member_steps(graph, node.cloud_id, Kind::AwsInstance, ports)
            + member_steps(graph, node.cloud_id, Kind::AwsLoadBalancer, ports) + member_steps(
            graph,
            node.cloud_id,
            Kind::AwsLambdaFunction,
            ports,
        ) + member_steps(graph, node.cloud_id, Kind::AwsDbInstance, ports) + member_steps(
            graph,
            node.cloud_id,
            Kind::AwsEcsService,
            ports,
        ),
        Kind::AwsInstance => trust_steps(graph, listed_at(node, "vpc_security_group_ids"@)),
        Kind::AwsLambdaFunction => trust_steps(graph, listed_at(node, "vpc_security_group_ids"@)),
        Kind::AwsDbInstance => trust_steps(graph, listed_at(node, "vpc_security_group_ids"@)),
        Kind::AwsEcsService => trust_steps(graph, listed_at(node, "vpc_security_group_ids"@)),
        Kind::AwsLoadBalancer => trust_steps(graph, listed_at(node, "security_groups"@))
            + member_steps(graph, node.cloud_id, Kind::AwsLbTargetGroup, ports),
        Kind::AwsLbTargetGroup => listed_at(node, "targets"@).map_values(
            |id: Seq<char>|
                Step { kind: Kind::AwsInstance, id, ports: forwarded_ports(node) },
        ),
        _ => Seq::empty(),
    }
}

/// A resource that a walk reaches: the cloud IDs it passes after the start, and the ports on which
/// the last hop arrives.
pub struct Hop {
    pub kind: Kind,
    pub id: Seq<char>,
    pub path: Seq<Seq<char>>,
    pub ports: Seq<Ports>,
}

/// What a resource is known by.
pub open spec fn key_of(hop: Hop) -> (Kind, Seq<char>) {
    (hop.kind, hop.id)
}

/// What each of some resources is known by.
pub open spec fn keys_of(hops: Seq<Hop>) -> Set<(Kind, Seq<char>)> {
    hops.map_values(|hop: Hop| key_of(hop)).to_set()
}

/// The resources that one more hop reaches.
pub open spec fn hops_from(graph: Seq<Observed>, hop: Hop) -> Seq<Hop> {
    match observation(graph, hop.kind, hop.id) {
        Some(node) => steps_from(graph, node, hop.ports).map_values(
            |step: Step|
                Hop {
                    kind: step.kind,
                    id: step.id,
                    path: hop.path.push(step.id),
                    ports: step.ports,
                },
        ),
        None => Seq::empty(),
    }
}

/// Those of `hops` that are not among `seen`, each at its first occurrence.
pub open spec fn fresh(hops: Seq<Hop>, seen: Set<(Kind, Seq<char>)>) -> Seq<Hop>
    decreases hops.len(),
{
    if hops.len() == 0 {
        Seq::empty()
    } else {
        let before = fresh(hops.drop_last(), seen);
        if seen.union(keys_of(before)).contains(key_of(hops.last())) {
            before
        } else {
            before.push(hops.last())
        }
    }
}

/// The resources that one more hop discovers from those of `layer`, in their order.
pub open spec fn discovered(
    graph: Seq<Observed>,
    layer: Seq<Hop>,
    seen: Set<(Kind, Seq<char>)>,
) -> Seq<Hop>
    decreases layer.len(),
{
    if layer.len() == 0 {
        Seq::empty()
    } else {
        let before = discovered(graph, layer.drop_last(), seen);
        before + fresh(hops_from(graph, layer.last()), seen.union(keys_of(before)))
    }
}

/// The resources that at most `hops` more hops discover from those of `layer`, the nearer ones
/// first.
pub open spec fn walked(
    graph: Seq<Observed>,
    layer: Seq<Hop>,
    seen: Set<(Kind, Seq<char>)>,
    hops: nat,
) -> Seq<Hop>
    decreases hops,
{
    if hops == 0 {
        Seq::empty()
    } else {
        let next = discovered(graph, layer, seen);
        next + walked(graph, next, seen.union(keys_of(next)), (hops - 1) as nat)
    }
}

/// The resources reachable from `start` within `max_hops`, the nearer ones first, each once and by
/// the first way that was found.
pub open spec fn reachable(
    graph: Seq<Observed>,
    kind: Kind,
    id: Seq<char>,
    ports: Seq<Ports>,
    max_hops: nat,
) -> Seq<Hop> {
    walked(
        graph,
        seq![Hop { kind, id, path: Seq::empty(), ports }],
        set![(kind, id)],
        max_hops,
    )
}

/// One resource reachable from an entry point, plus the chain that reaches it.
#[derive(Debug, PartialEq, Eq)]
pub struct Reached {
    pub kind: ResourceKind,
    pub cloud_id: String,
    /// Cloud IDs from the first hop past the start node through to (and including) this resource.
    /// The start node's own id is not included: callers already know it.
    pub path: Vec<String>,
    /// The port(s) this specific resource is reached on: the port context in effect at the *last*
    /// hop into it, not a history of every port along the way.
    pub ports: Vec<PortSpec>,
}

impl View for Reached {
    type V = Hop;

    open spec fn view(&self) -> Hop {
        Hop {
            kind: self.kind@,
            id: self.cloud_id@,
            path: texts(self.path@),
            ports: port_views(self.ports@),
        }
    }
}

impl Clone for Reached {
    fn clone(&self) -> (r: Self)
        ensures
            r@ == self@,
    {
        Reached {
            kind: self.kind.clone(),
            cloud_id: self.cloud_id.clone(),
            path: copied_texts(&self.path),
            ports: copied_ports(self.ports.as_slice()),
        }
    }
}

/// What each of some reached resources denotes.
pub open spec fn hop_views(reached: Seq<Reached>) -> Seq<Hop> {
    reached.map_values(|r: Reached| r@)
}

/// Security-group rules speak protocol *names* for the four well-known protocols and numbers for
/// everything else; NACL rules speak numbers exclusively. Anything already numeric (including
/// `"-1"`) passes through unchanged.
pub fn protocol_number(sg_protocol: &str) -> (r: String)
    ensures
        r@ == number_of(sg_protocol@),
{
    if same(sg_protocol, "tcp") {
        "6".to_owned()
    } else if same(sg_protocol, "udp") {
        "17".to_owned()
    } else if same(sg_protocol, "icmp") {
        "1".to_owned()
    } else if same(sg_protocol, "icmpv6") {
        "58".to_owned()
    } else {
        sg_protocol.to_owned()
    }
}

/// A rule's protocol and port range, protocol translated to the NACL API's number convention.
/// Absent ports normalize to `0`.
fn port_spec_from_rule(rule: &JsonValue) -> (r: PortSpec)
    ensures
        r@ == rule_ports(rule@),
{
    broadcast use value_view;
    let protocol = match rule.get("protocol") {
        Some(JsonValue::String(protocol)) => protocol_number(protocol.as_str()),
        _ => protocol_number("-1"),
    };
    PortSpec {
        protocol,
        from: get_number(rule, "from_port"),
        to: get_number(rule, "to_port"),
    }
}

pub(crate) fn ingress_rules<'a>(group: &'a Node) -> (r: Option<&'a Vec<JsonValue>>)
    ensures
        match r {
            Some(rules) => jsons(rules@) == ingress(group@),
            None => ingress(group@) == Seq::<Json>::empty(),
        },
{
    broadcast use value_view;
    match group.attributes.get("ingress") {
        Some(JsonValue::Array(rules)) => Some(rules),
        _ => None,
    }
}

proof fn entries_of_push(rules: Seq<Json>, rule: Json)
    ensures
        forall|entry: Entry| #[trigger]
            entries_among(rules.push(rule)).contains(entry) <==> entries_among(rules).contains(
                entry,
            ) || (is_internet(entry.source_cidr) && sourced_from(rule, entry.source_cidr)
                && entry.port == rule_ports(rule)),
{
    let all = rules.push(rule);
    assert forall|entry: Entry| #[trigger] entries_among(all).contains(entry) <==> entries_among(
        rules,
    ).contains(entry) || (is_internet(entry.source_cidr) && sourced_from(rule, entry.source_cidr)
        && entry.port == rule_ports(rule)) by {
        if entries_among(all).contains(entry) {
            let i = choose|i: int|
                0 <= i < all.len() && sourced_from(#[trigger] all[i], entry.source_cidr)
                    && entry.port == rule_ports(all[i]);
            if i < rules.len() {
                assert(rules[i] == all[i]);
            }
        }
        if entries_among(rules).contains(entry) {
            let i = choose|i: int|
                0 <= i < rules.len() && sourced_from(#[trigger] rules[i], entry.source_cidr)
                    && entry.port == rule_ports(rules[i]);
            assert(all[i] == rules[i]);
        }
        if is_internet(entry.source_cidr) && sourced_from(rule, entry.source_cidr) && entry.port
            == rule_ports(rule) {
            assert(all[rules.len() as int] == rule);
        }
    }
}

fn add_entry(entries: &mut Vec<EntryPoint>, rule: &JsonValue, cidr: &str)
    requires
        ascending::<EntryPoint>(models(old(entries)@)),
    ensures
        ascending::<EntryPoint>(models(final(entries)@)),
        models(final(entries)@).to_set() == if sourced_from(rule@, cidr@) {
            models(old(entries)@).to_set().insert(
                Entry { source_cidr: cidr@, port: rule_ports(rule@) },
            )
        } else {
            models(old(entries)@).to_set()
        },
{
    if lists_text(rule.get("cidr_blocks"), cidr) || lists_text(
        rule.get("ipv6_cidr_blocks"),
        cidr,
    ) {
        insert_ordered(
            entries,
            EntryPoint { source_cidr: cidr.to_owned(), port: port_spec_from_rule(rule) },
        );
    }
}

fn internet_facing_entry_points(group: &Node) -> (r: Vec<EntryPoint>)
    ensures
        entry_views(r@) == listing::<EntryPoint>(entries_among(ingress(group@))),
        r.len() == 0 <==> entries_among(ingress(group@)) == Set::<Entry>::empty(),
{
    let mut entries: Vec<EntryPoint> = Vec::new();
    assert(models(entries@).to_set() =~= entries_among(ingress(group@).take(0)));
    match ingress_rules(group) {
        Some(rules) => {
            let mut i: usize = 0;
            while i < rules.len()
                invariant
                    i <= rules.len(),
                    jsons(rules@) == ingress(group@),
                    ascending::<EntryPoint>(models(entries@)),
                    models(entries@).to_set() =~= entries_among(ingress(group@).take(i as int)),
                decreases rules.len() - i,
            {
                let rule = &rules[i];
                proof {
                    let list = ingress(group@);
                    assert(list[i as int] == rule@);
                    assert(list.take(i + 1) =~= list.take(i as int).push(rule@));
                    entries_of_push(list.take(i as int), rule@);
                }
                add_entry(&mut entries, rule, "0.0.0.0/0");
                add_entry(&mut entries, rule, "::/0");
                i += 1;
            }
        },
        None => {},
    }
    proof {
        let list = ingress(group@);
        assert(list.take(list.len() as int) =~= list);
        assert(entry_views(entries@) =~= models(entries@));
        ascending_is_listing::<EntryPoint>(models(entries@));
        if entries.len() == 0 {
            assert(models(entries@).to_set() =~= Set::empty());
        } else {
            assert(models(entries@).to_set().contains(models(entries@)[0]));
        }
    }
    entries
}

/// What a list of groups with their entry points denotes.
pub open spec fn facing_views(groups: Seq<(String, Vec<EntryPoint>)>) -> Seq<
    (Seq<char>, Seq<Entry>),
> {
    groups.map_values(|group: (String, Vec<EntryPoint>)| (group.0@, entry_views(group.1@)))
}

/// Security groups in `graph` with at least one ingress rule sourced directly from the public
/// internet, in the order of their cloud IDs, and the specific entry point(s) each one offers.
pub fn internet_facing_groups(graph: &Graph) -> (r: Vec<(String, Vec<EntryPoint>)>)
    ensures
        facing_views(r@) == facing(graph@),
{
    let groups = graph.nodes_of_kind(&ResourceKind::AwsSecurityGroup);
    let ghost nodes = nodes_of(graph@, Kind::AwsSecurityGroup);
    let mut found: Vec<(String, Vec<EntryPoint>)> = Vec::new();
    let mut i: usize = 0;
    assert(facing_views(found@) =~= Seq::empty());
    while i < groups.len()
        invariant
            i <= groups.len(),
            nodes == groups@.map_values(|n: &Node| n@),
            facing_views(found@) == facing_among(nodes.take(i as int)),
        decreases groups.len() - i,
    {
        let group = groups[i];
        let ghost before = found@;
        assert(nodes.take(i + 1).drop_last() =~= nodes.take(i as int));
        assert(nodes.take(i + 1).last() == group@);
        let entries = internet_facing_entry_points(group);
        if entries.len() > 0 {
            let ghost views = entry_views(entries@);
            found.push((group.cloud_id.clone(), entries));
            assert(facing_views(found@) =~= facing_views(before).push((group.cloud_id@, views)));
        }
        i += 1;
    }
    assert(nodes.take(i as int) =~= nodes);
    found
}

proof fn trusted_of_push(rules: Seq<Json>, rule: Json, source: Seq<char>)
    ensures
        trusted_ports(rules.push(rule), source) == if has_text(
            rule.get("security_groups"@),
            source,
        ) {
            trusted_ports(rules, source).insert(rule_ports(rule))
        } else {
            trusted_ports(rules, source)
        },
{
    let all = rules.push(rule);
    let expected = if has_text(rule.get("security_groups"@), source) {
        trusted_ports(rules, source).insert(rule_ports(rule))
    } else {
        trusted_ports(rules, source)
    };
    assert forall|ports: Ports| trusted_ports(all, source).contains(
        ports,
    ) implies expected.contains(ports) by {
        let i = choose|i: int|
            0 <= i < all.len() && has_text((#[trigger] all[i]).get("security_groups"@), source)
                && ports == rule_ports(all[i]);
        if i < rules.len() {
            assert(rules[i] == all[i]);
        }
    }
    assert forall|ports: Ports| expected.contains(ports) implies trusted_ports(
        all,
        source,
    ).contains(ports) by {
        if trusted_ports(rules, source).contains(ports) {
            let i = choose|i: int|
                0 <= i < rules.len() && has_text(
                    (#[trigger] rules[i]).get("security_groups"@),
                    source,
                ) && ports == rule_ports(rules[i]);
            assert(all[i] == rules[i]);
        } else {
            assert(all[rules.len() as int] == rule);
        }
    }
    assert(trusted_ports(all, source) =~= expected);
}

fn ports_trusting(group: &Node, source: &str) -> (r: Vec<PortSpec>)
    ensures
        port_views(r@) == listing::<PortSpec>(trusted_ports(ingress(group@), source@)),
        r.len() == 0 <==> trusted_ports(ingress(group@), source@) == Set::<Ports>::empty(),
{
    let mut ports: Vec<PortSpec> = Vec::new();
    assert(models(ports@).to_set() =~= trusted_ports(ingress(group@).take(0), source@));
    match ingress_rules(group) {
        Some(rules) => {
            let mut i: usize = 0;
            while i < rules.len()
                invariant
                    i <= rules.len(),
                    jsons(rules@) == ingress(group@),
                    ascending::<PortSpec>(models(ports@)),
                    models(ports@).to_set() == trusted_ports(
                        ingress(group@).take(i as int),
                        source@,
                    ),
                decreases rules.len() - i,
            {
                let rule = &rules[i];
                proof {
                    let list = ingress(group@);
                    assert(list[i as int] == rule@);
                    assert(list.take(i + 1) =~= list.take(i as int).push(rule@));
                    trusted_of_push(list.take(i as int), rule@, source@);
                }
                if lists_text(rule.get("security_groups"), source) {
                    insert_ordered(&mut ports, port_spec_from_rule(rule));
                }
                i += 1;
            }
        },
        None => {},
    }
    proof {
        let list = ingress(group@);
        assert(list.take(list.len() as int) =~= list);
        assert(port_views(ports@) =~= models(ports@));
        ascending_is_listing::<PortSpec>(models(ports@));
        if ports.len() == 0 {
            assert(models(ports@).to_set() =~= Set::empty());
        } else {
            assert(models(ports@).to_set().contains(models(ports@)[0]));
        }
    }
    ports
}

/// Resources that one hop reaches, as kind, cloud ID and ports.
pub struct Neighbor {
    pub kind: ResourceKind,
    pub cloud_id: String,
    pub ports: Vec<PortSpec>,
}

impl View for Neighbor {
    type V = Step;

    open spec fn view(&self) -> Step {
        Step { kind: self.kind@, id: self.cloud_id@, ports: port_views(self.ports@) }
    }
}

/// What each of some neighbors denotes.
pub open spec fn step_views(neighbors: Seq<Neighbor>) -> Seq<Step> {
    neighbors.map_values(|n: Neighbor| n@)
}

/// Security groups elsewhere in the graph whose ingress cites `group_id` as a trusted source, and
/// the port(s) of the specific rule(s) that trust it, not the group's other, unrelated rules. The
/// mirror of [`Graph::referrers`] one level up: not who belongs to the group, but who trusts it.
fn groups_trusting(graph: &Graph, group_id: &str, out: &mut Vec<Neighbor>)
    ensures
        step_views(final(out)@) == step_views(old(out)@) + trusting(
            graph@,
            group_id@,
        ).map_values(
            |group: (Seq<char>, Seq<Ports>)|
                Step { kind: Kind::AwsSecurityGroup, id: group.0, ports: group.1 },
        ),
{
    let groups = graph.nodes_of_kind(&ResourceKind::AwsSecurityGroup);
    let ghost nodes = nodes_of(graph@, Kind::AwsSecurityGroup);
    let ghost as_step = |group: (Seq<char>, Seq<Ports>)|
        Step { kind: Kind::AwsSecurityGroup, id: group.0, ports: group.1 };
    let mut i: usize = 0;
    assert(step_views(out@) =~= step_views(old(out)@) + trusting_among(
        nodes.take(0),
        group_id@,
    ).map_values(as_step));
    while i < groups.len()
        invariant
            i <= groups.len(),
            nodes == groups@.map_values(|n: &Node| n@),
            as_step == (|group: (Seq<char>, Seq<Ports>)|
                Step { kind: Kind::AwsSecurityGroup, id: group.0, ports: group.1 }),
            step_views(out@) == step_views(old(out)@) + trusting_among(
                nodes.take(i as int),
                group_id@,
            ).map_values(as_step),
        decreases groups.len() - i,
    {
        let group = groups[i];
        let ghost earlier = out@;
        let ghost found = trusting_among(nodes.take(i as int), group_id@);
        assert(nodes.take(i + 1).drop_last() =~= nodes.take(i as int));
        assert(nodes.take(i + 1).last() == group@);
        let ports = ports_trusting(group, group_id);
        if ports.len() > 0 {
            let neighbor = Neighbor {
                kind: ResourceKind::AwsSecurityGroup,
                cloud_id: group.cloud_id.clone(),
                ports,
            };
            let ghost step = neighbor@;
            out.push(neighbor);
            assert(step_views(out@) =~= step_views(earlier).push(step));
            assert(found.push((step.id, step.ports)).map_values(as_step) =~= found.map_values(
                as_step,
            ).push(step));
            assert(step_views(out@) =~= step_views(old(out)@) + found.push(
                (step.id, step.ports),
            ).map_values(as_step));
        }
        i += 1;
    }
    assert(nodes.take(i as int) =~= nodes);
}

fn add_members(
    graph: &Graph,
    target: &str,
    kind: &ResourceKind,
    ports: &[PortSpec],
    out: &mut Vec<Neighbor>,
)
    ensures
        step_views(final(out)@) == step_views(old(out)@) + member_steps(
            graph@,
            target@,
            kind@,
            port_views(ports@),
        ),
{
    let members = graph.referrers(target, kind);
    let ids = members.members();
    let ghost all = member_steps(graph@, target@, kind@, port_views(ports@));
    let mut i: usize = 0;
    assert(step_views(out@) =~= step_views(old(out)@) + all.take(0));
    while i < ids.len()
        invariant
            i <= ids.len(),
            texts(ids@) == listing::<String>(referrers_of(graph@, target@, kind@)),
            all == member_steps(graph@, target@, kind@, port_views(ports@)),
            step_views(out@) == step_views(old(out)@) + all.take(i as int),
        decreases ids.len() - i,
    {
        let ghost earlier = out@;
        assert(texts(ids@)[i as int] == ids[i as int]@);
        let neighbor = Neighbor {
            kind: kind.clone(),
            cloud_id: ids[i].clone(),
            ports: copied_ports(ports),
        };
        let ghost step = neighbor@;
        out.push(neighbor);
        assert(step == all[i as int]);
        assert(step_views(out@) =~= step_views(earlier).push(step));
        assert(step_views(out@) =~= step_views(old(out)@) + all.take(i + 1));
        i += 1;
    }
    assert(texts(ids@).len() == ids.len());
    assert(all.take(i as int) =~= all);
}

fn add_trusting(graph: &Graph, node: &Node, field: &str, out: &mut Vec<Neighbor>)
    ensures
        step_views(final(out)@) == step_views(old(out)@) + trust_steps(
            graph@,
            listed_at(node@, field@),
        ),
{
    let sources = strings_of(node.attributes.get(field));
    let ghost all = listed_at(node@, field@);
    let mut i: usize = 0;
    assert(step_views(out@) =~= step_views(old(out)@) + trust_steps(graph@, all.take(0)));
    while i < sources.len()
        invariant
            i <= sources.len(),
            all == texts(sources@),
            step_views(out@) == step_views(old(out)@) + trust_steps(graph@, all.take(i as int)),
        decreases sources.len() - i,
    {
        assert(all.take(i + 1).drop_last() =~= all.take(i as int));
        assert(all.take(i + 1).last() == sources[i as int]@);
        groups_trusting(graph, sources[i].as_str(), out);
        assert(step_views(out@) =~= step_views(old(out)@) + trust_steps(graph@, all.take(i + 1)));
        i += 1;
    }
    assert(all.take(i as int) =~= all);
}

fn add_targets(node: &Node, out: &mut Vec<Neighbor>)
    ensures
        step_views(final(out)@) == step_views(old(out)@) + listed_at(node@, "targets"@).map_values(
            |id: Seq<char>|
                Step { kind: Kind::AwsInstance, id, ports: forwarded_ports(node@) },
        ),
{
    broadcast use value_view;
    let targets = strings_of(node.attributes.get("targets"));
    let port: i64 = match node.attributes.get("port") {
        Some(port) => match port.as_i64() {
            Some(port) => port,
            None => 0,
        },
        None => 0,
    };
    let ghost all = listed_at(node@, "targets"@).map_values(
        |id: Seq<char>| Step { kind: Kind::AwsInstance, id, ports: forwarded_ports(node@) },
    );
    let mut i: usize = 0;
    assert(step_views(out@) =~= step_views(old(out)@) + all.take(0));
    while i < targets.len()
        invariant
            i <= targets.len(),
            texts(targets@) == listed_at(node@, "targets"@),
            port == number_at(Json::Object(node.attributes@), "port"@),
            all == listed_at(node@, "targets"@).map_values(
                |id: Seq<char>|
                    Step { kind: Kind::AwsInstance, id, ports: forwarded_ports(node@) },
            ),
            step_views(out@) == step_views(old(out)@) + all.take(i as int),
        decreases targets.len() - i,
    {
        let ghost earlier = out@;
        assert(texts(targets@)[i as int] == targets[i as int]@);
        let mut ports: Vec<PortSpec> = Vec::new();
        ports.push(PortSpec { protocol: "6".to_owned(), from: port, to: port });
        assert(port_views(ports@) =~= forwarded_ports(node@));
        let neighbor = Neighbor {
            kind: ResourceKind::AwsInstance,
            cloud_id: targets[i].clone(),
            ports,
        };
        let ghost step = neighbor@;
        out.push(neighbor);
        assert(step == all[i as int]);
        assert(step_views(out@) =~= step_views(earlier).push(step));
        assert(step_views(out@) =~= step_views(old(out)@) + all.take(i + 1));
        i += 1;
    }
    assert(texts(targets@).len() == targets.len());
    assert(all.take(i as int) =~= all);
}

/// The resources one hop reaches from `node`, dispatched by kind, and the port each one is reached
/// on. Each kind contributes the one or two edge shapes that apply to it; nothing outside this list
/// continues a chain.
pub fn neighbors(graph: &Graph, node: &Node, current_ports: &[PortSpec]) -> (r: Vec<Neighbor>)
    ensures
        step_views(r@) == steps_from(graph@, node@, port_views(current_ports@)),
{
    let mut out: Vec<Neighbor> = Vec::new();
    assert(step_views(out@) =~= Seq::empty());
    let id = node.cloud_id.as_str();
    match node.kind {
        ResourceKind::AwsSecurityGroup => {
            add_members(graph, id, &ResourceKind::AwsInstance, current_ports, &mut out);
            add_members(graph, id, &ResourceKind::AwsLoadBalancer, current_ports, &mut out);
            add_members(graph, id, &ResourceKind::AwsLambdaFunction, current_ports, &mut out);
            add_members(graph, id, &ResourceKind::AwsDbInstance, current_ports, &mut out);
            add_members(graph, id, &ResourceKind::AwsEcsService, current_ports, &mut out);
        },
        ResourceKind::AwsInstance => add_trusting(graph, node, "vpc_security_group_ids", &mut out),
        ResourceKind::AwsLambdaFunction => add_trusting(
            graph,
            node,
            "vpc_security_group_ids",
            &mut out,
        ),
        ResourceKind::AwsDbInstance => add_trusting(
            graph,
            node,
            "vpc_security_group_ids",
            &mut out,
        ),
        ResourceKind::AwsEcsService => add_trusting(
            graph,
            node,
            "vpc_security_group_ids",
            &mut out,
        ),
        ResourceKind::AwsLoadBalancer => {
            add_trusting(graph, node, "security_groups", &mut out);
            add_members(graph, id, &ResourceKind::AwsLbTargetGroup, current_ports, &mut out);
        },
        ResourceKind::AwsLbTargetGroup => add_targets(node, &mut out),
        _ => {},
    }
    assert(step_views(out@) =~= steps_from(graph@, node@, port_views(current_ports@)));
    out
}

proof fn keys_of_joined(a: Seq<Hop>, b: Seq<Hop>)
    ensures
        keys_of(a + b) == keys_of(a).union(keys_of(b)),
{
    let f = |hop: Hop| key_of(hop);
    let all = (a + b).map_values(f);
    assert forall|key: (Kind, Seq<char>)| keys_of(a + b).contains(key) implies keys_of(a).union(
        keys_of(b),
    ).contains(key) by {
        let i = choose|i: int| 0 <= i < all.len() && all[i] == key;
        if i < a.len() {
            assert(a.map_values(f)[i] == key);
        } else {
            assert(b.map_values(f)[i - a.len()] == key);
        }
    }
    assert forall|key: (Kind, Seq<char>)| keys_of(a).union(keys_of(b)).contains(
        key,
    ) implies keys_of(a + b).contains(key) by {
        if keys_of(a).contains(key) {
            let i = choose|i: int| 0 <= i < a.len() && a.map_values(f)[i] == key;
            assert(all[i] == key);
        } else {
            let i = choose|i: int| 0 <= i < b.len() && b.map_values(f)[i] == key;
            assert(all[a.len() + i] == key);
        }
    }
    assert(keys_of(a + b) =~= keys_of(a).union(keys_of(b)));
}

proof fn nothing_from_nothing(graph: Seq<Observed>, seen: Set<(Kind, Seq<char>)>, hops: nat)
    ensures
        walked(graph, Seq::empty(), seen, hops) == Seq::<Hop>::empty(),
    decreases hops,
{
    if hops > 0 {
        assert(keys_of(Seq::<Hop>::empty()) =~= Set::empty());
        assert(seen.union(keys_of(Seq::<Hop>::empty())) =~= seen);
        nothing_from_nothing(graph, seen, (hops - 1) as nat);
    }
}

/// What has been seen when the start and some resources have.
pub open spec fn seen_with(start: (Kind, Seq<char>), reached: Seq<Hop>) -> Set<(Kind, Seq<char>)> {
    set![start].union(keys_of(reached))
}

fn is_seen(
    kind: &ResourceKind,
    id: &str,
    start_kind: &ResourceKind,
    start_id: &str,
    reached: &Vec<Reached>,
) -> (r: bool)
    ensures
        r == seen_with((start_kind@, start_id@), hop_views(reached@)).contains((kind@, id@)),
{
    let ghost keys = hop_views(reached@).map_values(|hop: Hop| key_of(hop));
    if kind.same_as(start_kind) && same(id, start_id) {
        return true;
    }
    let mut i: usize = 0;
    while i < reached.len()
        invariant
            i <= reached.len(),
            keys == hop_views(reached@).map_values(|hop: Hop| key_of(hop)),
            (kind@, id@) != (start_kind@, start_id@),
            forall|j: int| 0 <= j < i ==> #[trigger] keys[j] != (kind@, id@),
        decreases reached.len() - i,
    {
        assert(keys[i as int] == (reached[i as int].kind@, reached[i as int].cloud_id@));
        if reached[i].kind.same_as(kind) && same(reached[i].cloud_id.as_str(), id) {
            return true;
        }
        i += 1;
    }
    false
}

fn discover_from(
    graph: &Graph,
    from: &Reached,
    start_kind: &ResourceKind,
    start_id: &str,
    reached: &mut Vec<Reached>,
)
    ensures
        hop_views(final(reached)@) == hop_views(old(reached)@) + fresh(
            hops_from(graph@, from@),
            seen_with((start_kind@, start_id@), hop_views(old(reached)@)),
        ),
{
    let ghost start = (start_kind@, start_id@);
    let ghost base = hop_views(reached@);
    let ghost all = hops_from(graph@, from@);
    let ghost seen = seen_with(start, base);
    assert(base =~= base + fresh(all.take(0), seen));
    match graph.node(&from.kind, from.cloud_id.as_str()) {
        Some(node) => {
            let steps = neighbors(graph, node, from.ports.as_slice());
            let mut i: usize = 0;
            while i < steps.len()
                invariant
                    i <= steps.len(),
                    all.len() == steps.len(),
                    start == (start_kind@, start_id@),
                    seen == seen_with(start, base),
                    forall|j: int|
                        0 <= j < all.len() ==> #[trigger] all[j] == (Hop {
                            kind: steps[j].kind@,
                            id: steps[j].cloud_id@,
                            path: texts(from.path@).push(steps[j].cloud_id@),
                            ports: port_views(steps[j].ports@),
                        }),
                    hop_views(reached@) == base + fresh(all.take(i as int), seen),
                decreases steps.len() - i,
            {
                let step = &steps[i];
                let ghost found = fresh(all.take(i as int), seen);
                let ghost earlier = reached@;
                proof {
                    assert(all.take(i + 1).drop_last() =~= all.take(i as int));
                    assert(all.take(i + 1).last() == all[i as int]);
                    keys_of_joined(base, found);
                    assert(seen.union(keys_of(found)) =~= seen_with(start, hop_views(reached@)));
                }
                if !is_seen(&step.kind, step.cloud_id.as_str(), start_kind, start_id, reached) {
                    let mut path = copied_texts(&from.path);
                    let ghost passed = path@;
                    path.push(step.cloud_id.clone());
                    assert(texts(path@) =~= texts(passed).push(step.cloud_id@));
                    let next = Reached {
                        kind: step.kind.clone(),
                        cloud_id: step.cloud_id.clone(),
                        path,
                        ports: copied_ports(step.ports.as_slice()),
                    };
                    let ghost hop = next@;
                    reached.push(next);
                    assert(hop == all[i as int]);
                    assert(hop_views(reached@) =~= hop_views(earlier).push(hop));
                    assert(hop_views(reached@) =~= base + fresh(all.take(i + 1), seen));
                }
                i += 1;
            }
            assert(all.take(i as int) =~= all);
        },
        None => {
            assert(all.take(0) =~= all);
        },
    }
}

/// Every resource reachable from `start_id` within `max_hops`, however many security-group,
/// load-balancer, or target-group hops away, starting from `start_ports` (the entry rule's own
/// port(s), see [`EntryPoint`]).
///
/// A plain walk by distance: what was seen is not visited again, so a cycle (two groups trusting each
/// other) terminates instead of looping. Deterministic by construction, so resources are reported in
/// the same order every run.
///
/// Only *one* path (and its port context) is ever reported per resource per call, even when several
/// distinct paths reach it.
pub fn reachable_from(
    graph: &Graph,
    start_kind: &ResourceKind,
    start_id: &str,
    start_ports: &[PortSpec],
    max_hops: usize,
) -> (r: Vec<Reached>)
    ensures
        hop_views(r@) == reachable(
            graph@,
            start_kind@,
            start_id@,
            port_views(start_ports@),
            max_hops as nat,
        ),
{
    let ghost start = (start_kind@, start_id@);
    let ghost all = reachable(
        graph@,
        start_kind@,
        start_id@,
        port_views(start_ports@),
        max_hops as nat,
    );
    let mut reached: Vec<Reached> = Vec::new();
    assert(hop_views(reached@) =~= Seq::empty());
    if max_hops == 0 {
        return reached;
    }
    let origin = Reached {
        kind: start_kind.clone(),
        cloud_id: start_id.to_owned(),
        path: Vec::new(),
        ports: copied_ports(start_ports),
    };
    discover_from(graph, &origin, start_kind, start_id, &mut reached);
    let mut from: usize = 0;
    let mut until: usize = reached.len();
    let mut left: usize = max_hops - 1;
    proof {
        let layer = seq![origin@];
        let none = Seq::<Hop>::empty();
        assert(texts(origin.path@) =~= Seq::empty());
        assert(layer.drop_last() =~= none);
        assert(keys_of(none) =~= Set::empty());
        assert(set![start].union(keys_of(none)) =~= set![start]);
        assert(seen_with(start, none) =~= set![start]);
        assert(discovered(graph@, none, set![start]) =~= none);
        assert(layer.last() == origin@);
        assert(none + fresh(hops_from(graph@, origin@), set![start]) =~= hop_views(reached@));
        assert(discovered(graph@, layer, set![start]) =~= hop_views(reached@));
        assert(hop_views(reached@).subrange(0, until as int) =~= hop_views(reached@));
        assert(all =~= hop_views(reached@) + walked(
            graph@,
            hop_views(reached@),
            seen_with(start, hop_views(reached@)),
            left as nat,
        ));
    }
    while left > 0 && from < until
        invariant
            from <= until == reached.len(),
            start == (start_kind@, start_id@),
            all == hop_views(reached@) + walked(
                graph@,
                hop_views(reached@).subrange(from as int, until as int),
                seen_with(start, hop_views(reached@)),
                left as nat,
            ),
        decreases left,
    {
        let ghost base = hop_views(reached@);
        let ghost layer = base.subrange(from as int, until as int);
        let ghost seen = seen_with(start, base);
        let mut i: usize = from;
        assert(base =~= base + discovered(graph@, layer.take(0), seen));
        while i < until
            invariant
                from <= i <= until == base.len(),
                until <= reached.len(),
                start == (start_kind@, start_id@),
                layer == base.subrange(from as int, until as int),
                seen == seen_with(start, base),
                hop_views(reached@) == base + discovered(graph@, layer.take(i - from), seen),
            decreases until - i,
        {
            let ghost found = discovered(graph@, layer.take(i - from), seen);
            let hop = reached[i].clone();
            proof {
                assert(hop_views(reached@)[i as int] == base[i as int]);
                assert(layer.take(i - from + 1).drop_last() =~= layer.take(i - from));
                assert(layer.take(i - from + 1).last() == hop@);
                keys_of_joined(base, found);
                assert(seen.union(keys_of(found)) =~= seen_with(start, hop_views(reached@)));
            }
            discover_from(graph, &hop, start_kind, start_id, &mut reached);
            assert(hop_views(reached@) =~= base + discovered(
                graph@,
                layer.take(i - from + 1),
                seen,
            ));
            i += 1;
        }
        proof {
            let next = discovered(graph@, layer, seen);
            assert(layer.take(i - from) =~= layer);
            keys_of_joined(base, next);
            assert(seen.union(keys_of(next)) =~= seen_with(start, hop_views(reached@)));
            assert(hop_views(reached@).subrange(until as int, reached.len() as int) =~= next);
            assert(all =~= hop_views(reached@) + walked(
                graph@,
                next,
                seen_with(start, hop_views(reached@)),
                (left - 1) as nat,
            ));
        }
        from = until;
        until = reached.len();
        left -= 1;
    }
    proof {
        let layer = hop_views(reached@).subrange(from as int, until as int);
        if left > 0 {
            assert(layer =~= Seq::empty());
            nothing_from_nothing(graph@, seen_with(start, hop_views(reached@)), left as nat);
        }
        assert(all =~= hop_views(reached@));
    }
    reached
}

/// The graph has a node for `a`, and one hop from it reaches `b`.
pub open spec fn linked(
    graph: Seq<Observed>,
    a: (Kind, Seq<char>),
    b: (Kind, Seq<char>),
) -> bool {
    observation(graph, a.0, a.1) matches Some(node) && exists|i: int|
        0 <= i < steps_from(graph, node, Seq::empty()).len() && (
        #[trigger] steps_from(graph, node, Seq::empty())[i]).kind == b.0 && steps_from(
            graph,
            node,
            Seq::empty(),
        )[i].id == b.1
}

/// Each of `keys` is linked to the next.
pub open spec fn is_walk(graph: Seq<Observed>, keys: Seq<(Kind, Seq<char>)>) -> bool {
    keys.len() > 0 && forall|i: int|
        0 <= i < keys.len() - 1 ==> linked(graph, #[trigger] keys[i], keys[i + 1])
}

/// `keys` is a walk from `start` to the resource of `hop` that passes the cloud IDs of its path.
pub open spec fn arrives(
    graph: Seq<Observed>,
    start: (Kind, Seq<char>),
    hop: Hop,
    keys: Seq<(Kind, Seq<char>)>,
) -> bool {
    &&& is_walk(graph, keys)
    &&& keys[0] == start
    &&& keys.last() == key_of(hop)
    &&& keys.len() == hop.path.len() + 1
    &&& forall|i: int| 0 <= i < hop.path.len() ==> (#[trigger] hop.path[i]) == keys[i + 1].1
}

/// A protocol number is already what rules of either sort mean by it: naming it again changes
/// nothing. The four names become their numbers, and anything else, `"-1"` among it, stays as it is.
pub proof fn numbers_stay(protocol: Seq<char>)
    ensures
        number_of(number_of(protocol)) == number_of(protocol),
        number_of("tcp"@) == "6"@,
        number_of("udp"@) == "17"@,
        number_of("icmp"@) == "1"@,
        number_of("icmpv6"@) == "58"@,
        number_of("-1"@) == "-1"@,
        protocol != "tcp"@ && protocol != "udp"@ && protocol != "icmp"@ && protocol != "icmpv6"@
            ==> number_of(protocol) == protocol,
{
    reveal_strlit("tcp");
    reveal_strlit("udp");
    reveal_strlit("icmp");
    reveal_strlit("icmpv6");
    reveal_strlit("6");
    reveal_strlit("17");
    reveal_strlit("1");
    reveal_strlit("58");
    reveal_strlit("-1");
    assert("tcp"@[0] != "udp"@[0]);
    assert("icmp"@.len() == 4 && "icmpv6"@.len() == 6);
}

/// Which resources one hop reaches, and in which order, does not depend on the ports on which the
/// hop starts.
pub proof fn ports_do_not_steer(graph: Seq<Observed>, node: Observed, p: Seq<Ports>, q: Seq<Ports>)
    ensures
        steps_from(graph, node, p).len() == steps_from(graph, node, q).len(),
        forall|i: int|
            0 <= i < steps_from(graph, node, p).len() ==> (#[trigger] steps_from(
                graph,
                node,
                p,
            )[i]).kind == steps_from(graph, node, q)[i].kind && steps_from(graph, node, p)[i].id
                == steps_from(graph, node, q)[i].id,
{
}

/// A hop by trust discards the ports on which it starts: a group that trusts a group of the node is
/// reached on the ports of the rules that trust, whatever the node was reached on.
pub proof fn trust_replaces_ports(graph: Seq<Observed>, node: Observed, ports: Seq<Ports>, i: int)
    requires
        0 <= i < steps_from(graph, node, ports).len(),
        steps_from(graph, node, ports)[i].kind == Kind::AwsSecurityGroup,
    ensures
        forall|other: Seq<Ports>| #[trigger]
            steps_from(graph, node, other)[i] == steps_from(graph, node, ports)[i],
        exists|source: Seq<char>|
            {
                &&& listed_at(
                    node,
                    if node.kind == Kind::AwsLoadBalancer {
                        "security_groups"@
                    } else {
                        "vpc_security_group_ids"@
                    },
                ).contains(source)
                &&& (#[trigger] trusting(graph, source)).contains(
                    (steps_from(graph, node, ports)[i].id, steps_from(graph, node, ports)[i].ports),
                )
            },
{
    let field = if node.kind == Kind::AwsLoadBalancer {
        "security_groups"@
    } else {
        "vpc_security_group_ids"@
    };
    let sources = listed_at(node, field);
    assert(i < trust_steps(graph, sources).len());
    assert(steps_from(graph, node, ports)[i] == trust_steps(graph, sources)[i]);
    trust_has_a_source(graph, sources, i);
}

proof fn trust_has_a_source(graph: Seq<Observed>, sources: Seq<Seq<char>>, i: int)
    requires
        0 <= i < trust_steps(graph, sources).len(),
    ensures
        exists|source: Seq<char>|
            sources.contains(source) && (#[trigger] trusting(graph, source)).contains(
                (trust_steps(graph, sources)[i].id, trust_steps(graph, sources)[i].ports),
            ),
    decreases sources.len(),
{
    let before = trust_steps(graph, sources.drop_last());
    let step = trust_steps(graph, sources)[i];
    if i < before.len() {
        trust_has_a_source(graph, sources.drop_last(), i);
        let source = choose|source: Seq<char>|
            sources.drop_last().contains(source) && (#[trigger] trusting(graph, source)).contains(
                (step.id, step.ports),
            );
        let j = choose|j: int| 0 <= j < sources.drop_last().len() && sources.drop_last()[j] == source;
        assert(sources[j] == source);
    } else {
        let last = sources.last();
        assert(trusting(graph, last)[i - before.len()] == (step.id, step.ports));
        assert(sources[sources.len() - 1] == last);
    }
}

/// A hop by registration discards the ports on which it starts: a target is reached as tcp on the
/// one port of its target group, whatever the target group was reached on.
pub proof fn registration_replaces_ports(
    graph: Seq<Observed>,
    node: Observed,
    ports: Seq<Ports>,
    i: int,
)
    requires
        node.kind == Kind::AwsLbTargetGroup,
        0 <= i < steps_from(graph, node, ports).len(),
    ensures
        steps_from(graph, node, ports)[i] == (Step {
            kind: Kind::AwsInstance,
            id: listed_at(node, "targets"@)[i],
            ports: seq![
                Ports {
                    protocol: "6"@,
                    from: number_at(Json::Object(node.attributes), "port"@),
                    to: number_at(Json::Object(node.attributes), "port"@),
                },
            ],
        }),
{
}

/// A hop by membership keeps the ports on which it starts: whatever references the group, or the
/// load balancer as its target group, is reached on the very ports on which the node was.
pub proof fn membership_keeps_ports(
    graph: Seq<Observed>,
    node: Observed,
    ports: Seq<Ports>,
    i: int,
)
    requires
        0 <= i < steps_from(graph, node, ports).len(),
        node.kind == Kind::AwsSecurityGroup || (node.kind == Kind::AwsLoadBalancer && steps_from(
            graph,
            node,
            ports,
        )[i].kind == Kind::AwsLbTargetGroup),
    ensures
        steps_from(graph, node, ports)[i].ports == ports,
        referrers_of(graph, node.cloud_id, steps_from(graph, node, ports)[i].kind).contains(
            steps_from(graph, node, ports)[i].id,
        ),
{
    let step = steps_from(graph, node, ports)[i];
    let listed = listing::<String>(referrers_of(graph, node.cloud_id, step.kind));
    if node.kind == Kind::AwsLoadBalancer {
        all_steps_are_groups(graph, listed_at(node, "security_groups"@));
    }
    referrers_are_finite(graph, node.cloud_id, step.kind);
    finite_is_listed::<String>(referrers_of(graph, node.cloud_id, step.kind));
    assert(listed.contains(step.id));
    assert(listed.to_set().contains(step.id));
}

proof fn all_steps_are_groups(graph: Seq<Observed>, sources: Seq<Seq<char>>)
    ensures
        forall|i: int|
            0 <= i < trust_steps(graph, sources).len() ==> (#[trigger] trust_steps(
                graph,
                sources,
            )[i]).kind == Kind::AwsSecurityGroup,
    decreases sources.len(),
{
    if sources.len() > 0 {
        all_steps_are_groups(graph, sources.drop_last());
    }
}

proof fn hops_are_linked(graph: Seq<Observed>, hop: Hop, i: int)
    requires
        0 <= i < hops_from(graph, hop).len(),
    ensures
        linked(graph, key_of(hop), key_of(hops_from(graph, hop)[i])),
        hops_from(graph, hop)[i].path == hop.path.push(hops_from(graph, hop)[i].id),
{
    let node = observation(graph, hop.kind, hop.id)->0;
    ports_do_not_steer(graph, node, hop.ports, Seq::empty());
    assert(steps_from(graph, node, Seq::empty())[i].kind == steps_from(
        graph,
        node,
        hop.ports,
    )[i].kind);
}

proof fn fresh_is_among(hops: Seq<Hop>, seen: Set<(Kind, Seq<char>)>)
    ensures
        forall|i: int|
            0 <= i < fresh(hops, seen).len() ==> hops.contains(#[trigger] fresh(hops, seen)[i]),
    decreases hops.len(),
{
    if hops.len() > 0 {
        let rest = hops.drop_last();
        fresh_is_among(rest, seen);
        let before = fresh(rest, seen);
        let all = fresh(hops, seen);
        assert forall|i: int| 0 <= i < all.len() implies hops.contains(#[trigger] all[i]) by {
            if i < before.len() {
                assert(all[i] == before[i]);
                let k = choose|k: int| 0 <= k < rest.len() && rest[k] == before[i];
                assert(hops[k] == all[i]);
            } else {
                assert(hops[hops.len() - 1] == all[i]);
            }
        }
    }
}

proof fn arrives_further(
    graph: Seq<Observed>,
    start: (Kind, Seq<char>),
    hop: Hop,
    i: int,
)
    requires
        0 <= i < hops_from(graph, hop).len(),
        exists|keys: Seq<(Kind, Seq<char>)>| arrives(graph, start, hop, keys),
    ensures
        exists|keys: Seq<(Kind, Seq<char>)>|
            arrives(graph, start, hops_from(graph, hop)[i], keys),
{
    let next = hops_from(graph, hop)[i];
    let keys = choose|keys: Seq<(Kind, Seq<char>)>| arrives(graph, start, hop, keys);
    hops_are_linked(graph, hop, i);
    let longer = keys.push(key_of(next));
    assert forall|k: int| 0 <= k < longer.len() - 1 implies linked(
        graph,
        #[trigger] longer[k],
        longer[k + 1],
    ) by {
        assert(longer[k] == keys[k]);
        if k < keys.len() - 1 {
            assert(linked(graph, keys[k], keys[k + 1]));
        }
    }
    assert forall|k: int| 0 <= k < next.path.len() implies (#[trigger] next.path[k]) == longer[k
        + 1].1 by {
        if k < hop.path.len() {
            assert(hop.path[k] == keys[k + 1].1);
        }
    }
    assert(arrives(graph, start, next, longer));
}

/// Every one of `hops` is arrived at by a walk of `length` hops.
spec fn all_arrive(
    graph: Seq<Observed>,
    start: (Kind, Seq<char>),
    hops: Seq<Hop>,
    length: int,
) -> bool {
    forall|i: int|
        0 <= i < hops.len() ==> (#[trigger] hops[i]).path.len() == length && exists|
            keys: Seq<(Kind, Seq<char>)>,
        |
            arrives(graph, start, hops[i], keys)
}

proof fn discovered_arrive(
    graph: Seq<Observed>,
    start: (Kind, Seq<char>),
    layer: Seq<Hop>,
    seen: Set<(Kind, Seq<char>)>,
    length: int,
)
    requires
        all_arrive(graph, start, layer, length),
    ensures
        all_arrive(graph, start, discovered(graph, layer, seen), length + 1),
    decreases layer.len(),
{
    if layer.len() > 0 {
        let rest = layer.drop_last();
        assert(all_arrive(graph, start, rest, length)) by {
            assert forall|i: int| 0 <= i < rest.len() implies (#[trigger] rest[i]).path.len()
                == length && exists|keys: Seq<(Kind, Seq<char>)>|
                arrives(graph, start, rest[i], keys) by {
                assert(rest[i] == layer[i]);
            }
        }
        discovered_arrive(graph, start, rest, seen, length);
        let before = discovered(graph, rest, seen);
        let last = layer.last();
        assert(layer[layer.len() - 1] == last);
        let candidates = hops_from(graph, last);
        let more = fresh(candidates, seen.union(keys_of(before)));
        fresh_is_among(candidates, seen.union(keys_of(before)));
        let all = discovered(graph, layer, seen);
        assert forall|i: int| 0 <= i < all.len() implies (#[trigger] all[i]).path.len() == length
            + 1 && exists|keys: Seq<(Kind, Seq<char>)>| arrives(graph, start, all[i], keys) by {
            if i < before.len() {
                assert(all[i] == before[i]);
            } else {
                let hop = more[i - before.len()];
                assert(all[i] == hop);
                let k = choose|k: int| 0 <= k < candidates.len() && candidates[k] == hop;
                arrives_further(graph, start, last, k);
                hops_are_linked(graph, last, k);
            }
        }
    }
}

proof fn walked_arrive(
    graph: Seq<Observed>,
    start: (Kind, Seq<char>),
    layer: Seq<Hop>,
    seen: Set<(Kind, Seq<char>)>,
    hops: nat,
    length: int,
)
    requires
        all_arrive(graph, start, layer, length),
    ensures
        forall|i: int|
            0 <= i < walked(graph, layer, seen, hops).len() ==> length < (#[trigger] walked(
                graph,
                layer,
                seen,
                hops,
            )[i]).path.len() <= length + hops && exists|keys: Seq<(Kind, Seq<char>)>|
                arrives(graph, start, walked(graph, layer, seen, hops)[i], keys),
    decreases hops,
{
    if hops > 0 {
        let next = discovered(graph, layer, seen);
        discovered_arrive(graph, start, layer, seen, length);
        let seen2 = seen.union(keys_of(next));
        walked_arrive(graph, start, next, seen2, (hops - 1) as nat, length + 1);
        let more = walked(graph, next, seen2, (hops - 1) as nat);
        let all = walked(graph, layer, seen, hops);
        assert forall|i: int| 0 <= i < all.len() implies length < (#[trigger] all[i]).path.len()
            <= length + hops && exists|keys: Seq<(Kind, Seq<char>)>|
            arrives(graph, start, all[i], keys) by {
            if i < next.len() {
                assert(all[i] == next[i]);
            } else {
                assert(all[i] == more[i - next.len()]);
            }
        }
    }
}

/// Everything that is reported is reachable: its path is a real chain of hops from the start, at
/// least one and at most `max_hops` long, that ends at it.
pub proof fn reported_is_reachable(
    graph: Seq<Observed>,
    kind: Kind,
    id: Seq<char>,
    ports: Seq<Ports>,
    max_hops: nat,
    i: int,
)
    requires
        0 <= i < reachable(graph, kind, id, ports, max_hops).len(),
    ensures
        ({
            let hop = reachable(graph, kind, id, ports, max_hops)[i];
            &&& 1 <= hop.path.len() <= max_hops
            &&& hop.path.last() == hop.id
            &&& exists|keys: Seq<(Kind, Seq<char>)>| arrives(graph, (kind, id), hop, keys)
        }),
{
    let start = Hop { kind, id, path: Seq::empty(), ports };
    let layer = seq![start];
    let keys = seq![(kind, id)];
    assert(arrives(graph, (kind, id), start, keys));
    assert(all_arrive(graph, (kind, id), layer, 0)) by {
        assert forall|k: int| 0 <= k < layer.len() implies (#[trigger] layer[k]).path.len() == 0
            && exists|keys: Seq<(Kind, Seq<char>)>|
            arrives(graph, (kind, id), layer[k], keys) by {
            assert(layer[k] == start);
        }
    }
    walked_arrive(graph, (kind, id), layer, set![(kind, id)], max_hops, 0);
    let hop = reachable(graph, kind, id, ports, max_hops)[i];
    let way = choose|keys: Seq<(Kind, Seq<char>)>| arrives(graph, (kind, id), hop, keys);
    assert(hop.path[hop.path.len() - 1] == way[hop.path.len() as int].1);
}

/// No two of `hops` are the same resource.
pub open spec fn no_repeats(hops: Seq<Hop>) -> bool {
    forall|i: int, j: int|
        0 <= i < j < hops.len() ==> key_of(#[trigger] hops[i]) != key_of(#[trigger] hops[j])
}

proof fn key_among(hops: Seq<Hop>, i: int)
    requires
        0 <= i < hops.len(),
    ensures
        keys_of(hops).contains(key_of(hops[i])),
{
    assert(hops.map_values(|hop: Hop| key_of(hop))[i] == key_of(hops[i]));
}

proof fn fresh_is_new(hops: Seq<Hop>, seen: Set<(Kind, Seq<char>)>)
    ensures
        no_repeats(fresh(hops, seen)),
        keys_of(fresh(hops, seen)).disjoint(seen),
    decreases hops.len(),
{
    if hops.len() > 0 {
        let rest = hops.drop_last();
        fresh_is_new(rest, seen);
        let before = fresh(rest, seen);
        let all = fresh(hops, seen);
        if all.len() > before.len() {
            let last = hops.last();
            assert(all == before.push(last));
            assert forall|i: int, j: int| 0 <= i < j < all.len() implies key_of(
                #[trigger] all[i],
            ) != key_of(#[trigger] all[j]) by {
                if j == before.len() {
                    key_among(before, i);
                    assert(all[i] == before[i]);
                } else {
                    assert(all[i] == before[i] && all[j] == before[j]);
                }
            }
            assert(all =~= before + seq![last]);
            keys_of_joined(before, seq![last]);
            only_key(last);
            assert(keys_of(all).disjoint(seen));
        }
    } else {
        assert(keys_of(fresh(hops, seen)) =~= Set::empty());
    }
}

proof fn only_key(hop: Hop)
    ensures
        keys_of(seq![hop]) == set![key_of(hop)],
{
    let keys = seq![hop].map_values(|hop: Hop| key_of(hop));
    assert(keys =~= seq![key_of(hop)]);
    assert(keys[0] == key_of(hop));
    assert(keys_of(seq![hop]) =~= set![key_of(hop)]);
}

proof fn joined_without_repeats(a: Seq<Hop>, b: Seq<Hop>)
    requires
        no_repeats(a),
        no_repeats(b),
        keys_of(b).disjoint(keys_of(a)),
    ensures
        no_repeats(a + b),
{
    let all = a + b;
    assert forall|i: int, j: int| 0 <= i < j < all.len() implies key_of(#[trigger] all[i])
        != key_of(#[trigger] all[j]) by {
        if j < a.len() {
            assert(all[i] == a[i] && all[j] == a[j]);
        } else if i >= a.len() {
            assert(all[i] == b[i - a.len()] && all[j] == b[j - a.len()]);
        } else {
            key_among(a, i);
            key_among(b, j - a.len());
            assert(all[i] == a[i] && all[j] == b[j - a.len()]);
        }
    }
}

proof fn discovered_is_new(
    graph: Seq<Observed>,
    layer: Seq<Hop>,
    seen: Set<(Kind, Seq<char>)>,
)
    ensures
        no_repeats(discovered(graph, layer, seen)),
        keys_of(discovered(graph, layer, seen)).disjoint(seen),
    decreases layer.len(),
{
    if layer.len() > 0 {
        discovered_is_new(graph, layer.drop_last(), seen);
        let before = discovered(graph, layer.drop_last(), seen);
        let candidates = hops_from(graph, layer.last());
        let more = fresh(candidates, seen.union(keys_of(before)));
        fresh_is_new(candidates, seen.union(keys_of(before)));
        joined_without_repeats(before, more);
        keys_of_joined(before, more);
    } else {
        assert(keys_of(discovered(graph, layer, seen)) =~= Set::empty());
    }
}

proof fn walked_is_new(
    graph: Seq<Observed>,
    layer: Seq<Hop>,
    seen: Set<(Kind, Seq<char>)>,
    hops: nat,
)
    ensures
        no_repeats(walked(graph, layer, seen, hops)),
        keys_of(walked(graph, layer, seen, hops)).disjoint(seen),
    decreases hops,
{
    if hops > 0 {
        let next = discovered(graph, layer, seen);
        discovered_is_new(graph, layer, seen);
        let seen2 = seen.union(keys_of(next));
        walked_is_new(graph, next, seen2, (hops - 1) as nat);
        let more = walked(graph, next, seen2, (hops - 1) as nat);
        joined_without_repeats(next, more);
        keys_of_joined(next, more);
    } else {
        assert(keys_of(walked(graph, layer, seen, hops)) =~= Set::empty());
    }
}

/// No resource is reported twice, and the start is not reported.
pub proof fn reported_once(
    graph: Seq<Observed>,
    kind: Kind,
    id: Seq<char>,
    ports: Seq<Ports>,
    max_hops: nat,
)
    ensures
        no_repeats(reachable(graph, kind, id, ports, max_hops)),
        !keys_of(reachable(graph, kind, id, ports, max_hops)).contains((kind, id)),
{
    let layer = seq![Hop { kind, id, path: Seq::empty(), ports }];
    walked_is_new(graph, layer, set![(kind, id)], max_hops);
    assert(set![(kind, id)].contains((kind, id)));
}

proof fn walked_is_extended(
    graph: Seq<Observed>,
    layer: Seq<Hop>,
    seen: Set<(Kind, Seq<char>)>,
    fewer: nat,
    more: nat,
)
    requires
        fewer <= more,
    ensures
        walked(graph, layer, seen, fewer).is_prefix_of(walked(graph, layer, seen, more)),
    decreases fewer,
{
    if fewer > 0 {
        let next = discovered(graph, layer, seen);
        walked_is_extended(
            graph,
            next,
            seen.union(keys_of(next)),
            (fewer - 1) as nat,
            (more - 1) as nat,
        );
        let a = walked(graph, next, seen.union(keys_of(next)), (fewer - 1) as nat);
        let b = walked(graph, next, seen.union(keys_of(next)), (more - 1) as nat);
        assert(next + a =~= (next + b).subrange(0, (next + a).len() as int)) by {
            assert(a =~= b.subrange(0, a.len() as int));
            assert forall|i: int| 0 <= i < a.len() implies a[i] == b[i] by {
                assert(b.subrange(0, a.len() as int)[i] == b[i]);
            }
        }
    }
}

/// A larger bound on the hops only appends: what fewer hops reach, by which way and on which ports,
/// stays as it is, and what more hops reach comes after it.
pub proof fn more_hops_only_append(
    graph: Seq<Observed>,
    kind: Kind,
    id: Seq<char>,
    ports: Seq<Ports>,
    fewer: nat,
    more: nat,
)
    requires
        fewer <= more,
    ensures
        reachable(graph, kind, id, ports, fewer).is_prefix_of(
            reachable(graph, kind, id, ports, more),
        ),
{
    walked_is_extended(
        graph,
        seq![Hop { kind, id, path: Seq::empty(), ports }],
        set![(kind, id)],
        fewer,
        more,
    );
}

/// All that one hop reaches from a resource of `from` is in `within`.
spec fn closed(
    graph: Seq<Observed>,
    from: Set<(Kind, Seq<char>)>,
    within: Set<(Kind, Seq<char>)>,
) -> bool {
    forall|a: (Kind, Seq<char>), b: (Kind, Seq<char>)|
        from.contains(a) && #[trigger] linked(graph, a, b) ==> within.contains(b)
}

proof fn fresh_covers(hops: Seq<Hop>, seen: Set<(Kind, Seq<char>)>)
    ensures
        keys_of(hops).subset_of(seen.union(keys_of(fresh(hops, seen)))),
    decreases hops.len(),
{
    if hops.len() > 0 {
        let rest = hops.drop_last();
        let last = hops.last();
        fresh_covers(rest, seen);
        let before = fresh(rest, seen);
        let all = fresh(hops, seen);
        assert(hops =~= rest + seq![last]);
        keys_of_joined(rest, seq![last]);
        only_key(last);
        if all.len() > before.len() {
            assert(all =~= before + seq![last]);
            keys_of_joined(before, seq![last]);
        }
    } else {
        assert(keys_of(hops) =~= Set::empty());
    }
}

proof fn discovered_covers(
    graph: Seq<Observed>,
    layer: Seq<Hop>,
    seen: Set<(Kind, Seq<char>)>,
)
    ensures
        closed(graph, keys_of(layer), seen.union(keys_of(discovered(graph, layer, seen)))),
    decreases layer.len(),
{
    let all = discovered(graph, layer, seen);
    if layer.len() > 0 {
        let rest = layer.drop_last();
        let last = layer.last();
        discovered_covers(graph, rest, seen);
        let before = discovered(graph, rest, seen);
        let candidates = hops_from(graph, last);
        let more = fresh(candidates, seen.union(keys_of(before)));
        fresh_covers(candidates, seen.union(keys_of(before)));
        keys_of_joined(before, more);
        assert(layer =~= rest + seq![last]);
        keys_of_joined(rest, seq![last]);
        only_key(last);
        assert forall|a: (Kind, Seq<char>), b: (Kind, Seq<char>)|
            keys_of(layer).contains(a) && #[trigger] linked(graph, a, b) implies seen.union(
            keys_of(all),
        ).contains(b) by {
            if !keys_of(rest).contains(a) {
                let node = observation(graph, last.kind, last.id)->0;
                ports_do_not_steer(graph, node, Seq::empty(), last.ports);
                let i = choose|i: int|
                    0 <= i < steps_from(graph, node, Seq::empty()).len() && (
                    #[trigger] steps_from(graph, node, Seq::empty())[i]).kind == b.0 && steps_from(
                        graph,
                        node,
                        Seq::empty(),
                    )[i].id == b.1;
                assert(key_of(candidates[i]) == b);
                key_among(candidates, i);
            }
        }
    } else {
        assert(keys_of(layer) =~= Set::empty());
    }
}

proof fn walk_stays(
    graph: Seq<Observed>,
    layer: Seq<Hop>,
    seen: Set<(Kind, Seq<char>)>,
    hops: nat,
    keys: Seq<(Kind, Seq<char>)>,
)
    requires
        closed(graph, seen.difference(keys_of(layer)), seen),
        is_walk(graph, keys),
        seen.contains(keys[0]),
        keys.len() <= hops + 1,
    ensures
        seen.union(keys_of(walked(graph, layer, seen, hops))).contains(keys.last()),
    decreases hops,
{
    if keys.len() > 1 {
        let next = discovered(graph, layer, seen);
        let seen2 = seen.union(keys_of(next));
        discovered_covers(graph, layer, seen);
        assert(closed(graph, seen, seen2)) by {
            assert forall|a: (Kind, Seq<char>), b: (Kind, Seq<char>)|
                seen.contains(a) && #[trigger] linked(graph, a, b) implies seen2.contains(b) by {
                if !keys_of(layer).contains(a) {
                    assert(seen.difference(keys_of(layer)).contains(a));
                }
            }
        }
        assert(closed(graph, seen2.difference(keys_of(next)), seen2)) by {
            assert forall|a: (Kind, Seq<char>), b: (Kind, Seq<char>)|
                seen2.difference(keys_of(next)).contains(a) && #[trigger] linked(
                    graph,
                    a,
                    b,
                ) implies seen2.contains(b) by {
                assert(seen.contains(a));
            }
        }
        let rest = keys.subrange(1, keys.len() as int);
        assert(linked(graph, keys[0], keys[1]));
        assert(rest[0] == keys[1]);
        assert(is_walk(graph, rest)) by {
            assert forall|i: int| 0 <= i < rest.len() - 1 implies linked(
                graph,
                #[trigger] rest[i],
                rest[i + 1],
            ) by {
                assert(rest[i] == keys[i + 1]);
                assert(linked(graph, keys[i + 1], keys[i + 1 + 1]));
            }
        }
        assert(rest.last() == keys.last());
        walk_stays(graph, next, seen2, (hops - 1) as nat, rest);
        keys_of_joined(next, walked(graph, next, seen2, (hops - 1) as nat));
    }
}

/// Everything that can be reached is reported: the end of every walk of at most `max_hops` hops from
/// the start is the start itself or among what is reported.
pub proof fn reachable_is_reported(
    graph: Seq<Observed>,
    kind: Kind,
    id: Seq<char>,
    ports: Seq<Ports>,
    max_hops: nat,
    keys: Seq<(Kind, Seq<char>)>,
)
    requires
        is_walk(graph, keys),
        keys[0] == (kind, id),
        keys.len() <= max_hops + 1,
    ensures
        keys.last() == (kind, id) || keys_of(
            reachable(graph, kind, id, ports, max_hops),
        ).contains(keys.last()),
{
    let start = Hop { kind, id, path: Seq::empty(), ports };
    only_key(start);
    let seen = set![(kind, id)];
    assert(seen.difference(keys_of(seq![start])) =~= Set::empty());
    walk_stays(graph, seq![start], seen, max_hops, keys);
}

/// A group with an ingress rule for the internet is among the internet-facing groups, and only such
/// groups are.
pub proof fn facing_means_open_to_the_internet(groups: Seq<Observed>, id: Seq<char>)
    ensures
        (exists|i: int|
            0 <= i < facing_among(groups).len() && (#[trigger] facing_among(groups)[i]).0 == id)
            <==> exists|i: int|
            0 <= i < groups.len() && (#[trigger] groups[i]).cloud_id == id && entries_among(
                ingress(groups[i]),
            ) != Set::<Entry>::empty(),
    decreases groups.len(),
{
    if groups.len() > 0 {
        let rest = groups.drop_last();
        let n = groups.len() - 1;
        facing_means_open_to_the_internet(rest, id);
        let before = facing_among(rest);
        let all = facing_among(groups);
        if exists|i: int| 0 <= i < all.len() && (#[trigger] all[i]).0 == id {
            let i = choose|i: int| 0 <= i < all.len() && (#[trigger] all[i]).0 == id;
            if i < before.len() {
                assert(before[i].0 == id);
                let k = choose|k: int|
                    0 <= k < rest.len() && (#[trigger] rest[k]).cloud_id == id && entries_among(
                        ingress(rest[k]),
                    ) != Set::<Entry>::empty();
                assert(groups[k] == rest[k]);
            } else {
                assert(groups[n].cloud_id == id);
            }
        }
        if exists|i: int|
            0 <= i < groups.len() && (#[trigger] groups[i]).cloud_id == id && entries_among(
                ingress(groups[i]),
            ) != Set::<Entry>::empty() {
            let k = choose|k: int|
                0 <= k < groups.len() && (#[trigger] groups[k]).cloud_id == id && entries_among(
                    ingress(groups[k]),
                ) != Set::<Entry>::empty();
            if k < n {
                assert(rest[k] == groups[k]);
                let i = choose|i: int| 0 <= i < before.len() && (#[trigger] before[i]).0 == id;
                assert(all[i].0 == id);
            } else {
                assert(all[before.len() as int].0 == id);
            }
        }
    }
}

} // verus!
