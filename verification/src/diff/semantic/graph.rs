//! The resource graph both semantic passes are built on.
//!
//! Two graphs get built per run, one from declared state and one from live observations, by the
//! *same* [`build`] function. That is deliberate: semantic drift is the shape difference between
//! them, so any asymmetry in how they are constructed would show up as a finding.
//!
//! **Nodes are keyed by cloud ID**: the Terraform address exists only on the declared side, so the
//! cloud ID is the only key the two graphs share. Terraform addresses re-enter only when a finding
//! is reported.
//!
//! **Edges come from attribute values, not Terraform references.** The live side has no references
//! at all, AWS returns values, so a declared graph built from `configuration` expressions would have
//! nothing comparable to diff against. Reading values also means a hardcoded `"sg-0abc"` and
//! `aws_security_group.app.id` produce the same edge, which matches what AWS sees.

use vstd::prelude::*;

use crate::collector::{observation, observation_is_of_the_resource, Observed};
use crate::diff::rules::has_text;
use crate::json::{maybe_json, strings_of, texts_among_members, Json, JsonValue, Object};
use crate::ordered::{listing, lists};
use crate::set::TextSet;
use crate::text::{same, texts};
use crate::types::resource::{Kind, ResourceKind};

verus! {

/// The field of a kind whose texts name other resources by cloud ID.
///
/// This is the whole of edge discovery: a relation that needs another sort of edge adds it here.
pub open spec fn edge_field(kind: Kind) -> Option<Seq<char>> {
    match kind {
        Kind::AwsInstance => Some("vpc_security_group_ids"@),
        Kind::AwsLoadBalancer => Some("security_groups"@),
        Kind::AwsLambdaFunction => Some("vpc_security_group_ids"@),
        Kind::AwsDbInstance => Some("vpc_security_group_ids"@),
        Kind::AwsEcsService => Some("vpc_security_group_ids"@),
        Kind::AwsLbTargetGroup => Some("load_balancer_arns"@),
        _ => None,
    }
}

/// `node` names `target` in its edge field.
pub open spec fn references(node: Observed, target: Seq<char>) -> bool {
    match edge_field(node.kind) {
        Some(field) => has_text(Json::Object(node.attributes).get(field), target),
        None => false,
    }
}

/// The cloud IDs of the nodes of a kind that reference `target`.
pub open spec fn referrers_of(graph: Seq<Observed>, target: Seq<char>, kind: Kind) -> Set<
    Seq<char>,
> {
    Set::new(
        |id: Seq<char>|
            exists|i: int|
                0 <= i < graph.len() && (#[trigger] graph[i]).kind == kind && graph[i].cloud_id
                    == id && references(graph[i], target),
    )
}

/// The referrers are among the nodes, so there are finitely many.
pub proof fn referrers_are_finite(graph: Seq<Observed>, target: Seq<char>, kind: Kind)
    ensures
        referrers_of(graph, target, kind).finite(),
{
    let ids = graph.map_values(|node: Observed| node.cloud_id);
    assert forall|id: Seq<char>| referrers_of(graph, target, kind).contains(
        id,
    ) implies ids.to_set().contains(id) by {
        let i = choose|i: int|
            0 <= i < graph.len() && (#[trigger] graph[i]).kind == kind && graph[i].cloud_id == id
                && references(graph[i], target);
        assert(ids[i] == id);
    }
    vstd::seq_lib::seq_to_set_is_finite(ids);
    vstd::set_lib::lemma_len_subset(referrers_of(graph, target, kind), ids.to_set());
}

/// There is a node of this kind.
pub open spec fn has_node_of(graph: Seq<Observed>, kind: Kind) -> bool {
    exists|i: int| 0 <= i < graph.len() && (#[trigger] graph[i]).kind == kind
}

/// The cloud IDs of the nodes of a kind.
pub open spec fn ids_of(graph: Seq<Observed>, kind: Kind) -> Set<Seq<char>> {
    Set::new(
        |id: Seq<char>|
            exists|i: int|
                0 <= i < graph.len() && (#[trigger] graph[i]).kind == kind && graph[i].cloud_id
                    == id,
    )
}

/// The nodes of a kind, in the order of their cloud IDs.
pub open spec fn nodes_of(graph: Seq<Observed>, kind: Kind) -> Seq<Observed> {
    listing::<String>(ids_of(graph, kind)).map_values(
        |id: Seq<char>| observation(graph, kind, id)->0,
    )
}

/// One resource in the graph, as observed on whichever side built it.
#[derive(Debug)]
pub struct Node {
    pub kind: ResourceKind,
    pub cloud_id: String,
    pub attributes: Object,
}

impl View for Node {
    type V = Observed;

    open spec fn view(&self) -> Observed {
        Observed { cloud_id: self.cloud_id@, kind: self.kind@, attributes: self.attributes@ }
    }
}

impl Clone for Node {
    fn clone(&self) -> (r: Self)
        ensures
            r@ == self@,
    {
        Node {
            kind: self.kind.clone(),
            cloud_id: self.cloud_id.clone(),
            attributes: self.attributes.clone(),
        }
    }
}

/// What an optional node denotes.
pub open spec fn maybe_node(node: Option<&Node>) -> Option<Observed> {
    match node {
        Some(n) => Some(n@),
        None => None,
    }
}

/// Resources plus the references between them, for one side of the comparison.
///
/// Of two resources of one kind with one cloud ID the later is the node; the references of both
/// count.
#[derive(Debug)]
pub struct Graph {
    nodes: Vec<Node>,
}

impl View for Graph {
    type V = Seq<Observed>;

    closed spec fn view(&self) -> Seq<Observed> {
        self.nodes@.map_values(|n: Node| n@)
    }
}

impl Default for Graph {
    fn default() -> (r: Self)
        ensures
            r@ == Seq::<Observed>::empty(),
    {
        let empty = Graph { nodes: Vec::new() };
        assert(empty@ =~= Seq::empty());
        empty
    }
}

/// The field of a kind whose texts name other resources by cloud ID.
fn edge_field_of(kind: &ResourceKind) -> (r: Option<&'static str>)
    ensures
        crate::json::maybe_text(r) == edge_field(kind@),
{
    match kind {
        ResourceKind::AwsInstance => Some("vpc_security_group_ids"),
        ResourceKind::AwsLoadBalancer => Some("security_groups"),
        ResourceKind::AwsLambdaFunction => Some("vpc_security_group_ids"),
        ResourceKind::AwsDbInstance => Some("vpc_security_group_ids"),
        ResourceKind::AwsEcsService => Some("vpc_security_group_ids"),
        ResourceKind::AwsLbTargetGroup => Some("load_balancer_arns"),
        _ => None,
    }
}

/// Whether a value is a list that has `text` among its items.
pub(crate) fn lists_text(value: Option<&JsonValue>, text: &str) -> (r: bool)
    ensures
        r == has_text(maybe_json(value), text@),
{
    let list = strings_of(value);
    proof {
        if let Some(Json::Array(items)) = maybe_json(value) {
            texts_among_members(items, text@);
        }
    }
    let mut i: usize = 0;
    while i < list.len()
        invariant
            i <= list.len(),
            texts(list@).contains(text@) == has_text(maybe_json(value), text@),
            forall|j: int| 0 <= j < i ==> #[trigger] texts(list@)[j] != text@,
        decreases list.len() - i,
    {
        assert(texts(list@)[i as int] == list[i as int]@);
        if same(list[i].as_str(), text) {
            return true;
        }
        i += 1;
    }
    false
}

impl Graph {
    /// Look up one node by kind and cloud ID.
    pub fn node(&self, kind: &ResourceKind, cloud_id: &str) -> (r: Option<&Node>)
        ensures
            maybe_node(r) == observation(self@, kind@, cloud_id@),
    {
        let mut i: usize = self.nodes.len();
        assert(self@.take(i as int) =~= self@);
        while i > 0
            invariant
                i <= self.nodes.len(),
                observation(self@, kind@, cloud_id@) == observation(
                    self@.take(i as int),
                    kind@,
                    cloud_id@,
                ),
            decreases i,
        {
            let ghost prefix = self@.take(i as int);
            i -= 1;
            assert(prefix.drop_last() =~= self@.take(i as int));
            assert(prefix.last() == self.nodes[i as int]@);
            if self.nodes[i].kind.same_as(kind) && same(self.nodes[i].cloud_id.as_str(), cloud_id) {
                return Some(&self.nodes[i]);
            }
        }
        None
    }

    /// Cloud IDs of `kind` nodes that reference `target` through an edge field.
    ///
    /// This is the reverse direction of the edge fields: "which instances are in this security
    /// group" is not stored on the group, it is derived from the instances that name it.
    pub fn referrers(&self, target: &str, kind: &ResourceKind) -> (r: TextSet)
        ensures
            r@ == referrers_of(self@, target@, kind@),
    {
        let mut found = TextSet::new();
        match edge_field_of(kind) {
            Some(field) => {
                let mut i: usize = 0;
                assert(found@ =~= referrers_of(self@.take(0), target@, kind@));
                while i < self.nodes.len()
                    invariant
                        i <= self.nodes.len(),
                        edge_field(kind@) == Some(field@),
                        found@ == referrers_of(self@.take(i as int), target@, kind@),
                    decreases self.nodes.len() - i,
                {
                    let node = &self.nodes[i];
                    let ghost before = found@;
                    assert(self@[i as int] == node@);
                    if node.kind.same_as(kind) && lists_text(node.attributes.get(field), target) {
                        found.insert(node.cloud_id.clone());
                    }
                    proof {
                        let p = self@.take(i as int);
                        let q = self@.take(i + 1);
                        assert(q[i as int] == node@);
                        assert forall|id: Seq<char>| referrers_of(p, target@, kind@).contains(
                            id,
                        ) implies referrers_of(q, target@, kind@).contains(id) by {
                            let k = choose|k: int|
                                0 <= k < p.len() && (#[trigger] p[k]).kind == kind@ && p[k].cloud_id
                                    == id && references(p[k], target@);
                            assert(q[k] == p[k]);
                        }
                        assert forall|id: Seq<char>| referrers_of(q, target@, kind@).contains(
                            id,
                        ) implies found@.contains(id) by {
                            let k = choose|k: int|
                                0 <= k < q.len() && (#[trigger] q[k]).kind == kind@ && q[k].cloud_id
                                    == id && references(q[k], target@);
                            if k < i {
                                assert(p[k] == q[k]);
                            }
                        }
                        assert(found@ =~= referrers_of(q, target@, kind@));
                    }
                    i += 1;
                }
                assert(self@.take(i as int) =~= self@);
            },
            None => {
                assert(found@ =~= referrers_of(self@, target@, kind@));
            },
        }
        found
    }

    /// Whether the graph contains any node of this kind.
    ///
    /// Used by the authority check: a side that declares nothing of a kind is not an authority on
    /// relations that depend on it.
    pub fn has_kind(&self, kind: &ResourceKind) -> (r: bool)
        ensures
            r == has_node_of(self@, kind@),
    {
        let mut i: usize = 0;
        while i < self.nodes.len()
            invariant
                i <= self.nodes.len(),
                forall|j: int| 0 <= j < i ==> (#[trigger] self@[j]).kind != kind@,
            decreases self.nodes.len() - i,
        {
            assert(self@[i as int] == self.nodes[i as int]@);
            if self.nodes[i].kind.same_as(kind) {
                return true;
            }
            i += 1;
        }
        false
    }

    /// The nodes of this kind, in the order of their cloud IDs.
    pub fn nodes_of_kind(&self, kind: &ResourceKind) -> (r: Vec<&Node>)
        ensures
            r@.map_values(|n: &Node| n@) == nodes_of(self@, kind@),
    {
        let mut ids = TextSet::new();
        let mut i: usize = 0;
        assert(ids@ =~= ids_of(self@.take(0), kind@));
        while i < self.nodes.len()
            invariant
                i <= self.nodes.len(),
                ids@ == ids_of(self@.take(i as int), kind@),
            decreases self.nodes.len() - i,
        {
            let node = &self.nodes[i];
            assert(self@[i as int] == node@);
            if node.kind.same_as(kind) {
                ids.insert(node.cloud_id.clone());
            }
            proof {
                let p = self@.take(i as int);
                let q = self@.take(i + 1);
                assert(q[i as int] == node@);
                assert forall|id: Seq<char>| ids_of(p, kind@).contains(id) implies ids_of(
                    q,
                    kind@,
                ).contains(id) by {
                    let k = choose|k: int|
                        0 <= k < p.len() && (#[trigger] p[k]).kind == kind@ && p[k].cloud_id == id;
                    assert(q[k] == p[k]);
                }
                assert forall|id: Seq<char>| ids_of(q, kind@).contains(id) implies ids@.contains(
                    id,
                ) by {
                    let k = choose|k: int|
                        0 <= k < q.len() && (#[trigger] q[k]).kind == kind@ && q[k].cloud_id == id;
                    if k < i {
                        assert(p[k] == q[k]);
                    }
                }
                assert(ids@ =~= ids_of(q, kind@));
            }
            i += 1;
        }
        assert(self@.take(i as int) =~= self@);
        let members = ids.members();
        let mut found: Vec<&Node> = Vec::new();
        let mut j: usize = 0;
        while j < members.len()
            invariant
                j <= members.len(),
                found.len() == j,
                lists::<String>(texts(members@), ids_of(self@, kind@)),
                forall|k: int|
                    0 <= k < j ==> Some((#[trigger] found[k])@) == observation(
                        self@,
                        kind@,
                        texts(members@)[k],
                    ),
            decreases members.len() - j,
        {
            let id = &members[j];
            proof {
                assert(texts(members@)[j as int] == id@);
                assert(texts(members@).to_set().contains(id@));
                observation_is_of_the_resource(self@, kind@, id@);
            }
            match self.node(kind, id.as_str()) {
                Some(node) => found.push(node),
                None => {
                    assert(false);
                },
            }
            j += 1;
        }
        assert(found@.map_values(|n: &Node| n@) =~= nodes_of(self@, kind@));
        found
    }
}

/// What a list of `(kind, cloud_id, attributes)` triples denotes.
pub open spec fn triples(nodes: Seq<(&ResourceKind, &str, &Object)>) -> Seq<Observed> {
    nodes.map_values(
        |node: (&ResourceKind, &str, &Object)|
            Observed { cloud_id: node.1@, kind: node.0@, attributes: node.2@ },
    )
}

/// Build a graph from `(kind, cloud_id, attributes)` triples.
///
/// Both the declared and the live side go through here; see the module docs for why that symmetry
/// matters.
pub fn build(nodes: &[(&ResourceKind, &str, &Object)]) -> (r: Graph)
    ensures
        r@ == triples(nodes@),
{
    let mut graph = Graph::default();
    assert(graph@.len() == graph.nodes.len());
    let mut i: usize = 0;
    while i < nodes.len()
        invariant
            i <= nodes.len(),
            graph.nodes.len() == i,
            forall|j: int| 0 <= j < i ==> (#[trigger] graph.nodes[j])@ == triples(nodes@)[j],
        decreases nodes.len() - i,
    {
        let (kind, cloud_id, attributes) = nodes[i];
        graph.nodes.push(
            Node {
                kind: kind.clone(),
                cloud_id: cloud_id.to_owned(),
                attributes: attributes.clone(),
            },
        );
        i += 1;
    }
    assert(graph@ =~= triples(nodes@));
    graph
}

/// Membership is derived from the referencing side: a node is a referrer exactly when it is of the
/// kind asked for and names the target.
pub proof fn referrers_name_the_target(
    graph: Seq<Observed>,
    target: Seq<char>,
    kind: Kind,
    id: Seq<char>,
)
    ensures
        referrers_of(graph, target, kind).contains(id) <==> exists|i: int|
            0 <= i < graph.len() && (#[trigger] graph[i]).kind == kind && graph[i].cloud_id == id
                && (edge_field(kind) matches Some(field) && has_text(
                Json::Object(graph[i].attributes).get(field),
                target,
            )),
{
    if referrers_of(graph, target, kind).contains(id) {
        let i = choose|i: int|
            0 <= i < graph.len() && (#[trigger] graph[i]).kind == kind && graph[i].cloud_id == id
                && references(graph[i], target);
        assert(graph[i].kind == kind);
    }
    if exists|i: int|
        0 <= i < graph.len() && (#[trigger] graph[i]).kind == kind && graph[i].cloud_id == id && (
        edge_field(kind) matches Some(field) && has_text(
            Json::Object(graph[i].attributes).get(field),
            target,
        )) {
        let i = choose|i: int|
            0 <= i < graph.len() && (#[trigger] graph[i]).kind == kind && graph[i].cloud_id == id
                && (edge_field(kind) matches Some(field) && has_text(
                Json::Object(graph[i].attributes).get(field),
                target,
            ));
        assert(references(graph[i], target));
    }
}

/// The order in which nodes are discovered does not matter to who references what.
pub proof fn discovery_order_does_not_matter(
    a: Seq<Observed>,
    b: Seq<Observed>,
    target: Seq<char>,
    kind: Kind,
)
    requires
        a.to_set() == b.to_set(),
    ensures
        referrers_of(a, target, kind) == referrers_of(b, target, kind),
        ids_of(a, kind) == ids_of(b, kind),
        has_node_of(a, kind) == has_node_of(b, kind),
{
    members_correspond(a, b);
    members_correspond(b, a);
    assert(referrers_of(a, target, kind) =~= referrers_of(b, target, kind));
    assert(ids_of(a, kind) =~= ids_of(b, kind));
}

proof fn members_correspond(a: Seq<Observed>, b: Seq<Observed>)
    requires
        a.to_set() == b.to_set(),
    ensures
        forall|i: int|
            0 <= i < a.len() ==> b.contains(#[trigger] a[i]),
{
    assert forall|i: int| 0 <= i < a.len() implies b.contains(#[trigger] a[i]) by {
        assert(a.to_set().contains(a[i]));
    }
}

} // verus!
