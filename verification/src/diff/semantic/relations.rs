//! The built-in relation catalog.

use vstd::prelude::*;

use crate::collector::{observation, observation_is_of_the_resource, Observed};
use crate::diff::rules::{base, explode_list, has_text, list_atoms, rule_base};
use crate::diff::semantic::graph::{
    discovery_order_does_not_matter, ids_of, lists_text, nodes_of, referrers_of, Graph, Node,
};
use crate::diff::semantic::nacl::{allows, evaluate, Flow, Verdict};
use crate::diff::semantic::reachability::{
    entry_views, facing, facing_views, hop_views, ingress, ingress_rules, internet_facing_groups,
    port_views, reachable, reachable_from, reported_is_reachable, Entry, EntryPoint, Hop, PortSpec,
    Ports,
};
use crate::diff::semantic::Relation;
use crate::json::{
    array_of, jsons, listed_texts, strings_of, text_array, texts_among_members, Json, JsonValue,
};
use crate::ordered::{listing, lists};
use crate::set::TextSet;
use crate::text::{copied_texts, joined, joined_text, same, texts};
use crate::types::resource::{text_at, text_of, Kind, ResourceKind};

verus! {

/// The members of a group: whatever can carry a security group and names this one. An ALB's ENI, a
/// VPC-attached Lambda function, an RDS instance, and an `awsvpc`-mode ECS service all carry whatever
/// security groups they name, exactly like an EC2 instance does.
pub open spec fn members_of(graph: Seq<Observed>, group: Seq<char>) -> Set<Seq<char>> {
    referrers_of(graph, group, Kind::AwsInstance).union(
        referrers_of(graph, group, Kind::AwsLoadBalancer),
    ).union(referrers_of(graph, group, Kind::AwsLambdaFunction)).union(
        referrers_of(graph, group, Kind::AwsDbInstance),
    ).union(referrers_of(graph, group, Kind::AwsEcsService))
}

/// A rule trusts the group `source`.
pub open spec fn trusts(rule: Json, source: Seq<char>) -> bool {
    has_text(rule.get("security_groups"@), source)
}

/// The groups that some rules trust, in the order in which they are named.
pub open spec fn trusted_groups(rules: Seq<Json>) -> Seq<Seq<char>>
    decreases rules.len(),
{
    if rules.len() == 0 {
        Seq::empty()
    } else {
        trusted_groups(rules.drop_last()) + listed_texts(rules.last().get("security_groups"@))
    }
}

/// The first of some groups that the graph has no node for.
pub open spec fn first_absent(graph: Seq<Observed>, groups: Seq<Seq<char>>) -> Option<Seq<char>>
    decreases groups.len(),
{
    if groups.len() == 0 {
        None
    } else {
        match first_absent(graph, groups.drop_last()) {
            Some(group) => Some(group),
            None => if observation(graph, Kind::AwsSecurityGroup, groups.last()) is None {
                Some(groups.last())
            } else {
                None
            },
        }
    }
}

/// The atom of a rule and one member of a group that it trusts.
pub open spec fn member_atom(rule: Json, member: Seq<char>) -> Seq<char> {
    base(rule) + "/member:"@ + member
}

/// The atoms of a rule and the members of the group `source`.
pub open spec fn member_atoms(rule: Json, graph: Seq<Observed>, source: Seq<char>) -> Set<
    Seq<char>,
> {
    Set::new(
        |atom: Seq<char>|
            exists|member: Seq<char>| #[trigger]
                members_of(graph, source).contains(member) && atom == member_atom(rule, member),
    )
}

/// The atoms of a rule and the members of the groups it trusts.
pub open spec fn admitted_by(rule: Json, graph: Seq<Observed>) -> Set<Seq<char>> {
    Set::new(
        |atom: Seq<char>|
            exists|source: Seq<char>| #[trigger]
                trusts(rule, source) && member_atoms(rule, graph, source).contains(atom),
    )
}

/// The atoms of some rules and the members of the groups they trust.
pub open spec fn admitted(rules: Seq<Json>, graph: Seq<Observed>) -> Set<Seq<char>> {
    Set::new(
        |atom: Seq<char>|
            exists|i: int|
                0 <= i < rules.len() && admitted_by(#[trigger] rules[i], graph).contains(atom),
    )
}

/// Security-group membership: a rule that trusts another group effectively trusts whatever is *in*
/// that group, and the group's own attributes say nothing about that.
///
/// A rule reading `allow 443 from sg-app` is byte-identical before and after someone attaches
/// `sg-app` to a new instance, so no field diff can see it; what changed is the set of machines the
/// rule admits.
pub struct SgMembership;

/// Instance exposure: an instance's effective attack surface is the union of its attached groups'
/// ingress rules, and nothing on the instance itself says what those rules currently are.
///
/// The mirror image of [`SgMembership`]: that relation resolves a group's meaning from the instances
/// that reference it; this one resolves an instance's meaning from the groups it references.
pub struct InstanceExposure;

/// Internet reachability: whether the public internet can reach a declared instance at all, however
/// many security-group, load-balancer, or trust hops away, and, where a network ACL governs the
/// subject's own subnet, whether the NACL actually lets that specific flow through.
///
/// The transitive generalization of [`InstanceExposure`].
///
/// **The NACL gate only ever narrows, and only when the graph being expanded has NACL data for the
/// subject's subnet at all.** A state file that never declares `aws_network_acl` or
/// `aws_default_network_acl` has no node to check against, and the chain passes through.
pub struct InternetReachability;

fn get_members(graph: &Graph, group: &str) -> (r: TextSet)
    ensures
        r@ == members_of(graph@, group@),
{
    let mut members = graph.referrers(group, &ResourceKind::AwsInstance);
    members.extend(&graph.referrers(group, &ResourceKind::AwsLoadBalancer));
    members.extend(&graph.referrers(group, &ResourceKind::AwsLambdaFunction));
    members.extend(&graph.referrers(group, &ResourceKind::AwsDbInstance));
    members.extend(&graph.referrers(group, &ResourceKind::AwsEcsService));
    members
}

fn add_member_atoms(rule: &JsonValue, graph: &Graph, source: &str, atoms: &mut TextSet)
    ensures
        final(atoms)@ == old(atoms)@.union(member_atoms(rule@, graph@, source@)),
{
    let base = rule_base(rule);
    let members = get_members(graph, source);
    let ids = members.members();
    let ghost all = member_atoms(rule@, graph@, source@);
    let mut i: usize = 0;
    while i < ids.len()
        invariant
            i <= ids.len(),
            base@ == crate::diff::rules::base(rule@),
            lists::<String>(texts(ids@), members_of(graph@, source@)),
            all == member_atoms(rule@, graph@, source@),
            old(atoms)@.subset_of(atoms@),
            atoms@.subset_of(old(atoms)@.union(all)),
            forall|j: int|
                0 <= j < i ==> atoms@.contains(member_atom(rule@, #[trigger] texts(ids@)[j])),
        decreases ids.len() - i,
    {
        let mut atom = base.clone();
        atom.append("/member:");
        atom.append(ids[i].as_str());
        proof {
            assert(texts(ids@)[i as int] == ids[i as int]@);
            assert(texts(ids@).to_set().contains(ids[i as int]@));
            assert(members_of(graph@, source@).contains(ids[i as int]@));
            assert(atom@ == member_atom(rule@, ids[i as int]@));
            assert(all.contains(atom@));
        }
        atoms.insert(atom);
        i += 1;
    }
    assert forall|atom: Seq<char>| all.contains(atom) implies atoms@.contains(atom) by {
        let member = choose|member: Seq<char>| #[trigger]
            members_of(graph@, source@).contains(member) && atom == member_atom(rule@, member);
        assert(texts(ids@).to_set().contains(member));
        let j = choose|j: int| 0 <= j < texts(ids@).len() && texts(ids@)[j] == member;
        assert(atoms@.contains(member_atom(rule@, texts(ids@)[j])));
    }
    assert(atoms@ =~= old(atoms)@.union(all));
}

proof fn absent_stays(graph: Seq<Observed>, groups: Seq<Seq<char>>, more: Seq<Seq<char>>)
    requires
        first_absent(graph, groups) is Some,
    ensures
        first_absent(graph, groups + more) == first_absent(graph, groups),
    decreases more.len(),
{
    if more.len() > 0 {
        absent_stays(graph, groups, more.drop_last());
        assert((groups + more).drop_last() =~= groups + more.drop_last());
    } else {
        assert(groups + more =~= groups);
    }
}

/// Adds to `atoms` what the groups that one rule trusts expand to; gives the first of those groups
/// that is absent.
fn expand_rule(rule: &JsonValue, graph: &Graph, atoms: &mut TextSet) -> (r: Option<String>)
    ensures
        match r {
            Some(group) => first_absent(
                graph@,
                listed_texts(rule@.get("security_groups"@)),
            ) == Some(group@),
            None => {
                &&& first_absent(graph@, listed_texts(rule@.get("security_groups"@))) is None
                &&& final(atoms)@ == old(atoms)@.union(admitted_by(rule@, graph@))
            },
        },
{
    let sources = strings_of(rule.get("security_groups"));
    let ghost all = listed_texts(rule@.get("security_groups"@));
    let ghost whole = admitted_by(rule@, graph@);
    let mut i: usize = 0;
    while i < sources.len()
        invariant
            i <= sources.len(),
            all == texts(sources@),
            all == listed_texts(rule@.get("security_groups"@)),
            whole == admitted_by(rule@, graph@),
            first_absent(graph@, all.take(i as int)) is None,
            old(atoms)@.subset_of(atoms@),
            atoms@.subset_of(old(atoms)@.union(whole)),
            forall|j: int|
                0 <= j < i ==> member_atoms(rule@, graph@, #[trigger] all[j]).subset_of(atoms@),
        decreases sources.len() - i,
    {
        let source = sources[i].as_str();
        assert(all.take(i + 1).drop_last() =~= all.take(i as int));
        assert(all.take(i + 1).last() == source@);
        if graph.node(&ResourceKind::AwsSecurityGroup, source).is_none() {
            proof {
                absent_stays(graph@, all.take(i + 1), all.skip(i + 1));
                assert(all.take(i + 1) + all.skip(i + 1) =~= all);
            }
            return Some(sources[i].clone());
        }
        let ghost before = atoms@;
        add_member_atoms(rule, graph, source, atoms);
        proof {
            assert(trusts(rule@, source@)) by {
                listed_is_had(rule@.get("security_groups"@), source@);
                assert(all[i as int] == source@);
                assert(all.contains(source@));
            }
            assert forall|atom: Seq<char>| atoms@.contains(atom) implies old(atoms)@.union(
                whole,
            ).contains(atom) by {
                if member_atoms(rule@, graph@, source@).contains(atom) {
                    assert(trusts(rule@, source@));
                }
            }
            assert forall|j: int| 0 <= j < i + 1 implies member_atoms(
                rule@,
                graph@,
                #[trigger] all[j],
            ).subset_of(atoms@) by {
                if j < i {
                    assert(member_atoms(rule@, graph@, all[j]).subset_of(before));
                }
            }
        }
        i += 1;
    }
    proof {
        assert(all.take(i as int) =~= all);
        assert forall|atom: Seq<char>| whole.contains(atom) implies atoms@.contains(atom) by {
            let source = choose|source: Seq<char>| #[trigger]
                trusts(rule@, source) && member_atoms(rule@, graph@, source).contains(atom);
            listed_is_had(rule@.get("security_groups"@), source);
            let j = choose|j: int| 0 <= j < all.len() && all[j] == source;
            assert(member_atoms(rule@, graph@, all[j]).subset_of(atoms@));
        }
        assert(atoms@ =~= old(atoms)@.union(whole));
    }
    None
}

/// The texts that a value lists are those it has.
proof fn listed_is_had(value: Option<Json>, text: Seq<char>)
    ensures
        listed_texts(value).contains(text) <==> has_text(value, text),
{
    if let Some(Json::Array(items)) = value {
        texts_among_members(items, text);
    }
}

proof fn admitted_of_push(rules: Seq<Json>, rule: Json, graph: Seq<Observed>)
    ensures
        admitted(rules.push(rule), graph) == admitted(rules, graph).union(
            admitted_by(rule, graph),
        ),
{
    let all = rules.push(rule);
    assert forall|atom: Seq<char>| admitted(all, graph).contains(atom) implies admitted(
        rules,
        graph,
    ).union(admitted_by(rule, graph)).contains(atom) by {
        let i = choose|i: int|
            0 <= i < all.len() && admitted_by(#[trigger] all[i], graph).contains(atom);
        if i < rules.len() {
            assert(rules[i] == all[i]);
        }
    }
    assert forall|atom: Seq<char>| admitted(rules, graph).union(
        admitted_by(rule, graph),
    ).contains(atom) implies admitted(all, graph).contains(atom) by {
        if admitted_by(rule, graph).contains(atom) {
            assert(all[rules.len() as int] == rule);
        } else {
            let i = choose|i: int|
                0 <= i < rules.len() && admitted_by(#[trigger] rules[i], graph).contains(atom);
            assert(all[i] == rules[i]);
        }
    }
    assert(admitted(all, graph) =~= admitted(rules, graph).union(admitted_by(rule, graph)));
}

/// Why a relation cannot be resolved when a group is gone.
pub open spec fn absent_reason(prefix: Seq<char>, group: Seq<char>) -> Seq<char> {
    prefix + group + "`, which is not present"@
}

fn absent_text(prefix: &str, group: &str) -> (r: String)
    ensures
        r@ == absent_reason(prefix@, group@),
{
    let mut reason = prefix.to_owned();
    reason.append(group);
    reason.append("`, which is not present");
    reason
}

/// The array of the members of a set, in order.
pub open spec fn set_array(set: Set<Seq<char>>) -> Json {
    text_array(listing::<String>(set))
}

fn array_of_set(set: &TextSet) -> (r: JsonValue)
    ensures
        r@ == set_array(set@),
{
    array_of(set.members())
}

/// The groups that some rules trust, as a set.
pub open spec fn trusted_set(rules: Seq<Json>) -> Set<Seq<char>> {
    Set::new(
        |group: Seq<char>|
            exists|i: int| 0 <= i < rules.len() && trusts(#[trigger] rules[i], group),
    )
}

proof fn trusted_is_finite(rules: Seq<Json>)
    ensures
        trusted_set(rules).finite(),
    decreases rules.len(),
{
    if rules.len() == 0 {
        assert(trusted_set(rules) =~= Set::empty());
    } else {
        let rest = rules.drop_last();
        let listed = listed_texts(rules.last().get("security_groups"@));
        trusted_is_finite(rest);
        vstd::seq_lib::seq_to_set_is_finite(listed);
        assert forall|group: Seq<char>| trusted_set(rules).contains(group) implies trusted_set(
            rest,
        ).union(listed.to_set()).contains(group) by {
            let i = choose|i: int| 0 <= i < rules.len() && trusts(#[trigger] rules[i], group);
            if i < rest.len() {
                assert(trusts(rest[i], group));
            } else {
                listed_is_had(rules.last().get("security_groups"@), group);
            }
        }
        vstd::set_lib::lemma_len_subset(
            trusted_set(rules),
            trusted_set(rest).union(listed.to_set()),
        );
    }
}

fn set_of(list: &Vec<String>) -> (r: TextSet)
    ensures
        r@ == texts(list@).to_set(),
{
    let mut set = TextSet::new();
    let mut i: usize = 0;
    assert(texts(list@).take(0).to_set() =~= Set::empty());
    while i < list.len()
        invariant
            i <= list.len(),
            set@ == texts(list@).take(i as int).to_set(),
        decreases list.len() - i,
    {
        set.insert(list[i].clone());
        proof {
            let all = texts(list@);
            assert(all.take(i + 1) =~= all.take(i as int).push(all[i as int]));
            all.take(i as int).lemma_push_to_set_commute(all[i as int]);
        }
        i += 1;
    }
    assert(texts(list@).take(i as int) =~= texts(list@));
    set
}

/// The cloud IDs a subject's `ingress` rules trust by group reference.
fn referenced_groups(subject: &Node) -> (r: TextSet)
    ensures
        r@ == trusted_set(ingress(subject@)),
{
    let mut groups = TextSet::new();
    match ingress_rules(subject) {
        Some(rules) => {
            let ghost all = ingress(subject@);
            let mut i: usize = 0;
            assert(groups@ =~= trusted_set(all.take(0)));
            while i < rules.len()
                invariant
                    i <= rules.len(),
                    all == jsons(rules@),
                    groups@ == trusted_set(all.take(i as int)),
                decreases rules.len() - i,
            {
                let rule = &rules[i];
                let named = set_of(&strings_of(rule.get("security_groups")));
                groups.extend(&named);
                proof {
                    let p = all.take(i as int);
                    let q = all.take(i + 1);
                    assert(all[i as int] == rule@);
                    assert(q[i as int] == rule@);
                    assert forall|group: Seq<char>| groups@.contains(group) <==> trusted_set(
                        q,
                    ).contains(group) by {
                        listed_is_had(rule@.get("security_groups"@), group);
                        if trusted_set(p).contains(group) {
                            let k = choose|k: int|
                                0 <= k < p.len() && trusts(#[trigger] p[k], group);
                            assert(q[k] == p[k]);
                        }
                        if trusted_set(q).contains(group) {
                            let k = choose|k: int|
                                0 <= k < q.len() && trusts(#[trigger] q[k], group);
                            if k < i {
                                assert(p[k] == q[k]);
                            }
                        }
                        if trusts(rule@, group) {
                            assert(trusts(q[i as int], group));
                        }
                    }
                    assert(groups@ =~= trusted_set(q));
                }
                i += 1;
            }
            assert(all.take(i as int) =~= all);
        },
        None => {
            assert(groups@ =~= trusted_set(ingress(subject@)));
        },
    }
    groups
}

/// What the rules of a group admit: one atom per member of each group they trust, or the first such
/// group that is gone.
pub open spec fn membership(subject: Observed, graph: Seq<Observed>) -> std::result::Result<
    Json,
    Seq<char>,
> {
    match first_absent(graph, trusted_groups(ingress(subject))) {
        Some(group) => Err(absent_reason("rule references security group `"@, group)),
        None => Ok(set_array(admitted(ingress(subject), graph))),
    }
}

/// Equal sets have equal arrays.
proof fn same_arrays(a: Set<Seq<char>>, b: Set<Seq<char>>)
    requires
        a == b,
    ensures
        crate::json::same_json(set_array(a), set_array(b)),
{
    crate::json::same_json_reflexive(set_array(a));
}

impl Relation for SgMembership {
    open spec fn called(&self) -> Seq<char> {
        "sg_membership"@
    }

    open spec fn needed(&self) -> Seq<Kind> {
        seq![Kind::AwsInstance]
    }

    open spec fn subjects(&self) -> Seq<(Kind, Seq<char>)> {
        seq![(Kind::AwsSecurityGroup, "ingress"@)]
    }

    open spec fn meaning(&self, subject: Observed, graph: Seq<Observed>) -> std::result::Result<
        Json,
        Seq<char>,
    > {
        membership(subject, graph)
    }

    open spec fn passed(&self, subject: Observed, graph: Seq<Observed>) -> Set<Seq<char>> {
        trusted_set(ingress(subject))
    }

    proof fn differences_have_a_path(
        &self,
        a: Observed,
        a_graph: Seq<Observed>,
        b: Observed,
        b_graph: Seq<Observed>,
    ) {
        let x = admitted(ingress(a), a_graph);
        let y = admitted(ingress(b), b_graph);
        if x == y {
            same_arrays(x, y);
        } else {
            assert(!(x =~= y));
            let atom = choose|atom: Seq<char>| x.contains(atom) != y.contains(atom);
            let (rules, graph) = if x.contains(atom) {
                (ingress(a), a_graph)
            } else {
                (ingress(b), b_graph)
            };
            let i = choose|i: int|
                0 <= i < rules.len() && admitted_by(#[trigger] rules[i], graph).contains(atom);
            let source = choose|source: Seq<char>| #[trigger]
                trusts(rules[i], source) && member_atoms(rules[i], graph, source).contains(atom);
            assert(trusted_set(rules).contains(source));
            assert(self.passed(a, a_graph).union(self.passed(b, b_graph)).contains(source));
        }
    }

    proof fn paths_are_finite(&self, subject: Observed, graph: Seq<Observed>) {
        trusted_is_finite(ingress(subject));
    }

    fn name(&self) -> (r: &str) {
        "sg_membership"
    }

    /// Membership is derived from the instance side, so a state file that declares no instances is
    /// not an authority on it.
    ///
    /// Deliberately does *not* also need load balancers: that would make this relation go fully
    /// unresolved for every subject in the (very common) case of a stack with no load balancers at
    /// all.
    fn required_kinds(&self) -> (r: Vec<ResourceKind>) {
        let r = vec![ResourceKind::AwsInstance];
        assert(r@.map_values(|kind: ResourceKind| kind@) =~= self.needed());
        r
    }

    fn subject(&self) -> (r: Vec<(ResourceKind, &'static str)>) {
        let r = vec![(ResourceKind::AwsSecurityGroup, "ingress")];
        assert(r@.map_values(|s: (ResourceKind, &'static str)| (s.0@, s.1@)) =~= self.subjects());
        r
    }

    /// Expand each group-sourced rule into one atom per member.
    ///
    /// Only group-sourced atoms are produced. CIDR and prefix-list sources are literal: they cannot
    /// differ between the two sides here, because a subject only gets through when its `ingress`
    /// value is already identical.
    fn expand(&self, subject: &Node, graph: &Graph) -> (r: std::result::Result<JsonValue, String>) {
        let mut atoms = TextSet::new();
        let ghost all = ingress(subject@);
        assert(all.take(0) =~= Seq::empty());
        assert(atoms@ =~= admitted(all.take(0), graph@));
        match ingress_rules(subject) {
            Some(rules) => {
                let mut i: usize = 0;
                while i < rules.len()
                    invariant
                        i <= rules.len(),
                        all == jsons(rules@),
                        all == ingress(subject@),
                        first_absent(graph@, trusted_groups(all.take(i as int))) is None,
                        atoms@ == admitted(all.take(i as int), graph@),
                    decreases rules.len() - i,
                {
                    let rule = &rules[i];
                    let ghost named = listed_texts(rule@.get("security_groups"@));
                    let ghost earlier = trusted_groups(all.take(i as int));
                    proof {
                        assert(all[i as int] == rule@);
                        assert(all.take(i + 1) =~= all.take(i as int).push(rule@));
                        assert(all.take(i + 1).drop_last() =~= all.take(i as int));
                        admitted_of_push(all.take(i as int), rule@, graph@);
                        absent_after(graph@, earlier, named);
                    }
                    match expand_rule(rule, graph, &mut atoms) {
                        Some(group) => {
                            proof {
                                absent_among_all(graph@, all, i + 1);
                            }
                            return Err(
                                absent_text("rule references security group `", group.as_str()),
                            );
                        },
                        None => {},
                    }
                    i += 1;
                }
                assert(all.take(i as int) =~= all);
            },
            None => {
                assert(all.take(0) =~= all);
            },
        }
        Ok(array_of_set(&atoms))
    }

    fn via(&self, subject: &Node, graph: &Graph) -> (r: Vec<String>) {
        copied_texts(referenced_groups(subject).members())
    }
}

/// Where none of `groups` is absent, the first absent one of `groups` and `more` is that of `more`.
proof fn absent_after(graph: Seq<Observed>, groups: Seq<Seq<char>>, more: Seq<Seq<char>>)
    requires
        first_absent(graph, groups) is None,
    ensures
        first_absent(graph, groups + more) == first_absent(graph, more),
    decreases more.len(),
{
    if more.len() > 0 {
        absent_after(graph, groups, more.drop_last());
        assert((groups + more).drop_last() =~= groups + more.drop_last());
    } else {
        assert(groups + more =~= groups);
    }
}

proof fn absent_among_all(graph: Seq<Observed>, rules: Seq<Json>, n: int)
    requires
        0 <= n <= rules.len(),
        first_absent(graph, trusted_groups(rules.take(n))) is Some,
    ensures
        first_absent(graph, trusted_groups(rules)) == first_absent(
            graph,
            trusted_groups(rules.take(n)),
        ),
    decreases rules.len() - n,
{
    if n < rules.len() {
        let next = rules.take(n + 1);
        assert(next.drop_last() =~= rules.take(n));
        absent_stays(
            graph,
            trusted_groups(rules.take(n)),
            listed_texts(next.last().get("security_groups"@)),
        );
        absent_among_all(graph, rules, n + 1);
    } else {
        assert(rules.take(n) =~= rules);
    }
}

/// The groups that an instance is attached to.
pub open spec fn attached(subject: Observed) -> Seq<Seq<char>> {
    listed_texts(Json::Object(subject.attributes).get("vpc_security_group_ids"@))
}

/// The atoms of the ingress rules of some groups.
pub open spec fn exposed_by(graph: Seq<Observed>, groups: Seq<Seq<char>>) -> Set<Seq<char>> {
    Set::new(
        |atom: Seq<char>|
            exists|i: int|
                0 <= i < groups.len() && (observation(
                    graph,
                    Kind::AwsSecurityGroup,
                    #[trigger] groups[i],
                ) matches Some(group) && list_atoms(ingress(group)).contains(atom)),
    )
}

/// What an instance is exposed to: the atoms of the ingress rules of the groups it is attached to,
/// or the first such group that is gone.
pub open spec fn exposure(subject: Observed, graph: Seq<Observed>) -> std::result::Result<
    Json,
    Seq<char>,
> {
    match first_absent(graph, attached(subject)) {
        Some(group) => Err(absent_reason("attached to security group `"@, group)),
        None => Ok(set_array(exposed_by(graph, attached(subject)))),
    }
}

impl Relation for InstanceExposure {
    open spec fn called(&self) -> Seq<char> {
        "instance_exposure"@
    }

    open spec fn needed(&self) -> Seq<Kind> {
        seq![Kind::AwsSecurityGroup]
    }

    open spec fn subjects(&self) -> Seq<(Kind, Seq<char>)> {
        seq![(Kind::AwsInstance, "vpc_security_group_ids"@)]
    }

    open spec fn meaning(&self, subject: Observed, graph: Seq<Observed>) -> std::result::Result<
        Json,
        Seq<char>,
    > {
        exposure(subject, graph)
    }

    open spec fn passed(&self, subject: Observed, graph: Seq<Observed>) -> Set<Seq<char>> {
        attached(subject).to_set()
    }

    proof fn differences_have_a_path(
        &self,
        a: Observed,
        a_graph: Seq<Observed>,
        b: Observed,
        b_graph: Seq<Observed>,
    ) {
        let x = exposed_by(a_graph, attached(a));
        let y = exposed_by(b_graph, attached(b));
        if x == y {
            same_arrays(x, y);
        } else {
            assert(!(x =~= y));
            let atom = choose|atom: Seq<char>| x.contains(atom) != y.contains(atom);
            let (groups, graph) = if x.contains(atom) {
                (attached(a), a_graph)
            } else {
                (attached(b), b_graph)
            };
            let i = choose|i: int|
                0 <= i < groups.len() && (observation(
                    graph,
                    Kind::AwsSecurityGroup,
                    #[trigger] groups[i],
                ) matches Some(group) && list_atoms(ingress(group)).contains(atom));
            assert(groups.to_set().contains(groups[i]));
            assert(self.passed(a, a_graph).union(self.passed(b, b_graph)).contains(groups[i]));
        }
    }

    proof fn paths_are_finite(&self, subject: Observed, graph: Seq<Observed>) {
        vstd::seq_lib::seq_to_set_is_finite(attached(subject));
        assert(self.passed(subject, graph) =~= attached(subject).to_set());
    }

    fn name(&self) -> (r: &str) {
        "instance_exposure"
    }

    /// Exposure is derived from the groups an instance is attached to; a state file that declares no
    /// security groups is not an authority on what those groups allow.
    fn required_kinds(&self) -> (r: Vec<ResourceKind>) {
        let r = vec![ResourceKind::AwsSecurityGroup];
        assert(r@.map_values(|kind: ResourceKind| kind@) =~= self.needed());
        r
    }

    fn subject(&self) -> (r: Vec<(ResourceKind, &'static str)>) {
        let r = vec![(ResourceKind::AwsInstance, "vpc_security_group_ids")];
        assert(r@.map_values(|s: (ResourceKind, &'static str)| (s.0@, s.1@)) =~= self.subjects());
        r
    }

    /// Union the ingress rules of every attached group into one atom set.
    ///
    /// Deliberately a set, not a multiset: two attached groups granting the same access contribute
    /// one atom, because "is this port reachable" does not care how many groups agree it is.
    fn expand(&self, subject: &Node, graph: &Graph) -> (r: std::result::Result<JsonValue, String>) {
        let groups = strings_of(subject.attributes.get("vpc_security_group_ids"));
        let ghost all = attached(subject@);
        let mut atoms = TextSet::new();
        let mut i: usize = 0;
        assert(atoms@ =~= exposed_by(graph@, all.take(0)));
        while i < groups.len()
            invariant
                i <= groups.len(),
                all == texts(groups@),
                all == attached(subject@),
                first_absent(graph@, all.take(i as int)) is None,
                atoms@ == exposed_by(graph@, all.take(i as int)),
            decreases groups.len() - i,
        {
            let id = groups[i].as_str();
            let ghost p = all.take(i as int);
            let ghost q = all.take(i + 1);
            assert(q.drop_last() =~= p);
            assert(q.last() == id@ && q[i as int] == id@);
            match graph.node(&ResourceKind::AwsSecurityGroup, id) {
                None => {
                    proof {
                        absent_stays(graph@, q, all.skip(i + 1));
                        assert(q + all.skip(i + 1) =~= all);
                    }
                    return Err(absent_text("attached to security group `", id));
                },
                Some(group) => {
                    let ghost earlier = atoms@;
                    match ingress_rules(group) {
                        Some(rules) => {
                            atoms.extend(&explode_list(rules));
                        },
                        None => {},
                    }
                    assert(atoms@ =~= earlier.union(list_atoms(ingress(group@))));
                    proof {
                        assert forall|atom: Seq<char>| atoms@.contains(atom) implies exposed_by(
                            graph@,
                            q,
                        ).contains(atom) by {
                            if earlier.contains(atom) {
                                let k = choose|k: int|
                                    0 <= k < p.len() && (observation(
                                        graph@,
                                        Kind::AwsSecurityGroup,
                                        #[trigger] p[k],
                                    ) matches Some(group) && list_atoms(ingress(group)).contains(
                                        atom,
                                    ));
                                assert(q[k] == p[k]);
                            }
                        }
                        assert forall|atom: Seq<char>| exposed_by(graph@, q).contains(
                            atom,
                        ) implies atoms@.contains(atom) by {
                            let k = choose|k: int|
                                0 <= k < q.len() && (observation(
                                    graph@,
                                    Kind::AwsSecurityGroup,
                                    #[trigger] q[k],
                                ) matches Some(group) && list_atoms(ingress(group)).contains(atom));
                            if k < i {
                                assert(p[k] == q[k]);
                            }
                        }
                        assert(atoms@ =~= exposed_by(graph@, q));
                    }
                },
            }
            i += 1;
        }
        assert(all.take(i as int) =~= all);
        Ok(array_of_set(&atoms))
    }

    fn via(&self, subject: &Node, graph: &Graph) -> (r: Vec<String>) {
        let groups = set_of(&strings_of(subject.attributes.get("vpc_security_group_ids")));
        copied_texts(groups.members())
    }
}

/// How many hops [`InternetReachability`] will follow before giving up: generously past the three-tier
/// chain of entry group, ALB, target group, app instance, trusted group and db instance. A cutoff for
/// a bounded walk, not a claim about what depth is "normal."
pub const MAX_HOPS: usize = 12;

/// The subnets that a subject runs in. An RDS instance names a subnet group rather than subnets, and
/// is not resolved.
pub open spec fn subnets_of(subject: Observed) -> Seq<Seq<char>> {
    match subject.kind {
        Kind::AwsInstance => match text_at(subject.attributes, "subnet_id"@) {
            Some(subnet) => if subnet.len() == 0 {
                Seq::empty()
            } else {
                seq![subnet]
            },
            None => Seq::empty(),
        },
        Kind::AwsLambdaFunction => listed_texts(
            Json::Object(subject.attributes).get("subnet_ids"@),
        ),
        Kind::AwsEcsService => listed_texts(Json::Object(subject.attributes).get("subnet_ids"@)),
        _ => Seq::empty(),
    }
}

/// A network ACL governs one of `subnets`.
pub open spec fn governs(acl: Observed, subnets: Seq<Seq<char>>) -> bool {
    exists|i: int|
        0 <= i < subnets.len() && has_text(
            Json::Object(acl.attributes).get("subnet_ids"@),
            #[trigger] subnets[i],
        )
}

/// The flow from `source_cidr` on `ports`.
pub open spec fn flow(source_cidr: Seq<char>, ports: Ports) -> Flow {
    Flow {
        source_cidr,
        protocol: ports.protocol,
        port_from: ports.from,
        port_to: ports.to,
    }
}

/// A network ACL lets the flow from `source_cidr` in on one of `ports`.
pub open spec fn lets_in(acl: Observed, source_cidr: Seq<char>, ports: Seq<Ports>) -> bool {
    exists|i: int|
        0 <= i < ports.len() && allows(ingress(acl), flow(source_cidr, #[trigger] ports[i]))
}

/// One of `acls` governs one of `subnets`.
pub open spec fn governed(acls: Seq<Observed>, subnets: Seq<Seq<char>>) -> bool {
    exists|i: int| 0 <= i < acls.len() && governs(#[trigger] acls[i], subnets)
}

/// One of `acls` governs one of `subnets` and lets the flow in.
pub open spec fn admitting(
    acls: Seq<Observed>,
    subnets: Seq<Seq<char>>,
    source_cidr: Seq<char>,
    ports: Seq<Ports>,
) -> bool {
    exists|i: int|
        0 <= i < acls.len() && governs(#[trigger] acls[i], subnets) && lets_in(
            acls[i],
            source_cidr,
            ports,
        )
}

/// Whether the subnets of a subject let the flow in: nothing is known where no network ACL of the
/// graph governs one of them, and otherwise one that lets it in is enough.
pub open spec fn subnet_verdict(
    subject: Observed,
    graph: Seq<Observed>,
    source_cidr: Seq<char>,
    ports: Seq<Ports>,
) -> Option<bool> {
    let subnets = subnets_of(subject);
    let acls = nodes_of(graph, Kind::AwsNetworkAcl);
    if admitting(acls, subnets, source_cidr, ports) {
        Some(true)
    } else if governed(acls, subnets) {
        Some(false)
    } else {
        None
    }
}

/// What the walk from the entry point `entry` of the group `group` reaches.
pub open spec fn reached_from(graph: Seq<Observed>, group: Seq<char>, entry: Entry) -> Seq<Hop> {
    reachable(graph, Kind::AwsSecurityGroup, group, seq![entry.port], MAX_HOPS as nat)
}

/// The walk reaches the subject at `hop`, and the subject's subnet does not block it.
pub open spec fn gets_to(subject: Observed, graph: Seq<Observed>, entry: Entry, hop: Hop) -> bool {
    &&& hop.kind == subject.kind
    &&& hop.id == subject.cloud_id
    &&& subnet_verdict(subject, graph, entry.source_cidr, hop.ports) != Some(false)
}

/// `chain` is an entry group and the cloud IDs that a walk from one of its entry points passes on
/// the way to the subject.
pub open spec fn chain_from(
    subject: Observed,
    graph: Seq<Observed>,
    group: (Seq<char>, Seq<Entry>),
    chain: Seq<Seq<char>>,
) -> bool {
    exists|j: int| 0 <= j < group.1.len() && #[trigger] chain_of_entry(
        subject,
        graph,
        group.0,
        group.1[j],
        chain,
    )
}

/// `chain` is the group and the cloud IDs that the walk from `entry` passes on the way to the
/// subject.
pub open spec fn chain_of_entry(
    subject: Observed,
    graph: Seq<Observed>,
    group: Seq<char>,
    entry: Entry,
    chain: Seq<Seq<char>>,
) -> bool {
    exists|k: int|
        0 <= k < reached_from(graph, group, entry).len() && gets_to(
            subject,
            graph,
            entry,
            #[trigger] reached_from(graph, group, entry)[k],
        ) && chain == seq![group] + reached_from(graph, group, entry)[k].path
}

/// Every chain from an internet-facing group to the subject, leaving out those that the subject's
/// own subnet blocks.
pub open spec fn internet_chains(subject: Observed, graph: Seq<Observed>) -> Set<Seq<Seq<char>>> {
    Set::new(
        |chain: Seq<Seq<char>>|
            exists|i: int|
                0 <= i < facing(graph).len() && chain_from(
                    subject,
                    graph,
                    #[trigger] facing(graph)[i],
                    chain,
                ),
    )
}

/// The chains to the subject along `hops`, which the walk from `entry` reaches, in their order.
pub open spec fn chains_along(
    subject: Observed,
    graph: Seq<Observed>,
    group: Seq<char>,
    entry: Entry,
    hops: Seq<Hop>,
) -> Seq<Seq<Seq<char>>>
    decreases hops.len(),
{
    if hops.len() == 0 {
        Seq::empty()
    } else {
        let before = chains_along(subject, graph, group, entry, hops.drop_last());
        if gets_to(subject, graph, entry, hops.last()) {
            before.push(seq![group] + hops.last().path)
        } else {
            before
        }
    }
}

/// The chains to the subject from `entries` of a group, in the order of the entry points.
pub open spec fn chains_from_group(
    subject: Observed,
    graph: Seq<Observed>,
    group: Seq<char>,
    entries: Seq<Entry>,
) -> Seq<Seq<Seq<char>>>
    decreases entries.len(),
{
    if entries.len() == 0 {
        Seq::empty()
    } else {
        chains_from_group(subject, graph, group, entries.drop_last()) + chains_along(
            subject,
            graph,
            group,
            entries.last(),
            reached_from(graph, group, entries.last()),
        )
    }
}

/// The chains to the subject from `groups` with their entry points, in the order of the groups.
pub open spec fn chains_from_groups(
    subject: Observed,
    graph: Seq<Observed>,
    groups: Seq<(Seq<char>, Seq<Entry>)>,
) -> Seq<Seq<Seq<char>>>
    decreases groups.len(),
{
    if groups.len() == 0 {
        Seq::empty()
    } else {
        chains_from_groups(subject, graph, groups.drop_last()) + chains_from_group(
            subject,
            graph,
            groups.last().0,
            groups.last().1,
        )
    }
}

/// The chains from the internet to the subject as they are found: group by group, entry point by
/// entry point, the nearer hops first. Two entry points of one group may give the same chain.
pub open spec fn found_chains(subject: Observed, graph: Seq<Observed>) -> Seq<Seq<Seq<char>>> {
    chains_from_groups(subject, graph, facing(graph))
}

proof fn along_is_of_entry(
    subject: Observed,
    graph: Seq<Observed>,
    group: Seq<char>,
    entry: Entry,
    hops: Seq<Hop>,
    chain: Seq<Seq<char>>,
)
    ensures
        chains_along(subject, graph, group, entry, hops).contains(chain) <==> exists|k: int|
            0 <= k < hops.len() && gets_to(subject, graph, entry, #[trigger] hops[k]) && chain
                == seq![group] + hops[k].path,
    decreases hops.len(),
{
    broadcast use vstd::seq_lib::group_seq_properties;
    if hops.len() > 0 {
        let rest = hops.drop_last();
        along_is_of_entry(subject, graph, group, entry, rest, chain);
        if chains_along(subject, graph, group, entry, rest).contains(chain) {
            let k = choose|k: int|
                0 <= k < rest.len() && gets_to(subject, graph, entry, #[trigger] rest[k]) && chain
                    == seq![group] + rest[k].path;
            assert(hops[k] == rest[k]);
        }
        if gets_to(subject, graph, entry, hops.last()) {
            assert(hops[hops.len() - 1] == hops.last());
        }
        if exists|k: int|
            0 <= k < hops.len() && gets_to(subject, graph, entry, #[trigger] hops[k]) && chain
                == seq![group] + hops[k].path {
            let k = choose|k: int|
                0 <= k < hops.len() && gets_to(subject, graph, entry, #[trigger] hops[k]) && chain
                    == seq![group] + hops[k].path;
            if k < rest.len() {
                assert(rest[k] == hops[k]);
            }
        }
    }
}

proof fn group_is_of_entries(
    subject: Observed,
    graph: Seq<Observed>,
    group: Seq<char>,
    entries: Seq<Entry>,
    chain: Seq<Seq<char>>,
)
    ensures
        chains_from_group(subject, graph, group, entries).contains(chain) <==> chain_from(
            subject,
            graph,
            (group, entries),
            chain,
        ),
    decreases entries.len(),
{
    broadcast use vstd::seq_lib::group_seq_properties;
    let whole = (group, entries);
    if entries.len() > 0 {
        let rest = entries.drop_last();
        let part = (group, rest);
        group_is_of_entries(subject, graph, group, rest, chain);
        let last = entries.last();
        along_is_of_entry(subject, graph, group, last, reached_from(graph, group, last), chain);
        assert(chains_along(subject, graph, group, last, reached_from(graph, group, last)).contains(
            chain,
        ) <==> chain_of_entry(subject, graph, group, last, chain));
        if chain_from(subject, graph, part, chain) {
            let j = choose|j: int|
                0 <= j < part.1.len() && #[trigger] chain_of_entry(
                    subject,
                    graph,
                    part.0,
                    part.1[j],
                    chain,
                );
            assert(chain_of_entry(subject, graph, whole.0, whole.1[j], chain));
        }
        if chain_of_entry(subject, graph, group, last, chain) {
            assert(chain_of_entry(subject, graph, whole.0, whole.1[rest.len() as int], chain));
        }
        if chain_from(subject, graph, whole, chain) {
            let j = choose|j: int|
                0 <= j < whole.1.len() && #[trigger] chain_of_entry(
                    subject,
                    graph,
                    whole.0,
                    whole.1[j],
                    chain,
                );
            if j < rest.len() {
                assert(chain_of_entry(subject, graph, part.0, part.1[j], chain));
            }
        }
    }
}

proof fn groups_are_of_groups(
    subject: Observed,
    graph: Seq<Observed>,
    groups: Seq<(Seq<char>, Seq<Entry>)>,
    chain: Seq<Seq<char>>,
)
    ensures
        chains_from_groups(subject, graph, groups).contains(chain) <==> exists|i: int|
            0 <= i < groups.len() && chain_from(subject, graph, #[trigger] groups[i], chain),
    decreases groups.len(),
{
    broadcast use vstd::seq_lib::group_seq_properties;
    if groups.len() > 0 {
        let rest = groups.drop_last();
        let last = groups.last();
        groups_are_of_groups(subject, graph, rest, chain);
        group_is_of_entries(subject, graph, last.0, last.1, chain);
        assert((last.0, last.1) == last);
        if chains_from_groups(subject, graph, rest).contains(chain) {
            let i = choose|i: int|
                0 <= i < rest.len() && chain_from(subject, graph, #[trigger] rest[i], chain);
            assert(groups[i] == rest[i]);
        }
        if chain_from(subject, graph, last, chain) {
            assert(groups[groups.len() - 1] == last);
        }
        if exists|i: int|
            0 <= i < groups.len() && chain_from(subject, graph, #[trigger] groups[i], chain) {
            let i = choose|i: int|
                0 <= i < groups.len() && chain_from(subject, graph, #[trigger] groups[i], chain);
            if i < rest.len() {
                assert(rest[i] == groups[i]);
            }
        }
    }
}

/// The chains that are found are the chains that there are.
pub proof fn every_chain_is_found(subject: Observed, graph: Seq<Observed>)
    ensures
        found_chains(subject, graph).to_set() == internet_chains(subject, graph),
{
    assert forall|chain: Seq<Seq<char>>|
        found_chains(subject, graph).to_set().contains(chain) <==> internet_chains(
            subject,
            graph,
        ).contains(chain) by {
        groups_are_of_groups(subject, graph, facing(graph), chain);
    }
    assert(found_chains(subject, graph).to_set() =~= internet_chains(subject, graph));
}

/// The atom of a chain: `via:` and its cloud IDs.
pub open spec fn chain_atom(chain: Seq<Seq<char>>) -> Seq<char> {
    "via:"@ + joined(chain, ">"@)
}

/// The atoms of some chains.
pub open spec fn chain_atoms(chains: Set<Seq<Seq<char>>>) -> Set<Seq<char>> {
    Set::new(
        |atom: Seq<char>|
            exists|chain: Seq<Seq<char>>| #[trigger]
                chains.contains(chain) && atom == chain_atom(chain),
    )
}

/// The cloud IDs on some chains.
pub open spec fn chain_ids(chains: Set<Seq<Seq<char>>>) -> Set<Seq<char>> {
    Set::new(
        |id: Seq<char>|
            exists|chain: Seq<Seq<char>>| #[trigger] chains.contains(chain) && chain.contains(id),
    )
}

/// The texts of some lists of strings.
pub open spec fn text_lists(lists: Seq<Vec<String>>) -> Seq<Seq<Seq<char>>> {
    lists.map_values(|list: Vec<String>| texts(list@))
}

fn subject_subnet_ids(subject: &Node) -> (r: Vec<String>)
    ensures
        texts(r@) == subnets_of(subject@),
{
    let mut subnets: Vec<String> = Vec::new();
    match subject.kind {
        ResourceKind::AwsInstance => {
            if let Some(subnet) = text_of(&subject.attributes, "subnet_id") {
                if !subnet.is_empty() {
                    subnets.push(subnet.to_owned());
                }
            }
            assert(texts(subnets@) =~= subnets_of(subject@));
        },
        ResourceKind::AwsLambdaFunction => {
            subnets = strings_of(subject.attributes.get("subnet_ids"));
        },
        ResourceKind::AwsEcsService => {
            subnets = strings_of(subject.attributes.get("subnet_ids"));
        },
        _ => {
            assert(texts(subnets@) =~= subnets_of(subject@));
        },
    }
    subnets
}

fn acl_governs(acl: &Node, subnets: &Vec<String>) -> (r: bool)
    ensures
        r == governs(acl@, texts(subnets@)),
{
    let mut i: usize = 0;
    while i < subnets.len()
        invariant
            i <= subnets.len(),
            forall|j: int|
                0 <= j < i ==> !has_text(
                    Json::Object(acl.attributes@).get("subnet_ids"@),
                    #[trigger] texts(subnets@)[j],
                ),
        decreases subnets.len() - i,
    {
        assert(texts(subnets@)[i as int] == subnets[i as int]@);
        if lists_text(acl.attributes.get("subnet_ids"), subnets[i].as_str()) {
            return true;
        }
        i += 1;
    }
    false
}

fn acl_lets_in(acl: &Node, source_cidr: &str, ports: &[PortSpec]) -> (r: bool)
    ensures
        r == lets_in(acl@, source_cidr@, port_views(ports@)),
{
    let nothing: Vec<JsonValue> = Vec::new();
    let entries = match ingress_rules(acl) {
        Some(entries) => entries.as_slice(),
        None => nothing.as_slice(),
    };
    assert(jsons(entries@) =~= ingress(acl@));
    let mut i: usize = 0;
    while i < ports.len()
        invariant
            i <= ports.len(),
            jsons(entries@) == ingress(acl@),
            forall|j: int|
                0 <= j < i ==> !allows(
                    ingress(acl@),
                    flow(source_cidr@, #[trigger] port_views(ports@)[j]),
                ),
        decreases ports.len() - i,
    {
        let port = &ports[i];
        assert(port_views(ports@)[i as int] == port@);
        if evaluate(entries, source_cidr, port.protocol.as_str(), port.from, port.to)
            == Verdict::Allow {
            return true;
        }
        i += 1;
    }
    false
}

/// Whether `subject`'s own subnet(s) let a flow from `source_cidr` on any of `ports` through, per the
/// ingress rules of whichever network ACL in `graph` covers each subnet.
///
/// `None` means "no NACL data to check", and the caller must treat that as "don't filter," never as a
/// denial. Reachable through *any* one of the subject's subnets is enough, since which subnet a given
/// invocation actually lands in isn't something this graph can predict.
pub fn subnet_allows(subject: &Node, graph: &Graph, source_cidr: &str, ports: &[PortSpec]) -> (r:
    Option<bool>)
    ensures
        r == subnet_verdict(subject@, graph@, source_cidr@, port_views(ports@)),
{
    let subnets = subject_subnet_ids(subject);
    let acls = graph.nodes_of_kind(&ResourceKind::AwsNetworkAcl);
    let ghost nodes = nodes_of(graph@, Kind::AwsNetworkAcl);
    let mut covered = false;
    let mut i: usize = 0;
    while i < acls.len()
        invariant
            i <= acls.len(),
            nodes == acls@.map_values(|n: &Node| n@),
            nodes == nodes_of(graph@, Kind::AwsNetworkAcl),
            texts(subnets@) == subnets_of(subject@),
            covered == exists|j: int|
                0 <= j < i && governs(#[trigger] nodes[j], subnets_of(subject@)),
            forall|j: int|
                0 <= j < i && governs(#[trigger] nodes[j], subnets_of(subject@)) ==> !lets_in(
                    nodes[j],
                    source_cidr@,
                    port_views(ports@),
                ),
        decreases acls.len() - i,
    {
        let acl = acls[i];
        assert(nodes[i as int] == acl@);
        if acl_governs(acl, &subnets) {
            covered = true;
            if acl_lets_in(acl, source_cidr, ports) {
                assert(admitting(
                    nodes,
                    subnets_of(subject@),
                    source_cidr@,
                    port_views(ports@),
                ));
                return Some(true);
            }
        }
        i += 1;
    }
    assert(covered == governed(nodes, subnets_of(subject@)));
    if covered {
        Some(false)
    } else {
        None
    }
}

impl InternetReachability {
    /// Every chain (entry group, then each hop, ending at the subject) from an internet-facing group
    /// to `subject` in `graph`, excluding any the subject's own subnet NACL actually blocks.
    pub fn chains(subject: &Node, graph: &Graph) -> (r: Vec<Vec<String>>)
        ensures
            text_lists(r@) == found_chains(subject@, graph@),
            text_lists(r@).to_set() == internet_chains(subject@, graph@),
    {
        let groups = internet_facing_groups(graph);
        let ghost all = facing(graph@);
        let mut chains: Vec<Vec<String>> = Vec::new();
        let mut i: usize = 0;
        assert(text_lists(chains@) =~= Seq::empty());
        while i < groups.len()
            invariant
                i <= groups.len(),
                all == facing_views(groups@),
                text_lists(chains@) == chains_from_groups(subject@, graph@, all.take(i as int)),
            decreases groups.len() - i,
        {
            let group = &groups[i];
            assert(all[i as int] == (group.0@, entry_views(group.1@)));
            assert(all.take(i + 1).drop_last() =~= all.take(i as int));
            chains_of_group(subject, graph, group, &mut chains);
            i += 1;
        }
        assert(all.len() == groups.len());
        assert(all.take(i as int) =~= all);
        proof {
            every_chain_is_found(subject@, graph@);
        }
        chains
    }
}

fn chains_of_group(
    subject: &Node,
    graph: &Graph,
    group: &(String, Vec<EntryPoint>),
    chains: &mut Vec<Vec<String>>,
)
    ensures
        text_lists(final(chains)@) == text_lists(old(chains)@) + chains_from_group(
            subject@,
            graph@,
            group.0@,
            entry_views(group.1@),
        ),
{
    let ghost entries = entry_views(group.1@);
    let mut i: usize = 0;
    assert(text_lists(chains@) =~= text_lists(old(chains)@) + Seq::empty());
    while i < group.1.len()
        invariant
            i <= group.1.len(),
            entries == entry_views(group.1@),
            text_lists(chains@) == text_lists(old(chains)@) + chains_from_group(
                subject@,
                graph@,
                group.0@,
                entries.take(i as int),
            ),
        decreases group.1.len() - i,
    {
        let entry = &group.1[i];
        let ghost earlier = text_lists(chains@);
        assert(entries[i as int] == entry@);
        assert(entries.take(i + 1).drop_last() =~= entries.take(i as int));
        chains_of_entry(subject, graph, group.0.as_str(), entry, chains);
        assert(text_lists(chains@) =~= text_lists(old(chains)@) + chains_from_group(
            subject@,
            graph@,
            group.0@,
            entries.take(i + 1),
        ));
        i += 1;
    }
    assert(entries.len() == group.1.len());
    assert(entries.take(i as int) =~= entries);
}

fn chains_of_entry(
    subject: &Node,
    graph: &Graph,
    group: &str,
    entry: &EntryPoint,
    chains: &mut Vec<Vec<String>>,
)
    ensures
        text_lists(final(chains)@) == text_lists(old(chains)@) + chains_along(
            subject@,
            graph@,
            group@,
            entry@,
            reached_from(graph@, group@, entry@),
        ),
{
    let mut ports: Vec<PortSpec> = Vec::new();
    ports.push(entry.port.clone());
    assert(port_views(ports@) =~= seq![entry@.port]);
    let reached = reachable_from(
        graph,
        &ResourceKind::AwsSecurityGroup,
        group,
        ports.as_slice(),
        MAX_HOPS,
    );
    let ghost all = reached_from(graph@, group@, entry@);
    let mut i: usize = 0;
    assert(text_lists(chains@) =~= text_lists(old(chains)@) + Seq::empty());
    while i < reached.len()
        invariant
            i <= reached.len(),
            all == hop_views(reached@),
            text_lists(chains@) == text_lists(old(chains)@) + chains_along(
                subject@,
                graph@,
                group@,
                entry@,
                all.take(i as int),
            ),
        decreases reached.len() - i,
    {
        let hop = &reached[i];
        let ghost before = text_lists(chains@);
        assert(all[i as int] == hop@);
        assert(all.take(i + 1).drop_last() =~= all.take(i as int));
        assert(all.take(i + 1).last() == hop@);
        let blocked = subnet_allows(
            subject,
            graph,
            entry.source_cidr.as_str(),
            hop.ports.as_slice(),
        );
        let passes = match blocked {
            Some(false) => false,
            _ => true,
        };
        if hop.kind.same_as(&subject.kind) && same(hop.cloud_id.as_str(), subject.cloud_id.as_str())
            && passes {
            let mut chain: Vec<String> = Vec::new();
            chain.push(group.to_owned());
            let mut path = copied_texts(&hop.path);
            let ghost passed = path@;
            chain.append(&mut path);
            let ghost view = texts(chain@);
            assert(texts(chain@) =~= seq![group@] + texts(passed));
            chains.push(chain);
            assert(text_lists(chains@) =~= before.push(view));
        }
        assert(text_lists(chains@) =~= text_lists(old(chains)@) + chains_along(
            subject@,
            graph@,
            group@,
            entry@,
            all.take(i + 1),
        ));
        i += 1;
    }
    assert(all.len() == reached.len());
    assert(all.take(i as int) =~= all);
}

impl Relation for InternetReachability {
    open spec fn called(&self) -> Seq<char> {
        "internet_reachability"@
    }

    open spec fn needed(&self) -> Seq<Kind> {
        seq![Kind::AwsSecurityGroup]
    }

    open spec fn subjects(&self) -> Seq<(Kind, Seq<char>)> {
        seq![
            (Kind::AwsInstance, "vpc_security_group_ids"@),
            (Kind::AwsDbInstance, "vpc_security_group_ids"@),
            (Kind::AwsLambdaFunction, "vpc_security_group_ids"@),
            (Kind::AwsEcsService, "vpc_security_group_ids"@),
        ]
    }

    open spec fn meaning(&self, subject: Observed, graph: Seq<Observed>) -> std::result::Result<
        Json,
        Seq<char>,
    > {
        Ok(set_array(chain_atoms(internet_chains(subject, graph))))
    }

    open spec fn passed(&self, subject: Observed, graph: Seq<Observed>) -> Set<Seq<char>> {
        chain_ids(internet_chains(subject, graph))
    }

    proof fn differences_have_a_path(
        &self,
        a: Observed,
        a_graph: Seq<Observed>,
        b: Observed,
        b_graph: Seq<Observed>,
    ) {
        let x = chain_atoms(internet_chains(a, a_graph));
        let y = chain_atoms(internet_chains(b, b_graph));
        if x == y {
            same_arrays(x, y);
        } else {
            assert(!(x =~= y));
            let atom = choose|atom: Seq<char>| x.contains(atom) != y.contains(atom);
            let (subject, graph) = if x.contains(atom) {
                (a, a_graph)
            } else {
                (b, b_graph)
            };
            let chains = internet_chains(subject, graph);
            let chain = choose|chain: Seq<Seq<char>>| #[trigger]
                chains.contains(chain) && atom == chain_atom(chain);
            chains_start_at_the_entry(subject, graph, chain);
            assert(chain.contains(chain[0]));
            assert(chain_ids(chains).contains(chain[0]));
            assert(self.passed(a, a_graph).union(self.passed(b, b_graph)).contains(chain[0]));
        }
    }

    proof fn paths_are_finite(&self, subject: Observed, graph: Seq<Observed>) {
        every_chain_is_found(subject, graph);
        ids_are_finite(found_chains(subject, graph));
    }

    fn name(&self) -> (r: &str) {
        "internet_reachability"
    }

    /// Same reasoning as [`InstanceExposure`]: reachability is derived from what groups allow, so a
    /// state file declaring none isn't authoritative.
    fn required_kinds(&self) -> (r: Vec<ResourceKind>) {
        let r = vec![ResourceKind::AwsSecurityGroup];
        assert(r@.map_values(|kind: ResourceKind| kind@) =~= self.needed());
        r
    }

    /// The same field [`InstanceExposure`] expands, read transitively, and asked of every kind that
    /// can carry a security group: "is this thing reachable from the internet at all" is the same
    /// claim shape regardless of which kind answers yes.
    fn subject(&self) -> (r: Vec<(ResourceKind, &'static str)>) {
        let r = vec![
            (ResourceKind::AwsInstance, "vpc_security_group_ids"),
            (ResourceKind::AwsDbInstance, "vpc_security_group_ids"),
            (ResourceKind::AwsLambdaFunction, "vpc_security_group_ids"),
            (ResourceKind::AwsEcsService, "vpc_security_group_ids"),
        ];
        assert(r@.map_values(|s: (ResourceKind, &'static str)| (s.0@, s.1@)) =~= self.subjects());
        r
    }

    /// One atom per distinct chain, not just per entry/target pair: a topology change (a different
    /// intermediate hop) is meaningful even when "reachable: yes" doesn't change. An instance no
    /// chain reaches expands to an empty set, not an error: unlike a dangling group reference, "not
    /// currently reachable" is a legitimate, resolvable state.
    fn expand(&self, subject: &Node, graph: &Graph) -> (r: std::result::Result<JsonValue, String>) {
        let chains = InternetReachability::chains(subject, graph);
        let ghost all = text_lists(chains@);
        let mut atoms = TextSet::new();
        let mut i: usize = 0;
        assert(atoms@ =~= chain_atoms(all.take(0).to_set()));
        while i < chains.len()
            invariant
                i <= chains.len(),
                all == text_lists(chains@),
                atoms@ == chain_atoms(all.take(i as int).to_set()),
            decreases chains.len() - i,
        {
            let mut atom = "via:".to_owned();
            atom.append(joined_text(&chains[i], ">").as_str());
            let ghost chain = all[i as int];
            let ghost earlier = atoms@;
            assert(chain == texts(chains[i as int]@));
            assert(atom@ == chain_atom(chain));
            atoms.insert(atom);
            proof {
                let p = all.take(i as int);
                assert(all.take(i + 1) =~= p.push(chain));
                p.lemma_push_to_set_commute(chain);
                assert forall|a: Seq<char>| atoms@.contains(a) <==> chain_atoms(
                    p.to_set().insert(chain),
                ).contains(a) by {
                    if chain_atoms(p.to_set()).contains(a) {
                        let c = choose|c: Seq<Seq<char>>| #[trigger]
                            p.to_set().contains(c) && a == chain_atom(c);
                        assert(p.to_set().insert(chain).contains(c));
                    }
                    if chain_atoms(p.to_set().insert(chain)).contains(a) {
                        let c = choose|c: Seq<Seq<char>>| #[trigger]
                            p.to_set().insert(chain).contains(c) && a == chain_atom(c);
                        if c != chain {
                            assert(p.to_set().contains(c));
                        }
                    }
                    if a == chain_atom(chain) {
                        assert(p.to_set().insert(chain).contains(chain));
                    }
                }
                assert(atoms@ =~= chain_atoms(p.to_set().insert(chain)));
            }
            i += 1;
        }
        assert(all.take(i as int) =~= all);
        Ok(array_of_set(&atoms))
    }

    fn via(&self, subject: &Node, graph: &Graph) -> (r: Vec<String>) {
        let chains = InternetReachability::chains(subject, graph);
        let ghost all = text_lists(chains@);
        let mut ids = TextSet::new();
        let mut i: usize = 0;
        assert(ids@ =~= chain_ids(all.take(0).to_set()));
        while i < chains.len()
            invariant
                i <= chains.len(),
                all == text_lists(chains@),
                ids@ == chain_ids(all.take(i as int).to_set()),
            decreases chains.len() - i,
        {
            let ghost chain = all[i as int];
            assert(chain == texts(chains[i as int]@));
            ids.extend(&set_of(&chains[i]));
            proof {
                let p = all.take(i as int);
                assert(all.take(i + 1) =~= p.push(chain));
                p.lemma_push_to_set_commute(chain);
                assert forall|id: Seq<char>| ids@.contains(id) <==> chain_ids(
                    p.to_set().insert(chain),
                ).contains(id) by {
                    if chain_ids(p.to_set()).contains(id) {
                        let c = choose|c: Seq<Seq<char>>| #[trigger]
                            p.to_set().contains(c) && c.contains(id);
                        assert(p.to_set().insert(chain).contains(c));
                    }
                    if chain_ids(p.to_set().insert(chain)).contains(id) {
                        let c = choose|c: Seq<Seq<char>>| #[trigger]
                            p.to_set().insert(chain).contains(c) && c.contains(id);
                        if c != chain {
                            assert(p.to_set().contains(c));
                        }
                    }
                    if chain.contains(id) {
                        assert(p.to_set().insert(chain).contains(chain));
                    }
                }
                assert(ids@ =~= chain_ids(p.to_set().insert(chain)));
            }
            i += 1;
        }
        assert(all.take(i as int) =~= all);
        copied_texts(ids.members())
    }
}

proof fn ids_are_finite(chains: Seq<Seq<Seq<char>>>)
    ensures
        chain_ids(chains.to_set()).finite(),
    decreases chains.len(),
{
    broadcast use vstd::seq_lib::group_seq_properties;

    if chains.len() == 0 {
        assert(chain_ids(chains.to_set()) =~= Set::empty());
    } else {
        let rest = chains.drop_last();
        let last = chains.last();
        ids_are_finite(rest);
        vstd::seq_lib::seq_to_set_is_finite(last);
        assert(chains =~= rest.push(last));
        assert forall|id: Seq<char>| chain_ids(chains.to_set()).contains(id) implies chain_ids(
            rest.to_set(),
        ).union(last.to_set()).contains(id) by {
            let chain = choose|chain: Seq<Seq<char>>| #[trigger]
                chains.to_set().contains(chain) && chain.contains(id);
            if chain != last {
                assert(rest.contains(chain));
                assert(rest.to_set().contains(chain));
            }
        }
        vstd::set_lib::lemma_len_subset(
            chain_ids(chains.to_set()),
            chain_ids(rest.to_set()).union(last.to_set()),
        );
    }
}

/// A chain starts at an internet-facing group.
pub proof fn chains_start_at_the_entry(
    subject: Observed,
    graph: Seq<Observed>,
    chain: Seq<Seq<char>>,
)
    requires
        internet_chains(subject, graph).contains(chain),
    ensures
        chain.len() > 0,
        exists|i: int| 0 <= i < facing(graph).len() && chain[0] == (#[trigger] facing(graph)[i]).0,
{
    let i = choose|i: int|
        0 <= i < facing(graph).len() && chain_from(
            subject,
            graph,
            #[trigger] facing(graph)[i],
            chain,
        );
    let group = facing(graph)[i];
    let j = choose|j: int|
        0 <= j < group.1.len() && #[trigger] chain_of_entry(
            subject,
            graph,
            group.0,
            group.1[j],
            chain,
        );
    assert(chain[0] == group.0);
}

/// A chain ends at the subject.
pub proof fn chains_end_at_the_subject(
    subject: Observed,
    graph: Seq<Observed>,
    chain: Seq<Seq<char>>,
)
    requires
        internet_chains(subject, graph).contains(chain),
    ensures
        chain.len() > 1,
        chain.last() == subject.cloud_id,
{
    let i = choose|i: int|
        0 <= i < facing(graph).len() && chain_from(
            subject,
            graph,
            #[trigger] facing(graph)[i],
            chain,
        );
    let group = facing(graph)[i];
    let j = choose|j: int|
        0 <= j < group.1.len() && #[trigger] chain_of_entry(
            subject,
            graph,
            group.0,
            group.1[j],
            chain,
        );
    let entry = group.1[j];
    let reached = reached_from(graph, group.0, entry);
    let k = choose|k: int|
        0 <= k < reached.len() && gets_to(subject, graph, entry, #[trigger] reached[k]) && chain
            == seq![group.0] + reached[k].path;
    reported_is_reachable(
        graph,
        Kind::AwsSecurityGroup,
        group.0,
        seq![entry.port],
        MAX_HOPS as nat,
        k,
    );
    assert(chain.last() == reached[k].path.last());
}

/// Every chain that a walk from an internet-facing group to the subject gives, whatever the
/// subject's subnet lets in.
pub open spec fn ungated_chains(subject: Observed, graph: Seq<Observed>) -> Set<Seq<Seq<char>>> {
    Set::new(
        |chain: Seq<Seq<char>>|
            exists|i: int, j: int, k: int|
                {
                    &&& 0 <= i < facing(graph).len()
                    &&& 0 <= j < facing(graph)[i].1.len()
                    &&& 0 <= k < reached_from(graph, facing(graph)[i].0, facing(graph)[i].1[j]).len()
                    &&& is_chain_at(subject, graph, chain, i, j, k)
                },
    )
}

/// `chain` is what the walk passes from the group numbered `i`, through its entry point numbered
/// `j`, to the subject, which is the resource numbered `k` that the walk reaches.
pub open spec fn is_chain_at(
    subject: Observed,
    graph: Seq<Observed>,
    chain: Seq<Seq<char>>,
    i: int,
    j: int,
    k: int,
) -> bool {
    let group = facing(graph)[i];
    let hop = reached_from(graph, group.0, group.1[j])[k];
    hop.kind == subject.kind && hop.id == subject.cloud_id && chain == seq![group.0] + hop.path
}

/// The network ACL gate only ever narrows: it takes chains away and adds none.
pub proof fn gate_only_narrows(subject: Observed, graph: Seq<Observed>)
    ensures
        internet_chains(subject, graph).subset_of(ungated_chains(subject, graph)),
{
    assert forall|chain: Seq<Seq<char>>| internet_chains(subject, graph).contains(
        chain,
    ) implies ungated_chains(subject, graph).contains(chain) by {
        let i = choose|i: int|
            0 <= i < facing(graph).len() && chain_from(
                subject,
                graph,
                #[trigger] facing(graph)[i],
                chain,
            );
        let group = facing(graph)[i];
        let j = choose|j: int|
            0 <= j < group.1.len() && #[trigger] chain_of_entry(
                subject,
                graph,
                group.0,
                group.1[j],
                chain,
            );
        let reached = reached_from(graph, group.0, group.1[j]);
        let k = choose|k: int|
            0 <= k < reached.len() && gets_to(subject, graph, group.1[j], #[trigger] reached[k])
                && chain == seq![group.0] + reached[k].path;
        assert(is_chain_at(subject, graph, chain, i, j, k));
    }
}

/// Where no network ACL of the graph governs a subnet of the subject, no chain is taken away.
pub proof fn gate_needs_data(subject: Observed, graph: Seq<Observed>)
    requires
        !governed(nodes_of(graph, Kind::AwsNetworkAcl), subnets_of(subject)),
    ensures
        internet_chains(subject, graph) == ungated_chains(subject, graph),
{
    gate_only_narrows(subject, graph);
    assert forall|chain: Seq<Seq<char>>| ungated_chains(subject, graph).contains(
        chain,
    ) implies internet_chains(subject, graph).contains(chain) by {
        let (i, j, k) = choose|i: int, j: int, k: int|
            {
                &&& 0 <= i < facing(graph).len()
                &&& 0 <= j < facing(graph)[i].1.len()
                &&& 0 <= k < reached_from(graph, facing(graph)[i].0, facing(graph)[i].1[j]).len()
                &&& is_chain_at(subject, graph, chain, i, j, k)
            };
        let group = facing(graph)[i];
        let entry = group.1[j];
        let hop = reached_from(graph, group.0, entry)[k];
        without_acl_nothing_is_blocked(subject, graph, entry.source_cidr, hop.ports);
        assert(gets_to(subject, graph, entry, hop));
        assert(chain_of_entry(subject, graph, group.0, group.1[j], chain));
        assert(chain_from(subject, graph, group, chain));
    }
    assert(internet_chains(subject, graph) =~= ungated_chains(subject, graph));
}

/// The network ACL gate narrows only with data: a subject none of whose subnets a
/// network ACL of the graph governs is never filtered, whatever the flow.
pub proof fn without_acl_nothing_is_blocked(
    subject: Observed,
    graph: Seq<Observed>,
    source_cidr: Seq<char>,
    ports: Seq<Ports>,
)
    requires
        !governed(nodes_of(graph, Kind::AwsNetworkAcl), subnets_of(subject)),
    ensures
        subnet_verdict(subject, graph, source_cidr, ports) is None,
{
    let acls = nodes_of(graph, Kind::AwsNetworkAcl);
    if admitting(acls, subnets_of(subject), source_cidr, ports) {
        let i = choose|i: int|
            0 <= i < acls.len() && governs(#[trigger] acls[i], subnets_of(subject)) && lets_in(
                acls[i],
                source_cidr,
                ports,
            );
        assert(governs(acls[i], subnets_of(subject)));
    }
}

/// What the rules of a group admit does not depend on the order in which its members were
/// discovered.
pub proof fn membership_ignores_discovery_order(
    subject: Observed,
    a: Seq<Observed>,
    b: Seq<Observed>,
)
    requires
        a.to_set() == b.to_set(),
    ensures
        membership(subject, a) == membership(subject, b),
{
    let rules = ingress(subject);
    assert forall|group: Seq<char>| #[trigger] members_of(a, group) == members_of(b, group) by {
        discovery_order_does_not_matter(a, b, group, Kind::AwsInstance);
        discovery_order_does_not_matter(a, b, group, Kind::AwsLoadBalancer);
        discovery_order_does_not_matter(a, b, group, Kind::AwsLambdaFunction);
        discovery_order_does_not_matter(a, b, group, Kind::AwsDbInstance);
        discovery_order_does_not_matter(a, b, group, Kind::AwsEcsService);
    }
    absent_on_both(a, b, trusted_groups(rules));
    assert forall|rule: Json, source: Seq<char>| #[trigger]
        member_atoms(rule, a, source) == member_atoms(rule, b, source) by {
        assert(members_of(a, source) == members_of(b, source));
        assert(member_atoms(rule, a, source) =~= member_atoms(rule, b, source));
    }
    assert forall|rule: Json| #[trigger] admitted_by(rule, a) == admitted_by(rule, b) by {
        assert forall|atom: Seq<char>| admitted_by(rule, a).contains(atom) <==> admitted_by(
            rule,
            b,
        ).contains(atom) by {
            if admitted_by(rule, a).contains(atom) {
                let source = choose|source: Seq<char>| #[trigger]
                    trusts(rule, source) && member_atoms(rule, a, source).contains(atom);
                assert(member_atoms(rule, a, source) == member_atoms(rule, b, source));
            }
            if admitted_by(rule, b).contains(atom) {
                let source = choose|source: Seq<char>| #[trigger]
                    trusts(rule, source) && member_atoms(rule, b, source).contains(atom);
                assert(member_atoms(rule, a, source) == member_atoms(rule, b, source));
            }
        }
        assert(admitted_by(rule, a) =~= admitted_by(rule, b));
    }
    assert forall|atom: Seq<char>| admitted(rules, a).contains(atom) <==> admitted(
        rules,
        b,
    ).contains(atom) by {
        if admitted(rules, a).contains(atom) {
            let i = choose|i: int|
                0 <= i < rules.len() && admitted_by(#[trigger] rules[i], a).contains(atom);
            assert(admitted_by(rules[i], a) == admitted_by(rules[i], b));
        }
        if admitted(rules, b).contains(atom) {
            let i = choose|i: int|
                0 <= i < rules.len() && admitted_by(#[trigger] rules[i], b).contains(atom);
            assert(admitted_by(rules[i], a) == admitted_by(rules[i], b));
        }
    }
    assert(admitted(rules, a) =~= admitted(rules, b));
}

proof fn absent_on_both(a: Seq<Observed>, b: Seq<Observed>, groups: Seq<Seq<char>>)
    requires
        a.to_set() == b.to_set(),
    ensures
        first_absent(a, groups) == first_absent(b, groups),
    decreases groups.len(),
{
    if groups.len() > 0 {
        absent_on_both(a, b, groups.drop_last());
        let group = groups.last();
        let kind = Kind::AwsSecurityGroup;
        discovery_order_does_not_matter(a, b, group, kind);
        present_means_an_id(a, kind, group);
        present_means_an_id(b, kind, group);
    }
}

proof fn present_means_an_id(graph: Seq<Observed>, kind: Kind, id: Seq<char>)
    ensures
        observation(graph, kind, id) is Some <==> ids_of(graph, kind).contains(id),
{
    observation_is_of_the_resource(graph, kind, id);
    if let Some(node) = observation(graph, kind, id) {
        let i = choose|i: int| 0 <= i < graph.len() && graph[i] == node;
        assert(graph[i].kind == kind && graph[i].cloud_id == id);
    }
}

} // verus!
