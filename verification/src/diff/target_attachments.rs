//! Reconciliation of `aws_lb_target_group_attachment` resources into their owning target group's
//! declared `targets`.
//!
//! The same "sibling resource" shape [`crate::diff::rules::SiblingRules`] already solves for
//! security-group rules, just simpler: no directions, no rule-shape normalization, one attribute
//! pair per attachment. Terraform has no inline `targets` argument on `aws_lb_target_group`:
//! registration is this separate resource, while AWS reports a target group's registrations on the
//! group itself, so only the *declared* side needs this.

use vstd::prelude::*;

use crate::text::{same, texts};
use crate::types::resource::{
    declared_views, text_at, text_of, Declared, Kind, Resource, ResourceKind,
};

verus! {

/// The declared registrations, as target group and target, in the order of their declaration.
///
/// An attachment contributes whether or not it has its own cloud id: unlike a comparison subject it
/// is read as declared *intent*.
pub open spec fn attachments(declared: Seq<Declared>) -> Seq<(Seq<char>, Seq<char>)>
    decreases declared.len(),
{
    if declared.len() == 0 {
        Seq::empty()
    } else {
        let before = attachments(declared.drop_last());
        let last = declared.last();
        match (
            text_at(last.attributes, "target_group_arn"@),
            text_at(last.attributes, "target_id"@),
        ) {
            (Some(group), Some(target)) => if last.kind == Kind::AwsLbTargetGroupAttachment {
                before.push((group, target))
            } else {
                before
            },
            _ => before,
        }
    }
}

/// The targets registered with `group` among `pairs`, in their order.
pub open spec fn registered(pairs: Seq<(Seq<char>, Seq<char>)>, group: Seq<char>) -> Seq<Seq<char>>
    decreases pairs.len(),
{
    if pairs.len() == 0 {
        Seq::empty()
    } else {
        let before = registered(pairs.drop_last(), group);
        if pairs.last().0 == group {
            before.push(pairs.last().1)
        } else {
            before
        }
    }
}

/// Declared target-group-attachment resources, indexed by the target group they register a target
/// with.
#[derive(Debug)]
pub struct TargetAttachments {
    pairs: Vec<(String, String)>,
}

impl View for TargetAttachments {
    type V = Seq<(Seq<char>, Seq<char>)>;

    closed spec fn view(&self) -> Seq<(Seq<char>, Seq<char>)> {
        self.pairs@.map_values(|pair: (String, String)| (pair.0@, pair.1@))
    }
}

impl Default for TargetAttachments {
    fn default() -> (r: Self)
        ensures
            r@ == Seq::<(Seq<char>, Seq<char>)>::empty(),
    {
        let empty = TargetAttachments { pairs: Vec::new() };
        assert(empty@ =~= Seq::empty());
        empty
    }
}

impl TargetAttachments {
    /// Index every declared `aws_lb_target_group_attachment` resource.
    pub fn index(declared: &[Resource]) -> (r: Self)
        ensures
            r@ == attachments(declared_views(declared@)),
    {
        let mut found = TargetAttachments::default();
        let mut i: usize = 0;
        assert(found@ =~= Seq::empty());
        while i < declared.len()
            invariant
                i <= declared.len(),
                found@ == attachments(declared_views(declared@).take(i as int)),
            decreases declared.len() - i,
        {
            let resource = &declared[i];
            let ghost prefix = declared_views(declared@).take(i + 1);
            let ghost before = found@;
            assert(prefix.drop_last() =~= declared_views(declared@).take(i as int));
            assert(prefix.last() == resource@);
            if resource.kind.same_as(&ResourceKind::AwsLbTargetGroupAttachment) {
                if let Some(group) = text_of(&resource.attributes, "target_group_arn") {
                    if let Some(target) = text_of(&resource.attributes, "target_id") {
                        found.pairs.push((group.to_owned(), target.to_owned()));
                        assert(found@ =~= before.push((group@, target@)));
                    }
                }
            }
            i += 1;
        }
        assert(declared_views(declared@).take(i as int) =~= declared_views(declared@));
        found
    }

    /// The target ids declared as registered to one target group.
    pub fn targets(&self, target_group_arn: &str) -> (r: Vec<String>)
        ensures
            texts(r@) == registered(self@, target_group_arn@),
    {
        let mut targets: Vec<String> = Vec::new();
        let mut i: usize = 0;
        assert(texts(targets@) =~= Seq::empty());
        while i < self.pairs.len()
            invariant
                i <= self.pairs.len(),
                texts(targets@) == registered(self@.take(i as int), target_group_arn@),
            decreases self.pairs.len() - i,
        {
            let pair = &self.pairs[i];
            let ghost prefix = self@.take(i + 1);
            let ghost before = targets@;
            assert(prefix.drop_last() =~= self@.take(i as int));
            assert(prefix.last() == (pair.0@, pair.1@));
            if same(pair.0.as_str(), target_group_arn) {
                targets.push(pair.1.clone());
                assert(texts(targets@) =~= texts(before).push(pair.1@));
            }
            i += 1;
        }
        assert(self@.take(i as int) =~= self@);
        targets
    }
}

/// A target is registered with a group exactly when an attachment declares it.
pub proof fn registered_means_declared(declared: Seq<Declared>, group: Seq<char>, target: Seq<char>)
    ensures
        registered(attachments(declared), group).contains(target) <==> exists|i: int|
            0 <= i < declared.len() && (#[trigger] declared[i]).kind
                == Kind::AwsLbTargetGroupAttachment && text_at(
                declared[i].attributes,
                "target_group_arn"@,
            ) == Some(group) && text_at(declared[i].attributes, "target_id"@) == Some(target),
    decreases declared.len(),
{
    if declared.len() > 0 {
        let rest = declared.drop_last();
        registered_means_declared(rest, group, target);
        let before = registered(attachments(rest), group);
        let after = registered(attachments(declared), group);
        if attachments(declared).len() > attachments(rest).len() {
            assert(attachments(declared).drop_last() =~= attachments(rest));
        }
        if before.contains(target) {
            let k = choose|k: int| 0 <= k < before.len() && before[k] == target;
            assert(after[k] == target);
            let i = choose|i: int|
                0 <= i < rest.len() && (#[trigger] rest[i]).kind
                    == Kind::AwsLbTargetGroupAttachment && text_at(
                    rest[i].attributes,
                    "target_group_arn"@,
                ) == Some(group) && text_at(rest[i].attributes, "target_id"@) == Some(target);
            assert(declared[i] == rest[i]);
        }
        let n = declared.len() - 1;
        let last = declared[n];
        if last.kind == Kind::AwsLbTargetGroupAttachment && text_at(
            last.attributes,
            "target_group_arn"@,
        ) == Some(group) && text_at(last.attributes, "target_id"@) == Some(target) {
            assert(after.last() == target);
        }
        if after.contains(target) && !before.contains(target) {
            let k = choose|k: int| 0 <= k < after.len() && after[k] == target;
            if k < before.len() {
                assert(before[k] == target);
            }
            assert(declared[n] == last);
        }
        if exists|i: int|
            0 <= i < declared.len() && (#[trigger] declared[i]).kind
                == Kind::AwsLbTargetGroupAttachment && text_at(
                declared[i].attributes,
                "target_group_arn"@,
            ) == Some(group) && text_at(declared[i].attributes, "target_id"@) == Some(target) {
            let i = choose|i: int|
                0 <= i < declared.len() && (#[trigger] declared[i]).kind
                    == Kind::AwsLbTargetGroupAttachment && text_at(
                    declared[i].attributes,
                    "target_group_arn"@,
                ) == Some(group) && text_at(declared[i].attributes, "target_id"@) == Some(target);
            if i < n {
                assert(rest[i] == declared[i]);
            }
        }
    }
}

} // verus!
