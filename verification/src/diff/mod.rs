//! Diffing: compare desired state against live state to produce drift.
//!
//! Two passes, in order, over the same inputs:
//!
//! - [`behavioral`]: a field's stored value no longer matches what was declared. Table stakes.
//! - [`semantic`]: the stored values agree, but the resource no longer *means* what it did. The
//!   differentiator.
//!
//! [`compare`] runs both and owns the disjointness between them. The per-pass entry points stay
//! public for direct testing.

pub mod behavioral;
pub mod rules;
pub mod semantic;
pub mod target_attachments;

use vstd::prelude::*;

use crate::collector::{observed_views, LiveResource, Observed};
use crate::diff::behavioral::{behavioral_report, only_behavioral};
use crate::diff::semantic::{field_drifted, has_path, passes_are_disjoint, semantic_report};
use crate::types::drift::{Change, DriftReport, Report};
use crate::types::resource::{declared_views, Declared, Resource};

verus! {

/// The report of both passes.
pub open spec fn drift_report(declared: Seq<Declared>, live: Seq<Observed>) -> Report {
    semantic_report(declared, live, behavioral_report(declared, live))
}

/// Compare declared state against live observations, running both drift passes.
///
/// Order matters: the semantic pass reads the behavioral results to enforce that the two classes
/// never both fire on the same resource and field.
pub fn compare(declared: &[Resource], live: &[LiveResource]) -> (r: DriftReport)
    ensures
        r@ == drift_report(declared_views(declared@), observed_views(live@)),
        forall|i: int|
            0 <= i < r.drifts.len() && (#[trigger] r@.drifts[i]).change is SemanticChanged
                ==> has_path(r@.drifts[i]),
{
    let mut report = behavioral::compare(declared, live);
    let ghost first = report@;
    semantic::compare(declared, live, &mut report);
    proof {
        only_behavioral(declared_views(declared@), observed_views(live@));
        assert forall|i: int|
            0 <= i < report.drifts.len() && (#[trigger] report@.drifts[i]).change
                is SemanticChanged implies has_path(report@.drifts[i]) by {
            if i < first.drifts.len() {
                assert(report@.drifts.subrange(0, first.drifts.len() as int)[i]
                    == report@.drifts[i]);
                assert(!(first.drifts[i].change is SemanticChanged));
            }
        }
    }
    report
}

/// The two classes of drift never both fire on the same resource and field.
pub proof fn one_class_per_field(declared: Seq<Declared>, live: Seq<Observed>, i: int, j: int)
    requires
        0 <= i < drift_report(declared, live).drifts.len(),
        0 <= j < drift_report(declared, live).drifts.len(),
    ensures
        ({
            let a = drift_report(declared, live).drifts[i];
            let b = drift_report(declared, live).drifts[j];
            (a.change matches Change::FieldChanged { field, .. } && (b.change matches
                Change::SemanticChanged { field: other, .. } && a.resource == b.resource)) ==> (
            a.change->FieldChanged_field != b.change->SemanticChanged_field)
        }),
{
    let first = behavioral_report(declared, live);
    let all = drift_report(declared, live);
    passes_are_disjoint(declared, live, first);
    only_behavioral(declared, live);
    let a = all.drifts[i];
    let b = all.drifts[j];
    assert(forall|k: int|
        0 <= k < first.drifts.len() ==> all.drifts.subrange(0, first.drifts.len() as int)[k]
            == #[trigger] all.drifts[k]);
    if a.change is FieldChanged && b.change is SemanticChanged && a.resource == b.resource {
        assert(i < first.drifts.len());
        assert(first.drifts[i] == a);
        assert(j >= first.drifts.len()) by {
            if j < first.drifts.len() {
                assert(first.drifts[j] == b);
            }
        }
        if a.change->FieldChanged_field == b.change->SemanticChanged_field {
            assert(field_drifted(
                first.drifts,
                b.resource,
                b.change->SemanticChanged_field,
            ));
        }
    }
}

} // verus!
