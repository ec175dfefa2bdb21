//! Drift model: what changed, how much it matters, and the collected report.

use vstd::prelude::*;

use crate::json::{equal_values, same_json, Json, JsonValue};
use crate::text::{copied_texts, same, same_texts, texts};
use crate::types::resource::ResourceId;

verus! {

/// How severe a detected drift is.
#[derive(Debug, Clone, Copy, PartialEq, Eq, PartialOrd, Ord, Structural)]
pub enum Severity {
    Info,
    Low,
    Medium,
    High,
    Critical,
}

impl Severity {
    /// The name of a severity.
    pub open spec fn name(self) -> Seq<char> {
        match self {
            Severity::Info => "Info"@,
            Severity::Low => "Low"@,
            Severity::Medium => "Medium"@,
            Severity::High => "High"@,
            Severity::Critical => "Critical"@,
        }
    }

    /// The name of this severity.
    pub fn label(self) -> (r: &'static str)
        ensures
            r@ == self.name(),
    {
        match self {
            Severity::Info => "Info",
            Severity::Low => "Low",
            Severity::Medium => "Medium",
            Severity::High => "High",
            Severity::Critical => "Critical",
        }
    }
}

/// The nature of a detected drift.
#[derive(Debug)]
#[non_exhaustive]
pub enum DriftKind {
    /// Declared in state with a real cloud ID, but not found live.
    Missing,
    /// A field's live value no longer matches what was declared.
    FieldChanged { field: String, declared: JsonValue, actual: JsonValue },
    /// The field's value is unchanged, but what it *means* is not, because something it references
    /// changed.
    SemanticChanged {
        /// The subject field whose meaning changed. Its stored value is identical on both sides:
        /// that is what makes this semantic drift rather than behavioral.
        field: String,
        /// The relation that resolved the effective meaning, e.g. `sg_membership`.
        relation: String,
        declared_effective: JsonValue,
        actual_effective: JsonValue,
        /// Cloud IDs on the path from subject to cause. **Never empty.**
        ///
        /// A behavioral finding is self-evident from its two values, but this one asserts
        /// something about a resource whose fields are provably unchanged, so without the path it
        /// is an unfalsifiable claim.
        via: Vec<String>,
    },
}

/// What a [`DriftKind`] denotes.
pub enum Change {
    Missing,
    FieldChanged { field: Seq<char>, declared: Json, actual: Json },
    SemanticChanged {
        field: Seq<char>,
        relation: Seq<char>,
        declared_effective: Json,
        actual_effective: Json,
        via: Seq<Seq<char>>,
    },
}

impl View for DriftKind {
    type V = Change;

    open spec fn view(&self) -> Change {
        match self {
            DriftKind::Missing => Change::Missing,
            DriftKind::FieldChanged { field, declared, actual } => Change::FieldChanged {
                field: field@,
                declared: declared@,
                actual: actual@,
            },
            DriftKind::SemanticChanged {
                field,
                relation,
                declared_effective,
                actual_effective,
                via,
            } => Change::SemanticChanged {
                field: field@,
                relation: relation@,
                declared_effective: declared_effective@,
                actual_effective: actual_effective@,
                via: texts(via@),
            },
        }
    }
}

/// Two changes are the same: of the same nature, in the same field, with equal values and by the
/// same path.
pub open spec fn same_change(a: Change, b: Change) -> bool {
    match (a, b) {
        (Change::Missing, Change::Missing) => true,
        (
            Change::FieldChanged { field, declared, actual },
            Change::FieldChanged { field: other_field, declared: other_declared, actual: other_actual },
        ) => {
            &&& field == other_field
            &&& same_json(declared, other_declared)
            &&& same_json(actual, other_actual)
        },
        (
            Change::SemanticChanged { field, relation, declared_effective, actual_effective, via },
            Change::SemanticChanged {
                field: other_field,
                relation: other_relation,
                declared_effective: other_declared,
                actual_effective: other_actual,
                via: other_via,
            },
        ) => {
            &&& field == other_field
            &&& relation == other_relation
            &&& same_json(declared_effective, other_declared)
            &&& same_json(actual_effective, other_actual)
            &&& via == other_via
        },
        _ => false,
    }
}

impl PartialEq for DriftKind {
    fn eq(&self, other: &Self) -> (r: bool) {
        match (self, other) {
            (DriftKind::Missing, DriftKind::Missing) => true,
            (
                DriftKind::FieldChanged { field, declared, actual },
                DriftKind::FieldChanged {
                    field: other_field,
                    declared: other_declared,
                    actual: other_actual,
                },
            ) => same(field.as_str(), other_field.as_str()) && equal_values(
                declared,
                other_declared,
            ) && equal_values(actual, other_actual),
            (
                DriftKind::SemanticChanged {
                    field,
                    relation,
                    declared_effective,
                    actual_effective,
                    via,
                },
                DriftKind::SemanticChanged {
                    field: other_field,
                    relation: other_relation,
                    declared_effective: other_declared,
                    actual_effective: other_actual,
                    via: other_via,
                },
            ) => same(field.as_str(), other_field.as_str()) && same(
                relation.as_str(),
                other_relation.as_str(),
            ) && equal_values(declared_effective, other_declared) && equal_values(
                actual_effective,
                other_actual,
            ) && same_texts(via, other_via),
            _ => false,
        }
    }
}

impl vstd::std_specs::cmp::PartialEqSpecImpl for DriftKind {
    open spec fn obeys_eq_spec() -> bool {
        true
    }

    open spec fn eq_spec(&self, other: &Self) -> bool {
        same_change(self@, other@)
    }
}

impl Eq for DriftKind {

}

impl Clone for DriftKind {
    fn clone(&self) -> (r: Self)
        ensures
            r@ == self@,
    {
        match self {
            DriftKind::Missing => DriftKind::Missing,
            DriftKind::FieldChanged { field, declared, actual } => DriftKind::FieldChanged {
                field: field.clone(),
                declared: declared.clone(),
                actual: actual.clone(),
            },
            DriftKind::SemanticChanged {
                field,
                relation,
                declared_effective,
                actual_effective,
                via,
            } => DriftKind::SemanticChanged {
                field: field.clone(),
                relation: relation.clone(),
                declared_effective: declared_effective.clone(),
                actual_effective: actual_effective.clone(),
                via: copied_texts(via),
            },
        }
    }
}

/// A single detected drift against one resource.
#[derive(Debug)]
pub struct Drift {
    pub resource: ResourceId,
    pub kind: DriftKind,
    pub severity: Severity,
}

/// What a [`Drift`] denotes.
pub struct Finding {
    pub resource: Seq<char>,
    pub change: Change,
    pub severity: Severity,
}

impl View for Drift {
    type V = Finding;

    open spec fn view(&self) -> Finding {
        Finding { resource: self.resource@, change: self.kind@, severity: self.severity }
    }
}

impl Clone for Drift {
    fn clone(&self) -> (r: Self)
        ensures
            r@ == self@,
    {
        Drift {
            resource: self.resource.clone(),
            kind: self.kind.clone(),
            severity: self.severity,
        }
    }
}

/// A declared resource that could not be checked at all.
///
/// Not drift and not proof of health: the resource had no usable cloud ID to join on (partial
/// apply, odd import). Reported separately so "no drift" is never conflated with "couldn't check".
#[derive(Debug)]
pub struct Unjoinable {
    pub resource: ResourceId,
    pub reason: String,
}

/// What an [`Unjoinable`] denotes.
pub struct Unchecked {
    pub resource: Seq<char>,
    pub reason: Seq<char>,
}

impl View for Unjoinable {
    type V = Unchecked;

    open spec fn view(&self) -> Unchecked {
        Unchecked { resource: self.resource@, reason: self.reason@ }
    }
}

impl Clone for Unjoinable {
    fn clone(&self) -> (r: Self)
        ensures
            r@ == self@,
    {
        Unjoinable { resource: self.resource.clone(), reason: self.reason.clone() }
    }
}

/// A relation that could not be evaluated.
///
/// The same principle as [`Unjoinable`], one level up: "couldn't resolve" is neither drift nor
/// health, and folding it into either would make "no semantic drift" mean two different things.
#[derive(Debug)]
pub struct Unresolved {
    /// The affected resource, or `None` when the whole relation is unresolvable.
    ///
    /// A failed authority check is a property of the state file rather than of any one resource,
    /// so reporting it per resource would print one line per subject where one line is the truth.
    pub resource: Option<ResourceId>,
    pub relation: String,
    pub reason: String,
}

/// What an [`Unresolved`] denotes.
pub struct Unanswered {
    pub resource: Option<Seq<char>>,
    pub relation: Seq<char>,
    pub reason: Seq<char>,
}

impl View for Unresolved {
    type V = Unanswered;

    open spec fn view(&self) -> Unanswered {
        Unanswered {
            resource: match self.resource {
                Some(id) => Some(id@),
                None => None,
            },
            relation: self.relation@,
            reason: self.reason@,
        }
    }
}

impl Clone for Unresolved {
    fn clone(&self) -> (r: Self)
        ensures
            r@ == self@,
    {
        Unresolved {
            resource: match &self.resource {
                Some(id) => Some(id.clone()),
                None => None,
            },
            relation: self.relation.clone(),
            reason: self.reason.clone(),
        }
    }
}

/// The full result of a single run.
#[derive(Debug)]
pub struct DriftReport {
    pub drifts: Vec<Drift>,
    pub unjoinable: Vec<Unjoinable>,
    pub unresolved: Vec<Unresolved>,
}

/// What a [`DriftReport`] denotes.
#[verifier::ext_equal]
pub struct Report {
    pub drifts: Seq<Finding>,
    pub unjoinable: Seq<Unchecked>,
    pub unresolved: Seq<Unanswered>,
}

impl View for DriftReport {
    type V = Report;

    open spec fn view(&self) -> Report {
        Report {
            drifts: self.drifts@.map_values(|d: Drift| d@),
            unjoinable: self.unjoinable@.map_values(|u: Unjoinable| u@),
            unresolved: self.unresolved@.map_values(|u: Unresolved| u@),
        }
    }
}

impl Report {
    /// The report of a run that found nothing.
    pub open spec fn empty() -> Report {
        Report { drifts: Seq::empty(), unjoinable: Seq::empty(), unresolved: Seq::empty() }
    }
}

impl Default for DriftReport {
    fn default() -> (r: Self)
        ensures
            r@ == Report::empty(),
    {
        DriftReport { drifts: Vec::new(), unjoinable: Vec::new(), unresolved: Vec::new() }
    }
}

impl Clone for DriftReport {
    fn clone(&self) -> (r: Self)
        ensures
            r@ == self@,
    {
        let mut r = DriftReport {
            drifts: Vec::new(),
            unjoinable: Vec::new(),
            unresolved: Vec::new(),
        };
        let mut i: usize = 0;
        while i < self.drifts.len()
            invariant
                i <= self.drifts.len(),
                r.drifts.len() == i,
                forall|n: int| 0 <= n < i ==> (#[trigger] r.drifts[n])@ == self.drifts[n]@,
                r@.unjoinable.len() == 0,
                r@.unresolved.len() == 0,
            decreases self.drifts.len() - i,
        {
            r.drifts.push(self.drifts[i].clone());
            i += 1;
        }
        let mut j: usize = 0;
        while j < self.unjoinable.len()
            invariant
                j <= self.unjoinable.len(),
                r@.drifts =~= self@.drifts,
                r.unjoinable.len() == j,
                forall|n: int| 0 <= n < j ==> (#[trigger] r.unjoinable[n])@ == self.unjoinable[n]@,
                r@.unresolved.len() == 0,
            decreases self.unjoinable.len() - j,
        {
            r.unjoinable.push(self.unjoinable[j].clone());
            j += 1;
        }
        let mut k: usize = 0;
        while k < self.unresolved.len()
            invariant
                k <= self.unresolved.len(),
                r@.drifts =~= self@.drifts,
                r@.unjoinable =~= self@.unjoinable,
                r.unresolved.len() == k,
                forall|n: int| 0 <= n < k ==> (#[trigger] r.unresolved[n])@ == self.unresolved[n]@,
            decreases self.unresolved.len() - k,
        {
            r.unresolved.push(self.unresolved[k].clone());
            k += 1;
        }
        r
    }
}

} // verus!
