//! The changes that a diff reports.

use crate::column_name::ColumnName;
use crate::schema::{StructField, StructFieldView};
use crate::seqs::lemma_filter_step;
use vstd::prelude::*;

verus! {

/// The types of changes that can occur to a field.
#[derive(Debug, Clone, Copy, PartialEq, Eq, Structural)]
pub enum FieldChangeType {
    /// The logical name changed, the field id stayed the same
    Renamed,
    /// Nullability was loosened (non-nullable -> nullable): a safe change
    NullabilityLoosened,
    /// Nullability was tightened (nullable -> non-nullable): a breaking change
    NullabilityTightened,
    /// The data type changed
    TypeChanged,
    /// The metadata changed, other than that of column mapping
    MetadataChanged,
    /// The nullability of a container's contents was loosened: a safe change
    ContainerNullabilityLoosened,
    /// The nullability of a container's contents was tightened: a breaking change
    ContainerNullabilityTightened,
}

impl FieldChangeType {
    /// The change can invalidate existing data or its readers.
    pub open spec fn is_breaking(self) -> bool {
        ||| self is TypeChanged
        ||| self is NullabilityTightened
        ||| self is ContainerNullabilityTightened
        ||| self is MetadataChanged
    }
}

/// A field that was added or removed, at any nesting level.
#[derive(Debug, PartialEq)]
pub struct FieldChange {
    /// The field that was added or removed
    pub field: StructField,
    /// The path to this field
    pub path: ColumnName,
}

/// What a `FieldChange` reports.
pub struct FieldChangeView {
    pub field: StructFieldView,
    pub path: Seq<Seq<char>>,
}

impl View for FieldChange {
    type V = FieldChangeView;

    open spec fn view(&self) -> FieldChangeView {
        FieldChangeView { field: self.field@, path: self.path@ }
    }
}

impl Clone for FieldChange {
    fn clone(&self) -> (r: Self)
        ensures
            r@ == self@,
    {
        FieldChange { field: self.field.clone(), path: self.path.clone() }
    }
}

/// What a list of changes reports.
pub open spec fn changes_view(changes: Seq<FieldChange>) -> Seq<FieldChangeView> {
    changes.map_values(|c: FieldChange| c@)
}

/// An update to a field between two schema versions.
#[derive(Debug, PartialEq)]
pub struct FieldUpdate {
    /// The field as it existed in the original schema
    pub before: StructField,
    /// The field as it exists in the new schema
    pub after: StructField,
    /// The path to this field in the new schema
    pub path: ColumnName,
    /// The changes that occurred, of which there can be several
    pub change_types: Vec<FieldChangeType>,
}

/// What a `FieldUpdate` reports.
pub struct FieldUpdateView {
    pub before: StructFieldView,
    pub after: StructFieldView,
    pub path: Seq<Seq<char>>,
    pub change_types: Seq<FieldChangeType>,
}

impl View for FieldUpdate {
    type V = FieldUpdateView;

    open spec fn view(&self) -> FieldUpdateView {
        FieldUpdateView {
            before: self.before@,
            after: self.after@,
            path: self.path@,
            change_types: self.change_types@,
        }
    }
}

impl Clone for FieldUpdate {
    fn clone(&self) -> (r: Self)
        ensures
            r@ == self@,
    {
        let change_types: Vec<FieldChangeType> = self.change_types.clone();
        assert(change_types@ =~= self.change_types@);
        FieldUpdate {
            before: self.before.clone(),
            after: self.after.clone(),
            path: self.path.clone(),
            change_types,
        }
    }
}

/// What a list of updates reports.
pub open spec fn updates_view(updates: Seq<FieldUpdate>) -> Seq<FieldUpdateView> {
    updates.map_values(|u: FieldUpdate| u@)
}

/// Some field was removed, some added field is required, or some update is breaking.
///
/// Readers that refer to a removed field fail. A required field has no value in existing data.
pub open spec fn has_breaking(
    added: Seq<FieldChangeView>,
    removed: Seq<FieldChangeView>,
    updated: Seq<FieldUpdateView>,
) -> bool {
    ||| removed.len() > 0
    ||| exists|i: int| 0 <= i < added.len() && !(#[trigger] added[i]).field.nullable
    ||| exists|i: int| 0 <= i < updated.len() && any_breaking((#[trigger] updated[i]).change_types)
}

/// Some of the changes is breaking.
pub open spec fn any_breaking(changes: Seq<FieldChangeType>) -> bool {
    exists|i: int| 0 <= i < changes.len() && (#[trigger] changes[i]).is_breaking()
}

/// Whether a change type is breaking.
pub fn is_breaking_change_type(change_type: &FieldChangeType) -> (r: bool)
    ensures
        r == change_type.is_breaking(),
{
    matches!(
        change_type,
        FieldChangeType::TypeChanged | FieldChangeType::NullabilityTightened
            | FieldChangeType::ContainerNullabilityTightened | FieldChangeType::MetadataChanged
    )
}

/// Whether the changes of a diff contain breaking ones.
pub fn compute_has_breaking_changes(
    added_fields: &[FieldChange],
    removed_fields: &[FieldChange],
    updated_fields: &[FieldUpdate],
) -> (r: bool)
    ensures
        r == has_breaking(
            changes_view(added_fields@),
            changes_view(removed_fields@),
            updates_view(updated_fields@),
        ),
{
    if removed_fields.len() > 0 {
        return true;
    }
    let ghost added = changes_view(added_fields@);
    let ghost updated = updates_view(updated_fields@);
    let n: usize = added_fields.len();
    for i in 0..n
        invariant
            n == added_fields@.len(),
            added == changes_view(added_fields@),
            forall|j: int| 0 <= j < i ==> (#[trigger] added[j]).field.nullable,
    {
        if !added_fields[i].field.nullable {
            assert(!added[i as int].field.nullable);
            return true;
        }
    }
    let m: usize = updated_fields.len();
    for i in 0..m
        invariant
            m == updated_fields@.len(),
            updated == updates_view(updated_fields@),
            forall|j: int| 0 <= j < i ==> !any_breaking((#[trigger] updated[j]).change_types),
    {
        let change_types: &Vec<FieldChangeType> = &updated_fields[i].change_types;
        assert(updated[i as int].change_types == change_types@);
        let k: usize = change_types.len();
        for j in 0..k
            invariant
                i < m,
                m == updated.len(),
                updated == updates_view(updated_fields@),
                k == change_types@.len(),
                updated[i as int].change_types == change_types@,
                forall|l: int| 0 <= l < j ==> !(#[trigger] change_types@[l]).is_breaking(),
        {
            if is_breaking_change_type(&change_types[j]) {
                assert(any_breaking(updated[i as int].change_types));
                return true;
            }
        }
    }
    false
}

/// Whether a diff contains breaking changes. It is made where a diff is constructed and nowhere else.
#[derive(Debug, Clone, Copy, PartialEq, Eq, Structural)]
pub struct BreakingFlag {
    breaking: bool,
}

impl BreakingFlag {
    /// The diff contains breaking changes.
    pub closed spec fn is_set(self) -> bool {
        self.breaking
    }
}

/// The difference between two schemas.
#[derive(Debug, PartialEq)]
pub struct SchemaDiff {
    /// Fields that were added in the new schema
    pub added_fields: Vec<FieldChange>,
    /// Fields that were removed from the original schema
    pub removed_fields: Vec<FieldChange>,
    /// Fields that were modified between schemas
    pub updated_fields: Vec<FieldUpdate>,
    /// Whether the diff contains breaking changes, computed once during construction
    pub has_breaking_changes: BreakingFlag,
}

/// What a `SchemaDiff` reports.
pub struct SchemaDiffView {
    pub added_fields: Seq<FieldChangeView>,
    pub removed_fields: Seq<FieldChangeView>,
    pub updated_fields: Seq<FieldUpdateView>,
    pub has_breaking_changes: bool,
}

impl SchemaDiffView {
    /// Nothing was added, removed or updated.
    pub open spec fn is_empty(self) -> bool {
        &&& self.added_fields.len() == 0
        &&& self.removed_fields.len() == 0
        &&& self.updated_fields.len() == 0
    }

    /// The number of changes.
    pub open spec fn change_count(self) -> nat {
        self.added_fields.len() + self.removed_fields.len() + self.updated_fields.len()
    }
}

impl View for SchemaDiff {
    type V = SchemaDiffView;

    open spec fn view(&self) -> SchemaDiffView {
        SchemaDiffView {
            added_fields: changes_view(self.added_fields@),
            removed_fields: changes_view(self.removed_fields@),
            updated_fields: updates_view(self.updated_fields@),
            has_breaking_changes: self.has_breaking_changes.is_set(),
        }
    }
}

impl Clone for SchemaDiff {
    fn clone(&self) -> (r: Self)
        ensures
            r@ == self@,
    {
        let r = SchemaDiff {
            added_fields: self.added_fields.clone(),
            removed_fields: self.removed_fields.clone(),
            updated_fields: self.updated_fields.clone(),
            has_breaking_changes: self.has_breaking_changes,
        };
        assert(r@.added_fields =~= self@.added_fields);
        assert(r@.removed_fields =~= self@.removed_fields);
        assert(r@.updated_fields =~= self@.updated_fields);
        r
    }
}

/// The path of the change is that of a top-level field.
pub open spec fn is_top_level_change() -> spec_fn(FieldChange) -> bool {
    |c: FieldChange| c.path@.len() == 1
}

/// The path of the change is that of a nested field.
pub open spec fn is_nested_change() -> spec_fn(FieldChange) -> bool {
    |c: FieldChange| c.path@.len() > 1
}

/// The path of the update is that of a top-level field.
pub open spec fn is_top_level_update() -> spec_fn(FieldUpdate) -> bool {
    |u: FieldUpdate| u.path@.len() == 1
}

/// The path of the update is that of a nested field.
pub open spec fn is_nested_update() -> spec_fn(FieldUpdate) -> bool {
    |u: FieldUpdate| u.path@.len() > 1
}

impl SchemaDiff {
    /// The diff that reports these changes.
    pub(crate) fn new(
        added_fields: Vec<FieldChange>,
        removed_fields: Vec<FieldChange>,
        updated_fields: Vec<FieldUpdate>,
    ) -> (r: Self)
        ensures
            r.added_fields == added_fields,
            r.removed_fields == removed_fields,
            r.updated_fields == updated_fields,
            r@.has_breaking_changes == has_breaking(
                r@.added_fields,
                r@.removed_fields,
                r@.updated_fields,
            ),
    {
        let breaking: bool = compute_has_breaking_changes(
            added_fields.as_slice(),
            removed_fields.as_slice(),
            updated_fields.as_slice(),
        );
        SchemaDiff {
            added_fields,
            removed_fields,
            updated_fields,
            has_breaking_changes: BreakingFlag { breaking },
        }
    }

    /// Whether there are no differences between the schemas.
    pub fn is_empty(&self) -> (r: bool)
        ensures
            r == self@.is_empty(),
    {
        self.added_fields.is_empty() && self.removed_fields.is_empty()
            && self.updated_fields.is_empty()
    }

    /// The total number of changes.
    pub fn change_count(&self) -> (r: usize)
        requires
            self@.change_count() <= usize::MAX,
        ensures
            r == self@.change_count(),
    {
        self.added_fields.len() + self.removed_fields.len() + self.updated_fields.len()
    }

    /// Whether there are breaking changes: a field removed, a required field added, a type or
    /// metadata changed, or a nullability tightened.
    pub fn has_breaking_changes(&self) -> (r: bool)
        ensures
            r == self@.has_breaking_changes,
    {
        self.has_breaking_changes.breaking
    }

    /// All changes at the top level only (fields with path length of 1): those of added, of removed
    /// and of updated fields.
    pub fn top_level_changes(&self) -> (r: (Vec<&FieldChange>, Vec<&FieldChange>, Vec<&FieldUpdate>))
        ensures
            r.0@.unref() == self.added_fields@.filter(is_top_level_change()),
            r.1@.unref() == self.removed_fields@.filter(is_top_level_change()),
            r.2@.unref() == self.updated_fields@.filter(is_top_level_update()),
    {
        (
            changes_by_level(&self.added_fields, true),
            changes_by_level(&self.removed_fields, true),
            updates_by_level(&self.updated_fields, true),
        )
    }

    /// All changes at nested levels only (fields with path length > 1): those of added, of removed
    /// and of updated fields.
    pub fn nested_changes(&self) -> (r: (Vec<&FieldChange>, Vec<&FieldChange>, Vec<&FieldUpdate>))
        ensures
            r.0@.unref() == self.added_fields@.filter(is_nested_change()),
            r.1@.unref() == self.removed_fields@.filter(is_nested_change()),
            r.2@.unref() == self.updated_fields@.filter(is_nested_update()),
    {
        (
            changes_by_level(&self.added_fields, false),
            changes_by_level(&self.removed_fields, false),
            updates_by_level(&self.updated_fields, false),
        )
    }
}

/// The changes on one side of the border between top level and nested levels.
fn changes_by_level(changes: &Vec<FieldChange>, top_level: bool) -> (r: Vec<&FieldChange>)
    ensures
        r@.unref() == changes@.filter(
            if top_level {
                is_top_level_change()
            } else {
                is_nested_change()
            },
        ),
{
    let ghost wanted = if top_level {
        is_top_level_change()
    } else {
        is_nested_change()
    };
    let mut r: Vec<&FieldChange> = Vec::new();
    let n: usize = changes.len();
    proof {
        reveal(Seq::filter);
        assert(r@.unref() =~= changes@.take(0).filter(wanted));
    }
    for i in 0..n
        invariant
            n == changes@.len(),
            wanted == (if top_level {
                is_top_level_change()
            } else {
                is_nested_change()
            }),
            r@.unref() == changes@.take(i as int).filter(wanted),
    {
        let change: &FieldChange = &changes[i];
        let depth: usize = change.path.path().len();
        let ghost so_far = r@;
        proof {
            lemma_filter_step(changes@, wanted, i as int);
        }
        if (top_level && depth == 1) || (!top_level && depth > 1) {
            r.push(change);
            assert(r@.unref() =~= so_far.unref().push(*change));
        }
    }
    assert(changes@.take(n as int) =~= changes@);
    r
}

/// The updates on one side of the border between top level and nested levels.
fn updates_by_level(updates: &Vec<FieldUpdate>, top_level: bool) -> (r: Vec<&FieldUpdate>)
    ensures
        r@.unref() == updates@.filter(
            if top_level {
                is_top_level_update()
            } else {
                is_nested_update()
            },
        ),
{
    let ghost wanted = if top_level {
        is_top_level_update()
    } else {
        is_nested_update()
    };
    let mut r: Vec<&FieldUpdate> = Vec::new();
    let n: usize = updates.len();
    proof {
        reveal(Seq::filter);
        assert(r@.unref() =~= updates@.take(0).filter(wanted));
    }
    for i in 0..n
        invariant
            n == updates@.len(),
            wanted == (if top_level {
                is_top_level_update()
            } else {
                is_nested_update()
            }),
            r@.unref() == updates@.take(i as int).filter(wanted),
    {
        let update: &FieldUpdate = &updates[i];
        let depth: usize = update.path.path().len();
        let ghost so_far = r@;
        proof {
            lemma_filter_step(updates@, wanted, i as int);
        }
        if (top_level && depth == 1) || (!top_level && depth > 1) {
            r.push(update);
            assert(r@.unref() =~= so_far.unref().push(*update));
        }
    }
    assert(updates@.take(n as int) =~= updates@);
    r
}

} // verus!
