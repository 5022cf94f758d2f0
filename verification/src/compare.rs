//! What changed between two versions of one field.

use crate::change::{FieldChangeType, FieldUpdate, FieldUpdateView};
use crate::column_name::ColumnName;
use crate::error::{SchemaDiffError, SchemaDiffErrorView};
use crate::metadata::{entries_map, Metadata, MetadataValue, MetadataValueView};
use crate::schema::{ColumnMetadataKey, DataType, DataTypeView, StructField, StructFieldView};
use crate::strings::starts_with;
use vstd::prelude::*;

verus! {

/// A field with its path and its id.
#[derive(Debug)]
pub struct FieldWithPath {
    pub field: StructField,
    pub path: ColumnName,
    pub field_id: i64,
}

/// What a `FieldWithPath` holds.
pub struct FieldWithPathView {
    pub field: StructFieldView,
    pub path: Seq<Seq<char>>,
    pub field_id: i64,
}

impl View for FieldWithPath {
    type V = FieldWithPathView;

    open spec fn view(&self) -> FieldWithPathView {
        FieldWithPathView { field: self.field@, path: self.path@, field_id: self.field_id }
    }
}

impl Clone for FieldWithPath {
    fn clone(&self) -> (r: Self)
        ensures
            r@ == self@,
    {
        FieldWithPath {
            field: self.field.clone(),
            path: self.path.clone(),
            field_id: self.field_id,
        }
    }
}

/// The id that column mapping gave a field.
pub open spec fn field_id(field: StructFieldView) -> Option<i64> {
    let key = ColumnMetadataKey::ColumnMappingId.text();
    if field.metadata.contains_key(key) {
        match field.metadata[key] {
            MetadataValueView::Number(id) => Some(id),
            _ => None,
        }
    } else {
        None
    }
}

/// The id of a field. The path is for the error that reports its absence.
pub fn get_field_id_for_path(field: &StructField, path: &ColumnName) -> (r: Result<
    i64,
    SchemaDiffError,
>)
    ensures
        match r {
            Ok(id) => field_id(field@) == Some(id),
            Err(e) => field_id(field@) is None && e@ == (SchemaDiffErrorView::MissingFieldId {
                path: path@,
            }),
        },
{
    match field.get_config_value(&ColumnMetadataKey::ColumnMappingId) {
        Some(MetadataValue::Number(id)) => Ok(*id),
        _ => Err(SchemaDiffError::MissingFieldId { path: path.clone() }),
    }
}

/// The name that a field has in the data files.
pub open spec fn physical_name_of(field: StructFieldView) -> Option<Seq<char>> {
    let key = ColumnMetadataKey::ColumnMappingPhysicalName.text();
    if field.metadata.contains_key(key) {
        match field.metadata[key] {
            MetadataValueView::String(name) => Some(name),
            _ => None,
        }
    } else {
        None
    }
}

/// The physical name of a field, if present.
pub fn physical_name(field: &StructField) -> (r: Option<&str>)
    ensures
        match r {
            Some(name) => physical_name_of(field@) == Some(name@),
            None => physical_name_of(field@) is None,
        },
{
    match field.get_config_value(&ColumnMetadataKey::ColumnMappingPhysicalName) {
        Some(MetadataValue::String(s)) => Some(s.as_str()),
        _ => None,
    }
}

/// What is wrong with the physical names of two versions of a field: both must have one, and it
/// must be the same.
pub open spec fn physical_name_error(
    before: FieldWithPathView,
    after: FieldWithPathView,
) -> Option<SchemaDiffErrorView> {
    match (physical_name_of(before.field), physical_name_of(after.field)) {
        (Some(b), Some(a)) => if b == a {
            None
        } else {
            Some(
                SchemaDiffErrorView::PhysicalNameChanged {
                    field_id: before.field_id,
                    path: after.path,
                    before: b,
                    after: a,
                },
            )
        },
        _ => Some(SchemaDiffErrorView::MissingPhysicalName { path: after.path }),
    }
}

/// Validates that physical names are consistent between two versions of the same field.
///
/// Fields are matched by the ids of column mapping, so physical names must be present, and must not
/// change for the same field id.
pub fn validate_physical_name(before: &FieldWithPath, after: &FieldWithPath) -> (r: Result<
    (),
    SchemaDiffError,
>)
    ensures
        match r {
            Ok(_) => physical_name_error(before@, after@) is None,
            Err(e) => physical_name_error(before@, after@) == Some(e@),
        },
{
    match (physical_name(&before.field), physical_name(&after.field)) {
        (Some(b), Some(a)) => {
            let b: String = b.to_string();
            let a: String = a.to_string();
            if b == a {
                Ok(())
            } else {
                Err(
                    SchemaDiffError::PhysicalNameChanged {
                        field_id: before.field_id,
                        path: after.path.clone(),
                        before: b,
                        after: a,
                    },
                )
            }
        },
        _ => Err(SchemaDiffError::MissingPhysicalName { path: after.path.clone() }),
    }
}

/// The change between two nullabilities of a field.
pub open spec fn field_nullability_change(before: bool, after: bool) -> Option<FieldChangeType> {
    if before == after {
        None
    } else if after {
        Some(FieldChangeType::NullabilityLoosened)
    } else {
        Some(FieldChangeType::NullabilityTightened)
    }
}

/// Checks for a change of a field's nullability: loosened (false -> true), tightened
/// (true -> false), or none.
pub fn check_field_nullability_change(before_nullable: bool, after_nullable: bool) -> (r: Option<
    FieldChangeType,
>)
    ensures
        r == field_nullability_change(before_nullable, after_nullable),
{
    match (before_nullable, after_nullable) {
        (false, true) => Some(FieldChangeType::NullabilityLoosened),
        (true, false) => Some(FieldChangeType::NullabilityTightened),
        (true, true) | (false, false) => None,
    }
}

/// The change between two nullabilities of a container's contents.
pub open spec fn container_nullability_change(before: bool, after: bool) -> Option<
    FieldChangeType,
> {
    if before == after {
        None
    } else if after {
        Some(FieldChangeType::ContainerNullabilityLoosened)
    } else {
        Some(FieldChangeType::ContainerNullabilityTightened)
    }
}

/// Checks for a change of the nullability of a container's contents: loosened (false -> true),
/// tightened (true -> false), or none.
pub fn check_container_nullability_change(
    before_nullable: bool,
    after_nullable: bool,
) -> (r: Option<FieldChangeType>)
    ensures
        r == container_nullability_change(before_nullable, after_nullable),
{
    match (before_nullable, after_nullable) {
        (false, true) => Some(FieldChangeType::ContainerNullabilityLoosened),
        (true, false) => Some(FieldChangeType::ContainerNullabilityTightened),
        (true, true) | (false, false) => None,
    }
}

/// The sequence of the one change, or of none.
pub open spec fn as_seq(change: Option<FieldChangeType>) -> Seq<FieldChangeType> {
    match change {
        Some(c) => seq![c],
        None => seq![],
    }
}

/// The types are equal, the contents of structs set aside.
pub open spec fn same_outside_structs(a: DataTypeView, b: DataTypeView) -> bool
    decreases a,
{
    match (a, b) {
        (DataTypeView::Primitive(p), DataTypeView::Primitive(q)) => p == q,
        (DataTypeView::Struct(_), DataTypeView::Struct(_)) => true,
        (
            DataTypeView::Array { element: e1, contains_null: n1 },
            DataTypeView::Array { element: e2, contains_null: n2 },
        ) => n1 == n2 && same_outside_structs(*e1, *e2),
        (
            DataTypeView::MapOf { key: k1, value: v1, value_contains_null: n1 },
            DataTypeView::MapOf { key: k2, value: v2, value_contains_null: n2 },
        ) => n1 == n2 && same_outside_structs(*k1, *k2) && same_outside_structs(*v1, *v2),
        _ => false,
    }
}

/// Whether two types are equal, the contents of structs set aside.
fn check_same_outside_structs(a: &DataType, b: &DataType) -> (r: bool)
    ensures
        r == same_outside_structs(a@, b@),
    decreases a,
{
    match (a, b) {
        (DataType::Primitive(p), DataType::Primitive(q)) => *p == *q,
        (DataType::Struct(_), DataType::Struct(_)) => true,
        (DataType::Array(s), DataType::Array(t)) => s.contains_null == t.contains_null
            && check_same_outside_structs(&s.element_type, &t.element_type),
        (DataType::MapOf(s), DataType::MapOf(t)) => s.value_contains_null == t.value_contains_null
            && check_same_outside_structs(&s.key_type, &t.key_type) && check_same_outside_structs(
            &s.value_type,
            &t.value_type,
        ),
        _ => false,
    }
}

/// The changes between two data types.
///
/// The fields of structs have ids of their own, so nothing inside a struct is a change of the type
/// that holds it.
pub open spec fn data_type_changes(before: DataTypeView, after: DataTypeView) -> Seq<
    FieldChangeType,
>
    decreases before,
{
    match (before, after) {
        (DataTypeView::Struct(_), DataTypeView::Struct(_)) => seq![],
        (
            DataTypeView::Array { element: e1, contains_null: n1 },
            DataTypeView::Array { element: e2, contains_null: n2 },
        ) => (if same_outside_structs(*e1, *e2) {
            seq![]
        } else {
            seq![FieldChangeType::TypeChanged]
        }) + as_seq(container_nullability_change(n1, n2)),
        (
            DataTypeView::MapOf { key: k1, value: v1, value_contains_null: n1 },
            DataTypeView::MapOf { key: k2, value: v2, value_contains_null: n2 },
        ) => data_type_changes(*k1, *k2) + data_type_changes(*v1, *v2) + as_seq(
            container_nullability_change(n1, n2),
        ),
        _ => if before == after {
            seq![]
        } else {
            seq![FieldChangeType::TypeChanged]
        },
    }
}

/// A type has not changed from itself.
pub(crate) proof fn lemma_same_data_type(t: DataTypeView)
    ensures
        data_type_changes(t, t) == Seq::<FieldChangeType>::empty(),
        same_outside_structs(t, t),
    decreases t,
{
    match t {
        DataTypeView::Array { element, .. } => {
            lemma_same_data_type(*element);
        },
        DataTypeView::MapOf { key, value, .. } => {
            lemma_same_data_type(*key);
            lemma_same_data_type(*value);
        },
        _ => {},
    }
}

/// Classifies a type change between two data types.
///
/// - Struct to struct: changes to nested fields are captured via field ids, so there is none here.
/// - Array to array: a type change, unless the element types match with the contents of structs set
///   aside, then the change of the elements' nullability.
/// - Map to map: the changes of the key type, of the value type, then that of the values'
///   nullability.
/// - Anything else is a type change, unless the types are identical.
pub fn classify_data_type_change(before: &DataType, after: &DataType) -> (r: Vec<FieldChangeType>)
    ensures
        r@ == data_type_changes(before@, after@),
    decreases before,
{
    // Identical types have no change to report
    if *before == *after {
        proof {
            lemma_same_data_type(before@);
        }
        return Vec::new();
    }
    match (before, after) {
        (DataType::Struct(_), DataType::Struct(_)) => Vec::new(),
        (DataType::Array(before_array), DataType::Array(after_array)) => {
            let mut changes: Vec<FieldChangeType> = Vec::new();
            // Nested changes in struct elements are captured via field ids
            if !check_same_outside_structs(before_array.element_type(), after_array.element_type()) {
                changes.push(FieldChangeType::TypeChanged);
            }
            if let Some(change) = check_container_nullability_change(
                before_array.contains_null(),
                after_array.contains_null(),
            ) {
                changes.push(change);
            }
            assert(changes@ =~= data_type_changes(before@, after@));
            changes
        },
        (DataType::MapOf(before_map), DataType::MapOf(after_map)) => {
            let mut changes: Vec<FieldChangeType> = classify_data_type_change(
                &before_map.key_type,
                &after_map.key_type,
            );
            let mut value_changes: Vec<FieldChangeType> = classify_data_type_change(
                &before_map.value_type,
                &after_map.value_type,
            );
            changes.append(&mut value_changes);
            if let Some(change) = check_container_nullability_change(
                before_map.value_contains_null(),
                after_map.value_contains_null(),
            ) {
                changes.push(change);
            }
            assert(changes@ =~= data_type_changes(before@, after@));
            changes
        },
        _ => {
            let mut changes: Vec<FieldChangeType> = Vec::new();
            changes.push(FieldChangeType::TypeChanged);
            assert(changes@ =~= seq![FieldChangeType::TypeChanged]);
            changes
        },
    }
}

/// The key belongs to column mapping or to the Parquet files.
pub open spec fn is_reserved_key(key: Seq<char>) -> bool {
    "delta.columnMapping"@.is_prefix_of(key) || "parquet.field"@.is_prefix_of(key)
}

/// Metadata without its reserved keys.
pub open spec fn unreserved(metadata: Map<Seq<char>, MetadataValueView>) -> Map<
    Seq<char>,
    MetadataValueView,
> {
    Map::new(
        |key: Seq<char>| metadata.contains_key(key) && !is_reserved_key(key),
        |key: Seq<char>| metadata[key],
    )
}

/// The metadata without its reserved keys.
fn unreserved_metadata(metadata: &Metadata) -> (r: Metadata)
    ensures
        r@ == unreserved(metadata@),
{
    let entries: &[(String, MetadataValue)] = metadata.entries();
    let mut r: Metadata = Metadata::new();
    let n: usize = entries.len();
    assert(entries@.take(0) =~= Seq::empty());
    assert(r@ =~= unreserved(entries_map(entries@.take(0))));
    for i in 0..n
        invariant
            n == entries@.len(),
            r@ == unreserved(entries_map(entries@.take(i as int))),
    {
        let ghost done = entries@.take(i as int);
        let ghost next = entries@.take(i + 1);
        assert(next.drop_last() =~= done);
        assert(next.last() == entries@[i as int]);
        let key: &String = &entries[i].0;
        if !starts_with(key, "delta.columnMapping") && !starts_with(key, "parquet.field") {
            r = r.insert(key.clone(), entries[i].1.clone());
        }
        assert(r@ =~= unreserved(entries_map(next)));
    }
    assert(entries@.take(n as int) =~= entries@);
    r
}

/// Checks if two fields have different metadata, the reserved keys aside.
pub fn has_metadata_changes(before: &StructField, after: &StructField) -> (r: bool)
    ensures
        r == (unreserved(before@.metadata) != unreserved(after@.metadata)),
{
    let before_filtered: Metadata = unreserved_metadata(&before.metadata);
    let after_filtered: Metadata = unreserved_metadata(&after.metadata);
    before_filtered != after_filtered
}

/// All the changes between two versions of a field.
pub open spec fn field_changes(before: StructFieldView, after: StructFieldView) -> Seq<
    FieldChangeType,
> {
    (if before.name != after.name {
        seq![FieldChangeType::Renamed]
    } else {
        seq![]
    }) + as_seq(field_nullability_change(before.nullable, after.nullable)) + data_type_changes(
        before.data_type,
        after.data_type,
    ) + (if unreserved(before.metadata) != unreserved(after.metadata) {
        seq![FieldChangeType::MetadataChanged]
    } else {
        seq![]
    })
}

/// The update that two versions of a field amount to, if they differ.
pub open spec fn field_update(before: FieldWithPathView, after: FieldWithPathView) -> Option<
    FieldUpdateView,
> {
    let changes = field_changes(before.field, after.field);
    if changes.len() == 0 {
        None
    } else {
        Some(
            FieldUpdateView {
                before: before.field,
                after: after.field,
                path: after.path,
                change_types: changes,
            },
        )
    }
}

/// The update for two fields with the same id, if they differ.
pub fn compute_field_update(before: &FieldWithPath, after: &FieldWithPath) -> (r: Result<
    Option<FieldUpdate>,
    SchemaDiffError,
>)
    ensures
        match r {
            Ok(update) => physical_name_error(before@, after@) is None && match update {
                Some(u) => field_update(before@, after@) == Some(u@),
                None => field_update(before@, after@) is None,
            },
            Err(e) => physical_name_error(before@, after@) == Some(e@),
        },
{
    let mut changes: Vec<FieldChangeType> = Vec::new();
    // Check for name change (rename)
    if *before.field.name() != *after.field.name() {
        changes.push(FieldChangeType::Renamed);
    }
    // Check for nullability change: tightening or loosening
    if let Some(change) = check_field_nullability_change(
        before.field.nullable,
        after.field.nullable,
    ) {
        changes.push(change);
    }
    // Validate physical name consistency
    match validate_physical_name(before, after) {
        Ok(_) => {},
        Err(e) => {
            return Err(e);
        },
    }
    // Check for type change (including container changes)
    let mut type_changes: Vec<FieldChangeType> = classify_data_type_change(
        before.field.data_type(),
        after.field.data_type(),
    );
    changes.append(&mut type_changes);
    // Check for metadata changes (excluding column mapping metadata)
    if has_metadata_changes(&before.field, &after.field) {
        changes.push(FieldChangeType::MetadataChanged);
    }
    assert(changes@ =~= field_changes(before.field@, after.field@));
    if changes.is_empty() {
        return Ok(None);
    }
    Ok(
        Some(
            FieldUpdate {
                before: before.field.clone(),
                after: after.field.clone(),
                // The new path, in case of renames
                path: after.path.clone(),
                change_types: changes,
            },
        ),
    )
}

} // verus!
