//! What values stand for.

use crate::ancestors::paths_view;
use crate::change::{changes_view, updates_view, FieldChange, FieldUpdate, SchemaDiff};
use crate::column_name::ColumnName;
use crate::compare::FieldWithPath;
use crate::diff::with_paths_view;
use crate::error::{SchemaDiffError, SchemaDiffErrorView};
use crate::metadata::{distinct_keys, entries_map, Metadata, MetadataValue, MetadataValueView};
use crate::schema::{with_entries, DataType, StructField, StructType};
use crate::strings::strings_view;
use vstd::prelude::*;
use vstd::std_specs::cmp::PartialEqSpec;

verus! {

/// A data type stands for its kind with all its parts: two primitive types that differ stand for
/// different ones, and so do containers that differ in their nullability or in a part.
pub proof fn law_data_type_stands_for_its_parts(t: DataType)
    ensures
        match t {
            DataType::Primitive(p) => t@ is Primitive && t@->Primitive_0 == p,
            DataType::Array(a) => t@ is Array && *t@->element == a.element_type@
                && t@->contains_null == a.contains_null,
            DataType::Struct(s) => t@ is Struct && t@->Struct_0 == s@,
            DataType::MapOf(m) => t@ is MapOf && *t@->key == m.key_type@ && *t@->value
                == m.value_type@ && t@->value_contains_null == m.value_contains_null,
        },
{
}

/// A field stands for its name, its type, its nullability and its metadata, and a struct for its
/// fields in order.
pub proof fn law_field_stands_for_its_parts(f: StructField, s: StructType)
    ensures
        f@.name == f.name@,
        f@.data_type == f.data_type@,
        f@.nullable == f.nullable,
        f@.metadata == f.metadata@,
        s@.len() == s.fields@.len(),
        forall|i: int| 0 <= i < s@.len() ==> #[trigger] s@[i] == s.fields@[i]@,
{
}

/// A metadata value stands for what it holds, and for its kind.
pub proof fn law_metadata_value_stands_for_what_it_holds(v: MetadataValue)
    ensures
        match v {
            MetadataValue::Number(n) => v@ is Number && v@->Number_0 == n,
            MetadataValue::String(s) => v@ is String && v@->String_0 == s@,
            MetadataValue::Boolean(b) => v@ is Boolean && v@->Boolean_0 == b,
            MetadataValue::Other(s) => v@ is Other && v@->Other_0 == s@,
        },
{
}

/// Entries stand for the map that has, for each key among them, the value of the last of its entries,
/// and no other keys.
pub proof fn law_entries_stand_for_a_map(
    entries: Seq<(String, MetadataValue)>,
    key: Seq<char>,
    i: int,
)
    ensures
        entries_map(entries).contains_key(key) <==> exists|j: int|
            0 <= j < entries.len() && (#[trigger] entries[j]).0@ == key,
        0 <= i < entries.len() && entries[i].0@ == key && (forall|j: int|
            i < j < entries.len() ==> (#[trigger] entries[j]).0@ != key) ==> entries_map(
            entries,
        )[key] == entries[i].1@,
    decreases entries.len(),
{
    if entries.len() > 0 {
        let rest = entries.drop_last();
        let n = entries.len() - 1;
        law_entries_stand_for_a_map(rest, key, i);
        if entries_map(entries).contains_key(key) {
            if entries[n].0@ != key {
                let j = choose|j: int| 0 <= j < rest.len() && (#[trigger] rest[j]).0@ == key;
                assert(entries[j].0@ == key);
            }
        }
        if exists|j: int| 0 <= j < entries.len() && (#[trigger] entries[j]).0@ == key {
            let j = choose|j: int| 0 <= j < entries.len() && (#[trigger] entries[j]).0@ == key;
            if j < n {
                assert(rest[j].0@ == key);
            }
        }
        if 0 <= i < n && entries[i].0@ == key && (forall|j: int|
            i < j < entries.len() ==> (#[trigger] entries[j]).0@ != key) {
            assert(entries[n].0@ != key);
            assert forall|j: int| i < j < rest.len() implies (#[trigger] rest[j]).0@ != key by {
                assert(entries[j].0@ != key);
            }
        }
    }
}

/// Keys are distinct exactly where no two entries have the same key.
pub proof fn law_distinct_keys(entries: Seq<(String, MetadataValue)>)
    ensures
        distinct_keys(entries) <==> forall|i: int, j: int|
            0 <= i < entries.len() && 0 <= j < entries.len() && (#[trigger] entries[i]).0@ == (
            #[trigger] entries[j]).0@ ==> i == j,
{
    if distinct_keys(entries) {
        assert forall|i: int, j: int|
            0 <= i < entries.len() && 0 <= j < entries.len() && (#[trigger] entries[i]).0@ == (
            #[trigger] entries[j]).0@ implies i == j by {
            if i < j {
                assert(entries[i].0@ != entries[j].0@);
            } else if j < i {
                assert(entries[j].0@ != entries[i].0@);
            }
        }
    }
}

/// A map with entries added has, for each key among them, the value of the last of its entries, and
/// is otherwise as it was.
pub proof fn law_added_entries(
    map: Map<Seq<char>, MetadataValueView>,
    entries: Seq<(&str, MetadataValue)>,
    key: Seq<char>,
    i: int,
)
    ensures
        with_entries(map, entries).contains_key(key) <==> map.contains_key(key) || exists|j: int|
            0 <= j < entries.len() && (#[trigger] entries[j]).0@ == key,
        0 <= i < entries.len() && entries[i].0@ == key && (forall|j: int|
            i < j < entries.len() ==> (#[trigger] entries[j]).0@ != key) ==> with_entries(
            map,
            entries,
        )[key] == entries[i].1@,
        map.contains_key(key) && (forall|j: int|
            0 <= j < entries.len() ==> (#[trigger] entries[j]).0@ != key) ==> with_entries(
            map,
            entries,
        )[key] == map[key],
    decreases entries.len(),
{
    if entries.len() > 0 {
        let rest = entries.drop_last();
        let n = entries.len() - 1;
        law_added_entries(map, rest, key, i);
        if exists|j: int| 0 <= j < rest.len() && (#[trigger] rest[j]).0@ == key {
            let j = choose|j: int| 0 <= j < rest.len() && (#[trigger] rest[j]).0@ == key;
            assert(entries[j].0@ == key);
        }
        if exists|j: int| 0 <= j < entries.len() && (#[trigger] entries[j]).0@ == key {
            let j = choose|j: int| 0 <= j < entries.len() && (#[trigger] entries[j]).0@ == key;
            if j < n {
                assert(rest[j].0@ == key);
            }
        }
        assert(entries[n] == entries.last());
        if 0 <= i < n && (forall|j: int|
            i < j < entries.len() ==> (#[trigger] entries[j]).0@ != key) {
            assert forall|j: int| i < j < rest.len() implies (#[trigger] rest[j]).0@ != key by {
                assert(entries[j].0@ != key);
            }
        }
        if forall|j: int| 0 <= j < entries.len() ==> (#[trigger] entries[j]).0@ != key {
            assert forall|j: int| 0 <= j < rest.len() implies (#[trigger] rest[j]).0@ != key by {
                assert(entries[j].0@ != key);
            }
        }
    }
}

/// A report stands for its field or fields, its path and its changes.
pub proof fn law_reports_stand_for_their_parts(
    c: FieldChange,
    u: FieldUpdate,
    f: FieldWithPath,
)
    ensures
        c@.field == c.field@,
        c@.path == c.path@,
        u@.before == u.before@,
        u@.after == u.after@,
        u@.path == u.path@,
        u@.change_types == u.change_types@,
        f@.field == f.field@,
        f@.path == f.path@,
        f@.field_id == f.field_id,
{
}

/// Lists stand for their elements, in order.
pub proof fn law_lists_stand_for_their_elements(
    changes: Seq<FieldChange>,
    updates: Seq<FieldUpdate>,
    fields: Seq<FieldWithPath>,
    paths: Seq<ColumnName>,
    strings: Seq<String>,
)
    ensures
        changes_view(changes).len() == changes.len(),
        forall|i: int| 0 <= i < changes.len() ==> #[trigger] changes_view(changes)[i] == changes[i]@,
        updates_view(updates).len() == updates.len(),
        forall|i: int| 0 <= i < updates.len() ==> #[trigger] updates_view(updates)[i] == updates[i]@,
        with_paths_view(fields).len() == fields.len(),
        forall|i: int| 0 <= i < fields.len() ==> #[trigger] with_paths_view(fields)[i] == fields[i]@,
        paths_view(paths).len() == paths.len(),
        forall|i: int| 0 <= i < paths.len() ==> #[trigger] paths_view(paths)[i] == paths[i]@,
        strings_view(strings).len() == strings.len(),
        forall|i: int| 0 <= i < strings.len() ==> #[trigger] strings_view(strings)[i] == strings[i]@,
{
}

/// A diff stands for what it lists as added, removed and updated.
pub proof fn law_diff_stands_for_its_lists(d: SchemaDiff)
    ensures
        d@.added_fields == d.added_fields@.map_values(|c: FieldChange| c@),
        d@.removed_fields == d.removed_fields@.map_values(|c: FieldChange| c@),
        d@.updated_fields == d.updated_fields@.map_values(|u: FieldUpdate| u@),
        d@.has_breaking_changes == d.has_breaking_changes.is_set(),
{
    assert(d@.added_fields =~= d.added_fields@.map_values(|c: FieldChange| c@));
    assert(d@.removed_fields =~= d.removed_fields@.map_values(|c: FieldChange| c@));
    assert(d@.updated_fields =~= d.updated_fields@.map_values(|u: FieldUpdate| u@));
}

/// An error stands for its kind, its ids, its paths and its names.
pub proof fn law_error_stands_for_its_parts(e: SchemaDiffError)
    ensures
        match e {
            SchemaDiffError::MissingFieldId { path } => e@ == (
            SchemaDiffErrorView::MissingFieldId { path: path@ }),
            SchemaDiffError::DuplicateFieldId { id, path1, path2 } => e@ == (
            SchemaDiffErrorView::DuplicateFieldId { id, path1: path1@, path2: path2@ }),
            SchemaDiffError::MissingPhysicalName { path } => e@ == (
            SchemaDiffErrorView::MissingPhysicalName { path: path@ }),
            SchemaDiffError::PhysicalNameChanged { field_id, path, before, after } => e@ == (
            SchemaDiffErrorView::PhysicalNameChanged {
                field_id,
                path: path@,
                before: before@,
                after: after@,
            }),
        },
{
}

/// Values compare as equal exactly where they stand for the same.
pub proof fn law_equal_values_stand_for_the_same(
    t: (DataType, DataType),
    f: (StructField, StructField),
    s: (StructType, StructType),
    v: (MetadataValue, MetadataValue),
    m: (Metadata, Metadata),
    c: (ColumnName, ColumnName),
)
    ensures
        <DataType as PartialEqSpec>::obeys_eq_spec(),
        t.0.eq_spec(&t.1) <==> t.0@ == t.1@,
        <StructField as PartialEqSpec>::obeys_eq_spec(),
        f.0.eq_spec(&f.1) <==> f.0@ == f.1@,
        <StructType as PartialEqSpec>::obeys_eq_spec(),
        s.0.eq_spec(&s.1) <==> s.0@ == s.1@,
        <MetadataValue as PartialEqSpec>::obeys_eq_spec(),
        v.0.eq_spec(&v.1) <==> v.0@ == v.1@,
        <Metadata as PartialEqSpec>::obeys_eq_spec(),
        m.0.eq_spec(&m.1) <==> m.0@ == m.1@,
        <ColumnName as PartialEqSpec>::obeys_eq_spec(),
        c.0.eq_spec(&c.1) <==> c.0@ == c.1@,
{
}

} // verus!
