//! What is said of two versions of one field, and of a diff as a whole.

use crate::change::{any_breaking, has_breaking, FieldChangeType, FieldChangeView, FieldUpdateView};
use crate::compare::{
    container_nullability_change, data_type_changes, field_changes, field_id,
    field_nullability_change, field_update, physical_name_error, physical_name_of,
    same_outside_structs, unreserved, FieldWithPathView,
};
use crate::error::SchemaDiffErrorView;
use crate::metadata::MetadataValueView;
use crate::schema::{ColumnMetadataKey, DataTypeView, PrimitiveType, StructFieldView};
use vstd::prelude::*;

verus! {

/// The id of a field is the number that its metadata has under "delta.columnMapping.id". A field
/// without that key, or with anything but a number under it, has no id.
pub proof fn law_id_of_a_field(field: StructFieldView, id: i64)
    ensures
        field_id(field) == Some(id) <==> field.metadata.contains_key("delta.columnMapping.id"@)
            && field.metadata["delta.columnMapping.id"@] == MetadataValueView::Number(id),
        field_id(field) is None <==> !(field.metadata.contains_key("delta.columnMapping.id"@)
            && field.metadata["delta.columnMapping.id"@] is Number),
        ColumnMetadataKey::ColumnMappingId.text() == "delta.columnMapping.id"@,
{
}

/// The physical name of a field is the string that its metadata has under
/// "delta.columnMapping.physicalName". A field without that key, or with anything but a string under
/// it, has no physical name.
pub proof fn law_physical_name_of_a_field(field: StructFieldView, name: Seq<char>)
    ensures
        physical_name_of(field) == Some(name) <==> field.metadata.contains_key(
            "delta.columnMapping.physicalName"@,
        ) && field.metadata["delta.columnMapping.physicalName"@] == MetadataValueView::String(name),
        physical_name_of(field) is None <==> !(field.metadata.contains_key(
            "delta.columnMapping.physicalName"@,
        ) && field.metadata["delta.columnMapping.physicalName"@] is String),
        ColumnMetadataKey::ColumnMappingPhysicalName.text() == "delta.columnMapping.physicalName"@,
{
}

/// Two versions of a field go together exactly where both have a physical name, and the same one.
/// Otherwise the error names the new path, and both names where there are two.
pub proof fn law_physical_names_go_together(before: FieldWithPathView, after: FieldWithPathView)
    ensures
        physical_name_error(before, after) is None <==> physical_name_of(before.field) is Some
            && physical_name_of(before.field) == physical_name_of(after.field),
        physical_name_of(before.field) is None || physical_name_of(after.field) is None
            ==> physical_name_error(before, after) == Some(
            SchemaDiffErrorView::MissingPhysicalName { path: after.path },
        ),
        physical_name_of(before.field) is Some && physical_name_of(after.field) is Some
            && physical_name_of(before.field) != physical_name_of(after.field)
            ==> physical_name_error(before, after) == Some(
            SchemaDiffErrorView::PhysicalNameChanged {
                field_id: before.field_id,
                path: after.path,
                before: physical_name_of(before.field)->0,
                after: physical_name_of(after.field)->0,
            },
        ),
{
}

/// What became nullable was loosened, what ceased to be was tightened, and otherwise nothing
/// happened.
pub proof fn law_nullability(before: bool, after: bool)
    ensures
        field_nullability_change(before, after) == Some(FieldChangeType::NullabilityLoosened)
            <==> !before && after,
        field_nullability_change(before, after) == Some(FieldChangeType::NullabilityTightened)
            <==> before && !after,
        field_nullability_change(before, after) is None <==> before == after,
        container_nullability_change(before, after) == Some(
            FieldChangeType::ContainerNullabilityLoosened,
        ) <==> !before && after,
        container_nullability_change(before, after) == Some(
            FieldChangeType::ContainerNullabilityTightened,
        ) <==> before && !after,
        container_nullability_change(before, after) is None <==> before == after,
{
}

/// Two primitive types are the same, with no change to report, or there is a type change and nothing
/// else.
pub proof fn law_primitive_types(p: PrimitiveType, q: PrimitiveType)
    ensures
        p == q ==> data_type_changes(DataTypeView::Primitive(p), DataTypeView::Primitive(q)).len()
            == 0,
        p != q ==> data_type_changes(DataTypeView::Primitive(p), DataTypeView::Primitive(q))
            == seq![FieldChangeType::TypeChanged],
        same_outside_structs(DataTypeView::Primitive(p), DataTypeView::Primitive(q)) <==> p == q,
{
}

/// Types of different kinds are a type change and nothing else.
pub proof fn law_kinds_of_types(a: DataTypeView, b: DataTypeView)
    requires
        a is Primitive != b is Primitive || a is Array != b is Array || a is Struct != b is Struct
            || a is MapOf != b is MapOf,
    ensures
        data_type_changes(a, b) == seq![FieldChangeType::TypeChanged],
        !same_outside_structs(a, b),
{
}

/// Two structs are the same type, whatever their fields.
pub proof fn law_structs_are_one_type(s: Seq<StructFieldView>, t: Seq<StructFieldView>)
    ensures
        data_type_changes(DataTypeView::Struct(s), DataTypeView::Struct(t)).len() == 0,
{
}

/// Arrays have a type change exactly where there is any change from one element type to the other,
/// and then, or alone, the change of the elements' nullability.
pub proof fn law_arrays(e: DataTypeView, f: DataTypeView, n: bool, m: bool)
    ensures
        ({
            let changes = data_type_changes(
                DataTypeView::Array { element: Box::new(e), contains_null: n },
                DataTypeView::Array { element: Box::new(f), contains_null: m },
            );
            let inner = if data_type_changes(e, f).len() > 0 {
                seq![FieldChangeType::TypeChanged]
            } else {
                seq![]
            };
            &&& n == m ==> changes == inner
            &&& !n && m ==> changes == inner.push(FieldChangeType::ContainerNullabilityLoosened)
            &&& n && !m ==> changes == inner.push(FieldChangeType::ContainerNullabilityTightened)
        }),
{
    lemma_no_changes(e, f);
    let changes = data_type_changes(
        DataTypeView::Array { element: Box::new(e), contains_null: n },
        DataTypeView::Array { element: Box::new(f), contains_null: m },
    );
    let inner = if data_type_changes(e, f).len() > 0 {
        seq![FieldChangeType::TypeChanged]
    } else {
        seq![]
    };
    if n == m {
        assert(changes =~= inner);
    } else if m {
        assert(changes =~= inner.push(FieldChangeType::ContainerNullabilityLoosened));
    } else {
        assert(changes =~= inner.push(FieldChangeType::ContainerNullabilityTightened));
    }
}

/// Maps have the changes from one key type to the other, then those from one value type to the
/// other, then the change of the values' nullability.
pub proof fn law_maps(
    k: DataTypeView,
    l: DataTypeView,
    v: DataTypeView,
    w: DataTypeView,
    n: bool,
    m: bool,
)
    ensures
        ({
            let changes = data_type_changes(
                DataTypeView::MapOf {
                    key: Box::new(k),
                    value: Box::new(v),
                    value_contains_null: n,
                },
                DataTypeView::MapOf {
                    key: Box::new(l),
                    value: Box::new(w),
                    value_contains_null: m,
                },
            );
            let inner = data_type_changes(k, l) + data_type_changes(v, w);
            &&& n == m ==> changes == inner
            &&& !n && m ==> changes == inner.push(FieldChangeType::ContainerNullabilityLoosened)
            &&& n && !m ==> changes == inner.push(FieldChangeType::ContainerNullabilityTightened)
        }),
{
    let changes = data_type_changes(
        DataTypeView::MapOf { key: Box::new(k), value: Box::new(v), value_contains_null: n },
        DataTypeView::MapOf { key: Box::new(l), value: Box::new(w), value_contains_null: m },
    );
    let inner = data_type_changes(k, l) + data_type_changes(v, w);
    if n == m {
        assert(changes =~= inner);
    } else if m {
        assert(changes =~= inner.push(FieldChangeType::ContainerNullabilityLoosened));
    } else {
        assert(changes =~= inner.push(FieldChangeType::ContainerNullabilityTightened));
    }
}

/// The type with every struct in it, however deep in arrays and maps, replaced by the struct without
/// fields.
pub open spec fn structs_emptied(t: DataTypeView) -> DataTypeView
    decreases t,
{
    match t {
        DataTypeView::Primitive(p) => DataTypeView::Primitive(p),
        DataTypeView::Struct(_) => DataTypeView::Struct(seq![]),
        DataTypeView::Array { element, contains_null } => DataTypeView::Array {
            element: Box::new(structs_emptied(*element)),
            contains_null,
        },
        DataTypeView::MapOf { key, value, value_contains_null } => DataTypeView::MapOf {
            key: Box::new(structs_emptied(*key)),
            value: Box::new(structs_emptied(*value)),
            value_contains_null,
        },
    }
}

/// There is no struct in the type.
pub open spec fn is_without_structs(t: DataTypeView) -> bool
    decreases t,
{
    match t {
        DataTypeView::Primitive(_) => true,
        DataTypeView::Struct(_) => false,
        DataTypeView::Array { element, .. } => is_without_structs(*element),
        DataTypeView::MapOf { key, value, .. } => is_without_structs(*key) && is_without_structs(
            *value,
        ),
    }
}

proof fn lemma_no_changes(a: DataTypeView, b: DataTypeView)
    ensures
        data_type_changes(a, b).len() == 0 <==> structs_emptied(a) == structs_emptied(b),
        same_outside_structs(a, b) <==> structs_emptied(a) == structs_emptied(b),
    decreases a,
{
    match (a, b) {
        (
            DataTypeView::Array { element: e1, contains_null: n1 },
            DataTypeView::Array { element: e2, contains_null: n2 },
        ) => {
            lemma_no_changes(*e1, *e2);
        },
        (
            DataTypeView::MapOf { key: k1, value: v1, value_contains_null: n1 },
            DataTypeView::MapOf { key: k2, value: v2, value_contains_null: n2 },
        ) => {
            lemma_no_changes(*k1, *k2);
            lemma_no_changes(*v1, *v2);
        },
        _ => {},
    }
}

proof fn lemma_without_structs(t: DataTypeView)
    requires
        is_without_structs(t),
    ensures
        structs_emptied(t) == t,
    decreases t,
{
    match t {
        DataTypeView::Array { element, .. } => {
            lemma_without_structs(*element);
        },
        DataTypeView::MapOf { key, value, .. } => {
            lemma_without_structs(*key);
            lemma_without_structs(*value);
        },
        _ => {},
    }
}

/// There is nothing to report of two types exactly where they are equal once the structs in them are
/// emptied. Types without structs that have no changes are equal.
pub proof fn law_no_type_changes(a: DataTypeView, b: DataTypeView)
    ensures
        data_type_changes(a, b).len() == 0 <==> structs_emptied(a) == structs_emptied(b),
        same_outside_structs(a, b) <==> structs_emptied(a) == structs_emptied(b),
        is_without_structs(a) && is_without_structs(b) ==> (data_type_changes(a, b).len() == 0
            <==> a == b),
{
    lemma_no_changes(a, b);
    if is_without_structs(a) && is_without_structs(b) {
        lemma_without_structs(a);
        lemma_without_structs(b);
    }
}

/// Between types there are type changes and changes of the nullability of containers, and no others.
pub proof fn law_kinds_of_type_changes(a: DataTypeView, b: DataTypeView, i: int)
    requires
        0 <= i < data_type_changes(a, b).len(),
    ensures
        ({
            let c = data_type_changes(a, b)[i];
            ||| c == FieldChangeType::TypeChanged
            ||| c == FieldChangeType::ContainerNullabilityLoosened
            ||| c == FieldChangeType::ContainerNullabilityTightened
        }),
    decreases a,
{
    match (a, b) {
        (
            DataTypeView::MapOf { key: k1, value: v1, value_contains_null: n1 },
            DataTypeView::MapOf { key: k2, value: v2, value_contains_null: n2 },
        ) => {
            let x = data_type_changes(*k1, *k2);
            let y = data_type_changes(*v1, *v2);
            if i < x.len() {
                law_kinds_of_type_changes(*k1, *k2, i);
            } else if i < x.len() + y.len() {
                law_kinds_of_type_changes(*v1, *v2, i - x.len());
            }
        },
        _ => {},
    }
}

/// The metadata of two fields differs, as far as it is compared, exactly where one has a key that
/// the other does not have, or they have different values for a key. Keys that start with
/// "delta.columnMapping" or with "parquet.field" do not count; all others do.
pub proof fn law_metadata_differs(
    before: Map<Seq<char>, MetadataValueView>,
    after: Map<Seq<char>, MetadataValueView>,
)
    ensures
        unreserved(before) != unreserved(after) <==> exists|key: Seq<char>|
            !"delta.columnMapping"@.is_prefix_of(key) && !"parquet.field"@.is_prefix_of(key) && (
            #[trigger] before.contains_key(key) != after.contains_key(key) || before.contains_key(
                key,
            ) && before[key] != after[key]),
{
    let b = unreserved(before);
    let a = unreserved(after);
    if exists|key: Seq<char>|
        !"delta.columnMapping"@.is_prefix_of(key) && !"parquet.field"@.is_prefix_of(key) && (
        #[trigger] before.contains_key(key) != after.contains_key(key) || before.contains_key(key)
            && before[key] != after[key]) {
        let key = choose|key: Seq<char>|
            !"delta.columnMapping"@.is_prefix_of(key) && !"parquet.field"@.is_prefix_of(key) && (
            #[trigger] before.contains_key(key) != after.contains_key(key) || before.contains_key(
                key,
            ) && before[key] != after[key]);
        assert(b.contains_key(key) == before.contains_key(key));
        assert(a.contains_key(key) == after.contains_key(key));
        if before.contains_key(key) {
            assert(b[key] == before[key]);
        }
        if after.contains_key(key) {
            assert(a[key] == after[key]);
        }
    } else {
        assert forall|key: Seq<char>| #[trigger] b.contains_key(key) <==> a.contains_key(key) by {
            assert(before.contains_key(key) == before.contains_key(key));
        }
        assert forall|key: Seq<char>| #[trigger] b.contains_key(key) implies b[key] == a[key] by {
            assert(before.contains_key(key));
        }
        assert(b =~= a);
    }
}

/// The changes between two versions of a field, whatever else is or is not changed: a rename where
/// the names differ, a change of nullability where it differs, all the changes between the data
/// types, and a change of metadata where a key that starts neither with "delta.columnMapping" nor
/// with "parquet.field" is in one of them only or has different values. There are no others.
pub proof fn law_changes_of_a_field(before: StructFieldView, after: StructFieldView)
    ensures
        ({
            let changes = field_changes(before, after);
            let types = data_type_changes(before.data_type, after.data_type);
            &&& changes.contains(FieldChangeType::Renamed) <==> before.name != after.name
            &&& changes.contains(FieldChangeType::NullabilityLoosened) <==> !before.nullable
                && after.nullable
            &&& changes.contains(FieldChangeType::NullabilityTightened) <==> before.nullable
                && !after.nullable
            &&& changes.contains(FieldChangeType::TypeChanged) <==> types.contains(
                FieldChangeType::TypeChanged,
            )
            &&& changes.contains(FieldChangeType::ContainerNullabilityLoosened) <==> types.contains(
                FieldChangeType::ContainerNullabilityLoosened,
            )
            &&& changes.contains(FieldChangeType::ContainerNullabilityTightened)
                <==> types.contains(FieldChangeType::ContainerNullabilityTightened)
            &&& changes.contains(FieldChangeType::MetadataChanged) <==> exists|key: Seq<char>|
                !"delta.columnMapping"@.is_prefix_of(key) && !"parquet.field"@.is_prefix_of(key)
                    && (#[trigger] before.metadata.contains_key(key)
                    != after.metadata.contains_key(key) || before.metadata.contains_key(key)
                    && before.metadata[key] != after.metadata[key])
        }),
{
    let changes = field_changes(before, after);
    let types = data_type_changes(before.data_type, after.data_type);
    law_metadata_differs(before.metadata, after.metadata);
    law_order_of_changes(before, after);
    let n = (if before.name != after.name {
        1int
    } else {
        0int
    }) + (if before.nullable != after.nullable {
        1int
    } else {
        0int
    });
    assert forall|i: int| 0 <= i < types.len() implies #[trigger] types[i] != FieldChangeType::Renamed
        && types[i] != FieldChangeType::NullabilityLoosened && types[i]
        != FieldChangeType::NullabilityTightened && types[i] != FieldChangeType::MetadataChanged by {
        law_kinds_of_type_changes(before.data_type, after.data_type, i);
    }
    assert forall|i: int| n <= i < n + types.len() implies #[trigger] changes[i] == types[i - n] by {
        assert(changes.subrange(n, n + types.len())[i - n] == changes[i]);
    }
    assert forall|c: FieldChangeType| types.contains(c) implies #[trigger] changes.contains(c) by {
        let i = choose|i: int| 0 <= i < types.len() && types[i] == c;
        assert(changes[n + i] == c);
    }
    if before.name != after.name {
        assert(changes[0] == FieldChangeType::Renamed);
    }
    if before.nullable != after.nullable {
        assert(changes[n - 1] == if after.nullable {
            FieldChangeType::NullabilityLoosened
        } else {
            FieldChangeType::NullabilityTightened
        });
    }
    if unreserved(before.metadata) != unreserved(after.metadata) {
        assert(changes[n + types.len()] == FieldChangeType::MetadataChanged);
    }
    assert forall|c: FieldChangeType| #[trigger] changes.contains(c) implies types.contains(c) || (c
        == FieldChangeType::Renamed && before.name != after.name) || (c
        == FieldChangeType::NullabilityLoosened && !before.nullable && after.nullable) || (c
        == FieldChangeType::NullabilityTightened && before.nullable && !after.nullable) || (c
        == FieldChangeType::MetadataChanged && unreserved(before.metadata) != unreserved(
        after.metadata,
    )) by {
        let i = choose|i: int| 0 <= i < changes.len() && changes[i] == c;
        if n <= i < n + types.len() {
            assert(types[i - n] == c);
        }
    }
}

/// The changes come in order, each once: the rename, the change of nullability, the changes between
/// the data types in their own order, and the change of metadata.
pub proof fn law_order_of_changes(before: StructFieldView, after: StructFieldView)
    ensures
        ({
            let changes = field_changes(before, after);
            let types = data_type_changes(before.data_type, after.data_type);
            let renamed: int = if before.name != after.name {
                1
            } else {
                0
            };
            let nullability: int = if before.nullable != after.nullable {
                1
            } else {
                0
            };
            let n = renamed + nullability;
            &&& renamed == 1 ==> changes.len() > 0 && changes[0] == FieldChangeType::Renamed
            &&& !before.nullable && after.nullable ==> changes.len() >= n && changes[n - 1]
                == FieldChangeType::NullabilityLoosened
            &&& before.nullable && !after.nullable ==> changes.len() >= n && changes[n - 1]
                == FieldChangeType::NullabilityTightened
            &&& n + types.len() <= changes.len() <= n + types.len() + 1
            &&& changes.subrange(n, n + types.len()) == types
            &&& changes.len() == n + types.len() + 1 ==> changes.last()
                == FieldChangeType::MetadataChanged
            &&& changes.len() == n + types.len() + 1 <==> unreserved(before.metadata)
                != unreserved(after.metadata)
        }),
{
    let changes = field_changes(before, after);
    let types = data_type_changes(before.data_type, after.data_type);
    let n = (if before.name != after.name {
        1int
    } else {
        0int
    }) + (if before.nullable != after.nullable {
        1int
    } else {
        0int
    });
    assert(changes.subrange(n, n + types.len()) =~= types);
}

/// A field whose metadata has another value for some key, or a key more or less, is reported with
/// changed metadata, unless the key starts with "delta.columnMapping" or with "parquet.field".
pub proof fn law_changed_metadata_is_reported(
    before: StructFieldView,
    after: StructFieldView,
    key: Seq<char>,
)
    requires
        !"delta.columnMapping"@.is_prefix_of(key),
        !"parquet.field"@.is_prefix_of(key),
        before.metadata.contains_key(key) != after.metadata.contains_key(key)
            || before.metadata.contains_key(key) && before.metadata[key] != after.metadata[key],
    ensures
        field_changes(before, after).contains(FieldChangeType::MetadataChanged),
{
    law_changes_of_a_field(before, after);
    assert(before.metadata.contains_key(key) == before.metadata.contains_key(key));
}

/// A field that has a new primitive type is reported with a changed type, whatever its name.
pub proof fn law_changed_primitive_type_is_reported(
    before: StructFieldView,
    after: StructFieldView,
    p: PrimitiveType,
    q: PrimitiveType,
)
    requires
        before.data_type == DataTypeView::Primitive(p),
        after.data_type == DataTypeView::Primitive(q),
        p != q,
    ensures
        field_changes(before, after).contains(FieldChangeType::TypeChanged),
{
    law_changes_of_a_field(before, after);
    law_primitive_types(p, q);
    assert(seq![FieldChangeType::TypeChanged][0] == FieldChangeType::TypeChanged);
    assert(data_type_changes(before.data_type, after.data_type).contains(
        FieldChangeType::TypeChanged,
    ));
}

/// Two versions of a field have no update exactly where nothing differs between them. Otherwise the
/// update has both versions, the path of the new one and all their changes.
pub proof fn law_update_of_a_field(before: FieldWithPathView, after: FieldWithPathView)
    ensures
        field_update(before, after) is None <==> {
            let (b, a) = (before.field, after.field);
            &&& b.name == a.name
            &&& b.nullable == a.nullable
            &&& data_type_changes(b.data_type, a.data_type).len() == 0
            &&& forall|key: Seq<char>|
                !"delta.columnMapping"@.is_prefix_of(key) && !"parquet.field"@.is_prefix_of(key)
                    ==> (#[trigger] b.metadata.contains_key(key) <==> a.metadata.contains_key(key))
                    && (b.metadata.contains_key(key) ==> b.metadata[key] == a.metadata[key])
        },
        field_update(before, after) is Some ==> field_update(before, after) == Some(
            FieldUpdateView {
                before: before.field,
                after: after.field,
                path: after.path,
                change_types: field_changes(before.field, after.field),
            },
        ),
{
    law_metadata_differs(before.field.metadata, after.field.metadata);
    law_order_of_changes(before.field, after.field);
}

/// A change breaks existing data or its readers exactly where it is a change of type, of metadata,
/// or tightens a nullability.
pub proof fn law_breaking_types(c: FieldChangeType)
    ensures
        c.is_breaking() <==> {
            ||| c == FieldChangeType::TypeChanged
            ||| c == FieldChangeType::NullabilityTightened
            ||| c == FieldChangeType::ContainerNullabilityTightened
            ||| c == FieldChangeType::MetadataChanged
        },
{
}

/// Changes are breaking exactly where a field was removed, a required field was added, or a type or
/// metadata was changed or a nullability tightened in some updated field. They are not breaking
/// where nothing was removed, only nullable fields were added, and fields were updated in no other
/// way than by being renamed or by loosening a nullability.
pub proof fn law_breaking_changes(
    added: Seq<FieldChangeView>,
    removed: Seq<FieldChangeView>,
    updated: Seq<FieldUpdateView>,
)
    ensures
        has_breaking(added, removed, updated) <==> {
            ||| removed.len() > 0
            ||| exists|i: int| 0 <= i < added.len() && !(#[trigger] added[i]).field.nullable
            ||| exists|i: int|
                0 <= i < updated.len() && ((
                #[trigger] updated[i]).change_types.contains(FieldChangeType::TypeChanged)
                    || updated[i].change_types.contains(FieldChangeType::NullabilityTightened)
                    || updated[i].change_types.contains(
                    FieldChangeType::ContainerNullabilityTightened,
                ) || updated[i].change_types.contains(FieldChangeType::MetadataChanged))
        },
        removed.len() == 0 && (forall|i: int|
            0 <= i < added.len() ==> (#[trigger] added[i]).field.nullable) && (forall|i: int, j: int|
            0 <= i < updated.len() && 0 <= j < updated[i].change_types.len() ==> {
                let c = #[trigger] updated[i].change_types[j];
                ||| c == FieldChangeType::Renamed
                ||| c == FieldChangeType::NullabilityLoosened
                ||| c == FieldChangeType::ContainerNullabilityLoosened
            }) ==> !has_breaking(added, removed, updated),
{
    assert forall|i: int| 0 <= i < updated.len() implies any_breaking(
        (#[trigger] updated[i]).change_types,
    ) == (updated[i].change_types.contains(FieldChangeType::TypeChanged)
        || updated[i].change_types.contains(FieldChangeType::NullabilityTightened)
        || updated[i].change_types.contains(FieldChangeType::ContainerNullabilityTightened)
        || updated[i].change_types.contains(FieldChangeType::MetadataChanged)) by {
        lemma_any_breaking(updated[i].change_types);
    }
    if exists|i: int|
        0 <= i < updated.len() && any_breaking((#[trigger] updated[i]).change_types) {
        let i = choose|i: int|
            0 <= i < updated.len() && any_breaking((#[trigger] updated[i]).change_types);
        let j = choose|j: int|
            0 <= j < updated[i].change_types.len() && (
            #[trigger] updated[i].change_types[j]).is_breaking();
        assert(updated[i].change_types[j].is_breaking());
    }
}

proof fn lemma_any_breaking(changes: Seq<FieldChangeType>)
    ensures
        any_breaking(changes) == (changes.contains(FieldChangeType::TypeChanged)
            || changes.contains(FieldChangeType::NullabilityTightened) || changes.contains(
            FieldChangeType::ContainerNullabilityTightened,
        ) || changes.contains(FieldChangeType::MetadataChanged)),
{
    if any_breaking(changes) {
        let i = choose|i: int| 0 <= i < changes.len() && (#[trigger] changes[i]).is_breaking();
        assert(changes.contains(changes[i]));
    }
}

} // verus!
