//! What is collected from a schema, and what a diff reports of it.

use crate::ancestors::{encloses, lemma_enclosing_unique};
use crate::change::{FieldChangeType, FieldChangeView, FieldUpdateView};
use crate::compare::{field_changes, field_id, FieldWithPathView};
use crate::diff::{
    all_fields, collected, collected_within, fields_within, is_first_without_id,
    lemma_all_fields_below, lemma_all_with_ids, lemma_fields_within_below,
    lemma_first_without_id_unique, schema_diff, with_ids, LocatedField,
};
use crate::error::SchemaDiffErrorView;
use crate::laws::{
    change_at, enclosing_at, field_at, field_count, has_id, id_at, law_added_exactly, law_breaking,
    law_no_other_updates, law_nothing_else_reported, law_removed, law_swap, law_updated, path_at, schema_fields,
    schema_paths, update_at,
};
use crate::laws_compare::{
    law_breaking_changes, law_changed_primitive_type_is_reported, law_changes_of_a_field,
};
use crate::schema::{DataTypeView, PrimitiveType, StructFieldView};
use vstd::prelude::*;

verus! {

/// The fields of a struct, taken in two parts, are those of the first part followed by those of the
/// second.
pub proof fn law_fields_of_parts(
    s: Seq<StructFieldView>,
    t: Seq<StructFieldView>,
    parent: Seq<Seq<char>>,
)
    ensures
        all_fields(s + t, parent) == all_fields(s, parent) + all_fields(t, parent),
    decreases t.len(),
{
    if t.len() == 0 {
        assert(s + t =~= s);
        assert(all_fields(s + t, parent) =~= all_fields(s, parent) + all_fields(t, parent));
    } else {
        law_fields_of_parts(s, t.drop_last(), parent);
        assert((s + t).drop_last() =~= s + t.drop_last());
        assert((s + t).last() == t.last());
        assert(all_fields(s + t, parent) =~= all_fields(s, parent) + all_fields(t, parent));
    }
}

/// A struct with one field has that field, at the path that its name leads to, and after it: nothing
/// more where the field is of a primitive type, whichever it is; the fields of its struct; what it
/// would have after it with the elements of its array for a type; what it would have with the keys
/// of its map, and then with the values.
pub proof fn law_fields_of_one(field: StructFieldView, parent: Seq<Seq<char>>)
    ensures
        ({
            let path = parent.push(field.name);
            let all = all_fields(seq![field], parent);
            let own = LocatedField { field, path };
            &&& all.len() > 0
            &&& all[0] == own
            &&& match field.data_type {
                DataTypeView::Primitive(_) => all.len() == 1,
                DataTypeView::Struct(fields) => all.skip(1) == all_fields(fields, path),
                DataTypeView::Array { element, .. } => {
                    let inner = StructFieldView { data_type: *element, ..field };
                    all.skip(1) == all_fields(seq![inner], parent).skip(1)
                },
                DataTypeView::MapOf { key, value, .. } => {
                    let first = StructFieldView { data_type: *key, ..field };
                    let second = StructFieldView { data_type: *value, ..field };
                    all.skip(1) == all_fields(seq![first], parent).skip(1) + all_fields(
                        seq![second],
                        parent,
                    ).skip(1)
                },
            }
        }),
{
    let path = parent.push(field.name);
    law_fields_within_one(field, parent);
    let all = all_fields(seq![field], parent);
    let within = fields_within(field.data_type, path);
    assert(all.skip(1) =~= within);
    match field.data_type {
        DataTypeView::Array { element, .. } => {
            let inner = StructFieldView { data_type: *element, ..field };
            law_fields_within_one(inner, parent);
            assert(all_fields(seq![inner], parent).skip(1) =~= fields_within(*element, path));
        },
        DataTypeView::MapOf { key, value, .. } => {
            let first = StructFieldView { data_type: *key, ..field };
            let second = StructFieldView { data_type: *value, ..field };
            law_fields_within_one(first, parent);
            law_fields_within_one(second, parent);
            assert(all_fields(seq![first], parent).skip(1) =~= fields_within(*key, path));
            assert(all_fields(seq![second], parent).skip(1) =~= fields_within(*value, path));
        },
        _ => {},
    }
}

/// After a field come those within its data type.
pub proof fn law_fields_within_one(field: StructFieldView, parent: Seq<Seq<char>>)
    ensures
        ({
            let path = parent.push(field.name);
            all_fields(seq![field], parent) == seq![LocatedField { field, path }] + fields_within(
                field.data_type,
                path,
            )
        }),
{
    let path = parent.push(field.name);
    let one = seq![field];
    assert(one.drop_last() =~= seq![]);
    assert(all_fields(one.drop_last(), parent) =~= seq![]);
    assert(all_fields(one, parent) =~= seq![LocatedField { field, path }] + fields_within(
        field.data_type,
        path,
    ));
}

/// Within a data type are, whatever the path: nothing, where it is primitive; the fields of a struct;
/// what is within the elements of an array; what is within the keys of a map, and then what is within
/// its values.
pub proof fn law_fields_within_types(
    t: DataTypeView,
    u: DataTypeView,
    p: PrimitiveType,
    fields: Seq<StructFieldView>,
    n: bool,
    path: Seq<Seq<char>>,
)
    ensures
        fields_within(DataTypeView::Primitive(p), path).len() == 0,
        fields_within(DataTypeView::Struct(fields), path) == all_fields(fields, path),
        fields_within(
            DataTypeView::Array { element: Box::new(t), contains_null: n },
            path,
        ) == fields_within(t, path),
        fields_within(
            DataTypeView::MapOf { key: Box::new(t), value: Box::new(u), value_contains_null: n },
            path,
        ) == fields_within(t, path) + fields_within(u, path),
{
}

/// Every field within a data type has an id, and all of them are collected, each with its path and
/// its id; or some field has none, and the first that has none is reported, at its path.
pub proof fn law_collected_within_exactly(t: DataTypeView, path: Seq<Seq<char>>)
    ensures
        ({
            let all = fields_within(t, path);
            &&& (forall|i: int|
                0 <= i < all.len() ==> field_id((#[trigger] all[i]).field) is Some)
                ==> collected_within(t, path) is Ok && {
                let list = collected_within(t, path)->Ok_0;
                &&& list.len() == all.len()
                &&& forall|i: int|
                    0 <= i < all.len() ==> {
                        let f = #[trigger] list[i];
                        &&& f.field == all[i].field
                        &&& f.path == all[i].path
                        &&& Some(f.field_id) == field_id(all[i].field)
                    }
            }
            &&& forall|i: int|
                0 <= i < all.len() && field_id((#[trigger] all[i]).field) is None && (forall|j: int|
                    0 <= j < i ==> field_id((#[trigger] all[j]).field) is Some)
                    ==> collected_within(t, path) == Err::<Seq<FieldWithPathView>, _>(
                    SchemaDiffErrorView::MissingFieldId { path: all[i].path },
                )
        }),
{
    lemma_with_ids_exactly(fields_within(t, path));
}

/// Every field has an id, and all the fields are collected, each with its path and its id; or some
/// field has none, and the first that has none is reported, at its path.
pub proof fn law_collected_exactly(fields: Seq<StructFieldView>, parent: Seq<Seq<char>>)
    ensures
        ({
            let all = all_fields(fields, parent);
            &&& (forall|i: int|
                0 <= i < all.len() ==> field_id((#[trigger] all[i]).field) is Some)
                ==> collected(fields, parent) is Ok && {
                let list = collected(fields, parent)->Ok_0;
                &&& list.len() == all.len()
                &&& forall|i: int|
                    0 <= i < all.len() ==> {
                        let f = #[trigger] list[i];
                        &&& f.field == all[i].field
                        &&& f.path == all[i].path
                        &&& Some(f.field_id) == field_id(all[i].field)
                    }
            }
            &&& forall|i: int|
                0 <= i < all.len() && field_id((#[trigger] all[i]).field) is None && (forall|j: int|
                    0 <= j < i ==> field_id((#[trigger] all[j]).field) is Some) ==> collected(
                    fields,
                    parent,
                ) == Err::<Seq<FieldWithPathView>, _>(
                    SchemaDiffErrorView::MissingFieldId { path: all[i].path },
                )
        }),
{
    lemma_with_ids_exactly(all_fields(fields, parent));
}

/// What is collected within a data type is what is collected from a struct with one field of that
/// type, the field itself aside.
pub proof fn law_collected_within(field: StructFieldView, parent: Seq<Seq<char>>)
    requires
        field_id(field) is Some,
    ensures
        ({
            let path = parent.push(field.name);
            match collected(seq![field], parent) {
                Ok(list) => list.len() > 0 && collected_within(field.data_type, path) == Ok::<
                    _,
                    SchemaDiffErrorView,
                >(list.skip(1)),
                Err(e) => collected_within(field.data_type, path) == Err::<
                    Seq<FieldWithPathView>,
                    _,
                >(e),
            }
        }),
{
    let path = parent.push(field.name);
    law_fields_within_one(field, parent);
    let all = all_fields(seq![field], parent);
    let within = fields_within(field.data_type, path);
    lemma_with_ids_exactly(all);
    lemma_with_ids_exactly(within);
    lemma_all_with_ids(all);
    lemma_all_with_ids(within);
    assert forall|i: int| 0 <= i < within.len() implies #[trigger] within[i] == all[i + 1] by {}
    assert(field_id(all[0].field) is Some);
    if collected(seq![field], parent) is Ok {
        assert forall|i: int| 0 <= i < within.len() implies field_id(
            (#[trigger] within[i]).field,
        ) is Some by {
            assert(field_id(all[i + 1].field) is Some);
        }
        assert(collected_within(field.data_type, path)->Ok_0 =~= collected(
            seq![field],
            parent,
        )->Ok_0.skip(1));
    } else {
        let i = choose|i: int| is_first_without_id(all, i);
        assert(is_first_without_id(all, i));
        assert(i > 0);
        assert(is_first_without_id(within, i - 1)) by {
            assert forall|j: int| 0 <= j < i - 1 implies field_id(
                (#[trigger] within[j]).field,
            ) is Some by {
                assert(field_id(all[j + 1].field) is Some);
            }
        }
        lemma_first_without_id_unique(within, i - 1);
    }
}

proof fn lemma_with_ids_exactly(all: Seq<LocatedField>)
    ensures
        (forall|i: int| 0 <= i < all.len() ==> field_id((#[trigger] all[i]).field) is Some)
            ==> with_ids(all) is Ok && {
            let list = with_ids(all)->Ok_0;
            &&& list.len() == all.len()
            &&& forall|i: int|
                0 <= i < all.len() ==> {
                    let f = #[trigger] list[i];
                    &&& f.field == all[i].field
                    &&& f.path == all[i].path
                    &&& Some(f.field_id) == field_id(all[i].field)
                }
        },
        forall|i: int|
            0 <= i < all.len() && field_id((#[trigger] all[i]).field) is None && (forall|j: int|
                0 <= j < i ==> field_id((#[trigger] all[j]).field) is Some) ==> with_ids(all)
                == Err::<Seq<FieldWithPathView>, _>(
                SchemaDiffErrorView::MissingFieldId { path: all[i].path },
            ),
{
    lemma_all_with_ids(all);
    assert forall|i: int|
        0 <= i < all.len() && field_id((#[trigger] all[i]).field) is None && (forall|j: int|
            0 <= j < i ==> field_id((#[trigger] all[j]).field) is Some) implies with_ids(all)
        == Err::<Seq<FieldWithPathView>, _>(
        SchemaDiffErrorView::MissingFieldId { path: all[i].path },
    ) by {
        assert(is_first_without_id(all, i));
        lemma_first_without_id_unique(all, i);
    }
}

/// `x` is a field of the struct with these fields at `parent`, at any nesting level: it is one of
/// them, at the path that its name leads to, or is within the data type of one of them.
pub open spec fn is_field_of(
    fields: Seq<StructFieldView>,
    parent: Seq<Seq<char>>,
    x: LocatedField,
) -> bool
    decreases fields,
{
    exists|t: int|
        0 <= t < fields.len() && (x.field == #[trigger] fields[t] && x.path == parent.push(
            fields[t].name,
        ) || is_field_in(fields[t].data_type, parent.push(fields[t].name), x))
}

/// `x` is a field within the data type of the field at `path`: of its struct, or within the elements
/// of its array, or within the keys or the values of its map.
pub open spec fn is_field_in(t: DataTypeView, path: Seq<Seq<char>>, x: LocatedField) -> bool
    decreases t,
{
    match t {
        DataTypeView::Primitive(_) => false,
        DataTypeView::Struct(fields) => is_field_of(fields, path, x),
        DataTypeView::Array { element, .. } => is_field_in(*element, path, x),
        DataTypeView::MapOf { key, value, .. } => is_field_in(*key, path, x) || is_field_in(
            *value,
            path,
            x,
        ),
    }
}

/// All the fields of a struct, at every nesting level, are listed, and no others.
pub proof fn law_every_field_is_listed(
    fields: Seq<StructFieldView>,
    parent: Seq<Seq<char>>,
    x: LocatedField,
)
    ensures
        all_fields(fields, parent).contains(x) <==> is_field_of(fields, parent, x),
    decreases fields,
{
    if fields.len() == 0 {
        assert(all_fields(fields, parent) =~= seq![]);
    } else {
        let rest = fields.drop_last();
        let field = fields.last();
        let path = parent.push(field.name);
        let first = all_fields(rest, parent);
        let own = seq![LocatedField { field, path }];
        let within = fields_within(field.data_type, path);
        let all = all_fields(fields, parent);
        law_every_field_is_listed(rest, parent, x);
        law_every_field_within_is_listed(field.data_type, path, x);
        lemma_contains_added(first, own, x);
        lemma_contains_added(first + own, within, x);
        assert(own.contains(x) <==> x == own[0]) by {
            if x == own[0] {
                assert(own[0] == x);
            }
        }
        if is_field_of(rest, parent, x) {
            let t = choose|t: int|
                0 <= t < rest.len() && (x.field == #[trigger] rest[t] && x.path == parent.push(
                    rest[t].name,
                ) || is_field_in(rest[t].data_type, parent.push(rest[t].name), x));
            assert(fields[t] == rest[t]);
            assert(is_field_of(fields, parent, x));
        }
        if x == own[0] || is_field_in(field.data_type, path, x) {
            assert(fields[fields.len() - 1] == field);
            assert(is_field_of(fields, parent, x));
        }
        if is_field_of(fields, parent, x) {
            let t = choose|t: int|
                0 <= t < fields.len() && (x.field == #[trigger] fields[t] && x.path
                    == parent.push(fields[t].name) || is_field_in(
                    fields[t].data_type,
                    parent.push(fields[t].name),
                    x,
                ));
            if t < rest.len() {
                assert(rest[t] == fields[t]);
                assert(is_field_of(rest, parent, x));
            }
        }
    }
}

/// All the fields within a data type, at every nesting level, are listed, and no others.
pub proof fn law_every_field_within_is_listed(
    t: DataTypeView,
    path: Seq<Seq<char>>,
    x: LocatedField,
)
    ensures
        fields_within(t, path).contains(x) <==> is_field_in(t, path, x),
    decreases t,
{
    match t {
        DataTypeView::Primitive(_) => {},
        DataTypeView::Struct(fields) => {
            law_every_field_is_listed(fields, path, x);
        },
        DataTypeView::Array { element, .. } => {
            law_every_field_within_is_listed(*element, path, x);
        },
        DataTypeView::MapOf { key, value, .. } => {
            law_every_field_within_is_listed(*key, path, x);
            law_every_field_within_is_listed(*value, path, x);
            lemma_contains_added(fields_within(*key, path), fields_within(*value, path), x);
        },
    }
}

proof fn lemma_contains_added(s: Seq<LocatedField>, t: Seq<LocatedField>, x: LocatedField)
    ensures
        (s + t).contains(x) <==> s.contains(x) || t.contains(x),
{
    let both = s + t;
    if s.contains(x) {
        let i = choose|i: int| 0 <= i < s.len() && s[i] == x;
        assert(both[i] == x);
    }
    if t.contains(x) {
        let i = choose|i: int| 0 <= i < t.len() && t[i] == x;
        assert(both[s.len() + i] == x);
    }
    if both.contains(x) {
        let i = choose|i: int| 0 <= i < both.len() && both[i] == x;
        if i < s.len() {
            assert(s[i] == x);
        } else {
            assert(t[i - s.len()] == x);
        }
    }
}

/// Each field of a schema, of whatever type, is among its fields, at the top level.
pub proof fn law_each_field_is_listed(schema: Seq<StructFieldView>, t: int)
    requires
        0 <= t < schema.len(),
    ensures
        exists|i: int|
            0 <= i < field_count(schema) && #[trigger] field_at(schema, i) == schema[t] && path_at(
                schema,
                i,
            ) == seq![schema[t].name],
{
    let x = LocatedField { field: schema[t], path: seq![schema[t].name] };
    let none = Seq::<Seq<char>>::empty();
    assert(none.push(schema[t].name) =~= seq![schema[t].name]);
    assert(x.field == schema[t]);
    assert(is_field_of(schema, none, x));
    law_every_field_is_listed(schema, none, x);
    let i = choose|i: int| 0 <= i < field_count(schema) && schema_fields(schema)[i] == x;
    assert(field_at(schema, i) == schema[t]);
}

/// A schema whose fields are all of primitive types has these fields, in order, and no others.
pub proof fn law_flat_schema(schema: Seq<StructFieldView>)
    requires
        forall|t: int| 0 <= t < schema.len() ==> (#[trigger] schema[t]).data_type is Primitive,
    ensures
        field_count(schema) == schema.len(),
        forall|t: int|
            0 <= t < schema.len() ==> #[trigger] field_at(schema, t) == schema[t] && path_at(
                schema,
                t,
            ) == seq![schema[t].name],
    decreases schema.len(),
{
    if schema.len() > 0 {
        let rest = schema.drop_last();
        let last = schema.last();
        let none = Seq::<Seq<char>>::empty();
        assert forall|t: int| 0 <= t < rest.len() implies (
        #[trigger] rest[t]).data_type is Primitive by {
            assert(schema[t].data_type is Primitive);
        }
        law_flat_schema(rest);
        assert(schema[schema.len() - 1].data_type is Primitive);
        assert(none.push(last.name) =~= seq![last.name]);
        let all = schema_fields(schema);
        assert(last.data_type is Primitive);
        assert(fields_within(last.data_type, seq![last.name]) =~= seq![]);
        assert(all =~= schema_fields(rest) + seq![
            LocatedField { field: last, path: seq![last.name] },
        ]);
        assert forall|t: int| 0 <= t < schema.len() implies #[trigger] field_at(schema, t)
            == schema[t] && path_at(schema, t) == seq![schema[t].name] by {
            if t < rest.len() {
                assert(field_at(rest, t) == rest[t]);
                assert(all[t] == schema_fields(rest)[t]);
            }
        }
    }
}

/// `x` is a field of the schema, at any nesting level.
pub open spec fn has_field(schema: Seq<StructFieldView>, x: LocatedField) -> bool {
    is_field_of(schema, seq![], x)
}

/// Some field of the schema, at whatever level, has the same id as `field`.
pub open spec fn has_same_id(schema: Seq<StructFieldView>, field: StructFieldView) -> bool {
    exists|x: LocatedField| #[trigger]
        has_field(schema, x) && field_id(x.field) == field_id(field)
}

proof fn lemma_place_of(schema: Seq<StructFieldView>, x: LocatedField) -> (i: int)
    requires
        has_field(schema, x),
    ensures
        0 <= i < field_count(schema),
        schema_fields(schema)[i] == x,
{
    law_every_field_is_listed(schema, seq![], x);
    choose|i: int| 0 <= i < field_count(schema) && schema_fields(schema)[i] == x
}

proof fn lemma_field_at(schema: Seq<StructFieldView>, i: int)
    requires
        0 <= i < field_count(schema),
    ensures
        has_field(schema, schema_fields(schema)[i]),
{
    law_every_field_is_listed(schema, seq![], schema_fields(schema)[i]);
    assert(schema_fields(schema).contains(schema_fields(schema)[i]));
}

proof fn lemma_has_same_id(schema: Seq<StructFieldView>, field: StructFieldView)
    ensures
        has_same_id(schema, field) == has_id(schema, field_id(field)),
{
    if has_same_id(schema, field) {
        let x = choose|x: LocatedField| #[trigger]
            has_field(schema, x) && field_id(x.field) == field_id(field);
        let i = lemma_place_of(schema, x);
        assert(id_at(schema, i) == field_id(field));
    }
    if has_id(schema, field_id(field)) {
        let i = choose|i: int|
            0 <= i < field_count(schema) && #[trigger] id_at(schema, i) == field_id(field);
        lemma_field_at(schema, i);
        assert(has_field(schema, schema_fields(schema)[i]));
    }
}

/// A field at the top level of the new schema, of whatever type, is reported as added exactly where
/// no field of the old schema has its id.
pub proof fn law_top_level_addition(
    before: Seq<StructFieldView>,
    after: Seq<StructFieldView>,
    t: int,
)
    requires
        schema_diff(before, after) is Ok,
        0 <= t < after.len(),
    ensures
        schema_diff(before, after)->Ok_0.added_fields.contains(
            FieldChangeView { field: after[t], path: seq![after[t].name] },
        ) <==> !has_same_id(before, after[t]),
{
    law_each_field_is_listed(after, t);
    let i = choose|i: int|
        0 <= i < field_count(after) && #[trigger] field_at(after, i) == after[t] && path_at(
            after,
            i,
        ) == seq![after[t].name];
    law_added_exactly(before, after, i);
    lemma_has_same_id(before, after[t]);
    assert(change_at(after, i) == (FieldChangeView { field: after[t], path: seq![after[t].name] }));
}

/// A field at the top level of the old schema, of whatever type, is reported as removed exactly
/// where no field of the new schema has its id.
pub proof fn law_top_level_removal(
    before: Seq<StructFieldView>,
    after: Seq<StructFieldView>,
    t: int,
)
    requires
        schema_diff(before, after) is Ok,
        0 <= t < before.len(),
    ensures
        schema_diff(before, after)->Ok_0.removed_fields.contains(
            FieldChangeView { field: before[t], path: seq![before[t].name] },
        ) <==> !has_same_id(after, before[t]),
{
    law_swap(before, after);
    law_top_level_addition(after, before, t);
}

/// Between schemas whose fields are all of primitive types, what was added are the fields of the new
/// one whose ids no field of the old one has, and what was removed the fields of the old one whose
/// ids no field of the new one has.
pub proof fn law_flat_schemas(
    before: Seq<StructFieldView>,
    after: Seq<StructFieldView>,
    c: FieldChangeView,
)
    requires
        forall|t: int| 0 <= t < before.len() ==> (#[trigger] before[t]).data_type is Primitive,
        forall|t: int| 0 <= t < after.len() ==> (#[trigger] after[t]).data_type is Primitive,
        schema_diff(before, after) is Ok,
    ensures
        schema_diff(before, after)->Ok_0.added_fields.contains(c) <==> exists|t: int|
            0 <= t < after.len() && c.field == #[trigger] after[t] && c.path == seq![after[t].name]
                && forall|u: int|
                0 <= u < before.len() ==> field_id(#[trigger] before[u]) != field_id(after[t]),
        schema_diff(before, after)->Ok_0.removed_fields.contains(c) <==> exists|t: int|
            0 <= t < before.len() && c.field == #[trigger] before[t] && c.path
                == seq![before[t].name] && forall|u: int|
                0 <= u < after.len() ==> field_id(#[trigger] after[u]) != field_id(before[t]),
{
    lemma_flat_additions(before, after, c);
    law_swap(before, after);
    lemma_flat_additions(after, before, c);
}

proof fn lemma_flat_additions(
    before: Seq<StructFieldView>,
    after: Seq<StructFieldView>,
    c: FieldChangeView,
)
    requires
        forall|t: int| 0 <= t < before.len() ==> (#[trigger] before[t]).data_type is Primitive,
        forall|t: int| 0 <= t < after.len() ==> (#[trigger] after[t]).data_type is Primitive,
        schema_diff(before, after) is Ok,
    ensures
        schema_diff(before, after)->Ok_0.added_fields.contains(c) <==> exists|t: int|
            0 <= t < after.len() && c.field == #[trigger] after[t] && c.path == seq![after[t].name]
                && forall|u: int|
                0 <= u < before.len() ==> field_id(#[trigger] before[u]) != field_id(after[t]),
{
    let added = schema_diff(before, after)->Ok_0.added_fields;
    law_flat_schema(before);
    law_flat_schema(after);
    law_nothing_else_reported(before, after);
    if added.contains(c) {
        let t = choose|t: int|
            0 <= t < field_count(after) && !has_id(before, id_at(after, t)) && c
                == #[trigger] change_at(after, t);
        assert(field_at(after, t) == after[t]);
        assert forall|u: int| 0 <= u < before.len() implies field_id(#[trigger] before[u])
            != field_id(after[t]) by {
            assert(field_at(before, u) == before[u]);
            assert(id_at(before, u) == field_id(before[u]));
        }
    }
    if exists|t: int|
        0 <= t < after.len() && c.field == #[trigger] after[t] && c.path == seq![after[t].name]
            && forall|u: int|
            0 <= u < before.len() ==> field_id(#[trigger] before[u]) != field_id(after[t]) {
        let t = choose|t: int|
            0 <= t < after.len() && c.field == #[trigger] after[t] && c.path == seq![after[t].name]
                && forall|u: int|
                0 <= u < before.len() ==> field_id(#[trigger] before[u]) != field_id(after[t]);
        assert(field_at(after, t) == after[t]);
        law_added_exactly(before, after, t);
        if has_id(before, id_at(after, t)) {
            let u = choose|u: int|
                0 <= u < field_count(before) && #[trigger] id_at(before, u) == id_at(after, t);
            assert(field_at(before, u) == before[u]);
        }
        assert(change_at(after, t) == c);
    }
}

/// The field is a field of a struct that is the type, or its elements, or its keys or values, or
/// stands in these in the same way.
pub open spec fn is_directly_in(t: DataTypeView, field: StructFieldView) -> bool
    decreases t,
{
    match t {
        DataTypeView::Primitive(_) => false,
        DataTypeView::Struct(fields) => fields.contains(field),
        DataTypeView::Array { element, .. } => is_directly_in(*element, field),
        DataTypeView::MapOf { key, value, .. } => is_directly_in(*key, field) || is_directly_in(
            *value,
            field,
        ),
    }
}

proof fn lemma_directly_in(t: DataTypeView, path: Seq<Seq<char>>, field: StructFieldView)
    requires
        is_directly_in(t, field),
    ensures
        is_field_in(t, path, LocatedField { field, path: path.push(field.name) }),
    decreases t,
{
    let x = LocatedField { field, path: path.push(field.name) };
    match t {
        DataTypeView::Primitive(_) => {},
        DataTypeView::Struct(fields) => {
            let u = choose|u: int| 0 <= u < fields.len() && fields[u] == field;
            assert(x.field == fields[u]);
            assert(is_field_of(fields, path, x));
        },
        DataTypeView::Array { element, .. } => {
            lemma_directly_in(*element, path, field);
        },
        DataTypeView::MapOf { key, value, .. } => {
            if is_directly_in(*key, field) {
                lemma_directly_in(*key, path, field);
            } else {
                lemma_directly_in(*value, path, field);
            }
        },
    }
}

/// A list holds another from place `n` on.
spec fn holds_from(all: Seq<LocatedField>, n: int, part: Seq<LocatedField>) -> bool {
    0 <= n && n + part.len() <= all.len() && all.subrange(n, n + part.len()) == part
}

proof fn lemma_holds_from_added(
    head: Seq<LocatedField>,
    middle: Seq<LocatedField>,
    tail: Seq<LocatedField>,
    n: int,
    part: Seq<LocatedField>,
)
    requires
        holds_from(middle, n, part),
    ensures
        holds_from(head + middle + tail, head.len() + n, part),
{
    let all = head + middle + tail;
    let m = head.len() + n;
    assert forall|j: int| 0 <= j < part.len() implies #[trigger] all.subrange(
        m,
        m + part.len(),
    )[j] == part[j] by {
        assert(middle.subrange(n, n + part.len())[j] == part[j]);
    }
    assert(all.subrange(m, m + part.len()) =~= part);
}

/// Each field is followed by those within its data type.
proof fn lemma_followed_by_within(fields: Seq<StructFieldView>, parent: Seq<Seq<char>>, k: int)
    requires
        0 <= k < all_fields(fields, parent).len(),
    ensures
        ({
            let all = all_fields(fields, parent);
            holds_from(all, k + 1, fields_within(all[k].field.data_type, all[k].path))
        }),
    decreases fields,
{
    if fields.len() > 0 {
        let rest = fields.drop_last();
        let field = fields.last();
        let path = parent.push(field.name);
        let first = all_fields(rest, parent);
        let own = seq![LocatedField { field, path }];
        let within = fields_within(field.data_type, path);
        let all = all_fields(fields, parent);
        let none = Seq::<LocatedField>::empty();
        let n = first.len() as int;
        let part = fields_within(all[k].field.data_type, all[k].path);
        if k < n {
            lemma_followed_by_within(rest, parent, k);
            assert(all[k] == first[k]);
            lemma_holds_from_added(none, first, own + within, k + 1, part);
            assert(none + first + (own + within) =~= all);
        } else if k == n {
            assert(all[k] == own[0]);
            assert(within.subrange(0, within.len() as int) =~= within);
            lemma_holds_from_added(first + own, within, none, 0, within);
            assert(first + own + within + none =~= all);
        } else {
            let m = k - n - 1;
            lemma_followed_by_within_type(field.data_type, path, m);
            assert(all[k] == within[m]);
            lemma_holds_from_added(first + own, within, none, m + 1, part);
            assert(first + own + within + none =~= all);
        }
    }
}

proof fn lemma_followed_by_within_type(t: DataTypeView, path: Seq<Seq<char>>, k: int)
    requires
        0 <= k < fields_within(t, path).len(),
    ensures
        ({
            let all = fields_within(t, path);
            holds_from(all, k + 1, fields_within(all[k].field.data_type, all[k].path))
        }),
    decreases t,
{
    match t {
        DataTypeView::Primitive(_) => {},
        DataTypeView::Struct(fields) => {
            lemma_followed_by_within(fields, path, k);
        },
        DataTypeView::Array { element, .. } => {
            lemma_followed_by_within_type(*element, path, k);
        },
        DataTypeView::MapOf { key, value, .. } => {
            let all = fields_within(t, path);
            let keys = fields_within(*key, path);
            let values = fields_within(*value, path);
            let none = Seq::<LocatedField>::empty();
            let n = keys.len() as int;
            let part = fields_within(all[k].field.data_type, all[k].path);
            if k < n {
                lemma_followed_by_within_type(*key, path, k);
                assert(all[k] == keys[k]);
                lemma_holds_from_added(none, keys, values, k + 1, part);
                assert(none + keys + values =~= all);
            } else {
                let m = k - n;
                lemma_followed_by_within_type(*value, path, m);
                assert(all[k] == values[m]);
                lemma_holds_from_added(keys, values, none, m + 1, part);
                assert(keys + values + none =~= all);
            }
        },
    }
}

/// Where a field that is directly in the data type of another stands.
proof fn lemma_place_of_inner(
    schema: Seq<StructFieldView>,
    outer: LocatedField,
    inner: StructFieldView,
) -> (i: int)
    requires
        has_field(schema, outer),
        is_directly_in(outer.field.data_type, inner),
    ensures
        0 <= i < field_count(schema),
        schema_fields(schema)[i] == (LocatedField {
            field: inner,
            path: outer.path.push(inner.name),
        }),
        path_at(schema, i).len() > 1,
        0 <= enclosing_at(schema, i) < field_count(schema),
        schema_fields(schema)[enclosing_at(schema, i)] == outer,
{
    let none = Seq::<Seq<char>>::empty();
    let all = schema_fields(schema);
    let paths = schema_paths(schema);
    let x = LocatedField { field: inner, path: outer.path.push(inner.name) };
    let k = lemma_place_of(schema, outer);
    let within = fields_within(outer.field.data_type, outer.path);
    lemma_directly_in(outer.field.data_type, outer.path, inner);
    law_every_field_within_is_listed(outer.field.data_type, outer.path, x);
    let m = choose|m: int| 0 <= m < within.len() && within[m] == x;
    lemma_followed_by_within(schema, none, k);
    let part = all.subrange(k + 1, k + 1 + within.len());
    assert(part == within);
    let i = k + 1 + m;
    assert(all[i] == part[m]);
    lemma_all_fields_below(schema, none, k);
    assert(x.path.drop_last() =~= outer.path);
    assert forall|j: int| 0 <= j < all.len() implies #[trigger] paths[j] == all[j].path by {}
    assert forall|j: int| k < j < i implies #[trigger] paths[j] != paths[i].drop_last() by {
        assert(all[j] == part[j - k - 1]);
        lemma_fields_within_below(outer.field.data_type, outer.path, j - k - 1);
    }
    assert(encloses(paths, k, i));
    lemma_enclosing_unique(paths, k, i);
    i
}

/// A field directly in the data type of another one is reported as added exactly where no field of
/// the old schema has its id and some field of the old schema has the id of the other.
pub proof fn law_nested_addition(
    before: Seq<StructFieldView>,
    after: Seq<StructFieldView>,
    outer: LocatedField,
    inner: StructFieldView,
)
    requires
        schema_diff(before, after) is Ok,
        has_field(after, outer),
        is_directly_in(outer.field.data_type, inner),
    ensures
        schema_diff(before, after)->Ok_0.added_fields.contains(
            FieldChangeView { field: inner, path: outer.path.push(inner.name) },
        ) <==> !has_same_id(before, inner) && has_same_id(before, outer.field),
{
    let i = lemma_place_of_inner(after, outer, inner);
    law_added_exactly(before, after, i);
    lemma_has_same_id(before, inner);
    lemma_has_same_id(before, outer.field);
}

/// A field directly in the data type of another one is reported as removed exactly where no field of
/// the new schema has its id and some field of the new schema has the id of the other.
pub proof fn law_nested_removal(
    before: Seq<StructFieldView>,
    after: Seq<StructFieldView>,
    outer: LocatedField,
    inner: StructFieldView,
)
    requires
        schema_diff(before, after) is Ok,
        has_field(before, outer),
        is_directly_in(outer.field.data_type, inner),
    ensures
        schema_diff(before, after)->Ok_0.removed_fields.contains(
            FieldChangeView { field: inner, path: outer.path.push(inner.name) },
        ) <==> !has_same_id(after, inner) && has_same_id(after, outer.field),
{
    law_swap(before, after);
    law_nested_addition(after, before, outer, inner);
}

/// Only fields of the new schema are reported as added, only fields of the old one as removed, each
/// with an id that the other schema does not have, and each once.
pub proof fn law_only_fields_are_reported(
    before: Seq<StructFieldView>,
    after: Seq<StructFieldView>,
    c: FieldChangeView,
)
    requires
        schema_diff(before, after) is Ok,
    ensures
        ({
            let d = schema_diff(before, after)->Ok_0;
            let x = LocatedField { field: c.field, path: c.path };
            &&& d.added_fields.contains(c) ==> has_field(after, x) && !has_same_id(before, c.field)
            &&& d.removed_fields.contains(c) ==> has_field(before, x) && !has_same_id(
                after,
                c.field,
            )
            &&& d.added_fields.no_duplicates()
            &&& d.removed_fields.no_duplicates()
            &&& d.updated_fields.no_duplicates()
        }),
{
    law_nothing_else_reported(before, after);
    let d = schema_diff(before, after)->Ok_0;
    let x = LocatedField { field: c.field, path: c.path };
    lemma_has_same_id(before, c.field);
    lemma_has_same_id(after, c.field);
    if d.added_fields.contains(c) {
        let i = choose|i: int|
            0 <= i < field_count(after) && !has_id(before, id_at(after, i)) && c
                == #[trigger] change_at(after, i);
        lemma_field_at(after, i);
        assert(schema_fields(after)[i] == x);
    }
    if d.removed_fields.contains(c) {
        let j = choose|j: int|
            0 <= j < field_count(before) && !has_id(after, id_at(before, j)) && c
                == #[trigger] change_at(before, j);
        lemma_field_at(before, j);
        assert(schema_fields(before)[j] == x);
    }
}

/// Two fields with the same id are reported as updated exactly where they have changes, with all of
/// them, and neither is reported as added or removed.
pub proof fn law_update_of_two_fields(
    before: Seq<StructFieldView>,
    after: Seq<StructFieldView>,
    x: LocatedField,
    y: LocatedField,
)
    requires
        schema_diff(before, after) is Ok,
        has_field(before, x),
        has_field(after, y),
        field_id(x.field) == field_id(y.field),
    ensures
        ({
            let d = schema_diff(before, after)->Ok_0;
            let changes = field_changes(x.field, y.field);
            &&& d.updated_fields.contains(
                FieldUpdateView {
                    before: x.field,
                    after: y.field,
                    path: y.path,
                    change_types: changes,
                },
            ) <==> changes.len() > 0
            &&& !d.added_fields.contains(FieldChangeView { field: y.field, path: y.path })
            &&& !d.removed_fields.contains(FieldChangeView { field: x.field, path: x.path })
        }),
{
    let j = lemma_place_of(before, x);
    let i = lemma_place_of(after, y);
    law_updated(before, after, j, i);
}

/// Only two fields with the same id are reported as an update, and with changes.
pub proof fn law_only_two_fields_are_updated(
    before: Seq<StructFieldView>,
    after: Seq<StructFieldView>,
    u: FieldUpdateView,
)
    requires
        schema_diff(before, after) is Ok,
        schema_diff(before, after)->Ok_0.updated_fields.contains(u),
    ensures
        has_field(after, LocatedField { field: u.after, path: u.path }),
        exists|x: LocatedField| #[trigger]
            has_field(before, x) && x.field == u.before && field_id(x.field) == field_id(u.after),
        u.change_types == field_changes(u.before, u.after),
        u.change_types.len() > 0,
{
    let updated = schema_diff(before, after)->Ok_0.updated_fields;
    let k = choose|k: int| 0 <= k < updated.len() && updated[k] == u;
    law_no_other_updates(before, after, k);
    let (j, i) = choose|j: int, i: int|
        0 <= j < field_count(before) && 0 <= i < field_count(after) && id_at(before, j) == id_at(
            after,
            i,
        ) && u == #[trigger] update_at(before, after, j, i);
    law_updated(before, after, j, i);
    lemma_field_at(before, j);
    lemma_field_at(after, i);
    let x = schema_fields(before)[j];
    assert(schema_fields(after)[i] == (LocatedField { field: u.after, path: u.path }));
    assert(has_field(before, x) && x.field == u.before);
}

/// A field whose type became another primitive one is reported as updated, with a changed type among
/// its changes, and the diff is breaking.
pub proof fn law_changed_primitive_type_is_breaking(
    before: Seq<StructFieldView>,
    after: Seq<StructFieldView>,
    x: LocatedField,
    y: LocatedField,
    p: PrimitiveType,
    q: PrimitiveType,
)
    requires
        schema_diff(before, after) is Ok,
        has_field(before, x),
        has_field(after, y),
        field_id(x.field) == field_id(y.field),
        x.field.data_type == DataTypeView::Primitive(p),
        y.field.data_type == DataTypeView::Primitive(q),
        p != q,
    ensures
        exists|u: FieldUpdateView| #[trigger]
            schema_diff(before, after)->Ok_0.updated_fields.contains(u) && u.before == x.field
                && u.after == y.field && u.path == y.path && u.change_types.contains(
                FieldChangeType::TypeChanged,
            ),
        schema_diff(before, after)->Ok_0.has_breaking_changes,
{
    let d = schema_diff(before, after)->Ok_0;
    let u = FieldUpdateView {
        before: x.field,
        after: y.field,
        path: y.path,
        change_types: field_changes(x.field, y.field),
    };
    law_changed_primitive_type_is_reported(x.field, y.field, p, q);
    law_update_of_two_fields(before, after, x, y);
    assert(d.updated_fields.contains(u));
    law_breaking_diff(before, after);
    let k = choose|k: int| 0 <= k < d.updated_fields.len() && d.updated_fields[k] == u;
    assert(d.updated_fields[k].change_types.contains(FieldChangeType::TypeChanged));
}

/// A diff is breaking exactly where it reports a removed field, an added field that is required, or
/// an updated field of which the type or the metadata was changed or a nullability tightened.
pub proof fn law_breaking_diff(before: Seq<StructFieldView>, after: Seq<StructFieldView>)
    requires
        schema_diff(before, after) is Ok,
    ensures
        ({
            let d = schema_diff(before, after)->Ok_0;
            d.has_breaking_changes <==> {
                ||| d.removed_fields.len() > 0
                ||| exists|i: int|
                    0 <= i < d.added_fields.len() && !(
                    #[trigger] d.added_fields[i]).field.nullable
                ||| exists|i: int|
                    0 <= i < d.updated_fields.len() && ((
                    #[trigger] d.updated_fields[i]).change_types.contains(
                        FieldChangeType::TypeChanged,
                    ) || d.updated_fields[i].change_types.contains(
                        FieldChangeType::NullabilityTightened,
                    ) || d.updated_fields[i].change_types.contains(
                        FieldChangeType::ContainerNullabilityTightened,
                    ) || d.updated_fields[i].change_types.contains(FieldChangeType::MetadataChanged))
            }
        }),
{
    let d = schema_diff(before, after)->Ok_0;
    law_breaking(before, after);
    law_breaking_changes(d.added_fields, d.removed_fields, d.updated_fields);
}

/// Adding a required field is breaking, at the top level and directly in the data type of a field
/// that the old schema has.
pub proof fn law_required_field_is_breaking(
    before: Seq<StructFieldView>,
    after: Seq<StructFieldView>,
    t: int,
    outer: LocatedField,
    inner: StructFieldView,
)
    requires
        schema_diff(before, after) is Ok,
    ensures
        0 <= t < after.len() && !has_same_id(before, after[t]) && !after[t].nullable
            ==> schema_diff(before, after)->Ok_0.has_breaking_changes,
        has_field(after, outer) && is_directly_in(outer.field.data_type, inner) && has_same_id(
            before,
            outer.field,
        ) && !has_same_id(before, inner) && !inner.nullable ==> schema_diff(
            before,
            after,
        )->Ok_0.has_breaking_changes,
{
    let added = schema_diff(before, after)->Ok_0.added_fields;
    law_breaking_diff(before, after);
    if 0 <= t < after.len() && !has_same_id(before, after[t]) && !after[t].nullable {
        law_top_level_addition(before, after, t);
        let c = FieldChangeView { field: after[t], path: seq![after[t].name] };
        let k = choose|k: int| 0 <= k < added.len() && added[k] == c;
        assert(!added[k].field.nullable);
    }
    if has_field(after, outer) && is_directly_in(outer.field.data_type, inner) && has_same_id(
        before,
        outer.field,
    ) && !has_same_id(before, inner) && !inner.nullable {
        law_nested_addition(before, after, outer, inner);
        let c = FieldChangeView { field: inner, path: outer.path.push(inner.name) };
        let k = choose|k: int| 0 <= k < added.len() && added[k] == c;
        assert(!added[k].field.nullable);
    }
}

/// Removing a field is breaking, at any nesting level.
pub proof fn law_removed_field_is_breaking(
    before: Seq<StructFieldView>,
    after: Seq<StructFieldView>,
    x: LocatedField,
)
    requires
        schema_diff(before, after) is Ok,
        has_field(before, x),
        !has_same_id(after, x.field),
    ensures
        schema_diff(before, after)->Ok_0.removed_fields.len() > 0,
        schema_diff(before, after)->Ok_0.has_breaking_changes,
{
    let j = lemma_place_of(before, x);
    lemma_has_same_id(after, x.field);
    law_removed(before, after, j);
    law_breaking_diff(before, after);
}

/// A field with a new name is reported as renamed, at its new path.
pub proof fn law_renamed_field_is_reported(
    before: Seq<StructFieldView>,
    after: Seq<StructFieldView>,
    x: LocatedField,
    y: LocatedField,
)
    requires
        schema_diff(before, after) is Ok,
        has_field(before, x),
        has_field(after, y),
        field_id(x.field) == field_id(y.field),
        x.field.name != y.field.name,
    ensures
        exists|u: FieldUpdateView| #[trigger]
            schema_diff(before, after)->Ok_0.updated_fields.contains(u) && u.before == x.field
                && u.after == y.field && u.path == y.path && u.change_types.contains(
                FieldChangeType::Renamed,
            ),
{
    let d = schema_diff(before, after)->Ok_0;
    let u = FieldUpdateView {
        before: x.field,
        after: y.field,
        path: y.path,
        change_types: field_changes(x.field, y.field),
    };
    law_changes_of_a_field(x.field, y.field);
    law_update_of_two_fields(before, after, x, y);
    assert(d.updated_fields.contains(u));
}

} // verus!
