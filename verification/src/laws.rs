//! What holds of diffs as a whole.

use crate::ancestors::{
    change_paths, enclosing, encloses, has_ancestor_in, lemma_enclosing_unique, parent_not_in,
    without_descendants,
};
use crate::change::{
    any_breaking, has_breaking, is_nested_change, is_nested_update, is_top_level_change, is_top_level_update,
    FieldChange, FieldChangeType, FieldChangeView, FieldUpdate, FieldUpdateView, SchemaDiffView,
};
use crate::compare::{
    as_seq, container_nullability_change, data_type_changes, field_changes, field_id,
    field_nullability_change, field_update, is_reserved_key, lemma_same_data_type, physical_name_of, same_outside_structs, unreserved,
    FieldWithPathView,
};
use crate::diff::{
    all_fields, change_of, collected, duplicate_id_error, field_paths, fields_diff, fields_within,
    find, first_name_error, ids_distinct, indices, is_absent, is_first_name_error, is_first_repeat,
    is_first_without_id, is_outermost_absent, lemma_all_fields_below, lemma_all_with_ids,
    lemma_fields_within_below, lemma_find, name_error, only_in, schema_diff, update_from,
    LocatedField,
};
use crate::error::SchemaDiffErrorView;
use crate::metadata::MetadataValueView;
use crate::schema::{DataTypeView, StructFieldView};
use crate::seqs::{
    lemma_filter_all, lemma_filter_map_contains, lemma_filter_map_filter,
    lemma_filter_map_no_duplicates, lemma_filter_map_none, lemma_filter_no_duplicates,
    lemma_filter_none, lemma_filter_parts,
};
use vstd::prelude::*;

verus! {

/// All the fields of a schema, at every nesting level.
pub open spec fn schema_fields(schema: Seq<StructFieldView>) -> Seq<LocatedField> {
    all_fields(schema, seq![])
}

/// The number of fields of a schema, at every nesting level.
pub open spec fn field_count(schema: Seq<StructFieldView>) -> nat {
    schema_fields(schema).len()
}

/// The field at `i` among all those of a schema.
pub open spec fn field_at(schema: Seq<StructFieldView>, i: int) -> StructFieldView {
    schema_fields(schema)[i].field
}

/// The path of the field at `i` among all those of a schema.
pub open spec fn path_at(schema: Seq<StructFieldView>, i: int) -> Seq<Seq<char>> {
    schema_fields(schema)[i].path
}

/// The id of the field at `i` among all those of a schema.
pub open spec fn id_at(schema: Seq<StructFieldView>, i: int) -> Option<i64> {
    field_id(field_at(schema, i))
}

/// The field at `i` with its path and its id.
pub open spec fn with_id_at(schema: Seq<StructFieldView>, i: int) -> FieldWithPathView {
    FieldWithPathView {
        field: field_at(schema, i),
        path: path_at(schema, i),
        field_id: id_at(schema, i)->0,
    }
}

/// The report that the field at `i` was added or removed.
pub open spec fn change_at(schema: Seq<StructFieldView>, i: int) -> FieldChangeView {
    FieldChangeView { field: field_at(schema, i), path: path_at(schema, i) }
}

/// The report of the changes from the field at `j` of the old schema to the field at `i` of the new
/// one.
pub open spec fn update_at(
    before: Seq<StructFieldView>,
    after: Seq<StructFieldView>,
    j: int,
    i: int,
) -> FieldUpdateView {
    FieldUpdateView {
        before: field_at(before, j),
        after: field_at(after, i),
        path: path_at(after, i),
        change_types: field_changes(field_at(before, j), field_at(after, i)),
    }
}

/// The paths of all the fields of a schema.
pub open spec fn schema_paths(schema: Seq<StructFieldView>) -> Seq<Seq<Seq<char>>> {
    schema_fields(schema).map_values(|f: LocatedField| f.path)
}

/// Where, among all the fields of a schema, the one stands that immediately encloses the nested
/// field at `i`.
pub open spec fn enclosing_at(schema: Seq<StructFieldView>, i: int) -> int {
    enclosing(schema_paths(schema), i)->0
}

/// The field at `i` is inside the one at `k`: it is immediately enclosed by it, or by a field that is
/// inside it.
pub open spec fn is_inside(schema: Seq<StructFieldView>, i: int, k: int) -> bool
    decreases i,
{
    let e = enclosing_at(schema, i);
    path_at(schema, i).len() > 1 && 0 <= e < i && (e == k || is_inside(schema, e, k))
}

/// Some field of the schema, at whatever level, has this id.
pub open spec fn has_id(schema: Seq<StructFieldView>, id: Option<i64>) -> bool {
    exists|i: int| 0 <= i < field_count(schema) && #[trigger] id_at(schema, i) == id
}

/// Every field has an id, and no two have the same.
pub open spec fn ids_valid(schema: Seq<StructFieldView>) -> bool {
    &&& forall|i: int| 0 <= i < field_count(schema) ==> #[trigger] id_at(schema, i) is Some
    &&& forall|i: int, j: int|
        0 <= i < j < field_count(schema) ==> #[trigger] id_at(schema, i) != #[trigger] id_at(
            schema,
            j,
        )
}

/// Two fields with the same id have the same physical name.
pub open spec fn physical_names_kept(
    before: Seq<StructFieldView>,
    after: Seq<StructFieldView>,
) -> bool {
    forall|j: int, i: int|
        0 <= j < field_count(before) && 0 <= i < field_count(after) && #[trigger] id_at(before, j)
            == #[trigger] id_at(after, i) ==> physical_name_of(field_at(before, j)) is Some
            && physical_name_of(field_at(before, j)) == physical_name_of(field_at(after, i))
}

/// What is collected from a schema.
pub(crate) proof fn lemma_collected(schema: Seq<StructFieldView>)
    ensures
        collected(schema, seq![]) is Ok <==> (forall|i: int|
            0 <= i < field_count(schema) ==> #[trigger] id_at(schema, i) is Some),
        collected(schema, seq![]) is Ok ==> {
            let fields = collected(schema, seq![])->Ok_0;
            &&& fields.len() == field_count(schema)
            &&& forall|i: int|
                0 <= i < fields.len() ==> #[trigger] fields[i] == with_id_at(schema, i)
            &&& field_paths(fields) == schema_paths(schema)
        },
        forall|i: int| 0 <= i < field_count(schema) ==> (#[trigger] path_at(schema, i)).len() >= 1,
{
    lemma_all_with_ids(schema_fields(schema));
    assert forall|i: int| 0 <= i < field_count(schema) implies (#[trigger] path_at(
        schema,
        i,
    )).len() >= 1 by {
        lemma_all_fields_below(schema, seq![], i);
    }
    if collected(schema, seq![]) is Ok {
        assert forall|i: int| 0 <= i < field_count(schema) implies #[trigger] id_at(
            schema,
            i,
        ) is Some by {
            assert(field_id(schema_fields(schema)[i].field) is Some);
        }
        assert(field_paths(collected(schema, seq![])->Ok_0) =~= schema_paths(schema));
    } else {
        let i = choose|i: int| is_first_without_id(schema_fields(schema), i);
        assert(id_at(schema, i) is None) by {
            assert(is_first_without_id(schema_fields(schema), i));
        }
    }
}

proof fn lemma_first_repeat_exists(fields: Seq<FieldWithPathView>)
    requires
        !ids_distinct(fields),
    ensures
        exists|i: int, j: int| is_first_repeat(fields, i, j),
    decreases fields.len(),
{
    let rest = fields.drop_last();
    let n = fields.len() - 1;
    if ids_distinct(rest) {
        let (i, j) = choose|i: int, j: int|
            0 <= i < j < fields.len() && (#[trigger] fields[i]).field_id == (
            #[trigger] fields[j]).field_id;
        if j < n {
            assert(rest[i].field_id != rest[j].field_id);
        }
        assert(fields.take(j) =~= rest);
        assert(is_first_repeat(fields, i, j));
    } else {
        lemma_first_repeat_exists(rest);
        let (i, j) = choose|i: int, j: int| is_first_repeat(rest, i, j);
        assert(fields.take(j) =~= rest.take(j));
        assert(rest[i] == fields[i] && rest[j] == fields[j]);
        assert(is_first_repeat(fields, i, j));
    }
}

/// Ids are refused exactly where they repeat.
pub(crate) proof fn lemma_duplicate_id_error(fields: Seq<FieldWithPathView>)
    ensures
        duplicate_id_error(fields) is None <==> ids_distinct(fields),
{
    if ids_distinct(fields) {
        assert forall|i: int, j: int| !is_first_repeat(fields, i, j) by {}
    } else {
        lemma_first_repeat_exists(fields);
    }
}

proof fn lemma_first_name_error_exists(
    before: Seq<FieldWithPathView>,
    after: Seq<FieldWithPathView>,
    i: int,
)
    requires
        0 <= i < after.len(),
        name_error(before, after[i]) is Some,
    ensures
        exists|k: int| is_first_name_error(before, after, k),
    decreases i,
{
    if is_first_name_error(before, after, i) {
    } else {
        let j = choose|j: int| 0 <= j < i && name_error(before, #[trigger] after[j]) is Some;
        lemma_first_name_error_exists(before, after, j);
    }
}

/// Physical names are refused exactly where one is missing or not kept.
pub(crate) proof fn lemma_first_name_error(before: Seq<FieldWithPathView>, after: Seq<FieldWithPathView>)
    ensures
        first_name_error(before, after) is None <==> forall|i: int|
            0 <= i < after.len() ==> name_error(before, #[trigger] after[i]) is None,
{
    if exists|i: int| 0 <= i < after.len() && name_error(before, #[trigger] after[i]) is Some {
        let i = choose|i: int|
            0 <= i < after.len() && name_error(before, #[trigger] after[i]) is Some;
        lemma_first_name_error_exists(before, after, i);
    } else {
        assert forall|i: int| !is_first_name_error(before, after, i) by {}
    }
}

/// The collected fields of a schema with valid ids, by their ids.
proof fn lemma_collected_ids(schema: Seq<StructFieldView>)
    requires
        collected(schema, seq![]) is Ok,
    ensures
        ids_distinct(collected(schema, seq![])->Ok_0) <==> ids_valid(schema),
{
    lemma_collected(schema);
    let fields = collected(schema, seq![])->Ok_0;
    if ids_distinct(fields) {
        assert forall|i: int, j: int| 0 <= i < j < field_count(schema) implies #[trigger] id_at(
            schema,
            i,
        ) != #[trigger] id_at(schema, j) by {
            assert(fields[i].field_id != fields[j].field_id);
            assert(id_at(schema, i) is Some && id_at(schema, j) is Some);
        }
    }
    if ids_valid(schema) {
        assert forall|i: int, j: int| 0 <= i < j < fields.len() implies (
        #[trigger] fields[i]).field_id != (#[trigger] fields[j]).field_id by {
            assert(id_at(schema, i) != id_at(schema, j));
        }
    }
}

/// Two schemas can be compared exactly where, in each, every field at every nesting level has an id
/// that no other field has, and fields with the same id have the same physical name.
pub proof fn law_comparable(before: Seq<StructFieldView>, after: Seq<StructFieldView>)
    ensures
        schema_diff(before, after) is Ok <==> ids_valid(before) && ids_valid(after)
            && physical_names_kept(before, after),
{
    lemma_collected(before);
    lemma_collected(after);
    if collected(before, seq![]) is Ok && collected(after, seq![]) is Ok {
        let b = collected(before, seq![])->Ok_0;
        let a = collected(after, seq![])->Ok_0;
        lemma_collected_ids(before);
        lemma_collected_ids(after);
        lemma_duplicate_id_error(b);
        lemma_duplicate_id_error(a);
        lemma_first_name_error(b, a);
        if ids_valid(before) && ids_valid(after) {
            if physical_names_kept(before, after) {
                assert forall|i: int| 0 <= i < a.len() implies name_error(b, #[trigger] a[i]) is None by {
                    if find(b, a[i].field_id) is Some {
                        let j = choose|j: int|
                            0 <= j < b.len() && (#[trigger] b[j]).field_id == a[i].field_id;
                        lemma_find(b, j);
                        assert(id_at(before, j) is Some && id_at(after, i) is Some);
                        assert(id_at(before, j) == id_at(after, i));
                    }
                }
            }
            if first_name_error(b, a) is None {
                assert forall|j: int, i: int|
                    0 <= j < field_count(before) && 0 <= i < field_count(after) && #[trigger] id_at(
                        before,
                        j,
                    ) == #[trigger] id_at(after, i) implies physical_name_of(
                    field_at(before, j),
                ) is Some && physical_name_of(field_at(before, j)) == physical_name_of(
                    field_at(after, i),
                ) by {
                    lemma_find(b, j);
                    assert(b[j].field_id == a[i].field_id);
                    assert(name_error(b, a[i]) is None);
                }
            }
        }
    }
}

/// The members of `only_in`.
proof fn lemma_only_in(
    fields: Seq<FieldWithPathView>,
    others: Seq<FieldWithPathView>,
    c: FieldChangeView,
)
    ensures
        only_in(fields, others).contains(c) <==> exists|i: int|
            0 <= i < fields.len() && is_outermost_absent(fields, others)(i)
                && #[trigger] change_of(fields)(i) == c,
{
    let all = indices(fields.len());
    let wanted = is_outermost_absent(fields, others);
    let change = change_of(fields);
    let kept = all.filter(wanted);
    if only_in(fields, others).contains(c) {
        let k = choose|k: int| 0 <= k < kept.len() && only_in(fields, others)[k] == c;
        all.lemma_filter_pred(wanted, k);
        assert(kept.contains(kept[k]));
        all.lemma_filter_contains_rev(wanted, kept[k]);
        assert(change(kept[k]) == c);
    }
    if exists|i: int|
        0 <= i < fields.len() && wanted(i) && #[trigger] change(i) == c {
        let i = choose|i: int| 0 <= i < fields.len() && wanted(i) && #[trigger] change(i) == c;
        assert(all[i] == i);
        all.lemma_filter_contains(wanted, i);
        let k = choose|k: int| 0 <= k < kept.len() && kept[k] == i;
        assert(only_in(fields, others)[k] == c);
    }
}

/// Changes to top-level fields are all kept: none has the parent path of another.
pub proof fn law_top_level_changes_are_kept(changes: Seq<FieldChangeView>)
    requires
        forall|i: int| 0 <= i < changes.len() ==> (#[trigger] changes[i]).path.len() == 1,
    ensures
        without_descendants(changes) == changes,
{
    lemma_filter_all(changes, parent_not_in(changes));
}

/// What the diff of two comparable schemas is.
pub(crate) proof fn lemma_diff(before: Seq<StructFieldView>, after: Seq<StructFieldView>)
    requires
        schema_diff(before, after) is Ok,
    ensures
        ({
            let b = collected(before, seq![])->Ok_0;
            let a = collected(after, seq![])->Ok_0;
            let d = schema_diff(before, after)->Ok_0;
            &&& collected(before, seq![]) is Ok
            &&& collected(after, seq![]) is Ok
            &&& ids_distinct(b)
            &&& ids_distinct(a)
            &&& ids_valid(before)
            &&& ids_valid(after)
            &&& b.len() == field_count(before)
            &&& a.len() == field_count(after)
            &&& forall|i: int| 0 <= i < b.len() ==> #[trigger] b[i] == with_id_at(before, i)
            &&& forall|i: int| 0 <= i < a.len() ==> #[trigger] a[i] == with_id_at(after, i)
            &&& forall|i: int| 0 <= i < b.len() ==> (#[trigger] b[i]).path.len() >= 1
            &&& forall|i: int| 0 <= i < a.len() ==> (#[trigger] a[i]).path.len() >= 1
            &&& fields_diff(b, a) == Ok::<_, SchemaDiffErrorView>(d)
            &&& d.added_fields == only_in(a, b)
            &&& d.removed_fields == only_in(b, a)
            &&& d.updated_fields == a.filter_map(update_from(b))
            &&& d.has_breaking_changes == has_breaking(
                d.added_fields,
                d.removed_fields,
                d.updated_fields,
            )
        }),
{
    law_comparable(before, after);
    lemma_collected(before);
    lemma_collected(after);
    let b = collected(before, seq![])->Ok_0;
    let a = collected(after, seq![])->Ok_0;
    lemma_duplicate_id_error(b);
    lemma_duplicate_id_error(a);
    assert forall|i: int| 0 <= i < b.len() implies (#[trigger] b[i]).path.len() >= 1 by {
        assert(path_at(before, i).len() >= 1);
    }
    assert forall|i: int| 0 <= i < a.len() implies (#[trigger] a[i]).path.len() >= 1 by {
        assert(path_at(after, i).len() >= 1);
    }
}

/// The id of a field is among the collected fields of a schema exactly where the schema has it.
proof fn lemma_has_id(schema: Seq<StructFieldView>, id: i64)
    requires
        collected(schema, seq![]) is Ok,
    ensures
        find(collected(schema, seq![])->Ok_0, id) is Some <==> has_id(schema, Some(id)),
{
    lemma_collected(schema);
    let fields = collected(schema, seq![])->Ok_0;
    if find(fields, id) is Some {
        let i = choose|i: int| 0 <= i < fields.len() && (#[trigger] fields[i]).field_id == id;
        assert(id_at(schema, i) is Some);
        assert(id_at(schema, i) == Some(id));
    }
    if has_id(schema, Some(id)) {
        let i = choose|i: int|
            0 <= i < field_count(schema) && #[trigger] id_at(schema, i) == Some(id);
        assert(fields[i].field_id == id);
    }
}

/// The field at `i` has an id that the other schema does not have and, unless it is at the top
/// level, the field that immediately encloses it has one that the other schema has.
spec fn is_reported(schema: Seq<StructFieldView>, others: Seq<StructFieldView>, i: int) -> bool {
    &&& !has_id(others, id_at(schema, i))
    &&& path_at(schema, i).len() == 1 || has_id(others, id_at(schema, enclosing_at(schema, i)))
}

/// The fields that are reported, by the ids of the schemas.
proof fn lemma_is_reported(schema: Seq<StructFieldView>, others: Seq<StructFieldView>, i: int)
    requires
        collected(schema, seq![]) is Ok,
        collected(others, seq![]) is Ok,
        0 <= i < field_count(schema),
    ensures
        is_outermost_absent(collected(schema, seq![])->Ok_0, collected(others, seq![])->Ok_0)(i)
            == is_reported(schema, others, i),
        is_absent(collected(schema, seq![])->Ok_0, collected(others, seq![])->Ok_0)(i) == !has_id(
            others,
            id_at(schema, i),
        ),
{
    lemma_collected(schema);
    let f = collected(schema, seq![])->Ok_0;
    assert(f[i] == with_id_at(schema, i));
    assert(id_at(schema, i) is Some);
    lemma_has_id(others, f[i].field_id);
    assert(path_at(schema, i).len() >= 1);
    if path_at(schema, i).len() > 1 {
        law_enclosing_field(schema, i);
        let k = enclosing_at(schema, i);
        assert(f[k] == with_id_at(schema, k));
        assert(id_at(schema, k) is Some);
        lemma_has_id(others, f[k].field_id);
    } else {
        assert(schema_paths(schema)[i] == path_at(schema, i));
        assert forall|k: int| !encloses(schema_paths(schema), k, i) by {}
    }
}

/// The reports of additions, and those of removals with the schemas exchanged.
proof fn lemma_reported(
    schema: Seq<StructFieldView>,
    others: Seq<StructFieldView>,
    c: FieldChangeView,
)
    requires
        collected(schema, seq![]) is Ok,
        collected(others, seq![]) is Ok,
    ensures
        only_in(collected(schema, seq![])->Ok_0, collected(others, seq![])->Ok_0).contains(c)
            <==> exists|i: int|
            0 <= i < field_count(schema) && is_reported(schema, others, i) && c
                == #[trigger] change_at(schema, i),
{
    lemma_collected(schema);
    let f = collected(schema, seq![])->Ok_0;
    let o = collected(others, seq![])->Ok_0;
    lemma_only_in(f, o, c);
    if only_in(f, o).contains(c) {
        let i = choose|i: int|
            0 <= i < f.len() && is_outermost_absent(f, o)(i) && #[trigger] change_of(f)(i) == c;
        lemma_is_reported(schema, others, i);
        assert(f[i] == with_id_at(schema, i));
        assert(change_at(schema, i) == c);
    }
    if exists|i: int|
        0 <= i < field_count(schema) && is_reported(schema, others, i) && c == #[trigger] change_at(
            schema,
            i,
        ) {
        let i = choose|i: int|
            0 <= i < field_count(schema) && is_reported(schema, others, i) && c
                == #[trigger] change_at(schema, i);
        lemma_is_reported(schema, others, i);
        assert(f[i] == with_id_at(schema, i));
        assert(change_of(f)(i) == c);
    }
}

/// A field is reported as added exactly where its id is not in the old schema and, unless it is at
/// the top level, the id of the field that immediately encloses it is.
pub proof fn law_added_exactly(before: Seq<StructFieldView>, after: Seq<StructFieldView>, i: int)
    requires
        schema_diff(before, after) is Ok,
        0 <= i < field_count(after),
    ensures
        schema_diff(before, after)->Ok_0.added_fields.contains(change_at(after, i)) <==> {
            &&& !has_id(before, id_at(after, i))
            &&& path_at(after, i).len() == 1 || has_id(
                before,
                id_at(after, enclosing_at(after, i)),
            )
        },
{
    lemma_diff(before, after);
    let added = schema_diff(before, after)->Ok_0.added_fields;
    lemma_reported(after, before, change_at(after, i));
    if added.contains(change_at(after, i)) {
        let k = choose|k: int|
            0 <= k < field_count(after) && is_reported(after, before, k) && change_at(after, i)
                == #[trigger] change_at(after, k);
        assert(id_at(after, k) == id_at(after, i));
        assert(k == i) by {
            if k < i {
                assert(id_at(after, k) != id_at(after, i));
            } else if i < k {
                assert(id_at(after, i) != id_at(after, k));
            }
        }
    }
}

/// A field is reported as removed exactly where its id is not in the new schema and, unless it is at
/// the top level, the id of the field that immediately enclosed it is.
pub proof fn law_removed_exactly(before: Seq<StructFieldView>, after: Seq<StructFieldView>, j: int)
    requires
        schema_diff(before, after) is Ok,
        0 <= j < field_count(before),
    ensures
        schema_diff(before, after)->Ok_0.removed_fields.contains(change_at(before, j)) <==> {
            &&& !has_id(after, id_at(before, j))
            &&& path_at(before, j).len() == 1 || has_id(
                after,
                id_at(before, enclosing_at(before, j)),
            )
        },
{
    law_swap(before, after);
    law_added_exactly(after, before, j);
}

/// No addition is lost: a field whose id is not in the old schema is reported as added, or is inside
/// a field that is.
pub proof fn law_added(before: Seq<StructFieldView>, after: Seq<StructFieldView>, i: int)
    requires
        schema_diff(before, after) is Ok,
        0 <= i < field_count(after),
        !has_id(before, id_at(after, i)),
    ensures
        ({
            let added = schema_diff(before, after)->Ok_0.added_fields;
            ||| added.contains(change_at(after, i))
            ||| exists|k: int|
                0 <= k < field_count(after) && is_inside(after, i, k) && added.contains(
                    #[trigger] change_at(after, k),
                )
        }),
    decreases i,
{
    let added = schema_diff(before, after)->Ok_0.added_fields;
    law_added_exactly(before, after, i);
    if !added.contains(change_at(after, i)) {
        lemma_collected(after);
        assert(path_at(after, i).len() >= 1);
        law_enclosing_field(after, i);
        let e = enclosing_at(after, i);
        law_added(before, after, e);
        assert(is_inside(after, i, e));
        if !added.contains(change_at(after, e)) {
            let k = choose|k: int|
                0 <= k < field_count(after) && is_inside(after, e, k) && added.contains(
                    #[trigger] change_at(after, k),
                );
            assert(is_inside(after, i, k));
        }
    }
}

/// No removal is lost: a field whose id is not in the new schema is reported as removed, or was
/// inside a field that is.
pub proof fn law_removed(before: Seq<StructFieldView>, after: Seq<StructFieldView>, j: int)
    requires
        schema_diff(before, after) is Ok,
        0 <= j < field_count(before),
        !has_id(after, id_at(before, j)),
    ensures
        ({
            let removed = schema_diff(before, after)->Ok_0.removed_fields;
            ||| removed.contains(change_at(before, j))
            ||| exists|k: int|
                0 <= k < field_count(before) && is_inside(before, j, k) && removed.contains(
                    #[trigger] change_at(before, k),
                )
        }),
{
    law_swap(before, after);
    law_added(after, before, j);
}

/// Adding and removing are opposite: with the schemas exchanged, what was added is removed and
/// what was removed is added. Whether the schemas can be compared does not change.
pub proof fn law_swap(before: Seq<StructFieldView>, after: Seq<StructFieldView>)
    ensures
        schema_diff(before, after) is Ok <==> schema_diff(after, before) is Ok,
        schema_diff(before, after) is Ok ==> {
            let there = schema_diff(before, after)->Ok_0;
            let back = schema_diff(after, before)->Ok_0;
            &&& there.added_fields == back.removed_fields
            &&& there.removed_fields == back.added_fields
        },
{
    law_comparable(before, after);
    law_comparable(after, before);
    assert(physical_names_kept(before, after) ==> physical_names_kept(after, before));
    assert(physical_names_kept(after, before) ==> physical_names_kept(before, after));
    if schema_diff(before, after) is Ok {
        lemma_diff(before, after);
        lemma_diff(after, before);
    }
}

/// Every reported addition is of a field of the new schema whose id the old one does not have,
/// every removal of a field of the old schema whose id the new one does not have, and no report
/// comes twice.
pub proof fn law_nothing_else_reported(before: Seq<StructFieldView>, after: Seq<StructFieldView>)
    requires
        schema_diff(before, after) is Ok,
    ensures
        ({
            let d = schema_diff(before, after)->Ok_0;
            &&& forall|c: FieldChangeView| #[trigger]
                d.added_fields.contains(c) ==> exists|i: int|
                    0 <= i < field_count(after) && !has_id(before, id_at(after, i)) && c
                        == #[trigger] change_at(after, i)
            &&& forall|c: FieldChangeView| #[trigger]
                d.removed_fields.contains(c) ==> exists|j: int|
                    0 <= j < field_count(before) && !has_id(after, id_at(before, j)) && c
                        == #[trigger] change_at(before, j)
            &&& d.added_fields.no_duplicates()
            &&& d.removed_fields.no_duplicates()
            &&& d.updated_fields.no_duplicates()
        }),
{
    lemma_diff(before, after);
    let b = collected(before, seq![])->Ok_0;
    let a = collected(after, seq![])->Ok_0;
    let d = schema_diff(before, after)->Ok_0;
    assert forall|c: FieldChangeView| #[trigger] d.added_fields.contains(c) implies exists|i: int|
        0 <= i < field_count(after) && !has_id(before, id_at(after, i)) && c == #[trigger] change_at(
            after,
            i,
        ) by {
        lemma_reported(after, before, c);
    }
    assert forall|c: FieldChangeView| #[trigger] d.removed_fields.contains(c) implies exists|j: int|
        0 <= j < field_count(before) && !has_id(after, id_at(before, j)) && c
            == #[trigger] change_at(before, j) by {
        lemma_reported(before, after, c);
    }
    lemma_only_in_no_duplicates(after, a, b);
    lemma_only_in_no_duplicates(before, b, a);
    let f = update_from(b);
    assert forall|i: int, j: int| 0 <= i < j < a.len() && f(#[trigger] a[i]) is Some implies f(a[i])
        != f(#[trigger] a[j]) by {
        assert(a[i].field_id != a[j].field_id);
        assert(a[i] == with_id_at(after, i));
        assert(a[j] == with_id_at(after, j));
    }
    lemma_filter_map_no_duplicates(a, f);
}

proof fn lemma_only_in_no_duplicates(
    schema: Seq<StructFieldView>,
    fields: Seq<FieldWithPathView>,
    others: Seq<FieldWithPathView>,
)
    requires
        ids_distinct(fields),
        fields.len() == field_count(schema),
        forall|i: int| 0 <= i < fields.len() ==> #[trigger] fields[i] == with_id_at(schema, i),
    ensures
        only_in(fields, others).no_duplicates(),
{
    let all = indices(fields.len());
    let wanted = is_outermost_absent(fields, others);
    let kept = all.filter(wanted);
    lemma_filter_no_duplicates(all, wanted);
    assert forall|i: int, j: int| 0 <= i < kept.len() && 0 <= j < kept.len() && i != j implies
        change_of(fields)(kept[i]) != change_of(fields)(kept[j]) by {
        assert(kept.contains(kept[i]));
        assert(kept.contains(kept[j]));
        all.lemma_filter_contains_rev(wanted, kept[i]);
        all.lemma_filter_contains_rev(wanted, kept[j]);
        let x = kept[i];
        let y = kept[j];
        assert(fields[x] == with_id_at(schema, x));
        assert(fields[y] == with_id_at(schema, y));
        if x < y {
            assert(fields[x].field_id != fields[y].field_id);
        } else {
            assert(fields[y].field_id != fields[x].field_id);
        }
    }
}

/// Two fields with the same id, at whatever levels, are reported as one updated field exactly where
/// something about them differs, with all that differs, and are reported neither as added nor as
/// removed.
pub proof fn law_updated(
    before: Seq<StructFieldView>,
    after: Seq<StructFieldView>,
    j: int,
    i: int,
)
    requires
        schema_diff(before, after) is Ok,
        0 <= j < field_count(before),
        0 <= i < field_count(after),
        id_at(before, j) == id_at(after, i),
    ensures
        ({
            let d = schema_diff(before, after)->Ok_0;
            &&& d.updated_fields.contains(update_at(before, after, j, i)) <==> field_changes(
                field_at(before, j),
                field_at(after, i),
            ).len() > 0
            &&& !d.added_fields.contains(change_at(after, i))
            &&& !d.removed_fields.contains(change_at(before, j))
        }),
{
    lemma_diff(before, after);
    law_added_exactly(before, after, i);
    law_removed_exactly(before, after, j);
    let b = collected(before, seq![])->Ok_0;
    let a = collected(after, seq![])->Ok_0;
    let d = schema_diff(before, after)->Ok_0;
    let f = update_from(b);
    lemma_find(b, j);
    assert(b[j] == with_id_at(before, j));
    assert(a[i] == with_id_at(after, i));
    assert(has_id(before, id_at(after, i)));
    assert(has_id(after, id_at(before, j)));
    if field_changes(field_at(before, j), field_at(after, i)).len() > 0 {
        assert(f(a[i]) == Some(update_at(before, after, j, i)));
        lemma_filter_map_contains(a, f, i);
    }
    if d.updated_fields.contains(update_at(before, after, j, i)) {
        a.lemma_filter_map_contains(f, update_at(before, after, j, i));
        let t = choose|t: FieldWithPathView| #[trigger]
            a.contains(t) && f(t) == Some(update_at(before, after, j, i));
        assert(find(b, t.field_id) is Some);
    }
}

/// Every reported update is of two fields with the same id.
pub proof fn law_no_other_updates(
    before: Seq<StructFieldView>,
    after: Seq<StructFieldView>,
    k: int,
)
    requires
        schema_diff(before, after) is Ok,
        0 <= k < schema_diff(before, after)->Ok_0.updated_fields.len(),
    ensures
        exists|j: int, i: int|
            0 <= j < field_count(before) && 0 <= i < field_count(after) && id_at(before, j)
                == id_at(after, i) && schema_diff(before, after)->Ok_0.updated_fields[k]
                == #[trigger] update_at(before, after, j, i),
{
    lemma_diff(before, after);
    let b = collected(before, seq![])->Ok_0;
    let a = collected(after, seq![])->Ok_0;
    let updated = schema_diff(before, after)->Ok_0.updated_fields;
    let f = update_from(b);
    assert(updated.contains(updated[k]));
    a.lemma_filter_map_contains(f, updated[k]);
    let t = choose|t: FieldWithPathView| #[trigger] a.contains(t) && f(t) == Some(updated[k]);
    let i = choose|i: int| 0 <= i < a.len() && a[i] == t;
    assert(a[i] == with_id_at(after, i));
    assert(find(b, t.field_id) is Some);
    let j = choose|j: int| 0 <= j < b.len() && (#[trigger] b[j]).field_id == t.field_id;
    lemma_find(b, j);
    assert(b[j] == with_id_at(before, j));
    assert(id_at(before, j) is Some && id_at(after, i) is Some);
    assert(update_at(before, after, j, i) == updated[k]);
}

/// A field whose name changed, at any nesting level within structs, arrays and maps, is recognised
/// by its id: it is reported as renamed, at its new path, and not as one field that was removed and
/// another that was added.
pub proof fn law_rename(before: Seq<StructFieldView>, after: Seq<StructFieldView>, j: int, i: int)
    requires
        schema_diff(before, after) is Ok,
        0 <= j < field_count(before),
        0 <= i < field_count(after),
        id_at(before, j) == id_at(after, i),
        field_at(before, j).name != field_at(after, i).name,
    ensures
        ({
            let d = schema_diff(before, after)->Ok_0;
            let update = update_at(before, after, j, i);
            &&& d.updated_fields.contains(update)
            &&& update.path == path_at(after, i)
            &&& update.change_types.contains(FieldChangeType::Renamed)
            &&& !d.added_fields.contains(change_at(after, i))
            &&& !d.removed_fields.contains(change_at(before, j))
        }),
{
    let changes = field_changes(field_at(before, j), field_at(after, i));
    assert(changes[0] == FieldChangeType::Renamed);
    law_updated(before, after, j, i);
}

/// A field that only changed its name has no breaking change.
pub proof fn law_rename_is_safe(before: StructFieldView, name: Seq<char>)
    requires
        name != before.name,
    ensures
        field_changes(before, StructFieldView { name, ..before }) == seq![FieldChangeType::Renamed],
        !FieldChangeType::Renamed.is_breaking(),
{
    lemma_same_data_type(before.data_type);
    assert(field_changes(before, StructFieldView { name, ..before })
        =~= seq![FieldChangeType::Renamed]);
}

/// A field has not changed from itself.
pub proof fn law_same_field(field: StructFieldView)
    ensures
        field_changes(field, field) == Seq::<FieldChangeType>::empty(),
{
    lemma_same_data_type(field.data_type);
    assert(field_changes(field, field) =~= Seq::<FieldChangeType>::empty());
}

/// A schema does not differ from itself: where it can be compared at all, its diff with itself is
/// empty and has no breaking changes.
pub proof fn law_identical_schemas(schema: Seq<StructFieldView>)
    requires
        ids_valid(schema),
        forall|i: int|
            0 <= i < field_count(schema) ==> physical_name_of(
                #[trigger] field_at(schema, i),
            ) is Some,
    ensures
        schema_diff(schema, schema) == Ok::<_, SchemaDiffErrorView>(
            SchemaDiffView {
                added_fields: seq![],
                removed_fields: seq![],
                updated_fields: seq![],
                has_breaking_changes: false,
            },
        ),
{
    assert(physical_names_kept(schema, schema)) by {
        assert forall|i: int, j: int|
            0 <= i < field_count(schema) && 0 <= j < field_count(schema) && #[trigger] id_at(
                schema,
                i,
            ) == #[trigger] id_at(schema, j) implies physical_name_of(field_at(schema, i)) is Some
            && physical_name_of(field_at(schema, i)) == physical_name_of(field_at(schema, j)) by {
            if i < j {
                assert(id_at(schema, i) != id_at(schema, j));
            } else if j < i {
                assert(id_at(schema, j) != id_at(schema, i));
            }
        }
    }
    law_comparable(schema, schema);
    lemma_diff(schema, schema);
    let fields = collected(schema, seq![])->Ok_0;
    let all = indices(fields.len());
    let wanted = is_outermost_absent(fields, fields);
    assert forall|i: int| 0 <= i < fields.len() implies update_from(fields)(
        #[trigger] fields[i],
    ) is None by {
        lemma_find(fields, i);
        law_same_field(field_at(schema, i));
    }
    assert forall|i: int| 0 <= i < all.len() implies !wanted(#[trigger] all[i]) by {
        lemma_find(fields, i);
    }
    lemma_filter_none(all, wanted);
    lemma_filter_map_none(fields, update_from(fields));
    let d = schema_diff(schema, schema)->Ok_0;
    assert(d.added_fields =~= seq![]);
    assert(d.removed_fields =~= seq![]);
    assert(d.updated_fields =~= seq![]);
}

/// A nested field is immediately enclosed by one field, which stands before it: the nested field is
/// among those within the data type of the enclosing one, one name below it. A field at the top
/// level is enclosed by none.
pub proof fn law_enclosing_field(schema: Seq<StructFieldView>, i: int)
    requires
        0 <= i < field_count(schema),
    ensures
        enclosing(schema_paths(schema), i) is Some <==> path_at(schema, i).len() > 1,
        path_at(schema, i).len() > 1 ==> {
            let k = enclosing_at(schema, i);
            let within = fields_within(field_at(schema, k).data_type, path_at(schema, k));
            &&& 0 <= k < i
            &&& path_at(schema, k) == path_at(schema, i).drop_last()
            &&& i - k - 1 < within.len()
            &&& schema_fields(schema)[i] == within[i - k - 1]
        },
{
    let all = schema_fields(schema);
    let paths = schema_paths(schema);
    assert forall|j: int| 0 <= j < all.len() implies #[trigger] paths[j] == all[j].path by {}
    if path_at(schema, i).len() > 1 {
        lemma_enclosing(schema, seq![], i);
        assert(all[i].path.drop_last().len() > 0);
        let k = choose|k: int| holds(all, k, i);
        assert(encloses(paths, k, i));
        lemma_enclosing_unique(paths, k, i);
    } else {
        assert forall|k: int| !encloses(paths, k, i) by {}
    }
}

/// The field at `k` is the nearest before the one at `i` at the parent path, and holds it.
spec fn holds(all: Seq<LocatedField>, k: int, i: int) -> bool {
    let within = fields_within(all[k].field.data_type, all[k].path);
    &&& 0 <= k < i < all.len()
    &&& all[k].path == all[i].path.drop_last()
    &&& forall|j: int| k < j < i ==> (#[trigger] all[j]).path != all[i].path.drop_last()
    &&& i - k - 1 < within.len()
    &&& all[i] == within[i - k - 1]
}

/// What stands around a part of a list does not change which field holds which in that part.
proof fn lemma_holds_in_part(
    head: Seq<LocatedField>,
    part: Seq<LocatedField>,
    tail: Seq<LocatedField>,
    k: int,
    i: int,
)
    requires
        holds(part, k, i),
    ensures
        holds(head + part + tail, head.len() + k, head.len() + i),
{
    let all = head + part + tail;
    let n = head.len() as int;
    assert(all[n + k] == part[k]);
    assert(all[n + i] == part[i]);
    assert forall|j: int| n + k < j < n + i implies (#[trigger] all[j]).path
        != all[n + i].path.drop_last() by {
        assert(all[j] == part[j - n]);
    }
}

proof fn lemma_enclosing(fields: Seq<StructFieldView>, parent: Seq<Seq<char>>, i: int)
    requires
        0 <= i < all_fields(fields, parent).len(),
    ensures
        ({
            let all = all_fields(fields, parent);
            ||| all[i].path.drop_last() == parent
            ||| exists|k: int| holds(all, k, i)
        }),
    decreases fields,
{
    if fields.len() > 0 {
        let all = all_fields(fields, parent);
        let first = all_fields(fields.drop_last(), parent);
        let field = fields.last();
        let path = parent.push(field.name);
        let own = seq![LocatedField { field, path }];
        let within = fields_within(field.data_type, path);
        let none = Seq::<LocatedField>::empty();
        let n = first.len() as int;
        if i < n {
            lemma_enclosing(fields.drop_last(), parent, i);
            assert(all[i] == first[i]);
            if first[i].path.drop_last() != parent {
                let k = choose|k: int| holds(first, k, i);
                lemma_holds_in_part(none, first, own + within, k, i);
                assert(all =~= none + first + (own + within));
            }
        } else if i == n {
            assert(all[i].path == path);
            assert(path.drop_last() =~= parent);
        } else {
            let m = i - n - 1;
            lemma_enclosing_within(field.data_type, path, m);
            assert(all[i] == within[m]);
            if within[m].path.drop_last() == path {
                assert(all[n] == own[0]);
                assert forall|j: int| n < j < i implies (#[trigger] all[j]).path
                    != all[i].path.drop_last() by {
                    assert(all[j] == within[j - n - 1]);
                    lemma_fields_within_below(field.data_type, path, j - n - 1);
                }
                assert(holds(all, n, i));
            } else {
                let k = choose|k: int| holds(within, k, m);
                lemma_holds_in_part(first + own, within, none, k, m);
                assert(all =~= first + own + within + none);
                assert(holds(all, n + 1 + k, i));
            }
        }
    }
}

proof fn lemma_enclosing_within(t: DataTypeView, path: Seq<Seq<char>>, i: int)
    requires
        0 <= i < fields_within(t, path).len(),
    ensures
        ({
            let all = fields_within(t, path);
            ||| all[i].path.drop_last() == path
            ||| exists|k: int| holds(all, k, i)
        }),
    decreases t,
{
    match t {
        DataTypeView::Primitive(_) => {},
        DataTypeView::Struct(fields) => {
            lemma_enclosing(fields, path, i);
        },
        DataTypeView::Array { element, .. } => {
            lemma_enclosing_within(*element, path, i);
        },
        DataTypeView::MapOf { key, value, .. } => {
            let all = fields_within(t, path);
            let keys = fields_within(*key, path);
            let values = fields_within(*value, path);
            let none = Seq::<LocatedField>::empty();
            let n = keys.len() as int;
            if i < n {
                lemma_enclosing_within(*key, path, i);
                assert(all[i] == keys[i]);
                if keys[i].path.drop_last() != path {
                    let k = choose|k: int| holds(keys, k, i);
                    lemma_holds_in_part(none, keys, values, k, i);
                    assert(all =~= none + keys + values);
                    assert(holds(all, k, i));
                }
            } else {
                let m = i - n;
                lemma_enclosing_within(*value, path, m);
                assert(all[i] == values[m]);
                if values[m].path.drop_last() != path {
                    let k = choose|k: int| holds(values, k, m);
                    lemma_holds_in_part(keys, values, none, k, m);
                    assert(all =~= keys + values + none);
                    assert(holds(all, n + k, i));
                }
            }
        },
    }
}

/// The fields of a schema whose ids another schema does not have, in the order in which they stand.
pub open spec fn fields_only_in(
    schema: Seq<StructFieldView>,
    others: Seq<StructFieldView>,
) -> Seq<FieldChangeView> {
    indices(field_count(schema)).filter(|i: int| !has_id(others, id_at(schema, i))).map_values(
        |i: int| change_at(schema, i),
    )
}

/// No two fields of the schema are at the same path.
pub open spec fn paths_distinct(schema: Seq<StructFieldView>) -> bool {
    forall|i: int, j: int|
        0 <= i < j < field_count(schema) ==> #[trigger] path_at(schema, i) != #[trigger] path_at(
            schema,
            j,
        )
}

/// Where no two fields of a schema are at the same path, what is reported as added, and likewise as
/// removed, is what filtering by paths keeps of the fields whose ids the other schema does not have.
///
/// A field in the key of a map and one in its value may be at the same path.
pub proof fn law_filtered_by_path(before: Seq<StructFieldView>, after: Seq<StructFieldView>)
    requires
        schema_diff(before, after) is Ok,
    ensures
        ({
            let d = schema_diff(before, after)->Ok_0;
            &&& paths_distinct(after) ==> d.added_fields == without_descendants(
                fields_only_in(after, before),
            )
            &&& paths_distinct(before) ==> d.removed_fields == without_descendants(
                fields_only_in(before, after),
            )
        }),
{
    lemma_diff(before, after);
    if paths_distinct(after) {
        lemma_filtered_by_path(after, before);
    }
    if paths_distinct(before) {
        lemma_filtered_by_path(before, after);
    }
}

proof fn lemma_filtered_by_path(schema: Seq<StructFieldView>, others: Seq<StructFieldView>)
    requires
        collected(schema, seq![]) is Ok,
        collected(others, seq![]) is Ok,
        paths_distinct(schema),
    ensures
        only_in(collected(schema, seq![])->Ok_0, collected(others, seq![])->Ok_0)
            == without_descendants(fields_only_in(schema, others)),
{
    lemma_collected(schema);
    let f = collected(schema, seq![])->Ok_0;
    let o = collected(others, seq![])->Ok_0;
    let all = indices(field_count(schema));
    let absent = |i: int| !has_id(others, id_at(schema, i));
    let change = |i: int| change_at(schema, i);
    let changes = fields_only_in(schema, others);
    let wanted = is_outermost_absent(f, o);
    let kept = parent_not_in(changes);
    let found = all.filter(absent);
    assert forall|i: int| 0 <= i < all.len() implies wanted(#[trigger] all[i]) == (absent(all[i])
        && kept(change(all[i]))) by {
        lemma_is_reported(schema, others, i);
        let path = path_at(schema, i);
        assert(path.len() >= 1);
        if path.len() > 1 {
            law_enclosing_field(schema, i);
            let e = enclosing_at(schema, i);
            let parent = path.drop_last();
            if absent(e) {
                assert(all[e] == e);
                all.lemma_filter_contains(absent, e);
                let m = choose|m: int| 0 <= m < found.len() && found[m] == e;
                assert(change_paths(changes)[m] == parent);
            } else if change_paths(changes).contains(parent) {
                let m = choose|m: int|
                    0 <= m < changes.len() && change_paths(changes)[m] == parent;
                all.lemma_filter_pred(absent, m);
                assert(found.contains(found[m]));
                all.lemma_filter_contains_rev(absent, found[m]);
                let x = found[m];
                assert(path_at(schema, x) == path_at(schema, e));
                if x < e {
                    assert(path_at(schema, x) != path_at(schema, e));
                } else if e < x {
                    assert(path_at(schema, e) != path_at(schema, x));
                }
                assert(false);
            }
        }
    }
    lemma_filter_map_filter(all, absent, change, kept, wanted);
    let outermost = all.filter(wanted);
    assert forall|m: int| 0 <= m < outermost.len() implies change_of(f)(#[trigger] outermost[m])
        == change(outermost[m]) by {
        assert(outermost.contains(outermost[m]));
        all.lemma_filter_contains_rev(wanted, outermost[m]);
        assert(f[outermost[m]] == with_id_at(schema, outermost[m]));
    }
    assert(only_in(f, o) =~= outermost.map_values(change));
}

/// The path of a field has no ancestor among the paths of the added fields where every field of the
/// new schema at such an ancestor path has an id that is in the old schema too, and none among those
/// of the removed fields where every field of the old schema at such a path has an id that is in the
/// new schema too.
///
/// A field that was moved into a new struct has an added ancestor.
pub proof fn law_no_changed_ancestor(
    before: Seq<StructFieldView>,
    after: Seq<StructFieldView>,
    i: int,
)
    requires
        schema_diff(before, after) is Ok,
        0 <= i < field_count(after),
    ensures
        ({
            let d = schema_diff(before, after)->Ok_0;
            let path = path_at(after, i);
            &&& (forall|k: int|
                0 <= k < field_count(after) && is_ancestor_path(
                    #[trigger] path_at(after, k),
                    path,
                ) ==> has_id(before, id_at(after, k))) ==> !has_ancestor_in(
                path,
                change_paths(d.added_fields),
            )
            &&& (forall|j: int|
                0 <= j < field_count(before) && is_ancestor_path(
                    #[trigger] path_at(before, j),
                    path,
                ) ==> has_id(after, id_at(before, j))) ==> !has_ancestor_in(
                path,
                change_paths(d.removed_fields),
            )
        }),
{
    lemma_diff(before, after);
    let d = schema_diff(before, after)->Ok_0;
    let path = path_at(after, i);
    if has_ancestor_in(path, change_paths(d.added_fields)) {
        let n = choose|n: int|
            0 < n < path.len() && change_paths(d.added_fields).contains(#[trigger] path.take(n));
        let c = choose|c: int|
            0 <= c < d.added_fields.len() && change_paths(d.added_fields)[c] == path.take(n);
        assert(d.added_fields.contains(d.added_fields[c]));
        lemma_reported(after, before, d.added_fields[c]);
        let k = choose|k: int|
            0 <= k < field_count(after) && is_reported(after, before, k) && d.added_fields[c]
                == #[trigger] change_at(after, k);
        assert(path_at(after, k) == path.take(n));
        assert(is_ancestor_path(path_at(after, k), path));
    }
    if has_ancestor_in(path, change_paths(d.removed_fields)) {
        let n = choose|n: int|
            0 < n < path.len() && change_paths(d.removed_fields).contains(#[trigger] path.take(n));
        let c = choose|c: int|
            0 <= c < d.removed_fields.len() && change_paths(d.removed_fields)[c] == path.take(n);
        assert(d.removed_fields.contains(d.removed_fields[c]));
        lemma_reported(before, after, d.removed_fields[c]);
        let j = choose|j: int|
            0 <= j < field_count(before) && is_reported(before, after, j) && d.removed_fields[c]
                == #[trigger] change_at(before, j);
        assert(path_at(before, j) == path.take(n));
        assert(is_ancestor_path(path_at(before, j), path));
    }
}

/// The first path is a proper prefix of the second.
pub open spec fn is_ancestor_path(outer: Seq<Seq<char>>, path: Seq<Seq<char>>) -> bool {
    0 < outer.len() < path.len() && outer == path.take(outer.len() as int)
}

/// A diff is breaking exactly where a field was removed, an added field is required or an update has
/// a breaking change.
pub proof fn law_breaking(before: Seq<StructFieldView>, after: Seq<StructFieldView>)
    requires
        schema_diff(before, after) is Ok,
    ensures
        ({
            let d = schema_diff(before, after)->Ok_0;
            d.has_breaking_changes == has_breaking(
                d.added_fields,
                d.removed_fields,
                d.updated_fields,
            )
        }),
{
    lemma_diff(before, after);
}

/// Removing a field, at any nesting level, is breaking.
pub proof fn law_removal_is_breaking(
    before: Seq<StructFieldView>,
    after: Seq<StructFieldView>,
    j: int,
)
    requires
        schema_diff(before, after) is Ok,
        0 <= j < field_count(before),
        !has_id(after, id_at(before, j)),
    ensures
        schema_diff(before, after)->Ok_0.has_breaking_changes,
{
    lemma_diff(before, after);
    law_removed(before, after, j);
}

/// Adding a required field is breaking, where the field itself is reported.
pub proof fn law_required_addition_is_breaking(
    before: Seq<StructFieldView>,
    after: Seq<StructFieldView>,
    i: int,
)
    requires
        schema_diff(before, after) is Ok,
        0 <= i < field_count(after),
        !field_at(after, i).nullable,
        schema_diff(before, after)->Ok_0.added_fields.contains(change_at(after, i)),
    ensures
        schema_diff(before, after)->Ok_0.has_breaking_changes,
{
    lemma_diff(before, after);
    let added = schema_diff(before, after)->Ok_0.added_fields;
    let k = choose|k: int| 0 <= k < added.len() && added[k] == change_at(after, i);
    assert(!added[k].field.nullable);
}

/// The opposite of a change: what is loosened one way is tightened the other way.
pub open spec fn reversed(change: FieldChangeType) -> FieldChangeType {
    match change {
        FieldChangeType::NullabilityLoosened => FieldChangeType::NullabilityTightened,
        FieldChangeType::NullabilityTightened => FieldChangeType::NullabilityLoosened,
        FieldChangeType::ContainerNullabilityLoosened => {
            FieldChangeType::ContainerNullabilityTightened
        },
        FieldChangeType::ContainerNullabilityTightened => {
            FieldChangeType::ContainerNullabilityLoosened
        },
        _ => change,
    }
}

/// The opposites of changes.
pub open spec fn all_reversed(changes: Seq<FieldChangeType>) -> Seq<FieldChangeType> {
    changes.map_values(|c: FieldChangeType| reversed(c))
}

proof fn lemma_same_outside_structs_symmetric(a: DataTypeView, b: DataTypeView)
    ensures
        same_outside_structs(a, b) == same_outside_structs(b, a),
    decreases a,
{
    match (a, b) {
        (DataTypeView::Array { element: e1, .. }, DataTypeView::Array { element: e2, .. }) => {
            lemma_same_outside_structs_symmetric(*e1, *e2);
        },
        (
            DataTypeView::MapOf { key: k1, value: v1, .. },
            DataTypeView::MapOf { key: k2, value: v2, .. },
        ) => {
            lemma_same_outside_structs_symmetric(*k1, *k2);
            lemma_same_outside_structs_symmetric(*v1, *v2);
        },
        _ => {},
    }
}

/// With the data types exchanged, each change becomes its opposite.
pub proof fn law_data_type_changes_reverse(before: DataTypeView, after: DataTypeView)
    ensures
        data_type_changes(after, before) == all_reversed(data_type_changes(before, after)),
    decreases before,
{
    match (before, after) {
        (
            DataTypeView::Array { element: e1, contains_null: n1 },
            DataTypeView::Array { element: e2, contains_null: n2 },
        ) => {
            lemma_same_outside_structs_symmetric(*e1, *e2);
        },
        (
            DataTypeView::MapOf { key: k1, value: v1, value_contains_null: n1 },
            DataTypeView::MapOf { key: k2, value: v2, value_contains_null: n2 },
        ) => {
            law_data_type_changes_reverse(*k1, *k2);
            law_data_type_changes_reverse(*v1, *v2);
        },
        _ => {},
    }
    assert(data_type_changes(after, before) =~= all_reversed(data_type_changes(before, after)));
}

proof fn lemma_all_reversed_added(x: Seq<FieldChangeType>, y: Seq<FieldChangeType>)
    ensures
        all_reversed(x + y) == all_reversed(x) + all_reversed(y),
{
    assert(all_reversed(x + y) =~= all_reversed(x) + all_reversed(y));
}

/// With the fields exchanged, each change becomes its opposite.
pub proof fn law_field_changes_reverse(before: StructFieldView, after: StructFieldView)
    ensures
        field_changes(after, before) == all_reversed(field_changes(before, after)),
{
    law_data_type_changes_reverse(before.data_type, after.data_type);
    let name = |x: StructFieldView, y: StructFieldView|
        if x.name != y.name {
            seq![FieldChangeType::Renamed]
        } else {
            seq![]
        };
    let nullable = |x: StructFieldView, y: StructFieldView|
        as_seq(field_nullability_change(x.nullable, y.nullable));
    let data_type = |x: StructFieldView, y: StructFieldView|
        data_type_changes(x.data_type, y.data_type);
    let metadata = |x: StructFieldView, y: StructFieldView|
        if unreserved(x.metadata) != unreserved(y.metadata) {
            seq![FieldChangeType::MetadataChanged]
        } else {
            seq![]
        };
    assert(name(after, before) =~= all_reversed(name(before, after)));
    assert(nullable(after, before) =~= all_reversed(nullable(before, after)));
    assert(metadata(after, before) =~= all_reversed(metadata(before, after)));
    lemma_all_reversed_added(name(before, after), nullable(before, after));
    lemma_all_reversed_added(
        name(before, after) + nullable(before, after),
        data_type(before, after),
    );
    lemma_all_reversed_added(
        name(before, after) + nullable(before, after) + data_type(before, after),
        metadata(before, after),
    );
}

/// With the schemas exchanged, the same fields are updated, and each change becomes its opposite.
pub proof fn law_updates_reverse(
    before: Seq<StructFieldView>,
    after: Seq<StructFieldView>,
    j: int,
    i: int,
)
    requires
        schema_diff(before, after) is Ok,
        0 <= j < field_count(before),
        0 <= i < field_count(after),
        id_at(before, j) == id_at(after, i),
    ensures
        schema_diff(after, before) is Ok,
        schema_diff(before, after)->Ok_0.updated_fields.contains(update_at(before, after, j, i))
            <==> schema_diff(after, before)->Ok_0.updated_fields.contains(
            update_at(after, before, i, j),
        ),
        update_at(after, before, i, j).change_types == all_reversed(
            update_at(before, after, j, i).change_types,
        ),
{
    law_swap(before, after);
    law_updated(before, after, j, i);
    law_updated(after, before, i, j);
    law_field_changes_reverse(field_at(before, j), field_at(after, i));
}

/// The types differ, if at all, inside structs and in the nullability of containers: of the type
/// itself, and of the keys and values of maps, at any depth.
pub open spec fn differ_in_structs_and_nullability(a: DataTypeView, b: DataTypeView) -> bool
    decreases a,
{
    match (a, b) {
        (DataTypeView::Array { element: e1, .. }, DataTypeView::Array { element: e2, .. }) => {
            same_outside_structs(*e1, *e2)
        },
        (
            DataTypeView::MapOf { key: k1, value: v1, .. },
            DataTypeView::MapOf { key: k2, value: v2, .. },
        ) => differ_in_structs_and_nullability(*k1, *k2) && differ_in_structs_and_nullability(
            *v1,
            *v2,
        ),
        _ => same_outside_structs(a, b),
    }
}

/// The changes in the nullability of containers: of the type itself, after those of the key and of
/// the value of a map, at any depth.
pub open spec fn nullability_changes(a: DataTypeView, b: DataTypeView) -> Seq<FieldChangeType>
    decreases a,
{
    match (a, b) {
        (
            DataTypeView::Array { contains_null: n1, .. },
            DataTypeView::Array { contains_null: n2, .. },
        ) => as_seq(container_nullability_change(n1, n2)),
        (
            DataTypeView::MapOf { key: k1, value: v1, value_contains_null: n1 },
            DataTypeView::MapOf { key: k2, value: v2, value_contains_null: n2 },
        ) => nullability_changes(*k1, *k2) + nullability_changes(*v1, *v2) + as_seq(
            container_nullability_change(n1, n2),
        ),
        _ => seq![],
    }
}

/// What is inside structs is no change of the type that holds them, however deep in arrays and maps
/// the structs are.
pub proof fn law_struct_contents_are_not_type_changes(a: DataTypeView, b: DataTypeView)
    requires
        same_outside_structs(a, b),
    ensures
        data_type_changes(a, b) == Seq::<FieldChangeType>::empty(),
    decreases a,
{
    match (a, b) {
        (
            DataTypeView::MapOf { key: k1, value: v1, .. },
            DataTypeView::MapOf { key: k2, value: v2, .. },
        ) => {
            law_struct_contents_are_not_type_changes(*k1, *k2);
            law_struct_contents_are_not_type_changes(*v1, *v2);
        },
        _ => {},
    }
    assert(data_type_changes(a, b) =~= Seq::<FieldChangeType>::empty());
}

/// Types that differ only inside structs and in the nullability of containers, through maps at any
/// depth, have the changes of nullability and no others. There is a type change exactly where types
/// differ in more.
pub proof fn law_type_change_exactly(a: DataTypeView, b: DataTypeView)
    ensures
        differ_in_structs_and_nullability(a, b) ==> data_type_changes(a, b) == nullability_changes(
            a,
            b,
        ),
        data_type_changes(a, b).contains(FieldChangeType::TypeChanged)
            <==> !differ_in_structs_and_nullability(a, b),
    decreases a,
{
    let changes = data_type_changes(a, b);
    match (a, b) {
        (
            DataTypeView::Array { element: e1, contains_null: n1 },
            DataTypeView::Array { element: e2, contains_null: n2 },
        ) => {
            if same_outside_structs(*e1, *e2) {
                assert(changes =~= as_seq(container_nullability_change(n1, n2)));
            } else {
                assert(changes[0] == FieldChangeType::TypeChanged);
            }
        },
        (
            DataTypeView::MapOf { key: k1, value: v1, value_contains_null: n1 },
            DataTypeView::MapOf { key: k2, value: v2, value_contains_null: n2 },
        ) => {
            law_type_change_exactly(*k1, *k2);
            law_type_change_exactly(*v1, *v2);
            let x = data_type_changes(*k1, *k2);
            let y = data_type_changes(*v1, *v2);
            let z = as_seq(container_nullability_change(n1, n2));
            lemma_contains_added(x, y, FieldChangeType::TypeChanged);
            lemma_contains_added(x + y, z, FieldChangeType::TypeChanged);
        },
        (DataTypeView::Struct(_), DataTypeView::Struct(_)) => {},
        _ => {
            if a != b {
                assert(changes[0] == FieldChangeType::TypeChanged);
            } else {
                lemma_same_data_type(a);
            }
        },
    }
}

proof fn lemma_contains_added(x: Seq<FieldChangeType>, y: Seq<FieldChangeType>, c: FieldChangeType)
    ensures
        (x + y).contains(c) <==> x.contains(c) || y.contains(c),
{
    let both = x + y;
    if x.contains(c) {
        let i = choose|i: int| 0 <= i < x.len() && x[i] == c;
        assert(both[i] == c);
    }
    if y.contains(c) {
        let i = choose|i: int| 0 <= i < y.len() && y[i] == c;
        assert(both[x.len() + i] == c);
    }
}

/// The metadata of column mapping and of the Parquet files is not compared: putting any value under
/// such a key, on either side, changes nothing.
pub proof fn law_reserved_metadata_is_ignored(
    metadata: Map<Seq<char>, MetadataValueView>,
    key: Seq<char>,
    value: MetadataValueView,
)
    requires
        is_reserved_key(key),
    ensures
        unreserved(metadata.insert(key, value)) == unreserved(metadata),
        unreserved(metadata.remove(key)) == unreserved(metadata),
{
    assert(unreserved(metadata.insert(key, value)) =~= unreserved(metadata));
    assert(unreserved(metadata.remove(key)) =~= unreserved(metadata));
}

/// Filtering again leaves out nothing more.
pub proof fn law_filtering_ancestors_is_idempotent(changes: Seq<FieldChangeView>)
    ensures
        without_descendants(without_descendants(changes)) == without_descendants(changes),
{
    let keep = parent_not_in(changes);
    let kept = without_descendants(changes);
    assert forall|i: int| 0 <= i < kept.len() implies parent_not_in(kept)(#[trigger] kept[i]) by {
        changes.lemma_filter_pred(keep, i);
        if kept[i].path.len() != 1 {
            let parent = kept[i].path.drop_last();
            if change_paths(kept).contains(parent) {
                let k = choose|k: int| 0 <= k < kept.len() && change_paths(kept)[k] == parent;
                assert(kept.contains(kept[k]));
                changes.lemma_filter_contains_rev(keep, kept[k]);
                let c = choose|c: int| 0 <= c < changes.len() && changes[c] == kept[k];
                assert(change_paths(changes)[c] == parent);
                assert(false);
            }
        }
    }
    lemma_filter_all(kept, parent_not_in(kept));
}

/// A change that is left out has, among its ancestor paths, that of one that is kept.
pub proof fn law_left_out_has_kept_ancestor(changes: Seq<FieldChangeView>, i: int)
    requires
        forall|k: int| 0 <= k < changes.len() ==> (#[trigger] changes[k]).path.len() >= 1,
        0 <= i < changes.len(),
        !without_descendants(changes).contains(changes[i]),
    ensures
        has_ancestor_in(changes[i].path, change_paths(without_descendants(changes))),
    decreases changes[i].path.len(),
{
    let keep = parent_not_in(changes);
    let kept = without_descendants(changes);
    let path = changes[i].path;
    if keep(changes[i]) {
        changes.lemma_filter_contains(keep, i);
        assert(false);
    }
    let parent = path.drop_last();
    let p = choose|p: int| 0 <= p < changes.len() && change_paths(changes)[p] == parent;
    assert(changes[p].path == parent);
    assert(path.take(path.len() - 1) =~= parent);
    if kept.contains(changes[p]) {
        let k = choose|k: int| 0 <= k < kept.len() && kept[k] == changes[p];
        assert(change_paths(kept)[k] == parent);
        assert(change_paths(kept).contains(path.take(path.len() - 1)));
    } else {
        law_left_out_has_kept_ancestor(changes, p);
        let k = choose|k: int|
            0 < k < parent.len() && change_paths(kept).contains(#[trigger] parent.take(k));
        assert(parent.take(k) =~= path.take(k));
        assert(change_paths(kept).contains(path.take(k)));
    }
}

/// The parent path of a kept change is not among those of the changes.
pub proof fn law_kept_has_no_changed_parent(changes: Seq<FieldChangeView>, i: int)
    requires
        0 <= i < without_descendants(changes).len(),
        without_descendants(changes)[i].path.len() > 1,
    ensures
        !change_paths(changes).contains(without_descendants(changes)[i].path.drop_last()),
{
    changes.lemma_filter_pred(parent_not_in(changes), i);
}

/// An error reports what is the case: the field that it names has no id, the two fields that it
/// names have the same id, or the field that it names, which is in both schemas, does not have the
/// same physical name in both.
pub proof fn law_error_is_true(before: Seq<StructFieldView>, after: Seq<StructFieldView>)
    requires
        schema_diff(before, after) is Err,
    ensures
        match schema_diff(before, after)->Err_0 {
            SchemaDiffErrorView::MissingFieldId { path } => lacks_id_at(before, path)
                || lacks_id_at(after, path),
            SchemaDiffErrorView::DuplicateFieldId { id, path1, path2 } => repeats_id_at(
                before,
                id,
                path1,
                path2,
            ) || repeats_id_at(after, id, path1, path2),
            SchemaDiffErrorView::MissingPhysicalName { path } => exists|j: int, i: int|
                0 <= j < field_count(before) && 0 <= i < field_count(after) && #[trigger] id_at(
                    before,
                    j,
                ) == #[trigger] id_at(after, i) && path == path_at(after, i) && (physical_name_of(
                    field_at(before, j),
                ) is None || physical_name_of(field_at(after, i)) is None),
            SchemaDiffErrorView::PhysicalNameChanged {
                field_id: id,
                path,
                before: name1,
                after: name2,
            } => exists|j: int, i: int|
                0 <= j < field_count(before) && 0 <= i < field_count(after) && #[trigger] id_at(
                    before,
                    j,
                ) == Some(id) && #[trigger] id_at(after, i) == Some(id) && path == path_at(after, i)
                    && physical_name_of(field_at(before, j)) == Some(name1) && physical_name_of(
                    field_at(after, i),
                ) == Some(name2) && name1 != name2,
        },
{
    lemma_collected(before);
    lemma_collected(after);
    if collected(before, seq![]) is Err {
        let i = choose|i: int| is_first_without_id(schema_fields(before), i);
        assert(is_first_without_id(schema_fields(before), i));
        assert(id_at(before, i) is None);
    } else if collected(after, seq![]) is Err {
        let i = choose|i: int| is_first_without_id(schema_fields(after), i);
        assert(is_first_without_id(schema_fields(after), i));
        assert(id_at(after, i) is None);
    } else {
        let b = collected(before, seq![])->Ok_0;
        let a = collected(after, seq![])->Ok_0;
        if duplicate_id_error(b) is Some {
            let (i, j) = choose|i: int, j: int| is_first_repeat(b, i, j);
            assert(is_first_repeat(b, i, j));
            assert(id_at(before, i) is Some && id_at(before, j) is Some);
        } else if duplicate_id_error(a) is Some {
            let (i, j) = choose|i: int, j: int| is_first_repeat(a, i, j);
            assert(is_first_repeat(a, i, j));
            assert(id_at(after, i) is Some && id_at(after, j) is Some);
        } else {
            let i = choose|i: int| is_first_name_error(b, a, i);
            assert(is_first_name_error(b, a, i));
            lemma_duplicate_id_error(b);
            let j = choose|j: int| 0 <= j < b.len() && (#[trigger] b[j]).field_id == a[i].field_id;
            lemma_find(b, j);
            assert(id_at(before, j) is Some && id_at(after, i) is Some);
            assert(id_at(before, j) == id_at(after, i));
        }
    }
}

/// There is a field without an id in the schema, at this path.
pub open spec fn lacks_id_at(schema: Seq<StructFieldView>, path: Seq<Seq<char>>) -> bool {
    exists|i: int|
        0 <= i < field_count(schema) && #[trigger] id_at(schema, i) is None && path == path_at(
            schema,
            i,
        )
}

/// There are two fields with this id in the schema, at these paths.
pub open spec fn repeats_id_at(
    schema: Seq<StructFieldView>,
    id: i64,
    path1: Seq<Seq<char>>,
    path2: Seq<Seq<char>>,
) -> bool {
    exists|i: int, j: int|
        0 <= i < j < field_count(schema) && #[trigger] id_at(schema, i) == Some(id)
            && #[trigger] id_at(schema, j) == Some(id) && path1 == path_at(schema, i) && path2
            == path_at(schema, j)
}

/// A diff is empty exactly where it counts no changes, and then it is not breaking.
pub proof fn law_empty_diff(d: SchemaDiffView)
    ensures
        d.is_empty() <==> d.change_count() == 0,
        d.is_empty() ==> !has_breaking(d.added_fields, d.removed_fields, d.updated_fields),
{
}

/// Every change is either at the top level or nested.
pub proof fn law_levels_part_changes(changes: Seq<FieldChange>, updates: Seq<FieldUpdate>)
    requires
        forall|i: int| 0 <= i < changes.len() ==> (#[trigger] changes[i]).path@.len() >= 1,
        forall|i: int| 0 <= i < updates.len() ==> (#[trigger] updates[i]).path@.len() >= 1,
    ensures
        changes.filter(is_top_level_change()).len() + changes.filter(is_nested_change()).len()
            == changes.len(),
        updates.filter(is_top_level_update()).len() + updates.filter(is_nested_update()).len()
            == updates.len(),
{
    lemma_filter_parts(changes, is_top_level_change(), is_nested_change());
    lemma_filter_parts(updates, is_top_level_update(), is_nested_update());
}

/// Every reported addition and removal, at any nesting level, is of a field whose id is in only one
/// of the two lists.
pub proof fn law_reported_ids(
    before: Seq<FieldWithPathView>,
    after: Seq<FieldWithPathView>,
    k: int,
)
    requires
        fields_diff(before, after) is Ok,
    ensures
        ({
            let d = fields_diff(before, after)->Ok_0;
            &&& 0 <= k < d.added_fields.len() ==> exists|i: int|
                0 <= i < after.len() && find(before, after[i].field_id) is None && d.added_fields[k]
                    == #[trigger] change_of(after)(i)
            &&& 0 <= k < d.removed_fields.len() ==> exists|j: int|
                0 <= j < before.len() && find(after, before[j].field_id) is None
                    && d.removed_fields[k] == #[trigger] change_of(before)(j)
        }),
{
    let d = fields_diff(before, after)->Ok_0;
    if 0 <= k < d.added_fields.len() {
        assert(d.added_fields.contains(d.added_fields[k]));
        lemma_only_in(after, before, d.added_fields[k]);
    }
    if 0 <= k < d.removed_fields.len() {
        assert(d.removed_fields.contains(d.removed_fields[k]));
        lemma_only_in(before, after, d.removed_fields[k]);
    }
}

/// Two fields with the same id, at any nesting level and at whatever paths, are reported as one
/// updated field where something about them differs. A new name is among the changes.
pub proof fn law_update_is_reported(
    before: Seq<FieldWithPathView>,
    after: Seq<FieldWithPathView>,
    j: int,
    i: int,
)
    requires
        fields_diff(before, after) is Ok,
        0 <= j < before.len(),
        0 <= i < after.len(),
        before[j].field_id == after[i].field_id,
        field_changes(before[j].field, after[i].field).len() > 0,
    ensures
        field_update(before[j], after[i]) is Some,
        fields_diff(before, after)->Ok_0.updated_fields.contains(
            field_update(before[j], after[i])->0,
        ),
        before[j].field.name != after[i].field.name ==> field_update(
            before[j],
            after[i],
        )->0.change_types.contains(FieldChangeType::Renamed),
{
    lemma_duplicate_id_error(before);
    lemma_find(before, j);
    lemma_filter_map_contains(after, update_from(before), i);
    if before[j].field.name != after[i].field.name {
        assert(field_changes(before[j].field, after[i].field)[0] == FieldChangeType::Renamed);
    }
}

/// The second schema has the top-level fields of the first in another order: `to` takes each to its
/// new place and `from` takes it back.
pub open spec fn is_reordering(
    s: Seq<StructFieldView>,
    r: Seq<StructFieldView>,
    to: spec_fn(int) -> int,
    from: spec_fn(int) -> int,
) -> bool {
    &&& forall|t: int|
        0 <= t < s.len() ==> 0 <= #[trigger] to(t) < r.len() && from(to(t)) == t && r[to(t)] == s[t]
    &&& forall|t: int|
        0 <= t < r.len() ==> 0 <= #[trigger] from(t) < s.len() && to(from(t)) == t && s[from(t)]
            == r[t]
}

/// A top-level field followed by those within it.
spec fn with_fields_within(field: StructFieldView) -> Seq<LocatedField> {
    let path = seq![field.name];
    seq![LocatedField { field, path }] + fields_within(field.data_type, path)
}

/// Where the top-level field at `t` stands among all the fields.
spec fn start_of(schema: Seq<StructFieldView>, t: int) -> int {
    schema_fields(schema.take(t)).len() as int
}

/// The top-level field that the field at `i` is or is inside.
spec fn top_of(schema: Seq<StructFieldView>, i: int) -> int
    decreases schema.len(),
{
    if schema.len() == 0 {
        0
    } else if i < schema_fields(schema.drop_last()).len() {
        top_of(schema.drop_last(), i)
    } else {
        schema.len() - 1
    }
}

/// All the fields stand in the order of the top-level fields that they are inside.
proof fn lemma_start_of(schema: Seq<StructFieldView>, t: int)
    requires
        0 <= t < schema.len(),
    ensures
        ({
            let part = with_fields_within(schema[t]);
            let head = schema_fields(schema.take(t));
            &&& start_of(schema, t) + part.len() <= field_count(schema)
            &&& schema_fields(schema) == head + part + schema_fields(schema).skip(
                start_of(schema, t) + part.len(),
            )
            &&& forall|p: int|
                0 <= p < part.len() ==> #[trigger] top_of(schema, start_of(schema, t) + p) == t
        }),
    decreases schema.len(),
{
    let rest = schema.drop_last();
    let last = schema.last();
    let all = schema_fields(schema);
    let part = with_fields_within(schema[t]);
    let head = schema_fields(schema.take(t));
    let none = Seq::<Seq<char>>::empty();
    assert(none.push(last.name) =~= seq![last.name]);
    assert(all =~= schema_fields(rest) + with_fields_within(last));
    if t == schema.len() - 1 {
        assert(schema.take(t) =~= rest);
        assert(all =~= head + part + all.skip((head.len() + part.len()) as int));
    } else {
        lemma_start_of(rest, t);
        assert(rest.take(t) =~= schema.take(t));
        assert(rest[t] == schema[t]);
        let r = schema_fields(rest);
        assert forall|i: int| 0 <= i < head.len() + part.len() implies #[trigger] all[i] == (head
            + part)[i] by {
            assert(all[i] == r[i]);
            assert(r[i] == (head + part + r.skip((head.len() + part.len()) as int))[i]);
        }
        assert(all =~= head + part + all.skip((head.len() + part.len()) as int));
        assert forall|p: int| 0 <= p < part.len() implies #[trigger] top_of(
            schema,
            start_of(schema, t) + p,
        ) == t by {
            assert(top_of(rest, start_of(rest, t) + p) == t);
        }
    }
}

proof fn lemma_top_of(schema: Seq<StructFieldView>, i: int)
    requires
        0 <= i < field_count(schema),
    ensures
        ({
            let t = top_of(schema, i);
            &&& 0 <= t < schema.len()
            &&& start_of(schema, t) <= i < start_of(schema, t) + with_fields_within(schema[t]).len()
        }),
    decreases schema.len(),
{
    let none = Seq::<Seq<char>>::empty();
    if schema.len() == 0 {
        assert(false);
    }
    let rest = schema.drop_last();
    let last = schema.last();
    assert(none.push(last.name) =~= seq![last.name]);
    assert(schema_fields(schema) =~= schema_fields(rest) + with_fields_within(last));
    if i < schema_fields(rest).len() {
        lemma_top_of(rest, i);
        let t = top_of(rest, i);
        assert(rest.take(t) =~= schema.take(t));
        assert(rest[t] == schema[t]);
    } else {
        assert(schema.take(schema.len() - 1) =~= rest);
    }
}

/// The place of the field at `i` after its top-level field was moved.
spec fn moved(
    s: Seq<StructFieldView>,
    r: Seq<StructFieldView>,
    to: spec_fn(int) -> int,
    i: int,
) -> int {
    let t = top_of(s, i);
    start_of(r, to(t)) + (i - start_of(s, t))
}

/// A nested field is immediately enclosed by one of those that its top-level field has brought
/// along.
proof fn lemma_enclosing_in_part(schema: Seq<StructFieldView>, t: int, p: int) -> (k: int)
    requires
        0 <= t < schema.len(),
        0 < p < with_fields_within(schema[t]).len(),
    ensures
        holds(with_fields_within(schema[t]), k, p),
        enclosing_at(schema, start_of(schema, t) + p) == start_of(schema, t) + k,
        path_at(schema, start_of(schema, t) + p).len() > 1,
{
    let field = schema[t];
    let path = seq![field.name];
    let own = seq![LocatedField { field, path }];
    let within = fields_within(field.data_type, path);
    let part = with_fields_within(field);
    let none = Seq::<LocatedField>::empty();
    let m = p - 1;
    assert(part[p] == within[m]);
    lemma_enclosing_within(field.data_type, path, m);
    let k = if within[m].path.drop_last() == path {
        assert(part[0] == own[0]);
        assert forall|j: int| 0 < j < p implies (#[trigger] part[j]).path
            != part[p].path.drop_last() by {
            assert(part[j] == within[j - 1]);
            lemma_fields_within_below(field.data_type, path, j - 1);
        }
        assert(holds(part, 0, p));
        0
    } else {
        let k = choose|k: int| holds(within, k, m);
        lemma_holds_in_part(own, within, none, k, m);
        assert(part =~= own + within + none);
        assert(holds(part, 1 + k, p));
        1 + k
    };
    lemma_start_of(schema, t);
    let all = schema_fields(schema);
    let paths = schema_paths(schema);
    let n = start_of(schema, t);
    lemma_holds_in_part(schema_fields(schema.take(t)), part, all.skip((n + part.len()) as int), k, p);
    assert(holds(all, n + k, n + p));
    lemma_fields_within_below(field.data_type, path, m);
    assert(all[n + p] == part[p]);
    assert forall|j: int| 0 <= j < all.len() implies #[trigger] paths[j] == all[j].path by {}
    assert(encloses(paths, n + k, n + p));
    lemma_enclosing_unique(paths, n + k, n + p);
    k
}

/// Moving a top-level field brings along the fields within it.
proof fn lemma_moved(
    s: Seq<StructFieldView>,
    r: Seq<StructFieldView>,
    to: spec_fn(int) -> int,
    from: spec_fn(int) -> int,
    i: int,
)
    requires
        is_reordering(s, r, to, from),
        0 <= i < field_count(s),
    ensures
        ({
            let m = moved(s, r, to, i);
            &&& 0 <= m < field_count(r)
            &&& schema_fields(r)[m] == schema_fields(s)[i]
            &&& moved(r, s, from, m) == i
            &&& path_at(s, i).len() > 1 ==> id_at(r, enclosing_at(r, m)) == id_at(
                s,
                enclosing_at(s, i),
            )
        }),
{
    lemma_top_of(s, i);
    let t = top_of(s, i);
    let u = to(t);
    let p = i - start_of(s, t);
    let part = with_fields_within(s[t]);
    assert(r[u] == s[t]);
    lemma_start_of(s, t);
    lemma_start_of(r, u);
    assert(schema_fields(s)[start_of(s, t) + p] == part[p]);
    assert(schema_fields(r)[start_of(r, u) + p] == part[p]);
    assert(top_of(r, start_of(r, u) + p) == u);
    if path_at(s, i).len() > 1 {
        assert(p > 0);
        let k = lemma_enclosing_in_part(s, t, p);
        let l = lemma_enclosing_in_part(r, u, p);
        assert(k == l) by {
            if k < l {
                assert(part[l].path != part[p].path.drop_last());
            } else if l < k {
                assert(part[k].path != part[p].path.drop_last());
            }
        }
        assert(schema_fields(s)[start_of(s, t) + k] == part[k]);
        assert(schema_fields(r)[start_of(r, u) + k] == part[k]);
    }
}

proof fn lemma_has_id_moved(
    s: Seq<StructFieldView>,
    r: Seq<StructFieldView>,
    to: spec_fn(int) -> int,
    from: spec_fn(int) -> int,
    id: Option<i64>,
)
    requires
        is_reordering(s, r, to, from),
    ensures
        has_id(s, id) == has_id(r, id),
{
    if has_id(s, id) {
        let i = choose|i: int| 0 <= i < field_count(s) && #[trigger] id_at(s, i) == id;
        lemma_moved(s, r, to, from, i);
        assert(id_at(r, moved(s, r, to, i)) == id);
    }
    if has_id(r, id) {
        let i = choose|i: int| 0 <= i < field_count(r) && #[trigger] id_at(r, i) == id;
        lemma_moved(r, s, from, to, i);
        assert(id_at(s, moved(r, s, from, i)) == id);
    }
}

proof fn lemma_ids_valid_moved(
    s: Seq<StructFieldView>,
    r: Seq<StructFieldView>,
    to: spec_fn(int) -> int,
    from: spec_fn(int) -> int,
)
    requires
        is_reordering(s, r, to, from),
        ids_valid(s),
    ensures
        ids_valid(r),
{
    assert forall|i: int| 0 <= i < field_count(r) implies #[trigger] id_at(r, i) is Some by {
        lemma_moved(r, s, from, to, i);
        assert(id_at(s, moved(r, s, from, i)) is Some);
    }
    assert forall|i: int, j: int| 0 <= i < j < field_count(r) implies #[trigger] id_at(r, i)
        != #[trigger] id_at(r, j) by {
        lemma_moved(r, s, from, to, i);
        lemma_moved(r, s, from, to, j);
        let x = moved(r, s, from, i);
        let y = moved(r, s, from, j);
        assert(x != y);
        if x < y {
            assert(id_at(s, x) != id_at(s, y));
        } else {
            assert(id_at(s, y) != id_at(s, x));
        }
    }
}

proof fn lemma_reported_moved(
    s: Seq<StructFieldView>,
    r: Seq<StructFieldView>,
    to: spec_fn(int) -> int,
    from: spec_fn(int) -> int,
    others: Seq<StructFieldView>,
    other_order: Seq<StructFieldView>,
    c: FieldChangeView,
)
    requires
        is_reordering(s, r, to, from),
        forall|id: Option<i64>| has_id(others, id) == has_id(other_order, id),
        collected(s, seq![]) is Ok,
        collected(r, seq![]) is Ok,
        collected(others, seq![]) is Ok,
        collected(other_order, seq![]) is Ok,
        only_in(collected(s, seq![])->Ok_0, collected(others, seq![])->Ok_0).contains(c),
    ensures
        only_in(collected(r, seq![])->Ok_0, collected(other_order, seq![])->Ok_0).contains(c),
{
    lemma_reported(s, others, c);
    lemma_reported(r, other_order, c);
    let i = choose|i: int|
        0 <= i < field_count(s) && is_reported(s, others, i) && c == #[trigger] change_at(s, i);
    lemma_moved(s, r, to, from, i);
    let m = moved(s, r, to, i);
    lemma_collected(s);
    assert(path_at(s, i).len() >= 1);
    assert(is_reported(r, other_order, m));
    assert(change_at(r, m) == c);
}

/// Every report of one diff is in the other.
spec fn is_part_of(d: SchemaDiffView, e: SchemaDiffView) -> bool {
    &&& forall|c: FieldChangeView| #[trigger]
        d.added_fields.contains(c) ==> e.added_fields.contains(c)
    &&& forall|c: FieldChangeView| #[trigger]
        d.removed_fields.contains(c) ==> e.removed_fields.contains(c)
    &&& forall|u: FieldUpdateView| #[trigger]
        d.updated_fields.contains(u) ==> e.updated_fields.contains(u)
    &&& d.has_breaking_changes ==> e.has_breaking_changes
}

proof fn lemma_reordered(
    before: Seq<StructFieldView>,
    before_order: Seq<StructFieldView>,
    to1: spec_fn(int) -> int,
    from1: spec_fn(int) -> int,
    after: Seq<StructFieldView>,
    after_order: Seq<StructFieldView>,
    to2: spec_fn(int) -> int,
    from2: spec_fn(int) -> int,
)
    requires
        is_reordering(before, before_order, to1, from1),
        is_reordering(after, after_order, to2, from2),
        schema_diff(before, after) is Ok,
    ensures
        schema_diff(before_order, after_order) is Ok,
        is_part_of(
            schema_diff(before, after)->Ok_0,
            schema_diff(before_order, after_order)->Ok_0,
        ),
{
    law_comparable(before, after);
    lemma_ids_valid_moved(before, before_order, to1, from1);
    lemma_ids_valid_moved(after, after_order, to2, from2);
    assert forall|j: int, i: int|
        0 <= j < field_count(before_order) && 0 <= i < field_count(after_order)
            && #[trigger] id_at(before_order, j) == #[trigger] id_at(
            after_order,
            i,
        ) implies physical_name_of(field_at(before_order, j)) is Some && physical_name_of(
        field_at(before_order, j),
    ) == physical_name_of(field_at(after_order, i)) by {
        lemma_moved(before_order, before, from1, to1, j);
        lemma_moved(after_order, after, from2, to2, i);
        assert(id_at(before, moved(before_order, before, from1, j)) == id_at(
            after,
            moved(after_order, after, from2, i),
        ));
    }
    law_comparable(before_order, after_order);
    lemma_diff(before, after);
    lemma_diff(before_order, after_order);
    let d = schema_diff(before, after)->Ok_0;
    let e = schema_diff(before_order, after_order)->Ok_0;
    assert forall|id: Option<i64>| has_id(before, id) == has_id(before_order, id) by {
        lemma_has_id_moved(before, before_order, to1, from1, id);
    }
    assert forall|id: Option<i64>| has_id(after, id) == has_id(after_order, id) by {
        lemma_has_id_moved(after, after_order, to2, from2, id);
    }
    assert forall|c: FieldChangeView| #[trigger]
        d.added_fields.contains(c) implies e.added_fields.contains(c) by {
        lemma_reported_moved(after, after_order, to2, from2, before, before_order, c);
    }
    assert forall|c: FieldChangeView| #[trigger]
        d.removed_fields.contains(c) implies e.removed_fields.contains(c) by {
        lemma_reported_moved(before, before_order, to1, from1, after, after_order, c);
    }
    assert forall|u: FieldUpdateView| #[trigger]
        d.updated_fields.contains(u) implies e.updated_fields.contains(u) by {
        let k = choose|k: int| 0 <= k < d.updated_fields.len() && d.updated_fields[k] == u;
        law_no_other_updates(before, after, k);
        let (j, i) = choose|j: int, i: int|
            0 <= j < field_count(before) && 0 <= i < field_count(after) && id_at(before, j)
                == id_at(after, i) && u == #[trigger] update_at(before, after, j, i);
        law_updated(before, after, j, i);
        lemma_moved(before, before_order, to1, from1, j);
        lemma_moved(after, after_order, to2, from2, i);
        let y = moved(before, before_order, to1, j);
        let x = moved(after, after_order, to2, i);
        law_updated(before_order, after_order, y, x);
        assert(update_at(before_order, after_order, y, x) == u);
    }
    if d.has_breaking_changes {
        if d.removed_fields.len() > 0 {
            assert(d.removed_fields.contains(d.removed_fields[0]));
            assert(e.removed_fields.contains(d.removed_fields[0]));
        } else if exists|i: int|
            0 <= i < d.added_fields.len() && !(#[trigger] d.added_fields[i]).field.nullable {
            let i = choose|i: int|
                0 <= i < d.added_fields.len() && !(#[trigger] d.added_fields[i]).field.nullable;
            let c = d.added_fields[i];
            assert(d.added_fields.contains(c));
            assert(e.added_fields.contains(c));
            let k = choose|k: int| 0 <= k < e.added_fields.len() && e.added_fields[k] == c;
            assert(!e.added_fields[k].field.nullable);
        } else {
            let i = choose|i: int|
                0 <= i < d.updated_fields.len() && any_breaking(
                    (#[trigger] d.updated_fields[i]).change_types,
                );
            let u = d.updated_fields[i];
            assert(d.updated_fields.contains(u));
            assert(e.updated_fields.contains(u));
            let k = choose|k: int| 0 <= k < e.updated_fields.len() && e.updated_fields[k] == u;
            assert(any_breaking(e.updated_fields[k].change_types));
        }
    }
}

/// The order of the top-level fields does not matter: with the fields of either schema in another
/// order, the schemas can be compared just as well, the same additions, removals and updates are
/// reported, and the diff is as breaking as it was.
pub proof fn law_order_of_top_level_fields(
    before: Seq<StructFieldView>,
    before_order: Seq<StructFieldView>,
    to1: spec_fn(int) -> int,
    from1: spec_fn(int) -> int,
    after: Seq<StructFieldView>,
    after_order: Seq<StructFieldView>,
    to2: spec_fn(int) -> int,
    from2: spec_fn(int) -> int,
)
    requires
        is_reordering(before, before_order, to1, from1),
        is_reordering(after, after_order, to2, from2),
    ensures
        schema_diff(before, after) is Ok <==> schema_diff(before_order, after_order) is Ok,
        schema_diff(before, after) is Ok ==> {
            let d = schema_diff(before, after)->Ok_0;
            let e = schema_diff(before_order, after_order)->Ok_0;
            &&& forall|c: FieldChangeView| #[trigger]
                d.added_fields.contains(c) <==> e.added_fields.contains(c)
            &&& forall|c: FieldChangeView| #[trigger]
                d.removed_fields.contains(c) <==> e.removed_fields.contains(c)
            &&& forall|u: FieldUpdateView| #[trigger]
                d.updated_fields.contains(u) <==> e.updated_fields.contains(u)
            &&& d.has_breaking_changes == e.has_breaking_changes
        },
{
    if schema_diff(before, after) is Ok {
        lemma_reordered(
            before,
            before_order,
            to1,
            from1,
            after,
            after_order,
            to2,
            from2,
        );
    }
    if schema_diff(before_order, after_order) is Ok {
        lemma_reordered(
            before_order,
            before,
            from1,
            to1,
            after_order,
            after,
            from2,
            to2,
        );
    }
}

} // verus!
