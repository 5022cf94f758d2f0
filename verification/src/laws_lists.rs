//! What the diff of two lists of fields is, and what is kept of lists of changes.

use crate::ancestors::{
    change_paths, enclosing, encloses, has_ancestor_in, lemma_enclosing_unique, parent_not_in,
    without_descendants,
};
use crate::change::{
    is_nested_change, is_nested_update, is_top_level_change, is_top_level_update, FieldChange,
    FieldChangeType, FieldChangeView, FieldUpdate, FieldUpdateView, SchemaDiffView,
};
use crate::compare::{
    field_changes, field_update, physical_name_error, physical_name_of, FieldWithPath,
    FieldWithPathView,
};
use crate::diff::{
    change_of, collected, duplicate_id_error, field_paths, fields_diff, find,
    ids_distinct, indices, is_absent, is_first_name_error, is_map_by_id, is_outermost_absent,
    lemma_find, lemma_first_repeat, name_error, only_in, schema_diff, update_from,
};
use crate::error::SchemaDiffErrorView;
use crate::laws::{lemma_duplicate_id_error, lemma_first_name_error};
use crate::laws_compare::law_breaking_changes;
use crate::schema::StructFieldView;
use vstd::prelude::*;

verus! {

/// The diff of two schemas is that of the fields collected from them. Where fields cannot be
/// collected there is that error, first of the old schema, then of the new one.
pub proof fn law_diff_of_collected(before: Seq<StructFieldView>, after: Seq<StructFieldView>)
    ensures
        collected(before, seq![]) is Err ==> schema_diff(before, after) == Err::<SchemaDiffView, _>(
            collected(before, seq![])->Err_0,
        ),
        collected(before, seq![]) is Ok && collected(after, seq![]) is Err ==> schema_diff(
            before,
            after,
        ) == Err::<SchemaDiffView, _>(collected(after, seq![])->Err_0),
        collected(before, seq![]) is Ok && collected(after, seq![]) is Ok ==> schema_diff(
            before,
            after,
        ) == fields_diff(collected(before, seq![])->Ok_0, collected(after, seq![])->Ok_0),
{
}

/// Some field of the list has this id.
pub open spec fn has_field_with_id(fields: Seq<FieldWithPathView>, id: i64) -> bool {
    exists|j: int| 0 <= j < fields.len() && (#[trigger] fields[j]).field_id == id
}

/// No two fields of the list have the same id.
pub open spec fn no_id_twice(fields: Seq<FieldWithPathView>) -> bool {
    forall|i: int, j: int|
        0 <= i < fields.len() && 0 <= j < fields.len() && i != j ==> (
        #[trigger] fields[i]).field_id != (#[trigger] fields[j]).field_id
}

proof fn lemma_no_id_twice(fields: Seq<FieldWithPathView>)
    ensures
        no_id_twice(fields) == ids_distinct(fields),
{
    if ids_distinct(fields) {
        assert forall|i: int, j: int|
            0 <= i < fields.len() && 0 <= j < fields.len() && i != j implies (
        #[trigger] fields[i]).field_id != (#[trigger] fields[j]).field_id by {
            if i < j {
                assert(fields[i].field_id != fields[j].field_id);
            } else {
                assert(fields[j].field_id != fields[i].field_id);
            }
        }
    }
    if no_id_twice(fields) {
        assert forall|i: int, j: int| 0 <= i < j < fields.len() implies (
        #[trigger] fields[i]).field_id != (#[trigger] fields[j]).field_id by {
            assert(fields[i].field_id != fields[j].field_id);
        }
    }
}

/// Two lists of fields can be compared exactly where no id comes twice in either of them, and every
/// two fields with the same id have a physical name, and the same one.
pub proof fn law_comparable_lists(before: Seq<FieldWithPathView>, after: Seq<FieldWithPathView>)
    ensures
        fields_diff(before, after) is Ok <==> {
            &&& no_id_twice(before)
            &&& no_id_twice(after)
            &&& forall|j: int, i: int|
                0 <= j < before.len() && 0 <= i < after.len() && (#[trigger] before[j]).field_id
                    == (#[trigger] after[i]).field_id ==> physical_name_of(before[j].field) is Some
                    && physical_name_of(before[j].field) == physical_name_of(after[i].field)
        },
        duplicate_id_error(before) is None <==> no_id_twice(before),
        ids_distinct(before) <==> no_id_twice(before),
{
    lemma_no_id_twice(before);
    lemma_no_id_twice(after);
    lemma_duplicate_id_error(before);
    lemma_duplicate_id_error(after);
    lemma_first_name_error(before, after);
    if ids_distinct(before) && ids_distinct(after) {
        if fields_diff(before, after) is Ok {
            assert forall|j: int, i: int|
                0 <= j < before.len() && 0 <= i < after.len() && (#[trigger] before[j]).field_id
                    == (#[trigger] after[i]).field_id implies physical_name_of(
                before[j].field,
            ) is Some && physical_name_of(before[j].field) == physical_name_of(after[i].field) by {
                lemma_find(before, j);
                assert(name_error(before, after[i]) is None);
            }
        }
        if forall|j: int, i: int|
            0 <= j < before.len() && 0 <= i < after.len() && (#[trigger] before[j]).field_id == (
            #[trigger] after[i]).field_id ==> physical_name_of(before[j].field) is Some
                && physical_name_of(before[j].field) == physical_name_of(after[i].field) {
            assert forall|i: int| 0 <= i < after.len() implies name_error(
                before,
                #[trigger] after[i],
            ) is None by {
                if find(before, after[i].field_id) is Some {
                    let j = choose|j: int|
                        0 <= j < before.len() && (#[trigger] before[j]).field_id
                            == after[i].field_id;
                    lemma_find(before, j);
                }
            }
        }
    }
}

/// The first id that comes again is reported, with the paths of both fields: first in the old list,
/// then in the new one.
pub proof fn law_repeated_id(
    fields: Seq<FieldWithPathView>,
    others: Seq<FieldWithPathView>,
    i: int,
    j: int,
)
    requires
        0 <= i < j < fields.len(),
        fields[i].field_id == fields[j].field_id,
        forall|a: int, b: int|
            0 <= a < b < j ==> (#[trigger] fields[a]).field_id != (#[trigger] fields[b]).field_id,
    ensures
        ({
            let e = SchemaDiffErrorView::DuplicateFieldId {
                id: fields[j].field_id,
                path1: fields[i].path,
                path2: fields[j].path,
            };
            &&& duplicate_id_error(fields) == Some(e)
            &&& fields_diff(fields, others) == Err::<SchemaDiffView, _>(e)
            &&& no_id_twice(others) ==> fields_diff(others, fields) == Err::<SchemaDiffView, _>(e)
        }),
{
    lemma_first_repeat(fields, i, j);
    lemma_no_id_twice(others);
    lemma_duplicate_id_error(others);
}

/// Where no id comes twice, the first field of the new list that does not go together with the one
/// that has its id in the old list is reported.
pub proof fn law_first_wrong_name(
    before: Seq<FieldWithPathView>,
    after: Seq<FieldWithPathView>,
    j: int,
    i: int,
)
    requires
        no_id_twice(before),
        no_id_twice(after),
        0 <= j < before.len(),
        0 <= i < after.len(),
        before[j].field_id == after[i].field_id,
        physical_name_error(before[j], after[i]) is Some,
        forall|k: int, l: int|
            0 <= k < before.len() && 0 <= l < i && (#[trigger] before[k]).field_id == (
            #[trigger] after[l]).field_id ==> physical_name_error(before[k], after[l]) is None,
    ensures
        fields_diff(before, after) == Err::<SchemaDiffView, _>(
            physical_name_error(before[j], after[i])->0,
        ),
{
    lemma_no_id_twice(before);
    lemma_no_id_twice(after);
    lemma_duplicate_id_error(before);
    lemma_duplicate_id_error(after);
    lemma_find(before, j);
    assert forall|l: int| 0 <= l < i implies name_error(before, #[trigger] after[l]) is None by {
        if find(before, after[l].field_id) is Some {
            let k = choose|k: int|
                0 <= k < before.len() && (#[trigger] before[k]).field_id == after[l].field_id;
            lemma_find(before, k);
        }
    }
    assert(is_first_name_error(before, after, i));
    let m = choose|m: int| is_first_name_error(before, after, m);
    assert(m == i);
}

/// A map by id has every field under its id, and nothing else.
pub proof fn law_map_by_id(
    map: Map<i64, FieldWithPath>,
    fields: Seq<FieldWithPathView>,
    id: i64,
    i: int,
)
    requires
        no_id_twice(fields),
        is_map_by_id(map, fields),
    ensures
        map.contains_key(id) <==> has_field_with_id(fields, id),
        0 <= i < fields.len() ==> map.contains_key(fields[i].field_id)
            && map[fields[i].field_id]@ == fields[i],
{
    lemma_no_id_twice(fields);
    assert(map.contains_key(id) == map.contains_key(id));
    if 0 <= i < fields.len() {
        lemma_find(fields, i);
        assert(map.contains_key(fields[i].field_id) == map.contains_key(fields[i].field_id));
    }
}

/// The field at `k` is the nearest before the one at `i` whose path is that of the one at `i` without
/// the last name.
pub open spec fn is_nearest_parent(fields: Seq<FieldWithPathView>, k: int, i: int) -> bool {
    &&& 0 <= k < i < fields.len()
    &&& fields[i].path.len() > 1
    &&& fields[i].path == fields[k].path.push(fields[i].path.last())
    &&& forall|m: int| k < m < i ==> (#[trigger] fields[m]).path != fields[k].path
}

/// `at` are the places, in ascending order, of the fields that are reported by `changes`: those whose
/// ids no field of `others` has, but not those whose nearest parent is also such a field.
pub open spec fn are_places_of_changes(
    at: Seq<int>,
    changes: Seq<FieldChangeView>,
    fields: Seq<FieldWithPathView>,
    others: Seq<FieldWithPathView>,
) -> bool {
    &&& at.len() == changes.len()
    &&& forall|m: int, n: int| 0 <= m < n < at.len() ==> #[trigger] at[m] < #[trigger] at[n]
    &&& forall|m: int|
        0 <= m < at.len() ==> {
            &&& 0 <= #[trigger] at[m] < fields.len()
            &&& changes[m].field == fields[at[m]].field
            &&& changes[m].path == fields[at[m]].path
        }
    &&& forall|i: int|
        0 <= i < fields.len() ==> (#[trigger] at.contains(i) <==> {
            &&& !has_field_with_id(others, fields[i].field_id)
            &&& forall|k: int| #[trigger]
                is_nearest_parent(fields, k, i) ==> has_field_with_id(others, fields[k].field_id)
        })
}

/// `at` are the places, in ascending order, of the fields of the new list that are reported by
/// `updates`: those with the id of a field of the old list from which they have changes.
pub open spec fn are_places_of_updates(
    at: Seq<int>,
    updates: Seq<FieldUpdateView>,
    before: Seq<FieldWithPathView>,
    after: Seq<FieldWithPathView>,
) -> bool {
    &&& at.len() == updates.len()
    &&& forall|m: int, n: int| 0 <= m < n < at.len() ==> #[trigger] at[m] < #[trigger] at[n]
    &&& forall|m: int, j: int|
        0 <= m < at.len() && 0 <= j < before.len() && 0 <= at[m] < after.len() && (
        #[trigger] before[j]).field_id == after[#[trigger] at[m]].field_id ==> {
            &&& updates[m].before == before[j].field
            &&& updates[m].after == after[at[m]].field
            &&& updates[m].path == after[at[m]].path
            &&& updates[m].change_types == field_changes(before[j].field, after[at[m]].field)
        }
    &&& forall|i: int| #[trigger]
        at.contains(i) <==> 0 <= i < after.len() && exists|j: int|
            0 <= j < before.len() && (#[trigger] before[j]).field_id == after[i].field_id
                && field_changes(before[j].field, after[i].field).len() > 0
}

proof fn lemma_filter_indices(n: nat, p: spec_fn(int) -> bool)
    ensures
        ({
            let at = indices(n).filter(p);
            &&& forall|m: int, k: int| 0 <= m < k < at.len() ==> #[trigger] at[m] < #[trigger] at[k]
            &&& forall|m: int| 0 <= m < at.len() ==> 0 <= #[trigger] at[m] < n && p(at[m])
            &&& forall|i: int| #[trigger] at.contains(i) <==> 0 <= i < n && p(i)
        }),
    decreases n,
{
    reveal(Seq::filter);
    let at = indices(n).filter(p);
    if n > 0 {
        let l = (n - 1) as nat;
        let rest = indices(l).filter(p);
        lemma_filter_indices(l, p);
        assert(indices(n).drop_last() =~= indices(l));
        assert(indices(n).last() == l);
        assert forall|i: int| #[trigger] at.contains(i) <==> 0 <= i < n && p(i) by {
            if at.contains(i) {
                let m = choose|m: int| 0 <= m < at.len() && at[m] == i;
                if m < rest.len() {
                    assert(rest[m] == i);
                }
            }
            if 0 <= i < n && p(i) {
                if i < l {
                    assert(rest.contains(i));
                    let m = choose|m: int| 0 <= m < rest.len() && rest[m] == i;
                    assert(at[m] == i);
                } else {
                    assert(at[at.len() - 1] == i);
                }
            }
        }
    }
}

proof fn lemma_places_of_changes(fields: Seq<FieldWithPathView>, others: Seq<FieldWithPathView>)
    ensures
        exists|at: Seq<int>|
            are_places_of_changes(at, only_in(fields, others), fields, others),
{
    let p = is_outermost_absent(fields, others);
    let at = indices(fields.len()).filter(p);
    let changes = only_in(fields, others);
    let paths = field_paths(fields);
    lemma_filter_indices(fields.len(), p);
    assert forall|m: int| 0 <= m < at.len() implies {
        &&& 0 <= #[trigger] at[m] < fields.len()
        &&& changes[m].field == fields[at[m]].field
        &&& changes[m].path == fields[at[m]].path
    } by {
        assert(changes[m] == change_of(fields)(at[m]));
    }
    assert forall|i: int| 0 <= i < fields.len() implies (#[trigger] at.contains(i) <==> {
        &&& !has_field_with_id(others, fields[i].field_id)
        &&& forall|k: int| #[trigger]
            is_nearest_parent(fields, k, i) ==> has_field_with_id(others, fields[k].field_id)
    }) by {
        assert(is_absent(fields, others)(i) == !has_field_with_id(others, fields[i].field_id));
        assert forall|k: int| #[trigger] is_nearest_parent(fields, k, i) <==> encloses(paths, k, i) by {
            lemma_nearest_parent(fields, k, i);
        }
        if exists|k: int| encloses(paths, k, i) {
            let k = choose|k: int| encloses(paths, k, i);
            assert(encloses(paths, k, i));
            lemma_enclosing_unique(paths, k, i);
            assert(is_nearest_parent(fields, k, i));
            assert(is_absent(fields, others)(k) == !has_field_with_id(others, fields[k].field_id));
            assert forall|l: int| #[trigger] is_nearest_parent(fields, l, i) implies l == k by {
                lemma_enclosing_unique(paths, l, i);
            }
        }
    }
    assert(are_places_of_changes(at, changes, fields, others));
}

proof fn lemma_nearest_parent(fields: Seq<FieldWithPathView>, k: int, i: int)
    ensures
        is_nearest_parent(fields, k, i) == encloses(field_paths(fields), k, i),
{
    let paths = field_paths(fields);
    if 0 <= k < i < fields.len() && fields[i].path.len() > 1 {
        let path = fields[i].path;
        assert(path.drop_last().push(path.last()) =~= path);
        if path == fields[k].path.push(path.last()) {
            assert(path.drop_last() =~= fields[k].path);
        }
        if is_nearest_parent(fields, k, i) {
            assert forall|m: int| k < m < i implies #[trigger] paths[m] != paths[i].drop_last() by {
                assert(fields[m].path != fields[k].path);
            }
        }
        if encloses(paths, k, i) {
            assert forall|m: int| k < m < i implies (#[trigger] fields[m]).path
                != fields[k].path by {
                assert(paths[m] != paths[i].drop_last());
            }
        }
    }
}

/// What the diff of two lists reports as added and as removed: exactly the fields whose ids the
/// other list does not have, in the order of their list, but not those whose nearest parent is one
/// of them.
pub proof fn law_changes_of_lists(before: Seq<FieldWithPathView>, after: Seq<FieldWithPathView>)
    requires
        fields_diff(before, after) is Ok,
    ensures
        exists|at: Seq<int>|
            are_places_of_changes(
                at,
                fields_diff(before, after)->Ok_0.added_fields,
                after,
                before,
            ),
        exists|at: Seq<int>|
            are_places_of_changes(
                at,
                fields_diff(before, after)->Ok_0.removed_fields,
                before,
                after,
            ),
{
    let d = fields_diff(before, after)->Ok_0;
    lemma_places_of_changes(after, before);
    lemma_places_of_changes(before, after);
    let added = choose|at: Seq<int>|
        are_places_of_changes(at, only_in(after, before), after, before);
    let removed = choose|at: Seq<int>|
        are_places_of_changes(at, only_in(before, after), before, after);
    assert(are_places_of_changes(added, d.added_fields, after, before));
    assert(are_places_of_changes(removed, d.removed_fields, before, after));
}

/// What the diff of two lists reports as updated: exactly the fields of the new list that have
/// changes from the field with their id in the old one, in the order of the new list.
pub proof fn law_updates_of_lists(before: Seq<FieldWithPathView>, after: Seq<FieldWithPathView>)
    requires
        fields_diff(before, after) is Ok,
    ensures
        exists|at: Seq<int>|
            are_places_of_updates(
                at,
                fields_diff(before, after)->Ok_0.updated_fields,
                before,
                after,
            ),
{
    law_comparable_lists(before, after);
    let f = update_from(before);
    let p = |i: int| f(after[i]) is Some;
    let at = indices(after.len()).filter(p);
    let updates = fields_diff(before, after)->Ok_0.updated_fields;
    lemma_filter_indices(after.len(), p);
    lemma_filter_map_places(after, f, p);
    assert forall|m: int, j: int|
        0 <= m < at.len() && 0 <= j < before.len() && 0 <= at[m] < after.len() && (
    #[trigger] before[j]).field_id == after[#[trigger] at[m]].field_id implies {
        &&& updates[m].before == before[j].field
        &&& updates[m].after == after[at[m]].field
        &&& updates[m].path == after[at[m]].path
        &&& updates[m].change_types == field_changes(before[j].field, after[at[m]].field)
    } by {
        lemma_find(before, j);
        assert(p(at[m]));
        assert(Some(updates[m]) == f(after[at[m]]));
        assert(f(after[at[m]]) == field_update(before[j], after[at[m]]));
    }
    assert forall|i: int| #[trigger]
        at.contains(i) <==> 0 <= i < after.len() && exists|j: int|
            0 <= j < before.len() && (#[trigger] before[j]).field_id == after[i].field_id
                && field_changes(before[j].field, after[i].field).len() > 0 by {
        if at.contains(i) {
            let j = choose|j: int|
                0 <= j < before.len() && (#[trigger] before[j]).field_id == after[i].field_id;
            lemma_find(before, j);
        }
        if 0 <= i < after.len() && exists|j: int|
            0 <= j < before.len() && (#[trigger] before[j]).field_id == after[i].field_id
                && field_changes(before[j].field, after[i].field).len() > 0 {
            let j = choose|j: int|
                0 <= j < before.len() && (#[trigger] before[j]).field_id == after[i].field_id
                    && field_changes(before[j].field, after[i].field).len() > 0;
            lemma_find(before, j);
            assert(p(i));
        }
    }
    assert(are_places_of_updates(at, updates, before, after));
}

proof fn lemma_filter_map_places<A, B>(
    s: Seq<A>,
    f: spec_fn(A) -> Option<B>,
    p: spec_fn(int) -> bool,
)
    requires
        forall|i: int| 0 <= i < s.len() ==> #[trigger] p(i) == f(s[i]) is Some,
    ensures
        ({
            let at = indices(s.len()).filter(p);
            &&& at.len() == s.filter_map(f).len()
            &&& forall|m: int|
                0 <= m < at.len() ==> 0 <= #[trigger] at[m] < s.len() && Some(s.filter_map(f)[m])
                    == f(s[at[m]])
        }),
    decreases s.len(),
{
    reveal(Seq::filter);
    let at = indices(s.len()).filter(p);
    if s.len() > 0 {
        let rest = s.drop_last();
        let l = rest.len();
        assert forall|i: int| 0 <= i < rest.len() implies #[trigger] p(i) == f(rest[i]) is Some by {
            assert(rest[i] == s[i]);
        }
        lemma_filter_map_places(rest, f, p);
        assert(indices(s.len()).drop_last() =~= indices(l));
        assert(indices(s.len()).last() == l);
        assert(p(l as int) == f(s[l as int]) is Some);
        let earlier = indices(l).filter(p);
        assert forall|m: int| 0 <= m < at.len() implies 0 <= #[trigger] at[m] < s.len() && Some(
            s.filter_map(f)[m],
        ) == f(s[at[m]]) by {
            if m < earlier.len() {
                assert(at[m] == earlier[m]);
                assert(s.filter_map(f)[m] == rest.filter_map(f)[m]);
                assert(rest[earlier[m]] == s[earlier[m]]);
            }
        }
    }
}

/// The diff of two lists is breaking exactly where it reports a removed field, an added field that is
/// required, or an updated field of which the type or the metadata was changed or a nullability
/// tightened.
pub proof fn law_breaking_lists(before: Seq<FieldWithPathView>, after: Seq<FieldWithPathView>)
    requires
        fields_diff(before, after) is Ok,
    ensures
        ({
            let d = fields_diff(before, after)->Ok_0;
            d.has_breaking_changes <==> {
                ||| d.removed_fields.len() > 0
                ||| exists|i: int|
                    0 <= i < d.added_fields.len() && !(
                    #[trigger] d.added_fields[i]).field.nullable
                ||| exists|i: int|
                    0 <= i < d.updated_fields.len() && ((
                    #[trigger] d.updated_fields[i]).change_types.contains(
                        FieldChangeType::TypeChanged,
                    ) || d.updated_fields[i].change_types.contains(
                        FieldChangeType::NullabilityTightened,
                    ) || d.updated_fields[i].change_types.contains(
                        FieldChangeType::ContainerNullabilityTightened,
                    ) || d.updated_fields[i].change_types.contains(FieldChangeType::MetadataChanged))
            }
        }),
{
    let d = fields_diff(before, after)->Ok_0;
    law_breaking_changes(d.added_fields, d.removed_fields, d.updated_fields);
}

/// The enclosing place among paths is that of the nearest earlier path that lacks only the last name.
pub proof fn law_enclosing_place(paths: Seq<Seq<Seq<char>>>, k: int, i: int)
    requires
        0 <= i < paths.len(),
    ensures
        enclosing(paths, i) == Some(k) <==> {
            &&& 0 <= k < i
            &&& paths[i].len() > 1
            &&& paths[i].drop_last() == paths[k]
            &&& forall|m: int| k < m < i ==> #[trigger] paths[m] != paths[k]
        },
{
    if enclosing(paths, i) == Some(k) {
        assert(encloses(paths, k, i));
    }
    if 0 <= k < i && paths[i].len() > 1 && paths[i].drop_last() == paths[k] && forall|m: int|
        k < m < i ==> #[trigger] paths[m] != paths[k] {
        assert(encloses(paths, k, i));
        lemma_enclosing_unique(paths, k, i);
    }
}

/// A change is kept exactly where its path has one name or no change in the list has the path that
/// lacks its last name. What is kept stays in order.
pub proof fn law_kept_changes(changes: Seq<FieldChangeView>)
    ensures
        without_descendants(changes) == changes.filter(
            |c: FieldChangeView|
                c.path.len() == 1 || forall|d: FieldChangeView| #[trigger]
                    changes.contains(d) ==> d.path != c.path.drop_last(),
        ),
        forall|c: FieldChangeView| #[trigger]
            without_descendants(changes).contains(c) <==> changes.contains(c) && (c.path.len() == 1
                || forall|d: FieldChangeView| #[trigger]
                changes.contains(d) ==> d.path != c.path.drop_last()),
{
    let keep = |c: FieldChangeView|
        c.path.len() == 1 || forall|d: FieldChangeView| #[trigger]
            changes.contains(d) ==> d.path != c.path.drop_last();
    assert forall|c: FieldChangeView| #[trigger] keep(c) == parent_not_in(changes)(c) by {
        let parent = c.path.drop_last();
        if change_paths(changes).contains(parent) {
            let i = choose|i: int| 0 <= i < changes.len() && change_paths(changes)[i] == parent;
            assert(changes.contains(changes[i]));
        } else {
            assert forall|d: FieldChangeView| #[trigger] changes.contains(d) implies d.path
                != parent by {
                let i = choose|i: int| 0 <= i < changes.len() && changes[i] == d;
                assert(change_paths(changes)[i] == d.path);
            }
        }
    }
    assert(keep =~= parent_not_in(changes));
    assert forall|c: FieldChangeView| #[trigger]
        without_descendants(changes).contains(c) <==> changes.contains(c) && keep(c) by {
        if without_descendants(changes).contains(c) {
            changes.lemma_filter_contains_rev(keep, c);
            let m = choose|m: int|
                0 <= m < changes.filter(keep).len() && changes.filter(keep)[m] == c;
            changes.lemma_filter_pred(keep, m);
        }
        if changes.contains(c) && keep(c) {
            let i = choose|i: int| 0 <= i < changes.len() && changes[i] == c;
            changes.lemma_filter_contains(keep, i);
        }
    }
}

/// A path has an ancestor in a list exactly where the list has a path, of at least one name, that is
/// shorter than it and that it begins with.
pub proof fn law_ancestor_in_list(path: Seq<Seq<char>>, paths: Seq<Seq<Seq<char>>>)
    ensures
        has_ancestor_in(path, paths) <==> exists|j: int|
            0 <= j < paths.len() && 0 < (#[trigger] paths[j]).len() < path.len()
                && paths[j].is_prefix_of(path),
{
    if has_ancestor_in(path, paths) {
        let k = choose|k: int| 0 < k < path.len() && paths.contains(#[trigger] path.take(k));
        let j = choose|j: int| 0 <= j < paths.len() && paths[j] == path.take(k);
        assert(paths[j].is_prefix_of(path));
    }
    if exists|j: int|
        0 <= j < paths.len() && 0 < (#[trigger] paths[j]).len() < path.len()
            && paths[j].is_prefix_of(path) {
        let j = choose|j: int|
            0 <= j < paths.len() && 0 < (#[trigger] paths[j]).len() < path.len()
                && paths[j].is_prefix_of(path);
        let k = paths[j].len() as int;
        assert(path.take(k) =~= paths[j]);
        assert(paths.contains(path.take(k)));
    }
}

/// Changes and updates at the top level are those with one name on their path, nested ones those with
/// more.
pub proof fn law_levels(changes: Seq<FieldChange>, updates: Seq<FieldUpdate>)
    ensures
        changes.filter(is_top_level_change()) == changes.filter(
            |c: FieldChange| c.path@.len() == 1,
        ),
        changes.filter(is_nested_change()) == changes.filter(|c: FieldChange| c.path@.len() > 1),
        updates.filter(is_top_level_update()) == updates.filter(
            |u: FieldUpdate| u.path@.len() == 1,
        ),
        updates.filter(is_nested_update()) == updates.filter(|u: FieldUpdate| u.path@.len() > 1),
{
    assert(is_top_level_change() =~= |c: FieldChange| c.path@.len() == 1);
    assert(is_nested_change() =~= |c: FieldChange| c.path@.len() > 1);
    assert(is_top_level_update() =~= |u: FieldUpdate| u.path@.len() == 1);
    assert(is_nested_update() =~= |u: FieldUpdate| u.path@.len() > 1);
}

/// A diff counts the fields that were added, removed and updated, and is empty where there are none.
pub proof fn law_count(d: SchemaDiffView)
    ensures
        d.change_count() == d.added_fields.len() + d.removed_fields.len() + d.updated_fields.len(),
        d.is_empty() <==> d.added_fields.len() == 0 && d.removed_fields.len() == 0
            && d.updated_fields.len() == 0,
{
}

} // verus!
