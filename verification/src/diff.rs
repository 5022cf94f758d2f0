//! The diff of two schemas.

use crate::ancestors::{enclosing, encloses, lemma_enclosing_unique};
use crate::change::{
    changes_view, has_breaking, updates_view, FieldChange, FieldChangeView,
    FieldUpdate, FieldUpdateView, SchemaDiff, SchemaDiffView,
};
use crate::column_name::ColumnName;
use crate::compare::{
    compute_field_update, field_id, field_update, get_field_id_for_path, physical_name_error,
    FieldWithPath, FieldWithPathView,
};
use crate::error::{SchemaDiffError, SchemaDiffErrorView};
use crate::schema::{
    fields_view, DataType, DataTypeView, StructField, StructFieldView, StructType,
};
use std::collections::HashMap;
use crate::seqs::lemma_filter_step;
use vstd::prelude::*;

verus! {

broadcast use vstd::std_specs::hash::group_hash_axioms;

/// The fields in a list, each with its path and its id.
pub open spec fn with_paths_view(fields: Seq<FieldWithPath>) -> Seq<FieldWithPathView> {
    fields.map_values(|f: FieldWithPath| f@)
}

/// A field and where it is.
pub struct LocatedField {
    pub field: StructFieldView,
    pub path: Seq<Seq<char>>,
}

/// All the fields of a struct at `parent`, in order: each of its fields, followed by those within
/// that field's data type.
pub open spec fn all_fields(fields: Seq<StructFieldView>, parent: Seq<Seq<char>>) -> Seq<
    LocatedField,
>
    decreases fields,
{
    if fields.len() == 0 {
        seq![]
    } else {
        let field = fields.last();
        let path = parent.push(field.name);
        all_fields(fields.drop_last(), parent) + seq![LocatedField { field, path }]
            + fields_within(field.data_type, path)
    }
}

/// All the fields within the data type of the field at `path`, in order: those of a struct, those
/// within the elements of an array, those within the keys and then the values of a map.
///
/// Only fields have names on a path. A field of a struct that is the element of an array, or the
/// key or the value of a map, is immediately below the field that holds the array or the map. Two
/// fields of one name, in the key and in the value of a map, are told apart by their ids.
pub open spec fn fields_within(t: DataTypeView, path: Seq<Seq<char>>) -> Seq<LocatedField>
    decreases t,
{
    match t {
        DataTypeView::Primitive(_) => seq![],
        DataTypeView::Struct(fields) => all_fields(fields, path),
        DataTypeView::Array { element, .. } => fields_within(*element, path),
        DataTypeView::MapOf { key, value, .. } => fields_within(*key, path) + fields_within(
            *value,
            path,
        ),
    }
}

/// The field at `i` is the first that has no id.
pub open spec fn is_first_without_id(fields: Seq<LocatedField>, i: int) -> bool {
    &&& 0 <= i < fields.len()
    &&& field_id(fields[i].field) is None
    &&& forall|j: int| 0 <= j < i ==> field_id((#[trigger] fields[j]).field) is Some
}

/// The fields with their ids, or the error for the first field that has no id.
pub open spec fn with_ids(fields: Seq<LocatedField>) -> Result<
    Seq<FieldWithPathView>,
    SchemaDiffErrorView,
> {
    if exists|i: int| is_first_without_id(fields, i) {
        let i = choose|i: int| is_first_without_id(fields, i);
        Err(SchemaDiffErrorView::MissingFieldId { path: fields[i].path })
    } else {
        Ok(
            Seq::new(
                fields.len(),
                |i: int|
                    FieldWithPathView {
                        field: fields[i].field,
                        path: fields[i].path,
                        field_id: field_id(fields[i].field)->0,
                    },
            ),
        )
    }
}

/// All the fields of a struct at `parent`, at every nesting level, each with its path and its id, or
/// the error for the first field that has no id.
pub open spec fn collected(fields: Seq<StructFieldView>, parent: Seq<Seq<char>>) -> Result<
    Seq<FieldWithPathView>,
    SchemaDiffErrorView,
> {
    with_ids(all_fields(fields, parent))
}

/// All the fields within the data type of the field at `path`, each with its path and its id, or the
/// error for the first field that has no id.
pub open spec fn collected_within(t: DataTypeView, path: Seq<Seq<char>>) -> Result<
    Seq<FieldWithPathView>,
    SchemaDiffErrorView,
> {
    with_ids(fields_within(t, path))
}

/// One list of fields after another has the ids of both, or the error of the first that has one.
proof fn lemma_with_ids_add(s: Seq<LocatedField>, t: Seq<LocatedField>)
    ensures
        with_ids(s + t) == match with_ids(s) {
            Err(e) => Err(e),
            Ok(x) => match with_ids(t) {
                Err(e) => Err(e),
                Ok(y) => Ok(x + y),
            },
        },
{
    let both = s + t;
    if with_ids(s) is Err {
        let i = choose|i: int| is_first_without_id(s, i);
        assert(is_first_without_id(both, i)) by {
            assert forall|j: int| 0 <= j < i implies field_id((#[trigger] both[j]).field) is Some by {
                assert(both[j] == s[j]);
            }
        }
        lemma_first_without_id_unique(both, i);
    } else {
        lemma_all_with_ids(s);
        if with_ids(t) is Err {
            let i = choose|i: int| is_first_without_id(t, i);
            let k = s.len() + i;
            assert(is_first_without_id(both, k)) by {
                assert forall|j: int| 0 <= j < k implies field_id(
                    (#[trigger] both[j]).field,
                ) is Some by {
                    if j < s.len() {
                        assert(both[j] == s[j]);
                    } else {
                        assert(both[j] == t[j - s.len()]);
                    }
                }
            }
            lemma_first_without_id_unique(both, k);
        } else {
            lemma_all_with_ids(t);
            assert forall|j: int| !is_first_without_id(both, j) by {
                if 0 <= j < s.len() {
                    assert(both[j] == s[j]);
                } else if s.len() <= j < both.len() {
                    assert(both[j] == t[j - s.len()]);
                }
            }
            assert(with_ids(both)->Ok_0 =~= with_ids(s)->Ok_0 + with_ids(t)->Ok_0);
        }
    }
}

/// The first field without an id is the one that the error names.
pub(crate) proof fn lemma_first_without_id_unique(fields: Seq<LocatedField>, i: int)
    requires
        is_first_without_id(fields, i),
    ensures
        with_ids(fields) == Err::<Seq<FieldWithPathView>, _>(
            SchemaDiffErrorView::MissingFieldId { path: fields[i].path },
        ),
{
    let k = choose|k: int| is_first_without_id(fields, k);
    assert(k == i);
}

/// Where one field has no id, there is a first.
proof fn lemma_first_without_id_exists(fields: Seq<LocatedField>, i: int)
    requires
        0 <= i < fields.len(),
        field_id(fields[i].field) is None,
    ensures
        exists|k: int| is_first_without_id(fields, k),
    decreases i,
{
    if !is_first_without_id(fields, i) {
        let j = choose|j: int| 0 <= j < i && field_id((#[trigger] fields[j]).field) is None;
        lemma_first_without_id_exists(fields, j);
    }
}

/// There is no error exactly where every field has an id.
pub(crate) proof fn lemma_all_with_ids(fields: Seq<LocatedField>)
    ensures
        with_ids(fields) is Ok <==> forall|i: int|
            0 <= i < fields.len() ==> field_id((#[trigger] fields[i]).field) is Some,
{
    if exists|i: int| 0 <= i < fields.len() && field_id((#[trigger] fields[i]).field) is None {
        let i = choose|i: int|
            0 <= i < fields.len() && field_id((#[trigger] fields[i]).field) is None;
        lemma_first_without_id_exists(fields, i);
    } else {
        assert forall|i: int| !is_first_without_id(fields, i) by {}
    }
}

/// A field without an id among the first fields of a struct is reported whatever follows.
proof fn lemma_collected_prefix(fields: Seq<StructFieldView>, parent: Seq<Seq<char>>, n: int)
    requires
        0 <= n <= fields.len(),
        collected(fields.take(n), parent) is Err,
    ensures
        collected(fields, parent) == collected(fields.take(n), parent),
    decreases fields.len(),
{
    if n == fields.len() {
        assert(fields.take(n) =~= fields);
    } else {
        let rest = fields.drop_last();
        let field = fields.last();
        let path = parent.push(field.name);
        assert(rest.take(n) =~= fields.take(n));
        lemma_collected_prefix(rest, parent, n);
        let own = seq![LocatedField { field, path }];
        lemma_with_ids_add(all_fields(rest, parent), own);
        lemma_with_ids_add(
            all_fields(rest, parent) + own,
            fields_within(field.data_type, path),
        );
    }
}

/// Every field of a struct is below it.
pub(crate) proof fn lemma_all_fields_below(
    fields: Seq<StructFieldView>,
    parent: Seq<Seq<char>>,
    i: int,
)
    requires
        0 <= i < all_fields(fields, parent).len(),
    ensures
        all_fields(fields, parent)[i].path.len() > parent.len(),
    decreases fields,
{
    if fields.len() > 0 {
        let first = all_fields(fields.drop_last(), parent);
        let field = fields.last();
        let path = parent.push(field.name);
        if i < first.len() {
            lemma_all_fields_below(fields.drop_last(), parent, i);
        } else if i > first.len() {
            lemma_fields_within_below(field.data_type, path, i - first.len() - 1);
        }
    }
}

/// Every field within the data type of a field is below that field.
pub(crate) proof fn lemma_fields_within_below(t: DataTypeView, path: Seq<Seq<char>>, i: int)
    requires
        0 <= i < fields_within(t, path).len(),
    ensures
        fields_within(t, path)[i].path.len() > path.len(),
    decreases t,
{
    match t {
        DataTypeView::Primitive(_) => {},
        DataTypeView::Struct(fields) => {
            lemma_all_fields_below(fields, path, i);
        },
        DataTypeView::Array { element, .. } => {
            lemma_fields_within_below(*element, path, i);
        },
        DataTypeView::MapOf { key, value, .. } => {
            let n = fields_within(*key, path).len();
            if i < n {
                lemma_fields_within_below(*key, path, i);
            } else {
                lemma_fields_within_below(*value, path, i - n);
            }
        },
    }
}

/// Recursively collects all struct fields with their paths from a schema.
pub fn collect_all_fields_with_paths(schema: &StructType, parent_path: &ColumnName) -> (r: Result<
    Vec<FieldWithPath>,
    SchemaDiffError,
>)
    ensures
        match r {
            Ok(fields) => collected(schema@, parent_path@) == Ok::<_, SchemaDiffErrorView>(
                with_paths_view(fields@),
            ),
            Err(e) => collected(schema@, parent_path@) == Err::<Seq<FieldWithPathView>, _>(e@),
        },
    decreases schema,
{
    let ghost views = schema@;
    let ghost parent = parent_path@;
    let mut r: Vec<FieldWithPath> = Vec::new();
    let n: usize = schema.fields.len();
    proof {
        assert(views.take(0) =~= seq![]);
        lemma_all_with_ids(all_fields(views.take(0), parent));
        assert(with_paths_view(r@) =~= collected(views.take(0), parent)->Ok_0);
    }
    for i in 0..n
        invariant
            n == schema.fields@.len(),
            views == fields_view(schema.fields@),
            views == schema@,
            parent == parent_path@,
            collected(views.take(i as int), parent) == Ok::<_, SchemaDiffErrorView>(
                with_paths_view(r@),
            ),
    {
        let field: &StructField = &schema.fields[i];
        let mut name: Vec<String> = Vec::new();
        name.push(field.name().clone());
        let field_path: ColumnName = parent_path.join(&ColumnName::new(name));
        let ghost path = parent.push(field@.name);
        let ghost own = seq![LocatedField { field: field@, path }];
        let ghost before = all_fields(views.take(i as int), parent);
        let ghost within = fields_within(field@.data_type, path);
        let ghost done = with_paths_view(r@);
        proof {
            assert(field_path@ =~= path);
            assert(views[i as int] == field@);
            assert(views.take(i + 1).drop_last() =~= views.take(i as int));
            assert(views.take(i + 1).last() == field@);
            lemma_with_ids_add(before, own);
            lemma_with_ids_add(before + own, within);
        }
        match get_field_id_for_path(field, &field_path) {
            Ok(field_id) => {
                r.push(FieldWithPath { field: field.clone(), path: field_path.clone(), field_id });
                proof {
                    lemma_all_with_ids(own);
                    assert(with_ids(own)->Ok_0 =~= seq![r@.last()@]);
                    assert(with_paths_view(r@) =~= done + with_ids(own)->Ok_0);
                }
            },
            Err(e) => {
                proof {
                    assert(is_first_without_id(own, 0));
                    lemma_first_without_id_unique(own, 0);
                    lemma_collected_prefix(views, parent, i + 1);
                }
                return Err(e);
            },
        }
        let ghost done = with_paths_view(r@);
        match collect_fields_from_datatype(&field.data_type, &field_path) {
            Ok(mut nested) => {
                let ghost nested_fields = nested@;
                r.append(&mut nested);
                assert(with_paths_view(r@) =~= done + with_paths_view(nested_fields));
            },
            Err(e) => {
                proof {
                    lemma_collected_prefix(views, parent, i + 1);
                }
                return Err(e);
            },
        }
    }
    assert(views.take(n as int) =~= views);
    Ok(r)
}

/// Collects all struct fields within the data type of the field at `parent_path`.
pub fn collect_fields_from_datatype(data_type: &DataType, parent_path: &ColumnName) -> (r: Result<
    Vec<FieldWithPath>,
    SchemaDiffError,
>)
    ensures
        match r {
            Ok(fields) => collected_within(data_type@, parent_path@) == Ok::<
                _,
                SchemaDiffErrorView,
            >(with_paths_view(fields@)),
            Err(e) => collected_within(data_type@, parent_path@) == Err::<
                Seq<FieldWithPathView>,
                _,
            >(e@),
        },
    decreases data_type,
{
    match data_type {
        DataType::Primitive(_) => {
            let r: Vec<FieldWithPath> = Vec::new();
            proof {
                lemma_all_with_ids(fields_within(data_type@, parent_path@));
                assert(with_paths_view(r@) =~= collected_within(
                    data_type@,
                    parent_path@,
                )->Ok_0);
            }
            Ok(r)
        },
        DataType::Struct(s) => collect_all_fields_with_paths(s, parent_path),
        DataType::Array(a) => collect_fields_from_datatype(&a.element_type, parent_path),
        DataType::MapOf(m) => {
            proof {
                lemma_with_ids_add(
                    fields_within(m.key_type@, parent_path@),
                    fields_within(m.value_type@, parent_path@),
                );
            }
            match collect_fields_from_datatype(&m.key_type, parent_path) {
                Ok(mut fields) => match collect_fields_from_datatype(&m.value_type, parent_path) {
                    Ok(mut value_fields) => {
                        let ghost (k, v) = (fields@, value_fields@);
                        fields.append(&mut value_fields);
                        assert(with_paths_view(k + v) =~= with_paths_view(k) + with_paths_view(v));
                        Ok(fields)
                    },
                    Err(e) => Err(e),
                },
                Err(e) => Err(e),
            }
        },
    }
}

/// No id occurs twice.
pub open spec fn ids_distinct(fields: Seq<FieldWithPathView>) -> bool {
    forall|i: int, j: int|
        0 <= i < j < fields.len() ==> (#[trigger] fields[i]).field_id != (
        #[trigger] fields[j]).field_id
}

/// The field at `j` is the first whose id occurred before, which was at `i`.
pub open spec fn is_first_repeat(fields: Seq<FieldWithPathView>, i: int, j: int) -> bool {
    &&& 0 <= i < j < fields.len()
    &&& fields[i].field_id == fields[j].field_id
    &&& ids_distinct(fields.take(j))
}

/// The error for the first field whose id occurred before.
pub open spec fn duplicate_id_error(fields: Seq<FieldWithPathView>) -> Option<
    SchemaDiffErrorView,
> {
    if exists|i: int, j: int| is_first_repeat(fields, i, j) {
        let (i, j) = choose|i: int, j: int| is_first_repeat(fields, i, j);
        Some(
            SchemaDiffErrorView::DuplicateFieldId {
                id: fields[j].field_id,
                path1: fields[i].path,
                path2: fields[j].path,
            },
        )
    } else {
        None
    }
}

/// The field with the given id.
pub open spec fn find(fields: Seq<FieldWithPathView>, id: i64) -> Option<FieldWithPathView> {
    if exists|i: int| 0 <= i < fields.len() && (#[trigger] fields[i]).field_id == id {
        let i = choose|i: int| 0 <= i < fields.len() && (#[trigger] fields[i]).field_id == id;
        Some(fields[i])
    } else {
        None
    }
}

/// The map has under each id the field with that id.
pub open spec fn is_map_by_id(
    map: Map<i64, FieldWithPath>,
    fields: Seq<FieldWithPathView>,
) -> bool {
    forall|id: i64|
        find(fields, id) == if #[trigger] map.contains_key(id) {
            Some(map[id]@)
        } else {
            None
        }
}

/// Where no id occurs twice, the field with the id of a field is that field.
pub(crate) proof fn lemma_find(fields: Seq<FieldWithPathView>, i: int)
    requires
        ids_distinct(fields),
        0 <= i < fields.len(),
    ensures
        find(fields, fields[i].field_id) == Some(fields[i]),
{
    let id = fields[i].field_id;
    assert(fields[i].field_id == id);
    let k = choose|k: int| 0 <= k < fields.len() && (#[trigger] fields[k]).field_id == id;
    if k < i {
        assert(fields[k].field_id != fields[i].field_id);
    } else if k > i {
        assert(fields[i].field_id != fields[k].field_id);
    }
}

/// Builds a map from field id to field.
pub fn build_field_map_by_id(fields: &[FieldWithPath]) -> (r: Result<
    HashMap<i64, FieldWithPath>,
    SchemaDiffError,
>)
    ensures
        match r {
            Ok(map) => {
                &&& ids_distinct(with_paths_view(fields@))
                &&& duplicate_id_error(with_paths_view(fields@)) is None
                &&& is_map_by_id(map@, with_paths_view(fields@))
            },
            Err(e) => duplicate_id_error(with_paths_view(fields@)) == Some(e@),
        },
{
    let ghost views = with_paths_view(fields@);
    let mut field_map: HashMap<i64, FieldWithPath> = HashMap::new();
    let n: usize = fields.len();
    for i in 0..n
        invariant
            n == fields@.len(),
            views == with_paths_view(fields@),
            forall|a: int, b: int|
                0 <= a < b < i ==> (#[trigger] views[a]).field_id != (
                #[trigger] views[b]).field_id,
            forall|id: i64| #[trigger]
                field_map@.contains_key(id) <==> exists|k: int|
                    0 <= k < i && (#[trigger] views[k]).field_id == id,
            forall|k: int|
                0 <= k < i ==> field_map@.contains_key((#[trigger] views[k]).field_id)
                    && field_map@[views[k].field_id]@ == views[k],
    {
        let field_with_path: &FieldWithPath = &fields[i];
        assert(views[i as int] == field_with_path@);
        let field_id: i64 = field_with_path.field_id;
        let ghost map_before = field_map@;
        if let Some(existing) = field_map.insert(field_id, field_with_path.clone()) {
            proof {
                let k = choose|k: int| 0 <= k < i && (#[trigger] views[k]).field_id == field_id;
                lemma_first_repeat(views, k, i as int);
            }
            return Err(
                SchemaDiffError::DuplicateFieldId {
                    id: field_id,
                    path1: existing.path,
                    path2: field_with_path.path.clone(),
                },
            );
        }
        proof {
            assert forall|id: i64| #[trigger] field_map@.contains_key(id) implies exists|k: int|
                0 <= k < i + 1 && (#[trigger] views[k]).field_id == id by {
                if id == field_id {
                    assert(views[i as int].field_id == id);
                } else {
                    let k = choose|k: int| 0 <= k < i && (#[trigger] views[k]).field_id == id;
                    assert(views[k].field_id == id);
                }
            }
        }
    }
    proof {
        assert forall|i: int, j: int| !is_first_repeat(views, i, j) by {}
        assert forall|id: i64| find(views, id) == if #[trigger] field_map@.contains_key(id) {
            Some(field_map@[id]@)
        } else {
            None
        } by {
            if field_map@.contains_key(id) {
                let k = choose|k: int| 0 <= k < n && (#[trigger] views[k]).field_id == id;
                lemma_find(views, k);
            }
        }
    }
    Ok(field_map)
}

/// The first repeat is the only one.
pub(crate) proof fn lemma_first_repeat(fields: Seq<FieldWithPathView>, i: int, j: int)
    requires
        0 <= i < j < fields.len(),
        fields[i].field_id == fields[j].field_id,
        forall|a: int, b: int|
            0 <= a < b < j ==> (#[trigger] fields[a]).field_id != (#[trigger] fields[b]).field_id,
    ensures
        duplicate_id_error(fields) == Some(
            SchemaDiffErrorView::DuplicateFieldId {
                id: fields[j].field_id,
                path1: fields[i].path,
                path2: fields[j].path,
            },
        ),
{
    assert(ids_distinct(fields.take(j)));
    assert(is_first_repeat(fields, i, j));
    let (a, b) = choose|a: int, b: int| is_first_repeat(fields, a, b);
    assert(is_first_repeat(fields, a, b));
    if b < j {
        assert(fields[a].field_id != fields[b].field_id);
    } else if b > j {
        assert(fields.take(b)[i].field_id != fields.take(b)[j].field_id);
    } else if a < i {
        assert(fields[a].field_id != fields[i].field_id);
    } else if a > i {
        assert(fields[i].field_id != fields[a].field_id);
    }
}

/// The paths of fields.
pub open spec fn field_paths(fields: Seq<FieldWithPathView>) -> Seq<Seq<Seq<char>>> {
    fields.map_values(|f: FieldWithPathView| f.path)
}

/// The numbers below `n`.
pub open spec fn indices(n: nat) -> Seq<int> {
    Seq::new(n, |i: int| i)
}

/// The id of the field at an index is not among `others`.
pub open spec fn is_absent(
    fields: Seq<FieldWithPathView>,
    others: Seq<FieldWithPathView>,
) -> spec_fn(int) -> bool {
    |i: int| find(others, fields[i].field_id) is None
}

/// The id of the field at an index is not among `others`, and that of the field that immediately
/// encloses it, if there is one, is among them.
pub open spec fn is_outermost_absent(
    fields: Seq<FieldWithPathView>,
    others: Seq<FieldWithPathView>,
) -> spec_fn(int) -> bool {
    |i: int|
        is_absent(fields, others)(i) && match enclosing(field_paths(fields), i) {
            Some(k) => !is_absent(fields, others)(k),
            None => true,
        }
}

/// The field at an index as one that was added or removed.
pub open spec fn change_of(fields: Seq<FieldWithPathView>) -> spec_fn(int) -> FieldChangeView {
    |i: int| FieldChangeView { field: fields[i].field, path: fields[i].path }
}

/// The fields whose ids are not among `others`, in the order in which they stand. A field that is
/// immediately enclosed by another such field is left out: the other stands for it as well.
pub open spec fn only_in(
    fields: Seq<FieldWithPathView>,
    others: Seq<FieldWithPathView>,
) -> Seq<FieldChangeView> {
    indices(fields.len()).filter(is_outermost_absent(fields, others)).map_values(change_of(fields))
}

/// What is wrong with the physical name of a field, if its id is among `before`.
pub open spec fn name_error(
    before: Seq<FieldWithPathView>,
    after: FieldWithPathView,
) -> Option<SchemaDiffErrorView> {
    match find(before, after.field_id) {
        Some(b) => physical_name_error(b, after),
        None => None,
    }
}

/// The field at `i` is the first that has something wrong with its physical name.
pub open spec fn is_first_name_error(
    before: Seq<FieldWithPathView>,
    after: Seq<FieldWithPathView>,
    i: int,
) -> bool {
    &&& 0 <= i < after.len()
    &&& name_error(before, after[i]) is Some
    &&& forall|j: int| 0 <= j < i ==> name_error(before, #[trigger] after[j]) is None
}

/// The error for the first field that has something wrong with its physical name.
pub open spec fn first_name_error(
    before: Seq<FieldWithPathView>,
    after: Seq<FieldWithPathView>,
) -> Option<SchemaDiffErrorView> {
    if exists|i: int| is_first_name_error(before, after, i) {
        let i = choose|i: int| is_first_name_error(before, after, i);
        name_error(before, after[i])
    } else {
        None
    }
}

/// The update of a field from the one with its id among `before`, if there is one and it differs.
pub open spec fn update_from(before: Seq<FieldWithPathView>) -> spec_fn(FieldWithPathView) -> Option<
    FieldUpdateView,
> {
    |after: FieldWithPathView|
        match find(before, after.field_id) {
            Some(b) => field_update(b, after),
            None => None,
        }
}

/// The diff of two lists of fields without errors.
pub open spec fn changes_between(
    before: Seq<FieldWithPathView>,
    after: Seq<FieldWithPathView>,
) -> SchemaDiffView {
    let added_fields = only_in(after, before);
    let removed_fields = only_in(before, after);
    let updated_fields = after.filter_map(update_from(before));
    SchemaDiffView {
        added_fields,
        removed_fields,
        updated_fields,
        has_breaking_changes: has_breaking(added_fields, removed_fields, updated_fields),
    }
}

/// The diff of two lists of fields, or the error that keeps them from being compared: an id that
/// occurs twice before, one that occurs twice after, or a physical name that is not kept.
pub open spec fn fields_diff(
    before: Seq<FieldWithPathView>,
    after: Seq<FieldWithPathView>,
) -> Result<SchemaDiffView, SchemaDiffErrorView> {
    match duplicate_id_error(before) {
        Some(e) => Err(e),
        None => match duplicate_id_error(after) {
            Some(e) => Err(e),
            None => match first_name_error(before, after) {
                Some(e) => Err(e),
                None => Ok(changes_between(before, after)),
            },
        },
    }
}

/// The diff of two schemas, or the error that keeps them from being compared. A field without an
/// id comes before any other error.
pub open spec fn schema_diff(
    before: Seq<StructFieldView>,
    after: Seq<StructFieldView>,
) -> Result<SchemaDiffView, SchemaDiffErrorView> {
    match collected(before, seq![]) {
        Err(e) => Err(e),
        Ok(before_fields) => match collected(after, seq![]) {
            Err(e) => Err(e),
            Ok(after_fields) => fields_diff(before_fields, after_fields),
        },
    }
}

/// The field that immediately encloses the one at `i`.
fn enclosing_index(fields: &Vec<FieldWithPath>, i: usize) -> (r: Option<usize>)
    requires
        i < fields@.len(),
    ensures
        match r {
            Some(k) => k < i && enclosing(field_paths(with_paths_view(fields@)), i as int) == Some(
                k as int,
            ),
            None => enclosing(field_paths(with_paths_view(fields@)), i as int) is None,
        },
{
    let ghost paths = field_paths(with_paths_view(fields@));
    assert(forall|j: int| 0 <= j < fields@.len() ==> #[trigger] paths[j] == fields@[j].path@);
    match fields[i].path.parent() {
        Some(parent) => {
            let mut k: usize = i;
            while k > 0
                invariant
                    k <= i < fields@.len(),
                    paths == field_paths(with_paths_view(fields@)),
                    forall|j: int|
                        0 <= j < fields@.len() ==> #[trigger] paths[j] == fields@[j].path@,
                    paths[i as int].len() > 1,
                    parent@ == paths[i as int].drop_last(),
                    forall|j: int| k <= j < i ==> #[trigger] paths[j] != parent@,
                decreases k,
            {
                k = k - 1;
                if fields[k].path == parent {
                    proof {
                        assert(paths[k as int] == parent@);
                        assert(encloses(paths, k as int, i as int));
                        lemma_enclosing_unique(paths, k as int, i as int);
                    }
                    return Some(k);
                }
            }
            assert forall|m: int| !encloses(paths, m, i as int) by {}
            None
        },
        None => {
            assert forall|m: int| !encloses(paths, m, i as int) by {}
            None
        },
    }
}

/// The fields whose ids are not among the others, as changes. A field that is immediately enclosed
/// by another such field is left out.
fn fields_only_in(
    fields: &Vec<FieldWithPath>,
    others: &HashMap<i64, FieldWithPath>,
    Ghost(other_fields): Ghost<Seq<FieldWithPathView>>,
) -> (r: Vec<FieldChange>)
    requires
        is_map_by_id(others@, other_fields),
    ensures
        changes_view(r@) == only_in(with_paths_view(fields@), other_fields),
{
    let ghost views = with_paths_view(fields@);
    let ghost all = indices(views.len());
    let ghost absent = is_absent(views, other_fields);
    let ghost wanted = is_outermost_absent(views, other_fields);
    let ghost change = change_of(views);
    let mut r: Vec<FieldChange> = Vec::new();
    let n: usize = fields.len();
    proof {
        reveal(Seq::filter);
        assert(changes_view(r@) =~= all.take(0).filter(wanted).map_values(change));
        assert forall|i: int| 0 <= i < views.len() implies #[trigger] absent(i)
            == !others@.contains_key(views[i].field_id) by {}
    }
    for i in 0..n
        invariant
            n == fields@.len(),
            views == with_paths_view(fields@),
            all == indices(views.len()),
            absent == is_absent(views, other_fields),
            wanted == is_outermost_absent(views, other_fields),
            change == change_of(views),
            forall|j: int|
                0 <= j < views.len() ==> #[trigger] absent(j) == !others@.contains_key(
                    views[j].field_id,
                ),
            changes_view(r@) == all.take(i as int).filter(wanted).map_values(change),
    {
        let field: &FieldWithPath = &fields[i];
        let ghost so_far = r@;
        proof {
            assert(views[i as int] == field@);
            assert(all[i as int] == i);
            lemma_filter_step(all, wanted, i as int);
        }
        let outermost: bool = if others.contains_key(&field.field_id) {
            assert(!absent(i as int));
            false
        } else {
            assert(absent(i as int));
            match enclosing_index(fields, i) {
                Some(k) => {
                    assert(views[k as int] == fields@[k as int]@);
                    assert(absent(k as int) == !others@.contains_key(views[k as int].field_id));
                    others.contains_key(&fields[k].field_id)
                },
                None => true,
            }
        };
        assert(outermost == wanted(i as int));
        if outermost {
            r.push(FieldChange { field: field.field.clone(), path: field.path.clone() });
            proof {
                let kept = all.take(i as int).filter(wanted);
                assert(changes_view(r@) =~= changes_view(so_far).push(change(i as int)));
                assert(kept.push(i as int).map_values(change) =~= kept.map_values(change).push(
                    change(i as int),
                ));
            }
        }
    }
    assert(all.take(n as int) =~= all);
    r
}

/// The updates of the fields whose ids are in both schemas.
fn updates_of_common(
    before: &HashMap<i64, FieldWithPath>,
    after: &Vec<FieldWithPath>,
    Ghost(before_fields): Ghost<Seq<FieldWithPathView>>,
) -> (r: Result<Vec<FieldUpdate>, SchemaDiffError>)
    requires
        is_map_by_id(before@, before_fields),
    ensures
        match r {
            Ok(updates) => {
                &&& first_name_error(before_fields, with_paths_view(after@)) is None
                &&& updates_view(updates@) == with_paths_view(after@).filter_map(
                    update_from(before_fields),
                )
            },
            Err(e) => first_name_error(before_fields, with_paths_view(after@)) == Some(e@),
        },
{
    let ghost views = with_paths_view(after@);
    let ghost update = update_from(before_fields);
    let mut r: Vec<FieldUpdate> = Vec::new();
    let n: usize = after.len();
    assert(updates_view(r@) =~= views.take(0).filter_map(update));
    for i in 0..n
        invariant
            n == after@.len(),
            views == with_paths_view(after@),
            update == update_from(before_fields),
            is_map_by_id(before@, before_fields),
            forall|j: int| 0 <= j < i ==> name_error(before_fields, #[trigger] views[j]) is None,
            updates_view(r@) == views.take(i as int).filter_map(update),
    {
        let after_field: &FieldWithPath = &after[i];
        let ghost so_far = r@;
        proof {
            assert(views[i as int] == after_field@);
            assert(views.take(i + 1).drop_last() =~= views.take(i as int));
            assert(views.take(i + 1).last() == after_field@);
        }
        match before.get(&after_field.field_id) {
            Some(before_field) => {
                assert(before@.contains_key(after_field.field_id));
                assert(find(before_fields, after_field.field_id) == Some(before_field@));
                match compute_field_update(before_field, after_field) {
                    Ok(Some(field_update)) => {
                        let ghost reported = field_update@;
                        r.push(field_update);
                        assert(updates_view(r@) =~= updates_view(so_far) + seq![reported]);
                    },
                    Ok(None) => {},
                    Err(e) => {
                        proof {
                            assert(is_first_name_error(before_fields, views, i as int));
                            let k = choose|k: int| is_first_name_error(before_fields, views, k);
                            assert(k == i);
                        }
                        return Err(e);
                    },
                }
            },
            None => {
                assert(!before@.contains_key(after_field.field_id));
            },
        }
    }
    proof {
        assert forall|i: int| !is_first_name_error(before_fields, views, i) by {}
        assert(views.take(n as int) =~= views);
    }
    Ok(r)
}

/// Computes the difference between two lists of fields, which are matched by their ids. In a list
/// each field is followed by the fields within it.
pub fn diff_fields(before_fields: &Vec<FieldWithPath>, after_fields: &Vec<FieldWithPath>) -> (r:
    Result<SchemaDiff, SchemaDiffError>)
    ensures
        match r {
            Ok(diff) => fields_diff(
                with_paths_view(before_fields@),
                with_paths_view(after_fields@),
            ) == Ok::<_, SchemaDiffErrorView>(diff@),
            Err(e) => fields_diff(with_paths_view(before_fields@), with_paths_view(after_fields@))
                == Err::<SchemaDiffView, _>(e@),
        },
{
    let ghost before = with_paths_view(before_fields@);
    let ghost after = with_paths_view(after_fields@);
    let before_by_id: HashMap<i64, FieldWithPath> = match build_field_map_by_id(
        before_fields.as_slice(),
    ) {
        Ok(map) => map,
        Err(e) => {
            return Err(e);
        },
    };
    let after_by_id: HashMap<i64, FieldWithPath> = match build_field_map_by_id(
        after_fields.as_slice(),
    ) {
        Ok(map) => map,
        Err(e) => {
            return Err(e);
        },
    };
    // A field whose parent was also added is not reported: "user" stands for "user.name" as well
    let added_fields: Vec<FieldChange> = fields_only_in(
        after_fields,
        &before_by_id,
        Ghost(before),
    );
    // Likewise a field whose parent was also removed
    let removed_fields: Vec<FieldChange> = fields_only_in(
        before_fields,
        &after_by_id,
        Ghost(after),
    );
    match updates_of_common(&before_by_id, after_fields, Ghost(before)) {
        Ok(updated_fields) => Ok(SchemaDiff::new(added_fields, removed_fields, updated_fields)),
        Err(e) => Err(e),
    }
}

/// Computes the difference between two schemas, using field ids for identification.
///
/// Fields are matched by their id rather than by name, so that renames are detected at any nesting
/// level within structs, arrays and maps. Both schemas must have column mapping enabled: every
/// field has an id, no two have the same, and a field that is in both has the same physical name in
/// both. Otherwise the error says where this is not so.
pub fn compute_schema_diff(before: &StructType, after: &StructType) -> (r: Result<
    SchemaDiff,
    SchemaDiffError,
>)
    ensures
        match r {
            Ok(diff) => schema_diff(before@, after@) == Ok::<_, SchemaDiffErrorView>(diff@),
            Err(e) => schema_diff(before@, after@) == Err::<SchemaDiffView, _>(e@),
        },
{
    let root: ColumnName = ColumnName::new(Vec::new());
    assert(root@ =~= seq![]);
    let before_fields: Vec<FieldWithPath> = match collect_all_fields_with_paths(before, &root) {
        Ok(fields) => fields,
        Err(e) => {
            return Err(e);
        },
    };
    let after_fields: Vec<FieldWithPath> = match collect_all_fields_with_paths(after, &root) {
        Ok(fields) => fields,
        Err(e) => {
            return Err(e);
        },
    };
    diff_fields(&before_fields, &after_fields)
}

/// The two schemas of which the diff is wanted.
#[derive(Debug, Clone, Copy)]
pub struct SchemaDiffArgs<'a> {
    /// The before/original schema
    pub before: &'a StructType,
    /// The after/new schema to compare against
    pub after: &'a StructType,
}

impl<'a> SchemaDiffArgs<'a> {
    /// Computes the difference between the two schemas.
    pub fn compute_diff(self) -> (r: Result<SchemaDiff, SchemaDiffError>)
        ensures
            match r {
                Ok(diff) => schema_diff(self.before@, self.after@) == Ok::<_, SchemaDiffErrorView>(
                    diff@,
                ),
                Err(e) => schema_diff(self.before@, self.after@) == Err::<SchemaDiffView, _>(e@),
            },
    {
        compute_schema_diff(self.before, self.after)
    }
}

} // verus!
