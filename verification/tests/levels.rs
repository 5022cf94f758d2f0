use schema_diff::ancestors::{filter_ancestor_fields, has_added_ancestor};
use schema_diff::change::{FieldChange, FieldChangeType};
use schema_diff::column_name::ColumnName;
use schema_diff::compare::FieldWithPath;
use schema_diff::diff::{
    build_field_map_by_id, collect_all_fields_with_paths, collect_fields_from_datatype,
    compute_schema_diff, diff_fields,
};
use schema_diff::error::SchemaDiffError;
use schema_diff::metadata::MetadataValue;
use schema_diff::schema::{ArrayType, DataType, MapType, PrimitiveType, StructField, StructType};

const LONG: DataType = DataType::Primitive(PrimitiveType::Long);

fn column(names: &[&str]) -> ColumnName {
    ColumnName::new(names.iter().map(|n| n.to_string()).collect())
}

fn field(name: &str, nullable: bool, id: i64) -> StructField {
    StructField::new(name, LONG, nullable).add_metadata(vec![
        ("delta.columnMapping.id", MetadataValue::Number(id)),
        (
            "delta.columnMapping.physicalName",
            MetadataValue::String(format!("col_{}", id)),
        ),
    ])
}

fn holding(name: &str, data_type: DataType, id: i64) -> StructField {
    StructField {
        data_type,
        ..field(name, true, id)
    }
}

fn a_struct(fields: Vec<StructField>) -> DataType {
    DataType::Struct(Box::new(StructType::new_unchecked(fields)))
}

fn array(element: DataType) -> DataType {
    DataType::Array(Box::new(ArrayType::new(element, true)))
}

fn map(key: DataType, value: DataType) -> DataType {
    DataType::MapOf(Box::new(MapType::new(key, value, true)))
}

fn listed(fields: &[FieldWithPath]) -> Vec<(String, i64)> {
    fields.iter().map(|f| (f.path.to_text(), f.field_id)).collect()
}

fn at(path: &[&str], nullable: bool, id: i64) -> FieldWithPath {
    FieldWithPath {
        field: field(path[path.len() - 1], nullable, id),
        path: column(path),
        field_id: id,
    }
}

fn change(path: &[&str]) -> FieldChange {
    FieldChange {
        field: StructField::new(path[path.len() - 1], LONG, true),
        path: column(path),
    }
}

fn paths(changes: &[FieldChange]) -> Vec<String> {
    changes.iter().map(|c| c.path.to_text()).collect()
}

#[test]
fn parents_of_paths() {
    assert_eq!(column(&["a", "b", "c"]).parent(), Some(column(&["a", "b"])));
    assert_eq!(column(&["a"]).parent(), None);
    assert_eq!(column(&[]).parent(), None);
    assert_eq!(column(&["a"]).join(&column(&["b", "c"])), column(&["a", "b", "c"]));
    assert_ne!(column(&["a", "b"]), column(&["a"]));
    assert_ne!(column(&["a", "b"]), column(&["a", "c"]));
}

#[test]
fn only_the_outermost_changes_are_kept() {
    let kept = filter_ancestor_fields(vec![
        change(&["user", "name"]),
        change(&["user"]),
        change(&["user", "address", "street"]),
        change(&["user", "address"]),
        change(&["order", "id"]),
    ]);
    assert_eq!(paths(&kept), vec!["user", "order.id"]);
    assert_eq!(paths(&filter_ancestor_fields(kept)), vec!["user", "order.id"]);
}

#[test]
fn only_the_immediate_parent_counts() {
    let kept = filter_ancestor_fields(vec![change(&["a"]), change(&["a", "b", "c"])]);
    assert_eq!(paths(&kept), vec!["a", "a.b.c"]);
}

#[test]
fn top_level_changes_are_all_kept() {
    let kept = filter_ancestor_fields(vec![change(&["a"]), change(&["b"]), change(&["a"])]);
    assert_eq!(paths(&kept), vec!["a", "b", "a"]);
    assert!(filter_ancestor_fields(vec![]).is_empty());
}

#[test]
fn ancestors_are_proper_prefixes() {
    let user = vec![column(&["user"])];
    assert!(has_added_ancestor(&column(&["user", "name"]), &user));
    assert!(has_added_ancestor(&column(&["user", "address", "street"]), &user));
    assert!(!has_added_ancestor(&column(&["user"]), &user));
    assert!(!has_added_ancestor(&column(&["username", "x"]), &user));
    assert!(!has_added_ancestor(&column(&["x", "user"]), &user));
    assert!(!has_added_ancestor(&column(&["user", "name"]), &vec![]));
    assert!(!has_added_ancestor(&column(&["user", "name"]), &vec![column(&[])]));
}

#[test]
fn fields_are_collected_below_a_parent() {
    let schema = StructType::new_unchecked(vec![field("a", true, 1), field("b", false, 2)]);
    let collected = collect_all_fields_with_paths(&schema, &column(&["p", "q"])).unwrap();
    assert_eq!(collected.len(), 2);
    assert_eq!(collected[0].path, column(&["p", "q", "a"]));
    assert_eq!(collected[1].path, column(&["p", "q", "b"]));
    assert_eq!(collected[1].field_id, 2);
    assert_eq!(collected[1].field, schema.fields()[1]);
}

#[test]
fn fields_of_nested_structs_are_collected() {
    let schema = StructType::new_unchecked(vec![
        holding("user", a_struct(vec![field("name", false, 2)]), 1),
        field("last", true, 3),
    ]);
    let collected = collect_all_fields_with_paths(&schema, &column(&[])).unwrap();
    assert_eq!(
        listed(&collected),
        vec![("user".to_string(), 1), ("user.name".to_string(), 2), ("last".to_string(), 3)]
    );
    assert_eq!(collected[1].field, field("name", false, 2));
}

#[test]
fn fields_within_arrays_and_maps_are_below_the_field_that_holds_them() {
    let deep = array(array(a_struct(vec![holding(
        "inner",
        map(
            a_struct(vec![field("k", true, 3)]),
            array(a_struct(vec![field("v", true, 4)])),
        ),
        2,
    )])));
    let schema = StructType::new_unchecked(vec![holding("items", deep, 1)]);
    let collected = collect_all_fields_with_paths(&schema, &column(&["p"])).unwrap();
    assert_eq!(
        listed(&collected),
        vec![
            ("p.items".to_string(), 1),
            ("p.items.inner".to_string(), 2),
            ("p.items.inner.k".to_string(), 3),
            ("p.items.inner.v".to_string(), 4),
        ]
    );
    let from_type =
        collect_fields_from_datatype(&schema.fields()[0].data_type, &column(&["q"])).unwrap();
    assert_eq!(listed(&from_type)[0], ("q.inner".to_string(), 2));
    assert_eq!(from_type.len(), 3);
    assert!(collect_fields_from_datatype(&LONG, &column(&["q"])).unwrap().is_empty());
}

#[test]
fn rename_inside_a_struct_is_detected() {
    let schema = |name: &str| {
        StructType::new_unchecked(vec![holding(
            "user",
            a_struct(vec![field(name, false, 2)]),
            1,
        )])
    };
    let diff = compute_schema_diff(&schema("name"), &schema("full_name")).unwrap();
    assert!(diff.added_fields.is_empty());
    assert!(diff.removed_fields.is_empty());
    assert_eq!(diff.updated_fields.len(), 1);
    assert_eq!(diff.updated_fields[0].path, column(&["user", "full_name"]));
    assert_eq!(
        diff.updated_fields[0].change_types,
        vec![FieldChangeType::Renamed]
    );
    assert!(!diff.has_breaking_changes());
    let (_, _, nested) = diff.nested_changes();
    assert_eq!(nested.len(), 1);
    assert!(compute_schema_diff(&schema("name"), &schema("name")).unwrap().is_empty());
}

#[test]
fn rename_of_a_struct_leaves_its_fields_unchanged() {
    let schema = |name: &str| {
        StructType::new_unchecked(vec![holding(name, a_struct(vec![field("x", false, 2)]), 1)])
    };
    let diff = compute_schema_diff(&schema("a"), &schema("b")).unwrap();
    assert_eq!(diff.change_count(), 1);
    assert_eq!(diff.updated_fields[0].path, column(&["b"]));
}

#[test]
fn changes_inside_arrays_and_maps_are_detected() {
    let schema = |nullable: bool, extra: Vec<StructField>| {
        let mut element = vec![field("e", nullable, 2)];
        element.extend(extra);
        StructType::new_unchecked(vec![
            holding("list", array(a_struct(element)), 1),
            holding("map", map(LONG, a_struct(vec![field("v", nullable, 4)])), 3),
        ])
    };
    let before = schema(true, vec![]);
    let after = schema(false, vec![field("f", true, 5)]);
    let diff = compute_schema_diff(&before, &after).unwrap();
    assert_eq!(paths(&diff.added_fields), vec!["list.f"]);
    let updated: Vec<String> = diff.updated_fields.iter().map(|u| u.path.to_text()).collect();
    assert_eq!(updated, vec!["list.e", "map.v"]);
    for update in &diff.updated_fields {
        assert_eq!(update.change_types, vec![FieldChangeType::NullabilityTightened]);
    }
    assert!(diff.has_breaking_changes());
}

#[test]
fn added_container_stands_for_its_fields() {
    let before = StructType::new_unchecked(vec![]);
    for data_type in [
        a_struct(vec![field("x", false, 2)]),
        array(a_struct(vec![field("x", false, 2)])),
        map(a_struct(vec![field("x", false, 2)]), LONG),
    ] {
        let after = StructType::new_unchecked(vec![holding("c", data_type, 1)]);
        let diff = compute_schema_diff(&before, &after).unwrap();
        assert_eq!(paths(&diff.added_fields), vec!["c"]);
        assert!(!diff.has_breaking_changes());
        let back = compute_schema_diff(&after, &before).unwrap();
        assert_eq!(back.removed_fields, diff.added_fields);
        assert!(back.has_breaking_changes());
    }
}

#[test]
fn required_field_added_inside_a_kept_struct_is_breaking() {
    let schema = |fields: Vec<StructField>| {
        StructType::new_unchecked(vec![holding("user", a_struct(fields), 1)])
    };
    let diff = compute_schema_diff(&schema(vec![]), &schema(vec![field("x", false, 2)])).unwrap();
    assert_eq!(paths(&diff.added_fields), vec!["user.x"]);
    assert!(diff.has_breaking_changes());
}

#[test]
fn field_moved_into_a_new_struct_is_still_matched() {
    let before = StructType::new_unchecked(vec![field("x", true, 1)]);
    let after = StructType::new_unchecked(vec![holding(
        "s",
        a_struct(vec![field("x", false, 1)]),
        2,
    )]);
    let diff = compute_schema_diff(&before, &after).unwrap();
    assert_eq!(paths(&diff.added_fields), vec!["s"]);
    assert!(diff.removed_fields.is_empty());
    assert_eq!(diff.updated_fields[0].path, column(&["s", "x"]));
    // The struct that now encloses the field was added
    assert!(has_added_ancestor(&diff.updated_fields[0].path, &vec![column(&["s"])]));
}

#[test]
fn nested_field_without_id_is_reported() {
    let schema = StructType::new_unchecked(vec![
        holding(
            "m",
            map(
                LONG,
                a_struct(vec![field("a", true, 2), StructField::new("b", LONG, true)]),
            ),
            1,
        ),
        StructField::new("c", LONG, true),
    ]);
    match compute_schema_diff(&schema, &schema) {
        Err(SchemaDiffError::MissingFieldId { path }) => assert_eq!(path, column(&["m", "b"])),
        _ => panic!("expected a missing id"),
    }
}

#[test]
fn id_repeated_at_another_level_is_reported() {
    let schema = StructType::new_unchecked(vec![holding(
        "s",
        array(a_struct(vec![field("x", true, 1)])),
        1,
    )]);
    match compute_schema_diff(&StructType::new_unchecked(vec![]), &schema) {
        Err(SchemaDiffError::DuplicateFieldId { id, path1, path2 }) => {
            assert_eq!(id, 1);
            assert_eq!(path1, column(&["s"]));
            assert_eq!(path2, column(&["s", "x"]));
        }
        _ => panic!("expected a repeated id"),
    }
}

#[test]
fn first_field_without_id_is_reported() {
    let schema = StructType::new_unchecked(vec![
        field("a", true, 1),
        StructField::new("b", LONG, true),
        StructField::new("c", LONG, true),
    ]);
    match collect_all_fields_with_paths(&schema, &column(&["p"])) {
        Err(SchemaDiffError::MissingFieldId { path }) => assert_eq!(path, column(&["p", "b"])),
        _ => panic!("expected a missing id"),
    }
}

#[test]
fn map_by_id_finds_every_field() {
    let fields = vec![at(&["a"], true, 1), at(&["b"], true, -2)];
    let map = build_field_map_by_id(&fields).unwrap();
    assert_eq!(map.len(), 2);
    assert_eq!(map[&1].path, column(&["a"]));
    assert_eq!(map[&-2].path, column(&["b"]));
}

#[test]
fn first_repeated_id_is_reported() {
    let fields = vec![
        at(&["a"], true, 1),
        at(&["b"], true, 2),
        at(&["c"], true, 2),
        at(&["d"], true, 1),
    ];
    match build_field_map_by_id(&fields) {
        Err(SchemaDiffError::DuplicateFieldId { id, path1, path2 }) => {
            assert_eq!(id, 2);
            assert_eq!(path1, column(&["b"]));
            assert_eq!(path2, column(&["c"]));
        }
        _ => panic!("expected a repeated id"),
    }
}

#[test]
fn nested_changes_are_reported_once() {
    let before = vec![
        at(&["id"], true, 1),
        at(&["user"], true, 2),
        at(&["user", "name"], true, 3),
        at(&["old"], true, 4),
        at(&["old", "x"], true, 5),
    ];
    let after = vec![
        at(&["id"], true, 1),
        at(&["user"], true, 2),
        at(&["user", "full_name"], true, 3),
        at(&["user", "email"], true, 6),
        at(&["new"], true, 7),
        at(&["new", "y"], false, 8),
    ];
    let diff = diff_fields(&before, &after).unwrap();
    assert_eq!(paths(&diff.added_fields), vec!["user.email", "new"]);
    assert_eq!(paths(&diff.removed_fields), vec!["old"]);
    assert_eq!(diff.updated_fields.len(), 1);
    assert_eq!(diff.updated_fields[0].path, column(&["user", "full_name"]));
    assert_eq!(
        diff.updated_fields[0].change_types,
        vec![FieldChangeType::Renamed]
    );
    assert!(diff.has_breaking_changes());
    // Without the removal: the required field is inside an optional one that was added
    let diff_without_removal = diff_fields(&before[..3].to_vec(), &after).unwrap();
    assert_eq!(diff_without_removal.added_fields, diff.added_fields);
    assert!(!diff_without_removal.has_breaking_changes());

    let (added, removed, updated) = diff.top_level_changes();
    assert_eq!(added, vec![&diff.added_fields[1]]);
    assert_eq!(removed, vec![&diff.removed_fields[0]]);
    assert!(updated.is_empty());
    let (added, removed, updated) = diff.nested_changes();
    assert_eq!(added, vec![&diff.added_fields[0]]);
    assert!(removed.is_empty());
    assert_eq!(updated, vec![&diff.updated_fields[0]]);
    assert_eq!(diff.change_count(), 4);
}

#[test]
fn exchanged_lists_exchange_additions_and_removals() {
    let before = vec![at(&["a"], true, 1), at(&["b"], true, 2), at(&["c"], true, 3)];
    let after = vec![at(&["d"], true, 4), at(&["b"], false, 2)];
    let there = diff_fields(&before, &after).unwrap();
    let back = diff_fields(&after, &before).unwrap();
    assert_eq!(there.added_fields, back.removed_fields);
    assert_eq!(there.removed_fields, back.added_fields);
    assert_eq!(paths(&there.removed_fields), vec!["a", "c"]);
    assert_eq!(
        there.updated_fields[0].change_types,
        vec![FieldChangeType::NullabilityTightened]
    );
    assert_eq!(
        back.updated_fields[0].change_types,
        vec![FieldChangeType::NullabilityLoosened]
    );
    assert!(there.has_breaking_changes());
    assert!(back.has_breaking_changes());
}

fn keyed_by_structs(key: Vec<StructField>, value: Vec<StructField>) -> StructType {
    StructType::new_unchecked(vec![holding(
        "m",
        map(a_struct(key), a_struct(value)),
        1,
    )])
}

#[test]
fn change_inside_a_key_is_not_hidden_by_one_at_the_same_path_in_the_value() {
    let before = keyed_by_structs(vec![holding("a", a_struct(vec![]), 2)], vec![]);
    let after = keyed_by_structs(
        vec![holding("a", a_struct(vec![field("x", false, 4)]), 2)],
        vec![field("a", true, 3)],
    );
    let diff = compute_schema_diff(&before, &after).unwrap();
    assert_eq!(paths(&diff.added_fields), vec!["m.a.x", "m.a"]);
    assert!(diff.has_breaking_changes());
    let back = compute_schema_diff(&after, &before).unwrap();
    assert_eq!(paths(&back.removed_fields), vec!["m.a.x", "m.a"]);
    assert_eq!(back.removed_fields, diff.added_fields);
}

#[test]
fn change_inside_a_value_is_reported_by_the_field_that_encloses_it() {
    let x = || field("x", true, 4);
    let before = keyed_by_structs(vec![], vec![holding("a", a_struct(vec![]), 3)]);
    // The key has a new field at the path of the one in the value
    let after = keyed_by_structs(
        vec![field("a", true, 2)],
        vec![holding("a", a_struct(vec![x()]), 3)],
    );
    let diff = compute_schema_diff(&before, &after).unwrap();
    assert_eq!(paths(&diff.added_fields), vec!["m.a", "m.a.x"]);
    assert!(!diff.has_breaking_changes());
    // The field in the value is new itself and stands for the one inside it
    let before = keyed_by_structs(vec![field("a", true, 2)], vec![]);
    let diff = compute_schema_diff(&before, &after).unwrap();
    assert_eq!(paths(&diff.added_fields), vec!["m.a"]);
    assert_eq!(diff.added_fields[0].field, holding("a", a_struct(vec![x()]), 3));
}

#[test]
fn filtering_by_path_gives_the_reported_fields_where_paths_differ() {
    let before = vec![at(&["a"], true, 1)];
    let after = vec![
        at(&["a"], true, 1),
        at(&["a", "x"], true, 2),
        at(&["b"], true, 3),
        at(&["b", "y"], true, 4),
        at(&["b", "y", "z"], true, 5),
    ];
    let diff = diff_fields(&before, &after).unwrap();
    let added = vec![
        change(&["a", "x"]),
        change(&["b"]),
        change(&["b", "y"]),
        change(&["b", "y", "z"]),
    ];
    assert_eq!(
        paths(&filter_ancestor_fields(added)),
        paths(&diff.added_fields)
    );
}

#[test]
fn order_of_top_level_fields_does_not_matter() {
    let before = vec![
        holding("user", a_struct(vec![field("name", true, 2), field("old", true, 3)]), 1),
        field("gone", true, 4),
    ];
    let after = vec![
        field("extra", false, 5),
        holding("user", a_struct(vec![field("nick", true, 2), field("new", true, 6)]), 1),
    ];
    let reversed = |fields: &Vec<StructField>| -> StructType {
        StructType::new_unchecked(fields.iter().rev().cloned().collect::<Vec<StructField>>())
    };
    let diff = compute_schema_diff(
        &StructType::new_unchecked(before.clone()),
        &StructType::new_unchecked(after.clone()),
    )
    .unwrap();
    let other = compute_schema_diff(&reversed(&before), &reversed(&after)).unwrap();
    assert_eq!(paths(&diff.added_fields), vec!["extra", "user.new"]);
    assert_eq!(paths(&other.added_fields), vec!["user.new", "extra"]);
    assert_eq!(paths(&diff.removed_fields), vec!["user.old", "gone"]);
    assert_eq!(paths(&other.removed_fields), vec!["gone", "user.old"]);
    assert_eq!(diff.updated_fields, other.updated_fields);
    assert_eq!(diff.updated_fields[0].path, column(&["user", "nick"]));
    assert!(diff.has_breaking_changes() && other.has_breaking_changes());
}
