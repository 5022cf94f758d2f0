use schema_diff::change::{is_breaking_change_type, FieldChangeType};
use schema_diff::column_name::ColumnName;
use schema_diff::compare::{
    check_container_nullability_change, check_field_nullability_change, classify_data_type_change,
    compute_field_update, get_field_id_for_path, has_metadata_changes, physical_name,
    validate_physical_name, FieldWithPath,
};
use schema_diff::error::SchemaDiffError;
use schema_diff::metadata::MetadataValue;
use schema_diff::schema::{ArrayType, DataType, MapType, PrimitiveType, StructField, StructType};

const LONG: DataType = DataType::Primitive(PrimitiveType::Long);
const STRING: DataType = DataType::Primitive(PrimitiveType::String);

fn column(names: &[&str]) -> ColumnName {
    ColumnName::new(names.iter().map(|n| n.to_string()).collect())
}

fn text(s: &str) -> MetadataValue {
    MetadataValue::String(s.to_string())
}

fn array(element: DataType, contains_null: bool) -> DataType {
    DataType::Array(Box::new(ArrayType::new(element, contains_null)))
}

fn map(key: DataType, value: DataType, value_contains_null: bool) -> DataType {
    DataType::MapOf(Box::new(MapType::new(key, value, value_contains_null)))
}

fn a_struct(name: &str) -> DataType {
    DataType::Struct(Box::new(StructType::new_unchecked(vec![StructField::new(
        name, LONG, true,
    )])))
}

fn mapped(name: &str, data_type: DataType, nullable: bool, id: i64, physical: &str) -> FieldWithPath {
    FieldWithPath {
        field: StructField::new(name, data_type, nullable).add_metadata(vec![
            ("delta.columnMapping.id", MetadataValue::Number(id)),
            ("delta.columnMapping.physicalName", text(physical)),
        ]),
        path: column(&[name]),
        field_id: id,
    }
}

#[test]
fn field_nullability_is_loosened_or_tightened() {
    assert_eq!(
        check_field_nullability_change(false, true),
        Some(FieldChangeType::NullabilityLoosened)
    );
    assert_eq!(
        check_field_nullability_change(true, false),
        Some(FieldChangeType::NullabilityTightened)
    );
    assert_eq!(check_field_nullability_change(true, true), None);
    assert_eq!(check_field_nullability_change(false, false), None);
}

#[test]
fn container_nullability_is_loosened_or_tightened() {
    assert_eq!(
        check_container_nullability_change(false, true),
        Some(FieldChangeType::ContainerNullabilityLoosened)
    );
    assert_eq!(
        check_container_nullability_change(true, false),
        Some(FieldChangeType::ContainerNullabilityTightened)
    );
    assert_eq!(check_container_nullability_change(true, true), None);
    assert_eq!(check_container_nullability_change(false, false), None);
}

#[test]
fn breaking_change_types() {
    assert!(is_breaking_change_type(&FieldChangeType::TypeChanged));
    assert!(is_breaking_change_type(&FieldChangeType::NullabilityTightened));
    assert!(is_breaking_change_type(
        &FieldChangeType::ContainerNullabilityTightened
    ));
    assert!(is_breaking_change_type(&FieldChangeType::MetadataChanged));
    assert!(!is_breaking_change_type(&FieldChangeType::Renamed));
    assert!(!is_breaking_change_type(&FieldChangeType::NullabilityLoosened));
    assert!(!is_breaking_change_type(
        &FieldChangeType::ContainerNullabilityLoosened
    ));
}

#[test]
fn identical_types_have_no_changes() {
    let t = || map(array(STRING, true), a_struct("x"), false);
    assert_eq!(classify_data_type_change(&t(), &t()), vec![]);
    assert_eq!(classify_data_type_change(&LONG, &LONG), vec![]);
}

#[test]
fn different_kinds_of_types_are_a_type_change() {
    let changed = vec![FieldChangeType::TypeChanged];
    assert_eq!(classify_data_type_change(&LONG, &STRING), changed);
    assert_eq!(classify_data_type_change(&LONG, &array(LONG, true)), changed);
    assert_eq!(
        classify_data_type_change(&a_struct("x"), &map(LONG, LONG, true)),
        changed
    );
    let decimal = |precision, scale| {
        DataType::Primitive(PrimitiveType::Decimal { precision, scale })
    };
    assert_eq!(
        classify_data_type_change(&decimal(10, 2), &decimal(12, 2)),
        changed
    );
}

#[test]
fn struct_contents_are_not_a_type_change() {
    assert_eq!(
        classify_data_type_change(&a_struct("x"), &a_struct("y")),
        vec![]
    );
    assert_eq!(
        classify_data_type_change(&array(a_struct("x"), true), &array(a_struct("y"), true)),
        vec![]
    );
    assert_eq!(
        classify_data_type_change(&array(a_struct("x"), false), &array(a_struct("y"), true)),
        vec![FieldChangeType::ContainerNullabilityLoosened]
    );
    assert_eq!(
        classify_data_type_change(
            &map(a_struct("x"), a_struct("x"), true),
            &map(a_struct("y"), a_struct("y"), false)
        ),
        vec![FieldChangeType::ContainerNullabilityTightened]
    );
    // However deep in maps the structs are, only the changes of nullability remain
    assert_eq!(
        classify_data_type_change(
            &map(
                map(LONG, array(a_struct("x"), true), false),
                map(a_struct("x"), LONG, true),
                true
            ),
            &map(
                map(LONG, array(a_struct("y"), false), true),
                map(a_struct("y"), LONG, true),
                true
            )
        ),
        vec![
            FieldChangeType::ContainerNullabilityTightened,
            FieldChangeType::ContainerNullabilityLoosened
        ]
    );
}

#[test]
fn array_changes_come_from_the_element_then_the_container() {
    assert_eq!(
        classify_data_type_change(&array(LONG, true), &array(LONG, false)),
        vec![FieldChangeType::ContainerNullabilityTightened]
    );
    assert_eq!(
        classify_data_type_change(&array(LONG, true), &array(STRING, false)),
        vec![
            FieldChangeType::TypeChanged,
            FieldChangeType::ContainerNullabilityTightened
        ]
    );
    // Elements that differ outside structs are a type change, whatever differs in them
    assert_eq!(
        classify_data_type_change(
            &array(array(LONG, false), true),
            &array(array(LONG, true), false)
        ),
        vec![
            FieldChangeType::TypeChanged,
            FieldChangeType::ContainerNullabilityTightened
        ]
    );
    assert_eq!(
        classify_data_type_change(
            &array(array(LONG, true), true),
            &array(array(LONG, false), true)
        ),
        vec![FieldChangeType::TypeChanged]
    );
    assert_eq!(
        classify_data_type_change(
            &array(array(a_struct("x"), true), true),
            &array(array(a_struct("y"), true), true)
        ),
        vec![]
    );
    assert_eq!(
        classify_data_type_change(
            &array(map(LONG, a_struct("x"), true), true),
            &array(map(LONG, a_struct("y"), true), false)
        ),
        vec![FieldChangeType::ContainerNullabilityTightened]
    );
    assert_eq!(
        classify_data_type_change(
            &array(map(LONG, a_struct("x"), true), true),
            &array(map(STRING, a_struct("x"), true), true)
        ),
        vec![FieldChangeType::TypeChanged]
    );
    assert_eq!(
        classify_data_type_change(
            &array(map(LONG, a_struct("x"), true), true),
            &array(map(LONG, a_struct("x"), false), true)
        ),
        vec![FieldChangeType::TypeChanged]
    );
    assert_eq!(
        classify_data_type_change(&array(a_struct("x"), true), &array(LONG, true)),
        vec![FieldChangeType::TypeChanged]
    );
}

#[test]
fn map_changes_come_from_the_key_the_value_then_the_container() {
    assert_eq!(
        classify_data_type_change(
            &map(LONG, array(STRING, true), false),
            &map(STRING, array(STRING, false), true)
        ),
        vec![
            FieldChangeType::TypeChanged,
            FieldChangeType::ContainerNullabilityTightened,
            FieldChangeType::ContainerNullabilityLoosened
        ]
    );
}

#[test]
fn exchanged_types_have_the_opposite_changes() {
    let before = map(LONG, array(STRING, true), false);
    let after = map(STRING, array(STRING, false), true);
    assert_eq!(
        classify_data_type_change(&after, &before),
        vec![
            FieldChangeType::TypeChanged,
            FieldChangeType::ContainerNullabilityLoosened,
            FieldChangeType::ContainerNullabilityTightened
        ]
    );
}

#[test]
fn reserved_metadata_is_not_compared() {
    let plain = || StructField::new("a", LONG, true);
    let reserved = plain().add_metadata(vec![
        ("delta.columnMapping.id", MetadataValue::Number(7)),
        ("delta.columnMappingAnything", text("x")),
        ("parquet.field.id", MetadataValue::Number(7)),
        ("parquet.field.nested.ids", text("y")),
    ]);
    assert!(!has_metadata_changes(&plain(), &reserved));
    assert!(!has_metadata_changes(&reserved, &plain()));

    let near = plain().add_metadata(vec![("delta.columnMappin", text("x"))]);
    assert!(has_metadata_changes(&plain(), &near));
    let inside = plain().add_metadata(vec![("my.parquet.field", text("x"))]);
    assert!(has_metadata_changes(&plain(), &inside));
}

#[test]
fn metadata_is_compared_by_key_and_value() {
    let plain = || StructField::new("a", LONG, true);
    let one = plain().add_metadata(vec![("k", text("v")), ("l", MetadataValue::Boolean(true))]);
    let other_order =
        plain().add_metadata(vec![("l", MetadataValue::Boolean(true)), ("k", text("v"))]);
    assert!(!has_metadata_changes(&one, &other_order));
    assert_eq!(one, other_order);

    let other_value =
        plain().add_metadata(vec![("k", text("w")), ("l", MetadataValue::Boolean(true))]);
    assert!(has_metadata_changes(&one, &other_value));
    assert_ne!(one, other_value);

    let other_kind = plain().add_metadata(vec![
        ("k", MetadataValue::Other("v".to_string())),
        ("l", MetadataValue::Boolean(true)),
    ]);
    assert!(has_metadata_changes(&one, &other_kind));

    let fewer = plain().add_metadata(vec![("k", text("v"))]);
    assert!(has_metadata_changes(&one, &fewer));
    assert!(has_metadata_changes(&fewer, &one));

    // The last value for a key is the one that counts
    let replaced = plain().add_metadata(vec![
        ("k", text("old")),
        ("l", MetadataValue::Boolean(true)),
        ("k", text("v")),
    ]);
    assert!(!has_metadata_changes(&one, &replaced));
}

#[test]
fn field_id_must_be_a_number() {
    let path = column(&["a"]);
    let with_id = StructField::new("a", LONG, true)
        .add_metadata(vec![("delta.columnMapping.id", MetadataValue::Number(-5))]);
    assert_eq!(get_field_id_for_path(&with_id, &path).unwrap(), -5);

    let with_text = StructField::new("a", LONG, true)
        .add_metadata(vec![("delta.columnMapping.id", text("5"))]);
    for field in [with_text, StructField::new("a", LONG, true)] {
        match get_field_id_for_path(&field, &path) {
            Err(SchemaDiffError::MissingFieldId { path: p }) => assert_eq!(p, path),
            _ => panic!("expected a missing id"),
        }
    }
}

#[test]
fn physical_name_must_be_a_string() {
    let named = mapped("a", LONG, true, 1, "col_1").field;
    assert_eq!(physical_name(&named), Some("col_1"));
    let numbered = StructField::new("a", LONG, true).add_metadata(vec![(
        "delta.columnMapping.physicalName",
        MetadataValue::Number(1),
    )]);
    assert_eq!(physical_name(&numbered), None);
    assert_eq!(physical_name(&StructField::new("a", LONG, true)), None);
}

#[test]
fn physical_names_must_be_present_and_equal() {
    let before = mapped("a", LONG, true, 3, "x");
    assert!(validate_physical_name(&before, &mapped("b", LONG, true, 3, "x")).is_ok());

    match validate_physical_name(&before, &mapped("b", LONG, true, 3, "y")) {
        Err(SchemaDiffError::PhysicalNameChanged {
            field_id,
            path,
            before,
            after,
        }) => {
            assert_eq!(field_id, 3);
            assert_eq!(path, column(&["b"]));
            assert_eq!(before, "x");
            assert_eq!(after, "y");
        }
        _ => panic!("expected a changed name"),
    }

    let nameless = |name: &str| FieldWithPath {
        field: StructField::new(name, LONG, true),
        path: column(&[name]),
        field_id: 3,
    };
    for (b, a) in [
        (mapped("a", LONG, true, 3, "x"), nameless("b")),
        (nameless("a"), mapped("b", LONG, true, 3, "x")),
        (nameless("a"), nameless("b")),
    ] {
        match validate_physical_name(&b, &a) {
            Err(SchemaDiffError::MissingPhysicalName { path }) => {
                assert_eq!(path, column(&["b"]))
            }
            _ => panic!("expected a missing name"),
        }
    }
}

#[test]
fn field_update_lists_all_changes_in_order() {
    let before = mapped("a", array(LONG, true), true, 1, "x");
    let mut after = mapped("b", array(STRING, false), false, 1, "x");
    after.field = after.field.add_metadata(vec![("k", text("v"))]);
    let update = compute_field_update(&before, &after).unwrap().unwrap();
    assert_eq!(update.before, before.field);
    assert_eq!(update.after, after.field);
    assert_eq!(update.path, column(&["b"]));
    assert_eq!(
        update.change_types,
        vec![
            FieldChangeType::Renamed,
            FieldChangeType::NullabilityTightened,
            FieldChangeType::TypeChanged,
            FieldChangeType::ContainerNullabilityTightened,
            FieldChangeType::MetadataChanged,
        ]
    );
}

#[test]
fn equal_fields_have_no_update() {
    let before = mapped("a", LONG, true, 1, "x");
    assert!(compute_field_update(&before, &before.clone())
        .unwrap()
        .is_none());
}

#[test]
fn wrong_physical_name_comes_before_the_changes() {
    let before = mapped("a", LONG, true, 1, "x");
    let after = mapped("b", STRING, false, 1, "y");
    assert!(matches!(
        compute_field_update(&before, &after),
        Err(SchemaDiffError::PhysicalNameChanged { .. })
    ));
}

#[test]
fn copies_are_equal() {
    let field = mapped("a", map(array(STRING, true), a_struct("x"), false), true, 1, "x").field;
    assert_eq!(field.clone(), field);
    assert_ne!(
        field,
        mapped("a", map(array(STRING, true), a_struct("y"), false), true, 1, "x").field
    );
}
