use schema_diff::change::FieldChangeType;
use schema_diff::column_name::ColumnName;
use schema_diff::diff::SchemaDiffArgs;
use schema_diff::error::SchemaDiffError;
use schema_diff::metadata::MetadataValue;
use schema_diff::schema::{DataType, PrimitiveType, StructField, StructType};

const LONG: DataType = DataType::Primitive(PrimitiveType::Long);
const STRING: DataType = DataType::Primitive(PrimitiveType::String);

fn column(names: &[&str]) -> ColumnName {
    ColumnName::new(names.iter().map(|n| n.to_string()).collect())
}

fn create_field_with_id(name: &str, data_type: DataType, nullable: bool, id: i64) -> StructField {
    StructField::new(name, data_type, nullable).add_metadata(vec![
        ("delta.columnMapping.id", MetadataValue::Number(id)),
        (
            "delta.columnMapping.physicalName",
            MetadataValue::String(format!("col_{}", id)),
        ),
    ])
}

#[test]
fn test_identical_schemas() {
    let schema = StructType::new_unchecked(vec![
        create_field_with_id("id", LONG, false, 1),
        create_field_with_id("name", STRING, false, 2),
    ]);

    let diff = SchemaDiffArgs {
        before: &schema,
        after: &schema,
    }
    .compute_diff()
    .unwrap();
    assert!(diff.is_empty());
    assert!(!diff.has_breaking_changes());
}

#[test]
fn test_change_count() {
    let before = StructType::new_unchecked(vec![
        create_field_with_id("id", LONG, false, 1),
        create_field_with_id("name", STRING, false, 2),
    ]);

    let after = StructType::new_unchecked(vec![
        create_field_with_id("id", LONG, true, 1),
        create_field_with_id("email", STRING, false, 3),
    ]);

    let diff = SchemaDiffArgs {
        before: &before,
        after: &after,
    }
    .compute_diff()
    .unwrap();

    // 1 removed (name), 1 added (email), 1 updated (id)
    assert_eq!(diff.change_count(), 3);
    assert_eq!(diff.removed_fields.len(), 1);
    assert_eq!(diff.added_fields.len(), 1);
    assert_eq!(diff.updated_fields.len(), 1);
}

#[test]
fn test_top_level_added_field() {
    let before = StructType::new_unchecked(vec![create_field_with_id("id", LONG, false, 1)]);

    let after = StructType::new_unchecked(vec![
        create_field_with_id("id", LONG, false, 1),
        create_field_with_id("name", STRING, false, 2),
    ]);

    let diff = SchemaDiffArgs {
        before: &before,
        after: &after,
    }
    .compute_diff()
    .unwrap();
    assert_eq!(diff.added_fields.len(), 1);
    assert_eq!(diff.removed_fields.len(), 0);
    assert_eq!(diff.updated_fields.len(), 0);
    assert_eq!(diff.added_fields[0].path, column(&["name"]));
    assert_eq!(diff.added_fields[0].field.name(), "name");
    assert!(diff.has_breaking_changes()); // Adding non-nullable field is breaking
}

#[test]
fn test_added_required_field_is_breaking() {
    // Adding a non-nullable (required) field is breaking
    let before = StructType::new_unchecked(vec![create_field_with_id("id", LONG, false, 1)]);

    let after = StructType::new_unchecked(vec![
        create_field_with_id("id", LONG, false, 1),
        create_field_with_id("required_field", STRING, false, 2),
    ]);

    let diff = SchemaDiffArgs {
        before: &before,
        after: &after,
    }
    .compute_diff()
    .unwrap();
    assert_eq!(diff.added_fields.len(), 1);
    assert_eq!(diff.removed_fields.len(), 0);
    assert_eq!(diff.updated_fields.len(), 0);
    assert!(diff.has_breaking_changes());
}

#[test]
fn test_added_nullable_field_is_not_breaking() {
    // Adding a nullable (optional) field is NOT breaking
    let before = StructType::new_unchecked(vec![create_field_with_id("id", LONG, false, 1)]);

    let after = StructType::new_unchecked(vec![
        create_field_with_id("id", LONG, false, 1),
        create_field_with_id("optional_field", STRING, true, 2),
    ]);

    let diff = SchemaDiffArgs {
        before: &before,
        after: &after,
    }
    .compute_diff()
    .unwrap();
    assert_eq!(diff.added_fields.len(), 1);
    assert_eq!(diff.removed_fields.len(), 0);
    assert_eq!(diff.updated_fields.len(), 0);
    assert!(!diff.has_breaking_changes()); // Not breaking
}

#[test]
fn test_physical_name_validation() {
    // Physical names present and unchanged: valid schema evolution (just a rename)
    let before = StructType::new_unchecked(vec![StructField::new("name", STRING, false)
        .add_metadata(vec![
            ("delta.columnMapping.id", MetadataValue::Number(1)),
            (
                "delta.columnMapping.physicalName",
                MetadataValue::String("col_1".to_string()),
            ),
        ])]);
    let after = StructType::new_unchecked(vec![StructField::new("full_name", STRING, false)
        .add_metadata(vec![
            ("delta.columnMapping.id", MetadataValue::Number(1)),
            (
                "delta.columnMapping.physicalName",
                MetadataValue::String("col_1".to_string()),
            ),
        ])]);

    let diff = SchemaDiffArgs {
        before: &before,
        after: &after,
    }
    .compute_diff()
    .unwrap();
    assert_eq!(diff.added_fields.len(), 0);
    assert_eq!(diff.removed_fields.len(), 0);
    assert_eq!(diff.updated_fields.len(), 1);
    assert_eq!(
        diff.updated_fields[0].change_types,
        vec![FieldChangeType::Renamed]
    );
    assert!(!diff.has_breaking_changes()); // Rename is not breaking

    // Physical name changed: INVALID (returns error)
    let before = StructType::new_unchecked(vec![StructField::new("name", STRING, false)
        .add_metadata(vec![
            ("delta.columnMapping.id", MetadataValue::Number(1)),
            (
                "delta.columnMapping.physicalName",
                MetadataValue::String("col_001".to_string()),
            ),
        ])]);
    let after = StructType::new_unchecked(vec![StructField::new("name", STRING, false)
        .add_metadata(vec![
            ("delta.columnMapping.id", MetadataValue::Number(1)),
            (
                "delta.columnMapping.physicalName",
                MetadataValue::String("col_002".to_string()),
            ),
        ])]);

    let result = SchemaDiffArgs {
        before: &before,
        after: &after,
    }
    .compute_diff();
    assert!(matches!(
        result,
        Err(SchemaDiffError::PhysicalNameChanged { .. })
    ));

    // Missing physical name in one schema: INVALID (returns error)
    let before = StructType::new_unchecked(vec![StructField::new("name", STRING, false)
        .add_metadata(vec![
            ("delta.columnMapping.id", MetadataValue::Number(1)),
            (
                "delta.columnMapping.physicalName",
                MetadataValue::String("col_1".to_string()),
            ),
        ])]);
    let after = StructType::new_unchecked(vec![StructField::new("name", STRING, false)
        .add_metadata(vec![("delta.columnMapping.id", MetadataValue::Number(1))])]);

    let result = SchemaDiffArgs {
        before: &before,
        after: &after,
    }
    .compute_diff();
    assert!(matches!(
        result,
        Err(SchemaDiffError::MissingPhysicalName { .. })
    ));
}

#[test]
fn test_multiple_change_types() {
    // A field with several simultaneous changes has them all in one update
    let before = StructType::new_unchecked(vec![create_field_with_id(
        "user_name",
        STRING,
        false,
        1,
    )
    .add_metadata(vec![(
        "custom",
        MetadataValue::String("old_value".to_string()),
    )])]);

    let after = StructType::new_unchecked(vec![create_field_with_id("userName", STRING, true, 1)
        .add_metadata(vec![(
            "custom",
            MetadataValue::String("new_value".to_string()),
        )])]);

    let diff = SchemaDiffArgs {
        before: &before,
        after: &after,
    }
    .compute_diff()
    .unwrap();

    assert_eq!(diff.added_fields.len(), 0);
    assert_eq!(diff.removed_fields.len(), 0);
    assert_eq!(diff.updated_fields.len(), 1);
    let update = &diff.updated_fields[0];

    // Should have 3 changes
    assert_eq!(update.change_types.len(), 3);
    assert!(update.change_types.contains(&FieldChangeType::Renamed));
    assert!(update
        .change_types
        .contains(&FieldChangeType::NullabilityLoosened));
    assert!(update
        .change_types
        .contains(&FieldChangeType::MetadataChanged));

    // Breaking because metadata changed (metadata changes can be unsafe, e.g., row tracking)
    assert!(diff.has_breaking_changes());
}

#[test]
fn test_multiple_with_breaking_change() {
    // Several changes are breaking where one of them is
    let before = StructType::new_unchecked(vec![create_field_with_id(
        "user_name",
        STRING,
        true,
        1,
    )
    .add_metadata(vec![(
        "custom",
        MetadataValue::String("old_value".to_string()),
    )])]);

    let after = StructType::new_unchecked(vec![create_field_with_id("userName", STRING, false, 1)
        .add_metadata(vec![(
            "custom",
            MetadataValue::String("new_value".to_string()),
        )])]);

    let diff = SchemaDiffArgs {
        before: &before,
        after: &after,
    }
    .compute_diff()
    .unwrap();

    assert_eq!(diff.added_fields.len(), 0);
    assert_eq!(diff.removed_fields.len(), 0);
    assert_eq!(diff.updated_fields.len(), 1);
    let update = &diff.updated_fields[0];

    assert_eq!(update.change_types.len(), 3);
    assert!(update.change_types.contains(&FieldChangeType::Renamed));
    assert!(update
        .change_types
        .contains(&FieldChangeType::NullabilityTightened));
    assert!(update
        .change_types
        .contains(&FieldChangeType::MetadataChanged));

    // Breaking because nullability was tightened
    assert!(diff.has_breaking_changes());
}

#[test]
fn test_duplicate_field_id_error() {
    // Duplicate field IDs in the same schema produce an error
    let schema_with_duplicates = StructType::new_unchecked(vec![
        create_field_with_id("field1", STRING, false, 1),
        create_field_with_id("field2", STRING, false, 1),
    ]);

    let result = SchemaDiffArgs {
        before: &schema_with_duplicates,
        after: &schema_with_duplicates,
    }
    .compute_diff();

    assert!(result.is_err());
    match result {
        Err(SchemaDiffError::DuplicateFieldId { id, path1, path2 }) => {
            assert_eq!(id, 1);
            assert_eq!(path1, column(&["field1"]));
            assert_eq!(path2, column(&["field2"]));
        }
        _ => panic!("Expected DuplicateFieldId error"),
    }
}
