use schema_diff::column_name::ColumnName;
use schema_diff::diff::compute_schema_diff;
use schema_diff::error::SchemaDiffError;
use schema_diff::metadata::MetadataValue;
use schema_diff::schema::{DataType, PrimitiveType, StructField, StructType};

const LONG: DataType = DataType::Primitive(PrimitiveType::Long);

fn column(names: &[&str]) -> ColumnName {
    ColumnName::new(names.iter().map(|n| n.to_string()).collect())
}

fn field(name: &str, nullable: bool, id: i64, physical: &str) -> StructField {
    StructField::new(name, LONG, nullable).add_metadata(vec![
        ("delta.columnMapping.id", MetadataValue::Number(id)),
        (
            "delta.columnMapping.physicalName",
            MetadataValue::String(physical.to_string()),
        ),
    ])
}

fn schema(fields: Vec<StructField>) -> StructType {
    StructType::new_unchecked(fields)
}

fn message_of(before: &StructType, after: &StructType) -> String {
    compute_schema_diff(before, after).unwrap_err().message()
}

#[test]
fn missing_id_is_reported_before_all_else() {
    let repeated = schema(vec![field("a", true, 1, "x"), field("b", true, 1, "y")]);
    let no_id = schema(vec![StructField::new("c", LONG, true)]);
    let expected = "Field at path 'c' is missing column mapping ID";
    assert_eq!(message_of(&repeated, &no_id), expected);
    assert_eq!(message_of(&no_id, &repeated), expected);
}

#[test]
fn missing_id_of_the_old_schema_comes_first() {
    let old = schema(vec![StructField::new("old", LONG, true)]);
    let new = schema(vec![StructField::new("new", LONG, true)]);
    assert_eq!(
        message_of(&old, &new),
        "Field at path 'old' is missing column mapping ID"
    );
}

#[test]
fn repeated_id_is_reported_before_physical_names() {
    let one = schema(vec![field("a", true, -7, "x")]);
    let repeated = schema(vec![field("b", true, -7, "y"), field("c", true, -7, "z")]);
    let expected = "Duplicate field ID -7 found at paths 'b' and 'c'";
    assert_eq!(message_of(&one, &repeated), expected);
    assert_eq!(message_of(&repeated, &one), expected);
}

#[test]
fn changed_physical_name_is_reported() {
    let before = schema(vec![field("a", true, 120, "x")]);
    let after = schema(vec![field("b", true, 120, "y")]);
    assert_eq!(
        message_of(&before, &after),
        "Field with ID 120 at path 'b' has inconsistent physical names: 'x' -> 'y'. \
         Physical names must not change for the same field ID."
    );
}

#[test]
fn missing_physical_name_is_reported() {
    let before = schema(vec![field("a", true, 1, "x")]);
    let after = schema(vec![StructField::new("a", LONG, true)
        .add_metadata(vec![("delta.columnMapping.id", MetadataValue::Number(1))])]);
    assert_eq!(
        message_of(&before, &after),
        "Field at path 'a' is missing physical name (required when column mapping is enabled)"
    );
}

#[test]
fn physical_name_is_not_asked_of_a_field_in_one_schema() {
    let nameless = schema(vec![StructField::new("a", LONG, true)
        .add_metadata(vec![("delta.columnMapping.id", MetadataValue::Number(1))])]);
    let diff = compute_schema_diff(&nameless, &schema(vec![])).unwrap();
    assert_eq!(diff.removed_fields.len(), 1);
    assert!(compute_schema_diff(&nameless, &nameless).is_err());
}

#[test]
fn removal_is_breaking() {
    let before = schema(vec![field("a", false, 1, "x"), field("b", false, 2, "y")]);
    let after = schema(vec![field("b", false, 2, "y")]);
    let diff = compute_schema_diff(&before, &after).unwrap();
    assert_eq!(diff.change_count(), 1);
    assert_eq!(diff.removed_fields[0].path, column(&["a"]));
    assert!(!diff.is_empty());
    assert!(diff.has_breaking_changes());
    assert_eq!(diff.clone(), diff);
    let back = compute_schema_diff(&after, &after).unwrap();
    assert!(!back.has_breaking_changes());
}

#[test]
fn changes_come_in_the_order_of_the_schemas() {
    let before = schema(vec![
        field("z", true, 9, "z"),
        field("y", true, 8, "y"),
        field("k", true, 1, "k"),
        field("l", true, 2, "l"),
    ]);
    let after = schema(vec![
        field("b", true, 20, "b"),
        field("l", false, 2, "l"),
        field("a", true, 10, "a"),
        field("k", false, 1, "k"),
    ]);
    let diff = compute_schema_diff(&before, &after).unwrap();
    let names = |changes: &[schema_diff::change::FieldChange]| -> Vec<String> {
        changes.iter().map(|c| c.field.name().clone()).collect()
    };
    assert_eq!(names(&diff.added_fields), vec!["b", "a"]);
    assert_eq!(names(&diff.removed_fields), vec!["z", "y"]);
    let updated: Vec<&str> = diff
        .updated_fields
        .iter()
        .map(|u| u.after.name().as_str())
        .collect();
    assert_eq!(updated, vec!["l", "k"]);
}

#[test]
fn empty_schemas_do_not_differ() {
    let diff = compute_schema_diff(&schema(vec![]), &schema(vec![])).unwrap();
    assert!(diff.is_empty());
    assert_eq!(diff.change_count(), 0);
}

#[test]
fn paths_as_text() {
    assert_eq!(column(&["user", "address", "street"]).to_text(), "user.address.street");
    assert_eq!(column(&["_a1"]).to_text(), "_a1");
    assert_eq!(column(&[]).to_text(), "");
    assert_eq!(column(&["a.b", "c"]).to_text(), "`a.b`.c");
    assert_eq!(column(&["1a", ""]).to_text(), "`1a`.``");
    assert_eq!(column(&["a`b"]).to_text(), "`a``b`");
    assert_eq!(column(&["h\u{f6}he"]).to_text(), "`h\u{f6}he`");
}

#[test]
fn ids_as_text() {
    for id in [0, 9, 10, 1234567890, -1, i64::MAX, i64::MIN] {
        let error = SchemaDiffError::DuplicateFieldId {
            id,
            path1: column(&["a"]),
            path2: column(&["b"]),
        };
        assert_eq!(
            error.message(),
            format!("Duplicate field ID {} found at paths 'a' and 'b'", id)
        );
    }
}
