//! The reasons for which two schemas cannot be compared.

use crate::column_name::ColumnName;
use vstd::prelude::*;

verus! {

/// Errors that can occur during schema diffing.
#[derive(Debug)]
pub enum SchemaDiffError {
    /// A field has no column mapping id
    MissingFieldId { path: ColumnName },
    /// Two fields of one schema have the same id
    DuplicateFieldId { id: i64, path1: ColumnName, path2: ColumnName },
    /// A field has no physical name
    MissingPhysicalName { path: ColumnName },
    /// The physical name of a field is not the same in both schemas
    PhysicalNameChanged { field_id: i64, path: ColumnName, before: String, after: String },
}

/// What a `SchemaDiffError` reports.
pub enum SchemaDiffErrorView {
    MissingFieldId { path: Seq<Seq<char>> },
    DuplicateFieldId { id: i64, path1: Seq<Seq<char>>, path2: Seq<Seq<char>> },
    MissingPhysicalName { path: Seq<Seq<char>> },
    PhysicalNameChanged {
        field_id: i64,
        path: Seq<Seq<char>>,
        before: Seq<char>,
        after: Seq<char>,
    },
}

impl View for SchemaDiffError {
    type V = SchemaDiffErrorView;

    open spec fn view(&self) -> SchemaDiffErrorView {
        match self {
            SchemaDiffError::MissingFieldId { path } => SchemaDiffErrorView::MissingFieldId {
                path: path@,
            },
            SchemaDiffError::DuplicateFieldId { id, path1, path2 } => {
                SchemaDiffErrorView::DuplicateFieldId { id: *id, path1: path1@, path2: path2@ }
            },
            SchemaDiffError::MissingPhysicalName { path } => {
                SchemaDiffErrorView::MissingPhysicalName { path: path@ }
            },
            SchemaDiffError::PhysicalNameChanged { field_id, path, before, after } => {
                SchemaDiffErrorView::PhysicalNameChanged {
                    field_id: *field_id,
                    path: path@,
                    before: before@,
                    after: after@,
                }
            },
        }
    }
}

} // verus!
