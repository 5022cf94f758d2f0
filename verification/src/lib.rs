//! Differences between two versions of a table schema.
//!
//! Every field of a schema carries, in its metadata, the id that column mapping gave it. Two
//! schemas are compared by these ids, not by names: a field whose id is only in the new schema was
//! added, one whose id is only in the old schema was removed, and one whose id is in both is
//! examined for a rename, a change of nullability, of type, or of metadata.
//!
//! Fields are compared at every nesting level within structs, arrays and maps. [`laws`] states what
//! holds of every diff, and [`laws_collect`], [`laws_compare`] and [`laws_lists`] say what is
//! reported, of the fields, the types and the metadata themselves. [`laws_text`] and [`laws_views`]
//! do so for texts and for what values stand for.

pub mod ancestors;
pub mod change;
pub mod column_name;
pub mod compare;
pub mod diff;
pub mod error;
pub mod laws;
pub mod laws_collect;
pub mod laws_compare;
pub mod laws_lists;
pub mod laws_text;
pub mod laws_views;
pub mod metadata;
pub mod schema;
mod seqs;
pub mod strings;
pub mod text;
