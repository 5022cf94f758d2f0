# schema_diff

Computes the difference between two versions of a table schema, with its behaviour stated and
proved in Verus.

Fields are matched by the id that column mapping gave them, so a renamed field is recognised as
such. A diff lists the fields that were added, removed and updated, and says whether it contains
changes that break existing data or its readers: a field removed, a required field added, a type or
metadata changed, a nullability tightened.

All the fields of a schema are compared, at every nesting level within structs, arrays and maps. A
path holds the names of fields only: the fields of a struct that is the element of an array, or the
key or the value of a map, are immediately below the field that holds the array or the map. A field
in the key of a map and one in its value may so be at the same path; their ids tell them apart.

Where a field was added or removed together with the field that immediately encloses it, only the
enclosing one is reported. What encloses a field is decided by where the field stands in the schema,
not by its path alone.

- `src/schema.rs`, `src/metadata.rs`, `src/column_name.rs`: schemas and their parts
- `src/change.rs`, `src/error.rs`: what a diff reports, and why there may be none
- `src/compare.rs`: what changed between two versions of one field
- `src/ancestors.rs`: changes to fields and to the fields that enclose them
- `src/diff.rs`: the diff of two schemas
- `src/text.rs`: paths and errors as text
- `src/laws.rs`: what holds of diffs as a whole
- `app/`: the errors as `std::error::Error`
