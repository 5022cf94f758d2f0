//! Schemas: structs of named, typed fields.

use crate::metadata::{Metadata, MetadataValue, MetadataValueView};
use vstd::prelude::*;

verus! {

/// A type without parts.
#[derive(Debug, Clone, Copy, PartialEq, Eq, Structural)]
pub enum PrimitiveType {
    String,
    Long,
    Integer,
    Short,
    Byte,
    Float,
    Double,
    Boolean,
    Binary,
    Date,
    Timestamp,
    TimestampNtz,
    Decimal { precision: u8, scale: u8 },
}

/// The type of a field.
#[derive(Debug)]
pub enum DataType {
    Primitive(PrimitiveType),
    Array(Box<ArrayType>),
    Struct(Box<StructType>),
    MapOf(Box<MapType>),
}

/// A list of elements of one type.
#[derive(Debug)]
pub struct ArrayType {
    /// The type of the elements
    pub element_type: DataType,
    /// Whether an element may be null
    pub contains_null: bool,
}

/// A map from keys of one type to values of another.
#[derive(Debug)]
pub struct MapType {
    /// The type of the keys
    pub key_type: DataType,
    /// The type of the values
    pub value_type: DataType,
    /// Whether a value may be null
    pub value_contains_null: bool,
}

/// A sequence of fields. The schema of a table is one.
#[derive(Debug)]
pub struct StructType {
    pub fields: Vec<StructField>,
}

/// A named field of a struct.
#[derive(Debug)]
pub struct StructField {
    /// The logical name
    pub name: String,
    pub data_type: DataType,
    /// Whether the value may be null
    pub nullable: bool,
    pub metadata: Metadata,
}

/// What a data type is.
pub enum DataTypeView {
    Primitive(PrimitiveType),
    Array { element: Box<DataTypeView>, contains_null: bool },
    Struct(Seq<StructFieldView>),
    MapOf { key: Box<DataTypeView>, value: Box<DataTypeView>, value_contains_null: bool },
}

/// What a field is.
pub struct StructFieldView {
    pub name: Seq<char>,
    pub data_type: DataTypeView,
    pub nullable: bool,
    pub metadata: Map<Seq<char>, MetadataValueView>,
}

pub open spec fn data_type_view(t: DataType) -> DataTypeView
    decreases t,
{
    match t {
        DataType::Primitive(p) => DataTypeView::Primitive(p),
        DataType::Array(a) => DataTypeView::Array {
            element: Box::new(data_type_view(a.element_type)),
            contains_null: a.contains_null,
        },
        DataType::Struct(s) => DataTypeView::Struct(fields_view(s.fields@)),
        DataType::MapOf(m) => DataTypeView::MapOf {
            key: Box::new(data_type_view(m.key_type)),
            value: Box::new(data_type_view(m.value_type)),
            value_contains_null: m.value_contains_null,
        },
    }
}

pub open spec fn field_view(f: StructField) -> StructFieldView
    decreases f,
{
    StructFieldView {
        name: f.name@,
        data_type: data_type_view(f.data_type),
        nullable: f.nullable,
        metadata: f.metadata@,
    }
}

pub open spec fn fields_view(fields: Seq<StructField>) -> Seq<StructFieldView>
    decreases fields,
{
    Seq::new(
        fields.len(),
        |i: int|
            if 0 <= i < fields.len() {
                field_view(fields[i])
            } else {
                arbitrary()
            },
    )
}

impl View for DataType {
    type V = DataTypeView;

    open spec fn view(&self) -> DataTypeView {
        data_type_view(*self)
    }
}

impl View for StructField {
    type V = StructFieldView;

    open spec fn view(&self) -> StructFieldView {
        field_view(*self)
    }
}

impl View for StructType {
    type V = Seq<StructFieldView>;

    open spec fn view(&self) -> Seq<StructFieldView> {
        fields_view(self.fields@)
    }
}

/// A metadata key that column mapping reserves.
#[derive(Debug, Clone, Copy, PartialEq, Eq, Structural)]
pub enum ColumnMetadataKey {
    /// The id that identifies a field across the versions of a schema
    ColumnMappingId,
    /// The name of the column in the data files
    ColumnMappingPhysicalName,
}

impl ColumnMetadataKey {
    /// The key's text.
    pub open spec fn text(self) -> Seq<char> {
        match self {
            ColumnMetadataKey::ColumnMappingId => "delta.columnMapping.id"@,
            ColumnMetadataKey::ColumnMappingPhysicalName => "delta.columnMapping.physicalName"@,
        }
    }

    /// The key's text.
    pub fn as_str(&self) -> (r: &'static str)
        ensures
            r@ == self.text(),
    {
        match self {
            ColumnMetadataKey::ColumnMappingId => "delta.columnMapping.id",
            ColumnMetadataKey::ColumnMappingPhysicalName => "delta.columnMapping.physicalName",
        }
    }
}

impl ArrayType {
    /// The type of lists of `element_type`.
    pub fn new(element_type: DataType, contains_null: bool) -> (r: Self)
        ensures
            r == (ArrayType { element_type, contains_null }),
    {
        ArrayType { element_type, contains_null }
    }

    /// The type of the elements.
    pub fn element_type(&self) -> (r: &DataType)
        ensures
            *r == self.element_type,
    {
        &self.element_type
    }

    /// Whether an element may be null.
    pub fn contains_null(&self) -> (r: bool)
        ensures
            r == self.contains_null,
    {
        self.contains_null
    }
}

impl MapType {
    /// The type of maps from `key_type` to `value_type`.
    pub fn new(key_type: DataType, value_type: DataType, value_contains_null: bool) -> (r: Self)
        ensures
            r == (MapType { key_type, value_type, value_contains_null }),
    {
        MapType { key_type, value_type, value_contains_null }
    }

    /// The type of the keys.
    pub fn key_type(&self) -> (r: &DataType)
        ensures
            *r == self.key_type,
    {
        &self.key_type
    }

    /// The type of the values.
    pub fn value_type(&self) -> (r: &DataType)
        ensures
            *r == self.value_type,
    {
        &self.value_type
    }

    /// Whether a value may be null.
    pub fn value_contains_null(&self) -> (r: bool)
        ensures
            r == self.value_contains_null,
    {
        self.value_contains_null
    }
}

impl StructType {
    /// The struct with these fields, which are taken as they are.
    pub fn new_unchecked(fields: Vec<StructField>) -> (r: Self)
        ensures
            r == (StructType { fields }),
    {
        StructType { fields }
    }

    /// The fields, in order.
    pub fn fields(&self) -> (r: &Vec<StructField>)
        ensures
            *r == self.fields,
    {
        &self.fields
    }
}

/// A map with one entry after the other put in. The last entry for a key wins.
pub open spec fn with_entries(
    map: Map<Seq<char>, MetadataValueView>,
    entries: Seq<(&str, MetadataValue)>,
) -> Map<Seq<char>, MetadataValueView>
    decreases entries.len(),
{
    if entries.len() == 0 {
        map
    } else {
        with_entries(map, entries.drop_last()).insert(entries.last().0@, entries.last().1@)
    }
}

impl StructField {
    /// A field without metadata.
    pub fn new(name: &str, data_type: DataType, nullable: bool) -> (r: Self)
        ensures
            r.name@ == name@,
            r.data_type == data_type,
            r.nullable == nullable,
            r.metadata@ == Map::<Seq<char>, MetadataValueView>::empty(),
    {
        StructField { name: name.to_string(), data_type, nullable, metadata: Metadata::new() }
    }

    /// The field with these entries added to its metadata.
    pub fn add_metadata(self, entries: Vec<(&str, MetadataValue)>) -> (r: Self)
        ensures
            r.name == self.name,
            r.data_type == self.data_type,
            r.nullable == self.nullable,
            r.metadata@ == with_entries(self.metadata@, entries@),
    {
        let mut metadata: Metadata = self.metadata;
        let ghost all = entries@;
        assert(all.take(0) =~= Seq::empty());
        for entry in it: entries
            invariant
                it.seq() == all,
                metadata@ == with_entries(self.metadata@, all.take(it.index() as int)),
        {
            let ghost done = it.index() as int;
            assert(all.take(done + 1).drop_last() =~= all.take(done));
            metadata = metadata.insert(entry.0.to_string(), entry.1);
        }
        assert(all.take(all.len() as int) =~= all);
        StructField { name: self.name, data_type: self.data_type, nullable: self.nullable, metadata }
    }

    /// The logical name.
    pub fn name(&self) -> (r: &String)
        ensures
            *r == self.name,
    {
        &self.name
    }

    /// The type.
    pub fn data_type(&self) -> (r: &DataType)
        ensures
            *r == self.data_type,
    {
        &self.data_type
    }

    /// The value that the metadata has for a reserved key.
    pub fn get_config_value(&self, key: &ColumnMetadataKey) -> (r: Option<&MetadataValue>)
        ensures
            match r {
                Some(value) => self@.metadata.contains_key(key.text()) && value@
                    == self@.metadata[key.text()],
                None => !self@.metadata.contains_key(key.text()),
            },
    {
        self.metadata.get(&key.as_str().to_string())
    }
}

impl Clone for DataType {
    fn clone(&self) -> (r: Self)
        ensures
            r@ == self@,
        decreases self,
    {
        match self {
            DataType::Primitive(p) => DataType::Primitive(*p),
            DataType::Array(a) => {
                let element_type: DataType = a.element_type.clone();
                DataType::Array(Box::new(ArrayType { element_type, contains_null: a.contains_null }))
            },
            DataType::Struct(s) => {
                let fields: Vec<StructField> = clone_fields(&s.fields);
                DataType::Struct(Box::new(StructType { fields }))
            },
            DataType::MapOf(m) => {
                let key_type: DataType = m.key_type.clone();
                let value_type: DataType = m.value_type.clone();
                DataType::MapOf(
                    Box::new(
                        MapType { key_type, value_type, value_contains_null: m.value_contains_null },
                    ),
                )
            },
        }
    }
}

impl Clone for StructField {
    fn clone(&self) -> (r: Self)
        ensures
            r@ == self@,
        decreases self,
    {
        StructField {
            name: self.name.clone(),
            data_type: self.data_type.clone(),
            nullable: self.nullable,
            metadata: self.metadata.clone(),
        }
    }
}

/// Copies a list of fields.
fn clone_fields(fields: &Vec<StructField>) -> (r: Vec<StructField>)
    ensures
        fields_view(r@) == fields_view(fields@),
    decreases fields,
{
    let mut r: Vec<StructField> = Vec::new();
    let n: usize = fields.len();
    for i in 0..n
        invariant
            n == fields@.len(),
            r@.len() == i,
            forall|j: int| 0 <= j < i ==> field_view(#[trigger] r@[j]) == field_view(fields@[j]),
    {
        r.push(fields[i].clone());
    }
    assert(fields_view(r@) =~= fields_view(fields@));
    r
}

impl Clone for StructType {
    fn clone(&self) -> (r: Self)
        ensures
            r@ == self@,
    {
        StructType { fields: clone_fields(&self.fields) }
    }
}

/// Whether two data types are the same.
fn data_types_equal(a: &DataType, b: &DataType) -> (r: bool)
    ensures
        r == (a@ == b@),
    decreases a,
{
    match (a, b) {
        (DataType::Primitive(p), DataType::Primitive(q)) => *p == *q,
        (DataType::Array(s), DataType::Array(t)) => {
            s.contains_null == t.contains_null && data_types_equal(&s.element_type, &t.element_type)
        },
        (DataType::Struct(s), DataType::Struct(t)) => fields_equal(&s.fields, &t.fields),
        (DataType::MapOf(s), DataType::MapOf(t)) => {
            s.value_contains_null == t.value_contains_null && data_types_equal(
                &s.key_type,
                &t.key_type,
            ) && data_types_equal(&s.value_type, &t.value_type)
        },
        _ => false,
    }
}

/// Whether two fields are the same.
fn field_equal(a: &StructField, b: &StructField) -> (r: bool)
    ensures
        r == (a@ == b@),
    decreases a,
{
    a.name == b.name && a.nullable == b.nullable && a.metadata == b.metadata && data_types_equal(
        &a.data_type,
        &b.data_type,
    )
}

impl PartialEq for DataType {
    fn eq(&self, other: &Self) -> (r: bool) {
        data_types_equal(self, other)
    }
}

impl vstd::std_specs::cmp::PartialEqSpecImpl for DataType {
    open spec fn obeys_eq_spec() -> bool {
        true
    }

    open spec fn eq_spec(&self, other: &Self) -> bool {
        self@ == other@
    }
}

impl Eq for DataType {}

impl PartialEq for StructField {
    fn eq(&self, other: &Self) -> (r: bool) {
        field_equal(self, other)
    }
}

impl vstd::std_specs::cmp::PartialEqSpecImpl for StructField {
    open spec fn obeys_eq_spec() -> bool {
        true
    }

    open spec fn eq_spec(&self, other: &Self) -> bool {
        self@ == other@
    }
}

impl Eq for StructField {}

/// Whether two lists hold the same fields in the same order.
fn fields_equal(a: &Vec<StructField>, b: &Vec<StructField>) -> (r: bool)
    ensures
        r == (fields_view(a@) == fields_view(b@)),
    decreases a,
{
    let n: usize = a.len();
    if n != b.len() {
        assert(fields_view(a@).len() != fields_view(b@).len());
        return false;
    }
    for i in 0..n
        invariant
            n == a@.len(),
            n == b@.len(),
            forall|j: int| 0 <= j < i ==> field_view(#[trigger] a@[j]) == field_view(b@[j]),
    {
        if !field_equal(&a[i], &b[i]) {
            assert(fields_view(a@)[i as int] != fields_view(b@)[i as int]);
            return false;
        }
    }
    assert(fields_view(a@) =~= fields_view(b@));
    true
}

impl PartialEq for StructType {
    fn eq(&self, other: &Self) -> (r: bool) {
        fields_equal(&self.fields, &other.fields)
    }
}

impl vstd::std_specs::cmp::PartialEqSpecImpl for StructType {
    open spec fn obeys_eq_spec() -> bool {
        true
    }

    open spec fn eq_spec(&self, other: &Self) -> bool {
        self@ == other@
    }
}

impl Eq for StructType {}

} // verus!
