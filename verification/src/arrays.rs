//! Schemas, columns and record batches, as the `arrow` crate provides them.
use arrow::array::{ArrayRef, Int64Array, RecordBatch, StringViewBuilder};
use arrow::datatypes::{DataType, Field, Schema, SchemaRef};
use arrow::error::ArrowError;
use std::sync::Arc;
use vstd::prelude::*;
use vstd::utf8::encode_utf8;

verus! {

/// The types that a column can have.
#[derive(Clone, Copy)]
pub enum ColumnType {
    /// Signed 64-bit integers.
    Int64,
    /// Strings, stored as views.
    Utf8View,
}

/// What a field of a schema says of its column.
pub struct FieldDef {
    /// The column's name.
    pub name: Seq<char>,
    /// The column's type, and none for every type that is not a [`ColumnType`].
    pub column_type: Option<ColumnType>,
    /// Whether the column may hold nulls.
    pub nullable: bool,
    /// Custom key-value pairs.
    pub metadata: Map<Seq<char>, Seq<char>>,
}

/// No key-value pairs.
pub open spec fn no_metadata() -> Map<Seq<char>, Seq<char>> {
    Map::empty()
}

/// The values of a column. No column here holds nulls.
pub enum ColumnData {
    /// Signed 64-bit integers.
    Int64(Seq<i64>),
    /// Strings.
    Utf8View(Seq<Seq<char>>),
}

impl ColumnData {
    /// The number of values.
    pub open spec fn len(self) -> nat {
        match self {
            ColumnData::Int64(values) => values.len(),
            ColumnData::Utf8View(values) => values.len(),
        }
    }

    /// The column's type.
    pub open spec fn column_type(self) -> ColumnType {
        match self {
            ColumnData::Int64(_) => ColumnType::Int64,
            ColumnData::Utf8View(_) => ColumnType::Utf8View,
        }
    }

    /// The values with those of `next` behind them, and none where the types differ.
    pub open spec fn followed_by(self, next: Self) -> Option<Self> {
        match (self, next) {
            (ColumnData::Int64(a), ColumnData::Int64(b)) => Some(ColumnData::Int64(a + b)),
            (ColumnData::Utf8View(a), ColumnData::Utf8View(b)) => Some(ColumnData::Utf8View(a + b)),
            _ => None,
        }
    }
}

/// Makes `arrow`'s `Field` known to the verifier. Nothing is said of what is inside;
/// [`field_def`] names it.
#[verifier::external_type_specification]
#[verifier::external_body]
pub struct ExField(Field);

/// The name, type, nullability and metadata of a field.
pub uninterp spec fn field_def(field: Field) -> FieldDef;

/// `arrow`'s `Field::new` is taken to make a field of the given name, type and
/// nullability, without metadata.
#[verifier::external_body]
pub(crate) fn new_field(name: String, column_type: ColumnType, nullable: bool) -> (field: Field)
    ensures
        field_def(field) == (FieldDef {
            name: name@,
            column_type: Some(column_type),
            nullable,
            metadata: no_metadata(),
        }),
{
    let data_type = match column_type {
        ColumnType::Int64 => DataType::Int64,
        ColumnType::Utf8View => DataType::Utf8View,
    };
    Field::new(name, data_type, nullable)
}

/// Makes `arrow`'s `Schema` known to the verifier. Nothing is said of what is
/// inside; [`schema_fields`] and [`schema_metadata`] name it.
#[verifier::external_type_specification]
#[verifier::external_body]
pub struct ExSchema(Schema);

/// The fields of a schema, in order.
pub uninterp spec fn schema_fields(schema: Schema) -> Seq<FieldDef>;

/// The custom key-value pairs of a schema.
pub uninterp spec fn schema_metadata(schema: Schema) -> Map<Seq<char>, Seq<char>>;

/// `arrow`'s `Schema::new` is taken to make a schema of the given fields, in order,
/// without metadata.
#[verifier::external_body]
pub(crate) fn new_schema(fields: Vec<Field>) -> (schema: Schema)
    ensures
        schema_fields(schema) == fields@.map_values(|field: Field| field_def(field)),
        schema_metadata(schema) == no_metadata(),
{
    Schema::new(fields)
}

/// A column of values: an `arrow` array.
#[verifier::external_body]
pub struct Column {
    array: ArrayRef,
}

/// The values of a column, in order.
pub uninterp spec fn column_data(column: Column) -> ColumnData;

/// `arrow`'s `Int64Array::from(Vec<i64>)` is taken to make a column of the vector's
/// values, in order and without nulls.
#[verifier::external_body]
pub(crate) fn int64_column(values: Vec<i64>) -> (column: Column)
    ensures
        column_data(column) == ColumnData::Int64(values@),
{
    Column { array: Arc::new(Int64Array::from(values)) }
}

/// A string column under construction: an `arrow` `StringViewBuilder`.
#[verifier::external_body]
pub struct StringColumnBuilder {
    inner: StringViewBuilder,
}

/// The strings appended to a builder, in order.
pub uninterp spec fn builder_strings(builder: StringColumnBuilder) -> Seq<Seq<char>>;

/// The number of strings that a builder was made for.
pub uninterp spec fn builder_capacity(builder: StringColumnBuilder) -> nat;

/// The length of all strings together, in bytes.
pub open spec fn total_bytes(strings: Seq<Seq<char>>) -> nat
    decreases strings.len(),
{
    if strings.len() == 0 {
        0
    } else {
        total_bytes(strings.drop_last()) + encode_utf8(strings.last()).len()
    }
}

/// Whether the blocks that hold `count` strings of `bytes` bytes together can be
/// numbered with 32 bits. A block holds at least one string, and a MiB on average
/// once the block size has grown.
pub open spec fn blocks_fit(count: nat, bytes: nat) -> bool {
    count <= u32::MAX || bytes <= 0x10_0000 * (u32::MAX - 16)
}

impl StringColumnBuilder {
    /// `arrow`'s `StringViewBuilder::with_capacity` is taken to make a builder
    /// without strings that has room for the views of that many. It panics where the views of that many strings, of sixteen
    /// bytes each, exceed an allocation.
    #[verifier::external_body]
    pub(crate) fn with_capacity(capacity: usize) -> (builder: Self)
        requires
            capacity * 16 <= isize::MAX,
        ensures
            builder_strings(builder) == Seq::<Seq<char>>::empty(),
            builder_capacity(builder) == capacity,
    {
        Self { inner: StringViewBuilder::with_capacity(capacity) }
    }

    /// `arrow`'s `StringViewBuilder::append_value` is taken to append the string. It
    /// panics where the string's length in bytes, or the number of blocks that hold
    /// the strings, does not fit in 32 bits, and where the views outgrow an
    /// allocation, which they do not within the capacity.
    ///
    /// There are never more blocks than strings. Also, a block is closed by a string
    /// that it has no room for, and then holds more than its size together with that
    /// string. The size is 2 MiB from the eighth block on, so there are at most
    /// sixteen blocks more than the strings have MiB.
    #[verifier::external_body]
    pub(crate) fn append_value(&mut self, value: &str)
        requires
            encode_utf8(value@).len() < u32::MAX,
            builder_strings(*old(self)).len() < builder_capacity(*old(self)),
            blocks_fit(
                builder_strings(*old(self)).len() + 1,
                total_bytes(builder_strings(*old(self))) + encode_utf8(value@).len(),
            ),
        ensures
            builder_strings(*final(self)) == builder_strings(*old(self)).push(value@),
            builder_capacity(*final(self)) == builder_capacity(*old(self)),
    {
        self.inner.append_value(value)
    }

    /// `arrow`'s `StringViewBuilder::finish` is taken to make a column of the
    /// appended strings, in order and without nulls.
    #[verifier::external_body]
    pub(crate) fn finish(self) -> (column: Column)
        ensures
            column_data(column) == ColumnData::Utf8View(builder_strings(self)),
    {
        let mut inner = self.inner;
        Column { array: Arc::new(inner.finish()) }
    }
}

/// Makes `arrow`'s error known to the verifier. Nothing is said of what is inside.
#[verifier::external_type_specification]
#[verifier::external_body]
pub struct ExArrowError(ArrowError);

/// Columns of one length under a schema: an `arrow` `RecordBatch`.
#[verifier::external_body]
pub struct Batch {
    /// The batch as `arrow` and `parquet` take it.
    pub record_batch: RecordBatch,
}

/// The schema of a batch.
pub uninterp spec fn batch_schema(batch: Batch) -> Schema;

/// The columns of a batch, in order.
pub uninterp spec fn batch_columns(batch: Batch) -> Seq<ColumnData>;

/// Whether columns make up a batch under a schema of these fields: there is at
/// least one, one per field, of the field's type, and all of one length.
pub open spec fn batch_accepts(fields: Seq<FieldDef>, columns: Seq<ColumnData>) -> bool {
    &&& columns.len() == fields.len()
    &&& columns.len() > 0
    &&& forall|i: int|
        0 <= i < columns.len() ==> {
            &&& (#[trigger] columns[i]).len() == columns[0].len()
            &&& fields[i].column_type == Some(columns[i].column_type())
        }
}

/// `arrow`'s `RecordBatch::try_new` is taken to succeed exactly where
/// [`batch_accepts`] says so, and then to hold the schema itself and the columns, in
/// order.
#[verifier::external_body]
pub(crate) fn new_batch(schema: SchemaRef, columns: Vec<Column>) -> (result: Result<
    Batch,
    ArrowError,
>)
    ensures
        result is Ok <==> batch_accepts(
            schema_fields(*schema),
            columns@.map_values(|column: Column| column_data(column)),
        ),
        result matches Ok(batch) ==> batch_schema(batch) == *schema && batch_columns(batch)
            == columns@.map_values(|column: Column| column_data(column)),
{
    let arrays = columns.into_iter().map(|column| column.array).collect();
    RecordBatch::try_new(schema, arrays).map(|record_batch| Batch { record_batch })
}

} // verus!
