//! The wide, skewed table: its schema and its deterministic rows.
use crate::arrays::{
    batch_accepts, batch_columns, batch_schema, blocks_fit, builder_capacity, builder_strings,
    column_data, field_def, int64_column, new_batch, new_field, new_schema, no_metadata,
    schema_fields, schema_metadata, total_bytes, Batch, Column, ColumnData, ColumnType, FieldDef,
    StringColumnBuilder,
};
use crate::settings::{Args, LARGE_AVG_LEN, SMALL_AVG_LEN};
use crate::text::{
    counter_in, decimal_text, fill_value, is_decimal, law_counter_is_recovered,
    law_decimal_text_is_injective, law_decimal_text_writes_the_number,
    law_shorter_values_are_prefixes, law_value_len_in_bytes, law_values_are_distinct,
    lemma_encoded_len, max_bytes, push_decimal, value_text,
};
use arrow::datatypes::{Field, Schema, SchemaRef};
use std::sync::Arc;
use vstd::arithmetic::div_mod::{lemma_add_mod_noop, lemma_fundamental_div_mod};
use vstd::prelude::*;
use vstd::utf8::encode_utf8;

verus! {

/// The field of column `c`: the integer columns come first, then the small string
/// columns, then the large ones.
pub open spec fn field_at(args: Args, c: int) -> FieldDef {
    let first_small = args.int_columns as int;
    let first_large = args.int_columns + args.small_string_columns;
    if c < first_small {
        FieldDef {
            name: "int_"@ + decimal_text(c as nat),
            column_type: Some(ColumnType::Int64),
            nullable: false,
            metadata: no_metadata(),
        }
    } else if c < first_large {
        FieldDef {
            name: "small_str_"@ + decimal_text((c - first_small) as nat),
            column_type: Some(ColumnType::Utf8View),
            nullable: false,
            metadata: no_metadata(),
        }
    } else {
        FieldDef {
            name: "large_str_"@ + decimal_text((c - first_large) as nat),
            column_type: Some(ColumnType::Utf8View),
            nullable: false,
            metadata: no_metadata(),
        }
    }
}

/// The fields of the table, in order.
pub open spec fn fields_of(args: Args) -> Seq<FieldDef> {
    Seq::new(args.columns(), |c: int| field_at(args, c))
}

/// `prefix` with the number `i` behind it.
fn numbered(prefix: &str, i: usize) -> (name: String)
    requires
        encode_utf8(prefix@).len() + 20 <= max_bytes(),
    ensures
        name@ == prefix@ + decimal_text(i as nat),
{
    let mut name = String::from_str(prefix);
    push_decimal(&mut name, i as u64);
    name
}

/// Append `count` fields of one type, named by `prefix` and their number.
fn push_fields(fields: &mut Vec<Field>, prefix: &str, column_type: ColumnType, count: usize)
    requires
        encode_utf8(prefix@).len() + 20 <= max_bytes(),
    ensures
        final(fields)@.len() == old(fields)@.len() + count,
        forall|c: int|
            0 <= c < old(fields)@.len() ==> #[trigger] final(fields)@[c] == old(fields)@[c],
        forall|i: int|
            0 <= i < count ==> field_def(#[trigger] final(fields)@[old(fields)@.len() + i]) == (
            FieldDef {
                name: prefix@ + decimal_text(i as nat),
                column_type: Some(column_type),
                nullable: false,
                metadata: no_metadata(),
            }),
{
    let ghost before = fields@;
    for i in 0..count
        invariant
            encode_utf8(prefix@).len() + 20 <= max_bytes(),
            fields@.len() == before.len() + i,
            forall|c: int| 0 <= c < before.len() ==> #[trigger] fields@[c] == before[c],
            forall|j: int|
                0 <= j < i ==> field_def(#[trigger] fields@[before.len() + j]) == (FieldDef {
                    name: prefix@ + decimal_text(j as nat),
                    column_type: Some(column_type),
                    nullable: false,
                    metadata: no_metadata(),
                }),
    {
        fields.push(new_field(numbered(prefix, i), column_type, false));
    }
}

/// Build the wide, skewed schema: a few integer columns, then small string
/// columns, then the fat large string columns.
pub fn build_schema(args: &Args) -> (schema: SchemaRef)
    requires
        args.columns() <= usize::MAX,
    ensures
        schema_fields(*schema) == fields_of(*args),
        schema_metadata(*schema) == no_metadata(),
{
    let mut fields: Vec<Field> = Vec::new();
    proof {
        reveal_strlit("int_");
        reveal_strlit("small_str_");
        reveal_strlit("large_str_");
        lemma_encoded_len("int_"@);
        lemma_encoded_len("small_str_"@);
        lemma_encoded_len("large_str_"@);
    }
    push_fields(&mut fields, "int_", ColumnType::Int64, args.int_columns);
    let ghost ints = fields@;
    push_fields(&mut fields, "small_str_", ColumnType::Utf8View, args.small_string_columns);
    let ghost smalls = fields@;
    push_fields(&mut fields, "large_str_", ColumnType::Utf8View, args.large_string_columns);
    proof {
        let defs = fields@.map_values(|field: Field| field_def(field));
        assert forall|c: int| 0 <= c < args.columns() implies #[trigger] defs[c] == field_at(
            *args,
            c,
        ) by {
            let first_small = args.int_columns as int;
            let first_large = args.int_columns + args.small_string_columns;
            if c < first_small {
                assert(ints[0 + c] == smalls[c] && smalls[c] == fields@[c]);
            } else if c < first_large {
                assert(smalls[first_small + (c - first_small)] == fields@[c]);
            } else {
                assert(fields@[first_large + (c - first_large)] == fields@[c]);
            }
        }
        assert(defs =~= fields_of(*args));
    }
    Arc::new(new_schema(fields))
}

/// The counter of row `row` in the string column with this salt.
pub open spec fn counter(row: int, salt: u64) -> u64 {
    ((row * 101 + salt) % 0x1_0000_0000_0000_0000) as u64
}

/// The values of a string column.
pub open spec fn strings_of(rows: nat, row_offset: u64, salt: u64, len: nat) -> Seq<Seq<char>> {
    Seq::new(rows, |r: int| value_text(counter(row_offset + r, salt), len))
}

/// What a machine can hold of a string column: the sixteen bytes of each value's view
/// fit in an allocation, the values in numbered blocks, and the last row's index in
/// 64 bits.
pub open spec fn strings_fit(rows: usize, row_offset: u64, len: usize) -> bool {
    &&& rows * 16 <= isize::MAX
    &&& blocks_fit(rows as nat, rows as nat * len as nat)
    &&& row_offset + rows - 1 <= u64::MAX
}

/// The values of a string column have the same length.
proof fn lemma_total_bytes(rows: nat, row_offset: u64, salt: u64, len: nat)
    ensures
        total_bytes(strings_of(rows, row_offset, salt, len)) == rows * len,
    decreases rows,
{
    let strings = strings_of(rows, row_offset, salt, len);
    if rows > 0 {
        let before = (rows - 1) as nat;
        assert(strings.drop_last() =~= strings_of(before, row_offset, salt, len));
        lemma_total_bytes(before, row_offset, salt, len);
        law_value_len_in_bytes(counter(row_offset + before, salt), len);
        assert(rows * len == before * len + len) by (nonlinear_arith)
            requires
                rows == before + 1,
        ;
    } else {
        assert(0 * len == 0);
    }
}

/// The wrapping computation of a counter.
fn counter_of(row: u64, salt: u64) -> (n: u64)
    ensures
        n == counter(row as int, salt),
{
    proof {
        let m = 0x1_0000_0000_0000_0000;
        lemma_add_mod_noop(row * 101, salt as int, m);
    }
    row.wrapping_mul(101).wrapping_add(salt)
}

/// Build a string column of `rows` values, each exactly `len` bytes, keyed by
/// the global row index and a per-column `salt` so values are distinct.
pub fn make_string_array(rows: usize, row_offset: u64, salt: u64, len: usize) -> (column: Column)
    requires
        strings_fit(rows, row_offset, len),
        rows > 0 ==> len < u32::MAX && len <= max_bytes(),
    ensures
        column_data(column) == ColumnData::Utf8View(
            strings_of(rows as nat, row_offset, salt, len as nat),
        ),
{
    let mut builder = StringColumnBuilder::with_capacity(rows);
    let mut value = String::new();
    for r in 0..rows
        invariant
            strings_fit(rows, row_offset, len),
            rows > 0 ==> len < u32::MAX && len <= max_bytes(),
            builder_strings(builder) == strings_of(r as nat, row_offset, salt, len as nat),
            builder_capacity(builder) == rows,
    {
        let n: u64 = counter_of(row_offset + r as u64, salt);
        fill_value(&mut value, n, len);
        proof {
            law_value_len_in_bytes(n, len as nat);
            lemma_total_bytes(r as nat, row_offset, salt, len as nat);
            assert(r * len + len <= rows * len) by (nonlinear_arith)
                requires
                    r + 1 <= rows,
            ;
        }
        builder.append_value(value.as_str());
        assert(builder_strings(builder) =~= strings_of((r + 1) as nat, row_offset, salt, len as nat));
    }
    builder.finish()
}

/// The signed integer with the bits of `v`.
pub open spec fn as_signed(v: int) -> i64 {
    if v <= i64::MAX {
        v as i64
    } else {
        (v - 0x1_0000_0000_0000_0000) as i64
    }
}

/// The values of integer column `c`.
pub open spec fn ints_of(rows: nat, row_offset: u64, c: int) -> Seq<i64> {
    Seq::new(rows, |r: int| as_signed(row_offset + r + c))
}

/// Build the integer column with this salt.
fn make_int_array(rows: usize, row_offset: u64, salt: u64) -> (column: Column)
    requires
        rows * 8 <= isize::MAX,
        rows > 0 ==> row_offset + (rows - 1) + salt <= u64::MAX,
    ensures
        column_data(column) == ColumnData::Int64(ints_of(rows as nat, row_offset, salt as int)),
{
    let mut values: Vec<i64> = Vec::with_capacity(rows);
    for r in 0..rows
        invariant
            rows > 0 ==> row_offset + (rows - 1) + salt <= u64::MAX,
            values@ == ints_of(r as nat, row_offset, salt as int),
    {
        let v: u64 = row_offset + r as u64 + salt;
        assert(v <= 0x7fff_ffff_ffff_ffff ==> v as i64 == v) by (bit_vector);
        assert(v > 0x7fff_ffff_ffff_ffff ==> v as i64 == v - 0x1_0000_0000_0000_0000)
            by (bit_vector);
        values.push(v as i64);
        assert(values@ =~= ints_of((r + 1) as nat, row_offset, salt as int));
    }
    int64_column(values)
}

/// The values of column `c` in the rows from `row_offset` on. The column's index is
/// its salt.
pub open spec fn column_at(args: Args, row_offset: u64, rows: nat, c: int) -> ColumnData {
    if c < args.int_columns {
        ColumnData::Int64(ints_of(rows, row_offset, c))
    } else if c < args.int_columns + args.small_string_columns {
        ColumnData::Utf8View(strings_of(rows, row_offset, c as u64, SMALL_AVG_LEN as nat))
    } else {
        ColumnData::Utf8View(strings_of(rows, row_offset, c as u64, LARGE_AVG_LEN as nat))
    }
}

/// The columns of the rows from `row_offset` on.
pub open spec fn columns_of(args: Args, row_offset: u64, rows: nat) -> Seq<ColumnData> {
    Seq::new(args.columns(), |c: int| column_at(args, row_offset, rows, c))
}

/// What a machine can hold of a batch: the string columns fit, so do the integer
/// columns with their eight bytes a row, and no integer value leaves the 64 bits.
pub open spec fn batch_fits(args: Args, row_offset: u64, rows: usize) -> bool {
    &&& args.columns() <= usize::MAX
    &&& args.small_string_columns > 0 ==> strings_fit(rows, row_offset, SMALL_AVG_LEN)
    &&& args.large_string_columns > 0 ==> strings_fit(rows, row_offset, LARGE_AVG_LEN)
    &&& args.int_columns > 0 ==> rows * 8 <= isize::MAX
    &&& rows > 0 && args.int_columns > 0 ==> row_offset + (rows - 1) + (args.int_columns - 1)
        <= u64::MAX
}

/// Append `count` string columns of values of `len` bytes, each with its index as
/// its salt.
fn push_string_columns(
    columns: &mut Vec<Column>,
    count: usize,
    rows: usize,
    row_offset: u64,
    len: usize,
)
    requires
        count > 0 ==> strings_fit(rows, row_offset, len),
        old(columns)@.len() + count <= usize::MAX,
        len < u32::MAX,
        len <= max_bytes(),
    ensures
        final(columns)@.len() == old(columns)@.len() + count,
        forall|c: int|
            0 <= c < old(columns)@.len() ==> #[trigger] final(columns)@[c] == old(columns)@[c],
        forall|c: int|
            old(columns)@.len() <= c < final(columns)@.len() ==> column_data(
                #[trigger] final(columns)@[c],
            ) == ColumnData::Utf8View(strings_of(rows as nat, row_offset, c as u64, len as nat)),
{
    let ghost before = columns@;
    for i in 0..count
        invariant
            count > 0 ==> strings_fit(rows, row_offset, len),
            before.len() + count <= usize::MAX,
            len < u32::MAX,
            len <= max_bytes(),
            columns@.len() == before.len() + i,
            forall|c: int| 0 <= c < before.len() ==> #[trigger] columns@[c] == before[c],
            forall|c: int|
                before.len() <= c < columns@.len() ==> column_data(#[trigger] columns@[c])
                    == ColumnData::Utf8View(
                    strings_of(rows as nat, row_offset, c as u64, len as nat),
                ),
    {
        let salt: u64 = columns.len() as u64;
        columns.push(make_string_array(rows, row_offset, salt, len));
    }
}

/// Whether the batch holds the rows from `row_offset` on, under the schema.
pub open spec fn batch_holds(
    batch: Batch,
    schema: Schema,
    args: Args,
    row_offset: u64,
    rows: nat,
) -> bool {
    &&& batch_schema(batch) == schema
    &&& batch_columns(batch) == columns_of(args, row_offset, rows)
}

/// Build the record batch covering rows `[row_offset, row_offset + rows)`.
pub fn make_batch(schema: &SchemaRef, args: &Args, row_offset: u64, rows: usize) -> (batch: Batch)
    requires
        batch_fits(*args, row_offset, rows),
        batch_accepts(schema_fields(**schema), columns_of(*args, row_offset, rows as nat)),
    ensures
        batch_holds(batch, **schema, *args, row_offset, rows as nat),
        batch_schema(batch) == **schema,
        batch_columns(batch) == columns_of(*args, row_offset, rows as nat),
{
    let mut columns: Vec<Column> = Vec::new();
    for c in 0..args.int_columns
        invariant
            batch_fits(*args, row_offset, rows),
            columns@.len() == c,
            forall|d: int|
                0 <= d < c ==> column_data(#[trigger] columns@[d]) == ColumnData::Int64(
                    ints_of(rows as nat, row_offset, d),
                ),
    {
        columns.push(make_int_array(rows, row_offset, c as u64));
    }
    push_string_columns(&mut columns, args.small_string_columns, rows, row_offset, SMALL_AVG_LEN);
    push_string_columns(&mut columns, args.large_string_columns, rows, row_offset, LARGE_AVG_LEN);
    proof {
        let data = columns@.map_values(|column: Column| column_data(column));
        assert(data =~= columns_of(*args, row_offset, rows as nat));
    }
    new_batch(schema.clone(), columns).unwrap()
}

/// All columns of the table have different names.
pub proof fn law_field_names_are_distinct(args: Args, c: int, d: int)
    requires
        0 <= c < d < args.columns(),
    ensures
        fields_of(args)[c].name != fields_of(args)[d].name,
{
    let first_small = args.int_columns as int;
    let first_large = args.int_columns + args.small_string_columns;
    reveal_strlit("int_");
    reveal_strlit("small_str_");
    reveal_strlit("large_str_");
    let a = fields_of(args)[c].name;
    let b = fields_of(args)[d].name;
    if a == b {
        assert(a[0] == b[0]);
        if d < first_small {
            lemma_numbers_agree("int_"@, c as nat, d as nat);
        } else if c >= first_large {
            lemma_numbers_agree("large_str_"@, (c - first_large) as nat, (d - first_large) as nat);
        } else if c >= first_small && d < first_large {
            lemma_numbers_agree("small_str_"@, (c - first_small) as nat, (d - first_small) as nat);
        }
    }
}

/// Equal names with one prefix have equal numbers.
proof fn lemma_numbers_agree(prefix: Seq<char>, n: nat, m: nat)
    requires
        prefix + decimal_text(n) == prefix + decimal_text(m),
    ensures
        n == m,
{
    let a = prefix + decimal_text(n);
    let b = prefix + decimal_text(m);
    assert(decimal_text(n) =~= a.subrange(prefix.len() as int, a.len() as int));
    assert(decimal_text(m) =~= b.subrange(prefix.len() as int, b.len() as int));
    law_decimal_text_is_injective(n, m);
}

/// Every batch of the table fits the table's schema, as long as there is a column.
pub proof fn law_batch_matches_schema(args: Args, row_offset: u64, rows: nat)
    requires
        args.columns() > 0,
    ensures
        batch_accepts(fields_of(args), columns_of(args, row_offset, rows)),
{
}

/// Within a string column every row has its own counter.
pub proof fn law_rows_have_distinct_counters(row: u64, other: u64, salt: u64)
    requires
        counter(row as int, salt) == counter(other as int, salt),
    ensures
        row == other,
{
    let m = 0x1_0000_0000_0000_0000int;
    let a = row * 101 + salt;
    let b = other * 101 + salt;
    let q = a / m - b / m;
    lemma_fundamental_div_mod(a, m);
    lemma_fundamental_div_mod(b, m);
    let d = row - other;
    assert(101 * d == m * q) by (nonlinear_arith)
        requires
            a - b == m * (a / m) - m * (b / m),
            q == a / m - b / m,
            a - b == 101 * d,
    ;
    // This is the inverse of 101 modulo m.
    assert(4200743699953660269 * 101 == 1 + 23 * m);
    assert(d == m * (4200743699953660269 * q - 23 * d)) by (nonlinear_arith)
        requires
            101 * d == m * q,
            m == 0x1_0000_0000_0000_0000int,
    ;
    let e = 4200743699953660269 * q - 23 * d;
    assert(e == 0) by (nonlinear_arith)
        requires
            d == m * e,
            m == 0x1_0000_0000_0000_0000int,
            -m < d < m,
    ;
}

/// In every row two string columns have different counters.
pub proof fn law_columns_have_distinct_counters(row: u64, salt: u64, other: u64)
    requires
        counter(row as int, salt) == counter(row as int, other),
    ensures
        salt == other,
{
    let m = 0x1_0000_0000_0000_0000int;
    let a = row * 101 + salt;
    let b = row * 101 + other;
    lemma_fundamental_div_mod(a, m);
    lemma_fundamental_div_mod(b, m);
    let q = a / m - b / m;
    assert(q == 0) by (nonlinear_arith)
        requires
            a - b == m * (a / m) - m * (b / m),
            q == a / m - b / m,
            -m < a - b < m,
            m == 0x1_0000_0000_0000_0000int,
    ;
}

/// With at most 101 columns, and as long as no counter wraps around, no two values
/// anywhere in the table have the same counter.
pub proof fn law_counters_are_distinct(row: int, salt: u64, other_row: int, other_salt: u64)
    requires
        0 <= row,
        0 <= other_row,
        salt < 101,
        other_salt < 101,
        row * 101 + salt <= u64::MAX,
        other_row * 101 + other_salt <= u64::MAX,
        counter(row, salt) == counter(other_row, other_salt),
    ensures
        row == other_row,
        salt == other_salt,
{
}

/// The values of a string column are distinct.
pub proof fn law_strings_are_distinct(
    rows: nat,
    row_offset: u64,
    salt: u64,
    len: nat,
    r: int,
    q: int,
)
    requires
        row_offset + rows - 1 <= u64::MAX,
        len >= 20,
        0 <= r < q < rows,
    ensures
        strings_of(rows, row_offset, salt, len)[r] != strings_of(rows, row_offset, salt, len)[q],
{
    let n = counter(row_offset + r, salt);
    let m = counter(row_offset + q, salt);
    if value_text(n, len) == value_text(m, len) {
        law_values_are_distinct(n, m, len);
        law_rows_have_distinct_counters((row_offset + r) as u64, (row_offset + q) as u64, salt);
    }
}

/// Two columns of one kind differ in every row.
pub proof fn law_columns_differ_in_every_row(
    args: Args,
    row_offset: u64,
    rows: nat,
    c: int,
    d: int,
    r: int,
)
    requires
        args.columns() <= usize::MAX,
        0 <= c < d < args.columns(),
        0 <= r < rows,
        row_offset + (rows - 1) <= u64::MAX,
        args.int_columns > 0 ==> row_offset + (rows - 1) + (args.int_columns - 1) <= u64::MAX,
    ensures
        match (
            columns_of(args, row_offset, rows)[c],
            columns_of(args, row_offset, rows)[d],
        ) {
            (ColumnData::Int64(a), ColumnData::Int64(b)) => a[r] != b[r],
            (ColumnData::Utf8View(a), ColumnData::Utf8View(b)) => a[r] != b[r],
            _ => true,
        },
{
    if c >= args.int_columns {
        let n = counter(row_offset + r, c as u64);
        let m = counter(row_offset + r, d as u64);
        let small = args.int_columns + args.small_string_columns;
        if c < small && d >= small {
            assert(value_text(n, 20).len() != value_text(m, 16 * 1024).len());
        } else {
            let len = if c < small { SMALL_AVG_LEN as nat } else { LARGE_AVG_LEN as nat };
            if value_text(n, len) == value_text(m, len) {
                law_values_are_distinct(n, m, len);
                law_columns_have_distinct_counters((row_offset + r) as u64, c as u64, d as u64);
            }
        }
    }
}

/// String columns with different salts differ in every row.
pub proof fn law_salts_keep_columns_apart(
    rows: nat,
    row_offset: u64,
    salt: u64,
    other: u64,
    len: nat,
    r: int,
)
    requires
        row_offset + rows - 1 <= u64::MAX,
        len >= 20,
        salt != other,
        0 <= r < rows,
    ensures
        strings_of(rows, row_offset, salt, len)[r] != strings_of(rows, row_offset, other, len)[r],
{
    let n = counter(row_offset + r, salt);
    let m = counter(row_offset + r, other);
    if value_text(n, len) == value_text(m, len) {
        law_values_are_distinct(n, m, len);
        law_columns_have_distinct_counters((row_offset + r) as u64, salt, other);
    }
}

/// A string column's values are keyed by the global row index: the column of two runs
/// of rows holds the values of the first run followed by those of the second, and
/// none where both are empty.
pub proof fn law_string_columns_are_seamless(
    row_offset: u64,
    first: nat,
    second: nat,
    salt: u64,
    len: nat,
)
    requires
        row_offset + first <= u64::MAX,
    ensures
        strings_of(first + second, row_offset, salt, len) == strings_of(
            first,
            row_offset,
            salt,
            len,
        ) + strings_of(second, (row_offset + first) as u64, salt, len),
        first + second == 0 ==> strings_of(first + second, row_offset, salt, len) == Seq::<
            Seq<char>,
        >::empty(),
{
    assert(strings_of(first + second, row_offset, salt, len) =~= strings_of(
        first,
        row_offset,
        salt,
        len,
    ) + strings_of(second, (row_offset + first) as u64, salt, len));
}

/// Where a run of rows fits in one string column, so does each part of it.
proof fn lemma_parts_of_strings_fit(row_offset: u64, first: usize, second: usize, len: usize)
    requires
        first + second <= usize::MAX,
        row_offset + first <= u64::MAX,
        strings_fit((first + second) as usize, row_offset, len),
    ensures
        strings_fit(first, row_offset, len),
        strings_fit(second, (row_offset + first) as u64, len),
{
    assert(first * len <= (first + second) * len && second * len <= (first + second) * len)
        by (nonlinear_arith);
}

/// Where a run of rows fits in one batch, so does each part of it.
pub proof fn law_parts_of_a_batch_fit(args: Args, row_offset: u64, first: usize, second: usize)
    requires
        first + second <= usize::MAX,
        row_offset + first <= u64::MAX,
        batch_fits(args, row_offset, (first + second) as usize),
    ensures
        batch_fits(args, row_offset, first),
        batch_fits(args, (row_offset + first) as u64, second),
{
    if args.small_string_columns > 0 {
        lemma_parts_of_strings_fit(row_offset, first, second, SMALL_AVG_LEN);
    }
    if args.large_string_columns > 0 {
        lemma_parts_of_strings_fit(row_offset, first, second, LARGE_AVG_LEN);
    }
}

/// Content depends on the global row index alone, not on how rows are batched: the
/// batch of two runs of rows holds, column by column, the values of the first run's
/// batch followed by those of the second's, under the same schema.
pub proof fn law_batches_are_seamless(
    schema: Schema,
    args: Args,
    row_offset: u64,
    first: nat,
    second: nat,
    a: Batch,
    b: Batch,
    whole: Batch,
)
    requires
        row_offset + first <= u64::MAX,
        batch_holds(a, schema, args, row_offset, first),
        batch_holds(b, schema, args, (row_offset + first) as u64, second),
        batch_holds(whole, schema, args, row_offset, first + second),
    ensures
        batch_schema(whole) == batch_schema(a),
        batch_schema(whole) == batch_schema(b),
        batch_columns(whole).len() == batch_columns(a).len() == batch_columns(b).len(),
        forall|c: int|
            0 <= c < batch_columns(whole).len() ==> Some(#[trigger] batch_columns(whole)[c])
                == batch_columns(a)[c].followed_by(batch_columns(b)[c]),
{
    let next = (row_offset + first) as u64;
    assert forall|c: int| 0 <= c < args.columns() implies Some(
        #[trigger] batch_columns(whole)[c],
    ) == batch_columns(a)[c].followed_by(batch_columns(b)[c]) by {
        assert(ints_of(first + second, row_offset, c) =~= ints_of(first, row_offset, c) + ints_of(
            second,
            next,
            c,
        ));
        law_string_columns_are_seamless(row_offset, first, second, c as u64, SMALL_AVG_LEN as nat);
        law_string_columns_are_seamless(row_offset, first, second, c as u64, LARGE_AVG_LEN as nat);
    }
}

/// Whether the field is the one of number `i` among those named by `prefix`: its name
/// is the prefix and the number in decimal, and it is of this type, without nulls and
/// without metadata.
pub open spec fn is_field(field: FieldDef, prefix: Seq<char>, i: nat, kind: ColumnType) -> bool {
    &&& exists|digits: Seq<char>| #[trigger]
        is_decimal(digits, i) && field.name == prefix + digits
    &&& field.column_type == Some(kind)
    &&& !field.nullable
    &&& field.metadata == Map::<Seq<char>, Seq<char>>::empty()
}

/// The columns of each kind are numbered from zero without gaps, in order, whatever
/// columns there are of the other kinds: first the integer columns, then the small
/// string columns, then the large ones, and no more.
pub proof fn law_columns_are_numbered(args: Args, i: nat)
    ensures
        fields_of(args).len() == args.int_columns + args.small_string_columns
            + args.large_string_columns,
        i < args.int_columns ==> is_field(
            fields_of(args)[i as int],
            "int_"@,
            i,
            ColumnType::Int64,
        ),
        i < args.small_string_columns ==> is_field(
            fields_of(args)[args.int_columns + i],
            "small_str_"@,
            i,
            ColumnType::Utf8View,
        ),
        i < args.large_string_columns ==> is_field(
            fields_of(args)[args.int_columns + args.small_string_columns + i],
            "large_str_"@,
            i,
            ColumnType::Utf8View,
        ),
{
    law_decimal_text_writes_the_number(i);
}

/// The next 64-bit integer, with the least behind the greatest.
pub open spec fn next_int(v: i64) -> int {
    if v == i64::MAX {
        i64::MIN as int
    } else {
        v + 1
    }
}

/// Integer columns count rows: the value of a row is one more than that of the row
/// before it, also where the two rows are in different batches, as long as nothing
/// leaves the 64 bits.
pub proof fn law_integer_columns_count_rows(
    schema: Schema,
    args: Args,
    offset: u64,
    rows: nat,
    batch: Batch,
    r: int,
    next_offset: u64,
    next_rows: nat,
    next: Batch,
    q: int,
    c: int,
)
    requires
        batch_holds(batch, schema, args, offset, rows),
        batch_holds(next, schema, args, next_offset, next_rows),
        0 <= c < args.int_columns,
        0 <= r < rows,
        0 <= q < next_rows,
        next_offset + q == offset + r + 1,
        next_offset + q + c <= u64::MAX,
    ensures
        batch_columns(batch)[c] matches ColumnData::Int64(a) && batch_columns(
            next,
        )[c] matches ColumnData::Int64(b) && a.len() == rows && b.len() == next_rows && b[q]
            == next_int(a[r]),
{
}

/// In every row each integer column holds one more than the column before it, and the
/// first column starts with zero.
pub proof fn law_integer_columns_are_shifted(
    schema: Schema,
    args: Args,
    offset: u64,
    rows: nat,
    batch: Batch,
    r: int,
    c: int,
)
    requires
        batch_holds(batch, schema, args, offset, rows),
        0 <= c < args.int_columns,
        0 <= r < rows,
        offset + r + c <= u64::MAX,
    ensures
        batch_columns(batch)[c] matches ColumnData::Int64(a) && (c == 0 && offset + r == 0
            ==> a[r] == 0),
        c > 0 ==> (batch_columns(batch)[c - 1] matches ColumnData::Int64(before)
            && batch_columns(batch)[c] matches ColumnData::Int64(a) && a[r] == next_int(
            before[r],
        )),
{
}

/// Every column of a batch is of its kind, in the order of the fields, and has a value
/// for every row; small strings are 20 characters long and large ones 16 times 1024.
pub proof fn law_columns_are_of_their_kind(
    schema: Schema,
    args: Args,
    offset: u64,
    rows: nat,
    batch: Batch,
    c: int,
    r: int,
)
    requires
        batch_holds(batch, schema, args, offset, rows),
        0 <= c < args.int_columns + args.small_string_columns + args.large_string_columns,
    ensures
        batch_schema(batch) == schema,
        batch_columns(batch).len() == args.int_columns + args.small_string_columns
            + args.large_string_columns,
        batch_columns(batch)[c].len() == rows,
        batch_columns(batch)[c] is Int64 <==> c < args.int_columns,
        0 <= r < rows && c >= args.int_columns ==> (
        batch_columns(batch)[c] matches ColumnData::Utf8View(values) && values[r].len() == (if c
            < args.int_columns + args.small_string_columns {
            20int
        } else {
            16384int
        })),
{
}

/// The counters of a string column start with its salt and go up by 101 from row to
/// row, wrapping around at 64 bits, also where the two rows are in different columns of
/// values; and every value is the one of its counter.
pub proof fn law_string_columns_count_rows(
    offset: u64,
    rows: nat,
    r: int,
    next_offset: u64,
    next_rows: nat,
    q: int,
    salt: u64,
    len: nat,
)
    requires
        len >= 20,
        0 <= r < rows,
        0 <= q < next_rows,
        next_offset + q == offset + r + 1,
    ensures
        counter_in(strings_of(next_rows, next_offset, salt, len)[q]) == (counter_in(
            strings_of(rows, offset, salt, len)[r],
        ) + 101) % 0x1_0000_0000_0000_0000,
        offset + r == 0 ==> counter_in(strings_of(rows, offset, salt, len)[r]) == salt,
        strings_of(rows, offset, salt, len).len() == rows,
        strings_of(rows, offset, salt, len)[r] == value_text(
            counter_in(strings_of(rows, offset, salt, len)[r]) as u64,
            len,
        ),
        strings_of(next_rows, next_offset, salt, len)[q] == value_text(
            counter_in(strings_of(next_rows, next_offset, salt, len)[q]) as u64,
            len,
        ),
{
    law_counter_is_recovered(counter(offset + r, salt), len);
    law_counter_is_recovered(counter(next_offset + q, salt), len);
}

/// Shorter values of a string column are the beginnings of longer ones.
pub proof fn law_string_columns_are_cut(
    offset: u64,
    rows: nat,
    r: int,
    salt: u64,
    len: nat,
    longer: nat,
)
    requires
        0 <= r < rows,
        len <= longer,
    ensures
        strings_of(rows, offset, salt, len)[r] == strings_of(rows, offset, salt, longer)[r].take(
            len as int,
        ),
{
    law_shorter_values_are_prefixes(counter(offset + r, salt), len, longer);
}

/// In a batch the counters of a string column start with the column's index and go up
/// by 101 from row to row, wrapping around at 64 bits, also from batch to batch; and
/// every value is the one of its counter.
pub proof fn law_batches_count_rows(
    schema: Schema,
    args: Args,
    offset: u64,
    rows: nat,
    batch: Batch,
    r: int,
    next_offset: u64,
    next_rows: nat,
    next: Batch,
    q: int,
    c: int,
)
    requires
        batch_holds(batch, schema, args, offset, rows),
        batch_holds(next, schema, args, next_offset, next_rows),
        args.columns() <= usize::MAX,
        args.int_columns <= c < args.int_columns + args.small_string_columns
            + args.large_string_columns,
        0 <= r < rows,
        0 <= q < next_rows,
        next_offset + q == offset + r + 1,
    ensures
        batch_columns(batch)[c] matches ColumnData::Utf8View(a) && batch_columns(
            next,
        )[c] matches ColumnData::Utf8View(b) && {
            &&& counter_in(b[q]) == (counter_in(a[r]) + 101) % 0x1_0000_0000_0000_0000
            &&& offset + r == 0 ==> counter_in(a[r]) == c
            &&& a[r] == value_text(counter_in(a[r]) as u64, a[r].len())
            &&& b[q] == value_text(counter_in(b[q]) as u64, b[q].len())
        },
{
    let len = if c < args.int_columns + args.small_string_columns {
        SMALL_AVG_LEN as nat
    } else {
        LARGE_AVG_LEN as nat
    };
    law_string_columns_count_rows(offset, rows, r, next_offset, next_rows, q, c as u64, len);
}

} // verus!
