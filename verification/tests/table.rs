//! Settings, the table and its batches.
use arrow::array::{Array, Int64Array, StringViewArray};
use arrow::datatypes::{DataType, Schema};
use spilling_page_store::arrays::Batch;
use spilling_page_store::progress::{Progress, BATCH_SIZE};
use spilling_page_store::settings::{Args, LARGE_AVG_LEN, MIB, SMALL_AVG_LEN};
use spilling_page_store::table::{build_schema, make_batch, make_string_array};
use spilling_page_store::text::{fill_value, push_decimal};
use std::sync::Arc;

fn args(int: usize, small: usize, large: usize, rows: usize) -> Args {
    Args {
        large_string_columns: large,
        small_string_columns: small,
        int_columns: int,
        rows,
        spill: false,
        mem_budget_mb: None,
    }
}

fn ints(batch: &Batch, column: usize) -> Vec<i64> {
    let array = batch.record_batch.column(column);
    let array = array.as_any().downcast_ref::<Int64Array>().unwrap();
    assert_eq!(array.null_count(), 0);
    (0..array.len()).map(|row| array.value(row)).collect()
}

fn strings(batch: &Batch, column: usize) -> Vec<String> {
    let array = batch.record_batch.column(column);
    let array = array.as_any().downcast_ref::<StringViewArray>().unwrap();
    assert_eq!(array.null_count(), 0);
    (0..array.len())
        .map(|row| array.value(row).to_string())
        .collect()
}

fn value(n: u64, len: usize) -> String {
    let mut buf = "left over".to_string();
    fill_value(&mut buf, n, len);
    buf
}

#[test]
fn values_are_padded_and_cut() {
    assert_eq!(value(5, 20), "00000000000000000005");
    assert_eq!(value(5, 30), "00000000000000000005uvwxyzabcd");
    assert_eq!(value(u64::MAX, 20), "18446744073709551615");
    assert_eq!(value(10_000_000_000_000_000_000, 21), "10000000000000000000u");
    assert_eq!(value(123, 19), "0000000000000000012");
    assert_eq!(value(7, 3), "000");
    assert_eq!(value(7, 0), "");
    assert_eq!(value(7, LARGE_AVG_LEN).len(), 16384);
    assert_eq!(value(7, 60), format!("{:020}{}", 7, "uvwxyzabcdefghijklmnopqrstuvwxyzabcdefgh"));
}

#[test]
fn nothing_of_the_buffer_survives() {
    let mut long = "x".repeat(500);
    let mut empty = String::with_capacity(3);
    fill_value(&mut long, 42, 33);
    fill_value(&mut empty, 42, 33);
    assert_eq!(long, empty);
    assert_eq!(long.len(), 33);
}

#[test]
fn values_are_ordered_as_their_counters() {
    let counters = [0, 1, 9, 10, 99, 100, 12_345, u64::MAX - 1, u64::MAX];
    for len in [20, 21, 64] {
        for n in counters {
            for m in counters {
                assert_eq!(value(n, len) < value(m, len), n < m);
                assert_eq!(value(n, len) == value(m, len), n == m);
            }
        }
    }
}

#[test]
fn counter_is_recovered() {
    for n in [0, 7, 10, 1_000_000, u64::MAX] {
        assert_eq!(value(n, 20).parse::<u64>(), Ok(n));
        assert_eq!(value(n, 50)[0..20].parse::<u64>(), Ok(n));
    }
}

#[test]
fn numbers_are_appended_in_decimal() {
    let mut text = "n".to_string();
    push_decimal(&mut text, 0);
    push_decimal(&mut text, 9);
    push_decimal(&mut text, 10);
    push_decimal(&mut text, u64::MAX);
    assert_eq!(text, "n091018446744073709551615");
}

#[test]
fn schema_lists_ints_then_small_then_large() {
    let schema = build_schema(&args(2, 1, 11, 0));
    let fields: Vec<(String, DataType, bool)> = schema
        .fields()
        .iter()
        .map(|field| (field.name().clone(), field.data_type().clone(), field.is_nullable()))
        .collect();
    assert_eq!(fields.len(), 14);
    assert!(schema.metadata().is_empty());
    assert!(schema.fields().iter().all(|field| field.metadata().is_empty()));
    assert_eq!(fields[0], ("int_0".to_string(), DataType::Int64, false));
    assert_eq!(fields[1], ("int_1".to_string(), DataType::Int64, false));
    assert_eq!(fields[2], ("small_str_0".to_string(), DataType::Utf8View, false));
    assert_eq!(fields[3], ("large_str_0".to_string(), DataType::Utf8View, false));
    assert_eq!(fields[13], ("large_str_10".to_string(), DataType::Utf8View, false));
    assert_eq!(build_schema(&args(0, 0, 0, 0)).fields().len(), 0);
}

#[test]
fn field_names_are_distinct() {
    let schema = build_schema(&args(12, 12, 12, 0));
    for (i, field) in schema.fields().iter().enumerate() {
        for other in schema.fields().iter().skip(i + 1) {
            assert_ne!(field.name(), other.name());
        }
    }
}

#[test]
fn batch_holds_the_rows() {
    let args = args(2, 2, 1, 10);
    let schema = build_schema(&args);
    let batch = make_batch(&schema, &args, 5, 3);
    assert_eq!(batch.record_batch.schema(), schema);
    assert_eq!(batch.record_batch.num_rows(), 3);
    assert_eq!(batch.record_batch.num_columns(), 5);
    assert_eq!(ints(&batch, 0), vec![5, 6, 7]);
    assert_eq!(ints(&batch, 1), vec![6, 7, 8]);
    let small = |n: u64| value(n, SMALL_AVG_LEN);
    assert_eq!(strings(&batch, 2), vec![small(507), small(608), small(709)]);
    assert_eq!(strings(&batch, 3), vec![small(508), small(609), small(710)]);
    let large = |n: u64| value(n, LARGE_AVG_LEN);
    assert_eq!(strings(&batch, 4), vec![large(509), large(610), large(711)]);
    assert_eq!(make_batch(&schema, &args, 9, 0).record_batch.num_rows(), 0);
}

#[test]
fn integers_keep_their_bits() {
    let args = args(2, 0, 0, 2);
    let batch = make_batch(&build_schema(&args), &args, u64::MAX - 2, 2);
    assert_eq!(ints(&batch, 0), vec![-3, -2]);
    assert_eq!(ints(&batch, 1), vec![-2, -1]);
    let batch = make_batch(&build_schema(&args), &args, i64::MAX as u64, 1);
    assert_eq!(ints(&batch, 0), vec![i64::MAX]);
    assert_eq!(ints(&batch, 1), vec![i64::MIN]);
}

#[test]
fn counters_wrap_around() {
    let args = args(0, 2, 0, 1);
    let batch = make_batch(&build_schema(&args), &args, u64::MAX, 1);
    assert_eq!(strings(&batch, 0), vec!["18446744073709551515".to_string()]);
    assert_eq!(strings(&batch, 1), vec!["18446744073709551516".to_string()]);
}

#[test]
fn values_of_a_column_are_distinct() {
    let args = args(1, 2, 0, 300);
    let batch = make_batch(&build_schema(&args), &args, 0, 300);
    let (a, b) = (strings(&batch, 1), strings(&batch, 2));
    for r in 0..300 {
        assert_ne!(a[r], b[r]);
        for q in r + 1..300 {
            assert_ne!(a[r], a[q]);
        }
    }
}

/// A column without rows asks nothing of the length of its values.
#[test]
fn empty_column_has_any_length() {
    make_string_array(0, 0, 0, 0);
    make_string_array(0, u64::MAX, u64::MAX, usize::MAX);
}

/// A batch carries the schema that it was made under, metadata and all.
#[test]
fn batch_carries_the_schema() {
    let args = args(1, 0, 0, 2);
    let fields = build_schema(&args).fields().clone();
    let schema = Arc::new(Schema::new_with_metadata(fields, [("origin", "test")]));
    let batch = make_batch(&schema, &args, 0, 2);
    assert_eq!(batch.record_batch.schema(), schema);
    assert_eq!(batch.record_batch.schema().metadata().len(), 1);
    assert_eq!(ints(&batch, 0), vec![0, 1]);
}

/// Beyond 101 columns the value of one row can come again in the next.
#[test]
fn far_columns_share_values() {
    let args = args(0, 102, 0, 2);
    let batch = make_batch(&build_schema(&args), &args, 0, 2);
    assert_eq!(strings(&batch, 101)[0], strings(&batch, 0)[1]);
    assert_ne!(strings(&batch, 100)[0], strings(&batch, 0)[1]);
}

#[test]
fn batches_are_seamless() {
    let args = args(1, 1, 0, 9);
    let schema = build_schema(&args);
    let whole = make_batch(&schema, &args, 2, 7);
    let (first, second) = (make_batch(&schema, &args, 2, 3), make_batch(&schema, &args, 5, 4));
    assert_eq!(ints(&whole, 0), [ints(&first, 0), ints(&second, 0)].concat());
    assert_eq!(strings(&whole, 1), [strings(&first, 1), strings(&second, 1)].concat());
}

#[test]
fn buffering_follows_the_settings() {
    let mut args = args(3, 5, 10, 8192);
    assert!(!args.spilling());
    assert_eq!(args.budget_cap(), 0);
    assert_eq!(args.buffering(), "InMemoryPageStore (default, on the heap)");
    args.spill = true;
    assert!(args.spilling());
    assert_eq!(args.budget_cap(), 0);
    assert_eq!(
        args.buffering(),
        "SpillingPageStore (all pages to one shared temp file)"
    );
    args.spill = false;
    args.mem_budget_mb = Some(0);
    assert!(args.spilling());
    assert_eq!(
        args.buffering(),
        "SpillingPageStore (all pages to one shared temp file)"
    );
    args.mem_budget_mb = Some(256);
    assert!(args.spilling());
    assert_eq!(args.budget_cap(), 256 * MIB);
    assert_eq!(
        args.buffering(),
        "SpillingPageStore (256 MiB shared budget, then spill)"
    );
}

#[test]
fn sizes_follow_the_settings() {
    let args = args(3, 5, 10, 8192);
    assert_eq!(args.column_count(), 18);
    assert_eq!(args.row_group_limit(), 16384);
    assert_eq!(args.large_payload(), 1_342_177_280);
    assert_eq!(MIB, 1_048_576);
}

#[test]
fn batches_cover_the_rows() {
    let args = args(1, 0, 0, 2 * BATCH_SIZE + 904);
    let mut progress = Progress::new();
    let mut batches = Vec::new();
    let memory = [70, 90, 80];
    while let Some((first, n)) = progress.next_batch(&args) {
        progress.batch_written(n, memory[batches.len()]);
        batches.push((first, n));
    }
    assert_eq!(batches, vec![(0, 4096), (4096, 4096), (8192, 904)]);
    assert_eq!(progress.written, 9096);
    assert_eq!(progress.peak_memory, 90);
    progress.observe(89);
    assert_eq!(progress.peak_memory, 90);
    progress.observe(91);
    assert_eq!(progress.peak_memory, 91);
    assert_eq!(progress.written, 9096);
}

#[test]
fn exact_multiple_has_no_empty_batch() {
    let args = args(1, 0, 0, BATCH_SIZE);
    let mut progress = Progress::new();
    assert_eq!(progress.next_batch(&args), Some((0, 4096)));
    progress.batch_written(4096, 1);
    assert_eq!(progress.next_batch(&args), None);
}
