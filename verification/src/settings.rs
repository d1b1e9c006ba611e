//! What to write and how to buffer it.
use crate::text::{
    decimal_text, is_decimal, law_decimal_text_writes_the_number, lemma_encoded_len, push_decimal,
};
use vstd::prelude::*;

verus! {

/// Length, in bytes, of values in a "large" string column (16 KiB per row).
pub const LARGE_AVG_LEN: usize = 16 * 1024;

/// Length, in bytes, of values in a "small" string column.
pub const SMALL_AVG_LEN: usize = 20;

/// Bytes in a MiB.
pub const MIB: usize = 1024 * 1024;

/// The settings of a write.
pub struct Args {
    /// Number of large (about 16 KiB) string columns.
    pub large_string_columns: usize,
    /// Number of small (about 20 byte) string columns.
    pub small_string_columns: usize,
    /// Number of integer columns.
    pub int_columns: usize,
    /// Total number of rows, all written into a single row group.
    pub rows: usize,
    /// Spill completed pages to a temp file instead of buffering them.
    pub spill: bool,
    /// Keep completed pages in memory up to this many MiB across all columns,
    /// spilling only the overflow to a temp file.
    pub mem_budget_mb: Option<usize>,
}

impl Args {
    /// The number of columns of all kinds.
    pub open spec fn columns(self) -> nat {
        (self.int_columns + self.small_string_columns + self.large_string_columns) as nat
    }

    /// The number of columns of all kinds.
    pub fn column_count(&self) -> (n: usize)
        requires
            self.columns() <= usize::MAX,
        ensures
            n == self.columns(),
    {
        self.int_columns + self.small_string_columns + self.large_string_columns
    }

    /// Whether completed pages go to a spilling store.
    pub open spec fn spills(self) -> bool {
        self.spill || self.mem_budget_mb is Some
    }

    /// Whether completed pages go to a spilling store.
    pub fn spilling(&self) -> (spilling: bool)
        ensures
            spilling == self.spills(),
    {
        self.spill || self.mem_budget_mb.is_some()
    }

    /// The bytes of the memory budget. Both spilling modes use one store; plain
    /// spilling keeps nothing resident.
    pub open spec fn budget(self) -> nat {
        match self.mem_budget_mb {
            Some(mb) => mb as nat * MIB as nat,
            None => 0,
        }
    }

    /// The bytes of the memory budget.
    pub fn budget_cap(&self) -> (cap: usize)
        requires
            self.budget() <= usize::MAX,
        ensures
            cap == self.budget(),
            self.mem_budget_mb matches Some(mb) ==> cap / 1048576 == mb && cap % 1048576 == 0,
            self.mem_budget_mb is None ==> cap == 0,
    {
        match self.mem_budget_mb {
            Some(mb) => mb * MIB,
            None => 0,
        }
    }

    /// How completed pages are buffered, in words.
    pub open spec fn buffering_text(self) -> Seq<char> {
        if !self.spills() {
            "InMemoryPageStore (default, on the heap)"@
        } else if self.budget() == 0 {
            "SpillingPageStore (all pages to one shared temp file)"@
        } else {
            "SpillingPageStore ("@ + decimal_text(self.mem_budget_mb->0 as nat)
                + " MiB shared budget, then spill)"@
        }
    }

    /// How completed pages are buffered, in words.
    pub fn buffering(&self) -> (text: String)
        requires
            self.budget() <= usize::MAX,
        ensures
            text@ == self.buffering_text(),
    {
        if !self.spilling() {
            return String::from_str("InMemoryPageStore (default, on the heap)");
        }
        let cap: usize = self.budget_cap();
        if cap == 0 {
            return String::from_str("SpillingPageStore (all pages to one shared temp file)");
        }
        let mut text = String::from_str("SpillingPageStore (");
        proof {
            reveal_strlit("SpillingPageStore (");
            lemma_encoded_len("SpillingPageStore ("@);
        }
        push_decimal(&mut text, (cap / MIB) as u64);
        text.append(" MiB shared budget, then spill)");
        text
    }

    /// The most rows that one row group may hold.
    pub open spec fn row_limit(self) -> nat {
        (self.rows * 2) as nat
    }

    /// The most rows that one row group may hold: twice the rows of the whole
    /// dataset, so that all of it goes into one.
    pub fn row_group_limit(&self) -> (limit: usize)
        requires
            self.rows * 2 <= usize::MAX,
        ensures
            limit == self.row_limit(),
            limit == self.rows * 2,
            self.rows > 0 ==> limit > self.rows,
    {
        self.rows * 2
    }

    /// Total logical payload across the large columns, the part that dominates.
    pub open spec fn payload(self) -> nat {
        self.large_string_columns as nat * LARGE_AVG_LEN as nat * self.rows as nat
    }

    /// Total logical payload across the large columns.
    pub fn large_payload(&self) -> (bytes: usize)
        requires
            self.large_string_columns * LARGE_AVG_LEN <= usize::MAX,
            self.payload() <= usize::MAX,
        ensures
            bytes == self.payload(),
    {
        self.large_string_columns * LARGE_AVG_LEN * self.rows
    }
}

/// The budget is the number of MiB that was asked for, whatever that number, and no
/// byte more; where none was asked for, nothing is kept.
pub proof fn law_budget_is_what_was_asked_for(args: Args)
    ensures
        args.mem_budget_mb matches Some(mb) ==> {
            &&& args.budget() / 1048576 == mb
            &&& args.budget() % 1048576 == 0
        },
        args.mem_budget_mb is None ==> args.budget() == 0,
{
}

/// One more MiB asked for is 1024 times 1024 bytes more, and the other settings play
/// no part.
pub proof fn law_one_more_mib(args: Args, more: Args)
    requires
        args.mem_budget_mb matches Some(mb) && more.mem_budget_mb == Some((mb + 1) as usize) && mb
            < usize::MAX,
    ensures
        more.budget() == args.budget() + 1024 * 1024,
{
}

/// Pages go to a spilling store exactly where spilling or a budget is asked for.
pub proof fn law_spilling_is_asked_for(args: Args)
    ensures
        args.spill ==> args.spills(),
        args.mem_budget_mb is Some ==> args.spills(),
        args.spills() && !args.spill ==> args.mem_budget_mb is Some,
{
}

/// The words for the buffering say what is done: nothing is spilled, or everything, or
/// what does not fit in a budget of as many MiB as were asked for.
pub proof fn law_buffering_names_the_mode(args: Args)
    ensures
        !args.spill && args.mem_budget_mb is None ==> args.buffering_text()
            == "InMemoryPageStore (default, on the heap)"@,
        args.spill && args.mem_budget_mb is None ==> args.buffering_text()
            == "SpillingPageStore (all pages to one shared temp file)"@,
        args.mem_budget_mb == Some(0usize) ==> args.buffering_text()
            == "SpillingPageStore (all pages to one shared temp file)"@,
        args.mem_budget_mb matches Some(mb) ==> mb == 0 || (exists|digits: Seq<char>|
            {
                &&& #[trigger] is_decimal(digits, mb as nat)
                &&& args.buffering_text() == "SpillingPageStore ("@ + digits
                    + " MiB shared budget, then spill)"@
            }),
{
    if let Some(mb) = args.mem_budget_mb {
        law_decimal_text_writes_the_number(mb as nat);
    }
}

/// Every column of every kind is counted once: no columns count zero, and one more
/// column of a kind is one more in all.
pub proof fn law_every_column_counts(args: Args, more: Args)
    ensures
        args.int_columns == 0 && args.small_string_columns == 0 && args.large_string_columns == 0
            ==> args.columns() == 0,
        more.int_columns == args.int_columns + 1 && more.small_string_columns
            == args.small_string_columns && more.large_string_columns == args.large_string_columns
            ==> more.columns() == args.columns() + 1,
        more.int_columns == args.int_columns && more.small_string_columns
            == args.small_string_columns + 1 && more.large_string_columns
            == args.large_string_columns ==> more.columns() == args.columns() + 1,
        more.int_columns == args.int_columns && more.small_string_columns
            == args.small_string_columns && more.large_string_columns == args.large_string_columns
            + 1 ==> more.columns() == args.columns() + 1,
{
}

/// The payload counts 16 KiB for each row of each large column: it is zero without
/// rows or without large columns, one more row adds 16 KiB per large column, and one
/// more large column 16 KiB per row. Nothing else plays a part.
pub proof fn law_payload_counts_large_values(args: Args, more: Args)
    ensures
        args.rows == 0 || args.large_string_columns == 0 ==> args.payload() == 0,
        more.rows == args.rows + 1 && more.large_string_columns == args.large_string_columns
            ==> more.payload() == args.payload() + 16384 * args.large_string_columns,
        more.rows == args.rows && more.large_string_columns == args.large_string_columns + 1
            ==> more.payload() == args.payload() + 16384 * args.rows,
        more.rows == args.rows && more.large_string_columns == args.large_string_columns
            ==> more.payload() == args.payload(),
{
    let c = args.large_string_columns as nat;
    let r = args.rows as nat;
    assert(args.payload() == (c * 16384) * r);
    assert((c * 16384) * (r + 1) == (c * 16384) * r + 16384 * c) by (nonlinear_arith);
    assert(((c + 1) * 16384) * r == (c * 16384) * r + 16384 * r) by (nonlinear_arith);
    assert(c == 0 || r == 0 ==> (c * 16384) * r == 0) by (nonlinear_arith);
}

/// A row group has room for all rows and for as many again, whatever the other
/// settings.
pub proof fn law_row_group_has_room_twice(args: Args)
    ensures
        args.row_limit() - args.rows == args.rows,
        args.rows > 0 ==> args.row_limit() > args.rows,
{
}

} // verus!
