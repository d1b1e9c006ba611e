//! The batches of a write and the memory seen on the way.
use crate::settings::Args;
use vstd::prelude::*;

verus! {

/// Rows per input batch fed to the writer.
pub const BATCH_SIZE: usize = 4096;

/// How far a write has come.
pub struct Progress {
    /// Rows written.
    pub written: usize,
    /// The most memory that the writer was seen to hold.
    pub peak_memory: usize,
}

/// The rows of the batch that follows `written` rows.
pub open spec fn batch_rows(rows: int, written: int) -> int {
    if rows - written < BATCH_SIZE {
        rows - written
    } else {
        BATCH_SIZE as int
    }
}

/// The batch that follows `written` rows, as its first row and its number of rows,
/// or none once all rows are written.
pub open spec fn batch_after(rows: usize, written: usize) -> Option<(u64, usize)> {
    if written < rows {
        Some((written as u64, batch_rows(rows as int, written as int) as usize))
    } else {
        None
    }
}

/// The rows written after `n` batches.
pub open spec fn written_after(rows: usize, n: nat) -> int
    decreases n,
{
    if n == 0 {
        0
    } else {
        let written = written_after(rows, (n - 1) as nat);
        match batch_after(rows, written as usize) {
            Some((_, count)) => written + count,
            None => written,
        }
    }
}

/// The peak once `memory` bytes were seen beside a peak of `peak`.
pub open spec fn peak_after(peak: usize, memory: usize) -> usize {
    if memory > peak {
        memory
    } else {
        peak
    }
}

impl Progress {
    /// Nothing written.
    pub fn new() -> (progress: Self)
        ensures
            progress.written == 0,
            progress.peak_memory == 0,
    {
        Self { written: 0, peak_memory: 0 }
    }

    /// The next batch, as its first row and its number of rows, or none once all
    /// rows are written.
    pub fn next_batch(&self, args: &Args) -> (batch: Option<(u64, usize)>)
        ensures
            batch == batch_after(args.rows, self.written),
    {
        if self.written < args.rows {
            let left: usize = args.rows - self.written;
            let n: usize = if left < BATCH_SIZE {
                left
            } else {
                BATCH_SIZE
            };
            Some((self.written as u64, n))
        } else {
            None
        }
    }

    /// Record a batch of `n` rows, after which the writer holds `memory` bytes.
    pub fn batch_written(&mut self, n: usize, memory: usize)
        requires
            old(self).written + n <= usize::MAX,
        ensures
            final(self).written == old(self).written + n,
            final(self).peak_memory == (if memory > old(self).peak_memory {
                memory
            } else {
                old(self).peak_memory
            }),
            final(self).peak_memory == peak_after(old(self).peak_memory, memory),
    {
        self.written = self.written + n;
        self.observe(memory);
    }

    /// Record that the writer holds `memory` bytes.
    pub fn observe(&mut self, memory: usize)
        ensures
            final(self).written == old(self).written,
            final(self).peak_memory == (if memory > old(self).peak_memory {
                memory
            } else {
                old(self).peak_memory
            }),
            final(self).peak_memory == peak_after(old(self).peak_memory, memory),
    {
        if memory > self.peak_memory {
            self.peak_memory = memory;
        }
    }
}

/// The batches cover all rows, without a gap and without going beyond: after `n` of
/// them the first `n` times [`BATCH_SIZE`] rows are written, or all.
pub proof fn law_batches_cover_the_rows(rows: usize, n: nat)
    ensures
        written_after(rows, n) == (if n * BATCH_SIZE < rows {
            n * BATCH_SIZE
        } else {
            rows as int
        }),
    decreases n,
{
    if n > 0 {
        law_batches_cover_the_rows(rows, (n - 1) as nat);
        assert(n * BATCH_SIZE == (n - 1) * BATCH_SIZE + BATCH_SIZE) by (nonlinear_arith);
    }
}

/// Every batch holds at least one row and at most [`BATCH_SIZE`], and stays within
/// the rows that are left.
pub proof fn law_batch_size(rows: usize, written: usize)
    requires
        written < rows,
    ensures
        batch_after(rows, written) matches Some((first, count)) && {
            &&& first == written
            &&& 1 <= count <= BATCH_SIZE
            &&& written + count <= rows
        },
{
}

/// The next batch starts where the last one ended and is a full one of 4096 rows unless
/// fewer are left, which it then takes all. There is one as long as rows are left.
pub proof fn law_batches_are_full_until_the_last(rows: usize, written: usize)
    ensures
        batch_after(rows, written) is None <==> written >= rows,
        batch_after(rows, written) matches Some((first, count)) ==> {
            &&& first == written
            &&& 1 <= count <= 4096
            &&& written + count <= rows
            &&& count < 4096 ==> written + count == rows
        },
{
}

/// The peak is the largest of all that was seen: no less than either, and one of the
/// two.
pub proof fn law_peak_is_the_largest(peak: usize, memory: usize)
    ensures
        peak_after(peak, memory) >= peak,
        peak_after(peak, memory) >= memory,
        peak_after(peak, memory) == peak || peak_after(peak, memory) == memory,
{
}

} // verus!
