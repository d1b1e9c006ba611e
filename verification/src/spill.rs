//! The bookkeeping of the one temp file that every column's store spills to.
//!
//! The file itself is opened, written and read by the caller. This module decides
//! when it has to be created, where each page goes and what was spilled.
use crate::blob::blob;
use bytes::Bytes;
use vstd::arithmetic::div_mod::{lemma_add_mod_noop, lemma_mod_add_multiples_vanish, lemma_small_mod};
use vstd::prelude::*;

verus! {

/// Running totals of what was spilled.
#[derive(Debug)]
pub struct SpillStats {
    /// Pages spilled.
    pub pages: usize,
    /// Bytes spilled.
    pub bytes: u64,
}

impl Default for SpillStats {
    /// Totals of nothing.
    fn default() -> (stats: Self)
        ensures
            stats.pages == 0,
            stats.bytes == 0,
    {
        Self { pages: 0, bytes: 0 }
    }
}

impl SpillStats {
    /// The totals after one more page of `n` bytes. Both counts wrap around.
    pub open spec fn plus_page(self, n: nat) -> SpillStats {
        SpillStats {
            pages: if self.pages < usize::MAX {
                (self.pages + 1) as usize
            } else {
                0
            },
            bytes: if self.bytes + n <= u64::MAX {
                (self.bytes + n) as u64
            } else {
                (self.bytes + n - u64::MAX - 1) as u64
            },
        }
    }
}

/// One temp file shared by every column's store.
///
/// Pages are appended and addressed by their `(offset, len)` in the file, recorded
/// by each store.
pub struct SharedSpill {
    /// Set on the first spill: a write that fits its budget never opens the file.
    has_file: bool,
    /// Next free byte, where the next page is appended.
    end: u64,
    stats: SpillStats,
    /// The pages appended so far.
    appended: Ghost<Seq<Seq<u8>>>,
}

/// The concatenation of `pages`.
pub open spec fn concat(pages: Seq<Seq<u8>>) -> Seq<u8>
    decreases pages.len(),
{
    if pages.len() == 0 {
        Seq::empty()
    } else {
        concat(pages.drop_last()) + pages.last()
    }
}

/// What an append has to do to the file before it can be recorded.
pub struct AppendPlan {
    /// The file does not exist yet and has to be created first.
    pub create_file: bool,
    /// Where the page's bytes go.
    pub offset: u64,
}

/// Proof that a page was appended: where it lies and what it holds. Only
/// [`SharedSpill::appended`] makes one.
pub struct Receipt {
    offset: u64,
    len: usize,
    content: Ghost<Seq<u8>>,
}

impl Receipt {
    /// Where in the file the page starts.
    pub closed spec fn offset(self) -> u64 {
        self.offset
    }

    /// The page's length in bytes.
    pub closed spec fn len(self) -> usize {
        self.len
    }

    /// The page's bytes.
    pub closed spec fn content(self) -> Seq<u8> {
        self.content@
    }

    /// The length is that of the bytes.
    pub open spec fn wf(self) -> bool {
        self.len() == self.content().len()
    }

    /// The offset and the length.
    pub fn location(&self) -> (at: (u64, usize))
        ensures
            at == (self.offset(), self.len()),
    {
        (self.offset, self.len)
    }
}

/// A read from the file: where it starts, and the buffer that it has to fill.
pub struct ReadPlan {
    /// Where in the file the page starts.
    pub offset: u64,
    /// The buffer to fill, as long as the page.
    pub buf: Vec<u8>,
}

impl ReadPlan {
    /// What a read of a page comes to, once its buffer holds `buf`.
    pub open spec fn finish_effect(buf: Seq<u8>, bytes: Bytes) -> bool {
        blob(bytes) == buf
    }

    /// The page that was read.
    pub fn finish(self) -> (bytes: Bytes)
        ensures
            Self::finish_effect(self.buf@, bytes),
            blob(bytes) == self.buf@,
    {
        Bytes::from(self.buf)
    }
}

impl SharedSpill {
    /// Whether the file exists.
    pub closed spec fn has_file(self) -> bool {
        self.has_file
    }

    /// The next free byte of the file.
    pub closed spec fn end(self) -> u64 {
        self.end
    }

    /// The running totals.
    pub closed spec fn stats(self) -> SpillStats {
        self.stats
    }

    /// The pages appended so far, in order.
    pub closed spec fn appended_pages(self) -> Seq<Seq<u8>> {
        self.appended@
    }

    /// What the file holds below its end: the appended pages, one after the other.
    pub open spec fn contents(self) -> Seq<u8> {
        concat(self.appended_pages())
    }

    /// The end is where the appended pages stop, and a spilled page implies that
    /// the file exists.
    pub open spec fn wf(self) -> bool {
        &&& self.end() == self.contents().len()
        &&& self.appended_pages().len() > 0 ==> self.has_file()
    }

    /// Bookkeeping for a file that does not exist yet, counting into `stats`.
    pub fn new(stats: SpillStats) -> (spill: Self)
        ensures
            spill.wf(),
            !spill.has_file(),
            spill.end() == 0,
            spill.stats() == stats,
            spill.appended_pages() == Seq::<Seq<u8>>::empty(),
    {
        Self { has_file: false, end: 0, stats, appended: Ghost(Seq::empty()) }
    }

    /// What is planned for an append.
    pub open spec fn append_effect(self, plan: AppendPlan) -> bool {
        &&& plan.create_file == !self.has_file()
        &&& plan.offset == self.end()
    }

    /// What to do to append a page: create the file if there is none, then write
    /// the page's bytes at the returned offset.
    pub fn append(&self) -> (plan: AppendPlan)
        ensures
            self.append_effect(plan),
            plan.create_file == !self.has_file(),
            plan.offset == self.end(),
    {
        AppendPlan { create_file: !self.has_file, offset: self.end }
    }

    /// The state once the file has been created.
    pub open spec fn created(pre: Self, post: Self) -> bool {
        &&& post.has_file()
        &&& post.end() == pre.end()
        &&& post.stats() == pre.stats()
        &&& post.appended_pages() == pre.appended_pages()
    }

    /// Record that the file has been created.
    pub fn file_created(&mut self)
        requires
            old(self).wf(),
        ensures
            final(self).wf(),
            Self::created(*old(self), *final(self)),
    {
        self.has_file = true;
    }

    /// The state once a page of `content` has been appended, and its receipt.
    pub open spec fn recorded(pre: Self, content: Seq<u8>, receipt: Receipt, post: Self) -> bool {
        &&& post.has_file() == pre.has_file()
        &&& post.end() == pre.end() + content.len()
        &&& post.stats() == pre.stats().plus_page(content.len())
        &&& post.appended_pages() == pre.appended_pages().push(content)
        &&& receipt.offset() == pre.end()
        &&& receipt.len() == content.len()
        &&& receipt.content() == content
    }

    /// Record that `bytes` were written at the offset that [`append`](Self::append)
    /// gave. The end moves behind them, and they are counted.
    ///
    /// A write that failed is not recorded: the next page goes to the same offset.
    pub fn appended(&mut self, bytes: &Bytes) -> (receipt: Receipt)
        requires
            old(self).wf(),
            old(self).has_file(),
            old(self).end() + blob(*bytes).len() <= u64::MAX,
        ensures
            final(self).wf(),
            Self::recorded(*old(self), blob(*bytes), receipt, *final(self)),
    {
        let len: usize = bytes.len();
        let offset: u64 = self.end;
        self.end = self.end + len as u64;
        self.stats = SpillStats {
            pages: self.stats.pages.wrapping_add(1),
            bytes: self.stats.bytes.wrapping_add(len as u64),
        };
        let ghost pages = self.appended@;
        self.appended = Ghost(pages.push(blob(*bytes)));
        proof {
            assert(pages.push(blob(*bytes)).drop_last() =~= pages);
        }
        Receipt { offset, len, content: Ghost(blob(*bytes)) }
    }

    /// What is planned for a read of `len` bytes at `offset`.
    pub open spec fn read_effect(self, offset: u64, len: usize, plan: ReadPlan) -> bool {
        &&& plan.offset == offset
        &&& plan.buf@.len() == len
    }

    /// What to do to read `len` bytes at `offset` back: fill the buffer from there.
    pub fn read(&self, offset: u64, len: usize) -> (plan: ReadPlan)
        requires
            self.has_file(),
            len <= isize::MAX,
        ensures
            self.read_effect(offset, len, plan),
            plan.offset == offset,
            plan.buf@ == Seq::new(len as nat, |i: int| 0u8),
    {
        ReadPlan { offset, buf: vec![0u8; len] }
    }

    /// Whether the file exists.
    pub fn file_exists(&self) -> (exists_: bool)
        ensures
            exists_ == self.has_file(),
    {
        self.has_file
    }

    /// The next free byte of the file.
    pub fn end_offset(&self) -> (end: u64)
        ensures
            end == self.end(),
    {
        self.end
    }

    /// Pages spilled.
    pub fn pages_spilled(&self) -> (pages: usize)
        ensures
            pages == self.stats().pages,
    {
        self.stats.pages
    }

    /// Bytes spilled.
    pub fn bytes_spilled(&self) -> (bytes: u64)
        ensures
            bytes == self.stats().bytes,
    {
        self.stats.bytes
    }
}

/// The bookkeeping once the file has been created, if it was not there before.
pub open spec fn opens(pre: SharedSpill, post: SharedSpill) -> bool {
    if pre.has_file() {
        post == pre
    } else {
        post.wf() && SharedSpill::created(pre, post)
    }
}

/// A series of appends, in the order in which they take effect: the pages, the
/// receipts, and the bookkeeping before each append, once the file is open, and at the
/// end. Reads may stand in between, as they change nothing.
pub open spec fn is_append_series(
    states: Seq<SharedSpill>,
    opened: Seq<SharedSpill>,
    pages: Seq<Seq<u8>>,
    receipts: Seq<Receipt>,
) -> bool {
    &&& states.len() == pages.len() + 1
    &&& opened.len() == pages.len()
    &&& receipts.len() == pages.len()
    &&& forall|i: int| 0 <= i < states.len() ==> (#[trigger] states[i]).wf()
    &&& forall|i: int|
        0 <= i < pages.len() ==> {
            &&& opens(states[i], #[trigger] opened[i])
            &&& SharedSpill::recorded(opened[i], pages[i], receipts[i], states[i + 1])
        }
}

/// The concatenation of two series of pages.
proof fn lemma_concat(a: Seq<Seq<u8>>, b: Seq<Seq<u8>>)
    ensures
        concat(a + b) == concat(a) + concat(b),
    decreases b.len(),
{
    if b.len() == 0 {
        assert(a + b =~= a);
        assert(concat(a) + concat(b) =~= concat(a));
    } else {
        assert((a + b).drop_last() =~= a + b.drop_last());
        lemma_concat(a, b.drop_last());
        assert(concat(a) + concat(b.drop_last()) + b.last() =~= concat(a) + (concat(
            b.drop_last(),
        ) + b.last()));
    }
}

/// What the first `k` appends of a series do.
proof fn lemma_after_appends(
    states: Seq<SharedSpill>,
    opened: Seq<SharedSpill>,
    pages: Seq<Seq<u8>>,
    receipts: Seq<Receipt>,
    k: int,
)
    requires
        is_append_series(states, opened, pages, receipts),
        0 <= k <= pages.len(),
    ensures
        states[k].appended_pages() == states[0].appended_pages() + pages.take(k),
        states[k].contents() == states[0].contents() + concat(pages.take(k)),
        states[k].end() == states[0].end() + concat(pages.take(k)).len(),
        states[k].stats().pages == (states[0].stats().pages + k) % (usize::MAX + 1),
        states[k].stats().bytes == (states[0].stats().bytes + concat(pages.take(k)).len()) % (
        u64::MAX + 1),
    decreases k,
{
    let first = states[0];
    let last = states[k];
    let m = usize::MAX + 1;
    let w = u64::MAX + 1;
    assert(first.wf() && last.wf());
    if k == 0 {
        assert(first.appended_pages() + pages.take(0) =~= first.appended_pages());
        assert(pages.take(0) =~= Seq::empty());
        lemma_small_mod(first.stats().pages as nat, m as nat);
        lemma_small_mod(first.stats().bytes as nat, w as nat);
    } else {
        lemma_after_appends(states, opened, pages, receipts, k - 1);
        let page = pages[k - 1];
        let before = states[k - 1];
        assert(opens(before, opened[k - 1]));
        assert(SharedSpill::recorded(opened[k - 1], page, receipts[k - 1], states[k - 1 + 1]));
        assert(pages.take(k) =~= pages.take(k - 1).push(page));
        assert(pages.take(k).drop_last() =~= pages.take(k - 1));
        assert(last.appended_pages() =~= first.appended_pages() + pages.take(k));
        let n = page.len() as int;
        let p = before.stats().pages as int;
        let b = before.stats().bytes as int;
        lemma_add_mod_noop(first.stats().pages + k - 1, 1, m);
        lemma_add_mod_noop(p, 1, m);
        lemma_small_mod(p as nat, m as nat);
        lemma_small_mod(last.stats().pages as nat, m as nat);
        if p == usize::MAX {
            lemma_mod_add_multiples_vanish(0, m);
        }
        lemma_add_mod_noop(first.stats().bytes + concat(pages.take(k - 1)).len(), n, w);
        lemma_add_mod_noop(b, n, w);
        lemma_small_mod(b as nat, w as nat);
        lemma_small_mod(last.stats().bytes as nat, w as nat);
        if b + n > u64::MAX {
            lemma_mod_add_multiples_vanish(b + n - w, w);
        }
    }
    lemma_concat(first.appended_pages(), pages.take(k));
}

/// Where one page of a series lies.
proof fn lemma_appended_page(
    states: Seq<SharedSpill>,
    opened: Seq<SharedSpill>,
    pages: Seq<Seq<u8>>,
    receipts: Seq<Receipt>,
    i: int,
)
    requires
        is_append_series(states, opened, pages, receipts),
        0 <= i < pages.len(),
    ensures
        receipts[i].offset() == states[i].end(),
        receipts[i].len() == pages[i].len(),
        receipts[i].content() == pages[i],
        states[i].end() + pages[i].len() == states[i + 1].end(),
        states.last().contents().subrange(states[i].end() as int, states[i + 1].end() as int)
            == pages[i],
{
    let k = pages.len() as int;
    let from = states[i].end() as int;
    let to = states[i + 1].end() as int;
    let here = states[i + 1].contents();
    let rest = concat(pages.skip(i + 1));
    assert(opens(states[i], opened[i]));
    assert(states[i].wf() && states[i + 1].wf());
    assert(states[i + 1].appended_pages().drop_last() =~= states[i].appended_pages());
    assert(here.subrange(from, to) =~= pages[i]);
    lemma_after_appends(states, opened, pages, receipts, i + 1);
    lemma_after_appends(states, opened, pages, receipts, k);
    lemma_concat(pages.take(i + 1), pages.skip(i + 1));
    assert(pages.take(i + 1) + pages.skip(i + 1) =~= pages.take(k));
    assert(states.last().contents() =~= here + rest);
    assert((here + rest).subrange(from, to) =~= here.subrange(from, to));
}

/// The end of the file never moves back.
proof fn lemma_end_grows(
    states: Seq<SharedSpill>,
    opened: Seq<SharedSpill>,
    pages: Seq<Seq<u8>>,
    receipts: Seq<Receipt>,
    i: int,
    j: int,
)
    requires
        is_append_series(states, opened, pages, receipts),
        0 <= i <= j <= pages.len(),
    ensures
        states[i].end() <= states[j].end(),
    decreases j - i,
{
    if i < j {
        lemma_end_grows(states, opened, pages, receipts, i, j - 1);
        lemma_appended_page(states, opened, pages, receipts, j - 1);
    }
}

/// Pages that are appended, in whatever order their columns come, lie side by side: the
/// first one starts at the old end, each next one where the one before it ends, and
/// the last one ends at the new end, so that they are disjoint and leave no gap. Each
/// lies in the contents as it was appended, and the totals grow by exactly them,
/// wrapping around.
pub proof fn law_appends_lie_side_by_side(
    states: Seq<SharedSpill>,
    opened: Seq<SharedSpill>,
    pages: Seq<Seq<u8>>,
    receipts: Seq<Receipt>,
)
    requires
        is_append_series(states, opened, pages, receipts),
    ensures
        states.last().end() == states[0].end() + concat(pages).len(),
        states.last().contents() == states[0].contents() + concat(pages),
        states.last().stats().pages == (states[0].stats().pages + pages.len()) % (usize::MAX + 1),
        states.last().stats().bytes == (states[0].stats().bytes + concat(pages).len()) % (u64::MAX
            + 1),
        pages.len() > 0 ==> receipts[0].offset() == states[0].end(),
        forall|i: int|
            0 <= i < pages.len() ==> {
                let at = receipts[i].offset();
                &&& receipts[i].len() == (#[trigger] pages[i]).len()
                &&& receipts[i].content() == pages[i]
                &&& at + pages[i].len() == (if i + 1 < pages.len() {
                    receipts[i + 1].offset()
                } else {
                    states.last().end()
                })
                &&& states.last().contents().subrange(at as int, at + pages[i].len()) == pages[i]
            },
        forall|i: int, j: int|
            #![trigger receipts[i], receipts[j]]
            0 <= i < j < pages.len() ==> receipts[i].offset() + receipts[i].len()
                <= receipts[j].offset(),
{
    let k = pages.len() as int;
    assert(pages.take(k) =~= pages);
    lemma_after_appends(states, opened, pages, receipts, k);
    if k > 0 {
        lemma_appended_page(states, opened, pages, receipts, 0);
    }
    assert forall|i: int| 0 <= i < k implies {
        let at = receipts[i].offset();
        &&& receipts[i].len() == (#[trigger] pages[i]).len()
        &&& receipts[i].content() == pages[i]
        &&& at + pages[i].len() == (if i + 1 < k {
            receipts[i + 1].offset()
        } else {
            states.last().end()
        })
        &&& states.last().contents().subrange(at as int, at + pages[i].len()) == pages[i]
    } by {
        lemma_appended_page(states, opened, pages, receipts, i);
        if i + 1 < k {
            lemma_appended_page(states, opened, pages, receipts, i + 1);
        }
    }
    assert forall|i: int, j: int|
        #![trigger receipts[i], receipts[j]]
        0 <= i < j < k implies receipts[i].offset() + receipts[i].len() <= receipts[j].offset() by {
        lemma_appended_page(states, opened, pages, receipts, i);
        lemma_appended_page(states, opened, pages, receipts, j);
        lemma_end_grows(states, opened, pages, receipts, i + 1, j);
    }
}

} // verus!
