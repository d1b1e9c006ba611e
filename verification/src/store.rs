//! A column's page store: pages on the heap while the budget has room, and in the
//! shared file otherwise.
use crate::blob::{blob, key_number};
use crate::budget::Budget;
use crate::spill::Receipt;
use crate::text::{
    decimal_text, is_decimal, law_decimal_text_writes_the_number, lemma_encoded_len, push_decimal,
};
use bytes::Bytes;
use parquet::arrow::arrow_writer::PageKey;
use vstd::prelude::*;

verus! {

/// A completed page, held either on the heap (counted against the budget) or
/// spilled to the shared file at `(offset, len)`.
pub enum Page {
    /// On the heap.
    Mem(Bytes),
    /// In the shared file.
    Disk {
        /// Where in the file the page starts.
        offset: u64,
        /// The page's length in bytes.
        len: usize,
    },
    /// Already handed out by `take`; kept so that the keys stay stable.
    Taken,
}

impl Page {
    /// The bytes that the page occupies on the heap.
    pub open spec fn resident(self) -> nat {
        match self {
            Page::Mem(bytes) => blob(bytes).len(),
            _ => 0,
        }
    }
}

/// The bytes that `pages` occupy on the heap together.
pub open spec fn resident_bytes(pages: Seq<Page>) -> nat
    decreases pages.len(),
{
    if pages.len() == 0 {
        0
    } else {
        resident_bytes(pages.drop_last()) + pages.last().resident()
    }
}

/// How a `put` goes on.
pub enum PutStep {
    /// The page stays on the heap, under this key. The put is complete.
    Kept(PageKey),
    /// The budget has no room. The page has to be appended to the shared file, and
    /// the put completed with [`SpillingPageStore::put_spilled`].
    Spill(Bytes),
}

/// How a `take` goes on.
pub enum TakeStep {
    /// The page was on the heap.
    Kept(Bytes),
    /// The page has to be read from the shared file.
    Read {
        /// Where in the file the page starts.
        offset: u64,
        /// The page's length in bytes.
        len: usize,
    },
}

/// Why a page could not be taken.
pub enum PageError {
    /// The page under this key was handed out before.
    AlreadyTaken(u64),
}

impl PageError {
    /// The text of the error.
    pub open spec fn text(self) -> Seq<char> {
        match self {
            PageError::AlreadyTaken(key) => "page "@ + decimal_text(key as nat) + " already taken"@,
        }
    }

    /// The text of the error.
    pub fn message(&self) -> (message: String)
        ensures
            message@ == self.text(),
    {
        match self {
            PageError::AlreadyTaken(key) => {
                let mut message = String::from_str("page ");
                proof {
                    reveal_strlit("page ");
                    lemma_encoded_len("page "@);
                }
                push_decimal(&mut message, *key);
                message.append(" already taken");
                message
            },
        }
    }
}

/// A store that keeps pages on the heap while the shared budget has room and
/// spills the overflow to the shared file.
///
/// Keys are handed out densely, in the order of the puts.
pub struct SpillingPageStore {
    pages: Vec<Page>,
    /// Bytes this store currently holds in memory.
    resident: usize,
    /// What was put under each key.
    history: Ghost<Seq<Seq<u8>>>,
}

impl SpillingPageStore {
    /// The pages, by key.
    pub closed spec fn pages(self) -> Seq<Page> {
        self.pages@
    }

    /// The bytes held in memory, as the store counts them.
    pub closed spec fn memory(self) -> usize {
        self.resident
    }

    /// What was put under each key.
    pub closed spec fn history(self) -> Seq<Seq<u8>> {
        self.history@
    }

    /// The memory count is that of the pages, and each page that was not taken is
    /// the one that was put under its key.
    pub open spec fn wf(self) -> bool {
        &&& self.memory() == resident_bytes(self.pages())
        &&& self.history().len() == self.pages().len()
        &&& forall|k: int|
            0 <= k < self.pages().len() ==> match #[trigger] self.pages()[k] {
                Page::Mem(bytes) => blob(bytes) == self.history()[k],
                Page::Disk { offset, len } => len == self.history()[k].len(),
                Page::Taken => true,
            }
    }

    /// An empty store.
    pub fn new() -> (store: Self)
        ensures
            store.wf(),
            store.pages() == Seq::<Page>::empty(),
            store.history() == Seq::<Seq<u8>>::empty(),
            store.memory() == 0,
    {
        Self { pages: Vec::new(), resident: 0, history: Ghost(Seq::empty()) }
    }

    /// The effect of a put of `value`: it is kept if the budget has room for it,
    /// and otherwise handed back to be spilled, with nothing changed.
    pub open spec fn put_effect(
        pre: Self,
        pre_budget: Budget,
        value: Bytes,
        step: PutStep,
        post: Self,
        post_budget: Budget,
    ) -> bool {
        if pre_budget.used() + blob(value).len() <= pre_budget.cap() {
            &&& step matches PutStep::Kept(key)
            &&& key_number(key) == pre.pages().len()
            &&& post.pages() == pre.pages().push(Page::Mem(value))
            &&& post.history() == pre.history().push(blob(value))
            &&& post.memory() == pre.memory() + blob(value).len()
            &&& post_budget.cap() == pre_budget.cap()
            &&& post_budget.used() == pre_budget.used() + blob(value).len()
        } else {
            &&& step == PutStep::Spill(value)
            &&& post == pre
            &&& post_budget == pre_budget
        }
    }

    /// Store `value`. The budget is the one that counts this store's pages.
    pub fn put(&mut self, budget: &mut Budget, value: Bytes) -> (step: PutStep)
        requires
            old(self).wf(),
            old(self).memory() <= old(budget).used(),
        ensures
            final(self).wf(),
            Self::put_effect(*old(self), *old(budget), value, step, *final(self), *final(budget)),
            step is Kept <==> old(budget).used() + blob(value).len() <= old(budget).cap(),
    {
        let key = PageKey::new(self.pages.len() as u64);
        let len: usize = value.len();
        if !budget.reserve(len) {
            return PutStep::Spill(value);
        }
        self.resident = self.resident + len;
        self.history = Ghost(self.history@.push(blob(value)));
        self.pages.push(Page::Mem(value));
        proof {
            assert(self.pages@.drop_last() =~= old(self).pages@);
        }
        PutStep::Kept(key)
    }

    /// The effect of completing a put whose page was appended to the shared file.
    pub open spec fn put_spilled_effect(
        pre: Self,
        receipt: Receipt,
        key: PageKey,
        post: Self,
    ) -> bool {
        &&& key_number(key) == pre.pages().len()
        &&& post.pages() == pre.pages().push(
            Page::Disk { offset: receipt.offset(), len: receipt.len() },
        )
        &&& post.history() == pre.history().push(receipt.content())
        &&& post.memory() == pre.memory()
    }

    /// Complete a put whose page was appended to the shared file.
    pub fn put_spilled(&mut self, receipt: Receipt) -> (key: PageKey)
        requires
            old(self).wf(),
            receipt.wf(),
        ensures
            final(self).wf(),
            Self::put_spilled_effect(*old(self), receipt, key, *final(self)),
    {
        let key = PageKey::new(self.pages.len() as u64);
        let (offset, len): (u64, usize) = receipt.location();
        self.history = Ghost(self.history@.push(receipt.content()));
        self.pages.push(Page::Disk { offset, len });
        proof {
            assert(self.pages@.drop_last() =~= old(self).pages@);
        }
        key
    }

    /// The effect of taking the page under `key`: it is handed out, its slot stays
    /// behind, and its heap bytes go back to the budget.
    pub open spec fn take_effect(
        pre: Self,
        pre_budget: Budget,
        key: PageKey,
        result: Result<TakeStep, PageError>,
        post: Self,
        post_budget: Budget,
    ) -> bool {
        let k = key_number(key) as int;
        &&& post.pages() == pre.pages().update(k, Page::Taken)
        &&& post.history() == pre.history()
        &&& post.memory() == pre.memory() - pre.pages()[k].resident()
        &&& Budget::release_effect(pre_budget, pre.pages()[k].resident(), post_budget)
        &&& match pre.pages()[k] {
            Page::Mem(bytes) => result == Ok::<TakeStep, PageError>(TakeStep::Kept(bytes)),
            Page::Disk { offset, len } => result == Ok::<TakeStep, PageError>(
                TakeStep::Read { offset, len },
            ),
            Page::Taken => result == Err::<TakeStep, PageError>(
                PageError::AlreadyTaken(key_number(key)),
            ),
        }
    }

    /// Take back the page stored under `key`. A key is taken at most once, so the
    /// page moves out, freeing its heap and budget at once if it was resident.
    pub fn take(&mut self, budget: &mut Budget, key: PageKey) -> (result: Result<
        TakeStep,
        PageError,
    >)
        requires
            old(self).wf(),
            key_number(key) < old(self).pages().len(),
        ensures
            final(self).wf(),
            Self::take_effect(*old(self), *old(budget), key, result, *final(self), *final(budget)),
    {
        assert(key_number(key) < self.pages.len());
        let index: usize = key.get() as usize;
        let mut page = Page::Taken;
        std::mem::swap(&mut self.pages[index], &mut page);
        proof {
            lemma_resident_bytes_update(old(self).pages@, index as int, Page::Taken);
        }
        match page {
            Page::Mem(bytes) => {
                let len: usize = bytes.len();
                self.resident = self.resident - len;
                budget.release(len);
                Ok(TakeStep::Kept(bytes))
            },
            Page::Disk { offset, len } => Ok(TakeStep::Read { offset, len }),
            Page::Taken => Err(PageError::AlreadyTaken(key.get())),
        }
    }

    /// The number of bytes held in memory.
    pub fn memory_size(&self) -> (n: usize)
        ensures
            n == self.memory(),
    {
        self.resident
    }

    /// The number of pages put so far.
    pub fn page_count(&self) -> (n: usize)
        ensures
            n == self.pages().len(),
    {
        self.pages.len()
    }

    /// The effect of giving the store up: what it holds in memory is released.
    pub open spec fn drop_effect(pre: Self, pre_budget: Budget, post_budget: Budget) -> bool {
        Budget::release_effect(pre_budget, pre.memory() as nat, post_budget)
    }

    /// Give up the store. Any still resident pages, as on an aborted write, go back
    /// to the budget.
    pub fn drop(self, budget: &mut Budget)
        ensures
            Self::drop_effect(self, *old(budget), *final(budget)),
    {
        if self.resident > 0 {
            budget.release(self.resident);
        }
    }
}

/// Replacing a page changes the resident bytes by the difference of the two.
proof fn lemma_resident_bytes_update(pages: Seq<Page>, k: int, page: Page)
    requires
        0 <= k < pages.len(),
    ensures
        resident_bytes(pages.update(k, page)) == resident_bytes(pages) - pages[k].resident()
            + page.resident(),
        pages[k].resident() <= resident_bytes(pages),
    decreases pages.len(),
{
    let last = pages.len() - 1;
    if k == last {
        assert(pages.update(k, page).drop_last() =~= pages.drop_last());
    } else {
        assert(pages.update(k, page).drop_last() =~= pages.drop_last().update(k, page));
        lemma_resident_bytes_update(pages.drop_last(), k, page);
    }
}

/// Once no page is resident, nothing is counted.
pub proof fn lemma_no_resident_page(pages: Seq<Page>)
    requires
        forall|k: int| 0 <= k < pages.len() ==> !(#[trigger] pages[k] is Mem),
    ensures
        resident_bytes(pages) == 0,
    decreases pages.len(),
{
    if pages.len() > 0 {
        lemma_no_resident_page(pages.drop_last());
    }
}

/// A page is kept whenever the budget has room for it, whatever pages the store holds,
/// has spilled or has handed out, and refused only for want of room. A page that is
/// refused is handed back itself, and leaves no trace.
pub proof fn law_page_is_kept_where_there_is_room(
    pre: SpillingPageStore,
    pre_budget: Budget,
    value: Bytes,
    step: PutStep,
    post: SpillingPageStore,
    post_budget: Budget,
)
    requires
        SpillingPageStore::put_effect(pre, pre_budget, value, step, post, post_budget),
    ensures
        step is Kept <==> pre_budget.used() + blob(value).len() <= pre_budget.cap(),
        step matches PutStep::Spill(refused) ==> {
            &&& refused == value
            &&& post == pre
            &&& post_budget == pre_budget
        },
{
}

/// A page that is kept counts with its length, in the store and in the budget, and
/// comes behind the pages that are there, which stay as they are.
pub proof fn law_kept_page_counts_with_its_length(
    pre: SpillingPageStore,
    pre_budget: Budget,
    value: Bytes,
    key: PageKey,
    post: SpillingPageStore,
    post_budget: Budget,
    k: int,
)
    requires
        SpillingPageStore::put_effect(
            pre,
            pre_budget,
            value,
            PutStep::Kept(key),
            post,
            post_budget,
        ),
        0 <= k < post.pages().len(),
    ensures
        post.memory() - pre.memory() == blob(value).len(),
        post_budget.used() - pre_budget.used() == blob(value).len(),
        post_budget.cap() == pre_budget.cap(),
        post.pages().len() == pre.pages().len() + 1,
        post.pages()[k] == (if k == key_number(key) {
            Page::Mem(value)
        } else {
            pre.pages()[k]
        }),
        key_number(key) == post.pages().len() - 1,
{
}

/// A page that was spilled is found again at the place that its receipt gives, takes
/// no memory, and comes behind the pages that are there, which stay as they are.
pub proof fn law_spilled_page_takes_no_memory(
    pre: SpillingPageStore,
    receipt: Receipt,
    key: PageKey,
    post: SpillingPageStore,
    k: int,
)
    requires
        SpillingPageStore::put_spilled_effect(pre, receipt, key, post),
        0 <= k < post.pages().len(),
    ensures
        post.memory() == pre.memory(),
        post.pages().len() == pre.pages().len() + 1,
        k == key_number(key) ==> (post.pages()[k] matches Page::Disk { offset, len } && offset
            == receipt.offset() && len == receipt.len()),
        k != key_number(key) ==> post.pages()[k] == pre.pages()[k],
        key_number(key) == post.pages().len() - 1,
{
}

/// A take hands out the page under its key and marks it, touches no other page, and
/// gives back the length of a page that was in memory, in the store and in the budget,
/// and nothing otherwise.
pub proof fn law_take_gives_back_what_was_kept(
    pre: SpillingPageStore,
    pre_budget: Budget,
    key: PageKey,
    result: Result<TakeStep, PageError>,
    post: SpillingPageStore,
    post_budget: Budget,
    k: int,
)
    requires
        SpillingPageStore::take_effect(pre, pre_budget, key, result, post, post_budget),
        key_number(key) < pre.pages().len(),
        0 <= k < pre.pages().len(),
    ensures
        post.pages().len() == pre.pages().len(),
        k == key_number(key) ==> post.pages()[k] is Taken,
        k != key_number(key) ==> post.pages()[k] == pre.pages()[k],
        post_budget.cap() == pre_budget.cap(),
        k == key_number(key) ==> match pre.pages()[k] {
            Page::Mem(bytes) => {
                &&& result == Ok::<TakeStep, PageError>(TakeStep::Kept(bytes))
                &&& pre.memory() - post.memory() == blob(bytes).len()
                &&& blob(bytes).len() <= pre_budget.used() ==> pre_budget.used()
                    - post_budget.used() == blob(bytes).len()
                &&& blob(bytes).len() > pre_budget.used() ==> pre_budget.used() + usize::MAX + 1
                    - post_budget.used() == blob(bytes).len()
            },
            Page::Disk { offset, len } => {
                &&& result == Ok::<TakeStep, PageError>(TakeStep::Read { offset, len })
                &&& post.memory() == pre.memory()
                &&& post_budget.used() == pre_budget.used()
            },
            Page::Taken => {
                &&& result == Err::<TakeStep, PageError>(PageError::AlreadyTaken(k as u64))
                &&& post.memory() == pre.memory()
                &&& post_budget.used() == pre_budget.used()
            },
        },
{
}

/// Giving up a store gives back exactly what it holds in memory.
pub proof fn law_drop_gives_back_the_memory(
    pre: SpillingPageStore,
    pre_budget: Budget,
    post_budget: Budget,
)
    requires
        SpillingPageStore::drop_effect(pre, pre_budget, post_budget),
    ensures
        post_budget.cap() == pre_budget.cap(),
        pre.memory() <= pre_budget.used() ==> post_budget.used() + pre.memory()
            == pre_budget.used(),
        pre.memory() > pre_budget.used() ==> post_budget.used() + pre.memory()
            == pre_budget.used() + usize::MAX + 1,
{
}

/// The error names the key, in decimal.
pub proof fn law_error_names_the_key(error: PageError)
    ensures
        error matches PageError::AlreadyTaken(key) ==> exists|digits: Seq<char>|
            {
                &&& #[trigger] is_decimal(digits, key as nat)
                &&& error.text() == "page "@ + digits + " already taken"@
            },
{
    let PageError::AlreadyTaken(key) = error;
    law_decimal_text_writes_the_number(key as nat);
}

} // verus!
