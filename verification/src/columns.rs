//! All columns of a write at once: one budget, one file and a store per column,
//! in whatever order the columns are worked on.
//!
//! [`Columns`] is the state and [`step`] what one event on one column does to it, by
//! the effects that the operations themselves state. An event is what happens while
//! the budget or the file is held, so that columns encoded in parallel interleave
//! event by event. The laws hold of every [`is_run`].
use crate::blob::{blob, key_number};
use crate::budget::Budget;
use crate::spill::{concat, opens, AppendPlan, ReadPlan, Receipt, SharedSpill};
use crate::store::{
    lemma_no_resident_page, Page, PageError, PutStep, SpillingPageStore, TakeStep,
};
use bytes::Bytes;
use parquet::arrow::arrow_writer::PageKey;
use vstd::arithmetic::div_mod::lemma_add_mod_noop;
use vstd::prelude::*;

verus! {

/// The state of all columns.
pub struct Columns {
    /// The shared budget.
    pub budget: Budget,
    /// The bookkeeping of the shared file.
    pub spill: SharedSpill,
    /// The stores, and none where one was given up.
    pub stores: Seq<Option<SpillingPageStore>>,
    /// The pages that the budget refused and that are about to be spilled, by store.
    pub waiting: Map<int, Bytes>,
    /// What the file really holds.
    pub file: Seq<u8>,
}

/// One event on one column.
pub enum Event {
    /// A new store.
    Create { fresh: SpillingPageStore },
    /// A put whose page stays on the heap.
    PutKept { store: int, value: Bytes, key: PageKey },
    /// A put that finds no room in the budget, so that its page waits to be spilled.
    Refuse { store: int, value: Bytes },
    /// A waiting page that is written to the file, which completes its put.
    PutSpilled {
        store: int,
        value: Bytes,
        plan: AppendPlan,
        opened: SharedSpill,
        receipt: Receipt,
        key: PageKey,
    },
    /// A put that fails because the file cannot be created.
    CreateFailed { store: int, value: Bytes, plan: AppendPlan },
    /// A put that fails because the file cannot be written.
    WriteFailed { store: int, value: Bytes, plan: AppendPlan },
    /// A take.
    Take { store: int, key: PageKey, result: Result<TakeStep, PageError> },
    /// A store given up.
    Drop { store: int },
}

impl Columns {
    /// Whether `store` is the index of a store that was not given up.
    pub open spec fn live(self, store: int) -> bool {
        0 <= store < self.stores.len() && self.stores[store] is Some
    }

    /// Whether the store is live and in the middle of nothing.
    pub open spec fn idle(self, store: int) -> bool {
        self.live(store) && !self.waiting.dom().contains(store)
    }

    /// Whether `value` waits to be spilled from the store.
    pub open spec fn waits(self, store: int, value: Bytes) -> bool {
        self.live(store) && self.waiting.dom().contains(store) && self.waiting[store] == value
    }

    /// The store at an index that is live.
    pub open spec fn store(self, store: int) -> SpillingPageStore {
        self.stores[store]->0
    }
}

/// The bytes that all stores hold in memory together.
pub open spec fn total_memory(stores: Seq<Option<SpillingPageStore>>) -> nat
    decreases stores.len(),
{
    if stores.len() == 0 {
        0
    } else {
        total_memory(stores.drop_last()) + match stores.last() {
            Some(store) => store.memory() as nat,
            None => 0,
        }
    }
}

/// Before the first event.
pub open spec fn starts(c: Columns) -> bool {
    &&& c.budget.used() == 0
    &&& c.spill.wf()
    &&& !c.spill.has_file()
    &&& c.spill.stats().pages == 0
    &&& c.spill.stats().bytes == 0
    &&& c.spill.appended_pages() == Seq::<Seq<u8>>::empty()
    &&& c.stores == Seq::<Option<SpillingPageStore>>::empty()
    &&& c.waiting == Map::<int, Bytes>::empty()
    &&& c.file == Seq::<u8>::empty()
}

/// A write of all of `bytes` at `offset` keeps what lies below.
pub open spec fn written(pre: Seq<u8>, offset: int, bytes: Seq<u8>, post: Seq<u8>) -> bool {
    &&& post.len() >= offset + bytes.len()
    &&& post.subrange(0, offset) == pre.subrange(0, offset)
    &&& post.subrange(offset, offset + bytes.len()) == bytes
}

/// A write at `offset` that fails may leave anything behind there, and keeps what
/// lies below.
pub open spec fn damaged(pre: Seq<u8>, offset: int, post: Seq<u8>) -> bool {
    &&& post.len() >= offset
    &&& post.subrange(0, offset) == pre.subrange(0, offset)
}

/// The file that an append by this plan writes to: a new, empty one where the plan is to
/// create it.
pub open spec fn planned_file(file: Seq<u8>, plan: AppendPlan) -> Seq<u8> {
    if plan.create_file {
        Seq::empty()
    } else {
        file
    }
}

/// What one event does.
pub open spec fn step(a: Columns, e: Event, b: Columns) -> bool {
    match e {
        Event::Create { fresh } => {
            &&& fresh.wf()
            &&& fresh.pages() == Seq::<Page>::empty()
            &&& fresh.history() == Seq::<Seq<u8>>::empty()
            &&& fresh.memory() == 0
            &&& b == (Columns { stores: a.stores.push(Some(fresh)), ..a })
        },
        Event::PutKept { store, value, key } => {
            &&& a.idle(store)
            &&& b.live(store)
            &&& b.store(store).wf()
            &&& SpillingPageStore::put_effect(
                a.store(store),
                a.budget,
                value,
                PutStep::Kept(key),
                b.store(store),
                b.budget,
            )
            &&& b == (Columns {
                stores: a.stores.update(store, Some(b.store(store))),
                budget: b.budget,
                ..a
            })
        },
        Event::Refuse { store, value } => {
            &&& a.idle(store)
            &&& SpillingPageStore::put_effect(
                a.store(store),
                a.budget,
                value,
                PutStep::Spill(value),
                a.store(store),
                a.budget,
            )
            &&& b == (Columns { waiting: a.waiting.insert(store, value), ..a })
        },
        Event::PutSpilled { store, value, plan, opened, receipt, key } => {
            &&& a.waits(store, value)
            &&& a.spill.append_effect(plan)
            &&& opens(a.spill, opened)
            &&& written(planned_file(a.file, plan), plan.offset as int, blob(value), b.file)
            &&& b.spill.wf()
            &&& SharedSpill::recorded(opened, blob(value), receipt, b.spill)
            &&& b.live(store)
            &&& b.store(store).wf()
            &&& SpillingPageStore::put_spilled_effect(a.store(store), receipt, key, b.store(store))
            &&& b == (Columns {
                stores: a.stores.update(store, Some(b.store(store))),
                waiting: a.waiting.remove(store),
                spill: b.spill,
                file: b.file,
                ..a
            })
        },
        Event::CreateFailed { store, value, plan } => {
            &&& a.waits(store, value)
            &&& a.spill.append_effect(plan)
            &&& plan.create_file
            &&& b == (Columns { waiting: a.waiting.remove(store), ..a })
        },
        Event::WriteFailed { store, value, plan } => {
            &&& a.waits(store, value)
            &&& a.spill.append_effect(plan)
            &&& opens(a.spill, b.spill)
            &&& damaged(planned_file(a.file, plan), plan.offset as int, b.file)
            &&& b == (Columns {
                waiting: a.waiting.remove(store),
                spill: b.spill,
                file: b.file,
                ..a
            })
        },
        Event::Take { store, key, result } => {
            &&& a.idle(store)
            &&& key_number(key) < a.store(store).pages().len()
            &&& b.live(store)
            &&& b.store(store).wf()
            &&& SpillingPageStore::take_effect(
                a.store(store),
                a.budget,
                key,
                result,
                b.store(store),
                b.budget,
            )
            &&& b == (Columns {
                stores: a.stores.update(store, Some(b.store(store))),
                budget: b.budget,
                ..a
            })
        },
        Event::Drop { store } => {
            &&& a.idle(store)
            &&& SpillingPageStore::drop_effect(a.store(store), a.budget, b.budget)
            &&& b == (Columns { stores: a.stores.update(store, None), budget: b.budget, ..a })
        },
    }
}

/// A run of events from the start.
pub open spec fn is_run(states: Seq<Columns>, events: Seq<Event>) -> bool {
    &&& states.len() == events.len() + 1
    &&& starts(states[0])
    &&& forall|i: int|
        0 <= i < events.len() ==> step(states[i], #[trigger] events[i], states[i + 1])
}

/// Whether the bytes that the file holds below the end are the appended pages.
pub open spec fn file_holds(file: Seq<u8>, spill: SharedSpill) -> bool {
    &&& file.len() >= spill.end()
    &&& file.subrange(0, spill.end() as int) == spill.contents()
}

/// Whether each spilled page of the store lies in the file as it was put.
pub open spec fn backed(store: SpillingPageStore, spill: SharedSpill) -> bool {
    forall|k: int|
        0 <= k < store.pages().len() ==> (#[trigger] store.pages()[k] matches Page::Disk {
            offset,
            len,
        } ==> {
            &&& spill.has_file()
            &&& offset + len <= spill.end()
            &&& spill.contents().subrange(offset as int, offset + len) == store.history()[k]
        })
}

/// Whether two pages, if both are spilled, lie apart in the file.
pub open spec fn apart(p: Page, q: Page) -> bool {
    match (p, q) {
        (Page::Disk { offset: o1, len: l1 }, Page::Disk { offset: o2, len: l2 }) => o1 + l1 <= o2
            || o2 + l2 <= o1,
        _ => true,
    }
}

/// Whether the spilled pages of all stores lie apart in the file.
pub open spec fn separated(c: Columns) -> bool {
    forall|s: int, k: int, t: int, m: int|
        #![trigger c.store(s).pages()[k], c.store(t).pages()[m]]
        c.live(s) && 0 <= k < c.store(s).pages().len() && c.live(t) && 0 <= m < c.store(
            t,
        ).pages().len() && (s != t || k != m) ==> apart(
            c.store(s).pages()[k],
            c.store(t).pages()[m],
        )
}

/// What every event keeps.
pub open spec fn inv(c: Columns) -> bool {
    &&& c.budget.wf()
    &&& total_memory(c.stores) == c.budget.used()
    &&& c.spill.wf()
    &&& file_holds(c.file, c.spill)
    &&& c.spill.stats().pages == c.spill.appended_pages().len() % ((usize::MAX + 1) as nat)
    &&& c.spill.stats().bytes == c.spill.end()
    &&& forall|s: int| #[trigger] c.live(s) ==> c.store(s).wf() && backed(c.store(s), c.spill)
    &&& separated(c)
}

/// Replacing a store changes the total by the difference of the two.
proof fn lemma_total_memory_update(
    stores: Seq<Option<SpillingPageStore>>,
    s: int,
    post: Option<SpillingPageStore>,
)
    requires
        0 <= s < stores.len(),
    ensures
        total_memory(stores.update(s, post)) + (match stores[s] {
            Some(store) => store.memory() as int,
            None => 0,
        }) == total_memory(stores) + (match post {
            Some(store) => store.memory() as int,
            None => 0,
        }),
        stores[s] matches Some(store) ==> store.memory() <= total_memory(stores),
    decreases stores.len(),
{
    if s == stores.len() - 1 {
        assert(stores.update(s, post).drop_last() =~= stores.drop_last());
    } else {
        assert(stores.update(s, post).drop_last() =~= stores.drop_last().update(s, post));
        lemma_total_memory_update(stores.drop_last(), s, post);
    }
}

/// Every operation's demands are met: the store's memory is counted in the budget,
/// and where a page is to be read from the file, the file exists.
pub proof fn law_demands_are_met(c: Columns, s: int)
    requires
        inv(c),
        c.live(s),
    ensures
        c.store(s).wf(),
        c.store(s).memory() <= c.budget.used(),
        forall|k: int|
            0 <= k < c.store(s).pages().len() && (#[trigger] c.store(s).pages()[k]) is Disk
                ==> c.spill.has_file(),
{
    lemma_total_memory_update(c.stores, s, None);
}

/// The start satisfies the invariant.
pub proof fn law_start(c: Columns)
    requires
        starts(c),
    ensures
        inv(c),
{
    assert(c.file.subrange(0, 0) =~= c.spill.contents());
}

/// An append leaves the pages that were there where they are.
proof fn lemma_backed_after_append(
    store: SpillingPageStore,
    pre: SharedSpill,
    opened: SharedSpill,
    content: Seq<u8>,
    receipt: Receipt,
    post: SharedSpill,
)
    requires
        pre.wf(),
        backed(store, pre),
        opens(pre, opened),
        SharedSpill::recorded(opened, content, receipt, post),
        post.wf(),
    ensures
        backed(store, post),
        post.contents() == pre.contents() + content,
        post.has_file(),
{
    assert(post.appended_pages().drop_last() =~= pre.appended_pages());
    assert forall|k: int| 0 <= k < store.pages().len() implies (
    #[trigger] store.pages()[k] matches Page::Disk { offset, len } ==> {
        &&& post.has_file()
        &&& offset + len <= post.end()
        &&& post.contents().subrange(offset as int, offset + len) == store.history()[k]
    }) by {
        if let Page::Disk { offset, len } = store.pages()[k] {
            assert(post.contents().subrange(offset as int, offset + len)
                =~= pre.contents().subrange(offset as int, offset + len));
        }
    }
}

/// Pages that lay apart still do, where no page was spilled.
proof fn lemma_still_separated(a: Columns, b: Columns)
    requires
        separated(a),
        forall|s: int, k: int|
            #![trigger b.store(s).pages()[k]]
            b.live(s) && 0 <= k < b.store(s).pages().len() && b.store(s).pages()[k] is Disk ==> {
                &&& a.live(s)
                &&& k < a.store(s).pages().len()
                &&& a.store(s).pages()[k] == b.store(s).pages()[k]
            },
    ensures
        separated(b),
{
    assert forall|s: int, k: int, t: int, m: int|
        #![trigger b.store(s).pages()[k], b.store(t).pages()[m]]
        b.live(s) && 0 <= k < b.store(s).pages().len() && b.live(t) && 0 <= m < b.store(
            t,
        ).pages().len() && (s != t || k != m) implies apart(
        b.store(s).pages()[k],
        b.store(t).pages()[m],
    ) by {
        if b.store(s).pages()[k] is Disk && b.store(t).pages()[m] is Disk {
            assert(apart(a.store(s).pages()[k], a.store(t).pages()[m]));
        }
    }
}

proof fn lemma_create(a: Columns, e: Event, b: Columns)
    requires
        inv(a),
        step(a, e, b),
        e is Create,
    ensures
        inv(b),
{
    assert(b.stores.drop_last() =~= a.stores);
    assert forall|s: int| #[trigger] b.live(s) implies b.store(s).wf() && backed(
        b.store(s),
        b.spill,
    ) by {
        if s < a.stores.len() {
            assert(a.live(s));
        }
    }
    lemma_still_separated(a, b);
}

proof fn lemma_put_kept(a: Columns, e: Event, b: Columns)
    requires
        inv(a),
        step(a, e, b),
        e is PutKept,
    ensures
        inv(b),
{
    let store = e->PutKept_store;
    lemma_total_memory_update(a.stores, store, Some(b.store(store)));
    assert forall|s: int| #[trigger] b.live(s) implies b.store(s).wf() && backed(
        b.store(s),
        b.spill,
    ) by {
        assert(a.live(s));
        if s == store {
            assert forall|k: int| 0 <= k < b.store(s).pages().len() && b.store(s).pages()[k] is Disk
                implies k < a.store(s).pages().len() && #[trigger] b.store(s).pages()[k]
                == a.store(s).pages()[k] by {}
        }
    }
    lemma_still_separated(a, b);
}

proof fn lemma_put_spilled(a: Columns, e: Event, b: Columns)
    requires
        inv(a),
        step(a, e, b),
        e is PutSpilled,
    ensures
        inv(b),
{
    let store = e->PutSpilled_store;
    let content = blob(e->PutSpilled_value);
    let opened = e->opened;
    let receipt = e->receipt;
    let last = a.store(store).pages().len() as int;
    lemma_total_memory_update(a.stores, store, Some(b.store(store)));
    lemma_backed_after_append(a.store(store), a.spill, opened, content, receipt, b.spill);
    assert(b.file.subrange(0, b.spill.end() as int) =~= b.spill.contents()) by {
        let end = a.spill.end() as int;
        let file = b.file.subrange(0, b.spill.end() as int);
        assert(file.subrange(0, end) =~= b.file.subrange(0, end));
        assert(file.subrange(end, end + content.len()) =~= b.file.subrange(
            end,
            end + content.len(),
        ));
        assert(file =~= file.subrange(0, end) + file.subrange(end, end + content.len()));
    }
    assert(b.spill.stats().pages == b.spill.appended_pages().len() % ((usize::MAX + 1) as nat)) by {
        lemma_add_mod_noop(a.spill.appended_pages().len() as int, 1, usize::MAX + 1);
    }
    assert forall|s: int| #[trigger] b.live(s) implies b.store(s).wf() && backed(
        b.store(s),
        b.spill,
    ) by {
        assert(a.live(s));
        lemma_backed_after_append(a.store(s), a.spill, opened, content, receipt, b.spill);
        if s == store {
            assert(b.spill.contents().subrange(
                a.spill.end() as int,
                a.spill.end() + content.len(),
            ) =~= content);
        }
    }
    assert forall|s: int, k: int, t: int, m: int|
        #![trigger b.store(s).pages()[k], b.store(t).pages()[m]]
        b.live(s) && 0 <= k < b.store(s).pages().len() && b.live(t) && 0 <= m < b.store(
            t,
        ).pages().len() && (s != t || k != m) implies apart(
        b.store(s).pages()[k],
        b.store(t).pages()[m],
    ) by {
        assert(a.live(s) && a.live(t));
        if s == store && k == last {
            assert(a.store(t).pages()[m] == b.store(t).pages()[m]);
            assert(backed(a.store(t), a.spill));
        } else if t == store && m == last {
            assert(a.store(s).pages()[k] == b.store(s).pages()[k]);
            assert(backed(a.store(s), a.spill));
        } else {
            assert(apart(a.store(s).pages()[k], a.store(t).pages()[m]));
        }
    }
}

proof fn lemma_stores_untouched(a: Columns, b: Columns)
    requires
        inv(a),
        b == (Columns { waiting: b.waiting, ..a }),
    ensures
        inv(b),
{
    assert forall|s: int| #[trigger] b.live(s) implies b.store(s).wf() && backed(
        b.store(s),
        b.spill,
    ) by {
        assert(a.live(s));
    }
    lemma_still_separated(a, b);
}

proof fn lemma_write_failed(a: Columns, e: Event, b: Columns)
    requires
        inv(a),
        step(a, e, b),
        e is WriteFailed,
    ensures
        inv(b),
{
    assert(b.file.subrange(0, b.spill.end() as int) =~= b.spill.contents());
    assert forall|s: int| #[trigger] b.live(s) implies b.store(s).wf() && backed(
        b.store(s),
        b.spill,
    ) by {
        assert(a.live(s));
        assert(backed(a.store(s), a.spill));
    }
    lemma_still_separated(a, b);
}

proof fn lemma_take(a: Columns, e: Event, b: Columns)
    requires
        inv(a),
        step(a, e, b),
        e is Take,
    ensures
        inv(b),
{
    let store = e->Take_store;
    lemma_total_memory_update(a.stores, store, Some(b.store(store)));
    assert forall|s: int| #[trigger] b.live(s) implies b.store(s).wf() && backed(
        b.store(s),
        b.spill,
    ) by {
        assert(a.live(s));
        assert(backed(a.store(s), a.spill));
    }
    lemma_still_separated(a, b);
}

proof fn lemma_drop(a: Columns, e: Event, b: Columns)
    requires
        inv(a),
        step(a, e, b),
        e is Drop,
    ensures
        inv(b),
{
    lemma_total_memory_update(a.stores, e->Drop_store, None);
    assert forall|s: int| #[trigger] b.live(s) implies b.store(s).wf() && backed(
        b.store(s),
        b.spill,
    ) by {
        assert(a.live(s));
    }
    lemma_still_separated(a, b);
}

/// Every event keeps the invariant.
pub proof fn law_step_keeps_invariant(a: Columns, e: Event, b: Columns)
    requires
        inv(a),
        step(a, e, b),
    ensures
        inv(b),
{
    match e {
        Event::Create { .. } => lemma_create(a, e, b),
        Event::PutKept { .. } => lemma_put_kept(a, e, b),
        Event::PutSpilled { .. } => lemma_put_spilled(a, e, b),
        Event::Refuse { .. } => lemma_stores_untouched(a, b),
        Event::CreateFailed { .. } => lemma_stores_untouched(a, b),
        Event::WriteFailed { .. } => lemma_write_failed(a, e, b),
        Event::Take { .. } => lemma_take(a, e, b),
        Event::Drop { .. } => lemma_drop(a, e, b),
    }
}

/// The invariant holds throughout every run.
pub proof fn law_run_keeps_invariant(states: Seq<Columns>, events: Seq<Event>, n: int)
    requires
        is_run(states, events),
        0 <= n < states.len(),
    ensures
        inv(states[n]),
    decreases n,
{
    if n == 0 {
        law_start(states[0]);
    } else {
        law_run_keeps_invariant(states, events, n - 1);
        assert(step(states[n - 1], events[n - 1], states[n - 1 + 1]));
        law_step_keeps_invariant(states[n - 1], events[n - 1], states[n]);
    }
}

/// Peak memory keeps to the budget however many columns there are: at every point
/// of a run the bytes in memory are those that are reserved, and no more than the
/// capacity that the run started with.
pub proof fn law_memory_within_budget(states: Seq<Columns>, events: Seq<Event>, n: int)
    requires
        is_run(states, events),
        0 <= n < states.len(),
    ensures
        total_memory(states[n].stores) == states[n].budget.used(),
        total_memory(states[n].stores) <= states[0].budget.cap(),
        states[n].budget.cap() == states[0].budget.cap(),
    decreases n,
{
    law_run_keeps_invariant(states, events, n);
    if n > 0 {
        law_memory_within_budget(states, events, n - 1);
        assert(step(states[n - 1], events[n - 1], states[n - 1 + 1]));
    }
}

/// Once no store has a page in memory, because the pages were taken or the stores
/// given up, the budget is fully released.
pub proof fn law_drained_budget_is_released(states: Seq<Columns>, events: Seq<Event>, n: int)
    requires
        is_run(states, events),
        0 <= n < states.len(),
        forall|s: int, k: int|
            #![trigger states[n].store(s).pages()[k]]
            states[n].live(s) && 0 <= k < states[n].store(s).pages().len()
                ==> !(states[n].store(s).pages()[k] is Mem),
    ensures
        states[n].budget.used() == 0,
{
    law_run_keeps_invariant(states, events, n);
    assert forall|s: int| #[trigger] states[n].live(s) implies states[n].store(s).memory() == 0 by {
        lemma_no_resident_page(states[n].store(s).pages());
    }
    lemma_no_memory(states[n].stores.len() as int, states[n]);
    assert(states[n].stores.take(states[n].stores.len() as int) =~= states[n].stores);
}

proof fn lemma_no_memory(n: int, c: Columns)
    requires
        0 <= n <= c.stores.len(),
        forall|s: int| #[trigger] c.live(s) ==> c.store(s).memory() == 0,
    ensures
        total_memory(c.stores.take(n)) == 0,
    decreases n,
{
    if n > 0 {
        assert(c.stores.take(n).drop_last() =~= c.stores.take(n - 1));
        lemma_no_memory(n - 1, c);
        if c.stores[n - 1] is Some {
            assert(c.live(n - 1));
        }
    }
}

/// Spilled pages of all columns share the file without overlapping.
pub proof fn law_spilled_pages_lie_apart(
    states: Seq<Columns>,
    events: Seq<Event>,
    n: int,
    s: int,
    k: int,
    t: int,
    m: int,
)
    requires
        is_run(states, events),
        0 <= n < states.len(),
        states[n].live(s),
        states[n].live(t),
        0 <= k < states[n].store(s).pages().len(),
        0 <= m < states[n].store(t).pages().len(),
        s != t || k != m,
    ensures
        apart(states[n].store(s).pages()[k], states[n].store(t).pages()[m]),
{
    law_run_keeps_invariant(states, events, n);
}

/// Whether the event takes the page under key `k` of store `s`.
pub open spec fn takes(e: Event, s: int, k: int) -> bool {
    e matches Event::Take { store, key, .. } && store == s && key_number(key) == k
}

/// Whether the event completes a put of `value` into store `s` under key `k`.
pub open spec fn puts(e: Event, s: int, value: Bytes, k: int) -> bool {
    match e {
        Event::PutKept { store, value: v, key } => store == s && v == value && key_number(key) == k,
        Event::PutSpilled { store, value: v, key, .. } => store == s && v == value && key_number(
            key,
        ) == k,
        _ => false,
    }
}

/// The bytes that a take hands out: those in memory, or what the file holds, at the
/// time when it is read, where the take says to read.
pub open spec fn delivered(c: Columns, step: TakeStep) -> Seq<u8> {
    match step {
        TakeStep::Kept(bytes) => blob(bytes),
        TakeStep::Read { offset, len } => c.file.subrange(offset as int, offset + len),
    }
}

/// A page that nobody takes stays what it is, as long as its store is there.
proof fn lemma_page_stays(
    states: Seq<Columns>,
    events: Seq<Event>,
    i: int,
    j: int,
    s: int,
    k: int,
)
    requires
        is_run(states, events),
        0 <= i <= j < states.len(),
        0 <= s < states[i].stores.len(),
        states[j].live(s),
        forall|m: int| i <= m < j ==> !takes(#[trigger] events[m], s, k),
        states[i].live(s) ==> 0 <= k < states[i].store(s).pages().len() && states[i].store(
            s,
        ).wf(),
    ensures
        states[i].live(s),
        states[i].stores.len() <= states[j].stores.len(),
        0 <= k < states[j].store(s).pages().len(),
        states[j].store(s).pages()[k] == states[i].store(s).pages()[k],
        states[j].store(s).history()[k] == states[i].store(s).history()[k],
    decreases j - i,
{
    if i < j {
        let a = states[i];
        let b = states[i + 1];
        assert(step(a, events[i], b));
        assert(!takes(events[i], s, k));
        assert(a.stores.len() <= b.stores.len());
        if !a.live(s) {
            assert(!b.live(s));
            lemma_never_revived(states, events, i + 1, j, s);
        }
        if b.live(s) {
            assert(a.live(s));
        } else {
            lemma_never_revived(states, events, i + 1, j, s);
        }
        law_run_keeps_invariant(states, events, i + 1);
        lemma_page_stays(states, events, i + 1, j, s, k);
    }
}

/// A store that was given up does not come back.
proof fn lemma_never_revived(states: Seq<Columns>, events: Seq<Event>, i: int, j: int, s: int)
    requires
        is_run(states, events),
        0 <= i <= j < states.len(),
        0 <= s < states[i].stores.len(),
        !states[i].live(s),
    ensures
        !states[j].live(s),
    decreases j - i,
{
    if i < j {
        assert(step(states[i], events[i], states[i + 1]));
        lemma_never_revived(states, events, i + 1, j, s);
    }
}

/// Pages stay where they are until they are taken: a page that was kept stays in
/// memory, and a spilled one where it was written, whatever the other columns do.
pub proof fn law_pages_stay(
    states: Seq<Columns>,
    events: Seq<Event>,
    i: int,
    j: int,
    s: int,
    value: Bytes,
    k: int,
)
    requires
        is_run(states, events),
        0 <= i < j < states.len(),
        puts(events[i], s, value, k),
        states[j].live(s),
        forall|m: int| i < m < j ==> !takes(#[trigger] events[m], s, k),
    ensures
        k < states[j].store(s).pages().len(),
        states[j].store(s).pages()[k] == (match events[i] {
            Event::PutSpilled { receipt, .. } => Page::Disk {
                offset: receipt.offset(),
                len: receipt.len(),
            },
            _ => Page::Mem(value),
        }),
{
    assert(step(states[i], events[i], states[i + 1]));
    law_run_keeps_invariant(states, events, i + 1);
    lemma_page_stays(states, events, i + 1, j, s, k);
}

/// A store only gets more keys.
proof fn lemma_keys_grow(states: Seq<Columns>, events: Seq<Event>, i: int, j: int, s: int)
    requires
        is_run(states, events),
        0 <= i <= j < states.len(),
        states[i].live(s),
        states[j].live(s),
    ensures
        states[i].store(s).pages().len() <= states[j].store(s).pages().len(),
    decreases j - i,
{
    if i < j {
        assert(step(states[i], events[i], states[i + 1]));
        if !states[i + 1].live(s) {
            lemma_never_revived(states, events, i + 1, j, s);
        }
        lemma_keys_grow(states, events, i + 1, j, s);
    }
}

/// Keys are stable: a store never hands out a key twice, not even one whose page was
/// taken, and later puts get larger keys.
pub proof fn law_keys_are_never_reused(
    states: Seq<Columns>,
    events: Seq<Event>,
    i: int,
    j: int,
    s: int,
    value: Bytes,
    k: int,
    other: Bytes,
    m: int,
)
    requires
        is_run(states, events),
        0 <= i < j < events.len(),
        puts(events[i], s, value, k),
        puts(events[j], s, other, m),
    ensures
        k < m,
{
    assert(step(states[i], events[i], states[i + 1]));
    assert(step(states[j], events[j], states[j + 1]));
    lemma_keys_grow(states, events, i + 1, j, s);
}

/// Every page round-trips, however the puts and takes of all columns are
/// interleaved and in what order the keys are taken: the first take of a key
/// succeeds and hands out the bytes that were put under it. A spilled page may be
/// read from the file at any time `r` from the take on.
pub proof fn law_round_trip(
    states: Seq<Columns>,
    events: Seq<Event>,
    i: int,
    j: int,
    r: int,
    s: int,
    value: Bytes,
    k: int,
)
    requires
        is_run(states, events),
        0 <= i < j < events.len(),
        j <= r < states.len(),
        puts(events[i], s, value, k),
        takes(events[j], s, k),
        forall|m: int| i < m < j ==> !takes(#[trigger] events[m], s, k),
    ensures
        events[j]->result is Ok,
        delivered(states[r], events[j]->result->Ok_0) == blob(value),
{
    assert(step(states[i], events[i], states[i + 1]));
    assert(step(states[j], events[j], states[j + 1]));
    law_run_keeps_invariant(states, events, i + 1);
    law_run_keeps_invariant(states, events, j);
    lemma_page_stays(states, events, i + 1, j, s, k);
    law_run_keeps_invariant(states, events, r);
    lemma_contents_stay(states, events, j, r);
    let c = states[j];
    let d = states[r];
    assert(backed(c.store(s), c.spill));
    if let Page::Disk { offset, len } = c.store(s).pages()[k] {
        let from = offset as int;
        assert(d.file.subrange(from, from + len) =~= d.file.subrange(
            0,
            d.spill.end() as int,
        ).subrange(from, from + len));
        assert(d.spill.contents().subrange(from, from + len) =~= d.spill.contents().subrange(
            0,
            c.spill.end() as int,
        ).subrange(from, from + len));
    }
}

/// What the file holds below the end stays there.
proof fn lemma_contents_stay(states: Seq<Columns>, events: Seq<Event>, i: int, j: int)
    requires
        is_run(states, events),
        0 <= i <= j < states.len(),
    ensures
        states[i].spill.end() <= states[j].spill.end(),
        states[j].spill.contents().len() == states[j].spill.end(),
        states[j].spill.contents().subrange(0, states[i].spill.end() as int)
            == states[i].spill.contents(),
    decreases j - i,
{
    law_run_keeps_invariant(states, events, i);
    law_run_keeps_invariant(states, events, j);
    if i == j {
        assert(states[j].spill.contents().subrange(0, states[i].spill.end() as int)
            =~= states[i].spill.contents());
    } else {
        lemma_contents_stay(states, events, i, j - 1);
        let a = states[j - 1].spill;
        let b = states[j].spill;
        assert(step(states[j - 1], events[j - 1], states[j - 1 + 1]));
        if let Event::PutSpilled { .. } = events[j - 1] {
            assert(b.appended_pages().drop_last() =~= a.appended_pages());
        }
        assert(b.contents().subrange(0, a.end() as int) =~= a.contents());
        assert(b.contents().subrange(0, states[i].spill.end() as int) =~= b.contents().subrange(
            0,
            a.end() as int,
        ).subrange(0, states[i].spill.end() as int));
    }
}

/// A key is taken at most once: every later take of it is refused.
pub proof fn law_second_take_is_refused(
    states: Seq<Columns>,
    events: Seq<Event>,
    i: int,
    j: int,
    s: int,
    k: int,
)
    requires
        is_run(states, events),
        0 <= i < j < events.len(),
        takes(events[i], s, k),
        takes(events[j], s, k),
    ensures
        events[j]->result == Err::<TakeStep, PageError>(PageError::AlreadyTaken(k as u64)),
    decreases j - i,
{
    if exists|m: int| i < m < j && takes(#[trigger] events[m], s, k) {
        let m = choose|m: int| i < m < j && takes(#[trigger] events[m], s, k);
        law_second_take_is_refused(states, events, m, j, s, k);
    } else {
        assert(step(states[i], events[i], states[i + 1]));
        assert(step(states[j], events[j], states[j + 1]));
        law_run_keeps_invariant(states, events, i + 1);
        lemma_page_stays(states, events, i + 1, j, s, k);
    }
}

/// One file serves the whole run: once it exists, it is there for good and never
/// created again.
pub proof fn law_file_is_created_once(states: Seq<Columns>, events: Seq<Event>, i: int, j: int)
    requires
        is_run(states, events),
        0 <= i <= j < states.len(),
        states[i].spill.has_file(),
    ensures
        states[j].spill.has_file(),
        j < events.len() ==> (events[j] matches Event::PutSpilled { opened, .. } ==> opened
            == states[j].spill),
        j < events.len() && events[j] is WriteFailed ==> states[j + 1].spill == states[j].spill,
        j < events.len() ==> !(events[j] is CreateFailed),
    decreases j - i,
{
    if i < j {
        law_file_is_created_once(states, events, i, j - 1);
        assert(step(states[j - 1], events[j - 1], states[j - 1 + 1]));
    }
    if j < events.len() {
        assert(step(states[j], events[j], states[j + 1]));
    }
}

/// The pages that the first `n` events spilled, of all columns, in order.
pub open spec fn spilled(events: Seq<Event>, n: int) -> Seq<Seq<u8>>
    decreases n,
{
    if n <= 0 {
        Seq::empty()
    } else {
        match events[n - 1] {
            Event::PutSpilled { value, .. } => spilled(events, n - 1).push(blob(value)),
            _ => spilled(events, n - 1),
        }
    }
}

/// The pages of all columns land in the one file, one behind the other in the order
/// in which they were spilled, and the running totals count exactly them.
pub proof fn law_file_holds_what_was_spilled(states: Seq<Columns>, events: Seq<Event>, n: int)
    requires
        is_run(states, events),
        0 <= n < states.len(),
    ensures
        states[n].spill.appended_pages() == spilled(events, n),
        states[n].file.len() >= concat(spilled(events, n)).len(),
        states[n].file.subrange(0, concat(spilled(events, n)).len() as int) == concat(
            spilled(events, n),
        ),
        states[n].spill.stats().pages == spilled(events, n).len() % ((usize::MAX + 1) as nat),
        states[n].spill.stats().bytes == concat(spilled(events, n)).len(),
    decreases n,
{
    law_run_keeps_invariant(states, events, n);
    if n > 0 {
        law_file_holds_what_was_spilled(states, events, n - 1);
        assert(step(states[n - 1], events[n - 1], states[n - 1 + 1]));
    }
}

/// A spilled page lies where the pages spilled before it end, and its bytes can be read
/// there at any later time, whatever the other columns spill.
pub proof fn law_spilled_page_stays_readable(
    states: Seq<Columns>,
    events: Seq<Event>,
    i: int,
    r: int,
)
    requires
        is_run(states, events),
        0 <= i < r < states.len(),
        i < events.len(),
        events[i] is PutSpilled,
    ensures
        events[i]->receipt.offset() == concat(spilled(events, i)).len(),
        events[i]->receipt.len() == blob(events[i]->PutSpilled_value).len(),
        states[r].file.len() >= events[i]->receipt.offset() + events[i]->receipt.len(),
        states[r].file.subrange(
            events[i]->receipt.offset() as int,
            events[i]->receipt.offset() + events[i]->receipt.len(),
        ) == blob(events[i]->PutSpilled_value),
{
    let a = states[i].spill;
    let b = states[i + 1].spill;
    let d = states[r];
    let content = blob(events[i]->PutSpilled_value);
    let from = a.end() as int;
    let to = from + content.len();
    assert(step(states[i], events[i], states[i + 1]));
    law_run_keeps_invariant(states, events, i);
    law_run_keeps_invariant(states, events, r);
    law_file_holds_what_was_spilled(states, events, i);
    lemma_contents_stay(states, events, i + 1, r);
    assert(b.appended_pages().drop_last() =~= a.appended_pages());
    assert(b.contents().subrange(from, to) =~= content);
    assert(d.file.subrange(from, to) =~= d.file.subrange(0, d.spill.end() as int).subrange(
        from,
        to,
    ));
    assert(d.spill.contents().subrange(from, to) =~= d.spill.contents().subrange(
        0,
        b.end() as int,
    ).subrange(from, to));
}

/// The bytes that the first `n` events ask to put, whether or not the put succeeds.
pub open spec fn bytes_put(events: Seq<Event>, n: int) -> nat
    decreases n,
{
    if n <= 0 {
        0
    } else {
        bytes_put(events, n - 1) + match events[n - 1] {
            Event::PutKept { value, .. } => blob(value).len(),
            Event::Refuse { value, .. } => blob(value).len(),
            _ => 0,
        }
    }
}

/// A write that fits the budget never opens the file: if all pages together are no
/// larger than the capacity, none is spilled and none is counted as spilled.
pub proof fn law_write_that_fits_never_opens_the_file(
    states: Seq<Columns>,
    events: Seq<Event>,
    n: int,
)
    requires
        is_run(states, events),
        0 <= n < states.len(),
        bytes_put(events, n) <= states[0].budget.cap(),
    ensures
        !states[n].spill.has_file(),
        states[n].waiting == Map::<int, Bytes>::empty(),
        states[n].spill.stats().pages == 0,
        states[n].spill.stats().bytes == 0,
        states[n].file == Seq::<u8>::empty(),
        states[n].budget.used() <= bytes_put(events, n),
    decreases n,
{
    if n > 0 {
        law_write_that_fits_never_opens_the_file(states, events, n - 1);
        law_run_keeps_invariant(states, events, n - 1);
        law_memory_within_budget(states, events, n - 1);
        assert(step(states[n - 1], events[n - 1], states[n - 1 + 1]));
        match events[n - 1] {
            Event::Take { store, .. } => law_demands_are_met(states[n - 1], store),
            Event::Drop { store } => law_demands_are_met(states[n - 1], store),
            _ => {},
        }
    }
}

/// A write whose puts all find room never opens the file, also where it stays within
/// the budget only because pages are taken in between: without a refused put nothing
/// is spilled, nothing waits and nothing is counted.
pub proof fn law_run_without_refusal_never_opens_the_file(
    states: Seq<Columns>,
    events: Seq<Event>,
    n: int,
)
    requires
        is_run(states, events),
        0 <= n < states.len(),
        forall|i: int| 0 <= i < n ==> !(#[trigger] events[i] is Refuse),
    ensures
        !states[n].spill.has_file(),
        states[n].waiting == Map::<int, Bytes>::empty(),
        states[n].spill.stats().pages == 0,
        states[n].spill.stats().bytes == 0,
        states[n].file == Seq::<u8>::empty(),
    decreases n,
{
    if n > 0 {
        law_run_without_refusal_never_opens_the_file(states, events, n - 1);
        assert(step(states[n - 1], events[n - 1], states[n - 1 + 1]));
        assert(!(events[n - 1] is Refuse));
    }
}

/// With a zero budget every page that has bytes is spilled.
pub proof fn law_zero_budget_spills_everything(
    pre: SpillingPageStore,
    pre_budget: Budget,
    value: Bytes,
    step: PutStep,
    post: SpillingPageStore,
    post_budget: Budget,
)
    requires
        pre_budget.cap() == 0,
        blob(value).len() > 0,
        SpillingPageStore::put_effect(pre, pre_budget, value, step, post, post_budget),
    ensures
        step == PutStep::Spill(value),
        post == pre,
        post_budget == pre_budget,
{
}

/// A page larger than the whole budget is always spilled.
pub proof fn law_oversized_page_is_spilled(
    pre: SpillingPageStore,
    pre_budget: Budget,
    value: Bytes,
    step: PutStep,
    post: SpillingPageStore,
    post_budget: Budget,
)
    requires
        blob(value).len() > pre_budget.cap(),
        SpillingPageStore::put_effect(pre, pre_budget, value, step, post, post_budget),
    ensures
        step == PutStep::Spill(value),
        post == pre,
        post_budget == pre_budget,
{
}

/// Over every run a put is refused only for want of room, and kept only where there is
/// room: what all stores hold in memory and the page together pass the capacity that
/// the run started with, or do not.
pub proof fn law_refused_only_for_want_of_room(states: Seq<Columns>, events: Seq<Event>, i: int)
    requires
        is_run(states, events),
        0 <= i < events.len(),
    ensures
        events[i] matches Event::Refuse { value, .. } ==> {
            &&& states[i].budget.used() + blob(value).len() > states[i].budget.cap()
            &&& total_memory(states[i].stores) + blob(value).len() > states[0].budget.cap()
        },
        events[i] matches Event::PutKept { value, .. } ==> {
            &&& states[i].budget.used() + blob(value).len() <= states[i].budget.cap()
            &&& total_memory(states[i].stores) + blob(value).len() <= states[0].budget.cap()
        },
{
    assert(step(states[i], events[i], states[i + 1]));
    law_memory_within_budget(states, events, i);
}

/// Over every run the memory in use follows the pages: a page that is kept adds its
/// length, taking it takes that off again, giving up a store takes off all that it
/// holds, and nothing else changes it.
pub proof fn law_memory_follows_the_pages(states: Seq<Columns>, events: Seq<Event>, i: int)
    requires
        is_run(states, events),
        0 <= i < events.len(),
    ensures
        total_memory(states[i + 1].stores) == states[i + 1].budget.used(),
        states[i + 1].budget.used() - states[i].budget.used() == match events[i] {
            Event::PutKept { value, .. } => blob(value).len() as int,
            Event::Take { store, key, .. } => match states[i].store(store).pages()[key_number(
                key,
            ) as int] {
                Page::Mem(bytes) => -(blob(bytes).len() as int),
                _ => 0,
            },
            Event::Drop { store } => -(states[i].store(store).memory() as int),
            _ => 0,
        },
{
    assert(step(states[i], events[i], states[i + 1]));
    law_run_keeps_invariant(states, events, i);
    law_run_keeps_invariant(states, events, i + 1);
    match events[i] {
        Event::Take { store, .. } => law_demands_are_met(states[i], store),
        Event::Drop { store } => law_demands_are_met(states[i], store),
        _ => {},
    }
}

/// The puts into store `s` that the first `n` events complete.
pub open spec fn puts_into(events: Seq<Event>, s: int, n: int) -> nat
    decreases n,
{
    if n <= 0 {
        0
    } else {
        puts_into(events, s, n - 1) + match events[n - 1] {
            Event::PutKept { store, .. } => if store == s {
                1nat
            } else {
                0
            },
            Event::PutSpilled { store, .. } => if store == s {
                1nat
            } else {
                0
            },
            _ => 0,
        }
    }
}

/// A store has as many pages as were put into it.
proof fn lemma_pages_are_puts(states: Seq<Columns>, events: Seq<Event>, s: int, n: int)
    requires
        is_run(states, events),
        0 <= n < states.len(),
    ensures
        s >= states[n].stores.len() ==> puts_into(events, s, n) == 0,
        states[n].live(s) ==> states[n].store(s).pages().len() == puts_into(events, s, n),
    decreases n,
{
    if n > 0 {
        lemma_pages_are_puts(states, events, s, n - 1);
        assert(step(states[n - 1], events[n - 1], states[n - 1 + 1]));
    }
}

/// Keys are dense: the key of a put is the number of puts that the store saw before.
pub proof fn law_keys_are_dense(
    states: Seq<Columns>,
    events: Seq<Event>,
    i: int,
    s: int,
    value: Bytes,
    k: int,
)
    requires
        is_run(states, events),
        0 <= i < events.len(),
        puts(events[i], s, value, k),
    ensures
        k == puts_into(events, s, i),
{
    assert(step(states[i], events[i], states[i + 1]));
    lemma_pages_are_puts(states, events, s, i);
}

/// An append is planned where the file's pages end, and the file is created exactly
/// where it does not exist, so that no page is ever lost to a new file or written over.
pub proof fn law_plan_spares_what_is_there(spill: SharedSpill, plan: AppendPlan)
    requires
        spill.wf(),
        spill.append_effect(plan),
    ensures
        plan.create_file <==> !spill.has_file(),
        plan.offset == spill.contents().len(),
        spill.appended_pages().len() > 0 ==> !plan.create_file,
{
}

/// A spilled page comes back whole: where a take says to read, filling the planned
/// buffer from the file at the planned offset, at any time `r` from the take on, and
/// finishing the read gives the bytes that were put.
pub proof fn law_read_page_is_what_was_put(
    states: Seq<Columns>,
    events: Seq<Event>,
    i: int,
    j: int,
    r: int,
    s: int,
    value: Bytes,
    k: int,
    plan: ReadPlan,
    page: Bytes,
)
    requires
        is_run(states, events),
        0 <= i < j < events.len(),
        j <= r < states.len(),
        puts(events[i], s, value, k),
        takes(events[j], s, k),
        forall|m: int| i < m < j ==> !takes(#[trigger] events[m], s, k),
        events[j]->result matches Ok(TakeStep::Read { offset, len }) && states[r].spill.read_effect(
            offset,
            len,
            plan,
        ),
        ReadPlan::finish_effect(
            states[r].file.subrange(plan.offset as int, plan.offset + plan.buf@.len()),
            page,
        ),
    ensures
        blob(page) == blob(value),
        plan.buf@.len() == blob(value).len(),
        plan.offset + plan.buf@.len() <= states[r].file.len(),
{
    law_round_trip(states, events, i, j, r, s, value, k);
    assert(step(states[i], events[i], states[i + 1]));
    assert(step(states[j], events[j], states[j + 1]));
    law_run_keeps_invariant(states, events, i + 1);
    law_run_keeps_invariant(states, events, j);
    law_run_keeps_invariant(states, events, r);
    lemma_page_stays(states, events, i + 1, j, s, k);
    lemma_contents_stay(states, events, j, r);
    assert(backed(states[j].store(s), states[j].spill));
}

} // verus!
