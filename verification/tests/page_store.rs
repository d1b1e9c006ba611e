//! The page store driven against a real temp file.
use bytes::Bytes;
use parquet::arrow::arrow_writer::PageKey;
use spilling_page_store::budget::Budget;
use spilling_page_store::spill::{Receipt, SharedSpill, SpillStats};
use spilling_page_store::store::{PageError, PutStep, SpillingPageStore, TakeStep};
use std::io::{Read, Seek, SeekFrom, Write};

trait Storage: Read + Write + Seek {}

impl<T: Read + Write + Seek> Storage for T {}

/// The shared file and its bookkeeping.
struct Spill {
    state: SharedSpill,
    file: Option<Box<dyn Storage>>,
}

impl Spill {
    fn new() -> Self {
        Self {
            state: SharedSpill::new(SpillStats::default()),
            file: None,
        }
    }

    fn append(&mut self, value: &Bytes) -> Receipt {
        let plan = self.state.append();
        assert_eq!(plan.create_file, self.file.is_none());
        if plan.create_file {
            self.file = Some(Box::new(tempfile::tempfile().unwrap()));
            self.state.file_created();
        }
        let file = self.file.as_mut().unwrap();
        file.seek(SeekFrom::Start(plan.offset)).unwrap();
        file.write_all(value).unwrap();
        self.state.appended(value)
    }

    fn read(&mut self, offset: u64, len: usize) -> Bytes {
        assert!(self.state.file_exists());
        let mut plan = self.state.read(offset, len);
        let file = self.file.as_mut().unwrap();
        file.seek(SeekFrom::Start(plan.offset)).unwrap();
        file.read_exact(&mut plan.buf).unwrap();
        plan.finish()
    }
}

fn put(
    store: &mut SpillingPageStore,
    budget: &mut Budget,
    spill: &mut Spill,
    value: Bytes,
) -> PageKey {
    match store.put(budget, value) {
        PutStep::Kept(key) => key,
        PutStep::Spill(value) => {
            let receipt = spill.append(&value);
            store.put_spilled(receipt)
        }
    }
}

fn take(
    store: &mut SpillingPageStore,
    budget: &mut Budget,
    spill: &mut Spill,
    key: PageKey,
) -> Result<Bytes, String> {
    match store.take(budget, key) {
        Ok(TakeStep::Kept(bytes)) => Ok(bytes),
        Ok(TakeStep::Read { offset, len }) => Ok(spill.read(offset, len)),
        Err(error) => Err(error.message()),
    }
}

fn blob(seed: u8, len: usize) -> Bytes {
    Bytes::from(vec![seed; len])
}

/// `put`/`take` round-trip every blob regardless of how they are interleaved or in
/// what order keys are taken. Uses a zero budget so every page goes through the
/// shared file and is read back at its recorded offset.
#[test]
fn roundtrips_under_interleaved_out_of_order_access() {
    let mut spill = Spill::new();
    let mut budget = Budget::new(0);
    let mut store = SpillingPageStore::new();

    let (a, b, c, d) = (
        blob(0xAA, 100),
        blob(0xBB, 4096),
        blob(0xCC, 1),
        blob(0xDD, 7777),
    );

    let ka = put(&mut store, &mut budget, &mut spill, a.clone());
    let kb = put(&mut store, &mut budget, &mut spill, b.clone());
    assert_eq!(take(&mut store, &mut budget, &mut spill, kb).unwrap(), b); // read, then put again below
    let kc = put(&mut store, &mut budget, &mut spill, c.clone());
    assert_eq!(take(&mut store, &mut budget, &mut spill, ka).unwrap(), a); // earlier key, out of order
    let kd = put(&mut store, &mut budget, &mut spill, d.clone());
    assert_eq!(take(&mut store, &mut budget, &mut spill, kd).unwrap(), d);
    assert_eq!(take(&mut store, &mut budget, &mut spill, kc).unwrap(), c);
}

/// A write that fits the shared budget never opens the temp file and spills
/// nothing, and the budget is fully released once the pages are taken.
#[test]
fn under_budget_never_touches_disk() {
    let mut spill = Spill::new();
    let mut budget = Budget::new(1024);
    let mut store = SpillingPageStore::new();

    let (a, b) = (blob(0xAA, 400), blob(0xBB, 400));
    let ka = put(&mut store, &mut budget, &mut spill, a.clone());
    let kb = put(&mut store, &mut budget, &mut spill, b.clone());

    assert!(spill.file.is_none(), "nothing should have spilled");
    assert!(!spill.state.file_exists());
    assert_eq!(spill.state.pages_spilled(), 0);
    assert_eq!(budget.used_bytes(), 800);

    assert_eq!(take(&mut store, &mut budget, &mut spill, ka).unwrap(), a);
    assert_eq!(take(&mut store, &mut budget, &mut spill, kb).unwrap(), b);
    assert_eq!(budget.used_bytes(), 0, "budget released");
}

/// Once the shared budget is full, the overflow spills while the resident
/// pages stay in memory; every page still round-trips.
#[test]
fn spills_only_the_overflow() {
    let mut spill = Spill::new();
    let mut budget = Budget::new(500);
    let mut store = SpillingPageStore::new();

    let a = blob(0xAA, 400); // fits: 400 <= 500
    let b = blob(0xBB, 400); // overflow: 800 > 500 -> spill
    let ka = put(&mut store, &mut budget, &mut spill, a.clone());
    let kb = put(&mut store, &mut budget, &mut spill, b.clone());

    assert!(spill.file.is_some(), "overflow should have spilled");
    assert!(spill.state.file_exists());
    assert_eq!(spill.state.pages_spilled(), 1);
    assert_eq!(store.memory_size(), 400);

    assert_eq!(take(&mut store, &mut budget, &mut spill, kb).unwrap(), b); // from disk
    assert_eq!(take(&mut store, &mut budget, &mut spill, ka).unwrap(), a); // from memory
}

/// The budget and the file are shared across columns: one store filling the
/// budget forces another to spill, both columns' pages land in the one file
/// (interleaved by offset), and a page bigger than the whole budget spills.
#[test]
fn budget_and_file_are_shared_across_columns() {
    let mut spill = Spill::new();
    let mut budget = Budget::new(500);
    let mut col0 = SpillingPageStore::new();
    let mut col1 = SpillingPageStore::new();

    let big = blob(1, 500); // fills the budget on col0 (stays resident)
    let s1 = blob(2, 300); // no room left -> col1 spills
    let s2 = blob(3, 700); // bigger than the whole budget -> spills too
    let _k0 = put(&mut col0, &mut budget, &mut spill, big.clone());
    let k1 = put(&mut col1, &mut budget, &mut spill, s1.clone());
    let k2 = put(&mut col1, &mut budget, &mut spill, s2.clone());

    assert!(spill.file.is_some());
    assert!(spill.state.file_exists());
    assert_eq!(spill.state.pages_spilled(), 2, "two pages spilled");

    // Both spilled pages live in the single shared file and read back intact.
    assert_eq!(take(&mut col1, &mut budget, &mut spill, k2).unwrap(), s2);
    assert_eq!(take(&mut col1, &mut budget, &mut spill, k1).unwrap(), s1);
}

/// A key is taken at most once: a second take is an error that names the key.
#[test]
fn second_take_is_refused() {
    let mut spill = Spill::new();
    let mut budget = Budget::new(10);
    let mut store = SpillingPageStore::new();
    for seed in 0..12 {
        put(&mut store, &mut budget, &mut spill, blob(seed, 10));
    }
    let (kept, spilled) = (PageKey::new(0), PageKey::new(11));
    assert_eq!(
        take(&mut store, &mut budget, &mut spill, kept).unwrap(),
        blob(0, 10)
    );
    assert_eq!(
        take(&mut store, &mut budget, &mut spill, spilled).unwrap(),
        blob(11, 10)
    );
    assert!(matches!(
        store.take(&mut budget, kept),
        Err(PageError::AlreadyTaken(0))
    ));
    assert_eq!(
        take(&mut store, &mut budget, &mut spill, kept),
        Err("page 0 already taken".to_string())
    );
    assert_eq!(
        take(&mut store, &mut budget, &mut spill, spilled),
        Err("page 11 already taken".to_string())
    );
    assert_eq!(budget.used_bytes(), 0);
    assert_eq!(
        PageError::AlreadyTaken(u64::MAX).message(),
        "page 18446744073709551615 already taken"
    );
}

/// Keys are dense and stable: taking a page frees no key.
#[test]
fn keys_are_never_reused() {
    let mut spill = Spill::new();
    let mut budget = Budget::new(8);
    let mut store = SpillingPageStore::new();
    let k0 = put(&mut store, &mut budget, &mut spill, blob(1, 8));
    let k1 = put(&mut store, &mut budget, &mut spill, blob(2, 8));
    assert_eq!((k0.get(), k1.get()), (0, 1));
    take(&mut store, &mut budget, &mut spill, k0).unwrap();
    let k2 = put(&mut store, &mut budget, &mut spill, blob(3, 8));
    assert_eq!(k2.get(), 2);
    assert_eq!(store.page_count(), 3);
    assert_eq!(
        take(&mut store, &mut budget, &mut spill, k2).unwrap(),
        blob(3, 8)
    );
    assert_eq!(
        take(&mut store, &mut budget, &mut spill, k1).unwrap(),
        blob(2, 8)
    );
}

/// A store that is given up returns what it still holds in memory.
#[test]
fn drop_returns_resident_pages() {
    let mut spill = Spill::new();
    let mut budget = Budget::new(1000);
    let mut col0 = SpillingPageStore::new();
    let mut col1 = SpillingPageStore::new();
    let k0 = put(&mut col0, &mut budget, &mut spill, blob(1, 300));
    put(&mut col0, &mut budget, &mut spill, blob(2, 200));
    put(&mut col1, &mut budget, &mut spill, blob(3, 400));
    take(&mut col0, &mut budget, &mut spill, k0).unwrap();
    assert_eq!((col0.memory_size(), col1.memory_size()), (200, 400));
    assert_eq!(budget.used_bytes(), 600);
    col0.drop(&mut budget);
    assert_eq!(budget.used_bytes(), 400);
    col1.drop(&mut budget);
    assert_eq!(budget.used_bytes(), 0);
    SpillingPageStore::new().drop(&mut budget);
    assert_eq!(budget.used_bytes(), 0);
}

/// The memory of all columns together keeps to the budget.
#[test]
fn memory_keeps_to_the_budget() {
    let mut spill = Spill::new();
    let mut budget = Budget::new(250);
    let mut columns: Vec<SpillingPageStore> = (0..7).map(|_| SpillingPageStore::new()).collect();
    for round in 0..5u8 {
        for store in columns.iter_mut() {
            put(store, &mut budget, &mut spill, blob(round, 60));
        }
        let total: usize = columns.iter().map(|store| store.memory_size()).sum();
        assert_eq!(total, budget.used_bytes());
        assert!(total <= 250);
    }
    assert_eq!(budget.used_bytes(), 240);
    assert_eq!(spill.state.pages_spilled(), 31);
    assert_eq!(spill.state.bytes_spilled(), 31 * 60);
}

/// With a zero budget every page with bytes is spilled; an empty one fits.
#[test]
fn zero_budget_keeps_only_empty_pages() {
    let mut budget = Budget::new(0);
    let mut store = SpillingPageStore::new();
    assert!(matches!(
        store.put(&mut budget, blob(9, 1)),
        PutStep::Spill(value) if value == blob(9, 1)
    ));
    assert_eq!(store.page_count(), 0);
    assert!(matches!(
        store.put(&mut budget, Bytes::new()),
        PutStep::Kept(key) if key.get() == 0
    ));
    assert_eq!(store.memory_size(), 0);
}

/// Pages of all columns lie one behind the other, and the totals count them.
#[test]
fn offsets_follow_one_another() {
    let mut state = SharedSpill::new(SpillStats::default());
    let plan = state.append();
    assert!(plan.create_file);
    assert_eq!(plan.offset, 0);
    state.file_created();
    assert_eq!(state.appended(&blob(1, 300)).location(), (0, 300));
    let plan = state.append();
    assert!(!plan.create_file);
    assert_eq!(plan.offset, 300);
    assert_eq!(state.appended(&blob(2, 0)).location(), (300, 0));
    assert_eq!(state.appended(&blob(3, 700)).location(), (300, 700));
    assert_eq!(state.end_offset(), 1000);
    assert_eq!(state.pages_spilled(), 3);
    assert_eq!(state.bytes_spilled(), 1000);
    let plan = state.read(300, 7);
    assert_eq!(plan.offset, 300);
    assert_eq!(plan.buf, vec![0u8; 7]);
    assert_eq!(plan.finish(), blob(0, 7));
}

/// The totals go on from what they are given, and wrap around.
#[test]
fn totals_wrap_around() {
    let mut state = SharedSpill::new(SpillStats {
        pages: usize::MAX,
        bytes: u64::MAX - 1,
    });
    state.file_created();
    state.appended(&blob(1, 5));
    assert_eq!(state.pages_spilled(), 0);
    assert_eq!(state.bytes_spilled(), 3);
    assert_eq!(state.end_offset(), 5);
}

/// A failed write is not recorded: the next page overwrites what it left behind.
#[test]
fn failed_write_is_overwritten() {
    let mut spill = Spill::new();
    let mut budget = Budget::new(0);
    let mut store = SpillingPageStore::new();
    let ka = put(&mut store, &mut budget, &mut spill, blob(1, 50));
    assert!(matches!(
        store.put(&mut budget, blob(2, 50)),
        PutStep::Spill(_)
    ));
    let plan = spill.state.append();
    assert_eq!(plan.offset, 50);
    let file = spill.file.as_mut().unwrap();
    file.seek(SeekFrom::Start(plan.offset)).unwrap();
    file.write_all(&[0xFF; 20]).unwrap();
    let kb = put(&mut store, &mut budget, &mut spill, blob(3, 10));
    assert_eq!(kb.get(), 1);
    assert_eq!(spill.state.end_offset(), 60);
    assert_eq!(
        take(&mut store, &mut budget, &mut spill, kb).unwrap(),
        blob(3, 10)
    );
    assert_eq!(
        take(&mut store, &mut budget, &mut spill, ka).unwrap(),
        blob(1, 50)
    );
}

/// Room that a take frees is used by the next put of any column.
#[test]
fn released_room_is_shared() {
    let mut spill = Spill::new();
    let mut budget = Budget::new(100);
    let mut col0 = SpillingPageStore::new();
    let mut col1 = SpillingPageStore::new();
    let k = put(&mut col0, &mut budget, &mut spill, blob(1, 100));
    put(&mut col1, &mut budget, &mut spill, blob(2, 40));
    take(&mut col0, &mut budget, &mut spill, k).unwrap();
    put(&mut col1, &mut budget, &mut spill, blob(3, 40));
    assert_eq!(col1.memory_size(), 40);
    assert_eq!(spill.state.pages_spilled(), 1);
}

/// A take and a drop give back what the store held, also to a budget that does not
/// count it; the count then wraps around.
#[test]
fn foreign_budget_wraps_around() {
    let mut spill = Spill::new();
    let mut budget = Budget::new(10);
    let mut store = SpillingPageStore::new();
    let k = put(&mut store, &mut budget, &mut spill, blob(1, 4));
    put(&mut store, &mut budget, &mut spill, blob(2, 6));
    let mut other = Budget::new(10);
    assert_eq!(take(&mut store, &mut other, &mut spill, k).unwrap(), blob(1, 4));
    assert_eq!(other.used_bytes(), usize::MAX - 3);
    store.drop(&mut other);
    assert_eq!(other.used_bytes(), usize::MAX - 9);
    assert_eq!(budget.used_bytes(), 10);
}

/// Puts that all find room never open the file, also where pages are taken in between
/// so that more is put in all than the budget holds.
#[test]
fn taken_pages_make_room_without_spilling() {
    let mut spill = Spill::new();
    let mut budget = Budget::new(100);
    let mut store = SpillingPageStore::new();
    for seed in 0..10 {
        let key = put(&mut store, &mut budget, &mut spill, blob(seed, 80));
        assert_eq!(
            take(&mut store, &mut budget, &mut spill, key).unwrap(),
            blob(seed, 80)
        );
    }
    assert!(spill.file.is_none());
    assert!(!spill.state.file_exists());
    assert_eq!(spill.state.pages_spilled(), 0);
    assert_eq!(spill.state.bytes_spilled(), 0);
    assert_eq!(budget.used_bytes(), 0);
}

/// Appended pages lie side by side and can be read at any later time.
#[test]
fn appends_lie_side_by_side() {
    let mut spill = Spill::new();
    spill.append(&blob(9, 33));
    let pages: Vec<Bytes> = (1..7).map(|seed| blob(seed, seed as usize * 100)).collect();
    let mut at = 33;
    for (i, page) in pages.iter().enumerate() {
        let (offset, len) = spill.append(page).location();
        assert_eq!((offset, len), (at, page.len()));
        at += len as u64;
        let mut from = 33;
        for earlier in &pages[..i + 1] {
            assert_eq!(&spill.read(from, earlier.len()), earlier);
            from += earlier.len() as u64;
        }
    }
    assert_eq!(spill.state.end_offset(), at);
    assert_eq!(spill.state.pages_spilled(), 7);
    assert_eq!(spill.state.bytes_spilled(), 33 + 2100);
}

/// A failed write leaves the file in place: it is not created again.
#[test]
fn failed_write_keeps_the_file() {
    let mut state = SharedSpill::new(SpillStats::default());
    assert!(state.append().create_file);
    state.file_created();
    assert!(!state.append().create_file);
    assert_eq!(state.append().offset, 0);
    assert_eq!(state.pages_spilled(), 0);
}
