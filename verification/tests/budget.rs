//! The memory budget.
use spilling_page_store::budget::Budget;

#[test]
fn reserves_up_to_the_capacity() {
    let mut budget = Budget::new(1000);
    assert_eq!(budget.used_bytes(), 0);
    assert!(budget.reserve(600));
    assert!(!budget.reserve(401));
    assert_eq!(budget.used_bytes(), 600);
    assert!(budget.reserve(400));
    assert!(!budget.reserve(1));
    assert!(budget.reserve(0));
    assert_eq!(budget.used_bytes(), 1000);
}

#[test]
fn release_undoes_reserve() {
    let mut budget = Budget::new(1000);
    assert!(budget.reserve(250));
    assert!(budget.reserve(750));
    budget.release(750);
    assert_eq!(budget.used_bytes(), 250);
    assert!(budget.reserve(750));
}

#[test]
fn oversized_request_never_fits() {
    let mut budget = Budget::new(500);
    assert!(!budget.reserve(501));
    assert!(budget.reserve(1));
    assert!(!budget.reserve(usize::MAX));
    assert_eq!(budget.used_bytes(), 1);
}

#[test]
fn release_wraps_around() {
    let mut budget = Budget::new(500);
    budget.release(1);
    assert_eq!(budget.used_bytes(), usize::MAX);
    assert!(!budget.reserve(0));
}

/// What is reserved is what was granted less what was released.
#[test]
fn used_is_the_balance() {
    let mut budget = Budget::new(100);
    let mut balance = 0;
    for (reserve, release) in [(40, 0), (50, 20), (60, 0), (30, 100), (70, 15)] {
        if budget.reserve(reserve) {
            balance += reserve;
        }
        assert_eq!(budget.used_bytes(), balance);
        budget.release(release);
        balance -= release;
        assert_eq!(budget.used_bytes(), balance);
    }
    assert_eq!(balance, 55);
}

/// Among reservations alone, each refused request would still not fit in the end.
#[test]
fn nothing_is_refused_in_vain() {
    let requests = [30, 80, 0, 25, 46, 45, 1, 100];
    let mut budget = Budget::new(100);
    let fits = requests.map(|n| budget.reserve(n));
    assert_eq!(fits, [true, false, true, true, false, true, false, false]);
    assert_eq!(budget.used_bytes(), 100);
    for (n, fits) in requests.into_iter().zip(fits) {
        assert!(fits || budget.used_bytes() + n > 100);
    }
}
