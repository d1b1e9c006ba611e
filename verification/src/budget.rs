//! The memory budget that all column stores draw from.
use vstd::arithmetic::div_mod::{lemma_add_mod_noop, lemma_mod_add_multiples_vanish, lemma_small_mod};
use vstd::prelude::*;

verus! {

/// A single memory budget shared by every column's store.
///
/// `used` is the total of page bytes resident on the heap across all columns.
#[derive(Debug)]
pub struct Budget {
    cap: usize,
    used: usize,
}

impl Budget {
    /// The number of bytes that may be resident at once.
    pub closed spec fn cap(self) -> usize {
        self.cap
    }

    /// The number of bytes that are reserved.
    pub closed spec fn used(self) -> usize {
        self.used
    }

    /// The reservations stay within the capacity.
    pub open spec fn wf(self) -> bool {
        self.used() <= self.cap()
    }

    /// A budget of `cap` bytes with nothing reserved.
    pub fn new(cap: usize) -> (budget: Self)
        ensures
            budget.cap() == cap,
            budget.used() == 0,
            budget.wf(),
    {
        Self { cap, used: 0 }
    }

    /// The effect of reserving `n` bytes: they are counted if they fit, and
    /// otherwise nothing changes.
    pub open spec fn reserve_effect(pre: Self, n: nat, fits: bool, post: Self) -> bool {
        if pre.used() + n <= pre.cap() {
            &&& fits
            &&& post.cap() == pre.cap()
            &&& post.used() == pre.used() + n
        } else {
            &&& !fits
            &&& post == pre
        }
    }

    /// Reserve `n` bytes of the budget, returning `true` if they fit. A page too
    /// large for the whole budget never fits.
    pub fn reserve(&mut self, n: usize) -> (fits: bool)
        ensures
            Self::reserve_effect(*old(self), n as nat, fits, *final(self)),
            old(self).wf() ==> final(self).wf(),
    {
        if self.used > self.cap || n > self.cap - self.used {
            return false;
        }
        self.used = self.used + n;
        true
    }

    /// The effect of releasing `n` bytes. The count wraps around, as it does when
    /// more is given back than is reserved.
    pub open spec fn release_effect(pre: Self, n: nat, post: Self) -> bool {
        &&& post.cap() == pre.cap()
        &&& post.used() == (if n <= pre.used() {
            pre.used() - n
        } else {
            pre.used() - n + usize::MAX + 1
        })
    }

    /// Give `n` reserved bytes back.
    pub fn release(&mut self, n: usize)
        ensures
            Self::release_effect(*old(self), n as nat, *final(self)),
            old(self).wf() && n <= old(self).used() ==> final(self).wf(),
    {
        self.used = self.used.wrapping_sub(n);
    }

    /// The number of bytes that are reserved.
    pub fn used_bytes(&self) -> (n: usize)
        ensures
            n == self.used(),
    {
        self.used
    }
}

/// Releasing what was reserved gives the budget back as it was.
pub proof fn law_release_undoes_reserve(pre: Budget, n: nat, mid: Budget, post: Budget)
    requires
        Budget::reserve_effect(pre, n, true, mid),
        Budget::release_effect(mid, n, post),
    ensures
        post.cap() == pre.cap(),
        post.used() == pre.used(),
{
}

/// A request larger than the whole budget never fits.
pub proof fn law_oversized_never_fits(pre: Budget, n: nat, fits: bool, post: Budget)
    requires
        Budget::reserve_effect(pre, n, fits, post),
        n > pre.cap(),
    ensures
        !fits,
        post == pre,
{
}

/// One call on a budget, with what it returned.
pub enum BudgetCall {
    /// A reservation of `n` bytes.
    Reserve { n: usize, fits: bool },
    /// A release of `n` bytes.
    Release { n: usize },
}

impl BudgetCall {
    /// The effect of the call.
    pub open spec fn effect(self, pre: Budget, post: Budget) -> bool {
        match self {
            BudgetCall::Reserve { n, fits } => Budget::reserve_effect(pre, n as nat, fits, post),
            BudgetCall::Release { n } => Budget::release_effect(pre, n as nat, post),
        }
    }

    /// The bytes that the call adds to those reserved, as a difference.
    pub open spec fn change(self) -> int {
        match self {
            BudgetCall::Reserve { n, fits } => if fits {
                n as int
            } else {
                0
            },
            BudgetCall::Release { n } => -n,
        }
    }
}

/// A series of calls on one budget, in the order in which they take effect.
pub open spec fn is_series(states: Seq<Budget>, calls: Seq<BudgetCall>) -> bool {
    &&& states.len() == calls.len() + 1
    &&& forall|i: int|
        0 <= i < calls.len() ==> (#[trigger] calls[i]).effect(states[i], states[i + 1])
}

/// The bytes of the successful reservations among the first `k` calls, less those of
/// the releases.
pub open spec fn balance(calls: Seq<BudgetCall>, k: int) -> int
    decreases k,
{
    if k <= 0 {
        0
    } else {
        balance(calls, k - 1) + calls[k - 1].change()
    }
}

/// No update is lost: what is reserved is what was at first, and the successful
/// reservations less the releases. Where more is released than is reserved, the count
/// wraps around.
pub proof fn law_used_is_the_balance(states: Seq<Budget>, calls: Seq<BudgetCall>, k: int)
    requires
        is_series(states, calls),
        0 <= k <= calls.len(),
    ensures
        states[k].cap() == states[0].cap(),
        states[k].used() == (states[0].used() + balance(calls, k)) % (usize::MAX + 1),
        0 <= states[0].used() + balance(calls, k) <= usize::MAX ==> states[k].used()
            == states[0].used() + balance(calls, k),
    decreases k,
{
    let m = usize::MAX + 1;
    let total = states[0].used() + balance(calls, k);
    if k == 0 {
        lemma_small_mod(states[0].used() as nat, m as nat);
    } else {
        law_used_is_the_balance(states, calls, k - 1);
        let before = states[0].used() + balance(calls, k - 1);
        let used = states[k - 1].used() as int;
        let change = calls[k - 1].change();
        assert(calls[k - 1].effect(states[k - 1], states[k - 1 + 1]));
        lemma_small_mod(used as nat, m as nat);
        lemma_add_mod_noop(before, change, m);
        lemma_add_mod_noop(used, change, m);
        if used + change < 0 {
            lemma_mod_add_multiples_vanish(used + change, m);
        }
        lemma_small_mod(states[k].used() as nat, m as nat);
    }
    if 0 <= total <= usize::MAX {
        lemma_small_mod(total as nat, m as nat);
    }
}

/// Among calls that only reserve, in any order, there is no overshoot and nothing is
/// refused in vain: what is reserved in the end is what was at first and what was
/// granted, it is within the capacity, and each request that was refused would still
/// not fit.
pub proof fn law_only_what_does_not_fit_is_refused(states: Seq<Budget>, calls: Seq<BudgetCall>)
    requires
        is_series(states, calls),
        states[0].wf(),
        forall|i: int| 0 <= i < calls.len() ==> (#[trigger] calls[i]) is Reserve,
    ensures
        states.last().used() == states[0].used() + balance(calls, calls.len() as int),
        states.last().used() <= states[0].cap(),
        states.last().cap() == states[0].cap(),
        forall|j: int|
            0 <= j < calls.len() ==> ((#[trigger] calls[j]) matches BudgetCall::Reserve { n, fits }
                ==> fits || states.last().used() + n > states[0].cap()),
{
    let k = calls.len() as int;
    lemma_reservations_grow(states, calls, 0, k);
    assert forall|j: int| 0 <= j < k implies ((#[trigger] calls[j]) matches BudgetCall::Reserve {
        n,
        fits,
    } ==> fits || states.last().used() + n > states[0].cap()) by {
        assert(calls[j].effect(states[j], states[j + 1]));
        lemma_reservations_grow(states, calls, 0, j);
        lemma_reservations_grow(states, calls, j, k);
    }
}

/// Reservations only add to what is reserved.
proof fn lemma_reservations_grow(states: Seq<Budget>, calls: Seq<BudgetCall>, i: int, j: int)
    requires
        is_series(states, calls),
        states[i].wf(),
        0 <= i <= j <= calls.len(),
        forall|l: int| i <= l < j ==> (#[trigger] calls[l]) is Reserve,
    ensures
        states[j].wf(),
        states[j].cap() == states[i].cap(),
        states[j].used() == states[i].used() + balance(calls, j) - balance(calls, i),
        states[i].used() <= states[j].used(),
    decreases j - i,
{
    if i < j {
        lemma_reservations_grow(states, calls, i, j - 1);
        assert(calls[j - 1] is Reserve);
        assert(calls[j - 1].effect(states[j - 1], states[j - 1 + 1]));
    }
}

/// A request is granted exactly where it fits beside what is reserved, and nothing but
/// the count of a granted request changes.
pub proof fn law_granted_where_it_fits(pre: Budget, n: nat, fits: bool, post: Budget)
    requires
        Budget::reserve_effect(pre, n, fits, post),
    ensures
        fits <==> pre.used() + n <= pre.cap(),
        fits ==> post.used() - pre.used() == n,
        !fits ==> post.used() == pre.used(),
        post.cap() == pre.cap(),
{
}

/// A release takes back what it says: adding it again, around the word where more was
/// released than is reserved, gives what was reserved before.
pub proof fn law_released_bytes_are_taken_off(pre: Budget, n: nat, post: Budget)
    requires
        Budget::release_effect(pre, n, post),
    ensures
        post.cap() == pre.cap(),
        n <= pre.used() ==> post.used() + n == pre.used(),
        pre.used() < n <= usize::MAX ==> post.used() + n == pre.used() + usize::MAX + 1,
{
}

} // verus!
