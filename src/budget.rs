//! Admission control for in-memory prefetch buffers.
//!
//! A [`SpaceBudget`] holds a signed counter of the buffering capacity that is still free. A claim
//! succeeds only where the counter stays non-negative afterwards; a release adds back without
//! condition. Both are single atomic steps, so every interleaving of them across threads is some
//! sequence of the steps described by [`claim_step_spec`] and [`event_step`].
use std::sync::atomic::{AtomicI64, Ordering};
use vstd::prelude::*;

verus! {

/// The safety multiplier applied to an estimated size: room for decompression and allocator
/// overhead.
pub const CLAIM_MULTIPLIER: i64 = 2;

/// What a claim of `wanted` does to a counter that holds `current`: the new value, or `None`
/// where it would fall below zero.
pub open spec fn claim_step_spec(current: int, wanted: int) -> Option<int> {
    if current >= wanted {
        Some(current - wanted)
    } else {
        None
    }
}

/// The amount that an estimate asks for, or `None` where the estimate is not positive or is
/// above the single-buffer ceiling.
pub open spec fn claim_amount(estimated_size: int, max_single_buffer: int) -> Option<int> {
    if estimated_size <= 0 || estimated_size > max_single_buffer {
        None
    } else {
        Some(2 * estimated_size)
    }
}

/// One step of the counter: the value after a claim of `wanted`, or `None` where the claim is
/// refused and the counter stays as it is.
pub fn claim_step(current: i64, wanted: i64) -> (r: Option<i64>)
    requires
        wanted >= 0,
    ensures
        r == (match claim_step_spec(current as int, wanted as int) {
            Some(v) => Some(v as i64),
            None => None::<i64>,
        }),
{
    if current >= wanted {
        Some(current - wanted)
    } else {
        None
    }
}

/// Relies on `AtomicI64::fetch_update`: where the closure returns `Some`, its value is stored
/// and the previous value comes back as `Ok`; where it returns `None`, the counter is left alone
/// and the previous value comes back as `Err`.
#[verifier::external_body]
fn fetch_claim(counter: &AtomicI64, wanted: i64) -> (r: Result<i64, i64>)
    requires
        wanted >= 0,
    ensures
        match r {
            Ok(prev) => claim_step_spec(prev as int, wanted as int) is Some,
            Err(prev) => claim_step_spec(prev as int, wanted as int) is None,
        },
{
    counter.fetch_update(Ordering::SeqCst, Ordering::SeqCst, |x| claim_step(x, wanted))
}

/// A shared budget of buffering capacity, handed to every fetch worker and every buffer that
/// claimed from it.
pub struct SpaceBudget {
    remaining: AtomicI64,
    capacity: usize,
    max_single_buffer: usize,
}

impl SpaceBudget {
    /// The ceiling on a single estimate: larger ones are refused whatever is free.
    pub closed spec fn max_single(&self) -> int {
        self.max_single_buffer as int
    }

    /// The capacity that the budget was made with.
    pub closed spec fn initial(&self) -> int {
        self.capacity as int
    }

    #[verifier::type_invariant]
    closed spec fn wf(&self) -> bool {
        &&& self.capacity <= i64::MAX
        &&& 2 * self.max_single_buffer <= i64::MAX
    }

    /// A budget with `capacity` free and the single-buffer ceiling `max_single_buffer`.
    pub fn new(capacity: usize, max_single_buffer: usize) -> (r: SpaceBudget)
        requires
            capacity <= i64::MAX,
            2 * max_single_buffer <= i64::MAX,
        ensures
            r.initial() == capacity,
            r.max_single() == max_single_buffer,
    {
        SpaceBudget {
            remaining: AtomicI64::new(capacity as i64),
            capacity,
            max_single_buffer,
        }
    }

    /// The capacity that the budget was made with.
    pub fn capacity(&self) -> (r: usize)
        ensures
            r == self.initial(),
    {
        self.capacity
    }

    /// The ceiling on a single estimate.
    pub fn max_single_buffer(&self) -> (r: usize)
        ensures
            r == self.max_single(),
    {
        self.max_single_buffer
    }

    /// The amount free at this moment; other threads may change it at once.
    pub fn remaining(&self) -> i64 {
        self.remaining.load(Ordering::SeqCst)
    }

    /// Claims `2 * estimated_size` from the budget, reporting the counter's value at the atomic
    /// step. An estimate that is not positive or is above the single-buffer ceiling is refused
    /// without touching the counter; any other is granted exactly when the counter held at least
    /// twice the estimate, and then the counter goes from that value to that value less the
    /// claim, as [`event_step`] describes.
    pub fn claim(&self, estimated_size: i64) -> (r: Claim)
        ensures
            claim_decided(claim_amount(estimated_size as int, self.max_single()), r),
    {
        proof {
            use_type_invariant(self);
        }
        if estimated_size <= 0 || estimated_size as u64 > self.max_single_buffer as u64 {
            return Claim { granted: None, observed: None };
        }
        let wanted = CLAIM_MULTIPLIER * estimated_size;
        match fetch_claim(&self.remaining, wanted) {
            Ok(prev) => Claim { granted: Some(wanted), observed: Some(prev) },
            Err(prev) => Claim { granted: None, observed: Some(prev) },
        }
    }

    /// Claims `2 * estimated_size` from the budget: `None` where the estimate is not positive, is
    /// above the single-buffer ceiling, or the counter held less than the claim at the atomic
    /// step (see [`SpaceBudget::claim`]).
    pub fn try_claim(&self, estimated_size: i64) -> (r: Option<i64>)
        ensures
            exists|c: Claim| #[trigger] claim_decided(claim_amount(estimated_size as int, self.max_single()), c)
                && c.granted == r,
            claim_amount(estimated_size as int, self.max_single()) is None ==> r is None,
            r matches Some(amount) ==> claim_amount(estimated_size as int, self.max_single())
                == Some(amount as int),
    {
        let c = self.claim(estimated_size);
        c.granted
    }

    /// Adds `amount` back to the counter, without condition, and returns the counter's value
    /// just before. A negative amount takes the difference where a buffer outgrew its claim.
    pub fn release(&self, amount: i64) -> i64 {
        self.remaining.fetch_add(amount, Ordering::SeqCst)
    }
}

/// What a claim did: the amount granted, and the counter's value at the atomic step (none where
/// the estimate was refused without touching the counter).
#[derive(Clone, Copy, Debug, PartialEq, Eq, Structural)]
pub struct Claim {
    pub granted: Option<i64>,
    pub observed: Option<i64>,
}

/// `c` is the outcome of a claim whose amount is `amount`: no atomic step for an invalid
/// estimate; otherwise a grant exactly when the counter held at least the amount.
pub open spec fn claim_decided(amount: Option<int>, c: Claim) -> bool {
    match amount {
        None => c.granted is None && c.observed is None,
        Some(wanted) => match c.observed {
            Some(prev) => c.granted == if prev >= wanted {
                Some(wanted as i64)
            } else {
                None::<i64>
            },
            None => false,
        },
    }
}

/// A granted claim takes its amount from the counter it saw; a refused one leaves it alone.
pub proof fn lemma_claim_is_event(wanted: i64, c: Claim)
    requires
        claim_decided(Some(wanted as int), c),
    ensures
        c.observed matches Some(prev) && event_step(prev as int, BudgetEvent::Claim { wanted })
            == match c.granted {
            Some(a) => prev - a,
            None => prev as int,
        },
{
}

/// One atomic step on a budget's counter.
pub enum BudgetEvent {
    Claim { wanted: i64 },
    Release { amount: i64 },
}

/// A claim, or a release of a non-negative amount.
pub open spec fn adds_back(event: BudgetEvent) -> bool {
    event matches BudgetEvent::Release { amount } ==> amount >= 0
}

/// The counter after one event.
pub open spec fn event_step(current: int, event: BudgetEvent) -> int {
    match event {
        BudgetEvent::Claim { wanted } => match claim_step_spec(current, wanted as int) {
            Some(v) => v,
            None => current,
        },
        BudgetEvent::Release { amount } => current + amount,
    }
}

/// The counter after a sequence of events, starting from `start`.
pub open spec fn after_events(start: int, events: Seq<BudgetEvent>) -> int
    decreases events.len(),
{
    if events.len() == 0 {
        start
    } else {
        event_step(after_events(start, events.drop_last()), events.last())
    }
}

/// The sum of the claims that were granted along the sequence.
pub open spec fn granted(start: int, events: Seq<BudgetEvent>) -> int
    decreases events.len(),
{
    if events.len() == 0 {
        0
    } else {
        let before = after_events(start, events.drop_last());
        granted(start, events.drop_last()) + match events.last() {
            BudgetEvent::Claim { wanted } => if claim_step_spec(before, wanted as int) is Some {
                wanted as int
            } else {
                0
            },
            BudgetEvent::Release { .. } => 0,
        }
    }
}

/// The sum of the releases along the sequence.
pub open spec fn released(events: Seq<BudgetEvent>) -> int
    decreases events.len(),
{
    if events.len() == 0 {
        0
    } else {
        released(events.drop_last()) + match events.last() {
            BudgetEvent::Claim { .. } => 0,
            BudgetEvent::Release { amount } => amount as int,
        }
    }
}

/// The counter is always the initial capacity less what was granted plus what was released.
pub proof fn lemma_counter_accounts(start: int, events: Seq<BudgetEvent>)
    ensures
        after_events(start, events) == start - granted(start, events) + released(events),
    decreases events.len(),
{
    if events.len() > 0 {
        lemma_counter_accounts(start, events.drop_last());
    }
}

/// Where the budget starts non-negative and releases add back non-negative amounts, the counter
/// is never negative, whatever the order of the claims and releases; and once everything
/// granted has been released, it holds the initial capacity exactly.
pub proof fn lemma_budget_conserved(capacity: int, events: Seq<BudgetEvent>)
    requires
        capacity >= 0,
        forall|i: int| 0 <= i < events.len() ==> adds_back(#[trigger] events[i]),
    ensures
        after_events(capacity, events) >= 0,
        released(events) == granted(capacity, events) ==> after_events(capacity, events)
            == capacity,
    decreases events.len(),
{
    lemma_counter_accounts(capacity, events);
    if events.len() > 0 {
        let prefix = events.drop_last();
        assert forall|i: int| 0 <= i < prefix.len() implies adds_back(#[trigger] prefix[i]) by {
            assert(prefix[i] == events[i]);
        }
        lemma_budget_conserved(capacity, prefix);
        assert(events.last() == events[events.len() - 1]);
    }
}

} // verus!
