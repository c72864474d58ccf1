//! The decisions of a fetch worker: whether a source is buffered in memory or streamed, how large
//! its buffer starts, and how the budget is settled once the real size is known.
use crate::budget::{claim_amount, claim_decided, Claim, SpaceBudget};
use std::sync::Arc;
use vstd::prelude::*;
use vstd::slice::*;

verus! {

/// A stream that a worker opened, with the URL of its source.
pub struct PrefetchResult<R> {
    pub url: String,
    pub reader: R,
}

/// Claims `2 * estimated_size` from `budget`: `None` where the estimate is not positive, is above
/// the single-buffer ceiling, or the budget has too little left.
pub fn attempt_to_claim_space(budget: &SpaceBudget, estimated_size: i64) -> (r: Option<i64>)
    ensures
        exists|c: Claim| #[trigger] claim_decided(claim_amount(estimated_size as int, budget.max_single()), c)
            && c.granted == r,
        claim_amount(estimated_size as int, budget.max_single()) is None ==> r is None,
        r matches Some(amount) ==> claim_amount(estimated_size as int, budget.max_single())
            == Some(amount as int),
{
    budget.try_claim(estimated_size)
}

/// The largest buffer allocated up front, below the full claim, in the hope that the real size
/// stays under the estimate: 128 MiB.
pub const MAX_INITIAL_BUFFER: i64 = 134_217_728;

/// How a worker fetches one source.
#[derive(Clone, Copy, Debug, PartialEq, Eq, Structural)]
pub enum FetchPlan {
    /// Fetch the whole source into a buffer that starts at `initial_capacity` bytes, having
    /// claimed `claimed` from the budget.
    Buffered { claimed: i64, initial_capacity: usize },
    /// Stream the source as it arrives, with no claim.
    Streaming,
}

/// The initial capacity of a buffer for an estimate.
pub open spec fn initial_capacity_spec(rough_size: int) -> int {
    if rough_size < MAX_INITIAL_BUFFER {
        rough_size
    } else {
        MAX_INITIAL_BUFFER as int
    }
}

/// Claims space for a source of estimated size `rough_size`: buffered where the budget grants
/// the claim, streamed otherwise (see [`SpaceBudget::claim`]).
pub fn plan_fetch(budget: &SpaceBudget, rough_size: i64) -> (r: FetchPlan)
    ensures
        exists|c: Claim| #[trigger] claim_decided(claim_amount(rough_size as int, budget.max_single()), c)
            && match r {
            FetchPlan::Buffered { claimed, .. } => c.granted == Some(claimed),
            FetchPlan::Streaming => c.granted is None,
        },
        claim_amount(rough_size as int, budget.max_single()) is None ==> r == FetchPlan::Streaming,
        r matches FetchPlan::Buffered { claimed, initial_capacity } ==> {
            &&& claim_amount(rough_size as int, budget.max_single()) == Some(claimed as int)
            &&& initial_capacity == initial_capacity_spec(rough_size as int)
        },
{
    let c = budget.claim(rough_size);
    match c.granted {
        Some(claimed) => {
            let initial_capacity = if rough_size < MAX_INITIAL_BUFFER {
                rough_size as usize
            } else {
                MAX_INITIAL_BUFFER as usize
            };
            FetchPlan::Buffered { claimed, initial_capacity }
        },
        None => FetchPlan::Streaming,
    }
}

/// Relies on `Vec::capacity`: never below the length, and never above `isize::MAX` for bytes.
#[verifier::external_body]
fn buffer_capacity(buffer: &Vec<u8>) -> (r: usize)
    ensures
        r >= buffer@.len(),
        r as int <= isize::MAX as int,
{
    buffer.capacity()
}

/// A fetched buffer, read from the front, that holds a claim on a budget until it is finished.
pub struct BufferGuard {
    buffer: Vec<u8>,
    index: usize,
    claimed_space: usize,
    budget: Arc<SpaceBudget>,
}

impl BufferGuard {
    #[verifier::type_invariant]
    closed spec fn wf(&self) -> bool {
        &&& self.index <= self.buffer@.len()
        &&& self.claimed_space as int <= isize::MAX as int
    }

    /// The bytes of the buffer.
    pub closed spec fn bytes(&self) -> Seq<u8> {
        self.buffer@
    }

    /// How many bytes have been read.
    pub closed spec fn position(&self) -> int {
        self.index as int
    }

    /// The claim that the buffer still holds.
    pub closed spec fn claimed(&self) -> int {
        self.claimed_space as int
    }

    /// The bytes not yet read.
    pub open spec fn unread(&self) -> Seq<u8> {
        self.bytes().subrange(self.position(), self.bytes().len() as int)
    }

    /// Copies the next bytes into `buf`, as many as fit, and moves past them.
    pub fn read_into(&mut self, buf: &mut [u8]) -> (n: usize)
        ensures
            n as int == if old(buf)@.len() < old(self).unread().len() {
                old(buf)@.len() as int
            } else {
                old(self).unread().len() as int
            },
            final(buf)@.len() == old(buf)@.len(),
            final(buf)@.subrange(0, n as int) == old(self).unread().subrange(0, n as int),
            final(buf)@.subrange(n as int, final(buf)@.len() as int) == old(buf)@.subrange(
                n as int,
                old(buf)@.len() as int,
            ),
            final(self).bytes() == old(self).bytes(),
            final(self).claimed() == old(self).claimed(),
            final(self).position() == old(self).position() + n,
            final(self).position() <= final(self).bytes().len(),
    {
        proof {
            use_type_invariant(&*self);
        }
        let available = self.buffer.len() - self.index;
        let n = if buf.len() < available {
            buf.len()
        } else {
            available
        };
        let ghost before = buf@;
        let start: usize = self.index;
        let len: usize = self.buffer.len();
        let mut i: usize = 0;
        while i < n
            invariant
                i <= n,
                n <= buf@.len(),
                start == self.index,
                start + n <= len,
                len == self.buffer@.len(),
                buf@.len() == before.len(),
                forall|j: int| 0 <= j < i ==> buf@[j] == self.buffer@[start + j],
                forall|j: int| n <= j < buf@.len() ==> buf@[j] == before[j],
            decreases n - i,
        {
            buf[i] = self.buffer[start + i];
            i = i + 1;
        }
        proof {
            assert(buf@.subrange(0, n as int) =~= self.buffer@.subrange(
                self.index as int,
                self.buffer@.len() as int,
            ).subrange(0, n as int));
            assert(buf@.subrange(n as int, buf@.len() as int) =~= before.subrange(
                n as int,
                before.len() as int,
            ));
        }
        self.index = self.index + n;
        n
    }

    /// The bytes not yet read, without moving past them.
    pub fn fill_buf(&self) -> (r: &[u8])
        ensures
            r@ == self.unread(),
    {
        proof {
            use_type_invariant(self);
        }
        slice_subrange(self.buffer.as_slice(), self.index, self.buffer.len())
    }

    /// Moves past `amt` bytes, or to the end where fewer are left.
    pub fn consume(&mut self, amt: usize)
        ensures
            final(self).position() == if old(self).unread().len() < amt {
                old(self).bytes().len() as int
            } else {
                old(self).position() + amt
            },
            final(self).bytes() == old(self).bytes(),
            final(self).claimed() == old(self).claimed(),
            final(self).position() <= final(self).bytes().len(),
    {
        proof {
            use_type_invariant(&*self);
        }
        if self.buffer.len() - self.index < amt {
            self.index = self.buffer.len();
        } else {
            self.index = self.index + amt;
        }
    }

    /// Drops the bytes and returns the buffer's claim to the budget. The amount returned is the
    /// claim the buffer held; afterwards it holds none, so a second call returns nothing.
    pub fn finish(&mut self) -> (returned: i64)
        ensures
            returned == old(self).claimed(),
            final(self).claimed() == 0,
            final(self).bytes().len() == 0,
    {
        proof {
            use_type_invariant(&*self);
        }
        let returned = self.claimed_space as i64;
        self.index = 0;
        self.buffer = Vec::new();
        self.claimed_space = 0;
        self.budget.release(returned);
        returned
    }
}

/// Wraps a fetched buffer that was granted `claimed`. The budget is settled at once by the
/// difference between the claim and the buffer's real capacity, which may be negative; the
/// buffer then holds its capacity as its claim, so that what comes back to the budget in all is
/// the claim exactly.
pub fn admit_buffer(budget: Arc<SpaceBudget>, claimed: i64, buffer: Vec<u8>) -> (r: (
    BufferGuard,
    i64,
))
    requires
        claimed >= 0,
    ensures
        r.0.bytes() == buffer@,
        r.0.position() == 0,
        r.0.claimed() >= buffer@.len(),
        r.1 + r.0.claimed() == claimed,
{
    let capacity = buffer_capacity(&buffer);
    let adjustment = claimed - capacity as i64;
    budget.release(adjustment);
    (BufferGuard { buffer, index: 0, claimed_space: capacity, budget }, adjustment)
}

} // verus!
