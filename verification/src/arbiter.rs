//! The round-robin arbiter state machine and its grant-order view.
//!
//! An `RRArb` holds one boolean bid per requestor slot and a rotating
//! priority cursor.  `arb` scans forward from the cursor (exclusive),
//! wrapping around once, and grants the first pending slot it meets;
//! `grant` force-selects a pending slot out of band; `step` re-primes the
//! cursor to slot 0 on idle cycles when the reset-on-idle policy is chosen.

use vstd::prelude::*;

verus! {

/// Rejection kinds for operations whose preconditions the caller broke.
/// These are caller errors, not recoverable runtime conditions.
#[derive(Debug, Clone, Copy, PartialEq, Eq, Structural)]
pub enum ArbError {
    /// A requestor id at or beyond the arbiter's capacity.
    InvalidRequestorId,
    /// `set_request` on a slot whose bid is already pending.
    DuplicateRequest,
    /// `clr_request` on a slot with no pending bid.
    StaleClear,
    /// `grant` on a slot with no pending bid.
    StaleGrant,
}

/// The slot reached from cursor `c` after `k` forward steps, wrapping once
/// at capacity `n`.  Meaningful for `0 <= c < n` and `0 <= k <= n`, where it
/// stays in `[0, n)` without any modular arithmetic.
pub open spec fn rot_slot(c: int, n: int, k: int) -> int {
    if c + k < n {
        c + k
    } else {
        c + k - n
    }
}

/// The slots with a pending bid in `p`, listed in the rotation order a scan
/// from cursor `c` visits them: offsets `k + 1, k + 2, ..., n` from `c`.
/// `scan_order(p, c, n, 0)` is the full grant order of one arbitration scan.
pub open spec fn scan_order(p: Seq<bool>, c: int, n: int, k: int) -> Seq<u64>
    decreases n - k,
{
    if k >= n {
        Seq::empty()
    } else {
        let pos = rot_slot(c, n, k + 1);
        if p[pos] {
            seq![pos as u64] + scan_order(p, c, n, k + 1)
        } else {
            scan_order(p, c, n, k + 1)
        }
    }
}

/// A round-robin arbiter over a fixed number of requestor slots.
#[derive(Debug, Clone)]
pub struct RRArb {
    requestors: Vec<bool>,
    prev_req_id: u64,
    cfg_max_requestors: u64,
    cfg_reset_on_idle: bool,
}

impl RRArb {
    /// The bid table: `pending()[i]` is true when slot `i` currently bids.
    pub closed spec fn pending(self) -> Seq<bool> {
        self.requestors@
    }

    /// The number of requestor slots, fixed at construction.
    pub closed spec fn capacity(self) -> int {
        self.cfg_max_requestors as int
    }

    /// The most recently granted slot (0 before any grant): the rotation
    /// starting point of the next scan.
    pub closed spec fn cursor(self) -> int {
        self.prev_req_id as int
    }

    /// The idle-reset policy chosen at construction.
    pub closed spec fn reset_on_idle(self) -> bool {
        self.cfg_reset_on_idle
    }

    /// Structural well-formedness: one bid flag per slot, at least one slot,
    /// and a cursor inside the slot range.  Established by `new` and
    /// preserved by every operation.
    pub open spec fn wf(self) -> bool {
        &&& self.pending().len() == self.capacity()
        &&& 1 <= self.capacity() <= u64::MAX
        &&& 0 <= self.cursor() < self.capacity()
    }

    /// No slot currently bids.
    pub open spec fn idle(self) -> bool {
        forall|i: int| 0 <= i < self.capacity() ==> !self.pending()[i]
    }

    /// The slots `arb` would grant, in order, if called repeatedly from this
    /// state with no interleaved requests.
    pub open spec fn grant_order(self) -> Seq<u64> {
        scan_order(self.pending(), self.cursor(), self.capacity(), 0)
    }

    /// Create an arbiter with `max_requestors` slots, none bidding, the
    /// cursor on slot 0, and the given idle-reset policy.
    pub fn new(max_requestors: u64, reset_on_idle: bool) -> (r: RRArb)
        requires
            1 <= max_requestors,
        ensures
            r.wf(),
            r.capacity() == max_requestors,
            r.cursor() == 0,
            r.reset_on_idle() == reset_on_idle,
            r.idle(),
    {
        let mut init_requestors: Vec<bool> = Vec::new();
        let mut i: u64 = 0;
        while i < max_requestors
            invariant
                i <= max_requestors,
                init_requestors@.len() == i,
                forall|j: int| 0 <= j < i ==> !init_requestors@[j],
            decreases max_requestors - i,
        {
            init_requestors.push(false);
            i = i + 1;
        }
        RRArb {
            requestors: init_requestors,
            prev_req_id: 0,
            cfg_max_requestors: max_requestors,
            cfg_reset_on_idle: reset_on_idle,
        }
    }

    /// Assert a bid for slot `req_id`.  Rejected when the id is out of range
    /// or the bid is already pending; the state is unchanged on rejection.
    pub fn set_request(&mut self, req_id: u64) -> (r: Result<(), ArbError>)
        requires
            old(self).wf(),
        ensures
            final(self).wf(),
            final(self).capacity() == old(self).capacity(),
            final(self).reset_on_idle() == old(self).reset_on_idle(),
            final(self).cursor() == old(self).cursor(),
            r is Ok <==> req_id < old(self).capacity() && !old(self).pending()[req_id as int],
            req_id >= old(self).capacity() ==> r == Err::<(), ArbError>(ArbError::InvalidRequestorId),
            req_id < old(self).capacity() && old(self).pending()[req_id as int]
                ==> r == Err::<(), ArbError>(ArbError::DuplicateRequest),
            r is Ok ==> final(self).pending() =~= old(self).pending().update(req_id as int, true),
            r is Err ==> final(self).pending() =~= old(self).pending(),
    {
        if req_id >= self.cfg_max_requestors {
            return Err(ArbError::InvalidRequestorId);
        }
        if self.bid(req_id) {
            return Err(ArbError::DuplicateRequest);
        }
        self.set_bid(req_id, true);
        Ok(())
    }

    /// Withdraw the bid of slot `req_id`.  Rejected when the id is out of
    /// range or no bid is pending; the state is unchanged on rejection.
    pub fn clr_request(&mut self, req_id: u64) -> (r: Result<(), ArbError>)
        requires
            old(self).wf(),
        ensures
            final(self).wf(),
            final(self).capacity() == old(self).capacity(),
            final(self).reset_on_idle() == old(self).reset_on_idle(),
            final(self).cursor() == old(self).cursor(),
            r is Ok <==> req_id < old(self).capacity() && old(self).pending()[req_id as int],
            req_id >= old(self).capacity() ==> r == Err::<(), ArbError>(ArbError::InvalidRequestorId),
            req_id < old(self).capacity() && !old(self).pending()[req_id as int]
                ==> r == Err::<(), ArbError>(ArbError::StaleClear),
            r is Ok ==> final(self).pending() =~= old(self).pending().update(req_id as int, false),
            r is Err ==> final(self).pending() =~= old(self).pending(),
    {
        if req_id >= self.cfg_max_requestors {
            return Err(ArbError::InvalidRequestorId);
        }
        if !self.bid(req_id) {
            return Err(ArbError::StaleClear);
        }
        self.set_bid(req_id, false);
        Ok(())
    }

    /// Grant the next pending requestor in rotation order: the scan starts
    /// one past the cursor, wraps once around all slots, and the first
    /// pending slot wins.  The winner's bid is cleared and the cursor moves
    /// onto it.  When no slot bids the result is empty — a normal outcome,
    /// not an error — and the state is left unchanged (the cursor keeps its
    /// pre-scan value).
    pub fn arb(&mut self) -> (r: Option<u64>)
        requires
            old(self).wf(),
        ensures
            final(self).wf(),
            final(self).capacity() == old(self).capacity(),
            final(self).reset_on_idle() == old(self).reset_on_idle(),
            r is Some <==> old(self).grant_order().len() > 0,
            r is None <==> old(self).idle(),
            r is None ==> final(self).pending() =~= old(self).pending()
                && final(self).cursor() == old(self).cursor(),
            r matches Some(w) ==> ({
                &&& w == old(self).grant_order()[0]
                &&& w < old(self).capacity()
                &&& old(self).pending()[w as int]
                &&& !final(self).pending()[w as int]
                &&& final(self).pending() =~= old(self).pending().update(w as int, false)
                &&& final(self).cursor() == w
            }),
    {
        let n = self.cfg_max_requestors;
        let c = self.prev_req_id;
        let mut checked: u64 = 0;
        while checked < n
            invariant
                old(self).wf(),
                self.requestors@ == old(self).requestors@,
                self.prev_req_id == old(self).prev_req_id,
                self.cfg_max_requestors == old(self).cfg_max_requestors,
                self.cfg_reset_on_idle == old(self).cfg_reset_on_idle,
                n == self.cfg_max_requestors,
                c == self.prev_req_id,
                checked <= n,
                forall|j: int| 1 <= j <= checked
                    ==> !self.requestors@[rot_slot(c as int, n as int, j)],
                scan_order(self.requestors@, c as int, n as int, checked as int)
                    == old(self).grant_order(),
            decreases n - checked,
        {
            let k = checked + 1;
            let pos: u64 = if c < n - k {
                c + k
            } else {
                c - (n - k)
            };
            proof {
                assert(pos == rot_slot(c as int, n as int, k as int));
            }
            if self.bid(pos) {
                self.set_bid(pos, false);
                self.prev_req_id = pos;
                proof {
                    assert(old(self).grant_order() =~= seq![pos]
                        + scan_order(old(self).requestors@, c as int, n as int, k as int));
                }
                return Some(pos);
            }
            checked = k;
        }
        proof {
            assert forall|i: int| 0 <= i < old(self).capacity()
                implies !old(self).pending()[i] by {
                crate::laws::lemma_rot_slot_covers(c as int, n as int, i);
                let k0 = choose|k: int| 1 <= k <= n && rot_slot(c as int, n as int, k) == i;
                assert(!self.requestors@[rot_slot(c as int, n as int, k0)]);
            }
        }
        None
    }

    /// Cycle-boundary bookkeeping: under the reset-on-idle policy, an idle
    /// cycle re-primes the cursor to slot 0 so that rotation restarts from
    /// the lowest slots; otherwise nothing changes.
    pub fn step(&mut self)
        requires
            old(self).wf(),
        ensures
            final(self).wf(),
            final(self).pending() =~= old(self).pending(),
            final(self).capacity() == old(self).capacity(),
            final(self).reset_on_idle() == old(self).reset_on_idle(),
            final(self).cursor() == if old(self).reset_on_idle() && old(self).idle() {
                0int
            } else {
                old(self).cursor()
            },
    {
        if self.cfg_reset_on_idle {
            if self.no_requestors() {
                self.prev_req_id = 0;
            }
        }
    }

    /// Force-select a pending requestor out of band, bypassing the scan:
    /// its bid is cleared and the cursor moves onto it, keeping rotation
    /// state consistent.  Rejected when the id is out of range or no bid is
    /// pending; the state is unchanged on rejection.
    pub fn grant(&mut self, req_id: u64) -> (r: Result<(), ArbError>)
        requires
            old(self).wf(),
        ensures
            final(self).wf(),
            final(self).capacity() == old(self).capacity(),
            final(self).reset_on_idle() == old(self).reset_on_idle(),
            r is Ok <==> req_id < old(self).capacity() && old(self).pending()[req_id as int],
            req_id >= old(self).capacity() ==> r == Err::<(), ArbError>(ArbError::InvalidRequestorId),
            req_id < old(self).capacity() && !old(self).pending()[req_id as int]
                ==> r == Err::<(), ArbError>(ArbError::StaleGrant),
            r is Ok ==> final(self).pending() =~= old(self).pending().update(req_id as int, false)
                && final(self).cursor() == req_id,
            r is Err ==> final(self).pending() =~= old(self).pending()
                && final(self).cursor() == old(self).cursor(),
    {
        if req_id >= self.cfg_max_requestors {
            return Err(ArbError::InvalidRequestorId);
        }
        if !self.bid(req_id) {
            return Err(ArbError::StaleGrant);
        }
        self.set_bid(req_id, false);
        self.prev_req_id = req_id;
        Ok(())
    }

    /// Derive the grant-order view of this arbiter's current state: a
    /// read-only cursor over the pending slots in the order `arb` would
    /// grant them.  The view consumes its snapshot and is not restartable.
    pub fn iter(self) -> (r: RRArbIterator)
        requires
            self.wf(),
        ensures
            r.wf(),
            r.remaining() =~= self.grant_order(),
    {
        RRArbIterator { rrarb: self, index: 0 }
    }

    /// The number of requestor slots.
    pub fn max_requestors(&self) -> (r: u64)
        ensures
            r == self.capacity(),
    {
        self.cfg_max_requestors
    }

    /// The idle-reset policy chosen at construction.
    pub fn is_reset_on_idle(&self) -> (r: bool)
        ensures
            r == self.reset_on_idle(),
    {
        self.cfg_reset_on_idle
    }

    /// The slot the cursor rests on: the most recently granted requestor,
    /// or 0 before any grant.
    pub fn last_granted(&self) -> (r: u64)
        ensures
            r == self.cursor(),
    {
        self.prev_req_id
    }

    /// Whether slot `req_id` currently bids.
    pub fn requestor_pending(&self, req_id: u64) -> (r: bool)
        requires
            self.wf(),
            req_id < self.capacity(),
        ensures
            r == self.pending()[req_id as int],
    {
        self.bid(req_id)
    }

    /// Read the bid flag of slot `req_id`.  The length call pins the slot
    /// count within `usize` range, so the index cast is exact.
    fn bid(&self, req_id: u64) -> (r: bool)
        requires
            self.wf(),
            req_id < self.capacity(),
        ensures
            r == self.pending()[req_id as int],
    {
        let _slot_count: usize = self.requestors.len();
        self.requestors[req_id as usize]
    }

    /// Write the bid flag of slot `req_id`; everything else is untouched.
    fn set_bid(&mut self, req_id: u64, value: bool)
        requires
            old(self).wf(),
            req_id < old(self).capacity(),
        ensures
            final(self).wf(),
            final(self).pending() =~= old(self).pending().update(req_id as int, value),
            final(self).capacity() == old(self).capacity(),
            final(self).cursor() == old(self).cursor(),
            final(self).reset_on_idle() == old(self).reset_on_idle(),
    {
        let _slot_count: usize = self.requestors.len();
        self.requestors.set(req_id as usize, value);
    }

    fn no_requestors(&self) -> (r: bool)
        requires
            self.wf(),
        ensures
            r == self.idle(),
    {
        let n = self.cfg_max_requestors;
        let mut i: u64 = 0;
        while i < n
            invariant
                self.wf(),
                n == self.cfg_max_requestors,
                i <= n,
                forall|j: int| 0 <= j < i ==> !self.requestors@[j],
            decreases n - i,
        {
            if self.bid(i) {
                return false;
            }
            i = i + 1;
        }
        true
    }
}

/// A read-only traversal of the pending requestors of one arbiter snapshot,
/// in the rotation order `arb` would grant them.  Exhausted after one pass;
/// derive a fresh view to traverse again.
pub struct RRArbIterator {
    rrarb: RRArb,
    index: u64,
}

impl RRArbIterator {
    /// The slots this view has yet to yield, in order.
    pub closed spec fn remaining(self) -> Seq<u64> {
        scan_order(self.rrarb.pending(), self.rrarb.cursor(), self.rrarb.capacity(), self.index as int)
    }

    /// Well-formedness: a well-formed snapshot and a scan position that has
    /// not run past the full rotation.
    pub closed spec fn wf(self) -> bool {
        &&& self.rrarb.wf()
        &&& self.index <= self.rrarb.capacity()
    }

    /// Yield the next pending slot in rotation order, or empty once the full
    /// rotation has been scanned.  The underlying snapshot never changes.
    pub fn next(&mut self) -> (r: Option<u64>)
        requires
            old(self).wf(),
        ensures
            final(self).wf(),
            r is Some <==> old(self).remaining().len() > 0,
            r matches Some(x) ==> ({
                &&& x == old(self).remaining()[0]
                &&& final(self).remaining() =~= old(self).remaining().skip(1)
            }),
            r is None ==> final(self).remaining() =~= old(self).remaining(),
    {
        let n = self.rrarb.cfg_max_requestors;
        let c = self.rrarb.prev_req_id;
        while self.index < n
            invariant
                old(self).wf(),
                self.rrarb == old(self).rrarb,
                n == self.rrarb.cfg_max_requestors,
                c == self.rrarb.prev_req_id,
                self.index <= n,
                scan_order(self.rrarb.requestors@, c as int, n as int, self.index as int)
                    == old(self).remaining(),
            decreases n - self.index,
        {
            let k = self.index + 1;
            let pos: u64 = if c < n - k {
                c + k
            } else {
                c - (n - k)
            };
            proof {
                assert(pos == rot_slot(c as int, n as int, k as int));
            }
            self.index = k;
            if self.rrarb.bid(pos) {
                proof {
                    assert(old(self).remaining() =~= seq![pos]
                        + scan_order(self.rrarb.requestors@, c as int, n as int, k as int));
                    assert((seq![pos] + scan_order(self.rrarb.requestors@, c as int, n as int, k as int)).skip(1)
                        =~= scan_order(self.rrarb.requestors@, c as int, n as int, k as int));
                }
                return Some(pos);
            }
        }
        None
    }
}

} // verus!
