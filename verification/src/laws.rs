//! Proof-level statements about the arbiter's rotation order: the fairness
//! of round-robin arbitration, the effect of the idle reset, and the
//! agreement between the grant-order view and successive grants.

use vstd::prelude::*;
use crate::arbiter::RRArb;
use crate::arbiter::rot_slot;
use crate::arbiter::scan_order;

verus! {

/// Every slot of a well-formed arbiter is reached by exactly one offset in
/// `1..=n` of a scan from any cursor.
pub proof fn lemma_rot_slot_covers(c: int, n: int, i: int)
    requires
        0 <= c < n,
        0 <= i < n,
    ensures
        exists|k: int| 1 <= k <= n && rot_slot(c, n, k) == i,
{
    if i > c {
        assert(rot_slot(c, n, i - c) == i);
    } else {
        assert(rot_slot(c, n, i + n - c) == i);
    }
}

/// Every slot the scan order lists is in range and holds a pending bid.
pub proof fn lemma_scan_order_elems(p: Seq<bool>, c: int, n: int, k: int)
    requires
        p.len() == n,
        n <= u64::MAX,
        0 <= c < n,
        0 <= k <= n,
    ensures
        forall|i: int| 0 <= i < scan_order(p, c, n, k).len()
            ==> 0 <= scan_order(p, c, n, k)[i] < n && p[scan_order(p, c, n, k)[i] as int],
    decreases n - k,
{
    if k < n {
        let pos = rot_slot(c, n, k + 1);
        lemma_scan_order_elems(p, c, n, k + 1);
        if p[pos] {
            assert(scan_order(p, c, n, k) == seq![pos as u64] + scan_order(p, c, n, k + 1));
            assert forall|i: int| 0 <= i < scan_order(p, c, n, k).len()
                implies 0 <= scan_order(p, c, n, k)[i] < n
                    && p[scan_order(p, c, n, k)[i] as int] by {
                if i > 0 {
                    assert(scan_order(p, c, n, k)[i] == scan_order(p, c, n, k + 1)[i - 1]);
                }
            }
        }
    }
}

/// The offset at which the scan meets its first pending slot: the head of
/// the scan order sits at offset `m`, with every earlier offset silent.
proof fn lemma_first_offset(p: Seq<bool>, c: int, n: int, k: int) -> (m: int)
    requires
        p.len() == n,
        n <= u64::MAX,
        0 <= c < n,
        0 <= k <= n,
        scan_order(p, c, n, k).len() > 0,
    ensures
        k < m <= n,
        scan_order(p, c, n, k)[0] == rot_slot(c, n, m) as u64,
        p[rot_slot(c, n, m)],
        forall|j: int| k < j < m ==> !p[rot_slot(c, n, j)],
    decreases n - k,
{
    let pos = rot_slot(c, n, k + 1);
    if p[pos] {
        assert(scan_order(p, c, n, k) == seq![pos as u64] + scan_order(p, c, n, k + 1));
        k + 1
    } else {
        lemma_first_offset(p, c, n, k + 1)
    }
}

/// Fairness, one grant at a time: while the cursor rests on the slot that
/// was just granted, arbitration cannot select that slot again as long as
/// any other requestor bids.  Whatever the head of the grant order is, it
/// is another slot.
pub proof fn lemma_no_immediate_regrant(s: RRArb, j: u64)
    requires
        s.wf(),
        j < s.capacity(),
        s.pending()[j as int],
        j != s.cursor(),
    ensures
        s.grant_order().len() > 0,
        s.grant_order()[0] != s.cursor(),
{
    let p = s.pending();
    let c = s.cursor();
    let n = s.capacity();
    let mj: int = if j > c { j - c } else { j + n - c };
    assert(1 <= mj < n);
    assert(rot_slot(c, n, mj) == j);
    lemma_scan_nonempty(p, c, n, 0, mj);
    let m = lemma_first_offset(p, c, n, 0);
    assert(m < n) by {
        if m == n {
            assert(!p[rot_slot(c, n, mj)]);
        }
    }
    assert(rot_slot(c, n, m) != c);
}

/// A scan finds something as soon as one offset in range holds a bid.
proof fn lemma_scan_nonempty(p: Seq<bool>, c: int, n: int, k: int, m: int)
    requires
        p.len() == n,
        0 <= c < n,
        0 <= k < m <= n,
        p[rot_slot(c, n, m)],
    ensures
        scan_order(p, c, n, k).len() > 0,
    decreases n - k,
{
    let pos = rot_slot(c, n, k + 1);
    if !p[pos] {
        lemma_scan_nonempty(p, c, n, k + 1, m);
    }
}

/// Fairness over a whole rotation: if the slot under the cursor bids anew,
/// the grant order serves every other bidder first and that slot last.
pub proof fn lemma_cursor_served_last(s: RRArb)
    requires
        s.wf(),
        s.pending()[s.cursor()],
    ensures
        s.grant_order().len() >= 1,
        s.grant_order().last() == s.cursor(),
        forall|i: int| 0 <= i < s.grant_order().len() - 1 ==> s.grant_order()[i] != s.cursor(),
{
    lemma_tail_is_cursor(s.pending(), s.cursor(), s.capacity(), 0);
}

/// How many forward steps a scan from cursor `c` takes to reach slot `x`:
/// the inverse of `rot_slot`, in `[1, n]`, with the cursor slot itself
/// reached last.
pub open spec fn rot_dist(c: int, x: int, n: int) -> int {
    if x > c {
        x - c
    } else {
        x + n - c
    }
}

/// Fairness, one arbitration at a time: a slot `k` is never granted while
/// some bidder `j` sits closer to the cursor, and the winner sits at most
/// as far out as `j`.  With the cursor resting on a freshly granted slot,
/// every other bidder is closer, so that slot cannot win again.
pub proof fn lemma_closer_bidder_wins_first(s: RRArb, j: u64, k: u64)
    requires
        s.wf(),
        j < s.capacity(),
        k < s.capacity(),
        s.pending()[j as int],
        rot_dist(s.cursor(), j as int, s.capacity())
            < rot_dist(s.cursor(), k as int, s.capacity()),
    ensures
        s.grant_order().len() > 0,
        s.grant_order()[0] != k,
        rot_dist(s.cursor(), s.grant_order()[0] as int, s.capacity())
            <= rot_dist(s.cursor(), j as int, s.capacity()),
{
    let p = s.pending();
    let c = s.cursor();
    let n = s.capacity();
    let mj = rot_dist(c, j as int, n);
    assert(1 <= mj <= n);
    assert(rot_slot(c, n, mj) == j);
    lemma_scan_nonempty(p, c, n, 0, mj);
    let m0 = lemma_first_offset(p, c, n, 0);
    assert(m0 <= mj) by {
        if m0 > mj {
            assert(!p[rot_slot(c, n, mj)]);
        }
    }
    let w = rot_slot(c, n, m0);
    assert(rot_dist(c, w, n) == m0);
    assert(w != k);
}

/// A grant advances the cursor onto the winner, and shortens every other
/// slot's scan distance by the same amount: whoever was due before slot `k`
/// and is still bidding stays due before `k`.  Iterated over any sequence
/// of requests and grants — `set_request` and `clr_request` leave the
/// cursor in place — this keeps a freshly granted slot ungranted until
/// every bid that was pending at its grant has itself been served or
/// withdrawn.
pub proof fn lemma_grant_preserves_precedence(s: RRArb, j: u64, k: u64)
    requires
        s.wf(),
        s.grant_order().len() > 0,
        j < s.capacity(),
        k < s.capacity(),
        s.pending()[j as int],
        j != s.grant_order()[0],
        rot_dist(s.cursor(), j as int, s.capacity())
            < rot_dist(s.cursor(), k as int, s.capacity()),
    ensures
        rot_dist(s.grant_order()[0] as int, j as int, s.capacity())
            < rot_dist(s.grant_order()[0] as int, k as int, s.capacity()),
{
    let p = s.pending();
    let c = s.cursor();
    let n = s.capacity();
    let m0 = lemma_first_offset(p, c, n, 0);
    let w = rot_slot(c, n, m0);
    assert(s.grant_order()[0] == w as u64);
    let mj = rot_dist(c, j as int, n);
    let mk = rot_dist(c, k as int, n);
    assert(rot_slot(c, n, mj) == j);
    assert(m0 <= mj) by {
        if m0 > mj {
            assert(!p[rot_slot(c, n, mj)]);
        }
    }
    assert(m0 < mj);
    assert(rot_dist(w, j as int, n) == mj - m0);
    assert(rot_dist(w, k as int, n) == mk - m0);
}

/// Idle reset: once the cursor has been re-primed to slot 0, the next scan
/// runs from slot 1 upward and wraps onto slot 0 last, so the lowest
/// bidding slot wins — provided slot 0 is not itself bidding alongside
/// others (slot 0 is visited last from a cursor resting on it).
pub proof fn lemma_reset_grants_lowest(s: RRArb, j: u64)
    requires
        s.wf(),
        s.cursor() == 0,
        j < s.capacity(),
        s.pending()[j as int],
        s.pending()[0] ==> forall|i: int| 1 <= i < s.capacity() ==> !s.pending()[i],
    ensures
        s.grant_order().len() > 0,
        s.pending()[s.grant_order()[0] as int],
        forall|i: int| 0 <= i < s.capacity() && s.pending()[i] ==> s.grant_order()[0] <= i,
{
    let p = s.pending();
    let n = s.capacity();
    let ord = s.grant_order();
    if j >= 1 {
        assert(rot_slot(0, n, j as int) == j);
        lemma_scan_nonempty(p, 0, n, 0, j as int);
        let m = lemma_first_offset(p, 0, n, 0);
        assert(m < n) by {
            if m == n {
                assert(!p[rot_slot(0, n, j as int)]);
            }
        }
        assert(ord[0] == m);
        assert(!p[0]) by {
            if p[0] {
                assert(!p[j as int]);
            }
        }
        assert forall|i: int| 0 <= i < n && p[i] implies ord[0] <= i by {
            if i < m {
                assert(rot_slot(0, n, i) == i);
                assert(!p[rot_slot(0, n, i)]);
            }
        }
    } else {
        assert(p[0]);
        lemma_tail_is_cursor(p, 0, n, 0);
        lemma_scan_order_elems(p, 0, n, 0);
        if ord.len() > 1 {
            assert(ord[0] != 0u64);
            assert(p[ord[0] as int]);
            assert(!p[ord[0] as int]);
        }
        assert(ord[0] == ord.last());
    }
}

/// The grant-order view foretells arbitration exactly: when a grant clears
/// the head of the order and moves the cursor onto it, the order of the new
/// state is the old order with its head removed — so repeated grants walk
/// the view's sequence element by element.
pub proof fn lemma_view_tracks_arb(pre: RRArb, post: RRArb)
    requires
        pre.wf(),
        post.wf(),
        pre.grant_order().len() > 0,
        post.capacity() == pre.capacity(),
        post.pending() =~= pre.pending().update(pre.grant_order()[0] as int, false),
        post.cursor() == pre.grant_order()[0],
    ensures
        post.grant_order() =~= pre.grant_order().skip(1),
{
    let p = pre.pending();
    let c = pre.cursor();
    let n = pre.capacity();
    let m0 = lemma_first_offset(p, c, n, 0);
    let w = rot_slot(c, n, m0);
    assert(pre.grant_order()[0] == w as u64);
    assert(post.cursor() == w);
    let p2 = post.pending();
    lemma_scan_order_skip_silent(p, c, n, 0, m0 - 1);
    assert(scan_order(p, c, n, m0 - 1) == seq![w as u64] + scan_order(p, c, n, m0));
    assert(pre.grant_order().skip(1)
        =~= (seq![w as u64] + scan_order(p, c, n, m0)).skip(1));
    assert((seq![w as u64] + scan_order(p, c, n, m0)).skip(1) =~= scan_order(p, c, n, m0));
    lemma_shift_scan(p, c, n, m0, 0);
    assert(post.grant_order() == scan_order(p2, w, n, 0));
}

/// Silent offsets at the front of a scan do not change what it finds.
proof fn lemma_scan_order_skip_silent(p: Seq<bool>, c: int, n: int, k: int, m: int)
    requires
        p.len() == n,
        0 <= c < n,
        0 <= k <= m <= n,
        forall|j: int| k < j <= m ==> !p[rot_slot(c, n, j)],
    ensures
        scan_order(p, c, n, k) == scan_order(p, c, n, m),
    decreases m - k,
{
    if k < m {
        assert(!p[rot_slot(c, n, k + 1)]);
        lemma_scan_order_skip_silent(p, c, n, k + 1, m);
    }
}

/// After clearing the first pending slot `w` (met at offset `m0`), a scan
/// from `w` sees, offset for offset, what the old scan saw past `m0`.
proof fn lemma_shift_scan(p: Seq<bool>, c: int, n: int, m0: int, k: int)
    requires
        p.len() == n,
        n <= u64::MAX,
        0 <= c < n,
        1 <= m0 <= n,
        p[rot_slot(c, n, m0)],
        forall|j: int| 1 <= j < m0 ==> !p[rot_slot(c, n, j)],
        0 <= k <= n - m0,
    ensures
        scan_order(p.update(rot_slot(c, n, m0), false), rot_slot(c, n, m0), n, k)
            == scan_order(p, c, n, m0 + k),
    decreases n - k,
{
    let w = rot_slot(c, n, m0);
    let p2 = p.update(w, false);
    if k == n - m0 {
        lemma_rescan_tail_silent(p, c, n, m0, k);
        assert(scan_order(p, c, n, n) == Seq::<u64>::empty());
        assert(scan_order(p2, w, n, k) =~= scan_order(p, c, n, n));
    } else {
        let pos = rot_slot(w, n, k + 1);
        assert(pos == rot_slot(c, n, m0 + k + 1));
        assert(pos != w);
        assert(p2[pos] == p[pos]);
        lemma_shift_scan(p, c, n, m0, k + 1);
    }
}

/// Past offset `n - m0`, a scan from the cleared winner `w` revisits only
/// the slots the old scan found silent before `m0`, and `w` itself.
proof fn lemma_rescan_tail_silent(p: Seq<bool>, c: int, n: int, m0: int, k: int)
    requires
        p.len() == n,
        0 <= c < n,
        1 <= m0 <= n,
        n - m0 <= k <= n,
        forall|j: int| 1 <= j < m0 ==> !p[rot_slot(c, n, j)],
    ensures
        scan_order(p.update(rot_slot(c, n, m0), false), rot_slot(c, n, m0), n, k).len() == 0,
    decreases n - k,
{
    let w = rot_slot(c, n, m0);
    let p2 = p.update(w, false);
    if k < n {
        let t = m0 + k + 1 - n;
        let pos = rot_slot(w, n, k + 1);
        assert(pos == rot_slot(c, n, t));
        if t < m0 {
            assert(pos != w);
            assert(!p[rot_slot(c, n, t)]);
            assert(!p2[pos]);
        } else {
            assert(pos == w);
            assert(!p2[pos]);
        }
        lemma_rescan_tail_silent(p, c, n, m0, k + 1);
    }
}

proof fn lemma_tail_is_cursor(p: Seq<bool>, c: int, n: int, k: int)
    requires
        p.len() == n,
        n <= u64::MAX,
        0 <= c < n,
        0 <= k < n,
        p[c],
    ensures
        scan_order(p, c, n, k).len() >= 1,
        scan_order(p, c, n, k).last() == c as u64,
        forall|i: int| 0 <= i < scan_order(p, c, n, k).len() - 1
            ==> scan_order(p, c, n, k)[i] != c as u64,
    decreases n - k,
{
    let pos = rot_slot(c, n, k + 1);
    if k + 1 == n {
        assert(rot_slot(c, n, n) == c);
        assert(scan_order(p, c, n, n) =~= Seq::<u64>::empty());
        assert(scan_order(p, c, n, k) =~= seq![c as u64]);
    } else {
        lemma_tail_is_cursor(p, c, n, k + 1);
        let rest = scan_order(p, c, n, k + 1);
        assert(pos != c);
        if p[pos] {
            let whole = scan_order(p, c, n, k);
            assert(whole == seq![pos as u64] + rest);
            assert(whole.last() == rest.last());
            assert forall|i: int| 0 <= i < whole.len() - 1
                implies whole[i] != c as u64 by {
                if i > 0 {
                    assert(whole[i] == rest[i - 1]);
                }
            }
        }
    }
}

} // verus!
