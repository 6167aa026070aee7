use arbitor::arbiter::ArbError;
use arbitor::arbiter::RRArb;

#[test]
fn scenario_three_bidders() {
    let mut a = RRArb::new(10, false);
    a.set_request(0).unwrap();
    a.set_request(3).unwrap();
    a.set_request(5).unwrap();
    assert_eq!(a.arb(), Some(3));
    assert_eq!(a.arb(), Some(5));
    assert_eq!(a.arb(), Some(0));
    assert_eq!(a.arb(), None);
}

#[test]
fn idle_reset_reprimes_cursor() {
    let mut a = RRArb::new(8, true);
    a.set_request(5).unwrap();
    assert_eq!(a.arb(), Some(5));
    assert_eq!(a.last_granted(), 5);
    // Idle cycle under the reset-on-idle policy: the cursor returns to 0.
    a.step();
    assert_eq!(a.last_granted(), 0);
    // The next round scans from slot 0 forward: the lowest bidder wins.
    a.set_request(3).unwrap();
    a.set_request(6).unwrap();
    a.step();
    assert_eq!(a.last_granted(), 0);
    assert_eq!(a.arb(), Some(3));
}

#[test]
fn no_reset_keeps_cursor() {
    let mut a = RRArb::new(8, false);
    a.set_request(5).unwrap();
    assert_eq!(a.arb(), Some(5));
    // Idle cycles without the policy: the cursor stays on the last grant.
    a.step();
    a.step();
    assert_eq!(a.last_granted(), 5);
    // Rotation resumes after slot 5, so slot 6 beats slot 3.
    a.set_request(3).unwrap();
    a.set_request(6).unwrap();
    a.step();
    assert_eq!(a.arb(), Some(6));
}

#[test]
fn fairness_no_back_to_back_grant() {
    let mut a = RRArb::new(4, false);
    a.set_request(1).unwrap();
    a.set_request(2).unwrap();
    assert_eq!(a.arb(), Some(1));
    // Slot 1 bids again at once, but slot 2 is still waiting: 2 wins first.
    a.set_request(1).unwrap();
    assert_eq!(a.arb(), Some(2));
    assert_eq!(a.arb(), Some(1));
}

#[test]
fn full_wrap_single_bidder() {
    let mut a = RRArb::new(1, false);
    a.set_request(0).unwrap();
    assert_eq!(a.arb(), Some(0));
    assert_eq!(a.arb(), None);
    a.set_request(0).unwrap();
    assert_eq!(a.arb(), Some(0));
}

#[test]
fn empty_arb_is_not_an_error() {
    let mut a = RRArb::new(16, false);
    assert_eq!(a.arb(), None);
    assert_eq!(a.arb(), None);
    assert_eq!(a.last_granted(), 0);
}

#[test]
fn rejects_out_of_range_ids() {
    let mut a = RRArb::new(10, false);
    assert_eq!(a.set_request(10), Err(ArbError::InvalidRequestorId));
    assert_eq!(a.clr_request(11), Err(ArbError::InvalidRequestorId));
    assert_eq!(a.grant(u64::MAX), Err(ArbError::InvalidRequestorId));
}

#[test]
fn rejects_duplicate_request() {
    let mut a = RRArb::new(10, false);
    a.set_request(7).unwrap();
    assert_eq!(a.set_request(7), Err(ArbError::DuplicateRequest));
    // The rejected call left the bid in place.
    assert!(a.requestor_pending(7));
}

#[test]
fn rejects_stale_clear_and_grant() {
    let mut a = RRArb::new(10, false);
    assert_eq!(a.clr_request(7), Err(ArbError::StaleClear));
    assert_eq!(a.grant(7), Err(ArbError::StaleGrant));
    assert_eq!(a.last_granted(), 0);
}

#[test]
fn forced_grant_moves_cursor() {
    let mut a = RRArb::new(10, false);
    a.set_request(2).unwrap();
    a.set_request(8).unwrap();
    a.grant(8).unwrap();
    assert!(!a.requestor_pending(8));
    assert_eq!(a.last_granted(), 8);
    // Rotation continues after the forced winner: slot 2 is next.
    assert_eq!(a.arb(), Some(2));
}

#[test]
fn view_matches_grant_order_and_exhausts() {
    let mut a = RRArb::new(100, false);
    a.set_request(0).unwrap();
    a.set_request(10).unwrap();
    let mut view = a.clone().iter();
    assert_eq!(view.next(), Some(10));
    assert_eq!(view.next(), Some(0));
    assert_eq!(view.next(), None);
    // Exhausted for good; the arbiter itself was never mutated.
    assert_eq!(view.next(), None);
    assert_eq!(a.arb(), Some(10));
    assert_eq!(a.arb(), Some(0));
}

#[test]
fn view_does_not_disturb_arbiter() {
    let mut a = RRArb::new(6, false);
    a.set_request(1).unwrap();
    a.set_request(4).unwrap();
    let mut view = a.clone().iter();
    while let Some(_rq) = view.next() {}
    assert!(a.requestor_pending(1));
    assert!(a.requestor_pending(4));
    assert_eq!(a.last_granted(), 0);
    assert_eq!(a.arb(), Some(1));
}

#[test]
fn clear_withdraws_a_bid() {
    let mut a = RRArb::new(10, false);
    a.set_request(5).unwrap();
    a.set_request(4).unwrap();
    a.clr_request(4).unwrap();
    assert!(!a.requestor_pending(4));
    assert_eq!(a.arb(), Some(5));
    assert_eq!(a.arb(), None);
}

#[test]
fn construction_state() {
    let a = RRArb::new(256, true);
    assert_eq!(a.max_requestors(), 256);
    assert!(a.is_reset_on_idle());
    assert_eq!(a.last_granted(), 0);
    for id in 0..256 {
        assert!(!a.requestor_pending(id));
    }
}
