use arbitor::arbiter::RRArb;

#[test]
fn select_middle() {
    let mut rrarb = RRArb::new(10, false);
    rrarb.set_request(5).unwrap();
    rrarb.set_request(4).unwrap();
    rrarb.clr_request(4).unwrap();
    let selected = rrarb.arb();
    assert!(selected == Some(5))
}

#[test]
fn lib_select_middle() {
    let mut rrarb = RRArb::new(10, false);
    rrarb.set_request(5).unwrap();
    let selected = rrarb.arb();
    assert!(selected == Some(5))
}

#[test]
fn select_none() {
    let mut rrarb = RRArb::new(100, false);
    rrarb.set_request(0).unwrap();
    rrarb.set_request(10).unwrap();
    let mut selected = rrarb.arb();
    assert!(selected == Some(10));
    selected = rrarb.arb();
    assert!(selected == Some(0));
    selected = rrarb.arb();
    assert!(selected == None);
}

#[test]
fn lib_select_none() {
    let mut rrarb = RRArb::new(100, false);
    rrarb.set_request(0).unwrap();
    rrarb.set_request(10).unwrap();
    let mut selected = rrarb.arb();
    assert!(selected == Some(10));
    selected = rrarb.arb();
    assert!(selected == Some(0));
    selected = rrarb.arb();
    assert!(selected == None);
}

#[test]
fn test_iter() {
    let mut rrarb = RRArb::new(100, false);
    rrarb.set_request(0).unwrap();
    rrarb.set_request(10).unwrap();
    let mut grant_order: u64 = 0;
    let mut rrarb_iter = rrarb.clone().iter();
    while let Some(rq) = rrarb_iter.next() {
        println!("Requestor {}", rq);
        match grant_order {
            0 => assert!(rq == 10),
            1 => assert!(rq == 0),
            _ => assert!(false),
        }
        grant_order += 1;
    }
}

#[test]
fn lib_test_iter() {
    let mut rrarb = RRArb::new(100, false);
    rrarb.set_request(0).unwrap();
    rrarb.set_request(10).unwrap();
    let mut grant_order: u64 = 0;
    let mut rrarb_iter = rrarb.clone().iter();
    while let Some(rq) = rrarb_iter.next() {
        println!("Requestor {}", rq);
        match grant_order {
            0 => assert!(rq == 10),
            1 => assert!(rq == 0),
            _ => assert!(false),
        }
        grant_order += 1;
    }
}
