use ice_cream_shop::router::MakeOrder;
use ice_cream_shop::router::OrderRouter;
use ice_cream_shop::router::RouterError;
use ice_cream_shop::stock::StockEngine;
use ice_cream_shop::stock::StockResult;
use ice_cream_shop::wire::ShopResponse;

fn order(size: u32, flavors: Vec<&str>) -> MakeOrder {
    MakeOrder {
        size,
        flavors: flavors.into_iter().map(|f| f.to_string()).collect(),
        screen_index: 1,
        screen_address: "127.0.0.1:4000".to_string(),
    }
}

#[test]
fn scenario_simple_order() {
    // Two flavors, four grams: two units of each are reserved, confirmed,
    // and the screen is owed a success.
    let mut engine = StockEngine::new(100);
    engine.add_flavor("VAINILLA", 10);
    engine.add_flavor("CHOCOLATE", 5);
    let mut router = OrderRouter::new();
    let requests = router.make_order(1, &order(4, vec!["vainilla", "chocolate"]));
    assert_eq!(requests.len(), 2);
    assert_eq!(requests[0].amount, 2);
    assert_eq!(requests[1].amount, 2);

    let mut responses = Vec::new();
    for req in requests.iter() {
        let (res, note) = engine.reserve(req.request_id, req.flavor.as_str(), req.amount);
        assert!(res.is_ok());
        let outcome = router.handle_stock_result(note).expect("the order is known");
        if let Some(confirms) = outcome.confirms {
            let (results, _) = engine.confirm(&confirms);
            assert!(results.iter().all(|r| r.is_ok()));
        }
        assert!(outcome.cancels.is_none());
        if let Some(resp) = outcome.response {
            responses.push(resp);
        }
    }
    assert_eq!(responses.len(), 1);
    match &responses[0] {
        ShopResponse::OrderResult { screen_id, result, screen_address } => {
            assert_eq!(*screen_id, 1);
            assert!(result.is_ok());
            assert_eq!(screen_address, "127.0.0.1:4000");
        },
    }
    assert_eq!(engine.flavors[0].stock, 8);
    assert_eq!(engine.flavors[1].stock, 3);
    assert_eq!(router.active_orders.len(), 0);
}

#[test]
fn scenario_shortage_rollback() {
    // One flavor is unknown: the reserved one is canceled, the stock is
    // unchanged, and the screen is owed an error.
    let mut engine = StockEngine::new(100);
    engine.add_flavor("VAINILLA", 10);
    let mut router = OrderRouter::new();
    let requests = router.make_order(1, &order(4, vec!["vainilla", "chocolate"]));
    assert_eq!(requests.len(), 2);

    let mut failed = false;
    for req in requests.iter() {
        let (_, note) = engine.reserve(req.request_id, req.flavor.as_str(), req.amount);
        match router.handle_stock_result(note) {
            Ok(outcome) => {
                if let Some(cancels) = outcome.cancels {
                    let results = engine.cancel(&cancels);
                    assert!(results.iter().all(|r| r.is_ok()));
                }
                if let Some(resp) = outcome.response {
                    match resp {
                        ShopResponse::OrderResult { screen_id, result, .. } => {
                            assert_eq!(screen_id, 1);
                            assert_eq!(result, Err("Couldn't get all flavors".to_string()));
                            failed = true;
                        },
                    }
                }
            },
            Err(RouterError::OrderNotFound) => {
                // The second notification arrives after the order was removed.
            },
        }
    }
    assert!(failed);
    assert_eq!(engine.flavors[0].stock, 10);
    assert_eq!(engine.flavors[0].reserved, 0);
    assert_eq!(router.active_orders.len(), 0);
}

#[test]
fn remainder_of_the_size_is_discarded() {
    let mut router = OrderRouter::new();
    let requests = router.make_order(9, &order(7, vec!["a", "b", "c"]));
    assert_eq!(requests.len(), 3);
    for req in requests.iter() {
        assert_eq!(req.amount, 2);
    }
}

#[test]
fn unknown_notification_is_refused() {
    let mut router = OrderRouter::new();
    let note = StockResult { requester: 42, result: None };
    match router.handle_stock_result(note) {
        Err(e) => assert_eq!(e, RouterError::OrderNotFound),
        Ok(_) => panic!("an unknown order must be refused"),
    }
}

#[test]
fn session_close_fails_active_orders() {
    let mut router = OrderRouter::new();
    let _ = router.make_order(1, &order(4, vec!["vainilla", "chocolate"]));
    let _ = router.make_order(2, &order(2, vec!["menta"]));
    let responses = router.session_closed();
    assert_eq!(responses.len(), 2);
    for resp in responses.iter() {
        match resp {
            ShopResponse::OrderResult { result, .. } => {
                assert_eq!(result, &Err("Stock requester stopped".to_string()));
            },
        }
    }
    assert_eq!(router.active_orders.len(), 0);
}

#[test]
fn fresh_order_ids_open_orders() {
    let mut router = OrderRouter::new();
    let first = router.make_order_fresh(&order(4, vec!["vainilla"]));
    assert!(first.is_some());
    let (id, requests) = first.unwrap();
    assert_eq!(requests.len(), 1);
    assert_eq!(requests[0].request_id, id);
    assert_eq!(router.active_orders.len(), 1);
}

#[test]
fn idempotent_halves_match_one_confirm() {
    // Reserving and confirming four units in two halves leaves the same
    // stock as doing it at once.
    let mut once = StockEngine::new(100);
    once.add_flavor("VAINILLA", 10);
    let _ = once.reserve(1, "VAINILLA", 4);
    let _ = once.confirm(&vec![("VAINILLA".to_string(), 4)]);

    let mut halves = StockEngine::new(100);
    halves.add_flavor("VAINILLA", 10);
    let _ = halves.reserve(1, "VAINILLA", 2);
    let _ = halves.reserve(2, "VAINILLA", 2);
    let _ = halves.confirm(&vec![("VAINILLA".to_string(), 2)]);
    let _ = halves.confirm(&vec![("VAINILLA".to_string(), 2)]);

    assert_eq!(once.flavors[0].stock, halves.flavors[0].stock);
    assert_eq!(once.flavors[0].reserved, halves.flavors[0].reserved);
    assert_eq!(once.flavors[0].stock, 6);
}
