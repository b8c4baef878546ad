use ice_cream_shop::screen::dispatch_robot_message;
use ice_cream_shop::screen::OrderState;
use ice_cream_shop::screen::ScreenEvent;
use ice_cream_shop::screen::ScreenOrderManager;
use ice_cream_shop::screen::ScreenOrderParser;
use ice_cream_shop::screen::ScreenPaymentSystem;
use ice_cream_shop::screen::ScreenWorkingOrder;
use ice_cream_shop::screen::SendOutcome;
use ice_cream_shop::wire::Request;
use ice_cream_shop::wire::Response;

#[test]
fn test_get_flavour_amount_kilo() {
    let working_order = ScreenWorkingOrder::new(
        1,
        String::from("KILO"),
        vec![String::from("Chocolate"), String::from("Vanilla")],
    );
    let grams;
    match working_order.order {
        Request::ScreenToRobotOrder { index: _, flavors: _, size } => {
            grams = size;
        },
        Request::ScreenToRobotAskLeader {} => grams = 0,
    }
    assert_eq!(grams, 1000);
}

#[test]
fn test_get_flavour_amount_medio() {
    let working_order = ScreenWorkingOrder::new(
        2,
        String::from("MEDIO"),
        vec![String::from("Frutilla"), String::from("Menta")],
    );
    let grams;
    match working_order.order {
        Request::ScreenToRobotOrder { index: _, flavors: _, size } => {
            grams = size;
        },
        _ => grams = 25000,
    }
    assert_eq!(grams, 500);
}

#[test]
fn test_get_flavour_amount_cuarto() {
    let working_order = ScreenWorkingOrder::new(
        3,
        String::from("CUARTO"),
        vec![String::from("Dulce de leche"), String::from("Menta")],
    );
    let grams;
    match working_order.order {
        Request::ScreenToRobotOrder { index: _, flavors: _, size } => {
            grams = size;
        },
        _ => grams = 25000,
    }
    assert_eq!(grams, 250);
}

#[test]
fn test_get_flavour_amount_invalid() {
    let working_order = ScreenWorkingOrder::new(
        4,
        String::from("CUCURUCHO"),
        vec![String::from("Limon"), String::from("Pistacho")],
    );
    let grams;
    match working_order.order {
        Request::ScreenToRobotOrder { index: _, flavors: _, size } => {
            grams = size;
        },
        _ => grams = 25000,
    }
    assert_eq!(grams, 0);
}

#[test]
fn test_get_serialized_order_information() {
    let order = ScreenWorkingOrder::new(
        5,
        String::from("KILO"),
        vec![String::from("Chocolate"), String::from("Vanilla")],
    );
    let expected = "{\"ScreenToRobotOrder\":{\"index\":5,\"flavors\":[\"Chocolate\",\"Vanilla\"],\"size\":1000}}";
    assert_eq!(order.get_serialized_order_information(), expected);
}

#[test]
fn test_attempt_payment_capture_accept() {
    let payment_system = ScreenPaymentSystem::new();
    let mut one_accepted = false;
    for _ in 0..3 {
        let result = payment_system.attempt_payment_capture();
        if result {
            one_accepted = true;
            break;
        }
    }
    assert_eq!(one_accepted, true);
}

#[test]
fn test_attempt_payment_capture_deny() {
    let payment_system = ScreenPaymentSystem::with_acceptance_permyriad(0);
    let result = payment_system.attempt_payment_capture();
    assert_eq!(result, false);
}

#[test]
fn test_attempt_payment_capture_at_least_one_denys() {
    let payment_system = ScreenPaymentSystem::new();
    let mut one_denied = false;
    for _ in 0..10000 {
        let result = payment_system.attempt_payment_capture();
        if !result {
            one_denied = true;
            break;
        }
    }
    assert_eq!(one_denied, true);
}

#[test]
fn order_states_move_forward_only() {
    let mut order = ScreenWorkingOrder::new(1, String::from("KILO"), vec![String::from("crema")]);
    assert_eq!(order.state, OrderState::Pending);
    order.succesfull_order();
    assert_eq!(order.state, OrderState::Completed);
    order.unsuccesfull_order();
    assert_eq!(order.state, OrderState::Completed);
    let mut failed = ScreenWorkingOrder::new(2, String::from("KILO"), vec![String::from("crema")]);
    failed.unsuccesfull_order();
    assert_eq!(failed.state, OrderState::Failed);
    failed.succesfull_order();
    assert_eq!(failed.state, OrderState::Failed);
}

#[test]
fn parse_lines_splits_and_trims() {
    let lines = vec![
        "MEDIO,crema".to_string(),
        "KILO: frutilla ; dulce de leche".to_string(),
        "CUARTO,menta,vainilla".to_string(),
    ];
    let orders = ScreenOrderParser::parse_lines(&lines);
    assert_eq!(orders.len(), 3);
    assert_eq!(orders[0], vec!["MEDIO", "crema"]);
    assert_eq!(orders[1], vec!["KILO", "frutilla", "dulce de leche"]);
    assert_eq!(orders[2], vec!["CUARTO", "menta", "vainilla"]);
}

#[test]
fn parser_keeps_its_path() {
    let parser = ScreenOrderParser::new("helados.csv".to_string());
    assert_eq!(parser.file_path, "helados.csv");
}

#[test]
fn scenario_payment_decline_skip() {
    // Three orders, every payment declined: nothing is ever sent and all
    // three end failed.
    let orders = vec![
        vec!["KILO".to_string(), "crema".to_string()],
        vec!["MEDIO".to_string(), "menta".to_string()],
        vec!["CUARTO".to_string(), "vainilla".to_string()],
    ];
    let mut manager = ScreenOrderManager::new_manager_with_orders(orders);
    manager.payment_system = ScreenPaymentSystem::with_acceptance_permyriad(0);
    let mut next = manager.start_sending().expect("orders waiting");
    let mut sent_count = 0;
    loop {
        match manager.send_order(next) {
            SendOutcome::Finished => break,
            SendOutcome::Sent { .. } => {
                sent_count += 1;
                break;
            },
            SendOutcome::PaymentRejected { next: n } => next = n,
            SendOutcome::Invalid { next: n } => next = n,
        }
    }
    assert_eq!(sent_count, 0);
    assert_eq!(manager.sent_orders.len(), 3);
    for (_, order) in manager.sent_orders.iter() {
        assert_eq!(order.state, OrderState::Failed);
    }
    assert!(manager.sent_all_orders);
}

#[test]
fn manager_completes_returned_orders() {
    let orders = vec![
        vec!["KILO".to_string(), "crema".to_string()],
        vec!["MEDIO".to_string(), "menta".to_string()],
    ];
    let mut manager = ScreenOrderManager::new_manager_with_orders(orders);
    manager.payment_system = ScreenPaymentSystem::with_acceptance_permyriad(10000);
    let first = manager.start_sending().expect("orders waiting");
    assert_eq!(first, 0);
    match manager.send_order(first) {
        SendOutcome::Sent { numero_de_orden } => assert_eq!(numero_de_orden, 0),
        other => panic!("expected the order to be sent, got {:?}", other),
    }
    let next = manager.handle_returned_order(ice_cream_shop::screen::ReturnedOrderFromShop {
        result: Ok(()),
        index: 0,
    });
    assert_eq!(next, Some(1));
    assert_eq!(manager.sent_orders[0].1.state, OrderState::Completed);
    let failed_next = manager.handle_returned_order(
        ice_cream_shop::screen::ReturnedOrderFromShop { result: Err("no luck".to_string()), index: 0 },
    );
    assert_eq!(failed_next, Some(1));
    // A terminal order stays completed even if a second result arrives.
    assert_eq!(manager.sent_orders[0].1.state, OrderState::Completed);
}

#[test]
fn dispatch_splits_results_and_leader_ports() {
    let ev = dispatch_robot_message(Response::RobotToScreenResult { index: 4, result: Ok(()) });
    match ev {
        ScreenEvent::OrderReturned(msg) => {
            assert_eq!(msg.index, 4);
            assert_eq!(msg.result, Ok(()));
        },
        _ => panic!("expected an order result"),
    }
    let ev2 = dispatch_robot_message(Response::RobotToScreenLeaderPort { leader_port: 9003 });
    match ev2 {
        ScreenEvent::Leader(msg) => assert_eq!(msg.leader_port, 9003),
        _ => panic!("expected a leader announcement"),
    }
}

#[test]
fn connection_bookkeeping_tracks_leader() {
    let mut manager = ScreenOrderManager::new_manager_with_orders(vec![vec!["KILO".to_string()]]);
    assert_eq!(manager.currently_connected_port, None);
    let ask = manager.connected(9000);
    assert_eq!(ask, Request::ScreenToRobotAskLeader {});
    assert_eq!(manager.currently_connected_port, Some(9000));
    manager.leader_learned(9002);
    assert_eq!(manager.currently_connected_port, Some(9002));
}
