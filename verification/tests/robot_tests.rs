use ice_cream_shop::robot::route_screen_request;
use ice_cream_shop::robot::shop_result_to_screen;
use ice_cream_shop::robot::ElectionForDeadRobot;
use ice_cream_shop::robot::LeaderSelected;
use ice_cream_shop::robot::RobotAction;
use ice_cream_shop::robot::RobotCoordinator;
use ice_cream_shop::robot::RobotError;
use ice_cream_shop::robot::ScreenRequestRouting;
use ice_cream_shop::wire::Request;
use ice_cream_shop::wire::Response;
use ice_cream_shop::wire::ShopRequest;
use ice_cream_shop::wire::ShopResponse;

/// Hands every `LeaderSelected` broadcast of one election step to the other
/// coordinators.
fn deliver(actions: Vec<RobotAction>, peers: &mut Vec<&mut RobotCoordinator>) {
    for action in actions {
        if let RobotAction::SendLeaderSelected {
            to,
            robot_to_robot_leader_id,
            robot_to_screen_leader_id,
        } = action
        {
            for peer in peers.iter_mut() {
                if peer.robot_to_robot_id == to {
                    let _ = peer.handle_leader_selected(LeaderSelected {
                        robot_to_robot_leader_id,
                        robot_to_screen_leader_id,
                    });
                }
            }
        }
    }
}

#[test]
fn scenario_leader_takeover() {
    // Three robots on 10000..10002: the highest wins the first election;
    // when it dies, 10001 takes over and 10000 learns of it.
    let mut a = RobotCoordinator::new(10000, 20000);
    let mut b = RobotCoordinator::new(10001, 20001);
    let mut c = RobotCoordinator::new(10002, 20002);
    a.register_peer(10001);
    a.register_peer(10002);
    b.register_peer(10000);
    b.register_peer(10002);
    c.register_peer(10000);
    c.register_peer(10001);

    // The sweep done, one robot starts the election; it forwards to the
    // highest peer, which self-elects and broadcasts.
    let first = a.start_election();
    assert_eq!(first, vec![RobotAction::SendStartElection { to: 10002 }]);
    let broadcast = c.start_election();
    assert_eq!(broadcast.len(), 2);
    assert_eq!(c.robot_to_robot_leader_id, Some(10002));
    assert_eq!(c.robot_to_screen_leader_id, Some(20002));
    deliver(broadcast, &mut vec![&mut a, &mut b]);
    assert_eq!(a.robot_to_robot_leader_id, Some(10002));
    assert_eq!(b.robot_to_robot_leader_id, Some(10002));

    // The leader dies: both survivors see the EOF.
    let from_a = a
        .handle_dead_robot(ElectionForDeadRobot { closed_server_id: 10002 })
        .expect("the peer was known");
    assert_eq!(from_a, vec![RobotAction::SendStartElection { to: 10001 }]);
    let from_b = b
        .handle_dead_robot(ElectionForDeadRobot { closed_server_id: 10002 })
        .expect("the peer was known");
    // 10001 has no higher live peer left: it elects itself and broadcasts.
    assert_eq!(b.robot_to_robot_leader_id, Some(10001));
    assert_eq!(b.robot_to_screen_leader_id, Some(20001));
    deliver(from_b, &mut vec![&mut a]);
    assert_eq!(a.robot_to_robot_leader_id, Some(10001));
    assert_eq!(a.robot_to_screen_leader_id, Some(20001));

    // The StartElection that was already in flight lands at 10001 too: the
    // outcome is the same leader again.
    let again = b.start_election();
    deliver(again, &mut vec![&mut a]);
    assert_eq!(a.robot_to_robot_leader_id, Some(10001));
    assert_eq!(b.robot_to_robot_leader_id, Some(10001));
}

#[test]
fn unknown_dead_peer_is_refused() {
    let mut a = RobotCoordinator::new(10000, 20000);
    let result = a.handle_dead_robot(ElectionForDeadRobot { closed_server_id: 4321 });
    assert_eq!(result, Err(RobotError::UnknownPeer));
}

#[test]
fn lone_robot_elects_itself() {
    let mut a = RobotCoordinator::new(10000, 20000);
    let actions = a.start_election();
    assert_eq!(actions.len(), 0);
    assert_eq!(a.robot_to_robot_leader_id, Some(10000));
    assert_eq!(a.robot_to_screen_leader_id, Some(20000));
    assert!(a.is_leader());
}

#[test]
fn follower_closes_screens_on_announcement() {
    let mut a = RobotCoordinator::new(10000, 20000);
    a.register_peer(10002);
    let actions = a.handle_leader_selected(LeaderSelected {
        robot_to_robot_leader_id: 10002,
        robot_to_screen_leader_id: 20002,
    });
    assert_eq!(actions, vec![RobotAction::CloseScreenSessions]);
    assert!(!a.is_leader());
    let answer = a.answer_ask_leader();
    assert_eq!(answer, Some(Response::RobotToScreenLeaderPort { leader_port: 20002 }));
}

#[test]
fn ask_leader_is_silent_without_one() {
    let a = RobotCoordinator::new(10000, 20000);
    assert_eq!(a.answer_ask_leader(), None);
}

#[test]
fn screen_orders_are_forwarded_to_the_shop() {
    let req = Request::ScreenToRobotOrder {
        index: 3,
        flavors: vec!["crema".to_string()],
        size: 500,
    };
    match route_screen_request(req, "127.0.0.1:5000".to_string()) {
        ScreenRequestRouting::ForwardToShop(shop_req) => {
            assert_eq!(
                shop_req,
                ShopRequest::IceCreamOrder {
                    flavors: vec!["crema".to_string()],
                    size: 500,
                    screen_id: 3,
                    screen_address: "127.0.0.1:5000".to_string(),
                },
            );
        },
        ScreenRequestRouting::AskLeader => panic!("an order must go to the shop"),
    }
    match route_screen_request(Request::ScreenToRobotAskLeader {}, "x".to_string()) {
        ScreenRequestRouting::AskLeader => {},
        _ => panic!("a leader question is answered locally"),
    }
}

#[test]
fn shop_results_travel_back_to_their_screen() {
    let resp = ShopResponse::OrderResult {
        screen_id: 3,
        result: Err("Couldn't get all flavors".to_string()),
        screen_address: "127.0.0.1:5000".to_string(),
    };
    let (to_screen, addr) = shop_result_to_screen(resp);
    assert_eq!(
        to_screen,
        Response::RobotToScreenResult {
            index: 3,
            result: Err("Couldn't get all flavors".to_string()),
        },
    );
    assert_eq!(addr, "127.0.0.1:5000");
}

#[test]
fn registry_ignores_itself_and_repeats() {
    let mut a = RobotCoordinator::new(10000, 20000);
    a.register_peer(10000);
    a.register_peer(10001);
    a.register_peer(10001);
    assert_eq!(a.peers, vec![10001]);
}
