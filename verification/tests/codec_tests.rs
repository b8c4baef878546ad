use ice_cream_shop::codec::decode_request;
use ice_cream_shop::codec::decode_response;
use ice_cream_shop::codec::decode_robot_request;
use ice_cream_shop::codec::decode_shop_request;
use ice_cream_shop::codec::decode_shop_response;
use ice_cream_shop::codec::encode_request;
use ice_cream_shop::codec::encode_response;
use ice_cream_shop::codec::encode_robot_request;
use ice_cream_shop::codec::encode_shop_request;
use ice_cream_shop::codec::encode_shop_response;
use ice_cream_shop::wire::Request;
use ice_cream_shop::wire::Response;
use ice_cream_shop::wire::RobotRequest;
use ice_cream_shop::wire::ShopRequest;
use ice_cream_shop::wire::ShopResponse;

#[test]
fn request_round_trips() {
    let original = Request::ScreenToRobotOrder {
        index: 5,
        flavors: vec!["Chocolate".to_string(), "Vanilla".to_string()],
        size: 1000,
    };
    let line = encode_request(&original);
    assert_eq!(
        line,
        "{\"ScreenToRobotOrder\":{\"index\":5,\"flavors\":[\"Chocolate\",\"Vanilla\"],\"size\":1000}}",
    );
    assert_eq!(decode_request(line.as_str()), Some(original));

    let ask = Request::ScreenToRobotAskLeader {};
    let ask_line = encode_request(&ask);
    assert_eq!(ask_line, "{\"ScreenToRobotAskLeader\":{}}");
    assert_eq!(decode_request(ask_line.as_str()), Some(ask));
}

#[test]
fn request_with_empty_flavor_list_round_trips() {
    let original = Request::ScreenToRobotOrder { index: 0, flavors: vec![], size: 0 };
    let line = encode_request(&original);
    assert_eq!(line, "{\"ScreenToRobotOrder\":{\"index\":0,\"flavors\":[],\"size\":0}}");
    assert_eq!(decode_request(line.as_str()), Some(original));
}

#[test]
fn strings_with_escapes_round_trip() {
    let original = ShopResponse::OrderResult {
        screen_id: 2,
        result: Err("a \"quoted\" flavor\\with\nnoise".to_string()),
        screen_address: "127.0.0.1:4000".to_string(),
    };
    let line = encode_shop_response(&original);
    assert_eq!(decode_shop_response(line.as_str()), Some(original));
}

#[test]
fn response_round_trips() {
    let ok = Response::RobotToScreenResult { index: 1, result: Ok(()) };
    let ok_line = encode_response(&ok);
    assert_eq!(ok_line, "{\"RobotToScreenResult\":{\"index\":1,\"result\":{\"Ok\":null}}}");
    assert_eq!(decode_response(ok_line.as_str()), Some(ok));

    let err = Response::RobotToScreenResult {
        index: 2,
        result: Err("Couldn't get all flavors".to_string()),
    };
    let err_line = encode_response(&err);
    assert_eq!(
        err_line,
        "{\"RobotToScreenResult\":{\"index\":2,\"result\":{\"Err\":\"Couldn't get all flavors\"}}}",
    );
    assert_eq!(decode_response(err_line.as_str()), Some(err));

    let port = Response::RobotToScreenLeaderPort { leader_port: 9002 };
    let port_line = encode_response(&port);
    assert_eq!(port_line, "{\"RobotToScreenLeaderPort\":{\"leader_port\":9002}}");
    assert_eq!(decode_response(port_line.as_str()), Some(port));
}

#[test]
fn robot_request_round_trips() {
    let info = RobotRequest::GetMyInformation { robot_to_robot_id: 10001 };
    let info_line = encode_robot_request(&info);
    assert_eq!(info_line, "{\"GetMyInformation\":{\"robot_to_robot_id\":10001}}");
    assert_eq!(decode_robot_request(info_line.as_str()), Some(info));

    let start = RobotRequest::StartElection {};
    let start_line = encode_robot_request(&start);
    assert_eq!(start_line, "{\"StartElection\":{}}");
    assert_eq!(decode_robot_request(start_line.as_str()), Some(start));

    let chosen = RobotRequest::LeaderSelected {
        robot_to_robot_leader_id: 10002,
        robot_to_screen_leader_id: 20002,
    };
    let chosen_line = encode_robot_request(&chosen);
    assert_eq!(
        chosen_line,
        "{\"LeaderSelected\":{\"robot_to_robot_leader_id\":10002,\"robot_to_screen_leader_id\":20002}}",
    );
    assert_eq!(decode_robot_request(chosen_line.as_str()), Some(chosen));
}

#[test]
fn shop_request_round_trips() {
    let original = ShopRequest::IceCreamOrder {
        flavors: vec!["vainilla".to_string(), "chocolate".to_string()],
        size: 4,
        screen_id: 1,
        screen_address: "127.0.0.1:4000".to_string(),
    };
    let line = encode_shop_request(&original);
    assert_eq!(
        line,
        "{\"IceCreamOrder\":{\"flavors\":[\"vainilla\",\"chocolate\"],\"size\":4,\"screen_id\":1,\"screen_address\":\"127.0.0.1:4000\"}}",
    );
    assert_eq!(decode_shop_request(line.as_str()), Some(original));
}

#[test]
fn shop_response_round_trips() {
    let original = ShopResponse::OrderResult {
        screen_id: 1,
        result: Ok(()),
        screen_address: "127.0.0.1:4000".to_string(),
    };
    let line = encode_shop_response(&original);
    assert_eq!(
        line,
        "{\"OrderResult\":{\"screen_id\":1,\"result\":{\"Ok\":null},\"screen_address\":\"127.0.0.1:4000\"}}",
    );
    assert_eq!(decode_shop_response(line.as_str()), Some(original));
}

#[test]
fn malformed_lines_are_dropped() {
    assert_eq!(decode_request(""), None);
    assert_eq!(decode_request("not json"), None);
    assert_eq!(decode_request("{\"SomethingElse\":{}}"), None);
    assert_eq!(decode_request("{\"ScreenToRobotOrder\":{\"index\":5}}"), None);
    assert_eq!(
        decode_request("{\"ScreenToRobotOrder\":{\"index\":5,\"flavors\":[],\"size\":1}} trailing"),
        None,
    );
    assert_eq!(decode_shop_response("{\"OrderResult\":{\"screen_id\":}}"), None);
    assert_eq!(decode_robot_request("{\"StartElection\":{}"), None);
}

#[test]
fn oversized_numbers_are_dropped() {
    assert_eq!(
        decode_response("{\"RobotToScreenLeaderPort\":{\"leader_port\":99999999999999999999999}}"),
        None,
    );
}
