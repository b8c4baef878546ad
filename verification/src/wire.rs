//! The messages the three process types exchange, together with their
//! mathematical models.
//!
//! Every TCP message of the system is one of the enums below, written on the
//! wire as a single externally-tagged JSON value followed by a newline.  The
//! codec module renders and parses that form; here stand the values
//! themselves and the spec-level views the contracts speak of.

use vstd::prelude::*;

verus! {

/// Requests a screen sends to a robot.
#[derive(Debug, PartialEq, Eq)]
pub enum Request {
    ScreenToRobotOrder { index: usize, flavors: Vec<String>, size: u32 },
    ScreenToRobotAskLeader {},
}

/// Responses a robot sends back to a screen.
#[derive(Debug, PartialEq, Eq)]
pub enum Response {
    RobotToScreenResult { index: usize, result: Result<(), String> },
    RobotToScreenLeaderPort { leader_port: usize },
}

/// Requests the robots exchange among themselves: the handshake and the two
/// election messages.
#[derive(Debug, PartialEq, Eq)]
pub enum RobotRequest {
    GetMyInformation { robot_to_robot_id: usize },
    StartElection {},
    LeaderSelected { robot_to_robot_leader_id: usize, robot_to_screen_leader_id: usize },
}

/// Responses in the robot-to-robot direction.  The same shapes as the
/// robot-to-screen responses, kept as a type of its own as each direction of
/// the protocol names its own message set.
#[derive(Debug, PartialEq, Eq)]
pub enum RobotResponse {
    RobotToScreenResult { index: usize, result: Result<(), String> },
    RobotToScreenLeaderPort { leader_port: usize },
}

/// The one request a robot forwards to the shop.
#[derive(Debug, PartialEq, Eq)]
pub enum ShopRequest {
    IceCreamOrder { flavors: Vec<String>, size: u32, screen_id: usize, screen_address: String },
}

/// The one response the shop returns to a robot.
#[derive(Debug, PartialEq, Eq)]
pub enum ShopResponse {
    OrderResult { screen_id: usize, result: Result<(), String>, screen_address: String },
}

/// Model of an `Ok`-or-message outcome carried inside a response.
pub enum ResultV {
    Okay,
    Failed(Seq<char>),
}

/// Model of a `Request`: every field a mathematical value.
pub enum RequestV {
    Order { index: nat, flavors: Seq<Seq<char>>, size: nat },
    AskLeader,
}

/// Model of a `Response` and of a `RobotResponse`.
pub enum ResponseV {
    Result { index: nat, result: ResultV },
    LeaderPort { leader_port: nat },
}

/// Model of a `RobotRequest`.
pub enum RobotRequestV {
    GetMyInformation { robot_to_robot_id: nat },
    StartElection,
    LeaderSelected { robot_to_robot_leader_id: nat, robot_to_screen_leader_id: nat },
}

/// Model of a `ShopRequest`.
pub enum ShopRequestV {
    IceCreamOrder { flavors: Seq<Seq<char>>, size: nat, screen_id: nat, screen_address: Seq<char> },
}

/// Model of a `ShopResponse`.
pub enum ShopResponseV {
    OrderResult { screen_id: nat, result: ResultV, screen_address: Seq<char> },
}

/// The view of a list of strings: the sequence of their character sequences.
pub open spec fn strings_view(v: Seq<String>) -> Seq<Seq<char>> {
    v.map_values(|s: String| s@)
}

/// The view of an `Ok`-or-message result.
pub open spec fn result_view(r: Result<(), String>) -> ResultV {
    match r {
        Ok(_) => ResultV::Okay,
        Err(e) => ResultV::Failed(e@),
    }
}

impl View for Request {
    type V = RequestV;

    open spec fn view(&self) -> RequestV {
        match self {
            Request::ScreenToRobotOrder { index, flavors, size } => RequestV::Order {
                index: *index as nat,
                flavors: strings_view(flavors@),
                size: *size as nat,
            },
            Request::ScreenToRobotAskLeader {} => RequestV::AskLeader,
        }
    }
}

impl View for Response {
    type V = ResponseV;

    open spec fn view(&self) -> ResponseV {
        match self {
            Response::RobotToScreenResult { index, result } => ResponseV::Result {
                index: *index as nat,
                result: result_view(*result),
            },
            Response::RobotToScreenLeaderPort { leader_port } => ResponseV::LeaderPort {
                leader_port: *leader_port as nat,
            },
        }
    }
}

impl View for RobotRequest {
    type V = RobotRequestV;

    open spec fn view(&self) -> RobotRequestV {
        match self {
            RobotRequest::GetMyInformation { robot_to_robot_id } =>
                RobotRequestV::GetMyInformation { robot_to_robot_id: *robot_to_robot_id as nat },
            RobotRequest::StartElection {} => RobotRequestV::StartElection,
            RobotRequest::LeaderSelected { robot_to_robot_leader_id, robot_to_screen_leader_id } =>
                RobotRequestV::LeaderSelected {
                    robot_to_robot_leader_id: *robot_to_robot_leader_id as nat,
                    robot_to_screen_leader_id: *robot_to_screen_leader_id as nat,
                },
        }
    }
}

impl View for RobotResponse {
    type V = ResponseV;

    open spec fn view(&self) -> ResponseV {
        match self {
            RobotResponse::RobotToScreenResult { index, result } => ResponseV::Result {
                index: *index as nat,
                result: result_view(*result),
            },
            RobotResponse::RobotToScreenLeaderPort { leader_port } => ResponseV::LeaderPort {
                leader_port: *leader_port as nat,
            },
        }
    }
}

impl View for ShopRequest {
    type V = ShopRequestV;

    open spec fn view(&self) -> ShopRequestV {
        match self {
            ShopRequest::IceCreamOrder { flavors, size, screen_id, screen_address } =>
                ShopRequestV::IceCreamOrder {
                    flavors: strings_view(flavors@),
                    size: *size as nat,
                    screen_id: *screen_id as nat,
                    screen_address: screen_address@,
                },
        }
    }
}

impl View for ShopResponse {
    type V = ShopResponseV;

    open spec fn view(&self) -> ShopResponseV {
        match self {
            ShopResponse::OrderResult { screen_id, result, screen_address } =>
                ShopResponseV::OrderResult {
                    screen_id: *screen_id as nat,
                    result: result_view(*result),
                    screen_address: screen_address@,
                },
        }
    }
}

} // verus!
