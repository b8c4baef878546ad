//! The robot dispatcher: peer registry, bully-style leader election and the
//! forwarding decisions between screens and the shop.
//!
//! Every robot listens for other robots on its `robot_to_robot_id` port and
//! for screens on its `robot_to_screen_id` port; the first doubles as the
//! election priority.  An election forwards `StartElection` to the highest
//! known higher peer, and a robot with no higher peer declares itself and
//! broadcasts `LeaderSelected`.  Each forward strictly raises the recipient's
//! identifier, so among `n` robots an election settles within `n` steps:
//! `lemma_election_forwards_bounded` below.  A peer's view holds at most one
//! leader at a time: one optional identifier per direction, and every
//! transition writes both at once.
//!
//! The coordinator decides; it performs no I/O.  Each handler returns the
//! actions the caller must carry out on its sockets.

use vstd::prelude::*;

use crate::wire::Request;
use crate::wire::Response;
use crate::wire::ShopRequest;
use crate::wire::ShopResponse;

verus! {

/// Starts a leader election among the robots.
#[derive(Debug, PartialEq, Eq, Structural)]
pub struct StartLeaderElection {}

/// Announces the elected pair: the leader's robot-facing and screen-facing
/// ports.
#[derive(Debug, PartialEq, Eq, Structural)]
pub struct LeaderSelected {
    pub robot_to_robot_leader_id: usize,
    pub robot_to_screen_leader_id: usize,
}

/// Reports that a peer's connection closed.
#[derive(Debug, PartialEq, Eq, Structural)]
pub struct ElectionForDeadRobot {
    pub closed_server_id: usize,
}

/// Asks a peer session to send `StartElection` over its socket.
#[derive(Debug, PartialEq, Eq, Structural)]
pub struct SendStartElections {}

/// Asks a peer session to send `LeaderSelected` over its socket.
#[derive(Debug, PartialEq, Eq, Structural)]
pub struct SendLeaderSelected {
    pub robot_to_robot_id: usize,
    pub robot_to_screen_id: usize,
}

/// A line to write to a peer robot's socket.
#[derive(Debug, PartialEq, Eq)]
pub struct SendMessageThroughSocketToRobot {
    pub message_to_send_through_socket: String,
}

/// A line to write to a screen's socket.
#[derive(Debug, PartialEq, Eq)]
pub struct SendMessageThroughSocketToScreen {
    pub message_to_send_through_socket: String,
}

/// A line to write to the shop's socket.
#[derive(Debug, PartialEq, Eq)]
pub struct SendMessageThroughSocketToIceCreamShop {
    pub message_to_send_through_socket: String,
}

/// An order result to pass back to the screen that placed the order.
#[derive(Debug, PartialEq, Eq)]
pub struct SuccessForScreenMessage {
    pub message_to_send_through_socket: String,
}

/// Asks a screen session to close.
#[derive(Debug, PartialEq, Eq, Structural)]
pub struct CloseConnectionFromScreen;

/// A finished order arriving from the shop, still as its wire line.
#[derive(Debug, PartialEq, Eq)]
pub struct SolvedOrderFromIceCreamShop {
    pub message: String,
}

/// An order arriving from a screen, still as its wire line.
#[derive(Debug, PartialEq, Eq)]
pub struct ReceivedOrderFromScreen {
    pub message: String,
}

/// A processed order result, addressed to one screen session.
#[derive(Debug, PartialEq, Eq)]
pub struct SuccessInProcessingOrder {
    pub message: String,
    pub screen_address: String,
}

/// An order to forward to the shop.
#[derive(Debug, PartialEq, Eq)]
pub struct RequestIceCreamFlavor {
    pub message: String,
}

/// Establishes the robot-to-robot listener and the outbound peer sweep; the
/// sockets live outside the library.
#[derive(Debug, PartialEq, Eq, Structural)]
pub struct RobotToRobotConnector {}

/// Establishes the screen-facing listener; the sockets live outside the
/// library.
#[derive(Debug, PartialEq, Eq, Structural)]
pub struct RobotToScreenConnector {}

/// Establishes the connection to the shop; the socket lives outside the
/// library.
#[derive(Debug, PartialEq, Eq, Structural)]
pub struct IceCreamShopConnector {}

/// Reads operator commands from the terminal; the reading lives outside the
/// library.
#[derive(Debug, PartialEq, Eq, Structural)]
pub struct UserInput {}

/// One thing the caller must now do on its sockets.
#[derive(Debug, PartialEq, Eq, Structural)]
pub enum RobotAction {
    /// Send `StartElection` to this peer.
    SendStartElection { to: usize },
    /// Send `LeaderSelected` with the elected pair to this peer.
    SendLeaderSelected { to: usize, robot_to_robot_leader_id: usize, robot_to_screen_leader_id: usize },
    /// Close every open screen session, so screens rediscover the leader.
    CloseScreenSessions,
}

/// The error of reporting a peer the registry does not hold.
#[derive(Debug, Clone, Copy, PartialEq, Eq, Structural)]
pub enum RobotError {
    UnknownPeer,
}

/// One robot's view of the cluster: its own two ports, the live peers, and
/// the leader pair it currently believes in — at most one at any time.
#[derive(Debug)]
pub struct RobotCoordinator {
    /// The port this robot listens on for other robots; its election priority.
    pub robot_to_robot_id: usize,
    /// The port this robot listens on for screens.
    pub robot_to_screen_id: usize,
    /// The identifiers of the live peers, in registration order.
    pub peers: Vec<usize>,
    /// The robot-facing port of the believed leader, if any.
    pub robot_to_robot_leader_id: Option<usize>,
    /// The screen-facing port of the believed leader, if any.
    pub robot_to_screen_leader_id: Option<usize>,
}

/// Whether all peer identifiers differ.
pub open spec fn unique_peers(s: Seq<usize>) -> bool {
    forall|i: int, j: int| 0 <= i < j < s.len() ==> s[i] != s[j]
}

impl RobotCoordinator {
    /// Peers are distinct and this robot is not its own peer.
    pub open spec fn wf(&self) -> bool {
        &&& unique_peers(self.peers@)
        &&& forall|i: int|
            0 <= i < self.peers@.len() ==> (#[trigger] self.peers@[i])
                != self.robot_to_robot_id
    }

    /// A coordinator that knows no peer and no leader yet.
    pub fn new(robot_to_robot_id: usize, robot_to_screen_id: usize) -> (r: RobotCoordinator)
        ensures
            r.wf(),
            r.robot_to_robot_id == robot_to_robot_id,
            r.robot_to_screen_id == robot_to_screen_id,
            r.peers@.len() == 0,
            r.robot_to_robot_leader_id is None,
            r.robot_to_screen_leader_id is None,
    {
        RobotCoordinator {
            robot_to_robot_id,
            robot_to_screen_id,
            peers: Vec::new(),
            robot_to_robot_leader_id: None,
            robot_to_screen_leader_id: None,
        }
    }

    /// Registers a peer learned from a handshake.  A known identifier, or
    /// this robot's own, changes nothing.
    pub fn register_peer(&mut self, id: usize)
        requires
            old(self).wf(),
        ensures
            final(self).wf(),
            final(self).robot_to_robot_id == old(self).robot_to_robot_id,
            final(self).robot_to_screen_id == old(self).robot_to_screen_id,
            final(self).robot_to_robot_leader_id == old(self).robot_to_robot_leader_id,
            final(self).robot_to_screen_leader_id == old(self).robot_to_screen_leader_id,
            if old(self).peers@.contains(id) || id == old(self).robot_to_robot_id {
                final(self).peers@ == old(self).peers@
            } else {
                final(self).peers@ == old(self).peers@.push(id)
            },
    {
        if id == self.robot_to_robot_id {
            return ;
        }
        if self.knows_peer(id) {
            return ;
        }
        self.peers.push(id);
        proof {
            assert forall|x: int, y: int|
                0 <= x < y < self.peers@.len() implies self.peers@[x] != self.peers@[y] by {
                assert(self.peers@[x] == old(self).peers@[x]);
                if y < self.peers@.len() - 1 {
                    assert(self.peers@[y] == old(self).peers@[y]);
                }
            }
        }
    }

    /// Whether the registry holds this identifier.
    fn knows_peer(&self, id: usize) -> (r: bool)
        ensures
            r == self.peers@.contains(id),
    {
        let n = self.peers.len();
        let mut i: usize = 0;
        while i < n
            invariant
                i <= n,
                n == self.peers@.len(),
                forall|j: int| 0 <= j < i ==> self.peers@[j] != id,
            decreases n - i,
        {
            if self.peers[i] == id {
                proof {
                    assert(self.peers@.contains(id));
                }
                return true;
            }
            i = i + 1;
        }
        proof {
            assert(!self.peers@.contains(id)) by {
                if self.peers@.contains(id) {
                    let j = choose|j: int| 0 <= j < self.peers@.len() && self.peers@[j] == id;
                    assert(self.peers@[j] != id);
                }
            }
        }
        false
    }

    /// The largest known peer identifier.
    fn max_peer(&self) -> (r: Option<usize>)
        ensures
            match r {
                Some(m) => self.peers@.contains(m) && forall|j: int|
                    0 <= j < self.peers@.len() ==> (#[trigger] self.peers@[j]) <= m,
                None => self.peers@.len() == 0,
            },
    {
        let n = self.peers.len();
        if n == 0 {
            return None;
        }
        let mut best = self.peers[0];
        let mut i: usize = 1;
        while i < n
            invariant
                1 <= i <= n,
                n == self.peers@.len(),
                self.peers@.contains(best),
                forall|j: int| 0 <= j < i ==> (#[trigger] self.peers@[j]) <= best,
            decreases n - i,
        {
            if self.peers[i] > best {
                best = self.peers[i];
                proof {
                    assert(self.peers@.contains(best));
                }
            }
            i = i + 1;
        }
        Some(best)
    }

    /// Whether this robot currently believes it is the leader.
    pub fn is_leader(&self) -> (r: bool)
        ensures
            r == (self.robot_to_robot_leader_id == Some(self.robot_to_robot_id)),
    {
        match self.robot_to_robot_leader_id {
            Some(l) => l == self.robot_to_robot_id,
            None => false,
        }
    }

    /// Runs one election step.  With a higher peer known, `StartElection`
    /// goes to the highest one and this robot stays a follower; with none, it
    /// declares itself: both leader identifiers become its own ports and
    /// `LeaderSelected` goes to every peer.
    pub fn start_election(&mut self) -> (actions: Vec<RobotAction>)
        requires
            old(self).wf(),
        ensures
            final(self).wf(),
            final(self).robot_to_robot_id == old(self).robot_to_robot_id,
            final(self).robot_to_screen_id == old(self).robot_to_screen_id,
            final(self).peers@ == old(self).peers@,
            sp_election_outcome(old(self), final(self), actions@),
    {
        let me = self.robot_to_robot_id;
        match self.max_peer() {
            Some(m) if m > me => {
                let mut actions: Vec<RobotAction> = Vec::new();
                actions.push(RobotAction::SendStartElection { to: m });
                actions
            },
            _ => {
                self.robot_to_robot_leader_id = Some(self.robot_to_robot_id);
                self.robot_to_screen_leader_id = Some(self.robot_to_screen_id);
                let mut actions: Vec<RobotAction> = Vec::new();
                let n = self.peers.len();
                let mut k: usize = 0;
                while k < n
                    invariant
                        k <= n,
                        n == self.peers@.len(),
                        actions@.len() == k,
                        forall|j: int|
                            0 <= j < k ==> (#[trigger] actions@[j])
                                == (RobotAction::SendLeaderSelected {
                                to: self.peers@[j],
                                robot_to_robot_leader_id: self.robot_to_robot_id,
                                robot_to_screen_leader_id: self.robot_to_screen_id,
                            }),
                        self.robot_to_robot_id == old(self).robot_to_robot_id,
                        self.robot_to_screen_id == old(self).robot_to_screen_id,
                        self.peers@ == old(self).peers@,
                    decreases n - k,
                {
                    actions.push(
                        RobotAction::SendLeaderSelected {
                            to: self.peers[k],
                            robot_to_robot_leader_id: self.robot_to_robot_id,
                            robot_to_screen_leader_id: self.robot_to_screen_id,
                        },
                    );
                    k = k + 1;
                }
                actions
            },
        }
    }

    /// Records the announced leader pair and has every screen session closed,
    /// so screens reconnect and rediscover the leader.
    pub fn handle_leader_selected(&mut self, msg: LeaderSelected) -> (actions: Vec<RobotAction>)
        requires
            old(self).wf(),
        ensures
            final(self).wf(),
            final(self).robot_to_robot_id == old(self).robot_to_robot_id,
            final(self).robot_to_screen_id == old(self).robot_to_screen_id,
            final(self).peers@ == old(self).peers@,
            final(self).robot_to_robot_leader_id == Some(msg.robot_to_robot_leader_id),
            final(self).robot_to_screen_leader_id == Some(msg.robot_to_screen_leader_id),
            actions@ == seq![RobotAction::CloseScreenSessions],
    {
        self.robot_to_robot_leader_id = Some(msg.robot_to_robot_leader_id);
        self.robot_to_screen_leader_id = Some(msg.robot_to_screen_leader_id);
        let mut actions: Vec<RobotAction> = Vec::new();
        actions.push(RobotAction::CloseScreenSessions);
        proof {
            assert(actions@ =~= seq![RobotAction::CloseScreenSessions]);
        }
        actions
    }

    /// Takes a peer's death.  An unknown identifier is refused.  A known one
    /// leaves the registry; when it was the believed leader, the belief is
    /// cleared and an election step runs: forward to the highest higher peer,
    /// or self-elect with none left.
    pub fn handle_dead_robot(&mut self, msg: ElectionForDeadRobot) -> (r: Result<
        Vec<RobotAction>,
        RobotError,
    >)
        requires
            old(self).wf(),
        ensures
            final(self).wf(),
            final(self).robot_to_robot_id == old(self).robot_to_robot_id,
            final(self).robot_to_screen_id == old(self).robot_to_screen_id,
            !old(self).peers@.contains(msg.closed_server_id) ==> {
                &&& r == Err::<Vec<RobotAction>, RobotError>(RobotError::UnknownPeer)
                &&& final(self).peers@ == old(self).peers@
                &&& final(self).robot_to_robot_leader_id == old(self).robot_to_robot_leader_id
                &&& final(self).robot_to_screen_leader_id == old(self).robot_to_screen_leader_id
            },
            old(self).peers@.contains(msg.closed_server_id) ==> {
                &&& !final(self).peers@.contains(msg.closed_server_id)
                &&& final(self).peers@.len() == old(self).peers@.len() - 1
                &&& forall|p: usize|
                    p != msg.closed_server_id ==> (final(self).peers@.contains(p) == old(
                        self,
                    ).peers@.contains(p))
                &&& match r {
                    Err(_) => false,
                    Ok(actions) => {
                        if old(self).robot_to_robot_leader_id == Some(msg.closed_server_id) {
                            sp_election_outcome(
                                &(RobotCoordinator {
                                    robot_to_robot_leader_id: None,
                                    robot_to_screen_leader_id: None,
                                    peers: final(self).peers,
                                    ..*old(self)
                                }),
                                final(self),
                                actions@,
                            )
                        } else {
                            &&& final(self).robot_to_robot_leader_id == old(
                                self,
                            ).robot_to_robot_leader_id
                            &&& final(self).robot_to_screen_leader_id == old(
                                self,
                            ).robot_to_screen_leader_id
                            &&& actions@.len() == 0
                        }
                    },
                }
            },
    {
        let idx = match self.find_peer(msg.closed_server_id) {
            None => {
                return Err(RobotError::UnknownPeer);
            },
            Some(i) => i,
        };
        self.peers.remove(idx);
        proof {
            lemma_remove_peer(old(self).peers@, idx as int);
            assert forall|p: usize|
                p != msg.closed_server_id implies (self.peers@.contains(p) == old(
                self,
            ).peers@.contains(p)) by {
                lemma_remove_contains(old(self).peers@, idx as int, p);
            }
        }
        let was_leader = match self.robot_to_robot_leader_id {
            Some(l) => l == msg.closed_server_id,
            None => false,
        };
        if was_leader {
            self.robot_to_robot_leader_id = None;
            self.robot_to_screen_leader_id = None;
            let actions = self.start_election();
            Ok(actions)
        } else {
            Ok(Vec::new())
        }
    }

    /// The position of a peer identifier in the registry.
    fn find_peer(&self, id: usize) -> (r: Option<usize>)
        ensures
            match r {
                Some(i) => i < self.peers@.len() && self.peers@[i as int] == id,
                None => !self.peers@.contains(id),
            },
    {
        let n = self.peers.len();
        let mut i: usize = 0;
        while i < n
            invariant
                i <= n,
                n == self.peers@.len(),
                forall|j: int| 0 <= j < i ==> self.peers@[j] != id,
            decreases n - i,
        {
            if self.peers[i] == id {
                return Some(i);
            }
            i = i + 1;
        }
        proof {
            if self.peers@.contains(id) {
                let j = choose|j: int| 0 <= j < self.peers@.len() && self.peers@[j] == id;
                assert(self.peers@[j] != id);
            }
        }
        None
    }

    /// The answer a screen's `AskLeader` gets: the leader's screen port when
    /// one is believed in, silence otherwise.
    pub fn answer_ask_leader(&self) -> (r: Option<Response>)
        ensures
            match self.robot_to_screen_leader_id {
                Some(port) => match r {
                    Some(resp) => resp@ == (crate::wire::ResponseV::LeaderPort {
                        leader_port: port as nat,
                    }),
                    None => false,
                },
                None => r is None,
            },
    {
        match self.robot_to_screen_leader_id {
            Some(port) => Some(Response::RobotToScreenLeaderPort { leader_port: port }),
            None => None,
        }
    }
}

/// What one election step does: either exactly one `StartElection` to the
/// highest peer, which is higher than this robot, with the leader belief
/// unchanged; or, with no higher peer, a self-election announced to every
/// peer.
pub open spec fn sp_election_outcome(
    before: &RobotCoordinator,
    after: &RobotCoordinator,
    actions: Seq<RobotAction>,
) -> bool {
    if exists|j: int| 0 <= j < before.peers@.len() && before.peers@[j] > before.robot_to_robot_id {
        &&& after.robot_to_robot_leader_id == before.robot_to_robot_leader_id
        &&& after.robot_to_screen_leader_id == before.robot_to_screen_leader_id
        &&& actions.len() == 1
        &&& match actions[0] {
            RobotAction::SendStartElection { to } => {
                &&& to > before.robot_to_robot_id
                &&& before.peers@.contains(to)
                &&& forall|j: int|
                    0 <= j < before.peers@.len() ==> (#[trigger] before.peers@[j]) <= to
            },
            _ => false,
        }
    } else {
        &&& after.robot_to_robot_leader_id == Some(before.robot_to_robot_id)
        &&& after.robot_to_screen_leader_id == Some(before.robot_to_screen_id)
        &&& actions.len() == before.peers@.len()
        &&& forall|k: int|
            0 <= k < actions.len() ==> (#[trigger] actions[k])
                == (RobotAction::SendLeaderSelected {
                to: before.peers@[k],
                robot_to_robot_leader_id: before.robot_to_robot_id,
                robot_to_screen_leader_id: before.robot_to_screen_id,
            })
    }
}

/// Routing of one screen request: an order becomes the shop request, carrying
/// the session's address so the result finds its way back; an `AskLeader` is
/// answered locally.
pub enum ScreenRequestRouting {
    ForwardToShop(ShopRequest),
    AskLeader,
}

/// Decides what to do with a request a screen sent.
pub fn route_screen_request(req: Request, session_addr: String) -> (r: ScreenRequestRouting)
    ensures
        match req@ {
            crate::wire::RequestV::Order { index, flavors, size } => match r {
                ScreenRequestRouting::ForwardToShop(shop_req) => shop_req@
                    == (crate::wire::ShopRequestV::IceCreamOrder {
                    flavors: flavors,
                    size: size,
                    screen_id: index,
                    screen_address: session_addr@,
                }),
                _ => false,
            },
            crate::wire::RequestV::AskLeader => r is AskLeader,
        },
{
    match req {
        Request::ScreenToRobotOrder { index, flavors, size } => ScreenRequestRouting::ForwardToShop(
            ShopRequest::IceCreamOrder {
                flavors,
                size,
                screen_id: index,
                screen_address: session_addr,
            },
        ),
        Request::ScreenToRobotAskLeader {} => ScreenRequestRouting::AskLeader,
    }
}

/// Turns the shop's order result into the screen-facing response and the
/// session address it is owed to.  Only the leader forwards it, and only
/// while that session is open; everyone else drops it silently.
pub fn shop_result_to_screen(resp: ShopResponse) -> (r: (Response, String))
    ensures
        match resp@ {
            crate::wire::ShopResponseV::OrderResult { screen_id, result, screen_address } => {
                &&& r.0@ == (crate::wire::ResponseV::Result {
                    index: screen_id,
                    result: result,
                })
                &&& r.1@ == screen_address
            },
        },
{
    match resp {
        ShopResponse::OrderResult { screen_id, result, screen_address } => (
            Response::RobotToScreenResult { index: screen_id, result },
            screen_address,
        ),
    }
}

/// Removing one peer keeps the rest unique.
proof fn lemma_remove_peer(s: Seq<usize>, i: int)
    requires
        unique_peers(s),
        0 <= i < s.len(),
    ensures
        unique_peers(s.remove(i)),
        !s.remove(i).contains(s[i]),
    decreases s.len(),
{
    let t = s.remove(i);
    assert forall|x: int, y: int| 0 <= x < y < t.len() implies t[x] != t[y] by {
        let x0 = if x < i {
            x
        } else {
            x + 1
        };
        let y0 = if y < i {
            y
        } else {
            y + 1
        };
        assert(t[x] == s[x0]);
        assert(t[y] == s[y0]);
    }
    if t.contains(s[i]) {
        let j = choose|j: int| 0 <= j < t.len() && t[j] == s[i];
        let j0 = if j < i {
            j
        } else {
            j + 1
        };
        assert(t[j] == s[j0]);
    }
}

/// Removing one peer keeps every other membership question as it was.
proof fn lemma_remove_contains(s: Seq<usize>, i: int, p: usize)
    requires
        0 <= i < s.len(),
        p != s[i],
    ensures
        s.remove(i).contains(p) == s.contains(p),
{
    let t = s.remove(i);
    if t.contains(p) {
        let j = choose|j: int| 0 <= j < t.len() && t[j] == p;
        let j0 = if j < i {
            j
        } else {
            j + 1
        };
        assert(t[j] == s[j0]);
        assert(s.contains(p));
    }
    if s.contains(p) {
        let j = choose|j: int| 0 <= j < s.len() && s[j] == p;
        let j1 = if j < i {
            j
        } else {
            j - 1
        };
        assert(t[j1] == s[j]);
        assert(t.contains(p));
    }
}

/// Every strictly increasing run of identifiers drawn from a finite set is no
/// longer than the set: an election that always forwards to a higher peer
/// settles within as many steps as there are robots.
pub proof fn lemma_election_forwards_bounded(ids: Seq<int>, universe: Set<int>)
    requires
        universe.finite(),
        forall|k: int| 0 <= k < ids.len() ==> universe.contains(#[trigger] ids[k]),
        forall|k: int| 0 <= k < ids.len() - 1 ==> #[trigger] ids[k] < ids[k + 1],
    ensures
        ids.len() <= universe.len(),
    decreases ids.len(),
{
    if ids.len() > 0 {
        let rest = ids.drop_first();
        let smaller = universe.remove(ids[0]);
        assert forall|k: int| 0 <= k < rest.len() implies smaller.contains(#[trigger] rest[k]) by {
            assert(rest[k] == ids[k + 1]);
            lemma_increasing_run(ids, 0, k + 1);
        }
        assert forall|k: int| 0 <= k < rest.len() - 1 implies #[trigger] rest[k] < rest[k + 1] by {
            assert(rest[k] == ids[k + 1]);
            assert(rest[k + 1] == ids[k + 2]);
        }
        lemma_election_forwards_bounded(rest, smaller);
        assert(universe.contains(ids[0]));
        assert(smaller.len() == universe.len() - 1);
    }
}

/// In a strictly increasing run, every later element tops every earlier one.
proof fn lemma_increasing_run(ids: Seq<int>, a: int, b: int)
    requires
        forall|k: int| 0 <= k < ids.len() - 1 ==> #[trigger] ids[k] < ids[k + 1],
        0 <= a < b < ids.len(),
    ensures
        ids[a] < ids[b],
    decreases b - a,
{
    if a + 1 == b {
        assert(ids[a] < ids[a + 1]);
    } else {
        lemma_increasing_run(ids, a, b - 1);
        assert(ids[b - 1] < ids[b]);
    }
}

} // verus!
