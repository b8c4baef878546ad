//! The screen: the point-of-sale order driver.
//!
//! A screen reads its orders from a CSV file, then works through them
//! strictly one at a time: validate the size token, attempt the payment
//! capture, send the order to the robot leader, and on the returned result
//! mark the order `Completed` or `Failed` and move to the next.  Order states
//! only ever move forward — `Pending` to `Completed` or to `Failed`, never
//! back: `lemma_order_state_monotone` below.
//!
//! The manager here decides; reading files, sockets and timers live outside
//! the library and carry plain values in and out.

use vstd::prelude::*;

use crate::draws::random_u32;
use crate::text::split_order_seps;
use crate::text::split_spec;
use crate::text::str_eq;
use crate::text::strings_view;
use crate::text::trim_exec;
use crate::text::trim_spec;
use crate::wire::Request;
use crate::wire::Response;

verus! {

/// Payment captures accepted out of every ten thousand attempts.
pub const PAYMENT_ACCEPTANCE_PERMYRIAD: u32 = 9500;

/// First port of the robot sweep.
pub const INITIAL_PORT: usize = 9000;

/// Last port of the robot sweep.
pub const MAX_PORT: usize = 9009;

/// Milliseconds a screen waits after losing its session, so a new leader can
/// be elected before the re-sweep.
pub const LEADER_ELECTION_TIME: u64 = 20000;

/// The states of a working order.
#[derive(Clone, Copy, Debug, PartialEq, Eq, Structural)]
pub enum OrderState {
    Pending,
    Completed,
    Failed,
}

/// Marking an order leaves a terminal state alone: only a pending order can
/// complete or fail.
pub open spec fn sp_mark(s: OrderState, success: bool) -> OrderState {
    match s {
        OrderState::Pending => if success {
            OrderState::Completed
        } else {
            OrderState::Failed
        },
        _ => s,
    }
}

/// Order states move forward only: a terminal state never changes, and no
/// marking creates a pending order.  `Pending` goes to `Completed` or
/// `Failed`; there is no way back.
pub proof fn lemma_order_state_monotone(s: OrderState, success: bool)
    ensures
        s is Completed ==> sp_mark(s, success) is Completed,
        s is Failed ==> sp_mark(s, success) is Failed,
        sp_mark(s, success) is Pending ==> s is Pending,
        s is Pending && success ==> sp_mark(s, success) is Completed,
        s is Pending && !success ==> sp_mark(s, success) is Failed,
{
}

/// The grams a size token stands for; an unknown token gives zero, which
/// makes the order invalid.
pub open spec fn grams_of(size: Seq<char>) -> u32 {
    if size == "KILO"@ {
        1000u32
    } else if size == "MEDIO"@ {
        500u32
    } else if size == "CUARTO"@ {
        250u32
    } else {
        0u32
    }
}

/// One order of the screen: the request it will send, and where it stands.
#[derive(Debug)]
pub struct ScreenWorkingOrder {
    /// The order as it goes on the wire.
    pub order: Request,
    /// Where the order stands.
    pub state: OrderState,
}

impl ScreenWorkingOrder {
    /// A pending order for the given index, size token and flavors.  `KILO`,
    /// `MEDIO` and `CUARTO` weigh 1000, 500 and 250 grams; any other token
    /// weighs zero and the order is invalid.
    pub fn new(index: usize, size: String, flavours: Vec<String>) -> (r: ScreenWorkingOrder)
        ensures
            r.state is Pending,
            match r.order {
                Request::ScreenToRobotOrder { index: i, flavors, size: g } => {
                    &&& i == index
                    &&& strings_view(flavors@) == strings_view(flavours@)
                    &&& g == grams_of(size@)
                },
                Request::ScreenToRobotAskLeader {} => false,
            },
    {
        let grams: u32 = if str_eq(size.as_str(), "KILO") {
            1000
        } else if str_eq(size.as_str(), "MEDIO") {
            500
        } else if str_eq(size.as_str(), "CUARTO") {
            250
        } else {
            0
        };
        ScreenWorkingOrder {
            order: Request::ScreenToRobotOrder { index, flavors: flavours, size: grams },
            state: OrderState::Pending,
        }
    }

    /// The order as it goes on the wire, ready to send to the robot leader.
    pub fn get_serialized_order_information(&self) -> (r: String)
        ensures
            r@ == crate::codec::enc_request(self.order@),
    {
        crate::codec::encode_request(&self.order)
    }

    /// Marks the order completed; a terminal state stays.
    pub fn succesfull_order(&mut self)
        ensures
            final(self).order == old(self).order,
            final(self).state == sp_mark(old(self).state, true),
    {
        if let OrderState::Pending = self.state {
            self.state = OrderState::Completed;
        }
    }

    /// Marks the order failed; a terminal state stays.
    pub fn unsuccesfull_order(&mut self)
        ensures
            final(self).order == old(self).order,
            final(self).state == sp_mark(old(self).state, false),
    {
        if let OrderState::Pending = self.state {
            self.state = OrderState::Failed;
        }
    }

    /// Whether the order is worth sending: a known size token, so a non-zero
    /// weight.
    pub fn valid(&self) -> (r: bool)
        ensures
            r == match self.order {
                Request::ScreenToRobotOrder { index, flavors, size } => size != 0,
                Request::ScreenToRobotAskLeader {} => false,
            },
    {
        match &self.order {
            Request::ScreenToRobotOrder { index: _, flavors: _, size } => *size != 0,
            Request::ScreenToRobotAskLeader {} => false,
        }
    }
}

/// The payment capture: a Bernoulli trial at a configurable acceptance rate,
/// counted per ten thousand.
#[derive(Debug)]
pub struct ScreenPaymentSystem {
    /// Captures accepted out of every ten thousand attempts.
    pub acceptance_permyriad: u32,
}

impl ScreenPaymentSystem {
    /// The payment system at the default acceptance rate.
    pub fn new() -> (r: ScreenPaymentSystem)
        ensures
            r.acceptance_permyriad == PAYMENT_ACCEPTANCE_PERMYRIAD,
    {
        ScreenPaymentSystem { acceptance_permyriad: PAYMENT_ACCEPTANCE_PERMYRIAD }
    }

    /// A payment system that accepts the given share out of ten thousand:
    /// zero declines everything, ten thousand accepts everything.
    pub fn with_acceptance_permyriad(acceptance_permyriad: u32) -> (r: ScreenPaymentSystem)
        ensures
            r.acceptance_permyriad == acceptance_permyriad,
    {
        ScreenPaymentSystem { acceptance_permyriad }
    }

    /// Attempts the capture.  The draw is random, so only the edges are
    /// promised: a zero rate declines every payment, a full rate accepts
    /// every one.
    pub fn attempt_payment_capture(&self) -> (r: bool)
        ensures
            self.acceptance_permyriad == 0 ==> !r,
            self.acceptance_permyriad >= 10000 ==> r,
    {
        let roll = random_u32() % 10000;
        roll < self.acceptance_permyriad
    }
}

/// Reads order lines into orders: fields split at commas, colons and
/// semicolons, and trimmed.
#[derive(Debug)]
pub struct ScreenOrderParser {
    /// Where the order file lives; the reading happens outside the library.
    pub file_path: String,
}

/// The fields one order line holds: split at the three separators, each field
/// trimmed.
pub open spec fn sp_order_line(l: Seq<char>) -> Seq<Seq<char>> {
    split_spec(l, set![',', ':', ';']).map_values(|f: Seq<char>| trim_spec(f))
}

impl ScreenOrderParser {
    /// A parser for the given file path.
    pub fn new(file_path: String) -> (r: ScreenOrderParser)
        ensures
            r.file_path@ == file_path@,
    {
        ScreenOrderParser { file_path }
    }

    /// Parses order lines: one order per line, fields split at any of
    /// `,:;` and trimmed.  Every order has at least one field: the size
    /// token.
    pub fn parse_lines(lines: &Vec<String>) -> (r: Vec<Vec<String>>)
        ensures
            r@.len() == lines@.len(),
            forall|k: int|
                0 <= k < r@.len() ==> strings_view(#[trigger] r@[k]@) == sp_order_line(
                    lines@[k]@,
                ),
            forall|k: int| 0 <= k < r@.len() ==> (#[trigger] r@[k]@).len() >= 1,
    {
        let n = lines.len();
        let mut out: Vec<Vec<String>> = Vec::new();
        let mut k: usize = 0;
        while k < n
            invariant
                k <= n,
                n == lines@.len(),
                out@.len() == k,
                forall|j: int|
                    0 <= j < k ==> strings_view(#[trigger] out@[j]@) == sp_order_line(
                        lines@[j]@,
                    ),
                forall|j: int| 0 <= j < k ==> (#[trigger] out@[j]@).len() >= 1,
            decreases n - k,
        {
            let raw = split_order_seps(lines[k].as_str());
            let m = raw.len();
            let mut fields: Vec<String> = Vec::new();
            let mut i: usize = 0;
            while i < m
                invariant
                    i <= m,
                    m == raw@.len(),
                    fields@.len() == i,
                    forall|j: int|
                        0 <= j < i ==> (#[trigger] fields@[j])@ == trim_spec(raw@[j]@),
                decreases m - i,
            {
                let t = trim_exec(raw[i].as_str());
                fields.push(t);
                i = i + 1;
            }
            proof {
                assert(strings_view(fields@) =~= sp_order_line(lines@[k as int]@)) by {
                    assert(strings_view(raw@) == split_spec(
                        lines@[k as int]@,
                        set![',', ':', ';'],
                    ));
                    assert forall|j: int|
                        0 <= j < fields@.len() implies strings_view(fields@)[j] == sp_order_line(
                        lines@[k as int]@,
                    )[j] by {
                        assert(strings_view(fields@)[j] == fields@[j]@);
                        assert(sp_order_line(lines@[k as int]@)[j] == trim_spec(
                            strings_view(raw@)[j],
                        ));
                        assert(strings_view(raw@)[j] == raw@[j]@);
                    }
                    lemma_split_never_empty(lines@[k as int]@, set![',', ':', ';']);
                }
                lemma_split_never_empty(lines@[k as int]@, set![',', ':', ';']);
            }
            out.push(fields);
            k = k + 1;
        }
        out
    }
}

/// Starts working through the orders.
#[derive(Debug, PartialEq, Eq, Structural)]
pub struct StartSendingOrders {}

/// Asks for the order at this position to be sent.
#[derive(Debug, PartialEq, Eq, Structural)]
pub struct SendOrder {
    pub numero_de_orden: usize,
}

/// The processed result the robot returned for one order.
#[derive(Debug, PartialEq, Eq)]
pub struct ReturnedOrderFromShop {
    pub result: Result<(), String>,
    pub index: u32,
}

/// A robot's line, waiting to be dispatched.
#[derive(Debug, PartialEq, Eq)]
pub struct HandleRecievedMessage {
    pub result_for_order_handler: String,
}

/// The leader port a robot announced.
#[derive(Debug, PartialEq, Eq, Structural)]
pub struct ReceivedLeaderMessage {
    pub leader_port: usize,
}

/// A line to write to the robot's socket.
#[derive(Debug, PartialEq, Eq)]
pub struct SendMessageThroughSocket {
    pub message_to_send_through_socket: String,
}

/// Sweeps the robot ports and opens the session; the sockets live outside the
/// library.
#[derive(Debug, PartialEq, Eq, Structural)]
pub struct ScreenConnector {}

/// Reads operator commands from the terminal; the reading lives outside the
/// library.
#[derive(Debug, PartialEq, Eq, Structural)]
pub struct UserInput {}

/// What one line from the robot asks the screen to do.
#[derive(Debug, PartialEq, Eq)]
pub enum ScreenEvent {
    /// An order came back: close it and move on.
    OrderReturned(ReturnedOrderFromShop),
    /// A leader announcement: remember the port.
    Leader(ReceivedLeaderMessage),
}

/// Splits a decoded robot response into the event the order manager takes.
pub fn dispatch_robot_message(resp: Response) -> (r: ScreenEvent)
    ensures
        match resp@ {
            crate::wire::ResponseV::Result { index, result } => match r {
                ScreenEvent::OrderReturned(msg) => {
                    &&& msg.index as nat == index as u32 as nat
                    &&& crate::wire::result_view(msg.result) == result
                },
                _ => false,
            },
            crate::wire::ResponseV::LeaderPort { leader_port } => match r {
                ScreenEvent::Leader(msg) => msg.leader_port == leader_port,
                _ => false,
            },
        },
{
    match resp {
        Response::RobotToScreenResult { index, result } => ScreenEvent::OrderReturned(
            ReturnedOrderFromShop { result, index: index as u32 },
        ),
        Response::RobotToScreenLeaderPort { leader_port } => ScreenEvent::Leader(
            ReceivedLeaderMessage { leader_port },
        ),
    }
}

/// The highest index sent so far; zero when none was.
pub open spec fn sp_current(s: Seq<usize>) -> usize
    decreases s.len(),
{
    if s.len() == 0 {
        0usize
    } else {
        let m = sp_current(s.drop_last());
        if s.last() > m {
            s.last()
        } else {
            m
        }
    }
}

/// A non-empty history contains its highest index.
proof fn lemma_sp_current_contains(s: Seq<usize>)
    requires
        s.len() > 0,
    ensures
        s.contains(sp_current(s)),
    decreases s.len(),
{
    if s.len() == 1 {
        assert(s[0] == s.last());
    } else {
        let m = sp_current(s.drop_last());
        if s.last() > m {
            assert(s.contains(s.last()));
        } else {
            lemma_sp_current_contains(s.drop_last());
            let j = choose|j: int| 0 <= j < s.drop_last().len() && s.drop_last()[j] == m;
            assert(s[j] == m);
        }
    }
}

/// The position of the first sent order carrying the given index, or -1.
pub open spec fn sp_find_order(s: Seq<(usize, ScreenWorkingOrder)>, index: usize) -> int
    decreases s.len(),
{
    if s.len() == 0 {
        -1
    } else if s[0].0 == index {
        0
    } else {
        let r = sp_find_order(s.drop_first(), index);
        if r < 0 {
            -1
        } else {
            r + 1
        }
    }
}

/// A first match pins `sp_find_order` down.
proof fn lemma_find_order_at(s: Seq<(usize, ScreenWorkingOrder)>, index: usize, i: int)
    requires
        0 <= i < s.len(),
        s[i].0 == index,
        forall|j: int| 0 <= j < i ==> s[j].0 != index,
    ensures
        sp_find_order(s, index) == i,
    decreases i,
{
    if i == 0 {
    } else {
        assert(s.drop_first()[i - 1] == s[i]);
        assert forall|j: int| 0 <= j < i - 1 implies s.drop_first()[j].0 != index by {
            assert(s.drop_first()[j] == s[j + 1]);
        }
        lemma_find_order_at(s.drop_first(), index, i - 1);
    }
}

/// With no match anywhere, `sp_find_order` is -1.
proof fn lemma_find_order_none(s: Seq<(usize, ScreenWorkingOrder)>, index: usize)
    requires
        forall|j: int| 0 <= j < s.len() ==> s[j].0 != index,
    ensures
        sp_find_order(s, index) == -1,
    decreases s.len(),
{
    if s.len() > 0 {
        assert forall|j: int| 0 <= j < s.drop_first().len() implies s.drop_first()[j].0
            != index by {
            assert(s.drop_first()[j] == s[j + 1]);
        }
        lemma_find_order_none(s.drop_first(), index);
    }
}

/// What `send_order` decided.
#[derive(Debug, PartialEq, Eq, Structural)]
pub enum SendOutcome {
    /// Every order was already handled; nothing more to send.
    Finished,
    /// The order was paid and recorded pending: its request must now go out.
    Sent { numero_de_orden: usize },
    /// The payment was declined: the order failed locally; continue with the
    /// next one.
    PaymentRejected { next: usize },
    /// The order is invalid (unknown size token): it failed locally; continue
    /// with the next one.
    Invalid { next: usize },
}

/// The screen's order driver: the orders read from the file, the ones sent
/// and where they stand, and the session bookkeeping.
#[derive(Debug)]
pub struct ScreenOrderManager {
    /// The orders read from the file: one field list per order.
    pub orders: Vec<Vec<String>>,
    /// The working orders, keyed by their order index.
    pub sent_orders: Vec<(usize, ScreenWorkingOrder)>,
    /// The payment capture.
    pub payment_system: ScreenPaymentSystem,
    /// How many orders the file holds.
    pub total_order_count: usize,
    /// Every index handed to `send_order` so far.
    pub sent_indexes: Vec<usize>,
    /// Whether the whole list was worked through.
    pub sent_all_orders: bool,
    /// The robot port of the current session, when one is open.
    pub currently_connected_port: Option<usize>,
}

impl ScreenOrderManager {
    /// The counts agree, every order has its size token, and no recorded
    /// index runs past the list.
    pub open spec fn wf(&self) -> bool {
        &&& self.total_order_count == self.orders@.len()
        &&& forall|k: int| 0 <= k < self.orders@.len() ==> (#[trigger] self.orders@[k]@).len() >= 1
        &&& forall|i: int|
            0 <= i < self.sent_indexes@.len() ==> (#[trigger] self.sent_indexes@[i])
                < self.total_order_count
    }

    /// A manager over the given orders, nothing sent yet, at the default
    /// payment acceptance rate.
    pub fn new_manager_with_orders(orders: Vec<Vec<String>>) -> (r: ScreenOrderManager)
        requires
            forall|k: int| 0 <= k < orders@.len() ==> (#[trigger] orders@[k]@).len() >= 1,
        ensures
            r.wf(),
            r.orders@ == orders@,
            r.sent_orders@.len() == 0,
            r.total_order_count == orders@.len(),
            r.sent_indexes@.len() == 0,
            !r.sent_all_orders,
            r.currently_connected_port is None,
            r.payment_system.acceptance_permyriad == PAYMENT_ACCEPTANCE_PERMYRIAD,
    {
        let total_order_count = orders.len();
        ScreenOrderManager {
            sent_orders: Vec::new(),
            total_order_count,
            orders,
            sent_indexes: Vec::new(),
            payment_system: ScreenPaymentSystem::new(),
            currently_connected_port: None,
            sent_all_orders: false,
        }
    }

    /// The highest order index sent so far, zero when none was.
    pub fn get_current_order(&self) -> (r: usize)
        ensures
            r == sp_current(self.sent_indexes@),
    {
        let n = self.sent_indexes.len();
        let mut best: usize = 0;
        let mut i: usize = 0;
        proof {
            assert(self.sent_indexes@.take(0) =~= Seq::<usize>::empty());
        }
        while i < n
            invariant
                i <= n,
                n == self.sent_indexes@.len(),
                best == sp_current(self.sent_indexes@.take(i as int)),
            decreases n - i,
        {
            proof {
                let t = self.sent_indexes@.take(i + 1);
                assert(t.drop_last() =~= self.sent_indexes@.take(i as int));
                assert(t.last() == self.sent_indexes@[i as int]);
            }
            if self.sent_indexes[i] > best {
                best = self.sent_indexes[i];
            }
            i = i + 1;
        }
        proof {
            assert(self.sent_indexes@.take(n as int) =~= self.sent_indexes@);
        }
        best
    }

    /// Works on the order at the given position.  Past the end of the list it
    /// only notes that everything was sent.  Otherwise the order joins the
    /// history; an invalid order or a declined payment fails it locally and
    /// names the next position; a paid one is recorded pending and must now
    /// go out.  With a zero acceptance rate no order is ever sent; with a
    /// full one every valid order is.
    pub fn send_order(&mut self, numero_de_orden: usize) -> (r: SendOutcome)
        requires
            old(self).wf(),
        ensures
            final(self).wf(),
            final(self).orders@ == old(self).orders@,
            final(self).total_order_count == old(self).total_order_count,
            final(self).payment_system == old(self).payment_system,
            final(self).currently_connected_port == old(self).currently_connected_port,
            r is Finished <==> numero_de_orden >= old(self).total_order_count,
            match r {
                SendOutcome::Finished => {
                    &&& final(self).sent_all_orders
                    &&& final(self).sent_indexes@ == old(self).sent_indexes@
                    &&& final(self).sent_orders@ == old(self).sent_orders@
                },
                SendOutcome::Sent { numero_de_orden: sent } => {
                    &&& sent == numero_de_orden
                    &&& final(self).sent_all_orders == old(self).sent_all_orders
                    &&& final(self).sent_indexes@ == old(self).sent_indexes@.push(
                        numero_de_orden,
                    )
                    &&& final(self).sent_orders@.len() == old(self).sent_orders@.len() + 1
                    &&& forall|j: int|
                        0 <= j < old(self).sent_orders@.len() ==> final(self).sent_orders@[j]
                            == old(self).sent_orders@[j]
                    &&& sp_sent_entry(
                        final(self).sent_orders@.last(),
                        old(self).orders@[numero_de_orden as int],
                        numero_de_orden,
                        OrderState::Pending,
                    )
                    &&& grams_of(old(self).orders@[numero_de_orden as int]@[0]@) != 0
                },
                SendOutcome::PaymentRejected { next } => {
                    &&& final(self).sent_all_orders == old(self).sent_all_orders
                    &&& final(self).sent_indexes@ == old(self).sent_indexes@.push(
                        numero_de_orden,
                    )
                    &&& final(self).sent_orders@.len() == old(self).sent_orders@.len() + 1
                    &&& forall|j: int|
                        0 <= j < old(self).sent_orders@.len() ==> final(self).sent_orders@[j]
                            == old(self).sent_orders@[j]
                    &&& sp_sent_entry(
                        final(self).sent_orders@.last(),
                        old(self).orders@[numero_de_orden as int],
                        numero_de_orden,
                        OrderState::Failed,
                    )
                    &&& grams_of(old(self).orders@[numero_de_orden as int]@[0]@) != 0
                    &&& next == sp_current(final(self).sent_indexes@) + 1
                },
                SendOutcome::Invalid { next } => {
                    &&& final(self).sent_all_orders == old(self).sent_all_orders
                    &&& final(self).sent_indexes@ == old(self).sent_indexes@.push(
                        numero_de_orden,
                    )
                    &&& final(self).sent_orders@.len() == old(self).sent_orders@.len() + 1
                    &&& forall|j: int|
                        0 <= j < old(self).sent_orders@.len() ==> final(self).sent_orders@[j]
                            == old(self).sent_orders@[j]
                    &&& sp_sent_entry(
                        final(self).sent_orders@.last(),
                        old(self).orders@[numero_de_orden as int],
                        numero_de_orden,
                        OrderState::Failed,
                    )
                    &&& grams_of(old(self).orders@[numero_de_orden as int]@[0]@) == 0
                },
            },
            old(self).payment_system.acceptance_permyriad == 0 ==> !(r is Sent),
            (old(self).payment_system.acceptance_permyriad >= 10000 && numero_de_orden < old(
                self,
            ).total_order_count && grams_of(old(self).orders@[numero_de_orden as int]@[0]@) != 0)
                ==> r is Sent,
    {
        if numero_de_orden >= self.total_order_count {
            self.sent_all_orders = true;
            return SendOutcome::Finished;
        }
        let line = &self.orders[numero_de_orden];
        let size_token = line[0].clone();
        let m = line.len();
        let mut flavours: Vec<String> = Vec::new();
        let mut i: usize = 1;
        while i < m
            invariant
                1 <= i <= m,
                m == self.orders@[numero_de_orden as int]@.len(),
                numero_de_orden < self.orders@.len(),
                flavours@.len() == i - 1,
                forall|j: int|
                    0 <= j < i - 1 ==> (#[trigger] flavours@[j])@ == self.orders@[
                        numero_de_orden as int
                    ]@[j + 1]@,
            decreases m - i,
        {
            flavours.push(self.orders[numero_de_orden][i].clone());
            i = i + 1;
        }
        let ghost flv = flavours@;
        let ghost line_v = self.orders@[numero_de_orden as int];
        let mut working_order = ScreenWorkingOrder::new(numero_de_orden, size_token, flavours);
        proof {
            lemma_new_order_fields(&working_order, flv, line_v, numero_de_orden);
        }
        self.sent_indexes.push(numero_de_orden);
        if working_order.valid() {
            if self.payment_system.attempt_payment_capture() {
                self.sent_orders.push((numero_de_orden, working_order));
                SendOutcome::Sent { numero_de_orden }
            } else {
                working_order.unsuccesfull_order();
                self.sent_orders.push((numero_de_orden, working_order));
                let current = self.get_current_order();
                proof {
                    lemma_sp_current_contains(self.sent_indexes@);
                }
                SendOutcome::PaymentRejected { next: current + 1 }
            }
        } else {
            working_order.unsuccesfull_order();
            self.sent_orders.push((numero_de_orden, working_order));
            let current = self.get_current_order();
            proof {
                lemma_sp_current_contains(self.sent_indexes@);
            }
            SendOutcome::Invalid { next: current + 1 }
        }
    }

    /// Marks the first sent order of this index completed; an unknown index
    /// changes nothing.
    pub fn validate_completed_order(&mut self, index: usize)
        requires
            old(self).wf(),
        ensures
            final(self).wf(),
            sp_marked(old(self), final(self), index, true),
    {
        self.mark_order(index, true);
    }

    /// Marks the first sent order of this index failed; an unknown index
    /// changes nothing.
    pub fn validate_rejected_order(&mut self, index: usize)
        requires
            old(self).wf(),
        ensures
            final(self).wf(),
            sp_marked(old(self), final(self), index, false),
    {
        self.mark_order(index, false);
    }

    /// Marks the first sent order of this index.
    fn mark_order(&mut self, index: usize, success: bool)
        requires
            old(self).wf(),
        ensures
            final(self).wf(),
            sp_marked(old(self), final(self), index, success),
    {
        let n = self.sent_orders.len();
        let mut k: usize = 0;
        while k < n
            invariant
                k <= n,
                n == self.sent_orders@.len(),
                self == old(self),
                old(self).wf(),
                forall|j: int| 0 <= j < k ==> self.sent_orders@[j].0 != index,
            decreases n - k,
        {
            if self.sent_orders[k].0 == index {
                proof {
                    lemma_find_order_at(self.sent_orders@, index, k as int);
                }
                let st = self.sent_orders[k].1.state;
                let marked = match st {
                    OrderState::Pending => if success {
                        OrderState::Completed
                    } else {
                        OrderState::Failed
                    },
                    _ => st,
                };
                self.sent_orders[k].1.state = marked;
                return ;
            }
            k = k + 1;
        }
        proof {
            lemma_find_order_none(self.sent_orders@, index);
        }
    }

    /// Takes the robot's result for one order: the order is marked, and when
    /// the list is not yet exhausted the next position to send comes back.
    pub fn handle_returned_order(&mut self, msg: ReturnedOrderFromShop) -> (next: Option<usize>)
        requires
            old(self).wf(),
        ensures
            final(self).wf(),
            sp_marked(old(self), final(self), msg.index as usize, msg.result is Ok),
            next == (if sp_current(final(self).sent_indexes@) < final(self).total_order_count {
                Some((sp_current(final(self).sent_indexes@) + 1) as usize)
            } else {
                Option::<usize>::None
            }),
    {
        let index = msg.index as usize;
        match msg.result {
            Ok(_) => self.validate_completed_order(index),
            Err(_) => self.validate_rejected_order(index),
        }
        let current = self.get_current_order();
        if current < self.total_order_count {
            Some(current + 1)
        } else {
            None
        }
    }

    /// Whether there is anything left to start: the position to send when the
    /// list is not yet worked through.
    pub fn start_sending(&self) -> (r: Option<usize>)
        ensures
            r == (if self.sent_all_orders {
                Option::<usize>::None
            } else {
                Some(sp_current(self.sent_indexes@))
            }),
    {
        if self.sent_all_orders {
            None
        } else {
            Some(self.get_current_order())
        }
    }

    /// Records the session port and hands back the request that asks the
    /// robot for its leader.
    pub fn connected(&mut self, port: usize) -> (r: Request)
        requires
            old(self).wf(),
        ensures
            final(self).wf(),
            final(self).currently_connected_port == Some(port),
            final(self).orders@ == old(self).orders@,
            final(self).sent_orders@ == old(self).sent_orders@,
            final(self).sent_indexes@ == old(self).sent_indexes@,
            final(self).sent_all_orders == old(self).sent_all_orders,
            final(self).total_order_count == old(self).total_order_count,
            final(self).payment_system == old(self).payment_system,
            r == (Request::ScreenToRobotAskLeader {  }),
    {
        self.currently_connected_port = Some(port);
        Request::ScreenToRobotAskLeader {}
    }

    /// Records the announced leader port; with no session open there is
    /// nothing to record.
    pub fn leader_learned(&mut self, leader_port: usize)
        requires
            old(self).wf(),
        ensures
            final(self).wf(),
            final(self).orders@ == old(self).orders@,
            final(self).sent_orders@ == old(self).sent_orders@,
            final(self).sent_indexes@ == old(self).sent_indexes@,
            final(self).sent_all_orders == old(self).sent_all_orders,
            final(self).total_order_count == old(self).total_order_count,
            final(self).payment_system == old(self).payment_system,
            final(self).currently_connected_port == (match old(self).currently_connected_port {
                Some(_) => Some(leader_port),
                None => Option::<usize>::None,
            }),
    {
        if self.currently_connected_port.is_some() {
            self.currently_connected_port = Some(leader_port);
        }
    }
}

/// A freshly built working order carries its line: the order index, the
/// flavors after the size token, and the token's weight.
proof fn lemma_new_order_fields(
    wo: &ScreenWorkingOrder,
    flv: Seq<String>,
    line: Vec<String>,
    numero: usize,
)
    requires
        match wo.order {
            Request::ScreenToRobotOrder { index, flavors, size } => {
                &&& index == numero
                &&& strings_view(flavors@) == strings_view(flv)
                &&& size == grams_of(line@[0]@)
            },
            Request::ScreenToRobotAskLeader {} => false,
        },
        flv.len() == line@.len() - 1,
        forall|j: int| 0 <= j < flv.len() ==> (#[trigger] flv[j])@ == line@[j + 1]@,
    ensures
        match wo.order {
            Request::ScreenToRobotOrder { index, flavors, size } => {
                &&& index == numero
                &&& size == grams_of(line@[0]@)
                &&& flavors@.len() == line@.len() - 1
                &&& forall|j: int|
                    0 <= j < flavors@.len() ==> (#[trigger] flavors@[j])@ == line@[j + 1]@
            },
            Request::ScreenToRobotAskLeader {} => false,
        },
{
    match wo.order {
        Request::ScreenToRobotOrder { index, flavors, size } => {
            assert(strings_view(flavors@).len() == flavors@.len());
            assert(strings_view(flv).len() == flv.len());
            assert forall|j: int|
                0 <= j < flavors@.len() implies (#[trigger] flavors@[j])@ == line@[j + 1]@ by {
                assert(strings_view(flavors@)[j] == flavors@[j]@);
                assert(strings_view(flv)[j] == flv[j]@);
            }
        },
        Request::ScreenToRobotAskLeader {} => {},
    }
}

/// One stored order matches its line: the order index, the flavors after the
/// size token, the token's weight, and the given state.
pub open spec fn sp_sent_entry(
    entry: (usize, ScreenWorkingOrder),
    line: Vec<String>,
    numero: usize,
    state: OrderState,
) -> bool {
    &&& entry.0 == numero
    &&& entry.1.state == state
    &&& match entry.1.order {
        Request::ScreenToRobotOrder { index, flavors, size } => {
            &&& index == numero
            &&& size == grams_of(line@[0]@)
            &&& flavors@.len() == line@.len() - 1
            &&& forall|j: int| 0 <= j < flavors@.len() ==> (#[trigger] flavors@[j])@ == line@[j + 1]@
        },
        Request::ScreenToRobotAskLeader {} => false,
    }
}

/// Marking the first sent order of an index: that entry's state moves as
/// `sp_mark` says and everything else stays; an unknown index changes
/// nothing.
pub open spec fn sp_marked(
    before: &ScreenOrderManager,
    after: &ScreenOrderManager,
    index: usize,
    success: bool,
) -> bool {
    &&& after.orders@ == before.orders@
    &&& after.sent_indexes@ == before.sent_indexes@
    &&& after.sent_all_orders == before.sent_all_orders
    &&& after.total_order_count == before.total_order_count
    &&& after.payment_system == before.payment_system
    &&& after.currently_connected_port == before.currently_connected_port
    &&& after.sent_orders@.len() == before.sent_orders@.len()
    &&& {
        let k = sp_find_order(before.sent_orders@, index);
        if k < 0 {
            after.sent_orders@ == before.sent_orders@
        } else {
            &&& forall|j: int|
                0 <= j < before.sent_orders@.len() && j != k ==> after.sent_orders@[j]
                    == before.sent_orders@[j]
            &&& after.sent_orders@[k].0 == before.sent_orders@[k].0
            &&& after.sent_orders@[k].1.order == before.sent_orders@[k].1.order
            &&& after.sent_orders@[k].1.state == sp_mark(before.sent_orders@[k].1.state, success)
        }
    }
}

/// A split has at least one field: a line with no separator is one field.
proof fn lemma_split_never_empty(s: Seq<char>, seps: Set<char>)
    ensures
        split_spec(s, seps).len() >= 1,
{
    lemma_split_rec_grows(s, seps, Seq::empty(), Seq::empty());
}

/// The tail-recursive splitter only ever adds fields.
proof fn lemma_split_rec_grows(s: Seq<char>, seps: Set<char>, cur: Seq<char>, acc: Seq<Seq<char>>)
    ensures
        crate::text::split_rec(s, seps, cur, acc).len() > acc.len(),
    decreases s.len(),
{
    if s.len() == 0 {
    } else if seps.contains(s[0]) {
        lemma_split_rec_grows(s.drop_first(), seps, Seq::empty(), acc.push(cur));
    } else {
        lemma_split_rec_grows(s.drop_first(), seps, cur.push(s[0]), acc);
    }
}

} // verus!
