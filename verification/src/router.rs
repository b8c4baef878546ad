//! The order router: the piece of the shop that bridges one robot session to
//! the stock engine.
//!
//! An incoming ice-cream order fans out into one reserve per flavor, each for
//! `size / n_flavors` units (the integer remainder is discarded).  The router
//! keeps every in-flight order until its last notification arrives: when all
//! flavors were reserved it submits the confirmations and answers the robot
//! with success; on the first failed reserve it submits cancellations for
//! everything already held and answers with an error.  When the session ends,
//! every order still active is failed so the screen side does not leak.

use vstd::prelude::*;

use crate::draws::fresh_order_id;
use crate::stock::pairs_view;
use crate::stock::StockResult;
use crate::wire::ShopRequest;
use crate::wire::ShopResponse;

verus! {

/// An order a robot session asks the shop to fulfil.
#[derive(Debug)]
pub struct MakeOrder {
    /// Total size in grams.
    pub size: u32,
    /// The flavors wanted, each getting an equal share of the size.
    pub flavors: Vec<String>,
    /// The screen the order came from, echoed back in the result.
    pub screen_index: usize,
    /// The screen's session address, echoed back in the result.
    pub screen_address: String,
}

impl MakeOrder {
    /// Rebuilds the order the wire request describes.
    pub fn from_request(req: ShopRequest) -> (r: MakeOrder)
        ensures
            ({
                match req@ {
                    crate::wire::ShopRequestV::IceCreamOrder {
                        flavors,
                        size,
                        screen_id,
                        screen_address,
                    } => {
                        &&& crate::text::strings_view(r.flavors@) == flavors
                        &&& r.size == size
                        &&& r.screen_index == screen_id
                        &&& r.screen_address@ == screen_address
                    },
                }
            }),
    {
        match req {
            ShopRequest::IceCreamOrder { flavors, size, screen_id, screen_address } => MakeOrder {
                size,
                flavors,
                screen_index: screen_id,
                screen_address,
            },
        }
    }
}

/// One reserve the router asks the stock engine for.
#[derive(Debug, PartialEq, Eq)]
pub struct ReserveRequest {
    /// The order the reserve belongs to.
    pub request_id: u128,
    /// The flavor to hold.
    pub flavor: String,
    /// The units to hold.
    pub amount: u32,
}

/// All information of one in-flight order.
#[derive(Debug)]
pub struct ActiveOrder {
    /// Unique identifier for this order.
    pub id: u128,
    /// Number of flavors to order.
    pub flavors_to_order: u32,
    /// Flavors that have been reserved so far, with their amounts.
    pub flavors_ordered: Vec<(String, u32)>,
    /// Index of the screen that made the order.
    pub screen_index: usize,
    /// Address of the screen that made the order.
    pub screen_address: String,
}

impl ActiveOrder {
    /// A fresh order for a `MakeOrder` message, nothing reserved yet.
    pub fn from_message(id: u128, msg: &MakeOrder) -> (r: ActiveOrder)
        requires
            msg.flavors@.len() <= u32::MAX,
        ensures
            r.id == id,
            r.flavors_to_order == msg.flavors@.len(),
            r.flavors_ordered@.len() == 0,
            r.screen_index == msg.screen_index,
            r.screen_address@ == msg.screen_address@,
    {
        ActiveOrder {
            id,
            flavors_to_order: msg.flavors.len() as u32,
            flavors_ordered: Vec::new(),
            screen_index: msg.screen_index,
            screen_address: msg.screen_address.clone(),
        }
    }

    /// Whether all flavors were reserved.
    pub fn is_done(&self) -> (r: bool)
        ensures
            r == (self.flavors_to_order as int == self.flavors_ordered@.len()),
    {
        self.flavors_to_order as usize == self.flavors_ordered.len()
    }
}

/// Whether some active order carries the given identifier.
pub open spec fn has_order(s: Seq<ActiveOrder>, id: u128) -> bool {
    exists|i: int| 0 <= i < s.len() && s[i].id == id
}

/// The index of the active order carrying the given identifier.
pub open spec fn order_idx(s: Seq<ActiveOrder>, id: u128) -> int {
    choose|i: int| 0 <= i < s.len() && s[i].id == id
}

/// Whether all active orders carry distinct identifiers.
pub open spec fn unique_order_ids(s: Seq<ActiveOrder>) -> bool {
    forall|i: int, j: int| 0 <= i < j < s.len() ==> s[i].id != s[j].id
}

/// With unique identifiers, an order's index is the one `order_idx` picks.
pub proof fn lemma_order_idx_unique(s: Seq<ActiveOrder>, id: u128, i: int)
    requires
        unique_order_ids(s),
        0 <= i < s.len(),
        s[i].id == id,
    ensures
        has_order(s, id),
        order_idx(s, id) == i,
{
    assert(has_order(s, id));
    let j = order_idx(s, id);
    if j < i {
        assert(s[j].id != s[i].id);
    } else if j > i {
        assert(s[i].id != s[j].id);
    }
}

/// The router's one error: a notification arrived for an order it does not
/// hold.
#[derive(Debug, Clone, Copy, PartialEq, Eq, Structural)]
pub enum RouterError {
    OrderNotFound,
}

/// What the caller must now do: submit these lists to the stock engine, and
/// send this response into the robot session.
#[derive(Debug)]
pub struct RouterOutcome {
    /// Reserves to cancel, when a flavor could not be had.
    pub cancels: Option<Vec<(String, u32)>>,
    /// Reserves to confirm, when the order is complete.
    pub confirms: Option<Vec<(String, u32)>>,
    /// The result owed to the robot session, when the order ended.
    pub response: Option<ShopResponse>,
}

/// The per-session router state: the orders whose reserves are in flight.
#[derive(Debug)]
pub struct OrderRouter {
    /// One record per in-flight order, identifiers unique.
    pub active_orders: Vec<ActiveOrder>,
}

/// Copies a reserve list value for value.
fn clone_pairs(v: &Vec<(String, u32)>) -> (r: Vec<(String, u32)>)
    ensures
        pairs_view(r@) == pairs_view(v@),
        r@.len() == v@.len(),
{
    let mut r: Vec<(String, u32)> = Vec::new();
    let n = v.len();
    let mut i: usize = 0;
    while i < n
        invariant
            i <= n,
            n == v@.len(),
            r@.len() == i,
            forall|j: int| 0 <= j < i ==> (#[trigger] r@[j]).0@ == v@[j].0@ && r@[j].1 == v@[j].1,
        decreases n - i,
    {
        let entry = &v[i];
        r.push((entry.0.clone(), entry.1));
        i = i + 1;
    }
    proof {
        assert(pairs_view(r@) =~= pairs_view(v@));
    }
    r
}

impl OrderRouter {
    /// Identifiers of the in-flight orders are unique.
    pub open spec fn wf(&self) -> bool {
        unique_order_ids(self.active_orders@)
    }

    /// A router with no order in flight.
    pub fn new() -> (r: OrderRouter)
        ensures
            r.wf(),
            r.active_orders@.len() == 0,
    {
        OrderRouter { active_orders: Vec::new() }
    }

    /// The position of an order id, if the router holds it.
    fn find_order(&self, id: u128) -> (r: Option<usize>)
        ensures
            match r {
                Some(i) => i < self.active_orders@.len() && self.active_orders@[i as int].id == id,
                None => !has_order(self.active_orders@, id),
            },
    {
        let n = self.active_orders.len();
        let mut i: usize = 0;
        while i < n
            invariant
                i <= n,
                n == self.active_orders@.len(),
                forall|j: int| 0 <= j < i ==> self.active_orders@[j].id != id,
            decreases n - i,
        {
            if self.active_orders[i].id == id {
                return Some(i);
            }
            i = i + 1;
        }
        None
    }

    /// Opens an order under the given identifier and returns the reserves to
    /// submit: one per flavor, each for an equal integer share of the size
    /// (the remainder is discarded).
    pub fn make_order(&mut self, id: u128, msg: &MakeOrder) -> (r: Vec<ReserveRequest>)
        requires
            old(self).wf(),
            !has_order(old(self).active_orders@, id),
            msg.flavors@.len() > 0,
            msg.flavors@.len() <= u32::MAX,
        ensures
            final(self).wf(),
            final(self).active_orders@.len() == old(self).active_orders@.len() + 1,
            forall|j: int|
                0 <= j < old(self).active_orders@.len() ==> final(self).active_orders@[j] == old(
                    self,
                ).active_orders@[j],
            ({
                let ord = final(self).active_orders@.last();
                &&& ord.id == id
                &&& ord.flavors_to_order == msg.flavors@.len()
                &&& ord.flavors_ordered@.len() == 0
                &&& ord.screen_index == msg.screen_index
                &&& ord.screen_address@ == msg.screen_address@
            }),
            r@.len() == msg.flavors@.len(),
            forall|k: int|
                0 <= k < r@.len() ==> {
                    &&& (#[trigger] r@[k]).request_id == id
                    &&& r@[k].flavor@ == msg.flavors@[k]@
                    &&& r@[k].amount == msg.size as int / msg.flavors@.len() as int
                },
    {
        let order = ActiveOrder::from_message(id, msg);
        self.active_orders.push(order);
        proof {
            assert forall|x: int, y: int|
                0 <= x < y < self.active_orders@.len() implies self.active_orders@[x].id
                != self.active_orders@[y].id by {
                assert(self.active_orders@[x] == old(self).active_orders@[x]);
                if y < self.active_orders@.len() - 1 {
                    assert(self.active_orders@[y] == old(self).active_orders@[y]);
                }
            }
        }
        let n = msg.flavors.len();
        let share = msg.size / (n as u32);
        let mut reqs: Vec<ReserveRequest> = Vec::new();
        let mut k: usize = 0;
        while k < n
            invariant
                k <= n,
                n == msg.flavors@.len(),
                share == msg.size as int / n as int,
                reqs@.len() == k,
                forall|j: int|
                    0 <= j < k ==> {
                        &&& (#[trigger] reqs@[j]).request_id == id
                        &&& reqs@[j].flavor@ == msg.flavors@[j]@
                        &&& reqs@[j].amount == share
                    },
            decreases n - k,
        {
            reqs.push(
                ReserveRequest { request_id: id, flavor: msg.flavors[k].clone(), amount: share },
            );
            k = k + 1;
        }
        reqs
    }

    /// Draws a fresh identifier and opens the order under it.  Nothing is
    /// known of the drawn value, so the one case in which it collides with an
    /// order already in flight is declined: the state is unchanged and `None`
    /// comes back.
    pub fn make_order_fresh(&mut self, msg: &MakeOrder) -> (r: Option<(u128, Vec<ReserveRequest>)>)
        requires
            old(self).wf(),
            msg.flavors@.len() > 0,
            msg.flavors@.len() <= u32::MAX,
        ensures
            final(self).wf(),
            match r {
                None => final(self).active_orders@ == old(self).active_orders@,
                Some(idreqs) => {
                    &&& !has_order(old(self).active_orders@, idreqs.0)
                    &&& final(self).active_orders@.len() == old(self).active_orders@.len() + 1
                    &&& final(self).active_orders@.last().id == idreqs.0
                    &&& idreqs.1@.len() == msg.flavors@.len()
                    &&& forall|k: int|
                        0 <= k < idreqs.1@.len() ==> {
                            &&& (#[trigger] idreqs.1@[k]).request_id == idreqs.0
                            &&& idreqs.1@[k].flavor@ == msg.flavors@[k]@
                            &&& idreqs.1@[k].amount == msg.size as int / msg.flavors@.len() as int
                        }
                },
            },
    {
        let id = fresh_order_id();
        match self.find_order(id) {
            Some(_) => None,
            None => {
                let reqs = self.make_order(id, msg);
                Some((id, reqs))
            },
        }
    }

    /// Takes one stock notification.  A successful reserve joins the order;
    /// the last one completes it: its reserves are handed back for
    /// confirmation and the robot is owed a success result.  A failed reserve
    /// ends the order: everything already held is handed back for
    /// cancellation and the robot is owed an error result.  Finished orders
    /// leave the router.
    pub fn handle_stock_result(&mut self, msg: StockResult) -> (r: Result<
        RouterOutcome,
        RouterError,
    >)
        requires
            old(self).wf(),
        ensures
            final(self).wf(),
            !has_order(old(self).active_orders@, msg.requester) ==> {
                &&& final(self).active_orders@ == old(self).active_orders@
                &&& r == Err::<RouterOutcome, RouterError>(RouterError::OrderNotFound)
            },
            has_order(old(self).active_orders@, msg.requester) ==> {
                let i = order_idx(old(self).active_orders@, msg.requester);
                let ord = old(self).active_orders@[i];
                match r {
                    Err(_) => false,
                    Ok(out) => {
                        match msg.result {
                            Some(fa) => {
                                if ord.flavors_ordered@.len() + 1 == ord.flavors_to_order as int {
                                    &&& final(self).active_orders@ == old(
                                        self,
                                    ).active_orders@.remove(i)
                                    &&& out.cancels is None
                                    &&& match out.confirms {
                                        Some(c) => pairs_view(c@) == pairs_view(
                                            ord.flavors_ordered@,
                                        ).push((fa.0@, fa.1)),
                                        None => false,
                                    }
                                    &&& match out.response {
                                        Some(resp) => resp@ == (crate::wire::ShopResponseV::OrderResult {
                                            screen_id: ord.screen_index as nat,
                                            result: crate::wire::ResultV::Okay,
                                            screen_address: ord.screen_address@,
                                        }),
                                        None => false,
                                    }
                                } else {
                                    &&& final(self).active_orders@.len() == old(
                                        self,
                                    ).active_orders@.len()
                                    &&& forall|j: int|
                                        0 <= j < old(self).active_orders@.len() && j != i
                                            ==> final(self).active_orders@[j] == old(
                                            self,
                                        ).active_orders@[j]
                                    &&& final(self).active_orders@[i].id == ord.id
                                    &&& final(self).active_orders@[i].flavors_to_order
                                        == ord.flavors_to_order
                                    &&& final(self).active_orders@[i].screen_index
                                        == ord.screen_index
                                    &&& final(self).active_orders@[i].screen_address
                                        == ord.screen_address
                                    &&& final(self).active_orders@[i].flavors_ordered@
                                        == ord.flavors_ordered@.push(fa)
                                    &&& out.cancels is None
                                    &&& out.confirms is None
                                    &&& out.response is None
                                }
                            },
                            None => {
                                &&& final(self).active_orders@ == old(self).active_orders@.remove(
                                    i,
                                )
                                &&& out.confirms is None
                                &&& match out.cancels {
                                    Some(c) => pairs_view(c@) == pairs_view(ord.flavors_ordered@),
                                    None => false,
                                }
                                &&& match out.response {
                                    Some(resp) => resp@ == (crate::wire::ShopResponseV::OrderResult {
                                        screen_id: ord.screen_index as nat,
                                        result: crate::wire::ResultV::Failed(
                                            "Couldn't get all flavors"@,
                                        ),
                                        screen_address: ord.screen_address@,
                                    }),
                                    None => false,
                                }
                            },
                        }
                    },
                }
            },
    {
        let idx = match self.find_order(msg.requester) {
            None => {
                return Err(RouterError::OrderNotFound);
            },
            Some(i) => i,
        };
        proof {
            lemma_order_idx_unique(self.active_orders@, msg.requester, idx as int);
        }
        match msg.result {
            Some(fa) => {
                let done = {
                    let ord = &self.active_orders[idx];
                    let target = ord.flavors_to_order as usize;
                    target > 0 && ord.flavors_ordered.len() == target - 1
                };
                if done {
                    let ord = self.active_orders.remove(idx);
                    proof {
                        lemma_remove_keeps_unique(old(self).active_orders@, idx as int);
                    }
                    let mut confirms = clone_pairs(&ord.flavors_ordered);
                    confirms.push((fa.0, fa.1));
                    proof {
                        assert(pairs_view(confirms@) =~= pairs_view(
                            old(self).active_orders@[idx as int].flavors_ordered@,
                        ).push((fa.0@, fa.1)));
                    }
                    let response = ShopResponse::OrderResult {
                        screen_id: ord.screen_index,
                        result: Ok(()),
                        screen_address: ord.screen_address,
                    };
                    Ok(
                        RouterOutcome {
                            cancels: None,
                            confirms: Some(confirms),
                            response: Some(response),
                        },
                    )
                } else {
                    self.active_orders[idx].flavors_ordered.push(fa);
                    proof {
                        assert forall|x: int, y: int|
                            0 <= x < y < self.active_orders@.len() implies self.active_orders@[x].id
                            != self.active_orders@[y].id by {
                            assert(self.active_orders@[x].id == old(
                                self,
                            ).active_orders@[x].id);
                            assert(self.active_orders@[y].id == old(
                                self,
                            ).active_orders@[y].id);
                        }
                    }
                    Ok(RouterOutcome { cancels: None, confirms: None, response: None })
                }
            },
            None => {
                let ord = self.active_orders.remove(idx);
                proof {
                    lemma_remove_keeps_unique(old(self).active_orders@, idx as int);
                }
                let cancels = clone_pairs(&ord.flavors_ordered);
                let response = ShopResponse::OrderResult {
                    screen_id: ord.screen_index,
                    result: Err(couldnt_get_all_flavors()),
                    screen_address: ord.screen_address,
                };
                Ok(
                    RouterOutcome {
                        cancels: Some(cancels),
                        confirms: None,
                        response: Some(response),
                    },
                )
            },
        }
    }

    /// Fails every order still in flight: the results owed when a robot
    /// session ends, so no screen waits forever.
    pub fn session_closed(&mut self) -> (r: Vec<ShopResponse>)
        requires
            old(self).wf(),
        ensures
            final(self).wf(),
            final(self).active_orders@.len() == 0,
            r@.len() == old(self).active_orders@.len(),
            forall|k: int|
                0 <= k < r@.len() ==> (#[trigger] r@[k])@ == (crate::wire::ShopResponseV::OrderResult {
                    screen_id: old(self).active_orders@[k].screen_index as nat,
                    result: crate::wire::ResultV::Failed("Stock requester stopped"@),
                    screen_address: old(self).active_orders@[k].screen_address@,
                }),
    {
        let mut out: Vec<ShopResponse> = Vec::new();
        let n = self.active_orders.len();
        let mut k: usize = 0;
        while k < n
            invariant
                k <= n,
                n == self.active_orders@.len(),
                self.active_orders@ == old(self).active_orders@,
                out@.len() == k,
                forall|j: int|
                    0 <= j < k ==> (#[trigger] out@[j])@ == (crate::wire::ShopResponseV::OrderResult {
                        screen_id: old(self).active_orders@[j].screen_index as nat,
                        result: crate::wire::ResultV::Failed("Stock requester stopped"@),
                        screen_address: old(self).active_orders@[j].screen_address@,
                    }),
            decreases n - k,
        {
            let ord = &self.active_orders[k];
            out.push(
                ShopResponse::OrderResult {
                    screen_id: ord.screen_index,
                    result: Err(stock_requester_stopped()),
                    screen_address: ord.screen_address.clone(),
                },
            );
            k = k + 1;
        }
        self.active_orders.clear();
        out
    }
}

/// The error text for an order whose flavors could not all be reserved.
fn couldnt_get_all_flavors() -> (r: String)
    ensures
        r@ == "Couldn't get all flavors"@,
{
    let s: &str = "Couldn't get all flavors";
    s.to_owned()
}

/// The error text for orders failed because their session ended.
fn stock_requester_stopped() -> (r: String)
    ensures
        r@ == "Stock requester stopped"@,
{
    let s: &str = "Stock requester stopped";
    s.to_owned()
}

/// Removing an order keeps the identifiers unique.
proof fn lemma_remove_keeps_unique(s: Seq<ActiveOrder>, i: int)
    requires
        unique_order_ids(s),
        0 <= i < s.len(),
    ensures
        unique_order_ids(s.remove(i)),
{
    let t = s.remove(i);
    assert forall|x: int, y: int| 0 <= x < y < t.len() implies t[x].id != t[y].id by {
        let x0 = if x < i {
            x
        } else {
            x + 1
        };
        let y0 = if y < i {
            y
        } else {
            y + 1
        };
        assert(t[x] == s[x0]);
        assert(t[y] == s[y0]);
    }
}

} // verus!
