//! The order store: orders, their line items and payments, kept consistent
//! under every operation. Each operation is all-or-nothing: when it returns an
//! error, the store is exactly as it was.
use vstd::prelude::*;

use crate::error::ServiceError;
use crate::order::{items_total, items_valid, order_total, NewOrder, Order, OrderItem, OrderItemRequest};
use crate::ids::{fresh_id, id_text, now_millis, uuid_text};
use crate::payment::{
    settled_status, CreatePaymentResponse, GatewayFailure, GatewayRequest, GatewayStatus, IndirectPayment, Payment,
    PaymentMode,
};
use crate::status::{order_transition_allowed, payment_transition_allowed, OrderStatus, PaymentStatus};

verus! {

/// The records of the store, as mathematical sequences.
pub struct StoreView {
    /// Orders, oldest first.
    pub orders: Seq<Order>,
    /// Line items, in insertion order.
    pub items: Seq<OrderItem>,
    /// Payments, in insertion order.
    pub payments: Seq<Payment>,
}

/// Orders, line items and payments with their referential and financial
/// invariants.
pub struct OrderStore {
    orders: Vec<Order>,
    items: Vec<OrderItem>,
    payments: Vec<Payment>,
}

impl View for OrderStore {
    type V = StoreView;

    closed spec fn view(&self) -> StoreView {
        StoreView { orders: self.orders@, items: self.items@, payments: self.payments@ }
    }
}

/// Whether an order with id `id` is stored.
pub open spec fn has_order(v: StoreView, id: u128) -> bool {
    exists|i: int| 0 <= i < v.orders.len() && #[trigger] v.orders[i].id == id
}

/// Whether an order with id `id` is stored and has status `s`.
pub open spec fn order_has_status(v: StoreView, id: u128, s: OrderStatus) -> bool {
    exists|i: int| 0 <= i < v.orders.len() && #[trigger] v.orders[i].id == id && v.orders[i].status == s
}

/// Whether `id` is taken as an order id: by a stored order, or by a payment
/// that outlived its order.
pub open spec fn order_id_taken(v: StoreView, id: u128) -> bool {
    has_order(v, id) || exists|i: int| 0 <= i < v.payments.len() && #[trigger] v.payments[i].order_id == id
}

/// Whether a line item with id `id` is stored.
pub open spec fn has_item(v: StoreView, id: u128) -> bool {
    exists|i: int| 0 <= i < v.items.len() && #[trigger] v.items[i].id == id
}

/// The line items of `items` that belong to order `id`, in their order.
pub open spec fn items_of(items: Seq<OrderItem>, id: u128) -> Seq<OrderItem>
    decreases items.len(),
{
    if items.len() == 0 {
        Seq::empty()
    } else {
        let rest = items_of(items.drop_last(), id);
        if items.last().order_id == id {
            rest.push(items.last())
        } else {
            rest
        }
    }
}

/// Whether order `id` has a payment that is pending or succeeded.
pub open spec fn has_live_payment(v: StoreView, id: u128) -> bool {
    exists|i: int|
        0 <= i < v.payments.len() && #[trigger] v.payments[i].order_id == id && !(v.payments[i].status is Failure)
}

/// Whether order `id` has a successful payment.
pub open spec fn has_successful_payment(v: StoreView, id: u128) -> bool {
    exists|i: int|
        0 <= i < v.payments.len() && #[trigger] v.payments[i].order_id == id && v.payments[i].status is Success
}

/// The order that `create_order` stores for `n` under id `id`.
pub open spec fn placed_order(n: NewOrder, id: u128, created_at: i64) -> Order {
    Order {
        id,
        user_id: n.user_id,
        customer_name: n.customer_name,
        customer_email: n.customer_email,
        customer_phone: n.customer_phone,
        delivery_address: n.delivery_address,
        city: n.city,
        region: n.region,
        status: OrderStatus::Pending,
        total: items_total(n.items@) as u64,
        created_at,
    }
}

/// The line items that an order `order_id` made of `reqs` gets, with ids `ids`.
pub open spec fn placed_items(order_id: u128, ids: Seq<u128>, reqs: Seq<OrderItemRequest>) -> Seq<OrderItem> {
    Seq::new(
        reqs.len(),
        |k: int|
            OrderItem {
                id: ids[k],
                order_id,
                product_id: reqs[k].product_id,
                quantity: reqs[k].quantity,
                unit_price: reqs[k].price,
            },
    )
}

/// The ids are pairwise distinct and no stored line item has one of them.
pub open spec fn item_ids_fresh(v: StoreView, ids: Seq<u128>) -> bool {
    &&& forall|k: int, l: int| 0 <= k < l < ids.len() ==> #[trigger] ids[k] != #[trigger] ids[l]
    &&& forall|k: int| 0 <= k < ids.len() ==> !has_item(v, #[trigger] ids[k])
}

/// The position of the stored order with id `id` (meaningful when there is one).
pub open spec fn order_index(v: StoreView, id: u128) -> int {
    choose|i: int| 0 <= i < v.orders.len() && #[trigger] v.orders[i].id == id
}

/// The stored order with id `id` (meaningful when there is one).
pub open spec fn stored_order(v: StoreView, id: u128) -> Order {
    v.orders[order_index(v, id)]
}

/// Whether order `o` passes the optional user and status filters.
pub open spec fn order_selected(o: Order, user: Option<u128>, status: Option<OrderStatus>) -> bool {
    &&& (match user {
        Some(u) => o.user_id == u,
        None => true,
    })
    &&& (match status {
        Some(s) => o.status == s,
        None => true,
    })
}

/// The orders of `orders` (oldest first) that pass the filters, newest first.
pub open spec fn newest_first(orders: Seq<Order>, user: Option<u128>, status: Option<OrderStatus>) -> Seq<Order>
    decreases orders.len(),
{
    if orders.len() == 0 {
        Seq::empty()
    } else {
        let rest = newest_first(orders.drop_first(), user, status);
        if order_selected(orders[0], user, status) {
            rest.push(orders[0])
        } else {
            rest
        }
    }
}

/// The line items of `items` that do not belong to order `id`, in their order.
pub open spec fn items_without(items: Seq<OrderItem>, id: u128) -> Seq<OrderItem>
    decreases items.len(),
{
    if items.len() == 0 {
        Seq::empty()
    } else {
        let rest = items_without(items.drop_last(), id);
        if items.last().order_id == id {
            rest
        } else {
            rest.push(items.last())
        }
    }
}

/// Once the line items of order `id` are removed, none is left for it: after
/// `delete_order(id)`, `get_order_items(id)` is empty.
pub proof fn lemma_deleted_order_has_no_items(items: Seq<OrderItem>, id: u128)
    ensures
        items_of(items_without(items, id), id) == Seq::<OrderItem>::empty(),
    decreases items.len(),
{
    if items.len() > 0 {
        lemma_deleted_order_has_no_items(items.drop_last(), id);
        let rest = items_without(items.drop_last(), id);
        if items.last().order_id != id {
            assert(rest.push(items.last()).drop_last() =~= rest);
        }
    }
}

/// Every order that passes the filters is listed: in particular an order just
/// placed shows up under its user and under `Pending`.
pub proof fn lemma_selected_orders_listed(orders: Seq<Order>, user: Option<u128>, status: Option<OrderStatus>, i: int)
    requires
        0 <= i < orders.len(),
        order_selected(orders[i], user, status),
    ensures
        newest_first(orders, user, status).contains(orders[i]),
    decreases orders.len(),
{
    let rest = newest_first(orders.drop_first(), user, status);
    if i == 0 {
        assert(rest.push(orders[0])[rest.len() as int] == orders[0]);
    } else {
        lemma_selected_orders_listed(orders.drop_first(), user, status, i - 1);
        let k = choose|k: int| 0 <= k < rest.len() && rest[k] == orders[i];
        if order_selected(orders[0], user, status) {
            assert(rest.push(orders[0])[k] == orders[i]);
        }
    }
}

/// The filtered orders, newest first, are stored orders that pass the
/// filters, and their creation times never increase along the list.
pub proof fn lemma_newest_first(orders: Seq<Order>, user: Option<u128>, status: Option<OrderStatus>)
    requires
        forall|i: int, j: int| 0 <= i < j < orders.len() ==> #[trigger] orders[i].created_at <= #[trigger] orders[j].created_at,
    ensures
        forall|a: int| 0 <= a < newest_first(orders, user, status).len() ==>
            orders.contains(#[trigger] newest_first(orders, user, status)[a])
            && order_selected(newest_first(orders, user, status)[a], user, status),
        forall|a: int, b: int| 0 <= a < b < newest_first(orders, user, status).len() ==>
            #[trigger] newest_first(orders, user, status)[a].created_at >= #[trigger] newest_first(orders, user, status)[b].created_at,
    decreases orders.len(),
{
    if orders.len() > 0 {
        let tail = orders.drop_first();
        assert forall|i: int, j: int| 0 <= i < j < tail.len() implies #[trigger] tail[i].created_at <= #[trigger] tail[j].created_at by {
            assert(tail[i] == orders[i + 1] && tail[j] == orders[j + 1]);
        }
        lemma_newest_first(tail, user, status);
        let rest = newest_first(tail, user, status);
        assert forall|a: int| 0 <= a < rest.len() implies orders.contains(#[trigger] rest[a]) && rest[a].created_at >= orders[0].created_at by {
            let k = choose|k: int| 0 <= k < tail.len() && tail[k] == rest[a];
            assert(orders[k + 1] == rest[a]);
        }
    }
}

/// Whether a payment with id `id` is stored.
pub open spec fn has_payment(v: StoreView, id: u128) -> bool {
    exists|i: int| 0 <= i < v.payments.len() && #[trigger] v.payments[i].id == id
}

/// Whether a payment for gateway transaction `tx` is stored.
pub open spec fn has_transaction(v: StoreView, tx: Seq<char>) -> bool {
    exists|i: int| 0 <= i < v.payments.len() && #[trigger] v.payments[i].transaction_id@ == tx
}

/// The position of the stored payment with id `id` (meaningful when there is one).
pub open spec fn payment_index(v: StoreView, id: u128) -> int {
    choose|i: int| 0 <= i < v.payments.len() && #[trigger] v.payments[i].id == id
}

/// The position of the stored payment for transaction `tx` (meaningful when
/// there is one).
pub open spec fn transaction_index(v: StoreView, tx: Seq<char>) -> int {
    choose|i: int| 0 <= i < v.payments.len() && #[trigger] v.payments[i].transaction_id@ == tx
}

/// Whether a new payment may be initiated for order `id`: the order is
/// stored, still `Pending`, and has no pending or successful payment.
pub open spec fn payment_allowed(v: StoreView, id: u128) -> bool {
    order_has_status(v, id, OrderStatus::Pending) && !has_live_payment(v, id)
}

/// The payment that `record_payment` stores for a gateway transaction `tx`.
pub open spec fn recorded_payment(q: GatewayRequest, tx: String, id: u128, now: i64) -> Payment {
    Payment {
        id,
        order_id: q.order_id,
        amount: q.amount,
        status: PaymentStatus::Pending,
        payment_method: q.mode,
        transaction_id: tx,
        details: None,
        created_at: now,
        updated_at: now,
    }
}

/// The orders once a payment of order `order_id` settles as `to`: a success
/// moves a `Pending` order to `Processing`; nothing else changes.
pub open spec fn orders_after_settling(v: StoreView, order_id: u128, to: PaymentStatus) -> Seq<Order> {
    if to is Success && order_has_status(v, order_id, OrderStatus::Pending) {
        v.orders.update(
            order_index(v, order_id),
            Order { status: OrderStatus::Processing, ..stored_order(v, order_id) },
        )
    } else {
        v.orders
    }
}

/// The invariant of the store.
pub open spec fn store_invariant(v: StoreView) -> bool {
    // order ids are unique
    &&& forall|i: int, j: int|
        0 <= i < j < v.orders.len() ==> #[trigger] v.orders[i].id != #[trigger] v.orders[j].id
    // orders are kept oldest first
    &&& forall|i: int, j: int|
        0 <= i < j < v.orders.len() ==> #[trigger] v.orders[i].created_at <= #[trigger] v.orders[j].created_at
    // line item ids are unique
    &&& forall|i: int, j: int|
        0 <= i < j < v.items.len() ==> #[trigger] v.items[i].id != #[trigger] v.items[j].id
    // every line item belongs to a stored order
    &&& forall|i: int| 0 <= i < v.items.len() ==> has_order(v, #[trigger] v.items[i].order_id)
    // payment ids and gateway transaction ids are unique
    &&& forall|i: int, j: int|
        0 <= i < j < v.payments.len() ==> #[trigger] v.payments[i].id != #[trigger] v.payments[j].id
    &&& forall|i: int, j: int|
        0 <= i < j < v.payments.len() ==> #[trigger] v.payments[i].transaction_id@
            != #[trigger] v.payments[j].transaction_id@
    // at most one payment per order is pending or successful
    &&& forall|i: int, j: int|
        0 <= i < v.payments.len() && 0 <= j < v.payments.len() && i != j
            && #[trigger] v.payments[i].order_id == #[trigger] v.payments[j].order_id
            ==> v.payments[i].status is Failure || v.payments[j].status is Failure
    // a paid order has left `Pending`
    &&& forall|i: int, j: int|
        0 <= i < v.payments.len() && 0 <= j < v.orders.len()
            && #[trigger] v.payments[i].order_id == #[trigger] v.orders[j].id
            && v.payments[i].status is Success ==> !(v.orders[j].status is Pending)
}

/// In a store whose order ids are unique, the order chosen for an id is the
/// one at the position holding that id.
pub proof fn lemma_order_index(v: StoreView, i: int)
    requires
        store_invariant(v),
        0 <= i < v.orders.len(),
    ensures
        order_index(v, v.orders[i].id) == i,
        stored_order(v, v.orders[i].id) == v.orders[i],
{
    let id = v.orders[i].id;
    let j = order_index(v, id);
    assert(0 <= j < v.orders.len() && v.orders[j].id == id);
    if j < i {
        assert(v.orders[j].id != v.orders[i].id);
    } else if i < j {
        assert(v.orders[i].id != v.orders[j].id);
    }
}

/// An order that already has a successful payment accepts no new payment:
/// `prepare_payment` and `record_payment` refuse it and store nothing.
pub proof fn lemma_paid_order_refuses_payment(v: StoreView, id: u128)
    requires
        has_successful_payment(v, id),
    ensures
        !payment_allowed(v, id),
{
    let k = choose|k: int| 0 <= k < v.payments.len() && #[trigger] v.payments[k].order_id == id
        && v.payments[k].status is Success;
    assert(has_live_payment(v, id));
}

/// In every store state, an order whose payment succeeded has left
/// `Pending`; in particular once a success report has been reconciled.
pub proof fn lemma_paid_order_left_pending(v: StoreView, k: int, j: int)
    requires
        store_invariant(v),
        0 <= k < v.payments.len(),
        0 <= j < v.orders.len(),
        v.payments[k].status is Success,
        v.orders[j].id == v.payments[k].order_id,
    ensures
        !(v.orders[j].status is Pending),
{
}

/// The service error that reports a failed gateway call.
fn gateway_error(f: GatewayFailure) -> (e: ServiceError)
    ensures
        e is GatewayError,
{
    match f {
        GatewayFailure::Timeout => ServiceError::GatewayError("payment gateway timed out".to_string()),
        GatewayFailure::Unreachable(m) => ServiceError::GatewayError(m),
        GatewayFailure::Rejected(m) => ServiceError::GatewayError(m),
    }
}

impl OrderStore {
    /// The store's invariant holds.
    pub open spec fn wf(&self) -> bool {
        store_invariant(self@)
    }

    /// An empty store.
    pub fn new() -> (r: OrderStore)
        ensures
            r.wf(),
            r@.orders.len() == 0,
            r@.items.len() == 0,
            r@.payments.len() == 0,
    {
        OrderStore { orders: Vec::new(), items: Vec::new(), payments: Vec::new() }
    }

    /// Position of the order with id `id`.
    fn find_order(&self, id: u128) -> (r: Option<usize>)
        ensures
            r matches Some(i) ==> i < self@.orders.len() && self@.orders[i as int].id == id,
            r is None ==> !has_order(self@, id),
    {
        let mut i: usize = 0;
        while i < self.orders.len()
            invariant
                i <= self.orders@.len(),
                forall|j: int| 0 <= j < i ==> #[trigger] self.orders@[j].id != id,
            decreases self.orders@.len() - i,
        {
            if self.orders[i].id == id {
                return Some(i);
            }
            i = i + 1;
        }
        None
    }

    /// Whether `id` is taken as an order id.
    fn order_id_in_use(&self, id: u128) -> (r: bool)
        ensures
            r == order_id_taken(self@, id),
    {
        if self.find_order(id).is_some() {
            return true;
        }
        let mut i: usize = 0;
        while i < self.payments.len()
            invariant
                i <= self.payments@.len(),
                forall|j: int| 0 <= j < i ==> #[trigger] self.payments@[j].order_id != id,
            decreases self.payments@.len() - i,
        {
            if self.payments[i].order_id == id {
                assert(self@.payments[i as int].order_id == id);
                return true;
            }
            i = i + 1;
        }
        false
    }

    /// Whether a line item with id `id` is stored.
    fn item_id_in_use(&self, id: u128) -> (r: bool)
        ensures
            r == has_item(self@, id),
    {
        let mut i: usize = 0;
        while i < self.items.len()
            invariant
                i <= self.items@.len(),
                forall|j: int| 0 <= j < i ==> #[trigger] self.items@[j].id != id,
            decreases self.items@.len() - i,
        {
            if self.items[i].id == id {
                assert(self@.items[i as int].id == id);
                return true;
            }
            i = i + 1;
        }
        false
    }

    /// Where an order created at `t` goes to keep the orders oldest first.
    fn insert_position(&self, t: i64) -> (p: usize)
        requires
            self.wf(),
        ensures
            p <= self@.orders.len(),
            forall|j: int| 0 <= j < p ==> #[trigger] self@.orders[j].created_at <= t,
            forall|j: int| p <= j < self@.orders.len() ==> #[trigger] self@.orders[j].created_at > t,
    {
        let mut i: usize = 0;
        while i < self.orders.len()
            invariant
                self.wf(),
                i <= self.orders@.len(),
                forall|j: int| 0 <= j < i ==> #[trigger] self.orders@[j].created_at <= t,
            decreases self.orders@.len() - i,
        {
            if self.orders[i].created_at > t {
                assert forall|j: int| i <= j < self@.orders.len() implies #[trigger] self@.orders[j].created_at > t by {
                    if i < j {
                        assert(self@.orders[i as int].created_at <= self@.orders[j].created_at);
                    }
                }
                return i;
            }
            i = i + 1;
        }
        i
    }

    /// Whether the ids are pairwise distinct and unused by stored line items.
    fn item_ids_available(&self, ids: &Vec<u128>) -> (r: bool)
        ensures
            r == item_ids_fresh(self@, ids@),
    {
        let mut k: usize = 0;
        while k < ids.len()
            invariant
                k <= ids@.len(),
                forall|a: int, b: int| 0 <= a < b < ids@.len() && a < k ==> #[trigger] ids@[a] != #[trigger] ids@[b],
                forall|a: int| 0 <= a < k ==> !has_item(self@, #[trigger] ids@[a]),
            decreases ids@.len() - k,
        {
            if self.item_id_in_use(ids[k]) {
                return false;
            }
            let mut l: usize = k + 1;
            while l < ids.len()
                invariant
                    k < l <= ids@.len(),
                    forall|b: int| k < b < l ==> ids@[k as int] != #[trigger] ids@[b],
                decreases ids@.len() - l,
            {
                if ids[k] == ids[l] {
                    return false;
                }
                l = l + 1;
            }
            k = k + 1;
        }
        true
    }

    /// Places an order: checks the line items, computes the total and stores
    /// the order, with status `Pending`, together with its line items, all or
    /// nothing. The caller draws the ids and reads the clock.
    ///
    /// Fails with a validation error exactly when the items are invalid (none,
    /// a zero quantity, a total beyond `u64`) or there is not one id per
    /// item, and otherwise with a storage error exactly when one of the ids is
    /// taken.
    pub fn create_order(&mut self, new_order: NewOrder, order_id: u128, item_ids: &Vec<u128>, created_at: i64) -> (r: Result<Order, ServiceError>)
        requires
            old(self).wf(),
        ensures
            final(self).wf(),
            r is Err ==> final(self)@ == old(self)@,
            r matches Err(e) ==> e is Validation || e is DatabaseError,
            r matches Err(ServiceError::Validation(_)) <==> !items_valid(new_order.items@)
                || item_ids@.len() != new_order.items@.len(),
            r matches Err(ServiceError::DatabaseError(_)) <==> items_valid(new_order.items@)
                && item_ids@.len() == new_order.items@.len()
                && (order_id_taken(old(self)@, order_id) || !item_ids_fresh(old(self)@, item_ids@)),
            r matches Ok(o) ==> {
                &&& o == placed_order(new_order, order_id, created_at)
                &&& o.total == items_total(new_order.items@)
                &&& exists|p: int| 0 <= p <= old(self)@.orders.len()
                    && final(self)@.orders == old(self)@.orders.insert(p, o)
                &&& final(self)@.items == old(self)@.items + placed_items(order_id, item_ids@, new_order.items@)
                &&& final(self)@.payments == old(self)@.payments
            },
    {
        let total = match order_total(&new_order.items) {
            Ok(t) => t,
            Err(e) => {
                return Err(e);
            },
        };
        if item_ids.len() != new_order.items.len() {
            return Err(ServiceError::Validation("one line item id is needed per item".to_string()));
        }
        if self.order_id_in_use(order_id) {
            return Err(ServiceError::DatabaseError("order id already in use".to_string()));
        }
        if !self.item_ids_available(item_ids) {
            return Err(ServiceError::DatabaseError("line item id already in use".to_string()));
        }
        let ghost old_v = self@;
        let NewOrder {
            user_id,
            customer_name,
            customer_email,
            customer_phone,
            delivery_address,
            city,
            region,
            items,
        } = new_order;
        let mut added: Vec<OrderItem> = Vec::new();
        let mut k: usize = 0;
        while k < items.len()
            invariant
                k <= items@.len(),
                items@ == new_order.items@,
                item_ids@.len() == items@.len(),
                added@ == placed_items(order_id, item_ids@, items@).subrange(0, k as int),
            decreases items@.len() - k,
        {
            let req = items[k];
            added.push(OrderItem {
                id: item_ids[k],
                order_id,
                product_id: req.product_id,
                quantity: req.quantity,
                unit_price: req.price,
            });
            assert(added@ =~= placed_items(order_id, item_ids@, items@).subrange(0, k + 1));
            k = k + 1;
        }
        assert(added@ =~= placed_items(order_id, item_ids@, items@));
        let order = Order {
            id: order_id,
            user_id,
            customer_name,
            customer_email,
            customer_phone,
            delivery_address,
            city,
            region,
            status: OrderStatus::Pending,
            total,
            created_at,
        };
        let result = order.snapshot();
        let p = self.insert_position(created_at);
        self.orders.insert(p, order);
        self.items.append(&mut added);
        proof {
            let v = self@;
            assert(v.orders == old_v.orders.insert(p as int, result));
            assert forall|j: int| 0 <= j < v.orders.len() && j != p implies
                #[trigger] v.orders[j] == old_v.orders[if j < p { j } else { j - 1 }] by {}
            assert forall|i: int| 0 <= i < old_v.orders.len() implies has_order(v, #[trigger] old_v.orders[i].id) by {
                if i < p {
                    assert(v.orders[i] == old_v.orders[i]);
                } else {
                    assert(v.orders[i + 1] == old_v.orders[i]);
                }
            }
            assert(v.orders[p as int].id == order_id);
            assert forall|i: int| 0 <= i < v.items.len() implies has_order(v, #[trigger] v.items[i].order_id) by {
                if i < old_v.items.len() {
                    assert(v.items[i] == old_v.items[i]);
                    let w = choose|w: int| 0 <= w < old_v.orders.len() && #[trigger] old_v.orders[w].id == old_v.items[i].order_id;
                    assert(has_order(v, old_v.orders[w].id));
                }
            }
            assert forall|i: int, j: int| 0 <= i < j < v.items.len() implies #[trigger] v.items[i].id != #[trigger] v.items[j].id by {
                let m = old_v.items.len();
                if j >= m && i < m {
                    assert(v.items[j].id == item_ids@[j - m]);
                    assert(!has_item(old_v, item_ids@[j - m]));
                    assert(v.items[i] == old_v.items[i]);
                } else if i >= m {
                    assert(v.items[j].id == item_ids@[j - m]);
                    assert(v.items[i].id == item_ids@[i - m]);
                }
            }
            assert forall|i: int, j: int| 0 <= i < j < v.orders.len() implies #[trigger] v.orders[i].id != #[trigger] v.orders[j].id by {
                if i == p {
                    assert(!has_order(old_v, order_id));
                    assert(v.orders[j] == old_v.orders[j - 1]);
                } else if j == p {
                    assert(!has_order(old_v, order_id));
                    assert(v.orders[i] == old_v.orders[i]);
                } else {
                    let oi = if i < p { i } else { i - 1 };
                    let oj = if j < p { j } else { j - 1 };
                    assert(v.orders[i] == old_v.orders[oi]);
                    assert(v.orders[j] == old_v.orders[oj]);
                }
            }
            assert forall|i: int, j: int| 0 <= i < j < v.orders.len() implies #[trigger] v.orders[i].created_at <= #[trigger] v.orders[j].created_at by {
                let oi = if i < p { i } else { i - 1 };
                let oj = if j < p { j } else { j - 1 };
                if i == p {
                    assert(v.orders[j] == old_v.orders[oj]);
                } else if j == p {
                    assert(v.orders[i] == old_v.orders[oi]);
                } else {
                    assert(v.orders[i] == old_v.orders[oi]);
                    assert(v.orders[j] == old_v.orders[oj]);
                }
            }
            assert forall|i: int, j: int|
                0 <= i < v.payments.len() && 0 <= j < v.orders.len()
                    && #[trigger] v.payments[i].order_id == #[trigger] v.orders[j].id
                    && v.payments[i].status is Success implies !(v.orders[j].status is Pending) by {
                if j == p {
                    assert(old_v.payments[i].order_id == order_id);
                } else {
                    let oj = if j < p { j } else { j - 1 };
                    assert(v.orders[j] == old_v.orders[oj]);
                }
            }
        }
        Ok(result)
    }

    /// Lists stored orders, newest first, keeping those of user `user` and
    /// status `status` when these are given (both filters apply together).
    pub fn list_orders(&self, user: Option<u128>, status: Option<OrderStatus>) -> (r: Vec<Order>)
        requires
            self.wf(),
        ensures
            r@ == newest_first(self@.orders, user, status),
            forall|a: int| 0 <= a < r@.len() ==>
                self@.orders.contains(#[trigger] r@[a]) && order_selected(r@[a], user, status),
            forall|a: int, b: int| 0 <= a < b < r@.len() ==> #[trigger] r@[a].created_at >= #[trigger] r@[b].created_at,
            forall|i: int| 0 <= i < self@.orders.len() && order_selected(#[trigger] self@.orders[i], user, status)
                ==> r@.contains(self@.orders[i]),
    {
        let n = self.orders.len();
        let mut r: Vec<Order> = Vec::new();
        let mut i: usize = n;
        while i > 0
            invariant
                n == self.orders@.len(),
                i <= n,
                r@ == newest_first(self.orders@.subrange(i as int, n as int), user, status),
            decreases i,
        {
            i = i - 1;
            assert(self.orders@.subrange(i as int, n as int).drop_first() =~= self.orders@.subrange(i + 1, n as int));
            let o = &self.orders[i];
            let keep_user = match user {
                Some(u) => o.user_id == u,
                None => true,
            };
            let keep_status = match status {
                Some(s) => o.status == s,
                None => true,
            };
            if keep_user && keep_status {
                r.push(o.snapshot());
            }
        }
        assert(self.orders@.subrange(0, n as int) =~= self.orders@);
        proof {
            lemma_newest_first(self@.orders, user, status);
            assert forall|i: int| 0 <= i < self@.orders.len() && order_selected(#[trigger] self@.orders[i], user, status)
                implies r@.contains(self@.orders[i]) by {
                lemma_selected_orders_listed(self@.orders, user, status, i);
            }
        }
        r
    }

    /// Moves order `id` to status `to` along an edge of the order state
    /// machine and returns the updated order.
    ///
    /// Fails with not-found exactly when there is no such order, and with a
    /// validation error exactly when the machine has no edge from the
    /// order's status to `to`.
    pub fn update_order_status(&mut self, id: u128, to: OrderStatus) -> (r: Result<Order, ServiceError>)
        requires
            old(self).wf(),
        ensures
            final(self).wf(),
            r is Err ==> final(self)@ == old(self)@,
            r matches Err(e) ==> e is NotFound || e is Validation,
            r matches Err(ServiceError::NotFound(_)) <==> !has_order(old(self)@, id),
            r matches Err(ServiceError::Validation(_)) <==> has_order(old(self)@, id)
                && !order_transition_allowed(stored_order(old(self)@, id).status, to),
            r matches Ok(o) ==> {
                &&& o == (Order { status: to, ..stored_order(old(self)@, id) })
                &&& final(self)@.orders == old(self)@.orders.update(order_index(old(self)@, id), o)
                &&& final(self)@.items == old(self)@.items
                &&& final(self)@.payments == old(self)@.payments
            },
    {
        let i = match self.find_order(id) {
            Some(i) => i,
            None => {
                return Err(ServiceError::NotFound("order not found".to_string()));
            },
        };
        proof {
            lemma_order_index(self@, i as int);
        }
        if !self.orders[i].status.can_transition_to(to) {
            return Err(ServiceError::Validation("status transition not allowed".to_string()));
        }
        let ghost old_v = self@;
        let mut updated = self.orders[i].snapshot();
        updated.status = to;
        let result = updated.snapshot();
        self.orders.set(i, updated);
        proof {
            let v = self@;
            assert forall|j: int| 0 <= j < v.orders.len() && j != i implies #[trigger] v.orders[j] == old_v.orders[j] by {}
            assert forall|k: int| 0 <= k < v.items.len() implies has_order(v, #[trigger] v.items[k].order_id) by {
                let w = choose|w: int| 0 <= w < old_v.orders.len() && #[trigger] old_v.orders[w].id == old_v.items[k].order_id;
                assert(v.orders[w].id == old_v.orders[w].id);
            }
            assert forall|a: int, b: int| 0 <= a < b < v.orders.len() implies #[trigger] v.orders[a].id != #[trigger] v.orders[b].id by {
                assert(old_v.orders[a].id != old_v.orders[b].id);
            }
            assert forall|a: int, b: int| 0 <= a < b < v.orders.len() implies #[trigger] v.orders[a].created_at <= #[trigger] v.orders[b].created_at by {
                assert(old_v.orders[a].created_at <= old_v.orders[b].created_at);
            }
            assert forall|a: int, b: int|
                0 <= a < v.payments.len() && 0 <= b < v.orders.len()
                    && #[trigger] v.payments[a].order_id == #[trigger] v.orders[b].id
                    && v.payments[a].status is Success implies !(v.orders[b].status is Pending) by {
                assert(old_v.orders[b].id == v.orders[b].id);
            }
        }
        Ok(result)
    }

    /// Deletes order `id` and all its line items, as one unit. Payments are
    /// financial records and stay.
    ///
    /// Fails with not-found, changing nothing, exactly when there is no such
    /// order.
    pub fn delete_order(&mut self, id: u128) -> (r: Result<(), ServiceError>)
        requires
            old(self).wf(),
        ensures
            final(self).wf(),
            r is Err ==> final(self)@ == old(self)@,
            r matches Err(e) ==> e is NotFound,
            r is Err <==> !has_order(old(self)@, id),
            r is Ok ==> {
                &&& final(self)@.orders == old(self)@.orders.remove(order_index(old(self)@, id))
                &&& final(self)@.items == items_without(old(self)@.items, id)
                &&& final(self)@.payments == old(self)@.payments
                &&& !has_order(final(self)@, id)
                &&& items_of(final(self)@.items, id) == Seq::<OrderItem>::empty()
            },
    {
        let i = match self.find_order(id) {
            Some(i) => i,
            None => {
                return Err(ServiceError::NotFound("order not found".to_string()));
            },
        };
        proof {
            lemma_order_index(self@, i as int);
        }
        let ghost old_v = self@;
        let mut kept: Vec<OrderItem> = Vec::new();
        let mut k: usize = 0;
        while k < self.items.len()
            invariant
                self@ == old_v,
                store_invariant(old_v),
                k <= old_v.items.len(),
                kept@ == items_without(old_v.items.subrange(0, k as int), id),
                forall|a: int| 0 <= a < kept@.len() ==> (#[trigger] kept@[a]).order_id != id
                    && exists|j: int| 0 <= j < k && old_v.items[j] == kept@[a],
                forall|a: int, b: int| 0 <= a < b < kept@.len() ==> #[trigger] kept@[a].id != #[trigger] kept@[b].id,
            decreases old_v.items.len() - k,
        {
            assert(old_v.items.subrange(0, k + 1).drop_last() =~= old_v.items.subrange(0, k as int));
            let item = self.items[k];
            if item.order_id != id {
                proof {
                    assert forall|a: int| 0 <= a < kept@.len() implies (#[trigger] kept@[a]).id != item.id by {
                        let j = choose|j: int| 0 <= j < k && old_v.items[j] == kept@[a];
                        assert(old_v.items[j].id != old_v.items[k as int].id);
                    }
                }
                kept.push(item);
            }
            k = k + 1;
        }
        assert(old_v.items.subrange(0, old_v.items.len() as int) =~= old_v.items);
        self.orders.remove(i);
        self.items = kept;
        proof {
            let v = self@;
            lemma_deleted_order_has_no_items(old_v.items, id);
            assert forall|j: int| 0 <= j < v.orders.len() implies #[trigger] v.orders[j] == old_v.orders[if j < i { j } else { j + 1 }] by {}
            assert forall|a: int, b: int| 0 <= a < b < v.orders.len() implies #[trigger] v.orders[a].id != #[trigger] v.orders[b].id by {
                let oa = if a < i { a } else { a + 1 };
                let ob = if b < i { b } else { b + 1 };
                assert(v.orders[a] == old_v.orders[oa] && v.orders[b] == old_v.orders[ob]);
            }
            assert forall|a: int, b: int| 0 <= a < b < v.orders.len() implies #[trigger] v.orders[a].created_at <= #[trigger] v.orders[b].created_at by {
                let oa = if a < i { a } else { a + 1 };
                let ob = if b < i { b } else { b + 1 };
                assert(v.orders[a] == old_v.orders[oa] && v.orders[b] == old_v.orders[ob]);
            }
            assert forall|a: int| 0 <= a < v.items.len() implies has_order(v, #[trigger] v.items[a].order_id) by {
                let j = choose|j: int| 0 <= j < old_v.items.len() && old_v.items[j] == v.items[a];
                let w = choose|w: int| 0 <= w < old_v.orders.len() && #[trigger] old_v.orders[w].id == old_v.items[j].order_id;
                assert(w != i);
                let nw = if w < i { w } else { w - 1 };
                assert(v.orders[nw] == old_v.orders[w]);
            }
            assert forall|a: int, b: int|
                0 <= a < v.payments.len() && 0 <= b < v.orders.len()
                    && #[trigger] v.payments[a].order_id == #[trigger] v.orders[b].id
                    && v.payments[a].status is Success implies !(v.orders[b].status is Pending) by {
                let ob = if b < i { b } else { b + 1 };
                assert(v.orders[b] == old_v.orders[ob]);
            }
            assert(!has_order(v, id)) by {
                if has_order(v, id) {
                    let w = choose|w: int| 0 <= w < v.orders.len() && #[trigger] v.orders[w].id == id;
                    let ow = if w < i { w } else { w + 1 };
                    assert(v.orders[w] == old_v.orders[ow]);
                    assert(old_v.orders[ow].id != old_v.orders[i as int].id);
                }
            }
        }
        Ok(())
    }

    /// Position of the payment with id `id`.
    fn find_payment(&self, id: u128) -> (r: Option<usize>)
        requires
            self.wf(),
        ensures
            r matches Some(i) ==> i < self@.payments.len() && self@.payments[i as int].id == id
                && payment_index(self@, id) == i,
            r is None ==> !has_payment(self@, id),
    {
        let mut i: usize = 0;
        while i < self.payments.len()
            invariant
                self.wf(),
                i <= self.payments@.len(),
                forall|j: int| 0 <= j < i ==> #[trigger] self.payments@[j].id != id,
            decreases self.payments@.len() - i,
        {
            if self.payments[i].id == id {
                proof {
                    let j = payment_index(self@, id);
                    assert(self@.payments[i as int].id == id);
                    if j < i {
                        assert(self@.payments[j].id != self@.payments[i as int].id);
                    } else if i < j {
                        assert(self@.payments[i as int].id != self@.payments[j].id);
                    }
                }
                return Some(i);
            }
            i = i + 1;
        }
        None
    }

    /// Position of the payment for gateway transaction `tx`.
    fn find_transaction(&self, tx: &String) -> (r: Option<usize>)
        requires
            self.wf(),
        ensures
            r matches Some(i) ==> i < self@.payments.len() && self@.payments[i as int].transaction_id@ == tx@
                && transaction_index(self@, tx@) == i,
            r is None ==> !has_transaction(self@, tx@),
    {
        let mut i: usize = 0;
        while i < self.payments.len()
            invariant
                self.wf(),
                i <= self.payments@.len(),
                forall|j: int| 0 <= j < i ==> #[trigger] self.payments@[j].transaction_id@ != tx@,
            decreases self.payments@.len() - i,
        {
            if self.payments[i].transaction_id == *tx {
                proof {
                    let j = transaction_index(self@, tx@);
                    assert(self@.payments[i as int].transaction_id@ == tx@);
                    if j < i {
                        assert(self@.payments[j].transaction_id@ != self@.payments[i as int].transaction_id@);
                    } else if i < j {
                        assert(self@.payments[i as int].transaction_id@ != self@.payments[j].transaction_id@);
                    }
                }
                return Some(i);
            }
            i = i + 1;
        }
        None
    }

    /// Whether order `id` has a pending or successful payment.
    fn live_payment_exists(&self, id: u128) -> (r: bool)
        ensures
            r == has_live_payment(self@, id),
    {
        let mut i: usize = 0;
        while i < self.payments.len()
            invariant
                i <= self.payments@.len(),
                forall|j: int| 0 <= j < i ==> #[trigger] self.payments@[j].order_id != id
                    || self.payments@[j].status is Failure,
            decreases self.payments@.len() - i,
        {
            if self.payments[i].order_id == id && self.payments[i].status != PaymentStatus::Failure {
                assert(self@.payments[i as int].order_id == id);
                return true;
            }
            i = i + 1;
        }
        false
    }

    /// Decides whether a payment for order `order_id` may be initiated and,
    /// if so, what to send to the gateway: the order's total, with the order
    /// id as external reference. No gateway call is owed on an error.
    ///
    /// Fails with not-found exactly when there is no such order, and with a
    /// validation error exactly when the order is no longer `Pending` or
    /// already has a pending or successful payment.
    pub fn prepare_payment(&self, order_id: u128, mode: PaymentMode) -> (r: Result<GatewayRequest, ServiceError>)
        requires
            self.wf(),
        ensures
            r matches Err(e) ==> e is NotFound || e is Validation,
            r matches Err(ServiceError::NotFound(_)) <==> !has_order(self@, order_id),
            r matches Err(ServiceError::Validation(_)) <==> has_order(self@, order_id)
                && !payment_allowed(self@, order_id),
            r matches Ok(q) ==> {
                &&& payment_allowed(self@, order_id)
                &&& q.order_id == order_id
                &&& q.amount == stored_order(self@, order_id).total
                &&& q.external_reference@ == uuid_text(order_id)
                &&& q.mode == mode
            },
    {
        let i = match self.find_order(order_id) {
            Some(i) => i,
            None => {
                return Err(ServiceError::NotFound("order not found".to_string()));
            },
        };
        proof {
            lemma_order_index(self@, i as int);
        }
        if self.orders[i].status != OrderStatus::Pending {
            proof {
                if order_has_status(self@, order_id, OrderStatus::Pending) {
                    let w = choose|w: int| 0 <= w < self@.orders.len() && #[trigger] self@.orders[w].id == order_id
                        && self@.orders[w].status == OrderStatus::Pending;
                    lemma_order_index(self@, w);
                }
            }
            return Err(ServiceError::Validation("order is not awaiting payment".to_string()));
        }
        if self.live_payment_exists(order_id) {
            return Err(ServiceError::Validation("order already has an active or successful payment".to_string()));
        }
        assert(self@.orders[i as int].id == order_id);
        Ok(GatewayRequest {
            order_id,
            amount: self.orders[i].total,
            external_reference: id_text(order_id),
            mode,
        })
    }

    /// Records the outcome of a gateway payment request. A failed call
    /// (timeout, unreachable, refused) records nothing, so the caller may
    /// retry. A transaction is stored as a `Pending` payment, after the
    /// checks of `prepare_payment` are made again: the store may have changed
    /// during the call.
    ///
    /// Fails with a gateway error exactly when the call failed; otherwise
    /// with not-found exactly when the order is gone; otherwise with a
    /// validation error exactly when a payment is no longer allowed or the
    /// amount is not the order's total; otherwise with a storage error
    /// exactly when the payment id or the transaction id is taken.
    pub fn record_payment(
        &mut self,
        request: &GatewayRequest,
        outcome: Result<String, GatewayFailure>,
        payment_id: u128,
        now: i64,
    ) -> (r: Result<Payment, ServiceError>)
        requires
            old(self).wf(),
        ensures
            final(self).wf(),
            r is Err ==> final(self)@ == old(self)@,
            r matches Err(ServiceError::GatewayError(_)) <==> outcome is Err,
            r matches Err(ServiceError::NotFound(_)) <==> outcome is Ok && !has_order(old(self)@, request.order_id),
            r matches Err(ServiceError::Validation(_)) <==> outcome is Ok && has_order(old(self)@, request.order_id) && (
                !payment_allowed(old(self)@, request.order_id)
                || request.amount != stored_order(old(self)@, request.order_id).total),
            r matches Err(ServiceError::DatabaseError(_)) <==> outcome is Ok && payment_allowed(old(self)@, request.order_id)
                && request.amount == stored_order(old(self)@, request.order_id).total
                && (has_payment(old(self)@, payment_id) || has_transaction(old(self)@, outcome->Ok_0@)),
            r matches Err(e) ==> e is GatewayError || e is NotFound || e is Validation || e is DatabaseError,
            r matches Ok(p) ==> {
                &&& outcome is Ok
                &&& p == recorded_payment(*request, outcome->Ok_0, payment_id, now)
                &&& final(self)@.payments == old(self)@.payments.push(p)
                &&& final(self)@.orders == old(self)@.orders
                &&& final(self)@.items == old(self)@.items
            },
    {
        let tx = match outcome {
            Ok(tx) => tx,
            Err(f) => {
                return Err(gateway_error(f));
            },
        };
        let i = match self.find_order(request.order_id) {
            Some(i) => i,
            None => {
                return Err(ServiceError::NotFound("order not found".to_string()));
            },
        };
        proof {
            lemma_order_index(self@, i as int);
            if order_has_status(self@, request.order_id, OrderStatus::Pending) {
                let w = choose|w: int| 0 <= w < self@.orders.len() && #[trigger] self@.orders[w].id == request.order_id
                    && self@.orders[w].status == OrderStatus::Pending;
                lemma_order_index(self@, w);
            }
        }
        if self.orders[i].status != OrderStatus::Pending || self.live_payment_exists(request.order_id) {
            return Err(ServiceError::Validation("order is not awaiting payment".to_string()));
        }
        if self.orders[i].total != request.amount {
            return Err(ServiceError::Validation("amount differs from the order total".to_string()));
        }
        if self.find_payment(payment_id).is_some() {
            return Err(ServiceError::DatabaseError("payment id already in use".to_string()));
        }
        if self.find_transaction(&tx).is_some() {
            return Err(ServiceError::DatabaseError("transaction already recorded".to_string()));
        }
        let ghost old_v = self@;
        let payment = Payment {
            id: payment_id,
            order_id: request.order_id,
            amount: request.amount,
            status: PaymentStatus::Pending,
            payment_method: request.mode,
            transaction_id: tx,
            details: None,
            created_at: now,
            updated_at: now,
        };
        let result = payment.snapshot();
        self.payments.push(payment);
        proof {
            let v = self@;
            let n = old_v.payments.len() as int;
            assert forall|a: int| 0 <= a < n implies #[trigger] v.payments[a] == old_v.payments[a] by {}
            assert forall|a: int, b: int| 0 <= a < b < v.payments.len() implies #[trigger] v.payments[a].id != #[trigger] v.payments[b].id by {
                if b == n {
                    assert(old_v.payments[a].id != payment_id);
                } else {
                    assert(old_v.payments[a].id != old_v.payments[b].id);
                }
            }
            assert forall|a: int, b: int| 0 <= a < b < v.payments.len() implies #[trigger] v.payments[a].transaction_id@
                != #[trigger] v.payments[b].transaction_id@ by {
                if b == n {
                    assert(old_v.payments[a].transaction_id@ != result.transaction_id@);
                } else {
                    assert(old_v.payments[a].transaction_id@ != old_v.payments[b].transaction_id@);
                }
            }
            assert forall|a: int, b: int|
                0 <= a < v.payments.len() && 0 <= b < v.payments.len() && a != b
                    && #[trigger] v.payments[a].order_id == #[trigger] v.payments[b].order_id
                    implies v.payments[a].status is Failure || v.payments[b].status is Failure by {
                if a == n {
                    assert(old_v.payments[b].order_id == request.order_id);
                } else if b == n {
                    assert(old_v.payments[a].order_id == request.order_id);
                } else {
                    assert(old_v.payments[a] == v.payments[a] && old_v.payments[b] == v.payments[b]);
                }
            }
            assert forall|a: int, b: int|
                0 <= a < v.payments.len() && 0 <= b < v.orders.len()
                    && #[trigger] v.payments[a].order_id == #[trigger] v.orders[b].id
                    && v.payments[a].status is Success implies !(v.orders[b].status is Pending) by {
                if a < n {
                    assert(old_v.payments[a] == v.payments[a]);
                }
            }
            assert forall|a: int| 0 <= a < v.items.len() implies has_order(v, #[trigger] v.items[a].order_id) by {
                assert(has_order(old_v, old_v.items[a].order_id));
            }
            assert forall|a: int, b: int| 0 <= a < b < v.items.len() implies #[trigger] v.items[a].id != #[trigger] v.items[b].id by {
                assert(old_v.items[a].id != old_v.items[b].id);
            }
        }
        Ok(result)
    }

    /// Settles the pending payment at position `i` as `to`, and moves its
    /// order from `Pending` to `Processing` when `to` is a success.
    fn settle(&mut self, i: usize, to: PaymentStatus, now: i64) -> (r: Payment)
        requires
            old(self).wf(),
            i < old(self)@.payments.len(),
            old(self)@.payments[i as int].status is Pending,
            !(to is Pending),
        ensures
            final(self).wf(),
            r == (Payment { status: to, updated_at: now, ..old(self)@.payments[i as int] }),
            final(self)@.payments == old(self)@.payments.update(i as int, r),
            final(self)@.orders == orders_after_settling(old(self)@, old(self)@.payments[i as int].order_id, to),
            final(self)@.items == old(self)@.items,
    {
        let ghost old_v = self@;
        let order_id = self.payments[i].order_id;
        let found = self.find_order(order_id);
        let mut advance: Option<usize> = None;
        if to == PaymentStatus::Success {
            if let Some(j) = found {
                proof {
                    lemma_order_index(self@, j as int);
                }
                if self.orders[j].status == OrderStatus::Pending {
                    advance = Some(j);
                } else {
                    proof {
                        if order_has_status(old_v, order_id, OrderStatus::Pending) {
                            let w = choose|w: int| 0 <= w < old_v.orders.len() && #[trigger] old_v.orders[w].id == order_id
                                && old_v.orders[w].status == OrderStatus::Pending;
                            lemma_order_index(self@, w);
                        }
                    }
                }
            }
        }
        let mut p = self.payments[i].snapshot();
        p.status = to;
        p.updated_at = now;
        let result = p.snapshot();
        self.payments.set(i, p);
        if let Some(j) = advance {
            let mut o = self.orders[j].snapshot();
            o.status = OrderStatus::Processing;
            self.orders.set(j, o);
        }
        proof {
            let v = self@;
            assert(v.orders == orders_after_settling(old_v, order_id, to)) by {
                if to is Success && order_has_status(old_v, order_id, OrderStatus::Pending) {
                    let w = choose|w: int| 0 <= w < old_v.orders.len() && #[trigger] old_v.orders[w].id == order_id
                        && old_v.orders[w].status == OrderStatus::Pending;
                    assert(has_order(old_v, order_id));
                    let j = found->Some_0;
                    lemma_order_index(old_v, w);
                    assert(advance == Some(j));
                }
            }
            assert forall|a: int| 0 <= a < v.orders.len() implies #[trigger] v.orders[a].id == old_v.orders[a].id
                && v.orders[a].created_at == old_v.orders[a].created_at
                && (v.orders[a].status is Pending ==> old_v.orders[a].status is Pending) by {}
            assert forall|a: int, b: int| 0 <= a < b < v.orders.len() implies #[trigger] v.orders[a].id != #[trigger] v.orders[b].id by {
                assert(old_v.orders[a].id != old_v.orders[b].id);
            }
            assert forall|a: int, b: int| 0 <= a < b < v.orders.len() implies #[trigger] v.orders[a].created_at <= #[trigger] v.orders[b].created_at by {
                assert(old_v.orders[a].created_at <= old_v.orders[b].created_at);
            }
            assert forall|a: int, b: int| 0 <= a < b < v.items.len() implies #[trigger] v.items[a].id != #[trigger] v.items[b].id by {
                assert(old_v.items[a].id != old_v.items[b].id);
            }
            assert forall|a: int| 0 <= a < v.items.len() implies has_order(v, #[trigger] v.items[a].order_id) by {
                let w = choose|w: int| 0 <= w < old_v.orders.len() && #[trigger] old_v.orders[w].id == old_v.items[a].order_id;
                assert(v.orders[w].id == old_v.orders[w].id);
            }
            assert forall|a: int| 0 <= a < v.payments.len() && a != i implies #[trigger] v.payments[a] == old_v.payments[a] by {}
            assert forall|a: int, b: int| 0 <= a < b < v.payments.len() implies #[trigger] v.payments[a].id != #[trigger] v.payments[b].id by {
                assert(old_v.payments[a].id != old_v.payments[b].id);
            }
            assert forall|a: int, b: int| 0 <= a < b < v.payments.len() implies #[trigger] v.payments[a].transaction_id@
                != #[trigger] v.payments[b].transaction_id@ by {
                assert(old_v.payments[a].transaction_id@ != old_v.payments[b].transaction_id@);
            }
            assert forall|a: int, b: int|
                0 <= a < v.payments.len() && 0 <= b < v.payments.len() && a != b
                    && #[trigger] v.payments[a].order_id == #[trigger] v.payments[b].order_id
                    implies v.payments[a].status is Failure || v.payments[b].status is Failure by {
                assert(old_v.payments[a].order_id == old_v.payments[b].order_id);
            }
            assert forall|a: int, b: int|
                0 <= a < v.payments.len() && 0 <= b < v.orders.len()
                    && #[trigger] v.payments[a].order_id == #[trigger] v.orders[b].id
                    && v.payments[a].status is Success implies !(v.orders[b].status is Pending) by {
                if a == i {
                    if v.orders[b].status is Pending {
                        assert(old_v.orders[b].status is Pending);
                        assert(order_has_status(old_v, order_id, OrderStatus::Pending));
                        lemma_order_index(old_v, b);
                    }
                } else {
                    assert(old_v.payments[a] == v.payments[a]);
                    assert(old_v.orders[b].id == v.orders[b].id);
                }
            }
        }
        result
    }

    /// Sets the status of payment `payment_id` along an edge of the payment
    /// state machine; a success also moves the owning order from `Pending`
    /// to `Processing`, in the same step. Setting the status a payment
    /// already has changes nothing and succeeds, so a repeated notification
    /// is harmless.
    ///
    /// Fails with not-found exactly when there is no such payment, and with
    /// a validation error exactly when the machine has no edge from the
    /// payment's status to a different `to`.
    pub fn update_payment_status(&mut self, payment_id: u128, to: PaymentStatus, now: i64) -> (r: Result<Payment, ServiceError>)
        requires
            old(self).wf(),
        ensures
            final(self).wf(),
            r is Err ==> final(self)@ == old(self)@,
            r matches Err(e) ==> e is NotFound || e is Validation,
            r matches Err(ServiceError::NotFound(_)) <==> !has_payment(old(self)@, payment_id),
            r matches Err(ServiceError::Validation(_)) <==> has_payment(old(self)@, payment_id) && ({
                let cur = old(self)@.payments[payment_index(old(self)@, payment_id)].status;
                cur != to && !payment_transition_allowed(cur, to)
            }),
            r matches Ok(p) ==> {
                let k = payment_index(old(self)@, payment_id);
                let q = old(self)@.payments[k];
                if q.status == to {
                    p == q && final(self)@ == old(self)@
                } else {
                    &&& p == (Payment { status: to, updated_at: now, ..q })
                    &&& final(self)@.payments == old(self)@.payments.update(k, p)
                    &&& final(self)@.orders == orders_after_settling(old(self)@, q.order_id, to)
                    &&& final(self)@.items == old(self)@.items
                }
            },
    {
        let i = match self.find_payment(payment_id) {
            Some(i) => i,
            None => {
                return Err(ServiceError::NotFound("payment not found".to_string()));
            },
        };
        let cur = self.payments[i].status;
        if cur == to {
            return Ok(self.payments[i].snapshot());
        }
        if !cur.can_transition_to(to) {
            return Err(ServiceError::Validation("payment status transition not allowed".to_string()));
        }
        Ok(self.settle(i, to, now))
    }

    /// Applies a status report of the gateway to the payment of transaction
    /// `tx`. A report of success or failure settles a pending payment (a
    /// success also moves its order out of `Pending`); a report that settles
    /// nothing, or one about a payment already settled, changes nothing, so
    /// repeated and out-of-order reports are harmless. Returns the payment as
    /// it now stands.
    ///
    /// Fails with not-found, changing nothing, exactly when no payment has
    /// that transaction id.
    pub fn reconcile(&mut self, tx: &String, report: GatewayStatus, now: i64) -> (r: Result<Payment, ServiceError>)
        requires
            old(self).wf(),
        ensures
            final(self).wf(),
            r is Err ==> final(self)@ == old(self)@,
            r matches Err(e) ==> e is NotFound,
            r is Err <==> !has_transaction(old(self)@, tx@),
            r matches Ok(p) ==> {
                let k = transaction_index(old(self)@, tx@);
                let q = old(self)@.payments[k];
                if q.status is Pending && settled_status(report) is Some {
                    let to = settled_status(report)->Some_0;
                    &&& p == (Payment { status: to, updated_at: now, ..q })
                    &&& final(self)@.payments == old(self)@.payments.update(k, p)
                    &&& final(self)@.orders == orders_after_settling(old(self)@, q.order_id, to)
                    &&& final(self)@.items == old(self)@.items
                } else {
                    p == q && final(self)@ == old(self)@
                }
            },
    {
        let i = match self.find_transaction(tx) {
            Some(i) => i,
            None => {
                return Err(ServiceError::NotFound("no payment for this transaction".to_string()));
            },
        };
        match report.settles() {
            Some(to) => {
                if self.payments[i].status == PaymentStatus::Pending {
                    Ok(self.settle(i, to, now))
                } else {
                    Ok(self.payments[i].snapshot())
                }
            },
            None => Ok(self.payments[i].snapshot()),
        }
    }

    /// Replaces the provider-specific details of payment `payment_id`.
    ///
    /// Fails with not-found, changing nothing, exactly when there is no such
    /// payment.
    pub fn update_payment_details(&mut self, payment_id: u128, details: String, now: i64) -> (r: Result<Payment, ServiceError>)
        requires
            old(self).wf(),
        ensures
            final(self).wf(),
            r is Err ==> final(self)@ == old(self)@,
            r matches Err(e) ==> e is NotFound,
            r is Err <==> !has_payment(old(self)@, payment_id),
            r matches Ok(p) ==> {
                let k = payment_index(old(self)@, payment_id);
                &&& p == (Payment { details: Some(details), updated_at: now, ..old(self)@.payments[k] })
                &&& final(self)@.payments == old(self)@.payments.update(k, p)
                &&& final(self)@.orders == old(self)@.orders
                &&& final(self)@.items == old(self)@.items
            },
    {
        let i = match self.find_payment(payment_id) {
            Some(i) => i,
            None => {
                return Err(ServiceError::NotFound("payment not found".to_string()));
            },
        };
        let ghost old_v = self@;
        let mut p = self.payments[i].snapshot();
        p.details = Some(details);
        p.updated_at = now;
        let result = p.snapshot();
        self.payments.set(i, p);
        proof {
            let v = self@;
            assert forall|a: int| 0 <= a < v.payments.len() implies #[trigger] v.payments[a].id == old_v.payments[a].id
                && v.payments[a].order_id == old_v.payments[a].order_id
                && v.payments[a].status == old_v.payments[a].status
                && v.payments[a].transaction_id == old_v.payments[a].transaction_id by {}
            assert forall|a: int, b: int| 0 <= a < b < v.payments.len() implies #[trigger] v.payments[a].id != #[trigger] v.payments[b].id by {
                assert(old_v.payments[a].id != old_v.payments[b].id);
            }
            assert forall|a: int, b: int| 0 <= a < b < v.payments.len() implies #[trigger] v.payments[a].transaction_id@
                != #[trigger] v.payments[b].transaction_id@ by {
                assert(old_v.payments[a].transaction_id@ != old_v.payments[b].transaction_id@);
            }
            assert forall|a: int, b: int|
                0 <= a < v.payments.len() && 0 <= b < v.payments.len() && a != b
                    && #[trigger] v.payments[a].order_id == #[trigger] v.payments[b].order_id
                    implies v.payments[a].status is Failure || v.payments[b].status is Failure by {
                assert(old_v.payments[a].order_id == old_v.payments[b].order_id);
            }
            assert forall|a: int, b: int|
                0 <= a < v.payments.len() && 0 <= b < v.orders.len()
                    && #[trigger] v.payments[a].order_id == #[trigger] v.orders[b].id
                    && v.payments[a].status is Success implies !(v.orders[b].status is Pending) by {
                assert(old_v.payments[a].order_id == v.payments[a].order_id);
            }
            assert forall|a: int| 0 <= a < v.items.len() implies has_order(v, #[trigger] v.items[a].order_id) by {
                assert(has_order(old_v, old_v.items[a].order_id));
            }
            assert forall|a: int, b: int| 0 <= a < b < v.items.len() implies #[trigger] v.items[a].id != #[trigger] v.items[b].id by {
                assert(old_v.items[a].id != old_v.items[b].id);
            }
        }
        Ok(result)
    }

    /// Looks a payment up by id.
    pub fn get_payment_by_id(&self, id: u128) -> (r: Option<Payment>)
        requires
            self.wf(),
        ensures
            r is None <==> !has_payment(self@, id),
            r matches Some(p) ==> p == self@.payments[payment_index(self@, id)],
    {
        match self.find_payment(id) {
            Some(i) => Some(self.payments[i].snapshot()),
            None => None,
        }
    }

    /// The most recent payment of order `order_id`, if it has any.
    pub fn get_payment_by_order_id(&self, order_id: u128) -> (r: Option<Payment>)
        ensures
            r is None <==> forall|j: int| 0 <= j < self@.payments.len() ==> #[trigger] self@.payments[j].order_id != order_id,
            r matches Some(p) ==> exists|i: int| 0 <= i < self@.payments.len() && #[trigger] self@.payments[i] == p
                && p.order_id == order_id
                && forall|j: int| i < j < self@.payments.len() ==> #[trigger] self@.payments[j].order_id != order_id,
    {
        let mut i: usize = self.payments.len();
        while i > 0
            invariant
                i <= self.payments@.len(),
                forall|j: int| i <= j < self.payments@.len() ==> #[trigger] self.payments@[j].order_id != order_id,
            decreases i,
        {
            i = i - 1;
            if self.payments[i].order_id == order_id {
                let p = self.payments[i].snapshot();
                assert(self@.payments[i as int] == p);
                return Some(p);
            }
        }
        None
    }

    /// Places an order as `create_order` does, drawing fresh random ids for
    /// the order and its line items and stamping it with the current time.
    ///
    /// Fails with a validation error exactly when the items are invalid; a
    /// storage error can only come from a clash of random ids.
    pub fn place_order(&mut self, new_order: NewOrder) -> (r: Result<Order, ServiceError>)
        requires
            old(self).wf(),
        ensures
            final(self).wf(),
            r is Err ==> final(self)@ == old(self)@,
            r matches Err(e) ==> e is Validation || e is DatabaseError,
            r matches Err(ServiceError::Validation(_)) <==> !items_valid(new_order.items@),
            r matches Ok(o) ==> {
                &&& o == placed_order(new_order, o.id, o.created_at)
                &&& o.total == items_total(new_order.items@)
                &&& exists|p: int| 0 <= p <= old(self)@.orders.len()
                    && final(self)@.orders == old(self)@.orders.insert(p, o)
                &&& exists|ids: Seq<u128>| final(self)@.items == old(self)@.items + placed_items(o.id, ids, new_order.items@)
                &&& final(self)@.payments == old(self)@.payments
            },
    {
        let mut item_ids: Vec<u128> = Vec::new();
        let mut k: usize = 0;
        while k < new_order.items.len()
            invariant
                k <= new_order.items@.len(),
                item_ids@.len() == k,
            decreases new_order.items@.len() - k,
        {
            item_ids.push(fresh_id());
            k = k + 1;
        }
        let order_id = fresh_id();
        let created_at = now_millis();
        let r = self.create_order(new_order, order_id, &item_ids, created_at);
        assert(r is Ok ==> final(self)@.items == old(self)@.items + placed_items(order_id, item_ids@, new_order.items@));
        r
    }

    /// Records the outcome of a gateway payment request as `record_payment`
    /// does, drawing a fresh random payment id and reading the clock.
    pub fn create_payment(&mut self, request: &GatewayRequest, outcome: Result<String, GatewayFailure>) -> (r: Result<Payment, ServiceError>)
        requires
            old(self).wf(),
        ensures
            final(self).wf(),
            r is Err ==> final(self)@ == old(self)@,
            r matches Err(ServiceError::GatewayError(_)) <==> outcome is Err,
            r matches Err(ServiceError::NotFound(_)) <==> outcome is Ok && !has_order(old(self)@, request.order_id),
            r matches Err(ServiceError::Validation(_)) <==> outcome is Ok && has_order(old(self)@, request.order_id) && (
                !payment_allowed(old(self)@, request.order_id)
                || request.amount != stored_order(old(self)@, request.order_id).total),
            r matches Err(e) ==> e is GatewayError || e is NotFound || e is Validation || e is DatabaseError,
            r matches Ok(p) ==> {
                &&& outcome is Ok
                &&& p == recorded_payment(*request, outcome->Ok_0, p.id, p.created_at)
                &&& final(self)@.payments == old(self)@.payments.push(p)
                &&& final(self)@.orders == old(self)@.orders
                &&& final(self)@.items == old(self)@.items
            },
    {
        let payment_id = fresh_id();
        let now = now_millis();
        self.record_payment(request, outcome, payment_id, now)
    }

    /// Records the outcome of a hosted-link payment request as
    /// `create_payment` does, and hands back the link for the payer.
    pub fn record_indirect_payment(
        &mut self,
        request: &GatewayRequest,
        outcome: Result<CreatePaymentResponse, GatewayFailure>,
    ) -> (r: Result<IndirectPayment, ServiceError>)
        requires
            old(self).wf(),
        ensures
            final(self).wf(),
            r is Err ==> final(self)@ == old(self)@,
            r matches Err(ServiceError::GatewayError(_)) <==> outcome is Err,
            r matches Err(ServiceError::NotFound(_)) <==> outcome is Ok && !has_order(old(self)@, request.order_id),
            r matches Err(ServiceError::Validation(_)) <==> outcome is Ok && has_order(old(self)@, request.order_id) && (
                !payment_allowed(old(self)@, request.order_id)
                || request.amount != stored_order(old(self)@, request.order_id).total),
            r matches Err(e) ==> e is GatewayError || e is NotFound || e is Validation || e is DatabaseError,
            r matches Ok(ip) ==> {
                &&& outcome is Ok
                &&& ip.payment_link == outcome->Ok_0.payment_link
                &&& ip.payment == recorded_payment(*request, outcome->Ok_0.transaction_id, ip.payment.id, ip.payment.created_at)
                &&& final(self)@.payments == old(self)@.payments.push(ip.payment)
                &&& final(self)@.orders == old(self)@.orders
                &&& final(self)@.items == old(self)@.items
            },
    {
        match outcome {
            Ok(resp) => {
                let CreatePaymentResponse { payment_link, transaction_id, .. } = resp;
                match self.create_payment(request, Ok(transaction_id)) {
                    Ok(payment) => Ok(IndirectPayment { payment, payment_link }),
                    Err(e) => Err(e),
                }
            },
            Err(f) => Err(gateway_error(f)),
        }
    }

    /// Looks an order up by id. Line items are fetched separately.
    pub fn get_order_by_id(&self, id: u128) -> (r: Option<Order>)
        requires
            self.wf(),
        ensures
            r is None <==> !has_order(self@, id),
            r matches Some(o) ==> o.id == id && self@.orders.contains(o),
    {
        match self.find_order(id) {
            Some(i) => Some(self.orders[i].snapshot()),
            None => None,
        }
    }

    /// The line items of order `id`, in insertion order; empty when the order
    /// has none or does not exist.
    pub fn get_order_items(&self, id: u128) -> (r: Vec<OrderItem>)
        ensures
            r@ == items_of(self@.items, id),
    {
        let mut r: Vec<OrderItem> = Vec::new();
        let mut i: usize = 0;
        while i < self.items.len()
            invariant
                i <= self.items@.len(),
                r@ == items_of(self.items@.subrange(0, i as int), id),
            decreases self.items@.len() - i,
        {
            assert(self.items@.subrange(0, i + 1).drop_last() =~= self.items@.subrange(0, i as int));
            let item = self.items[i];
            if item.order_id == id {
                r.push(item);
            }
            i = i + 1;
        }
        assert(self.items@.subrange(0, self.items@.len() as int) =~= self.items@);
        r
    }
}

} // verus!
