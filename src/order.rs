//! Orders, their line items, and the computation of an order's total.
use vstd::prelude::*;

use crate::status::OrderStatus;

verus! {

/// A line item as the caller submits it: the product, how many, and the unit
/// price captured when the order is placed (never re-read from the catalog).
/// Prices are integer amounts in the currency's minor unit.
#[derive(Clone, Copy, Debug, PartialEq, Eq, Structural)]
pub struct OrderItemRequest {
    pub product_id: u128,
    pub quantity: u32,
    pub price: u64,
}

/// What a customer submits to place an order.
#[derive(Debug)]
pub struct NewOrder {
    pub user_id: u128,
    pub customer_name: String,
    pub customer_email: Option<String>,
    pub customer_phone: String,
    pub delivery_address: String,
    pub city: String,
    pub region: String,
    pub items: Vec<OrderItemRequest>,
}

/// A persisted order. `total` is a snapshot taken at creation.
#[derive(Debug)]
pub struct Order {
    pub id: u128,
    pub user_id: u128,
    pub customer_name: String,
    pub customer_email: Option<String>,
    pub customer_phone: String,
    pub delivery_address: String,
    pub city: String,
    pub region: String,
    pub status: OrderStatus,
    pub total: u64,
    pub created_at: i64,
}

impl Order {
    /// An identical copy of the record.
    pub fn snapshot(&self) -> (r: Order)
        ensures
            r == *self,
    {
        let customer_email = match &self.customer_email {
            Some(e) => Some(e.clone()),
            None => None,
        };
        Order {
            id: self.id,
            user_id: self.user_id,
            customer_name: self.customer_name.clone(),
            customer_email,
            customer_phone: self.customer_phone.clone(),
            delivery_address: self.delivery_address.clone(),
            city: self.city.clone(),
            region: self.region.clone(),
            status: self.status,
            total: self.total,
            created_at: self.created_at,
        }
    }
}

/// A persisted line item, owned by the order `order_id`.
#[derive(Clone, Copy, Debug, PartialEq, Eq, Structural)]
pub struct OrderItem {
    pub id: u128,
    pub order_id: u128,
    pub product_id: u128,
    pub quantity: u32,
    pub unit_price: u64,
}

/// The sum of `quantity * price` over a list of line items.
pub open spec fn items_total(items: Seq<OrderItemRequest>) -> int
    decreases items.len(),
{
    if items.len() == 0 {
        0
    } else {
        items_total(items.drop_last()) + items.last().quantity * items.last().price
    }
}

/// Every line item asks for at least one unit.
pub open spec fn quantities_positive(items: Seq<OrderItemRequest>) -> bool {
    forall|i: int| 0 <= i < items.len() ==> #[trigger] items[i].quantity > 0
}

/// A list of line items from which an order can be made.
pub open spec fn items_valid(items: Seq<OrderItemRequest>) -> bool {
    &&& items.len() > 0
    &&& quantities_positive(items)
    &&& items_total(items) <= u64::MAX
}

/// Totals of prefixes never shrink: every term is non-negative.
pub proof fn lemma_items_total_monotone(items: Seq<OrderItemRequest>, i: int, j: int)
    requires
        0 <= i <= j <= items.len(),
    ensures
        items_total(items.subrange(0, i)) <= items_total(items.subrange(0, j)),
    decreases j - i,
{
    if i < j {
        lemma_items_total_monotone(items, i, j - 1);
        assert(items.subrange(0, j).drop_last() =~= items.subrange(0, j - 1));
        let last = items[j - 1];
        assert(last.quantity * last.price >= 0) by (nonlinear_arith);
    }
}

/// Checks a list of line items and computes its total.
///
/// Returns `Err` with a validation error exactly when the list is empty, a
/// quantity is zero, or the total does not fit in a `u64`.
pub fn order_total(items: &Vec<OrderItemRequest>) -> (r: Result<u64, crate::error::ServiceError>)
    ensures
        r matches Ok(t) ==> items_valid(items@) && t == items_total(items@),
        r is Err ==> !items_valid(items@),
        r matches Err(e) ==> e is Validation,
{
    if items.len() == 0 {
        return Err(crate::error::ServiceError::Validation("an order needs at least one item".to_string()));
    }
    let mut total: u64 = 0;
    let mut i: usize = 0;
    while i < items.len()
        invariant
            i <= items@.len(),
            total == items_total(items@.subrange(0, i as int)),
            forall|j: int| 0 <= j < i ==> #[trigger] items@[j].quantity > 0,
        decreases items@.len() - i,
    {
        let item = items[i];
        assert(items@.subrange(0, i + 1).drop_last() =~= items@.subrange(0, i as int));
        if item.quantity == 0 {
            return Err(crate::error::ServiceError::Validation("item quantity must be positive".to_string()));
        }
        let line = (item.quantity as u64).checked_mul(item.price);
        match line {
            None => {
                proof {
                    assert(item.quantity as int * item.price as int > u64::MAX) ;
                    lemma_items_total_monotone(items@, i + 1, items@.len() as int);
                    assert(items@.subrange(0, items@.len() as int) =~= items@);
                }
                return Err(crate::error::ServiceError::Validation("order total out of range".to_string()));
            },
            Some(l) => {
                match total.checked_add(l) {
                    None => {
                        proof {
                            lemma_items_total_monotone(items@, i + 1, items@.len() as int);
                            assert(items@.subrange(0, items@.len() as int) =~= items@);
                        }
                        return Err(crate::error::ServiceError::Validation("order total out of range".to_string()));
                    },
                    Some(t) => {
                        total = t;
                    },
                }
            },
        }
        i = i + 1;
    }
    assert(items@.subrange(0, items@.len() as int) =~= items@);
    Ok(total)
}

} // verus!
