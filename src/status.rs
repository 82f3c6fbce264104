//! Order and payment status values and their state machines.
use vstd::prelude::*;

verus! {

/// Lifecycle state of an order.
#[derive(Clone, Copy, Debug, PartialEq, Eq, Structural)]
pub enum OrderStatus {
    /// Created and awaiting payment.
    Pending,
    /// Paid and being prepared.
    Processing,
    /// Handed to the carrier.
    Shipped,
    /// Received by the customer (terminal).
    Delivered,
    /// Abandoned before shipping (terminal).
    Cancelled,
}

/// The allowed edges of the order state machine.
pub open spec fn order_transition_allowed(from: OrderStatus, to: OrderStatus) -> bool {
    match (from, to) {
        (OrderStatus::Pending, OrderStatus::Processing) => true,
        (OrderStatus::Pending, OrderStatus::Cancelled) => true,
        (OrderStatus::Processing, OrderStatus::Shipped) => true,
        (OrderStatus::Processing, OrderStatus::Cancelled) => true,
        (OrderStatus::Shipped, OrderStatus::Delivered) => true,
        _ => false,
    }
}

/// A terminal order state has no outgoing edge.
pub open spec fn order_is_terminal(s: OrderStatus) -> bool {
    s is Delivered || s is Cancelled
}

/// The lower-case wire name of an order status.
pub open spec fn order_status_text(s: OrderStatus) -> Seq<char> {
    match s {
        OrderStatus::Pending => seq!['p', 'e', 'n', 'd', 'i', 'n', 'g'],
        OrderStatus::Processing => seq!['p', 'r', 'o', 'c', 'e', 's', 's', 'i', 'n', 'g'],
        OrderStatus::Shipped => seq!['s', 'h', 'i', 'p', 'p', 'e', 'd'],
        OrderStatus::Delivered => seq!['d', 'e', 'l', 'i', 'v', 'e', 'r', 'e', 'd'],
        OrderStatus::Cancelled => seq!['c', 'a', 'n', 'c', 'e', 'l', 'l', 'e', 'd'],
    }
}

/// Lifecycle state of a payment.
#[derive(Clone, Copy, Debug, PartialEq, Eq, Structural)]
pub enum PaymentStatus {
    /// Requested from the gateway, outcome not yet known.
    Pending,
    /// Confirmed by the gateway (terminal).
    Success,
    /// Refused, failed or expired at the gateway (terminal).
    Failure,
}

/// The allowed edges of the payment state machine.
pub open spec fn payment_transition_allowed(from: PaymentStatus, to: PaymentStatus) -> bool {
    from is Pending && !(to is Pending)
}

/// The lower-case wire name of a payment status.
pub open spec fn payment_status_text(s: PaymentStatus) -> Seq<char> {
    match s {
        PaymentStatus::Pending => seq!['p', 'e', 'n', 'd', 'i', 'n', 'g'],
        PaymentStatus::Success => seq!['s', 'u', 'c', 'c', 'e', 's', 's'],
        PaymentStatus::Failure => seq!['f', 'a', 'i', 'l', 'u', 'r', 'e'],
    }
}

/// Failure to turn outside text into a value of the library.
#[derive(Debug)]
pub enum ErrorResponse {
    /// The text names no known value; it carries the text.
    ConversionFailed(String),
}

/// Character-wise equality of two strings.
fn text_eq(a: &str, b: &str) -> (r: bool)
    ensures
        r == (a@ == b@),
{
    let n = a.unicode_len();
    if n != b.unicode_len() {
        return false;
    }
    let mut i: usize = 0;
    while i < n
        invariant
            n == a@.len(),
            n == b@.len(),
            i <= n,
            a@.subrange(0, i as int) == b@.subrange(0, i as int),
        decreases n - i,
    {
        if a.get_char(i) != b.get_char(i) {
            return false;
        }
        assert(a@.subrange(0, i + 1) =~= a@.subrange(0, i as int).push(a@[i as int]));
        assert(b@.subrange(0, i + 1) =~= b@.subrange(0, i as int).push(b@[i as int]));
        i = i + 1;
    }
    assert(a@ =~= a@.subrange(0, n as int));
    assert(b@ =~= b@.subrange(0, n as int));
    true
}

impl OrderStatus {
    /// Whether the state machine has an edge from `self` to `to`.
    pub fn can_transition_to(&self, to: OrderStatus) -> (r: bool)
        ensures
            r == order_transition_allowed(*self, to),
    {
        match (*self, to) {
            (OrderStatus::Pending, OrderStatus::Processing) => true,
            (OrderStatus::Pending, OrderStatus::Cancelled) => true,
            (OrderStatus::Processing, OrderStatus::Shipped) => true,
            (OrderStatus::Processing, OrderStatus::Cancelled) => true,
            (OrderStatus::Shipped, OrderStatus::Delivered) => true,
            _ => false,
        }
    }

    /// Whether no transition leaves `self`.
    pub fn is_terminal(&self) -> (r: bool)
        ensures
            r == order_is_terminal(*self),
    {
        match *self {
            OrderStatus::Delivered | OrderStatus::Cancelled => true,
            _ => false,
        }
    }

    /// The lower-case wire name.
    pub fn as_str(&self) -> (r: &'static str)
        ensures
            r@ == order_status_text(*self),
    {
        match *self {
            OrderStatus::Pending => {
                proof { reveal_strlit("pending"); }
                "pending"
            },
            OrderStatus::Processing => {
                proof { reveal_strlit("processing"); }
                "processing"
            },
            OrderStatus::Shipped => {
                proof { reveal_strlit("shipped"); }
                "shipped"
            },
            OrderStatus::Delivered => {
                proof { reveal_strlit("delivered"); }
                "delivered"
            },
            OrderStatus::Cancelled => {
                proof { reveal_strlit("cancelled"); }
                "cancelled"
            },
        }
    }

    /// Reads a lower-case wire name; any other text is refused.
    pub fn parse(text: &str) -> (r: Result<OrderStatus, ErrorResponse>)
        ensures
            r matches Ok(s) ==> order_status_text(s) == text@,
            r is Err <==> (forall|s: OrderStatus| order_status_text(s) != text@),
            r matches Err(ErrorResponse::ConversionFailed(t)) ==> t@ == text@,
    {
        let all = [
            OrderStatus::Pending,
            OrderStatus::Processing,
            OrderStatus::Shipped,
            OrderStatus::Delivered,
            OrderStatus::Cancelled,
        ];
        let mut i: usize = 0;
        while i < 5
            invariant
                i <= 5,
                all@ == seq![
                    OrderStatus::Pending,
                    OrderStatus::Processing,
                    OrderStatus::Shipped,
                    OrderStatus::Delivered,
                    OrderStatus::Cancelled,
                ],
                forall|j: int| 0 <= j < i ==> order_status_text(#[trigger] all@[j]) != text@,
            decreases 5 - i,
        {
            let s = all[i];
            if text_eq(s.as_str(), text) {
                return Ok(s);
            }
            i = i + 1;
        }
        assert forall|s: OrderStatus| order_status_text(s) != text@ by {
            match s {
                OrderStatus::Pending => assert(all@[0] == s),
                OrderStatus::Processing => assert(all@[1] == s),
                OrderStatus::Shipped => assert(all@[2] == s),
                OrderStatus::Delivered => assert(all@[3] == s),
                OrderStatus::Cancelled => assert(all@[4] == s),
            }
        }
        Err(ErrorResponse::ConversionFailed(text.to_owned()))
    }
}

impl PaymentStatus {
    /// Whether the state machine has an edge from `self` to `to`.
    pub fn can_transition_to(&self, to: PaymentStatus) -> (r: bool)
        ensures
            r == payment_transition_allowed(*self, to),
    {
        match (*self, to) {
            (PaymentStatus::Pending, PaymentStatus::Success) => true,
            (PaymentStatus::Pending, PaymentStatus::Failure) => true,
            _ => false,
        }
    }

    /// The lower-case wire name.
    pub fn as_str(&self) -> (r: &'static str)
        ensures
            r@ == payment_status_text(*self),
    {
        match *self {
            PaymentStatus::Pending => {
                proof { reveal_strlit("pending"); }
                "pending"
            },
            PaymentStatus::Success => {
                proof { reveal_strlit("success"); }
                "success"
            },
            PaymentStatus::Failure => {
                proof { reveal_strlit("failure"); }
                "failure"
            },
        }
    }
}

} // verus!
