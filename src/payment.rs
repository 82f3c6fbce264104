//! Payments, the messages exchanged with the payment gateway, and the mapping
//! of gateway-reported states onto the payment state machine.
use vstd::prelude::*;

use crate::status::PaymentStatus;

verus! {

/// How the payer completes a payment.
#[derive(Clone, Copy, Debug, PartialEq, Eq, Structural)]
pub enum PaymentMode {
    /// A collection request pushed to the payer's mobile number.
    Direct,
    /// A hosted payment link that the payer opens out of band.
    Indirect,
}

/// A payment record. Payments are never deleted.
#[derive(Debug)]
pub struct Payment {
    pub id: u128,
    pub order_id: u128,
    pub amount: u64,
    pub status: PaymentStatus,
    pub payment_method: PaymentMode,
    /// The identifier that the gateway issued for the transaction.
    pub transaction_id: String,
    /// Provider-specific details, as JSON text; the library does not read it.
    pub details: Option<String>,
    pub created_at: i64,
    pub updated_at: i64,
}

impl Payment {
    /// An identical copy of the record.
    pub fn snapshot(&self) -> (r: Payment)
        ensures
            r == *self,
    {
        Payment {
            id: self.id,
            order_id: self.order_id,
            amount: self.amount,
            status: self.status,
            payment_method: self.payment_method,
            transaction_id: self.transaction_id.clone(),
            details: match &self.details {
                Some(d) => Some(d.clone()),
                None => None,
            },
            created_at: self.created_at,
            updated_at: self.updated_at,
        }
    }
}

/// What the caller must send to the gateway to initiate a payment: the
/// amount, and the order id as the external reference that later lets the
/// gateway's answers be matched back to the order.
#[derive(Debug)]
pub struct GatewayRequest {
    pub order_id: u128,
    pub amount: u64,
    pub external_reference: String,
    pub mode: PaymentMode,
}

/// Why a gateway call produced no transaction.
#[derive(Debug)]
pub enum GatewayFailure {
    /// No answer within the bounded wait.
    Timeout,
    /// The network or the provider could not be reached.
    Unreachable(String),
    /// The provider answered with a refusal or a non-success status.
    Rejected(String),
}

/// The state of a transaction as the gateway reports it.
#[derive(Clone, Copy, Debug, PartialEq, Eq, Structural)]
pub enum GatewayStatus {
    Created,
    Pending,
    Successful,
    Failed,
    Expired,
}

/// The payment state that a gateway report settles, if any.
pub open spec fn settled_status(g: GatewayStatus) -> Option<PaymentStatus> {
    match g {
        GatewayStatus::Successful => Some(PaymentStatus::Success),
        GatewayStatus::Failed => Some(PaymentStatus::Failure),
        GatewayStatus::Expired => Some(PaymentStatus::Failure),
        _ => None,
    }
}

impl GatewayStatus {
    /// The payment state that this report settles: success, failure, or
    /// nothing yet.
    pub fn settles(&self) -> (r: Option<PaymentStatus>)
        ensures
            r == settled_status(*self),
    {
        match *self {
            GatewayStatus::Successful => Some(PaymentStatus::Success),
            GatewayStatus::Failed => Some(PaymentStatus::Failure),
            GatewayStatus::Expired => Some(PaymentStatus::Failure),
            _ => None,
        }
    }
}

/// The gateway's answer to a hosted-link (indirect) payment request.
#[derive(Debug)]
pub struct CreatePaymentResponse {
    pub payment_link: String,
    pub transaction_id: String,
    pub date_initiated: String,
}

/// A recorded indirect payment, with the link to hand to the payer.
#[derive(Debug)]
pub struct IndirectPayment {
    pub payment: Payment,
    pub payment_link: String,
}

} // verus!
