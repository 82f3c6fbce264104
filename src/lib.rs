//! Order placement and payment reconciliation for a marketplace backend.
//!
//! The library keeps orders, their line items and their payments in an
//! [`store::OrderStore`] whose operations are all-or-nothing, enforces the
//! order and payment state machines, and decides every step of a
//! gateway-backed payment. The caller performs the gateway call itself and
//! hands its outcome back to the store, so no lock is held across it.
//! Smaller modules hold the cart quantity rules, the admin activity feed and
//! the role check applied in front of the services.
use vstd::prelude::*;

pub mod status;
pub mod access;
pub mod admin;
pub mod cart;
pub mod error;
pub mod ids;
pub mod order;
pub mod payment;
pub mod store;
