//! The quantity rules of a shopping cart line: what an update request does,
//! and how adding units to a line that already holds the product combines.
use vstd::prelude::*;

verus! {

/// A request to set the quantity of one cart line.
#[derive(Clone, Copy, Debug, PartialEq, Eq, Structural)]
pub struct UpdateCartRequest {
    pub quantity: i32,
}

/// What an update request does to its cart line.
#[derive(Clone, Copy, Debug, PartialEq, Eq, Structural)]
pub enum CartQuantityChange {
    /// A quantity of zero or less takes the line out of the cart.
    Remove,
    /// A positive quantity replaces the line's quantity.
    SetTo(i32),
}

impl UpdateCartRequest {
    /// The change that this request makes: removal for a quantity of zero or
    /// less, otherwise the new quantity.
    pub fn change(&self) -> (r: CartQuantityChange)
        ensures
            r is Remove <==> self.quantity <= 0,
            r matches CartQuantityChange::SetTo(q) ==> q == self.quantity,
    {
        if self.quantity <= 0 {
            CartQuantityChange::Remove
        } else {
            CartQuantityChange::SetTo(self.quantity)
        }
    }
}

/// The quantity of a cart line holding `existing` units after `added` more
/// units of the same product are put in the cart; `None` when the sum leaves
/// the range of `i32`.
pub fn merged_quantity(existing: i32, added: i32) -> (r: Option<i32>)
    ensures
        r matches Some(q) ==> q == existing + added,
        r is None <==> !(i32::MIN <= existing + added <= i32::MAX),
{
    existing.checked_add(added)
}

} // verus!
