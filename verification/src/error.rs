//! What the book reports when it refuses a request.

use crate::order::Side;
use vstd::prelude::*;

verus! {

/// Why the book refused a request.
#[derive(Debug, PartialEq, Eq)]
pub enum OrderBookError {
    /// The request makes no sense.
    InvalidOperation { message: String },
    /// A post-only order would have traded on arrival.
    PriceCrossing { price: u64, side: Side, opposite_price: u64 },
    /// An order that must trade at once could not.
    InsufficientLiquidity { side: Side, requested: u64, available: u64 },
}

/// What an error says.
pub enum Refusal {
    InvalidOperation { message: Seq<char> },
    PriceCrossing { price: u64, side: Side, opposite_price: u64 },
    InsufficientLiquidity { side: Side, requested: u64, available: u64 },
}

impl View for OrderBookError {
    type V = Refusal;

    open spec fn view(&self) -> Refusal {
        match self {
            OrderBookError::InvalidOperation { message } => Refusal::InvalidOperation {
                message: message@,
            },
            OrderBookError::PriceCrossing { price, side, opposite_price } => Refusal::PriceCrossing {
                price: *price,
                side: *side,
                opposite_price: *opposite_price,
            },
            OrderBookError::InsufficientLiquidity { side, requested, available } =>
                Refusal::InsufficientLiquidity {
                    side: *side,
                    requested: *requested,
                    available: *available,
                },
        }
    }
}

} // verus!
