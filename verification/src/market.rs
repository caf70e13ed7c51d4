//! What goes to the order book and what comes back from it. The book itself
//! is not part of this library.

use crate::trade_house::{Trade, TradeAction};
use crate::transaction::Transaction;
use vstd::prelude::*;

verus! {

/// An order as it is handed to the order book, after its collateral was
/// locked.
#[derive(Debug, Clone, Copy, PartialEq, Eq, Structural)]
pub struct MarketOrder {
    pub agent_id: u64,
    pub company_id: u64,
    pub strike_price: u64,
    pub acceptable_strike_price_deviation: u64,
    pub trade: Trade,
    pub action: TradeAction,
}

/// What became of an order that the book accepted.
#[derive(Debug, Clone, Copy, PartialEq, Eq, Structural)]
pub enum ActionState {
    /// The order waits in the book; its collateral stays locked.
    AddedToOffers,
    /// The order was matched in full.
    InstantlyResolved(Transaction),
    /// A part of the order was matched.
    PartiallyResolved(Transaction),
}

impl ActionState {
    /// The exchange that the order led to, if any.
    pub open spec fn spec_transaction(&self) -> Option<Transaction> {
        match self {
            ActionState::AddedToOffers => None,
            ActionState::InstantlyResolved(transaction) => Some(*transaction),
            ActionState::PartiallyResolved(transaction) => Some(*transaction),
        }
    }

    /// The exchange that the order led to, if any. Its strike price is what
    /// the book records as the company's latest price.
    #[verifier::when_used_as_spec(spec_transaction)]
    pub fn transaction(&self) -> (transaction: Option<Transaction>)
        ensures
            transaction == self.spec_transaction(),
    {
        match self {
            ActionState::AddedToOffers => None,
            ActionState::InstantlyResolved(transaction) => Some(*transaction),
            ActionState::PartiallyResolved(transaction) => Some(*transaction),
        }
    }
}

} // verus!
