//! The vocabulary shared with the order book: sides, trades and offers.

use vstd::prelude::*;

verus! {

/// The side of an order.
#[derive(Debug, Clone, Copy, PartialEq, Eq, Structural)]
pub enum TradeAction {
    Buy,
    Sell,
}

impl TradeAction {
    /// The opposite side.
    pub fn complement(&self) -> (other: TradeAction)
        ensures
            other == match *self {
                TradeAction::Buy => TradeAction::Sell,
                TradeAction::Sell => TradeAction::Buy,
            },
    {
        match self {
            TradeAction::Buy => TradeAction::Sell,
            TradeAction::Sell => TradeAction::Buy,
        }
    }
}

/// One preference signal: a company and the side the agent leans to.
pub type Event = (u64, TradeAction);

/// A plain order for a number of shares.
#[derive(Debug, Clone, Copy, PartialEq, Eq, Structural)]
pub struct Trade {
    pub number_of_shares: u64,
}

impl Trade {
    pub fn new(number_of_shares: u64) -> (trade: Trade)
        ensures
            trade.number_of_shares == number_of_shares,
    {
        Trade { number_of_shares }
    }
}

/// An order for an option on a number of shares.
#[derive(Debug, Clone, Copy, PartialEq, Eq, Structural)]
pub struct StockOption {
    pub number_of_shares: u64,
}

/// What an offer is about, as far as the agents' books are concerned: the
/// number of shares it locks.
pub trait Lot {
    spec fn lot(&self) -> u64;

    fn number_of_shares(&self) -> (number_of_shares: u64)
        ensures
            number_of_shares == self.lot(),
    ;
}

impl Lot for Trade {
    open spec fn lot(&self) -> u64 {
        self.number_of_shares
    }

    fn number_of_shares(&self) -> (number_of_shares: u64) {
        self.number_of_shares
    }
}

impl Lot for StockOption {
    open spec fn lot(&self) -> u64 {
        self.number_of_shares
    }

    fn number_of_shares(&self) -> (number_of_shares: u64) {
        self.number_of_shares
    }
}

/// An order waiting in the book of a company.
#[derive(Debug, Clone, Copy)]
pub struct Offer<T> {
    /// The agent who placed the order and whose collateral it locks.
    pub offerer_id: u64,
    /// The limit price per share, in minor units.
    pub strike_price: u64,
    pub data: T,
}

/// An offer that left the book unmatched, with its side.
#[derive(Debug, Clone, Copy)]
pub struct FailedOffer<T>(pub Offer<T>, pub TradeAction);

/// An expired offer as plain values.
pub struct Expired {
    pub company_id: u64,
    pub offerer_id: u64,
    pub strike_price: u64,
    pub number_of_shares: u64,
    pub action: TradeAction,
}

impl<T: Lot> FailedOffer<T> {
    /// This offer, which was made for shares of `company_id`, as plain
    /// values.
    pub open spec fn expired(&self, company_id: u64) -> Expired {
        Expired {
            company_id,
            offerer_id: self.0.offerer_id,
            strike_price: self.0.strike_price,
            number_of_shares: self.0.data.lot(),
            action: self.1,
        }
    }
}

} // verus!
