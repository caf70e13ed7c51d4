//! Finalized exchanges and the trade intents that lead to them.

use crate::trade_house::{Trade, TradeAction};
use std::collections::HashMap;
use vstd::prelude::*;

verus! {

broadcast use vstd::std_specs::hash::group_hash_axioms;

/// A finalized exchange between two agents.
///
/// Settlement takes the shares from `buyer_id` and credits the cash to
/// `seller_id`.
#[derive(Debug, Clone, Copy, PartialEq, Eq, Structural)]
pub struct Transaction {
    /// The agent whose position the shares are taken from.
    pub buyer_id: u64,
    /// The agent who is credited the cash.
    pub seller_id: u64,
    pub company_id: u64,
    pub number_of_shares: u64,
    /// The price per share at which the exchange was done.
    pub strike_price: u64,
}

impl Transaction {
    pub fn new(
        buyer_id: u64,
        seller_id: u64,
        company_id: u64,
        number_of_shares: u64,
        strike_price: u64,
    ) -> (transaction: Transaction)
        ensures
            transaction == (Transaction {
                buyer_id,
                seller_id,
                company_id,
                number_of_shares,
                strike_price,
            }),
    {
        Transaction { buyer_id, seller_id, company_id, number_of_shares, strike_price }
    }
}

/// A number of shares of one company.
#[derive(Debug, Clone, Copy, PartialEq, Eq, Structural)]
pub struct Holding {
    pub company_id: u64,
    pub number_of_shares: u64,
}

/// A trade that an agent wants to make in the current tick.
#[derive(Debug, Clone, Copy, PartialEq, Eq, Structural)]
pub struct TodoTransactions {
    pub agent_id: u64,
    pub company_id: u64,
    pub strike_price: u64,
    pub action: TradeAction,
    pub trade: Trade,
}

/// The share counts of one agent, by company id. A company without an
/// entry stands for no shares.
#[derive(Debug, Clone)]
pub struct AgentHoldings(pub HashMap<u64, u64>);

impl View for AgentHoldings {
    type V = Map<u64, u64>;

    open spec fn view(&self) -> Map<u64, u64> {
        self.0@
    }
}

impl Default for AgentHoldings {
    fn default() -> (holdings: AgentHoldings)
        ensures
            holdings@ == Map::<u64, u64>::empty(),
    {
        AgentHoldings::new()
    }
}

impl AgentHoldings {
    /// The share count stored for a company, zero where there is none.
    pub open spec fn spec_get(&self, company_id: &u64) -> u64 {
        if self@.contains_key(*company_id) {
            self@[*company_id]
        } else {
            0
        }
    }

    /// No shares of any company.
    pub fn new() -> (holdings: AgentHoldings)
        ensures
            holdings@ == Map::<u64, u64>::empty(),
    {
        AgentHoldings(HashMap::new())
    }

    /// Sets the share count of a company, replacing what was there.
    pub fn insert(&mut self, company_id: u64, number_of_shares: u64)
        ensures
            final(self)@ == old(self)@.insert(company_id, number_of_shares),
    {
        self.0.insert(company_id, number_of_shares);
    }

    /// The share count of a company, zero where there is no entry for it.
    #[verifier::when_used_as_spec(spec_get)]
    pub fn get(&self, company_id: &u64) -> (share_count: u64)
        ensures
            share_count == self.spec_get(company_id),
    {
        match self.0.get(company_id) {
            Some(share_count) => *share_count,
            None => 0,
        }
    }

    /// Adds shares to a company's count, creating it where there was none.
    pub fn push(&mut self, company_id: u64, number_of_shares: u64)
        requires
            old(self).get(&company_id) + number_of_shares <= u64::MAX,
        ensures
            final(self)@ == old(self)@.insert(
                company_id,
                (old(self).get(&company_id) + number_of_shares) as u64,
            ),
    {
        let share_count = self.get(&company_id);
        self.0.insert(company_id, share_count + number_of_shares);
    }

    /// Takes shares out of a company's count and says whether it did. It
    /// does not where the company has no entry or fewer shares than asked
    /// for; nothing changes then.
    pub fn pop(&mut self, company_id: u64, number_of_shares: u64) -> (done: bool)
        ensures
            done <==> old(self)@.contains_key(company_id) && old(self)@[company_id]
                >= number_of_shares,
            done ==> final(self)@ == old(self)@.insert(
                company_id,
                (old(self)@[company_id] - number_of_shares) as u64,
            ),
            !done ==> final(self)@ == old(self)@,
    {
        let share_count = match self.0.get(&company_id) {
            Some(share_count) => *share_count,
            None => {
                return false;
            },
        };
        if share_count < number_of_shares {
            return false;
        }
        self.0.insert(company_id, share_count - number_of_shares);
        true
    }

    /// `push` with the company and the quantity of a transaction.
    pub fn push_from_txn(&mut self, transaction: &Transaction)
        requires
            old(self).get(&transaction.company_id) + transaction.number_of_shares <= u64::MAX,
        ensures
            final(self)@ == old(self)@.insert(
                transaction.company_id,
                (old(self).get(&transaction.company_id) + transaction.number_of_shares) as u64,
            ),
    {
        self.push(transaction.company_id, transaction.number_of_shares)
    }

    /// `pop` with the company and the quantity of a transaction.
    pub fn pop_from_txn(&mut self, transaction: &Transaction) -> (done: bool)
        ensures
            done <==> old(self)@.contains_key(transaction.company_id) && old(
                self,
            )@[transaction.company_id] >= transaction.number_of_shares,
            done ==> final(self)@ == old(self)@.insert(
                transaction.company_id,
                (old(self)@[transaction.company_id] - transaction.number_of_shares) as u64,
            ),
            !done ==> final(self)@ == old(self)@,
    {
        self.pop(transaction.company_id, transaction.number_of_shares)
    }
}

} // verus!
