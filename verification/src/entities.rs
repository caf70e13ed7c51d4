//! The simulated population: cash balances and the agent engine.

use crate::SimulationError;
use vstd::prelude::*;

pub mod agents;
pub mod agents_view;
pub mod timeline_view;

verus! {

/// The cash of every agent, in minor units, by agent id.
#[derive(Debug, Clone)]
pub struct Balances(pub Vec<u128>);

impl Default for Balances {
    fn default() -> (balances: Balances)
        ensures
            balances@ == Seq::<u128>::empty(),
    {
        Balances(Vec::new())
    }
}

impl View for Balances {
    type V = Seq<u128>;

    open spec fn view(&self) -> Seq<u128> {
        self.0@
    }
}

/// What `Balances::add` returns and leaves behind, over plain values.
pub open spec fn credited(balances: Seq<u128>, agent_id: u64, amount: u128) -> (
    Seq<u128>,
    Result<(), SimulationError>,
) {
    if agent_id >= balances.len() {
        (balances, Err(SimulationError::AgentNotFound(agent_id)))
    } else if balances[agent_id as int] + amount > u128::MAX {
        (balances, Err(SimulationError::UnDoable))
    } else {
        (
            balances.update(agent_id as int, (balances[agent_id as int] + amount) as u128),
            Ok(()),
        )
    }
}

/// What `Balances::sub` returns and leaves behind, over plain values.
pub open spec fn debited(balances: Seq<u128>, agent_id: u64, amount: u128) -> (
    Seq<u128>,
    Result<(), SimulationError>,
) {
    if agent_id >= balances.len() {
        (balances, Err(SimulationError::AgentNotFound(agent_id)))
    } else if balances[agent_id as int] < amount {
        (balances, Err(SimulationError::Unspendable))
    } else {
        (
            balances.update(agent_id as int, (balances[agent_id as int] - amount) as u128),
            Ok(()),
        )
    }
}

impl Balances {
    /// The cash of an agent; `AgentNotFound` for an id without a balance.
    pub fn get(&self, agent_id: u64) -> (result: Result<u128, SimulationError>)
        ensures
            result == if agent_id < self@.len() {
                Ok::<u128, SimulationError>(self@[agent_id as int])
            } else {
                Err::<u128, SimulationError>(SimulationError::AgentNotFound(agent_id))
            },
    {
        if agent_id >= self.0.len() as u64 {
            return Err(SimulationError::AgentNotFound(agent_id));
        }
        Ok(self.0[agent_id as usize])
    }

    /// Credits an agent. Fails with `AgentNotFound` for an id without a
    /// balance and with `UnDoable` where the sum cannot be represented;
    /// nothing changes then.
    pub fn add(&mut self, agent_id: u64, amount: u128) -> (result: Result<(), SimulationError>)
        ensures
            (final(self)@, result) == credited(old(self)@, agent_id, amount),
    {
        if agent_id >= self.0.len() as u64 {
            return Err(SimulationError::AgentNotFound(agent_id));
        }
        let balance = self.0[agent_id as usize];
        if amount > u128::MAX - balance {
            return Err(SimulationError::UnDoable);
        }
        self.0[agent_id as usize] = balance + amount;
        Ok(())
    }

    /// Debits an agent. Fails with `AgentNotFound` for an id without a
    /// balance and with `Unspendable` where the agent has less than
    /// `amount`; nothing changes then.
    pub fn sub(&mut self, agent_id: u64, amount: u128) -> (result: Result<(), SimulationError>)
        ensures
            (final(self)@, result) == debited(old(self)@, agent_id, amount),
    {
        if agent_id >= self.0.len() as u64 {
            return Err(SimulationError::AgentNotFound(agent_id));
        }
        let balance = self.0[agent_id as usize];
        if balance < amount {
            return Err(SimulationError::Unspendable);
        }
        self.0[agent_id as usize] = balance - amount;
        Ok(())
    }
}

} // verus!
