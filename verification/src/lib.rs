//! Agent-side bookkeeping and settlement for a share-trading simulation.
//!
//! Cash amounts and prices are whole numbers of the smallest currency unit,
//! so every statement about money is exact.

use vstd::prelude::*;

pub mod agent;
pub mod entities;
pub mod market;
mod sampling;
pub mod trade_house;
pub mod transaction;

verus! {

/// The number of minor units in one unit of currency. All amounts of cash
/// and all prices in this library are counted in minor units.
pub const MINOR_UNITS_PER_UNIT: u64 = 100;

/// Number of agents that a fresh simulation starts with.
pub const NUM_OF_AGENTS: u64 = 1000;

/// The least cash that a new agent starts with, in minor units.
pub const MIN_INITIAL_BALANCE: u64 = 100_000;

/// The cash that a new agent starts with stays below this, in minor units.
pub const MAX_INITIAL_BALANCE: u64 = 100_000_000;

/// A grant of cash to an agent stays below this, in minor units.
pub const MAX_GRANTED_CASH: u64 = 100_000;

/// A grant of shares to an agent stays below this.
pub const MAX_GRANTED_SHARES: u64 = 1000;

/// The number of buy signals drawn for one company stays below this.
pub const MAX_RANDOM_PREFERENCE: u64 = 100;

/// How far from its strike price an order of a batch may be matched, in
/// minor units.
pub const STRIKE_PRICE_DEVIATION: u64 = 500;

/// Number of preference events that one agent's timeline keeps by default.
pub const TIMELINE_SIZE_LIMIT: usize = 1000;

/// Why an operation of the engine did not go through.
#[derive(Debug, Clone, Copy, PartialEq, Eq, Structural)]
pub enum SimulationError {
    /// The agent id is outside the range of known agents.
    AgentNotFound(u64),
    /// A timeline without events was sampled.
    NoData,
    /// Not enough cash or shares for the requested debit.
    Unspendable,
    /// A settlement step could not be completed.
    UnDoable,
}

} // verus!
