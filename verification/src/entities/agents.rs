//! Holdings ledger, preference timelines and the settlement engine.

use crate::entities::agents_view::{
    drawn_grants, expired_of, holdings_of, is_walk, lemma_alerted_all_concat,
    lemma_alerted_all_prefix, lemma_alerted_all_unit, lemma_counted_walk, lemma_granted_failed,
    lemma_retried_failed, loaded_holdings, offers_of, overlaid, popped, pushed, shares,
    shares_at, AgentsView, Grant,
};
use crate::entities::timeline_view::{
    drawn_weights, fresh_timeline, lemma_first_round, lemma_next_slot, lemma_telling_copies,
    repeated, ring_slot, signalled, telling_copies, written, TimelineView,
};
use crate::entities::Balances;
use crate::market::{ActionState, MarketOrder};
use crate::sampling::{draw_below, draw_ratio};
use crate::trade_house::{Event, Expired, FailedOffer, Lot, StockOption, Trade, TradeAction};
pub use crate::transaction::AgentHoldings;
use crate::transaction::{TodoTransactions, Transaction};
use crate::{
    SimulationError, MAX_GRANTED_CASH, MAX_GRANTED_SHARES, MAX_INITIAL_BALANCE,
    MAX_RANDOM_PREFERENCE, MIN_INITIAL_BALANCE, NUM_OF_AGENTS, STRIKE_PRICE_DEVIATION,
    TIMELINE_SIZE_LIMIT,
};
use rand_chacha::ChaCha8Rng;
use std::collections::HashMap;
use vstd::prelude::*;
use vstd::std_specs::hash::spec_hash_map_iter;
use vstd::std_specs::iter::IteratorSpec;

verus! {

broadcast use vstd::std_specs::hash::group_hash_axioms;

/// The lookup key of a pair of identifiers: the first identifier fills the
/// upper 64 bits, the second the lower 64 bits.
pub open spec fn spec_combine(a: u64, b: u64) -> u128 {
    (a as int * 0x1_0000_0000_0000_0000 + b as int) as u128
}

/// The identifier in the upper 64 bits of a lookup key.
pub open spec fn spec_get_first(a: u128) -> u64 {
    (a as int / 0x1_0000_0000_0000_0000) as u64
}

/// The identifier in the lower 64 bits of a lookup key.
pub open spec fn spec_get_second(a: u128) -> u64 {
    (a as int % 0x1_0000_0000_0000_0000) as u64
}

/// Packs two identifiers into one lookup key.
#[verifier::when_used_as_spec(spec_combine)]
pub fn combine(a: u64, b: u64) -> (key: u128)
    ensures
        key == spec_combine(a, b),
{
    let hi: u128 = a as u128;
    let lo: u128 = b as u128;
    assert((hi << 64 | lo) == hi * 0x1_0000_0000_0000_0000 + lo) by (bit_vector)
        requires
            hi <= 0xFFFF_FFFF_FFFF_FFFF,
            lo <= 0xFFFF_FFFF_FFFF_FFFF,
    ;
    hi << 64 | lo
}

/// The first identifier of a lookup key.
#[verifier::when_used_as_spec(spec_get_first)]
pub fn get_first(a: u128) -> (first: u64)
    ensures
        first == spec_get_first(a),
{
    assert((a >> 64) == a / 0x1_0000_0000_0000_0000) by (bit_vector);
    (a >> 64) as u64
}

/// The second identifier of a lookup key.
#[verifier::when_used_as_spec(spec_get_second)]
pub fn get_second(a: u128) -> (second: u64)
    ensures
        second == spec_get_second(a),
{
    assert((a & 0xFFFF_FFFF_FFFF_FFFF) == a % 0x1_0000_0000_0000_0000) by (bit_vector);
    (a & 0xFFFF_FFFF_FFFF_FFFF) as u64
}

/// Unpacking a key gives back the two identifiers it was packed from.
pub proof fn lemma_key_round_trip(a: u64, b: u64)
    ensures
        get_first(combine(a, b)) == a,
        get_second(combine(a, b)) == b,
{
}

/// Packing the two halves of a key gives back the key.
pub proof fn lemma_key_rebuild(key: u128)
    ensures
        combine(get_first(key), get_second(key)) == key,
{
}

/// Two pairs share a key only if they are the same pair.
pub proof fn lemma_key_injective(a: u64, b: u64, c: u64, d: u64)
    requires
        combine(a, b) == combine(c, d),
    ensures
        a == c,
        b == d,
{
    lemma_key_round_trip(a, b);
    lemma_key_round_trip(c, d);
}

/// Share counts of all agents in all companies, keyed by the packed pair
/// (agent, company). A pair without an entry holds no shares.
#[derive(Debug, Clone)]
pub struct Holdings(HashMap<u128, u64>);

impl View for Holdings {
    type V = Map<u128, u64>;

    closed spec fn view(&self) -> Map<u128, u64> {
        self.0@
    }
}

impl Default for Holdings {
    fn default() -> (holdings: Holdings)
        ensures
            holdings@ == Map::<u128, u64>::empty(),
    {
        Holdings(HashMap::new())
    }
}

impl Holdings {
    /// The share count stored under a key, zero where there is none.
    pub open spec fn spec_get_u128(&self, id: u128) -> u64 {
        shares_at(self@, id)
    }

    /// The number of shares that `agent_id` holds in `company_id`.
    pub open spec fn spec_get(&self, agent_id: u64, company_id: u64) -> u64 {
        shares(self@, agent_id, company_id)
    }

    /// Sets the share count of a position, replacing what was there.
    pub fn insert(&mut self, agent_id: u64, company_id: u64, number_of_shares: u64)
        ensures
            final(self)@ == old(self)@.insert(combine(agent_id, company_id), number_of_shares),
    {
        self.0.insert(combine(agent_id, company_id), number_of_shares);
    }

    /// The number of shares that `agent_id` holds in `company_id`, zero
    /// where the ledger has no entry for them.
    #[verifier::when_used_as_spec(spec_get)]
    pub fn get(&self, agent_id: u64, company_id: u64) -> (share_count: u64)
        ensures
            share_count == shares(self@, agent_id, company_id),
    {
        self.get_u128(combine(agent_id, company_id))
    }

    /// The share count stored under a packed key, zero where there is
    /// none.
    #[verifier::when_used_as_spec(spec_get_u128)]
    pub fn get_u128(&self, id: u128) -> (share_count: u64)
        ensures
            share_count == shares_at(self@, id),
    {
        match self.0.get(&id) {
            Some(share_count) => *share_count,
            None => 0,
        }
    }

    /// Adds shares to a position, creating it where there was none.
    pub fn push(&mut self, agent_id: u64, company_id: u64, number_of_shares: u64)
        requires
            shares(old(self)@, agent_id, company_id) + number_of_shares <= u64::MAX,
        ensures
            final(self)@ == pushed(old(self)@, agent_id, company_id, number_of_shares),
    {
        let key = combine(agent_id, company_id);
        let share_count = self.get_u128(key);
        self.0.insert(key, share_count + number_of_shares);
    }

    /// Takes shares out of a position. Fails with `Unspendable` where the
    /// position holds fewer shares than asked for, and only then; the ledger
    /// stays as it is then.
    pub fn pop(&mut self, agent_id: u64, company_id: u64, number_of_shares: u64) -> (result:
        Result<(), SimulationError>)
        ensures
            (final(self)@, result) == popped(old(self)@, agent_id, company_id, number_of_shares),
            result is Err <==> shares(old(self)@, agent_id, company_id) < number_of_shares,
            result is Err ==> result == Err::<(), SimulationError>(SimulationError::Unspendable)
                && final(self)@ == old(self)@,
            result is Ok ==> shares(final(self)@, agent_id, company_id) == shares(
                old(self)@,
                agent_id,
                company_id,
            ) - number_of_shares,
    {
        let key = combine(agent_id, company_id);
        let share_count = self.get_u128(key);
        if share_count < number_of_shares {
            return Err(SimulationError::Unspendable);
        }
        if number_of_shares > 0 {
            self.0.insert(key, share_count - number_of_shares);
        }
        Ok(())
    }

    /// `push` with the company and the quantity of a transaction.
    pub fn push_from_txn(&mut self, target_agent_id: u64, transaction: &Transaction)
        requires
            shares(old(self)@, target_agent_id, transaction.company_id)
                + transaction.number_of_shares <= u64::MAX,
        ensures
            final(self)@ == pushed(
                old(self)@,
                target_agent_id,
                transaction.company_id,
                transaction.number_of_shares,
            ),
    {
        self.push(target_agent_id, transaction.company_id, transaction.number_of_shares)
    }

    /// `pop` with the company and the quantity of a transaction.
    pub fn pop_from_txn(&mut self, target_agent_id: u64, transaction: &Transaction) -> (result:
        Result<(), SimulationError>)
        ensures
            (final(self)@, result) == popped(
                old(self)@,
                target_agent_id,
                transaction.company_id,
                transaction.number_of_shares,
            ),
    {
        self.pop(target_agent_id, transaction.company_id, transaction.number_of_shares)
    }
}

/// A bounded history of one agent's preference signals.
#[derive(Debug)]
pub struct Timeline {
    data: Vec<Event>,
    target_index: usize,
    capacity: usize,
}

impl View for Timeline {
    type V = TimelineView;

    closed spec fn view(&self) -> TimelineView {
        TimelineView {
            data: self.data@,
            target_index: self.target_index as nat,
            capacity: self.capacity as nat,
        }
    }
}

impl Timeline {
    #[verifier::type_invariant]
    spec fn inv(&self) -> bool {
        self.target_index <= self.data@.len() <= self.capacity
    }

    /// An empty timeline of the default capacity.
    pub fn new() -> (timeline: Timeline)
        ensures
            timeline@ == fresh_timeline(),
    {
        Timeline { data: Vec::new(), target_index: 0, capacity: TIMELINE_SIZE_LIMIT }
    }

    /// An empty timeline that keeps at most `capacity` events.
    pub fn with_capacity(capacity: usize) -> (timeline: Timeline)
        ensures
            timeline@ == (TimelineView {
                data: Seq::empty(),
                target_index: 0,
                capacity: capacity as nat,
            }),
    {
        Timeline { data: Vec::new(), target_index: 0, capacity }
    }

    /// The timeline of the given parts, where they fit together: the buffer
    /// within the capacity, the start slot within the buffer.
    pub fn from_parts(data: Vec<Event>, target_index: usize, capacity: usize) -> (timeline: Option<
        Timeline,
    >)
        ensures
            timeline is Some <==> target_index <= data@.len() <= capacity,
            timeline matches Some(t) ==> t@ == (TimelineView {
                data: data@,
                target_index: target_index as nat,
                capacity: capacity as nat,
            }),
    {
        if target_index <= data.len() && data.len() <= capacity {
            Some(Timeline { data, target_index, capacity })
        } else {
            None
        }
    }

    /// The events, by buffer slot.
    pub fn data(&self) -> (data: &Vec<Event>)
        ensures
            data@ == self@.data,
            self@.wf(),
    {
        proof {
            use_type_invariant(self);
        }
        &self.data
    }

    /// The slot at which overwriting starts once the buffer is full.
    pub fn target_index(&self) -> (target_index: usize)
        ensures
            target_index == self@.target_index,
    {
        self.target_index
    }

    /// The largest number of events that the timeline keeps.
    pub fn capacity(&self) -> (capacity: usize)
        ensures
            capacity == self@.capacity,
            self@.wf(),
    {
        proof {
            use_type_invariant(self);
        }
        self.capacity
    }

    /// The number of events in the buffer.
    pub fn len(&self) -> (len: usize)
        ensures
            len == self@.data.len(),
            self@.wf(),
    {
        proof {
            use_type_invariant(self);
        }
        self.data.len()
    }

    /// Whether the buffer holds no event.
    pub fn is_empty(&self) -> (empty: bool)
        ensures
            empty <==> self@.data.len() == 0,
    {
        self.data.len() == 0
    }

    /// The event in a slot, if the buffer reaches that far.
    pub fn get(&self, slot: usize) -> (event: Option<Event>)
        ensures
            event is Some <==> slot < self@.data.len(),
            event matches Some(e) ==> e == self@.data[slot as int],
    {
        if slot < self.data.len() {
            Some(self.data[slot])
        } else {
            None
        }
    }

    /// Adds events to the timeline, the oldest first.
    pub fn add(&mut self, data: &[Event])
        ensures
            final(self)@ == old(self)@.add(data@),
            final(self)@.wf(),
    {
        proof {
            use_type_invariant(&*self);
        }
        let len = self.data.len();
        let count = data.len();
        let ghost before = self@;
        if len == self.capacity {
            if len == 0 {
                return ;
            }
            let mut slot = if self.target_index == len {
                0
            } else {
                self.target_index
            };
            proof {
                lemma_first_round(before.target_index as int, 0, len as int);
            }
            let mut i: usize = 0;
            while i < count
                invariant
                    i <= count,
                    count == data@.len(),
                    0 < len == before.data.len(),
                    slot == ring_slot(before.target_index as int, i as int, len as int),
                    slot < len,
                    self.target_index == before.target_index,
                    self.target_index <= len,
                    self.capacity == before.capacity,
                    self.capacity == len,
                    self.data@ == written(
                        before.data,
                        before.target_index as int,
                        data@.take(i as int),
                    ),
                    self.data@.len() == len,
                decreases count - i,
            {
                proof {
                    assert(data@.take(i + 1).drop_last() =~= data@.take(i as int));
                    lemma_next_slot(before.target_index as int, i as int, len as int);
                }
                self.data[slot] = data[i];
                slot = if slot + 1 == len {
                    0
                } else {
                    slot + 1
                };
                i += 1;
            }
            assert(data@.take(count as int) =~= data@);
            return ;
        }
        // The buffer grows outside the timeline, which stays well-formed
        // meanwhile, and is put back when it has its final length.
        let free = self.capacity - len;
        let mut buffer: Vec<Event> = Vec::new();
        let target = self.target_index;
        self.target_index = 0;
        core::mem::swap(&mut self.data, &mut buffer);
        if count <= free {
            let mut i: usize = 0;
            while i < count
                invariant
                    i <= count <= free,
                    count == data@.len(),
                    free == before.capacity - len,
                    len == before.data.len(),
                    buffer@ == before.data + data@.take(i as int),
                decreases count - i,
            {
                buffer.push(data[i]);
                i += 1;
                assert(buffer@ =~= before.data + data@.take(i as int));
            }
            assert(data@.take(count as int) =~= data@);
            core::mem::swap(&mut self.data, &mut buffer);
            self.target_index = target;
            return ;
        }
        let mut i: usize = 0;
        while i < free
            invariant
                i <= free < count,
                count == data@.len(),
                free == before.capacity - len,
                len == before.data.len(),
                len <= before.capacity,
                buffer@ == before.data + data@.take(i as int),
            decreases free - i,
        {
            buffer.push(data[i]);
            i += 1;
            assert(buffer@ =~= before.data + data@.take(i as int));
        }
        let ghost filled = buffer@;
        let ghost rest = data@.skip(free as int);
        let ring = self.capacity;
        let mut slot: usize = 0;
        proof {
            lemma_first_round(0, 0, ring as int);
        }
        while i < count
            invariant
                free <= i <= count,
                count == data@.len(),
                rest == data@.skip(free as int),
                0 < ring == before.capacity,
                filled.len() == ring,
                slot == ring_slot(0, i - free, ring as int),
                slot < ring,
                buffer@ == written(filled, 0, rest.take(i - free)),
                buffer@.len() == ring,
            decreases count - i,
        {
            proof {
                assert(rest.take(i - free + 1).drop_last() =~= rest.take(i - free));
                lemma_next_slot(0, i - free, ring as int);
            }
            buffer[slot] = data[i];
            slot = if slot + 1 == ring {
                0
            } else {
                slot + 1
            };
            i += 1;
        }
        proof {
            assert(rest.take(count - free) =~= rest);
            lemma_next_slot(0, count - free - 1, ring as int);
        }
        core::mem::swap(&mut self.data, &mut buffer);
        self.target_index = if slot == 0 {
            ring
        } else {
            slot
        };
    }

    /// An event drawn evenly from the whole buffer; `NoData` where the
    /// buffer is empty.
    pub fn get_rng(&self, rng: &mut ChaCha8Rng) -> (result: Result<Event, SimulationError>)
        ensures
            result is Err <==> self@.data.len() == 0,
            result is Err ==> result == Err::<Event, SimulationError>(SimulationError::NoData),
            result matches Ok(e) ==> exists|draw: int|
                0 <= draw < self@.data.len() && e == #[trigger] self@.data[draw],
    {
        if self.data.len() == 0 {
            return Err(SimulationError::NoData);
        }
        let index = draw_below(rng, self.data.len() as u64) as usize;
        let event = self.data[index];
        assert(event == self@.data[index as int]);
        Ok(event)
    }

    /// The event at position `draw` of a recency window of `bias_size`, if
    /// the window reaches that far.
    pub fn recent(&self, bias_size: usize, draw: usize) -> (event: Option<Event>)
        ensures
            event is Some <==> draw < self@.window(bias_size as nat),
            event matches Some(e) ==> e == self@.data[self@.recency_slot(
                bias_size as nat,
                draw as nat,
            )],
    {
        proof {
            use_type_invariant(self);
        }
        let len = self.data.len();
        if bias_size >= len {
            return self.get(draw);
        }
        if draw >= bias_size {
            return None;
        }
        if bias_size < self.target_index {
            return Some(self.data[draw + (self.target_index - bias_size)]);
        }
        if draw < self.target_index {
            return Some(self.data[draw]);
        }
        Some(self.data[len - (draw - self.target_index) - 1])
    }

    /// An event drawn evenly from the recency window of `bias_size`;
    /// `NoData` where there is nothing to draw from.
    pub fn recency_bias(&self, bias_size: usize, rng: &mut ChaCha8Rng) -> (result: Result<
        Event,
        SimulationError,
    >)
        ensures
            result is Err <==> self@.window(bias_size as nat) == 0,
            result is Err ==> result == Err::<Event, SimulationError>(SimulationError::NoData),
            result matches Ok(e) ==> exists|draw: nat|
                draw < self@.window(bias_size as nat) && e == self@.data[#[trigger] self@
                    .recency_slot(bias_size as nat, draw)],
    {
        if bias_size >= self.data.len() {
            let result = self.get_rng(rng);
            proof {
                if let Ok(e) = result {
                    let draw = choose|draw: int|
                        0 <= draw < self@.data.len() && e == #[trigger] self@.data[draw];
                    assert(self@.recency_slot(bias_size as nat, draw as nat) == draw);
                }
            }
            return result;
        }
        if bias_size == 0 {
            return Err(SimulationError::NoData);
        }
        let index = draw_below(rng, bias_size as u64) as usize;
        match self.recent(bias_size, index) {
            Some(event) => Ok(event),
            None => Err(SimulationError::NoData),
        }
    }
}

impl Default for Timeline {
    fn default() -> (timeline: Timeline)
        ensures
            timeline@ == fresh_timeline(),
    {
        Timeline::new()
    }
}

impl Clone for Timeline {
    fn clone(&self) -> (copy: Timeline)
        ensures
            copy@ == self@,
    {
        proof {
            use_type_invariant(self);
        }
        let mut data: Vec<Event> = Vec::new();
        let mut i: usize = 0;
        while i < self.data.len()
            invariant
                i <= self.data@.len(),
                data@ == self.data@.subrange(0, i as int),
            decreases self.data@.len() - i,
        {
            data.push(self.data[i]);
            i += 1;
            assert(data@ =~= self.data@.subrange(0, i as int));
        }
        assert(self.data@.subrange(0, i as int) =~= self.data@);
        Timeline { data, target_index: self.target_index, capacity: self.capacity }
    }
}

/// The timeline of one agent, as it is saved and loaded.
#[derive(Debug, Clone)]
pub struct AgentPreferences(pub Timeline);

impl Default for AgentPreferences {
    fn default() -> (preferences: AgentPreferences)
        ensures
            preferences.0@ == fresh_timeline(),
    {
        AgentPreferences(Timeline::new())
    }
}

/// One timeline per agent, by agent id.
#[derive(Debug, Clone)]
pub struct Preferences(pub Vec<Timeline>);

impl Default for Preferences {
    fn default() -> (preferences: Preferences)
        ensures
            preferences@ == Seq::<TimelineView>::empty(),
    {
        let preferences = Preferences(Vec::new());
        assert(preferences@ =~= Seq::<TimelineView>::empty());
        preferences
    }
}

impl View for Preferences {
    type V = Seq<TimelineView>;

    open spec fn view(&self) -> Seq<TimelineView> {
        self.0@.map_values(|timeline: Timeline| timeline@)
    }
}

impl Preferences {
    /// Gives an agent's timeline `weight` copies of an event. No more copies
    /// are made than it takes to tell the timeline as much.
    fn signal(&mut self, agent_id: u64, event: Event, weight: u64) -> (result: Result<
        (),
        SimulationError,
    >)
        ensures
            (final(self)@, result) == signalled(old(self)@, agent_id, event, weight),
    {
        if agent_id >= self.0.len() as u64 {
            return Err(SimulationError::AgentNotFound(agent_id));
        }
        let timeline = &self.0[agent_id as usize];
        let ghost before = timeline@;
        let ring = timeline.capacity() as u128;
        let free = ring - timeline.len() as u128;
        let copies = if ring == 0 {
            0
        } else if weight as u128 <= free + 2 * ring {
            weight
        } else {
            (free + ring + (weight as u128 - free - 1) % ring + 1) as u64
        };
        proof {
            lemma_telling_copies(before, event, weight as nat);
            assert(copies == telling_copies(before, weight as nat));
        }
        let mut events: Vec<Event> = Vec::new();
        let mut i: u64 = 0;
        while i < copies
            invariant
                i <= copies,
                events@ == repeated(event, i as nat),
            decreases copies - i,
        {
            events.push(event);
            i += 1;
            assert(events@ =~= repeated(event, i as nat));
        }
        self.0[agent_id as usize].add(events.as_slice());
        assert(self@ =~= signalled(old(self)@, agent_id, event, weight).0);
        Ok(())
    }

    /// Records that an agent leans to buying a company, `preference` times
    /// over.
    pub fn add(&mut self, agent_id: u64, company_id: u64, preference: u64) -> (result: Result<
        (),
        SimulationError,
    >)
        ensures
            (final(self)@, result) == signalled(
                old(self)@,
                agent_id,
                (company_id, TradeAction::Buy),
                preference,
            ),
    {
        self.signal(agent_id, (company_id, TradeAction::Buy), preference)
    }

    /// Records that an agent leans to selling a company, `preference` times
    /// over.
    pub fn sub(&mut self, agent_id: u64, company_id: u64, preference: u64) -> (result: Result<
        (),
        SimulationError,
    >)
        ensures
            (final(self)@, result) == signalled(
                old(self)@,
                agent_id,
                (company_id, TradeAction::Sell),
                preference,
            ),
    {
        self.signal(agent_id, (company_id, TradeAction::Sell), preference)
    }

    /// An event drawn evenly from an agent's timeline. Fails with
    /// `AgentNotFound` for an id without a timeline and with `NoData` where
    /// the timeline is empty.
    pub fn get_preferred_random(&self, agent_id: u64, rng: &mut ChaCha8Rng) -> (result: Result<
        Event,
        SimulationError,
    >)
        ensures
            agent_id >= self@.len() ==> result == Err::<Event, SimulationError>(
                SimulationError::AgentNotFound(agent_id),
            ),
            agent_id < self@.len() && self@[agent_id as int].data.len() == 0 ==> result == Err::<
                Event,
                SimulationError,
            >(SimulationError::NoData),
            agent_id < self@.len() && self@[agent_id as int].data.len() > 0 ==> result is Ok,
            result matches Ok(e) ==> agent_id < self@.len() && self@[agent_id as int].data.contains(
                e,
            ),
    {
        if agent_id >= self.0.len() as u64 {
            return Err(SimulationError::AgentNotFound(agent_id));
        }
        self.0[agent_id as usize].get_rng(rng)
    }
}

/// One agent as it is saved and loaded.
#[derive(Debug, Clone)]
pub struct Agent {
    pub id: u64,
    /// Cash, in minor units.
    pub balance: u128,
    /// Share counts by company id.
    pub holding: AgentHoldings,
    pub preferences: AgentPreferences,
}

/// The agents of the simulation: their cash, their shares, their
/// preferences, and the expired offers that wait for another attempt.
pub struct Agents {
    pub num_of_agents: u64,
    pub holdings: Holdings,
    pub balances: Balances,
    pub preferences: Preferences,
    pub try_offers: HashMap<u128, i128>,
}

impl Default for Agents {
    fn default() -> (agents: Agents)
        ensures
            agents@ == (AgentsView {
                num_of_agents: 0,
                holdings: Map::empty(),
                balances: Seq::empty(),
                preferences: Seq::empty(),
                try_offers: Map::empty(),
            }),
    {
        Agents::new()
    }
}

impl View for Agents {
    type V = AgentsView;

    open spec fn view(&self) -> AgentsView {
        AgentsView {
            num_of_agents: self.num_of_agents,
            holdings: self.holdings@,
            balances: self.balances@,
            preferences: self.preferences@,
            try_offers: self.try_offers@,
        }
    }
}

impl Agents {
    /// No agents, no shares, no offers to retry.
    pub fn new() -> (agents: Agents)
        ensures
            agents@ == (AgentsView {
                num_of_agents: 0,
                holdings: Map::empty(),
                balances: Seq::empty(),
                preferences: Seq::empty(),
                try_offers: Map::empty(),
            }),
    {
        Agents {
            num_of_agents: 0,
            holdings: Holdings::default(),
            balances: Balances::default(),
            preferences: Preferences::default(),
            try_offers: HashMap::new(),
        }
    }

    /// The engine state of saved agents. Balances and timelines are taken in
    /// the order of the agents; the share counts enter the ledger under each
    /// agent's id. The retry pool starts empty.
    pub fn load(agents: &[Agent]) -> (loaded: Agents)
        ensures
            loaded@ == (AgentsView {
                num_of_agents: agents@.len() as u64,
                holdings: loaded_holdings(agents@),
                balances: Seq::new(agents@.len(), |i: int| agents@[i].balance),
                preferences: Seq::new(agents@.len(), |i: int| agents@[i].preferences.0@),
                try_offers: Map::empty(),
            }),
    {
        let mut balances: Vec<u128> = Vec::new();
        let mut holdings = Holdings::default();
        let mut preferences: Vec<Timeline> = Vec::new();
        let mut i: usize = 0;
        while i < agents.len()
            invariant
                i <= agents@.len(),
                balances@ == Seq::new(i as nat, |k: int| agents@[k].balance),
                preferences@.len() == i,
                forall|k: int|
                    0 <= k < i ==> (#[trigger] preferences@[k])@ == agents@[k].preferences.0@,
                holdings@ == loaded_holdings(agents@.take(i as int)),
            decreases agents@.len() - i,
        {
            let agent = &agents[i];
            balances.push(agent.balance);
            assert(balances@ =~= Seq::new((i + 1) as nat, |k: int| agents@[k].balance));
            let ghost earlier = holdings@;
            let ghost walk = spec_hash_map_iter(&agent.holding.0).remaining().unref();
            proof {
                lemma_counted_walk(walk, agent.holding.0@);
            }
            let ghost mut seen: Set<u64> = Set::empty();
            assert(holdings@ =~= overlaid(earlier, agent.id, agent.holding@.restrict(seen)));
            for entry in it: agent.holding.0.iter()
                invariant
                    is_walk(walk, agent.holding@),
                    walk == it.seq().unref(),
                    forall|k: int| 0 <= k < it.index() ==> seen.contains(#[trigger] walk[k].0),
                    holdings@ == overlaid(earlier, agent.id, agent.holding@.restrict(seen)),
            {
                let (company_id, holding) = entry;
                proof {
                    assert(walk.contains(walk[it.index()]));
                    assert(agent.holding@.kv_pairs().contains((*company_id, *holding)));
                    lemma_key_round_trip(agent.id, *company_id);
                }
                holdings.insert(agent.id, *company_id, *holding);
                proof {
                    let wider = seen.insert(*company_id);
                    assert(holdings@ =~= overlaid(
                        earlier,
                        agent.id,
                        agent.holding@.restrict(wider),
                    )) by {
                        assert forall|key: u128| key != combine(agent.id, *company_id) implies !(
                        get_first(key) == agent.id && get_second(key) == *company_id) by {
                            lemma_key_rebuild(key);
                        }
                    }
                    seen = wider;
                }
            }
            proof {
                assert(agent.holding@.restrict(seen) =~= agent.holding@) by {
                    assert forall|company: u64|
                        agent.holding@.contains_key(company) implies seen.contains(company) by {
                        let pair = (company, agent.holding@[company]);
                        assert(agent.holding@.kv_pairs().contains(pair));
                        assert(walk.to_set().contains(pair));
                        let k = choose|k: int| 0 <= k < walk.len() && walk[k] == pair;
                        assert(seen.contains(walk[k].0));
                    }
                }
                assert(agents@.take(i + 1).drop_last() =~= agents@.take(i as int));
            }
            preferences.push(agent.preferences.0.clone());
            i += 1;
        }
        assert(agents@.take(i as int) =~= agents@);
        let loaded = Agents {
            num_of_agents: agents.len() as u64,
            balances: Balances(balances),
            holdings,
            preferences: Preferences(preferences),
            try_offers: HashMap::new(),
        };
        assert(loaded@.preferences =~= Seq::new(
            agents@.len(),
            |i: int| agents@[i].preferences.0@,
        ));
        loaded
    }

    /// The agents with the ids up to, not including, `num_of_agents`, as
    /// they are saved: each with its balance, its timeline and its share
    /// counts. Fails at the first id that has no timeline, with `NoData`,
    /// or no balance, with `AgentNotFound`.
    pub fn save(&self) -> (result: Result<Vec<Agent>, SimulationError>)
        ensures
            match result {
                Ok(saved) => {
                    &&& self@.num_of_agents <= self@.preferences.len()
                    &&& self@.num_of_agents <= self@.balances.len()
                    &&& saved@.len() == self@.num_of_agents
                    &&& forall|i: int|
                        0 <= i < saved@.len() ==> {
                            &&& (#[trigger] saved@[i]).id == i
                            &&& saved@[i].balance == self@.balances[i]
                            &&& saved@[i].preferences.0@ == self@.preferences[i]
                            &&& saved@[i].holding@ == holdings_of(self@.holdings, i as u64)
                        }
                },
                Err(e) => if self@.preferences.len() <= self@.balances.len() {
                    self@.num_of_agents > self@.preferences.len() && e == SimulationError::NoData
                } else {
                    self@.num_of_agents > self@.balances.len() && e
                        == SimulationError::AgentNotFound(self@.balances.len() as u64)
                },
            },
    {
        let mut agents: Vec<Agent> = Vec::new();
        let mut i: u64 = 0;
        while i < self.num_of_agents
            invariant
                i <= self@.num_of_agents,
                i <= self@.preferences.len(),
                i <= self@.balances.len(),
                agents@.len() == i,
                forall|k: int|
                    0 <= k < agents@.len() ==> {
                        &&& (#[trigger] agents@[k]).id == k
                        &&& agents@[k].balance == self@.balances[k]
                        &&& agents@[k].preferences.0@ == self@.preferences[k]
                        &&& agents@[k].holding@ == holdings_of(self@.holdings, k as u64)
                    },
            decreases self@.num_of_agents - i,
        {
            if i >= self.preferences.0.len() as u64 {
                return Err(SimulationError::NoData);
            }
            let balance = self.balances.get(i)?;
            let preferences = AgentPreferences(self.preferences.0[i as usize].clone());
            let holding = self.holdings_of(i);
            agents.push(Agent { id: i, balance, preferences, holding });
            i += 1;
        }
        Ok(agents)
    }

    /// The share counts that the ledger holds for one agent, by company id.
    pub fn holdings_of(&self, agent_id: u64) -> (holding: AgentHoldings)
        ensures
            holding@ == holdings_of(self@.holdings, agent_id),
    {
        let mut holding = AgentHoldings::new();
        let ghost walk = spec_hash_map_iter(&self.holdings.0).remaining().unref();
        proof {
            lemma_counted_walk(walk, self.holdings.0@);
        }
        for entry in it: self.holdings.0.iter()
            invariant
                is_walk(walk, self.holdings@),
                walk == it.seq().unref(),
                forall|company: u64| #[trigger]
                    holding@.contains_key(company) ==> self.holdings@.contains_key(
                        combine(agent_id, company),
                    ) && holding@[company] == self.holdings@[combine(agent_id, company)],
                forall|k: int|
                    0 <= k < it.index() && get_first(#[trigger] walk[k].0) == agent_id
                        ==> holding@.contains_key(get_second(walk[k].0)),
        {
            let (key, share_count) = entry;
            proof {
                assert(walk.contains(walk[it.index()]));
                assert(self.holdings@.kv_pairs().contains((*key, *share_count)));
                lemma_key_rebuild(*key);
            }
            if get_first(*key) == agent_id {
                holding.insert(get_second(*key), *share_count);
            }
        }
        proof {
            assert forall|company: u64|
                self.holdings@.contains_key(
                    combine(agent_id, company),
                ) implies holding@.contains_key(company) by {
                let pair = (combine(agent_id, company), self.holdings@[combine(agent_id, company)]);
                assert(self.holdings@.kv_pairs().contains(pair));
                assert(walk.to_set().contains(pair));
                let k = choose|k: int| 0 <= k < walk.len() && walk[k] == pair;
                lemma_key_round_trip(agent_id, company);
                assert(holding@.contains_key(get_second(walk[k].0)));
            }
            assert(holding@ =~= holdings_of(self@.holdings, agent_id));
        }
        holding
    }

    /// Gives an agent random buy signals for each of the companies 0 up to,
    /// not including, `num_of_companies`: for each company a number of
    /// signals below `MAX_RANDOM_PREFERENCE`. An id without a timeline is
    /// `AgentNotFound`.
    pub fn set_random_preferences_for_all_companies(
        &mut self,
        rng: &mut ChaCha8Rng,
        agent_id: u64,
        num_of_companies: u64,
    ) -> (result: Result<(), SimulationError>)
        ensures
            agent_id >= old(self)@.preferences.len() ==> final(self)@ == old(self)@ && result
                == Err::<(), SimulationError>(SimulationError::AgentNotFound(agent_id)),
            agent_id < old(self)@.preferences.len() ==> {
                &&& result is Ok
                &&& final(self)@.preferences.len() == old(self)@.preferences.len()
                &&& final(self)@ == (AgentsView {
                    preferences: old(self)@.preferences.update(
                        agent_id as int,
                        final(self)@.preferences[agent_id as int],
                    ),
                    ..old(self)@
                })
                &&& old(self)@.preferences[agent_id as int].leans_to(
                    final(self)@.preferences[agent_id as int],
                    num_of_companies,
                )
            },
    {
        if agent_id >= self.preferences.0.len() as u64 {
            return Err(SimulationError::AgentNotFound(agent_id));
        }
        let ghost start = self@.preferences[agent_id as int];
        let ghost mut weights: Seq<u64> = Seq::empty();
        let mut company_id: u64 = 0;
        assert(self@.preferences =~= old(self)@.preferences.update(agent_id as int, start));
        while company_id < num_of_companies
            invariant
                company_id <= num_of_companies,
                agent_id < old(self)@.preferences.len(),
                start == old(self)@.preferences[agent_id as int],
                drawn_weights(weights, company_id),
                self@ == (AgentsView {
                    preferences: old(self)@.preferences.update(
                        agent_id as int,
                        start.leaning(weights),
                    ),
                    ..old(self)@
                }),
            decreases num_of_companies - company_id,
        {
            let preference = draw_below(rng, MAX_RANDOM_PREFERENCE);
            let _ = self.preferences.add(agent_id, company_id, preference);
            proof {
                let longer = weights.push(preference);
                assert(longer.drop_last() =~= weights);
                assert(self@.preferences =~= old(self)@.preferences.update(
                    agent_id as int,
                    start.leaning(longer),
                ));
                weights = longer;
            }
            company_id += 1;
        }
        Ok(())
    }

    /// Gives each of the first `NUM_OF_AGENTS` agents random buy signals for
    /// each company, one agent after the other. Stops with `AgentNotFound`
    /// at the first of them that has no timeline.
    pub fn give_random_preferences(
        &mut self,
        rng: &mut ChaCha8Rng,
        num_of_companies: u64,
    ) -> (result: Result<(), SimulationError>)
        ensures
            result == if old(self)@.preferences.len() >= NUM_OF_AGENTS {
                Ok::<(), SimulationError>(())
            } else {
                Err::<(), SimulationError>(
                    SimulationError::AgentNotFound(old(self)@.preferences.len() as u64),
                )
            },
            final(self)@ == (AgentsView { preferences: final(self)@.preferences, ..old(self)@ }),
            final(self)@.preferences.len() == old(self)@.preferences.len(),
            forall|agent: int|
                0 <= agent < old(self)@.preferences.len() ==> if agent < NUM_OF_AGENTS {
                    (#[trigger] old(self)@.preferences[agent]).leans_to(
                        final(self)@.preferences[agent],
                        num_of_companies,
                    )
                } else {
                    final(self)@.preferences[agent] == old(self)@.preferences[agent]
                },
    {
        let mut i: u64 = 0;
        while i < NUM_OF_AGENTS
            invariant
                i <= NUM_OF_AGENTS,
                i <= old(self)@.preferences.len(),
                self@ == (AgentsView { preferences: self@.preferences, ..old(self)@ }),
                self@.preferences.len() == old(self)@.preferences.len(),
                forall|agent: int|
                    0 <= agent < old(self)@.preferences.len() ==> if agent < i {
                        (#[trigger] old(self)@.preferences[agent]).leans_to(
                            self@.preferences[agent],
                            num_of_companies,
                        )
                    } else {
                        self@.preferences[agent] == old(self)@.preferences[agent]
                    },
            decreases NUM_OF_AGENTS - i,
        {
            self.set_random_preferences_for_all_companies(rng, i, num_of_companies)?;
            i += 1;
        }
        Ok(())
    }

    /// Brings in `num_of_agents_to_introduce` new agents: each gets a
    /// balance from `MIN_INITIAL_BALANCE` up to, not including,
    /// `MAX_INITIAL_BALANCE`, and an empty timeline. Then the agents with
    /// the ids from `num_of_agents` on, as many as were brought in, are
    /// given random buy signals for each company, and `num_of_agents` grows.
    ///
    /// Where the new number of agents cannot be represented, the call is
    /// `UnDoable` and nothing changes. Where one of those ids has no
    /// timeline, the call stops there with `AgentNotFound`: the balances and
    /// timelines stay, `num_of_agents` does not grow.
    #[verifier::loop_isolation(false)]
    pub fn introduce_new_rand_agents(
        &mut self,
        rng: &mut ChaCha8Rng,
        num_of_agents_to_introduce: u64,
        num_of_companies: u64,
    ) -> (result: Result<(), SimulationError>)
        ensures
            old(self)@.num_of_agents + num_of_agents_to_introduce > u64::MAX ==> final(self)@
                == old(self)@ && result == Err::<(), SimulationError>(SimulationError::UnDoable),
            old(self)@.num_of_agents + num_of_agents_to_introduce <= u64::MAX ==> ({
                let before = old(self)@;
                let after = final(self)@;
                let first = before.num_of_agents as int;
                let end = first + num_of_agents_to_introduce;
                let timelines = before.preferences.len() + num_of_agents_to_introduce;
                &&& after.holdings == before.holdings
                &&& after.try_offers == before.try_offers
                &&& after.balances.len() == before.balances.len() + num_of_agents_to_introduce
                &&& after.balances.take(before.balances.len() as int) == before.balances
                &&& forall|agent: int|
                    before.balances.len() <= agent < after.balances.len() ==> MIN_INITIAL_BALANCE
                        <= #[trigger] after.balances[agent] < MAX_INITIAL_BALANCE
                &&& after.preferences.len() == timelines
                &&& forall|agent: int|
                    0 <= agent < timelines ==> {
                        let start = if agent < before.preferences.len() {
                            before.preferences[agent]
                        } else {
                            fresh_timeline()
                        };
                        if first <= agent < end {
                            start.leans_to(#[trigger] after.preferences[agent], num_of_companies)
                        } else {
                            after.preferences[agent] == start
                        }
                    }
                &&& result == if end <= timelines || num_of_agents_to_introduce == 0 {
                    Ok::<(), SimulationError>(())
                } else if first >= timelines {
                    Err::<(), SimulationError>(SimulationError::AgentNotFound(first as u64))
                } else {
                    Err::<(), SimulationError>(SimulationError::AgentNotFound(timelines as u64))
                }
                &&& after.num_of_agents == if result is Ok {
                    end
                } else {
                    first
                }
            }),
    {
        if num_of_agents_to_introduce > u64::MAX - self.num_of_agents {
            return Err(SimulationError::UnDoable);
        }
        let first = self.num_of_agents;
        let end = first + num_of_agents_to_introduce;
        let mut k: u64 = 0;
        while k < num_of_agents_to_introduce
            invariant
                k <= num_of_agents_to_introduce,
                self@ == (AgentsView { balances: self@.balances, ..old(self)@ }),
                self@.balances.len() == old(self)@.balances.len() + k,
                self@.balances.take(old(self)@.balances.len() as int) == old(self)@.balances,
                forall|agent: int|
                    old(self)@.balances.len() <= agent < self@.balances.len()
                        ==> MIN_INITIAL_BALANCE <= #[trigger] self@.balances[agent]
                        < MAX_INITIAL_BALANCE,
            decreases num_of_agents_to_introduce - k,
        {
            let cash = MIN_INITIAL_BALANCE + draw_below(
                rng,
                MAX_INITIAL_BALANCE - MIN_INITIAL_BALANCE,
            );
            self.balances.0.push(cash as u128);
            k += 1;
            assert(self@.balances.take(old(self)@.balances.len() as int) =~= old(self)@.balances);
        }
        let ghost funded = self@;
        k = 0;
        while k < num_of_agents_to_introduce
            invariant
                k <= num_of_agents_to_introduce,
                self@ == (AgentsView { preferences: self@.preferences, ..funded }),
                funded.preferences == old(self)@.preferences,
                self@.preferences.len() == old(self)@.preferences.len() + k,
                forall|agent: int|
                    0 <= agent < self@.preferences.len() ==> #[trigger] self@.preferences[agent]
                        == if agent < old(self)@.preferences.len() {
                        old(self)@.preferences[agent]
                    } else {
                        fresh_timeline()
                    },
            decreases num_of_agents_to_introduce - k,
        {
            let ghost housed_so_far = self@.preferences;
            self.preferences.0.push(Timeline::new());
            k += 1;
            assert(self@.preferences =~= housed_so_far.push(fresh_timeline()));
        }
        let ghost housed = self@;
        let mut i: u64 = first;
        while i < end
            invariant
                first <= i <= end,
                end == first + num_of_agents_to_introduce,
                first == old(self)@.num_of_agents,
                i > first ==> i <= housed.preferences.len(),
                self@ == (AgentsView { preferences: self@.preferences, ..housed }),
                self@.preferences.len() == housed.preferences.len(),
                forall|agent: int|
                    0 <= agent < housed.preferences.len() ==> if first <= agent < i {
                        housed.preferences[agent].leans_to(
                            #[trigger] self@.preferences[agent],
                            num_of_companies,
                        )
                    } else {
                        self@.preferences[agent] == housed.preferences[agent]
                    },
            decreases end - i,
        {
            self.set_random_preferences_for_all_companies(rng, i, num_of_companies)?;
            i += 1;
        }
        self.num_of_agents = end;
        Ok(())
    }

    /// Whether an agent has the cash for `quantity` shares at `price`;
    /// `AgentNotFound` for an id without a balance.
    pub fn can_buy(&self, agent_id: u64, price: u64, quantity: u64) -> (result: Result<
        bool,
        SimulationError,
    >)
        ensures
            result == self@.can_buy(agent_id, price, quantity),
    {
        let balance = self.balances.get(agent_id)?;
        Ok(balance >= cost(price, quantity))
    }

    /// Whether the position under a packed key holds `quantity` shares.
    pub fn can_sell(&self, id: u128, quantity: u64) -> (able: bool)
        ensures
            able == self@.can_sell(id, quantity),
    {
        self.holdings.get_u128(id) >= quantity
    }

    /// The ids of the agents.
    pub fn iter(&self) -> (ids: std::ops::Range<u64>)
        ensures
            ids.start == 0,
            ids.end == self.num_of_agents,
    {
        0..self.num_of_agents
    }

    /// Goes through the retry pool and adds to `transactions` the intents of
    /// the entries that are tried again. Each entry is let rest with a
    /// chance of 4 in 10; the pool is walked in an order that the map
    /// decides. The first failure ends the pass; what was added before
    /// stays. The pool itself is left as it is.
    pub fn try_failed_offers(
        &self,
        rng: &mut ChaCha8Rng,
        transactions: &mut Vec<TodoTransactions>,
        attempting_trade: &Trade,
    ) -> (result: Result<(), SimulationError>)
        ensures
            exists|walk: Seq<(u128, i128)>, skips: Seq<bool>|
                is_walk(walk, self@.try_offers) && skips.len() == walk.len() && (
                    final(transactions)@,
                    result,
                ) == ({
                    let (intents, outcome) = #[trigger] self@.retried(
                        walk,
                        skips,
                        *attempting_trade,
                    );
                    (old(transactions)@ + intents, outcome)
                }),
    {
        let ghost walk = spec_hash_map_iter(&self.try_offers).remaining().unref();
        proof {
            lemma_counted_walk(walk, self.try_offers@);
        }
        let ghost mut skips: Seq<bool> = Seq::empty();
        for entry in it: self.try_offers.iter()
            invariant
                is_walk(walk, self@.try_offers),
                walk == it.seq().unref(),
                skips.len() == it.index(),
                (transactions@, Ok::<(), SimulationError>(())) == ({
                    let (intents, outcome) = self@.retried(
                        walk.take(skips.len() as int),
                        skips,
                        *attempting_trade,
                    );
                    (old(transactions)@ + intents, outcome)
                }),
        {
            let (id, new_price) = entry;
            let ghost visited = skips.len() as int;
            let ghost before = skips;
            let ghost so_far = self@.retried(walk.take(visited), before, *attempting_trade).0;
            let skip = draw_ratio(rng, 4, 10);
            proof {
                skips = before.push(skip);
                assert(walk.take(visited + 1).drop_last() =~= walk.take(visited));
                assert(skips.drop_last() =~= before);
                assert(walk.take(visited + 1).last() == (*id, *new_price));
            }
            match self.retry_after(skip, *id, *new_price, attempting_trade) {
                Ok(Some(intent)) => {
                    transactions.push(intent);
                    assert(transactions@ =~= old(transactions)@ + so_far.push(intent));
                },
                Ok(None) => {},
                Err(e) => {
                    proof {
                        let rest = Seq::new((walk.len() - skips.len()) as nat, |i: int| true);
                        let all = skips + rest;
                        assert(all.take(visited + 1) =~= skips);
                        lemma_retried_failed(self@, walk, all, *attempting_trade, visited + 1);
                    }
                    return Err(e);
                },
            }
        }
        assert(walk.take(skips.len() as int) =~= walk);
        Ok(())
    }

    /// What a pass over the retry pool makes of one entry after the draw that
    /// decides whether the entry rests came out: nothing where it rests, else
    /// its intent, if it has one.
    pub fn retry_after(
        &self,
        skip: bool,
        id: u128,
        new_price: i128,
        attempting_trade: &Trade,
    ) -> (result: Result<Option<TodoTransactions>, SimulationError>)
        ensures
            result == self@.retry_after(skip, id, new_price, *attempting_trade),
    {
        if skip {
            Ok(None)
        } else {
            self.retry_intent(id, new_price, attempting_trade)
        }
    }

    /// The trade intent that a retry-pool entry turns into, for the quantity
    /// of `attempting_trade`, if it has one.
    pub fn retry_intent(&self, id: u128, new_price: i128, attempting_trade: &Trade) -> (result:
        Result<Option<TodoTransactions>, SimulationError>)
        ensures
            result == self@.retry_intent(id, new_price, *attempting_trade),
    {
        let (action, limit): (TradeAction, i128) = if new_price > 0 {
            (TradeAction::Buy, new_price)
        } else if new_price == i128::MIN {
            return Ok(None);
        } else {
            (TradeAction::Sell, -new_price)
        };
        if limit > u64::MAX as i128 {
            return Ok(None);
        }
        let price = limit as u64;
        let can_transact = match action {
            TradeAction::Buy => self.can_buy(
                get_first(id),
                price,
                attempting_trade.number_of_shares,
            )?,
            TradeAction::Sell => self.can_sell(id, attempting_trade.number_of_shares),
        };
        if !can_transact {
            return Ok(None);
        }
        Ok(
            Some(
                TodoTransactions {
                    agent_id: get_first(id),
                    company_id: get_second(id),
                    strike_price: price,
                    action,
                    trade: *attempting_trade,
                },
            ),
        )
    }

    /// Tells the agents of all expired offers, the trade offers first, then
    /// the option offers: refunds the collateral of each and puts it into
    /// the retry pool. The books of each kind are visited in an order that
    /// the map decides; the first failure ends it, and what was done before
    /// stays done.
    pub fn alert_agents(
        &mut self,
        expired_trades: &HashMap<u64, Vec<FailedOffer<Trade>>>,
        expired_options: &HashMap<u64, Vec<FailedOffer<StockOption>>>,
    ) -> (result: Result<(), SimulationError>)
        ensures
            exists|
                trades: Seq<(u64, Vec<FailedOffer<Trade>>)>,
                options: Seq<(u64, Vec<FailedOffer<StockOption>>)>,
            |
                is_walk(trades, expired_trades@) && is_walk(options, expired_options@) && (
                    final(self)@,
                    result,
                ) == old(self)@.alerted_all(#[trigger] (expired_of(trades) + expired_of(options))),
    {
        let ghost any_options = spec_hash_map_iter(expired_options).remaining().unref();
        proof {
            lemma_counted_walk(any_options, expired_options@);
        }
        let first = self.alert_books(expired_trades);
        let ghost trades = choose|walk: Seq<(u64, Vec<FailedOffer<Trade>>)>|
            is_walk(walk, expired_trades@) && (self@, first) == old(self)@.alerted_all(
                #[trigger] expired_of(walk),
            );
        if let Err(e) = first {
            proof {
                lemma_alerted_all_concat(old(self)@, expired_of(trades), expired_of(any_options));
            }
            return Err(e);
        }
        let ghost between = self@;
        let second = self.alert_books(expired_options);
        proof {
            let options = choose|walk: Seq<(u64, Vec<FailedOffer<StockOption>>)>|
                is_walk(walk, expired_options@) && (self@, second) == between.alerted_all(
                    #[trigger] expired_of(walk),
                );
            lemma_alerted_all_concat(old(self)@, expired_of(trades), expired_of(options));
        }
        second
    }

    /// Tells the agents of the offers that expired in the books of all
    /// companies. The books are visited in an order that the map decides;
    /// the first failure ends the walk, and what was done before stays done.
    pub fn alert_books<T: Lot>(&mut self, expired: &HashMap<u64, Vec<FailedOffer<T>>>) -> (result:
        Result<(), SimulationError>)
        ensures
            exists|walk: Seq<(u64, Vec<FailedOffer<T>>)>|
                is_walk(walk, expired@) && (final(self)@, result) == old(self)@.alerted_all(
                    #[trigger] expired_of(walk),
                ),
    {
        let ghost walk = spec_hash_map_iter(expired).remaining().unref();
        proof {
            lemma_counted_walk(walk, expired@);
        }
        let ghost mut visited: int = 0;
        for entry in it: expired.iter()
            invariant
                is_walk(walk, expired@),
                walk == it.seq().unref(),
                visited == it.index(),
                old(self)@.alerted_all(expired_of(walk.take(visited))) == (
                    self@,
                    Ok::<(), SimulationError>(()),
                ),
        {
            let (company_id, offers) = entry;
            let ghost done = expired_of(walk.take(visited));
            let ghost before = self@;
            let ghost here = offers_of(*company_id, offers@);
            let result = self.alert_company(*company_id, offers);
            proof {
                assert(walk.take(visited + 1).drop_last() =~= walk.take(visited));
                assert(expired_of(walk.take(visited + 1)) == done + here);
                lemma_alerted_all_concat(old(self)@, done, here);
                lemma_alerted_all_unit(before, here);
                if result is Err {
                    lemma_alerted_all_prefix(old(self)@, walk, visited + 1);
                }
                visited = visited + 1;
            }
            match result {
                Ok(()) => {},
                Err(e) => {
                    return Err(e);
                },
            }
        }
        assert(walk.take(visited) =~= walk);
        Ok(())
    }

    /// Tells the agents of the offers that expired in the book of one
    /// company, in their order. The first failure ends it; what was done
    /// before stays done.
    pub fn alert_company<T: Lot>(
        &mut self,
        company_id: u64,
        offers: &Vec<FailedOffer<T>>,
    ) -> (result: Result<(), SimulationError>)
        ensures
            (final(self)@, result) == old(self)@.alerted_all(offers_of(company_id, offers@)),
    {
        let ghost all = offers_of(company_id, offers@);
        let mut i: usize = 0;
        while i < offers.len()
            invariant
                i <= offers@.len(),
                all == offers_of(company_id, offers@),
                old(self)@.alerted_all(all.take(i as int)) == (
                    self@,
                    Ok::<(), SimulationError>(()),
                ),
            decreases offers@.len() - i,
        {
            let ghost before = self@;
            let result = self.alert_agent(company_id, &offers[i]);
            proof {
                let done = all.take(i as int);
                let one = seq![all[i as int]];
                assert(all.take(i + 1) =~= done + one);
                lemma_alerted_all_concat(old(self)@, done, one);
                assert(one.drop_first() =~= Seq::<Expired>::empty());
                assert(before.alerted_all(one) == before.alerted(all[i as int])) by {
                    reveal_with_fuel(AgentsView::alerted_all, 2);
                }
                if result is Err {
                    let rest = all.skip(i + 1);
                    assert(all =~= all.take(i + 1) + rest);
                    lemma_alerted_all_concat(old(self)@, all.take(i + 1), rest);
                }
            }
            if let Err(e) = result {
                return Err(e);
            }
            i += 1;
        }
        assert(all.take(i as int) =~= all);
        Ok(())
    }

    /// Tells the agents of one expired offer for shares of `company_id`:
    /// refunds its collateral and puts it into the retry pool.
    pub fn alert_agent<T: Lot>(&mut self, company_id: u64, offer: &FailedOffer<T>) -> (result:
        Result<(), SimulationError>)
        ensures
            (final(self)@, result) == old(self)@.alerted(offer.expired(company_id)),
    {
        let number_of_shares = offer.0.data.number_of_shares();
        match offer.1 {
            TradeAction::Sell => {
                let held = self.holdings.get(offer.0.offerer_id, company_id);
                if number_of_shares > u64::MAX - held {
                    return Err(SimulationError::UnDoable);
                }
                self.holdings.push(offer.0.offerer_id, company_id, number_of_shares);
            },
            TradeAction::Buy => {
                self.balances.add(
                    offer.0.offerer_id,
                    cost(offer.0.strike_price, number_of_shares),
                )?;
            },
        }
        self.add_failed_offer(company_id, offer.0.offerer_id, offer.0.strike_price, &offer.1);
        Ok(())
    }

    /// Puts an expired offer into the retry pool, in place of what the pool
    /// held for the same agent and company.
    pub fn add_failed_offer(
        &mut self,
        company_id: u64,
        agent_id: u64,
        failed_price: u64,
        offer_type: &TradeAction,
    )
        ensures
            final(self)@ == old(self)@.with_failed_offer(
                company_id,
                agent_id,
                failed_price,
                *offer_type,
            ),
    {
        let limit: i128 = failed_price as i128 + (failed_price / 4) as i128;
        let entry: i128 = match offer_type {
            TradeAction::Buy => limit,
            TradeAction::Sell => -limit,
        };
        self.try_offers.insert(combine(agent_id, company_id), entry);
    }

    /// Grants each of the first `NUM_OF_AGENTS` agents random assets, one
    /// agent after the other: cash below `MAX_GRANTED_CASH` and, of one of
    /// the companies 0 up to, not including, `num_of_companies`, shares
    /// below `MAX_GRANTED_SHARES`. Without a company to choose there is
    /// `NoData` and nothing changes. The first grant that fails ends it;
    /// what was done before stays done.
    pub fn give_random_assets(&mut self, rng: &mut ChaCha8Rng, num_of_companies: u64) -> (result:
        Result<(), SimulationError>)
        ensures
            num_of_companies == 0 ==> final(self)@ == old(self)@ && result == Err::<
                (),
                SimulationError,
            >(SimulationError::NoData),
            num_of_companies > 0 ==> exists|grants: Seq<Grant>|
                drawn_grants(grants, num_of_companies) && (final(self)@, result)
                    == #[trigger] old(self)@.granted_all(grants),
    {
        if num_of_companies == 0 {
            return Err(SimulationError::NoData);
        }
        let ghost mut grants: Seq<Grant> = Seq::empty();
        let mut i: u64 = 0;
        while i < NUM_OF_AGENTS
            invariant
                i <= NUM_OF_AGENTS,
                num_of_companies > 0,
                grants.len() == i,
                forall|agent: int|
                    0 <= agent < grants.len() ==> {
                        &&& (#[trigger] grants[agent]).cash < MAX_GRANTED_CASH
                        &&& grants[agent].company_id < num_of_companies
                        &&& grants[agent].shares < MAX_GRANTED_SHARES
                    },
                old(self)@.granted_all(grants) == (self@, Ok::<(), SimulationError>(())),
            decreases NUM_OF_AGENTS - i,
        {
            let cash = draw_below(rng, MAX_GRANTED_CASH) as u128;
            let company_id = draw_below(rng, num_of_companies);
            let shares = draw_below(rng, MAX_GRANTED_SHARES);
            let result = self.give_assets(i, cash, company_id, shares);
            proof {
                let grant = Grant { cash, company_id, shares };
                let longer = grants.push(grant);
                assert(longer.drop_last() =~= grants);
                if result is Err {
                    let rest = Seq::new((NUM_OF_AGENTS - longer.len()) as nat, |k: int| grant);
                    let all = longer + rest;
                    assert(all.take(longer.len() as int) =~= longer);
                    lemma_granted_failed(old(self)@, all, longer.len() as int);
                    assert(drawn_grants(all, num_of_companies));
                }
                grants = longer;
            }
            if let Err(e) = result {
                return Err(e);
            }
            i += 1;
        }
        Ok(())
    }

    /// Grants an agent cash and shares of a company.
    pub fn give_assets(
        &mut self,
        agent_id: u64,
        cash: u128,
        company_id: u64,
        shares: u64,
    ) -> (result: Result<(), SimulationError>)
        ensures
            (final(self)@, result) == old(self)@.granted(
                agent_id,
                Grant { cash, company_id, shares },
            ),
    {
        self.balances.add(agent_id, cash)?;
        let held = self.holdings.get(agent_id, company_id);
        if shares > u64::MAX - held {
            return Err(SimulationError::UnDoable);
        }
        self.holdings.push(agent_id, company_id, shares);
        Ok(())
    }

    /// One step through a batch of trade intents. Locks the collateral of
    /// intent number `next` and returns its order for the book, with the
    /// deviation that orders of a batch are given; returns no order when the
    /// batch is through. The caller settles what the book answers before it
    /// asks for the step after.
    pub fn do_transactions(&mut self, transactions: &[TodoTransactions], next: usize) -> (result:
        Result<Option<MarketOrder>, SimulationError>)
        ensures
            next >= transactions@.len() ==> final(self)@ == old(self)@ && result == Ok::<
                Option<MarketOrder>,
                SimulationError,
            >(None),
            next < transactions@.len() ==> ({
                let todo = transactions@[next as int];
                let (state, outcome) = old(self)@.locked(
                    todo.company_id,
                    todo.agent_id,
                    todo.strike_price,
                    todo.trade.number_of_shares,
                    todo.action,
                );
                &&& final(self)@ == state
                &&& result == match outcome {
                    Ok(_) => Ok::<Option<MarketOrder>, SimulationError>(
                        Some(
                            MarketOrder {
                                agent_id: todo.agent_id,
                                company_id: todo.company_id,
                                strike_price: todo.strike_price,
                                acceptable_strike_price_deviation: STRIKE_PRICE_DEVIATION,
                                trade: todo.trade,
                                action: todo.action,
                            },
                        ),
                    ),
                    Err(e) => Err::<Option<MarketOrder>, SimulationError>(e),
                }
            }),
    {
        if next >= transactions.len() {
            return Ok(None);
        }
        let todo = &transactions[next];
        let order = self.trade(
            todo.company_id,
            todo.agent_id,
            todo.strike_price,
            STRIKE_PRICE_DEVIATION,
            &todo.trade,
            todo.action,
        )?;
        Ok(Some(order))
    }

    /// Flips a fair coin for the side that an agent takes, and gives the
    /// side if the agent can take it.
    pub fn roll_action(
        &self,
        rng: &mut ChaCha8Rng,
        agent_id: u64,
        company_id: u64,
        strike_price: u64,
        trade: &Trade,
    ) -> (action: Option<TradeAction>)
        ensures
            exists|heads: bool|
                action == #[trigger] self@.rolled(
                    heads,
                    agent_id,
                    company_id,
                    strike_price,
                    *trade,
                ),
    {
        let heads = draw_ratio(rng, 1, 2);
        self.rolled_action(heads, agent_id, company_id, strike_price, trade)
    }

    /// The side that an agent takes after a coin flip, if the agent can.
    pub fn rolled_action(
        &self,
        heads: bool,
        agent_id: u64,
        company_id: u64,
        strike_price: u64,
        trade: &Trade,
    ) -> (action: Option<TradeAction>)
        ensures
            action == self@.rolled(heads, agent_id, company_id, strike_price, *trade),
    {
        if heads {
            match self.can_buy(agent_id, strike_price, trade.number_of_shares) {
                Ok(true) => Some(TradeAction::Buy),
                _ => None,
            }
        } else if self.can_sell(combine(agent_id, company_id), trade.number_of_shares) {
            Some(TradeAction::Sell)
        } else {
            None
        }
    }

    /// Locks the collateral of an order and returns the order for the book:
    /// the shares of a sell, the cost of a buy. Fails with `Unspendable`
    /// where the agent has too little, with `AgentNotFound` for a buyer
    /// without a balance; nothing changes then.
    pub fn trade(
        &mut self,
        company_id: u64,
        agent_id: u64,
        strike_price: u64,
        acceptable_strike_price_deviation: u64,
        trade: &Trade,
        action: TradeAction,
    ) -> (result: Result<MarketOrder, SimulationError>)
        ensures
            ({
                let (state, outcome) = old(self)@.locked(
                    company_id,
                    agent_id,
                    strike_price,
                    trade.number_of_shares,
                    action,
                );
                &&& final(self)@ == state
                &&& result == match outcome {
                    Ok(_) => Ok::<MarketOrder, SimulationError>(
                        MarketOrder {
                            agent_id,
                            company_id,
                            strike_price,
                            acceptable_strike_price_deviation,
                            trade: *trade,
                            action,
                        },
                    ),
                    Err(e) => Err::<MarketOrder, SimulationError>(e),
                }
                &&& outcome is Err ==> state == old(self)@
            }),
    {
        match action {
            TradeAction::Sell => {
                self.holdings.pop(agent_id, company_id, trade.number_of_shares)?;
            },
            TradeAction::Buy => {
                self.balances.sub(agent_id, cost(strike_price, trade.number_of_shares))?;
            },
        }
        Ok(
            MarketOrder {
                agent_id,
                company_id,
                strike_price,
                acceptable_strike_price_deviation,
                trade: *trade,
                action,
            },
        )
    }

    /// Settles a transaction: takes the shares from `buyer_id` and credits
    /// their cost to `seller_id`.
    pub fn exchange_currency_from_transaction(&mut self, transaction: &Transaction) -> (result:
        Result<(), SimulationError>)
        ensures
            (final(self)@, result) == old(self)@.exchanged(*transaction),
    {
        self.holdings.pop_from_txn(transaction.buyer_id, transaction)?;
        self.balances.add(
            transaction.seller_id,
            cost(transaction.strike_price, transaction.number_of_shares),
        )?;
        Ok(())
    }

    /// Settles what the book made of an order: nothing for an order that
    /// waits, the transaction of one that was matched.
    pub fn handle_action_state(&mut self, action_state: ActionState) -> (result: Result<
        (),
        SimulationError,
    >)
        ensures
            (final(self)@, result) == match action_state.transaction() {
                Some(transaction) => old(self)@.exchanged(transaction),
                None => (old(self)@, Ok::<(), SimulationError>(())),
            },
    {
        match action_state {
            ActionState::AddedToOffers => {},
            ActionState::InstantlyResolved(transaction) => {
                self.exchange_currency_from_transaction(&transaction)?;
            },
            ActionState::PartiallyResolved(transaction) => {
                self.exchange_currency_from_transaction(&transaction)?;
            },
        }
        Ok(())
    }
}

/// What a number of shares costs at a price per share, in minor units.
pub open spec fn spec_cost(price: u64, quantity: u64) -> u128 {
    (price as int * quantity as int) as u128
}

/// The product of a price and a quantity always fits the cash type.
pub proof fn lemma_cost_fits(price: u64, quantity: u64)
    ensures
        spec_cost(price, quantity) as int == price as int * quantity as int,
{
    assert(0 <= price as int * quantity as int <= 0xFFFF_FFFF_FFFF_FFFF * 0xFFFF_FFFF_FFFF_FFFF)
        by (nonlinear_arith)
        requires
            0 <= price as int <= 0xFFFF_FFFF_FFFF_FFFF,
            0 <= quantity as int <= 0xFFFF_FFFF_FFFF_FFFF,
    ;
}

/// What a number of shares costs at a price per share, in minor units.
#[verifier::when_used_as_spec(spec_cost)]
pub fn cost(price: u64, quantity: u64) -> (total: u128)
    ensures
        total == spec_cost(price, quantity),
        total as int == price as int * quantity as int,
{
    proof {
        lemma_cost_fits(price, quantity);
    }
    price as u128 * quantity as u128
}

/// The candidate that a draw picks: the one at the position of the draw, if
/// there are that many.
pub fn pick_offer(offer_idxs: &Vec<usize>, draw: usize) -> (picked: Option<usize>)
    ensures
        picked == if draw < offer_idxs@.len() {
            Some(offer_idxs@[draw as int])
        } else {
            None
        },
{
    if draw < offer_idxs.len() {
        Some(offer_idxs[draw])
    } else {
        None
    }
}

/// Decides whether to take one of the waiting offers that the book named in
/// place of a match, and which. With a chance of 7 in 10 none is taken;
/// otherwise each candidate is as likely as the others. Without candidates
/// none is taken.
pub fn handle_offer_idxs(rng: &mut ChaCha8Rng, offer_idxs: &Vec<usize>) -> (taken: Option<usize>)
    ensures
        exists|declined: bool, draw: usize|
            (offer_idxs@.len() > 0 ==> draw < offer_idxs@.len()) && taken
                == #[trigger] crate::entities::agents_view::offer_taken(
                offer_idxs@,
                declined,
                draw,
            ),
        taken matches Some(offer_idx) ==> offer_idxs@.contains(offer_idx),
        offer_idxs@.len() == 0 ==> taken is None,
{
    let declined = draw_ratio(rng, 7, 10);
    let draw = if declined || offer_idxs.len() == 0 {
        0
    } else {
        draw_below(rng, offer_idxs.len() as u64) as usize
    };
    taken_offer(offer_idxs, declined, draw)
}

/// The order that goes back into the book after an offer was taken and
/// `extra_shares_left` of the order were not filled: none where nothing is
/// left.
pub fn leftover_order(order: &MarketOrder, extra_shares_left: u64) -> (leftover: Option<
    MarketOrder,
>)
    ensures
        leftover == if extra_shares_left > 0 {
            Some(MarketOrder { trade: Trade { number_of_shares: extra_shares_left }, ..*order })
        } else {
            None
        },
{
    if extra_shares_left > 0 {
        Some(
            MarketOrder {
                agent_id: order.agent_id,
                company_id: order.company_id,
                strike_price: order.strike_price,
                acceptable_strike_price_deviation: order.acceptable_strike_price_deviation,
                trade: Trade::new(extra_shares_left),
                action: order.action,
            },
        )
    } else {
        None
    }
}

/// The offer that is taken after the two draws of `handle_offer_idxs` came
/// out: none where the first draw declined, else the candidate at the
/// position of the second draw.
pub fn taken_offer(offer_idxs: &Vec<usize>, declined: bool, draw: usize) -> (taken: Option<usize>)
    ensures
        taken == crate::entities::agents_view::offer_taken(offer_idxs@, declined, draw),
{
    if declined {
        None
    } else {
        pick_offer(offer_idxs, draw)
    }
}

} // verus!
