//! The state of the engine and what its operations make of it, over plain
//! values.

use crate::entities::agents::{combine, cost, get_first, get_second, Agent};
use crate::entities::timeline_view::TimelineView;
use crate::entities::{credited, debited};
use crate::trade_house::{Expired, FailedOffer, Lot, Trade, TradeAction};
use crate::transaction::{TodoTransactions, Transaction};
use crate::{SimulationError, MAX_GRANTED_CASH, MAX_GRANTED_SHARES, NUM_OF_AGENTS};
use vstd::prelude::*;

verus! {

/// The share count that a ledger holds under a key, zero where there is
/// none.
pub open spec fn shares_at(holdings: Map<u128, u64>, id: u128) -> u64 {
    if holdings.contains_key(id) {
        holdings[id]
    } else {
        0
    }
}

/// The number of shares that a ledger holds for an agent in a company.
pub open spec fn shares(holdings: Map<u128, u64>, agent_id: u64, company_id: u64) -> u64 {
    shares_at(holdings, combine(agent_id, company_id))
}

/// The ledger after shares were added to a position.
pub open spec fn pushed(
    holdings: Map<u128, u64>,
    agent_id: u64,
    company_id: u64,
    number_of_shares: u64,
) -> Map<u128, u64> {
    holdings.insert(
        combine(agent_id, company_id),
        (shares(holdings, agent_id, company_id) + number_of_shares) as u64,
    )
}

/// What taking shares out of a position returns and leaves behind. A
/// position that holds fewer shares than asked for is `Unspendable` and
/// stays as it is; taking nothing changes nothing.
pub open spec fn popped(
    holdings: Map<u128, u64>,
    agent_id: u64,
    company_id: u64,
    number_of_shares: u64,
) -> (Map<u128, u64>, Result<(), SimulationError>) {
    if shares(holdings, agent_id, company_id) < number_of_shares {
        (holdings, Err(SimulationError::Unspendable))
    } else if number_of_shares == 0 {
        (holdings, Ok(()))
    } else {
        (
            holdings.insert(
                combine(agent_id, company_id),
                (shares(holdings, agent_id, company_id) - number_of_shares) as u64,
            ),
            Ok(()),
        )
    }
}

/// The entry that the retry pool gets for an offer that expired at
/// `failed_price`. Its magnitude is the new limit: the price and a quarter of
/// it, the quarter rounded down. Its sign is the side: above zero for a buy,
/// below for a sell.
pub open spec fn retry_price(failed_price: u64, offer_type: TradeAction) -> i128 {
    match offer_type {
        TradeAction::Buy => (failed_price + failed_price / 4) as i128,
        TradeAction::Sell => (-(failed_price + failed_price / 4)) as i128,
    }
}

/// The side of a retry-pool entry: positive entries are buys.
pub open spec fn retry_action(new_price: i128) -> TradeAction {
    if new_price > 0 {
        TradeAction::Buy
    } else {
        TradeAction::Sell
    }
}

/// The limit price of a retry-pool entry: its magnitude.
pub open spec fn retry_limit(new_price: i128) -> int {
    if new_price > 0 {
        new_price as int
    } else {
        -new_price
    }
}

/// The offer that is taken among the candidates that the book named, for
/// the two draws that decide it: none where the first draw declined; else
/// the candidate at the position of the second draw, if there are that many.
pub open spec fn offer_taken(offer_idxs: Seq<usize>, declined: bool, draw: usize) -> Option<usize> {
    if declined || draw >= offer_idxs.len() {
        None
    } else {
        Some(offer_idxs[draw as int])
    }
}

/// What an agent is granted when assets are handed out.
pub struct Grant {
    /// Cash, in minor units.
    pub cash: u128,
    /// The company of which the agent gets shares.
    pub company_id: u64,
    pub shares: u64,
}

/// One grant for each of the first `NUM_OF_AGENTS` agents, as they are
/// drawn: cash below `MAX_GRANTED_CASH`, one of `num_of_companies` companies,
/// shares below `MAX_GRANTED_SHARES`.
pub open spec fn drawn_grants(grants: Seq<Grant>, num_of_companies: u64) -> bool {
    &&& grants.len() == NUM_OF_AGENTS
    &&& forall|agent: int|
        0 <= agent < grants.len() ==> {
            &&& (#[trigger] grants[agent]).cash < MAX_GRANTED_CASH
            &&& grants[agent].company_id < num_of_companies
            &&& grants[agent].shares < MAX_GRANTED_SHARES
        }
}

/// The offers that expired in the book of one company, as plain values, in
/// their order.
pub open spec fn offers_of<T: Lot>(company_id: u64, offers: Seq<FailedOffer<T>>) -> Seq<Expired> {
    Seq::new(offers.len(), |i: int| offers[i].expired(company_id))
}

/// The offers that a walk through the books comes by, as plain values: book
/// after book, each in its order.
pub open spec fn expired_of<T: Lot>(walk: Seq<(u64, Vec<FailedOffer<T>>)>) -> Seq<Expired>
    decreases walk.len(),
{
    if walk.len() == 0 {
        Seq::empty()
    } else {
        expired_of(walk.drop_last()) + offers_of(walk.last().0, walk.last().1@)
    }
}

/// A walk visits every entry of the map, and each once.
pub open spec fn is_walk<K, V>(walk: Seq<(K, V)>, map: Map<K, V>) -> bool {
    &&& walk.no_duplicates()
    &&& walk.to_set() == map.kv_pairs()
}

/// A sequence that holds the entries of a finite map and nothing else, and
/// is as long as the map has entries, is a walk of the map.
pub proof fn lemma_counted_walk<K, V>(walk: Seq<(K, V)>, map: Map<K, V>)
    requires
        walk.len() == map.dom().len(),
        walk.to_set() == map.kv_pairs(),
        map.dom().finite(),
    ensures
        is_walk(walk, map),
{
    let key_of = |pair: (K, V)| pair.0;
    let pairs = map.kv_pairs();
    vstd::seq_lib::seq_to_set_is_finite(walk);
    assert(vstd::relations::injective_on(key_of, pairs));
    assert(pairs.map(key_of) =~= map.dom()) by {
        assert forall|key: K| map.dom().contains(key) implies pairs.map(key_of).contains(key) by {
            assert(pairs.contains((key, map[key])));
            assert(key_of((key, map[key])) == key);
        }
    }
    vstd::set_lib::lemma_map_size(pairs, map.dom(), key_of);
    walk.lemma_no_dup_set_cardinality();
}

/// The state of the engine as plain values.
pub struct AgentsView {
    pub num_of_agents: u64,
    pub holdings: Map<u128, u64>,
    pub balances: Seq<u128>,
    pub preferences: Seq<TimelineView>,
    pub try_offers: Map<u128, i128>,
}

impl AgentsView {
    /// Whether an agent has the cash for `quantity` shares at `price`;
    /// `AgentNotFound` for an id without a balance.
    pub open spec fn can_buy(self, agent_id: u64, price: u64, quantity: u64) -> Result<
        bool,
        SimulationError,
    > {
        if agent_id < self.balances.len() {
            Ok(self.balances[agent_id as int] >= cost(price, quantity))
        } else {
            Err(SimulationError::AgentNotFound(agent_id))
        }
    }

    /// Whether the position under a ledger key holds `quantity` shares.
    pub open spec fn can_sell(self, id: u128, quantity: u64) -> bool {
        shares_at(self.holdings, id) >= quantity
    }

    /// The state after `add_failed_offer`.
    pub open spec fn with_failed_offer(
        self,
        company_id: u64,
        agent_id: u64,
        failed_price: u64,
        offer_type: TradeAction,
    ) -> AgentsView {
        AgentsView {
            try_offers: self.try_offers.insert(
                combine(agent_id, company_id),
                retry_price(failed_price, offer_type),
            ),
            ..self
        }
    }

    /// What locking the collateral of an order returns and leaves behind.
    ///
    /// A sell takes the shares out of the agent's position, a buy takes
    /// their cost out of the agent's cash. Where the agent has too little,
    /// the order is `Unspendable` and nothing changes; a buyer without a
    /// balance is `AgentNotFound`.
    pub open spec fn locked(
        self,
        company_id: u64,
        agent_id: u64,
        strike_price: u64,
        quantity: u64,
        action: TradeAction,
    ) -> (AgentsView, Result<(), SimulationError>) {
        match action {
            TradeAction::Sell => {
                let (holdings, result) = popped(self.holdings, agent_id, company_id, quantity);
                (AgentsView { holdings, ..self }, result)
            },
            TradeAction::Buy => {
                let (balances, result) = debited(
                    self.balances,
                    agent_id,
                    cost(strike_price, quantity),
                );
                (AgentsView { balances, ..self }, result)
            },
        }
    }

    /// What settling a transaction returns and leaves behind.
    ///
    /// The shares leave the position of `buyer_id`; where it holds too few,
    /// the settlement is `Unspendable` and nothing changes. Then the cash is
    /// credited to `seller_id`; where that fails, the shares are gone all
    /// the same.
    pub open spec fn exchanged(self, transaction: Transaction) -> (
        AgentsView,
        Result<(), SimulationError>,
    ) {
        let (taken, result) = self.locked(
            transaction.company_id,
            transaction.buyer_id,
            transaction.strike_price,
            transaction.number_of_shares,
            TradeAction::Sell,
        );
        if result is Err {
            (self, result)
        } else {
            let (balances, result) = credited(
                taken.balances,
                transaction.seller_id,
                cost(transaction.strike_price, transaction.number_of_shares),
            );
            (AgentsView { balances, ..taken }, result)
        }
    }

    /// What telling the agents of one expired offer returns and leaves
    /// behind.
    ///
    /// The collateral goes back to the offerer: the shares of a sell, the
    /// cash of a buy. Then the offer enters the retry pool. Where the refund
    /// fails, nothing changes: `UnDoable` where the position or the balance
    /// cannot hold it, `AgentNotFound` for a buyer without a balance.
    pub open spec fn alerted(self, offer: Expired) -> (AgentsView, Result<(), SimulationError>) {
        match offer.action {
            TradeAction::Sell => if shares(self.holdings, offer.offerer_id, offer.company_id)
                + offer.number_of_shares > u64::MAX {
                (self, Err(SimulationError::UnDoable))
            } else {
                (
                    (AgentsView {
                        holdings: pushed(
                            self.holdings,
                            offer.offerer_id,
                            offer.company_id,
                            offer.number_of_shares,
                        ),
                        ..self
                    }).with_failed_offer(
                        offer.company_id,
                        offer.offerer_id,
                        offer.strike_price,
                        offer.action,
                    ),
                    Ok(()),
                )
            },
            TradeAction::Buy => {
                let (balances, result) = credited(
                    self.balances,
                    offer.offerer_id,
                    cost(offer.strike_price, offer.number_of_shares),
                );
                if result is Err {
                    (self, result)
                } else {
                    (
                        (AgentsView { balances, ..self }).with_failed_offer(
                            offer.company_id,
                            offer.offerer_id,
                            offer.strike_price,
                            offer.action,
                        ),
                        Ok(()),
                    )
                }
            },
        }
    }

    /// What telling the agents of expired offers, one after the other,
    /// returns and leaves behind. The first failure ends it; what was done
    /// before stays done.
    pub open spec fn alerted_all(self, offers: Seq<Expired>) -> (
        AgentsView,
        Result<(), SimulationError>,
    )
        decreases offers.len(),
    {
        if offers.len() == 0 {
            (self, Ok(()))
        } else {
            let (next, result) = self.alerted(offers[0]);
            if result is Err {
                (next, result)
            } else {
                next.alerted_all(offers.drop_first())
            }
        }
    }

    /// The trade intent that a retry-pool entry turns into, for the quantity
    /// of `attempting_trade`.
    ///
    /// The key gives the agent and the company, the sign of the entry the
    /// side, its magnitude the price. There is an intent where the price is
    /// one that an order can carry and the agent can afford the buy or holds
    /// the shares to sell; a buyer without a balance is `AgentNotFound`.
    pub open spec fn retry_intent(
        self,
        id: u128,
        new_price: i128,
        attempting_trade: Trade,
    ) -> Result<Option<TodoTransactions>, SimulationError> {
        let price = retry_limit(new_price);
        let action = retry_action(new_price);
        if price > u64::MAX {
            Ok(None)
        } else {
            let intent = TodoTransactions {
                agent_id: get_first(id),
                company_id: get_second(id),
                strike_price: price as u64,
                action,
                trade: attempting_trade,
            };
            match action {
                TradeAction::Buy => match self.can_buy(
                    get_first(id),
                    price as u64,
                    attempting_trade.number_of_shares,
                ) {
                    Ok(true) => Ok(Some(intent)),
                    Ok(false) => Ok(None),
                    Err(e) => Err(e),
                },
                TradeAction::Sell => if self.can_sell(id, attempting_trade.number_of_shares) {
                    Ok(Some(intent))
                } else {
                    Ok(None)
                },
            }
        }
    }

    /// What a pass over the retry pool makes of one entry, for the draw that
    /// decides whether the entry rests: nothing where it rests, else its
    /// intent, if it has one.
    pub open spec fn retry_after(
        self,
        skip: bool,
        id: u128,
        new_price: i128,
        attempting_trade: Trade,
    ) -> Result<Option<TodoTransactions>, SimulationError> {
        if skip {
            Ok(None)
        } else {
            self.retry_intent(id, new_price, attempting_trade)
        }
    }

    /// What a pass over the retry pool adds to the trade intents and
    /// returns, for a walk through the pool and for the entries that chance
    /// let rest (`skips`, one per entry of the walk).
    ///
    /// An entry that is not skipped adds its intent, if it has one. The
    /// first failure ends the pass; what was added before stays.
    pub open spec fn retried(
        self,
        walk: Seq<(u128, i128)>,
        skips: Seq<bool>,
        attempting_trade: Trade,
    ) -> (Seq<TodoTransactions>, Result<(), SimulationError>)
        decreases walk.len(),
    {
        if walk.len() == 0 {
            (Seq::empty(), Ok(()))
        } else {
            let (intents, result) = self.retried(
                walk.drop_last(),
                skips.drop_last(),
                attempting_trade,
            );
            if result is Err {
                (intents, result)
            } else {
                match self.retry_after(
                    skips.last(),
                    walk.last().0,
                    walk.last().1,
                    attempting_trade,
                ) {
                    Ok(Some(intent)) => (intents.push(intent), Ok(())),
                    Ok(None) => (intents, Ok(())),
                    Err(e) => (intents, Err(e)),
                }
            }
        }
    }

    /// The side that an agent takes after a coin flip, if the agent can:
    /// heads is a buy, which needs the cash, tails a sell, which needs the
    /// shares. A buyer without a balance takes none.
    pub open spec fn rolled(
        self,
        heads: bool,
        agent_id: u64,
        company_id: u64,
        strike_price: u64,
        trade: Trade,
    ) -> Option<TradeAction> {
        if heads {
            if self.can_buy(agent_id, strike_price, trade.number_of_shares) == Ok::<
                bool,
                SimulationError,
            >(true) {
                Some(TradeAction::Buy)
            } else {
                None
            }
        } else if self.can_sell(combine(agent_id, company_id), trade.number_of_shares) {
            Some(TradeAction::Sell)
        } else {
            None
        }
    }

    /// What granting assets to one agent returns and leaves behind.
    ///
    /// The cash is credited first; where that fails, nothing changes. Then
    /// the shares are added; where the position cannot hold them, the grant
    /// is `UnDoable` and the cash stays credited.
    pub open spec fn granted(self, agent_id: u64, grant: Grant) -> (
        AgentsView,
        Result<(), SimulationError>,
    ) {
        let (balances, result) = credited(self.balances, agent_id, grant.cash);
        let paid = AgentsView { balances, ..self };
        if result is Err {
            (self, result)
        } else if shares(self.holdings, agent_id, grant.company_id) + grant.shares > u64::MAX {
            (paid, Err(SimulationError::UnDoable))
        } else {
            (
                AgentsView {
                    holdings: pushed(self.holdings, agent_id, grant.company_id, grant.shares),
                    ..paid
                },
                Ok(()),
            )
        }
    }

    /// What granting assets to the agents 0, 1, 2 and so on returns and
    /// leaves behind, agent `a` being granted `grants[a]`. The first failure
    /// ends it; what was done before stays done.
    pub open spec fn granted_all(self, grants: Seq<Grant>) -> (
        AgentsView,
        Result<(), SimulationError>,
    )
        decreases grants.len(),
    {
        if grants.len() == 0 {
            (self, Ok(()))
        } else {
            let (state, result) = self.granted_all(grants.drop_last());
            if result is Err {
                (state, result)
            } else {
                state.granted((grants.len() - 1) as u64, grants.last())
            }
        }
    }
}

/// A ledger with the share counts of one agent written over it.
pub open spec fn overlaid(holdings: Map<u128, u64>, id: u64, holding: Map<u64, u64>) -> Map<
    u128,
    u64,
> {
    Map::new(
        |key: u128|
            holdings.contains_key(key) || (get_first(key) == id && holding.contains_key(
                get_second(key),
            )),
        |key: u128|
            if get_first(key) == id && holding.contains_key(get_second(key)) {
                holding[get_second(key)]
            } else {
                holdings[key]
            },
    )
}

/// The ledger that loading saved agents gives: the share counts of each
/// agent, written one agent after the other under the agent's id.
pub open spec fn loaded_holdings(agents: Seq<Agent>) -> Map<u128, u64>
    decreases agents.len(),
{
    if agents.len() == 0 {
        Map::empty()
    } else {
        overlaid(loaded_holdings(agents.drop_last()), agents.last().id, agents.last().holding@)
    }
}

/// The share counts that a ledger holds for one agent, by company id.
pub open spec fn holdings_of(holdings: Map<u128, u64>, agent_id: u64) -> Map<u64, u64> {
    Map::new(
        |company_id: u64| holdings.contains_key(combine(agent_id, company_id)),
        |company_id: u64| holdings[combine(agent_id, company_id)],
    )
}

/// The retry-pool entry of an offer that expired at a price above zero
/// tells the side of the offer, and its limit is the price and a quarter,
/// whatever the side.
pub proof fn lemma_retry_entry(failed_price: u64, offer_type: TradeAction)
    ensures
        failed_price > 0 ==> retry_action(retry_price(failed_price, offer_type)) == offer_type,
        retry_limit(retry_price(failed_price, offer_type)) == failed_price + failed_price / 4,
{
}

/// An order whose collateral was locked and whose offer then expires gets
/// back what was locked: every balance and every position is as it was
/// before the order, and the offer waits in the retry pool.
pub proof fn lemma_expiry_refunds_collateral(
    state: AgentsView,
    company_id: u64,
    agent_id: u64,
    strike_price: u64,
    quantity: u64,
    action: TradeAction,
)
    requires
        state.locked(company_id, agent_id, strike_price, quantity, action).1 is Ok,
    ensures
        ({
            let locked = state.locked(company_id, agent_id, strike_price, quantity, action).0;
            let (after, result) = locked.alerted(
                Expired {
                    company_id,
                    offerer_id: agent_id,
                    strike_price,
                    number_of_shares: quantity,
                    action,
                },
            );
            &&& result is Ok
            &&& after.balances == state.balances
            &&& forall|id: u128| shares_at(after.holdings, id) == shares_at(state.holdings, id)
            &&& after.try_offers == state.try_offers.insert(
                combine(agent_id, company_id),
                retry_price(strike_price, action),
            )
            &&& after.preferences == state.preferences
            &&& after.num_of_agents == state.num_of_agents
        }),
{
    let locked = state.locked(company_id, agent_id, strike_price, quantity, action).0;
    let after = locked.alerted(
        Expired { company_id, offerer_id: agent_id, strike_price, number_of_shares: quantity, action },
    ).0;
    match action {
        TradeAction::Buy => {
            assert(after.balances =~= state.balances);
        },
        TradeAction::Sell => {
            assert forall|id: u128| shares_at(after.holdings, id) == shares_at(
                state.holdings,
                id,
            ) by {}
        },
    }
}

/// Telling the agents of two runs of offers, one after the other, is telling
/// them of the whole.
pub proof fn lemma_alerted_all_concat(state: AgentsView, first: Seq<Expired>, second: Seq<Expired>)
    ensures
        state.alerted_all(first + second) == if state.alerted_all(first).1 is Err {
            state.alerted_all(first)
        } else {
            state.alerted_all(first).0.alerted_all(second)
        },
    decreases first.len(),
{
    if first.len() == 0 {
        assert(first + second =~= second);
    } else {
        assert((first + second).drop_first() =~= first.drop_first() + second);
        let (next, result) = state.alerted(first[0]);
        if result is Ok {
            lemma_alerted_all_concat(next, first.drop_first(), second);
        }
    }
}

/// A run of alerts that does not fail returns the one value of success.
pub(crate) proof fn lemma_alerted_all_unit(state: AgentsView, offers: Seq<Expired>)
    ensures
        state.alerted_all(offers).1 is Ok ==> state.alerted_all(offers).1 == Ok::<
            (),
            SimulationError,
        >(()),
    decreases offers.len(),
{
    if offers.len() > 0 {
        let (next, result) = state.alerted(offers[0]);
        if result is Ok {
            lemma_alerted_all_unit(next, offers.drop_first());
        }
    }
}

/// Where telling the agents of the first books of a walk fails, telling
/// them of the whole walk fails in the same way.
pub proof fn lemma_alerted_all_prefix<T: Lot>(
    state: AgentsView,
    walk: Seq<(u64, Vec<FailedOffer<T>>)>,
    count: int,
)
    requires
        0 <= count <= walk.len(),
        state.alerted_all(expired_of(walk.take(count))).1 is Err,
    ensures
        state.alerted_all(expired_of(walk)) == state.alerted_all(expired_of(walk.take(count))),
    decreases walk.len() - count,
{
    if count == walk.len() {
        assert(walk.take(count) =~= walk);
    } else {
        let longer = walk.take(count + 1);
        assert(longer.drop_last() =~= walk.take(count));
        lemma_alerted_all_concat(
            state,
            expired_of(walk.take(count)),
            offers_of(longer.last().0, longer.last().1@),
        );
        lemma_alerted_all_prefix(state, walk, count + 1);
    }
}

/// A pass over the retry pool that failed stays as it is however the walk
/// goes on.
pub(crate) proof fn lemma_retried_failed(
    state: AgentsView,
    walk: Seq<(u128, i128)>,
    skips: Seq<bool>,
    attempting_trade: Trade,
    count: int,
)
    requires
        0 <= count <= walk.len(),
        skips.len() == walk.len(),
        state.retried(walk.take(count), skips.take(count), attempting_trade).1 is Err,
    ensures
        state.retried(walk, skips, attempting_trade) == state.retried(
            walk.take(count),
            skips.take(count),
            attempting_trade,
        ),
    decreases walk.len() - count,
{
    if count == walk.len() {
        assert(walk.take(count) =~= walk);
        assert(skips.take(count) =~= skips);
    } else {
        assert(walk.take(count + 1).drop_last() =~= walk.take(count));
        assert(skips.take(count + 1).drop_last() =~= skips.take(count));
        lemma_retried_failed(state, walk, skips, attempting_trade, count + 1);
    }
}

/// A run of grants that failed stays as it is however many grants follow.
pub(crate) proof fn lemma_granted_failed(state: AgentsView, grants: Seq<Grant>, count: int)
    requires
        0 <= count <= grants.len(),
        state.granted_all(grants.take(count)).1 is Err,
    ensures
        state.granted_all(grants) == state.granted_all(grants.take(count)),
    decreases grants.len() - count,
{
    if count == grants.len() {
        assert(grants.take(count) =~= grants);
    } else {
        assert(grants.take(count + 1).drop_last() =~= grants.take(count));
        lemma_granted_failed(state, grants, count + 1);
    }
}

} // verus!
