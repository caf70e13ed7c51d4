use rand_chacha::rand_core::SeedableRng;
use rand_chacha::ChaCha8Rng;
use stocks::entities::agents::{Preferences, Timeline};
use stocks::entities::Balances;
use stocks::trade_house::TradeAction;
use stocks::SimulationError;

fn table(agents: usize) -> Preferences {
    Preferences((0..agents).map(|_| Timeline::new()).collect())
}

#[test]
fn preferences_add_then_sample_returns_that_company() {
    let mut preferences = table(6);
    assert_eq!(preferences.add(5, 2, 3), Ok(()));
    assert_eq!(preferences.0[5].len(), 3);
    let mut rng = ChaCha8Rng::seed_from_u64(11);
    for _ in 0..500 {
        assert_eq!(preferences.get_preferred_random(5, &mut rng), Ok((2, TradeAction::Buy)));
    }
}

#[test]
fn preferences_add_appends_weight_copies() {
    let mut preferences = table(2);
    assert_eq!(preferences.add(1, 7, 2), Ok(()));
    assert_eq!(preferences.sub(1, 8, 1), Ok(()));
    assert_eq!(preferences.add(1, 9, 0), Ok(()));
    assert_eq!(
        preferences.0[1].data(),
        &vec![(7, TradeAction::Buy), (7, TradeAction::Buy), (8, TradeAction::Sell)]
    );
    assert!(preferences.0[0].is_empty());
}

#[test]
fn preferences_unknown_agent_is_not_found() {
    let mut preferences = table(2);
    assert_eq!(preferences.add(2, 1, 1), Err(SimulationError::AgentNotFound(2)));
    assert_eq!(preferences.sub(9, 1, 1), Err(SimulationError::AgentNotFound(9)));
    assert!(preferences.0[0].is_empty());
    assert!(preferences.0[1].is_empty());
    let mut rng = ChaCha8Rng::seed_from_u64(12);
    assert_eq!(
        preferences.get_preferred_random(2, &mut rng),
        Err(SimulationError::AgentNotFound(2))
    );
}

#[test]
fn preferences_empty_timeline_is_no_data() {
    let preferences = table(2);
    let mut rng = ChaCha8Rng::seed_from_u64(13);
    assert_eq!(preferences.get_preferred_random(0, &mut rng), Err(SimulationError::NoData));
}

#[test]
fn preferences_heavy_weight_wraps_in_the_timeline() {
    let mut preferences = Preferences(vec![Timeline::with_capacity(4)]);
    assert_eq!(preferences.add(0, 1, 3), Ok(()));
    assert_eq!(preferences.sub(0, 2, 3), Ok(()));
    // one free slot takes the first sell, the other two go to the slots 0 and 1
    assert_eq!(
        preferences.0[0].data(),
        &vec![
            (2, TradeAction::Sell),
            (2, TradeAction::Sell),
            (1, TradeAction::Buy),
            (2, TradeAction::Sell)
        ]
    );
    assert_eq!(preferences.0[0].target_index(), 2);
}

#[test]
fn balances_get_reads_by_agent() {
    let balances = Balances(vec![5, 7]);
    assert_eq!(balances.get(0), Ok(5));
    assert_eq!(balances.get(1), Ok(7));
    assert_eq!(balances.get(2), Err(SimulationError::AgentNotFound(2)));
}

#[test]
fn balances_add_credits() {
    let mut balances = Balances(vec![5, 7]);
    assert_eq!(balances.add(1, 10), Ok(()));
    assert_eq!(balances.0, vec![5, 17]);
    assert_eq!(balances.add(2, 10), Err(SimulationError::AgentNotFound(2)));
    assert_eq!(balances.0, vec![5, 17]);
}

#[test]
fn balances_add_beyond_the_largest_amount_is_undoable() {
    let mut balances = Balances(vec![u128::MAX - 3]);
    assert_eq!(balances.add(0, 4), Err(SimulationError::UnDoable));
    assert_eq!(balances.0, vec![u128::MAX - 3]);
    assert_eq!(balances.add(0, 3), Ok(()));
    assert_eq!(balances.0, vec![u128::MAX]);
}

#[test]
fn balances_sub_debits() {
    let mut balances = Balances(vec![5, 7]);
    assert_eq!(balances.sub(1, 7), Ok(()));
    assert_eq!(balances.0, vec![5, 0]);
    assert_eq!(balances.sub(0, 6), Err(SimulationError::Unspendable));
    assert_eq!(balances.0, vec![5, 0]);
    assert_eq!(balances.sub(3, 0), Err(SimulationError::AgentNotFound(3)));
}

#[test]
fn preferences_weight_beyond_the_buffer_fills_it() {
    let mut preferences = Preferences(vec![Timeline::with_capacity(4)]);
    assert_eq!(preferences.add(0, 1, 2), Ok(()));
    assert_eq!(preferences.sub(0, 7, u64::MAX), Ok(()));
    assert_eq!(preferences.0[0].data(), &vec![(7, TradeAction::Sell); 4]);
    // two copies fill the buffer; the last of the others goes into slot 0
    assert_eq!(preferences.0[0].target_index(), 1);
    assert_eq!(preferences.add(0, 9, u64::MAX), Ok(()));
    assert_eq!(preferences.0[0].data(), &vec![(9, TradeAction::Buy); 4]);
    assert_eq!(preferences.0[0].target_index(), 1);
}

#[test]
fn preferences_heavy_weights_do_what_as_many_events_do() {
    for held in 0..5usize {
        for weight in 0..40u64 {
            let start: Vec<(u64, TradeAction)> =
                (0..held as u64).map(|company| (company, TradeAction::Buy)).collect();
            let mut by_table = Preferences(vec![Timeline::with_capacity(4)]);
            by_table.0[0].add(&start);
            by_table.sub(0, 9, weight).unwrap();
            let mut by_hand = Timeline::with_capacity(4);
            by_hand.add(&start);
            by_hand.add(&vec![(9, TradeAction::Sell); weight as usize]);
            assert_eq!(by_table.0[0].data(), by_hand.data());
            assert_eq!(by_table.0[0].target_index(), by_hand.target_index());
        }
    }
}

#[test]
fn defaults_are_empty() {
    assert!(Preferences::default().0.is_empty());
    assert!(Balances::default().0.is_empty());
    assert!(Timeline::default().is_empty());
    assert_eq!(Timeline::default().capacity(), stocks::TIMELINE_SIZE_LIMIT);
    assert!(stocks::transaction::AgentHoldings::default().0.is_empty());
    assert!(stocks::entities::agents::AgentPreferences::default().0.is_empty());
    let agents = stocks::entities::agents::Agents::default();
    assert_eq!(agents.num_of_agents, 0);
    assert!(agents.balances.0.is_empty());
}
