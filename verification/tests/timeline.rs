use rand_chacha::rand_core::SeedableRng;
use rand_chacha::ChaCha8Rng;
use stocks::entities::agents::Timeline;
use stocks::trade_house::TradeAction;
use stocks::{SimulationError, TIMELINE_SIZE_LIMIT};

fn events(companies: &[u64]) -> Vec<(u64, TradeAction)> {
    companies.iter().map(|company| (*company, TradeAction::Buy)).collect()
}

fn timeline_of(capacity: usize, companies: &[u64]) -> Timeline {
    let mut timeline = Timeline::with_capacity(capacity);
    timeline.add(&events(companies));
    timeline
}

#[test]
fn timeline_new_is_empty_with_default_capacity() {
    let timeline = Timeline::new();
    assert!(timeline.is_empty());
    assert_eq!(timeline.len(), 0);
    assert_eq!(timeline.target_index(), 0);
    assert_eq!(timeline.capacity(), TIMELINE_SIZE_LIMIT);
}

#[test]
fn timeline_filling_empty_keeps_order() {
    for capacity in [1usize, 2, 4, 9] {
        let companies: Vec<u64> = (100..100 + capacity as u64).collect();
        let timeline = timeline_of(capacity, &companies);
        assert_eq!(timeline.len(), capacity);
        assert_eq!(timeline.data(), &events(&companies));
        assert_eq!(timeline.target_index(), 0);
    }
}

#[test]
fn timeline_add_never_exceeds_capacity() {
    let mut timeline = Timeline::with_capacity(5);
    for round in 0..40u64 {
        let count = (round * 7) % 13;
        let companies: Vec<u64> = (0..count).collect();
        timeline.add(&events(&companies));
        assert!(timeline.len() <= 5);
        assert!(timeline.target_index() <= timeline.len());
        assert_eq!(timeline.capacity(), 5);
    }
    assert_eq!(timeline.len(), 5);
}

#[test]
fn partial_overflow_in_one_call() {
    let timeline = timeline_of(4, &[10, 11, 12, 13, 14, 15]);
    assert_eq!(timeline.data(), &events(&[14, 15, 12, 13]));
    assert_eq!(timeline.target_index(), 2);
}

#[test]
fn timeline_append_with_room() {
    let mut timeline = timeline_of(6, &[1, 2]);
    timeline.add(&events(&[3, 4, 5]));
    assert_eq!(timeline.data(), &events(&[1, 2, 3, 4, 5]));
    assert_eq!(timeline.target_index(), 0);
    timeline.add(&[]);
    assert_eq!(timeline.data(), &events(&[1, 2, 3, 4, 5]));
    timeline.add(&[(9, TradeAction::Sell)]);
    assert_eq!(timeline.len(), 6);
    assert_eq!(timeline.get(5), Some((9, TradeAction::Sell)));
}

#[test]
fn timeline_partial_overflow_after_earlier_adds() {
    let mut timeline = timeline_of(5, &[1, 2, 3]);
    timeline.add(&events(&[4, 5, 6, 7, 8]));
    // two free slots take 4 and 5, then 6, 7, 8 go to the slots 0, 1, 2
    assert_eq!(timeline.data(), &events(&[6, 7, 8, 4, 5]));
    assert_eq!(timeline.target_index(), 3);
}

#[test]
fn timeline_full_overwrites_from_target_without_advancing() {
    let mut timeline = timeline_of(4, &[10, 11, 12, 13, 14, 15]);
    timeline.add(&events(&[20, 21, 22]));
    assert_eq!(timeline.data(), &events(&[22, 15, 20, 21]));
    assert_eq!(timeline.target_index(), 2);
    timeline.add(&events(&[30]));
    assert_eq!(timeline.data(), &events(&[22, 15, 30, 21]));
    assert_eq!(timeline.target_index(), 2);
}

#[test]
fn timeline_full_add_goes_round_the_buffer() {
    let mut timeline = timeline_of(3, &[1, 2, 3]);
    timeline.add(&events(&[4, 5, 6, 7, 8]));
    assert_eq!(timeline.data(), &events(&[7, 8, 6]));
    assert_eq!(timeline.target_index(), 0);
}

#[test]
fn timeline_full_add_goes_round_from_the_target() {
    let mut timeline = timeline_of(4, &[10, 11, 12, 13, 14, 15]);
    timeline.add(&events(&[20, 21, 22, 23, 24, 25]));
    assert_eq!(timeline.data(), &events(&[22, 23, 24, 25]));
    assert_eq!(timeline.target_index(), 2);
}

#[test]
fn timeline_full_add_with_target_at_the_end_starts_at_slot_0() {
    let mut timeline = timeline_of(3, &[1, 10, 11, 12, 13, 14]);
    assert_eq!(timeline.target_index(), 3);
    timeline.add(&events(&[20, 21]));
    assert_eq!(timeline.data(), &events(&[20, 21, 14]));
    assert_eq!(timeline.target_index(), 3);
}

#[test]
fn timeline_partial_overflow_beyond_the_buffer() {
    let mut timeline = timeline_of(3, &[1]);
    timeline.add(&events(&[10, 11, 12, 13, 14, 15, 16]));
    // 10 and 11 fill the buffer, then 12 to 16 go round from slot 0
    assert_eq!(timeline.data(), &events(&[15, 16, 14]));
    assert_eq!(timeline.target_index(), 2);
    assert_eq!(timeline.len(), 3);
}

#[test]
fn timeline_partial_overflow_that_just_fills_the_buffer_twice() {
    let mut timeline = timeline_of(3, &[1]);
    timeline.add(&events(&[10, 11, 12, 13, 14]));
    assert_eq!(timeline.data(), &events(&[12, 13, 14]));
    assert_eq!(timeline.target_index(), 3);
}

#[test]
fn timeline_without_capacity_keeps_nothing() {
    let mut timeline = Timeline::with_capacity(0);
    timeline.add(&events(&[1, 2, 3]));
    assert!(timeline.is_empty());
    assert_eq!(timeline.target_index(), 0);
}

#[test]
fn timeline_from_parts_checks_the_parts() {
    assert!(Timeline::from_parts(events(&[1, 2, 3]), 4, 5).is_none());
    assert!(Timeline::from_parts(events(&[1, 2, 3]), 0, 2).is_none());
    let timeline = Timeline::from_parts(events(&[1, 2, 3]), 3, 3).unwrap();
    assert_eq!(timeline.data(), &events(&[1, 2, 3]));
    assert_eq!(timeline.target_index(), 3);
    assert_eq!(timeline.capacity(), 3);
    let empty = Timeline::from_parts(Vec::new(), 0, 0).unwrap();
    assert!(empty.is_empty());
}

#[test]
fn timeline_get_reads_a_slot() {
    let timeline = timeline_of(4, &[7, 8]);
    assert_eq!(timeline.get(0), Some((7, TradeAction::Buy)));
    assert_eq!(timeline.get(1), Some((8, TradeAction::Buy)));
    assert_eq!(timeline.get(2), None);
}

#[test]
fn timeline_clone_is_equal() {
    let timeline = timeline_of(4, &[10, 11, 12, 13, 14, 15]);
    let copy = timeline.clone();
    assert_eq!(copy.data(), timeline.data());
    assert_eq!(copy.target_index(), 2);
    assert_eq!(copy.capacity(), 4);
}

#[test]
fn timeline_recent_window_before_target() {
    // buffer [14, 15, 12, 13], target 2
    let timeline = timeline_of(4, &[10, 11, 12, 13, 14, 15]);
    assert_eq!(timeline.recent(1, 0), Some((15, TradeAction::Buy)));
    assert_eq!(timeline.recent(1, 1), None);
}

#[test]
fn timeline_recent_window_ending_at_target() {
    let timeline = timeline_of(4, &[10, 11, 12, 13, 14, 15]);
    assert_eq!(timeline.recent(2, 0), Some((14, TradeAction::Buy)));
    assert_eq!(timeline.recent(2, 1), Some((15, TradeAction::Buy)));
    assert_eq!(timeline.recent(2, 2), None);
}

#[test]
fn timeline_recent_window_reaching_past_target() {
    let timeline = timeline_of(4, &[10, 11, 12, 13, 14, 15]);
    assert_eq!(timeline.recent(3, 0), Some((14, TradeAction::Buy)));
    assert_eq!(timeline.recent(3, 1), Some((15, TradeAction::Buy)));
    assert_eq!(timeline.recent(3, 2), Some((13, TradeAction::Buy)));
    assert_eq!(timeline.recent(3, 3), None);
}

#[test]
fn timeline_recent_window_without_wrap_counts_back_from_the_end() {
    // target 0: every position counts back from the last slot
    let timeline = timeline_of(6, &[1, 2, 3, 4, 5]);
    assert_eq!(timeline.recent(2, 0), Some((5, TradeAction::Buy)));
    assert_eq!(timeline.recent(2, 1), Some((4, TradeAction::Buy)));
    assert_eq!(timeline.recent(2, 2), None);
}

#[test]
fn timeline_recent_full_window_is_the_buffer() {
    let timeline = timeline_of(4, &[10, 11, 12, 13, 14, 15]);
    for bias_size in [4usize, 5, 100] {
        for draw in 0..6 {
            assert_eq!(timeline.recent(bias_size, draw), timeline.get(draw));
        }
    }
}

#[test]
fn timeline_get_rng_empty_is_no_data() {
    let mut rng = ChaCha8Rng::seed_from_u64(1);
    assert_eq!(Timeline::new().get_rng(&mut rng), Err(SimulationError::NoData));
    assert_eq!(Timeline::with_capacity(0).get_rng(&mut rng), Err(SimulationError::NoData));
}

#[test]
fn timeline_get_rng_single_event() {
    let timeline = timeline_of(4, &[42]);
    let mut rng = ChaCha8Rng::seed_from_u64(2);
    for _ in 0..100 {
        assert_eq!(timeline.get_rng(&mut rng), Ok((42, TradeAction::Buy)));
    }
}

#[test]
fn timeline_get_rng_returns_stored_events() {
    let timeline = timeline_of(4, &[10, 11, 12, 13, 14, 15]);
    let mut rng = ChaCha8Rng::seed_from_u64(3);
    let mut seen = [false; 4];
    for _ in 0..200 {
        let (company, action) = timeline.get_rng(&mut rng).unwrap();
        assert_eq!(action, TradeAction::Buy);
        assert!((12..=15).contains(&company));
        seen[(company - 12) as usize] = true;
    }
    assert_eq!(seen, [true; 4]);
}

#[test]
fn timeline_recency_bias_without_window_is_no_data() {
    let timeline = timeline_of(4, &[1, 2]);
    let mut rng = ChaCha8Rng::seed_from_u64(4);
    assert_eq!(timeline.recency_bias(0, &mut rng), Err(SimulationError::NoData));
    assert_eq!(Timeline::new().recency_bias(0, &mut rng), Err(SimulationError::NoData));
    assert_eq!(Timeline::new().recency_bias(3, &mut rng), Err(SimulationError::NoData));
}

#[test]
fn timeline_recency_bias_full_window_matches_get_rng() {
    let timeline = timeline_of(4, &[10, 11, 12, 13, 14, 15]);
    for bias_size in [4usize, 5, 1000] {
        for seed in 0..50 {
            let mut plain = ChaCha8Rng::seed_from_u64(seed);
            let mut biased = ChaCha8Rng::seed_from_u64(seed);
            for _ in 0..10 {
                let recent = timeline.recency_bias(bias_size, &mut biased);
                assert_eq!(recent, timeline.get_rng(&mut plain));
            }
        }
    }
}

#[test]
fn timeline_recency_bias_stays_in_window() {
    let timeline = timeline_of(4, &[10, 11, 12, 13, 14, 15]);
    let mut rng = ChaCha8Rng::seed_from_u64(5);
    for _ in 0..100 {
        assert_eq!(timeline.recency_bias(1, &mut rng), Ok((15, TradeAction::Buy)));
    }
    let mut seen = [false; 16];
    for _ in 0..200 {
        let (company, _) = timeline.recency_bias(3, &mut rng).unwrap();
        seen[company as usize] = true;
    }
    assert!(seen[14] && seen[15] && seen[13]);
    assert!(!seen[12]);
}
