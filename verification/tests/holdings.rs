use stocks::entities::agents::{combine, Holdings};
use stocks::transaction::{AgentHoldings, Transaction};
use stocks::SimulationError;

#[test]
fn holdings_absent_position_is_zero() {
    let holdings = Holdings::default();
    assert_eq!(holdings.get(3, 4), 0);
    assert_eq!(holdings.get_u128(combine(3, 4)), 0);
}

#[test]
fn holdings_insert_replaces() {
    let mut holdings = Holdings::default();
    holdings.insert(3, 4, 10);
    assert_eq!(holdings.get(3, 4), 10);
    holdings.insert(3, 4, 2);
    assert_eq!(holdings.get(3, 4), 2);
    assert_eq!(holdings.get(4, 3), 0);
}

#[test]
fn holdings_push_adds_and_creates() {
    let mut holdings = Holdings::default();
    holdings.push(1, 2, 5);
    assert_eq!(holdings.get(1, 2), 5);
    holdings.push(1, 2, 7);
    assert_eq!(holdings.get(1, 2), 12);
    assert_eq!(holdings.get(1, 3), 0);
    assert_eq!(holdings.get(2, 2), 0);
}

#[test]
fn holdings_get_u128_reads_packed_key() {
    let mut holdings = Holdings::default();
    holdings.push(1, 2, 5);
    assert_eq!(holdings.get_u128((1u128 << 64) + 2), 5);
    assert_eq!(holdings.get_u128((2u128 << 64) + 1), 0);
}

#[test]
fn holdings_pop_takes_shares() {
    let mut holdings = Holdings::default();
    holdings.push(1, 2, 10);
    assert_eq!(holdings.pop(1, 2, 4), Ok(()));
    assert_eq!(holdings.get(1, 2), 6);
    assert_eq!(holdings.pop(1, 2, 6), Ok(()));
    assert_eq!(holdings.get(1, 2), 0);
}

#[test]
fn holdings_pop_fails_exactly_when_too_few() {
    for held in 0..6u64 {
        for asked in 0..8u64 {
            let mut holdings = Holdings::default();
            if held > 0 {
                holdings.push(9, 1, held);
            }
            let result = holdings.pop(9, 1, asked);
            if held < asked {
                assert_eq!(result, Err(SimulationError::Unspendable));
                assert_eq!(holdings.get(9, 1), held);
            } else {
                assert_eq!(result, Ok(()));
                assert_eq!(holdings.get(9, 1), held - asked);
            }
        }
    }
}

#[test]
fn holdings_pop_failure_changes_nothing() {
    let mut holdings = Holdings::default();
    holdings.push(1, 2, 10);
    holdings.push(1, 3, 1);
    assert_eq!(holdings.pop(1, 2, 11), Err(SimulationError::Unspendable));
    assert_eq!(holdings.get(1, 2), 10);
    assert_eq!(holdings.get(1, 3), 1);
    assert_eq!(holdings.pop(7, 7, 1), Err(SimulationError::Unspendable));
    assert_eq!(holdings.get(7, 7), 0);
}

#[test]
fn holdings_pop_nothing_from_absent_position() {
    let mut holdings = Holdings::default();
    assert_eq!(holdings.pop(5, 5, 0), Ok(()));
    assert_eq!(holdings.get(5, 5), 0);
}

#[test]
fn holdings_transaction_variants() {
    let transaction = Transaction::new(1, 2, 9, 4, 1000);
    let mut holdings = Holdings::default();
    holdings.push_from_txn(1, &transaction);
    assert_eq!(holdings.get(1, 9), 4);
    holdings.push_from_txn(1, &transaction);
    assert_eq!(holdings.get(1, 9), 8);
    assert_eq!(holdings.pop_from_txn(1, &transaction), Ok(()));
    assert_eq!(holdings.get(1, 9), 4);
    assert_eq!(holdings.pop_from_txn(2, &transaction), Err(SimulationError::Unspendable));
    assert_eq!(holdings.pop_from_txn(1, &transaction), Ok(()));
    assert_eq!(holdings.pop_from_txn(1, &transaction), Err(SimulationError::Unspendable));
    assert_eq!(holdings.get(1, 9), 0);
}

#[test]
fn transaction_new_keeps_its_fields() {
    let transaction = Transaction::new(1, 2, 3, 4, 5);
    assert_eq!(transaction.buyer_id, 1);
    assert_eq!(transaction.seller_id, 2);
    assert_eq!(transaction.company_id, 3);
    assert_eq!(transaction.number_of_shares, 4);
    assert_eq!(transaction.strike_price, 5);
}

#[test]
fn agent_holdings_absent_company_is_zero() {
    let holdings = AgentHoldings::new();
    assert_eq!(holdings.get(&3), 0);
    assert!(holdings.0.is_empty());
}

#[test]
fn agent_holdings_insert_and_push() {
    let mut holdings = AgentHoldings::new();
    holdings.insert(3, 10);
    assert_eq!(holdings.get(&3), 10);
    holdings.insert(3, 4);
    assert_eq!(holdings.get(&3), 4);
    holdings.push(3, 6);
    assert_eq!(holdings.get(&3), 10);
    holdings.push(8, 1);
    assert_eq!(holdings.get(&8), 1);
}

#[test]
fn agent_holdings_pop() {
    let mut holdings = AgentHoldings::new();
    assert!(!holdings.pop(3, 0));
    assert!(!holdings.pop(3, 1));
    holdings.push(3, 5);
    assert!(!holdings.pop(3, 6));
    assert_eq!(holdings.get(&3), 5);
    assert!(holdings.pop(3, 2));
    assert_eq!(holdings.get(&3), 3);
    assert!(holdings.pop(3, 3));
    assert_eq!(holdings.get(&3), 0);
    assert!(holdings.pop(3, 0));
}

#[test]
fn agent_holdings_transaction_variants() {
    let transaction = Transaction::new(1, 2, 9, 4, 1000);
    let mut holdings = AgentHoldings::new();
    assert!(!holdings.pop_from_txn(&transaction));
    holdings.push_from_txn(&transaction);
    holdings.push_from_txn(&transaction);
    assert_eq!(holdings.get(&9), 8);
    assert!(holdings.pop_from_txn(&transaction));
    assert_eq!(holdings.get(&9), 4);
    holdings.insert(9, 3);
    assert!(!holdings.pop_from_txn(&transaction));
    assert_eq!(holdings.get(&9), 3);
}
