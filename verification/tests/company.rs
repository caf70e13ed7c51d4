use stocks::agent::{letter, Agent, Company};
use stocks::transaction::Holding;
use stocks::MAX_GRANTED_CASH;

#[test]
fn company_new_keeps_its_fields() {
    let company = Company::new(3, "Acme".to_string(), ['A', 'C', 'M'], 1000);
    assert_eq!(company.id, 3);
    assert_eq!(company.name, "Acme");
    assert_eq!(company.code, ['A', 'C', 'M']);
    assert_eq!(company.total_shares, 1000);
}

#[test]
fn company_rand_has_a_code_of_letters() {
    for _ in 0..200 {
        let company = Company::rand();
        assert_eq!(company.name, "lmao");
        for letter in company.code {
            assert!(letter.is_ascii_alphabetic());
        }
    }
}

#[test]
fn letter_counts_small_letters_first() {
    assert_eq!(letter(0), Some('a'));
    assert_eq!(letter(1), Some('b'));
    assert_eq!(letter(25), Some('z'));
    assert_eq!(letter(26), Some('A'));
    assert_eq!(letter(51), Some('Z'));
    assert_eq!(letter(52), None);
    assert_eq!(letter(255), None);
}

#[test]
fn company_rand_draws_different_letters() {
    let mut seen = std::collections::HashSet::new();
    for _ in 0..500 {
        for letter in Company::rand().code {
            seen.insert(letter);
        }
    }
    assert!(seen.len() > 40);
    assert!(seen.iter().any(|letter| letter.is_ascii_lowercase()));
    assert!(seen.iter().any(|letter| letter.is_ascii_uppercase()));
}

#[test]
fn agent_new_keeps_its_fields() {
    let holdings = vec![Holding { company_id: 2, number_of_shares: 9 }];
    let agent = Agent::new(4, 1250, holdings.clone());
    assert_eq!(agent.id, 4);
    assert_eq!(agent.balance, 1250);
    assert_eq!(agent.holdings, holdings);
}

#[test]
fn agent_rand_starts_without_shares() {
    for _ in 0..200 {
        let agent = Agent::rand();
        assert!(agent.balance < MAX_GRANTED_CASH as u128);
        assert!(agent.holdings.is_empty());
    }
}
