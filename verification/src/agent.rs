//! Single agents and listed companies, as they are first made up.

use crate::sampling::{thread_draw_below, thread_random};
use crate::transaction::Holding;
use crate::MAX_GRANTED_CASH;
use vstd::prelude::*;

verus! {

/// A trading agent on its own.
#[derive(Debug)]
pub struct Agent {
    pub id: u64,
    /// How much money does the agent have, in minor units
    pub balance: u128,
    /// How many shares does an agent hold in a company
    pub holdings: Vec<Holding>,
}

/// A company whose shares are traded.
#[derive(Debug)]
pub struct Company {
    pub id: u64,
    pub name: String,
    /// The ticker code.
    pub code: [char; 3],
    /// Number of total shares
    pub total_shares: u64,
}

/// The letter of the Latin alphabet with the given number: the 26 small
/// letters come first, then the 26 capitals. Beyond them there is none.
pub open spec fn spec_letter(index: u8) -> Option<char> {
    if index < 26 {
        Some(('a' as u8 + index) as char)
    } else if index < 52 {
        Some(('A' as u8 + (index - 26)) as char)
    } else {
        None
    }
}

/// The letter of the Latin alphabet with the given number.
#[verifier::when_used_as_spec(spec_letter)]
pub fn letter(index: u8) -> (letter: Option<char>)
    ensures
        letter == spec_letter(index),
        letter is Some <==> index < 52,
        letter matches Some(c) ==> 'a' <= c <= 'z' || 'A' <= c <= 'Z',
{
    if index < 26 {
        Some((97u8 + index) as char)
    } else if index < 52 {
        Some((65u8 + (index - 26)) as char)
    } else {
        None
    }
}

fn random_string() -> (name: String)
    ensures
        name@ == "lmao"@,
{
    "lmao".to_string()
}

fn rand_char() -> (letter: char)
    ensures
        'a' <= letter <= 'z' || 'A' <= letter <= 'Z',
{
    match letter(thread_draw_below(52)) {
        Some(letter) => letter,
        None => 'a',
    }
}

impl Agent {
    pub fn new(id: u64, balance: u128, holdings: Vec<Holding>) -> (agent: Agent)
        ensures
            agent.id == id,
            agent.balance == balance,
            agent.holdings == holdings,
    {
        Agent { id, balance, holdings }
    }

    /// An agent with a random id, a random balance below `MAX_GRANTED_CASH`
    /// and no shares.
    pub fn rand() -> (agent: Agent)
        ensures
            agent.balance < MAX_GRANTED_CASH,
            agent.holdings@.len() == 0,
    {
        Agent::new(thread_random(), (thread_random() % MAX_GRANTED_CASH) as u128, Vec::new())
    }
}

impl Company {
    pub fn new(id: u64, name: String, code: [char; 3], total_shares: u64) -> (company: Company)
        ensures
            company.id == id,
            company.name == name,
            company.code == code,
            company.total_shares == total_shares,
    {
        Company { id, name, code, total_shares }
    }

    /// A company with a random id, a random code of three letters and a
    /// random number of shares.
    pub fn rand() -> (company: Company)
        ensures
            company.name@ == "lmao"@,
            forall|i: int|
                0 <= i < 3 ==> 'a' <= #[trigger] company.code[i] <= 'z' || 'A' <= company.code[i]
                    <= 'Z',
    {
        Company::new(
            thread_random(),
            random_string(),
            [rand_char(), rand_char(), rand_char()],
            thread_random(),
        )
    }
}

} // verus!
