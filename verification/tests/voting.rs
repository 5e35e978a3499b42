use crowdmatch::records::Payment;
use crowdmatch::voting::{Error, State, VotingContract};

const ADMIN: u64 = 1;
const TOKEN: u64 = 2;
const PAYOUT: u64 = 3;
const ALICE: u64 = 50;
const BOB: u64 = 51;
const ASSOC_A: u64 = 100;
const ASSOC_B: u64 = 200;

fn fresh_service() -> VotingContract {
    let mut c = VotingContract::new();
    let r = c.init(ADMIN, TOKEN, &vec![ASSOC_A, ASSOC_B], 1000, PAYOUT, 0);
    assert_eq!(r, Ok(()));
    c
}

#[test]
fn init_records_configuration() {
    let c = fresh_service();
    assert_eq!(c.deadline(), 1000);
    assert_eq!(c.total_amount(), 0);
    assert_eq!(c.associations_addresses(), vec![ASSOC_A, ASSOC_B]);
    assert_eq!(c.association_amount(ASSOC_A), Vec::<i64>::new());
}

#[test]
fn init_rejects_past_deadline() {
    let mut c = VotingContract::new();
    assert_eq!(
        c.init(ADMIN, TOKEN, &vec![ASSOC_A], 10, PAYOUT, 11),
        Err(Error::InvalidTimestamp)
    );
}

#[test]
fn init_rejects_empty_beneficiary_set() {
    let mut c = VotingContract::new();
    assert_eq!(
        c.init(ADMIN, TOKEN, &Vec::new(), 1000, PAYOUT, 0),
        Err(Error::InvalidAssociation)
    );
}

#[test]
fn reinit_fails_and_leaves_state_untouched() {
    let mut c = fresh_service();
    let r = c.init(7, 8, &vec![ASSOC_B], 5000, 9, 0);
    assert_eq!(r, Err(Error::AlreadyInitialized));
    assert_eq!(c.deadline(), 1000);
    assert_eq!(c.total_amount(), 0);
    assert_eq!(c.associations_addresses(), vec![ASSOC_A, ASSOC_B]);
}

#[test]
fn deposit_appends_and_accumulates() {
    let mut c = fresh_service();
    let p1 = c.deposit(ASSOC_A, ALICE, 4, 1).unwrap();
    assert_eq!(p1, vec![Payment::In { from: ALICE, amount: 4 }]);
    let p2 = c.deposit(ASSOC_A, ALICE, 9, 2).unwrap();
    assert_eq!(p2, vec![Payment::In { from: ALICE, amount: 9 }]);
    let p3 = c.deposit(ASSOC_B, BOB, 1, 3).unwrap();
    assert_eq!(p3, vec![Payment::In { from: BOB, amount: 1 }]);
    assert_eq!(c.association_amount(ASSOC_A), vec![4, 9]);
    assert_eq!(c.association_amount(ASSOC_B), vec![1]);
    assert_eq!(c.total_amount(), 14);
}

#[test]
fn deposit_to_unknown_beneficiary_still_counts_in_total() {
    let mut c = fresh_service();
    let p = c.deposit(777, ALICE, 5, 1).unwrap();
    assert!(p.is_empty());
    assert_eq!(c.total_amount(), 5);
    assert_eq!(c.association_amount(777), Vec::<i64>::new());
}

#[test]
fn duplicate_registration_credits_both_records() {
    let mut c = VotingContract::new();
    c.init(ADMIN, TOKEN, &vec![ASSOC_A, ASSOC_A], 1000, PAYOUT, 0).unwrap();
    let p = c.deposit(ASSOC_A, ALICE, 3, 1).unwrap();
    assert_eq!(
        p,
        vec![
            Payment::In { from: ALICE, amount: 3 },
            Payment::In { from: ALICE, amount: 3 },
        ]
    );
    assert_eq!(c.total_amount(), 3);
}

#[test]
fn association_amount_returns_the_last_matching_record() {
    let mut c = VotingContract::new();
    c.init(ADMIN, TOKEN, &vec![ASSOC_A, ASSOC_A], 1000, PAYOUT, 0).unwrap();
    c.deposit(ASSOC_A, ALICE, 3, 1).unwrap();
    assert_eq!(c.association_amount(ASSOC_A), vec![3]);
    // a third record under the same name starts empty, and the query
    // reports the last one registered
    c.add_association(ADMIN, ASSOC_A, 1).unwrap();
    assert_eq!(c.association_amount(ASSOC_A), Vec::<i64>::new());
}

#[test]
fn total_tracks_only_accepted_deposits() {
    let mut c = fresh_service();
    c.deposit(ASSOC_A, ALICE, 4, 1).unwrap();
    assert_eq!(c.deposit(ASSOC_A, ALICE, -1, 1), Err(Error::InvalidAmount));
    assert_eq!(c.deposit(ASSOC_A, ALICE, 9, 5000), Err(Error::InvalidTimestamp));
    c.deposit(ASSOC_B, BOB, 9, 2).unwrap();
    assert_eq!(c.total_amount(), 13);
}

#[test]
fn deposit_at_or_after_deadline_fails_unchanged() {
    let mut c = fresh_service();
    c.deposit(ASSOC_A, ALICE, 4, 1).unwrap();
    // exactly at the deadline
    assert_eq!(c.deposit(ASSOC_A, ALICE, 9, 1000), Err(Error::InvalidTimestamp));
    // past the deadline
    assert_eq!(c.deposit(ASSOC_A, ALICE, 9, 2000), Err(Error::InvalidTimestamp));
    assert_eq!(c.association_amount(ASSOC_A), vec![4]);
    assert_eq!(c.total_amount(), 4);
}

#[test]
fn deposit_rejects_non_positive_amounts() {
    let mut c = fresh_service();
    assert_eq!(c.deposit(ASSOC_A, ALICE, 0, 1), Err(Error::InvalidAmount));
    assert_eq!(c.deposit(ASSOC_A, ALICE, -7, 1), Err(Error::InvalidAmount));
    assert_eq!(c.total_amount(), 0);
}

#[test]
fn state_follows_the_deadline() {
    let c = fresh_service();
    assert_eq!(c.state(0), State::Running);
    assert_eq!(c.state(999), State::Running);
    assert_eq!(c.state(1000), State::Ended);
    assert_eq!(c.state(5000), State::Ended);
}

#[test]
fn calculation_truncates_small_shares_to_zero() {
    // deposits [4, 9] and [1]: root sums 5 and 1, weights 25 and 1,
    // total weight 26; both quotients truncate to zero, so both
    // allocations are zero whatever the pool
    let mut c = fresh_service();
    c.deposit(ASSOC_A, ALICE, 4, 1).unwrap();
    c.deposit(ASSOC_A, ALICE, 9, 1).unwrap();
    c.deposit(ASSOC_B, BOB, 1, 1).unwrap();
    assert_eq!(c.calculate_funding(ADMIN), Ok(()));
    let finals = c.total_final_associations();
    assert_eq!(finals.len(), 2);
    assert_eq!(finals[0].get_name(), ASSOC_A);
    assert_eq!(finals[0].get_contribution(), 0);
    assert!(!finals[0].get_has_withdrawn());
    assert_eq!(finals[1].get_name(), ASSOC_B);
    assert_eq!(finals[1].get_contribution(), 0);
}

#[test]
fn calculation_grants_whole_pool_to_sole_contributor() {
    let mut c = fresh_service();
    c.deposit(ASSOC_A, ALICE, 4, 1).unwrap();
    assert_eq!(c.calculate_funding(ADMIN), Ok(()));
    let finals = c.total_final_associations();
    assert_eq!(finals[0].get_contribution(), 4);
    assert_eq!(finals[1].get_contribution(), 0);
}

#[test]
fn allocations_never_exceed_the_pool() {
    // weights 4 and 1 against a total of 5: both quotients truncate, the
    // whole remainder is lost, and the granted sum stays below the pool
    let mut c = fresh_service();
    c.deposit(ASSOC_A, ALICE, 4, 1).unwrap();
    c.deposit(ASSOC_B, BOB, 1, 1).unwrap();
    assert_eq!(c.calculate_funding(ADMIN), Ok(()));
    let granted: i128 = c
        .total_final_associations()
        .iter()
        .map(|f| f.get_contribution())
        .sum();
    assert!(granted <= c.total_amount());
    assert_eq!(granted, 0);
}

#[test]
fn calculation_is_deterministic_across_reruns() {
    let mut c = fresh_service();
    c.deposit(ASSOC_A, ALICE, 4, 1).unwrap();
    c.deposit(ASSOC_B, BOB, 9, 1).unwrap();
    assert_eq!(c.calculate_funding(ADMIN), Ok(()));
    let first: Vec<i128> = c
        .total_final_associations()
        .iter()
        .map(|f| f.get_contribution())
        .collect();
    assert_eq!(c.calculate_funding(ADMIN), Ok(()));
    let second: Vec<i128> = c
        .total_final_associations()
        .iter()
        .map(|f| f.get_contribution())
        .collect();
    assert_eq!(first, second);
}

#[test]
fn calculation_requires_the_admin() {
    let mut c = fresh_service();
    c.deposit(ASSOC_A, ALICE, 4, 1).unwrap();
    assert_eq!(c.calculate_funding(ALICE), Err(Error::InvalidAuth));
    assert_eq!(c.total_final_associations().len(), 0);
}

#[test]
fn calculation_rejects_zero_total_weight() {
    let mut c = fresh_service();
    assert_eq!(c.calculate_funding(ADMIN), Err(Error::InvalidAmount));
}

#[test]
fn withdraw_pays_pool_once_then_fails() {
    let mut c = fresh_service();
    c.deposit(ASSOC_A, ALICE, 25, 1).unwrap();
    let payment = c.withdraw(ADMIN).unwrap();
    assert_eq!(payment, Payment::Out { to: PAYOUT, amount: 25 });
    assert_eq!(c.withdraw(ADMIN), Err(Error::AlreadyWithdrawn));
    assert_eq!(c.total_amount(), 25);
}

#[test]
fn withdraw_requires_the_admin() {
    let mut c = fresh_service();
    assert_eq!(c.withdraw(ALICE), Err(Error::InvalidAuth));
}

#[test]
fn end_funding_reopens_a_round_after_calculation() {
    let mut c = fresh_service();
    c.deposit(ASSOC_A, ALICE, 4, 1).unwrap();
    c.withdraw(ADMIN).unwrap();
    // no calculation yet: nothing changes and the claim stays blocked
    assert_eq!(c.end_funding(ADMIN, 500), Ok(()));
    assert_eq!(c.deadline(), 1000);
    assert_eq!(c.withdraw(ADMIN), Err(Error::AlreadyWithdrawn));
    // after a calculation the round resets: deadline moves, claim clears
    assert_eq!(c.calculate_funding(ADMIN), Ok(()));
    assert_eq!(c.end_funding(ADMIN, 500), Ok(()));
    assert_eq!(c.deadline(), 500);
    assert_eq!(c.withdraw(ADMIN).unwrap(), Payment::Out { to: PAYOUT, amount: 4 });
}

#[test]
fn end_funding_requires_the_admin() {
    let mut c = fresh_service();
    assert_eq!(c.end_funding(BOB, 10), Err(Error::InvalidAuth));
}

#[test]
fn add_association_registers_one_more_record() {
    let mut c = fresh_service();
    assert_eq!(c.add_association(ADMIN, 300, 10), Ok(()));
    assert_eq!(c.associations_addresses(), vec![ASSOC_A, ASSOC_B, 300]);
    assert_eq!(c.add_association(BOB, 400, 10), Err(Error::InvalidAuth));
    assert_eq!(c.add_association(ADMIN, 400, 2000), Err(Error::InvalidTimestamp));
    assert_eq!(c.associations_addresses(), vec![ASSOC_A, ASSOC_B, 300]);
}

#[test]
fn duplicate_quantities_doubles_allocations_and_total() {
    let mut c = fresh_service();
    c.deposit(ASSOC_A, ALICE, 4, 1).unwrap();
    assert_eq!(c.calculate_funding(ADMIN), Ok(()));
    let payments = c.duplicate_quantities(BOB).unwrap();
    // the matcher pays in each current allocation before it doubles
    assert_eq!(
        payments,
        vec![
            Payment::In { from: BOB, amount: 4 },
            Payment::In { from: BOB, amount: 0 },
        ]
    );
    let finals = c.total_final_associations();
    assert_eq!(finals[0].get_contribution(), 8);
    assert_eq!(finals[1].get_contribution(), 0);
    assert_eq!(c.total_amount(), 8);
    // a second round keeps doubling: no idempotence is intended
    c.duplicate_quantities(BOB).unwrap();
    assert_eq!(c.total_final_associations()[0].get_contribution(), 16);
    assert_eq!(c.total_amount(), 16);
}
