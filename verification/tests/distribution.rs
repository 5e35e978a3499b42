use crowdmatch::distribution::{DistributionContract, Error, MONTH_IN_SECONDS};
use crowdmatch::records::Payment;

const ADMIN: u64 = 1;
const TOKEN: u64 = 2;
const ASSOC_A: u64 = 100;
const ASSOC_B: u64 = 200;

fn fresh_service() -> DistributionContract {
    let mut c = DistributionContract::new();
    let r = c.init(ADMIN, TOKEN, &vec![ASSOC_A, ASSOC_B], 1000, 0);
    assert_eq!(r, Ok(()));
    c
}

#[test]
fn init_seeds_zeroed_records() {
    let c = fresh_service();
    assert_eq!(c.deadline(), 1000);
    assert_eq!(c.total(), 0);
    let finals = c.associations();
    assert_eq!(finals.len(), 2);
    assert_eq!(finals[0].get_name(), ASSOC_A);
    assert_eq!(finals[0].get_contribution(), 0);
    assert!(!finals[0].get_has_withdrawn());
}

#[test]
fn distribution_init_rejects_past_deadline() {
    let mut c = DistributionContract::new();
    assert_eq!(c.init(ADMIN, TOKEN, &vec![ASSOC_A], 10, 11), Err(Error::InvalidTimestamp));
}

#[test]
fn distribution_init_rejects_empty_beneficiary_set() {
    let mut c = DistributionContract::new();
    assert_eq!(c.init(ADMIN, TOKEN, &Vec::new(), 1000, 0), Err(Error::InvalidAssociation));
}

#[test]
fn distribution_reinit_fails_and_leaves_state_untouched() {
    let mut c = fresh_service();
    c.deposit(ASSOC_A, 120, 1).unwrap();
    assert_eq!(c.init(7, 8, &vec![ASSOC_B], 5000, 0), Err(Error::AlreadyInitialized));
    assert_eq!(c.deadline(), 1000);
    assert_eq!(c.total(), 120);
    assert_eq!(c.associations()[0].get_contribution(), 120);
}

#[test]
fn deposit_accumulates_allocations() {
    let mut c = fresh_service();
    assert_eq!(c.deposit(ASSOC_A, 100, 1), Ok(()));
    assert_eq!(c.deposit(ASSOC_A, 20, 2), Ok(()));
    assert_eq!(c.deposit(ASSOC_B, 7, 3), Ok(()));
    assert_eq!(c.associations()[0].get_contribution(), 120);
    assert_eq!(c.associations()[1].get_contribution(), 7);
    assert_eq!(c.total(), 127);
}

#[test]
fn distribution_deposit_after_deadline_fails_unchanged() {
    let mut c = fresh_service();
    c.deposit(ASSOC_A, 9, 1).unwrap();
    assert_eq!(c.deposit(ASSOC_A, 5, 1001), Err(Error::InvalidTimestamp));
    assert_eq!(c.associations()[0].get_contribution(), 9);
    assert_eq!(c.total(), 9);
}

#[test]
fn distribution_add_association_checks_auth_and_deadline() {
    let mut c = fresh_service();
    assert_eq!(c.add_association(300, ADMIN, 10), Ok(()));
    assert_eq!(c.associations().len(), 3);
    assert_eq!(c.add_association(400, 99, 10), Err(Error::InvalidAuth));
    assert_eq!(c.add_association(400, ADMIN, 2000), Err(Error::InvalidTimestamp));
    assert_eq!(c.associations().len(), 3);
}

#[test]
fn withdraw_pays_a_twelfth_and_marks_beneficiaries() {
    let mut c = fresh_service();
    c.deposit(ASSOC_A, 120, 1).unwrap();
    c.deposit(ASSOC_B, 60, 1).unwrap();
    let payments = c.withdraw(ADMIN).unwrap();
    assert_eq!(
        payments,
        vec![
            Payment::Out { to: ASSOC_A, amount: 10 },
            Payment::Out { to: ASSOC_B, amount: 5 },
        ]
    );
    assert!(c.associations()[0].get_has_withdrawn());
    assert!(c.associations()[1].get_has_withdrawn());
    // allocations themselves stay untouched between periods
    assert_eq!(c.associations()[0].get_contribution(), 120);
}

#[test]
fn withdraw_is_exactly_once_per_window() {
    let mut c = fresh_service();
    c.deposit(ASSOC_A, 120, 1).unwrap();
    c.withdraw(ADMIN).unwrap();
    assert_eq!(c.withdraw(ADMIN), Err(Error::ExpectedExtraValue));
    assert_eq!(c.withdraw(77), Err(Error::InvalidAuth));
}

#[test]
fn negative_allocations_release_floored_installments() {
    let mut c = fresh_service();
    c.deposit(ASSOC_A, -5, 1).unwrap();
    let payments = c.withdraw(ADMIN).unwrap();
    // a twelfth of -5, rounded toward minus infinity
    assert_eq!(payments[0], Payment::Out { to: ASSOC_A, amount: -1 });
}

#[test]
fn reset_reopens_the_window_only_after_it_elapsed() {
    let mut c = fresh_service();
    c.deposit(ASSOC_A, 120, 1).unwrap();
    c.withdraw(ADMIN).unwrap();
    // the window is claimed and has not elapsed yet
    assert_eq!(c.reset_deadline(ADMIN, 500), Err(Error::ExpectedExtraValue));
    assert_eq!(c.reset_deadline(55, 500), Err(Error::InvalidAuth));
    // once the release deadline has passed, the reset goes through
    assert_eq!(c.reset_deadline(ADMIN, 1000), Ok(()));
    assert!(!c.associations()[0].get_has_withdrawn());
    let second = c.withdraw(ADMIN).unwrap();
    assert_eq!(second, vec![
        Payment::Out { to: ASSOC_A, amount: 10 },
        Payment::Out { to: ASSOC_B, amount: 0 },
    ]);
}

#[test]
fn vesting_pays_twelve_periods_then_nothing() {
    let mut c = fresh_service();
    c.deposit(ASSOC_A, 120, 1).unwrap();
    let far_future = 13 * MONTH_IN_SECONDS + 10_000;
    let mut paid_to_a: i128 = 0;
    let mut period: u32 = 0;
    while period < 12 {
        let payments = c.withdraw(ADMIN).unwrap();
        assert_eq!(payments[0], Payment::Out { to: ASSOC_A, amount: 10 });
        paid_to_a += 10;
        assert_eq!(c.reset_deadline(ADMIN, far_future), Ok(()));
        period += 1;
    }
    assert_eq!(paid_to_a, 120);
    // the thirteenth release pays nothing, reset or no reset
    let payments = c.withdraw(ADMIN).unwrap();
    assert!(payments.is_empty());
    assert_eq!(c.reset_deadline(ADMIN, far_future), Ok(()));
    let payments = c.withdraw(ADMIN).unwrap();
    assert!(payments.is_empty());
}
