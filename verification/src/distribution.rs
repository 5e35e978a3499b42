//! The vesting and distribution service: a separately seeded set of final
//! allocations released to beneficiaries in up to twelve monthly
//! installments, with an explicit reset that opens the next release
//! window.
//!
//! As with the collection service, the host authenticates callers, keeps
//! this state in its durable store, reads the clock and moves funds; every
//! operation here works on an explicit state value and returns the
//! transfers the host must perform.

use vstd::prelude::*;

use crate::records::{Principal, Payment, FinalAssociation, FinalAssociationView, final_views};

verus! {

/// The errors the vesting and distribution service surfaces to callers.
/// A double claim within one window is reported as `ExpectedExtraValue`,
/// this service's equivalent of an already-withdrawn error.
#[derive(Clone, Copy, Debug, PartialEq, Eq, Structural)]
pub enum Error {
    InvalidAuth,
    KeyExpected,
    ExpectedExtraValue,
    InvalidAmount,
    InvalidTimestamp,
    InvalidAssociation,
    AlreadyInitialized,
}

/// The named slots the host's durable store persists for this service.
#[derive(Clone, Copy, Debug, PartialEq, Eq, Structural)]
pub enum StorageConst {
    AdminAddress,
    FinalAssociations,
    Deadline,
    RecipientsClaimed,
    AssetAdress,
    ClaimMonth,
    TotalAmount,
    DeadlineWithdraw,
}

/// How many monthly releases a vesting schedule pays out.
pub const VESTING_PERIODS: u32 = 12;

/// One month, in seconds: how far a reset advances the release window.
pub const MONTH_IN_SECONDS: u64 = 2629743;

/// Mathematical image of the whole service state.
#[verifier::ext_equal]
pub struct DistributionView {
    pub initialized: bool,
    pub admin: Principal,
    pub token: Principal,
    pub deadline: u64,
    pub total: i128,
    pub claimed: bool,
    pub claim_month: u32,
    pub deadline_withdraw: u64,
    pub finals: Seq<FinalAssociationView>,
}

impl DistributionView {
    /// What every reachable state satisfies: the period counter never
    /// passes the number of vesting periods.
    pub open spec fn wf(self) -> bool {
        self.initialized ==> self.claim_month <= VESTING_PERIODS
    }
}

/// The vesting and distribution service, as an explicit state value.
pub struct DistributionContract {
    initialized: bool,
    admin: Principal,
    token: Principal,
    deadline: u64,
    total: i128,
    claimed: bool,
    claim_month: u32,
    deadline_withdraw: u64,
    finals: Vec<FinalAssociation>,
}

impl View for DistributionContract {
    type V = DistributionView;

    closed spec fn view(&self) -> DistributionView {
        DistributionView {
            initialized: self.initialized,
            admin: self.admin,
            token: self.token,
            deadline: self.deadline,
            total: self.total,
            claimed: self.claimed,
            claim_month: self.claim_month,
            deadline_withdraw: self.deadline_withdraw,
            finals: final_views(self.finals@),
        }
    }
}

/// One zeroed allocation record per registered name, in order.
pub open spec fn spec_seeded_finals(names: Seq<Principal>) -> Seq<FinalAssociationView> {
    names.map_values(
        |n: Principal| FinalAssociationView { name: n, contribution: 0, has_withdrawn: false },
    )
}

/// When `init` is rejected, and with which error.
pub open spec fn spec_init_err(
    s: DistributionView,
    names: Seq<Principal>,
    deadline: u64,
    now: u64,
) -> Option<Error> {
    if s.initialized {
        Some(Error::AlreadyInitialized)
    } else if deadline < now {
        Some(Error::InvalidTimestamp)
    } else if names.len() < 1 {
        Some(Error::InvalidAssociation)
    } else {
        None
    }
}

/// The state after `init`: untouched on rejection, otherwise a freshly
/// seeded allocation set, a zero period counter, and the release window
/// aligned with the deadline.
pub open spec fn spec_init_state(
    s: DistributionView,
    admin: Principal,
    token: Principal,
    names: Seq<Principal>,
    deadline: u64,
    now: u64,
) -> DistributionView {
    if spec_init_err(s, names, deadline, now) is Some {
        s
    } else {
        DistributionView {
            initialized: true,
            admin: admin,
            token: token,
            deadline: deadline,
            total: 0,
            claimed: false,
            claim_month: 0,
            deadline_withdraw: deadline,
            finals: spec_seeded_finals(names),
        }
    }
}

/// When `add_association` is rejected, and with which error.
pub open spec fn spec_add_association_err(
    s: DistributionView,
    caller: Principal,
    now: u64,
) -> Option<Error> {
    if caller != s.admin {
        Some(Error::InvalidAuth)
    } else if s.deadline < now {
        Some(Error::InvalidTimestamp)
    } else {
        None
    }
}

/// The state after `add_association`: one more zeroed record at the end.
pub open spec fn spec_add_association_state(
    s: DistributionView,
    caller: Principal,
    association: Principal,
    now: u64,
) -> DistributionView {
    if spec_add_association_err(s, caller, now) is Some {
        s
    } else {
        DistributionView {
            finals: s.finals.push(
                FinalAssociationView { name: association, contribution: 0, has_withdrawn: false },
            ),
            ..s
        }
    }
}

/// When `deposit` is rejected, and with which error: only strictly after
/// the deadline.
pub open spec fn spec_deposit_err(s: DistributionView, now: u64) -> Option<Error> {
    if s.deadline < now {
        Some(Error::InvalidTimestamp)
    } else {
        None
    }
}

/// Every record named `name` has `amount` added to its allocation.
pub open spec fn spec_add_contribution(
    finals: Seq<FinalAssociationView>,
    name: Principal,
    amount: i64,
) -> Seq<FinalAssociationView> {
    Seq::new(
        finals.len(),
        |i: int|
            if finals[i].name == name {
                FinalAssociationView {
                    contribution: (finals[i].contribution + amount) as i128,
                    ..finals[i]
                }
            } else {
                finals[i]
            },
    )
}

/// The state after `deposit`: untouched on rejection, otherwise the
/// amount is added to every matching allocation and to the total.
pub open spec fn spec_deposit_state(
    s: DistributionView,
    association: Principal,
    amount: i64,
    now: u64,
) -> DistributionView {
    if spec_deposit_err(s, now) is Some {
        s
    } else {
        DistributionView {
            total: (s.total + amount) as i128,
            finals: spec_add_contribution(s.finals, association, amount),
            ..s
        }
    }
}

/// When `withdraw` is rejected, and with which error.
pub open spec fn spec_withdraw_err(s: DistributionView, caller: Principal) -> Option<Error> {
    if caller != s.admin {
        Some(Error::InvalidAuth)
    } else if s.claimed {
        Some(Error::ExpectedExtraValue)
    } else {
        None
    }
}

/// The monthly installments: one outgoing transfer of a twelfth of the
/// allocation (rounded toward minus infinity) to every beneficiary not
/// yet paid this period, in record order.
pub open spec fn spec_vesting_payments(finals: Seq<FinalAssociationView>) -> Seq<Payment>
    decreases finals.len(),
{
    if finals.len() == 0 {
        Seq::empty()
    } else {
        let rest = spec_vesting_payments(finals.drop_last());
        let f = finals.last();
        if f.has_withdrawn {
            rest
        } else {
            rest.push(Payment::Out { to: f.name, amount: (f.contribution / 12) as i128 })
        }
    }
}

/// What `withdraw` pays: the monthly installments while periods remain,
/// nothing once the counter has reached its last period.
pub open spec fn spec_withdraw_payments(s: DistributionView) -> Seq<Payment> {
    if s.claim_month >= VESTING_PERIODS {
        Seq::empty()
    } else {
        spec_vesting_payments(s.finals)
    }
}

/// The state after `withdraw`: the claimed flag is set; while periods
/// remain, every beneficiary is marked paid and the counter advances; at
/// the last period the counter saturates and the records stay as they are.
pub open spec fn spec_withdraw_state(s: DistributionView, caller: Principal) -> DistributionView {
    if spec_withdraw_err(s, caller) is Some {
        s
    } else if s.claim_month >= VESTING_PERIODS {
        DistributionView { claimed: true, ..s }
    } else {
        DistributionView {
            claimed: true,
            claim_month: (s.claim_month + 1) as u32,
            finals: Seq::new(
                s.finals.len(),
                |i: int| FinalAssociationView { has_withdrawn: true, ..s.finals[i] },
            ),
            ..s
        }
    }
}

/// When `reset_deadline` is rejected, and with which error: a claimed
/// window may not be reset before it has elapsed.
pub open spec fn spec_reset_err(s: DistributionView, caller: Principal, now: u64) -> Option<
    Error,
> {
    if caller != s.admin {
        Some(Error::InvalidAuth)
    } else if s.claimed && s.deadline_withdraw > now {
        Some(Error::ExpectedExtraValue)
    } else {
        None
    }
}

/// The state after `reset_deadline`: every paid mark clears, the release
/// window advances by one month, and the claimed flag clears.  The period
/// counter stays where it is: after the last period the schedule remains
/// exhausted even though new windows keep opening.
pub open spec fn spec_reset_state(
    s: DistributionView,
    caller: Principal,
    now: u64,
) -> DistributionView {
    if spec_reset_err(s, caller, now) is Some {
        s
    } else {
        DistributionView {
            claimed: false,
            deadline_withdraw: (s.deadline_withdraw + MONTH_IN_SECONDS) as u64,
            finals: Seq::new(
                s.finals.len(),
                |i: int| FinalAssociationView { has_withdrawn: false, ..s.finals[i] },
            ),
            ..s
        }
    }
}

/// Floor division of an allocation by the twelve vesting periods.
fn div_floor_by_periods(a: i128) -> (q: i128)
    ensures
        q == a / 12,
{
    let q = a / 12;
    let r = a % 12;
    if r < 0 {
        q - 1
    } else {
        q
    }
}

/// Build one zeroed allocation record per name, in order.
fn init_associations(names: &Vec<Principal>) -> (r: Vec<FinalAssociation>)
    ensures
        final_views(r@) == spec_seeded_finals(names@),
{
    let mut associations_vec: Vec<FinalAssociation> = Vec::new();
    let mut i: usize = 0;
    while i < names.len()
        invariant
            i <= names@.len(),
            final_views(associations_vec@) == spec_seeded_finals(names@.take(i as int)),
        decreases names@.len() - i,
    {
        add_new_association(&mut associations_vec, names[i]);
        proof {
            assert(names@.take(i + 1) =~= names@.take(i as int).push(names@[i as int]));
            assert(final_views(associations_vec@) =~= spec_seeded_finals(names@.take(i + 1)));
        }
        i += 1;
    }
    proof {
        assert(names@.take(names@.len() as int) =~= names@);
    }
    associations_vec
}

/// Append a fresh, zeroed allocation record for `name`.
fn add_new_association(associations: &mut Vec<FinalAssociation>, name: Principal)
    ensures
        final_views(final(associations)@) == final_views(old(associations)@).push(
            FinalAssociationView { name: name, contribution: 0, has_withdrawn: false },
        ),
{
    let new_assoc = FinalAssociation { name: name, contribution: 0, has_withdrawn: false };
    associations.push(new_assoc);
    proof {
        assert(final_views(associations@) =~= final_views(old(associations)@).push(
            FinalAssociationView { name: name, contribution: 0, has_withdrawn: false },
        ));
    }
}

impl DistributionContract {
    /// A service that has not been initialized yet.
    pub fn new() -> (s: Self)
        ensures
            s@ == (DistributionView {
                initialized: false,
                admin: 0,
                token: 0,
                deadline: 0,
                total: 0,
                claimed: false,
                claim_month: 0,
                deadline_withdraw: 0,
                finals: Seq::<FinalAssociationView>::empty(),
            }),
            s@.wf(),
    {
        let s = DistributionContract {
            initialized: false,
            admin: 0,
            token: 0,
            deadline: 0,
            total: 0,
            claimed: false,
            claim_month: 0,
            deadline_withdraw: 0,
            finals: Vec::new(),
        };
        proof {
            assert(final_views(s.finals@) =~= Seq::<FinalAssociationView>::empty());
        }
        s
    }

    /// Rebuild an initialized service from the values the host's durable
    /// store holds; a period counter past the schedule is refused.
    pub fn restore(
        admin: Principal,
        token_address: Principal,
        deadline: u64,
        total: i128,
        claimed: bool,
        claim_month: u32,
        deadline_withdraw: u64,
        finals: Vec<FinalAssociation>,
    ) -> (r: Option<Self>)
        ensures
            (match r {
                Some(s) => s@ == (DistributionView {
                    initialized: true,
                    admin: admin,
                    token: token_address,
                    deadline: deadline,
                    total: total,
                    claimed: claimed,
                    claim_month: claim_month,
                    deadline_withdraw: deadline_withdraw,
                    finals: final_views(finals@),
                }) && s@.wf(),
                None => claim_month > VESTING_PERIODS,
            }),
    {
        if claim_month > VESTING_PERIODS {
            return None;
        }
        Some(
            DistributionContract {
                initialized: true,
                admin: admin,
                token: token_address,
                deadline: deadline,
                total: total,
                claimed: claimed,
                claim_month: claim_month,
                deadline_withdraw: deadline_withdraw,
                finals: finals,
            },
        )
    }

    /// Initialize the service exactly once: record the admin, the asset,
    /// the beneficiaries and the deadline, align the release window with
    /// it, and start the period counter at zero.  The host has already
    /// authenticated `admin`.
    pub fn init(
        &mut self,
        admin: Principal,
        token_address: Principal,
        associations: &Vec<Principal>,
        deadline: u64,
        now: u64,
    ) -> (r: Result<(), Error>)
        ensures
            final(self)@ == spec_init_state(
                old(self)@,
                admin,
                token_address,
                associations@,
                deadline,
                now,
            ),
            (match r {
                Ok(()) => spec_init_err(old(self)@, associations@, deadline, now) is None,
                Err(e) => spec_init_err(old(self)@, associations@, deadline, now) == Some(e),
            }),
            old(self)@.wf() ==> final(self)@.wf(),
    {
        if self.initialized {
            return Err(Error::AlreadyInitialized);
        }
        if deadline < now {
            return Err(Error::InvalidTimestamp);
        }
        if associations.len() < 1 {
            return Err(Error::InvalidAssociation);
        }
        let associations_vec = init_associations(associations);
        self.initialized = true;
        self.admin = admin;
        self.token = token_address;
        self.deadline = deadline;
        self.total = 0;
        self.claimed = false;
        self.claim_month = 0;
        self.deadline_withdraw = deadline;
        self.finals = associations_vec;
        proof {
            assert(self@ =~= spec_init_state(
                old(self)@,
                admin,
                token_address,
                associations@,
                deadline,
                now,
            ));
        }
        Ok(())
    }

    /// Register one more beneficiary while the deadline has not passed.
    /// The host has already authenticated `admin_caller`.
    pub fn add_association(
        &mut self,
        association: Principal,
        admin_caller: Principal,
        now: u64,
    ) -> (r: Result<(), Error>)
        requires
            old(self)@.initialized,
        ensures
            final(self)@ == spec_add_association_state(old(self)@, admin_caller, association, now),
            (match r {
                Ok(()) => spec_add_association_err(old(self)@, admin_caller, now) is None,
                Err(e) => spec_add_association_err(old(self)@, admin_caller, now) == Some(e),
            }),
            old(self)@.wf() ==> final(self)@.wf(),
    {
        if admin_caller != self.admin {
            return Err(Error::InvalidAuth);
        }
        if self.deadline < now {
            return Err(Error::InvalidTimestamp);
        }
        add_new_association(&mut self.finals, association);
        proof {
            assert(self@ =~= spec_add_association_state(
                old(self)@,
                admin_caller,
                association,
                now,
            ));
        }
        Ok(())
    }

    /// Seed `amount` into every allocation record named `association` and
    /// into the running total.  No transfer is ordered: this service
    /// distributes a pool funded out of band.
    pub fn deposit(&mut self, association: Principal, amount: i64, now: u64) -> (r: Result<
        (),
        Error,
    >)
        requires
            old(self)@.initialized,
            i128::MIN <= old(self)@.total + amount <= i128::MAX,
            forall|i: int|
                0 <= i < old(self)@.finals.len() && old(self)@.finals[i].name == association
                    ==> i128::MIN <= #[trigger] old(self)@.finals[i].contribution + amount
                    <= i128::MAX,
        ensures
            final(self)@ == spec_deposit_state(old(self)@, association, amount, now),
            (match r {
                Ok(()) => spec_deposit_err(old(self)@, now) is None,
                Err(e) => spec_deposit_err(old(self)@, now) == Some(e),
            }),
            old(self)@.wf() ==> final(self)@.wf(),
    {
        if self.deadline < now {
            return Err(Error::InvalidTimestamp);
        }
        let ghost orig = self@.finals;
        let mut i: usize = 0;
        while i < self.finals.len()
            invariant
                orig == old(self)@.finals,
                forall|k: int|
                    0 <= k < orig.len() && orig[k].name == association ==> i128::MIN
                        <= #[trigger] orig[k].contribution + amount <= i128::MAX,
                i <= orig.len(),
                self.finals@.len() == orig.len(),
                self@.initialized == old(self)@.initialized,
                self@.admin == old(self)@.admin,
                self@.token == old(self)@.token,
                self@.deadline == old(self)@.deadline,
                self@.total == old(self)@.total,
                self@.claimed == old(self)@.claimed,
                self@.claim_month == old(self)@.claim_month,
                self@.deadline_withdraw == old(self)@.deadline_withdraw,
                forall|k: int|
                    0 <= k < orig.len() ==> final_views(self.finals@)[k]
                        == spec_add_contribution(orig, association, amount)[k]
                        || (i <= k && final_views(self.finals@)[k] == orig[k]),
                forall|k: int|
                    i <= k < orig.len() ==> final_views(self.finals@)[k] == orig[k],
            decreases orig.len() - i,
        {
            proof {
                assert(final_views(self.finals@)[i as int] == orig[i as int]);
            }
            let ghost prev = self.finals@;
            if self.finals[i].get_name() == association {
                let amount_assoc = self.finals[i].get_contribution();
                let new_amount = amount_assoc + amount as i128;
                self.finals[i].set_contribution(new_amount);
            }
            proof {
                assert forall|k: int| 0 <= k < orig.len() implies (final_views(self.finals@)[k]
                    == spec_add_contribution(orig, association, amount)[k] || (i + 1 <= k
                    && final_views(self.finals@)[k] == orig[k])) by {
                    if k != i {
                        assert(self.finals@[k] == prev[k]);
                        assert(final_views(prev)[k] == prev[k]@);
                    }
                }
                assert forall|k: int| i + 1 <= k < orig.len() implies final_views(
                    self.finals@,
                )[k] == orig[k] by {
                    assert(self.finals@[k] == prev[k]);
                    assert(final_views(prev)[k] == prev[k]@);
                }
            }
            i += 1;
        }
        self.total = self.total + amount as i128;
        proof {
            assert(final_views(self.finals@) =~= spec_add_contribution(orig, association, amount));
            assert(self@ =~= spec_deposit_state(old(self)@, association, amount, now));
        }
        Ok(())
    }

    /// Release this month's installment: pay a twelfth of its allocation
    /// to every beneficiary not yet paid in this window and mark it paid,
    /// advance the period counter, and close the window.  Once the counter
    /// has spent all periods the call still succeeds but pays nothing.
    /// The host has already authenticated `admin_caller`.
    pub fn withdraw(&mut self, admin_caller: Principal) -> (r: Result<Vec<Payment>, Error>)
        requires
            old(self)@.initialized,
            old(self)@.wf(),
        ensures
            final(self)@ == spec_withdraw_state(old(self)@, admin_caller),
            final(self)@.wf(),
            (match r {
                Ok(payments) => spec_withdraw_err(old(self)@, admin_caller) is None && payments@
                    == spec_withdraw_payments(old(self)@),
                Err(e) => spec_withdraw_err(old(self)@, admin_caller) == Some(e),
            }),
    {
        if admin_caller != self.admin {
            return Err(Error::InvalidAuth);
        }
        if self.claimed {
            return Err(Error::ExpectedExtraValue);
        }
        if self.claim_month >= VESTING_PERIODS {
            self.claimed = true;
            proof {
                assert(self@ =~= spec_withdraw_state(old(self)@, admin_caller));
            }
            return Ok(Vec::new());
        }
        let ghost orig = self@.finals;
        let mut payments: Vec<Payment> = Vec::new();
        let mut i: usize = 0;
        while i < self.finals.len()
            invariant
                orig == old(self)@.finals,
                i <= orig.len(),
                self.finals@.len() == orig.len(),
                self@.initialized == old(self)@.initialized,
                self@.admin == old(self)@.admin,
                self@.token == old(self)@.token,
                self@.deadline == old(self)@.deadline,
                self@.total == old(self)@.total,
                self@.claimed == old(self)@.claimed,
                self@.claim_month == old(self)@.claim_month,
                self@.deadline_withdraw == old(self)@.deadline_withdraw,
                forall|k: int|
                    0 <= k < i ==> final_views(self.finals@)[k] == (FinalAssociationView {
                        has_withdrawn: true,
                        ..orig[k]
                    }),
                forall|k: int|
                    i <= k < orig.len() ==> final_views(self.finals@)[k] == orig[k],
                payments@ == spec_vesting_payments(orig.take(i as int)),
            decreases orig.len() - i,
        {
            proof {
                assert(final_views(self.finals@)[i as int] == orig[i as int]);
                assert(orig.take(i + 1).drop_last() =~= orig.take(i as int));
                assert(orig.take(i + 1).last() == orig[i as int]);
            }
            let ghost prev = self.finals@;
            if !self.finals[i].get_has_withdrawn() {
                let total_amount = div_floor_by_periods(self.finals[i].get_contribution());
                payments.push(Payment::Out { to: self.finals[i].get_name(), amount: total_amount });
                self.finals[i].set_has_withdrawn(true);
            }
            proof {
                assert forall|k: int| 0 <= k < i + 1 implies final_views(self.finals@)[k]
                    == (FinalAssociationView { has_withdrawn: true, ..orig[k] }) by {
                    if k < i {
                        assert(self.finals@[k] == prev[k]);
                        assert(final_views(prev)[k] == prev[k]@);
                    } else if orig[k].has_withdrawn {
                        assert(self.finals@[k] == prev[k]);
                        assert(final_views(prev)[k] == prev[k]@);
                    }
                }
                assert forall|k: int| i + 1 <= k < orig.len() implies final_views(
                    self.finals@,
                )[k] == orig[k] by {
                    assert(self.finals@[k] == prev[k]);
                    assert(final_views(prev)[k] == prev[k]@);
                }
                assert(payments@ == spec_vesting_payments(orig.take(i + 1)));
            }
            i += 1;
        }
        self.claimed = true;
        self.claim_month = self.claim_month + 1;
        proof {
            assert(orig.take(orig.len() as int) =~= orig);
            assert(self@ =~= spec_withdraw_state(old(self)@, admin_caller));
        }
        Ok(payments)
    }

    /// Open the next release window: clear every paid mark, push the
    /// window one month further, and clear the claimed flag.  A claimed
    /// window that has not elapsed yet cannot be reset.  The host has
    /// already authenticated `admin_caller`.
    pub fn reset_deadline(&mut self, admin_caller: Principal, now: u64) -> (r: Result<(), Error>)
        requires
            old(self)@.initialized,
            old(self)@.deadline_withdraw + MONTH_IN_SECONDS <= u64::MAX,
        ensures
            final(self)@ == spec_reset_state(old(self)@, admin_caller, now),
            (match r {
                Ok(()) => spec_reset_err(old(self)@, admin_caller, now) is None,
                Err(e) => spec_reset_err(old(self)@, admin_caller, now) == Some(e),
            }),
            old(self)@.wf() ==> final(self)@.wf(),
    {
        if admin_caller != self.admin {
            return Err(Error::InvalidAuth);
        }
        if self.claimed && self.deadline_withdraw > now {
            return Err(Error::ExpectedExtraValue);
        }
        let ghost orig = self@.finals;
        let mut i: usize = 0;
        while i < self.finals.len()
            invariant
                orig == old(self)@.finals,
                i <= orig.len(),
                self.finals@.len() == orig.len(),
                self@.initialized == old(self)@.initialized,
                self@.admin == old(self)@.admin,
                self@.token == old(self)@.token,
                self@.deadline == old(self)@.deadline,
                self@.total == old(self)@.total,
                self@.claimed == old(self)@.claimed,
                self@.claim_month == old(self)@.claim_month,
                self@.deadline_withdraw == old(self)@.deadline_withdraw,
                forall|k: int|
                    0 <= k < i ==> final_views(self.finals@)[k] == (FinalAssociationView {
                        has_withdrawn: false,
                        ..orig[k]
                    }),
                forall|k: int|
                    i <= k < orig.len() ==> final_views(self.finals@)[k] == orig[k],
            decreases orig.len() - i,
        {
            proof {
                assert(final_views(self.finals@)[i as int] == orig[i as int]);
            }
            let ghost prev = self.finals@;
            if self.finals[i].get_has_withdrawn() {
                self.finals[i].set_has_withdrawn(false);
            }
            proof {
                assert forall|k: int| 0 <= k < i + 1 implies final_views(self.finals@)[k]
                    == (FinalAssociationView { has_withdrawn: false, ..orig[k] }) by {
                    if k < i {
                        assert(self.finals@[k] == prev[k]);
                        assert(final_views(prev)[k] == prev[k]@);
                    } else if !orig[k].has_withdrawn {
                        assert(self.finals@[k] == prev[k]);
                        assert(final_views(prev)[k] == prev[k]@);
                    }
                }
                assert forall|k: int| i + 1 <= k < orig.len() implies final_views(
                    self.finals@,
                )[k] == orig[k] by {
                    assert(self.finals@[k] == prev[k]);
                    assert(final_views(prev)[k] == prev[k]@);
                }
            }
            i += 1;
        }
        self.deadline_withdraw = self.deadline_withdraw + MONTH_IN_SECONDS;
        self.claimed = false;
        proof {
            assert(self@ =~= spec_reset_state(old(self)@, admin_caller, now));
        }
        Ok(())
    }

    /// All allocation records.
    pub fn associations(&self) -> (r: &Vec<FinalAssociation>)
        requires
            self@.initialized,
        ensures
            final_views(r@) == self@.finals,
    {
        &self.finals
    }

    /// The admin principal configured at initialization.
    pub fn get_admin_address(&self) -> (r: Principal)
        requires
            self@.initialized,
        ensures
            r == self@.admin,
    {
        self.admin
    }

    /// The asset this service's funds are denominated in.
    pub fn get_token_address(&self) -> (r: Principal)
        requires
            self@.initialized,
        ensures
            r == self@.token,
    {
        self.token
    }

    /// Whether this release window has been claimed already.
    pub fn get_recipients_claimed(&self) -> (r: bool)
        requires
            self@.initialized,
        ensures
            r == self@.claimed,
    {
        self.claimed
    }

    /// How many monthly releases have been paid so far.
    pub fn get_claim_month(&self) -> (r: u32)
        requires
            self@.initialized,
        ensures
            r == self@.claim_month,
    {
        self.claim_month
    }

    /// When the current release window elapses.
    pub fn get_deadline_withdraw(&self) -> (r: u64)
        requires
            self@.initialized,
        ensures
            r == self@.deadline_withdraw,
    {
        self.deadline_withdraw
    }

    /// The running total of seeded allocations.
    pub fn total(&self) -> (r: i128)
        requires
            self@.initialized,
        ensures
            r == self@.total,
    {
        self.total
    }

    /// The registration deadline.
    pub fn deadline(&self) -> (r: u64)
        requires
            self@.initialized,
        ensures
            r == self@.deadline,
    {
        self.deadline
    }
}

/// After a successful vesting withdrawal, an immediate second attempt
/// fails — with `ExpectedExtraValue` for the admin — and changes nothing:
/// within one window no beneficiary is ever paid twice.
pub proof fn lemma_vesting_withdraw_exactly_once(
    s: DistributionView,
    caller: Principal,
    caller2: Principal,
)
    requires
        spec_withdraw_err(s, caller) is None,
    ensures
        spec_withdraw_err(spec_withdraw_state(s, caller), caller2) is Some,
        caller2 == s.admin ==> spec_withdraw_err(spec_withdraw_state(s, caller), caller2) == Some(
            Error::ExpectedExtraValue,
        ),
        spec_withdraw_state(spec_withdraw_state(s, caller), caller2) == spec_withdraw_state(
            s,
            caller,
        ),
{
}

/// Once the period counter has spent all periods, a withdrawal pays
/// nothing and leaves the records and the counter untouched, however many
/// resets came in between.
pub proof fn lemma_vesting_exhausted(s: DistributionView, caller: Principal)
    requires
        spec_withdraw_err(s, caller) is None,
        s.claim_month >= VESTING_PERIODS,
    ensures
        spec_withdraw_payments(s) == Seq::<Payment>::empty(),
        spec_withdraw_state(s, caller).finals == s.finals,
        spec_withdraw_state(s, caller).claim_month == s.claim_month,
{
}

/// A reset never touches the period counter: it reopens the window but
/// cannot revive an exhausted schedule.
pub proof fn lemma_reset_keeps_counter(s: DistributionView, caller: Principal, now: u64)
    ensures
        spec_reset_state(s, caller, now).claim_month == s.claim_month,
{
}

/// A deposit after the deadline is rejected with `InvalidTimestamp` and
/// leaves the records untouched.
pub proof fn lemma_late_deposit_rejected(
    s: DistributionView,
    association: Principal,
    amount: i64,
    now: u64,
)
    requires
        now > s.deadline,
    ensures
        spec_deposit_err(s, now) == Some(Error::InvalidTimestamp),
        spec_deposit_state(s, association, amount, now) == s,
{
}

/// Initializing an already-initialized service fails with
/// `AlreadyInitialized` and leaves the prior state untouched.
pub proof fn lemma_reinit_rejected(
    s: DistributionView,
    admin: Principal,
    token: Principal,
    names: Seq<Principal>,
    deadline: u64,
    now: u64,
)
    requires
        s.initialized,
    ensures
        spec_init_err(s, names, deadline, now) == Some(Error::AlreadyInitialized),
        spec_init_state(s, admin, token, names, deadline, now) == s,
{
}

} // verus!
