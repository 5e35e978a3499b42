//! The collection and allocation service: an append-only contribution
//! ledger open until a deadline, the quadratic-funding calculation that
//! turns raw contributions into allocations, a one-shot lump-sum payout,
//! and an explicit round-reset.
//!
//! The host keeps this state in its durable store, authenticates callers,
//! reads the clock and moves funds.  Here every operation works on an
//! explicit state value, takes the authenticated caller and the current
//! time as arguments, and returns the transfers the host must perform;
//! a host that fails a transfer discards the state change with it.

use vstd::prelude::*;

use crate::records::{
    Principal, Payment, Association, AssociationView, FinalAssociation, FinalAssociationView,
    association_views, final_views,
};
use crate::math::{
    sum_sqrt, powi, powi_fits, fits_i128, integer_sqrt, sqrt_sum_checked, lemma_sum_sqrt_nonneg,
    lemma_powi_fits_square_bounds, lemma_square_bounds_powi_fits, lemma_above_sqrt_floor,
    lemma_below_sqrt_floor, lemma_sqrt_floor_nonneg, lemma_pow_two,
};

verus! {

/// The errors the collection and allocation service surfaces to callers.
#[derive(Clone, Copy, Debug, PartialEq, Eq, Structural)]
pub enum Error {
    InvalidAuth,
    KeyExpected,
    ExpectedExtraValue,
    InvalidAmount,
    AlreadyWithdrawn,
    InvalidAssociation,
    InvalidTimestamp,
    AlreadyInitialized,
}

/// The named slots the host's durable store persists for this service.
#[derive(Clone, Copy, Debug, PartialEq, Eq, Structural)]
pub enum StorageConst {
    AdminAddress,
    Associations,
    FinalAssociations,
    Deadline,
    RecipientsClaimed,
    AssetAdress,
    State,
    TotalAmount,
    ContractCallAddress,
}

/// The deposit window: still open, or closed by the deadline.
#[derive(Clone, Copy, Debug, PartialEq, Eq, Structural)]
pub enum State {
    Running,
    Ended,
}

/// Mathematical image of the whole service state.
#[verifier::ext_equal]
pub struct VotingView {
    pub initialized: bool,
    pub admin: Principal,
    pub token: Principal,
    pub deadline: u64,
    pub total: i128,
    pub claimed: bool,
    pub contract_call: Principal,
    pub associations: Seq<AssociationView>,
    pub finals: Seq<FinalAssociationView>,
}

impl VotingView {
    /// What every reachable state satisfies: the pool is never negative,
    /// recorded contributions are strictly positive (deposits of other
    /// amounts are rejected), and computed allocations are never negative.
    pub open spec fn wf(self) -> bool {
        &&& !self.initialized ==> self.finals.len() == 0
        &&& self.initialized ==> {
            &&& 0 <= self.total
            &&& forall|i: int, j: int|
                0 <= i < self.associations.len() && 0 <= j < self.associations[i].contributions.len()
                    ==> #[trigger] self.associations[i].contributions[j] > 0
            &&& forall|i: int|
                0 <= i < self.finals.len() ==> #[trigger] self.finals[i].contribution >= 0
        }
    }
}

/// The collection and allocation service, as an explicit state value.
pub struct VotingContract {
    initialized: bool,
    admin: Principal,
    token: Principal,
    deadline: u64,
    total: i128,
    claimed: bool,
    contract_call: Principal,
    associations: Vec<Association>,
    finals: Vec<FinalAssociation>,
}

impl View for VotingContract {
    type V = VotingView;

    closed spec fn view(&self) -> VotingView {
        VotingView {
            initialized: self.initialized,
            admin: self.admin,
            token: self.token,
            deadline: self.deadline,
            total: self.total,
            claimed: self.claimed,
            contract_call: self.contract_call,
            associations: association_views(self.associations@),
            finals: final_views(self.finals@),
        }
    }
}

/// One empty ledger record per registered name, in registration order.
pub open spec fn spec_empty_associations(names: Seq<Principal>) -> Seq<AssociationView> {
    names.map_values(|n: Principal| AssociationView { name: n, contributions: Seq::empty() })
}

/// When `init` is rejected, and with which error.
pub open spec fn spec_init_err(
    s: VotingView,
    names: Seq<Principal>,
    deadline: u64,
    now: u64,
) -> Option<Error> {
    if s.initialized {
        Some(Error::AlreadyInitialized)
    } else if deadline < now {
        Some(Error::InvalidTimestamp)
    } else if names.len() < 1 {
        Some(Error::InvalidAssociation)
    } else {
        None
    }
}

/// The state after `init`: untouched on rejection, otherwise a fresh ledger.
pub open spec fn spec_init_state(
    s: VotingView,
    admin: Principal,
    token: Principal,
    names: Seq<Principal>,
    deadline: u64,
    contract_call: Principal,
    now: u64,
) -> VotingView {
    if spec_init_err(s, names, deadline, now) is Some {
        s
    } else {
        VotingView {
            initialized: true,
            admin: admin,
            token: token,
            deadline: deadline,
            total: 0,
            claimed: false,
            contract_call: contract_call,
            associations: spec_empty_associations(names),
            finals: s.finals,
        }
    }
}

/// When `deposit` is rejected, and with which error: the window must be
/// open (strictly before the deadline) and the amount strictly positive.
pub open spec fn spec_deposit_err(s: VotingView, amount: i64, now: u64) -> Option<Error> {
    if now >= s.deadline {
        Some(Error::InvalidTimestamp)
    } else if amount <= 0 {
        Some(Error::InvalidAmount)
    } else {
        None
    }
}

/// Every record named `name` gets `amount` appended; the rest stay as they are.
pub open spec fn spec_push_contribution(
    s: Seq<AssociationView>,
    name: Principal,
    amount: i64,
) -> Seq<AssociationView> {
    Seq::new(
        s.len(),
        |i: int|
            if s[i].name == name {
                AssociationView { name: s[i].name, contributions: s[i].contributions.push(amount) }
            } else {
                s[i]
            },
    )
}

/// Like `spec_push_contribution`, but only the first `k` records are
/// affected yet: the picture halfway through the deposit loop.
pub open spec fn spec_push_contribution_upto(
    s: Seq<AssociationView>,
    name: Principal,
    amount: i64,
    k: int,
) -> Seq<AssociationView> {
    Seq::new(
        s.len(),
        |i: int|
            if i < k && s[i].name == name {
                AssociationView { name: s[i].name, contributions: s[i].contributions.push(amount) }
            } else {
                s[i]
            },
    )
}

/// One incoming transfer from the contributor per record named `name`
/// (duplicate registrations are each credited and each paid for).
pub open spec fn spec_deposit_payments(
    s: Seq<AssociationView>,
    name: Principal,
    sender: Principal,
    amount: i64,
) -> Seq<Payment>
    decreases s.len(),
{
    if s.len() == 0 {
        Seq::empty()
    } else {
        let rest = spec_deposit_payments(s.drop_last(), name, sender, amount);
        if s.last().name == name {
            rest.push(Payment::In { from: sender, amount: amount as i128 })
        } else {
            rest
        }
    }
}

/// The state after `deposit`: untouched on rejection, otherwise the amount
/// is appended to every matching record and added to the pool total.
pub open spec fn spec_deposit_state(
    s: VotingView,
    association: Principal,
    amount: i64,
    now: u64,
) -> VotingView {
    if spec_deposit_err(s, amount, now) is Some {
        s
    } else {
        VotingView {
            total: (s.total + amount) as i128,
            associations: spec_push_contribution(s.associations, association, amount),
            ..s
        }
    }
}

/// When the lump-sum `withdraw` is rejected, and with which error.
pub open spec fn spec_withdraw_err(s: VotingView, caller: Principal) -> Option<Error> {
    if caller != s.admin {
        Some(Error::InvalidAuth)
    } else if s.claimed {
        Some(Error::AlreadyWithdrawn)
    } else {
        None
    }
}

/// The state after the lump-sum `withdraw`: the claimed flag is set.
pub open spec fn spec_withdraw_state(s: VotingView, caller: Principal) -> VotingView {
    if spec_withdraw_err(s, caller) is Some {
        s
    } else {
        VotingView { claimed: true, ..s }
    }
}

/// When `end_funding` is rejected, and with which error.
pub open spec fn spec_end_funding_err(s: VotingView, caller: Principal) -> Option<Error> {
    if caller != s.admin {
        Some(Error::InvalidAuth)
    } else if s.total < 0 {
        Some(Error::InvalidAmount)
    } else {
        None
    }
}

/// The state after `end_funding`: if a calculation has produced a
/// non-empty allocation set, the deadline moves to `now` and the claimed
/// flag clears, opening a new round; otherwise nothing changes.
pub open spec fn spec_end_funding_state(s: VotingView, caller: Principal, now: u64) -> VotingView {
    if spec_end_funding_err(s, caller) is Some {
        s
    } else if s.finals.len() > 0 {
        VotingView { deadline: now, claimed: false, ..s }
    } else {
        s
    }
}

/// When `add_association` is rejected, and with which error.
pub open spec fn spec_add_association_err(s: VotingView, caller: Principal, now: u64) -> Option<
    Error,
> {
    if caller != s.admin {
        Some(Error::InvalidAuth)
    } else if s.deadline < now {
        Some(Error::InvalidTimestamp)
    } else {
        None
    }
}

/// The state after `add_association`: one more empty record at the end.
pub open spec fn spec_add_association_state(
    s: VotingView,
    caller: Principal,
    association: Principal,
    now: u64,
) -> VotingView {
    if spec_add_association_err(s, caller, now) is Some {
        s
    } else {
        VotingView {
            associations: s.associations.push(
                AssociationView { name: association, contributions: Seq::empty() },
            ),
            ..s
        }
    }
}

/// The deposit window is `Running` strictly before the deadline.
pub open spec fn spec_state(s: VotingView, now: u64) -> State {
    if now < s.deadline {
        State::Running
    } else {
        State::Ended
    }
}

/// The contribution sequence of the last record named `name`, or empty.
pub open spec fn spec_amount_of(s: Seq<AssociationView>, name: Principal) -> Seq<i64>
    decreases s.len(),
{
    if s.len() == 0 {
        Seq::empty()
    } else if s.last().name == name {
        s.last().contributions
    } else {
        spec_amount_of(s.drop_last(), name)
    }
}

/// The quadratic-funding weight of one beneficiary: the square of the sum
/// of the integer square roots of its raw contributions.
pub open spec fn spec_weight(c: Seq<i64>) -> int {
    sum_sqrt(c) * sum_sqrt(c)
}

/// The sum of all beneficiaries' weights.
pub open spec fn spec_total_weight(s: Seq<AssociationView>) -> int
    decreases s.len(),
{
    if s.len() == 0 {
        0
    } else {
        spec_total_weight(s.drop_last()) + spec_weight(s.last().contributions)
    }
}

/// One beneficiary's allocation: its weight divided by the total weight
/// (integer division, truncating), then scaled by the pool.  The division
/// happens before the multiplication, exactly as the calculation performs
/// it, so the quotient is 0 unless the weight is a multiple of the total.
pub open spec fn spec_allocation(c: Seq<i64>, total_weight: int, pool: i128) -> int {
    (spec_weight(c) / total_weight) * pool
}

/// The full post-calculation record set for a ledger snapshot.
pub open spec fn spec_final_allocations(s: Seq<AssociationView>, pool: i128) -> Seq<
    FinalAssociationView,
> {
    Seq::new(
        s.len(),
        |i: int|
            FinalAssociationView {
                name: s[i].name,
                contribution: spec_allocation(s[i].contributions, spec_total_weight(s), pool)
                    as i128,
                has_withdrawn: false,
            },
    )
}

/// The ledgers whose calculation stays within `i128`: every root sum can
/// run through the squaring loop, and the summed weights fit.
pub open spec fn spec_calc_fits(s: Seq<AssociationView>) -> bool {
    &&& forall|i: int|
        0 <= i < s.len() ==> powi_fits(sum_sqrt(#[trigger] s[i].contributions), 2)
    &&& spec_total_weight(s) <= i128::MAX
}

/// When `calculate_funding` is rejected, and with which error: only the
/// admin may calculate, a ledger whose arithmetic would overflow is
/// refused, and so is a degenerate ledger with total weight zero (the
/// allocation would divide by it).
pub open spec fn spec_calculate_err(s: VotingView, caller: Principal) -> Option<Error> {
    if caller != s.admin {
        Some(Error::InvalidAuth)
    } else if !spec_calc_fits(s.associations) || spec_total_weight(s.associations) == 0 {
        Some(Error::InvalidAmount)
    } else {
        None
    }
}

/// The state after `calculate_funding`: the post-calculation set is
/// replaced entirely; ledger and total stay as they were.
pub open spec fn spec_calculate_state(s: VotingView, caller: Principal) -> VotingView {
    if spec_calculate_err(s, caller) is Some {
        s
    } else {
        VotingView { finals: spec_final_allocations(s.associations, s.total), ..s }
    }
}

/// One incoming transfer from the matcher per beneficiary, each of the
/// beneficiary's current allocation.
pub open spec fn spec_duplicate_payments(
    finals: Seq<FinalAssociationView>,
    sender: Principal,
) -> Seq<Payment> {
    Seq::new(
        finals.len(),
        |i: int| Payment::In { from: sender, amount: finals[i].contribution },
    )
}

/// The state after `duplicate_quantities`: every allocation doubles, and
/// the pool total doubles with them.
pub open spec fn spec_duplicate_state(s: VotingView) -> VotingView {
    VotingView {
        total: (2 * s.total) as i128,
        finals: Seq::new(
            s.finals.len(),
            |i: int|
                FinalAssociationView {
                    contribution: (2 * s.finals[i].contribution) as i128,
                    ..s.finals[i]
                },
        ),
        ..s
    }
}

/// A weight is never negative.
pub proof fn lemma_weight_nonneg(c: Seq<i64>)
    ensures
        0 <= spec_weight(c),
{
    lemma_sum_sqrt_nonneg(c);
    vstd::arithmetic::mul::lemma_mul_nonnegative(sum_sqrt(c), sum_sqrt(c));
}

/// A total weight is never negative.
pub proof fn lemma_total_weight_nonneg(s: Seq<AssociationView>)
    ensures
        0 <= spec_total_weight(s),
    decreases s.len(),
{
    if s.len() > 0 {
        lemma_total_weight_nonneg(s.drop_last());
        lemma_weight_nonneg(s.last().contributions);
    }
}

/// Total weights grow along prefixes.
pub proof fn lemma_total_weight_take_le(s: Seq<AssociationView>, i: int)
    requires
        0 <= i <= s.len(),
    ensures
        spec_total_weight(s.take(i)) <= spec_total_weight(s),
    decreases s.len() - i,
{
    if i == s.len() {
        assert(s.take(i) =~= s);
    } else {
        lemma_total_weight_take_le(s, i + 1);
        assert(s.take(i + 1).drop_last() =~= s.take(i));
        lemma_weight_nonneg(s.take(i + 1).last().contributions);
    }
}

/// Each beneficiary's weight is one summand of the total, so it is at
/// most the total.
pub proof fn lemma_weight_le_total(s: Seq<AssociationView>, i: int)
    requires
        0 <= i < s.len(),
    ensures
        0 <= spec_weight(s[i].contributions),
        spec_weight(s[i].contributions) <= spec_total_weight(s),
{
    lemma_weight_nonneg(s[i].contributions);
    lemma_total_weight_nonneg(s.take(i));
    lemma_total_weight_take_le(s, i + 1);
    assert(s.take(i + 1).drop_last() =~= s.take(i));
    assert(s.take(i + 1).last() == s[i]);
    assert(spec_total_weight(s.take(i + 1)) == spec_total_weight(s.take(i)) + spec_weight(
        s[i].contributions,
    ));
}

/// With a positive total weight, a beneficiary's quotient is all or
/// nothing: 1 when its weight is the whole total, 0 otherwise; so its
/// allocation is the whole pool or nothing.
pub proof fn lemma_allocation_all_or_nothing(c: Seq<i64>, total_weight: int, pool: i128)
    requires
        0 < total_weight,
        0 <= spec_weight(c) <= total_weight,
    ensures
        spec_allocation(c, total_weight, pool) == if spec_weight(c) == total_weight {
            pool as int
        } else {
            0
        },
{
    let w = spec_weight(c);
    if w == total_weight {
        vstd::arithmetic::div_mod::lemma_div_by_self(total_weight);
        assert(1 * pool == pool as int) by (nonlinear_arith);
    } else {
        vstd::arithmetic::div_mod::lemma_basic_div(w, total_weight);
        assert(0 * pool == 0) by (nonlinear_arith);
    }
}

/// The allocation for one contribution sequence, given the summed weights
/// of all beneficiaries and the pool to split.
pub fn calculate_quadratic_funding_for_association(
    contributions: &Vec<i64>,
    total_square_sum: i128,
    total_funding: i128,
) -> (r: i128)
    requires
        forall|j: int| 0 <= j < contributions@.len() ==> #[trigger] contributions@[j] >= 0,
        powi_fits(sum_sqrt(contributions@), 2),
        0 < total_square_sum,
        fits_i128(spec_allocation(contributions@, total_square_sum as int, total_funding)),
    ensures
        r == spec_allocation(contributions@, total_square_sum as int, total_funding),
{
    proof {
        lemma_sum_sqrt_nonneg(contributions@);
        lemma_powi_fits_square_bounds(sum_sqrt(contributions@));
        lemma_weight_nonneg(contributions@);
    }
    let sqrt_sum_for_association: i128 = match sqrt_sum_checked(contributions) {
        Some(s) => s,
        None => {
            proof {
                assert(false);
            }
            0
        },
    };
    let project_square_sum: i128 = powi(sqrt_sum_for_association, 2);
    proof {
        lemma_pow_two(sqrt_sum_for_association as int);
    }
    let fraction_of_total: i128 = project_square_sum / total_square_sum;
    fraction_of_total * total_funding
}

impl VotingContract {
    /// Replace the post-calculation set with the quadratic-funding
    /// allocation of the current ledger snapshot.  Only the admin may
    /// calculate; a ledger whose arithmetic would overflow `i128`, or
    /// whose total weight is zero, is refused with `InvalidAmount` before
    /// anything changes.  The host has already authenticated `admin_caller`.
    pub fn calculate_funding(&mut self, admin_caller: Principal) -> (r: Result<(), Error>)
        requires
            old(self)@.initialized,
            old(self)@.wf(),
        ensures
            final(self)@ == spec_calculate_state(old(self)@, admin_caller),
            final(self)@.wf(),
            (match r {
                Ok(()) => spec_calculate_err(old(self)@, admin_caller) is None,
                Err(e) => spec_calculate_err(old(self)@, admin_caller) == Some(e),
            }),
    {
        if admin_caller != self.admin {
            return Err(Error::InvalidAuth);
        }
        let ghost views = self@.associations;
        // the largest root sum whose fourth power still fits in an i128
        let root_bound2 = integer_sqrt(i128::MAX);
        proof {
            lemma_sqrt_floor_nonneg(i128::MAX as int);
        }
        let root_bound4 = integer_sqrt(root_bound2);
        proof {
            lemma_sqrt_floor_nonneg(root_bound2 as int);
        }
        let mut total_square_sum: i128 = 0;
        let mut i: usize = 0;
        while i < self.associations.len()
            invariant
                self@ == old(self)@,
                views == old(self)@.associations,
                admin_caller == old(self)@.admin,
                old(self)@.initialized,
                old(self)@.wf(),
                i <= views.len(),
                views.len() == self.associations@.len(),
                root_bound2 == crate::math::sqrt_floor(i128::MAX as int),
                root_bound4 == crate::math::sqrt_floor(root_bound2 as int),
                0 <= root_bound2,
                0 <= root_bound4,
                0 <= total_square_sum,
                total_square_sum == spec_total_weight(views.take(i as int)),
                forall|k: int|
                    0 <= k < i ==> powi_fits(sum_sqrt(#[trigger] views[k].contributions), 2),
            decreases views.len() - i,
        {
            proof {
                assert(association_views(self.associations@)[i as int] == views[i as int]);
                assert forall|j: int| 0 <= j < views[i as int].contributions.len()
                    implies views[i as int].contributions[j] >= 0 by {
                    assert(old(self)@.associations[i as int].contributions[j] > 0);
                }
            }
            let sum_opt = sqrt_sum_checked(self.associations[i].get_contribution());
            proof {
                lemma_sum_sqrt_nonneg(views[i as int].contributions);
            }
            let s: i128 = match sum_opt {
                None => {
                    proof {
                        let ss = sum_sqrt(views[i as int].contributions);
                        if powi_fits(ss, 2) {
                            lemma_powi_fits_square_bounds(ss);
                        }
                        assert(!spec_calc_fits(views));
                    }
                    return Err(Error::InvalidAmount);
                },
                Some(s) => s,
            };
            if s > root_bound4 {
                proof {
                    let ss = s as int;
                    lemma_above_sqrt_floor(root_bound2 as int, ss);
                    vstd::arithmetic::mul::lemma_mul_nonnegative(ss, ss);
                    lemma_above_sqrt_floor(i128::MAX as int, ss * ss);
                    if powi_fits(ss, 2) {
                        lemma_powi_fits_square_bounds(ss);
                    }
                    assert(!spec_calc_fits(views));
                }
                return Err(Error::InvalidAmount);
            }
            proof {
                let ss = s as int;
                lemma_below_sqrt_floor(root_bound2 as int, ss);
                vstd::arithmetic::mul::lemma_mul_nonnegative(ss, ss);
                lemma_below_sqrt_floor(i128::MAX as int, ss * ss);
                lemma_square_bounds_powi_fits(ss);
            }
            let w = powi(s, 2);
            proof {
                lemma_pow_two(s as int);
                vstd::arithmetic::mul::lemma_mul_nonnegative(s as int, s as int);
                assert(views.take(i + 1).drop_last() =~= views.take(i as int));
                assert(views.take(i + 1).last() == views[i as int]);
            }
            if w > i128::MAX - total_square_sum {
                proof {
                    lemma_total_weight_take_le(views, i + 1);
                    assert(!spec_calc_fits(views));
                }
                return Err(Error::InvalidAmount);
            }
            total_square_sum = total_square_sum + w;
            i += 1;
        }
        proof {
            assert(views.take(views.len() as int) =~= views);
            assert(spec_calc_fits(views));
        }
        if total_square_sum == 0 {
            return Err(Error::InvalidAmount);
        }
        let pool = self.total;
        let mut final_associations: Vec<FinalAssociation> = Vec::new();
        let mut i: usize = 0;
        while i < self.associations.len()
            invariant
                self@ == old(self)@,
                views == old(self)@.associations,
                admin_caller == old(self)@.admin,
                old(self)@.initialized,
                old(self)@.wf(),
                pool == old(self)@.total,
                i <= views.len(),
                views.len() == self.associations@.len(),
                0 < total_square_sum,
                total_square_sum == spec_total_weight(views),
                spec_calc_fits(views),
                final_associations@.len() == i as int,
                forall|k: int|
                    0 <= k < i ==> final_views(final_associations@)[k]
                        == spec_final_allocations(views, pool)[k],
            decreases views.len() - i,
        {
            proof {
                assert(association_views(self.associations@)[i as int] == views[i as int]);
                assert forall|j: int| 0 <= j < views[i as int].contributions.len()
                    implies views[i as int].contributions[j] >= 0 by {
                    assert(old(self)@.associations[i as int].contributions[j] > 0);
                }
                lemma_weight_le_total(views, i as int);
                lemma_allocation_all_or_nothing(
                    views[i as int].contributions,
                    total_square_sum as int,
                    pool,
                );
            }
            let amount = calculate_quadratic_funding_for_association(
                self.associations[i].get_contribution(),
                total_square_sum,
                pool,
            );
            let final_assoc = FinalAssociation {
                name: self.associations[i].get_name(),
                contribution: amount,
                has_withdrawn: false,
            };
            final_associations.push(final_assoc);
            i += 1;
        }
        self.finals = final_associations;
        proof {
            assert(final_views(self.finals@) =~= spec_final_allocations(views, pool));
            assert(self@ =~= spec_calculate_state(old(self)@, admin_caller));
            let s = self@;
            assert forall|k: int| 0 <= k < s.finals.len()
                implies #[trigger] s.finals[k].contribution >= 0 by {
                lemma_weight_le_total(views, k);
                lemma_allocation_all_or_nothing(
                    views[k].contributions,
                    total_square_sum as int,
                    pool,
                );
            }
        }
        Ok(())
    }

    /// Match every computed allocation: pull the same amount again from
    /// `sender` for each beneficiary, double each allocation in place, and
    /// double the pool total with them.  Meaningful only after a
    /// calculation; may be repeated for further rounds of matching.  The
    /// host has already authenticated `sender`.
    pub fn duplicate_quantities(&mut self, sender: Principal) -> (r: Result<Vec<Payment>, Error>)
        requires
            old(self)@.initialized,
            old(self)@.wf(),
            old(self)@.finals.len() > 0,
            2 * old(self)@.total <= i128::MAX,
            forall|i: int|
                0 <= i < old(self)@.finals.len() ==> 2 * #[trigger] old(
                    self,
                )@.finals[i].contribution <= i128::MAX,
        ensures
            final(self)@ == spec_duplicate_state(old(self)@),
            final(self)@.wf(),
            (match r {
                Ok(payments) => payments@ == spec_duplicate_payments(old(self)@.finals, sender),
                Err(_) => false,
            }),
    {
        let ghost orig = self@.finals;
        let mut payments: Vec<Payment> = Vec::new();
        let mut i: usize = 0;
        while i < self.finals.len()
            invariant
                old(self)@.initialized,
                old(self)@.wf(),
                orig == old(self)@.finals,
                forall|k: int|
                    0 <= k < orig.len() ==> 2 * #[trigger] orig[k].contribution <= i128::MAX,
                i <= orig.len(),
                self.finals@.len() == orig.len(),
                self@.initialized == old(self)@.initialized,
                self@.admin == old(self)@.admin,
                self@.token == old(self)@.token,
                self@.deadline == old(self)@.deadline,
                self@.total == old(self)@.total,
                self@.claimed == old(self)@.claimed,
                self@.contract_call == old(self)@.contract_call,
                self@.associations == old(self)@.associations,
                forall|k: int|
                    i <= k < orig.len() ==> final_views(self.finals@)[k] == orig[k],
                forall|k: int|
                    0 <= k < i ==> final_views(self.finals@)[k] == (FinalAssociationView {
                        contribution: (2 * orig[k].contribution) as i128,
                        ..orig[k]
                    }),
                payments@.len() == i as int,
                forall|k: int|
                    0 <= k < i ==> payments@[k] == (Payment::In {
                        from: sender,
                        amount: orig[k].contribution,
                    }),
            decreases orig.len() - i,
        {
            proof {
                assert(final_views(self.finals@)[i as int] == orig[i as int]);
                assert(orig[i as int].contribution >= 0);
            }
            let ghost prev = self.finals@;
            let c = self.finals[i].get_contribution();
            payments.push(Payment::In { from: sender, amount: c });
            self.finals[i].set_contribution(2 * c);
            proof {
                assert forall|k: int| 0 <= k < i + 1 implies final_views(self.finals@)[k]
                    == (FinalAssociationView {
                    contribution: (2 * orig[k].contribution) as i128,
                    ..orig[k]
                }) by {
                    if k < i {
                        assert(self.finals@[k] == prev[k]);
                        assert(final_views(prev)[k] == prev[k]@);
                    }
                }
            }
            i += 1;
        }
        self.total = self.total * 2;
        proof {
            assert(payments@ =~= spec_duplicate_payments(orig, sender));
            assert(self@ =~= spec_duplicate_state(old(self)@));
        }
        Ok(payments)
    }
}

/// One deposit request: which beneficiary it is earmarked for, who pays,
/// the amount, and the time it reaches the service.
pub struct DepositEvent {
    pub association: Principal,
    pub sender: Principal,
    pub amount: i64,
    pub now: u64,
}

/// The state after a whole sequence of deposit requests, applied in order.
pub open spec fn spec_apply_deposits(s: VotingView, events: Seq<DepositEvent>) -> VotingView
    decreases events.len(),
{
    if events.len() == 0 {
        s
    } else {
        let e = events.last();
        spec_deposit_state(
            spec_apply_deposits(s, events.drop_last()),
            e.association,
            e.amount,
            e.now,
        )
    }
}

/// The sum of the amounts a service with deadline `deadline` accepts out
/// of a request sequence: those strictly before the deadline with a
/// strictly positive amount.
pub open spec fn spec_accepted_sum(deadline: u64, events: Seq<DepositEvent>) -> int
    decreases events.len(),
{
    if events.len() == 0 {
        0
    } else {
        let e = events.last();
        spec_accepted_sum(deadline, events.drop_last()) + if e.now < deadline && e.amount > 0 {
            e.amount as int
        } else {
            0
        }
    }
}

/// The total-amount accumulator tracks deposits exactly: after any
/// sequence of deposit requests, the accepted amounts have been added to
/// the total and nothing else has; the deadline never moves.
pub proof fn lemma_total_tracks_deposits(s: VotingView, events: Seq<DepositEvent>)
    requires
        0 <= s.total,
        s.total + spec_accepted_sum(s.deadline, events) <= i128::MAX,
    ensures
        spec_apply_deposits(s, events).deadline == s.deadline,
        spec_apply_deposits(s, events).total == s.total + spec_accepted_sum(s.deadline, events),
    decreases events.len(),
{
    if events.len() > 0 {
        let e = events.last();
        let rest = events.drop_last();
        lemma_total_tracks_deposits(s, rest);
    }
}

/// The calculation is a function of the ledger snapshot alone: equal
/// snapshots yield equal allocation sets, however often it is re-run.
pub proof fn lemma_calculation_deterministic(s1: VotingView, s2: VotingView)
    requires
        s1.associations == s2.associations,
        s1.total == s2.total,
    ensures
        spec_final_allocations(s1.associations, s1.total) == spec_final_allocations(
            s2.associations,
            s2.total,
        ),
{
}

/// Recalculating right after a calculation succeeds again and leaves the
/// very same allocation set: the ledger snapshot did not change.
pub proof fn lemma_calculation_idempotent(s: VotingView, caller: Principal)
    requires
        spec_calculate_err(s, caller) is None,
    ensures
        spec_calculate_err(spec_calculate_state(s, caller), caller) is None,
        spec_calculate_state(spec_calculate_state(s, caller), caller) == spec_calculate_state(
            s,
            caller,
        ),
{
    let s1 = spec_calculate_state(s, caller);
    assert(s1.associations == s.associations && s1.total == s.total);
    assert(spec_calculate_state(s1, caller) =~= s1);
}

/// Sum of the allocations in a post-calculation record set.
pub open spec fn spec_sum_allocations(finals: Seq<FinalAssociationView>) -> int
    decreases finals.len(),
{
    if finals.len() == 0 {
        0
    } else {
        spec_sum_allocations(finals.drop_last()) + finals.last().contribution
    }
}

/// Integer division by a positive divisor is superadditive: the quotients
/// of two parts never overshoot the quotient of their sum.
proof fn lemma_div_superadditive(a: int, b: int, d: int)
    requires
        0 <= a,
        0 <= b,
        0 < d,
    ensures
        a / d + b / d <= (a + b) / d,
{
    let qa = a / d;
    let qb = b / d;
    let r = a % d + b % d;
    vstd::arithmetic::div_mod::lemma_fundamental_div_mod(a, d);
    vstd::arithmetic::div_mod::lemma_fundamental_div_mod(b, d);
    vstd::arithmetic::div_mod::lemma_mod_division_less_than_divisor(a, d);
    vstd::arithmetic::div_mod::lemma_mod_division_less_than_divisor(b, d);
    assert(r + (qa + qb) * d == a + b) by (nonlinear_arith)
        requires
            a == d * qa + a % d,
            b == d * qb + b % d,
            r == a % d + b % d,
    ;
    vstd::arithmetic::div_mod::lemma_hoist_over_denominator(r, qa + qb, d as nat);
    vstd::arithmetic::div_mod::lemma_div_pos_is_pos(r, d);
}

/// Bound for a prefix of the allocation set: what the first `k`
/// beneficiaries receive together is at most their share of the pool.
proof fn lemma_alloc_sum_prefix(s: Seq<AssociationView>, pool: i128, k: int)
    requires
        0 <= k <= s.len(),
        0 < spec_total_weight(s),
        0 <= pool,
    ensures
        spec_sum_allocations(spec_final_allocations(s, pool).take(k)) <= (spec_total_weight(
            s.take(k),
        ) / spec_total_weight(s)) * pool,
    decreases k,
{
    let wtotal = spec_total_weight(s);
    let fa = spec_final_allocations(s, pool);
    if k == 0 {
        assert(fa.take(0) =~= Seq::<FinalAssociationView>::empty());
        assert(s.take(0) =~= Seq::<AssociationView>::empty());
        vstd::arithmetic::div_mod::lemma_div_of0(wtotal);
        assert(0 * pool == 0) by (nonlinear_arith);
    } else {
        lemma_alloc_sum_prefix(s, pool, k - 1);
        assert(fa.take(k).drop_last() =~= fa.take(k - 1));
        assert(fa.take(k).last() == fa[k - 1]);
        assert(s.take(k).drop_last() =~= s.take(k - 1));
        assert(s.take(k).last() == s[k - 1]);
        let a = spec_total_weight(s.take(k - 1));
        let w = spec_weight(s[k - 1].contributions);
        lemma_total_weight_nonneg(s.take(k - 1));
        lemma_weight_le_total(s, k - 1);
        lemma_allocation_all_or_nothing(s[k - 1].contributions, wtotal, pool);
        lemma_div_superadditive(a, w, wtotal);
        vstd::arithmetic::mul::lemma_mul_inequality(
            a / wtotal + w / wtotal,
            (a + w) / wtotal,
            pool as int,
        );
        assert((a / wtotal + w / wtotal) * pool == (a / wtotal) * pool + (w / wtotal) * pool)
            by (nonlinear_arith);
        vstd::arithmetic::div_mod::lemma_div_pos_is_pos(a, wtotal);
        vstd::arithmetic::div_mod::lemma_div_pos_is_pos(w, wtotal);
        vstd::arithmetic::mul::lemma_mul_inequality(0, a / wtotal, pool as int);
        assert(0 * pool == 0) by (nonlinear_arith);
    }
}

/// The allocations never exceed the pool: the truncating division in the
/// allocation formula only ever loses remainders, so the beneficiaries
/// together are granted at most what was pooled.
pub proof fn lemma_allocations_within_pool(s: Seq<AssociationView>, pool: i128)
    requires
        0 < spec_total_weight(s),
        0 <= pool,
    ensures
        spec_sum_allocations(spec_final_allocations(s, pool)) <= pool,
{
    let wtotal = spec_total_weight(s);
    let fa = spec_final_allocations(s, pool);
    lemma_alloc_sum_prefix(s, pool, s.len() as int);
    assert(s.take(s.len() as int) =~= s);
    assert(fa.take(fa.len() as int) =~= fa);
    vstd::arithmetic::div_mod::lemma_div_by_self(wtotal);
    assert(1 * pool == pool as int) by (nonlinear_arith);
}

/// Withdrawal is exactly once per cycle: after a successful lump-sum
/// withdrawal, an immediate second attempt fails — with
/// `AlreadyWithdrawn` for the admin — and changes nothing, so the payout
/// is never paid twice.
pub proof fn lemma_withdraw_exactly_once(s: VotingView, caller: Principal, caller2: Principal)
    requires
        spec_withdraw_err(s, caller) is None,
    ensures
        spec_withdraw_err(spec_withdraw_state(s, caller), caller2) is Some,
        caller2 == s.admin ==> spec_withdraw_err(spec_withdraw_state(s, caller), caller2) == Some(
            Error::AlreadyWithdrawn,
        ),
        spec_withdraw_state(spec_withdraw_state(s, caller), caller2) == spec_withdraw_state(
            s,
            caller,
        ),
{
}

/// A deposit at or past the deadline is rejected with `InvalidTimestamp`
/// and leaves the ledger untouched.
pub proof fn lemma_late_deposit_rejected(
    s: VotingView,
    association: Principal,
    amount: i64,
    now: u64,
)
    requires
        now >= s.deadline,
    ensures
        spec_deposit_err(s, amount, now) == Some(Error::InvalidTimestamp),
        spec_deposit_state(s, association, amount, now) == s,
{
}

/// Initializing an already-initialized service fails with
/// `AlreadyInitialized` and leaves the prior state untouched.
pub proof fn lemma_reinit_rejected(
    s: VotingView,
    admin: Principal,
    token: Principal,
    names: Seq<Principal>,
    deadline: u64,
    contract_call: Principal,
    now: u64,
)
    requires
        s.initialized,
    ensures
        spec_init_err(s, names, deadline, now) == Some(Error::AlreadyInitialized),
        spec_init_state(s, admin, token, names, deadline, contract_call, now) == s,
{
}

/// Build one empty record per name, in order.
fn init_associations(names: &Vec<Principal>) -> (r: Vec<Association>)
    ensures
        association_views(r@) == spec_empty_associations(names@),
{
    let mut associations_vec: Vec<Association> = Vec::new();
    let mut i: usize = 0;
    while i < names.len()
        invariant
            i <= names@.len(),
            association_views(associations_vec@) == spec_empty_associations(names@.take(i as int)),
        decreases names@.len() - i,
    {
        add_new_association(&mut associations_vec, names[i]);
        proof {
            assert(names@.take(i + 1).drop_last() =~= names@.take(i as int));
            assert(names@.take(i + 1) =~= names@.take(i as int).push(names@[i as int]));
            assert(association_views(associations_vec@) =~= spec_empty_associations(
                names@.take(i + 1),
            ));
        }
        i += 1;
    }
    proof {
        assert(names@.take(names@.len() as int) =~= names@);
    }
    associations_vec
}

/// Append a fresh, empty record for `name`.
fn add_new_association(associations: &mut Vec<Association>, name: Principal)
    ensures
        association_views(final(associations)@) == association_views(old(associations)@).push(
            AssociationView { name: name, contributions: Seq::empty() },
        ),
{
    let new_assoc = Association { name: name, contribution: Vec::new() };
    associations.push(new_assoc);
    proof {
        assert(association_views(associations@) =~= association_views(old(associations)@).push(
            AssociationView { name: name, contributions: Seq::empty() },
        ));
    }
}

/// The addresses of all records, in order.
fn get_associations_address(associations: &Vec<Association>) -> (r: Vec<Principal>)
    ensures
        r@ == association_views(associations@).map_values(|a: AssociationView| a.name),
{
    let mut addresses: Vec<Principal> = Vec::new();
    let mut i: usize = 0;
    while i < associations.len()
        invariant
            i <= associations@.len(),
            addresses@ == association_views(associations@.take(i as int)).map_values(
                |a: AssociationView| a.name,
            ),
        decreases associations@.len() - i,
    {
        addresses.push(associations[i].get_name());
        proof {
            assert(addresses@ =~= association_views(associations@.take(i + 1)).map_values(
                |a: AssociationView| a.name,
            ));
        }
        i += 1;
    }
    proof {
        assert(associations@.take(associations@.len() as int) =~= associations@);
    }
    addresses
}

/// The contribution sequence of the last record named `name`, or empty.
fn get_amount_per_association(associations: &Vec<Association>, name: Principal) -> (r: Vec<i64>)
    ensures
        r@ == spec_amount_of(association_views(associations@), name),
{
    let mut amounts: Vec<i64> = Vec::new();
    let mut i: usize = 0;
    while i < associations.len()
        invariant
            i <= associations@.len(),
            amounts@ == spec_amount_of(association_views(associations@.take(i as int)), name),
        decreases associations@.len() - i,
    {
        if associations[i].get_name() == name {
            amounts = copy_amounts(associations[i].get_contribution());
        }
        proof {
            let views_next = association_views(associations@.take(i + 1));
            assert(views_next.drop_last() =~= association_views(associations@.take(i as int)));
            assert(views_next.last() == associations@[i as int]@);
        }
        i += 1;
    }
    proof {
        assert(associations@.take(associations@.len() as int) =~= associations@);
    }
    amounts
}

/// A fresh copy of a contribution sequence.
fn copy_amounts(v: &Vec<i64>) -> (r: Vec<i64>)
    ensures
        r@ == v@,
{
    let mut r: Vec<i64> = Vec::new();
    let mut i: usize = 0;
    while i < v.len()
        invariant
            i <= v@.len(),
            r@ == v@.take(i as int),
        decreases v@.len() - i,
    {
        r.push(v[i]);
        proof {
            assert(v@.take(i + 1) =~= v@.take(i as int).push(v@[i as int]));
        }
        i += 1;
    }
    proof {
        assert(v@.take(v@.len() as int) =~= v@);
    }
    r
}

/// Credit `amount` to every record named `association` and order one
/// incoming transfer from the contributor for each.
fn add_contribution(
    associations: &mut Vec<Association>,
    association: Principal,
    sender: Principal,
    amount: i64,
) -> (payments: Vec<Payment>)
    ensures
        association_views(final(associations)@) == spec_push_contribution(
            association_views(old(associations)@),
            association,
            amount,
        ),
        payments@ == spec_deposit_payments(
            association_views(old(associations)@),
            association,
            sender,
            amount,
        ),
{
    let ghost orig = association_views(associations@);
    let mut payments: Vec<Payment> = Vec::new();
    let mut i: usize = 0;
    while i < associations.len()
        invariant
            i <= orig.len(),
            associations@.len() == orig.len(),
            association_views(associations@) == spec_push_contribution_upto(
                orig,
                association,
                amount,
                i as int,
            ),
            payments@ == spec_deposit_payments(orig.take(i as int), association, sender, amount),
        decreases orig.len() - i,
    {
        let ghost pre_loop = association_views(associations@);
        proof {
            assert(pre_loop[i as int] == orig[i as int]);
        }
        if associations[i].get_name() == association {
            associations[i].add_contribution(amount);
            payments.push(Payment::In { from: sender, amount: amount as i128 });
        }
        proof {
            let cur = association_views(associations@);
            let nxt = spec_push_contribution_upto(orig, association, amount, i + 1);
            assert forall|j: int| 0 <= j < orig.len() implies cur[j] == nxt[j] by {
                if j != i {
                    assert(cur[j] == pre_loop[j]);
                    assert(pre_loop[j] == spec_push_contribution_upto(
                        orig,
                        association,
                        amount,
                        i as int,
                    )[j]);
                }
            }
            assert(cur =~= nxt);
            assert(orig.take(i + 1).drop_last() =~= orig.take(i as int));
            assert(orig.take(i + 1).last() == orig[i as int]);
            assert(payments@ == spec_deposit_payments(
                orig.take(i + 1),
                association,
                sender,
                amount,
            ));
        }
        i += 1;
    }
    proof {
        assert(orig.take(orig.len() as int) =~= orig);
        assert(spec_push_contribution_upto(orig, association, amount, orig.len() as int)
            =~= spec_push_contribution(orig, association, amount));
    }
    payments
}

impl VotingContract {
    /// A service that has not been initialized yet.
    pub fn new() -> (s: Self)
        ensures
            s@ == (VotingView {
                initialized: false,
                admin: 0,
                token: 0,
                deadline: 0,
                total: 0,
                claimed: false,
                contract_call: 0,
                associations: Seq::<AssociationView>::empty(),
                finals: Seq::<FinalAssociationView>::empty(),
            }),
            s@.wf(),
    {
        let s = VotingContract {
            initialized: false,
            admin: 0,
            token: 0,
            deadline: 0,
            total: 0,
            claimed: false,
            contract_call: 0,
            associations: Vec::new(),
            finals: Vec::new(),
        };
        proof {
            assert(s@ =~= (VotingView {
                initialized: false,
                admin: 0,
                token: 0,
                deadline: 0,
                total: 0,
                claimed: false,
                contract_call: 0,
                associations: Seq::<AssociationView>::empty(),
                finals: Seq::<FinalAssociationView>::empty(),
            }));
        }
        s
    }

    /// Rebuild an initialized service from the values the host's durable
    /// store holds, validating everything a reachable state satisfies;
    /// data that could not have come from this service is refused.
    pub fn restore(
        admin: Principal,
        token_address: Principal,
        deadline: u64,
        total: i128,
        claimed: bool,
        contract_transfer: Principal,
        associations: Vec<Association>,
        finals: Vec<FinalAssociation>,
    ) -> (r: Option<Self>)
        ensures
            (match r {
                Some(s) => s@ == (VotingView {
                    initialized: true,
                    admin: admin,
                    token: token_address,
                    deadline: deadline,
                    total: total,
                    claimed: claimed,
                    contract_call: contract_transfer,
                    associations: association_views(associations@),
                    finals: final_views(finals@),
                }) && s@.wf(),
                None => !(VotingView {
                    initialized: true,
                    admin: admin,
                    token: token_address,
                    deadline: deadline,
                    total: total,
                    claimed: claimed,
                    contract_call: contract_transfer,
                    associations: association_views(associations@),
                    finals: final_views(finals@),
                }).wf(),
            }),
    {
        if total < 0 {
            return None;
        }
        let mut i: usize = 0;
        while i < associations.len()
            invariant
                i <= associations@.len(),
                forall|a: int, j: int|
                    0 <= a < i && 0 <= j < association_views(associations@)[a].contributions.len()
                        ==> #[trigger] association_views(associations@)[a].contributions[j] > 0,
            decreases associations@.len() - i,
        {
            let c = associations[i].get_contribution();
            let mut j: usize = 0;
            while j < c.len()
                invariant
                    i < associations@.len(),
                    j <= c@.len(),
                    c@ == association_views(associations@)[i as int].contributions,
                    forall|k: int| 0 <= k < j ==> #[trigger] c@[k] > 0,
                decreases c@.len() - j,
            {
                if c[j] <= 0 {
                    proof {
                        let target = VotingView {
                            initialized: true,
                            admin: admin,
                            token: token_address,
                            deadline: deadline,
                            total: total,
                            claimed: claimed,
                            contract_call: contract_transfer,
                            associations: association_views(associations@),
                            finals: final_views(finals@),
                        };
                        if target.wf() {
                            assert(target.associations[i as int].contributions[j as int] > 0);
                        }
                    }
                    return None;
                }
                j += 1;
            }
            proof {
                assert forall|a: int, j: int|
                    0 <= a < i + 1 && 0 <= j < association_views(
                        associations@,
                    )[a].contributions.len() implies #[trigger] association_views(
                    associations@,
                )[a].contributions[j] > 0 by {
                    if a == i {
                        assert(c@[j] > 0);
                    }
                }
            }
            i += 1;
        }
        let mut k: usize = 0;
        while k < finals.len()
            invariant
                k <= finals@.len(),
                forall|a: int|
                    0 <= a < k ==> #[trigger] final_views(finals@)[a].contribution >= 0,
            decreases finals@.len() - k,
        {
            if finals[k].get_contribution() < 0 {
                proof {
                    let target = VotingView {
                        initialized: true,
                        admin: admin,
                        token: token_address,
                        deadline: deadline,
                        total: total,
                        claimed: claimed,
                        contract_call: contract_transfer,
                        associations: association_views(associations@),
                        finals: final_views(finals@),
                    };
                    assert(target.finals[k as int] == finals@[k as int]@);
                    if target.wf() {
                        assert(target.finals[k as int].contribution >= 0);
                    }
                }
                return None;
            }
            proof {
                assert(final_views(finals@)[k as int] == finals@[k as int]@);
            }
            k += 1;
        }
        let s = VotingContract {
            initialized: true,
            admin: admin,
            token: token_address,
            deadline: deadline,
            total: total,
            claimed: claimed,
            contract_call: contract_transfer,
            associations: associations,
            finals: finals,
        };
        proof {
            assert(s@ =~= (VotingView {
                initialized: true,
                admin: admin,
                token: token_address,
                deadline: deadline,
                total: total,
                claimed: claimed,
                contract_call: contract_transfer,
                associations: association_views(associations@),
                finals: final_views(finals@),
            }));
        }
        Some(s)
    }

    /// Initialize the service exactly once: record the admin, the asset,
    /// the registered beneficiaries, the deposit deadline and the
    /// disbursement principal.  The host has already authenticated `admin`.
    pub fn init(
        &mut self,
        admin: Principal,
        token_address: Principal,
        associations: &Vec<Principal>,
        deadline: u64,
        contract_transfer: Principal,
        now: u64,
    ) -> (r: Result<(), Error>)
        ensures
            final(self)@ == spec_init_state(
                old(self)@,
                admin,
                token_address,
                associations@,
                deadline,
                contract_transfer,
                now,
            ),
            (match r {
                Ok(()) => spec_init_err(old(self)@, associations@, deadline, now) is None,
                Err(e) => spec_init_err(old(self)@, associations@, deadline, now) == Some(e),
            }),
            old(self)@.wf() ==> final(self)@.wf(),
    {
        if self.initialized {
            return Err(Error::AlreadyInitialized);
        }
        if deadline < now {
            return Err(Error::InvalidTimestamp);
        }
        if associations.len() < 1 {
            return Err(Error::InvalidAssociation);
        }
        let associations_vec = init_associations(associations);
        self.initialized = true;
        self.admin = admin;
        self.token = token_address;
        self.deadline = deadline;
        self.total = 0;
        self.claimed = false;
        self.contract_call = contract_transfer;
        self.associations = associations_vec;
        proof {
            assert(self@ =~= spec_init_state(
                old(self)@,
                admin,
                token_address,
                associations@,
                deadline,
                contract_transfer,
                now,
            ));
        }
        Ok(())
    }

    /// Record a deposit of `amount` from `sender`, earmarked for
    /// `association`, and order the matching incoming transfers.  The host
    /// has already authenticated `sender`.
    pub fn deposit(
        &mut self,
        association: Principal,
        sender: Principal,
        amount: i64,
        now: u64,
    ) -> (r: Result<Vec<Payment>, Error>)
        requires
            old(self)@.initialized,
            old(self)@.wf(),
            old(self)@.total + amount <= i128::MAX,
        ensures
            final(self)@ == spec_deposit_state(old(self)@, association, amount, now),
            final(self)@.wf(),
            (match r {
                Ok(payments) => spec_deposit_err(old(self)@, amount, now) is None
                    && payments@ == spec_deposit_payments(
                    old(self)@.associations,
                    association,
                    sender,
                    amount,
                ),
                Err(e) => spec_deposit_err(old(self)@, amount, now) == Some(e),
            }),
    {
        if now >= self.deadline {
            return Err(Error::InvalidTimestamp);
        }
        if amount <= 0 {
            return Err(Error::InvalidAmount);
        }
        let payments = add_contribution(&mut self.associations, association, sender, amount);
        self.total = self.total + amount as i128;
        proof {
            assert(self@ =~= spec_deposit_state(old(self)@, association, amount, now));
            let s = self@;
            assert forall|i: int, j: int|
                0 <= i < s.associations.len() && 0 <= j < s.associations[i].contributions.len()
                    implies #[trigger] s.associations[i].contributions[j] > 0 by {
                let pre = old(self)@.associations;
                assert(s.associations[i] == spec_push_contribution(pre, association, amount)[i]);
                if pre[i].name == association {
                    assert(s.associations[i].contributions == pre[i].contributions.push(amount));
                } else {
                    assert(s.associations[i] == pre[i]);
                }
            }
        }
        Ok(payments)
    }

    /// Pay the whole pooled total out to the disbursement principal, once
    /// per claimed cycle.  The host has already authenticated `admin_caller`.
    pub fn withdraw(&mut self, admin_caller: Principal) -> (r: Result<Payment, Error>)
        requires
            old(self)@.initialized,
        ensures
            final(self)@ == spec_withdraw_state(old(self)@, admin_caller),
            (match r {
                Ok(payment) => spec_withdraw_err(old(self)@, admin_caller) is None && payment
                    == (Payment::Out { to: old(self)@.contract_call, amount: old(self)@.total }),
                Err(e) => spec_withdraw_err(old(self)@, admin_caller) == Some(e),
            }),
            old(self)@.wf() ==> final(self)@.wf(),
    {
        if admin_caller != self.admin {
            return Err(Error::InvalidAuth);
        }
        if self.claimed {
            return Err(Error::AlreadyWithdrawn);
        }
        let payment = Payment::Out { to: self.contract_call, amount: self.total };
        self.claimed = true;
        proof {
            assert(self@ =~= spec_withdraw_state(old(self)@, admin_caller));
        }
        Ok(payment)
    }

    /// Open a new round: if a calculation has produced a non-empty
    /// allocation set, move the deadline to `now` and clear the claimed
    /// flag.  The host has already authenticated `admin_caller`.
    pub fn end_funding(&mut self, admin_caller: Principal, now: u64) -> (r: Result<(), Error>)
        requires
            old(self)@.initialized,
        ensures
            final(self)@ == spec_end_funding_state(old(self)@, admin_caller, now),
            (match r {
                Ok(()) => spec_end_funding_err(old(self)@, admin_caller) is None,
                Err(e) => spec_end_funding_err(old(self)@, admin_caller) == Some(e),
            }),
            old(self)@.wf() ==> final(self)@.wf(),
    {
        if admin_caller != self.admin {
            return Err(Error::InvalidAuth);
        }
        if self.total < 0 {
            return Err(Error::InvalidAmount);
        }
        if self.finals.len() > 0 {
            self.deadline = now;
            self.claimed = false;
        }
        proof {
            assert(self@ =~= spec_end_funding_state(old(self)@, admin_caller, now));
        }
        Ok(())
    }

    /// Register one more beneficiary while the window is open.  No
    /// duplicate detection is performed: registering a name twice yields
    /// two independent records.  The host has already authenticated
    /// `admin_caller`.
    pub fn add_association(
        &mut self,
        admin_caller: Principal,
        association: Principal,
        now: u64,
    ) -> (r: Result<(), Error>)
        requires
            old(self)@.initialized,
        ensures
            final(self)@ == spec_add_association_state(old(self)@, admin_caller, association, now),
            (match r {
                Ok(()) => spec_add_association_err(old(self)@, admin_caller, now) is None,
                Err(e) => spec_add_association_err(old(self)@, admin_caller, now) == Some(e),
            }),
            old(self)@.wf() ==> final(self)@.wf(),
    {
        if admin_caller != self.admin {
            return Err(Error::InvalidAuth);
        }
        if self.deadline < now {
            return Err(Error::InvalidTimestamp);
        }
        add_new_association(&mut self.associations, association);
        proof {
            assert(self@ =~= spec_add_association_state(
                old(self)@,
                admin_caller,
                association,
                now,
            ));
            if old(self)@.wf() {
                let pre = old(self)@.associations;
                let s = self@;
                assert forall|i: int, j: int|
                    0 <= i < s.associations.len() && 0 <= j
                        < s.associations[i].contributions.len()
                        implies #[trigger] s.associations[i].contributions[j] > 0 by {
                    if i < pre.len() {
                        assert(s.associations[i] == pre[i]);
                    } else {
                        assert(s.associations[i].contributions.len() == 0);
                    }
                }
            }
        }
        Ok(())
    }

    /// The addresses of all registered beneficiaries, in order.
    pub fn associations_addresses(&self) -> (r: Vec<Principal>)
        requires
            self@.initialized,
        ensures
            r@ == self@.associations.map_values(|a: AssociationView| a.name),
    {
        get_associations_address(&self.associations)
    }

    /// Whether the deposit window is still open at time `now`.
    pub fn state(&self, now: u64) -> (r: State)
        requires
            self@.initialized,
        ensures
            r == spec_state(self@, now),
    {
        if now < self.deadline {
            State::Running
        } else {
            State::Ended
        }
    }

    /// The deposit deadline.
    pub fn deadline(&self) -> (r: u64)
        requires
            self@.initialized,
        ensures
            r == self@.deadline,
    {
        self.deadline
    }

    /// All pre-calculation records.
    pub fn associations_amounts(&self) -> (r: &Vec<Association>)
        requires
            self@.initialized,
        ensures
            association_views(r@) == self@.associations,
    {
        &self.associations
    }

    /// The contributions recorded for the last record named `association`,
    /// or an empty sequence if that name was never registered.
    pub fn association_amount(&self, association: Principal) -> (r: Vec<i64>)
        requires
            self@.initialized,
        ensures
            r@ == spec_amount_of(self@.associations, association),
    {
        get_amount_per_association(&self.associations, association)
    }

    /// The admin principal configured at initialization.
    pub fn get_admin_address(&self) -> (r: Principal)
        requires
            self@.initialized,
        ensures
            r == self@.admin,
    {
        self.admin
    }

    /// The asset this service's funds are denominated in.
    pub fn get_token_address(&self) -> (r: Principal)
        requires
            self@.initialized,
        ensures
            r == self@.token,
    {
        self.token
    }

    /// The disbursement principal the lump-sum payout goes to.
    pub fn get_contract_call_address(&self) -> (r: Principal)
        requires
            self@.initialized,
        ensures
            r == self@.contract_call,
    {
        self.contract_call
    }

    /// Whether the payout of the current cycle has been claimed.
    pub fn get_recipients_claimed(&self) -> (r: bool)
        requires
            self@.initialized,
        ensures
            r == self@.claimed,
    {
        self.claimed
    }

    /// The pooled total collected so far.
    pub fn total_amount(&self) -> (r: i128)
        requires
            self@.initialized,
        ensures
            r == self@.total,
    {
        self.total
    }

    /// All post-calculation records, empty before the first calculation.
    pub fn total_final_associations(&self) -> (r: &Vec<FinalAssociation>)
        requires
            self@.initialized,
        ensures
            final_views(r@) == self@.finals,
    {
        &self.finals
    }
}

} // verus!
