//! The record types both services work on: beneficiary records before and
//! after the allocation calculation, and the transfer orders an operation
//! hands back to the host for execution.

use vstd::prelude::*;

verus! {

/// An account identifier, the plain value behind the host's address type.
pub type Principal = u64;

/// A transfer the host must perform against the service's custody account.
/// An operation that returns payments has already recorded its state change;
/// the host commits state and payments atomically, or discards both.
#[derive(Clone, Copy, PartialEq, Eq, Structural, Debug)]
pub enum Payment {
    /// `amount` moves from `from` into the service's custody account.
    In { from: Principal, amount: i128 },
    /// `amount` moves from the service's custody account out to `to`.
    Out { to: Principal, amount: i128 },
}

/// A beneficiary before the allocation calculation: its identity and the
/// append-only sequence of raw contribution amounts, one per deposit event.
pub struct Association {
    pub name: Principal,
    pub contribution: Vec<i64>,
}

/// Mathematical image of an `Association`.
#[verifier::ext_equal]
pub struct AssociationView {
    pub name: Principal,
    pub contributions: Seq<i64>,
}

impl View for Association {
    type V = AssociationView;

    open spec fn view(&self) -> AssociationView {
        AssociationView { name: self.name, contributions: self.contribution@ }
    }
}

impl Association {
    /// Append one raw contribution to this beneficiary's sequence.
    pub(crate) fn add_contribution(&mut self, amount: i64)
        ensures
            final(self)@ == (AssociationView {
                contributions: old(self)@.contributions.push(amount),
                ..old(self)@
            }),
    {
        self.contribution.push(amount);
    }

    pub fn get_name(&self) -> (r: Principal)
        ensures
            r == self@.name,
    {
        self.name
    }

    /// The full contribution sequence of this beneficiary.
    pub fn get_contribution(&self) -> (r: &Vec<i64>)
        ensures
            r@ == self@.contributions,
    {
        &self.contribution
    }
}

/// A beneficiary after the allocation calculation: its identity, its computed
/// allocation, and whether it has already been paid in the active period.
#[derive(Clone, Copy)]
pub struct FinalAssociation {
    pub name: Principal,
    pub contribution: i128,
    pub has_withdrawn: bool,
}

/// Mathematical image of a `FinalAssociation`.
#[verifier::ext_equal]
pub struct FinalAssociationView {
    pub name: Principal,
    pub contribution: i128,
    pub has_withdrawn: bool,
}

impl View for FinalAssociation {
    type V = FinalAssociationView;

    open spec fn view(&self) -> FinalAssociationView {
        FinalAssociationView {
            name: self.name,
            contribution: self.contribution,
            has_withdrawn: self.has_withdrawn,
        }
    }
}

impl FinalAssociation {
    pub fn get_name(&self) -> (r: Principal)
        ensures
            r == self@.name,
    {
        self.name
    }

    /// The allocation this beneficiary was granted by the calculation.
    pub fn get_contribution(&self) -> (r: i128)
        ensures
            r == self@.contribution,
    {
        self.contribution
    }

    pub(crate) fn set_contribution(&mut self, amount: i128)
        ensures
            final(self)@ == (FinalAssociationView { contribution: amount, ..old(self)@ }),
    {
        self.contribution = amount;
    }

    pub fn get_has_withdrawn(&self) -> (r: bool)
        ensures
            r == self@.has_withdrawn,
    {
        self.has_withdrawn
    }

    pub(crate) fn set_has_withdrawn(&mut self, has_withdrawn: bool)
        ensures
            final(self)@ == (FinalAssociationView { has_withdrawn: has_withdrawn, ..old(self)@ }),
    {
        self.has_withdrawn = has_withdrawn;
    }
}

/// The images of a vector of pre-calculation records.
pub open spec fn association_views(v: Seq<Association>) -> Seq<AssociationView> {
    v.map_values(|a: Association| a@)
}

/// The images of a vector of post-calculation records.
pub open spec fn final_views(v: Seq<FinalAssociation>) -> Seq<FinalAssociationView> {
    v.map_values(|a: FinalAssociation| a@)
}

} // verus!
