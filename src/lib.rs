//! Decentralized information-flow-control labels.
//!
//! A label pairs a secrecy and an integrity component. Each component is a
//! conjunction of clauses, each clause a disjunction of principal chains, and
//! a chain authorizes every chain that extends it.

use vstd::prelude::*;

pub mod buckle;
pub mod clause;
pub mod component;
pub mod laws;
pub mod parse;

pub use buckle::{Buckle, DCLabel};
pub use clause::{Clause, IntoClause, Principal};
pub use component::{Component, IntoComponent};
pub use parse::ParseError;

verus! {

/// A lattice of labels ordered by the flow relation.
pub trait Label: Sized {
    /// Information may flow from `a` to `b`.
    spec fn flows_to(a: &Self, b: &Self) -> bool;

    /// An upper bound of two labels: both may flow to it.
    fn lub(self, rhs: Self) -> (r: Self)
        ensures
            Self::flows_to(&self, &r),
            Self::flows_to(&rhs, &r),
    ;

    /// A lower bound of two labels: it may flow to both.
    fn glb(self, rhs: Self) -> (r: Self)
        ensures
            Self::flows_to(&r, &self),
            Self::flows_to(&r, &rhs),
    ;

    /// Whether information may flow from this label to `rhs`.
    fn can_flow_to(&self, rhs: &Self) -> (r: bool)
        ensures
            r == Self::flows_to(self, rhs),
    ;
}

/// Labels that a privilege can relax.
pub trait HasPrivilege: Sized {
    /// The proof of authority that relaxes a label.
    type Privilege;

    /// Information may flow from `a` to `b` once the privilege `p` is used.
    spec fn flows_with(a: &Self, b: &Self, p: &Self::Privilege) -> bool;

    /// Declassifies and endorses the label with the privilege.
    fn downgrade(self, privilege: &Self::Privilege) -> Self;

    /// Relabels to `target` where the privilege allows it, and otherwise
    /// returns the label unchanged.
    fn downgrade_to(self, target: Self, privilege: &Self::Privilege) -> (r: Self)
        ensures
            Self::flows_with(&self, &target, privilege) ==> r == target,
            !Self::flows_with(&self, &target, privilege) ==> r == self,
    ;

    /// Whether information may flow to `rhs` once the privilege is used.
    fn can_flow_to_with_privilege(&self, rhs: &Self, privilege: &Self::Privilege) -> (r: bool)
        ensures
            r == Self::flows_with(self, rhs, privilege),
    ;
}

} // verus!
