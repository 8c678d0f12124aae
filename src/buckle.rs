//! Buckle labels: a secrecy and an integrity component over principal chains.

use vstd::prelude::*;

use crate::component::{
    clause_set, cnf_and, cnf_implies, cnf_or, is_reduction, retain_unvouched, unvouched, Cnf,
    Component, IntoComponent,
};
use crate::laws::{lemma_glb_lower_bound, lemma_lub_upper_bound};
use crate::{HasPrivilege, Label};

verus! {

/// What a label stands for: its two components.
pub struct LabelModel {
    pub secrecy: Cnf,
    pub integrity: Cnf,
}

/// Information may flow from `a` to `b`: the secrecy of `b` implies that of
/// `a`, and the integrity of `a` implies that of `b`.
pub open spec fn flows(a: LabelModel, b: LabelModel) -> bool {
    cnf_implies(b.secrecy, a.secrecy) && cnf_implies(a.integrity, b.integrity)
}

/// Information may flow from `a` to `b` when the privilege `p` is added to
/// both proof obligations.
pub open spec fn flows_with_privilege(a: LabelModel, b: LabelModel, p: Cnf) -> bool {
    cnf_implies(cnf_and(b.secrecy, p), a.secrecy) && cnf_implies(cnf_and(a.integrity, p), b.integrity)
}

/// `r` is the join of `a` and `b`: the conjunction of the secrecies and the
/// disjunction of the integrities, each reduced.
pub open spec fn is_lub(a: LabelModel, b: LabelModel, r: LabelModel) -> bool {
    is_reduction(cnf_and(a.secrecy, b.secrecy), r.secrecy)
        && is_reduction(cnf_or(a.integrity, b.integrity), r.integrity)
}

/// `r` is the meet of `a` and `b`: the disjunction of the secrecies and the
/// conjunction of the integrities, each reduced.
pub open spec fn is_glb(a: LabelModel, b: LabelModel, r: LabelModel) -> bool {
    is_reduction(cnf_or(a.secrecy, b.secrecy), r.secrecy)
        && is_reduction(cnf_and(a.integrity, b.integrity), r.integrity)
}

/// The label `l` with its integrity strengthened by the privilege `p`.
pub open spec fn endorsed(l: LabelModel, p: Cnf) -> LabelModel {
    LabelModel { secrecy: l.secrecy, integrity: cnf_and(p, l.integrity) }
}

/// The secrecy `s` declassified by the privilege `p`: a false privilege
/// declassifies everything, a false secrecy is kept, and otherwise the clauses
/// that some clause of the privilege implies are dropped.
pub open spec fn declassified(s: Cnf, p: Cnf) -> Cnf {
    match p {
        Cnf::Unsat => Cnf::Conj(Set::empty()),
        Cnf::Conj(ps) => match s {
            Cnf::Unsat => Cnf::Unsat,
            Cnf::Conj(ss) => Cnf::Conj(unvouched(ss, ps)),
        },
    }
}

/// The label `l` downgraded by the privilege `p`.
pub open spec fn downgraded(l: LabelModel, p: Cnf) -> LabelModel {
    LabelModel { secrecy: declassified(l.secrecy, p), integrity: cnf_and(p, l.integrity) }
}

/// The label with no secrecy and no integrity.
pub open spec fn public_model() -> LabelModel {
    LabelModel { secrecy: Cnf::Conj(Set::empty()), integrity: Cnf::Conj(Set::empty()) }
}

/// The most secret, least trusted label.
pub open spec fn top_model() -> LabelModel {
    LabelModel { secrecy: Cnf::Unsat, integrity: Cnf::Conj(Set::empty()) }
}

/// The least secret, most trusted label.
pub open spec fn bottom_model() -> LabelModel {
    LabelModel { secrecy: Cnf::Conj(Set::empty()), integrity: Cnf::Unsat }
}

/// A label: the principals that may observe data (secrecy) and those that
/// vouch for it (integrity).
#[derive(Debug)]
pub struct Buckle {
    pub secrecy: Component,
    pub integrity: Component,
}

/// Labels over flat principals: their chains have one token each, and on
/// such chains authorization is equality.
pub type DCLabel = Buckle;

impl View for Buckle {
    type V = LabelModel;

    open spec fn view(&self) -> LabelModel {
        LabelModel { secrecy: self.secrecy@, integrity: self.integrity@ }
    }
}

impl Buckle {
    /// The label with the given components, each reduced.
    pub fn new<S: IntoComponent, I: IntoComponent>(secrecy: S, integrity: I) -> (r: Buckle)
        ensures
            is_reduction(secrecy.component_model(), r.secrecy@),
            is_reduction(integrity.component_model(), r.integrity@),
    {
        let mut secrecy = secrecy.into_component();
        let mut integrity = integrity.into_component();
        secrecy.reduce();
        integrity.reduce();
        Buckle { secrecy, integrity }
    }

    /// The label `(true, true)`.
    pub fn public() -> (r: Buckle)
        ensures
            r@ == public_model(),
    {
        Buckle { secrecy: Component::dc_true(), integrity: Component::dc_true() }
    }

    /// The label `(false, true)`: nothing flows out of it but to itself.
    pub fn top() -> (r: Buckle)
        ensures
            r@ == top_model(),
    {
        Buckle { secrecy: Component::dc_false(), integrity: Component::dc_true() }
    }

    /// The label `(true, false)`: it flows to every label.
    pub fn bottom() -> (r: Buckle)
        ensures
            r@ == bottom_model(),
    {
        Buckle { secrecy: Component::dc_true(), integrity: Component::dc_false() }
    }

    /// Reduces both components.
    pub fn reduce(&mut self)
        ensures
            is_reduction(old(self).secrecy@, final(self).secrecy@),
            is_reduction(old(self).integrity@, final(self).integrity@),
    {
        self.secrecy.reduce();
        self.integrity.reduce();
    }

    /// Strengthens the integrity with the privilege's clauses; the secrecy
    /// stays as it is.
    pub fn endorse(self, privilege: &Component) -> (r: Buckle)
        ensures
            r@ == endorsed(self@, privilege@),
    {
        let Buckle { secrecy, integrity } = self;
        Buckle { secrecy, integrity: privilege.clone() & integrity }
    }
}

impl Label for Buckle {
    open spec fn flows_to(a: &Buckle, b: &Buckle) -> bool {
        flows(a@, b@)
    }

    /// The join: the conjunction of the secrecies and the disjunction of the
    /// integrities, reduced.
    fn lub(self, rhs: Buckle) -> (r: Buckle)
        ensures
            is_lub(self@, rhs@, r@),
    {
        let mut res = Buckle {
            secrecy: self.secrecy & rhs.secrecy,
            integrity: self.integrity | rhs.integrity,
        };
        res.reduce();
        proof {
            lemma_lub_upper_bound(self@, rhs@, res@);
        }
        res
    }

    /// The meet: the disjunction of the secrecies and the conjunction of the
    /// integrities, reduced.
    fn glb(self, rhs: Buckle) -> (r: Buckle)
        ensures
            is_glb(self@, rhs@, r@),
    {
        let mut res = Buckle {
            secrecy: self.secrecy | rhs.secrecy,
            integrity: self.integrity & rhs.integrity,
        };
        res.reduce();
        proof {
            lemma_glb_lower_bound(self@, rhs@, res@);
        }
        res
    }

    /// Whether information may flow from this label to `rhs`.
    fn can_flow_to(&self, rhs: &Buckle) -> bool
    {
        rhs.secrecy.implies(&self.secrecy) && self.integrity.implies(&rhs.integrity)
    }
}

impl HasPrivilege for Buckle {
    type Privilege = Component;

    open spec fn flows_with(a: &Buckle, b: &Buckle, p: &Component) -> bool {
        flows_with_privilege(a@, b@, p@)
    }

    /// Declassifies the secrecy by the privilege and endorses the integrity
    /// with it.
    fn downgrade(self, privilege: &Component) -> (r: Buckle)
        ensures
            r@ == downgraded(self@, privilege@),
    {
        let Buckle { secrecy, integrity } = self;
        let secrecy = match privilege {
            Component::DCFalse => Component::dc_true(),
            Component::DCFormula(p) => match secrecy {
                Component::DCFalse => Component::DCFalse,
                Component::DCFormula(sec) => Component::DCFormula(retain_unvouched(&sec, p)),
            },
        };
        Buckle { secrecy, integrity: privilege.clone() & integrity }
    }

    /// `target` when information may flow to it with the privilege, and this
    /// label unchanged otherwise.
    fn downgrade_to(self, target: Buckle, privilege: &Component) -> Buckle
    {
        if self.can_flow_to_with_privilege(&target, privilege) {
            target
        } else {
            self
        }
    }

    /// Whether information may flow from this label to `rhs` once the
    /// privilege is added to both proof obligations.
    fn can_flow_to_with_privilege(&self, rhs: &Buckle, privilege: &Component) -> bool
    {
        (rhs.secrecy.clone() & privilege.clone()).implies(&self.secrecy)
            && (self.integrity.clone() & privilege.clone()).implies(&rhs.integrity)
    }
}

impl Clone for Buckle {
    fn clone(&self) -> (r: Buckle)
        ensures
            r@ == self@,
    {
        Buckle { secrecy: self.secrecy.clone(), integrity: self.integrity.clone() }
    }
}

impl PartialEq for Buckle {
    /// Two labels are equal when their components are.
    fn eq(&self, other: &Buckle) -> (r: bool)
        ensures
            r == (self@ == other@),
    {
        self.secrecy == other.secrecy && self.integrity == other.integrity
    }
}

impl vstd::std_specs::cmp::PartialEqSpecImpl for Buckle {
    open spec fn obeys_eq_spec() -> bool {
        true
    }

    open spec fn eq_spec(&self, other: &Buckle) -> bool {
        self@ == other@
    }
}

impl Eq for Buckle {
}

} // verus!
