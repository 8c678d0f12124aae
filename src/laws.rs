//! Algebraic laws of components and labels.

use vstd::prelude::*;

use crate::buckle::{
    bottom_model, endorsed, flows, flows_with_privilege, is_glb, is_lub, top_model, LabelModel,
};
use crate::clause::{
    clause_implies, lemma_clause_implies_reflexive, lemma_clause_implies_superset,
    lemma_clause_implies_transitive, ClauseModel,
};
use crate::component::{
    antichain, clauses_imply, cnf_and, cnf_implies, cnf_or, is_reduction, pairwise_unions, Cnf,
};

verus! {

/// Every component implies itself.
pub proof fn lemma_component_implies_itself(x: Cnf)
    ensures
        cnf_implies(x, x),
{
    if let Cnf::Conj(s) = x {
        assert forall|c: ClauseModel| #[trigger] s.contains(c) implies exists|k: ClauseModel|
            s.contains(k) && clause_implies(k, c) by {
            lemma_clause_implies_reflexive(c);
        }
    }
}

/// Every label may flow to itself.
pub proof fn lemma_label_flows_to_itself(l: LabelModel)
    ensures
        flows(l, l),
{
    lemma_component_implies_itself(l.secrecy);
    lemma_component_implies_itself(l.integrity);
}

/// False implies every component, and only false implies false.
pub proof fn lemma_false_absorbs(x: Cnf)
    ensures
        cnf_implies(Cnf::Unsat, x),
        cnf_implies(x, Cnf::Unsat) <==> x == Cnf::Unsat,
{
}

/// Implication between components is transitive.
pub proof fn lemma_component_implies_transitive(x: Cnf, y: Cnf, z: Cnf)
    requires
        cnf_implies(x, y),
        cnf_implies(y, z),
    ensures
        cnf_implies(x, z),
{
    if let (Cnf::Conj(xs), Cnf::Conj(ys), Cnf::Conj(zs)) = (x, y, z) {
        assert forall|c: ClauseModel| #[trigger] zs.contains(c) implies exists|a: ClauseModel|
            xs.contains(a) && clause_implies(a, c) by {
            let b = choose|b: ClauseModel| ys.contains(b) && clause_implies(b, c);
            let a = choose|a: ClauseModel| xs.contains(a) && clause_implies(a, b);
            lemma_clause_implies_transitive(a, b, c);
        }
    }
}

/// A reduced component implies, and is implied by, the component it was
/// reduced from.
pub proof fn lemma_reduction_equivalent(x: Cnf, y: Cnf)
    requires
        is_reduction(x, y),
    ensures
        cnf_implies(x, y),
        cnf_implies(y, x),
{
    if let (Cnf::Conj(s), Cnf::Conj(r)) = (x, y) {
        assert forall|c: ClauseModel| #[trigger] r.contains(c) implies exists|k: ClauseModel|
            s.contains(k) && clause_implies(k, c) by {
            lemma_clause_implies_reflexive(c);
        }
        assert(clauses_imply(r, s));
    }
}

/// Reducing a reduced component changes nothing, and no clause of a reduced
/// component implies another one.
pub proof fn lemma_reduce_idempotent(x: Cnf, y: Cnf, z: Cnf)
    requires
        is_reduction(x, y),
        is_reduction(y, z),
    ensures
        z == y,
        y is Conj ==> antichain(y->Conj_0),
{
    if let (Cnf::Conj(r), Cnf::Conj(t)) = (y, z) {
        assert forall|c: ClauseModel| r.contains(c) implies t.contains(c) by {
            let k = choose|k: ClauseModel| t.contains(k) && clause_implies(k, c);
            assert(r.contains(k));
            assert(k == c);
        }
        assert(t =~= r);
    }
}

/// A conjunction implies each of its two sides.
pub proof fn lemma_conjunction_implies_sides(a: Cnf, b: Cnf)
    ensures
        cnf_implies(cnf_and(a, b), a),
        cnf_implies(cnf_and(a, b), b),
{
    if let (Cnf::Conj(s), Cnf::Conj(o)) = (a, b) {
        let u = s.union(o);
        assert forall|c: ClauseModel| #[trigger] s.contains(c) implies exists|k: ClauseModel|
            u.contains(k) && clause_implies(k, c) by {
            lemma_clause_implies_reflexive(c);
        }
        assert forall|c: ClauseModel| #[trigger] o.contains(c) implies exists|k: ClauseModel|
            u.contains(k) && clause_implies(k, c) by {
            lemma_clause_implies_reflexive(c);
        }
        assert(clauses_imply(u, s));
        assert(clauses_imply(u, o));
    }
}

/// Each side of a disjunction implies it.
pub proof fn lemma_sides_imply_disjunction(a: Cnf, b: Cnf)
    ensures
        cnf_implies(a, cnf_or(a, b)),
        cnf_implies(b, cnf_or(a, b)),
{
    lemma_component_implies_itself(a);
    lemma_component_implies_itself(b);
    if let (Cnf::Conj(s), Cnf::Conj(o)) = (a, b) {
        if !s.is_empty() && !o.is_empty() {
            let p = pairwise_unions(s, o);
            assert forall|c: ClauseModel| #[trigger] p.contains(c) implies exists|k: ClauseModel|
                s.contains(k) && clause_implies(k, c) by {
                let (x, y) = choose|x: ClauseModel, y: ClauseModel| s.contains(x) && o.contains(y) && c == x.union(y);
                lemma_clause_implies_superset(x, c);
            }
            assert forall|c: ClauseModel| #[trigger] p.contains(c) implies exists|k: ClauseModel|
                o.contains(k) && clause_implies(k, c) by {
                let (x, y) = choose|x: ClauseModel, y: ClauseModel| s.contains(x) && o.contains(y) && c == x.union(y);
                lemma_clause_implies_superset(y, c);
            }
            assert(clauses_imply(s, p));
            assert(clauses_imply(o, p));
        }
    }
}

/// The bottom label flows to every label, and every label flows to the top.
pub proof fn lemma_bottom_and_top(x: LabelModel)
    ensures
        flows(bottom_model(), x),
        flows(x, top_model()),
{
}

/// Both labels flow to their join.
pub proof fn lemma_lub_upper_bound(a: LabelModel, b: LabelModel, r: LabelModel)
    requires
        is_lub(a, b, r),
    ensures
        flows(a, r),
        flows(b, r),
{
    let s = cnf_and(a.secrecy, b.secrecy);
    let i = cnf_or(a.integrity, b.integrity);
    lemma_reduction_equivalent(s, r.secrecy);
    lemma_reduction_equivalent(i, r.integrity);
    lemma_conjunction_implies_sides(a.secrecy, b.secrecy);
    lemma_sides_imply_disjunction(a.integrity, b.integrity);
    lemma_component_implies_transitive(r.secrecy, s, a.secrecy);
    lemma_component_implies_transitive(r.secrecy, s, b.secrecy);
    lemma_component_implies_transitive(a.integrity, i, r.integrity);
    lemma_component_implies_transitive(b.integrity, i, r.integrity);
}

/// The meet of two labels flows to both.
pub proof fn lemma_glb_lower_bound(a: LabelModel, b: LabelModel, r: LabelModel)
    requires
        is_glb(a, b, r),
    ensures
        flows(r, a),
        flows(r, b),
{
    let s = cnf_or(a.secrecy, b.secrecy);
    let i = cnf_and(a.integrity, b.integrity);
    lemma_reduction_equivalent(s, r.secrecy);
    lemma_reduction_equivalent(i, r.integrity);
    lemma_sides_imply_disjunction(a.secrecy, b.secrecy);
    lemma_conjunction_implies_sides(a.integrity, b.integrity);
    lemma_component_implies_transitive(a.secrecy, s, r.secrecy);
    lemma_component_implies_transitive(b.secrecy, s, r.secrecy);
    lemma_component_implies_transitive(r.integrity, i, a.integrity);
    lemma_component_implies_transitive(r.integrity, i, b.integrity);
}

/// Downgrading a label to itself with its integrity strengthened by the
/// privilege is allowed, and gives the label endorsed by the privilege.
pub proof fn lemma_endorse_is_downgrade_to(l: LabelModel, p: Cnf)
    ensures
        flows_with_privilege(l, (LabelModel { secrecy: l.secrecy, integrity: cnf_and(l.integrity, p) }), p),
        (LabelModel { secrecy: l.secrecy, integrity: cnf_and(l.integrity, p) }) == endorsed(l, p),
{
    lemma_conjunction_implies_sides(l.secrecy, p);
    lemma_component_implies_itself(cnf_and(l.integrity, p));
    if let (Cnf::Conj(s), Cnf::Conj(o)) = (l.integrity, p) {
        assert(s.union(o) =~= o.union(s));
    }
}

} // verus!
