//! Components: conjunctions of clauses, or the constant false.

use vstd::prelude::*;

use crate::clause::{
    IntoClause,
    clause_implies, lemma_clause_implies_reflexive, lemma_clause_implies_transitive, Clause,
    ClauseModel,
};

verus! {

/// What a component stands for: the constant false, or the conjunction of a
/// set of clauses (the empty set being the constant true).
pub enum Cnf {
    Unsat,
    Conj(Set<ClauseModel>),
}

/// The set of clauses held in a sequence of clauses.
pub open spec fn clause_set(v: Seq<Clause>) -> Set<ClauseModel> {
    Set::new(|m: ClauseModel| exists|i: int| 0 <= i < v.len() && #[trigger] v[i]@ == m)
}

/// Each clause of `o` is implied by some clause of `s`.
pub open spec fn clauses_imply(s: Set<ClauseModel>, o: Set<ClauseModel>) -> bool {
    forall|oc: ClauseModel| #[trigger] o.contains(oc) ==> exists|sc: ClauseModel| s.contains(sc) && clause_implies(sc, oc)
}

/// Component `a` implies component `b`: false implies everything, nothing
/// but false implies false, and otherwise each clause of `b` is implied by
/// some clause of `a`.
pub open spec fn cnf_implies(a: Cnf, b: Cnf) -> bool {
    match a {
        Cnf::Unsat => true,
        Cnf::Conj(s) => match b {
            Cnf::Unsat => false,
            Cnf::Conj(o) => clauses_imply(s, o),
        },
    }
}

/// Conjunction: false absorbs, otherwise the clauses of both.
pub open spec fn cnf_and(a: Cnf, b: Cnf) -> Cnf {
    match (a, b) {
        (Cnf::Conj(s), Cnf::Conj(o)) => Cnf::Conj(s.union(o)),
        _ => Cnf::Unsat,
    }
}

/// The clauses made of one clause of `s` and one clause of `o` together.
pub open spec fn pairwise_unions(s: Set<ClauseModel>, o: Set<ClauseModel>) -> Set<ClauseModel> {
    Set::new(|c: ClauseModel| exists|x: ClauseModel, y: ClauseModel| s.contains(x) && o.contains(y) && c == x.union(y))
}

/// Disjunction: false is the identity, the constant true absorbs, and
/// otherwise the disjunction distributes over the clauses of both sides.
pub open spec fn cnf_or(a: Cnf, b: Cnf) -> Cnf {
    match (a, b) {
        (_, Cnf::Unsat) => a,
        (Cnf::Unsat, _) => b,
        (Cnf::Conj(s), Cnf::Conj(o)) => if s.is_empty() || o.is_empty() {
            Cnf::Conj(Set::empty())
        } else {
            Cnf::Conj(pairwise_unions(s, o))
        },
    }
}

/// Some clause of `ps` implies `c`.
pub open spec fn vouched(ps: Set<ClauseModel>, c: ClauseModel) -> bool {
    exists|pc: ClauseModel| ps.contains(pc) && clause_implies(pc, c)
}

/// The clauses of `s` that no clause of `ps` implies.
pub open spec fn unvouched(s: Set<ClauseModel>, ps: Set<ClauseModel>) -> Set<ClauseModel> {
    s.filter(|c: ClauseModel| !vouched(ps, c))
}

/// No clause of `s` implies another one.
pub open spec fn antichain(s: Set<ClauseModel>) -> bool {
    forall|a: ClauseModel, b: ClauseModel|
        s.contains(a) && s.contains(b) && a != b ==> !#[trigger] clause_implies(a, b)
}

/// `y` is `x` with its redundant clauses taken out: false stays false, and
/// otherwise `y` keeps clauses of `x`, none of which implies another, such that
/// every clause of `x` is implied by one that was kept.
pub open spec fn is_reduction(x: Cnf, y: Cnf) -> bool {
    match x {
        Cnf::Unsat => y == Cnf::Unsat,
        Cnf::Conj(s) => match y {
            Cnf::Unsat => false,
            Cnf::Conj(r) => r.subset_of(s) && antichain(r) && clauses_imply(r, s),
        },
    }
}

/// A component: the constant false, or a conjunction of clauses. Order and
/// repetition of the clauses do not matter.
#[derive(Debug)]
pub enum Component {
    DCFalse,
    DCFormula(Vec<Clause>),
}

impl View for Component {
    type V = Cnf;

    open spec fn view(&self) -> Cnf {
        match self {
            Component::DCFalse => Cnf::Unsat,
            Component::DCFormula(v) => Cnf::Conj(clause_set(v@)),
        }
    }
}

/// Whether some clause of `s` implies `c`.
pub(crate) fn some_implies(s: &Vec<Clause>, c: &Clause) -> (r: bool)
    ensures
        r == exists|k: ClauseModel| clause_set(s@).contains(k) && clause_implies(k, c@),
        r == exists|p: int| 0 <= p < s@.len() && clause_implies(#[trigger] s@[p]@, c@),
{
    let mut p: usize = 0;
    while p < s.len()
        invariant
            p <= s.len(),
            forall|q: int| 0 <= q < p ==> !clause_implies(#[trigger] s@[q]@, c@),
        decreases s.len() - p,
    {
        if s[p].implies(c) {
            assert(clause_set(s@).contains(s@[p as int]@));
            return true;
        }
        p = p + 1;
    }
    false
}

/// The clauses of `kept` that `c` does not imply.
fn not_implied_by(kept: &Vec<Clause>, c: &Clause) -> (next: Vec<Clause>)
    requires
        forall|p1: int, q1: int|
            0 <= p1 < kept@.len() && 0 <= q1 < kept@.len() && p1 != q1
                ==> !clause_implies(#[trigger] kept@[p1]@, #[trigger] kept@[q1]@),
    ensures
        forall|q: int| 0 <= q < next@.len() ==> !clause_implies(c@, #[trigger] next@[q]@),
        clause_set(next@).subset_of(clause_set(kept@)),
        forall|t: int| 0 <= t < kept@.len() && !clause_implies(c@, #[trigger] kept@[t]@)
            ==> clause_set(next@).contains(kept@[t]@),
        forall|q1: int, q2: int|
            0 <= q1 < next@.len() && 0 <= q2 < next@.len() && q1 != q2
                ==> !clause_implies(#[trigger] next@[q1]@, #[trigger] next@[q2]@),
{
    let mut next: Vec<Clause> = Vec::new();
    let ghost mut idx: Seq<int> = Seq::empty();
    let mut p: usize = 0;
    while p < kept.len()
        invariant
            p <= kept.len(),
            idx.len() == next@.len(),
            forall|q: int| 0 <= q < next@.len() ==> 0 <= #[trigger] idx[q] < p,
            forall|q: int| 0 <= q < next@.len() ==> #[trigger] next@[q]@ == kept@[idx[q]]@,
            forall|q1: int, q2: int| 0 <= q1 < q2 < next@.len() ==> #[trigger] idx[q1] < #[trigger] idx[q2],
            forall|q: int| 0 <= q < next@.len() ==> !clause_implies(c@, #[trigger] next@[q]@),
            forall|t: int| 0 <= t < p && !clause_implies(c@, #[trigger] kept@[t]@) ==> idx.contains(t),
        decreases kept.len() - p,
    {
        if !c.implies(&kept[p]) {
            next.push(kept[p].clone());
            proof {
                let ghost old_idx = idx;
                idx = idx.push(p as int);
                assert(idx[idx.len() - 1] == p as int);
                assert forall|t: int| 0 <= t < p && old_idx.contains(t) implies idx.contains(t) by {
                    let q = choose|q: int| 0 <= q < old_idx.len() && old_idx[q] == t;
                    assert(idx[q] == t);
                }
            }
        }
        p = p + 1;
    }
    proof {
        assert forall|m: ClauseModel| clause_set(next@).contains(m) implies clause_set(kept@).contains(m) by {
            let q = choose|q: int| 0 <= q < next@.len() && next@[q]@ == m;
            assert(0 <= idx[q] < kept@.len());
            assert(kept@[idx[q]]@ == m);
        }
        assert forall|t: int| 0 <= t < kept@.len() && !clause_implies(c@, #[trigger] kept@[t]@)
            implies clause_set(next@).contains(kept@[t]@) by {
            let q = choose|q: int| 0 <= q < idx.len() && idx[q] == t;
            assert(next@[q]@ == kept@[t]@);
        }
        assert forall|q1: int, q2: int|
            0 <= q1 < next@.len() && 0 <= q2 < next@.len() && q1 != q2
                implies !clause_implies(#[trigger] next@[q1]@, #[trigger] next@[q2]@) by {
            if q1 < q2 {
                assert(idx[q1] < idx[q2]);
            } else {
                assert(idx[q2] < idx[q1]);
            }
            assert(!clause_implies(kept@[idx[q1]]@, kept@[idx[q2]]@));
        }
    }
    next
}

/// The clauses of `s` that no clause of `p` implies.
pub(crate) fn retain_unvouched(s: &Vec<Clause>, p: &Vec<Clause>) -> (r: Vec<Clause>)
    ensures
        clause_set(r@) == unvouched(clause_set(s@), clause_set(p@)),
{
    let mut r: Vec<Clause> = Vec::new();
    let mut i: usize = 0;
    while i < s.len()
        invariant
            i <= s.len(),
            forall|q: int| 0 <= q < r@.len() ==> unvouched(clause_set(s@), clause_set(p@)).contains(#[trigger] r@[q]@),
            forall|k: int| 0 <= k < i && !vouched(clause_set(p@), #[trigger] s@[k]@) ==> clause_set(r@).contains(s@[k]@),
        decreases s.len() - i,
    {
        if !some_implies(p, &s[i]) {
            assert(clause_set(s@).contains(s@[i as int]@));
            let ghost before = r@;
            r.push(s[i].clone());
            proof {
                assert forall|k: int| 0 <= k <= i && !vouched(clause_set(p@), #[trigger] s@[k]@) implies
                    clause_set(r@).contains(s@[k]@) by {
                    if k < i {
                        let q = choose|q: int| 0 <= q < before.len() && before[q]@ == s@[k]@;
                        assert(r@[q] == before[q]);
                    } else {
                        assert(r@[r@.len() - 1]@ == s@[k]@);
                    }
                }
                assert forall|q: int| 0 <= q < r@.len() implies unvouched(clause_set(s@), clause_set(p@)).contains(#[trigger] r@[q]@) by {
                    if q < before.len() {
                        assert(r@[q] == before[q]);
                    }
                }
            }
        }
        i = i + 1;
    }
    let ghost u = unvouched(clause_set(s@), clause_set(p@));
    assert forall|m: ClauseModel| clause_set(r@).contains(m) implies u.contains(m) by {
        let q = choose|q: int| 0 <= q < r@.len() && r@[q]@ == m;
    }
    assert forall|m: ClauseModel| u.contains(m) implies clause_set(r@).contains(m) by {
        let k = choose|k: int| 0 <= k < s@.len() && s@[k]@ == m;
    }
    assert(clause_set(r@) =~= u);
    r
}

/// The clauses of `v` with the redundant ones taken out.
fn minimal_clauses(v: &Vec<Clause>) -> (r: Vec<Clause>)
    ensures
        is_reduction(Cnf::Conj(clause_set(v@)), Cnf::Conj(clause_set(r@))),
{
    let mut kept: Vec<Clause> = Vec::new();
    let mut i: usize = 0;
    while i < v.len()
        invariant
            i <= v.len(),
            clause_set(kept@).subset_of(clause_set(v@)),
            forall|p: int, q: int|
                0 <= p < kept@.len() && 0 <= q < kept@.len() && p != q
                    ==> !clause_implies(#[trigger] kept@[p]@, #[trigger] kept@[q]@),
            forall|j: int| 0 <= j < i ==> exists|p: int|
                0 <= p < kept@.len() && clause_implies(#[trigger] kept@[p]@, #[trigger] v@[j]@),
        decreases v.len() - i,
    {
        let c = &v[i];
        if !some_implies(&kept, c) {
            let mut next = not_implied_by(&kept, c);
            let ghost before = next@;
            next.push(c.clone());
            proof {
                assert(forall|q: int| 0 <= q < before.len() ==> next@[q] == before[q]);
                assert forall|j: int| 0 <= j <= i implies exists|q: int|
                    0 <= q < next@.len() && clause_implies(#[trigger] next@[q]@, #[trigger] v@[j]@) by {
                    if j == i {
                        lemma_clause_implies_reflexive(c@);
                        assert(clause_implies(next@[next@.len() - 1]@, v@[j]@));
                    } else {
                        let t = choose|t: int| 0 <= t < kept@.len() && clause_implies(kept@[t]@, v@[j]@);
                        if clause_implies(c@, kept@[t]@) {
                            lemma_clause_implies_transitive(c@, kept@[t]@, v@[j]@);
                            assert(clause_implies(next@[next@.len() - 1]@, v@[j]@));
                        } else {
                            assert(clause_set(before).contains(kept@[t]@));
                            let q = choose|q: int| 0 <= q < before.len() && before[q]@ == kept@[t]@;
                            assert(next@[q]@ == kept@[t]@);
                            assert(clause_implies(next@[q]@, v@[j]@));
                        }
                    }
                }
                assert forall|m: ClauseModel| clause_set(next@).contains(m) implies clause_set(v@).contains(m) by {
                    let q = choose|q: int| 0 <= q < next@.len() && next@[q]@ == m;
                    if q < before.len() {
                        assert(clause_set(before).contains(m));
                        assert(clause_set(kept@).contains(m));
                    }
                }
            }
            kept = next;
        } else {
            proof {
                let p = choose|p: int| 0 <= p < kept@.len() && clause_implies(kept@[p]@, c@);
                assert(clause_implies(kept@[p]@, v@[i as int]@));
            }
        }
        i = i + 1;
    }
    proof {
        let s = clause_set(v@);
        let r = clause_set(kept@);
        assert forall|a: ClauseModel, b: ClauseModel|
            r.contains(a) && r.contains(b) && a != b implies !#[trigger] clause_implies(a, b) by {
            let p = choose|p: int| 0 <= p < kept@.len() && kept@[p]@ == a;
            let q = choose|q: int| 0 <= q < kept@.len() && kept@[q]@ == b;
            assert(!clause_implies(kept@[p]@, kept@[q]@));
        }
        assert forall|c: ClauseModel| #[trigger] s.contains(c) implies exists|k: ClauseModel|
            r.contains(k) && clause_implies(k, c) by {
            let j = choose|j: int| 0 <= j < v@.len() && v@[j]@ == c;
            let p = choose|p: int| 0 <= p < kept@.len() && clause_implies(kept@[p]@, v@[j]@);
            assert(r.contains(kept@[p]@));
        }
    }
    kept
}

/// The clauses that a sequence of clause descriptions stands for.
pub open spec fn clause_models<C: IntoClause>(cs: Seq<C>) -> Set<ClauseModel> {
    Set::new(|m: ClauseModel| exists|i: int| 0 <= i < cs.len() && m == #[trigger] cs[i].clause_model())
}

/// The clauses of two sequences together.
proof fn lemma_clause_set_concat(a: Seq<Clause>, b: Seq<Clause>)
    ensures
        clause_set(a + b) == clause_set(a).union(clause_set(b)),
{
    let ab = a + b;
    assert forall|m: ClauseModel| clause_set(ab).contains(m) implies clause_set(a).union(clause_set(b)).contains(m) by {
        let k = choose|k: int| 0 <= k < ab.len() && ab[k]@ == m;
        if k < a.len() {
            assert(a[k]@ == m);
        } else {
            assert(b[k - a.len()]@ == m);
        }
    }
    assert forall|m: ClauseModel| clause_set(a).union(clause_set(b)).contains(m) implies clause_set(ab).contains(m) by {
        if clause_set(a).contains(m) {
            let k = choose|k: int| 0 <= k < a.len() && a[k]@ == m;
            assert(ab[k]@ == m);
        } else {
            let k = choose|k: int| 0 <= k < b.len() && b[k]@ == m;
            assert(ab[a.len() + k]@ == m);
        }
    }
    assert(clause_set(ab) =~= clause_set(a).union(clause_set(b)));
}

/// Whether every clause of `a` also stands in `b`.
fn clauses_within(a: &Vec<Clause>, b: &Vec<Clause>) -> (r: bool)
    ensures
        r == clause_set(a@).subset_of(clause_set(b@)),
{
    let mut i: usize = 0;
    while i < a.len()
        invariant
            i <= a.len(),
            forall|k: int| 0 <= k < i ==> clause_set(b@).contains(#[trigger] a@[k]@),
        decreases a.len() - i,
    {
        let mut j: usize = 0;
        let mut found = false;
        while j < b.len() && !found
            invariant
                i < a.len(),
                j <= b.len(),
                found ==> clause_set(b@).contains(a@[i as int]@),
                !found ==> forall|k: int| 0 <= k < j ==> b@[k]@ != a@[i as int]@,
            decreases b.len() - j,
        {
            if a[i] == b[j] {
                found = true;
            }
            j = j + 1;
        }
        if !found {
            assert(clause_set(a@).contains(a@[i as int]@));
            return false;
        }
        i = i + 1;
    }
    true
}

/// Copies of the clauses of `v`.
fn copy_clauses(v: &Vec<Clause>) -> (r: Vec<Clause>)
    ensures
        clause_set(r@) == clause_set(v@),
{
    let mut r: Vec<Clause> = Vec::new();
    let mut i: usize = 0;
    while i < v.len()
        invariant
            i <= v.len(),
            r@.len() == i,
            forall|k: int| 0 <= k < i ==> #[trigger] r@[k]@ == v@[k]@,
        decreases v.len() - i,
    {
        r.push(v[i].clone());
        i = i + 1;
    }
    assert forall|m: ClauseModel| clause_set(r@).contains(m) implies clause_set(v@).contains(m) by {
        let k = choose|k: int| 0 <= k < r@.len() && r@[k]@ == m;
        assert(v@[k]@ == m);
    }
    assert forall|m: ClauseModel| clause_set(v@).contains(m) implies clause_set(r@).contains(m) by {
        let k = choose|k: int| 0 <= k < v@.len() && v@[k]@ == m;
        assert(r@[k]@ == m);
    }
    assert(clause_set(r@) =~= clause_set(v@));
    r
}

/// Appends to `r` the clause `x` joined with each clause of `o`.
fn push_unions(r: &mut Vec<Clause>, x: &Clause, o: &Vec<Clause>)
    ensures
        final(r)@.len() == old(r)@.len() + o@.len(),
        forall|q: int| 0 <= q < old(r)@.len() ==> #[trigger] final(r)@[q] == old(r)@[q],
        forall|b: int| 0 <= b < o@.len() ==> #[trigger] final(r)@[old(r)@.len() + b]@ == x@.union(o@[b]@),
{
    let ghost start = r@;
    let mut j: usize = 0;
    while j < o.len()
        invariant
            j <= o.len(),
            r@.len() == start.len() + j,
            forall|q: int| 0 <= q < start.len() ==> #[trigger] r@[q] == start[q],
            forall|b: int| 0 <= b < j ==> #[trigger] r@[start.len() + b]@ == x@.union(o@[b]@),
        decreases o.len() - j,
    {
        r.push(x.union_with(&o[j]));
        j = j + 1;
    }
}

/// Each clause of `s` joined with each clause of `o`.
fn distribute(s: &Vec<Clause>, o: &Vec<Clause>) -> (r: Vec<Clause>)
    ensures
        clause_set(r@) == pairwise_unions(clause_set(s@), clause_set(o@)),
{
    let mut r: Vec<Clause> = Vec::new();
    let ghost mut src: Seq<(int, int)> = Seq::empty();
    let mut i: usize = 0;
    while i < s.len()
        invariant
            i <= s.len(),
            src.len() == r@.len(),
            forall|q: int| 0 <= q < r@.len() ==> {
                let (a, b) = #[trigger] src[q];
                &&& 0 <= a < s@.len()
                &&& 0 <= b < o@.len()
                &&& r@[q]@ == s@[a]@.union(o@[b]@)
            },
            forall|a: int, b: int| 0 <= a < i && 0 <= b < o@.len() ==> src.contains((a, b)),
        decreases s.len() - i,
    {
        let ghost before = r@;
        let ghost src0 = src;
        push_unions(&mut r, &s[i], o);
        proof {
            src = src0 + Seq::new(o@.len(), |b: int| (i as int, b));
            assert forall|q: int| 0 <= q < r@.len() implies {
                let (a, b) = #[trigger] src[q];
                &&& 0 <= a < s@.len()
                &&& 0 <= b < o@.len()
                &&& r@[q]@ == s@[a]@.union(o@[b]@)
            } by {
                if q < before.len() {
                    assert(src[q] == src0[q]);
                    assert(r@[q] == before[q]);
                } else {
                    let b = q - before.len();
                    assert(src[q] == (i as int, b));
                    assert(r@[before.len() + b]@ == s@[i as int]@.union(o@[b]@));
                }
            }
            assert forall|a: int, b: int| 0 <= a <= i && 0 <= b < o@.len() implies src.contains((a, b)) by {
                if a < i {
                    assert(src0.contains((a, b)));
                    let q = choose|q: int| 0 <= q < src0.len() && src0[q] == (a, b);
                    assert(src[q] == (a, b));
                } else {
                    assert(src[src0.len() + b] == (a, b));
                }
            }
        }
        i = i + 1;
    }
    let ghost ss = clause_set(s@);
    let ghost os = clause_set(o@);
    assert forall|m: ClauseModel| clause_set(r@).contains(m) implies pairwise_unions(ss, os).contains(m) by {
        let q = choose|q: int| 0 <= q < r@.len() && r@[q]@ == m;
        let (a, b) = src[q];
        assert(ss.contains(s@[a]@) && os.contains(o@[b]@));
    }
    assert forall|m: ClauseModel| pairwise_unions(ss, os).contains(m) implies clause_set(r@).contains(m) by {
        let (x, y) = choose|x: ClauseModel, y: ClauseModel| ss.contains(x) && os.contains(y) && m == x.union(y);
        let a = choose|a: int| 0 <= a < s@.len() && s@[a]@ == x;
        let b = choose|b: int| 0 <= b < o@.len() && o@[b]@ == y;
        assert(src.contains((a, b)));
        let q = choose|q: int| 0 <= q < src.len() && src[q] == (a, b);
        assert(r@[q]@ == m);
    }
    assert(clause_set(r@) =~= pairwise_unions(ss, os));
    r
}

impl Component {
    /// The conjunction of the given clauses.
    pub fn formula<C: IntoClause, const N: usize>(clauses: [C; N]) -> (r: Component)
        ensures
            r@ == Cnf::Conj(clause_models(clauses@)),
    {
        let mut v: Vec<Clause> = Vec::new();
        let mut i: usize = 0;
        while i < N
            invariant
                i <= N,
                v@.len() == i,
                forall|k: int| 0 <= k < i ==> #[trigger] v@[k]@ == clauses@[k].clause_model(),
            decreases N - i,
        {
            v.push(clauses[i].to_clause());
            i = i + 1;
        }
        assert forall|m: ClauseModel| clause_set(v@).contains(m) implies clause_models(clauses@).contains(m) by {
            let k = choose|k: int| 0 <= k < v@.len() && v@[k]@ == m;
            assert(m == clauses@[k].clause_model());
        }
        assert forall|m: ClauseModel| clause_models(clauses@).contains(m) implies clause_set(v@).contains(m) by {
            let k = choose|k: int| 0 <= k < N && m == clauses@[k].clause_model();
            assert(v@[k]@ == m);
        }
        assert(clause_set(v@) =~= clause_models(clauses@));
        Component::DCFormula(v)
    }

    /// The constant false.
    pub fn dc_false() -> (r: Component)
        ensures
            r@ == Cnf::Unsat,
    {
        Component::DCFalse
    }

    /// The constant true: the conjunction of no clause.
    pub fn dc_true() -> (r: Component)
        ensures
            r@ == Cnf::Conj(Set::<ClauseModel>::empty()),
    {
        let r = Component::DCFormula(Vec::new());
        assert(clause_set(Seq::<Clause>::empty()) =~= Set::<ClauseModel>::empty());
        r
    }

    /// Whether this is the constant false.
    pub fn is_false(&self) -> (r: bool)
        ensures
            r == (self@ == Cnf::Unsat),
    {
        match self {
            Component::DCFalse => true,
            _ => false,
        }
    }

    /// Whether this is the constant true.
    pub fn is_true(&self) -> (r: bool)
        ensures
            r == (self@ == Cnf::Conj(Set::<ClauseModel>::empty())),
    {
        match self {
            Component::DCFalse => false,
            Component::DCFormula(o) => {
                if o.len() == 0 {
                    assert(clause_set(o@) =~= Set::<ClauseModel>::empty());
                    true
                } else {
                    assert(clause_set(o@).contains(o@[0]@));
                    false
                }
            },
        }
    }

    /// Whether this component implies `other`. False implies everything,
    /// nothing but false implies false, everything implies true, and
    /// otherwise each clause of `other` must be implied by some clause of
    /// this component.
    pub fn implies(&self, other: &Component) -> (r: bool)
        ensures
            r == cnf_implies(self@, other@),
    {
        let s = match self {
            Component::DCFalse => {
                return true;
            },
            Component::DCFormula(s) => s,
        };
        let o = match other {
            Component::DCFalse => {
                return false;
            },
            Component::DCFormula(o) => o,
        };
        let mut j: usize = 0;
        while j < o.len()
            invariant
                j <= o.len(),
                self@ == Cnf::Conj(clause_set(s@)),
                other@ == Cnf::Conj(clause_set(o@)),
                forall|k: int| 0 <= k < j ==> exists|sc: ClauseModel|
                    clause_set(s@).contains(sc) && clause_implies(sc, #[trigger] o@[k]@),
            decreases o.len() - j,
        {
            let found = some_implies(s, &o[j]);
            if !found {
                proof {
                    let oc = o@[j as int]@;
                    assert(clause_set(o@).contains(oc));
                    assert(!(exists|sc: ClauseModel| clause_set(s@).contains(sc) && clause_implies(sc, oc)));
                }
                return false;
            }
            j = j + 1;
        }
        assert forall|oc: ClauseModel| #[trigger] clause_set(o@).contains(oc) implies exists|sc: ClauseModel|
            clause_set(s@).contains(sc) && clause_implies(sc, oc) by {
            let k = choose|k: int| 0 <= k < o@.len() && o@[k]@ == oc;
        }
        true
    }

    /// Removes every clause that another clause implies, keeping one clause
    /// of each group of clauses that imply each other. False stays false.
    pub fn reduce(&mut self)
        ensures
            is_reduction(old(self)@, final(self)@),
    {
        if let Component::DCFormula(clauses) = &*self {
            let kept = minimal_clauses(clauses);
            *self = Component::DCFormula(kept);
        }
    }
}

impl Clone for Component {
    fn clone(&self) -> (r: Component)
        ensures
            r@ == self@,
    {
        match self {
            Component::DCFalse => Component::DCFalse,
            Component::DCFormula(v) => Component::DCFormula(copy_clauses(v)),
        }
    }
}

impl PartialEq for Component {
    /// Two components are equal when both are false, or both hold the same
    /// clauses.
    fn eq(&self, other: &Component) -> (r: bool)
        ensures
            r == (self@ == other@),
    {
        match (self, other) {
            (Component::DCFalse, Component::DCFalse) => true,
            (Component::DCFormula(s), Component::DCFormula(o)) => {
                let r = clauses_within(s, o) && clauses_within(o, s);
                assert(r ==> clause_set(s@) =~= clause_set(o@));
                r
            },
            _ => false,
        }
    }
}

impl vstd::std_specs::cmp::PartialEqSpecImpl for Component {
    open spec fn obeys_eq_spec() -> bool {
        true
    }

    open spec fn eq_spec(&self, other: &Component) -> bool {
        self@ == other@
    }
}

impl Eq for Component {
}

impl core::ops::BitAnd for Component {
    type Output = Component;

    /// Conjunction: false absorbs, otherwise the clauses of both sides.
    fn bitand(self, rhs: Component) -> (r: Component)
        ensures
            r@ == cnf_and(self@, rhs@),
    {
        match (self, rhs) {
            (Component::DCFormula(mut s), Component::DCFormula(mut o)) => {
                let ghost s0 = s@;
                let ghost o0 = o@;
                s.append(&mut o);
                proof {
                    lemma_clause_set_concat(s0, o0);
                }
                Component::DCFormula(s)
            },
            _ => Component::DCFalse,
        }
    }
}

impl vstd::std_specs::ops::BitAndSpecImpl for Component {
    /// A component holds a vector, which spec code cannot build: what `&`
    /// returns is stated on `bitand` itself.
    open spec fn obeys_bitand_spec() -> bool {
        false
    }

    open spec fn bitand_req(self, rhs: Component) -> bool {
        true
    }

    open spec fn bitand_spec(self, rhs: Component) -> Component {
        arbitrary()
    }
}

impl core::ops::BitOr for Component {
    type Output = Component;

    /// Disjunction: false is the identity, true absorbs, and otherwise each
    /// clause of one side is joined with each clause of the other.
    fn bitor(self, rhs: Component) -> (r: Component)
        ensures
            r@ == cnf_or(self@, rhs@),
    {
        match (self, rhs) {
            (s, Component::DCFalse) => s,
            (Component::DCFalse, o) => o,
            (Component::DCFormula(s), Component::DCFormula(o)) => {
                if s.len() == 0 || o.len() == 0 {
                    proof {
                        if s.len() == 0 {
                            assert(clause_set(s@) =~= Set::<ClauseModel>::empty());
                        } else {
                            assert(clause_set(o@) =~= Set::<ClauseModel>::empty());
                        }
                    }
                    Component::dc_true()
                } else {
                    assert(clause_set(s@).contains(s@[0]@));
                    assert(clause_set(o@).contains(o@[0]@));
                    Component::DCFormula(distribute(&s, &o))
                }
            },
        }
    }
}

impl vstd::std_specs::ops::BitOrSpecImpl for Component {
    /// See the conjunction.
    open spec fn obeys_bitor_spec() -> bool {
        false
    }

    open spec fn bitor_req(self, rhs: Component) -> bool {
        true
    }

    open spec fn bitor_spec(self, rhs: Component) -> Component {
        arbitrary()
    }
}

/// Conversion of a description of a component into a component.
pub trait IntoComponent: Sized {
    /// The component that the description stands for.
    spec fn component_model(&self) -> Cnf;

    fn into_component(self) -> (r: Component)
        ensures
            r@ == self.component_model(),
    ;
}

impl IntoComponent for bool {
    /// `true` is the constant true, `false` the constant false.
    open spec fn component_model(&self) -> Cnf {
        if *self {
            Cnf::Conj(Set::empty())
        } else {
            Cnf::Unsat
        }
    }

    fn into_component(self) -> (r: Component) {
        if self {
            Component::dc_true()
        } else {
            Component::dc_false()
        }
    }
}

impl IntoComponent for Component {
    open spec fn component_model(&self) -> Cnf {
        self@
    }

    fn into_component(self) -> (r: Component) {
        self
    }
}

impl<C: IntoClause, const N: usize> IntoComponent for [C; N] {
    /// The conjunction of the clauses.
    open spec fn component_model(&self) -> Cnf {
        Cnf::Conj(clause_models(self@))
    }

    fn into_component(self) -> (r: Component) {
        Component::formula(self)
    }
}

impl From<bool> for Component {
    fn from(b: bool) -> (r: Component)
        ensures
            r@ == b.component_model(),
    {
        b.into_component()
    }
}

impl vstd::std_specs::convert::FromSpecImpl<bool> for Component {
    /// A component holds a vector, which spec code cannot build: what `from`
    /// returns is stated on `from` itself.
    open spec fn obeys_from_spec() -> bool {
        false
    }

    open spec fn from_spec(v: bool) -> Component {
        arbitrary()
    }
}

impl<C: IntoClause, const N: usize> From<[C; N]> for Component {
    fn from(clauses: [C; N]) -> (r: Component)
        ensures
            r@ == Cnf::Conj(clause_models(clauses@)),
    {
        Component::formula(clauses)
    }
}

impl<C: IntoClause, const N: usize> vstd::std_specs::convert::FromSpecImpl<[C; N]> for Component {
    /// See the conversion from `bool`.
    open spec fn obeys_from_spec() -> bool {
        false
    }

    open spec fn from_spec(v: [C; N]) -> Component {
        arbitrary()
    }
}

} // verus!
