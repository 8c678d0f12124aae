//! Clauses: disjunctions of principal chains.

use vstd::prelude::*;

verus! {

/// One token of a principal's delegation chain.
pub type Principal = String;

/// A delegation chain as the sequence of its tokens.
pub type ChainModel = Seq<Seq<char>>;

/// A clause as the set of its chains.
pub type ClauseModel = Set<ChainModel>;

/// Chain `a` authorizes chain `b` when `a` is a prefix of `b`: holding `a`
/// implies holding any more specific delegate of it.
pub open spec fn authorizes(a: ChainModel, b: ChainModel) -> bool {
    a.is_prefix_of(b)
}

/// Clause `x` implies clause `y` when every chain of `x` has an extension in `y`.
pub open spec fn clause_implies(x: ClauseModel, y: ClauseModel) -> bool {
    forall|a: ChainModel| #[trigger] x.contains(a) ==> exists|b: ChainModel| y.contains(b) && authorizes(a, b)
}

/// Every clause implies itself.
pub proof fn lemma_clause_implies_reflexive(x: ClauseModel)
    ensures
        clause_implies(x, x),
{
    assert forall|a: ChainModel| #[trigger] x.contains(a) implies exists|b: ChainModel|
        x.contains(b) && authorizes(a, b) by {
        assert(a =~= a.subrange(0, a.len() as int));
        assert(authorizes(a, a));
    }
}

/// Implication between clauses is transitive.
pub proof fn lemma_clause_implies_transitive(x: ClauseModel, y: ClauseModel, z: ClauseModel)
    requires
        clause_implies(x, y),
        clause_implies(y, z),
    ensures
        clause_implies(x, z),
{
    assert forall|a: ChainModel| #[trigger] x.contains(a) implies exists|c: ChainModel|
        z.contains(c) && authorizes(a, c) by {
        let b = choose|b: ChainModel| y.contains(b) && authorizes(a, b);
        let c = choose|c: ChainModel| z.contains(c) && authorizes(b, c);
        assert(a =~= c.subrange(0, a.len() as int));
        assert(authorizes(a, c));
    }
}

/// A clause implies every clause that holds all of its chains.
pub proof fn lemma_clause_implies_superset(x: ClauseModel, y: ClauseModel)
    requires
        x.subset_of(y),
    ensures
        clause_implies(x, y),
{
    assert forall|a: ChainModel| #[trigger] x.contains(a) implies exists|b: ChainModel|
        y.contains(b) && authorizes(a, b) by {
        assert(a =~= a.subrange(0, a.len() as int));
        assert(y.contains(a) && authorizes(a, a));
    }
}

/// The set of chains held in a sequence of chain vectors.
pub open spec fn chain_set(v: Seq<Vec<Principal>>) -> ClauseModel {
    Set::new(|c: ChainModel| exists|i: int| 0 <= i < v.len() && #[trigger] v[i].deep_view() == c)
}

/// A disjunction of principal chains. Order and repetition of the chains do
/// not matter: a clause is seen as the set of its chains.
#[derive(Debug)]
pub struct Clause(pub Vec<Vec<Principal>>);

impl View for Clause {
    type V = ClauseModel;

    open spec fn view(&self) -> ClauseModel {
        chain_set(self.0@)
    }
}

/// Whether chain `a` is a prefix of chain `b`.
fn is_prefix(a: &Vec<Principal>, b: &Vec<Principal>) -> (r: bool)
    ensures
        r == authorizes(a.deep_view(), b.deep_view()),
{
    if a.len() > b.len() {
        return false;
    }
    let mut i: usize = 0;
    while i < a.len()
        invariant
            a.len() <= b.len(),
            i <= a.len(),
            forall|k: int| 0 <= k < i ==> a@[k]@ == b@[k]@,
        decreases a.len() - i,
    {
        if a[i] != b[i] {
            assert(a.deep_view()[i as int] != b.deep_view().subrange(0, a.len() as int)[i as int]);
            return false;
        }
        i = i + 1;
    }
    assert(a.deep_view() =~= b.deep_view().subrange(0, a.len() as int));
    true
}

/// Whether some chain of `v` extends chain `a`.
fn has_extension(a: &Vec<Principal>, v: &Vec<Vec<Principal>>) -> (r: bool)
    ensures
        r == exists|b: ChainModel| chain_set(v@).contains(b) && authorizes(a.deep_view(), b),
{
    let mut j: usize = 0;
    while j < v.len()
        invariant
            j <= v.len(),
            forall|k: int| 0 <= k < j ==> !authorizes(a.deep_view(), #[trigger] v@[k].deep_view()),
        decreases v.len() - j,
    {
        if is_prefix(a, &v[j]) {
            assert(chain_set(v@).contains(v@[j as int].deep_view()));
            return true;
        }
        j = j + 1;
    }
    false
}

/// The clause whose chains are the single tokens of `ps`.
pub open spec fn single_chains(ps: Seq<&str>) -> ClauseModel {
    Set::new(|c: ChainModel| exists|i: int| 0 <= i < ps.len() && c == seq![#[trigger] ps[i]@])
}

/// The clause whose chains are the token sequences of `ps`.
pub open spec fn chains_of(ps: Seq<Vec<&str>>) -> ClauseModel {
    Set::new(|c: ChainModel| exists|i: int| 0 <= i < ps.len() && c == #[trigger] ps[i].deep_view())
}

/// Two sequences of chains that agree pointwise hold the same chains.
proof fn lemma_chain_set_same(a: Seq<Vec<Principal>>, b: Seq<Vec<Principal>>)
    requires
        a.len() == b.len(),
        forall|k: int| 0 <= k < a.len() ==> #[trigger] a[k].deep_view() == b[k].deep_view(),
    ensures
        chain_set(a) == chain_set(b),
{
    assert forall|c: ChainModel| chain_set(a).contains(c) implies chain_set(b).contains(c) by {
        let k = choose|k: int| 0 <= k < a.len() && a[k].deep_view() == c;
        assert(b[k].deep_view() == c);
    }
    assert forall|c: ChainModel| chain_set(b).contains(c) implies chain_set(a).contains(c) by {
        let k = choose|k: int| 0 <= k < b.len() && b[k].deep_view() == c;
        assert(a[k].deep_view() == c);
    }
    assert(chain_set(a) =~= chain_set(b));
}

/// An owned copy of a chain.
pub(crate) fn copy_chain(a: &Vec<Principal>) -> (r: Vec<Principal>)
    ensures
        r.deep_view() == a.deep_view(),
{
    let mut r: Vec<Principal> = Vec::new();
    let mut i: usize = 0;
    while i < a.len()
        invariant
            i <= a.len(),
            r@.len() == i,
            forall|k: int| 0 <= k < i ==> r@[k]@ == a@[k]@,
        decreases a.len() - i,
    {
        r.push(a[i].clone());
        i = i + 1;
    }
    assert(r.deep_view() =~= a.deep_view());
    r
}

/// An owned chain made of the given tokens.
fn chain_from_strs(ts: &[&str]) -> (r: Vec<Principal>)
    ensures
        r.deep_view() == ts@.map_values(|t: &str| t@),
{
    let mut r: Vec<Principal> = Vec::new();
    let mut i: usize = 0;
    while i < ts.len()
        invariant
            i <= ts.len(),
            r@.len() == i,
            forall|k: int| 0 <= k < i ==> r@[k]@ == ts@[k]@,
        decreases ts.len() - i,
    {
        r.push(ts[i].to_owned());
        i = i + 1;
    }
    assert(r.deep_view() =~= ts@.map_values(|t: &str| t@));
    r
}

/// Whether the chains `a` and `b` are the same.
fn same_chain(a: &Vec<Principal>, b: &Vec<Principal>) -> (r: bool)
    ensures
        r == (a.deep_view() == b.deep_view()),
{
    if a.len() != b.len() {
        assert(a.deep_view().len() != b.deep_view().len());
        return false;
    }
    let r = is_prefix(a, b);
    assert(r ==> a.deep_view() =~= b.deep_view());
    r
}

/// Whether every chain of `a` also stands in `b`.
fn chains_within(a: &Vec<Vec<Principal>>, b: &Vec<Vec<Principal>>) -> (r: bool)
    ensures
        r == chain_set(a@).subset_of(chain_set(b@)),
{
    let mut i: usize = 0;
    while i < a.len()
        invariant
            i <= a.len(),
            forall|k: int| 0 <= k < i ==> chain_set(b@).contains(#[trigger] a@[k].deep_view()),
        decreases a.len() - i,
    {
        let mut j: usize = 0;
        let mut found = false;
        while j < b.len() && !found
            invariant
                i < a.len(),
                j <= b.len(),
                found ==> chain_set(b@).contains(a@[i as int].deep_view()),
                !found ==> forall|k: int| 0 <= k < j ==> b@[k].deep_view() != a@[i as int].deep_view(),
            decreases b.len() - j,
        {
            if same_chain(&a[i], &b[j]) {
                found = true;
            }
            j = j + 1;
        }
        if !found {
            assert(chain_set(a@).contains(a@[i as int].deep_view()));
            return false;
        }
        i = i + 1;
    }
    true
}

/// Conversion of a description of a clause into a clause.
pub trait IntoClause {
    /// The clause that the description stands for.
    spec fn clause_model(&self) -> ClauseModel;

    fn to_clause(&self) -> (r: Clause)
        ensures
            r@ == self.clause_model(),
    ;
}

impl<'a, const N: usize> IntoClause for [&'a str; N] {
    /// Each token is a chain of its own.
    open spec fn clause_model(&self) -> ClauseModel {
        single_chains(self@)
    }

    fn to_clause(&self) -> (r: Clause) {
        Clause::new(*self)
    }
}

impl<'a> IntoClause for Vec<&'a str> {
    /// Each token is a chain of its own.
    open spec fn clause_model(&self) -> ClauseModel {
        single_chains(self@)
    }

    fn to_clause(&self) -> (r: Clause) {
        Clause::new_from_slice(self.as_slice())
    }
}

impl IntoClause for Clause {
    open spec fn clause_model(&self) -> ClauseModel {
        self@
    }

    fn to_clause(&self) -> (r: Clause) {
        self.clone()
    }
}

impl Clone for Clause {
    fn clone(&self) -> (r: Clause)
        ensures
            r@ == self@,
    {
        let mut v: Vec<Vec<Principal>> = Vec::new();
        let mut i: usize = 0;
        while i < self.0.len()
            invariant
                i <= self.0.len(),
                v@.len() == i,
                forall|k: int| 0 <= k < i ==> #[trigger] v@[k].deep_view() == self.0@[k].deep_view(),
            decreases self.0.len() - i,
        {
            v.push(copy_chain(&self.0[i]));
            i = i + 1;
        }
        let r = Clause(v);
        proof {
            lemma_chain_set_same(v@, self.0@);
        }
        r
    }
}

impl PartialEq for Clause {
    /// Two clauses are equal when they hold the same chains.
    fn eq(&self, other: &Clause) -> (r: bool)
        ensures
            r == (self@ == other@),
    {
        let r = chains_within(&self.0, &other.0) && chains_within(&other.0, &self.0);
        assert(r ==> self@ =~= other@);
        r
    }
}

impl vstd::std_specs::cmp::PartialEqSpecImpl for Clause {
    open spec fn obeys_eq_spec() -> bool {
        true
    }

    open spec fn eq_spec(&self, other: &Clause) -> bool {
        self@ == other@
    }
}

impl Eq for Clause {
}

impl Clause {
    /// The clause holding the chains of both `self` and `other`.
    pub(crate) fn union_with(&self, other: &Clause) -> (r: Clause)
        ensures
            r@ == self@.union(other@),
    {
        let mut v: Vec<Vec<Principal>> = Vec::new();
        let mut i: usize = 0;
        while i < self.0.len()
            invariant
                i <= self.0.len(),
                v@.len() == i,
                forall|k: int| 0 <= k < i ==> #[trigger] v@[k].deep_view() == self.0@[k].deep_view(),
            decreases self.0.len() - i,
        {
            v.push(copy_chain(&self.0[i]));
            i = i + 1;
        }
        let mut j: usize = 0;
        while j < other.0.len()
            invariant
                j <= other.0.len(),
                v@.len() == self.0@.len() + j,
                forall|k: int| 0 <= k < self.0@.len() ==> #[trigger] v@[k].deep_view() == self.0@[k].deep_view(),
                forall|k: int| 0 <= k < j ==> #[trigger] v@[self.0@.len() + k].deep_view() == other.0@[k].deep_view(),
            decreases other.0.len() - j,
        {
            v.push(copy_chain(&other.0[j]));
            j = j + 1;
        }
        let r = Clause(v);
        assert forall|c: ChainModel| r@.contains(c) implies self@.union(other@).contains(c) by {
            let k = choose|k: int| 0 <= k < v@.len() && v@[k].deep_view() == c;
            if k < self.0@.len() {
                assert(self@.contains(c));
            } else {
                let k2 = k - self.0@.len();
                assert(v@[self.0@.len() + k2].deep_view() == other.0@[k2].deep_view());
                assert(other@.contains(c));
            }
        }
        assert forall|c: ChainModel| self@.union(other@).contains(c) implies r@.contains(c) by {
            if self@.contains(c) {
                let k = choose|k: int| 0 <= k < self.0@.len() && self.0@[k].deep_view() == c;
                assert(v@[k].deep_view() == c);
            } else {
                let k = choose|k: int| 0 <= k < other.0@.len() && other.0@[k].deep_view() == c;
                assert(v@[self.0@.len() + k].deep_view() == c);
            }
        }
        assert(r@ =~= self@.union(other@));
        r
    }

    /// The empty clause: the disjunction of no chain.
    pub fn empty() -> (r: Clause)
        ensures
            r@ == Set::<ChainModel>::empty(),
    {
        let r = Clause(Vec::new());
        assert(r@ =~= Set::<ChainModel>::empty());
        r
    }

    /// The clause whose chains are the given principals, one token each.
    pub fn new<const N: usize>(principals: [&str; N]) -> (r: Clause)
        ensures
            r@ == single_chains(principals@),
    {
        Clause::new_from_slice(principals.as_slice())
    }

    /// The clause whose chains are the given principals, one token each.
    fn new_from_slice(principals: &[&str]) -> (r: Clause)
        ensures
            r@ == single_chains(principals@),
    {
        let mut v: Vec<Vec<Principal>> = Vec::new();
        let mut i: usize = 0;
        while i < principals.len()
            invariant
                i <= principals.len(),
                v@.len() == i,
                forall|k: int| 0 <= k < i ==> #[trigger] v@[k].deep_view() == seq![principals@[k]@],
            decreases principals.len() - i,
        {
            let mut chain: Vec<Principal> = Vec::new();
            chain.push(principals[i].to_owned());
            assert(chain.deep_view() =~= seq![principals@[i as int]@]);
            v.push(chain);
            i = i + 1;
        }
        let r = Clause(v);
        assert(r@ =~= single_chains(principals@)) by {
            assert forall|c: ChainModel| r@.contains(c) implies single_chains(principals@).contains(c) by {
                let k = choose|k: int| 0 <= k < v@.len() && v@[k].deep_view() == c;
                assert(c == seq![principals@[k]@]);
            }
            assert forall|c: ChainModel| single_chains(principals@).contains(c) implies r@.contains(c) by {
                let k = choose|k: int| 0 <= k < principals@.len() && c == seq![principals@[k]@];
                assert(v@[k].deep_view() == c);
            }
        }
        r
    }

    /// The clause whose chains are the given token sequences.
    pub fn new_from_vec(principals: Vec<Vec<&str>>) -> (r: Clause)
        ensures
            r@ == chains_of(principals@),
    {
        let mut v: Vec<Vec<Principal>> = Vec::new();
        let mut i: usize = 0;
        while i < principals.len()
            invariant
                i <= principals.len(),
                v@.len() == i,
                forall|k: int| 0 <= k < i ==> #[trigger] v@[k].deep_view() == principals@[k].deep_view(),
            decreases principals.len() - i,
        {
            let chain = chain_from_strs(principals[i].as_slice());
            assert(chain.deep_view() =~= principals@[i as int].deep_view());
            v.push(chain);
            i = i + 1;
        }
        let r = Clause(v);
        assert(r@ =~= chains_of(principals@)) by {
            assert forall|c: ChainModel| r@.contains(c) implies chains_of(principals@).contains(c) by {
                let k = choose|k: int| 0 <= k < v@.len() && v@[k].deep_view() == c;
                assert(c == principals@[k].deep_view());
            }
            assert forall|c: ChainModel| chains_of(principals@).contains(c) implies r@.contains(c) by {
                let k = choose|k: int| 0 <= k < principals@.len() && c == principals@[k].deep_view();
                assert(v@[k].deep_view() == c);
            }
        }
        r
    }

    /// Whether this clause implies `other`: each of its chains is a prefix of
    /// some chain of `other`. The empty clause implies every clause; no other
    /// clause implies the empty one.
    pub fn implies(&self, other: &Clause) -> (r: bool)
        ensures
            r == clause_implies(self@, other@),
    {
        if self.0.len() == 0 {
            return true;
        }
        if other.0.len() == 0 {
            assert(self@.contains(self.0@[0].deep_view()));
            return false;
        }
        let mut i: usize = 0;
        while i < self.0.len()
            invariant
                i <= self.0.len(),
                forall|k: int|
                    0 <= k < i ==> exists|b: ChainModel|
                        other@.contains(b) && authorizes(#[trigger] self.0@[k].deep_view(), b),
            decreases self.0.len() - i,
        {
            let found = has_extension(&self.0[i], &other.0);
            assert(chain_set(other.0@) == other@);
            if !found {
                assert(self@.contains(self.0@[i as int].deep_view()));
                return false;
            }
            i = i + 1;
        }
        true
    }
}

impl<'a, const N: usize> From<[&'a str; N]> for Clause {
    fn from(principals: [&'a str; N]) -> (r: Clause)
        ensures
            r@ == single_chains(principals@),
    {
        Clause::new(principals)
    }
}

impl<'a, const N: usize> vstd::std_specs::convert::FromSpecImpl<[&'a str; N]> for Clause {
    /// A clause holds a vector, which spec code cannot build: what `from`
    /// returns is stated on `from` itself.
    open spec fn obeys_from_spec() -> bool {
        false
    }

    open spec fn from_spec(v: [&'a str; N]) -> Clause {
        arbitrary()
    }
}

impl<'a> From<Vec<&'a str>> for Clause {
    fn from(principals: Vec<&'a str>) -> (r: Clause)
        ensures
            r@ == single_chains(principals@),
    {
        Clause::new_from_slice(principals.as_slice())
    }
}

impl<'a> vstd::std_specs::convert::FromSpecImpl<Vec<&'a str>> for Clause {
    /// See the conversion from an array.
    open spec fn obeys_from_spec() -> bool {
        false
    }

    open spec fn from_spec(v: Vec<&'a str>) -> Clause {
        arbitrary()
    }
}

} // verus!
