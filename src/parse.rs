//! The text form of labels.
//!
//! A label is written `<secrecy>,<integrity>`. Each side is `T` (true), `F`
//! (false), or a formula: clauses separated by `&`, each made of chains
//! separated by `|`, each made of tokens separated by `/`. A token is a
//! non-empty run of ASCII letters and digits, in which a backslash escapes any
//! of `,`, `|`, `&`, `/` and itself.

use vstd::prelude::*;

use crate::buckle::{Buckle, LabelModel};
use crate::clause::{ChainModel, Clause, ClauseModel, Principal};
use crate::component::{clause_set, is_reduction, Cnf, Component};

verus! {

/// A character of label text with its place in the text: `literal` is false
/// for an unescaped separator, true for a character of a token.
#[derive(Clone, Copy, PartialEq, Eq, Structural)]
pub struct Piece {
    pub ch: char,
    pub literal: bool,
    pub pos: usize,
}

/// The characters that separate sides, clauses, chains and tokens.
pub open spec fn is_separator(c: char) -> bool {
    c == ',' || c == '|' || c == '&' || c == '/'
}

/// The characters that a backslash may escape.
pub open spec fn is_escapable(c: char) -> bool {
    is_separator(c) || c == '\\'
}

/// The characters that stand for themselves in a token.
pub open spec fn is_token_char(c: char) -> bool {
    ('a' <= c && c <= 'z') || ('A' <= c && c <= 'Z') || ('0' <= c && c <= '9')
}

/// `p` followed by the pieces of `rest`, if those could be read.
pub open spec fn prepend(p: Piece, rest: Option<Seq<Piece>>) -> Option<Seq<Piece>> {
    match rest {
        Some(r) => Some(seq![p] + r),
        None => None,
    }
}

/// The pieces of the text `s` from its `i`-th character on, or `None` where a
/// character is neither a token character nor a separator, or a backslash
/// escapes nothing it may escape.
pub open spec fn pieces(s: Seq<char>, i: int) -> Option<Seq<Piece>>
    decreases s.len() - i,
{
    if i < 0 || i >= s.len() {
        Some(Seq::empty())
    } else if s[i] == '\\' {
        if i + 1 < s.len() && is_escapable(s[i + 1]) {
            prepend(Piece { ch: s[i + 1], literal: true, pos: (i + 1) as usize }, pieces(s, i + 2))
        } else {
            None
        }
    } else if is_separator(s[i]) {
        prepend(Piece { ch: s[i], literal: false, pos: i as usize }, pieces(s, i + 1))
    } else if is_token_char(s[i]) {
        prepend(Piece { ch: s[i], literal: true, pos: i as usize }, pieces(s, i + 1))
    } else {
        None
    }
}

/// The parts of `u` between the unescaped separators `sep`.
pub open spec fn split(u: Seq<Piece>, sep: char) -> Seq<Seq<Piece>>
    decreases u.len(),
{
    if u.len() == 0 {
        seq![Seq::empty()]
    } else {
        let prev = split(u.drop_last(), sep);
        let x = u.last();
        if x.ch == sep && !x.literal {
            prev.push(Seq::empty())
        } else {
            prev.update(prev.len() - 1, prev.last().push(x))
        }
    }
}

/// The characters of a token.
pub open spec fn text(t: Seq<Piece>) -> Seq<char> {
    t.map_values(|p: Piece| p.ch)
}

/// Every token of the chain is non-empty.
pub open spec fn chain_ok(c: Seq<Piece>) -> bool {
    forall|k: int| 0 <= k < split(c, '/').len() ==> #[trigger] split(c, '/')[k].len() > 0
}

/// The chain that the text stands for.
pub open spec fn chain_model(c: Seq<Piece>) -> ChainModel {
    split(c, '/').map_values(|t: Seq<Piece>| text(t))
}

/// Every chain of the clause is well formed.
pub open spec fn clause_ok(c: Seq<Piece>) -> bool {
    forall|k: int| 0 <= k < split(c, '|').len() ==> chain_ok(#[trigger] split(c, '|')[k])
}

/// The clause that the text stands for.
pub open spec fn clause_model(c: Seq<Piece>) -> ClauseModel {
    Set::new(|m: ChainModel| exists|k: int| 0 <= k < split(c, '|').len() && m == chain_model(#[trigger] split(c, '|')[k]))
}

/// Every clause of the formula is well formed.
pub open spec fn formula_ok(f: Seq<Piece>) -> bool {
    forall|k: int| 0 <= k < split(f, '&').len() ==> clause_ok(#[trigger] split(f, '&')[k])
}

/// The clauses that the formula stands for.
pub open spec fn formula_model(f: Seq<Piece>) -> Set<ClauseModel> {
    Set::new(|m: ClauseModel| exists|k: int| 0 <= k < split(f, '&').len() && m == clause_model(#[trigger] split(f, '&')[k]))
}

/// The side is the single letter `c`.
pub open spec fn is_letter(f: Seq<Piece>, c: char) -> bool {
    f.len() == 1 && f[0].ch == c && f[0].literal
}

/// The side is `T`, `F` or a well-formed formula.
pub open spec fn side_ok(f: Seq<Piece>) -> bool {
    is_letter(f, 'T') || is_letter(f, 'F') || formula_ok(f)
}

/// The component that a side stands for.
pub open spec fn side_model(f: Seq<Piece>) -> Cnf {
    if is_letter(f, 'T') {
        Cnf::Conj(Set::empty())
    } else if is_letter(f, 'F') {
        Cnf::Unsat
    } else {
        Cnf::Conj(formula_model(f))
    }
}

/// The sides of the text `s`.
pub open spec fn sides(s: Seq<char>) -> Seq<Seq<Piece>> {
    split(pieces(s, 0)->Some_0, ',')
}

/// The text `s` is a label: it reads as pieces, has two sides, and both are
/// well formed.
pub open spec fn is_label_text(s: Seq<char>) -> bool {
    &&& pieces(s, 0) is Some
    &&& sides(s).len() == 2
    &&& side_ok(sides(s)[0])
    &&& side_ok(sides(s)[1])
}

/// The label that the text `s` stands for, before reduction.
pub open spec fn label_of_text(s: Seq<char>) -> LabelModel {
    LabelModel { secrecy: side_model(sides(s)[0]), integrity: side_model(sides(s)[1]) }
}

/// The piece stands for the character of `s` at its place.
pub open spec fn in_text(s: Seq<char>, p: Piece) -> bool {
    p.pos < s.len() && s[p.pos as int] == p.ch
}

/// Text that is not a label.
#[derive(Debug, Clone, Copy, PartialEq, Eq, Structural)]
pub struct ParseError;

/// The pieces of the text, or `None` where it holds a character that is not
/// allowed.
fn read_pieces(input: &str) -> (r: Option<Vec<Piece>>)
    ensures
        match r {
            Some(v) => pieces(input@, 0) == Some(v@) && forall|k: int|
                0 <= k < v@.len() ==> in_text(input@, #[trigger] v@[k]),
            None => pieces(input@, 0) is None,
        },
{
    let n = input.unicode_len();
    let ghost s = input@;
    let mut out: Vec<Piece> = Vec::new();
    let mut i: usize = 0;
    while i < n
        invariant
            n == s.len(),
            s == input@,
            i <= n,
            pieces(s, 0) == match pieces(s, i as int) {
                Some(r) => Some(out@ + r),
                None => None::<Seq<Piece>>,
            },
            forall|k: int| 0 <= k < out@.len() ==> in_text(s, #[trigger] out@[k]),
        decreases n - i,
    {
        let c = input.get_char(i);
        if c == '\\' {
            if i + 1 < n {
                let d = input.get_char(i + 1);
                if d == ',' || d == '|' || d == '&' || d == '/' || d == '\\' {
                    let p = Piece { ch: d, literal: true, pos: i + 1 };
                    assert(out@ + (seq![p] + pieces(s, i + 2)->Some_0) == out@.push(p) + pieces(s, i + 2)->Some_0)
                        by {
                        assert(out@ + (seq![p] + pieces(s, i + 2)->Some_0) =~= out@.push(p) + pieces(s, i + 2)->Some_0);
                    }
                    out.push(p);
                    i = i + 2;
                    continue;
                }
            }
            return None;
        } else if c == ',' || c == '|' || c == '&' || c == '/' {
            let p = Piece { ch: c, literal: false, pos: i };
            assert(pieces(s, i + 1) is Some ==> out@ + (seq![p] + pieces(s, i + 1)->Some_0) =~= out@.push(p) + pieces(s, i + 1)->Some_0);
            out.push(p);
            i = i + 1;
        } else if ('a' <= c && c <= 'z') || ('A' <= c && c <= 'Z') || ('0' <= c && c <= '9') {
            let p = Piece { ch: c, literal: true, pos: i };
            assert(pieces(s, i + 1) is Some ==> out@ + (seq![p] + pieces(s, i + 1)->Some_0) =~= out@.push(p) + pieces(s, i + 1)->Some_0);
            out.push(p);
            i = i + 1;
        } else {
            return None;
        }
    }
    assert(out@ + Seq::<Piece>::empty() =~= out@);
    Some(out)
}

/// The views of a sequence of piece vectors.
pub open spec fn views(v: Seq<Vec<Piece>>) -> Seq<Seq<Piece>> {
    v.map_values(|x: Vec<Piece>| x@)
}

/// Splitting never yields fewer than one part.
proof fn lemma_split_nonempty(u: Seq<Piece>, sep: char)
    ensures
        split(u, sep).len() >= 1,
    decreases u.len(),
{
    if u.len() > 0 {
        lemma_split_nonempty(u.drop_last(), sep);
    }
}

/// The parts of `u` between the unescaped separators `sep`.
fn split_pieces(u: &Vec<Piece>, sep: char, Ghost(s): Ghost<Seq<char>>) -> (r: Vec<Vec<Piece>>)
    requires
        forall|k: int| 0 <= k < u@.len() ==> in_text(s, #[trigger] u@[k]),
    ensures
        views(r@) == split(u@, sep),
        forall|k: int, j: int|
            0 <= k < r@.len() && 0 <= j < r@[k]@.len() ==> in_text(s, #[trigger] r@[k]@[j]),
{
    let mut parts: Vec<Vec<Piece>> = Vec::new();
    let mut cur: Vec<Piece> = Vec::new();
    let mut i: usize = 0;
    while i < u.len()
        invariant
            i <= u.len(),
            forall|k: int| 0 <= k < u@.len() ==> in_text(s, #[trigger] u@[k]),
            views(parts@).push(cur@) == split(u@.subrange(0, i as int), sep),
            forall|k: int, j: int|
                0 <= k < parts@.len() && 0 <= j < parts@[k]@.len() ==> in_text(s, #[trigger] parts@[k]@[j]),
            forall|j: int| 0 <= j < cur@.len() ==> in_text(s, #[trigger] cur@[j]),
        decreases u.len() - i,
    {
        let x = u[i];
        let ghost pre = u@.subrange(0, i as int);
        assert(u@.subrange(0, i + 1).drop_last() =~= pre);
        if x.ch == sep && !x.literal {
            let ghost before = parts@;
            parts.push(cur);
            cur = Vec::new();
            proof {
                assert(views(parts@) =~= views(before).push(parts@.last()@));
                assert(views(parts@).push(cur@) =~= split(u@.subrange(0, i + 1), sep));
                assert forall|k: int, j: int|
                    0 <= k < parts@.len() && 0 <= j < parts@[k]@.len() implies in_text(s, #[trigger] parts@[k]@[j]) by {
                    if k < before.len() {
                        assert(parts@[k] == before[k]);
                    }
                }
            }
        } else {
            cur.push(x);
            proof {
                lemma_split_nonempty(pre, sep);
                assert(views(parts@).push(cur@) =~= split(u@.subrange(0, i + 1), sep));
            }
        }
        i = i + 1;
    }
    assert(u@.subrange(0, u@.len() as int) =~= u@);
    let ghost before = parts@;
    parts.push(cur);
    proof {
        assert(views(parts@) =~= views(before).push(cur@));
        assert forall|k: int, j: int|
            0 <= k < parts@.len() && 0 <= j < parts@[k]@.len() implies in_text(s, #[trigger] parts@[k]@[j]) by {
            if k < before.len() {
                assert(parts@[k] == before[k]);
            }
        }
    }
    parts
}

/// The characters of a token, taken from the text they stand in.
fn token_string(input: &str, n: usize, t: &Vec<Piece>) -> (r: String)
    requires
        n == input@.len(),
        forall|j: int| 0 <= j < t@.len() ==> in_text(input@, #[trigger] t@[j]),
    ensures
        r@ == text(t@),
{
    let mut r = String::new();
    let mut j: usize = 0;
    while j < t.len()
        invariant
            n == input@.len(),
            forall|k: int| 0 <= k < t@.len() ==> in_text(input@, #[trigger] t@[k]),
            j <= t.len(),
            r@ == text(t@.subrange(0, j as int)),
        decreases t.len() - j,
    {
        let p = t[j];
        assert(in_text(input@, t@[j as int]));
        let one = input.substring_char(p.pos, p.pos + 1);
        assert(one@ =~= seq![p.ch]);
        r.append(one);
        assert(text(t@.subrange(0, j + 1)) =~= text(t@.subrange(0, j as int)).push(p.ch));
        j = j + 1;
    }
    assert(t@.subrange(0, t@.len() as int) =~= t@);
    r
}

/// The chain that the text `c` stands for, or `None` where a token is empty.
fn read_chain(input: &str, n: usize, c: &Vec<Piece>) -> (r: Option<Vec<Principal>>)
    requires
        n == input@.len(),
        forall|j: int| 0 <= j < c@.len() ==> in_text(input@, #[trigger] c@[j]),
    ensures
        r is Some <==> chain_ok(c@),
        r is Some ==> r->Some_0.deep_view() == chain_model(c@),
{
    let tokens = split_pieces(c, '/', Ghost(input@));
    let ghost parts = split(c@, '/');
    let mut chain: Vec<Principal> = Vec::new();
    let mut k: usize = 0;
    while k < tokens.len()
        invariant
            n == input@.len(),
            views(tokens@) == parts,
            parts == split(c@, '/'),
            forall|a: int, j: int|
                0 <= a < tokens@.len() && 0 <= j < tokens@[a]@.len() ==> in_text(input@, #[trigger] tokens@[a]@[j]),
            k <= tokens.len(),
            chain@.len() == k,
            forall|j: int| 0 <= j < k ==> #[trigger] chain@[j]@ == text(parts[j]) && parts[j].len() > 0,
        decreases tokens.len() - k,
    {
        assert(parts[k as int] == tokens@[k as int]@);
        if tokens[k].len() == 0 {
            assert(split(c@, '/')[k as int].len() == 0);
            return None;
        }
        let t = token_string(input, n, &tokens[k]);
        chain.push(t);
        assert(chain@[k as int]@ == text(parts[k as int]));
        k = k + 1;
    }
    assert(parts.len() == tokens@.len());
    assert forall|j: int| 0 <= j < split(c@, '/').len() implies #[trigger] split(c@, '/')[j].len() > 0 by {
        assert(chain@[j]@ == text(parts[j]));
    }
    assert(chain.deep_view() =~= chain_model(c@));
    Some(chain)
}

/// The clause that the text `c` stands for, or `None` where a chain is not
/// well formed.
fn read_clause(input: &str, n: usize, c: &Vec<Piece>) -> (r: Option<Clause>)
    requires
        n == input@.len(),
        forall|j: int| 0 <= j < c@.len() ==> in_text(input@, #[trigger] c@[j]),
    ensures
        r is Some <==> clause_ok(c@),
        r is Some ==> r->Some_0@ == clause_model(c@),
{
    let chains = split_pieces(c, '|', Ghost(input@));
    let ghost parts = split(c@, '|');
    let mut v: Vec<Vec<Principal>> = Vec::new();
    let mut k: usize = 0;
    while k < chains.len()
        invariant
            n == input@.len(),
            views(chains@) == parts,
            parts == split(c@, '|'),
            forall|a: int, j: int|
                0 <= a < chains@.len() && 0 <= j < chains@[a]@.len() ==> in_text(input@, #[trigger] chains@[a]@[j]),
            k <= chains.len(),
            v@.len() == k,
            forall|j: int| 0 <= j < k ==> #[trigger] v@[j].deep_view() == chain_model(parts[j]) && chain_ok(parts[j]),
        decreases chains.len() - k,
    {
        assert(parts[k as int] == chains@[k as int]@);
        match read_chain(input, n, &chains[k]) {
            Some(chain) => {
                let ghost before = v@;
                v.push(chain);
                assert forall|j: int| 0 <= j <= k implies #[trigger] v@[j].deep_view() == chain_model(parts[j])
                    && chain_ok(parts[j]) by {
                    if j < k {
                        assert(v@[j] == before[j]);
                    }
                }
            },
            None => {
                return None;
            },
        }
        k = k + 1;
    }
    assert(parts.len() == chains@.len());
    assert forall|j: int| 0 <= j < split(c@, '|').len() implies chain_ok(#[trigger] split(c@, '|')[j]) by {
        assert(v@[j].deep_view() == chain_model(parts[j]));
    }
    let r = Clause(v);
    assert forall|m: ChainModel| r@.contains(m) implies clause_model(c@).contains(m) by {
        let j = choose|j: int| 0 <= j < v@.len() && v@[j].deep_view() == m;
        assert(m == chain_model(parts[j]));
    }
    assert forall|m: ChainModel| clause_model(c@).contains(m) implies r@.contains(m) by {
        let j = choose|j: int| 0 <= j < parts.len() && m == chain_model(parts[j]);
        assert(v@[j].deep_view() == m);
    }
    assert(r@ =~= clause_model(c@));
    Some(r)
}

/// The clauses that the formula `f` stands for, or `None` where a clause is
/// not well formed.
fn read_formula(input: &str, n: usize, f: &Vec<Piece>) -> (r: Option<Vec<Clause>>)
    requires
        n == input@.len(),
        forall|j: int| 0 <= j < f@.len() ==> in_text(input@, #[trigger] f@[j]),
    ensures
        r is Some <==> formula_ok(f@),
        r is Some ==> clause_set(r->Some_0@) == formula_model(f@),
{
    let clauses = split_pieces(f, '&', Ghost(input@));
    let ghost parts = split(f@, '&');
    let mut v: Vec<Clause> = Vec::new();
    let mut k: usize = 0;
    while k < clauses.len()
        invariant
            n == input@.len(),
            views(clauses@) == parts,
            parts == split(f@, '&'),
            forall|a: int, j: int|
                0 <= a < clauses@.len() && 0 <= j < clauses@[a]@.len() ==> in_text(input@, #[trigger] clauses@[a]@[j]),
            k <= clauses.len(),
            v@.len() == k,
            forall|j: int| 0 <= j < k ==> #[trigger] v@[j]@ == clause_model(parts[j]) && clause_ok(parts[j]),
        decreases clauses.len() - k,
    {
        assert(parts[k as int] == clauses@[k as int]@);
        match read_clause(input, n, &clauses[k]) {
            Some(clause) => {
                let ghost before = v@;
                v.push(clause);
                assert forall|j: int| 0 <= j <= k implies #[trigger] v@[j]@ == clause_model(parts[j])
                    && clause_ok(parts[j]) by {
                    if j < k {
                        assert(v@[j] == before[j]);
                    }
                }
            },
            None => {
                return None;
            },
        }
        k = k + 1;
    }
    assert(parts.len() == clauses@.len());
    assert forall|j: int| 0 <= j < split(f@, '&').len() implies clause_ok(#[trigger] split(f@, '&')[j]) by {
        assert(v@[j]@ == clause_model(parts[j]));
    }
    assert forall|m: ClauseModel| clause_set(v@).contains(m) implies formula_model(f@).contains(m) by {
        let j = choose|j: int| 0 <= j < v@.len() && v@[j]@ == m;
        assert(m == clause_model(parts[j]));
    }
    assert forall|m: ClauseModel| formula_model(f@).contains(m) implies clause_set(v@).contains(m) by {
        let j = choose|j: int| 0 <= j < parts.len() && m == clause_model(parts[j]);
        assert(v@[j]@ == m);
    }
    assert(clause_set(v@) =~= formula_model(f@));
    Some(v)
}

/// The component that a side stands for, or `None` where it is not well
/// formed.
fn read_side(input: &str, n: usize, f: &Vec<Piece>) -> (r: Option<Component>)
    requires
        n == input@.len(),
        forall|j: int| 0 <= j < f@.len() ==> in_text(input@, #[trigger] f@[j]),
    ensures
        r is Some <==> side_ok(f@),
        r is Some ==> r->Some_0@ == side_model(f@),
{
    if f.len() == 1 && f[0].ch == 'T' && f[0].literal {
        Some(Component::dc_true())
    } else if f.len() == 1 && f[0].ch == 'F' && f[0].literal {
        Some(Component::dc_false())
    } else {
        match read_formula(input, n, f) {
            Some(v) => Some(Component::DCFormula(v)),
            None => None,
        }
    }
}

impl Buckle {
    /// Reads a label from its text form `<secrecy>,<integrity>`; both
    /// components of the result are reduced. Text that does not follow the
    /// form is an error.
    pub fn parse(input: &str) -> (r: Result<Buckle, ParseError>)
        ensures
            r is Ok <==> is_label_text(input@),
            r is Ok ==> is_reduction(label_of_text(input@).secrecy, r->Ok_0.secrecy@),
            r is Ok ==> is_reduction(label_of_text(input@).integrity, r->Ok_0.integrity@),
    {
        let n = input.unicode_len();
        let pieces = match read_pieces(input) {
            Some(p) => p,
            None => {
                return Err(ParseError);
            },
        };
        let halves = split_pieces(&pieces, ',', Ghost(input@));
        assert(views(halves@) == sides(input@));
        if halves.len() != 2 {
            return Err(ParseError);
        }
        assert(halves@[0]@ == sides(input@)[0]);
        assert(halves@[1]@ == sides(input@)[1]);
        let secrecy = match read_side(input, n, &halves[0]) {
            Some(c) => c,
            None => {
                return Err(ParseError);
            },
        };
        let integrity = match read_side(input, n, &halves[1]) {
            Some(c) => c,
            None => {
                return Err(ParseError);
            },
        };
        Ok(Buckle::new(secrecy, integrity))
    }
}

} // verus!
