use dclabel::parse::ParseError;
use dclabel::{Buckle, Clause, Component, HasPrivilege, Label};

#[test]
fn parse_rejects_malformed_text() {
    assert_eq!(Buckle::parse("Amit"), Err(ParseError));
    assert_eq!(Buckle::parse(""), Err(ParseError));
    assert_eq!(Buckle::parse("A,B,C"), Err(ParseError));
    assert_eq!(Buckle::parse("A&&B,C"), Err(ParseError));
    assert_eq!(Buckle::parse("A|,C"), Err(ParseError));
    assert_eq!(Buckle::parse("A/,C"), Err(ParseError));
    assert_eq!(Buckle::parse(",C"), Err(ParseError));
    assert_eq!(Buckle::parse("A b,C"), Err(ParseError));
    assert_eq!(Buckle::parse(r#"A\x,C"#), Err(ParseError));
    assert_eq!(Buckle::parse(r#"A,C\"#), Err(ParseError));
    assert_eq!(Buckle::parse("Ämit,C"), Err(ParseError));
}

#[test]
fn parse_escapes_every_special_character() {
    assert_eq!(
        Buckle::parse(r#"a\,b&c\/d,e\\f"#),
        Ok(Buckle::new([["a,b"], ["c/d"]], [[r#"e\f"#]]))
    );
}

#[test]
fn parse_letters_inside_formulas_are_principals() {
    assert_eq!(
        Buckle::parse("T&Tom,F|Fred"),
        Ok(Buckle::new([["T"], ["Tom"]], [["F", "Fred"]]))
    );
}

#[test]
fn parse_reduces_both_sides() {
    assert_eq!(
        Buckle::parse("a|b&a,c&c|d"),
        Ok(Buckle::new([["a"]], [["c"]]))
    );
}

#[test]
fn parse_builds_delegation_chains() {
    assert_eq!(
        Buckle::parse("a/b/c|d,T"),
        Ok(Buckle::new(
            [Clause::new_from_vec(vec![vec!["a", "b", "c"], vec!["d"]])],
            true
        ))
    );
}

#[test]
fn new_reduces_its_components() {
    let l = Buckle::new([vec!["a", "b"], vec!["a"]], [vec!["c"], vec!["c", "d"]]);
    assert_eq!(Component::from([["a"]]), l.secrecy);
    assert_eq!(Component::from([["c"]]), l.integrity);
}

#[test]
fn label_reduce_removes_redundant_clauses() {
    let mut l = Buckle {
        secrecy: Component::from([vec!["a", "b"], vec!["a"]]),
        integrity: Component::from([vec!["c"], vec!["c", "d"]]),
    };
    l.reduce();
    assert_eq!(Buckle::new([["a"]], [["c"]]), l);
}

#[test]
fn endorse_adds_privilege_to_integrity() {
    let l = Buckle::new([["a"]], [["b"]]);
    let e = l.endorse(&Component::from([["p"]]));
    assert_eq!(Component::from([["a"]]), e.secrecy);
    assert_eq!(Component::from([["b"], ["p"]]), e.integrity);
}

#[test]
fn endorse_equals_downgrade_to_strengthened_self() {
    let p = Component::from([vec!["p"], vec!["q", "r"]]);
    let l = Buckle::new([["a"], ["b"]], [["c"]]);
    let target = Buckle {
        secrecy: l.secrecy.clone(),
        integrity: l.integrity.clone() & p.clone(),
    };
    assert_eq!(l.clone().downgrade_to(target, &p), l.endorse(&p));
}

#[test]
fn downgrade_removes_vouched_clauses() {
    let l = Buckle::new([vec!["go_grader"], vec!["bob"], vec!["go_grader", "staff"]], [["x"]]);
    let d = l.downgrade(&Component::from([["go_grader"]]));
    assert_eq!(Component::from([["bob"]]), d.secrecy);
    assert_eq!(Component::from([["go_grader"], ["x"]]), d.integrity);
}

#[test]
fn downgrade_by_delegating_chain() {
    let l = Buckle::new(
        [Clause::new_from_vec(vec![vec!["org", "alice"]]), Clause::from(["bob"])],
        true,
    );
    let p = Component::from([Clause::new_from_vec(vec![vec!["org"]])]);
    let d = l.downgrade(&p);
    assert_eq!(Component::from([["bob"]]), d.secrecy);
}

#[test]
fn downgrade_to_refused_keeps_label() {
    let l = Buckle::new([["go_grader"], ["staff"], ["bob"]], [["go_grader"]]);
    let target = Buckle::new([["bob"]], [["go_grader"]]);
    let p = Component::formula([["go_grader"]]);
    assert_eq!(l.clone().downgrade_to(target, &p), l);
}

#[test]
fn downgrade_to_allowed_gives_target() {
    let l = Buckle::new([["go_grader"], ["bob"]], [["go_grader"]]);
    let target = Buckle::new([["bob"]], [["go_grader"]]);
    let p = Component::formula([["go_grader"]]);
    assert_eq!(l.downgrade_to(target.clone(), &p), target);
}

#[test]
fn lattice_bounds_on_examples() {
    let a = Buckle::new([["a"]], [["x"], ["y"]]);
    let b = Buckle::new([["b"]], [["y"]]);
    let j = a.clone().lub(b.clone());
    let m = a.clone().glb(b.clone());
    assert!(a.can_flow_to(&j) && b.can_flow_to(&j));
    assert!(m.can_flow_to(&a) && m.can_flow_to(&b));
    assert!(a.can_flow_to(&a));
    assert!(Buckle::bottom().can_flow_to(&a) && a.can_flow_to(&Buckle::top()));
    assert_eq!(Buckle::new([["a"], ["b"]], [["y"]]), j);
    assert_eq!(Buckle::new([["a", "b"]], [["x"], ["y"]]), m);
}
