use dclabel::{Buckle, Clause, Component, HasPrivilege, Label};
use quickcheck::QuickCheck;

const NAMES: [&str; 4] = ["a", "b", "c", "d"];

fn clause_of(chains: &[Vec<u8>]) -> Clause {
    Clause::new_from_vec(
        chains
            .iter()
            .take(3)
            .map(|chain| chain.iter().take(2).map(|n| NAMES[(*n % 4) as usize]).collect())
            .filter(|chain: &Vec<&str>| !chain.is_empty())
            .collect(),
    )
}

fn component_of(is_false: bool, clauses: &[Vec<Vec<u8>>]) -> Component {
    if is_false {
        return Component::dc_false();
    }
    clauses
        .iter()
        .take(4)
        .fold(Component::dc_true(), |acc, c| acc & Component::from([clause_of(c)]))
}

fn label_of(s: (bool, Vec<Vec<Vec<u8>>>), i: (bool, Vec<Vec<Vec<u8>>>)) -> Buckle {
    Buckle::new(component_of(s.0, &s.1), component_of(i.0, &i.1))
}

fn check<A: quickcheck::Testable>(f: A) {
    QuickCheck::new().tests(200).quickcheck(f);
}

type Side = (bool, Vec<Vec<Vec<u8>>>);

#[test]
fn prop_implies_itself() {
    fn prop(c: Vec<Vec<u8>>, s: Side, t: Side) -> bool {
        let clause = clause_of(&c);
        let comp = component_of(s.0, &s.1);
        let label = label_of(s.clone(), t);
        clause.implies(&clause) && comp.implies(&comp) && label.can_flow_to(&label)
    }
    check(prop as fn(Vec<Vec<u8>>, Side, Side) -> bool);
}

#[test]
fn prop_false_absorbs() {
    fn prop(s: Side) -> bool {
        let comp = component_of(s.0, &s.1);
        Component::dc_false().implies(&comp) && comp.implies(&Component::dc_false()) == comp.is_false()
    }
    check(prop as fn(Side) -> bool);
}

#[test]
fn prop_bottom_and_top() {
    fn prop(s: Side, i: Side) -> bool {
        let l = label_of(s, i);
        Buckle::bottom().can_flow_to(&l) && l.can_flow_to(&Buckle::top())
    }
    check(prop as fn(Side, Side) -> bool);
}

#[test]
fn prop_join_and_meet_bound() {
    fn prop(s1: Side, i1: Side, s2: Side, i2: Side) -> bool {
        let a = label_of(s1, i1);
        let b = label_of(s2, i2);
        let j = a.clone().lub(b.clone());
        let m = a.clone().glb(b.clone());
        a.can_flow_to(&j) && b.can_flow_to(&j) && m.can_flow_to(&a) && m.can_flow_to(&b)
    }
    check(prop as fn(Side, Side, Side, Side) -> bool);
}

#[test]
fn prop_reduce_idempotent_and_minimal() {
    fn prop(s: Side) -> bool {
        let mut c = component_of(s.0, &s.1);
        let before = c.clone();
        c.reduce();
        let once = c.clone();
        c.reduce();
        let minimal = match &once {
            Component::DCFalse => true,
            Component::DCFormula(v) => (0..v.len()).all(|i| {
                (0..v.len()).all(|j| i == j || !v[i].implies(&v[j]))
            }),
        };
        once == c && minimal && once.implies(&before) && before.implies(&once)
    }
    check(prop as fn(Side) -> bool);
}

#[test]
fn prop_conjunction_implies_side() {
    fn prop(s1: Side, s2: Side) -> bool {
        let a = component_of(s1.0, &s1.1);
        let b = component_of(s2.0, &s2.1);
        (a & b.clone()).implies(&b)
    }
    check(prop as fn(Side, Side) -> bool);
}

#[test]
fn prop_endorse_is_downgrade_to() {
    fn prop(s: Side, i: Side, p: Side) -> bool {
        let l = label_of(s, i);
        let privilege = component_of(p.0, &p.1);
        let target = Buckle {
            secrecy: l.secrecy.clone(),
            integrity: l.integrity.clone() & privilege.clone(),
        };
        l.clone().downgrade_to(target, &privilege) == l.endorse(&privilege)
    }
    check(prop as fn(Side, Side, Side) -> bool);
}
