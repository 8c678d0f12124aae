use dclabel::{Clause, Component};

#[test]
fn component_test_x_implies_x() {
    assert!(Component::from(false).implies(&Component::from(false)));
    assert!(Component::from(true).implies(&Component::from(true)));
    assert!(Component::from([["Amit"]]).implies(&Component::from([["Amit"]])));
}

#[test]
fn test_true_not_implies_not_true() {
    assert_eq!(
        false,
        Component::dc_true().implies(&Component::from([["Amit"]]))
    );
}

#[test]
fn test_nothing_implies_false() {
    assert_eq!(false, Component::dc_true().implies(&Component::dc_false()));
}

#[test]
fn test_false_implies_everything() {
    assert!(Component::dc_false().implies(&Component::dc_false()));
    assert!(Component::dc_false().implies(&Component::dc_true()));
    assert!(Component::dc_false().implies(&Component::from([["Amit"]])));
}

#[test]
fn test_everything_implies_true() {
    assert!(Component::dc_false().implies(&Component::dc_true()));
    assert!(Component::from([["Amit"]]).implies(&Component::dc_true()));
}

#[test]
fn test_superset_implies_subset() {
    assert!(Component::from([["Amit"], ["Yue"]]).implies(&Component::from([["Amit"]])));
}

#[test]
fn test_reduce_simplifies() {
    {
        let mut component = Component::from([["Amit", "Yue"]]) & Component::from([["Yue"]]);
        component.reduce();
        assert_eq!(Component::from([["Yue"]]), component);
    }
    {
        let mut component = Component::from([["Amit", "Yue"]]) & Component::from([["Amit"]]);
        component.reduce();
        assert_eq!(Component::from([["Amit"]]), component);
    }
}

#[test]
fn test_or() {
    assert_eq!(
        Component::from([["Amit", "Yue"], ["David", "Yue"]]),
        Component::from([["Amit"], ["David"]]) | Component::from([["Yue"]])
    );
}

#[test]
fn or_distributes_over_every_pair_of_clauses() {
    assert_eq!(
        Component::from([["a", "c"], ["a", "d"], ["b", "c"], ["b", "d"]]),
        Component::from([["a"], ["b"]]) | Component::from([["c"], ["d"]])
    );
}

#[test]
fn or_with_false_and_true() {
    assert_eq!(Component::from([["a"]]), Component::from([["a"]]) | Component::dc_false());
    assert_eq!(Component::from([["a"]]), Component::dc_false() | Component::from([["a"]]));
    assert_eq!(Component::dc_true(), Component::from([["a"]]) | Component::dc_true());
    assert_eq!(Component::dc_true(), Component::dc_true() | Component::from([["a"]]));
}

#[test]
fn and_with_false_and_true() {
    assert_eq!(Component::dc_false(), Component::from([["a"]]) & Component::dc_false());
    assert_eq!(Component::dc_false(), Component::dc_false() & Component::from([["a"]]));
    assert_eq!(Component::from([["a"]]), Component::dc_true() & Component::from([["a"]]));
    assert_eq!(
        Component::from([["a"], ["b"]]),
        Component::from([["a"]]) & Component::from([["b"]])
    );
}

#[test]
fn reduce_keeps_false_and_true() {
    let mut f = Component::dc_false();
    f.reduce();
    assert_eq!(Component::dc_false(), f);
    let mut t = Component::dc_true();
    t.reduce();
    assert_eq!(Component::dc_true(), t);
}

#[test]
fn reduce_twice_changes_nothing() {
    let mut c = Component::from([vec!["a", "b"], vec!["a"], vec!["c"], vec!["c", "d"], vec!["e", "f"]]);
    c.reduce();
    let once = c.clone();
    c.reduce();
    assert_eq!(once, c);
    assert_eq!(Component::from([vec!["a"], vec!["c"], vec!["e", "f"]]), c);
}

#[test]
fn reduce_keeps_one_of_equal_clauses() {
    let mut c = Component::from([["a", "b"], ["b", "a"]]);
    c.reduce();
    assert_eq!(Component::from([["a", "b"]]), c);
}

#[test]
fn reduce_keeps_the_delegating_chain() {
    let mut c = Component::from([
        Clause::new_from_vec(vec![vec!["Yue"]]),
        Clause::new_from_vec(vec![vec!["Yue", "hello"]]),
    ]);
    c.reduce();
    assert_eq!(Component::from([Clause::new_from_vec(vec![vec!["Yue"]])]), c);
}

#[test]
fn truth_tests() {
    assert!(Component::dc_true().is_true());
    assert!(!Component::dc_true().is_false());
    assert!(Component::dc_false().is_false());
    assert!(!Component::dc_false().is_true());
    assert!(!Component::from([["a"]]).is_true());
    assert!(!Component::from([["a"]]).is_false());
    assert_eq!(Component::formula([["a"]]), Component::from([["a"]]));
}

#[test]
fn implication_is_not_symmetric() {
    let strong = Component::from([["a"], ["b"]]);
    let weak = Component::from([["a", "b"]]);
    assert!(strong.implies(&weak));
    assert!(!weak.implies(&strong));
}
