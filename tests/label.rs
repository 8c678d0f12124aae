use dclabel::{Buckle, Clause, Component, HasPrivilege, Label};

#[test]
fn mod_test_can_flow_to_with_privilege() {
    let privilege = &Component::formula([["go_grader"]]);
    // declassification
    assert_eq!(
        true,
        Buckle::new([["go_grader"]], [["go_grader"]])
            .can_flow_to_with_privilege(&Buckle::new(true, [["go_grader"]]), privilege)
    );

    assert_eq!(
        true,
        Buckle::new([["go_grader"], ["bob"]], [["go_grader"]])
            .can_flow_to_with_privilege(&Buckle::new([["bob"]], [["go_grader"]]), privilege)
    );

    assert_eq!(
        true,
        Buckle::new([vec!["go_grader", "staff"], vec!["bob"]], [["go_grader"]])
            .can_flow_to_with_privilege(&Buckle::new([["bob"]], [["go_grader"]]), privilege)
    );

    assert_eq!(
        true,
        Buckle::new([vec!["go_grader", "staff"], vec!["bob"]], [["go_grader"]])
            .can_flow_to_with_privilege(&Buckle::new([["bob"]], [["go_grader"]]), privilege)
    );

    assert_eq!(
        true,
        Buckle::new(
            [
                vec!["go_grader", "staff"],
                vec!["go_grader", "alice"],
                vec!["bob"]
            ],
            [["go_grader"]]
        )
        .can_flow_to_with_privilege(&Buckle::new([["bob"]], [["go_grader"]]), privilege)
    );

    assert_eq!(
        true,
        Buckle::new(
            [
                vec!["go_grader", "staff"],
                vec!["go_grader", "alice"],
                vec!["bob"]
            ],
            [["go_grader"]]
        )
        .can_flow_to_with_privilege(&Buckle::new([["bob"]], [["go_grader"]]), privilege)
    );

    // banned declassification
    assert_eq!(
        false,
        Buckle::new([["go_grader"], ["staff"], ["bob"]], [["go_grader"]])
            .can_flow_to_with_privilege(&Buckle::new([["bob"]], [["go_grader"]]), privilege)
    );

    // endorse
    assert_eq!(
        true,
        Buckle::new([["bob"]], true)
            .can_flow_to_with_privilege(&Buckle::new([["bob"]], [["go_grader"]]), privilege)
    );
}

#[test]
fn mod_test_downgrade() {
    // True can't downgrade anything
    assert_eq!(
        Buckle::new(true, true),
        Buckle::new(true, true).downgrade(&true.into())
    );
    assert_eq!(
        Buckle::new(false, true),
        Buckle::new(false, true).downgrade(&true.into())
    );
    assert_eq!(
        Buckle::new(true, false),
        Buckle::new(true, false).downgrade(&true.into())
    );
    assert_eq!(
        Buckle::new([["amit"]], false),
        Buckle::new([["amit"]], false).downgrade(&true.into())
    );
    assert_eq!(
        Buckle::new(false, [["amit"]]),
        Buckle::new(false, [["amit"]]).downgrade(&true.into())
    );

    // False downgrades everything
    assert_eq!(
        Buckle::new(true, false),
        Buckle::new(true, true).downgrade(&false.into())
    );
    assert_eq!(
        Buckle::new(true, false),
        Buckle::new(false, true).downgrade(&false.into())
    );
    assert_eq!(
        Buckle::new(true, false),
        Buckle::new(true, false).downgrade(&false.into())
    );
    assert_eq!(
        Buckle::new(true, false),
        Buckle::new([["amit"]], false).downgrade(&false.into())
    );
    assert_eq!(
        Buckle::new(true, false),
        Buckle::new(false, [["amit"]]).downgrade(&false.into())
    );
}

#[test]
fn mod_test_extreme_can_flow_to() {
    assert_eq!(true, Buckle::bottom().can_flow_to(&Buckle::top()));
    assert_eq!(true, Buckle::bottom().can_flow_to(&Buckle::public()));
    assert_eq!(true, Buckle::public().can_flow_to(&Buckle::top()));

    assert_eq!(false, Buckle::top().can_flow_to(&Buckle::bottom()));
    assert_eq!(false, Buckle::top().can_flow_to(&Buckle::public()));
    assert_eq!(false, Buckle::public().can_flow_to(&Buckle::bottom()));
}

#[test]
fn mod_test_basic_can_flow_to_integrity() {
    assert_eq!(
        true,
        Buckle::new(true, [["Amit"]]).can_flow_to(&Buckle::public())
    );

    assert_eq!(
        true,
        Buckle::new(true, [["Amit", "Yue"]]).can_flow_to(&Buckle::public())
    );

    assert_eq!(
        true,
        Buckle::new(true, [["Amit"], ["Yue"]]).can_flow_to(&Buckle::new(true, [["Amit"]]))
    );

    assert_eq!(
        true,
        Buckle::new(true, [["Amit"], ["Yue"]])
            .can_flow_to(&Buckle::new(true, [["Amit", "Yue"]]))
    );

    assert_eq!(
        false,
        Buckle::new(true, [["Amit", "Yue"]])
            .can_flow_to(&Buckle::new(true, [["Amit"], ["Yue"]]))
    );
}

#[test]
fn mod_test_basic_can_flow_to_secrecy() {
    assert_eq!(
        false,
        Buckle::new([["Amit"]], true).can_flow_to(&Buckle::public())
    );

    assert_eq!(
        false,
        Buckle::new([["Amit", "Yue"]], true).can_flow_to(&Buckle::public())
    );

    assert_eq!(
        false,
        Buckle::new([["Amit"], ["Yue"]], true).can_flow_to(&Buckle::new([["Amit"]], true))
    );

    assert_eq!(
        false,
        Buckle::new([["Amit"], ["Yue"]], true).can_flow_to(&Buckle::new([["Amit"]], true))
    );

    assert_eq!(
        false,
        Buckle::new([["Amit"], ["Yue"]], true)
            .can_flow_to(&Buckle::new([["Amit", "Yue"]], true))
    );

    assert_eq!(
        true,
        Buckle::new([["Amit", "Yue"]], true)
            .can_flow_to(&Buckle::new([["Amit"], ["Yue"]], true))
    );
}

#[test]
fn mod_test_lub() {
    assert_eq!(Buckle::top(), Buckle::public().lub(Buckle::top()));
    assert_eq!(Buckle::top(), Buckle::top().lub(Buckle::public()));
    assert_eq!(Buckle::top(), Buckle::bottom().lub(Buckle::top()));
    assert_eq!(Buckle::public(), Buckle::bottom().lub(Buckle::public()));

    assert_eq!(
        Buckle::new([["Amit"], ["Yue"]], true),
        Buckle::new([["Amit"]], true).lub(Buckle::new([["Yue"]], true))
    );

    assert_eq!(
        Buckle::new(true, [["Amit", "Yue"]]),
        Buckle::new(true, [["Amit"]]).lub(Buckle::new(true, [["Yue"]]))
    );
}

#[test]
fn mod_test_glb() {
    assert_eq!(Buckle::public(), Buckle::public().glb(Buckle::top()));
    assert_eq!(Buckle::public(), Buckle::top().glb(Buckle::public()));
    assert_eq!(Buckle::bottom(), Buckle::bottom().glb(Buckle::top()));
    assert_eq!(Buckle::bottom(), Buckle::bottom().glb(Buckle::public()));

    assert_eq!(
        Buckle::new([["Amit", "Yue"]], true),
        Buckle::new([["Amit"]], true).glb(Buckle::new([["Yue"]], true))
    );

    assert_eq!(
        Buckle::new(true, [["Amit"], ["Yue"]]),
        Buckle::new(true, [["Amit"]]).glb(Buckle::new(true, [["Yue"]]))
    );
}

#[test]
fn mod_test_parse() {
    assert_eq!(Buckle::parse("T,T"), Ok(Buckle::public()));
    assert_eq!(Buckle::parse("T,F"), Ok(Buckle::bottom()));
    assert_eq!(Buckle::parse("F,T"), Ok(Buckle::top()));
    assert_eq!(
        Buckle::parse("Amit,Yue"),
        Ok(Buckle::new([["Amit"]], [["Yue"]]))
    );
    assert_eq!(
        Buckle::parse("Amit|Yue,Yue"),
        Ok(Buckle::new([["Amit", "Yue"]], [["Yue"]]))
    );
    assert_eq!(
        Buckle::parse("Amit&Yue,Yue"),
        Ok(Buckle::new([["Amit"], ["Yue"]], [["Yue"]]))
    );
    assert_eq!(
        Buckle::parse("Amit&Yue|Natalie|Gongqi&Deian,Yue"),
        Ok(Buckle::new(
            [
                Clause::from(["Amit"]),
                Clause::from(["Yue", "Natalie", "Gongqi"]),
                Clause::from(["Deian"])
            ],
            [["Yue"]]
        ))
    );
    assert_eq!(
        Buckle::parse(r#"Am\&it&Yue,Y\|ue"#),
        Ok(Buckle::new([["Am&it"], ["Yue"]], [["Y|ue"]]))
    );

    assert_eq!(
        Buckle::parse("Amit/test,Amit"),
        Ok(Buckle::new(
            Component::from([Clause::new_from_vec(vec![vec!["Amit", "test"]])]),
            [["Amit"]]
        ))
    )
}
