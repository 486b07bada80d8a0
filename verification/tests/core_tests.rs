use lolli::{Formula, Proof, Rule, Sequent, Term, TwoSidedSequent};

#[test]
fn test_negation_involutive() {
    let a = Formula::Atom("A".to_string());
    assert_eq!(a.negate().negate(), a);

    let complex = Formula::Tensor(
        Box::new(Formula::Atom("A".to_string())),
        Box::new(Formula::Atom("B".to_string())),
    );
    assert_eq!(complex.negate().negate(), complex);
}

#[test]
fn test_de_morgan() {
    let a = Formula::Atom("A".to_string());
    let b = Formula::Atom("B".to_string());

    // (A ⊗ B)⊥ = A⊥ ⅋ B⊥
    let tensor = Formula::Tensor(Box::new(a.clone()), Box::new(b.clone()));
    let expected = Formula::Par(
        Box::new(Formula::NegAtom("A".to_string())),
        Box::new(Formula::NegAtom("B".to_string())),
    );
    assert_eq!(tensor.negate(), expected);
}

#[test]
fn test_polarity() {
    assert!(Formula::Atom("A".to_string()).is_positive());
    assert!(Formula::NegAtom("A".to_string()).is_negative());
    assert!(Formula::Tensor(
        Box::new(Formula::Atom("A".to_string())),
        Box::new(Formula::Atom("B".to_string()))
    )
    .is_positive());
    assert!(Formula::Par(
        Box::new(Formula::Atom("A".to_string())),
        Box::new(Formula::Atom("B".to_string()))
    )
    .is_negative());
}

#[test]
fn test_two_sided_to_one_sided() {
    let seq = TwoSidedSequent::new(
        vec![Formula::Atom("A".to_string())],
        vec![Formula::Atom("B".to_string())],
    );

    let one_sided = seq.to_one_sided();
    assert_eq!(one_sided.linear.len(), 2);
    assert_eq!(one_sided.linear[0], Formula::NegAtom("A".to_string()));
    assert_eq!(one_sided.linear[1], Formula::Atom("B".to_string()));
}

#[test]
fn test_focus_unfocus() {
    let seq = Sequent::new(vec![
        Formula::Atom("A".to_string()),
        Formula::Atom("B".to_string()),
    ]);

    let focused = seq.focus_on(0).unwrap();
    assert_eq!(focused.focus, Some(Formula::Atom("A".to_string())));
    assert_eq!(focused.linear.len(), 1);

    let unfocused = focused.unfocus();
    assert_eq!(unfocused.linear.len(), 2);
    assert!(unfocused.focus.is_none());
}

#[test]
fn test_cut_count() {
    let leaf = Proof {
        conclusion: Sequent::new(vec![]),
        rule: Rule::Axiom,
        premises: vec![],
    };
    assert_eq!(leaf.cut_count(), 0);
    assert!(leaf.is_cut_free());
}

#[test]
fn test_depth() {
    let leaf = Proof {
        conclusion: Sequent::new(vec![]),
        rule: Rule::Axiom,
        premises: vec![],
    };
    assert_eq!(leaf.depth(), 1);

    let with_premise = Proof {
        conclusion: Sequent::new(vec![]),
        rule: Rule::BottomIntro,
        premises: vec![leaf],
    };
    assert_eq!(with_premise.depth(), 2);
}

#[test]
fn test_free_vars() {
    let t = Term::Abs(
        "x".to_string(),
        Box::new(Term::App(
            Box::new(Term::Var("x".to_string())),
            Box::new(Term::Var("y".to_string())),
        )),
    );
    let fv = t.free_vars();
    assert!(!fv.contains("x"));
    assert!(fv.contains("y"));
}

#[test]
fn test_substitute() {
    let t = Term::Var("x".to_string());
    let result = t.substitute("x", &Term::Unit);
    assert_eq!(result, Term::Unit);
}
