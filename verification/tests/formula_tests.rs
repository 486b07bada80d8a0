use lolli::{Formula, Sequent, TwoSidedSequent};

fn a(name: &str) -> Formula {
    Formula::atom(name)
}

fn every_constructor() -> Vec<Formula> {
    vec![
        a("A"),
        Formula::neg_atom("A"),
        Formula::tensor(a("A"), a("B")),
        Formula::par(a("A"), a("B")),
        Formula::One,
        Formula::Bottom,
        Formula::with(a("A"), a("B")),
        Formula::plus(a("A"), a("B")),
        Formula::Top,
        Formula::Zero,
        Formula::of_course(a("A")),
        Formula::why_not(a("A")),
        Formula::lolli(a("A"), a("B")),
    ]
}

fn has_lolli(f: &Formula) -> bool {
    match f {
        Formula::Lolli(_, _) => true,
        Formula::Tensor(x, y) | Formula::Par(x, y) | Formula::With(x, y) | Formula::Plus(x, y) => {
            has_lolli(x) || has_lolli(y)
        }
        Formula::OfCourse(x) | Formula::WhyNot(x) => has_lolli(x),
        _ => false,
    }
}

#[test]
fn negation_follows_the_de_morgan_table() {
    let na = Formula::neg_atom("A");
    let nb = Formula::neg_atom("B");
    assert_eq!(a("A").negate(), na);
    assert_eq!(na.negate(), a("A"));
    assert_eq!(Formula::tensor(a("A"), a("B")).negate(), Formula::par(na.clone(), nb.clone()));
    assert_eq!(Formula::par(a("A"), a("B")).negate(), Formula::tensor(na.clone(), nb.clone()));
    assert_eq!(Formula::with(a("A"), a("B")).negate(), Formula::plus(na.clone(), nb.clone()));
    assert_eq!(Formula::plus(a("A"), a("B")).negate(), Formula::with(na.clone(), nb.clone()));
    assert_eq!(Formula::One.negate(), Formula::Bottom);
    assert_eq!(Formula::Bottom.negate(), Formula::One);
    assert_eq!(Formula::Top.negate(), Formula::Zero);
    assert_eq!(Formula::Zero.negate(), Formula::Top);
    assert_eq!(Formula::of_course(a("A")).negate(), Formula::why_not(na.clone()));
    assert_eq!(Formula::why_not(a("A")).negate(), Formula::of_course(na.clone()));
    assert_eq!(Formula::lolli(a("A"), a("B")).negate(), Formula::tensor(a("A"), nb));
}

#[test]
fn negation_is_an_involution_without_lolli() {
    for f in every_constructor() {
        if !has_lolli(&f) {
            assert_eq!(f.negate().negate(), f);
        }
    }
    let deep = Formula::with(
        Formula::of_course(Formula::par(a("A"), Formula::Zero)),
        Formula::why_not(Formula::tensor(Formula::neg_atom("B"), Formula::Top)),
    );
    assert_eq!(deep.negate().negate(), deep);
    // A linear implication comes back as its expansion.
    assert_eq!(
        Formula::lolli(a("A"), a("B")).negate().negate(),
        Formula::par(Formula::neg_atom("A"), a("B"))
    );
}

#[test]
fn every_formula_has_exactly_one_polarity() {
    let positive = [true, false, true, false, true, false, false, true, false, true, true, false, false];
    for (f, expected) in every_constructor().iter().zip(positive.iter()) {
        assert_eq!(f.is_positive(), *expected);
        assert_eq!(f.is_negative(), !*expected);
        assert!(f.is_positive() ^ f.is_negative());
    }
}

#[test]
fn desugaring_removes_every_lolli() {
    assert_eq!(
        Formula::lolli(a("A"), a("B")).desugar(),
        Formula::par(Formula::neg_atom("A"), a("B"))
    );
    // (A ⊸ B) ⊸ C: the left side is negated, then desugared.
    let nested = Formula::lolli(Formula::lolli(a("A"), a("B")), a("C"));
    assert_eq!(
        nested.desugar(),
        Formula::par(Formula::tensor(a("A"), Formula::neg_atom("B")), a("C"))
    );
    let inside = Formula::of_course(Formula::tensor(
        Formula::lolli(a("A"), Formula::lolli(a("B"), a("C"))),
        Formula::One,
    ));
    let desugared = inside.desugar();
    assert!(!has_lolli(&desugared));
    assert_eq!(
        desugared,
        Formula::of_course(Formula::tensor(
            Formula::par(
                Formula::neg_atom("A"),
                Formula::par(Formula::neg_atom("B"), a("C"))
            ),
            Formula::One,
        ))
    );
    for f in every_constructor() {
        assert!(!has_lolli(&f.desugar()));
        if !has_lolli(&f) {
            assert_eq!(f.desugar(), f);
        }
    }
}

#[test]
fn formulas_print_in_three_syntaxes() {
    let f = Formula::lolli(
        Formula::tensor(Formula::of_course(a("A")), Formula::neg_atom("B")),
        Formula::par(
            Formula::with(Formula::One, Formula::Bottom),
            Formula::plus(Formula::Top, Formula::why_not(Formula::Zero)),
        ),
    );
    assert_eq!(f.pretty(), "((!A ⊗ B⊥) ⊸ ((1 & ⊥) ⅋ (⊤ ⊕ ?0)))");
    assert_eq!(f.pretty_ascii(), "((!A * B^) -o ((1 & bot) | (top + ?0)))");
    assert_eq!(
        f.pretty_latex(),
        "((\\bang A \\otimes B^{\\bot}) \\multimap ((1 \\with \\bot) \\parr (\\top \\oplus \\whynot 0)))"
    );
    assert_eq!(
        f.debug_text(),
        "Lolli(Tensor(OfCourse(Atom(\"A\")), NegAtom(\"B\")), Par(With(One, Bottom), Plus(Top, WhyNot(Zero))))"
    );
}

#[test]
fn debug_text_is_what_the_formatter_writes() {
    let mut formulas = every_constructor();
    formulas.push(Formula::atom("a\"b\\c"));
    formulas.push(Formula::neg_atom("tab\there"));
    formulas.push(Formula::atom("é⊗"));
    for f in formulas {
        assert_eq!(f.debug_text(), format!("{:?}", f));
    }
    // The quotes are part of the text: a name is not written as it stands.
    assert_eq!(a("A").debug_text(), "Atom(\"A\")");
    assert_ne!(a("A").debug_text(), "Atom(A)");
}

#[test]
fn same_compares_constructor_by_constructor() {
    let all = every_constructor();
    for (i, f) in all.iter().enumerate() {
        for (j, g) in all.iter().enumerate() {
            assert_eq!(f.same(g), i == j);
            assert_eq!(f.same(g), f == g);
        }
    }
    assert!(!a("A").same(&a("B")));
    assert!(Formula::tensor(a("A"), a("B")).clone().same(&Formula::tensor(a("A"), a("B"))));
}

#[test]
fn sequents_focus_and_unfocus() {
    let seq = Sequent::new(vec![a("A"), a("B"), a("C")]);
    assert!(!seq.is_empty());
    assert!(Sequent::new(vec![]).is_empty());
    assert!(seq.unrestricted.is_empty());
    assert!(seq.focus.is_none());

    assert!(seq.focus_on(3).is_none());
    let focused = seq.focus_on(1).unwrap();
    assert_eq!(focused.linear, vec![a("A"), a("C")]);
    assert_eq!(focused.focus, Some(a("B")));
    assert!(!focused.is_empty());

    let back = focused.unfocus();
    assert_eq!(back.linear, vec![a("A"), a("C"), a("B")]);
    assert_eq!(back.focus, None);
    assert_eq!(seq.unfocus(), seq);

    // A sequent with nothing linear but a focus is not empty.
    let only = Sequent::new(vec![a("A")]).focus_on(0).unwrap();
    assert!(only.linear.is_empty());
    assert!(!only.is_empty());
    assert!(seq.same(&seq.clone()));
    assert!(!seq.same(&focused));
}

#[test]
fn two_sided_sequents_convert_and_print() {
    let seq = TwoSidedSequent::new(
        vec![Formula::tensor(a("A"), a("B")), Formula::of_course(a("C"))],
        vec![a("D"), Formula::Top],
    );
    let one_sided = seq.to_one_sided();
    assert_eq!(
        one_sided.linear,
        vec![
            Formula::par(Formula::neg_atom("A"), Formula::neg_atom("B")),
            Formula::why_not(Formula::neg_atom("C")),
            a("D"),
            Formula::Top,
        ]
    );
    assert!(one_sided.unrestricted.is_empty());
    assert!(one_sided.focus.is_none());
    assert_eq!(seq.pretty(), "(A ⊗ B), !C ⊢ D, ⊤");
    assert_eq!(one_sided.pretty(), "⊢ (A⊥ ⅋ B⊥), ?C⊥, D, ⊤");
    assert_eq!(TwoSidedSequent::new(vec![], vec![]).pretty(), " ⊢ ");
    assert_eq!(Sequent::new(vec![]).pretty(), "⊢ ");
    assert_eq!(seq.clone(), seq);
}
