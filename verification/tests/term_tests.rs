use lolli::text::{decimal_string, join_strings, repeat_str, sort_strings, str_before};
use lolli::{normalize, Term};

fn var(name: &str) -> Term {
    Term::Var(name.to_string())
}

fn s(name: &str) -> String {
    name.to_string()
}

#[test]
fn binders_take_their_variables_out_of_the_free_ones() {
    let let_pair = Term::LetPair(
        s("x"),
        s("y"),
        Box::new(var("p")),
        Box::new(Term::Pair(Box::new(var("x")), Box::new(Term::Pair(Box::new(var("y")), Box::new(var("z")))))),
    );
    let fv = let_pair.free_vars();
    assert!(fv.contains("p"));
    assert!(fv.contains("z"));
    assert!(!fv.contains("x"));
    assert!(!fv.contains("y"));
    assert_eq!(fv.len(), 2);

    // The bound term itself is outside the binder.
    let shadow = Term::LetPair(s("x"), s("y"), Box::new(var("x")), Box::new(var("x")));
    assert!(shadow.free_vars().contains("x"));

    let case = Term::Case(
        Box::new(var("e")),
        s("x"),
        Box::new(Term::App(Box::new(var("x")), Box::new(var("y")))),
        s("y"),
        Box::new(Term::App(Box::new(var("x")), Box::new(var("y")))),
    );
    let fv = case.free_vars();
    assert!(fv.contains("e"));
    assert!(fv.contains("x"));
    assert!(fv.contains("y"));
    assert_eq!(fv.len(), 3);

    let copy = Term::Copy(
        Box::new(var("r")),
        s("x"),
        s("y"),
        Box::new(Term::Discard(Box::new(var("x")), Box::new(Term::Derelict(Box::new(var("y")))))),
    );
    let fv = copy.free_vars();
    assert!(fv.contains("r"));
    assert_eq!(fv.len(), 1);

    assert_eq!(Term::Unit.free_vars().len(), 0);
    assert_eq!(Term::Trivial.free_vars().len(), 0);
    let wrapped = Term::Promote(Box::new(Term::Inl(Box::new(Term::Fst(Box::new(Term::Snd(
        Box::new(Term::Inr(Box::new(Term::Abort(Box::new(var("v")))))),
    )))))));
    assert!(wrapped.free_vars().contains("v"));
    assert_eq!(wrapped.free_vars().len(), 1);
}

#[test]
fn substitution_stops_at_a_binder_of_the_variable() {
    let r = Term::Unit;
    assert_eq!(var("y").substitute("x", &r), var("y"));
    assert_eq!(
        Term::Abs(s("x"), Box::new(var("x"))).substitute("x", &r),
        Term::Abs(s("x"), Box::new(var("x")))
    );
    assert_eq!(
        Term::Abs(s("y"), Box::new(var("x"))).substitute("x", &r),
        Term::Abs(s("y"), Box::new(Term::Unit))
    );
    // In a let, the bound term is replaced in, the body is not.
    assert_eq!(
        Term::LetPair(s("x"), s("y"), Box::new(var("x")), Box::new(var("x"))).substitute("x", &r),
        Term::LetPair(s("x"), s("y"), Box::new(Term::Unit), Box::new(var("x")))
    );
    assert_eq!(
        Term::LetPair(s("a"), s("b"), Box::new(var("x")), Box::new(var("x"))).substitute("x", &r),
        Term::LetPair(s("a"), s("b"), Box::new(Term::Unit), Box::new(Term::Unit))
    );
    // Each branch of a case has its own binder.
    assert_eq!(
        Term::Case(Box::new(var("x")), s("x"), Box::new(var("x")), s("y"), Box::new(var("x")))
            .substitute("x", &r),
        Term::Case(Box::new(Term::Unit), s("x"), Box::new(var("x")), s("y"), Box::new(Term::Unit))
    );
    assert_eq!(
        Term::Copy(Box::new(var("x")), s("a"), s("x"), Box::new(var("x"))).substitute("x", &r),
        Term::Copy(Box::new(Term::Unit), s("a"), s("x"), Box::new(var("x")))
    );
    assert_eq!(
        Term::Discard(Box::new(var("x")), Box::new(Term::Promote(Box::new(var("x")))))
            .substitute("x", &var("z")),
        Term::Discard(Box::new(var("z")), Box::new(Term::Promote(Box::new(var("z")))))
    );
}

#[test]
fn terms_print_in_the_notation_of_the_calculus() {
    assert_eq!(var("x").pretty(), "x");
    assert_eq!(Term::Unit.pretty(), "()");
    assert_eq!(Term::Trivial.pretty(), "⟨⟩");
    assert_eq!(Term::Pair(Box::new(var("a")), Box::new(var("b"))).pretty(), "(a, b)");
    assert_eq!(
        Term::LetPair(s("x"), s("y"), Box::new(var("p")), Box::new(var("x"))).pretty(),
        "let (x, y) = p in x"
    );
    assert_eq!(Term::Abs(s("x"), Box::new(var("x"))).pretty(), "λx. x");
    assert_eq!(Term::App(Box::new(var("f")), Box::new(var("a"))).pretty(), "(f a)");
    assert_eq!(Term::Inl(Box::new(var("a"))).pretty(), "inl a");
    assert_eq!(Term::Inr(Box::new(var("a"))).pretty(), "inr a");
    assert_eq!(
        Term::Case(Box::new(var("e")), s("x"), Box::new(var("l")), s("y"), Box::new(var("r")))
            .pretty(),
        "case e of { inl x => l | inr y => r }"
    );
    assert_eq!(Term::Fst(Box::new(var("p"))).pretty(), "fst p");
    assert_eq!(Term::Snd(Box::new(var("p"))).pretty(), "snd p");
    assert_eq!(Term::Abort(Box::new(var("e"))).pretty(), "absurd e");
    assert_eq!(Term::Promote(Box::new(var("e"))).pretty(), "!e");
    assert_eq!(Term::Derelict(Box::new(var("e"))).pretty(), "derelict e");
    assert_eq!(
        Term::Discard(Box::new(var("d")), Box::new(var("b"))).pretty(),
        "discard in b"
    );
    assert_eq!(
        Term::Copy(Box::new(var("r")), s("x"), s("y"), Box::new(var("b"))).pretty(),
        "copy r as (x, y) in b"
    );
}

#[test]
fn text_helpers_give_exact_texts() {
    assert_eq!(decimal_string(0), "0");
    assert_eq!(decimal_string(7), "7");
    assert_eq!(decimal_string(10), "10");
    assert_eq!(decimal_string(4096), "4096");
    assert_eq!(decimal_string(usize::MAX), usize::MAX.to_string());
    assert_eq!(join_strings(&vec![], ", "), "");
    assert_eq!(join_strings(&vec![s("a")], ", "), "a");
    assert_eq!(join_strings(&vec![s("a"), s(""), s("c")], ", "), "a, , c");
    assert_eq!(repeat_str("ab", 0), "");
    assert_eq!(repeat_str("ab", 3), "ababab");
}

#[test]
fn strings_are_ordered_as_the_language_orders_them() {
    let words = ["", "A", "AB", "B", "a", "?A", "A⊥", "⊥", "é", "(A ⊗ B)", "⊗"];
    for x in words.iter() {
        for y in words.iter() {
            assert_eq!(str_before(x, y), x < y, "{:?} before {:?}", x, y);
        }
    }
    let mut expected: Vec<String> = words.iter().map(|w| w.to_string()).collect();
    expected.push(s("A"));
    let sorted = sort_strings(expected.clone());
    expected.sort();
    assert_eq!(sorted, expected);
    assert_eq!(sort_strings(vec![]), Vec::<String>::new());
}

#[test]
fn terms_are_the_same_constructor_by_constructor() {
    let terms = vec![
        var("x"),
        var("y"),
        Term::Unit,
        Term::Trivial,
        Term::Pair(Box::new(var("x")), Box::new(var("y"))),
        Term::App(Box::new(var("x")), Box::new(var("y"))),
        Term::Discard(Box::new(var("x")), Box::new(var("y"))),
        Term::LetPair(s("a"), s("b"), Box::new(var("x")), Box::new(var("y"))),
        Term::LetPair(s("a"), s("c"), Box::new(var("x")), Box::new(var("y"))),
        Term::Copy(Box::new(var("x")), s("a"), s("b"), Box::new(var("y"))),
        Term::Abs(s("a"), Box::new(var("x"))),
        Term::Abs(s("b"), Box::new(var("x"))),
        Term::Inl(Box::new(var("x"))),
        Term::Inr(Box::new(var("x"))),
        Term::Fst(Box::new(var("x"))),
        Term::Snd(Box::new(var("x"))),
        Term::Abort(Box::new(var("x"))),
        Term::Promote(Box::new(var("x"))),
        Term::Derelict(Box::new(var("x"))),
        Term::Case(Box::new(var("e")), s("a"), Box::new(var("x")), s("b"), Box::new(var("y"))),
        Term::Case(Box::new(var("e")), s("a"), Box::new(var("x")), s("b"), Box::new(var("x"))),
    ];
    for (i, t) in terms.iter().enumerate() {
        for (j, u) in terms.iter().enumerate() {
            assert_eq!(t.same(u), i == j, "{:?} and {:?}", t, u);
            assert_eq!(t == u, i == j);
        }
        assert!(t.clone().same(t));
    }
}

fn abs(x: &str, body: Term) -> Term {
    Term::Abs(s(x), Box::new(body))
}

fn app(f: Term, a: Term) -> Term {
    Term::App(Box::new(f), Box::new(a))
}

fn pair(a: Term, b: Term) -> Term {
    Term::Pair(Box::new(a), Box::new(b))
}

#[test]
fn substitution_renames_a_binder_that_would_capture() {
    let t = abs("y", var("x"));
    let r = t.substitute("x", &var("y"));
    assert_eq!(r, abs("y_", var("y")));
    let fv = r.free_vars();
    assert!(fv.contains("y"));
    assert_eq!(fv.len(), 1);
    match r {
        Term::Abs(z, body) => {
            assert_ne!(z, "y");
            assert_eq!(*body, var("y"));
        }
        other => panic!("not an abstraction: {:?}", other),
    }
}

#[test]
fn a_renamed_binder_is_longer_than_every_name_around() {
    // `y_` is taken inside the body, so the binder becomes `y__`.
    let t = abs("y", app(var("x"), app(var("y"), var("y_"))));
    let r = t.substitute("x", &var("y"));
    assert_eq!(r, abs("y__", app(var("y"), app(var("y__"), var("y_")))));
    let fv = r.free_vars();
    assert!(fv.contains("y"));
    assert!(fv.contains("y_"));
    assert_eq!(fv.len(), 2);

    // A long name in the replacement counts too.
    let t = abs("y", pair(var("x"), var("y")));
    let r = t.substitute("x", &pair(var("y"), var("long")));
    assert_eq!(
        r,
        abs("y____", pair(pair(var("y"), var("long")), var("y____")))
    );
}

#[test]
fn a_binder_that_captures_nothing_keeps_its_name() {
    // The variable does not occur under the binder.
    let t = abs("y", var("y"));
    assert_eq!(t.substitute("x", &var("y")), t);
    // The binder is not free in the replacement.
    let t = abs("y", pair(var("x"), var("y")));
    assert_eq!(
        t.substitute("x", &var("z")),
        abs("y", pair(var("z"), var("y")))
    );
    // The binder binds the variable itself.
    let t = abs("x", var("x"));
    assert_eq!(t.substitute("x", &var("x")), t);
}

#[test]
fn substitution_renames_each_binder_of_a_pair_pattern() {
    let body = pair(var("a"), pair(var("b"), var("x")));
    let t = Term::LetPair(s("a"), s("b"), Box::new(var("x")), Box::new(body.clone()));

    let r = t.substitute("x", &var("b"));
    assert_eq!(
        r,
        Term::LetPair(
            s("a"),
            s("b_"),
            Box::new(var("b")),
            Box::new(pair(var("a"), pair(var("b_"), var("b")))),
        )
    );
    assert_eq!(r.free_vars().len(), 1);
    assert!(r.free_vars().contains("b"));

    let both = pair(var("a"), var("b"));
    let t = Term::LetPair(s("a"), s("b"), Box::new(var("p")), Box::new(body));
    let r = t.substitute("x", &both);
    assert_eq!(
        r,
        Term::LetPair(
            s("a_"),
            s("b__"),
            Box::new(var("p")),
            Box::new(pair(var("a_"), pair(var("b__"), both.clone()))),
        )
    );
    let fv = r.free_vars();
    assert!(fv.contains("p") && fv.contains("a") && fv.contains("b"));
    assert_eq!(fv.len(), 3);
}

#[test]
fn substitution_renames_the_binders_of_a_case_and_of_a_copy() {
    let t = Term::Case(
        Box::new(var("s")),
        s("y"),
        Box::new(pair(var("x"), var("y"))),
        s("z"),
        Box::new(pair(var("x"), var("z"))),
    );
    assert_eq!(
        t.substitute("x", &var("y")),
        Term::Case(
            Box::new(var("s")),
            s("y_"),
            Box::new(pair(var("y"), var("y_"))),
            s("z"),
            Box::new(pair(var("y"), var("z"))),
        )
    );
    assert_eq!(
        t.substitute("x", &var("z")),
        Term::Case(
            Box::new(var("s")),
            s("y"),
            Box::new(pair(var("z"), var("y"))),
            s("z_"),
            Box::new(pair(var("z"), var("z_"))),
        )
    );

    let t = Term::Copy(
        Box::new(var("x")),
        s("a"),
        s("b"),
        Box::new(pair(var("x"), pair(var("a"), var("b")))),
    );
    let r = t.substitute("x", &var("a"));
    assert_eq!(
        r,
        Term::Copy(
            Box::new(var("a")),
            s("a_"),
            s("b"),
            Box::new(pair(var("a"), pair(var("a_"), var("b")))),
        )
    );
    assert_eq!(r.free_vars().len(), 1);
    assert!(r.free_vars().contains("a"));
}

#[test]
fn free_variables_after_substitution_are_those_of_both_terms() {
    let t = abs("y", app(var("x"), app(var("y"), var("w"))));
    let r = t.substitute("x", &app(var("y"), var("u")));
    let fv = r.free_vars();
    assert!(fv.contains("w") && fv.contains("y") && fv.contains("u"));
    assert!(!fv.contains("x"));
    assert_eq!(fv.len(), 3);

    // Where the variable is not free, nothing changes and nothing is added.
    let r = t.substitute("q", &var("y"));
    assert_eq!(r, t);
    assert_eq!(r.free_vars().len(), 2);
}

#[test]
fn normalizing_does_not_capture_a_free_variable() {
    // (λx. λy. x) y is the constant function to the outer y.
    let t = app(abs("x", abs("y", var("x"))), var("y"));
    let n = normalize(&t);
    assert_eq!(n, abs("y_", var("y")));
    assert!(n.free_vars().contains("y"));

    // let (a, c) = (b, u) in λb. (a, c)
    let t = Term::LetPair(
        s("a"),
        s("c"),
        Box::new(pair(var("b"), var("u"))),
        Box::new(abs("b", pair(var("a"), var("c")))),
    );
    let n = normalize(&t);
    assert_eq!(n, abs("b_", pair(var("b"), var("u"))));
}
