use lolli::{Formula, RustCodegen, Term, TwoSidedSequent, TypeGenerator, PRELUDE};

#[test]
fn test_var() {
    let mut codegen = RustCodegen::new();
    let term = Term::Var("x".to_string());
    assert_eq!(codegen.term_to_code(&term), "x");
}

#[test]
fn test_unit() {
    let mut codegen = RustCodegen::new();
    assert_eq!(codegen.term_to_code(&Term::Unit), "()");
}

#[test]
fn test_pair() {
    let mut codegen = RustCodegen::new();
    let term = Term::Pair(
        Box::new(Term::Var("x".to_string())),
        Box::new(Term::Var("y".to_string())),
    );
    assert_eq!(codegen.term_to_code(&term), "(x, y)");
}

#[test]
fn test_let_pair() {
    let mut codegen = RustCodegen::new();
    let term = Term::LetPair(
        "a".to_string(),
        "b".to_string(),
        Box::new(Term::Var("p".to_string())),
        Box::new(Term::Var("a".to_string())),
    );
    assert_eq!(codegen.term_to_code(&term), "{ let (a, b) = p; a }");
}

#[test]
fn test_abs() {
    let mut codegen = RustCodegen::new();
    let term = Term::Abs("x".to_string(), Box::new(Term::Var("x".to_string())));
    assert_eq!(codegen.term_to_code(&term), "|x| x");
}

#[test]
fn test_app() {
    let mut codegen = RustCodegen::new();
    let term = Term::App(
        Box::new(Term::Var("f".to_string())),
        Box::new(Term::Var("x".to_string())),
    );
    assert_eq!(codegen.term_to_code(&term), "f(x)");
}

#[test]
fn test_inl_inr() {
    let mut codegen = RustCodegen::new();

    let inl = Term::Inl(Box::new(Term::Var("x".to_string())));
    assert_eq!(codegen.term_to_code(&inl), "Either::Left(x)");

    let inr = Term::Inr(Box::new(Term::Var("y".to_string())));
    assert_eq!(codegen.term_to_code(&inr), "Either::Right(y)");
}

#[test]
fn test_case() {
    let mut codegen = RustCodegen::new();
    let term = Term::Case(
        Box::new(Term::Var("e".to_string())),
        "x".to_string(),
        Box::new(Term::Var("x".to_string())),
        "y".to_string(),
        Box::new(Term::Var("y".to_string())),
    );
    assert_eq!(
        codegen.term_to_code(&term),
        "match e { Either::Left(x) => x, Either::Right(y) => y }"
    );
}

#[test]
fn test_fst_snd() {
    let mut codegen = RustCodegen::new();

    let fst = Term::Fst(Box::new(Term::Var("p".to_string())));
    assert_eq!(codegen.term_to_code(&fst), "p.0");

    let snd = Term::Snd(Box::new(Term::Var("p".to_string())));
    assert_eq!(codegen.term_to_code(&snd), "p.1");
}

#[test]
fn test_promote() {
    let mut codegen = RustCodegen::new();
    let term = Term::Promote(Box::new(Term::Var("x".to_string())));
    assert_eq!(codegen.term_to_code(&term), "Rc::new(x)");
}

#[test]
fn test_copy() {
    let mut codegen = RustCodegen::new();
    let term = Term::Copy(
        Box::new(Term::Var("r".to_string())),
        "x".to_string(),
        "y".to_string(),
        Box::new(Term::Pair(
            Box::new(Term::Var("x".to_string())),
            Box::new(Term::Var("y".to_string())),
        )),
    );
    let code = codegen.term_to_code(&term);
    assert!(code.contains("Rc::clone"));
}

#[test]
fn test_generate_function() {
    let mut codegen = RustCodegen::new();
    let sequent = TwoSidedSequent::new(
        vec![Formula::atom("A"), Formula::atom("B")],
        vec![Formula::tensor(Formula::atom("A"), Formula::atom("B"))],
    );
    let term = Term::Pair(
        Box::new(Term::Var("arg0".to_string())),
        Box::new(Term::Var("arg1".to_string())),
    );

    let code = codegen.generate_function("make_pair", &sequent, &term);
    assert!(code.contains("fn make_pair(arg0: A, arg1: B) -> (A, B)"));
    assert!(code.contains("(arg0, arg1)"));
}

#[test]
fn test_prelude_not_empty() {
    assert!(!PRELUDE.is_empty());
}

#[test]
fn test_prelude_contains_types() {
    assert!(PRELUDE.contains("Either"));
    assert!(PRELUDE.contains("With"));
    assert!(PRELUDE.contains("Top"));
    assert!(PRELUDE.contains("Void"));
    assert!(PRELUDE.contains("Par"));
    assert!(PRELUDE.contains("Demand"));
}

#[test]
fn test_atoms() {
    let gen = TypeGenerator::new();
    assert_eq!(gen.generate(&Formula::atom("A")), "A");
    assert_eq!(gen.generate(&Formula::neg_atom("A")), "ADual");
}

#[test]
fn test_tensor() {
    let gen = TypeGenerator::new();
    let tensor = Formula::tensor(Formula::atom("A"), Formula::atom("B"));
    assert_eq!(gen.generate(&tensor), "(A, B)");
}

#[test]
fn types_test_lolli() {
    let gen = TypeGenerator::new();
    let lolli = Formula::lolli(Formula::atom("A"), Formula::atom("B"));
    assert_eq!(gen.generate(&lolli), "impl FnOnce(A) -> B");
}

#[test]
fn test_plus() {
    let gen = TypeGenerator::new();
    let plus = Formula::plus(Formula::atom("A"), Formula::atom("B"));
    assert_eq!(gen.generate(&plus), "Either<A, B>");
}

#[test]
fn test_with() {
    let gen = TypeGenerator::new();
    let with = Formula::with(Formula::atom("A"), Formula::atom("B"));
    assert_eq!(gen.generate(&with), "With<A, B>");
}

#[test]
fn test_exponentials() {
    let gen = TypeGenerator::new();
    let bang = Formula::of_course(Formula::atom("A"));
    assert_eq!(gen.generate(&bang), "Rc<A>");

    let whynot = Formula::why_not(Formula::atom("A"));
    assert_eq!(gen.generate(&whynot), "Demand<A>");
}

#[test]
fn test_units() {
    let gen = TypeGenerator::new();
    assert_eq!(gen.generate(&Formula::One), "()");
    assert_eq!(gen.generate(&Formula::Bottom), "!");
    assert_eq!(gen.generate(&Formula::Top), "Top");
    assert_eq!(gen.generate(&Formula::Zero), "Void");
}

#[test]
fn test_complex() {
    let gen = TypeGenerator::new();
    // !A ⊗ B ⊸ C
    let formula = Formula::lolli(
        Formula::tensor(Formula::of_course(Formula::atom("A")), Formula::atom("B")),
        Formula::atom("C"),
    );
    assert_eq!(gen.generate(&formula), "impl FnOnce((Rc<A>, B)) -> C");
}

#[test]
fn test_return_type() {
    let gen = TypeGenerator::new();

    assert_eq!(gen.generate_return(&[]), "()");
    assert_eq!(gen.generate_return(&[Formula::atom("A")]), "A");
    assert_eq!(
        gen.generate_return(&[Formula::atom("A"), Formula::atom("B")]),
        "(A, B)"
    );
}
