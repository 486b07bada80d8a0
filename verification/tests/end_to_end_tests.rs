use lolli::{
    extract_term, is_well_formed, normalize, parse_sequent, Extractor, Formula, Proof, Prover,
    Rule, RustCodegen, Sequent, Term,
};

fn prove(text: &str) -> Option<Proof> {
    let sequent = parse_sequent(text).unwrap();
    Prover::new(100).prove(&sequent.to_one_sided())
}

fn var(name: &str) -> Term {
    Term::Var(name.to_string())
}

fn count_rule(proof: &Proof, rule: &Rule) -> usize {
    let own = if &proof.rule == rule { 1 } else { 0 };
    own + proof.premises.iter().map(|p| count_rule(p, rule)).sum::<usize>()
}

#[test]
fn identity_is_one_axiom_and_returns_its_argument() {
    let proof = prove("A |- A").unwrap();
    assert_eq!(proof.rule, Rule::Axiom);
    assert!(proof.premises.is_empty());
    assert_eq!(
        proof.conclusion,
        Sequent::new(vec![Formula::neg_atom("A"), Formula::atom("A")])
    );
    assert_eq!(proof.conclusion.pretty(), "⊢ A⊥, A");
    assert_eq!(extract_term(&proof), var("arg0"));
    assert_eq!(extract_term(&proof).pretty(), "arg0");
}

#[test]
fn tensor_of_two_hypotheses_is_their_pair() {
    let proof = prove("A, B |- A * B").unwrap();
    assert_eq!(proof.rule, Rule::TensorIntro);
    assert_eq!(proof.premises.len(), 2);
    assert_eq!(proof.premises[0].rule, Rule::Axiom);
    assert_eq!(proof.premises[1].rule, Rule::Axiom);
    assert!(proof.premises[0].premises.is_empty());
    assert!(proof.premises[1].premises.is_empty());
    let term = extract_term(&proof);
    assert_eq!(term, Term::Pair(Box::new(var("arg0")), Box::new(var("arg1"))));
    assert_eq!(RustCodegen::new().term_to_code(&term), "(arg0, arg1)");
}

#[test]
fn tensor_commutes() {
    let proof = prove("A * B |- B * A").unwrap();
    assert!(proof.depth() >= 3);
    assert_eq!(proof.depth(), 3);
    assert_eq!(proof.rule, Rule::ParIntro);
    assert_eq!(
        extract_term(&proof),
        Term::LetPair(
            "x0".to_string(),
            "x1".to_string(),
            Box::new(var("arg0")),
            Box::new(Term::Pair(Box::new(var("x1")), Box::new(var("x0")))),
        )
    );
}

#[test]
fn no_contraction_without_bang() {
    assert!(prove("A |- A * A").is_none());
}

#[test]
fn banged_hypothesis_serves_both_sides_of_a_tensor() {
    let proof = prove("!A |- A * A").unwrap();
    assert_eq!(proof.rule, Rule::WhyNotIntro);
    assert_eq!(proof.premises[0].rule, Rule::TensorIntro);
    assert_eq!(count_rule(&proof, &Rule::Dereliction), 2);
    assert_eq!(count_rule(&proof, &Rule::Contraction), 0);
    let used = Term::Derelict(Box::new(var("arg0")));
    assert_eq!(
        extract_term(&proof),
        Term::Pair(Box::new(used.clone()), Box::new(used))
    );
}

#[test]
fn contraction_copies_the_banged_hypothesis() {
    // ⊢ A ⊗ A with A⊥ unrestricted, by contraction and then the tensor.
    let a = Formula::atom("A");
    let na = Formula::neg_atom("A");
    let goal = Formula::tensor(a.clone(), a.clone());
    let leaf = |first: Formula, second: Formula| Proof {
        conclusion: Sequent::new(vec![first, second]),
        rule: Rule::Axiom,
        premises: vec![],
    };
    let tensor = Proof {
        conclusion: Sequent::new(vec![goal.clone(), na.clone(), na.clone()]),
        rule: Rule::TensorIntro,
        premises: vec![leaf(na.clone(), a.clone()), leaf(na.clone(), a.clone())],
    };
    let contraction = Proof {
        conclusion: Sequent {
            linear: vec![goal.clone()],
            unrestricted: vec![na.clone()],
            focus: None,
        },
        rule: Rule::Contraction,
        premises: vec![tensor],
    };
    let root = Proof {
        conclusion: Sequent::new(vec![Formula::why_not(na.clone()), goal.clone()]),
        rule: Rule::WhyNotIntro,
        premises: vec![contraction],
    };
    assert!(is_well_formed(&root));
    let term = extract_term(&root);
    assert_eq!(
        term,
        Term::Copy(
            Box::new(var("arg0")),
            "x0".to_string(),
            "x1".to_string(),
            Box::new(Term::Pair(
                Box::new(Term::Derelict(Box::new(var("x1")))),
                Box::new(Term::Derelict(Box::new(var("x0")))),
            )),
        )
    );
    assert!(RustCodegen::new().term_to_code(&term).contains("Rc::clone"));
}

#[test]
fn lolli_is_desugared_and_gives_the_identity_function() {
    let sequent = parse_sequent("|- A -o A").unwrap();
    assert_eq!(
        sequent.succedent[0].desugar(),
        Formula::par(Formula::neg_atom("A"), Formula::atom("A"))
    );
    let proof = Prover::new(100).prove(&sequent.to_one_sided()).unwrap();
    assert_eq!(proof.rule, Rule::ParIntro);
    assert_eq!(
        proof.conclusion,
        Sequent::new(vec![Formula::par(Formula::neg_atom("A"), Formula::atom("A"))])
    );
    assert_eq!(proof.premises[0].rule, Rule::Axiom);
    assert_eq!(
        proof.premises[0].conclusion,
        Sequent::new(vec![Formula::neg_atom("A"), Formula::atom("A")])
    );
    let term = extract_term(&proof);
    assert_eq!(term, Term::Abs("x0".to_string(), Box::new(var("x0"))));
    assert_eq!(RustCodegen::new().term_to_code(&term), "|x0| x0");
}

#[test]
fn hypotheses_are_taken_apart() {
    // A & B ⊢ A projects.
    let proof = prove("A & B |- A").unwrap();
    assert_eq!(extract_term(&proof), Term::Fst(Box::new(var("arg0"))));
    // A ⊢ A ⊕ B injects.
    let proof = prove("A |- A + B").unwrap();
    assert_eq!(extract_term(&proof), Term::Inl(Box::new(var("arg0"))));
    // A ⊕ B ⊢ B ⊕ A distinguishes the cases.
    let proof = prove("A + B |- B + A").unwrap();
    assert_eq!(
        extract_term(&proof),
        Term::Case(
            Box::new(var("arg0")),
            "x0".to_string(),
            Box::new(Term::Inr(Box::new(var("x0")))),
            "x1".to_string(),
            Box::new(Term::Inl(Box::new(var("x1")))),
        )
    );
    // A, A ⊸ B ⊢ B applies the function.
    let proof = prove("A, A -o B |- B").unwrap();
    assert_eq!(
        extract_term(&proof),
        Term::App(Box::new(var("arg1")), Box::new(var("arg0")))
    );
    // !A ⊢ 1 closes with the banged hypothesis left over, !A ⊢ !A promotes.
    let proof = prove("!A |- 1").unwrap();
    assert_eq!(proof.premises[0].rule, Rule::OneIntro);
    assert_eq!(extract_term(&proof), Term::Unit);
    let proof = prove("!A |- !A").unwrap();
    assert_eq!(
        extract_term(&proof),
        Term::Promote(Box::new(Term::Derelict(Box::new(var("arg0")))))
    );
    // ⊢ ⊤ and ⊢ 1.
    assert_eq!(extract_term(&prove("A |- top").unwrap()), Term::Trivial);
    assert_eq!(extract_term(&prove("|- 1").unwrap()), Term::Unit);
}

#[test]
fn weakening_discards_the_banged_hypothesis() {
    let na = Formula::neg_atom("A");
    let one = Proof {
        conclusion: Sequent::new(vec![Formula::One]),
        rule: Rule::OneIntro,
        premises: vec![],
    };
    let weakening = Proof {
        conclusion: Sequent {
            linear: vec![Formula::One],
            unrestricted: vec![na.clone()],
            focus: None,
        },
        rule: Rule::Weakening,
        premises: vec![one],
    };
    let root = Proof {
        conclusion: Sequent::new(vec![Formula::why_not(na.clone()), Formula::One]),
        rule: Rule::WhyNotIntro,
        premises: vec![weakening],
    };
    assert!(is_well_formed(&root));
    assert_eq!(
        extract_term(&root),
        Term::Discard(Box::new(var("arg0")), Box::new(Term::Unit))
    );
}

#[test]
fn cut_substitutes_the_left_term_into_the_right() {
    let a = Formula::atom("A");
    let na = Formula::neg_atom("A");
    let leaf = Proof {
        conclusion: Sequent::new(vec![na.clone(), a.clone()]),
        rule: Rule::Axiom,
        premises: vec![],
    };
    // From ⊢ A⊥, A and ⊢ A, A⊥ (the cut formula last in both) derive ⊢ A⊥, A.
    let right = Proof {
        conclusion: Sequent::new(vec![a.clone(), na.clone()]),
        rule: Rule::Axiom,
        premises: vec![],
    };
    let cut = Proof {
        conclusion: Sequent::new(vec![na.clone(), a.clone()]),
        rule: Rule::Cut(a.clone()),
        premises: vec![leaf, right],
    };
    assert!(is_well_formed(&cut));
    assert_eq!(cut.cut_count(), 1);
    assert!(!cut.is_cut_free());
    let mut extractor = Extractor::new();
    assert_eq!(extractor.extract_from(&cut, 1), var("arg0"));
    assert_eq!(extractor.fresh_var(), "x1");
}

#[test]
fn fresh_variables_count_up() {
    let mut extractor = Extractor::new();
    assert_eq!(extractor.fresh_var(), "x0");
    assert_eq!(extractor.fresh_var(), "x1");
    let mut codegen = RustCodegen::new();
    assert_eq!(codegen.fresh_var(), "_v0");
    assert_eq!(codegen.fresh_var(), "_v1");
}

#[test]
fn malformed_proofs_are_told_apart() {
    let seq = Sequent::new(vec![Formula::One]);
    let leaf = Proof { conclusion: seq.clone(), rule: Rule::OneIntro, premises: vec![] };
    assert!(is_well_formed(&leaf));
    let bad = Proof { conclusion: seq.clone(), rule: Rule::TensorIntro, premises: vec![leaf] };
    assert!(!is_well_formed(&bad));
}

#[test]
fn normalization_reduces_each_kind_of_redex() {
    let id = Term::Abs("x".to_string(), Box::new(var("x")));
    let applied = Term::App(Box::new(id), Box::new(var("y")));
    assert_eq!(normalize(&applied), var("y"));

    let opened = Term::LetPair(
        "a".to_string(),
        "b".to_string(),
        Box::new(Term::Pair(Box::new(var("p")), Box::new(var("q")))),
        Box::new(Term::Pair(Box::new(var("b")), Box::new(var("a")))),
    );
    assert_eq!(
        normalize(&opened),
        Term::Pair(Box::new(var("q")), Box::new(var("p")))
    );

    let left = Term::Case(
        Box::new(Term::Inl(Box::new(var("v")))),
        "x".to_string(),
        Box::new(Term::Inr(Box::new(var("x")))),
        "y".to_string(),
        Box::new(var("y")),
    );
    assert_eq!(normalize(&left), Term::Inr(Box::new(var("v"))));

    let right = Term::Case(
        Box::new(Term::Inr(Box::new(var("v")))),
        "x".to_string(),
        Box::new(var("x")),
        "y".to_string(),
        Box::new(Term::Pair(Box::new(var("y")), Box::new(Term::Unit))),
    );
    assert_eq!(
        normalize(&right),
        Term::Pair(Box::new(var("v")), Box::new(Term::Unit))
    );

    // A redex that only appears after another one is reduced.
    let twice = Term::App(
        Box::new(Term::Abs(
            "f".to_string(),
            Box::new(Term::App(Box::new(var("f")), Box::new(var("z")))),
        )),
        Box::new(Term::Abs("x".to_string(), Box::new(var("x")))),
    );
    assert_eq!(normalize(&twice), var("z"));

    // A term without a redex stays as it is.
    let stuck = Term::App(Box::new(var("f")), Box::new(var("x")));
    assert_eq!(normalize(&stuck), stuck);
}

fn free_count(t: &Term, name: &str) -> usize {
    match t {
        Term::Var(x) => usize::from(x == name),
        Term::Unit | Term::Trivial => 0,
        Term::Pair(a, b) | Term::App(a, b) | Term::Discard(a, b) => {
            free_count(a, name) + free_count(b, name)
        }
        Term::LetPair(x, y, e, body) | Term::Copy(e, x, y, body) => {
            let inner = if x == name || y == name { 0 } else { free_count(body, name) };
            free_count(e, name) + inner
        }
        Term::Abs(x, body) => {
            if x == name {
                0
            } else {
                free_count(body, name)
            }
        }
        Term::Case(s, x, l, y, r) => {
            let left = if x == name { 0 } else { free_count(l, name) };
            let right = if y == name { 0 } else { free_count(r, name) };
            free_count(s, name) + left + right
        }
        Term::Inl(e)
        | Term::Inr(e)
        | Term::Fst(e)
        | Term::Snd(e)
        | Term::Abort(e)
        | Term::Promote(e)
        | Term::Derelict(e) => free_count(e, name),
    }
}

fn counts(text: &str) -> Vec<usize> {
    let sequent = parse_sequent(text).unwrap();
    let inputs = sequent.antecedent.len();
    let proof = Prover::new(100).prove(&sequent.to_one_sided()).unwrap();
    assert!(is_well_formed(&proof));
    let term = extract_term(&proof);
    (0..inputs)
        .map(|i| free_count(&term, &format!("arg{}", i)))
        .collect()
}

#[test]
fn arguments_that_are_kept_occur_exactly_once() {
    assert_eq!(counts("A |- A"), vec![1]);
    assert_eq!(counts("A, B |- A * B"), vec![1, 1]);
    assert_eq!(counts("A, B, C |- (C * A) * B"), vec![1, 1, 1]);
    assert_eq!(counts("A * B |- B * A"), vec![1]);
    assert_eq!(counts("A & B |- A"), vec![1]);
    assert_eq!(counts("A & B |- B + C"), vec![1]);
    assert_eq!(counts("A + B |- B + A"), vec![1]);
    assert_eq!(counts("A, A -o B |- B"), vec![1, 1]);
    assert_eq!(counts("A * (B * C), D |- (A * D) * (C * B)"), vec![1, 1]);
    // A banged hypothesis that is used once.
    assert_eq!(counts("!A |- !A"), vec![1]);
    assert_eq!(counts("!A |- A"), vec![1]);
    assert_eq!(counts("!A, B |- A * B"), vec![1, 1]);
    // A why-not on a part of a hypothesis, derelicted once above.
    assert_eq!(counts("A & !B |- B"), vec![1]);
    assert_eq!(counts("A * !B |- B * A"), vec![1]);
}

#[test]
fn arguments_that_are_dropped_or_doubled_do_not_occur_once() {
    // A one among the hypotheses carries nothing and is dropped.
    assert_eq!(counts("A, 1 |- A"), vec![1, 0]);
    // Under a top everything is dropped.
    assert_eq!(counts("A, B |- top"), vec![0, 0]);
    // A with hands its hypotheses to both of its sides.
    assert_eq!(counts("A |- A & A"), vec![2]);
    assert_eq!(counts("A + B, C |- (A * C) + (B * C)"), vec![1, 2]);
    // A banged hypothesis may be used twice, or not at all.
    assert_eq!(counts("!A |- A * A"), vec![2]);
    assert_eq!(counts("!A |- 1"), vec![0]);
}
