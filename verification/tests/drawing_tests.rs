use lolli::ascii::TreeRenderer;
use lolli::viz::{proof_to_dot, proof_to_latex, NetRenderer};
use lolli::{
    generate_function, generate_module, Formula, Proof, Prover, Rule, RustCodegen, Sequent, Term,
    TwoSidedSequent, PRELUDE,
};

fn a(name: &str) -> Formula {
    Formula::atom(name)
}

fn tensor_proof() -> Proof {
    let seq = TwoSidedSequent::new(vec![a("A"), a("B")], vec![Formula::tensor(a("A"), a("B"))]);
    Prover::new(100).prove(&seq.to_one_sided()).unwrap()
}

#[test]
fn the_tree_is_drawn_premises_first() {
    let proof = tensor_proof();
    let renderer = TreeRenderer::new();
    assert!(renderer.unicode);
    assert!(renderer.show_rules);
    assert_eq!(renderer.indent_width, 2);
    // The conclusion has 21 bytes in UTF-8, so the line has 21 dashes.
    let line = "─".repeat(21);
    assert_eq!(
        renderer.render(&proof),
        format!(
            "  ⊢ A⊥, A  (Axiom)\n  ⊢ B⊥, B  (Axiom)\n{}  TensorIntro\n⊢ A⊥, B⊥, (A ⊗ B)",
            line
        )
    );

    let mut plain = TreeRenderer::new();
    plain.unicode = false;
    plain.show_rules = false;
    plain.indent_width = 4;
    assert_eq!(
        plain.render(&proof),
        format!(
            "    ⊢ A^, A\n    ⊢ B^, B\n{}\n⊢ A^, B^, (A * B)",
            "-".repeat(20)
        )
    );
    assert_eq!(
        lolli::viz::TreeRenderer::new().render(&proof),
        renderer.render(&proof)
    );
}

#[test]
fn deeper_levels_are_indented_further() {
    let seq = TwoSidedSequent::new(vec![Formula::tensor(a("A"), a("B"))], vec![Formula::tensor(a("B"), a("A"))]);
    let proof = Prover::new(100).prove(&seq.to_one_sided()).unwrap();
    let drawn = TreeRenderer::new().render(&proof);
    let lines: Vec<&str> = drawn.lines().collect();
    assert_eq!(lines.len(), 6);
    assert!(lines[0].starts_with("    ⊢ "));
    assert!(lines[1].starts_with("    ⊢ "));
    assert!(lines[2].starts_with("  ─"));
    assert!(lines[2].ends_with("  TensorIntro"));
    assert!(lines[3].starts_with("  ⊢ "));
    assert!(lines[4].ends_with("  ParIntro"));
    assert_eq!(lines[5], "⊢ (A⊥ ⅋ B⊥), (B ⊗ A)");
}

#[test]
fn rules_are_named_as_the_formatter_names_them() {
    let rules = vec![
        Rule::Axiom,
        Rule::Cut(Formula::tensor(a("A"), Formula::neg_atom("q\"uote"))),
        Rule::OneIntro,
        Rule::BottomIntro,
        Rule::TensorIntro,
        Rule::ParIntro,
        Rule::TopIntro,
        Rule::WithIntro,
        Rule::PlusIntroLeft,
        Rule::PlusIntroRight,
        Rule::OfCourseIntro,
        Rule::WhyNotIntro,
        Rule::Weakening,
        Rule::Contraction,
        Rule::Dereliction,
        Rule::FocusPositive(0),
        Rule::FocusNegative(12),
        Rule::Blur,
    ];
    for rule in rules.iter() {
        assert_eq!(rule.name(), format!("{:?}", rule));
        assert_eq!(rule.clone(), *rule);
    }
    assert_eq!(Rule::Cut(a("A")).name(), "Cut(Atom(\"A\"))");
}

#[test]
fn latex_uses_the_command_for_the_number_of_premises() {
    let proof = tensor_proof();
    let expected = "\\begin{prooftree}\n  \\AxiomC{$\\vdash A^{\\bot}, A$}\n  \\AxiomC{$\\vdash B^{\\bot}, B$}\n  \\BinaryInfC{$\\vdash A^{\\bot}, B^{\\bot}, (A \\otimes B)$} % TensorIntro\n\\end{prooftree}";
    assert_eq!(proof_to_latex(&proof, 0), expected);
    assert_eq!(lolli::viz::TreeRenderer::new().render_latex(&proof), expected);

    let unary = Proof {
        conclusion: Sequent::new(vec![Formula::Bottom, Formula::One]),
        rule: Rule::BottomIntro,
        premises: vec![Proof {
            conclusion: Sequent::new(vec![Formula::One]),
            rule: Rule::OneIntro,
            premises: vec![],
        }],
    };
    assert_eq!(
        proof_to_latex(&unary, 7),
        "\\begin{prooftree}\n  \\AxiomC{$\\vdash 1$}\n  \\UnaryInfC{$\\vdash \\bot, 1$} % BottomIntro\n\\end{prooftree}"
    );
    let leaf = || Proof {
        conclusion: Sequent::new(vec![Formula::One]),
        rule: Rule::OneIntro,
        premises: vec![],
    };
    let wide = Proof {
        conclusion: Sequent::new(vec![Formula::Top]),
        rule: Rule::Blur,
        premises: vec![leaf(), leaf(), leaf()],
    };
    assert!(proof_to_latex(&wide, 0).contains("  \\TrinaryInfC{$\\vdash \\top$} % Blur"));
}

#[test]
fn the_graph_numbers_the_nodes_from_the_root() {
    let proof = tensor_proof();
    let expected = "digraph proof {\n  rankdir=BT;\n  node [shape=box];\n  n0 [label=\"⊢ ⊢ A⊥, B⊥, (A ⊗ B)\\n(TensorIntro)\"];\n  n1 [label=\"⊢ ⊢ A⊥, A\\n(Axiom)\"];\n  n1 -> n0;\n  n2 [label=\"⊢ ⊢ B⊥, B\\n(Axiom)\"];\n  n2 -> n0;\n}";
    assert_eq!(proof_to_dot(&proof), expected);
    assert_eq!(NetRenderer.render_dot(&proof), expected);
}

#[test]
fn the_graph_escapes_double_quotes() {
    let proof = Proof {
        conclusion: Sequent::new(vec![a("say \"hi\"")]),
        rule: Rule::Axiom,
        premises: vec![],
    };
    let drawn = proof_to_dot(&proof);
    assert!(drawn.contains("  n0 [label=\"⊢ ⊢ say \\\"hi\\\"\\n(Axiom)\"];"));
    assert!(!drawn.contains("say \"hi\""));
}

#[test]
fn functions_are_generated_with_signature_and_body() {
    let seq = TwoSidedSequent::new(
        vec![a("A"), Formula::of_course(a("B"))],
        vec![a("C"), Formula::Top],
    );
    let term = Term::Pair(
        Box::new(Term::Var("arg0".to_string())),
        Box::new(Term::Trivial),
    );
    assert_eq!(
        generate_function("f", &seq, &term),
        "fn f(arg0: A, arg1: Rc<B>) -> (C, Top) {\n    (arg0, Top)\n}"
    );
    let none = TwoSidedSequent::new(vec![], vec![]);
    assert_eq!(
        RustCodegen::new().generate_function("unit", &none, &Term::Unit),
        "fn unit() -> () {\n    ()\n}"
    );
    assert_eq!(RustCodegen::new().formula_to_type(&Formula::par(a("A"), a("B"))), "Par<A, B>");
}

#[test]
fn modules_hold_heading_imports_prelude_and_function() {
    let seq = TwoSidedSequent::new(vec![a("A")], vec![a("A")]);
    let term = Term::Var("arg0".to_string());
    let mut codegen = RustCodegen::new();
    let module = codegen.generate_module("id", &seq, &term);
    let function = codegen.generate_function("id", &seq, &term);
    assert_eq!(function, "fn id(arg0: A) -> A {\n    arg0\n}");
    assert_eq!(generate_module("id", &seq, &term), module);
    assert_eq!(
        module,
        format!(
            "//! Generated from sequent: A ⊢ A\n//!\n//! This code was generated by lolli-codegen from a linear logic proof.\n\nuse std::rc::Rc;\n\n{}\n\n{}",
            PRELUDE, function
        )
    );
}

#[test]
fn every_kind_of_term_has_its_code() {
    let v = |n: &str| Term::Var(n.to_string());
    let mut codegen = RustCodegen::new();
    assert_eq!(codegen.term_to_code(&Term::Trivial), "Top");
    assert_eq!(
        codegen.term_to_code(&Term::App(
            Box::new(Term::Abs("x".to_string(), Box::new(v("x")))),
            Box::new(v("y"))
        )),
        "(|x| x)(y)"
    );
    assert_eq!(codegen.term_to_code(&Term::Abort(Box::new(v("e")))), "match e {}");
    assert_eq!(
        codegen.term_to_code(&Term::Derelict(Box::new(v("e")))),
        "Rc::try_unwrap(e).unwrap_or_else(|rc| (*rc).clone())"
    );
    assert_eq!(codegen.term_to_code(&Term::Discard(Box::new(v("d")), Box::new(v("b")))), "b");
    assert_eq!(
        codegen.term_to_code(&Term::Copy(
            Box::new(v("r")),
            "x".to_string(),
            "y".to_string(),
            Box::new(v("b"))
        )),
        "{ let x = Rc::clone(&r); let y = r; b }"
    );
}

#[test]
fn depth_and_cuts_are_counted_over_the_whole_tree() {
    let leaf = |rule: Rule| Proof {
        conclusion: Sequent::new(vec![]),
        rule,
        premises: vec![],
    };
    let inner = Proof {
        conclusion: Sequent::new(vec![]),
        rule: Rule::Cut(a("A")),
        premises: vec![leaf(Rule::Axiom), leaf(Rule::Cut(a("B")))],
    };
    let root = Proof {
        conclusion: Sequent::new(vec![]),
        rule: Rule::TensorIntro,
        premises: vec![leaf(Rule::OneIntro), inner],
    };
    assert_eq!(root.cut_count(), 2);
    assert!(!root.is_cut_free());
    assert_eq!(root.depth(), 3);
    let copy = root.clone();
    assert_eq!(copy.cut_count(), 2);
    assert_eq!(copy.depth(), 3);
    assert_eq!(copy.premises[1].rule, Rule::Cut(a("A")));
}
