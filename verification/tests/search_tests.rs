use lolli::{Formula, Prover, TwoSidedSequent};

fn atom(name: &str) -> Formula {
    Formula::atom(name)
}

#[test]
fn test_identity() {
    // A ⊢ A
    let mut prover = Prover::new(100);
    let seq = TwoSidedSequent::new(vec![atom("A")], vec![atom("A")]);
    let result = prover.prove_two_sided(&seq);
    assert!(result.is_some(), "A ⊢ A should be provable");
}

#[test]
fn test_tensor_intro() {
    // A, B ⊢ A ⊗ B
    let mut prover = Prover::new(100);
    let seq = TwoSidedSequent::new(
        vec![atom("A"), atom("B")],
        vec![Formula::tensor(atom("A"), atom("B"))],
    );
    let result = prover.prove_two_sided(&seq);
    assert!(result.is_some(), "A, B ⊢ A ⊗ B should be provable");
}

#[test]
fn test_tensor_commutativity() {
    // A ⊗ B ⊢ B ⊗ A
    let mut prover = Prover::new(100);
    let seq = TwoSidedSequent::new(
        vec![Formula::tensor(atom("A"), atom("B"))],
        vec![Formula::tensor(atom("B"), atom("A"))],
    );
    let result = prover.prove_two_sided(&seq);
    assert!(result.is_some(), "A ⊗ B ⊢ B ⊗ A should be provable");
}

#[test]
fn test_with_elimination() {
    // A & B ⊢ A
    let mut prover = Prover::new(100);
    let seq = TwoSidedSequent::new(vec![Formula::with(atom("A"), atom("B"))], vec![atom("A")]);
    let result = prover.prove_two_sided(&seq);
    assert!(result.is_some(), "A & B ⊢ A should be provable");
}

#[test]
fn test_plus_intro() {
    // A ⊢ A ⊕ B
    let mut prover = Prover::new(100);
    let seq = TwoSidedSequent::new(vec![atom("A")], vec![Formula::plus(atom("A"), atom("B"))]);
    let result = prover.prove_two_sided(&seq);
    assert!(result.is_some(), "A ⊢ A ⊕ B should be provable");
}

#[test]
fn test_no_contraction() {
    // A ⊢ A ⊗ A should NOT be provable (no contraction in linear logic)
    let mut prover = Prover::new(100);
    let seq = TwoSidedSequent::new(vec![atom("A")], vec![Formula::tensor(atom("A"), atom("A"))]);
    let result = prover.prove_two_sided(&seq);
    assert!(result.is_none(), "A ⊢ A ⊗ A should NOT be provable");
}

#[test]
fn test_no_weakening() {
    // A, B ⊢ A should NOT be provable (no weakening in linear logic)
    let mut prover = Prover::new(100);
    let seq = TwoSidedSequent::new(vec![atom("A"), atom("B")], vec![atom("A")]);
    let result = prover.prove_two_sided(&seq);
    assert!(result.is_none(), "A, B ⊢ A should NOT be provable");
}

#[test]
fn test_one() {
    // ⊢ 1
    let mut prover = Prover::new(100);
    let seq = TwoSidedSequent::new(vec![], vec![Formula::One]);
    let result = prover.prove_two_sided(&seq);
    assert!(result.is_some(), "⊢ 1 should be provable");
}

#[test]
fn test_top() {
    // Γ ⊢ ⊤ (always provable)
    let mut prover = Prover::new(100);
    let seq = TwoSidedSequent::new(vec![atom("A"), atom("B")], vec![Formula::Top]);
    let result = prover.prove_two_sided(&seq);
    assert!(result.is_some(), "A, B ⊢ ⊤ should be provable");
}

#[test]
fn search_test_lolli() {
    // ⊢ A ⊸ A
    let mut prover = Prover::new(100);
    let seq = TwoSidedSequent::new(vec![], vec![Formula::lolli(atom("A"), atom("A"))]);
    let result = prover.prove_two_sided(&seq);
    assert!(result.is_some(), "⊢ A ⊸ A should be provable");
}

#[test]
fn test_bang_identity() {
    // !A ⊢ !A
    let mut prover = Prover::new(100);
    let seq = TwoSidedSequent::new(
        vec![Formula::of_course(atom("A"))],
        vec![Formula::of_course(atom("A"))],
    );
    let result = prover.prove_two_sided(&seq);
    assert!(result.is_some(), "!A ⊢ !A should be provable");
}

#[test]
fn test_dereliction() {
    // !A ⊢ A (use !A as A)
    let mut prover = Prover::new(100);
    let seq = TwoSidedSequent::new(vec![Formula::of_course(atom("A"))], vec![atom("A")]);
    let result = prover.prove_two_sided(&seq);
    assert!(result.is_some(), "!A ⊢ A should be provable via dereliction");
}

#[test]
fn test_contraction() {
    // !A ⊢ A ⊗ A (use A twice via contraction)
    let mut prover = Prover::new(100);
    let seq = TwoSidedSequent::new(
        vec![Formula::of_course(atom("A"))],
        vec![Formula::tensor(atom("A"), atom("A"))],
    );
    let result = prover.prove_two_sided(&seq);
    assert!(result.is_some(), "!A ⊢ A ⊗ A should be provable via contraction");
}

#[test]
fn test_weakening_exponential() {
    // !A ⊢ 1 (discard !A)
    let mut prover = Prover::new(100);
    let seq = TwoSidedSequent::new(vec![Formula::of_course(atom("A"))], vec![Formula::One]);
    let result = prover.prove_two_sided(&seq);
    assert!(result.is_some(), "!A ⊢ 1 should be provable via weakening");
}

#[test]
fn test_no_contraction_without_bang() {
    // A ⊢ A ⊗ A should NOT be provable (no exponential)
    let mut prover = Prover::new(100);
    let seq = TwoSidedSequent::new(vec![atom("A")], vec![Formula::tensor(atom("A"), atom("A"))]);
    let result = prover.prove_two_sided(&seq);
    assert!(result.is_none(), "A ⊢ A ⊗ A should NOT be provable without !");
}

#[test]
fn test_bang_tensor() {
    // !A ⊢ !A ⊗ !A (via contraction and promotion)
    let mut prover = Prover::new(100);
    let seq = TwoSidedSequent::new(
        vec![Formula::of_course(atom("A"))],
        vec![Formula::tensor(
            Formula::of_course(atom("A")),
            Formula::of_course(atom("A")),
        )],
    );
    let result = prover.prove_two_sided(&seq);
    assert!(result.is_some(), "!A ⊢ !A ⊗ !A should be provable");
}

#[test]
fn test_multiple_uses() {
    // !A ⊢ A ⊗ A ⊗ A (use A three times)
    let mut prover = Prover::new(100);
    let seq = TwoSidedSequent::new(
        vec![Formula::of_course(atom("A"))],
        vec![Formula::tensor(atom("A"), Formula::tensor(atom("A"), atom("A")))],
    );
    let result = prover.prove_two_sided(&seq);
    assert!(result.is_some(), "!A ⊢ A ⊗ A ⊗ A should be provable");
}
