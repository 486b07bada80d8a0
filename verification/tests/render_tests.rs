use lolli::ascii::TreeRenderer;
use lolli::splits::all_splits;
use lolli::{Formula, Proof, Rule, Sequent};

#[test]
fn test_all_splits() {
    let items = vec![1, 2];
    let splits = all_splits(&items);
    assert_eq!(splits.len(), 4); // 2^2 = 4 ways to split 2 items
}

#[test]
fn test_render_axiom() {
    let proof = Proof {
        conclusion: Sequent::new(vec![Formula::neg_atom("A"), Formula::atom("A")]),
        rule: Rule::Axiom,
        premises: vec![],
    };

    let renderer = TreeRenderer::new();
    let output = renderer.render(&proof);

    assert!(output.contains("A⊥"));
    assert!(output.contains("Axiom"));
}

#[test]
fn test_render_tensor() {
    let left = Proof {
        conclusion: Sequent::new(vec![Formula::neg_atom("A"), Formula::atom("A")]),
        rule: Rule::Axiom,
        premises: vec![],
    };
    let right = Proof {
        conclusion: Sequent::new(vec![Formula::neg_atom("B"), Formula::atom("B")]),
        rule: Rule::Axiom,
        premises: vec![],
    };
    let proof = Proof {
        conclusion: Sequent::new(vec![
            Formula::neg_atom("A"),
            Formula::neg_atom("B"),
            Formula::tensor(Formula::atom("A"), Formula::atom("B")),
        ]),
        rule: Rule::TensorIntro,
        premises: vec![left, right],
    };

    let renderer = TreeRenderer::new();
    let output = renderer.render(&proof);

    assert!(output.contains("TensorIntro"));
    assert!(output.contains("─")); // Inference line
}

#[test]
fn test_ascii_mode() {
    let proof = Proof {
        conclusion: Sequent::new(vec![Formula::neg_atom("A"), Formula::atom("A")]),
        rule: Rule::Axiom,
        premises: vec![],
    };

    let mut renderer = TreeRenderer::new();
    renderer.unicode = false;

    let output = renderer.render(&proof);
    assert!(output.contains("A^")); // ASCII negation
}

#[test]
fn test_no_rules() {
    let proof = Proof {
        conclusion: Sequent::new(vec![Formula::atom("A")]),
        rule: Rule::Axiom,
        premises: vec![],
    };

    let mut renderer = TreeRenderer::new();
    renderer.show_rules = false;

    let output = renderer.render(&proof);
    assert!(!output.contains("Axiom"));
}
