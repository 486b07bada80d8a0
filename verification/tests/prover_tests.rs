use lolli::cache::FailureCache;
use lolli::splits::all_splits;
use lolli::{
    extract_term, parse_sequent, FocusedProver, Formula, Proof, Prover, Rule, Sequent, Term,
};

fn one_sided(text: &str) -> Sequent {
    parse_sequent(text).unwrap().to_one_sided()
}

fn prove(text: &str) -> Option<Proof> {
    Prover::new(100).prove(&one_sided(text))
}

fn same_proof(a: &Proof, b: &Proof) -> bool {
    let by_hand = a.conclusion == b.conclusion
        && a.rule == b.rule
        && a.premises.len() == b.premises.len()
        && a.premises.iter().zip(b.premises.iter()).all(|(x, y)| same_proof(x, y));
    assert_eq!(a.same(b), by_hand);
    assert_eq!(a == b, by_hand);
    by_hand
}

fn leaves_are_closed(p: &Proof) -> bool {
    if p.premises.is_empty() {
        matches!(p.rule, Rule::Axiom | Rule::OneIntro | Rule::TopIntro)
    } else {
        p.premises.iter().all(leaves_are_closed)
    }
}

fn occurrences(t: &Term, v: &str) -> usize {
    match t {
        Term::Var(x) => (x == v) as usize,
        Term::Unit | Term::Trivial => 0,
        Term::Pair(a, b) | Term::App(a, b) | Term::Discard(a, b) => {
            occurrences(a, v) + occurrences(b, v)
        }
        Term::LetPair(x, y, e, body) | Term::Copy(e, x, y, body) => {
            occurrences(e, v) + if x == v || y == v { 0 } else { occurrences(body, v) }
        }
        Term::Abs(x, body) => {
            if x == v {
                0
            } else {
                occurrences(body, v)
            }
        }
        Term::Inl(e)
        | Term::Inr(e)
        | Term::Fst(e)
        | Term::Snd(e)
        | Term::Abort(e)
        | Term::Promote(e)
        | Term::Derelict(e) => occurrences(e, v),
        Term::Case(s, x, l, y, r) => {
            occurrences(s, v)
                + if x == v { 0 } else { occurrences(l, v) }
                + if y == v { 0 } else { occurrences(r, v) }
        }
    }
}

const PROVABLE: [&str; 14] = [
    "A |- A",
    "A, B |- A * B",
    "A * B |- B * A",
    "A & B |- A",
    "A |- A + B",
    "|- 1",
    "A, B |- top",
    "|- A -o A",
    "!A |- !A",
    "!A |- A",
    "!A |- A * A",
    "!A |- A * A * A",
    "A + B |- B + A",
    "A, A -o B, B -o C |- C",
];

#[test]
fn proofs_conclude_what_was_asked_and_close_their_leaves() {
    for text in PROVABLE.iter() {
        let goal = one_sided(text);
        let proof = Prover::new(100).prove(&goal).unwrap();
        let top_level_lolli = goal.linear.iter().any(|f| matches!(f, Formula::Lolli(_, _)));
        if !top_level_lolli {
            assert_eq!(proof.conclusion, goal, "{}", text);
        }
        assert!(leaves_are_closed(&proof), "{}", text);
    }
    // A linear implication of the sequent itself is expanded in the
    // conclusion.
    let proof = prove("|- A -o A").unwrap();
    assert_eq!(
        proof.conclusion,
        Sequent::new(vec![Formula::par(Formula::neg_atom("A"), Formula::atom("A"))])
    );
}

#[test]
fn proofs_are_cut_free() {
    for text in PROVABLE.iter() {
        let proof = prove(text).unwrap();
        assert_eq!(proof.cut_count(), 0, "{}", text);
        assert!(proof.is_cut_free(), "{}", text);
    }
}

#[test]
fn searching_again_finds_the_same_proof() {
    for text in PROVABLE.iter() {
        let first = prove(text).unwrap();
        let second = prove(text).unwrap();
        assert!(same_proof(&first, &second), "{}", text);
        let again = Prover::new(100).prove(&first.conclusion).unwrap();
        assert!(same_proof(&first, &again), "{}", text);
    }
}

#[test]
fn arguments_are_used_exactly_once_in_the_multiplicative_fragment() {
    let cases = [
        ("A |- A", 1),
        ("A, B |- A * B", 2),
        ("A * B |- B * A", 1),
        ("A, B, C |- (C * A) * B", 3),
        ("A & B |- A", 1),
        ("A |- A + B", 1),
        ("A, A -o B, B -o C |- C", 3),
        ("A * (B * C) |- (A * B) * C", 1),
    ];
    for (text, inputs) in cases.iter() {
        let term = extract_term(&prove(text).unwrap());
        for i in 0..*inputs {
            assert_eq!(occurrences(&term, &format!("arg{}", i)), 1, "{} in {}", i, text);
        }
    }
    // A with to be produced shares its hypotheses between the two sides.
    let term = extract_term(&prove("A |- A & A").unwrap());
    assert_eq!(occurrences(&term, "arg0"), 2);
    // Top uses none of them.
    let term = extract_term(&prove("A |- top").unwrap());
    assert_eq!(occurrences(&term, "arg0"), 0);
}

#[test]
fn different_proofs_are_told_apart() {
    let one = prove("A, B |- A * B").unwrap();
    let other = prove("A, B |- B * A").unwrap();
    assert!(!same_proof(&one, &other));
    assert!(!same_proof(&one, &one.premises[0]));
    assert!(same_proof(&one, &one.clone()));
    assert_ne!(one, other);
}

#[test]
fn unprovable_sequents_fail() {
    for text in ["A |- A * A", "A, B |- A", "A |- B", "|- 0", "|- A", "|-", "A |- A & B", "1 |- A"] {
        assert!(prove(text).is_none(), "{}", text);
    }
}

#[test]
fn the_depth_budget_bounds_the_search() {
    // The proof of A ⊗ B ⊢ B ⊗ A has its leaves at depth 2.
    let goal = one_sided("A * B |- B * A");
    assert!(Prover::new(0).prove(&goal).is_none());
    assert!(Prover::new(1).prove(&goal).is_none());
    let mut prover = Prover::new(2);
    assert!(prover.prove(&goal).is_some());
    assert!(prover.stats().max_depth_reached <= 3);
    // An axiom needs no depth at all.
    assert!(Prover::new(0).prove(&one_sided("A |- A")).is_some());
    // A failure for want of depth is not cached: a deeper search succeeds
    // on a fresh prover, and the shallow one keeps failing.
    let mut shallow = Prover::new(1);
    assert!(shallow.prove(&goal).is_none());
    assert!(shallow.prove(&goal).is_none());
}

#[test]
fn failures_are_cached_and_counted() {
    let goal = one_sided("A |- A * A");
    let mut prover = Prover::new(100);
    assert!(prover.prove(&goal).is_none());
    let first = prover.stats().clone();
    assert!(first.sequents_explored >= 1);
    assert!(first.cache_hits <= first.sequents_explored);
    assert!(first.max_depth_reached <= 101);

    // The second search hits the cache at once.
    assert!(prover.prove(&goal).is_none());
    assert_eq!(prover.stats().sequents_explored, 1);
    assert_eq!(prover.stats().cache_hits, 1);
    assert_eq!(prover.stats().max_depth_reached, 0);

    // The key does not depend on the order of the formulas.
    let swapped = Sequent::new(vec![
        Formula::tensor(Formula::atom("A"), Formula::atom("A")),
        Formula::neg_atom("A"),
    ]);
    assert_eq!(prover.sequent_key(&goal), prover.sequent_key(&swapped));
    assert!(prover.prove(&swapped).is_none());
    assert_eq!(prover.stats().cache_hits, 1);

    // After a reset the search runs again.
    prover.reset();
    assert_eq!(prover.stats().sequents_explored, 0);
    assert!(prover.prove(&goal).is_none());
    assert_eq!(prover.stats().cache_hits, first.cache_hits);
    assert_eq!(prover.stats().sequents_explored, first.sequents_explored);
}

#[test]
fn without_the_cache_nothing_is_remembered() {
    let goal = one_sided("A |- A * A");
    let mut prover = Prover::new(100);
    prover.use_cache = false;
    assert!(prover.prove(&goal).is_none());
    let explored = prover.stats().sequents_explored;
    assert!(prover.prove(&goal).is_none());
    assert_eq!(prover.stats().sequents_explored, explored);
    assert_eq!(prover.stats().cache_hits, 0);
    let mut cached = Prover::new(100);
    assert!(cached.prove(&goal).is_none());
    assert!(cached.stats().sequents_explored <= explored);
}

#[test]
fn keys_are_sorted_texts_with_marked_unrestricted_formulas() {
    let prover = Prover::new(1);
    let seq = Sequent {
        linear: vec![Formula::atom("B"), Formula::tensor(Formula::atom("A"), Formula::One)],
        unrestricted: vec![Formula::neg_atom("C"), Formula::atom("A")],
        focus: None,
    };
    assert_eq!(prover.sequent_key(&seq), vec!["(A ⊗ 1)", "?A", "?C⊥", "B"]);
    assert_eq!(prover.sequent_key(&Sequent::new(vec![])), Vec::<String>::new());
}

#[test]
fn the_focused_prover_starts_from_an_empty_cache() {
    let mut prover = FocusedProver::new(100);
    assert_eq!(prover.max_depth, 100);
    assert!(prover.use_cache);
    let goal = one_sided("A, B |- A * B");
    let proof = prover.prove(&goal).unwrap();
    assert!(same_proof(&proof, &Prover::new(100).prove(&goal).unwrap()));
    assert!(prover.prove(&one_sided("A |- A * A")).is_none());
    prover.use_cache = false;
    assert!(prover.prove(&one_sided("A |- A * A")).is_none());
    prover.max_depth = 0;
    assert!(prover.prove(&goal).is_none());
}

#[test]
fn splits_are_numbered_in_binary() {
    assert_eq!(all_splits::<i32>(&[]), vec![(vec![], vec![])]);
    assert_eq!(all_splits(&[7]), vec![(vec![7], vec![]), (vec![], vec![7])]);
    assert_eq!(
        all_splits(&[1, 2]),
        vec![
            (vec![1, 2], vec![]),
            (vec![2], vec![1]),
            (vec![1], vec![2]),
            (vec![], vec![1, 2]),
        ]
    );
    let three = all_splits(&["a", "b", "c"]);
    assert_eq!(three.len(), 8);
    assert_eq!(three[5], (vec!["b"], vec!["a", "c"]));
    assert_eq!(three[7], (vec![], vec!["a", "b", "c"]));
}

#[test]
fn the_first_split_that_works_wins() {
    // Both A's could go either way; the first split in the order sends the
    // first hypothesis to the right.
    let proof = prove("A, A |- A * A").unwrap();
    assert_eq!(proof.rule, Rule::TensorIntro);
    assert_eq!(
        extract_term(&proof),
        Term::Pair(
            Box::new(Term::Var("arg1".to_string())),
            Box::new(Term::Var("arg0".to_string()))
        )
    );
}

#[test]
fn the_failure_cache_is_a_set_of_keys() {
    let key = |parts: &[&str]| parts.iter().map(|p| p.to_string()).collect::<Vec<String>>();
    let mut cache = FailureCache::new();
    assert!(!cache.contains(&key(&["A"])));
    assert!(cache.insert(key(&["A", "B"])));
    assert!(!cache.insert(key(&["A", "B"])));
    assert!(cache.contains(&key(&["A", "B"])));
    assert!(!cache.contains(&key(&["B", "A"])));
    assert!(!cache.contains(&key(&["A"])));
    assert!(cache.insert(key(&[])));
    assert!(cache.contains(&key(&[])));
    cache.clear();
    assert!(!cache.contains(&key(&["A", "B"])));
    assert!(!cache.contains(&key(&[])));
}

#[test]
fn larger_sequents_are_searched_in_good_time() {
    let proof = prove("A, B, C, D, E, F |- ((A * B) * (C * D)) * (E * F)").unwrap();
    assert_eq!(proof.rule, Rule::TensorIntro);
    assert_eq!(proof.depth(), 4);
    let term = extract_term(&proof);
    for i in 0..6 {
        assert_eq!(occurrences(&term, &format!("arg{}", i)), 1);
    }
    assert!(prove("A, B, C, D, E, F |- ((A * B) * (C * D)) * (E * A)").is_none());
    let proof = prove("!A, !(A -o B), !(B -o C) |- C * (B * A)").unwrap();
    assert!(proof.is_cut_free());
}

#[test]
fn a_failure_for_want_of_depth_is_not_cached() {
    let par = Formula::par(Formula::neg_atom("A"), Formula::atom("A"));
    let mut prover = Prover::new(1);
    // With bottom in front, the par is met at depth 1 and its premise at
    // depth 2, beyond the budget.
    assert!(prover
        .prove(&Sequent::new(vec![Formula::Bottom, par.clone()]))
        .is_none());
    // The par alone is met at depth 0: the same prover proves it, as a fresh
    // one does.
    let proof = prover.prove(&Sequent::new(vec![par.clone()])).unwrap();
    assert_eq!(proof.rule, Rule::ParIntro);
    assert_eq!(prover.stats().cache_hits, 0);
    let fresh = Prover::new(1).prove(&Sequent::new(vec![par.clone()])).unwrap();
    assert_eq!(proof, fresh);
    // A failure with depth to spare is cached all the same.
    let mut deep = Prover::new(100);
    let hopeless = Sequent::new(vec![Formula::Bottom, Formula::atom("A")]);
    assert!(deep.prove(&hopeless).is_none());
    assert!(deep.prove(&Sequent::new(vec![Formula::atom("A")])).is_none());
    assert_eq!(deep.stats().sequents_explored, 1);
    assert_eq!(deep.stats().cache_hits, 1);
}

#[test]
fn proofs_are_no_deeper_than_the_budget_allows() {
    for budget in 0..6 {
        for text in PROVABLE.iter() {
            if let Some(proof) = Prover::new(budget).prove(&one_sided(text)) {
                assert!(proof.depth() <= budget + 1, "{} with budget {}", text, budget);
            }
        }
    }
}
