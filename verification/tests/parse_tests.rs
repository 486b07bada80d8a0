use lolli::{parse_formula, parse_sequent, Formula, ParseError, TwoSidedSequent};

fn a(name: &str) -> Formula {
    Formula::atom(name)
}

#[test]
fn parses_atoms_units_and_negation() {
    assert_eq!(parse_formula("A").unwrap(), a("A"));
    assert_eq!(parse_formula("  x_1 ").unwrap(), a("x_1"));
    assert_eq!(parse_formula("A^").unwrap(), Formula::neg_atom("A"));
    assert_eq!(parse_formula("A⊥").unwrap(), Formula::neg_atom("A"));
    assert_eq!(parse_formula("1").unwrap(), Formula::One);
    assert_eq!(parse_formula("0").unwrap(), Formula::Zero);
    assert_eq!(parse_formula("bot").unwrap(), Formula::Bottom);
    assert_eq!(parse_formula("⊥").unwrap(), Formula::Bottom);
    assert_eq!(parse_formula("top").unwrap(), Formula::Top);
    assert_eq!(parse_formula("⊤").unwrap(), Formula::Top);
}

#[test]
fn binary_operators_group_to_the_right() {
    assert_eq!(
        parse_formula("A * B * C").unwrap(),
        Formula::tensor(a("A"), Formula::tensor(a("B"), a("C")))
    );
    assert_eq!(
        parse_formula("A -o B -o C").unwrap(),
        Formula::lolli(a("A"), Formula::lolli(a("B"), a("C")))
    );
}

#[test]
fn precedence_runs_from_unary_to_lolli() {
    // ! binds tighter than *, * than +, + than &, & than |, | than -o
    assert_eq!(
        parse_formula("!A * B + C & D | E -o F").unwrap(),
        Formula::lolli(
            Formula::par(
                Formula::with(
                    Formula::plus(
                        Formula::tensor(Formula::of_course(a("A")), a("B")),
                        a("C")
                    ),
                    a("D")
                ),
                a("E")
            ),
            a("F")
        )
    );
    assert_eq!(
        parse_formula("A -o B * C").unwrap(),
        Formula::lolli(a("A"), Formula::tensor(a("B"), a("C")))
    );
    assert_eq!(
        parse_formula("(A -o B) * ?C").unwrap(),
        Formula::tensor(Formula::lolli(a("A"), a("B")), Formula::why_not(a("C")))
    );
}

#[test]
fn unicode_and_ascii_operators_agree() {
    assert_eq!(parse_formula("A ⊗ B").unwrap(), parse_formula("A * B").unwrap());
    assert_eq!(parse_formula("A ⊕ B").unwrap(), parse_formula("A + B").unwrap());
    assert_eq!(parse_formula("A ⅋ B").unwrap(), parse_formula("A | B").unwrap());
    assert_eq!(parse_formula("A ⊸ B").unwrap(), parse_formula("A -o B").unwrap());
}

#[test]
fn pretty_printed_formulas_parse_back() {
    let formulas = vec![
        a("A"),
        Formula::neg_atom("B"),
        Formula::tensor(a("A"), Formula::Bottom),
        Formula::par(Formula::neg_atom("A"), Formula::One),
        Formula::lolli(Formula::of_course(a("A")), Formula::why_not(Formula::Top)),
        Formula::with(Formula::plus(a("A"), Formula::Zero), Formula::neg_atom("C")),
        Formula::of_course(Formula::tensor(a("A"), a("B"))),
    ];
    for f in formulas.iter() {
        assert_eq!(&parse_formula(&f.pretty()).unwrap(), f);
        assert_eq!(&parse_formula(&f.pretty_ascii()).unwrap(), f);
    }
}

#[test]
fn parses_sequents() {
    assert_eq!(
        parse_sequent("A, B |- A * B").unwrap(),
        TwoSidedSequent::new(vec![a("A"), a("B")], vec![Formula::tensor(a("A"), a("B"))])
    );
    assert_eq!(
        parse_sequent("|- A -o A").unwrap(),
        TwoSidedSequent::new(vec![], vec![Formula::lolli(a("A"), a("A"))])
    );
    assert_eq!(
        parse_sequent("A ⊢").unwrap(),
        TwoSidedSequent::new(vec![a("A")], vec![])
    );
    assert_eq!(parse_sequent("|-").unwrap(), TwoSidedSequent::new(vec![], vec![]));
    assert_eq!(
        parse_sequent("A | B |- C").unwrap(),
        TwoSidedSequent::new(vec![Formula::par(a("A"), a("B"))], vec![a("C")])
    );
}

#[test]
fn each_error_names_the_offending_text() {
    assert_eq!(
        parse_formula("A $ B").unwrap_err(),
        ParseError::UnknownOperator("$".to_string())
    );
    assert_eq!(
        parse_formula("A - B").unwrap_err(),
        ParseError::UnknownOperator("-".to_string())
    );
    assert_eq!(
        parse_formula("A B").unwrap_err(),
        ParseError::UnexpectedToken("B".to_string())
    );
    assert_eq!(
        parse_formula("A *").unwrap_err(),
        ParseError::General("unexpected end of input".to_string())
    );
    assert_eq!(
        parse_formula("").unwrap_err(),
        ParseError::General("unexpected end of input".to_string())
    );
    assert_eq!(
        parse_formula("(A * B").unwrap_err(),
        ParseError::General("unexpected end of input".to_string())
    );
    assert_eq!(
        parse_formula("A^^").unwrap_err(),
        ParseError::UnexpectedToken("^".to_string())
    );
    assert_eq!(
        parse_formula("A |- B").unwrap_err(),
        ParseError::UnexpectedToken("|-".to_string())
    );
    assert_eq!(
        parse_sequent("A, B").unwrap_err(),
        ParseError::General("missing turnstile".to_string())
    );
    assert_eq!(
        parse_sequent("A |- B |- C").unwrap_err(),
        ParseError::UnexpectedToken("|-".to_string())
    );
    assert_eq!(
        parse_sequent("A, |- B").unwrap_err(),
        ParseError::UnexpectedToken("|-".to_string())
    );
}

#[test]
fn error_messages_are_sentences() {
    assert_eq!(
        ParseError::UnexpectedToken("B".to_string()).message(),
        "Unexpected token: B"
    );
    assert_eq!(
        ParseError::UnknownOperator("$".to_string()).message(),
        "Unknown operator: $"
    );
    assert_eq!(
        ParseError::UnexpectedRule("r".to_string()).message(),
        "Unexpected rule: r"
    );
    assert_eq!(ParseError::General("x".to_string()).message(), "Parse error: x");
}
