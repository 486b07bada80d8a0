//! Formulas of propositional linear logic, with De Morgan negation,
//! desugaring of linear implication, polarity and three concrete syntaxes.

use vstd::prelude::*;
use vstd::string::StringExecFns;
use crate::text::{glue2, glue3, glue5, quote, quoted};

verus! {

/// A linear logic formula.
#[derive(Debug, Eq, Hash)]
pub enum Formula {
    /// Atomic proposition
    Atom(String),
    /// Negated atomic proposition (A⊥)
    NegAtom(String),
    /// Tensor product (A ⊗ B): both, independently
    Tensor(Box<Formula>, Box<Formula>),
    /// Par (A ⅋ B): the dual of tensor
    Par(Box<Formula>, Box<Formula>),
    /// Multiplicative unit (1)
    One,
    /// Multiplicative false (⊥)
    Bottom,
    /// With (A & B): both available, the consumer chooses one
    With(Box<Formula>, Box<Formula>),
    /// Plus (A ⊕ B): one of them, the producer chooses which
    Plus(Box<Formula>, Box<Formula>),
    /// Additive truth (⊤)
    Top,
    /// Additive false (0)
    Zero,
    /// Of course (!A): an unlimited supply of A
    OfCourse(Box<Formula>),
    /// Why not (?A): a demand for A
    WhyNot(Box<Formula>),
    /// Linear implication (A ⊸ B), sugar for A⊥ ⅋ B
    Lolli(Box<Formula>, Box<Formula>),
}

/// The mathematical value of a [`Formula`]: the same tree, with each name as
/// a sequence of characters.
pub ghost enum FormulaView {
    Atom(Seq<char>),
    NegAtom(Seq<char>),
    Tensor(Box<FormulaView>, Box<FormulaView>),
    Par(Box<FormulaView>, Box<FormulaView>),
    One,
    Bottom,
    With(Box<FormulaView>, Box<FormulaView>),
    Plus(Box<FormulaView>, Box<FormulaView>),
    Top,
    Zero,
    OfCourse(Box<FormulaView>),
    WhyNot(Box<FormulaView>),
    Lolli(Box<FormulaView>, Box<FormulaView>),
}

impl Formula {
    /// The mathematical value of the formula.
    pub open spec fn model(&self) -> FormulaView
        decreases self,
    {
        match self {
            Formula::Atom(a) => FormulaView::Atom(a@),
            Formula::NegAtom(a) => FormulaView::NegAtom(a@),
            Formula::Tensor(a, b) => FormulaView::Tensor(
                Box::new(a.model()),
                Box::new(b.model()),
            ),
            Formula::Par(a, b) => FormulaView::Par(Box::new(a.model()), Box::new(b.model())),
            Formula::One => FormulaView::One,
            Formula::Bottom => FormulaView::Bottom,
            Formula::With(a, b) => FormulaView::With(Box::new(a.model()), Box::new(b.model())),
            Formula::Plus(a, b) => FormulaView::Plus(Box::new(a.model()), Box::new(b.model())),
            Formula::Top => FormulaView::Top,
            Formula::Zero => FormulaView::Zero,
            Formula::OfCourse(a) => FormulaView::OfCourse(Box::new(a.model())),
            Formula::WhyNot(a) => FormulaView::WhyNot(Box::new(a.model())),
            Formula::Lolli(a, b) => FormulaView::Lolli(Box::new(a.model()), Box::new(b.model())),
        }
    }
}

impl View for Formula {
    type V = FormulaView;

    open spec fn view(&self) -> FormulaView {
        self.model()
    }
}

impl FormulaView {
    /// Linear negation, by the De Morgan table. The negation of `A ⊸ B` is
    /// that of `A⊥ ⅋ B`, which is `A ⊗ B⊥`.
    pub open spec fn negate(self) -> FormulaView
        decreases self,
    {
        match self {
            FormulaView::Atom(a) => FormulaView::NegAtom(a),
            FormulaView::NegAtom(a) => FormulaView::Atom(a),
            FormulaView::Tensor(a, b) => FormulaView::Par(
                Box::new(a.negate()),
                Box::new(b.negate()),
            ),
            FormulaView::Par(a, b) => FormulaView::Tensor(
                Box::new(a.negate()),
                Box::new(b.negate()),
            ),
            FormulaView::One => FormulaView::Bottom,
            FormulaView::Bottom => FormulaView::One,
            FormulaView::With(a, b) => FormulaView::Plus(
                Box::new(a.negate()),
                Box::new(b.negate()),
            ),
            FormulaView::Plus(a, b) => FormulaView::With(
                Box::new(a.negate()),
                Box::new(b.negate()),
            ),
            FormulaView::Top => FormulaView::Zero,
            FormulaView::Zero => FormulaView::Top,
            FormulaView::OfCourse(a) => FormulaView::WhyNot(Box::new(a.negate())),
            FormulaView::WhyNot(a) => FormulaView::OfCourse(Box::new(a.negate())),
            FormulaView::Lolli(a, b) => FormulaView::Tensor(a, Box::new(b.negate())),
        }
    }

    /// The number of constructors in the formula.
    pub open spec fn size(self) -> nat
        decreases self,
    {
        match self {
            FormulaView::Tensor(a, b) => 1 + a.size() + b.size(),
            FormulaView::Par(a, b) => 1 + a.size() + b.size(),
            FormulaView::With(a, b) => 1 + a.size() + b.size(),
            FormulaView::Plus(a, b) => 1 + a.size() + b.size(),
            FormulaView::Lolli(a, b) => 1 + a.size() + b.size(),
            FormulaView::OfCourse(a) => 1 + a.size(),
            FormulaView::WhyNot(a) => 1 + a.size(),
            _ => 1,
        }
    }

    /// The formula with every `A ⊸ B` replaced by `A⊥ ⅋ B`, where `A⊥` and
    /// `B` are rewritten in the same way.
    pub open spec fn desugar(self) -> FormulaView
        decreases self.size(),
    {
        match self {
            FormulaView::Lolli(a, b) => {
                proof {
                    lemma_negate_keeps_size(*a);
                }
                FormulaView::Par(Box::new(a.negate().desugar()), Box::new(b.desugar()))
            },
            FormulaView::Tensor(a, b) => FormulaView::Tensor(
                Box::new(a.desugar()),
                Box::new(b.desugar()),
            ),
            FormulaView::Par(a, b) => FormulaView::Par(
                Box::new(a.desugar()),
                Box::new(b.desugar()),
            ),
            FormulaView::With(a, b) => FormulaView::With(
                Box::new(a.desugar()),
                Box::new(b.desugar()),
            ),
            FormulaView::Plus(a, b) => FormulaView::Plus(
                Box::new(a.desugar()),
                Box::new(b.desugar()),
            ),
            FormulaView::OfCourse(a) => FormulaView::OfCourse(Box::new(a.desugar())),
            FormulaView::WhyNot(a) => FormulaView::WhyNot(Box::new(a.desugar())),
            _ => self,
        }
    }

    /// Whether the formula is positive: an atom, a tensor, one, a plus, zero
    /// or an of-course.
    pub open spec fn is_positive(self) -> bool {
        self is Atom || self is Tensor || self is One || self is Plus || self is Zero
            || self is OfCourse
    }

    /// Whether the formula is negative: a negated atom, a par, bottom, a
    /// with, top, a why-not or a linear implication.
    pub open spec fn is_negative(self) -> bool {
        self is NegAtom || self is Par || self is Bottom || self is With || self is Top
            || self is WhyNot || self is Lolli
    }

    /// Whether a linear implication occurs anywhere in the formula.
    pub open spec fn has_lolli(self) -> bool
        decreases self,
    {
        match self {
            FormulaView::Lolli(_, _) => true,
            FormulaView::Tensor(a, b) => a.has_lolli() || b.has_lolli(),
            FormulaView::Par(a, b) => a.has_lolli() || b.has_lolli(),
            FormulaView::With(a, b) => a.has_lolli() || b.has_lolli(),
            FormulaView::Plus(a, b) => a.has_lolli() || b.has_lolli(),
            FormulaView::OfCourse(a) => a.has_lolli(),
            FormulaView::WhyNot(a) => a.has_lolli(),
            _ => false,
        }
    }

    /// The formula in Unicode symbols, fully parenthesized.
    pub open spec fn pretty(self) -> Seq<char>
        decreases self,
    {
        match self {
            FormulaView::Atom(a) => a,
            FormulaView::NegAtom(a) => a + "⊥"@,
            FormulaView::Tensor(a, b) => "("@ + a.pretty() + " ⊗ "@ + b.pretty() + ")"@,
            FormulaView::Par(a, b) => "("@ + a.pretty() + " ⅋ "@ + b.pretty() + ")"@,
            FormulaView::Lolli(a, b) => "("@ + a.pretty() + " ⊸ "@ + b.pretty() + ")"@,
            FormulaView::With(a, b) => "("@ + a.pretty() + " & "@ + b.pretty() + ")"@,
            FormulaView::Plus(a, b) => "("@ + a.pretty() + " ⊕ "@ + b.pretty() + ")"@,
            FormulaView::OfCourse(a) => "!"@ + a.pretty(),
            FormulaView::WhyNot(a) => "?"@ + a.pretty(),
            FormulaView::One => "1"@,
            FormulaView::Bottom => "⊥"@,
            FormulaView::Top => "⊤"@,
            FormulaView::Zero => "0"@,
        }
    }

    /// The formula in ASCII symbols, fully parenthesized.
    pub open spec fn pretty_ascii(self) -> Seq<char>
        decreases self,
    {
        match self {
            FormulaView::Atom(a) => a,
            FormulaView::NegAtom(a) => a + "^"@,
            FormulaView::Tensor(a, b) => "("@ + a.pretty_ascii() + " * "@ + b.pretty_ascii() + ")"@,
            FormulaView::Par(a, b) => "("@ + a.pretty_ascii() + " | "@ + b.pretty_ascii() + ")"@,
            FormulaView::Lolli(a, b) => "("@ + a.pretty_ascii() + " -o "@ + b.pretty_ascii() + ")"@,
            FormulaView::With(a, b) => "("@ + a.pretty_ascii() + " & "@ + b.pretty_ascii() + ")"@,
            FormulaView::Plus(a, b) => "("@ + a.pretty_ascii() + " + "@ + b.pretty_ascii() + ")"@,
            FormulaView::OfCourse(a) => "!"@ + a.pretty_ascii(),
            FormulaView::WhyNot(a) => "?"@ + a.pretty_ascii(),
            FormulaView::One => "1"@,
            FormulaView::Bottom => "bot"@,
            FormulaView::Top => "top"@,
            FormulaView::Zero => "0"@,
        }
    }

    /// The formula as `{:?}` writes it: each constructor by its name, with
    /// what it holds in brackets behind it, and each name quoted.
    pub open spec fn debug_text(self) -> Seq<char>
        decreases self,
    {
        match self {
            FormulaView::Atom(a) => "Atom("@ + quoted(a) + ")"@,
            FormulaView::NegAtom(a) => "NegAtom("@ + quoted(a) + ")"@,
            FormulaView::Tensor(a, b) => "Tensor("@ + a.debug_text() + ", "@ + b.debug_text()
                + ")"@,
            FormulaView::Par(a, b) => "Par("@ + a.debug_text() + ", "@ + b.debug_text() + ")"@,
            FormulaView::Lolli(a, b) => "Lolli("@ + a.debug_text() + ", "@ + b.debug_text() + ")"@,
            FormulaView::With(a, b) => "With("@ + a.debug_text() + ", "@ + b.debug_text() + ")"@,
            FormulaView::Plus(a, b) => "Plus("@ + a.debug_text() + ", "@ + b.debug_text() + ")"@,
            FormulaView::OfCourse(a) => "OfCourse("@ + a.debug_text() + ")"@,
            FormulaView::WhyNot(a) => "WhyNot("@ + a.debug_text() + ")"@,
            FormulaView::One => "One"@,
            FormulaView::Bottom => "Bottom"@,
            FormulaView::Top => "Top"@,
            FormulaView::Zero => "Zero"@,
        }
    }

    /// The formula as LaTeX math, fully parenthesized.
    pub open spec fn pretty_latex(self) -> Seq<char>
        decreases self,
    {
        match self {
            FormulaView::Atom(a) => a,
            FormulaView::NegAtom(a) => a + "^{\\bot}"@,
            FormulaView::Tensor(a, b) => "("@ + a.pretty_latex() + " \\otimes "@
                + b.pretty_latex() + ")"@,
            FormulaView::Par(a, b) => "("@ + a.pretty_latex() + " \\parr "@ + b.pretty_latex()
                + ")"@,
            FormulaView::Lolli(a, b) => "("@ + a.pretty_latex() + " \\multimap "@
                + b.pretty_latex() + ")"@,
            FormulaView::With(a, b) => "("@ + a.pretty_latex() + " \\with "@ + b.pretty_latex()
                + ")"@,
            FormulaView::Plus(a, b) => "("@ + a.pretty_latex() + " \\oplus "@ + b.pretty_latex()
                + ")"@,
            FormulaView::OfCourse(a) => "\\bang "@ + a.pretty_latex(),
            FormulaView::WhyNot(a) => "\\whynot "@ + a.pretty_latex(),
            FormulaView::One => "1"@,
            FormulaView::Bottom => "\\bot"@,
            FormulaView::Top => "\\top"@,
            FormulaView::Zero => "0"@,
        }
    }
}

impl PartialEq for Formula {
    fn eq(&self, other: &Formula) -> (r: bool) {
        self.same(other)
    }
}

impl vstd::std_specs::cmp::PartialEqSpecImpl for Formula {
    open spec fn obeys_eq_spec() -> bool {
        true
    }

    open spec fn eq_spec(&self, other: &Formula) -> bool {
        self@ == other@
    }
}

impl Clone for Formula {
    fn clone(&self) -> (r: Self)
        ensures
            r@ == self@,
        decreases self,
    {
        match self {
            Formula::Atom(a) => Formula::Atom(a.clone()),
            Formula::NegAtom(a) => Formula::NegAtom(a.clone()),
            Formula::Tensor(a, b) => Formula::Tensor(
                Box::new((**a).clone()),
                Box::new((**b).clone()),
            ),
            Formula::Par(a, b) => Formula::Par(Box::new((**a).clone()), Box::new((**b).clone())),
            Formula::One => Formula::One,
            Formula::Bottom => Formula::Bottom,
            Formula::With(a, b) => Formula::With(
                Box::new((**a).clone()),
                Box::new((**b).clone()),
            ),
            Formula::Plus(a, b) => Formula::Plus(
                Box::new((**a).clone()),
                Box::new((**b).clone()),
            ),
            Formula::Top => Formula::Top,
            Formula::Zero => Formula::Zero,
            Formula::OfCourse(a) => Formula::OfCourse(Box::new((**a).clone())),
            Formula::WhyNot(a) => Formula::WhyNot(Box::new((**a).clone())),
            Formula::Lolli(a, b) => Formula::Lolli(
                Box::new((**a).clone()),
                Box::new((**b).clone()),
            ),
        }
    }
}

impl Formula {
    /// The atom with the given name.
    pub fn atom(name: &str) -> (r: Formula)
        ensures
            r@ == FormulaView::Atom(name@),
    {
        Formula::Atom(String::from_str(name))
    }

    /// The negated atom with the given name.
    pub fn neg_atom(name: &str) -> (r: Formula)
        ensures
            r@ == FormulaView::NegAtom(name@),
    {
        Formula::NegAtom(String::from_str(name))
    }

    /// The tensor `a ⊗ b`.
    pub fn tensor(a: Formula, b: Formula) -> (r: Formula)
        ensures
            r@ == FormulaView::Tensor(Box::new(a@), Box::new(b@)),
    {
        Formula::Tensor(Box::new(a), Box::new(b))
    }

    /// The par `a ⅋ b`.
    pub fn par(a: Formula, b: Formula) -> (r: Formula)
        ensures
            r@ == FormulaView::Par(Box::new(a@), Box::new(b@)),
    {
        Formula::Par(Box::new(a), Box::new(b))
    }

    /// The with `a & b`.
    pub fn with(a: Formula, b: Formula) -> (r: Formula)
        ensures
            r@ == FormulaView::With(Box::new(a@), Box::new(b@)),
    {
        Formula::With(Box::new(a), Box::new(b))
    }

    /// The plus `a ⊕ b`.
    pub fn plus(a: Formula, b: Formula) -> (r: Formula)
        ensures
            r@ == FormulaView::Plus(Box::new(a@), Box::new(b@)),
    {
        Formula::Plus(Box::new(a), Box::new(b))
    }

    /// The linear implication `a ⊸ b`.
    pub fn lolli(a: Formula, b: Formula) -> (r: Formula)
        ensures
            r@ == FormulaView::Lolli(Box::new(a@), Box::new(b@)),
    {
        Formula::Lolli(Box::new(a), Box::new(b))
    }

    /// The exponential `!a`.
    pub fn of_course(a: Formula) -> (r: Formula)
        ensures
            r@ == FormulaView::OfCourse(Box::new(a@)),
    {
        Formula::OfCourse(Box::new(a))
    }

    /// The exponential `?a`.
    pub fn why_not(a: Formula) -> (r: Formula)
        ensures
            r@ == FormulaView::WhyNot(Box::new(a@)),
    {
        Formula::WhyNot(Box::new(a))
    }

    /// Tells whether two formulas are the same, constructor by constructor
    /// and name by name.
    pub fn same(&self, other: &Formula) -> (r: bool)
        ensures
            r == (self@ == other@),
        decreases self,
    {
        match (self, other) {
            (Formula::Atom(a), Formula::Atom(b)) => *a == *b,
            (Formula::NegAtom(a), Formula::NegAtom(b)) => *a == *b,
            (Formula::Tensor(a, b), Formula::Tensor(c, d)) => a.same(c) && b.same(d),
            (Formula::Par(a, b), Formula::Par(c, d)) => a.same(c) && b.same(d),
            (Formula::One, Formula::One) => true,
            (Formula::Bottom, Formula::Bottom) => true,
            (Formula::With(a, b), Formula::With(c, d)) => a.same(c) && b.same(d),
            (Formula::Plus(a, b), Formula::Plus(c, d)) => a.same(c) && b.same(d),
            (Formula::Top, Formula::Top) => true,
            (Formula::Zero, Formula::Zero) => true,
            (Formula::OfCourse(a), Formula::OfCourse(b)) => a.same(b),
            (Formula::WhyNot(a), Formula::WhyNot(b)) => a.same(b),
            (Formula::Lolli(a, b), Formula::Lolli(c, d)) => a.same(c) && b.same(d),
            _ => false,
        }
    }

    /// Computes the linear negation of the formula.
    pub fn negate(&self) -> (r: Formula)
        ensures
            r@ == self@.negate(),
        decreases self,
    {
        match self {
            Formula::Atom(a) => Formula::NegAtom(a.clone()),
            Formula::NegAtom(a) => Formula::Atom(a.clone()),
            Formula::Tensor(a, b) => Formula::Par(Box::new(a.negate()), Box::new(b.negate())),
            Formula::Par(a, b) => Formula::Tensor(Box::new(a.negate()), Box::new(b.negate())),
            Formula::One => Formula::Bottom,
            Formula::Bottom => Formula::One,
            Formula::With(a, b) => Formula::Plus(Box::new(a.negate()), Box::new(b.negate())),
            Formula::Plus(a, b) => Formula::With(Box::new(a.negate()), Box::new(b.negate())),
            Formula::Top => Formula::Zero,
            Formula::Zero => Formula::Top,
            Formula::OfCourse(a) => Formula::WhyNot(Box::new(a.negate())),
            Formula::WhyNot(a) => Formula::OfCourse(Box::new(a.negate())),
            Formula::Lolli(a, b) => Formula::Tensor(
                Box::new((**a).clone()),
                Box::new(b.negate()),
            ),
        }
    }

    /// Replaces every linear implication `A ⊸ B` in the formula by `A⊥ ⅋ B`.
    pub fn desugar(&self) -> (r: Formula)
        ensures
            r@ == self@.desugar(),
            !r@.has_lolli(),
        decreases self@.size(),
    {
        proof {
            lemma_desugar_removes_lolli(self@);
        }
        match self {
            Formula::Lolli(a, b) => {
                proof {
                    lemma_negate_keeps_size(a@);
                }
                Formula::Par(Box::new(a.negate().desugar()), Box::new(b.desugar()))
            },
            Formula::Tensor(a, b) => Formula::Tensor(Box::new(a.desugar()), Box::new(b.desugar())),
            Formula::Par(a, b) => Formula::Par(Box::new(a.desugar()), Box::new(b.desugar())),
            Formula::With(a, b) => Formula::With(Box::new(a.desugar()), Box::new(b.desugar())),
            Formula::Plus(a, b) => Formula::Plus(Box::new(a.desugar()), Box::new(b.desugar())),
            Formula::OfCourse(a) => Formula::OfCourse(Box::new(a.desugar())),
            Formula::WhyNot(a) => Formula::WhyNot(Box::new(a.desugar())),
            Formula::Atom(a) => Formula::Atom(a.clone()),
            Formula::NegAtom(a) => Formula::NegAtom(a.clone()),
            Formula::One => Formula::One,
            Formula::Bottom => Formula::Bottom,
            Formula::Top => Formula::Top,
            Formula::Zero => Formula::Zero,
        }
    }

    /// Tells whether the formula is positive.
    pub fn is_positive(&self) -> (r: bool)
        ensures
            r == self@.is_positive(),
    {
        match self {
            Formula::Atom(_) => true,
            Formula::Tensor(_, _) => true,
            Formula::One => true,
            Formula::Plus(_, _) => true,
            Formula::Zero => true,
            Formula::OfCourse(_) => true,
            _ => false,
        }
    }

    /// Tells whether the formula is negative.
    pub fn is_negative(&self) -> (r: bool)
        ensures
            r == self@.is_negative(),
            r != self@.is_positive(),
    {
        !self.is_positive()
    }

    /// Writes the formula in Unicode symbols.
    pub fn pretty(&self) -> (r: String)
        ensures
            r@ == self@.pretty(),
        decreases self,
    {
        match self {
            Formula::Atom(a) => a.clone(),
            Formula::NegAtom(a) => glue2(a.as_str(), "⊥"),
            Formula::Tensor(a, b) => glue5(
                "(",
                a.pretty().as_str(),
                " ⊗ ",
                b.pretty().as_str(),
                ")",
            ),
            Formula::Par(a, b) => glue5("(", a.pretty().as_str(), " ⅋ ", b.pretty().as_str(), ")"),
            Formula::Lolli(a, b) => glue5(
                "(",
                a.pretty().as_str(),
                " ⊸ ",
                b.pretty().as_str(),
                ")",
            ),
            Formula::With(a, b) => glue5("(", a.pretty().as_str(), " & ", b.pretty().as_str(), ")"),
            Formula::Plus(a, b) => glue5("(", a.pretty().as_str(), " ⊕ ", b.pretty().as_str(), ")"),
            Formula::OfCourse(a) => glue2("!", a.pretty().as_str()),
            Formula::WhyNot(a) => glue2("?", a.pretty().as_str()),
            Formula::One => String::from_str("1"),
            Formula::Bottom => String::from_str("⊥"),
            Formula::Top => String::from_str("⊤"),
            Formula::Zero => String::from_str("0"),
        }
    }

    /// Writes the formula in ASCII symbols.
    pub fn pretty_ascii(&self) -> (r: String)
        ensures
            r@ == self@.pretty_ascii(),
        decreases self,
    {
        match self {
            Formula::Atom(a) => a.clone(),
            Formula::NegAtom(a) => glue2(a.as_str(), "^"),
            Formula::Tensor(a, b) => glue5(
                "(",
                a.pretty_ascii().as_str(),
                " * ",
                b.pretty_ascii().as_str(),
                ")",
            ),
            Formula::Par(a, b) => glue5(
                "(",
                a.pretty_ascii().as_str(),
                " | ",
                b.pretty_ascii().as_str(),
                ")",
            ),
            Formula::Lolli(a, b) => glue5(
                "(",
                a.pretty_ascii().as_str(),
                " -o ",
                b.pretty_ascii().as_str(),
                ")",
            ),
            Formula::With(a, b) => glue5(
                "(",
                a.pretty_ascii().as_str(),
                " & ",
                b.pretty_ascii().as_str(),
                ")",
            ),
            Formula::Plus(a, b) => glue5(
                "(",
                a.pretty_ascii().as_str(),
                " + ",
                b.pretty_ascii().as_str(),
                ")",
            ),
            Formula::OfCourse(a) => glue2("!", a.pretty_ascii().as_str()),
            Formula::WhyNot(a) => glue2("?", a.pretty_ascii().as_str()),
            Formula::One => String::from_str("1"),
            Formula::Bottom => String::from_str("bot"),
            Formula::Top => String::from_str("top"),
            Formula::Zero => String::from_str("0"),
        }
    }

    /// Writes the formula as `{:?}` does.
    pub fn debug_text(&self) -> (r: String)
        ensures
            r@ == self@.debug_text(),
        decreases self,
    {
        match self {
            Formula::Atom(a) => glue3("Atom(", quote(a.as_str()).as_str(), ")"),
            Formula::NegAtom(a) => glue3("NegAtom(", quote(a.as_str()).as_str(), ")"),
            Formula::Tensor(a, b) => glue5(
                "Tensor(",
                a.debug_text().as_str(),
                ", ",
                b.debug_text().as_str(),
                ")",
            ),
            Formula::Par(a, b) => glue5(
                "Par(",
                a.debug_text().as_str(),
                ", ",
                b.debug_text().as_str(),
                ")",
            ),
            Formula::Lolli(a, b) => glue5(
                "Lolli(",
                a.debug_text().as_str(),
                ", ",
                b.debug_text().as_str(),
                ")",
            ),
            Formula::With(a, b) => glue5(
                "With(",
                a.debug_text().as_str(),
                ", ",
                b.debug_text().as_str(),
                ")",
            ),
            Formula::Plus(a, b) => glue5(
                "Plus(",
                a.debug_text().as_str(),
                ", ",
                b.debug_text().as_str(),
                ")",
            ),
            Formula::OfCourse(a) => glue3("OfCourse(", a.debug_text().as_str(), ")"),
            Formula::WhyNot(a) => glue3("WhyNot(", a.debug_text().as_str(), ")"),
            Formula::One => String::from_str("One"),
            Formula::Bottom => String::from_str("Bottom"),
            Formula::Top => String::from_str("Top"),
            Formula::Zero => String::from_str("Zero"),
        }
    }

    /// Writes the formula as LaTeX math.
    pub fn pretty_latex(&self) -> (r: String)
        ensures
            r@ == self@.pretty_latex(),
        decreases self,
    {
        match self {
            Formula::Atom(a) => a.clone(),
            Formula::NegAtom(a) => glue2(a.as_str(), "^{\\bot}"),
            Formula::Tensor(a, b) => glue5(
                "(",
                a.pretty_latex().as_str(),
                " \\otimes ",
                b.pretty_latex().as_str(),
                ")",
            ),
            Formula::Par(a, b) => glue5(
                "(",
                a.pretty_latex().as_str(),
                " \\parr ",
                b.pretty_latex().as_str(),
                ")",
            ),
            Formula::Lolli(a, b) => glue5(
                "(",
                a.pretty_latex().as_str(),
                " \\multimap ",
                b.pretty_latex().as_str(),
                ")",
            ),
            Formula::With(a, b) => glue5(
                "(",
                a.pretty_latex().as_str(),
                " \\with ",
                b.pretty_latex().as_str(),
                ")",
            ),
            Formula::Plus(a, b) => glue5(
                "(",
                a.pretty_latex().as_str(),
                " \\oplus ",
                b.pretty_latex().as_str(),
                ")",
            ),
            Formula::OfCourse(a) => glue2("\\bang ", a.pretty_latex().as_str()),
            Formula::WhyNot(a) => glue2("\\whynot ", a.pretty_latex().as_str()),
            Formula::One => String::from_str("1"),
            Formula::Bottom => String::from_str("\\bot"),
            Formula::Top => String::from_str("\\top"),
            Formula::Zero => String::from_str("0"),
        }
    }
}

/// Negation keeps the number of constructors.
pub proof fn lemma_negate_keeps_size(f: FormulaView)
    ensures
        f.negate().size() == f.size(),
    decreases f,
{
    match f {
        FormulaView::Tensor(a, b) => {
            lemma_negate_keeps_size(*a);
            lemma_negate_keeps_size(*b);
        },
        FormulaView::Par(a, b) => {
            lemma_negate_keeps_size(*a);
            lemma_negate_keeps_size(*b);
        },
        FormulaView::With(a, b) => {
            lemma_negate_keeps_size(*a);
            lemma_negate_keeps_size(*b);
        },
        FormulaView::Plus(a, b) => {
            lemma_negate_keeps_size(*a);
            lemma_negate_keeps_size(*b);
        },
        FormulaView::Lolli(a, b) => {
            lemma_negate_keeps_size(*b);
        },
        FormulaView::OfCourse(a) => {
            lemma_negate_keeps_size(*a);
        },
        FormulaView::WhyNot(a) => {
            lemma_negate_keeps_size(*a);
        },
        _ => {},
    }
}

/// Negation is an involution on every formula without a linear implication:
/// negating twice gives the formula back.
pub proof fn lemma_negate_involutive(f: FormulaView)
    requires
        !f.has_lolli(),
    ensures
        f.negate().negate() == f,
    decreases f,
{
    match f {
        FormulaView::Tensor(a, b) => {
            lemma_negate_involutive(*a);
            lemma_negate_involutive(*b);
        },
        FormulaView::Par(a, b) => {
            lemma_negate_involutive(*a);
            lemma_negate_involutive(*b);
        },
        FormulaView::With(a, b) => {
            lemma_negate_involutive(*a);
            lemma_negate_involutive(*b);
        },
        FormulaView::Plus(a, b) => {
            lemma_negate_involutive(*a);
            lemma_negate_involutive(*b);
        },
        FormulaView::OfCourse(a) => {
            lemma_negate_involutive(*a);
        },
        FormulaView::WhyNot(a) => {
            lemma_negate_involutive(*a);
        },
        _ => {},
    }
}

/// Negating a linear implication twice gives its expansion `A⊥ ⅋ B`, where
/// `B` has no linear implication.
pub proof fn lemma_negate_twice_expands_lolli(a: FormulaView, b: FormulaView)
    requires
        !b.has_lolli(),
    ensures
        FormulaView::Lolli(Box::new(a), Box::new(b)).negate().negate() == FormulaView::Par(
            Box::new(a.negate()),
            Box::new(b),
        ),
{
    lemma_negate_involutive(b);
}

/// Every formula has exactly one polarity.
pub proof fn lemma_polarity_exclusive(f: FormulaView)
    ensures
        f.is_positive() != f.is_negative(),
{
}

/// Negation turns the polarity of a formula around, unless the formula is a
/// linear implication, whose negation is a tensor while it is itself negative.
pub proof fn lemma_negate_flips_polarity(f: FormulaView)
    requires
        !(f is Lolli),
    ensures
        f.negate().is_positive() == f.is_negative(),
{
}

/// Desugaring leaves no linear implication anywhere in the formula.
pub proof fn lemma_desugar_removes_lolli(f: FormulaView)
    ensures
        !f.desugar().has_lolli(),
    decreases f.size(),
{
    match f {
        FormulaView::Lolli(a, b) => {
            lemma_negate_keeps_size(*a);
            lemma_desugar_removes_lolli(a.negate());
            lemma_desugar_removes_lolli(*b);
        },
        FormulaView::Tensor(a, b) => {
            lemma_desugar_removes_lolli(*a);
            lemma_desugar_removes_lolli(*b);
        },
        FormulaView::Par(a, b) => {
            lemma_desugar_removes_lolli(*a);
            lemma_desugar_removes_lolli(*b);
        },
        FormulaView::With(a, b) => {
            lemma_desugar_removes_lolli(*a);
            lemma_desugar_removes_lolli(*b);
        },
        FormulaView::Plus(a, b) => {
            lemma_desugar_removes_lolli(*a);
            lemma_desugar_removes_lolli(*b);
        },
        FormulaView::OfCourse(a) => {
            lemma_desugar_removes_lolli(*a);
        },
        FormulaView::WhyNot(a) => {
            lemma_desugar_removes_lolli(*a);
        },
        _ => {},
    }
}

/// Desugaring changes nothing in a formula without a linear implication.
pub proof fn lemma_desugar_fixes_lolli_free(f: FormulaView)
    requires
        !f.has_lolli(),
    ensures
        f.desugar() == f,
    decreases f,
{
    match f {
        FormulaView::Tensor(a, b) => {
            lemma_desugar_fixes_lolli_free(*a);
            lemma_desugar_fixes_lolli_free(*b);
        },
        FormulaView::Par(a, b) => {
            lemma_desugar_fixes_lolli_free(*a);
            lemma_desugar_fixes_lolli_free(*b);
        },
        FormulaView::With(a, b) => {
            lemma_desugar_fixes_lolli_free(*a);
            lemma_desugar_fixes_lolli_free(*b);
        },
        FormulaView::Plus(a, b) => {
            lemma_desugar_fixes_lolli_free(*a);
            lemma_desugar_fixes_lolli_free(*b);
        },
        FormulaView::OfCourse(a) => {
            lemma_desugar_fixes_lolli_free(*a);
        },
        FormulaView::WhyNot(a) => {
            lemma_desugar_fixes_lolli_free(*a);
        },
        _ => {},
    }
}

/// Desugaring and negation can be done in either order.
pub proof fn lemma_desugar_commutes_with_negate(f: FormulaView)
    ensures
        f.negate().desugar() == f.desugar().negate(),
    decreases f.size(),
{
    match f {
        FormulaView::Lolli(a, b) => {
            lemma_negate_keeps_size(*a);
            lemma_desugar_commutes_with_negate(*a);
            lemma_desugar_commutes_with_negate(*b);
            lemma_desugar_removes_lolli(*a);
            lemma_negate_involutive(a.desugar());
        },
        FormulaView::Tensor(a, b) => {
            lemma_desugar_commutes_with_negate(*a);
            lemma_desugar_commutes_with_negate(*b);
        },
        FormulaView::Par(a, b) => {
            lemma_desugar_commutes_with_negate(*a);
            lemma_desugar_commutes_with_negate(*b);
        },
        FormulaView::With(a, b) => {
            lemma_desugar_commutes_with_negate(*a);
            lemma_desugar_commutes_with_negate(*b);
        },
        FormulaView::Plus(a, b) => {
            lemma_desugar_commutes_with_negate(*a);
            lemma_desugar_commutes_with_negate(*b);
        },
        FormulaView::OfCourse(a) => {
            lemma_desugar_commutes_with_negate(*a);
        },
        FormulaView::WhyNot(a) => {
            lemma_desugar_commutes_with_negate(*a);
        },
        _ => {},
    }
}

/// Negation is an involution up to desugaring: negating any formula twice
/// and desugaring gives the desugared formula.
pub proof fn lemma_negate_twice_desugars(f: FormulaView)
    ensures
        f.negate().negate().desugar() == f.desugar(),
{
    lemma_desugar_commutes_with_negate(f.negate());
    lemma_desugar_commutes_with_negate(f);
    lemma_desugar_removes_lolli(f);
    lemma_negate_involutive(f.desugar());
}

} // verus!
