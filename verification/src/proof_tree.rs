//! Proof trees of the sequent calculus: a conclusion, the rule that was
//! applied, and the proofs of the premises.

use vstd::prelude::*;
use vstd::string::StringExecFns;
use crate::formula::{Formula, FormulaView};
use crate::sequent::{Sequent, SequentView};
use crate::text::{decimal, decimal_string, glue3};

verus! {

/// Inference rules of the linear logic sequent calculus.
#[derive(Debug, Eq)]
pub enum Rule {
    /// Axiom: ⊢ A⊥, A
    Axiom,
    /// Cut: from ⊢ Γ, A and ⊢ Δ, A⊥ derive ⊢ Γ, Δ
    Cut(Formula),
    /// One introduction: ⊢ 1
    OneIntro,
    /// Bottom introduction: from ⊢ Γ derive ⊢ Γ, ⊥
    BottomIntro,
    /// Tensor introduction: from ⊢ Γ, A and ⊢ Δ, B derive ⊢ Γ, Δ, A ⊗ B
    TensorIntro,
    /// Par introduction: from ⊢ Γ, A, B derive ⊢ Γ, A ⅋ B
    ParIntro,
    /// Top introduction: ⊢ Γ, ⊤
    TopIntro,
    /// With introduction: from ⊢ Γ, A and ⊢ Γ, B derive ⊢ Γ, A & B
    WithIntro,
    /// Plus introduction (left): from ⊢ Γ, A derive ⊢ Γ, A ⊕ B
    PlusIntroLeft,
    /// Plus introduction (right): from ⊢ Γ, B derive ⊢ Γ, A ⊕ B
    PlusIntroRight,
    /// Of course introduction: from ⊢ ?Γ, A derive ⊢ ?Γ, !A
    OfCourseIntro,
    /// Why not introduction: from ⊢ Γ, A derive ⊢ Γ, ?A
    WhyNotIntro,
    /// Weakening: from ⊢ Γ derive ⊢ Γ, ?A
    Weakening,
    /// Contraction: from ⊢ Γ, ?A, ?A derive ⊢ Γ, ?A
    Contraction,
    /// Dereliction: use of ?A as A
    Dereliction,
    /// Focus on a positive formula at an index
    FocusPositive(usize),
    /// Focus on a negative formula at an index
    FocusNegative(usize),
    /// Blur (unfocus)
    Blur,
}

/// The mathematical value of a [`Rule`].
pub ghost enum RuleView {
    Axiom,
    Cut(FormulaView),
    OneIntro,
    BottomIntro,
    TensorIntro,
    ParIntro,
    TopIntro,
    WithIntro,
    PlusIntroLeft,
    PlusIntroRight,
    OfCourseIntro,
    WhyNotIntro,
    Weakening,
    Contraction,
    Dereliction,
    FocusPositive(nat),
    FocusNegative(nat),
    Blur,
}

impl View for Rule {
    type V = RuleView;

    open spec fn view(&self) -> RuleView {
        match self {
            Rule::Axiom => RuleView::Axiom,
            Rule::Cut(f) => RuleView::Cut(f@),
            Rule::OneIntro => RuleView::OneIntro,
            Rule::BottomIntro => RuleView::BottomIntro,
            Rule::TensorIntro => RuleView::TensorIntro,
            Rule::ParIntro => RuleView::ParIntro,
            Rule::TopIntro => RuleView::TopIntro,
            Rule::WithIntro => RuleView::WithIntro,
            Rule::PlusIntroLeft => RuleView::PlusIntroLeft,
            Rule::PlusIntroRight => RuleView::PlusIntroRight,
            Rule::OfCourseIntro => RuleView::OfCourseIntro,
            Rule::WhyNotIntro => RuleView::WhyNotIntro,
            Rule::Weakening => RuleView::Weakening,
            Rule::Contraction => RuleView::Contraction,
            Rule::Dereliction => RuleView::Dereliction,
            Rule::FocusPositive(i) => RuleView::FocusPositive(*i as nat),
            Rule::FocusNegative(i) => RuleView::FocusNegative(*i as nat),
            Rule::Blur => RuleView::Blur,
        }
    }
}

impl RuleView {
    /// The rule as `{:?}` writes it: its name, and behind `Cut` and the
    /// focusing rules what they hold, in brackets.
    pub open spec fn name(self) -> Seq<char> {
        match self {
            RuleView::Axiom => "Axiom"@,
            RuleView::Cut(f) => "Cut("@ + f.debug_text() + ")"@,
            RuleView::OneIntro => "OneIntro"@,
            RuleView::BottomIntro => "BottomIntro"@,
            RuleView::TensorIntro => "TensorIntro"@,
            RuleView::ParIntro => "ParIntro"@,
            RuleView::TopIntro => "TopIntro"@,
            RuleView::WithIntro => "WithIntro"@,
            RuleView::PlusIntroLeft => "PlusIntroLeft"@,
            RuleView::PlusIntroRight => "PlusIntroRight"@,
            RuleView::OfCourseIntro => "OfCourseIntro"@,
            RuleView::WhyNotIntro => "WhyNotIntro"@,
            RuleView::Weakening => "Weakening"@,
            RuleView::Contraction => "Contraction"@,
            RuleView::Dereliction => "Dereliction"@,
            RuleView::FocusPositive(i) => "FocusPositive("@ + decimal(i) + ")"@,
            RuleView::FocusNegative(i) => "FocusNegative("@ + decimal(i) + ")"@,
            RuleView::Blur => "Blur"@,
        }
    }
}

impl Rule {
    /// Tells whether two rules are the same, with what they hold.
    pub fn same(&self, other: &Rule) -> (r: bool)
        ensures
            r == (self@ == other@),
    {
        match (self, other) {
            (Rule::Axiom, Rule::Axiom) => true,
            (Rule::Cut(f), Rule::Cut(g)) => f.same(g),
            (Rule::OneIntro, Rule::OneIntro) => true,
            (Rule::BottomIntro, Rule::BottomIntro) => true,
            (Rule::TensorIntro, Rule::TensorIntro) => true,
            (Rule::ParIntro, Rule::ParIntro) => true,
            (Rule::TopIntro, Rule::TopIntro) => true,
            (Rule::WithIntro, Rule::WithIntro) => true,
            (Rule::PlusIntroLeft, Rule::PlusIntroLeft) => true,
            (Rule::PlusIntroRight, Rule::PlusIntroRight) => true,
            (Rule::OfCourseIntro, Rule::OfCourseIntro) => true,
            (Rule::WhyNotIntro, Rule::WhyNotIntro) => true,
            (Rule::Weakening, Rule::Weakening) => true,
            (Rule::Contraction, Rule::Contraction) => true,
            (Rule::Dereliction, Rule::Dereliction) => true,
            (Rule::FocusPositive(i), Rule::FocusPositive(j)) => *i == *j,
            (Rule::FocusNegative(i), Rule::FocusNegative(j)) => *i == *j,
            (Rule::Blur, Rule::Blur) => true,
            _ => false,
        }
    }

    /// Writes the rule as `{:?}` does.
    pub fn name(&self) -> (r: String)
        ensures
            r@ == self@.name(),
    {
        match self {
            Rule::Axiom => String::from_str("Axiom"),
            Rule::Cut(f) => glue3("Cut(", f.debug_text().as_str(), ")"),
            Rule::OneIntro => String::from_str("OneIntro"),
            Rule::BottomIntro => String::from_str("BottomIntro"),
            Rule::TensorIntro => String::from_str("TensorIntro"),
            Rule::ParIntro => String::from_str("ParIntro"),
            Rule::TopIntro => String::from_str("TopIntro"),
            Rule::WithIntro => String::from_str("WithIntro"),
            Rule::PlusIntroLeft => String::from_str("PlusIntroLeft"),
            Rule::PlusIntroRight => String::from_str("PlusIntroRight"),
            Rule::OfCourseIntro => String::from_str("OfCourseIntro"),
            Rule::WhyNotIntro => String::from_str("WhyNotIntro"),
            Rule::Weakening => String::from_str("Weakening"),
            Rule::Contraction => String::from_str("Contraction"),
            Rule::Dereliction => String::from_str("Dereliction"),
            Rule::FocusPositive(i) => glue3("FocusPositive(", decimal_string(*i).as_str(), ")"),
            Rule::FocusNegative(i) => glue3("FocusNegative(", decimal_string(*i).as_str(), ")"),
            Rule::Blur => String::from_str("Blur"),
        }
    }
}

impl PartialEq for Rule {
    fn eq(&self, other: &Rule) -> (r: bool) {
        self.same(other)
    }
}

impl vstd::std_specs::cmp::PartialEqSpecImpl for Rule {
    open spec fn obeys_eq_spec() -> bool {
        true
    }

    open spec fn eq_spec(&self, other: &Rule) -> bool {
        self@ == other@
    }
}

impl Clone for Rule {
    fn clone(&self) -> (r: Self)
        ensures
            r@ == self@,
    {
        match self {
            Rule::Axiom => Rule::Axiom,
            Rule::Cut(f) => Rule::Cut(f.clone()),
            Rule::OneIntro => Rule::OneIntro,
            Rule::BottomIntro => Rule::BottomIntro,
            Rule::TensorIntro => Rule::TensorIntro,
            Rule::ParIntro => Rule::ParIntro,
            Rule::TopIntro => Rule::TopIntro,
            Rule::WithIntro => Rule::WithIntro,
            Rule::PlusIntroLeft => Rule::PlusIntroLeft,
            Rule::PlusIntroRight => Rule::PlusIntroRight,
            Rule::OfCourseIntro => Rule::OfCourseIntro,
            Rule::WhyNotIntro => Rule::WhyNotIntro,
            Rule::Weakening => Rule::Weakening,
            Rule::Contraction => Rule::Contraction,
            Rule::Dereliction => Rule::Dereliction,
            Rule::FocusPositive(i) => Rule::FocusPositive(*i),
            Rule::FocusNegative(i) => Rule::FocusNegative(*i),
            Rule::Blur => Rule::Blur,
        }
    }
}

/// A proof in the sequent calculus.
#[derive(Debug, Eq)]
pub struct Proof {
    /// The conclusion of this proof step
    pub conclusion: Sequent,
    /// The inference rule applied
    pub rule: Rule,
    /// The proofs of the premises
    pub premises: Vec<Proof>,
}

/// The mathematical value of a [`Proof`].
pub ghost struct ProofView {
    pub conclusion: SequentView,
    pub rule: RuleView,
    pub premises: Seq<ProofView>,
}

impl Proof {
    /// The mathematical value of the proof.
    pub open spec fn model(&self) -> ProofView
        decreases self,
    {
        ProofView {
            conclusion: self.conclusion@,
            rule: self.rule@,
            premises: Seq::new(
                self.premises.len() as nat,
                |i: int|
                    if 0 <= i < self.premises.len() {
                        self.premises[i].model()
                    } else {
                        arbitrary()
                    },
            ),
        }
    }
}

impl View for Proof {
    type V = ProofView;

    open spec fn view(&self) -> ProofView {
        self.model()
    }
}

impl ProofView {
    /// The number of `Cut` rules in the first `n` of the given proofs.
    pub open spec fn cuts_in(proofs: Seq<ProofView>, n: nat) -> nat
        decreases proofs, n,
    {
        if n == 0 || n > proofs.len() {
            0
        } else {
            Self::cuts_in(proofs, (n - 1) as nat) + proofs[n - 1].cut_count()
        }
    }

    /// The number of `Cut` rules in the proof.
    pub open spec fn cut_count(self) -> nat
        decreases self,
    {
        (if self.rule is Cut {
            1nat
        } else {
            0nat
        }) + Self::cuts_in(self.premises, self.premises.len())
    }

    /// Whether the proof uses no `Cut` rule.
    pub open spec fn is_cut_free(self) -> bool {
        self.cut_count() == 0
    }

    /// The greatest depth among the first `n` of the given proofs, 0 when
    /// there are none.
    pub open spec fn deepest_in(proofs: Seq<ProofView>, n: nat) -> nat
        decreases proofs, n,
    {
        if n == 0 || n > proofs.len() {
            0
        } else {
            let rest = Self::deepest_in(proofs, (n - 1) as nat);
            let last = proofs[n - 1].depth();
            if last > rest {
                last
            } else {
                rest
            }
        }
    }

    /// The depth of the proof tree: 1 for a leaf, else one more than the
    /// depth of its deepest premise.
    pub open spec fn depth(self) -> nat
        decreases self,
    {
        1 + Self::deepest_in(self.premises, self.premises.len())
    }
}

/// `n`, or the greatest `usize` where `n` is beyond it.
pub open spec fn capped(n: nat) -> nat {
    if n > usize::MAX {
        usize::MAX as nat
    } else {
        n
    }
}

/// Adds two counts, stopping at the greatest `usize`.
pub fn add_capped(a: usize, b: usize) -> (r: usize)
    ensures
        r as nat == capped(a as nat + b as nat),
{
    if a > usize::MAX - b {
        usize::MAX
    } else {
        a + b
    }
}

impl PartialEq for Proof {
    fn eq(&self, other: &Proof) -> (r: bool) {
        self.same(other)
    }
}

impl vstd::std_specs::cmp::PartialEqSpecImpl for Proof {
    open spec fn obeys_eq_spec() -> bool {
        true
    }

    open spec fn eq_spec(&self, other: &Proof) -> bool {
        self@ == other@
    }
}

impl Clone for Proof {
    fn clone(&self) -> (r: Self)
        ensures
            r@ == self@,
        decreases self,
    {
        let mut premises: Vec<Proof> = Vec::new();
        let mut i: usize = 0;
        while i < self.premises.len()
            invariant
                i <= self.premises.len(),
                premises.len() == i,
                forall|k: int| 0 <= k < i ==> premises[k]@ == self.premises[k]@,
            decreases self.premises.len() - i,
        {
            premises.push(self.premises[i].clone());
            i = i + 1;
        }
        let r = Proof { conclusion: self.conclusion.clone(), rule: self.rule.clone(), premises };
        assert(r@.premises =~= self@.premises);
        r
    }
}

impl Proof {
    /// Tells whether two proofs are the same: the same conclusion by the
    /// same rule from the same premises.
    pub fn same(&self, other: &Proof) -> (r: bool)
        ensures
            r == (self@ == other@),
        decreases self,
    {
        if !self.conclusion.same(&other.conclusion) || !self.rule.same(&other.rule) {
            return false;
        }
        if self.premises.len() != other.premises.len() {
            assert(self@.premises.len() != other@.premises.len());
            return false;
        }
        let mut i: usize = 0;
        while i < self.premises.len()
            invariant
                i <= self.premises.len(),
                self.premises.len() == other.premises.len(),
                forall|k: int| 0 <= k < i ==> self.premises[k]@ == other.premises[k]@,
            decreases self.premises.len() - i,
        {
            if !self.premises[i].same(&other.premises[i]) {
                assert(self@.premises[i as int] == self.premises[i as int]@);
                assert(other@.premises[i as int] == other.premises[i as int]@);
                return false;
            }
            i = i + 1;
        }
        assert(self@.premises =~= other@.premises);
        true
    }

    /// Counts the `Cut` rules in the proof. The count stops at the greatest
    /// `usize`.
    pub fn cut_count(&self) -> (r: usize)
        ensures
            r as nat == capped(self@.cut_count()),
        decreases self,
    {
        let mut total: usize = match &self.rule {
            Rule::Cut(_) => 1,
            _ => 0,
        };
        let ghost own: nat = total as nat;
        let mut i: usize = 0;
        while i < self.premises.len()
            invariant
                i <= self.premises.len(),
                own == (if self@.rule is Cut {
                    1nat
                } else {
                    0nat
                }),
                total as nat == capped(own + ProofView::cuts_in(self@.premises, i as nat)),
            decreases self.premises.len() - i,
        {
            let below = self.premises[i].cut_count();
            proof {
                assert(self@.premises[i as int] == self.premises[i as int]@);
            }
            total = add_capped(total, below);
            i = i + 1;
        }
        total
    }

    /// Tells whether the proof uses no `Cut` rule.
    pub fn is_cut_free(&self) -> (r: bool)
        ensures
            r == self@.is_cut_free(),
    {
        self.cut_count() == 0
    }

    /// Measures the depth of the proof tree. The depth stops at the greatest
    /// `usize`.
    pub fn depth(&self) -> (r: usize)
        ensures
            r as nat == capped(self@.depth()),
        decreases self,
    {
        let mut deepest: usize = 0;
        let mut i: usize = 0;
        while i < self.premises.len()
            invariant
                i <= self.premises.len(),
                deepest as nat == capped(ProofView::deepest_in(self@.premises, i as nat)),
            decreases self.premises.len() - i,
        {
            let below = self.premises[i].depth();
            proof {
                assert(self@.premises[i as int] == self.premises[i as int]@);
            }
            if below > deepest {
                deepest = below;
            }
            i = i + 1;
        }
        add_capped(1, deepest)
    }
}

} // verus!
