//! One-sided sequents with a linear and an unrestricted zone, and the
//! two-sided sequents that users write.

use vstd::prelude::*;
use crate::formula::{Formula, FormulaView};
use crate::text::{glue2, glue3, join, join_strings, views};

verus! {

/// The mathematical values of a sequence of formulas.
pub open spec fn formula_views(v: Seq<Formula>) -> Seq<FormulaView> {
    Seq::new(v.len(), |i: int| v[i]@)
}

/// Each formula of the sequence in Unicode symbols.
pub open spec fn pretty_each(v: Seq<FormulaView>) -> Seq<Seq<char>> {
    Seq::new(v.len(), |i: int| v[i].pretty())
}

/// Each formula of the sequence in ASCII symbols.
pub open spec fn pretty_ascii_each(v: Seq<FormulaView>) -> Seq<Seq<char>> {
    Seq::new(v.len(), |i: int| v[i].pretty_ascii())
}

/// Each formula of the sequence as LaTeX math.
pub open spec fn pretty_latex_each(v: Seq<FormulaView>) -> Seq<Seq<char>> {
    Seq::new(v.len(), |i: int| v[i].pretty_latex())
}

/// The negation of each formula of the sequence.
pub open spec fn negate_each(v: Seq<FormulaView>) -> Seq<FormulaView> {
    Seq::new(v.len(), |i: int| v[i].negate())
}

/// A one-sided sequent ⊢ Γ, held in zones: the linear formulas, each to be
/// used exactly once, the unrestricted formulas, each under an implicit `?`,
/// and at most one formula under focus.
#[derive(Debug, Eq, Hash)]
pub struct Sequent {
    /// Linear formulas (a multiset, kept in order)
    pub linear: Vec<Formula>,
    /// Unrestricted formulas (under ?)
    pub unrestricted: Vec<Formula>,
    /// The formula under focus, if any
    pub focus: Option<Formula>,
}

/// The mathematical value of a [`Sequent`].
pub ghost struct SequentView {
    pub linear: Seq<FormulaView>,
    pub unrestricted: Seq<FormulaView>,
    pub focus: Option<FormulaView>,
}

impl View for Sequent {
    type V = SequentView;

    open spec fn view(&self) -> SequentView {
        SequentView {
            linear: formula_views(self.linear@),
            unrestricted: formula_views(self.unrestricted@),
            focus: match self.focus {
                Some(f) => Some(f@),
                None => None,
            },
        }
    }
}

impl SequentView {
    /// The sequent of the given linear formulas, with nothing unrestricted
    /// and nothing under focus.
    pub open spec fn of(formulas: Seq<FormulaView>) -> SequentView {
        SequentView { linear: formulas, unrestricted: Seq::empty(), focus: None }
    }

    /// Whether the linear zone is empty and nothing is under focus.
    pub open spec fn is_empty(self) -> bool {
        self.linear.len() == 0 && self.focus is None
    }

    /// The sequent with the linear formula at `i` moved under focus.
    pub open spec fn focus_on(self, i: int) -> SequentView {
        SequentView {
            linear: self.linear.remove(i),
            unrestricted: self.unrestricted,
            focus: Some(self.linear[i]),
        }
    }

    /// The sequent with the formula under focus, if any, put back at the end
    /// of the linear zone.
    pub open spec fn unfocus(self) -> SequentView {
        SequentView {
            linear: match self.focus {
                Some(f) => self.linear.push(f),
                None => self.linear,
            },
            unrestricted: self.unrestricted,
            focus: None,
        }
    }

    /// The linear zone behind a turnstile, in Unicode symbols.
    pub open spec fn pretty(self) -> Seq<char> {
        "⊢ "@ + join(pretty_each(self.linear), ", "@)
    }
}

/// Copies a list of formulas.
pub fn clone_formulas(v: &Vec<Formula>) -> (r: Vec<Formula>)
    ensures
        r@.len() == v@.len(),
        formula_views(r@) == formula_views(v@),
{
    let mut out: Vec<Formula> = Vec::new();
    let mut i: usize = 0;
    while i < v.len()
        invariant
            i <= v.len(),
            out.len() == i,
            forall|k: int| 0 <= k < i ==> out[k]@ == v[k]@,
        decreases v.len() - i,
    {
        out.push(v[i].clone());
        i = i + 1;
    }
    assert(formula_views(out@) =~= formula_views(v@));
    out
}

/// Copies a list of formulas, leaving out the one at `idx`.
pub fn formulas_without(v: &Vec<Formula>, idx: usize) -> (r: Vec<Formula>)
    requires
        idx < v.len(),
    ensures
        r@.len() == v@.len() - 1,
        formula_views(r@) == formula_views(v@).remove(idx as int),
{
    let mut out = clone_formulas(v);
    let ghost before = out@;
    out.remove(idx);
    assert(formula_views(out@) =~= formula_views(before).remove(idx as int));
    out
}

/// Writes each formula of the list in Unicode symbols.
pub fn pretty_formulas(v: &Vec<Formula>) -> (r: Vec<String>)
    ensures
        views(r@) == pretty_each(formula_views(v@)),
{
    let mut out: Vec<String> = Vec::new();
    let mut i: usize = 0;
    while i < v.len()
        invariant
            i <= v.len(),
            out.len() == i,
            forall|k: int| 0 <= k < i ==> out[k]@ == v[k]@.pretty(),
        decreases v.len() - i,
    {
        out.push(v[i].pretty());
        i = i + 1;
    }
    assert(views(out@) =~= pretty_each(formula_views(v@)));
    out
}

/// Writes each formula of the list in ASCII symbols.
pub fn pretty_ascii_formulas(v: &Vec<Formula>) -> (r: Vec<String>)
    ensures
        views(r@) == pretty_ascii_each(formula_views(v@)),
{
    let mut out: Vec<String> = Vec::new();
    let mut i: usize = 0;
    while i < v.len()
        invariant
            i <= v.len(),
            out.len() == i,
            forall|k: int| 0 <= k < i ==> out[k]@ == v[k]@.pretty_ascii(),
        decreases v.len() - i,
    {
        out.push(v[i].pretty_ascii());
        i = i + 1;
    }
    assert(views(out@) =~= pretty_ascii_each(formula_views(v@)));
    out
}

/// Writes each formula of the list as LaTeX math.
pub fn pretty_latex_formulas(v: &Vec<Formula>) -> (r: Vec<String>)
    ensures
        views(r@) == pretty_latex_each(formula_views(v@)),
{
    let mut out: Vec<String> = Vec::new();
    let mut i: usize = 0;
    while i < v.len()
        invariant
            i <= v.len(),
            out.len() == i,
            forall|k: int| 0 <= k < i ==> out[k]@ == v[k]@.pretty_latex(),
        decreases v.len() - i,
    {
        out.push(v[i].pretty_latex());
        i = i + 1;
    }
    assert(views(out@) =~= pretty_latex_each(formula_views(v@)));
    out
}

/// Tells whether two lists hold the same formulas in the same order.
pub fn same_formulas(a: &Vec<Formula>, b: &Vec<Formula>) -> (r: bool)
    ensures
        r == (formula_views(a@) == formula_views(b@)),
{
    if a.len() != b.len() {
        assert(formula_views(a@).len() != formula_views(b@).len());
        return false;
    }
    let mut i: usize = 0;
    while i < a.len()
        invariant
            a.len() == b.len(),
            i <= a.len(),
            forall|k: int| 0 <= k < i ==> a[k]@ == b[k]@,
        decreases a.len() - i,
    {
        if !a[i].same(&b[i]) {
            assert(formula_views(a@)[i as int] != formula_views(b@)[i as int]);
            return false;
        }
        i = i + 1;
    }
    assert(formula_views(a@) =~= formula_views(b@));
    true
}

impl PartialEq for Sequent {
    fn eq(&self, other: &Sequent) -> (r: bool) {
        self.same(other)
    }
}

impl vstd::std_specs::cmp::PartialEqSpecImpl for Sequent {
    open spec fn obeys_eq_spec() -> bool {
        true
    }

    open spec fn eq_spec(&self, other: &Sequent) -> bool {
        self@ == other@
    }
}

impl Clone for Sequent {
    fn clone(&self) -> (r: Self)
        ensures
            r@ == self@,
    {
        Sequent {
            linear: clone_formulas(&self.linear),
            unrestricted: clone_formulas(&self.unrestricted),
            focus: match &self.focus {
                Some(f) => Some(f.clone()),
                None => None,
            },
        }
    }
}

impl Sequent {
    /// Tells whether two sequents are the same, zone by zone.
    pub fn same(&self, other: &Sequent) -> (r: bool)
        ensures
            r == (self@ == other@),
    {
        let focus = match (&self.focus, &other.focus) {
            (Some(f), Some(g)) => f.same(g),
            (None, None) => true,
            _ => false,
        };
        focus && same_formulas(&self.linear, &other.linear) && same_formulas(
            &self.unrestricted,
            &other.unrestricted,
        )
    }

    /// Makes the sequent of the given linear formulas.
    pub fn new(formulas: Vec<Formula>) -> (r: Sequent)
        ensures
            r@ == SequentView::of(formula_views(formulas@)),
    {
        let r = Sequent { linear: formulas, unrestricted: Vec::new(), focus: None };
        assert(r@.unrestricted =~= Seq::empty());
        r
    }

    /// Tells whether the linear zone is empty and nothing is under focus.
    pub fn is_empty(&self) -> (r: bool)
        ensures
            r == self@.is_empty(),
    {
        self.linear.len() == 0 && self.focus.is_none()
    }

    /// Moves the linear formula at `idx` under focus; `None` when there is no
    /// such formula. A formula that was under focus before is dropped.
    pub fn focus_on(&self, idx: usize) -> (r: Option<Sequent>)
        ensures
            idx >= self@.linear.len() ==> r is None,
            idx < self@.linear.len() ==> r is Some && r->0@ == self@.focus_on(idx as int),
    {
        if idx >= self.linear.len() {
            return None;
        }
        let focused = self.linear[idx].clone();
        Some(
            Sequent {
                linear: formulas_without(&self.linear, idx),
                unrestricted: clone_formulas(&self.unrestricted),
                focus: Some(focused),
            },
        )
    }

    /// Puts the formula under focus, if any, back at the end of the linear
    /// zone.
    pub fn unfocus(&self) -> (r: Sequent)
        ensures
            r@ == self@.unfocus(),
    {
        let mut new_linear = clone_formulas(&self.linear);
        match &self.focus {
            Some(f) => {
                let ghost before = new_linear@;
                new_linear.push(f.clone());
                assert(formula_views(new_linear@) =~= formula_views(before).push(f@));
            },
            None => {},
        }
        Sequent {
            linear: new_linear,
            unrestricted: clone_formulas(&self.unrestricted),
            focus: None,
        }
    }

    /// Writes the linear zone behind a turnstile, in Unicode symbols.
    pub fn pretty(&self) -> (r: String)
        ensures
            r@ == self@.pretty(),
    {
        let parts = pretty_formulas(&self.linear);
        glue2("⊢ ", join_strings(&parts, ", ").as_str())
    }
}

/// A two-sided sequent Γ ⊢ Δ, as users write it.
#[derive(Debug, Eq)]
pub struct TwoSidedSequent {
    /// Left side of the turnstile
    pub antecedent: Vec<Formula>,
    /// Right side of the turnstile
    pub succedent: Vec<Formula>,
}

/// The mathematical value of a [`TwoSidedSequent`].
pub ghost struct TwoSidedSequentView {
    pub antecedent: Seq<FormulaView>,
    pub succedent: Seq<FormulaView>,
}

impl View for TwoSidedSequent {
    type V = TwoSidedSequentView;

    open spec fn view(&self) -> TwoSidedSequentView {
        TwoSidedSequentView {
            antecedent: formula_views(self.antecedent@),
            succedent: formula_views(self.succedent@),
        }
    }
}

impl TwoSidedSequentView {
    /// The one-sided form ⊢ Γ⊥, Δ: each antecedent formula negated, then the
    /// succedent, both in their order.
    pub open spec fn to_one_sided(self) -> SequentView {
        SequentView::of(negate_each(self.antecedent) + self.succedent)
    }

    /// Both sides around a turnstile, in Unicode symbols.
    pub open spec fn pretty(self) -> Seq<char> {
        join(pretty_each(self.antecedent), ", "@) + " ⊢ "@ + join(
            pretty_each(self.succedent),
            ", "@,
        )
    }
}

impl PartialEq for TwoSidedSequent {
    fn eq(&self, other: &TwoSidedSequent) -> (r: bool) {
        self.same(other)
    }
}

impl vstd::std_specs::cmp::PartialEqSpecImpl for TwoSidedSequent {
    open spec fn obeys_eq_spec() -> bool {
        true
    }

    open spec fn eq_spec(&self, other: &TwoSidedSequent) -> bool {
        self@ == other@
    }
}

impl Clone for TwoSidedSequent {
    fn clone(&self) -> (r: Self)
        ensures
            r@ == self@,
    {
        TwoSidedSequent {
            antecedent: clone_formulas(&self.antecedent),
            succedent: clone_formulas(&self.succedent),
        }
    }
}

impl TwoSidedSequent {
    /// Tells whether two sequents are the same, side by side.
    pub fn same(&self, other: &TwoSidedSequent) -> (r: bool)
        ensures
            r == (self@ == other@),
    {
        same_formulas(&self.antecedent, &other.antecedent) && same_formulas(
            &self.succedent,
            &other.succedent,
        )
    }

    /// Makes the sequent with the given sides.
    pub fn new(antecedent: Vec<Formula>, succedent: Vec<Formula>) -> (r: TwoSidedSequent)
        ensures
            r@.antecedent == formula_views(antecedent@),
            r@.succedent == formula_views(succedent@),
    {
        TwoSidedSequent { antecedent, succedent }
    }

    /// Converts Γ ⊢ Δ to the one-sided ⊢ Γ⊥, Δ.
    pub fn to_one_sided(&self) -> (r: Sequent)
        ensures
            r@ == self@.to_one_sided(),
    {
        let mut formulas: Vec<Formula> = Vec::new();
        let mut i: usize = 0;
        while i < self.antecedent.len()
            invariant
                i <= self.antecedent.len(),
                formulas.len() == i,
                forall|k: int| 0 <= k < i ==> formulas[k]@ == self.antecedent[k]@.negate(),
            decreases self.antecedent.len() - i,
        {
            formulas.push(self.antecedent[i].negate());
            i = i + 1;
        }
        let n = self.antecedent.len();
        let mut j: usize = 0;
        while j < self.succedent.len()
            invariant
                j <= self.succedent.len(),
                n == self.antecedent.len(),
                formulas.len() == n + j,
                forall|k: int| 0 <= k < n ==> formulas[k]@ == self.antecedent[k]@.negate(),
                forall|k: int| 0 <= k < j ==> formulas[n + k]@ == self.succedent[k]@,
            decreases self.succedent.len() - j,
        {
            formulas.push(self.succedent[j].clone());
            j = j + 1;
        }
        assert(formula_views(formulas@) =~= negate_each(self@.antecedent) + self@.succedent);
        Sequent::new(formulas)
    }

    /// Writes both sides around a turnstile, in Unicode symbols.
    pub fn pretty(&self) -> (r: String)
        ensures
            r@ == self@.pretty(),
    {
        let left = pretty_formulas(&self.antecedent);
        let right = pretty_formulas(&self.succedent);
        glue3(join_strings(&left, ", ").as_str(), " ⊢ ", join_strings(&right, ", ").as_str())
    }
}

} // verus!
