//! The steps of the calculus, computed: the premises that a rule leaves to
//! prove, and whether given sequents are those premises.

use vstd::prelude::*;
use crate::formula::{Formula, FormulaView};
use crate::proof_tree::Rule;
use crate::search::{
    expand_lolli,
    first_async,
    goal,
    is_async,
    lemma_expanding_removes_lolli,
    plus_step,
    settle,
    structural_premise,
    structural_step,
    tensor_left,
    tensor_right,
    tensor_step,
};
use crate::sequent::{Sequent, SequentView, clone_formulas, formula_views, formulas_without};
use crate::splits::{mask_bits, pick_formulas, pow2};

verus! {

/// The list with one more formula at its end.
pub fn with_formula(v: Vec<Formula>, f: &Formula) -> (r: Vec<Formula>)
    ensures
        formula_views(r@) == formula_views(v@).push(f@),
{
    let mut out = v;
    out.push(f.clone());
    assert(formula_views(out@) =~= formula_views(v@).push(f@));
    out
}

/// The goal with the given linear formulas and a copy of the unrestricted
/// ones.
pub fn make_goal(linear: Vec<Formula>, unrestricted: &Vec<Formula>) -> (r: Sequent)
    ensures
        r@ == goal(formula_views(linear@), formula_views(unrestricted@)),
{
    Sequent { linear, unrestricted: clone_formulas(unrestricted), focus: None }
}

/// Finds the first formula of the zone that is decomposed eagerly.
pub fn find_async(linear: &Vec<Formula>) -> (r: usize)
    ensures
        r == first_async(formula_views(linear@), 0),
        r <= linear@.len(),
{
    let mut i: usize = 0;
    while i < linear.len()
        invariant
            i <= linear.len(),
            first_async(formula_views(linear@), 0) == first_async(
                formula_views(linear@),
                i as nat,
            ),
        decreases linear.len() - i,
    {
        let hit = match &linear[i] {
            Formula::Par(_, _) => true,
            Formula::Bottom => true,
            Formula::Top => true,
            Formula::With(_, _) => true,
            Formula::WhyNot(_) => true,
            Formula::Lolli(_, _) => true,
            _ => false,
        };
        assert(hit == is_async(formula_views(linear@)[i as int]));
        if hit {
            return i;
        }
        i = i + 1;
    }
    i
}

/// Putting a formula that is decomposed eagerly in the place of another
/// such formula does not change which formula comes first.
pub proof fn lemma_first_async_keeps(linear: Seq<FormulaView>, i: int, f: FormulaView, from: nat)
    requires
        0 <= i < linear.len(),
        is_async(linear[i]),
        is_async(f),
    ensures
        first_async(linear.update(i, f), from) == first_async(linear, from),
    decreases linear.len() - from,
{
    if from < linear.len() {
        if !is_async(linear[from as int]) {
            lemma_first_async_keeps(linear, i, f, from + 1);
        }
    }
}

/// A sequent stays as it is where the first formula that the asynchronous
/// phase takes up is no linear implication.
pub proof fn lemma_settle_stays(seq: SequentView)
    requires
        seq.is_empty() || first_async(seq.linear, 0) >= seq.linear.len() || !(
            seq.linear[first_async(seq.linear, 0) as int] is Lolli),
    ensures
        settle(seq) == seq,
{
}

/// A sequent settles in at most one step: if the first formula that the
/// asynchronous phase takes up is a linear implication, that one is
/// expanded and the focus given up; else nothing changes.
pub proof fn lemma_settle_in_one_step(seq: SequentView)
    ensures
        settle(seq) == (if !seq.is_empty() && first_async(seq.linear, 0) < seq.linear.len()
            && seq.linear[first_async(seq.linear, 0) as int] is Lolli {
            goal(
                seq.linear.update(
                    first_async(seq.linear, 0) as int,
                    expand_lolli(seq.linear[first_async(seq.linear, 0) as int]),
                ),
                seq.unrestricted,
            )
        } else {
            seq
        }),
{
    let i = first_async(seq.linear, 0) as int;
    if !seq.is_empty() && i < seq.linear.len() && seq.linear[i] is Lolli {
        let next = goal(seq.linear.update(i, expand_lolli(seq.linear[i])), seq.unrestricted);
        lemma_first_async_keeps(seq.linear, i, expand_lolli(seq.linear[i]), 0);
        lemma_expanding_removes_lolli(seq.linear, i);
        assert(next.linear[i] is Par);
        lemma_settle_stays(next);
    }
}

/// Computes what a sequent settles to.
pub fn settled(seq: &Sequent) -> (r: Sequent)
    ensures
        r@ == settle(seq@),
{
    proof {
        lemma_settle_in_one_step(seq@);
    }
    if seq.linear.len() == 0 && seq.focus.is_none() {
        return seq.clone();
    }
    let i = find_async(&seq.linear);
    if i >= seq.linear.len() {
        return seq.clone();
    }
    assert(seq@.linear[i as int] == seq.linear[i as int]@);
    match &seq.linear[i] {
        Formula::Lolli(a, b) => {
            let expanded = Formula::Par(Box::new(a.negate()), Box::new((**b).clone()));
            let mut linear = clone_formulas(&seq.linear);
            linear.set(i, expanded);
            assert(formula_views(linear@) =~= seq@.linear.update(
                i as int,
                expand_lolli(seq@.linear[i as int]),
            ));
            make_goal(linear, &seq.unrestricted)
        },
        _ => seq.clone(),
    }
}

/// Tells whether `premise` is what is left to prove after the plus at `idx`
/// is replaced by its left side (`right` false) or its right side.
pub fn is_plus_step(c: &Sequent, idx: usize, right: bool, premise: &Sequent) -> (r: bool)
    ensures
        r == plus_step(c@, idx as int, right, premise@),
{
    if idx >= c.linear.len() {
        return false;
    }
    assert(c@.linear[idx as int] == c.linear[idx as int]@);
    match &c.linear[idx] {
        Formula::Plus(a, b) => {
            let mut linear = clone_formulas(&c.linear);
            if right {
                linear.set(idx, (**b).clone());
            } else {
                linear.set(idx, (**a).clone());
            }
            assert(formula_views(linear@) =~= c@.linear.update(
                idx as int,
                if right {
                    b@
                } else {
                    a@
                },
            ));
            let expected = settled(&make_goal(linear, &c.unrestricted));
            premise.same(&expected)
        },
        _ => false,
    }
}

/// Tells whether `premise` is that of the structural rule on the
/// unrestricted formula at `i`.
pub fn is_structural_step(c: &Sequent, rule: &Rule, i: usize, premise: &Sequent) -> (r: bool)
    requires
        rule@ is Dereliction || rule@ is Contraction || rule@ is Weakening,
    ensures
        r == structural_step(c@, rule@, i as int, premise@),
{
    if i >= c.unrestricted.len() {
        return false;
    }
    assert(c@.unrestricted[i as int] == c.unrestricted[i as int]@);
    let formula = &c.unrestricted[i];
    let linear = match rule {
        Rule::Dereliction => with_formula(clone_formulas(&c.linear), formula),
        Rule::Contraction => with_formula(
            with_formula(clone_formulas(&c.linear), formula),
            formula,
        ),
        _ => clone_formulas(&c.linear),
    };
    let child = Sequent {
        linear,
        unrestricted: formulas_without(&c.unrestricted, i),
        focus: None,
    };
    assert(child@ == structural_premise(c@, rule@, i as int));
    let expected = settled(&child);
    premise.same(&expected)
}

/// Tells whether the two premises are those of the tensor at `idx` for the
/// split whose binary digits are `mask`.
pub(crate) fn is_tensor_step(
    c: &Sequent,
    idx: usize,
    mask: &Vec<bool>,
    Ghost(k): Ghost<nat>,
    first: &Sequent,
    second: &Sequent,
) -> (r: bool)
    requires
        idx < c.linear@.len(),
        c@.linear[idx as int] is Tensor,
        mask@ == mask_bits(k, (c.linear@.len() - 1) as nat),
        k < pow2((c.linear@.len() - 1) as nat),
    ensures
        r == tensor_step(c@, idx as int, k, first@, second@),
{
    assert(c@.linear[idx as int] == c.linear[idx as int]@);
    proof {
        crate::splits::lemma_mask_len(k, (c.linear@.len() - 1) as nat);
    }
    match &c.linear[idx] {
        Formula::Tensor(a, b) => {
            let others = formulas_without(&c.linear, idx);
            let left = make_goal(
                with_formula(pick_formulas(&others, mask, false), a),
                &c.unrestricted,
            );
            assert(left@ == tensor_left(c@, idx as int, k));
            if !first.same(&settled(&left)) {
                return false;
            }
            let right = make_goal(
                with_formula(pick_formulas(&others, mask, true), b),
                &c.unrestricted,
            );
            assert(right@ == tensor_right(c@, idx as int, k));
            second.same(&settled(&right))
        },
        _ => false,
    }
}

} // verus!
