//! Term extraction: the program that a proof is, by the Curry–Howard
//! correspondence.
//!
//! A one-sided sequent does not say which of its formulas came from the
//! left of the turnstile. The extractor therefore carries, for every formula
//! of a sequent, a handle: the term that stands for the value of a
//! hypothesis, or nothing for a formula that is to be produced. A rule on a
//! formula to be produced builds a value; the same rule on a hypothesis
//! takes its value apart. Fresh variables are `x0`, `x1`, … in the order in
//! which they are made.

use vstd::prelude::*;
use crate::formula::{Formula, FormulaView};
use crate::proof_tree::{Proof, ProofView, Rule, RuleView, add_capped, capped};
use crate::search::{plus_step, structural_step, tensor_step};
use crate::sequent::{Sequent, SequentView};
use crate::splits::{
    advance_mask,
    lemma_mask_len,
    lemma_pow2_positive,
    mask_bits,
    pick,
    pow2,
    zero_mask,
};
use crate::steps::{is_plus_step, is_structural_step, is_tensor_step};
use crate::term::{Term, TermView};
use crate::text::{decimal, decimal_string, glue2};

verus! {

/// For each formula of a zone, the term that holds its value if it is a
/// hypothesis, and nothing if it is to be produced.
pub type Handles = Seq<Option<TermView>>;

/// What extraction gives: the term, and the number that the next fresh
/// variable gets.
pub ghost struct Extracted {
    pub term: TermView,
    pub next: nat,
}

/// The handles cut or filled up with nothing to the length `n`.
pub open spec fn fit(h: Handles, n: nat) -> Handles {
    Seq::new(
        n,
        |i: int|
            if i < h.len() {
                h[i]
            } else {
                None
            },
    )
}

/// The name of the fresh variable with the given number.
pub open spec fn fresh_name(counter: nat) -> Seq<char> {
    "x"@ + decimal(counter)
}

/// The fresh variable with the given number.
pub open spec fn fresh(counter: nat) -> TermView {
    TermView::Var(fresh_name(counter))
}

/// The number after `counter`. Numbers stop at the greatest `usize`.
pub open spec fn bump(counter: nat) -> nat {
    capped(counter + 1)
}

/// The number of premises that a rule has.
pub open spec fn arity(rule: RuleView) -> nat {
    match rule {
        RuleView::Axiom => 0,
        RuleView::OneIntro => 0,
        RuleView::TopIntro => 0,
        RuleView::Cut(_) => 2,
        RuleView::TensorIntro => 2,
        RuleView::WithIntro => 2,
        _ => 1,
    }
}

/// Whether every node of the proof has as many premises as its rule asks
/// for.
pub open spec fn well_formed(p: ProofView) -> bool
    decreases p,
{
    &&& p.premises.len() == arity(p.rule)
    &&& forall|i: int| 0 <= i < p.premises.len() ==> well_formed(#[trigger] p.premises[i])
}

/// Whether the formula is of the connective that the rule decomposes in
/// the asynchronous phase.
pub open spec fn decomposes(rule: RuleView, f: FormulaView) -> bool {
    match rule {
        RuleView::ParIntro => f is Par,
        RuleView::BottomIntro => f is Bottom,
        RuleView::WithIntro => f is With,
        RuleView::WhyNotIntro => f is WhyNot,
        _ => false,
    }
}

/// The position of the first formula at or after `from` that the rule
/// decomposes, or the length of the zone when there is none.
pub open spec fn first_decomposed(linear: Seq<FormulaView>, rule: RuleView, from: nat) -> nat
    decreases linear.len() - from,
{
    if from >= linear.len() {
        linear.len()
    } else if decomposes(rule, linear[from as int]) {
        from
    } else {
        first_decomposed(linear, rule, from + 1)
    }
}

/// The first position at or after `from` at which a plus rule leads from `c`
/// to `premise`, or the length of the linear zone when there is none.
pub open spec fn first_plus(c: SequentView, right: bool, premise: SequentView, from: nat) -> nat
    decreases c.linear.len() - from,
{
    if from >= c.linear.len() {
        c.linear.len()
    } else if plus_step(c, from as int, right, premise) {
        from
    } else {
        first_plus(c, right, premise, from + 1)
    }
}

/// The first position at or after `from` at which the structural rule leads
/// from `c` to `premise`, or the length of the unrestricted zone when there
/// is none.
pub open spec fn first_structural(
    c: SequentView,
    rule: RuleView,
    premise: SequentView,
    from: nat,
) -> nat
    decreases c.unrestricted.len() - from,
{
    if from >= c.unrestricted.len() {
        c.unrestricted.len()
    } else if structural_step(c, rule, from as int, premise) {
        from
    } else {
        first_structural(c, rule, premise, from + 1)
    }
}

/// The first tensor, at or after position `idx`, and its first split, from
/// the number `k` on at `idx` itself, that lead from `c` to the two
/// premises; nothing when there is none.
pub open spec fn first_split(
    c: SequentView,
    first: SequentView,
    second: SequentView,
    idx: nat,
    k: nat,
) -> Option<(nat, nat)>
    decreases c.linear.len() - idx, pow2((c.linear.len() - 1) as nat) - k,
{
    if idx >= c.linear.len() {
        None
    } else if !(c.linear[idx as int] is Tensor) || k >= pow2((c.linear.len() - 1) as nat) {
        first_split(c, first, second, idx + 1, 0)
    } else if tensor_step(c, idx as int, k, first, second) {
        Some((idx, k))
    } else {
        first_split(c, first, second, idx, k + 1)
    }
}

/// The first handle that is there, at or after position `from`.
pub open spec fn first_handle(h: Handles, from: nat) -> Option<TermView>
    decreases h.len() - from,
{
    if from >= h.len() {
        None
    } else if h[from as int] is Some {
        h[from as int]
    } else {
        first_handle(h, from + 1)
    }
}

/// The handles without the one at `i`, if there is one.
pub open spec fn without(h: Handles, i: nat) -> Handles {
    if i < h.len() {
        h.remove(i as int)
    } else {
        h
    }
}

/// What an axiom gives. With a hypothesis on both sides, the one that
/// stands at the atom is a function that takes the other. With one
/// hypothesis, it is the value that was asked for. With none, the value is
/// a fresh variable.
pub open spec fn axiom_term(linear: Seq<FormulaView>, hyps: Handles, counter: nat) -> Extracted {
    if hyps.len() == 2 && hyps[0] is Some && hyps[1] is Some {
        if linear[0] is NegAtom {
            Extracted {
                term: TermView::App(Box::new(hyps[1]->0), Box::new(hyps[0]->0)),
                next: counter,
            }
        } else {
            Extracted {
                term: TermView::App(Box::new(hyps[0]->0), Box::new(hyps[1]->0)),
                next: counter,
            }
        }
    } else {
        match first_handle(hyps, 0) {
            Some(h) => Extracted { term: h, next: counter },
            None => Extracted { term: fresh(counter), next: bump(counter) },
        }
    }
}

/// The term of a proof whose conclusion has the given handles, for its
/// linear and its unrestricted formulas, with `counter` as the number of
/// the next fresh variable. The handles are cut or filled up to the length
/// of the zones.
///
/// Where the formula that a rule works on is to be produced, the rule
/// builds: a tensor or a with makes a pair, a par a function of its left
/// side, a plus an injection, an of-course a promotion. Where it is a
/// hypothesis, the rule takes it apart: a par binds the two parts of a
/// pair, a with distinguishes the two cases, a plus projects, a tensor
/// applies the hypothesis as a function to the term of the left premise.
/// Dereliction derelicts the handle, contraction copies it into two fresh
/// variables, weakening discards it. A rule that finds no formula to work
/// on passes the handles on where the zones keep their shape, and none
/// where it cannot tell.
#[verifier::opaque]
pub open spec fn extract_node(
    p: ProofView,
    linear: Handles,
    unrestricted: Handles,
    counter: nat,
) -> Extracted
    decreases p, 1nat,
{
    let c = p.conclusion;
    let hyps = fit(linear, c.linear.len());
    let shared = fit(unrestricted, c.unrestricted.len());
    if p.premises.len() != arity(p.rule) {
        Extracted { term: TermView::Unit, next: counter }
    } else {
        match p.rule {
            RuleView::Axiom => axiom_term(c.linear, hyps, counter),
            RuleView::OneIntro => Extracted { term: TermView::Unit, next: counter },
            RuleView::TopIntro => Extracted { term: TermView::Trivial, next: counter },
            RuleView::BottomIntro => extract_node(
                p.premises[0],
                without(hyps, first_decomposed(c.linear, p.rule, 0)),
                shared,
                counter,
            ),
            RuleView::ParIntro => extract_par(p, hyps, shared, counter),
            RuleView::WithIntro => extract_with(p, hyps, shared, counter),
            RuleView::WhyNotIntro => {
                let i = first_decomposed(c.linear, p.rule, 0);
                if i < hyps.len() {
                    extract_node(
                        p.premises[0],
                        without(hyps, i),
                        shared.push(hyps[i as int]),
                        counter,
                    )
                } else {
                    extract_node(p.premises[0], hyps, shared, counter)
                }
            },
            RuleView::TensorIntro => extract_tensor(p, hyps, shared, counter),
            RuleView::PlusIntroLeft => extract_plus(p, hyps, shared, counter, false),
            RuleView::PlusIntroRight => extract_plus(p, hyps, shared, counter, true),
            RuleView::OfCourseIntro => extract_of_course(p, hyps, shared, counter),
            RuleView::Dereliction => extract_structural(p, hyps, shared, counter),
            RuleView::Contraction => extract_structural(p, hyps, shared, counter),
            RuleView::Weakening => extract_structural(p, hyps, shared, counter),
            RuleView::Cut(_) => extract_cut(p, hyps, shared, counter),
            _ => extract_node(p.premises[0], hyps, shared, counter),
        }
    }
}

/// The term of a par rule, on the first par of the linear zone. A par to
/// be produced is a function: its left side becomes a hypothesis under a
/// fresh variable, which the function binds. A par that is a hypothesis is
/// a pair, whose parts are bound to two fresh variables.
#[verifier::opaque]
pub open spec fn extract_par(
    p: ProofView,
    hyps: Handles,
    shared: Handles,
    counter: nat,
) -> Extracted
    decreases p, 0nat,
    when p.premises.len() == 1
{
    let i = first_decomposed(p.conclusion.linear, p.rule, 0);
    if i >= hyps.len() {
        extract_node(p.premises[0], hyps, shared, counter)
    } else {
        match hyps[i as int] {
            Some(h) => {
                let below = extract_node(
                    p.premises[0],
                    without(hyps, i).push(Some(fresh(counter))).push(Some(fresh(bump(counter)))),
                    shared,
                    bump(bump(counter)),
                );
                Extracted {
                    term: TermView::LetPair(
                        fresh_name(counter),
                        fresh_name(bump(counter)),
                        Box::new(h),
                        Box::new(below.term),
                    ),
                    next: below.next,
                }
            },
            None => {
                let below = extract_node(
                    p.premises[0],
                    without(hyps, i).push(Some(fresh(counter))).push(None),
                    shared,
                    bump(counter),
                );
                Extracted {
                    term: TermView::Abs(fresh_name(counter), Box::new(below.term)),
                    next: below.next,
                }
            },
        }
    }
}

/// The term of a with rule, on the first with of the linear zone. A with
/// to be produced is the pair of the terms of the two premises. A with that
/// is a hypothesis is a choice, and the terms of the premises are the two
/// cases, each under a fresh variable.
#[verifier::opaque]
pub open spec fn extract_with(
    p: ProofView,
    hyps: Handles,
    shared: Handles,
    counter: nat,
) -> Extracted
    decreases p, 0nat,
    when p.premises.len() == 2
{
    let i = first_decomposed(p.conclusion.linear, p.rule, 0);
    if i < hyps.len() && hyps[i as int] is Some {
        let first = extract_node(
            p.premises[0],
            without(hyps, i).push(Some(fresh(counter))),
            shared,
            bump(bump(counter)),
        );
        let second = extract_node(
            p.premises[1],
            without(hyps, i).push(Some(fresh(bump(counter)))),
            shared,
            first.next,
        );
        Extracted {
            term: TermView::Case(
                Box::new(hyps[i as int]->0),
                fresh_name(counter),
                Box::new(first.term),
                fresh_name(bump(counter)),
                Box::new(second.term),
            ),
            next: second.next,
        }
    } else {
        let inner = if i < hyps.len() {
            without(hyps, i).push(None)
        } else {
            hyps
        };
        let first = extract_node(p.premises[0], inner, shared, counter);
        let second = extract_node(p.premises[1], inner, shared, first.next);
        Extracted {
            term: TermView::Pair(Box::new(first.term), Box::new(second.term)),
            next: second.next,
        }
    }
}

/// The term of a tensor rule, on the first tensor and split that lead to
/// the premises. The handles of the other formulas go with them to the
/// two premises. A tensor to be produced is the pair of the terms of the
/// premises. A tensor that is a hypothesis is a function: it is applied to
/// the term of the left premise, and what it returns is a hypothesis of the
/// right premise, whose term is the result.
#[verifier::opaque]
pub open spec fn extract_tensor(
    p: ProofView,
    hyps: Handles,
    shared: Handles,
    counter: nat,
) -> Extracted
    decreases p, 0nat,
    when p.premises.len() == 2
{
    let none = Seq::<Option<TermView>>::empty();
    match first_split(p.conclusion, p.premises[0].conclusion, p.premises[1].conclusion, 0, 0) {
        Some((idx, k)) => {
            let others = without(hyps, idx);
            let bits = mask_bits(k, others.len());
            let first = extract_node(
                p.premises[0],
                pick(others, bits, false).push(None),
                shared,
                counter,
            );
            if idx < hyps.len() && hyps[idx as int] is Some {
                extract_node(
                    p.premises[1],
                    pick(others, bits, true).push(
                        Some(TermView::App(Box::new(hyps[idx as int]->0), Box::new(first.term))),
                    ),
                    shared,
                    first.next,
                )
            } else {
                let second = extract_node(
                    p.premises[1],
                    pick(others, bits, true).push(None),
                    shared,
                    first.next,
                );
                Extracted {
                    term: TermView::Pair(Box::new(first.term), Box::new(second.term)),
                    next: second.next,
                }
            }
        },
        None => {
            let first = extract_node(p.premises[0], none, shared, counter);
            let second = extract_node(p.premises[1], none, shared, first.next);
            Extracted {
                term: TermView::Pair(Box::new(first.term), Box::new(second.term)),
                next: second.next,
            }
        },
    }
}

/// The term of a plus rule, to the left or to the right, on the first plus
/// that leads to the premise. A plus to be produced is an injection of the
/// term of the premise. A plus that is a hypothesis is a pair to choose
/// from, and its side becomes a hypothesis: the first or the second
/// projection.
#[verifier::opaque]
pub open spec fn extract_plus(
    p: ProofView,
    hyps: Handles,
    shared: Handles,
    counter: nat,
    right: bool,
) -> Extracted
    decreases p, 0nat,
    when p.premises.len() == 1
{
    let none = Seq::<Option<TermView>>::empty();
    let idx = first_plus(p.conclusion, right, p.premises[0].conclusion, 0);
    if idx < hyps.len() && hyps[idx as int] is Some {
        extract_node(
            p.premises[0],
            hyps.update(
                idx as int,
                Some(
                    if right {
                        TermView::Snd(Box::new(hyps[idx as int]->0))
                    } else {
                        TermView::Fst(Box::new(hyps[idx as int]->0))
                    },
                ),
            ),
            shared,
            counter,
        )
    } else {
        let below = extract_node(
            p.premises[0],
            if idx < hyps.len() {
                hyps
            } else {
                none
            },
            shared,
            counter,
        );
        Extracted {
            term: if right {
                TermView::Inr(Box::new(below.term))
            } else {
                TermView::Inl(Box::new(below.term))
            },
            next: below.next,
        }
    }
}

/// The term of an of-course rule. An of-course to be produced is the
/// promotion of the term of the premise. One that is a hypothesis is
/// derelicted for the premise.
#[verifier::opaque]
pub open spec fn extract_of_course(
    p: ProofView,
    hyps: Handles,
    shared: Handles,
    counter: nat,
) -> Extracted
    decreases p, 0nat,
    when p.premises.len() == 1
{
    let none = Seq::<Option<TermView>>::empty();
    if hyps.len() >= 1 && hyps[0] is Some {
        extract_node(
            p.premises[0],
            seq![Some(TermView::Derelict(Box::new(hyps[0]->0)))],
            shared,
            counter,
        )
    } else {
        let below = extract_node(p.premises[0], none, shared, counter);
        Extracted { term: TermView::Promote(Box::new(below.term)), next: below.next }
    }
}

/// The term of a structural rule, on the first unrestricted formula that
/// leads to the premise. Dereliction makes the derelicted handle a linear
/// hypothesis. Contraction copies the handle into two fresh variables,
/// whose derelictions are two linear hypotheses. Weakening discards the
/// handle. Without a handle the term is that of the premise.
#[verifier::opaque]
pub open spec fn extract_structural(
    p: ProofView,
    hyps: Handles,
    shared: Handles,
    counter: nat,
) -> Extracted
    decreases p, 0nat,
    when p.premises.len() == 1
{
    let i = first_structural(p.conclusion, p.rule, p.premises[0].conclusion, 0);
    if i >= shared.len() {
        extract_node(p.premises[0], hyps, shared, counter)
    } else {
        match p.rule {
            RuleView::Dereliction => extract_node(
                p.premises[0],
                hyps.push(
                    match shared[i as int] {
                        Some(h) => Some(TermView::Derelict(Box::new(h))),
                        None => None,
                    },
                ),
                without(shared, i),
                counter,
            ),
            RuleView::Contraction => match shared[i as int] {
                Some(h) => {
                    let below = extract_node(
                        p.premises[0],
                        hyps.push(Some(TermView::Derelict(Box::new(fresh(counter))))).push(
                            Some(TermView::Derelict(Box::new(fresh(bump(counter))))),
                        ),
                        without(shared, i),
                        bump(bump(counter)),
                    );
                    Extracted {
                        term: TermView::Copy(
                            Box::new(h),
                            fresh_name(counter),
                            fresh_name(bump(counter)),
                            Box::new(below.term),
                        ),
                        next: below.next,
                    }
                },
                None => extract_node(
                    p.premises[0],
                    hyps.push(None).push(None),
                    without(shared, i),
                    counter,
                ),
            },
            _ => {
                let below = extract_node(p.premises[0], hyps, without(shared, i), counter);
                match shared[i as int] {
                    Some(h) => Extracted {
                        term: TermView::Discard(Box::new(h), Box::new(below.term)),
                        next: below.next,
                    },
                    None => below,
                }
            },
        }
    }
}

/// The term of a cut: the term of the left premise in the place of a fresh
/// variable in the term of the right premise. The left premise proves the
/// first formulas of the conclusion and then the cut formula, the right
/// premise the other formulas and then the negation of the cut formula,
/// which is a hypothesis under the fresh variable.
#[verifier::opaque]
pub open spec fn extract_cut(
    p: ProofView,
    hyps: Handles,
    shared: Handles,
    counter: nat,
) -> Extracted
    decreases p, 0nat,
    when p.premises.len() == 2
{
    let width = p.premises[0].conclusion.linear.len();
    let taken = if width == 0 {
        0
    } else if width - 1 > hyps.len() {
        hyps.len() as int
    } else {
        width - 1
    };
    let first = extract_node(p.premises[0], hyps.take(taken).push(None), shared, bump(counter));
    let second = extract_node(
        p.premises[1],
        hyps.skip(taken).push(Some(fresh(counter))),
        shared,
        first.next,
    );
    Extracted { term: second.term.substitute(fresh_name(counter), first.term), next: second.next }
}

/// The handles at the root of a proof with `inputs` hypotheses: the first
/// `inputs` linear formulas are hypotheses named `arg0`, `arg1`, …, the
/// others are to be produced.
pub open spec fn root_handles(n: nat, inputs: nat) -> Handles {
    Seq::new(
        n,
        |i: int|
            if i < inputs {
                Some(TermView::Var("arg"@ + decimal(i as nat)))
            } else {
                None
            },
    )
}

/// The term of a proof of which the first `inputs` linear formulas are the
/// hypotheses.
pub open spec fn extract_from(p: ProofView, inputs: nat, counter: nat) -> Extracted {
    extract_node(
        p,
        root_handles(p.conclusion.linear.len(), inputs),
        Seq::empty(),
        counter,
    )
}

/// The number of hypotheses of a proof whose last linear formula alone is
/// to be produced.
pub open spec fn all_but_last(p: ProofView) -> nat {
    if p.conclusion.linear.len() == 0 {
        0
    } else {
        (p.conclusion.linear.len() - 1) as nat
    }
}

/// The mathematical value of a handle.
pub open spec fn handle_view(h: Option<Term>) -> Option<TermView> {
    match h {
        Some(t) => Some(t@),
        None => None,
    }
}

/// The mathematical values of a sequence of handles.
pub open spec fn handle_views(v: Seq<Option<Term>>) -> Handles {
    Seq::new(v.len(), |i: int| handle_view(v[i]))
}

/// Copies a handle.
fn clone_handle(h: &Option<Term>) -> (r: Option<Term>)
    ensures
        handle_view(r) == handle_view(*h),
{
    match h {
        Some(t) => Some(t.clone()),
        None => None,
    }
}

/// Cuts the handles, or fills them up with nothing, to the length `n`.
fn fit_handles(h: &Vec<Option<Term>>, n: usize) -> (r: Vec<Option<Term>>)
    ensures
        handle_views(r@) == fit(handle_views(h@), n as nat),
        r@.len() == n,
{
    let mut out: Vec<Option<Term>> = Vec::new();
    let mut i: usize = 0;
    while i < n
        invariant
            i <= n,
            out@.len() == i,
            forall|k: int|
                0 <= k < i ==> handle_view(#[trigger] out@[k]) == fit(
                    handle_views(h@),
                    n as nat,
                )[k],
        decreases n - i,
    {
        if i < h.len() {
            out.push(clone_handle(&h[i]));
        } else {
            out.push(None);
        }
        i = i + 1;
    }
    assert(handle_views(out@) =~= fit(handle_views(h@), n as nat));
    out
}

/// Copies the handles, leaving out the one at `i` if there is one.
fn handles_without(h: &Vec<Option<Term>>, i: usize) -> (r: Vec<Option<Term>>)
    ensures
        handle_views(r@) == without(handle_views(h@), i as nat),
{
    let mut out: Vec<Option<Term>> = Vec::new();
    let mut j: usize = 0;
    while j < h.len()
        invariant
            j <= h.len(),
            out@.len() == (if j <= i {
                j as int
            } else {
                j - 1
            }),
            forall|k: int|
                0 <= k < out@.len() ==> handle_view(#[trigger] out@[k]) == (if k < i {
                    handle_views(h@)[k]
                } else {
                    handle_views(h@)[k + 1]
                }),
        decreases h.len() - j,
    {
        if j != i {
            out.push(clone_handle(&h[j]));
        }
        j = j + 1;
    }
    assert(handle_views(out@) =~= without(handle_views(h@), i as nat));
    out
}

/// The handles with one more at their end.
fn with_handle(h: Vec<Option<Term>>, t: Option<Term>) -> (r: Vec<Option<Term>>)
    ensures
        handle_views(r@) == handle_views(h@).push(handle_view(t)),
{
    let mut out = h;
    let ghost added = handle_view(t);
    out.push(t);
    assert(handle_views(out@) =~= handle_views(h@).push(added));
    out
}

/// Copies the handles whose digit in `mask` equals `side`, in their order.
fn pick_handles(h: &Vec<Option<Term>>, mask: &Vec<bool>, side: bool) -> (r: Vec<Option<Term>>)
    requires
        mask@.len() == h@.len(),
    ensures
        handle_views(r@) == pick(handle_views(h@), mask@, side),
{
    let mut out: Vec<Option<Term>> = Vec::new();
    let ghost all = handle_views(h@);
    let mut i: usize = 0;
    assert(handle_views(out@) =~= pick(all.take(0), mask@.take(0), side));
    while i < h.len()
        invariant
            i <= h.len(),
            mask@.len() == h@.len(),
            all == handle_views(h@),
            handle_views(out@) == pick(all.take(i as int), mask@.take(i as int), side),
        decreases h.len() - i,
    {
        let ghost before = handle_views(out@);
        proof {
            assert(all.take(i + 1).drop_last() =~= all.take(i as int));
            assert(mask@.take(i + 1).drop_last() =~= mask@.take(i as int));
            assert(all.take(i + 1).last() == all[i as int]);
            assert(mask@.take(i + 1).last() == mask@[i as int]);
        }
        if mask[i] == side {
            out.push(clone_handle(&h[i]));
            assert(handle_views(out@) =~= before.push(all[i as int]));
        }
        i = i + 1;
    }
    proof {
        assert(all.take(h.len() as int) =~= all);
        assert(mask@.take(h.len() as int) =~= mask@);
    }
    out
}

/// Copies the handles from `from` up to `to`.
fn handles_between(h: &Vec<Option<Term>>, from: usize, to: usize) -> (r: Vec<Option<Term>>)
    requires
        from <= to <= h@.len(),
    ensures
        handle_views(r@) == handle_views(h@).subrange(from as int, to as int),
{
    let mut out: Vec<Option<Term>> = Vec::new();
    let mut i: usize = from;
    while i < to
        invariant
            from <= i <= to <= h@.len(),
            out@.len() == i - from,
            forall|k: int|
                0 <= k < out@.len() ==> handle_view(#[trigger] out@[k]) == handle_views(h@)[from
                    + k],
        decreases to - i,
    {
        out.push(clone_handle(&h[i]));
        i = i + 1;
    }
    assert(handle_views(out@) =~= handle_views(h@).subrange(from as int, to as int));
    out
}

/// Finds the first handle that is there.
fn find_handle(h: &Vec<Option<Term>>) -> (r: Option<Term>)
    ensures
        handle_view(r) == first_handle(handle_views(h@), 0),
{
    let mut i: usize = 0;
    while i < h.len()
        invariant
            i <= h.len(),
            first_handle(handle_views(h@), 0) == first_handle(handle_views(h@), i as nat),
        decreases h.len() - i,
    {
        match &h[i] {
            Some(t) => {
                return Some(t.clone());
            },
            None => {},
        }
        i = i + 1;
    }
    None
}

/// Finds the first formula of the zone that the rule decomposes.
fn find_decomposed(linear: &Vec<Formula>, rule: &Rule) -> (r: usize)
    ensures
        r == first_decomposed(crate::sequent::formula_views(linear@), rule@, 0),
        r <= linear@.len(),
{
    let ghost all = crate::sequent::formula_views(linear@);
    let mut i: usize = 0;
    while i < linear.len()
        invariant
            i <= linear.len(),
            all == crate::sequent::formula_views(linear@),
            first_decomposed(all, rule@, 0) == first_decomposed(all, rule@, i as nat),
        decreases linear.len() - i,
    {
        assert(all[i as int] == linear[i as int]@);
        let hit = match (rule, &linear[i]) {
            (Rule::ParIntro, Formula::Par(_, _)) => true,
            (Rule::BottomIntro, Formula::Bottom) => true,
            (Rule::WithIntro, Formula::With(_, _)) => true,
            (Rule::WhyNotIntro, Formula::WhyNot(_)) => true,
            _ => false,
        };
        assert(hit == decomposes(rule@, all[i as int]));
        if hit {
            return i;
        }
        i = i + 1;
    }
    i
}

/// Finds the first position at which a plus rule leads from `c` to
/// `premise`.
fn find_plus(c: &Sequent, right: bool, premise: &Sequent) -> (r: usize)
    ensures
        r == first_plus(c@, right, premise@, 0),
        r <= c.linear@.len(),
{
    let mut i: usize = 0;
    while i < c.linear.len()
        invariant
            i <= c.linear.len(),
            first_plus(c@, right, premise@, 0) == first_plus(c@, right, premise@, i as nat),
        decreases c.linear.len() - i,
    {
        if is_plus_step(c, i, right, premise) {
            return i;
        }
        i = i + 1;
    }
    i
}

/// Finds the first position at which the structural rule leads from `c` to
/// `premise`.
fn find_structural(c: &Sequent, rule: &Rule, premise: &Sequent) -> (r: usize)
    requires
        rule@ is Dereliction || rule@ is Contraction || rule@ is Weakening,
    ensures
        r == first_structural(c@, rule@, premise@, 0),
        r <= c.unrestricted@.len(),
{
    let mut i: usize = 0;
    while i < c.unrestricted.len()
        invariant
            i <= c.unrestricted.len(),
            rule@ is Dereliction || rule@ is Contraction || rule@ is Weakening,
            first_structural(c@, rule@, premise@, 0) == first_structural(
                c@,
                rule@,
                premise@,
                i as nat,
            ),
        decreases c.unrestricted.len() - i,
    {
        if is_structural_step(c, rule, i, premise) {
            return i;
        }
        i = i + 1;
    }
    i
}

/// Finds the first tensor and its first split that lead from `c` to the two
/// premises: the position of the tensor and the binary digits of the
/// split's number.
fn find_split(c: &Sequent, first: &Sequent, second: &Sequent) -> (r: Option<
    (usize, Vec<bool>, Ghost<nat>),
>)
    ensures
        match r {
            Some((idx, mask, k)) => first_split(c@, first@, second@, 0, 0) == Some(
                (idx as nat, k@),
            ) && idx < c.linear@.len() && mask@ == mask_bits(
                k@,
                (c.linear@.len() - 1) as nat,
            ),
            None => first_split(c@, first@, second@, 0, 0) is None,
        },
{
    let n = c.linear.len();
    let mut idx: usize = 0;
    while idx < n
        invariant
            idx <= n,
            n == c.linear@.len(),
            first_split(c@, first@, second@, 0, 0) == first_split(
                c@,
                first@,
                second@,
                idx as nat,
                0,
            ),
        decreases n - idx,
    {
        assert(c@.linear[idx as int] == c.linear[idx as int]@);
        let is_tensor = match &c.linear[idx] {
            Formula::Tensor(_, _) => true,
            _ => false,
        };
        if is_tensor {
            let ghost width = (n - 1) as nat;
            let mut mask = zero_mask(n - 1);
            let ghost mut k: nat = 0;
            let mut more = true;
            proof {
                lemma_pow2_positive(width);
            }
            while more
                invariant
                    idx < n,
                    n == c.linear@.len(),
                    width == (n - 1) as nat,
                    c@.linear[idx as int] is Tensor,
                    mask@.len() == width,
                    more ==> mask@ == mask_bits(k, width),
                    more == (k < pow2(width)),
                    first_split(c@, first@, second@, 0, 0) == first_split(
                        c@,
                        first@,
                        second@,
                        idx as nat,
                        k,
                    ),
                decreases pow2(width) - k,
            {
                if is_tensor_step(c, idx, &mask, Ghost(k), first, second) {
                    return Some((idx, mask, Ghost(k)));
                }
                more = advance_mask(&mut mask, Ghost(k));
                proof {
                    k = k + 1;
                }
            }
        }
        idx = idx + 1;
    }
    None
}

/// Term extractor: turns proofs into linear λ-terms.
pub struct Extractor {
    var_counter: usize,
}

impl Default for Extractor {
    fn default() -> (r: Self)
        ensures
            r.counter() == 0,
    {
        Extractor::new()
    }
}

impl Extractor {
    /// The number that the next fresh variable gets.
    pub closed spec fn counter(&self) -> nat {
        self.var_counter as nat
    }

    /// Makes an extractor whose first fresh variable is `x0`.
    pub fn new() -> (r: Extractor)
        ensures
            r.counter() == 0,
    {
        Extractor { var_counter: 0 }
    }

    /// Makes a variable name that was not handed out before: `x` and the
    /// counter, which then goes up by one. The counter stops at the greatest
    /// `usize`.
    pub fn fresh_var(&mut self) -> (r: String)
        ensures
            r@ == fresh_name(old(self).counter()),
            final(self).counter() == bump(old(self).counter()),
    {
        let v = glue2("x", decimal_string(self.var_counter).as_str());
        self.var_counter = add_capped(self.var_counter, 1);
        v
    }

    /// Makes a fresh variable and the term that refers to it.
    fn fresh_term(&mut self) -> (r: (String, Term))
        ensures
            r.0@ == fresh_name(old(self).counter()),
            r.1@ == fresh(old(self).counter()),
            final(self).counter() == bump(old(self).counter()),
    {
        let name = self.fresh_var();
        let term = Term::Var(name.clone());
        (name, term)
    }

    /// Extracts the term of a proof whose conclusion has the given handles.
    fn extract_node(
        &mut self,
        proof: &Proof,
        linear: &Vec<Option<Term>>,
        unrestricted: &Vec<Option<Term>>,
    ) -> (r: Term)
        requires
            well_formed(proof@),
        ensures
            r@ == extract_node(
                proof@,
                handle_views(linear@),
                handle_views(unrestricted@),
                old(self).counter(),
            ).term,
            final(self).counter() == extract_node(
                proof@,
                handle_views(linear@),
                handle_views(unrestricted@),
                old(self).counter(),
            ).next,
        decreases proof, 1nat,
    {
        reveal(extract_node);
        reveal(extract_par);
        reveal(extract_with);
        reveal(extract_tensor);
        reveal(extract_plus);
        reveal(extract_of_course);
        reveal(extract_structural);
        reveal(extract_cut);
        let c = &proof.conclusion;
        let hyps = fit_handles(linear, c.linear.len());
        let shared = fit_handles(unrestricted, c.unrestricted.len());
        let ghost pv = proof@;
        let ghost hv = handle_views(hyps@);
        proof {
            assert(pv.premises.len() == arity(pv.rule));
            assert(pv.premises.len() == proof.premises.len());
            if proof.premises.len() > 0 {
                assert(pv.premises[0] == proof.premises[0]@);
                assert(well_formed(pv.premises[0]));
            }
        }
        match &proof.rule {
            Rule::Axiom => {
                if hyps.len() == 2 {
                    assert(hv[0] == handle_view(hyps[0]));
                    assert(hv[1] == handle_view(hyps[1]));
                    assert(c@.linear[0] == c.linear[0]@);
                    match (&hyps[0], &hyps[1]) {
                        (Some(a), Some(b)) => {
                            let negated_first = match &c.linear[0] {
                                Formula::NegAtom(_) => true,
                                _ => false,
                            };
                            if negated_first {
                                return Term::App(Box::new(b.clone()), Box::new(a.clone()));
                            } else {
                                return Term::App(Box::new(a.clone()), Box::new(b.clone()));
                            }
                        },
                        _ => {},
                    }
                }
                match find_handle(&hyps) {
                    Some(h) => h,
                    None => {
                        let (_, term) = self.fresh_term();
                        term
                    },
                }
            },
            Rule::OneIntro => Term::Unit,
            Rule::TopIntro => Term::Trivial,
            Rule::BottomIntro => {
                let i = find_decomposed(&c.linear, &proof.rule);
                let inner = handles_without(&hyps, i);
                self.extract_node(&proof.premises[0], &inner, &shared)
            },
            Rule::ParIntro => self.extract_par(proof, hyps, shared),
            Rule::WithIntro => self.extract_with(proof, hyps, shared),
            Rule::WhyNotIntro => {
                let i = find_decomposed(&c.linear, &proof.rule);
                if i < hyps.len() {
                    assert(hv[i as int] == handle_view(hyps[i as int]));
                    let moved = with_handle(shared, clone_handle(&hyps[i]));
                    let inner = handles_without(&hyps, i);
                    self.extract_node(&proof.premises[0], &inner, &moved)
                } else {
                    self.extract_node(&proof.premises[0], &hyps, &shared)
                }
            },
            Rule::TensorIntro => self.extract_tensor(proof, hyps, shared),
            Rule::PlusIntroLeft => self.extract_plus(proof, hyps, shared, false),
            Rule::PlusIntroRight => self.extract_plus(proof, hyps, shared, true),
            Rule::OfCourseIntro => self.extract_of_course(proof, hyps, shared),
            Rule::Dereliction => self.extract_structural(proof, hyps, shared),
            Rule::Contraction => self.extract_structural(proof, hyps, shared),
            Rule::Weakening => self.extract_structural(proof, hyps, shared),
            Rule::Cut(_) => self.extract_cut(proof, hyps, shared),
            _ => self.extract_node(&proof.premises[0], &hyps, &shared),
        }
    }

    /// Extracts the term of a par rule.
    fn extract_par(
        &mut self,
        proof: &Proof,
        hyps: Vec<Option<Term>>,
        shared: Vec<Option<Term>>,
    ) -> (r: Term)
        requires
            well_formed(proof@),
            proof@.rule is ParIntro,
        ensures
            r@ == extract_par(
                proof@,
                handle_views(hyps@),
                handle_views(shared@),
                old(self).counter(),
            ).term,
            final(self).counter() == extract_par(
                proof@,
                handle_views(hyps@),
                handle_views(shared@),
                old(self).counter(),
            ).next,
        decreases proof, 0nat,
    {
        reveal(extract_par);
        reveal(extract_node);
        let c = &proof.conclusion;
        let ghost hv = handle_views(hyps@);
        proof {
            assert(proof@.premises.len() == proof.premises.len());
            assert(proof@.premises[0] == proof.premises[0]@);
            assert(well_formed(proof@.premises[0]));
        }
        let i = find_decomposed(&c.linear, &proof.rule);
        if i >= hyps.len() {
            self.extract_node(&proof.premises[0], &hyps, &shared)
        } else {
            assert(hv[i as int] == handle_view(hyps[i as int]));
            match &hyps[i] {
                Some(h) => {
                    let (x, x_term) = self.fresh_term();
                    let (y, y_term) = self.fresh_term();
                    let inner = with_handle(
                        with_handle(handles_without(&hyps, i), Some(x_term)),
                        Some(y_term),
                    );
                    let body = self.extract_node(&proof.premises[0], &inner, &shared);
                    Term::LetPair(x, y, Box::new(h.clone()), Box::new(body))
                },
                None => {
                    let (x, x_term) = self.fresh_term();
                    let inner = with_handle(
                        with_handle(handles_without(&hyps, i), Some(x_term)),
                        None,
                    );
                    let body = self.extract_node(&proof.premises[0], &inner, &shared);
                    Term::Abs(x, Box::new(body))
                },
            }
        }
    }

    /// Extracts the term of a with rule.
    fn extract_with(
        &mut self,
        proof: &Proof,
        hyps: Vec<Option<Term>>,
        shared: Vec<Option<Term>>,
    ) -> (r: Term)
        requires
            well_formed(proof@),
            proof@.rule is WithIntro,
        ensures
            r@ == extract_with(
                proof@,
                handle_views(hyps@),
                handle_views(shared@),
                old(self).counter(),
            ).term,
            final(self).counter() == extract_with(
                proof@,
                handle_views(hyps@),
                handle_views(shared@),
                old(self).counter(),
            ).next,
        decreases proof, 0nat,
    {
        reveal(extract_with);
        reveal(extract_node);
        let c = &proof.conclusion;
        let ghost hv = handle_views(hyps@);
        proof {
            assert(proof@.premises.len() == proof.premises.len());
            assert(proof@.premises[0] == proof.premises[0]@);
            assert(proof@.premises[1] == proof.premises[1]@);
            assert(well_formed(proof@.premises[0]));
            assert(well_formed(proof@.premises[1]));
        }
        let i = find_decomposed(&c.linear, &proof.rule);
        if i < hyps.len() {
            assert(hv[i as int] == handle_view(hyps[i as int]));
        }
        let hypothesis = if i < hyps.len() {
            clone_handle(&hyps[i])
        } else {
            None
        };
        match hypothesis {
            Some(h) => {
                let (x, x_term) = self.fresh_term();
                let (y, y_term) = self.fresh_term();
                let left = with_handle(handles_without(&hyps, i), Some(x_term));
                let right = with_handle(handles_without(&hyps, i), Some(y_term));
                let first = self.extract_node(&proof.premises[0], &left, &shared);
                let second = self.extract_node(&proof.premises[1], &right, &shared);
                Term::Case(Box::new(h), x, Box::new(first), y, Box::new(second))
            },
            None => {
                let inner = if i < hyps.len() {
                    with_handle(handles_without(&hyps, i), None)
                } else {
                    hyps
                };
                let first = self.extract_node(&proof.premises[0], &inner, &shared);
                let second = self.extract_node(&proof.premises[1], &inner, &shared);
                Term::Pair(Box::new(first), Box::new(second))
            },
        }
    }

    /// Extracts the term of a tensor rule.
    fn extract_tensor(
        &mut self,
        proof: &Proof,
        hyps: Vec<Option<Term>>,
        shared: Vec<Option<Term>>,
    ) -> (r: Term)
        requires
            well_formed(proof@),
            proof@.rule is TensorIntro,
            hyps@.len() == proof@.conclusion.linear.len(),
        ensures
            r@ == extract_tensor(
                proof@,
                handle_views(hyps@),
                handle_views(shared@),
                old(self).counter(),
            ).term,
            final(self).counter() == extract_tensor(
                proof@,
                handle_views(hyps@),
                handle_views(shared@),
                old(self).counter(),
            ).next,
        decreases proof, 0nat,
    {
        reveal(extract_tensor);
        reveal(extract_node);
        let c = &proof.conclusion;
        let none: Vec<Option<Term>> = Vec::new();
        let ghost hv = handle_views(hyps@);
        proof {
            assert(handle_views(none@) =~= Seq::<Option<TermView>>::empty());
            assert(proof@.premises.len() == proof.premises.len());
            assert(proof@.premises[0] == proof.premises[0]@);
            assert(proof@.premises[1] == proof.premises[1]@);
            assert(well_formed(proof@.premises[0]));
            assert(well_formed(proof@.premises[1]));
        }
        match find_split(c, &proof.premises[0].conclusion, &proof.premises[1].conclusion) {
            Some((idx, mask, number)) => {
                let ghost k = number@;
                assert(hv[idx as int] == handle_view(hyps[idx as int]));
                let others = handles_without(&hyps, idx);
                proof {
                    lemma_mask_len(k, (c.linear@.len() - 1) as nat);
                    assert(handle_views(others@).len() == c.linear@.len() - 1);
                    assert(others@.len() == handle_views(others@).len());
                }
                let left = with_handle(pick_handles(&others, &mask, false), None);
                let first = self.extract_node(&proof.premises[0], &left, &shared);
                match &hyps[idx] {
                    Some(h) => {
                        let applied = Term::App(Box::new(h.clone()), Box::new(first));
                        let right = with_handle(pick_handles(&others, &mask, true), Some(applied));
                        self.extract_node(&proof.premises[1], &right, &shared)
                    },
                    None => {
                        let right = with_handle(pick_handles(&others, &mask, true), None);
                        let second = self.extract_node(&proof.premises[1], &right, &shared);
                        Term::Pair(Box::new(first), Box::new(second))
                    },
                }
            },
            None => {
                let first = self.extract_node(&proof.premises[0], &none, &shared);
                let second = self.extract_node(&proof.premises[1], &none, &shared);
                Term::Pair(Box::new(first), Box::new(second))
            },
        }
    }

    /// Extracts the term of a plus rule.
    fn extract_plus(
        &mut self,
        proof: &Proof,
        hyps: Vec<Option<Term>>,
        shared: Vec<Option<Term>>,
        right: bool,
    ) -> (r: Term)
        requires
            well_formed(proof@),
            proof@.rule is PlusIntroLeft || proof@.rule is PlusIntroRight,
        ensures
            r@ == extract_plus(
                proof@,
                handle_views(hyps@),
                handle_views(shared@),
                old(self).counter(),
                right,
            ).term,
            final(self).counter() == extract_plus(
                proof@,
                handle_views(hyps@),
                handle_views(shared@),
                old(self).counter(),
                right,
            ).next,
        decreases proof, 0nat,
    {
        reveal(extract_plus);
        reveal(extract_node);
        let c = &proof.conclusion;
        let none: Vec<Option<Term>> = Vec::new();
        let ghost hv = handle_views(hyps@);
        proof {
            assert(handle_views(none@) =~= Seq::<Option<TermView>>::empty());
            assert(proof@.premises.len() == proof.premises.len());
            assert(proof@.premises[0] == proof.premises[0]@);
            assert(well_formed(proof@.premises[0]));
        }
        let idx = find_plus(c, right, &proof.premises[0].conclusion);
        if idx < hyps.len() {
            assert(hv[idx as int] == handle_view(hyps[idx as int]));
        }
        let hypothesis = if idx < hyps.len() {
            clone_handle(&hyps[idx])
        } else {
            None
        };
        match hypothesis {
            Some(h) => {
                let mut inner = hyps;
                let side = if right {
                    Term::Snd(Box::new(h))
                } else {
                    Term::Fst(Box::new(h))
                };
                let ghost side_view = side@;
                inner.set(idx, Some(side));
                assert(handle_views(inner@) =~= hv.update(idx as int, Some(side_view)));
                self.extract_node(&proof.premises[0], &inner, &shared)
            },
            None => {
                let body = if idx < hyps.len() {
                    self.extract_node(&proof.premises[0], &hyps, &shared)
                } else {
                    self.extract_node(&proof.premises[0], &none, &shared)
                };
                if right {
                    Term::Inr(Box::new(body))
                } else {
                    Term::Inl(Box::new(body))
                }
            },
        }
    }

    /// Extracts the term of an of-course rule.
    fn extract_of_course(
        &mut self,
        proof: &Proof,
        hyps: Vec<Option<Term>>,
        shared: Vec<Option<Term>>,
    ) -> (r: Term)
        requires
            well_formed(proof@),
            proof@.rule is OfCourseIntro,
        ensures
            r@ == extract_of_course(
                proof@,
                handle_views(hyps@),
                handle_views(shared@),
                old(self).counter(),
            ).term,
            final(self).counter() == extract_of_course(
                proof@,
                handle_views(hyps@),
                handle_views(shared@),
                old(self).counter(),
            ).next,
        decreases proof, 0nat,
    {
        reveal(extract_of_course);
        reveal(extract_node);
        let none: Vec<Option<Term>> = Vec::new();
        let ghost hv = handle_views(hyps@);
        proof {
            assert(handle_views(none@) =~= Seq::<Option<TermView>>::empty());
            assert(proof@.premises.len() == proof.premises.len());
            assert(proof@.premises[0] == proof.premises[0]@);
            assert(well_formed(proof@.premises[0]));
        }
        if hyps.len() >= 1 {
            assert(hv[0] == handle_view(hyps[0]));
        }
        let hypothesis = if hyps.len() >= 1 {
            clone_handle(&hyps[0])
        } else {
            None
        };
        match hypothesis {
            Some(h) => {
                let mut inner: Vec<Option<Term>> = Vec::new();
                inner.push(Some(Term::Derelict(Box::new(h))));
                assert(handle_views(inner@) =~= seq![
                    Some(TermView::Derelict(Box::new(hv[0]->0))),
                ]);
                self.extract_node(&proof.premises[0], &inner, &shared)
            },
            None => {
                let body = self.extract_node(&proof.premises[0], &none, &shared);
                Term::Promote(Box::new(body))
            },
        }
    }

    /// Extracts the term of a structural rule.
    fn extract_structural(
        &mut self,
        proof: &Proof,
        hyps: Vec<Option<Term>>,
        shared: Vec<Option<Term>>,
    ) -> (r: Term)
        requires
            well_formed(proof@),
            proof@.rule is Dereliction || proof@.rule is Contraction || proof@.rule is Weakening,
        ensures
            r@ == extract_structural(
                proof@,
                handle_views(hyps@),
                handle_views(shared@),
                old(self).counter(),
            ).term,
            final(self).counter() == extract_structural(
                proof@,
                handle_views(hyps@),
                handle_views(shared@),
                old(self).counter(),
            ).next,
        decreases proof, 0nat,
    {
        reveal(extract_structural);
        reveal(extract_node);
        let c = &proof.conclusion;
        let ghost sv = handle_views(shared@);
        proof {
            assert(proof@.premises.len() == proof.premises.len());
            assert(proof@.premises[0] == proof.premises[0]@);
            assert(well_formed(proof@.premises[0]));
        }
        let i = find_structural(c, &proof.rule, &proof.premises[0].conclusion);
        if i >= shared.len() {
            return self.extract_node(&proof.premises[0], &hyps, &shared);
        }
        assert(sv[i as int] == handle_view(shared[i as int]));
        let rest = handles_without(&shared, i);
        match &proof.rule {
            Rule::Dereliction => {
                let used = match &shared[i] {
                    Some(h) => Some(Term::Derelict(Box::new(h.clone()))),
                    None => None,
                };
                let inner = with_handle(hyps, used);
                self.extract_node(&proof.premises[0], &inner, &rest)
            },
            Rule::Contraction => {
                match &shared[i] {
                    Some(h) => {
                        let (x, x_term) = self.fresh_term();
                        let (y, y_term) = self.fresh_term();
                        let inner = with_handle(
                            with_handle(hyps, Some(Term::Derelict(Box::new(x_term)))),
                            Some(Term::Derelict(Box::new(y_term))),
                        );
                        let body = self.extract_node(&proof.premises[0], &inner, &rest);
                        Term::Copy(Box::new(h.clone()), x, y, Box::new(body))
                    },
                    None => {
                        let inner = with_handle(with_handle(hyps, None), None);
                        self.extract_node(&proof.premises[0], &inner, &rest)
                    },
                }
            },
            _ => {
                let body = self.extract_node(&proof.premises[0], &hyps, &rest);
                match &shared[i] {
                    Some(h) => Term::Discard(Box::new(h.clone()), Box::new(body)),
                    None => body,
                }
            },
        }
    }

    /// Extracts the term of a cut.
    fn extract_cut(
        &mut self,
        proof: &Proof,
        hyps: Vec<Option<Term>>,
        shared: Vec<Option<Term>>,
    ) -> (r: Term)
        requires
            well_formed(proof@),
            proof@.rule is Cut,
        ensures
            r@ == extract_cut(
                proof@,
                handle_views(hyps@),
                handle_views(shared@),
                old(self).counter(),
            ).term,
            final(self).counter() == extract_cut(
                proof@,
                handle_views(hyps@),
                handle_views(shared@),
                old(self).counter(),
            ).next,
        decreases proof, 0nat,
    {
        reveal(extract_cut);
        reveal(extract_node);
        let ghost hv = handle_views(hyps@);
        proof {
            assert(proof@.premises.len() == proof.premises.len());
            assert(proof@.premises[0] == proof.premises[0]@);
            assert(proof@.premises[1] == proof.premises[1]@);
            assert(well_formed(proof@.premises[0]));
            assert(well_formed(proof@.premises[1]));
        }
        let width = proof.premises[0].conclusion.linear.len();
        let taken = if width == 0 {
            0
        } else if width - 1 > hyps.len() {
            hyps.len()
        } else {
            width - 1
        };
        let (x, x_term) = self.fresh_term();
        let left = with_handle(handles_between(&hyps, 0, taken), None);
        let right = with_handle(handles_between(&hyps, taken, hyps.len()), Some(x_term));
        proof {
            assert(hv.subrange(0, taken as int) =~= hv.take(taken as int));
            assert(hv.subrange(taken as int, hv.len() as int) =~= hv.skip(taken as int));
        }
        let first = self.extract_node(&proof.premises[0], &left, &shared);
        let second = self.extract_node(&proof.premises[1], &right, &shared);
        second.substitute(x.as_str(), &first)
    }

    /// Extracts the term of a proof of which the first `inputs` linear
    /// formulas of the conclusion are the hypotheses, named `arg0`, `arg1`,
    /// … in their order.
    pub fn extract_from(&mut self, proof: &Proof, inputs: usize) -> (r: Term)
        requires
            well_formed(proof@),
        ensures
            r@ == extract_from(proof@, inputs as nat, old(self).counter()).term,
            final(self).counter() == extract_from(proof@, inputs as nat, old(self).counter()).next,
    {
        let n = proof.conclusion.linear.len();
        let mut hyps: Vec<Option<Term>> = Vec::new();
        let mut i: usize = 0;
        while i < n
            invariant
                i <= n,
                hyps@.len() == i,
                forall|k: int|
                    0 <= k < i ==> handle_view(#[trigger] hyps@[k]) == root_handles(
                        n as nat,
                        inputs as nat,
                    )[k],
            decreases n - i,
        {
            if i < inputs {
                hyps.push(Some(Term::Var(glue2("arg", decimal_string(i).as_str()))));
            } else {
                hyps.push(None);
            }
            i = i + 1;
        }
        let shared: Vec<Option<Term>> = Vec::new();
        proof {
            assert(handle_views(hyps@) =~= root_handles(n as nat, inputs as nat));
            assert(handle_views(shared@) =~= Seq::<Option<TermView>>::empty());
        }
        self.extract_node(proof, &hyps, &shared)
    }

    /// Extracts the term of a proof of `A₁, …, Aₙ ⊢ B`: every linear formula
    /// of the conclusion but the last is a hypothesis.
    pub fn extract(&mut self, proof: &Proof) -> (r: Term)
        requires
            well_formed(proof@),
        ensures
            r@ == extract_from(proof@, all_but_last(proof@), old(self).counter()).term,
            final(self).counter() == extract_from(
                proof@,
                all_but_last(proof@),
                old(self).counter(),
            ).next,
    {
        let n = proof.conclusion.linear.len();
        let inputs = if n == 0 {
            0
        } else {
            n - 1
        };
        self.extract_from(proof, inputs)
    }
}

/// Tells whether every node of the proof has as many premises as its rule
/// asks for.
pub fn is_well_formed(proof: &Proof) -> (r: bool)
    ensures
        r == well_formed(proof@),
    decreases proof,
{
    let wanted: usize = match &proof.rule {
        Rule::Axiom => 0,
        Rule::OneIntro => 0,
        Rule::TopIntro => 0,
        Rule::Cut(_) => 2,
        Rule::TensorIntro => 2,
        Rule::WithIntro => 2,
        _ => 1,
    };
    if proof.premises.len() != wanted {
        return false;
    }
    let mut i: usize = 0;
    while i < proof.premises.len()
        invariant
            i <= proof.premises.len(),
            proof@.premises.len() == arity(proof@.rule),
            forall|k: int| 0 <= k < i ==> well_formed(#[trigger] proof@.premises[k]),
        decreases proof.premises.len() - i,
    {
        assert(proof@.premises[i as int] == proof.premises[i as int]@);
        if !is_well_formed(&proof.premises[i]) {
            return false;
        }
        i = i + 1;
    }
    true
}

/// Extracts the term of a proof of `A₁, …, Aₙ ⊢ B`, with fresh variables
/// from `x0` on.
pub fn extract_term(proof: &Proof) -> (r: Term)
    requires
        well_formed(proof@),
    ensures
        r@ == extract_from(proof@, all_but_last(proof@), 0).term,
{
    let mut extractor = Extractor::new();
    extractor.extract(proof)
}

/// The term with its redexes reduced, to the depth `fuel`. The parts of a
/// term are normalized first. Then a function applied to an argument
/// becomes its body with the argument in the place of its variable; a pair
/// taken apart becomes the body with the two parts in the place of the two
/// variables; a choice on an injection becomes the case of that side with
/// what was injected in the place of its variable; and the result is
/// normalized again. With no fuel left the term stays as it is.
pub open spec fn normalize_to(t: TermView, fuel: nat) -> TermView
    decreases fuel,
{
    if fuel == 0 {
        t
    } else {
        let less = (fuel - 1) as nat;
        match t {
            TermView::Var(_) => t,
            TermView::Unit => t,
            TermView::Trivial => t,
            TermView::Pair(a, b) => TermView::Pair(
                Box::new(normalize_to(*a, less)),
                Box::new(normalize_to(*b, less)),
            ),
            TermView::LetPair(x, y, e, body) => match normalize_to(*e, less) {
                TermView::Pair(a, b) => normalize_to(
                    body.substitute(x, *a).substitute(y, *b),
                    less,
                ),
                other => TermView::LetPair(
                    x,
                    y,
                    Box::new(other),
                    Box::new(normalize_to(*body, less)),
                ),
            },
            TermView::Abs(x, body) => TermView::Abs(x, Box::new(normalize_to(*body, less))),
            TermView::App(f, a) => match normalize_to(*f, less) {
                TermView::Abs(x, body) => normalize_to(
                    body.substitute(x, normalize_to(*a, less)),
                    less,
                ),
                other => TermView::App(Box::new(other), Box::new(normalize_to(*a, less))),
            },
            TermView::Inl(e) => TermView::Inl(Box::new(normalize_to(*e, less))),
            TermView::Inr(e) => TermView::Inr(Box::new(normalize_to(*e, less))),
            TermView::Case(s, x, l, y, r) => match normalize_to(*s, less) {
                TermView::Inl(a) => normalize_to(l.substitute(x, *a), less),
                TermView::Inr(b) => normalize_to(r.substitute(y, *b), less),
                other => TermView::Case(
                    Box::new(other),
                    x,
                    Box::new(normalize_to(*l, less)),
                    y,
                    Box::new(normalize_to(*r, less)),
                ),
            },
            TermView::Fst(e) => TermView::Fst(Box::new(normalize_to(*e, less))),
            TermView::Snd(e) => TermView::Snd(Box::new(normalize_to(*e, less))),
            TermView::Abort(e) => TermView::Abort(Box::new(normalize_to(*e, less))),
            TermView::Promote(e) => TermView::Promote(Box::new(normalize_to(*e, less))),
            TermView::Derelict(e) => TermView::Derelict(Box::new(normalize_to(*e, less))),
            TermView::Discard(d, body) => TermView::Discard(
                Box::new(normalize_to(*d, less)),
                Box::new(normalize_to(*body, less)),
            ),
            TermView::Copy(src, x, y, body) => TermView::Copy(
                Box::new(normalize_to(*src, less)),
                x,
                y,
                Box::new(normalize_to(*body, less)),
            ),
        }
    }
}

/// The normal form of a term: its redexes reduced to a depth of as many
/// steps as the term has constructors, up to the greatest `usize`. A term
/// that uses each bound variable once gets no larger by a step, so it is
/// reduced as far as it goes.
pub open spec fn normal_form(t: TermView) -> TermView {
    normalize_to(t, capped(t.size()))
}

/// Counts the constructors of a term. The count stops at the greatest
/// `usize`.
pub fn size_of(term: &Term) -> (r: usize)
    ensures
        r as nat == capped(term@.size()),
    decreases term,
{
    match term {
        Term::Var(_) => 1,
        Term::Unit => 1,
        Term::Trivial => 1,
        Term::Pair(a, b) => add_capped(add_capped(1, size_of(a)), size_of(b)),
        Term::LetPair(_, _, e, body) => add_capped(add_capped(1, size_of(e)), size_of(body)),
        Term::Abs(_, body) => add_capped(1, size_of(body)),
        Term::App(f, a) => add_capped(add_capped(1, size_of(f)), size_of(a)),
        Term::Inl(e) => add_capped(1, size_of(e)),
        Term::Inr(e) => add_capped(1, size_of(e)),
        Term::Case(s, _, l, _, r) => add_capped(
            add_capped(add_capped(1, size_of(s)), size_of(l)),
            size_of(r),
        ),
        Term::Fst(e) => add_capped(1, size_of(e)),
        Term::Snd(e) => add_capped(1, size_of(e)),
        Term::Abort(e) => add_capped(1, size_of(e)),
        Term::Promote(e) => add_capped(1, size_of(e)),
        Term::Derelict(e) => add_capped(1, size_of(e)),
        Term::Discard(d, body) => add_capped(add_capped(1, size_of(d)), size_of(body)),
        Term::Copy(src, _, _, body) => add_capped(add_capped(1, size_of(src)), size_of(body)),
    }
}

/// Reduces the redexes of a term to the depth `fuel`.
pub fn normalize_to_depth(term: &Term, fuel: usize) -> (r: Term)
    ensures
        r@ == normalize_to(term@, fuel as nat),
    decreases fuel,
{
    if fuel == 0 {
        return term.clone();
    }
    let less = fuel - 1;
    match term {
        Term::Var(v) => Term::Var(v.clone()),
        Term::Unit => Term::Unit,
        Term::Trivial => Term::Trivial,
        Term::Pair(a, b) => Term::Pair(
            Box::new(normalize_to_depth(a, less)),
            Box::new(normalize_to_depth(b, less)),
        ),
        Term::LetPair(x, y, e, body) => {
            match normalize_to_depth(e, less) {
                Term::Pair(a, b) => {
                    let opened = body.substitute(x.as_str(), &a).substitute(y.as_str(), &b);
                    normalize_to_depth(&opened, less)
                },
                other => Term::LetPair(
                    x.clone(),
                    y.clone(),
                    Box::new(other),
                    Box::new(normalize_to_depth(body, less)),
                ),
            }
        },
        Term::Abs(x, body) => Term::Abs(x.clone(), Box::new(normalize_to_depth(body, less))),
        Term::App(f, a) => {
            match normalize_to_depth(f, less) {
                Term::Abs(x, body) => {
                    let argument = normalize_to_depth(a, less);
                    let applied = body.substitute(x.as_str(), &argument);
                    normalize_to_depth(&applied, less)
                },
                other => Term::App(Box::new(other), Box::new(normalize_to_depth(a, less))),
            }
        },
        Term::Inl(e) => Term::Inl(Box::new(normalize_to_depth(e, less))),
        Term::Inr(e) => Term::Inr(Box::new(normalize_to_depth(e, less))),
        Term::Case(s, x, l, y, r) => {
            match normalize_to_depth(s, less) {
                Term::Inl(a) => {
                    let chosen = l.substitute(x.as_str(), &a);
                    normalize_to_depth(&chosen, less)
                },
                Term::Inr(b) => {
                    let chosen = r.substitute(y.as_str(), &b);
                    normalize_to_depth(&chosen, less)
                },
                other => Term::Case(
                    Box::new(other),
                    x.clone(),
                    Box::new(normalize_to_depth(l, less)),
                    y.clone(),
                    Box::new(normalize_to_depth(r, less)),
                ),
            }
        },
        Term::Fst(e) => Term::Fst(Box::new(normalize_to_depth(e, less))),
        Term::Snd(e) => Term::Snd(Box::new(normalize_to_depth(e, less))),
        Term::Abort(e) => Term::Abort(Box::new(normalize_to_depth(e, less))),
        Term::Promote(e) => Term::Promote(Box::new(normalize_to_depth(e, less))),
        Term::Derelict(e) => Term::Derelict(Box::new(normalize_to_depth(e, less))),
        Term::Discard(d, body) => Term::Discard(
            Box::new(normalize_to_depth(d, less)),
            Box::new(normalize_to_depth(body, less)),
        ),
        Term::Copy(src, x, y, body) => Term::Copy(
            Box::new(normalize_to_depth(src, less)),
            x.clone(),
            y.clone(),
            Box::new(normalize_to_depth(body, less)),
        ),
    }
}

/// Normalizes a term: reduces its redexes, to a depth of as many steps as
/// the term has constructors.
pub fn normalize(term: &Term) -> (r: Term)
    ensures
        r@ == normal_form(term@),
{
    normalize_to_depth(term, size_of(term))
}

} // verus!
