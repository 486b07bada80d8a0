//! Linearity of extracted terms: the term of a derivation uses exactly
//! once every hypothesis that the derivation spares, whatever its rules.
//! A derivation by the axiom, the rules of tensor, par, plus and of-course
//! and the structural rules spares every hypothesis.

use vstd::prelude::*;
use crate::extract::{
    Handles,
    arity,
    axiom_term,
    bump,
    extract_from,
    extract_node,
    extract_of_course,
    extract_par,
    extract_plus,
    extract_structural,
    extract_tensor,
    extract_with,
    first_decomposed,
    first_handle,
    first_plus,
    first_split,
    first_structural,
    fit,
    fresh,
    fresh_name,
    root_handles,
    without,
};
use crate::formula::FormulaView;
use crate::proof_tree::{ProofView, RuleView};
use crate::search::{
    bottom_step,
    conclusions,
    derivation,
    goal,
    par_step,
    plus_step,
    settle,
    step,
    structural_premise,
    structural_step,
    tensor_left,
    tensor_right,
    tensor_step,
    why_not_step,
    with_step,
};
use crate::sequent::SequentView;
use crate::splits::{lemma_mask_len, mask_bits, pick, pow2};
use crate::steps::lemma_settle_in_one_step;
use crate::term::TermView;
use crate::text::{decimal, lemma_decimal_injective, lemma_same_front};

verus! {

/// How often the variable occurs free in the term.
pub open spec fn occurrences(t: TermView, v: Seq<char>) -> nat
    decreases t,
{
    match t {
        TermView::Var(x) => if x == v {
            1
        } else {
            0
        },
        TermView::Unit => 0,
        TermView::Trivial => 0,
        TermView::Pair(a, b) => occurrences(*a, v) + occurrences(*b, v),
        TermView::App(a, b) => occurrences(*a, v) + occurrences(*b, v),
        TermView::Discard(a, b) => occurrences(*a, v) + occurrences(*b, v),
        TermView::LetPair(x, y, e, body) => occurrences(*e, v) + (if x == v || y == v {
            0
        } else {
            occurrences(*body, v)
        }),
        TermView::Abs(x, body) => if x == v {
            0
        } else {
            occurrences(*body, v)
        },
        TermView::Inl(e) => occurrences(*e, v),
        TermView::Inr(e) => occurrences(*e, v),
        TermView::Fst(e) => occurrences(*e, v),
        TermView::Snd(e) => occurrences(*e, v),
        TermView::Abort(e) => occurrences(*e, v),
        TermView::Promote(e) => occurrences(*e, v),
        TermView::Derelict(e) => occurrences(*e, v),
        TermView::Case(s, x, l, y, r) => occurrences(*s, v) + (if x == v {
            0
        } else {
            occurrences(*l, v)
        }) + (if y == v {
            0
        } else {
            occurrences(*r, v)
        }),
        TermView::Copy(src, x, y, body) => occurrences(*src, v) + (if x == v || y == v {
            0
        } else {
            occurrences(*body, v)
        }),
    }
}

/// A variable occurs free in a term exactly when it is one of the free
/// variables of the term.
pub proof fn lemma_occurs_iff_free(t: TermView, v: Seq<char>)
    ensures
        occurrences(t, v) > 0 <==> t.free_vars().contains(v),
    decreases t,
{
    match t {
        TermView::Var(_) => {},
        TermView::Unit => {},
        TermView::Trivial => {},
        TermView::Pair(a, b) => {
            lemma_occurs_iff_free(*a, v);
            lemma_occurs_iff_free(*b, v);
        },
        TermView::App(a, b) => {
            lemma_occurs_iff_free(*a, v);
            lemma_occurs_iff_free(*b, v);
        },
        TermView::Discard(a, b) => {
            lemma_occurs_iff_free(*a, v);
            lemma_occurs_iff_free(*b, v);
        },
        TermView::LetPair(_, _, e, body) => {
            lemma_occurs_iff_free(*e, v);
            lemma_occurs_iff_free(*body, v);
        },
        TermView::Copy(e, _, _, body) => {
            lemma_occurs_iff_free(*e, v);
            lemma_occurs_iff_free(*body, v);
        },
        TermView::Abs(_, body) => {
            lemma_occurs_iff_free(*body, v);
        },
        TermView::Inl(e) => {
            lemma_occurs_iff_free(*e, v);
        },
        TermView::Inr(e) => {
            lemma_occurs_iff_free(*e, v);
        },
        TermView::Fst(e) => {
            lemma_occurs_iff_free(*e, v);
        },
        TermView::Snd(e) => {
            lemma_occurs_iff_free(*e, v);
        },
        TermView::Abort(e) => {
            lemma_occurs_iff_free(*e, v);
        },
        TermView::Promote(e) => {
            lemma_occurs_iff_free(*e, v);
        },
        TermView::Derelict(e) => {
            lemma_occurs_iff_free(*e, v);
        },
        TermView::Case(s, _, l, _, r) => {
            lemma_occurs_iff_free(*s, v);
            lemma_occurs_iff_free(*l, v);
            lemma_occurs_iff_free(*r, v);
        },
    }
}

/// Replacing a variable that does not occur free changes nothing.
pub proof fn lemma_substitute_absent(t: TermView, v: Seq<char>, replacement: TermView)
    requires
        occurrences(t, v) == 0,
    ensures
        t.substitute(v, replacement) == t,
{
    lemma_occurs_iff_free(t, v);
    crate::term::lemma_substitute_free_vars(t, v, replacement);
}

/// How often the variable occurs free in a handle.
pub open spec fn held(h: Option<TermView>, v: Seq<char>) -> nat {
    match h {
        Some(t) => occurrences(t, v),
        None => 0,
    }
}

/// How often the variable occurs free in the handles together.
pub open spec fn total(h: Handles, v: Seq<char>) -> nat
    decreases h.len(),
{
    if h.len() == 0 {
        0
    } else {
        total(h.drop_last(), v) + held(h.last(), v)
    }
}

/// Whether the variable is one of the extractor's fresh variables with the
/// number `from` or a later one.
pub open spec fn is_fresh(v: Seq<char>, from: nat) -> bool {
    exists|n: nat| n >= from && v == #[trigger] fresh_name(n)
}

/// Whether the proof uses only rules that keep every linear handle: the
/// axiom, the rules of tensor, par, plus and of-course, and the structural
/// rules, which work on the unrestricted zone.
pub open spec fn fragment(p: ProofView) -> bool
    decreases p,
{
    &&& p.rule is Axiom || p.rule is ParIntro || p.rule is TensorIntro || p.rule is PlusIntroLeft
        || p.rule is PlusIntroRight || p.rule is OfCourseIntro || p.rule is Dereliction
        || p.rule is Contraction || p.rule is Weakening
    &&& forall|i: int| 0 <= i < p.premises.len() ==> fragment(#[trigger] p.premises[i])
}

/// How often the derivation works by a structural rule on the
/// unrestricted formula that stands at position `k` of its conclusion, over
/// all its branches. A structural rule takes the formula out of the zone,
/// so on one branch this happens at most once.
pub open spec fn draws(p: ProofView, k: int) -> nat
    decreases p,
{
    let c = p.conclusion;
    if p.premises.len() != arity(p.rule) {
        0
    } else {
        match p.rule {
            RuleView::BottomIntro => draws(p.premises[0], k),
            RuleView::WhyNotIntro => draws(p.premises[0], k),
            RuleView::ParIntro => draws(p.premises[0], k),
            RuleView::PlusIntroLeft => draws(p.premises[0], k),
            RuleView::PlusIntroRight => draws(p.premises[0], k),
            RuleView::OfCourseIntro => draws(p.premises[0], k),
            RuleView::WithIntro => draws(p.premises[0], k) + draws(p.premises[1], k),
            RuleView::TensorIntro => draws(p.premises[0], k) + draws(p.premises[1], k),
            RuleView::Dereliction => draws_above(p, k),
            RuleView::Contraction => draws_above(p, k),
            RuleView::Weakening => draws_above(p, k),
            _ => 0,
        }
    }
}

/// The same at a structural rule: once where the rule works on the
/// formula itself, else as often as above the rule, where the formula
/// stands one place to the left if the rule took one out before it.
pub open spec fn draws_above(p: ProofView, k: int) -> nat
    decreases p.premises,
{
    if p.premises.len() != 1 {
        0
    } else {
        let i = first_structural(p.conclusion, p.rule, p.premises[0].conclusion, 0);
        if i >= p.conclusion.unrestricted.len() {
            0
        } else if k == i {
            1
        } else if k < i {
            draws(p.premises[0], k)
        } else {
            draws(p.premises[0], k - 1)
        }
    }
}

/// How often the term of the derivation holds the variable by way of the
/// unrestricted handles of its conclusion: each structural rule uses the
/// handle of the formula that it works on once, and two premises each get
/// all the handles.
pub open spec fn drawn(p: ProofView, unrestricted: Handles, v: Seq<char>) -> nat
    decreases p,
{
    let shared = fit(unrestricted, p.conclusion.unrestricted.len());
    if p.premises.len() != arity(p.rule) {
        0
    } else {
        match p.rule {
            RuleView::BottomIntro => drawn(p.premises[0], shared, v),
            RuleView::WhyNotIntro => drawn(p.premises[0], shared.push(None), v),
            RuleView::ParIntro => drawn(p.premises[0], shared, v),
            RuleView::PlusIntroLeft => drawn(p.premises[0], shared, v),
            RuleView::PlusIntroRight => drawn(p.premises[0], shared, v),
            RuleView::OfCourseIntro => drawn(p.premises[0], shared, v),
            RuleView::WithIntro => drawn(p.premises[0], shared, v) + drawn(p.premises[1], shared, v),
            RuleView::TensorIntro => drawn(p.premises[0], shared, v) + drawn(
                p.premises[1],
                shared,
                v,
            ),
            RuleView::Dereliction => drawn_above(p, shared, v),
            RuleView::Contraction => drawn_above(p, shared, v),
            RuleView::Weakening => drawn_above(p, shared, v),
            _ => 0,
        }
    }
}

/// The same at a structural rule: what the handle of its formula holds,
/// and what is drawn above the rule from the other handles.
pub open spec fn drawn_above(p: ProofView, shared: Handles, v: Seq<char>) -> nat
    decreases p.premises,
{
    if p.premises.len() != 1 {
        0
    } else {
        let i = first_structural(p.conclusion, p.rule, p.premises[0].conclusion, 0);
        if i >= shared.len() {
            0
        } else {
            held(shared[i as int], v) + drawn(p.premises[0], without(shared, i), v)
        }
    }
}

/// Whether the proof spares the variable: whether extraction from it, with
/// the given handles and counter, never drops or doubles a linear handle
/// that holds the variable, and draws exactly once on each such handle that
/// a why-not moves to the unrestricted zone. A handle is dropped at a one, a
/// top or a bottom, and doubled where a with hands it to both premises. The
/// handles go down the proof as they do in extraction. A cut or a focusing
/// rule spares nothing.
pub open spec fn spares(
    p: ProofView,
    linear: Handles,
    unrestricted: Handles,
    counter: nat,
    v: Seq<char>,
) -> bool
    decreases p, 1nat,
{
    let c = p.conclusion;
    let hyps = fit(linear, c.linear.len());
    let shared = fit(unrestricted, c.unrestricted.len());
    let i = first_decomposed(c.linear, p.rule, 0);
    if p.premises.len() != arity(p.rule) {
        false
    } else {
        match p.rule {
            RuleView::Axiom => hyps.len() == 2,
            RuleView::OneIntro => total(hyps, v) == 0,
            RuleView::TopIntro => total(hyps, v) == 0,
            RuleView::BottomIntro => i < hyps.len() && held(hyps[i as int], v) == 0 && spares(
                p.premises[0],
                without(hyps, i),
                shared,
                counter,
                v,
            ),
            RuleView::WhyNotIntro => i < hyps.len() && (held(hyps[i as int], v) == 0 || draws(
                p.premises[0],
                shared.len() as int,
            ) == 1) && spares(
                p.premises[0],
                without(hyps, i),
                shared.push(hyps[i as int]),
                counter,
                v,
            ),
            RuleView::ParIntro => spares_par(p, hyps, shared, counter, v),
            RuleView::WithIntro => spares_with(p, hyps, shared, counter, v),
            RuleView::TensorIntro => spares_tensor(p, hyps, shared, counter, v),
            RuleView::PlusIntroLeft => spares_plus(p, hyps, shared, counter, false, v),
            RuleView::PlusIntroRight => spares_plus(p, hyps, shared, counter, true, v),
            RuleView::OfCourseIntro => spares_of_course(p, hyps, shared, counter, v),
            RuleView::Dereliction => spares_structural(p, hyps, shared, counter, v),
            RuleView::Contraction => spares_structural(p, hyps, shared, counter, v),
            RuleView::Weakening => spares_structural(p, hyps, shared, counter, v),
            _ => false,
        }
    }
}

/// Whether a par rule and what is above it spare the variable.
pub open spec fn spares_par(
    p: ProofView,
    hyps: Handles,
    shared: Handles,
    counter: nat,
    v: Seq<char>,
) -> bool
    decreases p, 0nat,
{
    let i = first_decomposed(p.conclusion.linear, p.rule, 0);
    if p.premises.len() != 1 || i >= hyps.len() {
        false
    } else if hyps[i as int] is Some {
        spares(
            p.premises[0],
            without(hyps, i).push(Some(fresh(counter))).push(Some(fresh(bump(counter)))),
            shared,
            bump(bump(counter)),
            v,
        )
    } else {
        spares(
            p.premises[0],
            without(hyps, i).push(Some(fresh(counter))).push(None),
            shared,
            bump(counter),
            v,
        )
    }
}

/// Whether a with rule and what is above it spare the variable: the other
/// handles, which go to both premises, must not hold it.
pub open spec fn spares_with(
    p: ProofView,
    hyps: Handles,
    shared: Handles,
    counter: nat,
    v: Seq<char>,
) -> bool
    decreases p, 0nat,
{
    let i = first_decomposed(p.conclusion.linear, p.rule, 0);
    if p.premises.len() != 2 || i >= hyps.len() || total(without(hyps, i), v) != 0 {
        false
    } else if hyps[i as int] is Some {
        let left = without(hyps, i).push(Some(fresh(counter)));
        let right = without(hyps, i).push(Some(fresh(bump(counter))));
        spares(p.premises[0], left, shared, bump(bump(counter)), v) && spares(
            p.premises[1],
            right,
            shared,
            extract_node(p.premises[0], left, shared, bump(bump(counter))).next,
            v,
        )
    } else {
        let inner = without(hyps, i).push(None);
        spares(p.premises[0], inner, shared, counter, v) && spares(
            p.premises[1],
            inner,
            shared,
            extract_node(p.premises[0], inner, shared, counter).next,
            v,
        )
    }
}

/// Whether a tensor rule and what is above it spare the variable.
pub open spec fn spares_tensor(
    p: ProofView,
    hyps: Handles,
    shared: Handles,
    counter: nat,
    v: Seq<char>,
) -> bool
    decreases p, 0nat,
{
    if p.premises.len() != 2 {
        false
    } else {
        match first_split(p.conclusion, p.premises[0].conclusion, p.premises[1].conclusion, 0, 0) {
            Some((idx, k)) => {
                let others = without(hyps, idx);
                let bits = mask_bits(k, others.len());
                let left = pick(others, bits, false).push(None);
                let first = extract_node(p.premises[0], left, shared, counter);
                idx < hyps.len() && spares(p.premises[0], left, shared, counter, v) && spares(
                    p.premises[1],
                    pick(others, bits, true).push(
                        if hyps[idx as int] is Some {
                            Some(
                                TermView::App(
                                    Box::new(hyps[idx as int]->0),
                                    Box::new(first.term),
                                ),
                            )
                        } else {
                            None
                        },
                    ),
                    shared,
                    first.next,
                    v,
                )
            },
            None => false,
        }
    }
}

/// Whether a plus rule and what is above it spare the variable.
pub open spec fn spares_plus(
    p: ProofView,
    hyps: Handles,
    shared: Handles,
    counter: nat,
    right: bool,
    v: Seq<char>,
) -> bool
    decreases p, 0nat,
{
    if p.premises.len() != 1 {
        false
    } else {
        let idx = first_plus(p.conclusion, right, p.premises[0].conclusion, 0);
        idx < hyps.len() && spares(
            p.premises[0],
            if hyps[idx as int] is Some {
                hyps.update(
                    idx as int,
                    Some(
                        if right {
                            TermView::Snd(Box::new(hyps[idx as int]->0))
                        } else {
                            TermView::Fst(Box::new(hyps[idx as int]->0))
                        },
                    ),
                )
            } else {
                hyps
            },
            shared,
            counter,
            v,
        )
    }
}

/// Whether an of-course rule and what is above it spare the variable.
pub open spec fn spares_of_course(
    p: ProofView,
    hyps: Handles,
    shared: Handles,
    counter: nat,
    v: Seq<char>,
) -> bool
    decreases p, 0nat,
{
    if p.premises.len() != 1 || hyps.len() != 1 {
        false
    } else if hyps[0] is Some {
        spares(
            p.premises[0],
            seq![Some(TermView::Derelict(Box::new(hyps[0]->0)))],
            shared,
            counter,
            v,
        )
    } else {
        spares(p.premises[0], Seq::empty(), shared, counter, v)
    }
}

/// Whether a structural rule and what is above it spare the variable. The
/// rule itself works on an unrestricted handle, and so spares every linear
/// one.
pub open spec fn spares_structural(
    p: ProofView,
    hyps: Handles,
    shared: Handles,
    counter: nat,
    v: Seq<char>,
) -> bool
    decreases p, 0nat,
{
    if p.premises.len() != 1 {
        false
    } else {
        let i = first_structural(p.conclusion, p.rule, p.premises[0].conclusion, 0);
        i < shared.len() && match p.rule {
            RuleView::Dereliction => spares(
                p.premises[0],
                hyps.push(
                    match shared[i as int] {
                        Some(h) => Some(TermView::Derelict(Box::new(h))),
                        None => None,
                    },
                ),
                without(shared, i),
                counter,
                v,
            ),
            RuleView::Contraction => if shared[i as int] is Some {
                spares(
                    p.premises[0],
                    hyps.push(Some(TermView::Derelict(Box::new(fresh(counter))))).push(
                        Some(TermView::Derelict(Box::new(fresh(bump(counter))))),
                    ),
                    without(shared, i),
                    bump(bump(counter)),
                    v,
                )
            } else {
                spares(p.premises[0], hyps.push(None).push(None), without(shared, i), counter, v)
            },
            _ => spares(p.premises[0], hyps, without(shared, i), counter, v),
        }
    }
}

/// One more handle adds its occurrences.
pub proof fn lemma_total_push(h: Handles, x: Option<TermView>, v: Seq<char>)
    ensures
        total(h.push(x), v) == total(h, v) + held(x, v),
{
    assert(h.push(x).drop_last() =~= h);
}

/// The occurrences in two runs of handles add up.
pub proof fn lemma_total_append(a: Handles, b: Handles, v: Seq<char>)
    ensures
        total(a + b, v) == total(a, v) + total(b, v),
    decreases b.len(),
{
    if b.len() == 0 {
        assert(a + b =~= a);
    } else {
        assert((a + b).drop_last() =~= a + b.drop_last());
        lemma_total_append(a, b.drop_last(), v);
    }
}

/// Taking a handle out takes its occurrences out.
pub proof fn lemma_total_without(h: Handles, i: nat, v: Seq<char>)
    requires
        i < h.len(),
    ensures
        total(without(h, i), v) + held(h[i as int], v) == total(h, v),
{
    let front = h.take(i as int);
    let back = h.skip(i as int + 1);
    assert(h =~= front.push(h[i as int]) + back);
    assert(without(h, i) =~= front + back);
    lemma_total_append(front, back, v);
    lemma_total_append(front.push(h[i as int]), back, v);
    lemma_total_push(front, h[i as int], v);
}

/// Putting another handle in the place of one changes the occurrences by
/// the difference.
pub proof fn lemma_total_update(h: Handles, i: int, x: Option<TermView>, v: Seq<char>)
    requires
        0 <= i < h.len(),
    ensures
        total(h.update(i, x), v) + held(h[i], v) == total(h, v) + held(x, v),
{
    let front = h.take(i);
    let back = h.skip(i + 1);
    assert(h =~= front.push(h[i]) + back);
    assert(h.update(i, x) =~= front.push(x) + back);
    lemma_total_append(front.push(h[i]), back, v);
    lemma_total_append(front.push(x), back, v);
    lemma_total_push(front, h[i], v);
    lemma_total_push(front, x, v);
}

/// A split loses and doubles nothing: the occurrences in the two parts add
/// up to those in the whole.
pub proof fn lemma_total_pick(h: Handles, bits: Seq<bool>, v: Seq<char>)
    requires
        bits.len() == h.len(),
    ensures
        total(pick(h, bits, false), v) + total(pick(h, bits, true), v) == total(h, v),
    decreases h.len(),
{
    if h.len() > 0 {
        lemma_total_pick(h.drop_last(), bits.drop_last(), v);
        if bits.last() {
            lemma_total_push(pick(h.drop_last(), bits.drop_last(), true), h.last(), v);
        } else {
            lemma_total_push(pick(h.drop_last(), bits.drop_last(), false), h.last(), v);
        }
    }
}

/// How many items a split sends to a side depends on the split alone.
pub proof fn lemma_pick_len<A, B>(a: Seq<A>, b: Seq<B>, bits: Seq<bool>, side: bool)
    requires
        a.len() == bits.len(),
        b.len() == bits.len(),
    ensures
        pick(a, bits, side).len() == pick(b, bits, side).len(),
    decreases bits.len(),
{
    if bits.len() > 0 {
        lemma_pick_len(a.drop_last(), b.drop_last(), bits.drop_last(), side);
    }
}

/// Handles of the right length fit as they are.
pub proof fn lemma_fit_same(h: Handles)
    ensures
        fit(h, h.len()) == h,
{
    assert(fit(h, h.len()) =~= h);
}

/// Settling keeps the number of linear formulas.
pub proof fn lemma_settle_keeps_len(seq: SequentView)
    ensures
        settle(seq).linear.len() == seq.linear.len(),
{
    lemma_settle_in_one_step(seq);
}

/// Where the rule decomposes a formula of the zone, the first such formula
/// is found at or before it.
pub proof fn lemma_first_decomposed_finds(
    linear: Seq<FormulaView>,
    rule: RuleView,
    from: nat,
    i: int,
)
    requires
        from <= i < linear.len(),
        crate::extract::decomposes(rule, linear[i]),
    ensures
        from <= first_decomposed(linear, rule, from) <= i,
        crate::extract::decomposes(rule, linear[first_decomposed(linear, rule, from) as int]),
    decreases i - from,
{
    if !crate::extract::decomposes(rule, linear[from as int]) {
        lemma_first_decomposed_finds(linear, rule, from + 1, i);
    }
}

/// Where a plus rule leads from `c` to `premise` at some position, the
/// first such position is found, and the rule leads there too.
pub proof fn lemma_first_plus_finds(
    c: SequentView,
    right: bool,
    premise: SequentView,
    from: nat,
    idx: int,
)
    requires
        from <= idx < c.linear.len(),
        plus_step(c, idx, right, premise),
    ensures
        from <= first_plus(c, right, premise, from) <= idx,
        plus_step(c, first_plus(c, right, premise, from) as int, right, premise),
    decreases idx - from,
{
    if !plus_step(c, from as int, right, premise) {
        lemma_first_plus_finds(c, right, premise, from + 1, idx);
    }
}

/// Where a tensor rule leads from `c` to the two premises at some position
/// and split, a first such position and split is found, and the rule leads
/// there too.
pub proof fn lemma_first_split_finds(
    c: SequentView,
    first: SequentView,
    second: SequentView,
    from: nat,
    k0: nat,
    idx: int,
    k: nat,
)
    requires
        from <= idx < c.linear.len(),
        from == idx ==> k0 <= k,
        tensor_step(c, idx, k, first, second),
    ensures
        match first_split(c, first, second, from, k0) {
            Some((i, j)) => tensor_step(c, i as int, j, first, second),
            None => false,
        },
    decreases c.linear.len() - from, pow2((c.linear.len() - 1) as nat) - k0,
{
    let width = pow2((c.linear.len() - 1) as nat);
    assert(c.linear.remove(idx).len() == c.linear.len() - 1);
    if !(c.linear[from as int] is Tensor) || k0 >= width {
        lemma_first_split_finds(c, first, second, from + 1, 0, idx, k);
    } else if !tensor_step(c, from as int, k0, first, second) {
        lemma_first_split_finds(c, first, second, from, k0 + 1, idx, k);
    }
}

/// Where a structural rule leads from `c` to `premise` at some position,
/// the first such position is found.
pub proof fn lemma_first_structural_finds(
    c: SequentView,
    rule: RuleView,
    premise: SequentView,
    from: nat,
    i: int,
)
    requires
        from <= i < c.unrestricted.len(),
        structural_step(c, rule, i, premise),
    ensures
        from <= first_structural(c, rule, premise, from) <= i,
    decreases i - from,
{
    if !structural_step(c, rule, from as int, premise) {
        lemma_first_structural_finds(c, rule, premise, (from + 1) as nat, i);
    }
}

/// A variable that is none of the fresh ones from some number on is none of
/// those from a later number on, and is not the fresh variable of any such
/// number.
pub proof fn lemma_not_fresh(v: Seq<char>, from: nat, n: nat)
    requires
        !is_fresh(v, from),
        n >= from,
    ensures
        !is_fresh(v, n),
        v != fresh_name(n),
        occurrences(fresh(n), v) == 0,
{
    if is_fresh(v, n) {
        let m = choose|m: nat| m >= n && v == #[trigger] fresh_name(m);
        assert(m >= from && v == fresh_name(m));
    }
    if v == fresh_name(n) {
        assert(n >= from && v == fresh_name(n));
    }
}

/// The occurrences in two handles.
proof fn lemma_total_two(h: Handles, v: Seq<char>)
    requires
        h.len() == 2,
    ensures
        total(h, v) == held(h[0], v) + held(h[1], v),
{
    assert(h.drop_last().len() == 1);
    assert(h.drop_last().drop_last().len() == 0);
    assert(total(h.drop_last(), v) == total(h.drop_last().drop_last(), v) + held(
        h.drop_last().last(),
        v,
    ));
}

/// An axiom uses what its two formulas hold.
proof fn lemma_axiom_linear(linear: Seq<FormulaView>, hyps: Handles, counter: nat, v: Seq<char>)
    requires
        hyps.len() == 2,
        counter <= usize::MAX,
        !is_fresh(v, counter),
    ensures
        occurrences(axiom_term(linear, hyps, counter).term, v) == total(hyps, v),
        counter <= axiom_term(linear, hyps, counter).next <= usize::MAX,
{
    lemma_total_two(hyps, v);
    lemma_not_fresh(v, counter, counter);
    if hyps[0] is Some && hyps[1] is Some {
    } else if hyps[0] is Some {
        assert(first_handle(hyps, 0) == hyps[0]);
    } else if hyps[1] is Some {
        assert(first_handle(hyps, 1) == hyps[1]);
        assert(first_handle(hyps, 0) == hyps[1]);
    } else {
        assert(first_handle(hyps, 2) is None);
        assert(first_handle(hyps, 1) is None);
        assert(first_handle(hyps, 0) is None);
    }
}

/// Handles that do not hold a variable do not hold it when cut or filled
/// up.
pub proof fn lemma_fit_holds_nothing(h: Handles, n: nat, v: Seq<char>)
    requires
        total(h, v) == 0,
    ensures
        total(fit(h, n), v) == 0,
{
    lemma_total_zero(h, v);
    assert forall|i: int| 0 <= i < fit(h, n).len() implies held(#[trigger] fit(h, n)[i], v)
        == 0 by {
        if i < h.len() {
            assert(held(h[i], v) == 0);
        }
    }
    lemma_total_zero(fit(h, n), v);
}

/// The handles together hold a variable nowhere exactly when no handle
/// holds it.
pub proof fn lemma_total_zero(h: Handles, v: Seq<char>)
    ensures
        total(h, v) == 0 <==> forall|i: int| 0 <= i < h.len() ==> held(#[trigger] h[i], v) == 0,
    decreases h.len(),
{
    if h.len() > 0 {
        lemma_total_zero(h.drop_last(), v);
        if total(h, v) == 0 {
            assert forall|i: int| 0 <= i < h.len() implies held(#[trigger] h[i], v) == 0 by {
                if i < h.len() - 1 {
                    assert(h.drop_last()[i] == h[i]);
                }
            }
        }
        if forall|i: int| 0 <= i < h.len() ==> held(#[trigger] h[i], v) == 0 {
            assert forall|i: int| 0 <= i < h.drop_last().len() implies held(
                #[trigger] h.drop_last()[i],
                v,
            ) == 0 by {
                assert(h.drop_last()[i] == h[i]);
            }
            assert(held(h[h.len() - 1], v) == 0);
        }
    }
}

/// Settling keeps the unrestricted zone.
pub proof fn lemma_settle_keeps_unrestricted(seq: SequentView)
    ensures
        settle(seq).unrestricted == seq.unrestricted,
{
    lemma_settle_in_one_step(seq);
}

/// The unrestricted zones of the premises of a derivation: one formula
/// more above a why-not, one less above a structural rule, which finds its
/// formula in the zone, and else the zone of the conclusion.
pub proof fn lemma_premise_zones(p: ProofView)
    requires
        derivation(p),
    ensures
        p.premises.len() == arity(p.rule),
        !(p.rule is Cut || p.rule is FocusPositive || p.rule is FocusNegative || p.rule is Blur),
        forall|j: int| 0 <= j < p.premises.len() ==> derivation(#[trigger] p.premises[j]),
        forall|j: int|
            0 <= j < p.premises.len() ==> (#[trigger] p.premises[j]).conclusion.unrestricted.len()
                == (if p.rule is WhyNotIntro {
                (p.conclusion.unrestricted.len() + 1) as int
            } else if p.rule is Dereliction || p.rule is Contraction || p.rule is Weakening {
                p.conclusion.unrestricted.len() - 1
            } else {
                p.conclusion.unrestricted.len() as int
            }),
        p.rule is Dereliction || p.rule is Contraction || p.rule is Weakening ==> first_structural(
            p.conclusion,
            p.rule,
            p.premises[0].conclusion,
            0,
        ) < p.conclusion.unrestricted.len(),
{
    let c = p.conclusion;
    assert(conclusions(p.premises).len() == p.premises.len());
    assert(step(c, p.rule, conclusions(p.premises)));
    if p.premises.len() >= 1 {
        assert(conclusions(p.premises)[0] == p.premises[0].conclusion);
    }
    if p.premises.len() >= 2 {
        assert(conclusions(p.premises)[1] == p.premises[1].conclusion);
    }
    match p.rule {
        RuleView::BottomIntro => {
            let w = choose|w: int| #[trigger] bottom_step(c, w, p.premises[0].conclusion);
            lemma_settle_keeps_unrestricted(goal(c.linear.remove(w), c.unrestricted));
        },
        RuleView::WhyNotIntro => {
            let w = choose|w: int| #[trigger] why_not_step(c, w, p.premises[0].conclusion);
            lemma_settle_keeps_unrestricted(
                goal(c.linear.remove(w), c.unrestricted.push(*c.linear[w]->WhyNot_0)),
            );
        },
        RuleView::ParIntro => {
            let w = choose|w: int| #[trigger] par_step(c, w, p.premises[0].conclusion);
            lemma_settle_keeps_unrestricted(
                goal(
                    c.linear.remove(w).push(*c.linear[w]->Par_0).push(*c.linear[w]->Par_1),
                    c.unrestricted,
                ),
            );
        },
        RuleView::WithIntro => {
            let w = choose|w: int|
                #[trigger] with_step(c, w, p.premises[0].conclusion, p.premises[1].conclusion);
            lemma_settle_keeps_unrestricted(
                goal(c.linear.remove(w).push(*c.linear[w]->With_0), c.unrestricted),
            );
            lemma_settle_keeps_unrestricted(
                goal(c.linear.remove(w).push(*c.linear[w]->With_1), c.unrestricted),
            );
        },
        RuleView::TensorIntro => {
            let (wi, wk) = choose|wi: int, wk: nat|
                #[trigger] tensor_step(
                    c,
                    wi,
                    wk,
                    p.premises[0].conclusion,
                    p.premises[1].conclusion,
                );
            lemma_settle_keeps_unrestricted(tensor_left(c, wi, wk));
            lemma_settle_keeps_unrestricted(tensor_right(c, wi, wk));
        },
        RuleView::PlusIntroLeft => {
            let w = choose|w: int| #[trigger] plus_step(c, w, false, p.premises[0].conclusion);
            lemma_settle_keeps_unrestricted(
                goal(c.linear.update(w, *c.linear[w]->Plus_0), c.unrestricted),
            );
        },
        RuleView::PlusIntroRight => {
            let w = choose|w: int| #[trigger] plus_step(c, w, true, p.premises[0].conclusion);
            lemma_settle_keeps_unrestricted(
                goal(c.linear.update(w, *c.linear[w]->Plus_1), c.unrestricted),
            );
        },
        RuleView::OfCourseIntro => {
            lemma_settle_keeps_unrestricted(goal(seq![*c.linear[0]->OfCourse_0], c.unrestricted));
        },
        RuleView::Dereliction => {
            lemma_structural_zone(p);
        },
        RuleView::Contraction => {
            lemma_structural_zone(p);
        },
        RuleView::Weakening => {
            lemma_structural_zone(p);
        },
        _ => {},
    }
}

/// Above a structural rule the unrestricted zone is one formula shorter,
/// and the rule finds its formula in the zone.
proof fn lemma_structural_zone(p: ProofView)
    requires
        derivation(p),
        p.rule is Dereliction || p.rule is Contraction || p.rule is Weakening,
    ensures
        p.premises.len() == 1,
        p.premises[0].conclusion.unrestricted.len() == p.conclusion.unrestricted.len() - 1,
        first_structural(p.conclusion, p.rule, p.premises[0].conclusion, 0)
            < p.conclusion.unrestricted.len(),
{
    let c = p.conclusion;
    assert(conclusions(p.premises).len() == p.premises.len());
    assert(step(c, p.rule, conclusions(p.premises)));
    assert(conclusions(p.premises)[0] == p.premises[0].conclusion);
    let w = choose|w: int| #[trigger] structural_step(c, p.rule, w, p.premises[0].conclusion);
    lemma_settle_keeps_unrestricted(structural_premise(c, p.rule, w));
    lemma_first_structural_finds(c, p.rule, p.premises[0].conclusion, 0, w);
}

/// Nothing is drawn from handles that do not hold the variable.
pub proof fn lemma_drawn_nothing(p: ProofView, unrestricted: Handles, v: Seq<char>)
    requires
        total(unrestricted, v) == 0,
    ensures
        drawn(p, unrestricted, v) == 0,
    decreases p,
{
    let shared = fit(unrestricted, p.conclusion.unrestricted.len());
    lemma_fit_holds_nothing(unrestricted, p.conclusion.unrestricted.len(), v);
    if p.premises.len() == arity(p.rule) {
        match p.rule {
            RuleView::BottomIntro => {
                lemma_drawn_nothing(p.premises[0], shared, v);
            },
            RuleView::WhyNotIntro => {
                lemma_total_push(shared, None, v);
                lemma_drawn_nothing(p.premises[0], shared.push(None), v);
            },
            RuleView::ParIntro => {
                lemma_drawn_nothing(p.premises[0], shared, v);
            },
            RuleView::PlusIntroLeft => {
                lemma_drawn_nothing(p.premises[0], shared, v);
            },
            RuleView::PlusIntroRight => {
                lemma_drawn_nothing(p.premises[0], shared, v);
            },
            RuleView::OfCourseIntro => {
                lemma_drawn_nothing(p.premises[0], shared, v);
            },
            RuleView::WithIntro => {
                lemma_drawn_nothing(p.premises[0], shared, v);
                lemma_drawn_nothing(p.premises[1], shared, v);
            },
            RuleView::TensorIntro => {
                lemma_drawn_nothing(p.premises[0], shared, v);
                lemma_drawn_nothing(p.premises[1], shared, v);
            },
            RuleView::Dereliction => {
                lemma_drawn_nothing_above(p, shared, v);
            },
            RuleView::Contraction => {
                lemma_drawn_nothing_above(p, shared, v);
            },
            RuleView::Weakening => {
                lemma_drawn_nothing_above(p, shared, v);
            },
            _ => {},
        }
    }
}

/// The same at a structural rule.
proof fn lemma_drawn_nothing_above(p: ProofView, shared: Handles, v: Seq<char>)
    requires
        total(shared, v) == 0,
    ensures
        drawn_above(p, shared, v) == 0,
    decreases p.premises,
{
    if p.premises.len() == 1 {
        let i = first_structural(p.conclusion, p.rule, p.premises[0].conclusion, 0);
        if i < shared.len() {
            lemma_total_zero(shared, v);
            lemma_total_without(shared, i, v);
            lemma_drawn_nothing(p.premises[0], without(shared, i), v);
        }
    }
}

/// What is drawn from the handles is what is drawn from all but one of
/// them, and what that one holds, as often as the derivation works on its
/// formula by a structural rule.
pub proof fn lemma_drawn_at(p: ProofView, shared: Handles, k: int, v: Seq<char>)
    requires
        derivation(p),
        shared.len() == p.conclusion.unrestricted.len(),
        0 <= k < shared.len(),
    ensures
        drawn(p, shared, v) == drawn(p, shared.update(k, None), v) + held(shared[k], v) * draws(
            p,
            k,
        ),
    decreases p,
{
    let rest = shared.update(k, None);
    lemma_fit_same(shared);
    lemma_fit_same(rest);
    lemma_premise_zones(p);
    let w = held(shared[k], v);
    assert(w * 0 == 0);
    match p.rule {
        RuleView::BottomIntro => {
            lemma_drawn_at(p.premises[0], shared, k, v);
        },
        RuleView::WhyNotIntro => {
            assert(shared.push(None).update(k, None) =~= rest.push(None));
            lemma_drawn_at(p.premises[0], shared.push(None), k, v);
        },
        RuleView::ParIntro => {
            lemma_drawn_at(p.premises[0], shared, k, v);
        },
        RuleView::PlusIntroLeft => {
            lemma_drawn_at(p.premises[0], shared, k, v);
        },
        RuleView::PlusIntroRight => {
            lemma_drawn_at(p.premises[0], shared, k, v);
        },
        RuleView::OfCourseIntro => {
            lemma_drawn_at(p.premises[0], shared, k, v);
        },
        RuleView::WithIntro => {
            lemma_drawn_at(p.premises[0], shared, k, v);
            lemma_drawn_at(p.premises[1], shared, k, v);
            vstd::arithmetic::mul::lemma_mul_is_distributive_add(
                w as int,
                draws(p.premises[0], k) as int,
                draws(p.premises[1], k) as int,
            );
        },
        RuleView::TensorIntro => {
            lemma_drawn_at(p.premises[0], shared, k, v);
            lemma_drawn_at(p.premises[1], shared, k, v);
            vstd::arithmetic::mul::lemma_mul_is_distributive_add(
                w as int,
                draws(p.premises[0], k) as int,
                draws(p.premises[1], k) as int,
            );
        },
        RuleView::Dereliction => {
            lemma_drawn_at_above(p, shared, k, v);
        },
        RuleView::Contraction => {
            lemma_drawn_at_above(p, shared, k, v);
        },
        RuleView::Weakening => {
            lemma_drawn_at_above(p, shared, k, v);
        },
        _ => {},
    }
}

/// The same at a structural rule.
proof fn lemma_drawn_at_above(p: ProofView, shared: Handles, k: int, v: Seq<char>)
    requires
        derivation(p),
        p.rule is Dereliction || p.rule is Contraction || p.rule is Weakening,
        shared.len() == p.conclusion.unrestricted.len(),
        0 <= k < shared.len(),
    ensures
        drawn_above(p, shared, v) == drawn_above(p, shared.update(k, None), v) + held(
            shared[k],
            v,
        ) * draws_above(p, k),
    decreases p.premises,
{
    let rest = shared.update(k, None);
    lemma_premise_zones(p);
    let premise = p.premises[0];
    let i = first_structural(p.conclusion, p.rule, premise.conclusion, 0);
    let w = held(shared[k], v);
    assert(w * 1 == w);
    if k == i {
        assert(without(rest, i) =~= without(shared, i));
        assert(draws_above(p, k) == 1);
    } else if k < i {
        assert(without(rest, i) =~= without(shared, i).update(k, None));
        lemma_drawn_at(premise, without(shared, i), k, v);
        assert(draws_above(p, k) == draws(premise, k));
        assert(without(shared, i)[k] == shared[k]);
    } else {
        assert(without(rest, i) =~= without(shared, i).update(k - 1, None));
        lemma_drawn_at(premise, without(shared, i), k - 1, v);
        assert(draws_above(p, k) == draws(premise, k - 1));
        assert(without(shared, i)[k - 1] == shared[k]);
    }
}

/// The term of a derivation uses what the handles of its conclusion hold,
/// no more and no less, of every variable that the derivation spares: a
/// variable that is none of the fresh ones occurs free in the term as often
/// as in the linear handles together, and as often again as the structural
/// rules draw it from the unrestricted handles.
pub proof fn lemma_extract_uses_handles(
    p: ProofView,
    linear: Handles,
    unrestricted: Handles,
    counter: nat,
    v: Seq<char>,
)
    requires
        derivation(p),
        spares(p, linear, unrestricted, counter, v),
        linear.len() == p.conclusion.linear.len(),
        counter <= usize::MAX,
        !is_fresh(v, counter),
    ensures
        occurrences(extract_node(p, linear, unrestricted, counter).term, v) == total(linear, v)
            + drawn(p, unrestricted, v),
        counter <= extract_node(p, linear, unrestricted, counter).next <= usize::MAX,
    decreases p, 1nat,
{
    reveal(extract_node);
    reveal(extract_par);
    reveal(extract_with);
    reveal(extract_tensor);
    reveal(extract_plus);
    reveal(extract_of_course);
    reveal(extract_structural);
    let c = p.conclusion;
    let shared = fit(unrestricted, c.unrestricted.len());
    lemma_fit_same(linear);
    lemma_fit_same(shared);
    assert(spares(p, linear, shared, counter, v));
    assert(drawn(p, unrestricted, v) == drawn(p, shared, v));
    assert(conclusions(p.premises).len() == p.premises.len());
    assert(step(c, p.rule, conclusions(p.premises)));
    assert(p.premises.len() == arity(p.rule));
    match p.rule {
        RuleView::Axiom => {
            lemma_axiom_linear(c.linear, linear, counter, v);
        },
        RuleView::OneIntro => {},
        RuleView::TopIntro => {},
        RuleView::BottomIntro => {
            lemma_dropping_uses_handles(p, linear, shared, counter, v);
        },
        RuleView::WhyNotIntro => {
            lemma_dropping_uses_handles(p, linear, shared, counter, v);
        },
        RuleView::ParIntro => {
            lemma_par_uses_handles(p, linear, shared, counter, v);
        },
        RuleView::WithIntro => {
            lemma_with_uses_handles(p, linear, shared, counter, v);
        },
        RuleView::TensorIntro => {
            lemma_tensor_uses_handles(p, linear, shared, counter, v);
        },
        RuleView::PlusIntroLeft => {
            lemma_plus_uses_handles(p, linear, shared, counter, false, v);
        },
        RuleView::PlusIntroRight => {
            lemma_plus_uses_handles(p, linear, shared, counter, true, v);
        },
        RuleView::OfCourseIntro => {
            lemma_of_course_uses_handles(p, linear, shared, counter, v);
        },
        RuleView::Dereliction => {
            lemma_structural_uses_handles(p, linear, shared, counter, v);
        },
        RuleView::Contraction => {
            lemma_structural_uses_handles(p, linear, shared, counter, v);
        },
        RuleView::Weakening => {
            lemma_structural_uses_handles(p, linear, shared, counter, v);
        },
        _ => {},
    }
}

/// The same for handles of any length: they count as cut or filled up to
/// the length of the linear zone.
pub proof fn lemma_extract_uses_fitted(
    p: ProofView,
    linear: Handles,
    unrestricted: Handles,
    counter: nat,
    v: Seq<char>,
)
    requires
        derivation(p),
        spares(p, linear, unrestricted, counter, v),
        counter <= usize::MAX,
        !is_fresh(v, counter),
    ensures
        occurrences(extract_node(p, linear, unrestricted, counter).term, v) == total(
            fit(linear, p.conclusion.linear.len()),
            v,
        ) + drawn(p, unrestricted, v),
        counter <= extract_node(p, linear, unrestricted, counter).next <= usize::MAX,
    decreases p, 2nat,
{
    let fitted = fit(linear, p.conclusion.linear.len());
    lemma_fit_same(fitted);
    assert(extract_node(p, linear, unrestricted, counter) == extract_node(
        p,
        fitted,
        unrestricted,
        counter,
    )) by {
        reveal(extract_node);
    }
    assert(spares(p, fitted, unrestricted, counter, v));
    lemma_extract_uses_handles(p, fitted, unrestricted, counter, v);
}

/// A bottom or a why-not whose handle does not hold the variable: the
/// other handles are used as they are.
proof fn lemma_dropping_uses_handles(
    p: ProofView,
    hyps: Handles,
    shared: Handles,
    counter: nat,
    v: Seq<char>,
)
    requires
        derivation(p),
        p.rule is BottomIntro || p.rule is WhyNotIntro,
        spares(p, hyps, shared, counter, v),
        hyps.len() == p.conclusion.linear.len(),
        shared.len() == p.conclusion.unrestricted.len(),
        counter <= usize::MAX,
        !is_fresh(v, counter),
    ensures
        ({
            let i = first_decomposed(p.conclusion.linear, p.rule, 0);
            let below = extract_node(
                p.premises[0],
                without(hyps, i),
                if p.rule is WhyNotIntro {
                    shared.push(hyps[i as int])
                } else {
                    shared
                },
                counter,
            );
            &&& i < hyps.len()
            &&& occurrences(below.term, v) == total(hyps, v) + drawn(p, shared, v)
            &&& counter <= below.next <= usize::MAX
        }),
    decreases p, 0nat,
{
    let c = p.conclusion;
    lemma_fit_same(hyps);
    lemma_fit_same(shared);
    assert(conclusions(p.premises).len() == p.premises.len());
    assert(step(c, p.rule, conclusions(p.premises)));
    let premise = p.premises[0];
    assert(conclusions(p.premises)[0] == premise.conclusion);
    assert(derivation(premise));
    let i = first_decomposed(c.linear, p.rule, 0);
    lemma_total_without(hyps, i, v);
    if p.rule is BottomIntro {
        let w = choose|w: int| #[trigger] bottom_step(c, w, premise.conclusion);
        lemma_settle_keeps_len(goal(c.linear.remove(w), c.unrestricted));
        lemma_extract_uses_handles(premise, without(hyps, i), shared, counter, v);
    } else {
        let w = choose|w: int| #[trigger] why_not_step(c, w, premise.conclusion);
        lemma_settle_keeps_len(
            goal(c.linear.remove(w), c.unrestricted.push(*c.linear[w]->WhyNot_0)),
        );
        lemma_extract_uses_handles(
            premise,
            without(hyps, i),
            shared.push(hyps[i as int]),
            counter,
            v,
        );
        lemma_premise_zones(p);
        let pushed = shared.push(hyps[i as int]);
        let k = shared.len() as int;
        lemma_drawn_at(premise, pushed, k, v);
        assert(pushed.update(k, None) =~= shared.push(None));
        let w = held(hyps[i as int], v);
        assert(w * 1 == w);
        assert(0 * draws(premise, k) == 0);
        assert(w * draws(premise, k) == w);
    }
}

/// The with rule, where the handles that go to both premises do not hold
/// the variable, uses what the handle of the with holds.
proof fn lemma_with_uses_handles(
    p: ProofView,
    hyps: Handles,
    shared: Handles,
    counter: nat,
    v: Seq<char>,
)
    requires
        derivation(p),
        p.rule is WithIntro,
        spares_with(p, hyps, shared, counter, v),
        hyps.len() == p.conclusion.linear.len(),
        shared.len() == p.conclusion.unrestricted.len(),
        counter <= usize::MAX,
        !is_fresh(v, counter),
    ensures
        occurrences(extract_with(p, hyps, shared, counter).term, v) == total(hyps, v)
            + drawn(p, shared, v),
        counter <= extract_with(p, hyps, shared, counter).next <= usize::MAX,
    decreases p, 0nat,
{
    reveal(extract_with);
    reveal(extract_node);
    lemma_fit_same(shared);
    let c = p.conclusion;
    assert(conclusions(p.premises).len() == p.premises.len());
    assert(step(c, p.rule, conclusions(p.premises)));
    let left = p.premises[0];
    let right = p.premises[1];
    assert(conclusions(p.premises)[0] == left.conclusion);
    assert(conclusions(p.premises)[1] == right.conclusion);
    assert(derivation(left) && derivation(right));
    let w = choose|w: int| #[trigger] with_step(c, w, left.conclusion, right.conclusion);
    lemma_settle_keeps_len(goal(c.linear.remove(w).push(*c.linear[w]->With_0), c.unrestricted));
    lemma_settle_keeps_len(goal(c.linear.remove(w).push(*c.linear[w]->With_1), c.unrestricted));
    let i = first_decomposed(c.linear, p.rule, 0);
    let rest = without(hyps, i);
    let x = bump(counter);
    let y = bump(x);
    lemma_not_fresh(v, counter, counter);
    lemma_not_fresh(v, counter, x);
    lemma_not_fresh(v, counter, y);
    lemma_total_without(hyps, i, v);
    if hyps[i as int] is Some {
        let lh = rest.push(Some(fresh(counter)));
        let rh = rest.push(Some(fresh(x)));
        lemma_total_push(rest, Some(fresh(counter)), v);
        lemma_total_push(rest, Some(fresh(x)), v);
        lemma_extract_uses_handles(left, lh, shared, y, v);
        let first = extract_node(left, lh, shared, y);
        lemma_not_fresh(v, counter, first.next);
        lemma_extract_uses_handles(right, rh, shared, first.next, v);
    } else {
        let inner = rest.push(None);
        lemma_total_push(rest, None, v);
        lemma_extract_uses_handles(left, inner, shared, counter, v);
        let first = extract_node(left, inner, shared, counter);
        lemma_not_fresh(v, counter, first.next);
        lemma_extract_uses_handles(right, inner, shared, first.next, v);
    }
}

/// The of-course rule uses what its handle holds.
proof fn lemma_of_course_uses_handles(
    p: ProofView,
    hyps: Handles,
    shared: Handles,
    counter: nat,
    v: Seq<char>,
)
    requires
        derivation(p),
        p.rule is OfCourseIntro,
        spares_of_course(p, hyps, shared, counter, v),
        hyps.len() == p.conclusion.linear.len(),
        shared.len() == p.conclusion.unrestricted.len(),
        counter <= usize::MAX,
        !is_fresh(v, counter),
    ensures
        occurrences(extract_of_course(p, hyps, shared, counter).term, v) == total(hyps, v)
            + drawn(p, shared, v),
        counter <= extract_of_course(p, hyps, shared, counter).next <= usize::MAX,
    decreases p, 0nat,
{
    reveal(extract_of_course);
    reveal(extract_node);
    lemma_fit_same(shared);
    reveal_with_fuel(total, 3);
    let c = p.conclusion;
    assert(conclusions(p.premises).len() == p.premises.len());
    assert(step(c, p.rule, conclusions(p.premises)));
    let premise = p.premises[0];
    assert(conclusions(p.premises)[0] == premise.conclusion);
    assert(derivation(premise));
    lemma_settle_keeps_len(goal(seq![*c.linear[0]->OfCourse_0], c.unrestricted));
    assert(hyps.drop_last().len() == 0);
    if hyps[0] is Some {
        let inner = seq![Some(TermView::Derelict(Box::new(hyps[0]->0)))];
        assert(inner.drop_last().len() == 0);
        lemma_extract_uses_handles(premise, inner, shared, counter, v);
    } else {
        let none = Seq::<Option<TermView>>::empty();
        lemma_fit_holds_nothing(none, premise.conclusion.linear.len(), v);
        lemma_extract_uses_fitted(premise, none, shared, counter, v);
    }
}

/// A structural rule uses what the linear handles hold: the unrestricted
/// handle that it works on does not hold the variable.
proof fn lemma_structural_uses_handles(
    p: ProofView,
    hyps: Handles,
    shared: Handles,
    counter: nat,
    v: Seq<char>,
)
    requires
        derivation(p),
        p.rule is Dereliction || p.rule is Contraction || p.rule is Weakening,
        spares_structural(p, hyps, shared, counter, v),
        hyps.len() == p.conclusion.linear.len(),
        shared.len() == p.conclusion.unrestricted.len(),
        counter <= usize::MAX,
        !is_fresh(v, counter),
    ensures
        occurrences(extract_structural(p, hyps, shared, counter).term, v) == total(hyps, v)
            + drawn(p, shared, v),
        counter <= extract_structural(p, hyps, shared, counter).next <= usize::MAX,
    decreases p, 0nat,
{
    reveal(extract_structural);
    reveal(extract_node);
    lemma_fit_same(shared);
    let c = p.conclusion;
    assert(conclusions(p.premises).len() == p.premises.len());
    assert(step(c, p.rule, conclusions(p.premises)));
    let premise = p.premises[0];
    assert(conclusions(p.premises)[0] == premise.conclusion);
    assert(derivation(premise));
    let w = choose|w: int| #[trigger] structural_step(c, p.rule, w, premise.conclusion);
    lemma_settle_keeps_len(structural_premise(c, p.rule, w));
    let i = first_structural(c, p.rule, premise.conclusion, 0);
    let rest = without(shared, i);
    let x = bump(counter);
    let y = bump(x);
    lemma_not_fresh(v, counter, counter);
    lemma_not_fresh(v, counter, x);
    lemma_not_fresh(v, counter, y);
    assert(drawn(p, shared, v) == drawn_above(p, shared, v));
    assert(drawn_above(p, shared, v) == held(shared[i as int], v) + drawn(premise, rest, v));
    match p.rule {
        RuleView::Dereliction => {
            let used = match shared[i as int] {
                Some(h) => Some(TermView::Derelict(Box::new(h))),
                None => None,
            };
            lemma_total_push(hyps, used, v);
            lemma_extract_uses_handles(premise, hyps.push(used), rest, counter, v);
        },
        RuleView::Contraction => {
            if shared[i as int] is Some {
                let one = Some(TermView::Derelict(Box::new(fresh(counter))));
                let two = Some(TermView::Derelict(Box::new(fresh(x))));
                lemma_total_push(hyps, one, v);
                lemma_total_push(hyps.push(one), two, v);
                lemma_extract_uses_handles(premise, hyps.push(one).push(two), rest, y, v);
            } else {
                lemma_total_push(hyps, None, v);
                lemma_total_push(hyps.push(None), None, v);
                lemma_extract_uses_handles(premise, hyps.push(None).push(None), rest, counter, v);
            }
        },
        _ => {
            lemma_extract_uses_handles(premise, hyps, rest, counter, v);
        },
    }
}

/// The par rule uses what the handles hold.
proof fn lemma_par_uses_handles(
    p: ProofView,
    hyps: Handles,
    shared: Handles,
    counter: nat,
    v: Seq<char>,
)
    requires
        derivation(p),
        p.rule is ParIntro,
        spares_par(p, hyps, shared, counter, v),
        hyps.len() == p.conclusion.linear.len(),
        shared.len() == p.conclusion.unrestricted.len(),
        counter <= usize::MAX,
        !is_fresh(v, counter),
    ensures
        occurrences(extract_par(p, hyps, shared, counter).term, v) == total(hyps, v)
            + drawn(p, shared, v),
        counter <= extract_par(p, hyps, shared, counter).next <= usize::MAX,
    decreases p, 0nat,
{
    reveal(extract_par);
    reveal(extract_node);
    lemma_fit_same(shared);
    let c = p.conclusion;
    assert(conclusions(p.premises).len() == p.premises.len());
    assert(step(c, p.rule, conclusions(p.premises)));
    assert(p.premises.len() == 1);
    assert(derivation(p.premises[0]));
    let premise = p.premises[0];
    assert(conclusions(p.premises)[0] == premise.conclusion);
    let w = choose|w: int| #[trigger] par_step(c, w, premise.conclusion);
    lemma_first_decomposed_finds(c.linear, p.rule, 0, w);
    lemma_settle_keeps_len(
        goal(
            c.linear.remove(w).push(*c.linear[w]->Par_0).push(*c.linear[w]->Par_1),
            c.unrestricted,
        ),
    );
    let i = first_decomposed(c.linear, p.rule, 0);
    let x = bump(counter);
    let y = bump(x);
    lemma_not_fresh(v, counter, counter);
    lemma_not_fresh(v, counter, x);
    lemma_not_fresh(v, counter, y);
    lemma_total_without(hyps, i, v);
    match hyps[i as int] {
        Some(h) => {
            let inner = without(hyps, i).push(Some(fresh(counter))).push(Some(fresh(x)));
            lemma_total_push(without(hyps, i), Some(fresh(counter)), v);
            lemma_total_push(without(hyps, i).push(Some(fresh(counter))), Some(fresh(x)), v);
            lemma_extract_uses_handles(premise, inner, shared, y, v);
        },
        None => {
            let inner = without(hyps, i).push(Some(fresh(counter))).push(None);
            lemma_total_push(without(hyps, i), Some(fresh(counter)), v);
            lemma_total_push(without(hyps, i).push(Some(fresh(counter))), None, v);
            lemma_extract_uses_handles(premise, inner, shared, x, v);
        },
    }
}

/// The tensor rule uses what the handles hold.
proof fn lemma_tensor_uses_handles(
    p: ProofView,
    hyps: Handles,
    shared: Handles,
    counter: nat,
    v: Seq<char>,
)
    requires
        derivation(p),
        p.rule is TensorIntro,
        spares_tensor(p, hyps, shared, counter, v),
        hyps.len() == p.conclusion.linear.len(),
        shared.len() == p.conclusion.unrestricted.len(),
        counter <= usize::MAX,
        !is_fresh(v, counter),
    ensures
        occurrences(extract_tensor(p, hyps, shared, counter).term, v) == total(hyps, v)
            + drawn(p, shared, v),
        counter <= extract_tensor(p, hyps, shared, counter).next <= usize::MAX,
    decreases p, 0nat,
{
    reveal(extract_tensor);
    reveal(extract_node);
    lemma_fit_same(shared);
    let c = p.conclusion;
    assert(conclusions(p.premises).len() == p.premises.len());
    assert(step(c, p.rule, conclusions(p.premises)));
    assert(p.premises.len() == 2);
    assert(derivation(p.premises[0]));
    assert(derivation(p.premises[1]));
    let left = p.premises[0];
    let right = p.premises[1];
    assert(conclusions(p.premises)[0] == left.conclusion);
    assert(conclusions(p.premises)[1] == right.conclusion);
    let (wi, wk) = choose|wi: int, wk: nat|
        #[trigger] tensor_step(c, wi, wk, left.conclusion, right.conclusion);
    lemma_first_split_finds(c, left.conclusion, right.conclusion, 0, 0, wi, wk);
    let found = first_split(c, left.conclusion, right.conclusion, 0, 0)->0;
    let idx = found.0;
    let k = found.1;
    assert(tensor_step(c, idx as int, k, left.conclusion, right.conclusion));
    let others = without(hyps, idx);
    let rest = c.linear.remove(idx as int);
    let bits = mask_bits(k, others.len());
    lemma_mask_len(k, others.len());
    lemma_settle_keeps_len(tensor_left(c, idx as int, k));
    lemma_settle_keeps_len(tensor_right(c, idx as int, k));
    lemma_pick_len(others, rest, bits, false);
    lemma_pick_len(others, rest, bits, true);
    lemma_total_pick(others, bits, v);
    lemma_total_without(hyps, idx, v);
    let lh = pick(others, bits, false);
    let rh = pick(others, bits, true);
    lemma_total_push(lh, None, v);
    lemma_extract_uses_handles(left, lh.push(None), shared, counter, v);
    let first = extract_node(left, lh.push(None), shared, counter);
    lemma_not_fresh(v, counter, first.next);
    if hyps[idx as int] is Some {
        let applied = Some(TermView::App(Box::new(hyps[idx as int]->0), Box::new(first.term)));
        lemma_total_push(rh, applied, v);
        lemma_extract_uses_handles(right, rh.push(applied), shared, first.next, v);
    } else {
        lemma_total_push(rh, None, v);
        lemma_extract_uses_handles(right, rh.push(None), shared, first.next, v);
    }
}

/// The plus rules use what the handles hold.
proof fn lemma_plus_uses_handles(
    p: ProofView,
    hyps: Handles,
    shared: Handles,
    counter: nat,
    right: bool,
    v: Seq<char>,
)
    requires
        derivation(p),
        right ==> p.rule is PlusIntroRight,
        !right ==> p.rule is PlusIntroLeft,
        spares_plus(p, hyps, shared, counter, right, v),
        hyps.len() == p.conclusion.linear.len(),
        shared.len() == p.conclusion.unrestricted.len(),
        counter <= usize::MAX,
        !is_fresh(v, counter),
    ensures
        occurrences(extract_plus(p, hyps, shared, counter, right).term, v) == total(hyps, v)
            + drawn(p, shared, v),
        counter <= extract_plus(p, hyps, shared, counter, right).next <= usize::MAX,
    decreases p, 0nat,
{
    reveal(extract_plus);
    reveal(extract_node);
    lemma_fit_same(shared);
    let c = p.conclusion;
    assert(conclusions(p.premises).len() == p.premises.len());
    assert(step(c, p.rule, conclusions(p.premises)));
    assert(p.premises.len() == 1);
    assert(derivation(p.premises[0]));
    let premise = p.premises[0];
    assert(conclusions(p.premises)[0] == premise.conclusion);
    let w = choose|w: int| #[trigger] plus_step(c, w, right, premise.conclusion);
    lemma_first_plus_finds(c, right, premise.conclusion, 0, w);
    let idx = first_plus(c, right, premise.conclusion, 0);
    lemma_settle_keeps_len(
        goal(
            c.linear.update(
                idx as int,
                if right {
                    *c.linear[idx as int]->Plus_1
                } else {
                    *c.linear[idx as int]->Plus_0
                },
            ),
            c.unrestricted,
        ),
    );
    if hyps[idx as int] is Some {
        let side = Some(
            if right {
                TermView::Snd(Box::new(hyps[idx as int]->0))
            } else {
                TermView::Fst(Box::new(hyps[idx as int]->0))
            },
        );
        lemma_total_update(hyps, idx as int, side, v);
        lemma_extract_uses_handles(premise, hyps.update(idx as int, side), shared, counter, v);
    } else {
        lemma_extract_uses_handles(premise, hyps, shared, counter, v);
    }
}

/// The name of the argument with the given number.
pub open spec fn argument_name(i: nat) -> Seq<char> {
    "arg"@ + decimal(i)
}

/// No argument is one of the extractor's fresh variables, and different
/// arguments have different names.
pub proof fn lemma_argument_names(i: nat, j: nat, from: nat)
    ensures
        !is_fresh(argument_name(i), from),
        argument_name(i) == argument_name(j) ==> i == j,
{
    reveal_strlit("arg");
    reveal_strlit("x");
    if is_fresh(argument_name(i), from) {
        let n = choose|n: nat| n >= from && argument_name(i) == #[trigger] fresh_name(n);
        assert(argument_name(i)[0] == 'a');
        assert(fresh_name(n)[0] == 'x');
    }
    if argument_name(i) == argument_name(j) {
        lemma_same_front("arg"@, decimal(i), decimal(j));
        lemma_decimal_injective(i, j);
    }
}

/// The handles at the root hold each argument once.
pub proof fn lemma_root_holds_once(n: nat, inputs: nat, i: nat)
    ensures
        total(root_handles(n, inputs), argument_name(i)) == (if i < n && i < inputs {
            1nat
        } else {
            0nat
        }),
    decreases n,
{
    if n > 0 {
        let m = (n - 1) as nat;
        assert(root_handles(n, inputs).drop_last() =~= root_handles(m, inputs));
        lemma_root_holds_once(m, inputs, i);
        lemma_argument_names(m, i, 0);
    }
}

/// A derivation made of rules that keep every linear handle spares every
/// variable, whatever the handles hold.
pub proof fn lemma_fragment_spares(
    p: ProofView,
    linear: Handles,
    unrestricted: Handles,
    counter: nat,
    v: Seq<char>,
)
    requires
        derivation(p),
        fragment(p),
    ensures
        spares(p, linear, unrestricted, counter, v),
    decreases p,
{
    let c = p.conclusion;
    let hyps = fit(linear, c.linear.len());
    let shared = fit(unrestricted, c.unrestricted.len());
    assert(conclusions(p.premises).len() == p.premises.len());
    assert(step(c, p.rule, conclusions(p.premises)));
    if p.premises.len() >= 1 {
        assert(conclusions(p.premises)[0] == p.premises[0].conclusion);
        assert(derivation(p.premises[0]) && fragment(p.premises[0]));
    }
    if p.premises.len() >= 2 {
        assert(conclusions(p.premises)[1] == p.premises[1].conclusion);
        assert(derivation(p.premises[1]) && fragment(p.premises[1]));
    }
    match p.rule {
        RuleView::ParIntro => {
            let premise = p.premises[0];
            let w = choose|w: int| #[trigger] par_step(c, w, premise.conclusion);
            lemma_first_decomposed_finds(c.linear, p.rule, 0, w);
            let i = first_decomposed(c.linear, p.rule, 0);
            let x = bump(counter);
            if hyps[i as int] is Some {
                lemma_fragment_spares(
                    premise,
                    without(hyps, i).push(Some(fresh(counter))).push(Some(fresh(x))),
                    shared,
                    bump(x),
                    v,
                );
            } else {
                lemma_fragment_spares(
                    premise,
                    without(hyps, i).push(Some(fresh(counter))).push(None),
                    shared,
                    x,
                    v,
                );
            }
            assert(spares_par(p, hyps, shared, counter, v));
        },
        RuleView::TensorIntro => {
            let left = p.premises[0];
            let right = p.premises[1];
            let (wi, wk) = choose|wi: int, wk: nat|
                #[trigger] tensor_step(c, wi, wk, left.conclusion, right.conclusion);
            lemma_first_split_finds(c, left.conclusion, right.conclusion, 0, 0, wi, wk);
            let found = first_split(c, left.conclusion, right.conclusion, 0, 0)->0;
            let idx = found.0;
            let others = without(hyps, idx);
            let bits = mask_bits(found.1, others.len());
            let lh = pick(others, bits, false).push(None);
            let first = extract_node(left, lh, shared, counter);
            lemma_fragment_spares(left, lh, shared, counter, v);
            lemma_fragment_spares(
                right,
                pick(others, bits, true).push(
                    if hyps[idx as int] is Some {
                        Some(TermView::App(Box::new(hyps[idx as int]->0), Box::new(first.term)))
                    } else {
                        None
                    },
                ),
                shared,
                first.next,
                v,
            );
            assert(spares_tensor(p, hyps, shared, counter, v));
        },
        RuleView::PlusIntroLeft => {
            lemma_fragment_spares_plus(p, hyps, shared, counter, false, v);
        },
        RuleView::PlusIntroRight => {
            lemma_fragment_spares_plus(p, hyps, shared, counter, true, v);
        },
        RuleView::OfCourseIntro => {
            let premise = p.premises[0];
            if hyps[0] is Some {
                lemma_fragment_spares(
                    premise,
                    seq![Some(TermView::Derelict(Box::new(hyps[0]->0)))],
                    shared,
                    counter,
                    v,
                );
            } else {
                lemma_fragment_spares(premise, Seq::empty(), shared, counter, v);
            }
            assert(spares_of_course(p, hyps, shared, counter, v));
        },
        RuleView::Dereliction => {
            lemma_fragment_spares_structural(p, hyps, shared, counter, v);
        },
        RuleView::Contraction => {
            lemma_fragment_spares_structural(p, hyps, shared, counter, v);
        },
        RuleView::Weakening => {
            lemma_fragment_spares_structural(p, hyps, shared, counter, v);
        },
        _ => {},
    }
}

/// The plus rule of such a derivation spares every variable.
proof fn lemma_fragment_spares_plus(
    p: ProofView,
    hyps: Handles,
    shared: Handles,
    counter: nat,
    right: bool,
    v: Seq<char>,
)
    requires
        derivation(p),
        fragment(p),
        right ==> p.rule is PlusIntroRight,
        !right ==> p.rule is PlusIntroLeft,
        hyps.len() == p.conclusion.linear.len(),
    ensures
        spares_plus(p, hyps, shared, counter, right, v),
    decreases p.premises,
{
    let c = p.conclusion;
    assert(conclusions(p.premises).len() == p.premises.len());
    assert(step(c, p.rule, conclusions(p.premises)));
    let premise = p.premises[0];
    assert(conclusions(p.premises)[0] == premise.conclusion);
    assert(derivation(premise) && fragment(premise));
    let w = choose|w: int| #[trigger] plus_step(c, w, right, premise.conclusion);
    lemma_first_plus_finds(c, right, premise.conclusion, 0, w);
    let idx = first_plus(c, right, premise.conclusion, 0);
    if hyps[idx as int] is Some {
        let side = Some(
            if right {
                TermView::Snd(Box::new(hyps[idx as int]->0))
            } else {
                TermView::Fst(Box::new(hyps[idx as int]->0))
            },
        );
        lemma_fragment_spares(premise, hyps.update(idx as int, side), shared, counter, v);
    } else {
        lemma_fragment_spares(premise, hyps, shared, counter, v);
    }
}

/// A structural rule of such a derivation spares every variable.
proof fn lemma_fragment_spares_structural(
    p: ProofView,
    hyps: Handles,
    shared: Handles,
    counter: nat,
    v: Seq<char>,
)
    requires
        derivation(p),
        fragment(p),
        p.rule is Dereliction || p.rule is Contraction || p.rule is Weakening,
        shared.len() == p.conclusion.unrestricted.len(),
    ensures
        spares_structural(p, hyps, shared, counter, v),
    decreases p.premises,
{
    let c = p.conclusion;
    assert(conclusions(p.premises).len() == p.premises.len());
    assert(step(c, p.rule, conclusions(p.premises)));
    let premise = p.premises[0];
    assert(conclusions(p.premises)[0] == premise.conclusion);
    assert(derivation(premise) && fragment(premise));
    let w = choose|w: int| #[trigger] structural_step(c, p.rule, w, premise.conclusion);
    lemma_first_structural_finds(c, p.rule, premise.conclusion, 0, w);
    let i = first_structural(c, p.rule, premise.conclusion, 0);
    let rest = without(shared, i);
    let x = bump(counter);
    match p.rule {
        RuleView::Dereliction => {
            let used = match shared[i as int] {
                Some(h) => Some(TermView::Derelict(Box::new(h))),
                None => None,
            };
            lemma_fragment_spares(premise, hyps.push(used), rest, counter, v);
        },
        RuleView::Contraction => {
            if shared[i as int] is Some {
                lemma_fragment_spares(
                    premise,
                    hyps.push(Some(TermView::Derelict(Box::new(fresh(counter))))).push(
                        Some(TermView::Derelict(Box::new(fresh(x)))),
                    ),
                    rest,
                    bump(x),
                    v,
                );
            } else {
                lemma_fragment_spares(premise, hyps.push(None).push(None), rest, counter, v);
            }
        },
        _ => {
            lemma_fragment_spares(premise, hyps, rest, counter, v);
        },
    }
}

/// Linearity: the term extracted from a derivation uses exactly once each
/// of its arguments `arg0`, `arg1`, … that the derivation spares. This
/// holds of every rule of the calculus. An argument is not spared where a
/// one, a top or a bottom drops a handle that holds it, where a with hands
/// such a handle to both premises, or where a why-not moves such a handle to
/// the unrestricted zone and the structural rules above do not draw on it
/// exactly once.
pub proof fn lemma_spared_arguments_used_once(p: ProofView, inputs: nat, counter: nat, i: nat)
    requires
        derivation(p),
        counter <= usize::MAX,
        i < inputs <= p.conclusion.linear.len(),
        spares(
            p,
            root_handles(p.conclusion.linear.len(), inputs),
            Seq::empty(),
            counter,
            argument_name(i),
        ),
    ensures
        occurrences(extract_from(p, inputs, counter).term, argument_name(i)) == 1,
{
    let n = p.conclusion.linear.len();
    let none = Seq::<Option<TermView>>::empty();
    lemma_argument_names(i, i, counter);
    lemma_root_holds_once(n, inputs, i);
    lemma_drawn_nothing(p, none, argument_name(i));
    lemma_extract_uses_handles(p, root_handles(n, inputs), none, counter, argument_name(i));
}

/// Linearity where no rule drops, shares or doubles a linear formula: the
/// term extracted from a derivation by the axiom, the rules of tensor, par,
/// plus and of-course and the structural rules uses each of its arguments
/// `arg0`, `arg1`, … exactly once.
pub proof fn lemma_arguments_used_once(p: ProofView, inputs: nat, counter: nat, i: nat)
    requires
        derivation(p),
        fragment(p),
        counter <= usize::MAX,
        i < inputs <= p.conclusion.linear.len(),
    ensures
        occurrences(extract_from(p, inputs, counter).term, argument_name(i)) == 1,
{
    lemma_fragment_spares(
        p,
        root_handles(p.conclusion.linear.len(), inputs),
        Seq::empty(),
        counter,
        argument_name(i),
    );
    lemma_spared_arguments_used_once(p, inputs, counter, i);
}

} // verus!
