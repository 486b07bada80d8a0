//! Focused proof search: a depth-bounded, deterministic search for cut-free
//! proofs of one-sided sequents, with a cache of the sequents that failed.
//!
//! This module defines the search as mathematics: which proof it finds for
//! a sequent and which sequents it puts into the cache. The prover computes
//! exactly that.

use vstd::prelude::*;
use crate::formula::FormulaView;
use crate::proof_tree::{ProofView, RuleView};
use crate::sequent::{SequentView, pretty_each};
use crate::splits::{mask_bits, pick, pow2};
use crate::text::{in_order, lemma_sort_is_canonical, lemma_sort_texts, sort_texts};

verus! {

/// The key under which a sequent is cached: the texts of its zones, in order.
pub type Key = Seq<Seq<char>>;

/// What a search hands back: the proof it found, if any, the cache as the
/// search left it, and whether the search failed for want of depth: whether
/// it, or a search below it that made it fail, ran out of levels. A search
/// that found a proof did not.
pub ghost struct Outcome {
    pub proof: Option<ProofView>,
    pub cache: Set<Key>,
    pub starved: bool,
}

/// The settings of a search: the depth budget and whether failures are
/// cached.
pub ghost struct Limits {
    pub max_depth: nat,
    pub use_cache: bool,
}

/// Each unrestricted formula in Unicode symbols behind a `?`.
pub open spec fn marked_each(v: Seq<FormulaView>) -> Seq<Seq<char>> {
    Seq::new(v.len(), |i: int| "?"@ + v[i].pretty())
}

/// The canonical key of a sequent: the texts of its linear formulas and the
/// `?`-marked texts of its unrestricted formulas, in lexicographic order.
pub open spec fn key_of(seq: SequentView) -> Key {
    sort_texts(pretty_each(seq.linear) + marked_each(seq.unrestricted))
}

/// The key of a sequent is in lexicographic order and holds the text of
/// each formula as often as the formula occurs.
pub proof fn lemma_key_is_canonical(seq: SequentView)
    ensures
        in_order(key_of(seq)),
        key_of(seq).to_multiset() == (pretty_each(seq.linear) + marked_each(
            seq.unrestricted,
        )).to_multiset(),
{
    lemma_sort_texts(pretty_each(seq.linear) + marked_each(seq.unrestricted));
}

/// The key is canonical: two sequents have the same key exactly when their
/// zones hold the same texts, each as often, in whatever order.
pub proof fn lemma_same_key(a: SequentView, b: SequentView)
    ensures
        key_of(a) == key_of(b) <==> (pretty_each(a.linear) + marked_each(
            a.unrestricted,
        )).to_multiset() == (pretty_each(b.linear) + marked_each(b.unrestricted)).to_multiset(),
{
    let x = pretty_each(a.linear) + marked_each(a.unrestricted);
    let y = pretty_each(b.linear) + marked_each(b.unrestricted);
    lemma_sort_texts(x);
    lemma_sort_texts(y);
    if x.to_multiset() == y.to_multiset() {
        lemma_sort_is_canonical(x, y);
    }
}

/// Whether the formula is decomposed eagerly, in the asynchronous phase.
pub open spec fn is_async(f: FormulaView) -> bool {
    f is Par || f is Bottom || f is Top || f is With || f is WhyNot || f is Lolli
}

/// The position of the first formula at or after `from` that is decomposed
/// eagerly, or the length of the zone when there is none.
pub open spec fn first_async(linear: Seq<FormulaView>, from: nat) -> nat
    decreases linear.len() - from,
{
    if from >= linear.len() {
        linear.len()
    } else if is_async(linear[from as int]) {
        from
    } else {
        first_async(linear, from + 1)
    }
}

/// The number of linear implications among the formulas of the zone
/// themselves (not inside them).
pub open spec fn lolli_count(linear: Seq<FormulaView>) -> nat
    decreases linear.len(),
{
    if linear.len() == 0 {
        0
    } else {
        lolli_count(linear.drop_last()) + (if linear.last() is Lolli {
            1nat
        } else {
            0nat
        })
    }
}

/// The goal with the given zones and nothing under focus.
pub open spec fn goal(linear: Seq<FormulaView>, unrestricted: Seq<FormulaView>) -> SequentView {
    SequentView { linear, unrestricted, focus: None }
}

/// The expansion `A⊥ ⅋ B` of the linear implication `A ⊸ B`.
pub open spec fn expand_lolli(f: FormulaView) -> FormulaView {
    match f {
        FormulaView::Lolli(a, b) => FormulaView::Par(Box::new(a.negate()), b),
        _ => f,
    }
}

/// Whether the zone is exactly an atom and its negation, in either order.
pub open spec fn axiom_pair(linear: Seq<FormulaView>) -> bool {
    linear.len() == 2 && ((linear[0] is Atom && linear[1] == FormulaView::NegAtom(
        linear[0]->Atom_0,
    )) || (linear[1] is Atom && linear[0] == FormulaView::NegAtom(linear[1]->Atom_0)))
}

/// The premise of a structural rule on the unrestricted formula at `i`:
/// dereliction moves it to the linear zone, contraction moves it there
/// twice, weakening drops it.
pub open spec fn structural_premise(seq: SequentView, rule: RuleView, i: int) -> SequentView {
    let f = seq.unrestricted[i];
    let rest = seq.unrestricted.remove(i);
    match rule {
        RuleView::Dereliction => goal(seq.linear.push(f), rest),
        RuleView::Contraction => goal(seq.linear.push(f).push(f), rest),
        _ => goal(seq.linear, rest),
    }
}

/// The left premise of the tensor rule on the formula at `idx`, for the
/// split numbered `k`: the other formulas whose digit in `k` is 0, then `A`.
pub open spec fn tensor_left(seq: SequentView, idx: int, k: nat) -> SequentView {
    let others = seq.linear.remove(idx);
    goal(
        pick(others, mask_bits(k, others.len()), false).push(*seq.linear[idx]->Tensor_0),
        seq.unrestricted,
    )
}

/// The right premise of the tensor rule on the formula at `idx`, for the
/// split numbered `k`: the other formulas whose digit in `k` is 1, then `B`.
pub open spec fn tensor_right(seq: SequentView, idx: int, k: nat) -> SequentView {
    let others = seq.linear.remove(idx);
    goal(
        pick(others, mask_bits(k, others.len()), true).push(*seq.linear[idx]->Tensor_1),
        seq.unrestricted,
    )
}

/// A search that failed with depth to spare, and leaves the given cache.
pub open spec fn failure(cache: Set<Key>) -> Outcome {
    Outcome { proof: None, cache, starved: false }
}

/// A search that failed for want of depth, and leaves the given cache.
pub open spec fn cut_off(cache: Set<Key>) -> Outcome {
    Outcome { proof: None, cache, starved: true }
}

/// The outcome of a later attempt, after earlier attempts that failed: a
/// proof stands as it is, and a failure is for want of depth if one of the
/// failures was.
pub open spec fn after(starved: bool, o: Outcome) -> Outcome {
    if o.proof is Some {
        o
    } else {
        Outcome { proof: None, cache: o.cache, starved: starved || o.starved }
    }
}

/// A search that proved `seq` by `rule` from the given premises.
pub open spec fn success(
    seq: SequentView,
    rule: RuleView,
    premises: Seq<ProofView>,
    cache: Set<Key>,
) -> Outcome {
    Outcome { proof: Some(ProofView { conclusion: seq, rule, premises }), cache, starved: false }
}

/// The outcome for `seq` by a rule with one premise, given the outcome of
/// the search for that premise.
pub open spec fn from_premise(seq: SequentView, rule: RuleView, below: Outcome) -> Outcome {
    match below.proof {
        Some(p) => success(seq, rule, seq![p], below.cache),
        None => below,
    }
}

/// The search for a proof of `seq` with `left` levels of depth left to use,
/// this one included, starting from `cache`. With no level left it fails for
/// want of depth and leaves the cache alone. A sequent whose key is cached
/// fails at once. Any other failure puts the key of `seq` into the cache,
/// unless it is a failure for want of depth: with more depth the sequent
/// might be proved, so it is not cached.
#[verifier::opaque]
pub open spec fn search(lim: Limits, seq: SequentView, left: nat, cache: Set<Key>) -> Outcome
    decreases left, lolli_count(seq.linear), 5nat, 0nat,
{
    if left == 0 {
        cut_off(cache)
    } else if lim.use_cache && cache.contains(key_of(seq)) {
        failure(cache)
    } else {
        let r = search_async(lim, seq, left, cache);
        if r.proof is None && lim.use_cache && !r.starved {
            failure(r.cache.insert(key_of(seq)))
        } else {
            r
        }
    }
}

/// The asynchronous phase: the first formula of the linear zone that is a
/// par, a bottom, a top, a with, a why-not or a linear implication is
/// decomposed, and nothing else is tried. A linear implication is replaced
/// by its expansion, and the search goes on at the same depth. Without such
/// a formula the synchronous phase follows. The sequent with an empty
/// linear zone and no focus fails.
#[verifier::opaque]
pub open spec fn search_async(lim: Limits, seq: SequentView, left: nat, cache: Set<Key>) -> Outcome
    decreases left, lolli_count(seq.linear), 4nat, 0nat,
    when left > 0
{
    let i = first_async(seq.linear, 0) as int;
    if seq.is_empty() {
        failure(cache)
    } else if i >= seq.linear.len() {
        search_sync(lim, seq, left, cache)
    } else {
        let rest = seq.linear.remove(i);
        match seq.linear[i] {
            FormulaView::Par(a, b) => from_premise(
                seq,
                RuleView::ParIntro,
                search(
                    lim,
                    goal(rest.push(*a).push(*b), seq.unrestricted),
                    (left - 1) as nat,
                    cache,
                ),
            ),
            FormulaView::Bottom => from_premise(
                seq,
                RuleView::BottomIntro,
                search(lim, goal(rest, seq.unrestricted), (left - 1) as nat, cache),
            ),
            FormulaView::Top => success(seq, RuleView::TopIntro, Seq::empty(), cache),
            FormulaView::With(a, b) => {
                let first = search(
                    lim,
                    goal(rest.push(*a), seq.unrestricted),
                    (left - 1) as nat,
                    cache,
                );
                match first.proof {
                    None => first,
                    Some(p) => {
                        let second = search(
                            lim,
                            goal(rest.push(*b), seq.unrestricted),
                            (left - 1) as nat,
                            first.cache,
                        );
                        match second.proof {
                            None => second,
                            Some(q) => success(seq, RuleView::WithIntro, seq![p, q], second.cache),
                        }
                    },
                }
            },
            FormulaView::WhyNot(a) => from_premise(
                seq,
                RuleView::WhyNotIntro,
                search(lim, goal(rest, seq.unrestricted.push(*a)), (left - 1) as nat, cache),
            ),
            FormulaView::Lolli(a, b) => {
                proof {
                    lemma_expanding_removes_lolli(seq.linear, i);
                }
                search(
                    lim,
                    goal(seq.linear.update(i, expand_lolli(seq.linear[i])), seq.unrestricted),
                    left,
                    cache,
                )
            },
            _ => failure(cache),
        }
    }
}

/// The synchronous phase: each positive formula of the linear zone is
/// focused on, in order; then the axiom is tried from the negated atom;
/// then, with anything unrestricted, dereliction, contraction and weakening,
/// each on every unrestricted formula in order. The first success wins.
#[verifier::opaque]
pub open spec fn search_sync(lim: Limits, seq: SequentView, left: nat, cache: Set<Key>) -> Outcome
    decreases left, lolli_count(seq.linear), 3nat, 0nat,
    when left > 0
{
    let focused = search_positive(lim, seq, left, cache, 0);
    if focused.proof is Some {
        focused
    } else if axiom_pair(seq.linear) {
        success(seq, RuleView::Axiom, Seq::empty(), focused.cache)
    } else if seq.unrestricted.len() == 0 {
        focused
    } else {
        let derelict = after(
            focused.starved,
            search_structural(lim, seq, left, focused.cache, RuleView::Dereliction, 0),
        );
        if derelict.proof is Some {
            derelict
        } else {
            let contract = after(
                derelict.starved,
                search_structural(lim, seq, left, derelict.cache, RuleView::Contraction, 0),
            );
            if contract.proof is Some {
                contract
            } else {
                after(
                    contract.starved,
                    search_structural(lim, seq, left, contract.cache, RuleView::Weakening, 0),
                )
            }
        }
    }
}

/// Focusing on each positive formula at or after position `i`, in order,
/// until one gives a proof.
#[verifier::opaque]
pub open spec fn search_positive(
    lim: Limits,
    seq: SequentView,
    left: nat,
    cache: Set<Key>,
    i: nat,
) -> Outcome
    decreases left, lolli_count(seq.linear), 2nat, seq.linear.len() - i,
    when left > 0
{
    if i >= seq.linear.len() {
        failure(cache)
    } else if seq.linear[i as int].is_positive() {
        let r = search_focused(lim, seq, i as int, left, cache);
        if r.proof is Some {
            r
        } else {
            after(r.starved, search_positive(lim, seq, left, r.cache, i + 1))
        }
    } else {
        search_positive(lim, seq, left, cache, i + 1)
    }
}

/// One structural rule tried on each unrestricted formula at or after
/// position `i`, in order, until one gives a proof.
#[verifier::opaque]
pub open spec fn search_structural(
    lim: Limits,
    seq: SequentView,
    left: nat,
    cache: Set<Key>,
    rule: RuleView,
    i: nat,
) -> Outcome
    decreases left, lolli_count(seq.linear), 2nat, seq.unrestricted.len() - i,
    when left > 0
{
    if i >= seq.unrestricted.len() {
        failure(cache)
    } else {
        let below = search(lim, structural_premise(seq, rule, i as int), (left - 1) as nat, cache);
        if below.proof is Some {
            from_premise(seq, rule, below)
        } else {
            after(below.starved, search_structural(lim, seq, left, below.cache, rule, i + 1))
        }
    }
}

/// The focused decomposition of the positive formula at `idx`. An atom
/// closes the sequent exactly when the zone is that atom and its negation;
/// one, when it is alone; zero, never. A tensor tries every split of the
/// other formulas. A plus tries its left side, then its right. An of-course
/// must be alone, and its premise is its body under the same unrestricted
/// zone.
#[verifier::opaque]
pub open spec fn search_focused(
    lim: Limits,
    seq: SequentView,
    idx: int,
    left: nat,
    cache: Set<Key>,
) -> Outcome
    decreases left, lolli_count(seq.linear), 1nat, 0nat,
    when left > 0
{
    match seq.linear[idx] {
        FormulaView::Atom(name) => if seq.linear.len() == 2 && 0 <= idx < 2 && seq.linear[1 - idx]
            == FormulaView::NegAtom(name) {
            success(seq, RuleView::Axiom, Seq::empty(), cache)
        } else {
            failure(cache)
        },
        FormulaView::One => if seq.linear.len() == 1 {
            success(seq, RuleView::OneIntro, Seq::empty(), cache)
        } else {
            failure(cache)
        },
        FormulaView::Tensor(a, b) => search_splits(lim, seq, idx, left, cache, 0),
        FormulaView::Plus(a, b) => {
            let first = search(
                lim,
                goal(seq.linear.update(idx, *a), seq.unrestricted),
                (left - 1) as nat,
                cache,
            );
            if first.proof is Some {
                from_premise(seq, RuleView::PlusIntroLeft, first)
            } else {
                after(
                    first.starved,
                    from_premise(
                        seq,
                        RuleView::PlusIntroRight,
                        search(
                            lim,
                            goal(seq.linear.update(idx, *b), seq.unrestricted),
                            (left - 1) as nat,
                            first.cache,
                        ),
                    ),
                )
            }
        },
        FormulaView::OfCourse(a) => if seq.linear.len() == 1 {
            from_premise(
                seq,
                RuleView::OfCourseIntro,
                search(lim, goal(seq![*a], seq.unrestricted), (left - 1) as nat, cache),
            )
        } else {
            failure(cache)
        },
        _ => failure(cache),
    }
}

/// The tensor rule on the formula at `idx`, trying the splits numbered `k`
/// and up, in order: the first split whose two premises are both proved
/// wins. With `n` other formulas there are `2^n` splits. A split fails for
/// want of depth if the premise that failed did.
#[verifier::opaque]
pub open spec fn search_splits(
    lim: Limits,
    seq: SequentView,
    idx: int,
    left: nat,
    cache: Set<Key>,
    k: nat,
) -> Outcome
    decreases left, lolli_count(seq.linear), 0nat, pow2(seq.linear.remove(idx).len()) - k,
    when left > 0
{
    if k >= pow2(seq.linear.remove(idx).len()) {
        failure(cache)
    } else {
        let first = search(lim, tensor_left(seq, idx, k), (left - 1) as nat, cache);
        match first.proof {
            None => after(
                first.starved,
                search_splits(lim, seq, idx, left, first.cache, k + 1),
            ),
            Some(p) => {
                let second = search(lim, tensor_right(seq, idx, k), (left - 1) as nat, first.cache);
                match second.proof {
                    None => after(
                        second.starved,
                        search_splits(lim, seq, idx, left, second.cache, k + 1),
                    ),
                    Some(q) => success(seq, RuleView::TensorIntro, seq![p, q], second.cache),
                }
            },
        }
    }
}

/// Replacing a linear implication of the zone by its expansion leaves one
/// linear implication fewer.
pub proof fn lemma_expanding_removes_lolli(linear: Seq<FormulaView>, i: int)
    requires
        0 <= i < linear.len(),
        linear[i] is Lolli,
    ensures
        lolli_count(linear.update(i, expand_lolli(linear[i]))) + 1 == lolli_count(linear),
    decreases linear.len(),
{
    let expanded = linear.update(i, expand_lolli(linear[i]));
    if i == linear.len() - 1 {
        assert(expanded.drop_last() =~= linear.drop_last());
    } else {
        lemma_expanding_removes_lolli(linear.drop_last(), i);
        assert(expanded.drop_last() =~= linear.drop_last().update(
            i,
            expand_lolli(linear.drop_last()[i]),
        ));
    }
}

/// The sequent that a proof found for `seq` concludes: `seq` itself, unless
/// the first formula that the asynchronous phase takes up is a linear
/// implication. That one is replaced by its expansion, the focus is given
/// up, and the same holds of the sequent so reached.
pub open spec fn settle(seq: SequentView) -> SequentView
    decreases lolli_count(seq.linear),
{
    let i = first_async(seq.linear, 0) as int;
    if !seq.is_empty() && i < seq.linear.len() && seq.linear[i] is Lolli {
        proof {
            lemma_expanding_removes_lolli(seq.linear, i);
        }
        settle(goal(seq.linear.update(i, expand_lolli(seq.linear[i])), seq.unrestricted))
    } else {
        seq
    }
}

/// Whether `premise` is what is left to prove after the par at `i` is
/// decomposed.
pub open spec fn par_step(c: SequentView, i: int, premise: SequentView) -> bool {
    &&& 0 <= i < c.linear.len()
    &&& c.linear[i] is Par
    &&& premise == settle(
        goal(
            c.linear.remove(i).push(*c.linear[i]->Par_0).push(*c.linear[i]->Par_1),
            c.unrestricted,
        ),
    )
}

/// Whether `premise` is what is left to prove after the bottom at `i` is
/// dropped.
pub open spec fn bottom_step(c: SequentView, i: int, premise: SequentView) -> bool {
    &&& 0 <= i < c.linear.len()
    &&& c.linear[i] is Bottom
    &&& premise == settle(goal(c.linear.remove(i), c.unrestricted))
}

/// Whether the two premises are what is left to prove after the with at `i`
/// is decomposed: the sequent with its left side, and with its right side.
pub open spec fn with_step(
    c: SequentView,
    i: int,
    first: SequentView,
    second: SequentView,
) -> bool {
    &&& 0 <= i < c.linear.len()
    &&& c.linear[i] is With
    &&& first == settle(goal(c.linear.remove(i).push(*c.linear[i]->With_0), c.unrestricted))
    &&& second == settle(goal(c.linear.remove(i).push(*c.linear[i]->With_1), c.unrestricted))
}

/// Whether `premise` is what is left to prove after the body of the why-not
/// at `i` is moved to the unrestricted zone.
pub open spec fn why_not_step(c: SequentView, i: int, premise: SequentView) -> bool {
    &&& 0 <= i < c.linear.len()
    &&& c.linear[i] is WhyNot
    &&& premise == settle(
        goal(c.linear.remove(i), c.unrestricted.push(*c.linear[i]->WhyNot_0)),
    )
}

/// Whether the two premises are those of the tensor at `idx` for the split
/// numbered `k`.
pub open spec fn tensor_step(
    c: SequentView,
    idx: int,
    k: nat,
    first: SequentView,
    second: SequentView,
) -> bool {
    &&& 0 <= idx < c.linear.len()
    &&& c.linear[idx] is Tensor
    &&& k < pow2(c.linear.remove(idx).len())
    &&& first == settle(tensor_left(c, idx, k))
    &&& second == settle(tensor_right(c, idx, k))
}

/// Whether `premise` is what is left to prove after the plus at `idx` is
/// replaced by its left side (`right` false) or its right side.
pub open spec fn plus_step(c: SequentView, idx: int, right: bool, premise: SequentView) -> bool {
    &&& 0 <= idx < c.linear.len()
    &&& c.linear[idx] is Plus
    &&& premise == settle(
        goal(
            c.linear.update(
                idx,
                if right {
                    *c.linear[idx]->Plus_1
                } else {
                    *c.linear[idx]->Plus_0
                },
            ),
            c.unrestricted,
        ),
    )
}

/// Whether `premise` is that of the structural rule `rule` on the
/// unrestricted formula at `i`.
pub open spec fn structural_step(
    c: SequentView,
    rule: RuleView,
    i: int,
    premise: SequentView,
) -> bool {
    &&& 0 <= i < c.unrestricted.len()
    &&& premise == settle(structural_premise(c, rule, i))
}

/// Whether the sequent `c` follows by `rule` from the given premises, in the
/// calculus that the search works in. `Cut` and the focusing rules are no
/// part of it.
pub open spec fn step(c: SequentView, rule: RuleView, premises: Seq<SequentView>) -> bool {
    match rule {
        RuleView::Axiom => premises.len() == 0 && axiom_pair(c.linear),
        RuleView::OneIntro => premises.len() == 0 && c.linear == seq![FormulaView::One],
        RuleView::TopIntro => premises.len() == 0 && exists|i: int|
            0 <= i < c.linear.len() && #[trigger] c.linear[i] is Top,
        RuleView::BottomIntro => premises.len() == 1 && exists|i: int|
            #[trigger] bottom_step(c, i, premises[0]),
        RuleView::ParIntro => premises.len() == 1 && exists|i: int|
            #[trigger] par_step(c, i, premises[0]),
        RuleView::WithIntro => premises.len() == 2 && exists|i: int|
            #[trigger] with_step(c, i, premises[0], premises[1]),
        RuleView::WhyNotIntro => premises.len() == 1 && exists|i: int|
            #[trigger] why_not_step(c, i, premises[0]),
        RuleView::TensorIntro => premises.len() == 2 && exists|idx: int, k: nat|
            #[trigger] tensor_step(c, idx, k, premises[0], premises[1]),
        RuleView::PlusIntroLeft => premises.len() == 1 && exists|idx: int|
            #[trigger] plus_step(c, idx, false, premises[0]),
        RuleView::PlusIntroRight => premises.len() == 1 && exists|idx: int|
            #[trigger] plus_step(c, idx, true, premises[0]),
        RuleView::OfCourseIntro => premises.len() == 1 && c.linear.len() == 1
            && c.linear[0] is OfCourse && premises[0] == settle(
            goal(seq![*c.linear[0]->OfCourse_0], c.unrestricted),
        ),
        RuleView::Dereliction => premises.len() == 1 && exists|i: int|
            #[trigger] structural_step(c, rule, i, premises[0]),
        RuleView::Contraction => premises.len() == 1 && exists|i: int|
            #[trigger] structural_step(c, rule, i, premises[0]),
        RuleView::Weakening => premises.len() == 1 && exists|i: int|
            #[trigger] structural_step(c, rule, i, premises[0]),
        _ => false,
    }
}

/// The conclusions of a sequence of proofs.
pub open spec fn conclusions(proofs: Seq<ProofView>) -> Seq<SequentView> {
    Seq::new(proofs.len(), |i: int| proofs[i].conclusion)
}

/// Whether the proof is a derivation: at every node the conclusion follows
/// by the rule from the conclusions of the premises.
pub open spec fn derivation(p: ProofView) -> bool
    decreases p,
{
    &&& step(p.conclusion, p.rule, conclusions(p.premises))
    &&& forall|i: int| 0 <= i < p.premises.len() ==> derivation(#[trigger] p.premises[i])
}

/// Whether every leaf of the proof is an axiom, a one or a top.
pub open spec fn leaves_closed(p: ProofView) -> bool
    decreases p,
{
    &&& p.premises.len() == 0 ==> p.rule is Axiom || p.rule is OneIntro || p.rule is TopIntro
    &&& forall|i: int| 0 <= i < p.premises.len() ==> leaves_closed(#[trigger] p.premises[i])
}

} // verus!
