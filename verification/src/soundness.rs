//! What holds of every search: the proof that it finds is a derivation of
//! the sequent it was asked for, without cuts; searching again for the
//! conclusion finds the proof again; and what was cached stays cached.

use vstd::prelude::*;
use crate::formula::FormulaView;
use crate::proof_tree::{ProofView, RuleView};
use crate::search::{
    Key,
    Limits,
    Outcome,
    axiom_pair,
    bottom_step,
    conclusions,
    derivation,
    expand_lolli,
    first_async,
    from_premise,
    goal,
    is_async,
    leaves_closed,
    lemma_expanding_removes_lolli,
    lolli_count,
    par_step,
    plus_step,
    search,
    search_async,
    search_focused,
    search_positive,
    search_splits,
    search_structural,
    search_sync,
    settle,
    step,
    structural_premise,
    structural_step,
    success,
    tensor_left,
    tensor_right,
    tensor_step,
    why_not_step,
    with_step,
};
use crate::sequent::SequentView;
use crate::splits::pow2;

verus! {

/// Whether the outcome, if it holds a proof, holds a derivation of `c`, and
/// is no failure for want of depth.
pub open spec fn sound(o: Outcome, c: SequentView) -> bool {
    o.proof matches Some(p) ==> p.conclusion == c && derivation(p) && !o.starved
}

/// Whether the outcome, if it holds a proof, holds one that is at most
/// `left` deep.
pub open spec fn shallow(o: Outcome, left: nat) -> bool {
    o.proof matches Some(p) ==> p.depth() <= left
}

/// The depth of a proof by a rule with one premise.
pub proof fn lemma_depth_of_one(seq: SequentView, rule: RuleView, p: ProofView)
    ensures
        (ProofView { conclusion: seq, rule, premises: seq![p] }).depth() == 1 + p.depth(),
{
    let ps = seq![p];
    assert(ProofView::deepest_in(ps, 0) == 0);
    assert(ProofView::deepest_in(ps, 1) == p.depth());
}

/// The depth of a proof by a rule with two premises.
pub proof fn lemma_depth_of_two(seq: SequentView, rule: RuleView, p: ProofView, q: ProofView)
    ensures
        (ProofView { conclusion: seq, rule, premises: seq![p, q] }).depth() == 1 + (if q.depth()
            > p.depth() {
            q.depth()
        } else {
            p.depth()
        }),
{
    let ps = seq![p, q];
    assert(ProofView::deepest_in(ps, 0) == 0);
    assert(ProofView::deepest_in(ps, 1) == p.depth());
    assert(ProofView::deepest_in(ps, 2) == (if q.depth() > p.depth() {
        q.depth()
    } else {
        p.depth()
    }));
}

/// The depth of a proof by a rule without premises.
pub proof fn lemma_depth_of_leaf(seq: SequentView, rule: RuleView)
    ensures
        (ProofView { conclusion: seq, rule, premises: Seq::empty() }).depth() == 1,
{
}

/// The first formula that the asynchronous phase takes up is one that it
/// decomposes.
pub proof fn lemma_first_async_is_async(linear: Seq<FormulaView>, from: nat)
    ensures
        from <= first_async(linear, from) <= linear.len() || from > linear.len(),
        first_async(linear, from) < linear.len() ==> is_async(
            linear[first_async(linear, from) as int],
        ),
    decreases linear.len() - from,
{
    if from < linear.len() && !is_async(linear[from as int]) {
        lemma_first_async_is_async(linear, from + 1);
    }
}

/// A node over one sound premise is a derivation of its conclusion as soon
/// as its rule applies.
proof fn lemma_from_premise_sound(
    seq: SequentView,
    rule: RuleView,
    below: Outcome,
    premise: SequentView,
)
    requires
        sound(below, settle(premise)),
        step(seq, rule, seq![settle(premise)]),
    ensures
        sound(from_premise(seq, rule, below), seq),
        below.proof is Some ==> from_premise(seq, rule, below).proof->0.depth() == 1
            + below.proof->0.depth(),
{
    match below.proof {
        Some(p) => {
            lemma_depth_of_one(seq, rule, p);
            assert(conclusions(seq![p]) =~= seq![settle(premise)]);
            let node = ProofView { conclusion: seq, rule, premises: seq![p] };
            assert forall|i: int| 0 <= i < node.premises.len() implies derivation(
                #[trigger] node.premises[i],
            ) by {}
        },
        None => {},
    }
}

/// A node over two sound premises is a derivation of its conclusion as soon
/// as its rule applies.
proof fn lemma_two_premises_sound(
    seq: SequentView,
    rule: RuleView,
    p: ProofView,
    q: ProofView,
    cache: Set<Key>,
)
    requires
        derivation(p),
        derivation(q),
        step(seq, rule, seq![p.conclusion, q.conclusion]),
    ensures
        sound(success(seq, rule, seq![p, q], cache), seq),
        success(seq, rule, seq![p, q], cache).proof->0.depth() == 1 + (if q.depth() > p.depth() {
            q.depth()
        } else {
            p.depth()
        }),
{
    lemma_depth_of_two(seq, rule, p, q);
    assert(conclusions(seq![p, q]) =~= seq![p.conclusion, q.conclusion]);
    let node = ProofView { conclusion: seq, rule, premises: seq![p, q] };
    assert forall|i: int| 0 <= i < node.premises.len() implies derivation(
        #[trigger] node.premises[i],
    ) by {}
}

/// A leaf is a derivation of its conclusion as soon as its rule applies.
proof fn lemma_leaf_sound(seq: SequentView, rule: RuleView, cache: Set<Key>)
    requires
        step(seq, rule, Seq::empty()),
    ensures
        sound(success(seq, rule, Seq::empty(), cache), seq),
        success(seq, rule, Seq::empty(), cache).proof->0.depth() == 1,
{
    assert(conclusions(Seq::<ProofView>::empty()) =~= Seq::<SequentView>::empty());
}

/// Every proof that the search finds for a sequent is a derivation of what
/// the sequent settles to, and is at most as deep as there were levels left:
/// with the budget `max_depth`, at most `max_depth + 1` deep.
pub proof fn lemma_search_sound(lim: Limits, seq: SequentView, left: nat, cache: Set<Key>)
    ensures
        sound(search(lim, seq, left, cache), settle(seq)),
        shallow(search(lim, seq, left, cache), left),
    decreases left, lolli_count(seq.linear), 5nat, 0nat,
{
    reveal(search);
    reveal(search_async);
    if left > 0 && !(lim.use_cache && cache.contains(crate::search::key_of(seq))) {
        lemma_async_sound(lim, seq, left, cache);
    }
}

/// The depth budget bounds what is found: a proof that a search with the
/// budget `max_depth` finds, from any cache, is at most `max_depth + 1`
/// deep.
pub proof fn lemma_found_within_budget(lim: Limits, seq: SequentView, cache: Set<Key>, p: ProofView)
    requires
        search(lim, seq, lim.max_depth + 1, cache).proof == Some(p),
    ensures
        p.depth() <= lim.max_depth + 1,
{
    lemma_search_sound(lim, seq, lim.max_depth + 1, cache);
}

/// Every proof that the asynchronous phase finds for a sequent is a
/// derivation of what the sequent settles to.
pub proof fn lemma_async_sound(lim: Limits, seq: SequentView, left: nat, cache: Set<Key>)
    requires
        left > 0,
    ensures
        sound(search_async(lim, seq, left, cache), settle(seq)),
        shallow(search_async(lim, seq, left, cache), left),
    decreases left, lolli_count(seq.linear), 4nat, 0nat,
{
    reveal(search_async);
    reveal(search);
    reveal(search_sync);
    let i = first_async(seq.linear, 0) as int;
    let below = (left - 1) as nat;
    lemma_first_async_is_async(seq.linear, 0);
    if seq.is_empty() {
    } else if i >= seq.linear.len() {
        lemma_sync_sound(lim, seq, left, cache);
    } else {
        let rest = seq.linear.remove(i);
        match seq.linear[i] {
            FormulaView::Par(a, b) => {
                let child = goal(rest.push(*a).push(*b), seq.unrestricted);
                lemma_search_sound(lim, child, below, cache);
                assert(par_step(seq, i, settle(child)));
                lemma_from_premise_sound(
                    seq,
                    RuleView::ParIntro,
                    search(lim, child, below, cache),
                    child,
                );
            },
            FormulaView::Bottom => {
                let child = goal(rest, seq.unrestricted);
                lemma_search_sound(lim, child, below, cache);
                assert(bottom_step(seq, i, settle(child)));
                lemma_from_premise_sound(
                    seq,
                    RuleView::BottomIntro,
                    search(lim, child, below, cache),
                    child,
                );
            },
            FormulaView::Top => {
                assert(seq.linear[i] is Top);
                lemma_leaf_sound(seq, RuleView::TopIntro, cache);
            },
            FormulaView::With(a, b) => {
                let first_goal = goal(rest.push(*a), seq.unrestricted);
                let second_goal = goal(rest.push(*b), seq.unrestricted);
                lemma_search_sound(lim, first_goal, below, cache);
                let first = search(lim, first_goal, below, cache);
                match first.proof {
                    None => {},
                    Some(p) => {
                        lemma_search_sound(lim, second_goal, below, first.cache);
                        let second = search(lim, second_goal, below, first.cache);
                        match second.proof {
                            None => {},
                            Some(q) => {
                                assert(with_step(seq, i, p.conclusion, q.conclusion));
                                lemma_two_premises_sound(
                                    seq,
                                    RuleView::WithIntro,
                                    p,
                                    q,
                                    second.cache,
                                );
                            },
                        }
                    },
                }
            },
            FormulaView::WhyNot(a) => {
                let child = goal(rest, seq.unrestricted.push(*a));
                lemma_search_sound(lim, child, below, cache);
                assert(why_not_step(seq, i, settle(child)));
                lemma_from_premise_sound(
                    seq,
                    RuleView::WhyNotIntro,
                    search(lim, child, below, cache),
                    child,
                );
            },
            FormulaView::Lolli(a, b) => {
                let next = goal(
                    seq.linear.update(i, expand_lolli(seq.linear[i])),
                    seq.unrestricted,
                );
                lemma_expanding_removes_lolli(seq.linear, i);
                lemma_search_sound(lim, next, left, cache);
            },
            _ => {},
        }
    }
}

/// Every proof that the synchronous phase finds for a sequent is a
/// derivation of that sequent.
pub proof fn lemma_sync_sound(lim: Limits, seq: SequentView, left: nat, cache: Set<Key>)
    requires
        left > 0,
    ensures
        sound(search_sync(lim, seq, left, cache), seq),
        shallow(search_sync(lim, seq, left, cache), left),
    decreases left, lolli_count(seq.linear), 3nat, 0nat,
{
    reveal(search_sync);
    reveal(search_positive);
    reveal(search_structural);
    lemma_positive_sound(lim, seq, left, cache, 0);
    let focused = search_positive(lim, seq, left, cache, 0);
    if focused.proof is Some {
    } else if axiom_pair(seq.linear) {
        lemma_leaf_sound(seq, RuleView::Axiom, focused.cache);
    } else if seq.unrestricted.len() == 0 {
    } else {
        lemma_structural_sound(lim, seq, left, focused.cache, RuleView::Dereliction, 0);
        let derelict = search_structural(lim, seq, left, focused.cache, RuleView::Dereliction, 0);
        if derelict.proof is None {
            lemma_structural_sound(lim, seq, left, derelict.cache, RuleView::Contraction, 0);
            let contract = search_structural(
                lim,
                seq,
                left,
                derelict.cache,
                RuleView::Contraction,
                0,
            );
            if contract.proof is None {
                lemma_structural_sound(lim, seq, left, contract.cache, RuleView::Weakening, 0);
            }
        }
    }
}

/// Every proof found by focusing on a positive formula is a derivation of
/// the sequent.
pub proof fn lemma_positive_sound(
    lim: Limits,
    seq: SequentView,
    left: nat,
    cache: Set<Key>,
    i: nat,
)
    requires
        left > 0,
    ensures
        sound(search_positive(lim, seq, left, cache, i), seq),
        shallow(search_positive(lim, seq, left, cache, i), left),
    decreases left, lolli_count(seq.linear), 2nat, seq.linear.len() - i,
{
    reveal(search_positive);
    reveal(search_focused);
    if i >= seq.linear.len() {
    } else if seq.linear[i as int].is_positive() {
        lemma_focused_sound(lim, seq, i as int, left, cache);
        let r = search_focused(lim, seq, i as int, left, cache);
        if r.proof is None {
            lemma_positive_sound(lim, seq, left, r.cache, i + 1);
        }
    } else {
        lemma_positive_sound(lim, seq, left, cache, i + 1);
    }
}

/// Every proof found by a structural rule is a derivation of the sequent.
pub proof fn lemma_structural_sound(
    lim: Limits,
    seq: SequentView,
    left: nat,
    cache: Set<Key>,
    rule: RuleView,
    i: nat,
)
    requires
        left > 0,
        rule is Dereliction || rule is Contraction || rule is Weakening,
    ensures
        sound(search_structural(lim, seq, left, cache, rule, i), seq),
        shallow(search_structural(lim, seq, left, cache, rule, i), left),
    decreases left, lolli_count(seq.linear), 2nat, seq.unrestricted.len() - i,
{
    reveal(search_structural);
    reveal(search);
    if i < seq.unrestricted.len() {
        let child = structural_premise(seq, rule, i as int);
        let below = search(lim, child, (left - 1) as nat, cache);
        lemma_search_sound(lim, child, (left - 1) as nat, cache);
        if below.proof is Some {
            assert(structural_step(seq, rule, i as int, settle(child)));
            lemma_from_premise_sound(seq, rule, below, child);
        } else {
            lemma_structural_sound(lim, seq, left, below.cache, rule, i + 1);
        }
    }
}

/// Every proof found by decomposing the positive formula at `idx` is a
/// derivation of the sequent.
pub proof fn lemma_focused_sound(
    lim: Limits,
    seq: SequentView,
    idx: int,
    left: nat,
    cache: Set<Key>,
)
    requires
        left > 0,
        0 <= idx < seq.linear.len(),
    ensures
        sound(search_focused(lim, seq, idx, left, cache), seq),
        shallow(search_focused(lim, seq, idx, left, cache), left),
    decreases left, lolli_count(seq.linear), 1nat, 0nat,
{
    reveal(search_focused);
    reveal(search);
    reveal(search_splits);
    let below = (left - 1) as nat;
    match seq.linear[idx] {
        FormulaView::Atom(name) => {
            if seq.linear.len() == 2 && seq.linear[1 - idx] == FormulaView::NegAtom(name) {
                lemma_leaf_sound(seq, RuleView::Axiom, cache);
            }
        },
        FormulaView::One => {
            if seq.linear.len() == 1 {
                assert(seq.linear =~= seq![FormulaView::One]);
                lemma_leaf_sound(seq, RuleView::OneIntro, cache);
            }
        },
        FormulaView::Tensor(a, b) => {
            lemma_splits_sound(lim, seq, idx, left, cache, 0);
        },
        FormulaView::Plus(a, b) => {
            let first_goal = goal(seq.linear.update(idx, *a), seq.unrestricted);
            let second_goal = goal(seq.linear.update(idx, *b), seq.unrestricted);
            lemma_search_sound(lim, first_goal, below, cache);
            let first = search(lim, first_goal, below, cache);
            if first.proof is Some {
                assert(plus_step(seq, idx, false, settle(first_goal)));
                lemma_from_premise_sound(seq, RuleView::PlusIntroLeft, first, first_goal);
            } else {
                lemma_search_sound(lim, second_goal, below, first.cache);
                assert(plus_step(seq, idx, true, settle(second_goal)));
                lemma_from_premise_sound(
                    seq,
                    RuleView::PlusIntroRight,
                    search(lim, second_goal, below, first.cache),
                    second_goal,
                );
            }
        },
        FormulaView::OfCourse(a) => {
            if seq.linear.len() == 1 {
                let child = goal(seq![*a], seq.unrestricted);
                lemma_search_sound(lim, child, below, cache);
                lemma_from_premise_sound(
                    seq,
                    RuleView::OfCourseIntro,
                    search(lim, child, below, cache),
                    child,
                );
            }
        },
        _ => {},
    }
}

/// Every proof found by the tensor rule is a derivation of the sequent.
pub proof fn lemma_splits_sound(
    lim: Limits,
    seq: SequentView,
    idx: int,
    left: nat,
    cache: Set<Key>,
    k: nat,
)
    requires
        left > 0,
        0 <= idx < seq.linear.len(),
        seq.linear[idx] is Tensor,
    ensures
        sound(search_splits(lim, seq, idx, left, cache, k), seq),
        shallow(search_splits(lim, seq, idx, left, cache, k), left),
    decreases left, lolli_count(seq.linear), 0nat, pow2(seq.linear.remove(idx).len()) - k,
{
    reveal(search_splits);
    reveal(search);
    let below = (left - 1) as nat;
    if k < pow2(seq.linear.remove(idx).len()) {
        lemma_search_sound(lim, tensor_left(seq, idx, k), below, cache);
        let first = search(lim, tensor_left(seq, idx, k), below, cache);
        match first.proof {
            None => {
                lemma_splits_sound(lim, seq, idx, left, first.cache, k + 1);
            },
            Some(p) => {
                lemma_search_sound(lim, tensor_right(seq, idx, k), below, first.cache);
                let second = search(lim, tensor_right(seq, idx, k), below, first.cache);
                match second.proof {
                    None => {
                        lemma_splits_sound(lim, seq, idx, left, second.cache, k + 1);
                    },
                    Some(q) => {
                        assert(tensor_step(seq, idx, k, p.conclusion, q.conclusion));
                        lemma_two_premises_sound(seq, RuleView::TensorIntro, p, q, second.cache);
                    },
                }
            },
        }
    }
}

/// A derivation uses no cut.
pub proof fn lemma_derivation_is_cut_free(p: ProofView)
    requires
        derivation(p),
    ensures
        p.cut_count() == 0,
        p.is_cut_free(),
    decreases p,
{
    lemma_no_cuts_below(p, p.premises.len());
}

/// The first `n` premises of a derivation use no cut.
proof fn lemma_no_cuts_below(p: ProofView, n: nat)
    requires
        derivation(p),
        n <= p.premises.len(),
    ensures
        ProofView::cuts_in(p.premises, n) == 0,
    decreases p, n,
{
    if n > 0 {
        lemma_no_cuts_below(p, (n - 1) as nat);
        lemma_derivation_is_cut_free(p.premises[n - 1]);
    }
}

/// Every leaf of a derivation is an axiom, a one or a top.
pub proof fn lemma_derivation_closes_leaves(p: ProofView)
    requires
        derivation(p),
    ensures
        leaves_closed(p),
    decreases p,
{
    assert forall|i: int| 0 <= i < p.premises.len() implies leaves_closed(
        #[trigger] p.premises[i],
    ) by {
        lemma_derivation_closes_leaves(p.premises[i]);
    }
    assert(conclusions(p.premises).len() == p.premises.len());
}

/// A sequent whose linear formulas hold no linear implication, themselves,
/// settles to itself.
pub proof fn lemma_settle_without_lolli(seq: SequentView)
    requires
        forall|i: int| 0 <= i < seq.linear.len() ==> !(#[trigger] seq.linear[i] is Lolli),
    ensures
        settle(seq) == seq,
{
    lemma_first_async_is_async(seq.linear, 0);
}

/// What a sequent settles to settles to itself.
pub proof fn lemma_settle_is_settled(seq: SequentView)
    ensures
        settle(settle(seq)) == settle(seq),
    decreases lolli_count(seq.linear),
{
    let i = first_async(seq.linear, 0) as int;
    if !seq.is_empty() && i < seq.linear.len() && seq.linear[i] is Lolli {
        lemma_expanding_removes_lolli(seq.linear, i);
        lemma_settle_is_settled(
            goal(seq.linear.update(i, expand_lolli(seq.linear[i])), seq.unrestricted),
        );
    }
}

/// A search that succeeds on a sequent finds the same proof for what the
/// sequent settles to, from the same cache and with the same depth left.
pub proof fn lemma_search_of_settled(lim: Limits, seq: SequentView, left: nat, cache: Set<Key>)
    requires
        search(lim, seq, left, cache).proof is Some,
    ensures
        search(lim, settle(seq), left, cache).proof == search(lim, seq, left, cache).proof,
    decreases lolli_count(seq.linear),
{
    let i = first_async(seq.linear, 0) as int;
    if !seq.is_empty() && i < seq.linear.len() && seq.linear[i] is Lolli {
        let next = goal(seq.linear.update(i, expand_lolli(seq.linear[i])), seq.unrestricted);
        lemma_expanding_removes_lolli(seq.linear, i);
        assert(search(lim, seq, left, cache).proof == search(lim, next, left, cache).proof) by {
            reveal(search);
            reveal(search_async);
        }
        lemma_search_of_settled(lim, next, left, cache);
    }
}

/// Determinism: searching again for the conclusion of a proof that the
/// search found, from the same cache and with the same depth left, finds
/// that very proof.
pub proof fn lemma_search_again(
    lim: Limits,
    seq: SequentView,
    left: nat,
    cache: Set<Key>,
    p: ProofView,
)
    requires
        search(lim, seq, left, cache).proof == Some(p),
    ensures
        p.conclusion == settle(seq),
        search(lim, p.conclusion, left, cache).proof == Some(p),
{
    lemma_search_sound(lim, seq, left, cache);
    lemma_search_of_settled(lim, seq, left, cache);
}

/// For a sequent whose linear formulas hold no linear implication,
/// themselves, every proof that the search finds concludes that sequent, is
/// a derivation without cuts, has only axioms, ones and tops as leaves, and
/// is at most as deep as there were levels left.
pub proof fn lemma_search_proves(
    lim: Limits,
    seq: SequentView,
    left: nat,
    cache: Set<Key>,
    p: ProofView,
)
    requires
        search(lim, seq, left, cache).proof == Some(p),
        forall|i: int| 0 <= i < seq.linear.len() ==> !(#[trigger] seq.linear[i] is Lolli),
    ensures
        p.conclusion == seq,
        derivation(p),
        leaves_closed(p),
        p.cut_count() == 0,
        p.depth() <= left,
{
    lemma_search_sound(lim, seq, left, cache);
    lemma_settle_without_lolli(seq);
    lemma_derivation_is_cut_free(p);
    lemma_derivation_closes_leaves(p);
}

/// Whether the outcome keeps what was cached, and, where nothing is cached,
/// leaves the cache as it was.
pub open spec fn keeps(lim: Limits, o: Outcome, cache: Set<Key>) -> bool {
    cache.subset_of(o.cache) && (!lim.use_cache ==> o.cache == cache)
}

/// What is cached stays cached: a search takes no key out of the cache.
/// With caching switched off it leaves the cache as it was. A search that
/// fails with depth to spare, and with caching on, leaves the key of its
/// sequent in the cache. A search with no level left fails for want of
/// depth and caches nothing.
pub proof fn lemma_search_keeps_cache(lim: Limits, seq: SequentView, left: nat, cache: Set<Key>)
    ensures
        keeps(lim, search(lim, seq, left, cache), cache),
        left > 0 && lim.use_cache && search(lim, seq, left, cache).proof is None && !search(
            lim,
            seq,
            left,
            cache,
        ).starved ==> search(lim, seq, left, cache).cache.contains(crate::search::key_of(seq)),
        left == 0 ==> search(lim, seq, left, cache) == crate::search::cut_off(cache),
    decreases left, lolli_count(seq.linear), 5nat, 0nat,
{
    reveal(search);
    reveal(search_async);
    if left > 0 && !(lim.use_cache && cache.contains(crate::search::key_of(seq))) {
        lemma_async_keeps_cache(lim, seq, left, cache);
    }
}

/// The asynchronous phase takes no key out of the cache.
pub proof fn lemma_async_keeps_cache(lim: Limits, seq: SequentView, left: nat, cache: Set<Key>)
    requires
        left > 0,
    ensures
        keeps(lim, search_async(lim, seq, left, cache), cache),
    decreases left, lolli_count(seq.linear), 4nat, 0nat,
{
    reveal(search_async);
    reveal(search);
    reveal(search_sync);
    let i = first_async(seq.linear, 0) as int;
    let below = (left - 1) as nat;
    if seq.is_empty() {
    } else if i >= seq.linear.len() {
        lemma_sync_keeps_cache(lim, seq, left, cache);
    } else {
        let rest = seq.linear.remove(i);
        match seq.linear[i] {
            FormulaView::Par(a, b) => {
                lemma_search_keeps_cache(
                    lim,
                    goal(rest.push(*a).push(*b), seq.unrestricted),
                    below,
                    cache,
                );
            },
            FormulaView::Bottom => {
                lemma_search_keeps_cache(lim, goal(rest, seq.unrestricted), below, cache);
            },
            FormulaView::With(a, b) => {
                let first_goal = goal(rest.push(*a), seq.unrestricted);
                let second_goal = goal(rest.push(*b), seq.unrestricted);
                lemma_search_keeps_cache(lim, first_goal, below, cache);
                let first = search(lim, first_goal, below, cache);
                if first.proof is Some {
                    lemma_search_keeps_cache(lim, second_goal, below, first.cache);
                }
            },
            FormulaView::WhyNot(a) => {
                lemma_search_keeps_cache(
                    lim,
                    goal(rest, seq.unrestricted.push(*a)),
                    below,
                    cache,
                );
            },
            FormulaView::Lolli(a, b) => {
                lemma_expanding_removes_lolli(seq.linear, i);
                lemma_search_keeps_cache(
                    lim,
                    goal(seq.linear.update(i, expand_lolli(seq.linear[i])), seq.unrestricted),
                    left,
                    cache,
                );
            },
            _ => {},
        }
    }
}

/// The synchronous phase takes no key out of the cache.
pub proof fn lemma_sync_keeps_cache(lim: Limits, seq: SequentView, left: nat, cache: Set<Key>)
    requires
        left > 0,
    ensures
        keeps(lim, search_sync(lim, seq, left, cache), cache),
    decreases left, lolli_count(seq.linear), 3nat, 0nat,
{
    reveal(search_sync);
    reveal(search_positive);
    reveal(search_structural);
    lemma_positive_keeps_cache(lim, seq, left, cache, 0);
    let focused = search_positive(lim, seq, left, cache, 0);
    if focused.proof is Some {
    } else if axiom_pair(seq.linear) {
    } else if seq.unrestricted.len() == 0 {
    } else {
        lemma_structural_keeps_cache(lim, seq, left, focused.cache, RuleView::Dereliction, 0);
        let derelict = search_structural(lim, seq, left, focused.cache, RuleView::Dereliction, 0);
        if derelict.proof is None {
            lemma_structural_keeps_cache(
                lim,
                seq,
                left,
                derelict.cache,
                RuleView::Contraction,
                0,
            );
            let contract = search_structural(
                lim,
                seq,
                left,
                derelict.cache,
                RuleView::Contraction,
                0,
            );
            if contract.proof is None {
                lemma_structural_keeps_cache(
                    lim,
                    seq,
                    left,
                    contract.cache,
                    RuleView::Weakening,
                    0,
                );
            }
        }
    }
}

/// Focusing on the positive formulas takes no key out of the cache.
pub proof fn lemma_positive_keeps_cache(
    lim: Limits,
    seq: SequentView,
    left: nat,
    cache: Set<Key>,
    i: nat,
)
    requires
        left > 0,
    ensures
        keeps(lim, search_positive(lim, seq, left, cache, i), cache),
    decreases left, lolli_count(seq.linear), 2nat, seq.linear.len() - i,
{
    reveal(search_positive);
    reveal(search_focused);
    if i >= seq.linear.len() {
    } else if seq.linear[i as int].is_positive() {
        lemma_focused_keeps_cache(lim, seq, i as int, left, cache);
        let r = search_focused(lim, seq, i as int, left, cache);
        if r.proof is None {
            lemma_positive_keeps_cache(lim, seq, left, r.cache, i + 1);
        }
    } else {
        lemma_positive_keeps_cache(lim, seq, left, cache, i + 1);
    }
}

/// A structural rule takes no key out of the cache.
pub proof fn lemma_structural_keeps_cache(
    lim: Limits,
    seq: SequentView,
    left: nat,
    cache: Set<Key>,
    rule: RuleView,
    i: nat,
)
    requires
        left > 0,
    ensures
        keeps(lim, search_structural(lim, seq, left, cache, rule, i), cache),
    decreases left, lolli_count(seq.linear), 2nat, seq.unrestricted.len() - i,
{
    reveal(search_structural);
    reveal(search);
    if i < seq.unrestricted.len() {
        let child = structural_premise(seq, rule, i as int);
        let below = search(lim, child, (left - 1) as nat, cache);
        lemma_search_keeps_cache(lim, child, (left - 1) as nat, cache);
        if below.proof is None {
            lemma_structural_keeps_cache(lim, seq, left, below.cache, rule, i + 1);
        }
    }
}

/// The focused phase takes no key out of the cache.
pub proof fn lemma_focused_keeps_cache(
    lim: Limits,
    seq: SequentView,
    idx: int,
    left: nat,
    cache: Set<Key>,
)
    requires
        left > 0,
        0 <= idx < seq.linear.len(),
    ensures
        keeps(lim, search_focused(lim, seq, idx, left, cache), cache),
    decreases left, lolli_count(seq.linear), 1nat, 0nat,
{
    reveal(search_focused);
    reveal(search);
    reveal(search_splits);
    let below = (left - 1) as nat;
    match seq.linear[idx] {
        FormulaView::Tensor(a, b) => {
            lemma_splits_keep_cache(lim, seq, idx, left, cache, 0);
        },
        FormulaView::Plus(a, b) => {
            let first_goal = goal(seq.linear.update(idx, *a), seq.unrestricted);
            let second_goal = goal(seq.linear.update(idx, *b), seq.unrestricted);
            lemma_search_keeps_cache(lim, first_goal, below, cache);
            let first = search(lim, first_goal, below, cache);
            if first.proof is None {
                lemma_search_keeps_cache(lim, second_goal, below, first.cache);
            }
        },
        FormulaView::OfCourse(a) => {
            if seq.linear.len() == 1 {
                lemma_search_keeps_cache(lim, goal(seq![*a], seq.unrestricted), below, cache);
            }
        },
        _ => {},
    }
}

/// The tensor rule takes no key out of the cache.
pub proof fn lemma_splits_keep_cache(
    lim: Limits,
    seq: SequentView,
    idx: int,
    left: nat,
    cache: Set<Key>,
    k: nat,
)
    requires
        left > 0,
        0 <= idx < seq.linear.len(),
    ensures
        keeps(lim, search_splits(lim, seq, idx, left, cache, k), cache),
    decreases left, lolli_count(seq.linear), 0nat, pow2(seq.linear.remove(idx).len()) - k,
{
    reveal(search_splits);
    reveal(search);
    let below = (left - 1) as nat;
    if k < pow2(seq.linear.remove(idx).len()) {
        lemma_search_keeps_cache(lim, tensor_left(seq, idx, k), below, cache);
        let first = search(lim, tensor_left(seq, idx, k), below, cache);
        match first.proof {
            None => {
                lemma_splits_keep_cache(lim, seq, idx, left, first.cache, k + 1);
            },
            Some(p) => {
                lemma_search_keeps_cache(lim, tensor_right(seq, idx, k), below, first.cache);
                let second = search(lim, tensor_right(seq, idx, k), below, first.cache);
                if second.proof is None {
                    lemma_splits_keep_cache(lim, seq, idx, left, second.cache, k + 1);
                }
            },
        }
    }
}

} // verus!
