//! The prover: the executable search, which computes what the search on
//! the mathematical values of sequents defines.

use vstd::prelude::*;
use crate::cache::FailureCache;
use crate::formula::{Formula, FormulaView};
use crate::proof_tree::{Proof, ProofView, Rule, RuleView, add_capped};
use crate::search::{
    Key,
    after,
    Limits,
    Outcome,
    axiom_pair,
    derivation,
    expand_lolli,
    failure,
    from_premise,
    goal,
    key_of,
    leaves_closed,
    lemma_expanding_removes_lolli,
    lolli_count,
    marked_each,
    search,
    search_async,
    search_focused,
    search_positive,
    search_splits,
    search_structural,
    search_sync,
    settle,
    structural_premise,
    success,
    tensor_left,
    tensor_right,
};
use crate::sequent::{
    Sequent,
    TwoSidedSequent,
    clone_formulas,
    formula_views,
    formulas_without,
    pretty_each,
    pretty_formulas,
};
use crate::soundness::{
    lemma_derivation_closes_leaves,
    lemma_derivation_is_cut_free,
    lemma_search_keeps_cache,
    lemma_search_sound,
};
use crate::splits::{advance_mask, lemma_pow2_positive, mask_bits, pick_formulas, pow2, zero_mask};
use crate::steps::{find_async, make_goal, with_formula};
use crate::text::{glue2, sort_strings, views};

verus! {

/// The mathematical values of a sequence of proofs.
pub open spec fn proof_views(v: Seq<Proof>) -> Seq<ProofView> {
    Seq::new(v.len(), |i: int| v[i]@)
}

/// The proof of `seq` by `rule` from the given premises.
fn conclude(seq: &Sequent, rule: Rule, premises: Vec<Proof>) -> (r: Proof)
    ensures
        r@ == (ProofView { conclusion: seq@, rule: rule@, premises: proof_views(premises@) }),
{
    let r = Proof { conclusion: seq.clone(), rule, premises };
    assert(r@.premises =~= proof_views(premises@));
    r
}

/// The proof of `seq` by a rule without premises.
fn conclude0(seq: &Sequent, rule: Rule) -> (r: Proof)
    ensures
        r@ == (ProofView { conclusion: seq@, rule: rule@, premises: Seq::empty() }),
{
    let premises: Vec<Proof> = Vec::new();
    assert(proof_views(premises@) =~= Seq::empty());
    conclude(seq, rule, premises)
}

/// The proof of `seq` by a rule with one premise.
fn conclude1(seq: &Sequent, rule: Rule, p: Proof) -> (r: Proof)
    ensures
        r@ == (ProofView { conclusion: seq@, rule: rule@, premises: seq![p@] }),
{
    let mut premises: Vec<Proof> = Vec::new();
    premises.push(p);
    assert(proof_views(premises@) =~= seq![p@]);
    conclude(seq, rule, premises)
}

/// The proof of `seq` by a rule with two premises.
fn conclude2(seq: &Sequent, rule: Rule, p: Proof, q: Proof) -> (r: Proof)
    ensures
        r@ == (ProofView { conclusion: seq@, rule: rule@, premises: seq![p@, q@] }),
{
    let mut premises: Vec<Proof> = Vec::new();
    premises.push(p);
    premises.push(q);
    assert(proof_views(premises@) =~= seq![p@, q@]);
    conclude(seq, rule, premises)
}

/// The levels of depth that a search at `depth` has left to use, this one
/// included, under the budget `max_depth`.
pub open spec fn levels_left(max_depth: usize, depth: usize) -> nat {
    if depth > max_depth {
        0
    } else {
        (max_depth - depth + 1) as nat
    }
}

/// What a call of the prover handed back, as an outcome of the search.
pub open spec fn outcome_of(r: Option<Proof>, cache: Set<Key>, starved: bool) -> Outcome {
    Outcome {
        proof: match r {
            Some(p) => Some(p@),
            None => None,
        },
        cache,
        starved,
    }
}

/// Statistics about the last proof search.
#[derive(Debug)]
pub struct ProverStats {
    /// Number of sequents explored
    pub sequents_explored: usize,
    /// Number of cache hits
    pub cache_hits: usize,
    /// Maximum depth reached
    pub max_depth_reached: usize,
}

impl Default for ProverStats {
    fn default() -> (r: Self)
        ensures
            r.sequents_explored == 0,
            r.cache_hits == 0,
            r.max_depth_reached == 0,
    {
        ProverStats { sequents_explored: 0, cache_hits: 0, max_depth_reached: 0 }
    }
}

impl Clone for ProverStats {
    fn clone(&self) -> (r: Self)
        ensures
            r == *self,
    {
        ProverStats {
            sequents_explored: self.sequents_explored,
            cache_hits: self.cache_hits,
            max_depth_reached: self.max_depth_reached,
        }
    }
}

/// A prover for linear logic sequents, by focused proof search.
pub struct Prover {
    /// Maximum search depth
    pub max_depth: usize,
    /// Enable caching of failed sequents
    pub use_cache: bool,
    /// The keys of the sequents that failed
    cache: FailureCache,
    /// Statistics
    stats: ProverStats,
}

impl Prover {
    /// The keys of the sequents that the prover has cached as failed.
    pub closed spec fn cached(&self) -> Set<Key> {
        self.cache@
    }

    /// The statistics that the prover holds.
    pub closed spec fn counters(&self) -> ProverStats {
        self.stats
    }

    /// Whether the statistics are those of a search: no more cache hits
    /// than sequents explored, and no depth reached beyond one past the
    /// budget.
    pub closed spec fn tally_ok(&self) -> bool {
        &&& self.stats.cache_hits <= self.stats.sequents_explored
        &&& self.stats.max_depth_reached as nat <= self.max_depth as nat + 1
    }

    /// The number of sequents that the statistics count as explored.
    pub closed spec fn explored(&self) -> nat {
        self.stats.sequents_explored as nat
    }

    /// The settings of the prover: its two public fields.
    pub closed spec fn limits(&self) -> Limits {
        Limits { max_depth: self.max_depth as nat, use_cache: self.use_cache }
    }

    /// Makes a prover with the given depth budget, with caching switched on
    /// and nothing cached.
    pub fn new(max_depth: usize) -> (r: Prover)
        ensures
            r.limits() == (Limits { max_depth: max_depth as nat, use_cache: true }),
            r.cached() == Set::<Key>::empty(),
            r.counters().sequents_explored == 0,
            r.counters().cache_hits == 0,
            r.counters().max_depth_reached == 0,
    {
        Prover {
            max_depth,
            use_cache: true,
            cache: FailureCache::new(),
            stats: ProverStats::default(),
        }
    }

    /// The statistics of the last search.
    pub fn stats(&self) -> (r: &ProverStats)
        ensures
            *r == self.counters(),
    {
        &self.stats
    }

    /// Empties the cache and sets the statistics back to zero.
    pub fn reset(&mut self)
        ensures
            final(self).limits() == old(self).limits(),
            final(self).cached() == Set::<Key>::empty(),
            final(self).counters().sequents_explored == 0,
            final(self).counters().cache_hits == 0,
            final(self).counters().max_depth_reached == 0,
    {
        self.cache = FailureCache::new();
        self.stats = ProverStats::default();
    }

    /// Computes the canonical key of a sequent.
    pub fn sequent_key(&self, seq: &Sequent) -> (r: Vec<String>)
        ensures
            views(r@) == key_of(seq@),
    {
        let mut keys = pretty_formulas(&seq.linear);
        let ghost front = views(keys@);
        let mut i: usize = 0;
        while i < seq.unrestricted.len()
            invariant
                i <= seq.unrestricted.len(),
                front == pretty_each(seq@.linear),
                views(keys@) == front + marked_each(seq@.unrestricted).take(i as int),
            decreases seq.unrestricted.len() - i,
        {
            let ghost before = views(keys@);
            keys.push(glue2("?", seq.unrestricted[i].pretty().as_str()));
            assert(views(keys@) =~= before.push("?"@ + seq.unrestricted[i as int]@.pretty()));
            assert(views(keys@) =~= front + marked_each(seq@.unrestricted).take(i + 1));
            i = i + 1;
        }
        assert(marked_each(seq@.unrestricted).take(seq.unrestricted.len() as int)
            =~= marked_each(seq@.unrestricted));
        sort_strings(keys)
    }

    /// Proves a two-sided sequent Γ ⊢ Δ, in its one-sided form.
    pub fn prove_two_sided(&mut self, seq: &TwoSidedSequent) -> (r: Option<Proof>)
        ensures
            final(self).limits() == old(self).limits(),
            outcome_of(
                r,
                final(self).cached(),
                search(
                    old(self).limits(),
                    seq@.to_one_sided(),
                    old(self).limits().max_depth + 1,
                    old(self).cached(),
                ).starved,
            ) == search(
                old(self).limits(),
                seq@.to_one_sided(),
                old(self).limits().max_depth + 1,
                old(self).cached(),
            ),
            r matches Some(p) ==> p@.conclusion == settle(seq@.to_one_sided()) && derivation(p@)
                && leaves_closed(p@) && p@.cut_count() == 0 && p@.depth() <= old(
                self,
            ).limits().max_depth + 1,
            1 <= final(self).counters().sequents_explored,
            final(self).counters().cache_hits <= final(self).counters().sequents_explored,
            final(self).counters().max_depth_reached as nat <= final(self).limits().max_depth + 1,
    {
        let one_sided = seq.to_one_sided();
        self.prove(&one_sided)
    }

    /// Proves a one-sided sequent ⊢ Γ, or fails within the depth budget.
    /// What is cached stays cached, and the failures of this search are
    /// added, but for those that came from running out of depth: a sequent
    /// that failed only because the budget was used up may be proved by a
    /// search that meets it nearer the root.
    pub fn prove(&mut self, seq: &Sequent) -> (r: Option<Proof>)
        ensures
            final(self).limits() == old(self).limits(),
            outcome_of(
                r,
                final(self).cached(),
                search(
                    old(self).limits(),
                    seq@,
                    old(self).limits().max_depth + 1,
                    old(self).cached(),
                ).starved,
            ) == search(
                old(self).limits(),
                seq@,
                old(self).limits().max_depth + 1,
                old(self).cached(),
            ),
            r matches Some(p) ==> p@.conclusion == settle(seq@) && derivation(p@) && leaves_closed(
                p@,
            ) && p@.cut_count() == 0,
            old(self).cached().subset_of(final(self).cached()),
            !old(self).limits().use_cache ==> final(self).cached() == old(self).cached(),
            r is None && old(self).limits().use_cache && !search(
                old(self).limits(),
                seq@,
                old(self).limits().max_depth + 1,
                old(self).cached(),
            ).starved ==> final(self).cached().contains(key_of(seq@)),
            r matches Some(p) ==> p@.depth() <= old(self).limits().max_depth + 1,
            1 <= final(self).counters().sequents_explored,
            final(self).counters().cache_hits <= final(self).counters().sequents_explored,
            final(self).counters().max_depth_reached as nat <= final(self).limits().max_depth + 1,
    {
        self.stats.sequents_explored = 0;
        self.stats.cache_hits = 0;
        self.stats.max_depth_reached = 0;
        let ghost lim = self.limits();
        let ghost start = self.cached();
        let (r, _) = self.prove_with_depth(seq, 0);
        proof {
            lemma_search_sound(lim, seq@, lim.max_depth + 1, start);
            lemma_search_keeps_cache(lim, seq@, lim.max_depth + 1, start);
            if r is Some {
                lemma_derivation_is_cut_free(r->0@);
                lemma_derivation_closes_leaves(r->0@);
            }
        }
        r
    }

    /// The search one level further down than `depth`.
    fn descend(&mut self, seq: &Sequent, depth: usize) -> (r: (Option<Proof>, bool))
        requires
            depth <= old(self).max_depth,
            old(self).tally_ok(),
        ensures
            final(self).limits() == old(self).limits(),
            final(self).tally_ok(),
            final(self).explored() >= old(self).explored(),
            outcome_of(r.0, final(self).cached(), r.1) == search(
                old(self).limits(),
                seq@,
                (levels_left(old(self).max_depth, depth) - 1) as nat,
                old(self).cached(),
            ),
        decreases levels_left(old(self).max_depth, depth) - 1, lolli_count(seq@.linear), 6nat, 0nat,
    {
        if depth == usize::MAX {
            reveal(search);
            self.stats.sequents_explored = add_capped(self.stats.sequents_explored, 1);
            self.stats.max_depth_reached = usize::MAX;
            (None, true)
        } else {
            self.prove_with_depth(seq, depth + 1)
        }
    }

    /// The search at the given depth.
    fn prove_with_depth(&mut self, seq: &Sequent, depth: usize) -> (r: (Option<Proof>, bool))
        requires
            old(self).tally_ok(),
            depth <= old(self).max_depth + 1,
        ensures
            final(self).limits() == old(self).limits(),
            final(self).tally_ok(),
            final(self).explored() >= old(self).explored(),
            final(self).explored() >= 1,
            outcome_of(r.0, final(self).cached(), r.1) == search(
                old(self).limits(),
                seq@,
                levels_left(old(self).max_depth, depth),
                old(self).cached(),
            ),
        decreases levels_left(old(self).max_depth, depth), lolli_count(seq@.linear), 5nat, 0nat,
    {
        reveal(search);
        reveal(search_async);
        self.stats.sequents_explored = add_capped(self.stats.sequents_explored, 1);
        if depth > self.stats.max_depth_reached {
            self.stats.max_depth_reached = depth;
        }
        if depth > self.max_depth {
            return (None, true);
        }
        if self.use_cache {
            let key = self.sequent_key(seq);
            if self.cache.contains(&key) {
                self.stats.cache_hits = add_capped(self.stats.cache_hits, 1);
                return (None, false);
            }
        }
        let result = self.prove_async(seq, depth);
        if result.0.is_none() && self.use_cache && !result.1 {
            let key = self.sequent_key(seq);
            self.cache.insert(key);
        }
        result
    }

    /// The asynchronous phase.
    fn prove_async(&mut self, seq: &Sequent, depth: usize) -> (r: (Option<Proof>, bool))
        requires
            depth <= old(self).max_depth,
            old(self).tally_ok(),
        ensures
            final(self).limits() == old(self).limits(),
            final(self).tally_ok(),
            final(self).explored() >= old(self).explored(),
            outcome_of(r.0, final(self).cached(), r.1) == search_async(
                old(self).limits(),
                seq@,
                levels_left(old(self).max_depth, depth),
                old(self).cached(),
            ),
        decreases levels_left(old(self).max_depth, depth), lolli_count(seq@.linear), 4nat, 0nat,
    {
        let ghost lim = self.limits();
        let ghost start = self.cached();
        let ghost left = levels_left(self.max_depth, depth);
        let ghost below = (left - 1) as nat;
        let ghost sv = seq@;
        if seq.linear.len() == 0 && seq.focus.is_none() {
            assert(search_async(lim, sv, left, start) == failure(start)) by {
                reveal(search_async);
            }
            return (None, false);
        }
        let i = find_async(&seq.linear);
        if i >= seq.linear.len() {
            assert(search_async(lim, sv, left, start) == search_sync(lim, sv, left, start)) by {
                reveal(search_async);
                reveal(search_sync);
            }
            return self.prove_sync(seq, depth);
        }
        assert(sv.linear[i as int] == seq.linear[i as int]@);
        let ghost rest = sv.linear.remove(i as int);
        match &seq.linear[i] {
            Formula::Par(a, b) => {
                assert(search_async(lim, sv, left, start) == from_premise(
                    sv,
                    RuleView::ParIntro,
                    search(lim, goal(rest.push(a@).push(b@), sv.unrestricted), below, start),
                )) by {
                    reveal(search_async);
                    reveal(search);
                }
                let others = formulas_without(&seq.linear, i);
                let new_seq = make_goal(
                    with_formula(with_formula(others, a), b),
                    &seq.unrestricted,
                );
                match self.descend(&new_seq, depth) {
                    (Some(p), _) => (Some(conclude1(seq, Rule::ParIntro, p)), false),
                    (None, starved) => (None, starved),
                }
            },
            Formula::Bottom => {
                assert(search_async(lim, sv, left, start) == from_premise(
                    sv,
                    RuleView::BottomIntro,
                    search(lim, goal(rest, sv.unrestricted), below, start),
                )) by {
                    reveal(search_async);
                    reveal(search);
                }
                let others = formulas_without(&seq.linear, i);
                let new_seq = make_goal(others, &seq.unrestricted);
                match self.descend(&new_seq, depth) {
                    (Some(p), _) => (Some(conclude1(seq, Rule::BottomIntro, p)), false),
                    (None, starved) => (None, starved),
                }
            },
            Formula::Top => {
                assert(search_async(lim, sv, left, start) == success(
                    sv,
                    RuleView::TopIntro,
                    Seq::empty(),
                    start,
                )) by {
                    reveal(search_async);
                }
                (Some(conclude0(seq, Rule::TopIntro)), false)
            },
            Formula::With(a, b) => {
                assert(search_async(lim, sv, left, start) == {
                    let first = search(lim, goal(rest.push(a@), sv.unrestricted), below, start);
                    match first.proof {
                        None => first,
                        Some(p) => {
                            let second = search(
                                lim,
                                goal(rest.push(b@), sv.unrestricted),
                                below,
                                first.cache,
                            );
                            match second.proof {
                                None => second,
                                Some(q) => success(
                                    sv,
                                    RuleView::WithIntro,
                                    seq![p, q],
                                    second.cache,
                                ),
                            }
                        },
                    }
                }) by {
                    reveal(search_async);
                    reveal(search);
                }
                let left_seq = make_goal(
                    with_formula(formulas_without(&seq.linear, i), a),
                    &seq.unrestricted,
                );
                let right_seq = make_goal(
                    with_formula(formulas_without(&seq.linear, i), b),
                    &seq.unrestricted,
                );
                match self.descend(&left_seq, depth) {
                    (Some(p), _) => match self.descend(&right_seq, depth) {
                        (Some(q), _) => (Some(conclude2(seq, Rule::WithIntro, p, q)), false),
                        (None, starved) => (None, starved),
                    },
                    (None, starved) => (None, starved),
                }
            },
            Formula::WhyNot(a) => {
                assert(search_async(lim, sv, left, start) == from_premise(
                    sv,
                    RuleView::WhyNotIntro,
                    search(lim, goal(rest, sv.unrestricted.push(a@)), below, start),
                )) by {
                    reveal(search_async);
                    reveal(search);
                }
                let others = formulas_without(&seq.linear, i);
                let new_seq = Sequent {
                    linear: others,
                    unrestricted: with_formula(clone_formulas(&seq.unrestricted), a),
                    focus: None,
                };
                match self.descend(&new_seq, depth) {
                    (Some(p), _) => (Some(conclude1(seq, Rule::WhyNotIntro, p)), false),
                    (None, starved) => (None, starved),
                }
            },
            Formula::Lolli(a, b) => {
                assert(search_async(lim, sv, left, start) == search(
                    lim,
                    goal(
                        sv.linear.update(i as int, expand_lolli(sv.linear[i as int])),
                        sv.unrestricted,
                    ),
                    left,
                    start,
                )) by {
                    reveal(search_async);
                    reveal(search);
                }
                let desugared = Formula::Par(Box::new(a.negate()), Box::new((**b).clone()));
                let mut new_linear = clone_formulas(&seq.linear);
                new_linear.set(i, desugared);
                proof {
                    assert(formula_views(new_linear@) =~= sv.linear.update(
                        i as int,
                        expand_lolli(sv.linear[i as int]),
                    ));
                    lemma_expanding_removes_lolli(sv.linear, i as int);
                }
                let new_seq = make_goal(new_linear, &seq.unrestricted);
                self.prove_with_depth(&new_seq, depth)
            },
            _ => {
                assert(search_async(lim, sv, left, start) == failure(start)) by {
                    reveal(search_async);
                }
                (None, false)
            },
        }
    }

    /// The synchronous phase.
    fn prove_sync(&mut self, seq: &Sequent, depth: usize) -> (r: (Option<Proof>, bool))
        requires
            depth <= old(self).max_depth,
            old(self).tally_ok(),
        ensures
            final(self).limits() == old(self).limits(),
            final(self).tally_ok(),
            final(self).explored() >= old(self).explored(),
            outcome_of(r.0, final(self).cached(), r.1) == search_sync(
                old(self).limits(),
                seq@,
                levels_left(old(self).max_depth, depth),
                old(self).cached(),
            ),
        decreases levels_left(old(self).max_depth, depth), lolli_count(seq@.linear), 3nat, 0nat,
    {
        reveal(search_sync);
        reveal(search_positive);
        reveal(search_structural);
        let mut starved = false;
        match self.try_positive(seq, depth) {
            (Some(proof), flag) => {
                return (Some(proof), flag);
            },
            (None, flag) => {
                starved = flag;
            },
        }
        match self.try_negated_atoms(seq) {
            Some(proof) => {
                return (Some(proof), false);
            },
            None => {},
        }
        if seq.unrestricted.len() > 0 {
            match self.try_dereliction(seq, depth) {
                (Some(proof), flag) => {
                    return (Some(proof), flag);
                },
                (None, flag) => {
                    starved = starved || flag;
                },
            }
            match self.try_contraction(seq, depth) {
                (Some(proof), flag) => {
                    return (Some(proof), flag);
                },
                (None, flag) => {
                    starved = starved || flag;
                },
            }
            match self.try_weakening(seq, depth) {
                (Some(proof), flag) => {
                    return (Some(proof), flag);
                },
                (None, flag) => {
                    starved = starved || flag;
                },
            }
        }
        (None, starved)
    }

    /// Focusing on each positive formula of the linear zone in turn.
    fn try_positive(&mut self, seq: &Sequent, depth: usize) -> (r: (Option<Proof>, bool))
        requires
            depth <= old(self).max_depth,
            old(self).tally_ok(),
        ensures
            final(self).limits() == old(self).limits(),
            final(self).tally_ok(),
            final(self).explored() >= old(self).explored(),
            outcome_of(r.0, final(self).cached(), r.1) == search_positive(
                old(self).limits(),
                seq@,
                levels_left(old(self).max_depth, depth),
                old(self).cached(),
                0,
            ),
        decreases levels_left(old(self).max_depth, depth), lolli_count(seq@.linear), 2nat, 1nat,
    {
        let ghost lim = self.limits();
        let ghost left = levels_left(self.max_depth, depth);
        let ghost start = self.cached();
        let ghost sv = seq@;
        let mut starved = false;
        let mut i: usize = 0;
        while i < seq.linear.len()
            invariant
                i <= seq.linear.len(),
                sv == seq@,
                self.limits() == lim,
                lim == old(self).limits(),
                self.tally_ok(),
                self.explored() >= old(self).explored(),
                start == old(self).cached(),
                depth <= self.max_depth,
                left == levels_left(self.max_depth, depth),
                left > 0,
                search_positive(lim, sv, left, start, 0) == after(
                    starved,
                    search_positive(lim, sv, left, self.cached(), i as nat),
                ),
            decreases seq.linear.len() - i,
        {
            reveal(search_positive);
            reveal(search_focused);
            assert(sv.linear[i as int] == seq.linear[i as int]@);
            if seq.linear[i].is_positive() {
                match self.prove_focused(seq, i, depth) {
                    (Some(proof), flag) => {
                        return (Some(proof), flag);
                    },
                    (None, flag) => {
                        starved = starved || flag;
                    },
                }
            }
            i = i + 1;
        }
        reveal(search_positive);
        (None, starved)
    }

    /// The axiom rule tried from each negated atom of the linear zone.
    fn try_negated_atoms(&mut self, seq: &Sequent) -> (r: Option<Proof>)
        requires
            old(self).tally_ok(),
        ensures
            final(self).limits() == old(self).limits(),
            final(self).tally_ok(),
            final(self).explored() >= old(self).explored(),
            final(self).cached() == old(self).cached(),
            r is Some <==> axiom_pair(seq@.linear),
            r matches Some(p) ==> p@ == (ProofView {
                conclusion: seq@,
                rule: RuleView::Axiom,
                premises: Seq::empty(),
            }),
    {
        let mut j: usize = 0;
        while j < seq.linear.len()
            invariant
                j <= seq.linear.len(),
                self.limits() == old(self).limits(),
                self.cached() == old(self).cached(),
                self.tally_ok(),
                self.explored() >= old(self).explored(),
                axiom_pair(seq@.linear) ==> forall|t: int|
                    0 <= t < j ==> !(#[trigger] seq@.linear[t] is NegAtom),
            decreases seq.linear.len() - j,
        {
            assert(seq@.linear[j as int] == seq.linear[j as int]@);
            match &seq.linear[j] {
                Formula::NegAtom(_) => {
                    match self.try_axiom(seq, j) {
                        Some(proof) => {
                            return Some(proof);
                        },
                        None => {},
                    }
                },
                _ => {},
            }
            j = j + 1;
        }
        proof {
            if axiom_pair(seq@.linear) {
                assert(!(seq@.linear[0] is NegAtom));
                assert(!(seq@.linear[1] is NegAtom));
            }
        }
        None
    }

    /// The structural rule `rule` on each unrestricted formula in turn.
    fn try_structural(&mut self, seq: &Sequent, depth: usize, rule: Rule) -> (r: (Option<Proof>, bool))
        requires
            depth <= old(self).max_depth,
            old(self).tally_ok(),
            rule@ is Dereliction || rule@ is Contraction || rule@ is Weakening,
        ensures
            final(self).limits() == old(self).limits(),
            final(self).tally_ok(),
            final(self).explored() >= old(self).explored(),
            outcome_of(r.0, final(self).cached(), r.1) == search_structural(
                old(self).limits(),
                seq@,
                levels_left(old(self).max_depth, depth),
                old(self).cached(),
                rule@,
                0,
            ),
        decreases levels_left(old(self).max_depth, depth), lolli_count(seq@.linear), 2nat, 1nat,
    {
        let ghost lim = self.limits();
        let ghost left = levels_left(self.max_depth, depth);
        let ghost start = self.cached();
        let ghost sv = seq@;
        let ghost rv = rule@;
        let mut starved = false;
        let mut i: usize = 0;
        while i < seq.unrestricted.len()
            invariant
                i <= seq.unrestricted.len(),
                sv == seq@,
                rv == rule@,
                self.limits() == lim,
                lim == old(self).limits(),
                self.tally_ok(),
                self.explored() >= old(self).explored(),
                start == old(self).cached(),
                depth <= self.max_depth,
                left == levels_left(self.max_depth, depth),
                left > 0,
                rv is Dereliction || rv is Contraction || rv is Weakening,
                search_structural(lim, sv, left, start, rv, 0) == after(
                    starved,
                    search_structural(lim, sv, left, self.cached(), rv, i as nat),
                ),
            decreases seq.unrestricted.len() - i,
        {
            reveal(search_structural);
            reveal(search);
            assert(sv.unrestricted[i as int] == seq.unrestricted[i as int]@);
            let formula = &seq.unrestricted[i];
            let new_linear = match &rule {
                Rule::Dereliction => with_formula(clone_formulas(&seq.linear), formula),
                Rule::Contraction => with_formula(
                    with_formula(clone_formulas(&seq.linear), formula),
                    formula,
                ),
                _ => clone_formulas(&seq.linear),
            };
            let new_seq = Sequent {
                linear: new_linear,
                unrestricted: formulas_without(&seq.unrestricted, i),
                focus: None,
            };
            assert(new_seq@ == structural_premise(sv, rv, i as int));
            match self.descend(&new_seq, depth) {
                (Some(p), _) => {
                    return (Some(conclude1(seq, rule, p)), false);
                },
                (None, flag) => {
                    starved = starved || flag;
                },
            }
            i = i + 1;
        }
        reveal(search_structural);
        (None, starved)
    }

    /// Dereliction: an unrestricted formula is moved to the linear zone.
    fn try_dereliction(&mut self, seq: &Sequent, depth: usize) -> (r: (Option<Proof>, bool))
        requires
            depth <= old(self).max_depth,
            old(self).tally_ok(),
        ensures
            final(self).limits() == old(self).limits(),
            final(self).tally_ok(),
            final(self).explored() >= old(self).explored(),
            outcome_of(r.0, final(self).cached(), r.1) == search_structural(
                old(self).limits(),
                seq@,
                levels_left(old(self).max_depth, depth),
                old(self).cached(),
                RuleView::Dereliction,
                0,
            ),
        decreases levels_left(old(self).max_depth, depth), lolli_count(seq@.linear), 2nat, 2nat,
    {
        self.try_structural(seq, depth, Rule::Dereliction)
    }

    /// Contraction: an unrestricted formula is moved to the linear zone
    /// twice.
    fn try_contraction(&mut self, seq: &Sequent, depth: usize) -> (r: (Option<Proof>, bool))
        requires
            depth <= old(self).max_depth,
            old(self).tally_ok(),
        ensures
            final(self).limits() == old(self).limits(),
            final(self).tally_ok(),
            final(self).explored() >= old(self).explored(),
            outcome_of(r.0, final(self).cached(), r.1) == search_structural(
                old(self).limits(),
                seq@,
                levels_left(old(self).max_depth, depth),
                old(self).cached(),
                RuleView::Contraction,
                0,
            ),
        decreases levels_left(old(self).max_depth, depth), lolli_count(seq@.linear), 2nat, 2nat,
    {
        self.try_structural(seq, depth, Rule::Contraction)
    }

    /// Weakening: an unrestricted formula is dropped.
    fn try_weakening(&mut self, seq: &Sequent, depth: usize) -> (r: (Option<Proof>, bool))
        requires
            depth <= old(self).max_depth,
            old(self).tally_ok(),
        ensures
            final(self).limits() == old(self).limits(),
            final(self).tally_ok(),
            final(self).explored() >= old(self).explored(),
            outcome_of(r.0, final(self).cached(), r.1) == search_structural(
                old(self).limits(),
                seq@,
                levels_left(old(self).max_depth, depth),
                old(self).cached(),
                RuleView::Weakening,
                0,
            ),
        decreases levels_left(old(self).max_depth, depth), lolli_count(seq@.linear), 2nat, 2nat,
    {
        self.try_structural(seq, depth, Rule::Weakening)
    }

    /// The focused phase: the positive formula at `idx` is decomposed.
    fn prove_focused(&mut self, seq: &Sequent, idx: usize, depth: usize) -> (r: (Option<Proof>, bool))
        requires
            depth <= old(self).max_depth,
            old(self).tally_ok(),
            idx < seq.linear@.len(),
        ensures
            final(self).limits() == old(self).limits(),
            final(self).tally_ok(),
            final(self).explored() >= old(self).explored(),
            outcome_of(r.0, final(self).cached(), r.1) == search_focused(
                old(self).limits(),
                seq@,
                idx as int,
                levels_left(old(self).max_depth, depth),
                old(self).cached(),
            ),
        decreases levels_left(old(self).max_depth, depth), lolli_count(seq@.linear), 1nat, 0nat,
    {
        reveal(search_focused);
        reveal(search);
        reveal(search_splits);
        assert(seq@.linear[idx as int] == seq.linear[idx as int]@);
        match &seq.linear[idx] {
            Formula::Atom(name) => {
                if seq.linear.len() == 2 {
                    assert(seq@.linear[1 - idx as int] == seq.linear[1 - idx as int]@);
                    match &seq.linear[1 - idx] {
                        Formula::NegAtom(other) => {
                            if *name == *other {
                                return (Some(conclude0(seq, Rule::Axiom)), false);
                            }
                        },
                        _ => {},
                    }
                }
                (None, false)
            },
            Formula::One => {
                if seq.linear.len() == 1 {
                    (Some(conclude0(seq, Rule::OneIntro)), false)
                } else {
                    (None, false)
                }
            },
            Formula::Zero => (None, false),
            Formula::Tensor(a, b) => self.try_splits(seq, idx, depth, a, b),
            Formula::Plus(a, b) => {
                let mut left_linear = clone_formulas(&seq.linear);
                left_linear.set(idx, (**a).clone());
                assert(formula_views(left_linear@) =~= seq@.linear.update(idx as int, a@));
                let left_seq = make_goal(left_linear, &seq.unrestricted);
                let first_starved = match self.descend(&left_seq, depth) {
                    (Some(p), _) => {
                        return (Some(conclude1(seq, Rule::PlusIntroLeft, p)), false);
                    },
                    (None, flag) => flag,
                };
                let mut right_linear = clone_formulas(&seq.linear);
                right_linear.set(idx, (**b).clone());
                assert(formula_views(right_linear@) =~= seq@.linear.update(idx as int, b@));
                let right_seq = make_goal(right_linear, &seq.unrestricted);
                match self.descend(&right_seq, depth) {
                    (Some(p), _) => (Some(conclude1(seq, Rule::PlusIntroRight, p)), false),
                    (None, flag) => (None, first_starved || flag),
                }
            },
            Formula::OfCourse(a) => {
                if seq.linear.len() == 1 {
                    let mut body: Vec<Formula> = Vec::new();
                    body.push((**a).clone());
                    assert(formula_views(body@) =~= seq![a@]);
                    let new_seq = make_goal(body, &seq.unrestricted);
                    match self.descend(&new_seq, depth) {
                        (Some(p), _) => (Some(conclude1(seq, Rule::OfCourseIntro, p)), false),
                        (None, flag) => (None, flag),
                    }
                } else {
                    (None, false)
                }
            },
            _ => (None, false),
        }
    }

    /// The tensor rule on the formula `a ⊗ b` at `idx`: every split of the
    /// other formulas in turn.
    fn try_splits(
        &mut self,
        seq: &Sequent,
        idx: usize,
        depth: usize,
        a: &Formula,
        b: &Formula,
    ) -> (r: (Option<Proof>, bool))
        requires
            depth <= old(self).max_depth,
            old(self).tally_ok(),
            idx < seq.linear@.len(),
            seq@.linear[idx as int] == FormulaView::Tensor(Box::new(a@), Box::new(b@)),
        ensures
            final(self).limits() == old(self).limits(),
            final(self).tally_ok(),
            final(self).explored() >= old(self).explored(),
            outcome_of(r.0, final(self).cached(), r.1) == search_splits(
                old(self).limits(),
                seq@,
                idx as int,
                levels_left(old(self).max_depth, depth),
                old(self).cached(),
                0,
            ),
        decreases levels_left(old(self).max_depth, depth), lolli_count(seq@.linear), 0nat, 1nat,
    {
        let others = formulas_without(&seq.linear, idx);
        let ghost lim = self.limits();
        let ghost left = levels_left(self.max_depth, depth);
        let ghost start = self.cached();
        let ghost sv = seq@;
        let ghost n = others@.len() as nat;
        let mut mask = zero_mask(others.len());
        let ghost mut k: nat = 0;
        let mut more = true;
        let mut starved = false;
        proof {
            lemma_pow2_positive(n);
        }
        while more
            invariant
                sv == seq@,
                self.limits() == lim,
                lim == old(self).limits(),
                self.tally_ok(),
                self.explored() >= old(self).explored(),
                start == old(self).cached(),
                depth <= self.max_depth,
                left == levels_left(self.max_depth, depth),
                left > 0,
                idx < seq.linear@.len(),
                sv.linear[idx as int] == FormulaView::Tensor(Box::new(a@), Box::new(b@)),
                n == others@.len(),
                n == sv.linear.remove(idx as int).len(),
                formula_views(others@) == sv.linear.remove(idx as int),
                mask@.len() == n,
                more ==> mask@ == mask_bits(k, n),
                more == (k < pow2(n)),
                search_splits(lim, sv, idx as int, left, start, 0) == after(
                    starved,
                    search_splits(lim, sv, idx as int, left, self.cached(), k),
                ),
            decreases pow2(n) - k,
        {
            reveal(search_splits);
            reveal(search);
            let left_seq = make_goal(
                with_formula(pick_formulas(&others, &mask, false), a),
                &seq.unrestricted,
            );
            let right_seq = make_goal(
                with_formula(pick_formulas(&others, &mask, true), b),
                &seq.unrestricted,
            );
            assert(left_seq@ == tensor_left(sv, idx as int, k));
            assert(right_seq@ == tensor_right(sv, idx as int, k));
            match self.descend(&left_seq, depth) {
                (Some(p), _) => match self.descend(&right_seq, depth) {
                    (Some(q), _) => {
                        return (Some(conclude2(seq, Rule::TensorIntro, p, q)), false);
                    },
                    (None, flag) => {
                        starved = starved || flag;
                    },
                },
                (None, flag) => {
                    starved = starved || flag;
                },
            }
            more = advance_mask(&mut mask, Ghost(k));
            proof {
                k = k + 1;
            }
        }
        reveal(search_splits);
        (None, starved)
    }

    /// The axiom rule from the negated atom at `neg_idx`: the zone must be
    /// that negated atom and its atom.
    fn try_axiom(&mut self, seq: &Sequent, neg_idx: usize) -> (r: Option<Proof>)
        requires
            neg_idx < seq.linear@.len(),
            old(self).tally_ok(),
        ensures
            final(self).limits() == old(self).limits(),
            final(self).tally_ok(),
            final(self).explored() >= old(self).explored(),
            final(self).cached() == old(self).cached(),
            r is Some <==> seq@.linear.len() == 2 && seq@.linear[1 - neg_idx] is Atom
                && seq@.linear[neg_idx as int] == FormulaView::NegAtom(
                seq@.linear[1 - neg_idx]->Atom_0,
            ),
            r matches Some(p) ==> p@ == (ProofView {
                conclusion: seq@,
                rule: RuleView::Axiom,
                premises: Seq::empty(),
            }),
    {
        assert(seq@.linear[neg_idx as int] == seq.linear[neg_idx as int]@);
        match &seq.linear[neg_idx] {
            Formula::NegAtom(name) => {
                if seq.linear.len() == 2 {
                    assert(seq@.linear[1 - neg_idx as int] == seq.linear[1 - neg_idx as int]@);
                    match &seq.linear[1 - neg_idx] {
                        Formula::Atom(other) => {
                            if *name == *other {
                                return Some(conclude0(seq, Rule::Axiom));
                            }
                        },
                        _ => {},
                    }
                }
                None
            },
            _ => None,
        }
    }
}

/// A prover that starts every search with an empty cache.
pub struct FocusedProver {
    /// Maximum search depth
    pub max_depth: usize,
    /// Enable caching of failed branches
    pub use_cache: bool,
}

impl FocusedProver {
    /// The settings of the prover.
    pub open spec fn limits(&self) -> Limits {
        Limits { max_depth: self.max_depth as nat, use_cache: self.use_cache }
    }

    /// Makes a prover with the given depth budget, with caching switched on.
    pub fn new(max_depth: usize) -> (r: FocusedProver)
        ensures
            r.max_depth == max_depth,
            r.use_cache,
    {
        FocusedProver { max_depth, use_cache: true }
    }

    /// Searches for a proof of the sequent, from an empty cache. The proof
    /// found, if any, is a derivation without cuts of what the sequent
    /// settles to, at most one level deeper than the budget.
    pub fn prove(&mut self, sequent: &Sequent) -> (r: Option<Proof>)
        ensures
            *final(self) == *old(self),
            outcome_of(r, Set::empty(), false).proof == search(
                old(self).limits(),
                sequent@,
                old(self).max_depth as nat + 1,
                Set::empty(),
            ).proof,
            r matches Some(p) ==> p@.conclusion == settle(sequent@) && derivation(p@)
                && leaves_closed(p@) && p@.cut_count() == 0,
            r matches Some(p) ==> p@.depth() <= old(self).max_depth + 1,
    {
        let mut prover = Prover::new(self.max_depth);
        prover.use_cache = self.use_cache;
        prover.prove(sequent)
    }
}

} // verus!
