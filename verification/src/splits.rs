//! The splits of a list into two parts, numbered in binary.

use vstd::prelude::*;
use crate::formula::Formula;
use crate::sequent::formula_views;

verus! {

/// Two to the power `n`.
pub open spec fn pow2(n: nat) -> nat
    decreases n,
{
    if n == 0 {
        1
    } else {
        2 * pow2((n - 1) as nat)
    }
}

/// The lowest `n` binary digits of `k`, the lowest first.
pub open spec fn mask_bits(k: nat, n: nat) -> Seq<bool>
    decreases n,
{
    if n == 0 {
        Seq::empty()
    } else {
        seq![k % 2 == 1] + mask_bits(k / 2, (n - 1) as nat)
    }
}

/// The items whose digit in `bits` equals `side`, in their order.
pub open spec fn pick<T>(items: Seq<T>, bits: Seq<bool>, side: bool) -> Seq<T>
    decreases items.len(),
{
    if items.len() == 0 || bits.len() != items.len() {
        Seq::empty()
    } else {
        let rest = pick(items.drop_last(), bits.drop_last(), side);
        if bits.last() == side {
            rest.push(items.last())
        } else {
            rest
        }
    }
}

/// Every power of two is positive.
pub proof fn lemma_pow2_positive(n: nat)
    ensures
        pow2(n) > 0,
    decreases n,
{
    if n > 0 {
        lemma_pow2_positive((n - 1) as nat);
    }
}

/// The binary digits of every number have the asked length.
pub proof fn lemma_mask_len(k: nat, n: nat)
    ensures
        mask_bits(k, n).len() == n,
    decreases n,
{
    if n > 0 {
        lemma_mask_len(k / 2, (n - 1) as nat);
    }
}

/// The digits of zero are all 0.
pub proof fn lemma_mask_zero(n: nat)
    ensures
        mask_bits(0, n) == Seq::new(n, |i: int| false),
    decreases n,
{
    if n > 0 {
        lemma_mask_zero((n - 1) as nat);
        lemma_mask_len(0, (n - 1) as nat);
    }
    lemma_mask_len(0, n);
    assert(mask_bits(0, n) =~= Seq::new(n, |i: int| false));
}

/// Counting up by one: where the digits of `k` are 1 below position `j` and
/// 0 at `j`, those of `k + 1` are 0 below `j`, 1 at `j` and unchanged above,
/// and `k + 1` is still below `2^n`.
pub proof fn lemma_mask_step(k: nat, n: nat, j: int)
    requires
        0 <= j < n,
        forall|i: int| 0 <= i < j ==> mask_bits(k, n)[i],
        !mask_bits(k, n)[j],
        k < pow2(n),
    ensures
        k + 1 < pow2(n),
        mask_bits(k + 1, n) == Seq::new(
            n,
            |i: int|
                if i < j {
                    false
                } else if i == j {
                    true
                } else {
                    mask_bits(k, n)[i]
                },
        ),
    decreases n,
{
    let m = (n - 1) as nat;
    lemma_mask_len(k, n);
    lemma_mask_len(k + 1, n);
    lemma_mask_len(k / 2, m);
    lemma_mask_len((k + 1) / 2, m);
    let old_bits = mask_bits(k, n);
    let new_bits = mask_bits(k + 1, n);
    let want = Seq::new(
        n,
        |i: int|
            if i < j {
                false
            } else if i == j {
                true
            } else {
                mask_bits(k, n)[i]
            },
    );
    let old_half = mask_bits(k / 2, m);
    let new_half = mask_bits((k + 1) / 2, m);
    assert(old_bits[0] == (k % 2 == 1));
    assert forall|i: int| 1 <= i < n implies #[trigger] old_bits[i] == old_half[i - 1] by {}
    assert forall|i: int| 1 <= i < n implies #[trigger] new_bits[i] == new_half[i - 1] by {}
    if j == 0 {
        assert(k % 2 == 0);
        assert((k + 1) / 2 == k / 2);
        assert(new_bits =~= want);
    } else {
        assert(old_bits[0]);
        assert(k % 2 == 1);
        assert((k + 1) / 2 == k / 2 + 1);
        assert forall|i: int| 0 <= i < j - 1 implies #[trigger] old_half[i] by {
            assert(old_bits[i + 1]);
        }
        assert(!old_half[j - 1]) by {
            assert(!old_bits[j]);
        }
        lemma_mask_step(k / 2, m, j - 1);
        assert(new_bits =~= want);
    }
}

/// The number whose digits are all 1 is the last one below `2^n`.
pub proof fn lemma_mask_full(k: nat, n: nat)
    requires
        k < pow2(n),
        forall|i: int| 0 <= i < n ==> mask_bits(k, n)[i],
    ensures
        k + 1 == pow2(n),
    decreases n,
{
    if n > 0 {
        let m = (n - 1) as nat;
        lemma_mask_len(k, n);
        lemma_mask_len(k / 2, m);
        let half = mask_bits(k / 2, m);
        assert(mask_bits(k, n)[0]);
        assert forall|i: int| 0 <= i < m implies #[trigger] half[i] by {
            assert(mask_bits(k, n)[i + 1]);
        }
        lemma_mask_full(k / 2, m);
    }
}

/// Moves the digits of `k` on to those of `k + 1`, and tells whether `k + 1`
/// is still below `2^n`; if it is not, the digits are left as they were.
pub(crate) fn advance_mask(mask: &mut Vec<bool>, Ghost(k): Ghost<nat>) -> (more: bool)
    requires
        old(mask)@ == mask_bits(k, old(mask)@.len()),
        k < pow2(old(mask)@.len()),
    ensures
        final(mask)@.len() == old(mask)@.len(),
        more == (k + 1 < pow2(old(mask)@.len())),
        more ==> final(mask)@ == mask_bits(k + 1, old(mask)@.len()),
{
    let n = mask.len();
    let mut j: usize = 0;
    while j < n && mask[j]
        invariant
            j <= n,
            n == mask@.len(),
            mask@ == old(mask)@,
            forall|i: int| 0 <= i < j ==> mask@[i],
        decreases n - j,
    {
        j = j + 1;
    }
    if j == n {
        proof {
            lemma_mask_full(k, n as nat);
        }
        return false;
    }
    proof {
        lemma_mask_step(k, n as nat, j as int);
    }
    let mut i: usize = 0;
    while i < j
        invariant
            i <= j,
            j < n,
            n == mask@.len(),
            forall|t: int| 0 <= t < i ==> !mask@[t],
            forall|t: int| i <= t < n ==> mask@[t] == old(mask)@[t],
        decreases j - i,
    {
        mask.set(i, false);
        i = i + 1;
    }
    mask.set(j, true);
    assert(mask@ =~= mask_bits(k + 1, n as nat));
    true
}

/// Makes the digits of zero, `n` of them.
pub(crate) fn zero_mask(n: usize) -> (mask: Vec<bool>)
    ensures
        mask@ == mask_bits(0, n as nat),
        mask@.len() == n,
{
    let mut mask: Vec<bool> = Vec::new();
    let mut i: usize = 0;
    while i < n
        invariant
            i <= n,
            mask@.len() == i,
            forall|t: int| 0 <= t < i ==> !mask@[t],
        decreases n - i,
    {
        mask.push(false);
        i = i + 1;
    }
    proof {
        lemma_mask_zero(n as nat);
        assert(mask@ =~= mask_bits(0, n as nat));
    }
    mask
}

/// Copies the formulas whose digit in `mask` equals `side`, in their order.
pub fn pick_formulas(items: &Vec<Formula>, mask: &Vec<bool>, side: bool) -> (r: Vec<Formula>)
    requires
        mask@.len() == items@.len(),
    ensures
        formula_views(r@) == pick(formula_views(items@), mask@, side),
{
    let mut out: Vec<Formula> = Vec::new();
    let ghost all = formula_views(items@);
    let mut i: usize = 0;
    assert(formula_views(out@) =~= pick(all.take(0), mask@.take(0), side));
    while i < items.len()
        invariant
            i <= items.len(),
            mask@.len() == items@.len(),
            all == formula_views(items@),
            formula_views(out@) == pick(all.take(i as int), mask@.take(i as int), side),
        decreases items.len() - i,
    {
        let ghost before = formula_views(out@);
        proof {
            assert(all.take(i + 1).drop_last() =~= all.take(i as int));
            assert(mask@.take(i + 1).drop_last() =~= mask@.take(i as int));
            assert(all.take(i + 1).last() == items[i as int]@);
            assert(mask@.take(i + 1).last() == mask@[i as int]);
        }
        if mask[i] == side {
            out.push(items[i].clone());
            assert(formula_views(out@) =~= before.push(items[i as int]@));
        }
        i = i + 1;
    }
    proof {
        assert(all.take(items.len() as int) =~= all);
        assert(mask@.take(items.len() as int) =~= mask@);
    }
    out
}

/// Whether `copies` holds a clone of each item of `items`, in order.
pub open spec fn clones_of<T: Clone>(copies: Seq<T>, items: Seq<T>) -> bool {
    &&& copies.len() == items.len()
    &&& forall|j: int| 0 <= j < items.len() ==> cloned(#[trigger] items[j], copies[j])
}

/// Clones the items whose digit in `mask` equals `side`, in their order.
fn pick_cloned<T: Clone>(items: &[T], mask: &Vec<bool>, side: bool) -> (r: Vec<T>)
    requires
        mask@.len() == items@.len(),
    ensures
        clones_of(r@, pick(items@, mask@, side)),
{
    let mut out: Vec<T> = Vec::new();
    let mut i: usize = 0;
    while i < items.len()
        invariant
            i <= items.len(),
            mask@.len() == items@.len(),
            clones_of(out@, pick(items@.take(i as int), mask@.take(i as int), side)),
        decreases items.len() - i,
    {
        proof {
            assert(items@.take(i + 1).drop_last() =~= items@.take(i as int));
            assert(mask@.take(i + 1).drop_last() =~= mask@.take(i as int));
            assert(items@.take(i + 1).last() == items@[i as int]);
            assert(mask@.take(i + 1).last() == mask@[i as int]);
        }
        if mask[i] == side {
            out.push(items[i].clone());
        }
        i = i + 1;
    }
    proof {
        assert(items@.take(items.len() as int) =~= items@);
        assert(mask@.take(items.len() as int) =~= mask@);
    }
    out
}

/// Lists every way to split the items into a left and a right part that
/// keep their order: the split numbered `k` puts the item at `i` to the
/// right exactly when the binary digit `i` of `k` is 1. There are `2^n`
/// splits of `n` items.
pub fn all_splits<T: Clone>(items: &[T]) -> (r: Vec<(Vec<T>, Vec<T>)>)
    ensures
        r@.len() == pow2(items@.len()),
        forall|k: int|
            0 <= k < r@.len() ==> clones_of(
                (#[trigger] r@[k]).0@,
                pick(items@, mask_bits(k as nat, items@.len()), false),
            ) && clones_of(r@[k].1@, pick(items@, mask_bits(k as nat, items@.len()), true)),
{
    let n = items.len();
    let mut splits: Vec<(Vec<T>, Vec<T>)> = Vec::new();
    let mut mask = zero_mask(n);
    let ghost mut k: nat = 0;
    let mut more = true;
    proof {
        lemma_pow2_positive(n as nat);
    }
    while more
        invariant
            n == items@.len(),
            mask@.len() == n,
            more ==> mask@ == mask_bits(k, n as nat),
            more == (k < pow2(n as nat)),
            k <= pow2(n as nat),
            splits@.len() == k,
            forall|t: int|
                0 <= t < splits@.len() ==> clones_of(
                    (#[trigger] splits@[t]).0@,
                    pick(items@, mask_bits(t as nat, n as nat), false),
                ) && clones_of(
                    splits@[t].1@,
                    pick(items@, mask_bits(t as nat, n as nat), true),
                ),
        decreases pow2(n as nat) - k,
    {
        let left = pick_cloned(items, &mask, false);
        let right = pick_cloned(items, &mask, true);
        splits.push((left, right));
        more = advance_mask(&mut mask, Ghost(k));
        proof {
            k = k + 1;
        }
    }
    splits
}

} // verus!
