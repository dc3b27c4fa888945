//! The mutation database of a field-less enum: how often each variant was
//! seen. A mutation lays the variants out in a random order, each over as
//! many positions as it was seen, picks a position of the mutated variant
//! and moves from there.
use vstd::prelude::*;
use crate::random::{gen_index, shuffle_indices, thread_rng, ShiftSource};

verus! {

broadcast use {vstd::seq_lib::group_to_multiset_ensures, vstd::multiset::group_multiset_axioms};

/// The sum of the counts of the variants listed in `ids`.
pub open spec fn sum_over(counts: Seq<usize>, ids: Seq<usize>) -> int
    decreases ids.len(),
{
    if ids.len() == 0 {
        0
    } else {
        sum_over(counts, ids.drop_last()) + counts[ids.last() as int]
    }
}

/// The variants in their declaration order.
pub open spec fn all_variants(n: nat) -> Seq<usize> {
    Seq::new(n, |i: int| i as usize)
}

/// How many times any variant was seen.
pub open spec fn count_total(counts: Seq<usize>) -> int {
    sum_over(counts, all_variants(counts.len()))
}

/// Where the positions of the `i`-th variant of `order` start.
pub open spec fn range_start(counts: Seq<usize>, order: Seq<usize>, i: int) -> int {
    sum_over(counts, order.take(i))
}

/// How many of the variants, taken in `order` from the `i`-th, have their
/// positions start at or before `x` (counting stops at the first that does not).
pub open spec fn ranges_started(counts: Seq<usize>, order: Seq<usize>, x: int, i: int) -> nat
    decreases order.len() - i,
{
    if 0 <= i < order.len() && range_start(counts, order, i) <= x {
        1 + ranges_started(counts, order, x, i + 1)
    } else {
        0
    }
}

/// The first position of `id` in `order`.
pub open spec fn position_in(order: Seq<usize>, id: usize, i: int) -> int
    decreases order.len() - i,
{
    if i < 0 || i >= order.len() {
        order.len() as int
    } else if order[i] == id {
        i
    } else {
        position_in(order, id, i + 1)
    }
}

/// The variant that mutating `id` gives when the variants are laid out in
/// `order`, the draw picks the `inner`-th position of `id` and moves
/// `shift` positions from it (not below the first position): the last
/// variant whose positions start at or before the position reached.
pub open spec fn mutated_variant(
    counts: Seq<usize>,
    order: Seq<usize>,
    id: usize,
    inner: int,
    shift: int,
) -> usize {
    let x = inner + range_start(counts, order, position_in(order, id, 0)) + shift;
    let moved = if x < 0 {
        0
    } else {
        x
    };
    order[ranges_started(counts, order, moved, 0) - 1]
}

pub proof fn lemma_sum_over_append(counts: Seq<usize>, a: Seq<usize>, b: Seq<usize>)
    ensures
        sum_over(counts, a + b) == sum_over(counts, a) + sum_over(counts, b),
    decreases b.len(),
{
    if b.len() == 0 {
        assert(a + b =~= a);
    } else {
        assert((a + b).drop_last() =~= a + b.drop_last());
        lemma_sum_over_append(counts, a, b.drop_last());
    }
}

pub proof fn lemma_sum_over_nonnegative(counts: Seq<usize>, a: Seq<usize>)
    ensures
        sum_over(counts, a) >= 0,
    decreases a.len(),
{
    if a.len() > 0 {
        lemma_sum_over_nonnegative(counts, a.drop_last());
    }
}

/// The sum does not depend on the order in which the variants are listed.
pub proof fn lemma_sum_over_permutation(counts: Seq<usize>, a: Seq<usize>, b: Seq<usize>)
    requires
        a.to_multiset() == b.to_multiset(),
    ensures
        sum_over(counts, a) == sum_over(counts, b),
    decreases a.len(),
{
    vstd::seq_lib::to_multiset_len(a);
    vstd::seq_lib::to_multiset_len(b);
    if a.len() == 0 {
        assert(b.len() == 0);
    } else {
        let x = a.last();
        let a1 = a.drop_last();
        assert(a =~= a1.push(x));
        vstd::seq_lib::to_multiset_contains(a, x);
        vstd::seq_lib::to_multiset_contains(b, x);
        assert(a.contains(x)) by {
            assert(a[a.len() - 1] == x);
        }
        assert(b.contains(x));
        vstd::seq_lib::to_multiset_build(a1, x);
        let k = choose|k: int| 0 <= k < b.len() && b[k] == x;
        let b1 = b.remove(k);
        vstd::seq_lib::to_multiset_remove(b, k);
        assert(a1.to_multiset() =~= a.to_multiset().remove(x));
        lemma_sum_over_permutation(counts, a1, b1);
        let p = b.subrange(0, k);
        let q = b.subrange(k + 1, b.len() as int);
        assert(b =~= p + seq![x] + q);
        assert(b1 =~= p + q);
        lemma_sum_over_append(counts, p + seq![x], q);
        lemma_sum_over_append(counts, p, seq![x]);
        lemma_sum_over_append(counts, p, q);
        assert(seq![x].drop_last() =~= Seq::<usize>::empty());
        assert(sum_over(counts, seq![x].drop_last()) == 0);
        assert(seq![x].last() == x);
        assert(sum_over(counts, seq![x]) == counts[x as int]);
        assert(sum_over(counts, b) == sum_over(counts, b1) + counts[x as int]);
        assert(a.drop_last() == a1);
        assert(sum_over(counts, a) == sum_over(counts, a1) + counts[x as int]);
    }
}

/// Over an order that lists every variant once, every range starts within
/// the total count.
pub proof fn lemma_range_start_bounded(counts: Seq<usize>, order: Seq<usize>, i: int)
    requires
        order.to_multiset() == all_variants(counts.len()).to_multiset(),
        0 <= i <= order.len(),
    ensures
        0 <= range_start(counts, order, i) <= count_total(counts),
{
    lemma_sum_over_permutation(counts, order, all_variants(counts.len()));
    assert(order =~= order.take(i) + order.skip(i));
    lemma_sum_over_append(counts, order.take(i), order.skip(i));
    lemma_sum_over_nonnegative(counts, order.take(i));
    lemma_sum_over_nonnegative(counts, order.skip(i));
}

/// Range starts never decrease along the order.
pub proof fn lemma_range_start_monotone(counts: Seq<usize>, order: Seq<usize>, i: int, j: int)
    requires
        0 <= i <= j <= order.len(),
    ensures
        range_start(counts, order, i) <= range_start(counts, order, j),
        j < order.len() ==> range_start(counts, order, j + 1) == range_start(counts, order, j)
            + counts[order[j] as int],
    decreases j - i,
{
    if j < order.len() {
        assert(order.take(j + 1).drop_last() =~= order.take(j));
    }
    if i < j {
        lemma_range_start_monotone(counts, order, i, j - 1);
        assert(order.take(j).drop_last() =~= order.take(j - 1));
    }
}

proof fn lemma_ranges_started_exact(counts: Seq<usize>, order: Seq<usize>, x: int, i: int, m: int)
    requires
        0 <= i <= m <= order.len(),
        forall|k: int| i <= k < m ==> #[trigger] range_start(counts, order, k) <= x,
        m == order.len() || range_start(counts, order, m) > x,
    ensures
        ranges_started(counts, order, x, i) == m - i,
    decreases m - i,
{
    if i < m {
        lemma_ranges_started_exact(counts, order, x, i + 1, m);
    }
}

proof fn lemma_position_found(order: Seq<usize>, id: usize, i: int, w: int)
    requires
        0 <= i <= w < order.len(),
        order[w] == id,
    ensures
        i <= position_in(order, id, i) <= w,
        order[position_in(order, id, i)] == id,
    decreases w - i,
{
    if order[i] != id {
        lemma_position_found(order, id, i + 1, w);
    }
}

/// Mutation of a variant without a shift gives back the variant itself,
/// whatever the order the variants are laid out in.
pub proof fn law_variant_mutation_without_shift(
    counts: Seq<usize>,
    order: Seq<usize>,
    id: usize,
    inner: int,
)
    requires
        order.contains(id),
        0 <= inner < counts[id as int],
    ensures
        mutated_variant(counts, order, id, inner, 0) == id,
{
    let w = choose|w: int| 0 <= w < order.len() && order[w] == id;
    lemma_position_found(order, id, 0, w);
    let r = position_in(order, id, 0);
    let x = inner + range_start(counts, order, r);
    lemma_range_start_monotone(counts, order, r, r);
    assert(range_start(counts, order, 0) == 0) by {
        assert(order.take(0) =~= Seq::<usize>::empty());
    }
    assert forall|k: int| 0 <= k < r + 1 implies #[trigger] range_start(counts, order, k) <= x by {
        lemma_range_start_monotone(counts, order, k, r);
    }
    if r + 1 < order.len() {
        lemma_range_start_monotone(counts, order, r + 1, r + 1);
    }
    lemma_ranges_started_exact(counts, order, x, 0, r + 1);
}

proof fn lemma_position_is(order: Seq<usize>, id: usize, i: int, r: int)
    requires
        0 <= i <= r < order.len(),
        order[r] == id,
        forall|j: int| i <= j < r ==> order[j] != id,
    ensures
        position_in(order, id, i) == r,
    decreases r - i,
{
    if i < r {
        lemma_position_is(order, id, i + 1, r);
    }
}

/// The variants are laid out in `order`, the `k`-th over the positions
/// from the sum of the counts of the variants before it, as many as its
/// count. A mutation of `id` (first laid out at `r`) starts at its
/// `inner`-th position and moves by exactly `shift` positions (not below the
/// first position); the variant whose positions hold the position reached is
/// the result.
pub proof fn law_variant_mutation_lands_in_range(
    counts: Seq<usize>,
    order: Seq<usize>,
    id: usize,
    inner: int,
    shift: int,
    r: int,
    k: int,
)
    requires
        forall|j: int| 0 <= j < order.len() ==> #[trigger] order[j] < counts.len(),
        0 <= r < order.len(),
        order[r] == id,
        forall|j: int| 0 <= j < r ==> order[j] != id,
        0 <= k < order.len(),
        ({
            let x = range_start(counts, order, r) + inner + shift;
            let reached = if x < 0 {
                0
            } else {
                x
            };
            range_start(counts, order, k) <= reached < range_start(counts, order, k) + counts[order[k] as int]
        }),
    ensures
        mutated_variant(counts, order, id, inner, shift) == order[k],
{
    lemma_position_is(order, id, 0, r);
    let x = range_start(counts, order, r) + inner + shift;
    let m = if x < 0 {
        0
    } else {
        x
    };
    assert forall|j: int| 0 <= j < k + 1 implies #[trigger] range_start(counts, order, j) <= m by {
        lemma_range_start_monotone(counts, order, j, k);
    }
    if k + 1 < order.len() {
        lemma_range_start_monotone(counts, order, k, k);
    }
    lemma_ranges_started_exact(counts, order, m, 0, k + 1);
}

/// A mutation whose shift stays among the positions of `id` gives `id`
/// back, whatever the order the variants are laid out in.
pub proof fn law_variant_mutation_within_own_range(
    counts: Seq<usize>,
    order: Seq<usize>,
    id: usize,
    inner: int,
    shift: int,
)
    requires
        forall|j: int| 0 <= j < order.len() ==> #[trigger] order[j] < counts.len(),
        order.contains(id),
        0 <= inner + shift < counts[id as int],
    ensures
        mutated_variant(counts, order, id, inner, shift) == id,
{
    let w = choose|w: int| 0 <= w < order.len() && order[w] == id;
    lemma_position_found(order, id, 0, w);
    let r = position_in(order, id, 0);
    assert forall|j: int| 0 <= j < r implies order[j] != id by {
        if order[j] == id {
            lemma_position_found(order, id, 0, j);
        }
    }
    lemma_range_start_monotone(counts, order, 0, r);
    lemma_sum_over_nonnegative(counts, order.take(r));
    law_variant_mutation_lands_in_range(counts, order, id, inner, shift, r, r);
}

/// How many times each variant (by its declaration index) was seen.
pub struct EnumMutateDatabase {
    pub counts: Vec<usize>,
}

impl EnumMutateDatabase {
    /// A database for an enum of `variant_count` variants, none seen yet.
    pub fn new(variant_count: usize) -> (db: EnumMutateDatabase)
        ensures
            db.counts@ == Seq::new(variant_count as nat, |i: int| 0usize),
    {
        let mut counts: Vec<usize> = Vec::new();
        for k in 0..variant_count
            invariant
                counts@ == Seq::new(k as nat, |i: int| 0usize),
        {
            counts.push(0);
        }
        EnumMutateDatabase { counts }
    }

    /// Counts one more occurrence of the variant `id`.
    pub fn insert(&mut self, id: usize)
        requires
            id < old(self).counts.len(),
            old(self).counts[id as int] < usize::MAX,
        ensures
            final(self).counts@ == old(self).counts@.update(id as int, (old(self).counts[id as int] + 1) as usize),
    {
        let c = self.counts[id];
        self.counts.set(id, c + 1);
    }

    /// The mutation of variant `id` for given draws: the variants laid out
    /// in `order`, the `inner`-th position of `id`, and `shift`.
    pub fn mutate_at(&self, id: usize, order: &Vec<usize>, inner: usize, shift: isize) -> (r: usize)
        requires
            order@.contains(id),
            forall|k: int| 0 <= k < order.len() ==> #[trigger] order[k] < self.counts.len(),
            inner < self.counts[id as int],
            forall|k: int| 0 <= k <= order.len() ==> #[trigger] range_start(self.counts@, order@, k) <= usize::MAX,
        ensures
            r == mutated_variant(self.counts@, order@, id, inner as int, shift as int),
            r < self.counts.len(),
    {
        let n = order.len();
        let ghost counts = self.counts@;
        // Where the positions of each variant of `order` start.
        let mut starts: Vec<usize> = Vec::new();
        let mut sum: usize = 0;
        let mut k: usize = 0;
        while k < n
            invariant
                k <= n,
                n == order.len(),
                counts == self.counts@,
                forall|j: int| 0 <= j < order.len() ==> #[trigger] order[j] < counts.len(),
                forall|j: int| 0 <= j <= order.len() ==> #[trigger] range_start(counts, order@, j) <= usize::MAX,
                starts.len() == k,
                sum == range_start(counts, order@, k as int),
                forall|j: int| 0 <= j < k ==> #[trigger] starts[j] == range_start(counts, order@, j),
            decreases n - k,
        {
            starts.push(sum);
            proof {
                lemma_range_start_monotone(counts, order@, k as int, k as int);
            }
            let c = self.counts[order[k]];
            sum = sum + c;
            k = k + 1;
        }
        // The position of `id` in `order`.
        let mut r: usize = 0;
        proof {
            let w = choose|w: int| 0 <= w < order.len() && order[w] == id;
            lemma_position_found(order@, id, 0, w);
        }
        while r < n && order[r] != id
            invariant
                r <= n,
                n == order.len(),
                position_in(order@, id, 0) == position_in(order@, id, r as int),
                position_in(order@, id, 0) < n,
            decreases n - r,
        {
            r = r + 1;
        }
        let x: i128 = inner as i128 + starts[r] as i128 + shift as i128;
        let moved: i128 = if x < 0 {
            0
        } else {
            x
        };
        // How many ranges start at or before the position reached.
        let mut f: usize = 0;
        while f < n && (starts[f] as i128) <= moved
            invariant
                f <= n,
                n == order.len(),
                starts.len() == n,
                forall|j: int| 0 <= j < n ==> #[trigger] starts[j] == range_start(counts, order@, j),
                ranges_started(counts, order@, moved as int, 0) == f + ranges_started(
                    counts,
                    order@,
                    moved as int,
                    f as int,
                ),
            decreases n - f,
        {
            f = f + 1;
        }
        proof {
            assert(range_start(counts, order@, 0) == 0) by {
                assert(order@.take(0) =~= Seq::<usize>::empty());
            }
        }
        order[f - 1]
    }

    /// Mutates the variant `id`: lays the variants out in a random order,
    /// picks one of the positions of `id` uniformly, moves from there by a
    /// shift drawn from `shifts`, and returns the variant found there.
    pub fn mutate<S: ShiftSource>(&self, id: usize, shifts: &S) -> (r: usize)
        requires
            id < self.counts.len(),
            self.counts[id as int] > 0,
            count_total(self.counts@) <= usize::MAX,
        ensures
            r < self.counts.len(),
            exists|order: Seq<usize>, inner: int, shift: int|
                order.to_multiset() == all_variants(self.counts.len() as nat).to_multiset() && 0
                    <= inner < self.counts[id as int] && shifts.admits(shift) && r == mutated_variant(
                    self.counts@,
                    order,
                    id,
                    inner,
                    shift,
                ),
    {
        let mut rng = thread_rng();
        let n = self.counts.len();
        let mut order: Vec<usize> = Vec::new();
        for k in 0..n
            invariant
                n == self.counts.len(),
                order@ == all_variants(k as nat),
        {
            order.push(k);
            assert(order@ =~= all_variants((k + 1) as nat));
        }
        let ghost identity = order@;
        shuffle_indices(&mut rng, &mut order);
        let inner = gen_index(&mut rng, 0, self.counts[id]);
        let shift = shifts.next_shift(&mut rng);
        proof {
            let all = all_variants(n as nat);
            assert(identity == all);
            vstd::seq_lib::to_multiset_contains(all, id);
            vstd::seq_lib::to_multiset_contains(order@, id);
            assert(all[id as int] == id);
            assert(order@.contains(id));
            assert forall|k: int| 0 <= k < order.len() implies #[trigger] order[k] < self.counts.len() by {
                vstd::seq_lib::to_multiset_contains(order@, order[k]);
                vstd::seq_lib::to_multiset_contains(all, order[k]);
                assert(order@.contains(order[k]));
            }
            assert forall|k: int| 0 <= k <= order.len() implies #[trigger] range_start(self.counts@, order@, k) <= usize::MAX by {
                lemma_range_start_bounded(self.counts@, order@, k);
            }
        }
        self.mutate_at(id, &order, inner, shift)
    }
}

} // verus!
