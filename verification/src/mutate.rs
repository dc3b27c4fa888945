//! Databases of the values seen in a corpus of instruments, and the
//! mutation of a value into a nearby one of the same database.
use vstd::prelude::*;
use crate::random::{clamp_index, gen_index, thread_rng, ShiftSource};

verus! {

broadcast use vstd::seq_lib::group_to_multiset_ensures;

/// The integer types whose values a database records: each value has its
/// mathematical integer as key, which orders the values and tells them apart.
pub trait DatabaseValue: Copy + Sized {
    spec fn key(self) -> int;

    proof fn lemma_key_injective(a: Self, b: Self)
        ensures
            a.key() == b.key() ==> a == b,
    ;

    fn less_or_equal(&self, other: &Self) -> (r: bool)
        ensures
            r == (self.key() <= other.key()),
    ;

    fn same(&self, other: &Self) -> (r: bool)
        ensures
            r == (*self == *other),
    ;
}

impl DatabaseValue for i8 {
    open spec fn key(self) -> int {
        self as int
    }

    proof fn lemma_key_injective(a: Self, b: Self) {
    }

    fn less_or_equal(&self, other: &Self) -> (r: bool) {
        *self <= *other
    }

    fn same(&self, other: &Self) -> (r: bool) {
        *self == *other
    }
}

impl DatabaseValue for i16 {
    open spec fn key(self) -> int {
        self as int
    }

    proof fn lemma_key_injective(a: Self, b: Self) {
    }

    fn less_or_equal(&self, other: &Self) -> (r: bool) {
        *self <= *other
    }

    fn same(&self, other: &Self) -> (r: bool) {
        *self == *other
    }
}

impl DatabaseValue for i32 {
    open spec fn key(self) -> int {
        self as int
    }

    proof fn lemma_key_injective(a: Self, b: Self) {
    }

    fn less_or_equal(&self, other: &Self) -> (r: bool) {
        *self <= *other
    }

    fn same(&self, other: &Self) -> (r: bool) {
        *self == *other
    }
}

impl DatabaseValue for i64 {
    open spec fn key(self) -> int {
        self as int
    }

    proof fn lemma_key_injective(a: Self, b: Self) {
    }

    fn less_or_equal(&self, other: &Self) -> (r: bool) {
        *self <= *other
    }

    fn same(&self, other: &Self) -> (r: bool) {
        *self == *other
    }
}

impl DatabaseValue for isize {
    open spec fn key(self) -> int {
        self as int
    }

    proof fn lemma_key_injective(a: Self, b: Self) {
    }

    fn less_or_equal(&self, other: &Self) -> (r: bool) {
        *self <= *other
    }

    fn same(&self, other: &Self) -> (r: bool) {
        *self == *other
    }
}

impl DatabaseValue for u8 {
    open spec fn key(self) -> int {
        self as int
    }

    proof fn lemma_key_injective(a: Self, b: Self) {
    }

    fn less_or_equal(&self, other: &Self) -> (r: bool) {
        *self <= *other
    }

    fn same(&self, other: &Self) -> (r: bool) {
        *self == *other
    }
}

impl DatabaseValue for u16 {
    open spec fn key(self) -> int {
        self as int
    }

    proof fn lemma_key_injective(a: Self, b: Self) {
    }

    fn less_or_equal(&self, other: &Self) -> (r: bool) {
        *self <= *other
    }

    fn same(&self, other: &Self) -> (r: bool) {
        *self == *other
    }
}

impl DatabaseValue for u32 {
    open spec fn key(self) -> int {
        self as int
    }

    proof fn lemma_key_injective(a: Self, b: Self) {
    }

    fn less_or_equal(&self, other: &Self) -> (r: bool) {
        *self <= *other
    }

    fn same(&self, other: &Self) -> (r: bool) {
        *self == *other
    }
}

impl DatabaseValue for u64 {
    open spec fn key(self) -> int {
        self as int
    }

    proof fn lemma_key_injective(a: Self, b: Self) {
    }

    fn less_or_equal(&self, other: &Self) -> (r: bool) {
        *self <= *other
    }

    fn same(&self, other: &Self) -> (r: bool) {
        *self == *other
    }
}

impl DatabaseValue for usize {
    open spec fn key(self) -> int {
        self as int
    }

    proof fn lemma_key_injective(a: Self, b: Self) {
    }

    fn less_or_equal(&self, other: &Self) -> (r: bool) {
        *self <= *other
    }

    fn same(&self, other: &Self) -> (r: bool) {
        *self == *other
    }
}

pub open spec fn sorted<T: DatabaseValue>(s: Seq<T>) -> bool {
    forall|i: int, j: int| 0 <= i <= j < s.len() ==> s[i].key() <= s[j].key()
}

/// The first position at or after `i` that holds `v` (the length when none does).
pub open spec fn first_from<T>(s: Seq<T>, v: T, i: int) -> int
    decreases s.len() - i,
{
    if i < 0 || i >= s.len() {
        s.len() as int
    } else if s[i] == v {
        i
    } else {
        first_from(s, v, i + 1)
    }
}

/// The number of consecutive copies of `v` from position `i`.
pub open spec fn equal_run<T>(s: Seq<T>, v: T, i: int) -> nat
    decreases s.len() - i,
{
    if 0 <= i < s.len() && s[i] == v {
        1 + equal_run(s, v, i + 1)
    } else {
        0
    }
}

/// The value that mutating `v` gives when the draw picks the `pick`-th copy
/// of the first run of `v` and moves `shift` positions from it.
pub open spec fn mutated_int<T>(s: Seq<T>, v: T, pick: int, shift: int) -> T {
    s[clamp_index(first_from(s, v, 0) + pick + shift, s.len() as int)]
}

/// `r` is what some draw makes of `v` in the database `s`: a pick among
/// the copies of the first run of `v` and a shift that `shifts` can give.
pub open spec fn is_int_mutation<T, S: ShiftSource>(shifts: &S, s: Seq<T>, v: T, r: T) -> bool {
    exists|pick: int, shift: int|
        0 <= pick < equal_run(s, v, first_from(s, v, 0)) && shifts.admits(shift) && r
            == #[trigger] mutated_int(s, v, pick, shift)
}

/// The integers seen so far, kept in ascending order.
pub struct IntDatabase<T> {
    pub values: Vec<T>,
}

impl<T: DatabaseValue> IntDatabase<T> {
    pub open spec fn well_formed(&self) -> bool {
        sorted(self.values@)
    }

    pub fn new() -> (db: IntDatabase<T>)
        ensures
            db.values@ == Seq::<T>::empty(),
            db.well_formed(),
    {
        IntDatabase { values: Vec::new() }
    }

    /// Records one more occurrence of `value`, keeping the order.
    pub fn insert(&mut self, value: T)
        requires
            old(self).well_formed(),
        ensures
            final(self).well_formed(),
            final(self).values@.to_multiset() == old(self).values@.to_multiset().insert(value),
            final(self).values@.contains(value),
            forall|x: T| old(self).values@.contains(x) ==> #[trigger] final(self).values@.contains(x),
    {
        let n = self.values.len();
        let mut k: usize = 0;
        while k < n && self.values[k].less_or_equal(&value)
            invariant
                k <= n,
                n == self.values.len(),
                forall|j: int| 0 <= j < k ==> self.values@[j].key() <= value.key(),
            decreases n - k,
        {
            k = k + 1;
        }
        let ghost before = self.values@;
        self.values.insert(k, value);
        proof {
            vstd::seq_lib::to_multiset_insert(before, k as int, value);
            let after = self.values@;
            assert(after[k as int] == value);
            assert forall|x: T| before.contains(x) implies #[trigger] after.contains(x) by {
                let w = choose|w: int| 0 <= w < before.len() && before[w] == x;
                if w < k {
                    assert(after[w] == x);
                } else {
                    assert(after[w + 1] == x);
                }
            }
            assert forall|i: int, j: int| 0 <= i <= j < after.len() implies after[i].key()
                <= after[j].key() by {
                if j < k {
                } else if j == k {
                    assert(i < k ==> before[i].key() <= value.key());
                } else if i == k {
                    assert(before[j - 1].key() >= before[k as int].key());
                } else if i < k {
                    assert(before[i].key() <= before[j - 1].key());
                } else {
                    assert(before[i - 1].key() <= before[j - 1].key());
                }
            }
        }
    }

    /// The first run of copies of `value`: where it starts and how long it is.
    pub fn equal_run_of(&self, value: T) -> (r: (usize, usize))
        ensures
            r.0 == first_from(self.values@, value, 0),
            r.1 == equal_run(self.values@, value, r.0 as int),
            r.0 + r.1 <= self.values.len(),
    {
        let n = self.values.len();
        let mut start: usize = 0;
        while start < n && !self.values[start].same(&value)
            invariant
                start <= n,
                n == self.values.len(),
                first_from(self.values@, value, 0) == first_from(self.values@, value, start as int),
            decreases n - start,
        {
            start = start + 1;
        }
        let mut end = start;
        while end < n && self.values[end].same(&value)
            invariant
                start <= end <= n,
                n == self.values.len(),
                equal_run(self.values@, value, start as int) == (end - start) + equal_run(
                    self.values@,
                    value,
                    end as int,
                ),
            decreases n - end,
        {
            end = end + 1;
        }
        (start, end - start)
    }

    /// The mutation of `value` for given draws: the `pick`-th copy of the
    /// first run of `value`, moved by `shift` positions and kept inside the
    /// database.
    pub fn mutate_at(&self, value: T, pick: usize, shift: isize) -> (r: T)
        requires
            self.values@.contains(value),
            pick < equal_run(self.values@, value, first_from(self.values@, value, 0)),
        ensures
            r == mutated_int(self.values@, value, pick as int, shift as int),
    {
        let (start, count) = self.equal_run_of(value);
        let n = self.values.len();
        let target: i128 = start as i128 + pick as i128 + shift as i128;
        let idx: usize = if target < 0 {
            0
        } else if target > (n - 1) as i128 {
            n - 1
        } else {
            target as usize
        };
        self.values[idx]
    }

    /// Mutates `value`: picks one of the copies of its first run uniformly,
    /// moves from there by a shift drawn from `shifts`, and returns the value
    /// found there (clamped to the database).
    pub fn mutate<S: ShiftSource>(&self, value: T, shifts: &S) -> (r: T)
        requires
            self.values@.contains(value),
        ensures
            is_int_mutation(shifts, self.values@, value, r),
    {
        let mut rng = thread_rng();
        let (start, count) = self.equal_run_of(value);
        proof {
            lemma_contains_run(self.values@, value);
        }
        let pick = gen_index(&mut rng, 0, count);
        let shift = shifts.next_shift(&mut rng);
        let r = self.mutate_at(value, pick, shift);
        assert(r == mutated_int(self.values@, value, pick as int, shift as int));
        r
    }

    /// Records every value of `vs`, in order.
    pub fn insert_all(&mut self, vs: &Vec<T>)
        requires
            old(self).well_formed(),
        ensures
            final(self).well_formed(),
            final(self).values@.to_multiset() == old(self).values@.to_multiset().add(vs@.to_multiset()),
            forall|k: int| 0 <= k < vs.len() ==> final(self).values@.contains(#[trigger] vs@[k]),
            forall|x: T| old(self).values@.contains(x) ==> #[trigger] final(self).values@.contains(x),
    {
        let ghost m = self.values@.to_multiset();
        let n = vs.len();
        for k in 0..n
            invariant
                n == vs.len(),
                self.well_formed(),
                self.values@.to_multiset() == m.add(vs@.take(k as int).to_multiset()),
                forall|j: int| 0 <= j < k ==> self.values@.contains(#[trigger] vs@[j]),
                forall|x: T| old(self).values@.contains(x) ==> #[trigger] self.values@.contains(x),
        {
            let v = vs[k];
            self.insert(v);
            proof {
                assert(vs@.take(k + 1) =~= vs@.take(k as int).push(v));
                vstd::seq_lib::to_multiset_build(vs@.take(k as int), v);
                assert(self.values@.to_multiset() =~= m.add(vs@.take(k + 1).to_multiset()));
            }
        }
        proof {
            assert(vs@.take(n as int) =~= vs@);
        }
    }

    /// Mutates every value of `vs`, in order.
    pub fn mutate_all<S: ShiftSource>(&self, vs: &Vec<T>, shifts: &S) -> (r: Vec<T>)
        requires
            forall|k: int| 0 <= k < vs.len() ==> self.values@.contains(#[trigger] vs@[k]),
        ensures
            r.len() == vs.len(),
            forall|k: int|
                0 <= k < vs.len() ==> is_int_mutation(shifts, self.values@, vs@[k], #[trigger] r@[k]),
    {
        let mut r: Vec<T> = Vec::new();
        let n = vs.len();
        for k in 0..n
            invariant
                n == vs.len(),
                forall|j: int| 0 <= j < vs.len() ==> self.values@.contains(#[trigger] vs@[j]),
                r.len() == k,
                forall|j: int|
                    0 <= j < k ==> is_int_mutation(shifts, self.values@, vs@[j], #[trigger] r@[j]),
        {
            let v = vs[k];
            assert(self.values@.contains(vs@[k as int]));
            let q = self.mutate(v, shifts);
            r.push(q);
        }
        r
    }
}

/// The value that mutating a boolean gives when the draw picks position
/// `pick` among the recorded booleans (the `true`s first) and moves `shift`
/// positions from it: positions below zero count as zero and positions past
/// the last one as the total, and the trues are the positions below `trues`.
pub open spec fn mutated_bool(trues: int, falses: int, pick: int, shift: int) -> bool {
    let i = pick + shift;
    let j = if i < 0 {
        0
    } else if i > trues + falses {
        trues + falses
    } else {
        i
    };
    j < trues
}

/// `r` is what some draw makes of `v` in a database of `trues` and
/// `falses`: a pick among the occurrences of `v` and a shift that `shifts`
/// can give.
pub open spec fn is_bool_mutation<S: ShiftSource>(
    shifts: &S,
    trues: int,
    falses: int,
    v: bool,
    r: bool,
) -> bool {
    exists|pick: int, shift: int|
        (if v {
            0 <= pick < trues
        } else {
            trues <= pick < trues + falses
        }) && shifts.admits(shift) && r == #[trigger] mutated_bool(trues, falses, pick, shift)
}

/// How many times `b` occurs in `vs`.
pub open spec fn occurrences(vs: Seq<bool>, b: bool) -> nat
    decreases vs.len(),
{
    if vs.len() == 0 {
        0
    } else {
        occurrences(vs.drop_last(), b) + if vs.last() == b {
            1nat
        } else {
            0nat
        }
    }
}

/// Occurrences in a prefix are at most those in the whole.
pub proof fn lemma_occurrences_prefix(vs: Seq<bool>, k: int, b: bool)
    requires
        0 <= k <= vs.len(),
    ensures
        occurrences(vs.take(k), b) <= occurrences(vs, b),
    decreases vs.len() - k,
{
    if k < vs.len() {
        lemma_occurrences_prefix(vs, k + 1, b);
        assert(vs.take(k + 1).drop_last() =~= vs.take(k));
    } else {
        assert(vs.take(k) =~= vs);
    }
}

/// How many `true`s and how many `false`s were seen so far.
pub struct BoolDatabase {
    pub trues: usize,
    pub falses: usize,
}

impl BoolDatabase {
    pub fn new() -> (db: BoolDatabase)
        ensures
            db.trues == 0,
            db.falses == 0,
    {
        BoolDatabase { trues: 0, falses: 0 }
    }

    /// Counts one more occurrence of `value`.
    pub fn insert(&mut self, value: bool)
        requires
            value ==> old(self).trues < usize::MAX,
            !value ==> old(self).falses < usize::MAX,
        ensures
            final(self).trues == old(self).trues + (if value { 1int } else { 0int }),
            final(self).falses == old(self).falses + (if value { 0int } else { 1int }),
    {
        if value {
            self.trues = self.trues + 1;
        } else {
            self.falses = self.falses + 1;
        }
    }

    /// Whether `value` has been seen, so that it can be mutated.
    pub open spec fn records(&self, value: bool) -> bool {
        if value {
            self.trues > 0
        } else {
            self.falses > 0
        }
    }

    /// The draw of a mutation of `value` is a position among its own
    /// occurrences: `[0, trues)` for `true`, `[trues, trues + falses)` for `false`.
    pub open spec fn pick_range(&self, value: bool, pick: int) -> bool {
        if value {
            0 <= pick < self.trues
        } else {
            self.trues <= pick < self.trues + self.falses
        }
    }

    /// The mutation of `value` for given draws.
    pub fn mutate_at(&self, value: bool, pick: usize, shift: isize) -> (r: bool)
        requires
            self.pick_range(value, pick as int),
            self.trues + self.falses <= usize::MAX,
        ensures
            r == mutated_bool(self.trues as int, self.falses as int, pick as int, shift as int),
    {
        let total: i128 = self.trues as i128 + self.falses as i128;
        let i: i128 = pick as i128 + shift as i128;
        let j: i128 = if i < 0 {
            0
        } else if i > total {
            total
        } else {
            i
        };
        j < self.trues as i128
    }

    /// Mutates `value`: draws a position among its occurrences uniformly,
    /// moves from there by a shift drawn from `shifts`, and answers whether
    /// the position reached is one of a `true`.
    pub fn mutate<S: ShiftSource>(&self, value: bool, shifts: &S) -> (r: bool)
        requires
            self.records(value),
            self.trues + self.falses <= usize::MAX,
        ensures
            is_bool_mutation(shifts, self.trues as int, self.falses as int, value, r),
    {
        let mut rng = thread_rng();
        let pick = if value {
            gen_index(&mut rng, 0, self.trues)
        } else {
            gen_index(&mut rng, self.trues, self.trues + self.falses)
        };
        let shift = shifts.next_shift(&mut rng);
        let r = self.mutate_at(value, pick, shift);
        assert(self.pick_range(value, pick as int));
        assert(r == mutated_bool(self.trues as int, self.falses as int, pick as int, shift as int));
        r
    }

    /// Counts every value of `vs`.
    pub fn insert_all(&mut self, vs: &Vec<bool>)
        requires
            old(self).trues + occurrences(vs@, true) <= usize::MAX,
            old(self).falses + occurrences(vs@, false) <= usize::MAX,
        ensures
            final(self).trues == old(self).trues + occurrences(vs@, true),
            final(self).falses == old(self).falses + occurrences(vs@, false),
    {
        let n = vs.len();
        for k in 0..n
            invariant
                n == vs.len(),
                old(self).trues + occurrences(vs@, true) <= usize::MAX,
                old(self).falses + occurrences(vs@, false) <= usize::MAX,
                self.trues == old(self).trues + occurrences(vs@.take(k as int), true),
                self.falses == old(self).falses + occurrences(vs@.take(k as int), false),
        {
            let v = vs[k];
            proof {
                assert(vs@.take(k + 1).drop_last() =~= vs@.take(k as int));
                lemma_occurrences_prefix(vs@, k + 1, true);
                lemma_occurrences_prefix(vs@, k + 1, false);
            }
            self.insert(v);
        }
        proof {
            assert(vs@.take(n as int) =~= vs@);
        }
    }

    /// Mutates every value of `vs`, in order.
    pub fn mutate_all<S: ShiftSource>(&self, vs: &Vec<bool>, shifts: &S) -> (r: Vec<bool>)
        requires
            forall|k: int| 0 <= k < vs.len() ==> self.records(#[trigger] vs@[k]),
            self.trues + self.falses <= usize::MAX,
        ensures
            r.len() == vs.len(),
            forall|k: int|
                0 <= k < vs.len() ==> is_bool_mutation(
                    shifts,
                    self.trues as int,
                    self.falses as int,
                    vs@[k],
                    #[trigger] r@[k],
                ),
    {
        let mut r: Vec<bool> = Vec::new();
        let n = vs.len();
        for k in 0..n
            invariant
                n == vs.len(),
                forall|j: int| 0 <= j < vs.len() ==> self.records(#[trigger] vs@[j]),
                self.trues + self.falses <= usize::MAX,
                r.len() == k,
                forall|j: int|
                    0 <= j < k ==> is_bool_mutation(
                        shifts,
                        self.trues as int,
                        self.falses as int,
                        vs@[j],
                        #[trigger] r@[j],
                    ),
        {
            let v = vs[k];
            assert(self.records(vs@[k as int]));
            let q = self.mutate(v, shifts);
            r.push(q);
        }
        r
    }
}

/// Mutation of a boolean without a shift gives back the boolean itself.
pub proof fn law_bool_mutation_without_shift(trues: nat, falses: nat, value: bool, pick: int)
    requires
        (if value {
            0 <= pick < trues
        } else {
            trues <= pick < trues + falses
        }),
    ensures
        mutated_bool(trues as int, falses as int, pick, 0) == value,
{
}

/// The copies of the first run all hold the value.
pub proof fn lemma_equal_run_values<T>(s: Seq<T>, v: T, i: int)
    requires
        0 <= i,
    ensures
        i + equal_run(s, v, i) <= s.len() || equal_run(s, v, i) == 0,
        forall|k: int| 0 <= k < equal_run(s, v, i) ==> #[trigger] s[i + k] == v,
    decreases s.len() - i,
{
    if 0 <= i < s.len() && s[i] == v {
        lemma_equal_run_values(s, v, i + 1);
        assert forall|k: int| 0 <= k < equal_run(s, v, i) implies #[trigger] s[i + k] == v by {
            if k > 0 {
                assert(s[(i + 1) + (k - 1)] == v);
            }
        }
    }
}

/// A database is determined by the values it holds: two well-formed
/// databases with the same values (counted with repetition) are equal, so
/// the order in which values were inserted does not matter.
pub proof fn law_database_determined_by_contents<T: DatabaseValue>(s1: Seq<T>, s2: Seq<T>)
    requires
        sorted(s1),
        sorted(s2),
        s1.to_multiset() == s2.to_multiset(),
    ensures
        s1 == s2,
{
    let leq = |a: T, b: T| a.key() <= b.key();
    assert(vstd::relations::sorted_by(s1, leq));
    assert(vstd::relations::sorted_by(s2, leq));
    assert forall|a: T, b: T| #[trigger] leq(a, b) && #[trigger] leq(b, a) implies a == b by {
        T::lemma_key_injective(a, b);
    }
    assert(vstd::relations::total_ordering(leq));
    vstd::seq_lib::lemma_sorted_unique(s1, s2, leq);
}

/// Mutation without a shift gives back the value itself.
pub proof fn law_int_mutation_without_shift<T>(s: Seq<T>, v: T, pick: int)
    requires
        s.contains(v),
        0 <= pick < equal_run(s, v, first_from(s, v, 0)),
    ensures
        mutated_int(s, v, pick, 0) == v,
{
    lemma_contains_run(s, v);
    let f = first_from(s, v, 0);
    lemma_equal_run_values(s, v, f);
    assert(s[f + pick] == v);
}

/// Whatever the draws, a mutation gives a value of the database.
pub proof fn law_int_mutation_stays_in_database<T>(s: Seq<T>, v: T, pick: int, shift: int)
    requires
        s.contains(v),
    ensures
        s.contains(mutated_int(s, v, pick, shift)),
{
    let i = clamp_index(first_from(s, v, 0) + pick + shift, s.len() as int);
    assert(0 <= i < s.len());
    assert(s[i] == mutated_int(s, v, pick, shift));
}

proof fn lemma_first_from_is<T>(s: Seq<T>, v: T, i: int, f: int)
    requires
        0 <= i <= f < s.len(),
        s[f] == v,
        forall|j: int| i <= j < f ==> s[j] != v,
    ensures
        first_from(s, v, i) == f,
    decreases f - i,
{
    if i < f {
        lemma_first_from_is(s, v, i + 1, f);
    }
}

/// A mutation starts from the drawn copy of `v`: the `pick`-th position
/// after the first position `f` that holds `v`. It moves by exactly `shift`
/// positions and gives the value found there; a position before the first
/// one gives the first value, one past the last gives the last value.
pub proof fn law_int_mutation_moves_by_shift<T>(s: Seq<T>, v: T, f: int, pick: int, shift: int)
    requires
        0 <= f < s.len(),
        s[f] == v,
        forall|j: int| 0 <= j < f ==> s[j] != v,
    ensures
        0 <= f + pick + shift < s.len() ==> mutated_int(s, v, pick, shift) == s[f + pick + shift],
        f + pick + shift < 0 ==> mutated_int(s, v, pick, shift) == s[0],
        f + pick + shift >= s.len() ==> mutated_int(s, v, pick, shift) == s[s.len() - 1],
{
    lemma_first_from_is(s, v, 0, f);
}

/// When the copies of `v` fill the positions `f .. f + run` and the drawn
/// copy moved by the shift is still one of them, the mutation keeps `v`.
pub proof fn law_int_mutation_within_run<T>(s: Seq<T>, v: T, f: int, run: int, pick: int, shift: int)
    requires
        0 <= f,
        f + run <= s.len(),
        forall|j: int| 0 <= j < f ==> s[j] != v,
        forall|k: int| 0 <= k < run ==> #[trigger] s[f + k] == v,
        0 <= pick + shift < run,
    ensures
        mutated_int(s, v, pick, shift) == v,
{
    assert(s[f + 0] == v);
    law_int_mutation_moves_by_shift(s, v, f, pick, shift);
    assert(s[f + (pick + shift)] == v);
}

/// A boolean mutation moves the drawn position by exactly the shift; the
/// `true`s hold the positions `0 .. trues` and the `false`s the positions
/// `trues .. trues + falses`. A position past the last is a `false`, one
/// before the first is the first position.
pub proof fn law_bool_mutation_moves_by_shift(trues: nat, falses: nat, pick: int, shift: int)
    ensures
        0 <= pick + shift < trues ==> mutated_bool(trues as int, falses as int, pick, shift),
        trues <= pick + shift ==> !mutated_bool(trues as int, falses as int, pick, shift),
        pick + shift < 0 ==> mutated_bool(trues as int, falses as int, pick, shift) == (trues > 0),
{
}

/// A value that occurs has a first run of at least one copy.
pub proof fn lemma_contains_run<T>(s: Seq<T>, v: T)
    requires
        s.contains(v),
    ensures
        0 <= first_from(s, v, 0) < s.len(),
        s[first_from(s, v, 0)] == v,
        equal_run(s, v, first_from(s, v, 0)) >= 1,
{
    let w = choose|j: int| 0 <= j < s.len() && s[j] == v;
    lemma_first_from_found(s, v, 0, w);
}

proof fn lemma_first_from_found<T>(s: Seq<T>, v: T, i: int, w: int)
    requires
        0 <= i <= w < s.len(),
        s[w] == v,
    ensures
        i <= first_from(s, v, i) <= w,
        s[first_from(s, v, i)] == v,
    decreases w - i,
{
    if s[i] != v {
        lemma_first_from_found(s, v, i + 1, w);
    }
}

} // verus!
