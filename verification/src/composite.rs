//! The mutation databases of the records of an instrument: one database per
//! field, each field recorded and mutated in its own database. A list of
//! records (an envelope) shares the database of its element type.
use vstd::prelude::*;
use crate::envelope::Point;
use crate::mutate::{is_bool_mutation, is_int_mutation, BoolDatabase, IntDatabase};
use crate::random::ShiftSource;
use crate::sections::{Distortion, Noise};

verus! {

broadcast use vstd::seq_lib::group_to_multiset_ensures;

/// The databases of the time levels and of the values of breakpoints.
pub struct PointMutateDatabase(pub IntDatabase<i32>, pub IntDatabase<i32>);

pub open spec fn time_levels(ps: Seq<Point>) -> Seq<i32> {
    ps.map_values(|p: Point| p.time_level)
}

pub open spec fn values_of(ps: Seq<Point>) -> Seq<i32> {
    ps.map_values(|p: Point| p.value)
}

impl PointMutateDatabase {
    pub open spec fn well_formed(&self) -> bool {
        self.0.well_formed() && self.1.well_formed()
    }

    /// Both coordinates of `p` have been seen.
    pub open spec fn records(&self, p: Point) -> bool {
        self.0.values@.contains(p.time_level) && self.1.values@.contains(p.value)
    }

    pub open spec fn records_all(&self, ps: Seq<Point>) -> bool {
        forall|k: int| 0 <= k < ps.len() ==> #[trigger] self.records(ps[k])
    }

    /// `r` is what some draws make of `p`, with shifts that `shifts` can give.
    pub open spec fn is_mutation<S: ShiftSource>(&self, shifts: &S, p: Point, r: Point) -> bool {
        is_int_mutation(shifts, self.0.values@, p.time_level, r.time_level) && is_int_mutation(
            shifts,
            self.1.values@,
            p.value,
            r.value,
        )
    }

    pub fn new() -> (db: PointMutateDatabase)
        ensures
            db.0.values@ == Seq::<i32>::empty(),
            db.1.values@ == Seq::<i32>::empty(),
            db.well_formed(),
    {
        PointMutateDatabase(IntDatabase::new(), IntDatabase::new())
    }

    /// Records both coordinates of `p`.
    pub fn insert(&mut self, p: &Point)
        requires
            old(self).well_formed(),
        ensures
            final(self).well_formed(),
            final(self).0.values@.to_multiset() == old(self).0.values@.to_multiset().insert(p.time_level),
            final(self).1.values@.to_multiset() == old(self).1.values@.to_multiset().insert(p.value),
            final(self).records(*p),
            forall|q: Point| old(self).records(q) ==> #[trigger] final(self).records(q),
    {
        self.0.insert(p.time_level);
        self.1.insert(p.value);
    }

    /// Mutates both coordinates of `p`, the time level first.
    pub fn mutate<S: ShiftSource>(&self, p: &Point, shifts: &S) -> (r: Point)
        requires
            self.records(*p),
        ensures
            self.is_mutation(shifts, *p, r),
    {
        let time_level = self.0.mutate(p.time_level, shifts);
        let value = self.1.mutate(p.value, shifts);
        Point { time_level, value }
    }

    /// Records every breakpoint of `ps`, in order.
    pub fn insert_all(&mut self, ps: &Vec<Point>)
        requires
            old(self).well_formed(),
        ensures
            final(self).well_formed(),
            final(self).0.values@.to_multiset() == old(self).0.values@.to_multiset().add(
                time_levels(ps@).to_multiset(),
            ),
            final(self).1.values@.to_multiset() == old(self).1.values@.to_multiset().add(
                values_of(ps@).to_multiset(),
            ),
            final(self).records_all(ps@),
            forall|q: Point| old(self).records(q) ==> #[trigger] final(self).records(q),
    {
        let ghost m0 = self.0.values@.to_multiset();
        let ghost m1 = self.1.values@.to_multiset();
        let n = ps.len();
        for k in 0..n
            invariant
                n == ps.len(),
                self.well_formed(),
                self.0.values@.to_multiset() == m0.add(time_levels(ps@.take(k as int)).to_multiset()),
                self.1.values@.to_multiset() == m1.add(values_of(ps@.take(k as int)).to_multiset()),
                forall|j: int| 0 <= j < k ==> #[trigger] self.records(ps@[j]),
                forall|q: Point| old(self).records(q) ==> #[trigger] self.records(q),
        {
            let p = ps[k];
            self.insert(&p);
            proof {
                assert(time_levels(ps@.take(k + 1)) =~= time_levels(ps@.take(k as int)).push(
                    p.time_level,
                ));
                assert(values_of(ps@.take(k + 1)) =~= values_of(ps@.take(k as int)).push(p.value));
                vstd::seq_lib::to_multiset_build(time_levels(ps@.take(k as int)), p.time_level);
                vstd::seq_lib::to_multiset_build(values_of(ps@.take(k as int)), p.value);
                assert(self.0.values@.to_multiset() =~= m0.add(
                    time_levels(ps@.take(k + 1)).to_multiset(),
                ));
                assert(self.1.values@.to_multiset() =~= m1.add(
                    values_of(ps@.take(k + 1)).to_multiset(),
                ));
            }
        }
        proof {
            assert(ps@.take(n as int) =~= ps@);
        }
    }

    /// Mutates every breakpoint of `ps`, in order.
    pub fn mutate_all<S: ShiftSource>(&self, ps: &Vec<Point>, shifts: &S) -> (r: Vec<Point>)
        requires
            self.records_all(ps@),
        ensures
            r.len() == ps.len(),
            forall|k: int| 0 <= k < ps.len() ==> self.is_mutation(shifts, ps@[k], #[trigger] r@[k]),
    {
        let mut r: Vec<Point> = Vec::new();
        let n = ps.len();
        for k in 0..n
            invariant
                n == ps.len(),
                self.records_all(ps@),
                r.len() == k,
                forall|j: int| 0 <= j < k ==> self.is_mutation(shifts, ps@[j], #[trigger] r@[j]),
        {
            let p = ps[k];
            assert(self.records(ps@[k as int]));
            let q = self.mutate(&p, shifts);
            r.push(q);
        }
        r
    }
}

/// The databases of the fields of a noise section.
pub struct NoiseMutateDatabase(
    pub BoolDatabase,
    pub IntDatabase<i32>,
    pub IntDatabase<i32>,
    pub PointMutateDatabase,
);

impl NoiseMutateDatabase {
    pub open spec fn well_formed(&self) -> bool {
        self.1.well_formed() && self.2.well_formed() && self.3.well_formed()
    }

    /// Every field of `n` has been seen, so that `n` can be mutated.
    pub open spec fn records(&self, n: Noise) -> bool {
        &&& self.0.records(n.On)
        &&& self.0.trues + self.0.falses <= usize::MAX
        &&& self.1.values@.contains(n.Level)
        &&& self.2.values@.contains(n.Slope)
        &&& self.3.records_all(n.Envelope@)
    }

    /// `r` is what some draws make of `n`, field by field, with shifts that
    /// `shifts` can give.
    pub open spec fn is_mutation<S: ShiftSource>(&self, shifts: &S, n: Noise, r: Noise) -> bool {
        &&& is_bool_mutation(shifts, self.0.trues as int, self.0.falses as int, n.On, r.On)
        &&& is_int_mutation(shifts, self.1.values@, n.Level, r.Level)
        &&& is_int_mutation(shifts, self.2.values@, n.Slope, r.Slope)
        &&& r.Envelope.len() == n.Envelope.len()
        &&& forall|k: int|
            0 <= k < n.Envelope.len() ==> self.3.is_mutation(
                shifts,
                n.Envelope@[k],
                #[trigger] r.Envelope@[k],
            )
    }

    pub fn new() -> (db: NoiseMutateDatabase)
        ensures
            db.0.trues == 0 && db.0.falses == 0,
            db.1.values@ == Seq::<i32>::empty(),
            db.2.values@ == Seq::<i32>::empty(),
            db.3.0.values@ == Seq::<i32>::empty(),
            db.3.1.values@ == Seq::<i32>::empty(),
            db.well_formed(),
    {
        NoiseMutateDatabase(
            BoolDatabase::new(),
            IntDatabase::new(),
            IntDatabase::new(),
            PointMutateDatabase::new(),
        )
    }

    /// Records every field of `n`, in declaration order.
    pub fn insert(&mut self, n: &Noise)
        requires
            old(self).well_formed(),
            old(self).0.trues + old(self).0.falses < usize::MAX,
        ensures
            final(self).well_formed(),
            final(self).0.trues == old(self).0.trues + (if n.On { 1int } else { 0int }),
            final(self).0.falses == old(self).0.falses + (if n.On { 0int } else { 1int }),
            final(self).1.values@.to_multiset() == old(self).1.values@.to_multiset().insert(n.Level),
            final(self).2.values@.to_multiset() == old(self).2.values@.to_multiset().insert(n.Slope),
            final(self).3.0.values@.to_multiset() == old(self).3.0.values@.to_multiset().add(
                crate::composite::time_levels(n.Envelope@).to_multiset(),
            ),
            final(self).3.1.values@.to_multiset() == old(self).3.1.values@.to_multiset().add(
                crate::composite::values_of(n.Envelope@).to_multiset(),
            ),
            final(self).records(*n),
    {
        self.0.insert(n.On);
        self.1.insert(n.Level);
        self.2.insert(n.Slope);
        self.3.insert_all(&n.Envelope);
    }

    /// Mutates every field of `n`, in declaration order.
    pub fn mutate<S: ShiftSource>(&self, n: &Noise, shifts: &S) -> (r: Noise)
        requires
            self.records(*n),
        ensures
            self.is_mutation(shifts, *n, r),
    {
        let on = self.0.mutate(n.On, shifts);
        let level = self.1.mutate(n.Level, shifts);
        let slope = self.2.mutate(n.Slope, shifts);
        let envelope = self.3.mutate_all(&n.Envelope, shifts);
        Noise { On: on, Level: level, Slope: slope, Envelope: envelope }
    }
}

/// The databases of the fields of a distortion section.
pub struct DistortionMutateDatabase(
    pub BoolDatabase,
    pub IntDatabase<i32>,
    pub IntDatabase<i32>,
    pub IntDatabase<i32>,
);

impl DistortionMutateDatabase {
    pub open spec fn well_formed(&self) -> bool {
        self.1.well_formed() && self.2.well_formed() && self.3.well_formed()
    }

    /// Every field of `d` has been seen, so that `d` can be mutated.
    pub open spec fn records(&self, d: Distortion) -> bool {
        &&& self.0.records(d.On)
        &&& self.0.trues + self.0.falses <= usize::MAX
        &&& self.1.values@.contains(d.Clipping)
        &&& self.2.values@.contains(d.Bits)
        &&& self.3.values@.contains(d.Rate)
    }

    /// `r` is what some draws make of `d`, field by field, with shifts that
    /// `shifts` can give.
    pub open spec fn is_mutation<S: ShiftSource>(&self, shifts: &S, d: Distortion, r: Distortion) -> bool {
        &&& is_bool_mutation(shifts, self.0.trues as int, self.0.falses as int, d.On, r.On)
        &&& is_int_mutation(shifts, self.1.values@, d.Clipping, r.Clipping)
        &&& is_int_mutation(shifts, self.2.values@, d.Bits, r.Bits)
        &&& is_int_mutation(shifts, self.3.values@, d.Rate, r.Rate)
    }

    pub fn new() -> (db: DistortionMutateDatabase)
        ensures
            db.0.trues == 0 && db.0.falses == 0,
            db.1.values@ == Seq::<i32>::empty(),
            db.2.values@ == Seq::<i32>::empty(),
            db.3.values@ == Seq::<i32>::empty(),
            db.well_formed(),
    {
        DistortionMutateDatabase(
            BoolDatabase::new(),
            IntDatabase::new(),
            IntDatabase::new(),
            IntDatabase::new(),
        )
    }

    /// Records every field of `d`, in declaration order.
    pub fn insert(&mut self, d: &Distortion)
        requires
            old(self).well_formed(),
            old(self).0.trues + old(self).0.falses < usize::MAX,
        ensures
            final(self).well_formed(),
            final(self).0.trues == old(self).0.trues + (if d.On { 1int } else { 0int }),
            final(self).0.falses == old(self).0.falses + (if d.On { 0int } else { 1int }),
            final(self).1.values@.to_multiset() == old(self).1.values@.to_multiset().insert(d.Clipping),
            final(self).2.values@.to_multiset() == old(self).2.values@.to_multiset().insert(d.Bits),
            final(self).3.values@.to_multiset() == old(self).3.values@.to_multiset().insert(d.Rate),
            final(self).records(*d),
    {
        self.0.insert(d.On);
        self.1.insert(d.Clipping);
        self.2.insert(d.Bits);
        self.3.insert(d.Rate);
    }

    /// Mutates every field of `d`, in declaration order.
    pub fn mutate<S: ShiftSource>(&self, d: &Distortion, shifts: &S) -> (r: Distortion)
        requires
            self.records(*d),
        ensures
            self.is_mutation(shifts, *d, r),
    {
        let on = self.0.mutate(d.On, shifts);
        let clipping = self.1.mutate(d.Clipping, shifts);
        let bits = self.2.mutate(d.Bits, shifts);
        let rate = self.3.mutate(d.Rate, shifts);
        Distortion { On: on, Clipping: clipping, Bits: bits, Rate: rate }
    }
}

} // verus!
