//! The same envelope text format for envelopes kept as bare
//! `(time, value)` pairs.
use vstd::prelude::*;
use crate::envelope::{
    envelope_of_text, envelope_text, format_envelope, parse_envelope, EnvelopeError, Point,
};

verus! {

pub open spec fn pairs_of(ps: Seq<Point>) -> Seq<(i32, i32)> {
    ps.map_values(|p: Point| (p.time_level, p.value))
}

pub open spec fn points_of(pairs: Seq<(i32, i32)>) -> Seq<Point> {
    pairs.map_values(|q: (i32, i32)| Point { time_level: q.0, value: q.1 })
}

/// The pair list of a section whose file gives none: `(0, 0)`, `(100, 0)`.
pub fn default_0_0_100_0() -> (e: Vec<(i32, i32)>)
    ensures
        e@ == seq![(0i32, 0i32), (100i32, 0i32)],
{
    let mut e: Vec<(i32, i32)> = Vec::new();
    e.push((0, 0));
    e.push((100, 0));
    e
}

/// Reads a pair list from its text, as `parse_envelope` reads an envelope.
pub fn parse_point_list(text: &str) -> (r: Result<Vec<(i32, i32)>, EnvelopeError>)
    ensures
        match r {
            Ok(v) => envelope_of_text(text@) is Ok && v@ == pairs_of(envelope_of_text(text@)->Ok_0),
            Err(e) => envelope_of_text(text@) == Err::<Seq<Point>, EnvelopeError>(e),
        },
{
    match parse_envelope(text) {
        Err(e) => Err(e),
        Ok(points) => {
            let mut v: Vec<(i32, i32)> = Vec::new();
            let n = points.len();
            for k in 0..n
                invariant
                    n == points.len(),
                    v@ == pairs_of(points@.take(k as int)),
            {
                let p = points[k];
                v.push((p.time_level, p.value));
                assert(v@ =~= pairs_of(points@.take(k + 1)));
            }
            assert(points@.take(n as int) =~= points@);
            Ok(v)
        },
    }
}

/// Writes a pair list as its text, as `format_envelope` writes an envelope.
pub fn format_point_list(list: &Vec<(i32, i32)>) -> (text: String)
    ensures
        text@ == envelope_text(points_of(list@)),
{
    let mut points: Vec<Point> = Vec::new();
    let n = list.len();
    for k in 0..n
        invariant
            n == list.len(),
            points@ == points_of(list@.take(k as int)),
    {
        let q = list[k];
        points.push(Point::new(q.0, q.1));
        assert(points@ =~= points_of(list@.take(k + 1)));
    }
    assert(list@.take(n as int) =~= list@);
    format_envelope(&points)
}

} // verus!
