//! What the envelope reader and writer promise together.
use vstd::prelude::*;
use crate::envelope::{
    digit_char, digit_run, decimal_from, decimal_value, envelope_of_text, envelope_text,
    is_ascii_digit, is_pattern_digit, lemma_digit_run_bound, nat_text, pair_at, pair_end, point_text,
    points_from, shape_matches, EnvelopeError, NumberErrorKind, Point,
};

verus! {

/// Every coordinate of the breakpoints is at least zero (the pattern has no
/// sign, so only such envelopes have a text that reads back).
pub open spec fn all_nonnegative(ps: Seq<Point>) -> bool {
    forall|k: int| #![trigger ps[k]] 0 <= k < ps.len() ==> ps[k].time_level >= 0 && ps[k].value >= 0
}

proof fn lemma_nat_text_digits(n: nat)
    ensures
        nat_text(n).len() >= 1,
        forall|j: int| 0 <= j < nat_text(n).len() ==> is_ascii_digit(#[trigger] nat_text(n)[j]),
        forall|j: int| 0 <= j < nat_text(n).len() ==> is_pattern_digit(#[trigger] nat_text(n)[j]),
    decreases n,
{
    if n >= 10 {
        lemma_nat_text_digits(n / 10);
        let t = nat_text(n / 10);
        let d = digit_char((n % 10) as int);
        assert(nat_text(n) == t + seq![d]);
        assert forall|j: int| 0 <= j < nat_text(n).len() implies is_ascii_digit(
            #[trigger] nat_text(n)[j],
        ) by {
            if j < t.len() {
                assert(nat_text(n)[j] == t[j]);
            }
        }
    }
}

proof fn lemma_run_exact(s: Seq<char>, i: int, k: int)
    requires
        0 <= i,
        0 <= k,
        i + k <= s.len(),
        forall|j: int| i <= j < i + k ==> is_pattern_digit(#[trigger] s[j]),
        i + k == s.len() || !is_pattern_digit(s[i + k]),
    ensures
        digit_run(s, i) == k,
    decreases k,
{
    if k > 0 {
        lemma_run_exact(s, i + 1, k - 1);
    }
}

proof fn lemma_digit_run_suffix(a: Seq<char>, b: Seq<char>, j: int)
    requires
        0 <= j,
    ensures
        digit_run(a + b, a.len() + j) == digit_run(b, j),
    decreases b.len() - j,
{
    if j < b.len() {
        assert((a + b)[a.len() + j] == b[j]);
        lemma_digit_run_suffix(a, b, j + 1);
    }
}

proof fn lemma_pair_suffix(a: Seq<char>, b: Seq<char>, j: int)
    requires
        0 <= j,
    ensures
        pair_at(a + b, a.len() + j) == pair_at(b, j),
        pair_end(a + b, a.len() + j) == a.len() + pair_end(b, j),
{
    lemma_digit_run_suffix(a, b, j);
    let r = digit_run(b, j);
    lemma_digit_run_suffix(a, b, j + r + 1);
    if j + r < b.len() {
        assert((a + b)[a.len() + j + r] == b[j + r]);
    }
}

proof fn lemma_points_from_suffix(a: Seq<char>, b: Seq<char>, j: int)
    requires
        0 <= j,
    ensures
        points_from(a + b, a.len() + j) == points_from(b, j),
    decreases b.len() - j,
{
    let s = a + b;
    let i = a.len() + j;
    if j < b.len() {
        lemma_pair_suffix(a, b, j);
        if pair_at(b, j) {
            let r = digit_run(b, j);
            lemma_digit_run_suffix(a, b, j);
            lemma_digit_run_bound(b, j + r + 1);
            let e = pair_end(b, j);
            assert(s.subrange(i, i + r) =~= b.subrange(j, j + r));
            assert(s.subrange(i + r + 1, a.len() + e) =~= b.subrange(j + r + 1, e));
            lemma_points_from_suffix(a, b, e);
        } else {
            lemma_points_from_suffix(a, b, j + 1);
        }
    }
}

proof fn lemma_decimal_push(t: Seq<char>, acc: int, d: int)
    requires
        0 <= d <= 9,
        decimal_from(t, acc) is Ok,
    ensures
        decimal_from(t.push(digit_char(d)), acc) == ({
            let v = decimal_from(t, acc)->Ok_0 * 10 + d;
            if v > i32::MAX {
                Err::<int, NumberErrorKind>(NumberErrorKind::PosOverflow)
            } else {
                Ok::<int, NumberErrorKind>(v)
            }
        }),
    decreases t.len(),
{
    let u = t.push(digit_char(d));
    let c = digit_char(d);
    assert((c as u32) == 48 + d);
    assert(is_ascii_digit(c));
    if t.len() == 0 {
        assert(u[0] == c);
        assert(u.drop_first() =~= Seq::<char>::empty());
        assert(decimal_from(t, acc) == Ok::<int, NumberErrorKind>(acc));
        let v = acc * 10 + d;
        if v <= i32::MAX {
            assert(decimal_from(u.drop_first(), v) == Ok::<int, NumberErrorKind>(v));
        }
    } else {
        let v = acc * 10 + (t[0] as u32 - 48);
        assert(u[0] == t[0]);
        assert(u.drop_first() =~= t.drop_first().push(digit_char(d)));
        lemma_decimal_push(t.drop_first(), v, d);
    }
}

proof fn lemma_decimal_nat_text(n: nat)
    requires
        n <= i32::MAX,
    ensures
        decimal_value(nat_text(n)) == Ok::<int, NumberErrorKind>(n as int),
    decreases n,
{
    if n < 10 {
        let t = nat_text(n);
        let c = digit_char(n as int);
        assert(t[0] == c);
        assert((c as u32) == 48 + n);
        assert(t.drop_first() =~= Seq::<char>::empty());
        assert(decimal_from(t.drop_first(), n as int) == Ok::<int, NumberErrorKind>(n as int));
    } else {
        lemma_decimal_nat_text(n / 10);
        let c = digit_char((n % 10) as int);
        assert(nat_text(n) =~= nat_text(n / 10).push(c));
        lemma_decimal_push(nat_text(n / 10), 0, (n % 10) as int);
        assert((n / 10) * 10 + n % 10 == n);
    }
}

/// The text of a breakpoint with nonnegative coordinates, followed by text
/// that does not start with a digit, is one pair that reads back the point.
proof fn lemma_point_pair(p: Point, rest: Seq<char>)
    requires
        p.time_level >= 0,
        p.value >= 0,
        rest.len() == 0 || !is_pattern_digit(rest[0]),
    ensures
        ({
            let s = point_text(p) + rest;
            let a = nat_text(p.time_level as nat).len() as int;
            &&& pair_at(s, 0)
            &&& digit_run(s, 0) == a
            &&& pair_end(s, 0) == point_text(p).len()
            &&& decimal_value(s.subrange(0, a)) == Ok::<int, NumberErrorKind>(p.time_level as int)
            &&& decimal_value(s.subrange(a + 1, pair_end(s, 0))) == Ok::<int, NumberErrorKind>(
                p.value as int,
            )
        }),
{
    let x = nat_text(p.time_level as nat);
    let y = nat_text(p.value as nat);
    let s = point_text(p) + rest;
    lemma_nat_text_digits(p.time_level as nat);
    lemma_nat_text_digits(p.value as nat);
    assert(s =~= x + (seq![','] + y + rest));
    assert(s[x.len() as int] == ',');
    assert forall|j: int| 0 <= j < x.len() implies is_pattern_digit(#[trigger] s[j]) by {
        assert(s[j] == x[j]);
    }
    lemma_run_exact(s, 0, x.len() as int);
    let b0: int = x.len() as int + 1;
    assert forall|j: int| b0 <= j < b0 + y.len() implies is_pattern_digit(#[trigger] s[j]) by {
        assert(s[j] == y[j - b0]);
    }
    if rest.len() > 0 {
        assert(s[b0 + y.len() as int] == rest[0]);
    }
    lemma_run_exact(s, b0, y.len() as int);
    assert(s.subrange(0, x.len() as int) =~= x);
    assert(s.subrange(b0, b0 + y.len() as int) =~= y);
    lemma_decimal_nat_text(p.time_level as nat);
    lemma_decimal_nat_text(p.value as nat);
}

proof fn lemma_points_of_text(ps: Seq<Point>)
    requires
        ps.len() >= 1,
        all_nonnegative(ps),
    ensures
        points_from(envelope_text(ps), 0) == Ok::<Seq<Point>, EnvelopeError>(ps),
    decreases ps.len(),
{
    let p = ps[0];
    let t = envelope_text(ps);
    assert(ps[0].time_level >= 0);
    if ps.len() == 1 {
        lemma_point_pair(p, Seq::empty());
        assert(point_text(p) + Seq::<char>::empty() =~= t);
        assert(pair_at(t, 0));
        assert(pair_end(t, 0) == t.len());
        assert(points_from(t, t.len() as int) == Ok::<Seq<Point>, EnvelopeError>(Seq::empty()));
        assert(Point { time_level: p.time_level as int as i32, value: p.value as int as i32 } == p);
        assert(seq![p] + Seq::<Point>::empty() =~= ps);
        assert(points_from(t, 0) == Ok::<Seq<Point>, EnvelopeError>(seq![p] + Seq::<Point>::empty()));
    } else {
        let rest = envelope_text(ps.drop_first());
        let tail = seq![' '] + rest;
        lemma_point_pair(p, tail);
        assert(t =~= point_text(p) + tail);
        let e = point_text(p).len() as int;
        assert(t[e] == ' ');
        assert(!pair_at(t, e));
        lemma_points_from_suffix(point_text(p) + seq![' '], rest, 0);
        assert(point_text(p) + seq![' '] + rest =~= t);
        assert forall|k: int| #![trigger ps.drop_first()[k]] 0 <= k < ps.drop_first().len() implies ps.drop_first()[k].time_level
            >= 0 && ps.drop_first()[k].value >= 0 by {
            assert(ps.drop_first()[k] == ps[k + 1]);
        }
        lemma_points_of_text(ps.drop_first());
        assert((point_text(p) + seq![' ']).len() == e + 1);
        assert(points_from(t, e + 1) == Ok::<Seq<Point>, EnvelopeError>(ps.drop_first()));
        assert(points_from(t, e) == points_from(t, e + 1));
        assert(pair_at(t, 0));
        assert(pair_end(t, 0) == e);
        assert(Point { time_level: p.time_level as int as i32, value: p.value as int as i32 } == p);
        assert(seq![p] + ps.drop_first() =~= ps);
        assert(points_from(t, 0) == Ok::<Seq<Point>, EnvelopeError>(seq![p] + ps.drop_first()));
    }
}

/// Writing an envelope of at least two breakpoints with nonnegative
/// coordinates and reading the text back gives the same envelope.
pub proof fn law_read_after_write(ps: Seq<Point>)
    requires
        ps.len() >= 2,
        all_nonnegative(ps),
    ensures
        envelope_of_text(envelope_text(ps)) == Ok::<Seq<Point>, EnvelopeError>(ps),
{
    let p = ps[0];
    let t = envelope_text(ps);
    let rest = envelope_text(ps.drop_first());
    assert(ps[0].time_level >= 0);
    lemma_point_pair(p, seq![' '] + rest);
    assert(t =~= point_text(p) + (seq![' '] + rest));
    let e = point_text(p).len() as int;
    assert(t[e] == ' ');
    let q = ps[1];
    assert(ps[1].time_level >= 0);
    let rest2 = if ps.len() == 2 {
        Seq::<char>::empty()
    } else {
        seq![' '] + envelope_text(ps.drop_first().drop_first())
    };
    assert(rest =~= point_text(q) + rest2);
    lemma_point_pair(q, rest2);
    lemma_pair_suffix(point_text(p) + seq![' '], rest, 0);
    assert(point_text(p) + seq![' '] + rest =~= t);
    assert(shape_matches(t));
    lemma_points_of_text(ps);
}

proof fn lemma_decimal_range(t: Seq<char>, acc: int)
    requires
        0 <= acc <= i32::MAX,
        decimal_from(t, acc) is Ok,
    ensures
        0 <= decimal_from(t, acc)->Ok_0 <= i32::MAX,
    decreases t.len(),
{
    if t.len() > 0 {
        let v = acc * 10 + (t[0] as u32 - 48);
        lemma_decimal_range(t.drop_first(), v);
    }
}

proof fn lemma_points_nonnegative(s: Seq<char>, i: int)
    requires
        points_from(s, i) is Ok,
    ensures
        all_nonnegative(points_from(s, i)->Ok_0),
    decreases s.len() - i,
{
    if i < s.len() {
        if pair_at(s, i) {
            let a = digit_run(s, i);
            let e = pair_end(s, i);
            lemma_digit_run_bound(s, i + a + 1);
            lemma_decimal_range(s.subrange(i, i + a), 0);
            lemma_decimal_range(s.subrange(i + a + 1, e), 0);
            lemma_points_nonnegative(s, e);
            let q = points_from(s, i)->Ok_0;
            let rest = points_from(s, e)->Ok_0;
            assert forall|k: int| #![trigger q[k]] 0 <= k < q.len() implies q[k].time_level >= 0
                && q[k].value >= 0 by {
                if k > 0 {
                    assert(q[k] == rest[k - 1]);
                }
            }
        } else {
            lemma_points_nonnegative(s, i + 1);
        }
    }
}

/// An envelope read from a text has at least two breakpoints, all with
/// nonnegative coordinates, and writing it gives a text that reads back
/// as the same envelope: reading then writing reaches a fixed point.
pub proof fn law_write_after_read(s: Seq<char>)
    requires
        envelope_of_text(s) is Ok,
    ensures
        ({
            let ps = envelope_of_text(s)->Ok_0;
            &&& ps.len() >= 2
            &&& all_nonnegative(ps)
            &&& envelope_of_text(envelope_text(ps)) == Ok::<Seq<Point>, EnvelopeError>(ps)
        }),
{
    let ps = envelope_of_text(s)->Ok_0;
    lemma_points_nonnegative(s, 0);
    let e1 = pair_end(s, 0);
    let a = digit_run(s, 0);
    lemma_digit_run_bound(s, a as int + 1);
    let q1 = points_from(s, e1)->Ok_0;
    assert(ps.len() == 1 + q1.len());
    assert(!pair_at(s, e1));
    assert(points_from(s, e1) == points_from(s, e1 + 1));
    let a2 = digit_run(s, e1 + 1);
    lemma_digit_run_bound(s, e1 + 1 + a2 + 1);
    assert(q1.len() >= 1);
    law_read_after_write(ps);
}

} // verus!
