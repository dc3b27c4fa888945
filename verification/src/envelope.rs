//! The envelope text format of `.ds` files: breakpoints written as
//! `time,value` pairs separated by single spaces, e.g. `0,0 100,0`.
use vstd::prelude::*;
use crate::text::{chars_of, push_char};

verus! {

/// One breakpoint of an envelope: a time level and the value reached there.
#[derive(Clone, Copy, Debug, PartialEq, Eq, Structural)]
pub struct Point {
    pub time_level: i32,
    pub value: i32,
}

impl Point {
    pub fn new(time_level: i32, value: i32) -> (p: Point)
        ensures
            p.time_level == time_level,
            p.value == value,
    {
        Point { time_level, value }
    }
}

/// An envelope is the list of its breakpoints.
pub type Envelope = Vec<Point>;

/// The envelope of a section whose file gives none: from `(0, 0)` to `(100, 0)`.
pub fn default_0_0_100_0() -> (e: Envelope)
    ensures
        e@ == seq![Point { time_level: 0, value: 0 }, Point { time_level: 100, value: 0 }],
{
    let mut e: Vec<Point> = Vec::new();
    e.push(Point::new(0, 0));
    e.push(Point::new(100, 0));
    e
}

/// Why a decimal number of an envelope could not be read as an `i32`
/// (the kinds that `i32::from_str_radix` reports for a digit run).
#[derive(Clone, Copy, Debug, PartialEq, Eq, Structural)]
pub enum NumberErrorKind {
    /// A character of the number is not an ASCII digit.
    InvalidDigit,
    /// The number is larger than `i32::MAX`.
    PosOverflow,
}

/// Why a text is not an envelope.
#[derive(Clone, Copy, Debug, PartialEq, Eq, Structural)]
pub enum EnvelopeError {
    /// The text does not start with two `time,value` pairs separated by a space.
    Pattern,
    /// A number of a pair is not an `i32`.
    Number(NumberErrorKind),
}

// ---------------------------------------------------------------------------
// The digit class

#[verifier::external_type_specification]
#[verifier::external_body]
pub struct ExRegex(regex::Regex);

/// Membership in the class `\d` of the regex crate, which in its default
/// Unicode mode is the Unicode general category Nd (decimal digits).
pub uninterp spec fn unicode_decimal_digit(c: char) -> bool;

/// A compiled regex that matches exactly one character of the class `\d`.
/// Its only constructor is `DigitClass::new`.
struct DigitClass {
    re: regex::Regex,
}

impl DigitClass {
    /// `regex::Regex::new` on the pattern `^\d$`. The pattern is valid, so
    /// the call returns `Ok`; nothing further is claimed.
    #[verifier::external_body]
    fn new() -> DigitClass {
        DigitClass { re: regex::Regex::new(r"^\d$").unwrap() }
    }

    /// `regex::Regex::is_match` of the pattern compiled by `new` on the
    /// one-character text `c`: claimed to be true exactly when `c` is in the
    /// class `\d`, which is named `unicode_decimal_digit`.
    #[verifier::external_body]
    fn contains(&self, c: char) -> (r: bool)
        ensures
            r == unicode_decimal_digit(c),
    {
        let mut buf = [0u8; 4];
        self.re.is_match(c.encode_utf8(&mut buf))
    }
}

/// The digit class of the envelope pattern: among ASCII characters exactly
/// `0`..`9` (which is what `\d` holds there), beyond ASCII the Unicode
/// decimal digits of `\d`.
pub open spec fn is_pattern_digit(c: char) -> bool {
    if (c as u32) < 128 {
        48 <= (c as u32) && (c as u32) <= 57
    } else {
        unicode_decimal_digit(c)
    }
}

pub open spec fn is_ascii_digit(c: char) -> bool {
    48 <= (c as u32) && (c as u32) <= 57
}

// ---------------------------------------------------------------------------
// The grammar

/// The number of consecutive pattern digits in `s` from position `i`.
pub open spec fn digit_run(s: Seq<char>, i: int) -> nat
    decreases s.len() - i,
{
    if 0 <= i < s.len() && is_pattern_digit(s[i]) {
        1 + digit_run(s, i + 1)
    } else {
        0
    }
}

/// A digit run never reaches past the end of the text.
pub proof fn lemma_digit_run_bound(s: Seq<char>, i: int)
    ensures
        digit_run(s, i) > 0 ==> 0 <= i && i + digit_run(s, i) <= s.len(),
    decreases s.len() - i,
{
    if 0 <= i < s.len() && is_pattern_digit(s[i]) {
        lemma_digit_run_bound(s, i + 1);
    }
}

/// A pair `\d+,\d+` starts at position `i` (taking the longest digit runs).
pub open spec fn pair_at(s: Seq<char>, i: int) -> bool {
    let a = digit_run(s, i);
    &&& a > 0
    &&& i + a < s.len()
    &&& s[i + a] == ','
    &&& digit_run(s, i + a + 1) > 0
}

/// Where the pair that starts at `i` ends.
pub open spec fn pair_end(s: Seq<char>, i: int) -> int {
    let a = digit_run(s, i);
    i + a + 1 + digit_run(s, i + a + 1)
}

/// The text starts with what the pattern `^(\d+,\d+ )+(\d+,\d+)` matches:
/// two pairs separated by one space (what follows them is not looked at).
pub open spec fn shape_matches(s: Seq<char>) -> bool {
    &&& pair_at(s, 0)
    &&& pair_end(s, 0) < s.len()
    &&& s[pair_end(s, 0)] == ' '
    &&& pair_at(s, pair_end(s, 0) + 1)
}

/// The decimal value of `t` read from the left onto `acc`, as
/// `i32::from_str_radix(_, 10)` reads a run of digits: the first character
/// that is not an ASCII digit, or the first digit that takes the value
/// beyond `i32::MAX`, is an error.
pub open spec fn decimal_from(t: Seq<char>, acc: int) -> Result<int, NumberErrorKind>
    decreases t.len(),
{
    if t.len() == 0 {
        Ok(acc)
    } else if !is_ascii_digit(t[0]) {
        Err(NumberErrorKind::InvalidDigit)
    } else {
        let v = acc * 10 + (t[0] as u32 - 48);
        if v > i32::MAX {
            Err(NumberErrorKind::PosOverflow)
        } else {
            decimal_from(t.drop_first(), v)
        }
    }
}

pub open spec fn decimal_value(t: Seq<char>) -> Result<int, NumberErrorKind> {
    decimal_from(t, 0)
}

/// The breakpoints of the pairs found in `s` from position `i` on, in the
/// order of a left-to-right search for `(\d+),(\d+)`, or the error of the
/// first number that is not an `i32`.
pub open spec fn points_from(s: Seq<char>, i: int) -> Result<Seq<Point>, EnvelopeError>
    decreases s.len() - i,
{
    if i >= s.len() {
        Ok(Seq::empty())
    } else if pair_at(s, i) {
        let a = digit_run(s, i);
        let e = pair_end(s, i);
        proof {
            lemma_digit_run_bound(s, i + a + 1);
        }
        match decimal_value(s.subrange(i, i + a)) {
            Err(k) => Err(EnvelopeError::Number(k)),
            Ok(x) => match decimal_value(s.subrange(i + a + 1, e)) {
                Err(k) => Err(EnvelopeError::Number(k)),
                Ok(y) => match points_from(s, e) {
                    Err(err) => Err(err),
                    Ok(rest) => Ok(seq![Point { time_level: x as i32, value: y as i32 }] + rest),
                },
            },
        }
    } else {
        points_from(s, i + 1)
    }
}

/// What the envelope text `s` stands for.
pub open spec fn envelope_of_text(s: Seq<char>) -> Result<Seq<Point>, EnvelopeError> {
    if shape_matches(s) {
        points_from(s, 0)
    } else {
        Err(EnvelopeError::Pattern)
    }
}

pub open spec fn prepend_points(
    prefix: Seq<Point>,
    r: Result<Seq<Point>, EnvelopeError>,
) -> Result<Seq<Point>, EnvelopeError> {
    match r {
        Ok(q) => Ok(prefix + q),
        Err(e) => Err(e),
    }
}

// ---------------------------------------------------------------------------
// Reading

/// The digit flags of `s`: `flags[j]` is whether `s[j]` is a pattern digit.
fn digit_flags(s: &Vec<char>) -> (flags: Vec<bool>)
    ensures
        flags.len() == s.len(),
        forall|j: int| 0 <= j < s.len() ==> flags[j] == is_pattern_digit(s@[j]),
{
    let class = DigitClass::new();
    let mut flags: Vec<bool> = Vec::new();
    let n = s.len();
    for k in 0..n
        invariant
            n == s.len(),
            flags.len() == k,
            forall|j: int| 0 <= j < k ==> flags[j] == is_pattern_digit(s@[j]),
    {
        let c = s[k];
        let u = c as u32;
        let d = if u < 128 {
            48 <= u && u <= 57
        } else {
            class.contains(c)
        };
        flags.push(d);
    }
    flags
}

/// The end of the digit run that starts at `i`.
fn run_end(s: &Vec<char>, flags: &Vec<bool>, i: usize) -> (e: usize)
    requires
        flags.len() == s.len(),
        forall|j: int| 0 <= j < s.len() ==> flags[j] == is_pattern_digit(s@[j]),
        i <= s.len(),
    ensures
        e == i + digit_run(s@, i as int),
        e <= s.len(),
{
    let mut k = i;
    while k < s.len() && flags[k]
        invariant
            i <= k <= s.len(),
            flags.len() == s.len(),
            forall|j: int| 0 <= j < s.len() ==> flags[j] == is_pattern_digit(s@[j]),
            digit_run(s@, i as int) == (k - i) + digit_run(s@, k as int),
        decreases s.len() - k,
    {
        k = k + 1;
    }
    k
}

/// The pair at `i`, as the ends of its two digit runs.
fn find_pair(s: &Vec<char>, flags: &Vec<bool>, i: usize) -> (r: Option<(usize, usize)>)
    requires
        flags.len() == s.len(),
        forall|j: int| 0 <= j < s.len() ==> flags[j] == is_pattern_digit(s@[j]),
        i <= s.len(),
    ensures
        r is Some <==> pair_at(s@, i as int),
        r matches Some((m, e)) ==> m == i + digit_run(s@, i as int) && e == pair_end(s@, i as int)
            && e <= s.len(),
{
    let m = run_end(s, flags, i);
    if m == i || m >= s.len() || s[m] != ',' {
        return None;
    }
    let e = run_end(s, flags, m + 1);
    if e == m + 1 {
        None
    } else {
        Some((m, e))
    }
}

/// `decimal_value` of `s[start..end]`.
fn decimal_of(s: &Vec<char>, start: usize, end: usize) -> (r: Result<i32, NumberErrorKind>)
    requires
        start <= end <= s.len(),
    ensures
        match r {
            Ok(v) => decimal_value(s@.subrange(start as int, end as int)) == Ok::<int, NumberErrorKind>(v as int),
            Err(k) => decimal_value(s@.subrange(start as int, end as int)) == Err::<int, NumberErrorKind>(k),
        },
{
    let ghost t = s@.subrange(start as int, end as int);
    let mut acc: i64 = 0;
    let mut k = start;
    while k < end
        invariant
            start <= k <= end <= s.len(),
            0 <= acc <= i32::MAX,
            t == s@.subrange(start as int, end as int),
            decimal_from(t, 0) == decimal_from(s@.subrange(k as int, end as int), acc as int),
        decreases end - k,
    {
        let c = s[k];
        assert(s@.subrange(k as int, end as int)[0] == c);
        let u = c as u32;
        if !(48 <= u && u <= 57) {
            return Err(NumberErrorKind::InvalidDigit);
        }
        let v = acc * 10 + (u - 48) as i64;
        if v > 2147483647 {
            return Err(NumberErrorKind::PosOverflow);
        }
        assert(s@.subrange(k as int, end as int).drop_first() =~= s@.subrange(k + 1, end as int));
        acc = v;
        k = k + 1;
    }
    assert(s@.subrange(k as int, end as int).len() == 0);
    Ok(acc as i32)
}

/// Reads an envelope from its text: the text must start with two
/// `time,value` pairs separated by one space (`^(\d+,\d+ )+(\d+,\d+)`); then
/// every pair `(\d+),(\d+)` found from left to right gives one breakpoint,
/// and the first number that is not an `i32` is the error.
pub fn parse_envelope(text: &str) -> (r: Result<Envelope, EnvelopeError>)
    ensures
        match r {
            Ok(v) => envelope_of_text(text@) == Ok::<Seq<Point>, EnvelopeError>(v@),
            Err(e) => envelope_of_text(text@) == Err::<Seq<Point>, EnvelopeError>(e),
        },
{
    let s = chars_of(text);
    let flags = digit_flags(&s);
    let first = find_pair(&s, &flags, 0);
    let shape = match first {
        None => false,
        Some((_, e)) => {
            if e < s.len() && s[e] == ' ' {
                find_pair(&s, &flags, e + 1).is_some()
            } else {
                false
            }
        },
    };
    if !shape {
        return Err(EnvelopeError::Pattern);
    }
    assert(shape_matches(s@));
    let mut out: Vec<Point> = Vec::new();
    let mut i: usize = 0;
    while i < s.len()
        invariant
            i <= s.len(),
            s@ == text@,
            shape_matches(s@),
            flags.len() == s.len(),
            forall|j: int| 0 <= j < s.len() ==> flags[j] == is_pattern_digit(s@[j]),
            points_from(s@, 0) == prepend_points(out@, points_from(s@, i as int)),
        decreases s.len() - i,
    {
        match find_pair(&s, &flags, i) {
            None => {
                i = i + 1;
            },
            Some((m, e)) => {
                let x = decimal_of(&s, i, m);
                let x = match x {
                    Ok(x) => x,
                    Err(k) => {
                        assert(points_from(s@, i as int) == Err::<Seq<Point>, EnvelopeError>(
                            EnvelopeError::Number(k),
                        ));
                        return Err(EnvelopeError::Number(k));
                    },
                };
                let y = decimal_of(&s, m + 1, e);
                let y = match y {
                    Ok(y) => y,
                    Err(k) => {
                        assert(points_from(s@, i as int) == Err::<Seq<Point>, EnvelopeError>(
                            EnvelopeError::Number(k),
                        ));
                        return Err(EnvelopeError::Number(k));
                    },
                };
                let p = Point { time_level: x, value: y };
                proof {
                    let ghost rest = points_from(s@, e as int);
                    match rest {
                        Ok(q) => {
                            assert(out@ + (seq![p] + q) =~= out@.push(p) + q);
                        },
                        Err(_) => {},
                    }
                }
                out.push(p);
                i = e;
            },
        }
    }
    assert(points_from(s@, i as int) == Ok::<Seq<Point>, EnvelopeError>(Seq::empty()));
    assert(out@ + Seq::<Point>::empty() =~= out@);
    Ok(out)
}

// ---------------------------------------------------------------------------
// Writing

/// The character of the decimal digit `d`.
pub open spec fn digit_char(d: int) -> char {
    (48 + d) as char
}

/// The decimal text of `n`, without leading zeros.
pub open spec fn nat_text(n: nat) -> Seq<char>
    decreases n,
{
    if n < 10 {
        seq![digit_char(n as int)]
    } else {
        nat_text(n / 10) + seq![digit_char((n % 10) as int)]
    }
}

/// The decimal text of `v`, as `Display` writes an integer: a `-` before
/// the digits of a negative number.
pub open spec fn int_text(v: int) -> Seq<char> {
    if v < 0 {
        seq!['-'] + nat_text((-v) as nat)
    } else {
        nat_text(v as nat)
    }
}

/// The text of one breakpoint: `time,value`.
pub open spec fn point_text(p: Point) -> Seq<char> {
    int_text(p.time_level as int) + seq![','] + int_text(p.value as int)
}

/// The text of an envelope: the texts of its breakpoints joined by single
/// spaces (the empty envelope has the empty text).
pub open spec fn envelope_text(ps: Seq<Point>) -> Seq<char>
    decreases ps.len(),
{
    if ps.len() == 0 {
        Seq::empty()
    } else if ps.len() == 1 {
        point_text(ps[0])
    } else {
        point_text(ps[0]) + seq![' '] + envelope_text(ps.drop_first())
    }
}

/// Appending a breakpoint to an envelope appends a space (unless the
/// envelope was empty) and the breakpoint's text to the envelope's text.
pub proof fn lemma_envelope_text_push(ps: Seq<Point>, p: Point)
    ensures
        envelope_text(ps.push(p)) == (if ps.len() == 0 {
            point_text(p)
        } else {
            envelope_text(ps) + seq![' '] + point_text(p)
        }),
    decreases ps.len(),
{
    if ps.len() == 0 {
        assert(ps.push(p).len() == 1);
    } else {
        assert(ps.push(p).drop_first() =~= ps.drop_first().push(p));
        lemma_envelope_text_push(ps.drop_first(), p);
        if ps.len() == 1 {
            assert(ps.drop_first().len() == 0);
        } else {
            assert(point_text(ps[0]) + seq![' '] + (envelope_text(ps.drop_first()) + seq![' ']
                + point_text(p)) =~= point_text(ps[0]) + seq![' '] + envelope_text(ps.drop_first())
                + seq![' '] + point_text(p));
        }
    }
}

fn push_nat_text(out: &mut String, n: u32)
    ensures
        final(out)@ == old(out)@ + nat_text(n as nat),
    decreases n,
{
    if n >= 10 {
        push_nat_text(out, n / 10);
    }
    let d = (n % 10) as u8;
    let c = (48u8 + d) as char;
    push_char(out, c);
    assert(final(out)@ =~= old(out)@ + nat_text(n as nat));
}

fn push_int_text(out: &mut String, v: i32)
    ensures
        final(out)@ == old(out)@ + int_text(v as int),
{
    if v < 0 {
        push_char(out, '-');
        let m = (0i64 - v as i64) as u32;
        push_nat_text(out, m);
        assert(final(out)@ =~= old(out)@ + int_text(v as int));
    } else {
        push_nat_text(out, v as u32);
    }
}

/// Writes an envelope as its text: `time,value` pairs joined by single spaces.
pub fn format_envelope(envelope: &Envelope) -> (text: String)
    ensures
        text@ == envelope_text(envelope@),
{
    let mut out = String::new();
    let n = envelope.len();
    for k in 0..n
        invariant
            n == envelope.len(),
            out@ == envelope_text(envelope@.take(k as int)),
    {
        let p = envelope[k];
        proof {
            assert(envelope@.take(k + 1) =~= envelope@.take(k as int).push(p));
            lemma_envelope_text_push(envelope@.take(k as int), p);
        }
        if k > 0 {
            push_char(&mut out, ' ');
        }
        push_int_text(&mut out, p.time_level);
        push_char(&mut out, ',');
        push_int_text(&mut out, p.value);
        assert(out@ =~= envelope_text(envelope@.take(k + 1)));
    }
    assert(envelope@.take(n as int) =~= envelope@);
    out
}

} // verus!
