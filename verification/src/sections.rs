//! The sections of a `.ds` instrument that hold no floating-point value,
//! the integer form of their switches, and the defaults of missing keys.
use vstd::prelude::*;
use crate::envelope::Point;

verus! {

/// The noise generator section.
#[allow(non_snake_case)]
#[derive(Clone, Debug, PartialEq, Eq)]
pub struct Noise {
    pub On: bool,
    pub Level: i32,
    pub Slope: i32,
    pub Envelope: Vec<Point>,
}

/// The distortion section.
#[allow(non_snake_case)]
#[derive(Clone, Copy, Debug, PartialEq, Eq)]
pub struct Distortion {
    pub On: bool,
    pub Clipping: i32,
    pub Bits: i32,
    pub Rate: i32,
}

/// The second noise band section, with its frequency in whole hertz and its
/// envelope as bare `(time, value)` pairs.
#[allow(non_snake_case)]
#[derive(Clone, Debug, PartialEq, Eq)]
pub struct NoiseBand2 {
    pub On: bool,
    pub Level: i32,
    pub F: i32,
    pub dF: i32,
    pub Envelope: Vec<(i32, i32)>,
}

/// What a stored switch integer means: only `1` is on.
pub open spec fn switch_of_int(n: i32) -> bool {
    n == 1
}

/// How a switch is stored: `1` for on, `0` for off.
pub open spec fn int_of_switch(b: bool) -> i32 {
    if b {
        1
    } else {
        0
    }
}

/// Reads a switch stored as an integer.
pub fn bool_from_int(n: i32) -> (b: bool)
    ensures
        b == switch_of_int(n),
{
    n == 1
}

/// Stores a switch as an integer.
pub fn bool_to_dsint(b: bool) -> (n: i32)
    ensures
        n == int_of_switch(b),
{
    if b {
        1
    } else {
        0
    }
}

/// A stored switch reads back as itself.
pub proof fn law_switch_round_trip(b: bool)
    ensures
        switch_of_int(int_of_switch(b)) == b,
{
}

/// Storing what was read gives back the stored integer exactly when it was
/// `0` or `1`; any other integer reads as off.
pub proof fn law_switch_canonical(n: i32)
    ensures
        int_of_switch(switch_of_int(n)) == n <==> (n == 0 || n == 1),
        (n != 0 && n != 1) ==> !switch_of_int(n),
{
}

/// The default level of a tone, overtone or noise band section.
pub fn default_128i32() -> (v: i32)
    ensures
        v == 128,
{
    128
}

/// The default overtone method.
pub fn default_2i32() -> (v: i32)
    ensures
        v == 2,
{
    2
}

/// The default overtone parameter and noise band width.
pub fn default_50i32() -> (v: i32)
    ensures
        v == 50,
{
    50
}

} // verus!
