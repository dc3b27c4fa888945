//! The random draws that mutation makes: uniform indices from the
//! thread-local generator of `rand`, and shifts from a caller's distribution.
use vstd::prelude::*;
use rand::Rng;
use rand::rngs::ThreadRng;

verus! {

#[verifier::external_type_specification]
#[verifier::external_body]
pub struct ExThreadRng(rand::rngs::ThreadRng);

/// `rand::thread_rng`: a handle on the thread-local generator. Nothing is
/// claimed of it.
#[verifier::external_body]
pub(crate) fn thread_rng() -> ThreadRng {
    rand::thread_rng()
}

/// `Rng::gen_range`: rand documents a value drawn uniformly from
/// `[low, high)` and a panic when `low >= high`, which `requires` rules
/// out. Only the range of the value is claimed.
#[verifier::external_body]
pub(crate) fn gen_index(rng: &mut ThreadRng, low: usize, high: usize) -> (r: usize)
    requires
        low < high,
    ensures
        low <= r < high,
{
    rng.gen_range(low, high)
}

/// `Rng::shuffle`: rand's source swaps elements only, so the result is a
/// permutation of the input; which one depends on chance and is not claimed.
#[verifier::external_body]
pub(crate) fn shuffle_indices(rng: &mut ThreadRng, v: &mut Vec<usize>)
    ensures
        final(v)@.len() == old(v)@.len(),
        final(v)@.to_multiset() == old(v)@.to_multiset(),
{
    rng.shuffle(v.as_mut_slice())
}

/// A source of index shifts: the caller's distribution, whose sample is
/// rounded to a whole number of positions. The mutation of a value moves
/// its index in the database by one shift. `admits` is the set of shifts
/// that the source can give; every shift it gives is in it. A source that
/// does not say otherwise may give any shift.
pub trait ShiftSource {
    open spec fn admits(&self, shift: int) -> bool {
        true
    }

    fn next_shift(&self, rng: &mut ThreadRng) -> (r: isize)
        ensures
            self.admits(r as int),
    ;
}

/// A source that always gives the same shift.
pub struct FixedShift(pub isize);

impl ShiftSource for FixedShift {
    open spec fn admits(&self, shift: int) -> bool {
        shift == self.0 as int
    }

    fn next_shift(&self, rng: &mut ThreadRng) -> (r: isize) {
        self.0
    }
}

/// `i` moved into `[0, len - 1]`.
pub open spec fn clamp_index(i: int, len: int) -> int {
    if i < 0 {
        0
    } else if i > len - 1 {
        len - 1
    } else {
        i
    }
}

} // verus!
