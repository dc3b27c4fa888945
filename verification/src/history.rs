//! The edit history of an instrument: every change works on a copy of the
//! current state, and an undo drops the latest state unless it is the only one.
use vstd::prelude::*;

verus! {

/// The states left by an undo: all but the last, unless only one is left.
pub open spec fn after_undo<T>(h: Seq<T>) -> Seq<T> {
    if h.len() >= 2 {
        h.drop_last()
    } else {
        h
    }
}

/// An undo right after a change gives back the history from before the
/// change, whatever the edit was; and an undo never empties the history.
pub proof fn law_undo_reverts_change<T>(h: Seq<T>, edited: T)
    requires
        h.len() >= 1,
    ensures
        after_undo(h.push(edited)) == h,
        after_undo(h).len() >= 1,
{
    assert(h.push(edited).drop_last() =~= h);
}

/// A non-empty stack of states; the last one is the current state.
pub struct DrumSynthStack<T> {
    stack: Vec<T>,
}

impl<T: Clone> DrumSynthStack<T> {
    /// The states, oldest first.
    pub closed spec fn view(&self) -> Seq<T> {
        self.stack@
    }

    pub open spec fn well_formed(&self) -> bool {
        self.view().len() >= 1
    }

    /// A history that holds only `initial`.
    pub fn new(initial: T) -> (s: DrumSynthStack<T>)
        ensures
            s.view() == seq![initial],
            s.well_formed(),
    {
        let mut stack: Vec<T> = Vec::new();
        stack.push(initial);
        let s = DrumSynthStack { stack };
        assert(s.view() =~= seq![initial]);
        s
    }

    /// The current state.
    pub fn current(&self) -> (r: &T)
        requires
            self.well_formed(),
        ensures
            *r == self.view().last(),
    {
        let n = self.stack.len();
        &self.stack[n - 1]
    }

    /// Starts a change: pushes a clone of the current state and hands out
    /// the new current state for editing.
    pub fn change(&mut self) -> (r: &mut T)
        requires
            old(self).well_formed(),
        ensures
            cloned::<T>(old(self).view().last(), *r),
            final(self).view() == old(self).view().push(*final(r)),
            final(self).well_formed(),
    {
        let n = self.stack.len();
        let new = self.stack[n - 1].clone();
        self.stack.push(new);
        &mut self.stack[n]
    }

    /// Drops the current state, unless it is the only one.
    pub fn undo(&mut self)
        requires
            old(self).well_formed(),
        ensures
            final(self).well_formed(),
            final(self).view() == after_undo(old(self).view()),
    {
        if self.stack.len() >= 2 {
            self.stack.pop();
        }
    }
}

} // verus!
