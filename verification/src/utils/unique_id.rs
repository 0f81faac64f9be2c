use vstd::prelude::*;

verus! {

/// Source of object identifiers: hands out 0, 1, 2, ... and wraps around after
/// the largest `usize`.
pub struct IdCounter {
    next: usize,
}

impl IdCounter {
    /// The identifier that the next call of [`next_id`] returns.
    pub closed spec fn view(&self) -> nat {
        self.next as nat
    }

    pub fn new() -> (counter: Self)
        ensures
            counter@ == 0,
    {
        IdCounter { next: 0 }
    }
}

/// What the counter holds after handing out `current`.
pub open spec fn successor(current: nat) -> nat {
    if current == usize::MAX {
        0
    } else {
        current + 1
    }
}

/// Returns the counter's current identifier and advances the counter by one,
/// wrapping to zero past `usize::MAX`.
pub fn next_id(counter: &mut IdCounter) -> (id: usize)
    ensures
        id == old(counter)@,
        final(counter)@ == successor(old(counter)@),
{
    let id: usize = counter.next;
    counter.next = if id == usize::MAX { 0 } else { id + 1 };
    id
}

} // verus!
