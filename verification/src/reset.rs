use vstd::prelude::*;

verus! {

/// Values of types that implement this trait can be put back into the state
/// they were in when they were constructed.
pub trait Reset {
    /// Whether `self` is in the state that construction leaves it in.
    spec fn is_fresh(&self) -> bool;

    /// Reset `self` to the state it was in when it was constructed.
    fn reset(&mut self)
        ensures
            final(self).is_fresh(),
    ;
}

} // verus!
