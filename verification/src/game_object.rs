//! Objects that a time step carries into a successor.

use vstd::prelude::*;

verus! {

/// An object of the simulation. A time step does not change it: `update`
/// returns the state that follows.
pub trait GameObject<T> {
    /// The object is well formed, so that it can be advanced.
    spec fn ready(&self) -> bool;

    /// `next` is the state that follows this one after `delta`.
    spec fn advances_to(&self, delta: i64, next: T) -> bool;

    /// The state after the time step `delta`.
    fn update(&self, delta: i64) -> (next: T)
        requires
            self.ready(),
        ensures
            self.advances_to(delta, next),
    ;
}

} // verus!
