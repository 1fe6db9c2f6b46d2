//! The discrete core of a stochastic ray tracer: how scanlines are shared out
//! among workers, how a traced path is stepped and bounded, which surface a ray
//! meets first, and the pixel buffer that the finished samples are stored in.
//! The arithmetic on vectors and colours is the caller's: it reaches the
//! library as order-keeping keys, as what a ray met, and as finished pixels.

use vstd::prelude::*;

pub mod canvas;
pub mod keys;
pub mod partition;
pub mod progress;
pub mod render;
pub mod settings;
pub mod sweep;
pub mod trace;

verus! {

/// Anything that can be moved to the heap as it is.
pub trait Boxable {
    /// Moves `self` into a fresh `Box`; the boxed value is `self`, unchanged.
    fn to_box(self) -> (boxed: Box<Self>) where Self: Sized
        ensures
            *boxed == self,
    {
        Box::new(self)
    }
}

} // verus!
