//! A fixed-capacity, allocation-free-after-construction sliding-window
//! buffer ("bump buffer") for numeric samples.
//!
//! Callers continuously `push` values; the buffer retains only the most
//! recent `CAP` pushes and silently overwrites older ones.  Derived
//! accessors give the most recent, previous and oldest retained samples,
//! an arbitrary backward offset lookup, oldest-to-newest iteration, and a
//! two-point linear slope estimate over the retained window.

mod bump_buf;
mod slope;

pub use crate::bump_buf::BumpBuf;
pub use crate::bump_buf::BumpBufIterator;
