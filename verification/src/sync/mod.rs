//! Synchronization primitives for a uniprocessor kernel.
use vstd::prelude::*;

pub mod up;

pub use up::UPSafeCell;

verus! {

} // verus!
