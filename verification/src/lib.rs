//! A copying, semi-space garbage collector over a typed, block-granular heap.
//!
//! The collector owns two block stores. Values are allocated into the live
//! store (from-space); a collection cycle copies everything reachable from a
//! chain of root frames into the scratch store (to-space) and swaps the two.
//!
//! - [`gc::gcspace`] holds the block store and the capability that every
//!   type of the heap has: how to copy a value of it.
//! - [`gc::primitives`] holds the types of the heap: strings, arrays, boxed
//!   cells; [`eval`] the values of the language, [`gc::collection`] the cells
//!   and frames of the roots, and the cycle itself.
//! - [`gc::cycle`], [`gc::reach`] and [`gc::shape`] hold what is proved of a
//!   cycle: what it keeps, what it frees, and that it changes no value.
pub mod eval;
pub mod gc;
pub mod util;
