//! Pseudo-random values from a small generator whose whole state is one
//! `u64`: every draw is a function of that state, which it advances.

pub mod rng;
pub mod thread_local;

pub use rng::Rng;
