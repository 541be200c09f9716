//! A counter-based pseudo-random generator for evolution-strategy optimisers.
//!
//! The generator hashes a seed together with a running position, so a stream
//! of samples is a pure function of the seed and of how many samples were
//! drawn before. Samples are 32-bit words; dividing one by [`noise::SCALE`]
//! places it in the unit interval.
//!
//! - [`noise`] defines the hash and computes it.
//! - [`collisions`] states when two draws yield the same word.
//! - [`rng`] holds the generator and the laws of its stream.

pub mod collisions;
pub mod noise;
pub mod rng;

pub use rng::RNG;
