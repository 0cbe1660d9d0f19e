//! Verified core of a continuous cellular automaton ("Lenia").
//!
//! A 2D toroidal grid of unit-interval cell states evolves by circular
//! convolution with a normalized radially-symmetric kernel followed by a
//! nonlinear growth mapping. All state is held in fixed-point integers
//! (see `fixed`), which makes the whole per-tick pipeline — kernel
//! generation, convolution, growth, accumulation, clamping, fitness — an
//! exactly specified integer computation.

pub mod conv;
pub mod eco;
pub mod fixed;
pub mod lenia;
pub mod logger;
pub mod rng;
