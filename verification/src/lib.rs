//! A hodgepodge machine: a cellular automaton on a torus in which every cell
//! is healthy, infected to some degree, or ill, and each generation is drawn
//! from the one before by a rule over the eight surrounding cells.
//!
//! The mathematical model lives in [`cell`] and [`grid`], the rule and its
//! parameters in [`rule`], and the executable board in [`board`]. [`laws`]
//! proves what holds of every grid. What the library takes from other crates,
//! and does not prove, sits in [`entropy`] and [`encode`].

pub mod board;
pub mod cell;
pub mod encode;
pub mod entropy;
pub mod error;
pub mod grid;
pub mod laws;
pub mod rule;
