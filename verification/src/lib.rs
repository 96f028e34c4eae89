//! Verified core of a two-dimensional lattice Boltzmann fluid solver.
//!
//! The solver tracks nine particle populations per grid cell (the D2Q9
//! stencil) and advances them by alternating streaming, bounce-back and
//! collision phases.  All arithmetic is exact: a scalar is a rational
//! number, so conservation laws hold as equalities rather than within a
//! floating-point tolerance, and an operation whose reduced result would
//! not fit the machine representation reports an overflow instead of
//! silently losing precision.

pub mod scalar;
pub mod field;
pub mod lattice;
pub mod collision;
pub mod mode;
pub mod state;
pub mod laws;

pub use scalar::Error;
