//! Mean-variance portfolio selection, set up as a conic quadratic program.
//!
//! Given the expected returns of `n` assets, their covariance matrix and a
//! target return, this crate builds the data a conic solver consumes: the
//! sparse quadratic cost, the sparse constraint matrix, the bound vector and
//! the cone list. It also says what to make of what the solver hands back.
//!
//! Real numbers are carried as IEEE 754 binary64 encodings in `u64`, so that
//! every entry of every matrix is an exact, comparable value.

pub mod binary64;
pub mod csc;
pub mod cost;
pub mod constraints;
pub mod cones;
pub mod problem;
pub mod solution;
pub mod feasibility;
