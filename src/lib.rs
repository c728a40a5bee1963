//! Longest common subsequence of two character sequences, computed with the
//! textbook dynamic-programming table and reconstructed by backtracking.
//!
//! `model` states what the table, the decisions and the reconstructed path are
//! as spec functions, `engine` computes them, and `laws` proves the properties
//! that every result has.

pub mod breadcrumb;
pub mod model;
pub mod engine;
pub mod laws;
