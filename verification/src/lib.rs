//! Parsed real-valued expressions with symbolic derivatives, and the
//! systems of ordinary differential equations built from them.
use vstd::prelude::*;

pub mod callback;
pub mod decimal;
pub mod derivative;
pub mod evaluation;
pub mod fortran;
pub mod grammar;
pub mod integration;
pub mod laws;
pub mod math_expr;
pub mod ode_system;
pub mod parser;
pub mod printing;
pub mod round_trip;
pub mod scalar;
pub mod simplification;
pub mod solver;
pub mod structure;
pub mod text;
pub mod tree;

verus! {

} // verus!
