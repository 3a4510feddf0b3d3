//! Reverse Conway's Game of Life engine.
//!
//! Given a target grid and a generation count, the library encodes the
//! Game of Life transition relation as CNF clauses over one variable per
//! space-time cell, drives a SAT backend to enumerate predecessor grids,
//! and re-simulates every candidate forward to validate it against the
//! target. Returned predecessors evolve to the target exactly and are
//! pairwise distinct at the earliest layer.

pub mod errors;
pub mod settings;
pub mod textutil;
pub mod grid;
pub mod rules;
pub mod grid_text;
pub mod variables;
pub mod clauses;
pub mod encoding;
pub mod constraints;
pub mod soundness;
pub mod solver;
pub mod solver_factory;
pub mod encoder;
pub mod validator;
pub mod solution;
pub mod problem;
pub mod display;
