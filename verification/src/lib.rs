//! A tiny relational query engine: one SQL `SELECT` statement is planned
//! into a pull-based operator tree (sequential scan, selection, projection)
//! over a CSV-backed relation, and executed row by row against the rows a
//! CSV document denotes.

pub mod ast;
pub mod csvio;
pub mod eval;
pub mod planner;
pub mod relation;
pub mod runner;
pub mod value;
