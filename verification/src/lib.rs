//! A small arithmetization engine: a constraint schema of columns and gates,
//! a write-once trace filled region by region, a chip and a circuit for a
//! pairwise-sum recurrence, and a checker that decides whether a finished
//! trace satisfies every gate and every copy constraint.

pub mod error;
pub mod field;
pub mod pasta;
pub mod schema;
pub mod trace;
pub mod checker;
pub mod chip;
pub mod circuit;
