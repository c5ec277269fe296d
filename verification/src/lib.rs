//! A DPLL satisfiability solver for formulas in conjunctive normal form,
//! verified sound and complete against the semantics of propositional logic.

pub mod formula;
pub mod simplify;
pub mod equisat;
pub mod measure;
pub mod solver;
pub mod laws;
pub mod benchmark;
