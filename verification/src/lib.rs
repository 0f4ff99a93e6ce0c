//! Gottlob: a verified propositional and modal logic toolkit.
//!
//! Text is parsed into [`expression::Expression`] trees, evaluated under
//! assignments, rendered back to canonical text, and decided for
//! tautology-hood by exhaustive enumeration of truth assignments.

pub mod display;
pub mod expression;
pub mod logic;
pub mod parser;
pub mod powerset;
pub mod reverse_polish;
pub mod roundtrip;
pub mod theorem;
pub mod token;
