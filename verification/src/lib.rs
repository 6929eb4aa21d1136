//! Index tooling, tensor structures and algebraic rewriting rules for
//! high-energy-physics expressions, on plain symbolic values.
pub mod expr;
pub mod reps;
pub mod representations;
pub mod slots;
pub mod cook;
pub mod structure;
pub mod arguments;
pub mod indexing;
pub mod tooling;
pub mod conj;
pub mod gamma;
pub mod color;
pub mod rules;
pub mod trace;
