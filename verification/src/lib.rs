//! Condensation of PIL programs: symbol paths, structural types and the pass that
//! reduces typed definitions and identities to flat algebraic constraints.

pub mod text;
pub mod path;
pub mod types;
pub mod source;
pub mod parsed;
pub mod analyzed;
pub mod sequence;
pub mod condenser;
pub mod machine;
