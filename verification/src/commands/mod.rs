//! The decisions behind the foc-devnet commands.

pub mod logs;
pub mod proof_parameters;
