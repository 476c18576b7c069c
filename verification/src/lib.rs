//! Verified core of the foc-devnet command-line tool: the command-line
//! grammar, the combined log view of a run, the container bookkeeping and the
//! proof-parameter provisioning decisions.

pub mod cli;
pub mod commands;
pub mod docker;
pub mod order;
pub mod text;
