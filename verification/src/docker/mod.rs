//! Docker container bookkeeping.

pub mod logs;
