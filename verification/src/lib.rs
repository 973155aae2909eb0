//! Evaluation core of a build tool: a register-based bytecode compiler with
//! its value heap and freeze lifecycle, and an incremental computation graph
//! that memoizes key-addressed computations with dependency tracking,
//! equality-based cutoff, request coalescing and cooperative cancellation.

pub mod argv;
pub mod bc;
pub mod commands;
pub mod compile;
pub mod diag;
pub mod docs;
pub mod errors;
pub mod filetree;
pub mod graph;
pub mod heap;
pub mod interp;
pub mod nodes;
pub mod output;
