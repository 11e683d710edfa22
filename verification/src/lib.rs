//! A small library for sampling the round-trip latency of a network probe:
//! a warm-up/count sampler state machine, decimal parsing and formatting for
//! its command line and its output lines, and the command-line decision logic.

pub mod cli;
pub mod output;
pub mod sampler;
