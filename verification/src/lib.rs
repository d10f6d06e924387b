//! The decisions, plans and bookkeeping of a local expert-streaming inference engine.
//!
//! Everything here works on plain values: device work, sockets, clocks and
//! floating-point arithmetic belong to the program around this library.

pub mod cli_output;
pub mod config;
pub mod control;
pub mod download;
pub mod json;
pub mod metal;
pub mod number;
pub mod options;
pub mod paths;
pub mod prefix_cache;
pub mod prompt;
pub mod qwen4_exp;
pub mod ranking;
pub mod runner;
pub mod sampling;
pub mod server;
pub mod text;
pub mod units;
