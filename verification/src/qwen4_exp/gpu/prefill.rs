//! Prefill engine: a prompt chunk of up to a few thousand tokens runs through the model
//! layer by layer, so each layer's experts are streamed once for the whole chunk instead
//! of once per few tokens.

pub mod allocation;
pub mod attention;
pub mod batches;
pub mod deltanet;
pub mod hyperconnection;
pub mod ple;
pub mod experts;
pub mod stats;
pub mod stream;
pub mod chunk;
pub mod run;
