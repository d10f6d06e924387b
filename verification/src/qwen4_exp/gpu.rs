//! Plans and bookkeeping for the device that runs the model.

pub mod activity;
pub mod attention;
pub mod block;
pub mod budget;
pub mod deltanet;
pub mod draft;
pub mod experts;
pub mod hyperconnection;
pub mod launch;
pub mod memory;
pub mod model;
pub mod mtp;
pub mod phases;
pub mod prefill;
pub mod residency;
pub mod service;
pub mod step;
pub mod streaming;
