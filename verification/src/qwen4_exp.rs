//! The hybrid expert model: its files, its configuration and its device plans.

pub mod config;
pub mod gpu;
pub mod manifest;

pub use config::{Qwen4ExpConfig, RopeParams};
pub use manifest::{DenseEntry, ExpertLayout, Manifest, NgramLayout, PAGE};
