//! What the command line shows: reports, and the dashboard's state.

pub mod dash;
pub mod layout;
pub mod report;
pub mod rows;
pub mod stats;
