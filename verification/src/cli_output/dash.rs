//! The dashboard's state, independent of terminal input and output.

pub mod history;
pub mod plots;
pub mod rows;
pub mod state;
