//! The commands that the key bindings run, and the work they start.

pub mod batch;
pub mod file_operation;
pub mod transfer;
