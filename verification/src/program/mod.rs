//! Loading executables into new processes.
pub mod executor;
