//! The task state segment.
pub mod tss;
