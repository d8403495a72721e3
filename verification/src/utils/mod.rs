//! Small data structures: hexadecimal wrappers, intervals and trees.
pub mod debug;
pub mod interval;
pub mod tree;
