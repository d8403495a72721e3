//! What the interrupt handlers decide: system calls and fault error codes.
pub mod faults;
pub mod syscall;
