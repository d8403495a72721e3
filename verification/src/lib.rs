use vstd::prelude::*;

pub mod asynchronous;
pub mod bits;
pub mod bytes;
pub mod cpu;
pub mod fs;
pub mod gdt;
pub mod interrupts;
pub mod io;
pub mod memory;
pub mod out;
pub mod program;
pub mod utils;
