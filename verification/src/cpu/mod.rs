//! CPU registers.
pub mod registers;
