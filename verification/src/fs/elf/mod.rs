pub mod error;
pub mod header;
pub mod program_header;
