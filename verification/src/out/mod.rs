//! Output to the screen.
pub mod keyboard;
pub mod vga;
