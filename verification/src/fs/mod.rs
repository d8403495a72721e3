//! The file-system interfaces: paths, block devices, files, disk drivers and
//! the ELF executable format.
pub mod device;
pub mod driver;
pub mod elf;
pub mod file;
pub mod path;
