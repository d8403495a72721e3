//! Devices and the on-disk file system.
pub mod configuration_access;
pub mod disk;
