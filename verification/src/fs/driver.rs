//! What a disk driver offers: creating and opening files by path.
use vstd::prelude::*;

use crate::fs::device::{block_contents, BlockDevice};
use crate::fs::file::File;
use crate::fs::path::Path;

verus! {

/// Why a file could not be created or opened.
#[derive(Debug)]
pub enum IOError {
    AlreadyExists,
    DirectoryFull,
    DoesNotExist,
    InvalidPath,
    NameTooLong,
    NoSpace,
    NotADirectory(String),
    CannotOpenADirectory,
}

/// A file system on a block device.
pub trait DiskDriver {
    /// The files the driver hands out.
    type Handle: File;

    /// The inputs on which `create` is defined, the device given by its blocks.
    spec fn create_defined(&self, blocks: spec_fn(int) -> Seq<u8>, path: Path) -> bool;

    /// The inputs on which `open` is defined, the device given by its blocks.
    spec fn open_defined(&self, blocks: spec_fn(int) -> Seq<u8>, path: Path) -> bool;

    /// Creates the file at `path`.
    fn create<D: BlockDevice>(&self, device: &mut D, path: Path) -> (r: Result<Self::Handle, IOError>)
        requires
            old(device).describes_blocks(),
            self.create_defined(block_contents(*old(device)), path),
    ;

    /// Opens the file at `path`.
    fn open<D: BlockDevice>(&self, device: &mut D, path: Path) -> (r: Result<Self::Handle, IOError>)
        requires
            old(device).describes_blocks(),
            self.open_defined(block_contents(*old(device)), path),
    ;
}

} // verus!
