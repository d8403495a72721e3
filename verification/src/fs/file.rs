//! What an open file offers.
use vstd::prelude::*;

use crate::fs::device::{block_contents, BlockDevice};
use crate::io::disk::driver::VirtDiskDriver;

verus! {

/// An open file.
pub trait File {
    /// The inputs on which `read` is defined, the device given by its blocks.
    spec fn read_defined(&self, driver: VirtDiskDriver, blocks: spec_fn(int) -> Seq<u8>) -> bool;

    /// The file's contents.
    fn read<D: BlockDevice>(&self, driver: &VirtDiskDriver, device: &mut D) -> (r: Vec<u8>)
        requires
            old(device).describes_blocks(),
            self.read_defined(*driver, block_contents(*old(device))),
    ;

    /// Writes `data` to the file.
    fn write(&mut self, data: &[u8]);

    /// Closes the file.
    fn close(&mut self);

    /// The file's name.
    fn name(&self) -> &str;
}

} // verus!
