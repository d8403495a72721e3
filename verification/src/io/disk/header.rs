//! The header block of the disk.
use vstd::prelude::*;

use crate::bytes::{le_at, read_le};
use crate::io::disk::driver::BlockId;
use crate::io::disk::{BLOCK_SIZE, INODE_BITMAP_OFFSET, MAGIC_NUMBER, N_INODE_BITMAPS};

verus! {

/// The header of a compatible disk.
#[derive(Debug)]
pub struct VirtDiskHeader;

impl VirtDiskHeader {
    /// The header, when the block's first 8 bytes hold the magic number.
    pub fn from_buffer(buffer: [u8; BLOCK_SIZE]) -> (r: Option<Self>)
        ensures
            r is Some <==> le_at(buffer@, 0, 8) == MAGIC_NUMBER,
    {
        if read_le(&buffer, 0, 8) != MAGIC_NUMBER {
            return None;
        }
        Some(VirtDiskHeader)
    }

    /// The blocks of the inode bitmaps, in order.
    pub fn inodes_bitmap_indexes(&self) -> (r: Vec<BlockId>)
        ensures
            r@.len() == N_INODE_BITMAPS,
            forall|k: int| 0 <= k < N_INODE_BITMAPS ==> (#[trigger] r@[k])@ == INODE_BITMAP_OFFSET + k,
    {
        let mut r: Vec<BlockId> = Vec::new();
        let mut x: usize = 0;
        while x < N_INODE_BITMAPS
            invariant
                x <= N_INODE_BITMAPS,
                r@.len() == x,
                forall|k: int| 0 <= k < x ==> (#[trigger] r@[k])@ == INODE_BITMAP_OFFSET + k,
            decreases N_INODE_BITMAPS - x,
        {
            r.push(BlockId::inode_bitmap(x));
            x = x + 1;
        }
        r
    }
}

} // verus!
