//! The virtual disk's file system: a header block, data and inode bitmaps,
//! inode blocks and data blocks.
use vstd::prelude::*;

pub mod bitmap;
pub mod driver;
pub mod file;
pub mod header;
pub mod inode;

verus! {

/// The value of the header block's first 8 bytes on a compatible disk.
pub const MAGIC_NUMBER: u64 = 0xBA2_05;

/// Size of a block.
pub const BLOCK_SIZE: usize = 512;

pub const N_DATA_BITMAPS: usize = 16;

pub const N_INODE_BITMAPS: usize = 1;

pub const N_INODES: usize = N_INODE_BITMAPS * 8 * BLOCK_SIZE;

pub const N_DATA_BLOCKS: usize = N_DATA_BITMAPS * 8 * BLOCK_SIZE;

pub const NUMBER_BLOCKS: usize = 1 + N_DATA_BITMAPS + N_INODE_BITMAPS + N_INODES + N_DATA_BLOCKS;

pub const DATA_BITMAP_OFFSET: usize = 1;

pub const INODE_BITMAP_OFFSET: usize = DATA_BITMAP_OFFSET + N_DATA_BITMAPS;

pub const INODE_OFFSET: usize = INODE_BITMAP_OFFSET + N_INODE_BITMAPS;

pub const DATA_OFFSET: usize = INODE_OFFSET + N_INODES;

} // verus!
