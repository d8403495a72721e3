//! Files of the virtual disk.
use vstd::prelude::*;

use crate::fs::device::{block_contents, BlockDevice};
use crate::fs::file::File;
use crate::io::disk::driver::{inode_block, same_blocks, INodeIndex, VirtDiskDriver};
use crate::io::disk::inode::{
    words_until_zero, VirtDiskINode, FIRST_LIST_WORD, KIND_FILE,
};
use crate::io::disk::{BLOCK_SIZE, INODE_OFFSET};

verus! {

/// The blocks `ids` of `device`, one after the other.
pub open spec fn blocks_concat<D: BlockDevice>(device: D, ids: Seq<nat>) -> Seq<u8>
    decreases ids.len(),
{
    if ids.len() == 0 {
        Seq::empty()
    } else {
        blocks_concat(device, ids.drop_last()) + device.spec_block((ids.last() as usize) as int)
    }
}

/// The contents of file inode `index`: its data blocks, one after the other.
pub open spec fn file_contents<D: BlockDevice>(device: D, index: nat) -> Seq<u8> {
    blocks_concat(device, words_until_zero(inode_block(device, index), FIRST_LIST_WORD as int))
}

/// A file of the virtual disk: its name and its inode.
pub struct VirtDiskFile {
    name: String,
    inode_index: INodeIndex,
}

impl VirtDiskFile {
    /// The file's name.
    pub closed spec fn spec_name(&self) -> Seq<char> {
        self.name@
    }

    /// The file's inode.
    pub closed spec fn index(&self) -> nat {
        self.inode_index@ as nat
    }

    pub fn new(name: String, inode_index: INodeIndex) -> (r: Self)
        ensures
            r.spec_name() == name@,
            r.index() == inode_index@,
    {
        Self { name, inode_index }
    }
}

impl VirtDiskFile {
    /// Whether `read` is defined for this file on `device`: its inode block
    /// lies on the device and is an unlocked file inode.
    pub fn read_is_defined<D: BlockDevice>(&self, driver: &VirtDiskDriver, device: &mut D) -> (b: bool)
        requires
            old(device).describes_blocks(),
        ensures
            same_blocks(*old(device), *final(device)),
            b == self.read_defined(*driver, block_contents(*old(device))),
    {
        if self.inode_index.as_usize() > usize::MAX - INODE_OFFSET {
            return false;
        }
        let mut buffer = [0u8; BLOCK_SIZE];
        device.read(self.inode_index.to_block_id().as_usize(), &mut buffer);
        buffer[1] == 0 && buffer[0] == KIND_FILE
    }
}

impl File for VirtDiskFile {
    /// Reading is defined on a file whose inode block is an unlocked file
    /// inode.
    open spec fn read_defined(&self, driver: VirtDiskDriver, blocks: spec_fn(int) -> Seq<u8>) -> bool {
        let b = blocks(INODE_OFFSET + self.index());
        &&& INODE_OFFSET + self.index() <= usize::MAX
        &&& b[1] == 0
        &&& b[0] == KIND_FILE
    }

    /// The file's data blocks, one after the other.
    fn read<D: BlockDevice>(&self, driver: &VirtDiskDriver, device: &mut D) -> (r: Vec<u8>)
        ensures
            same_blocks(*old(device), *final(device)),
            r@ == file_contents(*old(device), self.index()),
    {
        match driver.get_inode(device, self.inode_index) {
            Ok(VirtDiskINode::File(inode)) => {
                let ghost ids = words_until_zero(inode.spec_buffer(), FIRST_LIST_WORD as int);
                let mut content: Vec<u8> = Vec::new();
                let mut buffer = [0u8; BLOCK_SIZE];
                let blocks = inode.data_blocks();
                let mut k: usize = 0;
                while k < blocks.len()
                    invariant
                        blocks@.len() == ids.len(),
                        forall|j: int| 0 <= j < blocks@.len() ==> (#[trigger] blocks@[j])@ == ids[j] as usize,
                        k <= blocks@.len(),
                        old(device).describes_blocks(),
                        same_blocks(*old(device), *device),
                        content@ == blocks_concat(*old(device), ids.subrange(0, k as int)),
                    decreases blocks@.len() - k,
                {
                    device.read(blocks[k].as_usize(), &mut buffer);
                    content.extend_from_slice(&buffer);
                    proof {
                        let next = ids.subrange(0, k + 1);
                        assert(next.drop_last() =~= ids.subrange(0, k as int));
                        assert(content@ =~= blocks_concat(*old(device), next));
                    }
                    k = k + 1;
                }
                proof {
                    assert(ids.subrange(0, ids.len() as int) =~= ids);
                }
                content
            },
            _ => vstd::pervasive::unreached(),
        }
    }

    /// Writing does nothing.
    fn write(&mut self, _data: &[u8])
        ensures
            final(self).spec_name() == old(self).spec_name(),
            final(self).index() == old(self).index(),
    {
    }

    /// Closing does nothing.
    fn close(&mut self)
        ensures
            final(self).spec_name() == old(self).spec_name(),
            final(self).index() == old(self).index(),
    {
    }

    fn name(&self) -> (r: &str)
        ensures
            r@ == self.spec_name(),
    {
        self.name.as_str()
    }
}

} // verus!
