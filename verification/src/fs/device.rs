use vstd::prelude::*;

verus! {

/// A device that stores blocks of bytes.
///
/// The kernel reads and writes whole blocks of `BLOCK_SIZE` bytes.
pub trait BlockDevice {
    /// Whether `spec_block` describes what this device holds. Only an
    /// implementation that defines `spec_block` says so; for any other,
    /// `read` and `write` promise nothing of the bytes.
    open spec fn describes_blocks(&self) -> bool {
        false
    }

    /// The bytes that block `block_id` holds, where `describes_blocks` says
    /// that this is defined.
    open spec fn spec_block(&self, block_id: int) -> Seq<u8> {
        Seq::empty()
    }

    /// Reads block `block_id` into `buf`.
    fn read(&mut self, block_id: usize, buf: &mut [u8])
        requires
            old(buf)@.len() == crate::io::disk::BLOCK_SIZE,
        ensures
            final(self).describes_blocks() == old(self).describes_blocks(),
            old(self).describes_blocks() ==> final(buf)@ == old(self).spec_block(block_id as int),
            old(self).describes_blocks() ==> forall|i: int|
                #[trigger] final(self).spec_block(i) == old(self).spec_block(i),
    ;

    /// Writes `block` to block `block_id`.
    fn write(&mut self, block_id: usize, block: &[u8])
        requires
            block@.len() == crate::io::disk::BLOCK_SIZE,
        ensures
            final(self).describes_blocks() == old(self).describes_blocks(),
            old(self).describes_blocks() ==> final(self).spec_block(block_id as int) == block@,
            old(self).describes_blocks() ==> forall|i: int|
                i != block_id ==> #[trigger] final(self).spec_block(i) == old(self).spec_block(i),
    ;
}

/// The blocks of a device, as a function from block number to contents.
pub open spec fn block_contents<D: BlockDevice>(device: D) -> spec_fn(int) -> Seq<u8> {
    |i: int| device.spec_block(i)
}

} // verus!
