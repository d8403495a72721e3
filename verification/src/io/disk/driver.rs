use vstd::prelude::*;

use crate::bits::lemma_exp2_64;
use crate::bytes::{le_at, le_bytes, lemma_le_at_step, lemma_le_bound, read_le};
use crate::fs::device::{block_contents, BlockDevice};
use crate::fs::driver::{DiskDriver, IOError};
use crate::fs::path::{split_parts, Path};
use crate::io::disk::file::VirtDiskFile;
use crate::io::disk::bitmap::{bit_set, first_clear, lemma_first_clear_is_least, VirtDiskBitmap};
use crate::io::disk::header::VirtDiskHeader;
use crate::io::disk::inode::{
    decoding, dir_lookup_defined_from, dir_lookup_from, first_zero_word_from, inode_name_bytes,
    lemma_dir_lookup_exact, nonzero_words, word, VirtDiskINode, FIRST_LIST_WORD, KIND_DIRECTORY,
    KIND_FILE,
};
use vstd::string::StringSliceAdditionalSpecFns;
use vstd::utf8::{encode_utf8, valid_utf8};
use crate::io::disk::{
    BLOCK_SIZE, DATA_BITMAP_OFFSET, DATA_OFFSET, INODE_BITMAP_OFFSET, INODE_OFFSET, MAGIC_NUMBER,
};

verus! {

/// The number of a block on the disk.
#[derive(Debug, Clone, Copy)]
pub struct BlockId(usize);

impl View for BlockId {
    type V = usize;

    closed spec fn view(&self) -> usize {
        self.0
    }
}

impl BlockId {
    /// Block 0 (the header) stands for "no block".
    pub fn is_none(&self) -> (r: bool)
        ensures
            r == (self@ == 0),
    {
        return self.0 == 0;
    }

    /// Inode bitmap block `index`.
    pub fn inode_bitmap(index: usize) -> (r: Self)
        requires
            INODE_BITMAP_OFFSET + index <= usize::MAX,
        ensures
            r@ == INODE_BITMAP_OFFSET + index,
    {
        BlockId(INODE_BITMAP_OFFSET + index)
    }

    /// Data bitmap block `index`.
    pub fn data_bitmap(index: usize) -> (r: Self)
        requires
            DATA_BITMAP_OFFSET + index <= usize::MAX,
        ensures
            r@ == DATA_BITMAP_OFFSET + index,
    {
        BlockId(DATA_BITMAP_OFFSET + index)
    }

    /// The block of inode `index`.
    pub fn inode(index: usize) -> (r: Self)
        requires
            INODE_OFFSET + index <= usize::MAX,
        ensures
            r@ == INODE_OFFSET + index,
    {
        BlockId(INODE_OFFSET + index)
    }

    /// Data block `index`.
    pub fn data(index: usize) -> (r: Self)
        requires
            DATA_OFFSET + index <= usize::MAX,
        ensures
            r@ == DATA_OFFSET + index,
    {
        BlockId(DATA_OFFSET + index)
    }

    pub fn as_usize(&self) -> (r: usize)
        ensures
            r == self@,
    {
        self.0
    }

    /// Block `index` of the disk.
    pub fn raw(index: usize) -> (r: Self)
        ensures
            r@ == index,
    {
        BlockId(index)
    }
}

/// The number of an inode.
#[derive(Debug, Clone, Copy)]
pub struct INodeIndex(usize);

impl View for INodeIndex {
    type V = usize;

    closed spec fn view(&self) -> usize {
        self.0
    }
}

impl INodeIndex {
    pub fn new(index: usize) -> (r: Self)
        ensures
            r@ == index,
    {
        INodeIndex(index)
    }

    /// Inode 0 stands for "no inode".
    pub fn is_none(&self) -> (r: bool)
        ensures
            r == (self@ == 0),
    {
        self.0 == 0
    }

    /// The block that holds the inode.
    pub fn to_block_id(&self) -> (r: BlockId)
        requires
            INODE_OFFSET + self@ <= usize::MAX,
        ensures
            r@ == INODE_OFFSET + self@,
    {
        BlockId::inode(self.0)
    }

    pub fn as_usize(&self) -> (r: usize)
        ensures
            r == self@,
    {
        self.0
    }
}

/// Every block of `a` is the same block in `b`.
pub open spec fn same_blocks<D: BlockDevice>(a: D, b: D) -> bool {
    &&& b.describes_blocks() == a.describes_blocks()
    &&& forall|i: int| #[trigger] a.spec_block(i) == b.spec_block(i)
}

/// `b` is `a` with block `id` replaced by `block`.
pub open spec fn blocks_updated<D: BlockDevice>(a: D, b: D, id: int, block: Seq<u8>) -> bool {
    &&& b.describes_blocks() == a.describes_blocks()
    &&& b.spec_block(id) == block
    &&& forall|i: int| i != id ==> #[trigger] b.spec_block(i) == a.spec_block(i)
}

/// The block of inode `index`.
pub open spec fn inode_block<D: BlockDevice>(device: D, index: nat) -> Seq<u8> {
    device.spec_block(INODE_OFFSET + index)
}

/// The 64 words of a bitmap block.
pub open spec fn bitmap_words(b: Seq<u8>) -> Seq<u64> {
    Seq::new((BLOCK_SIZE / 8) as nat, |i: int| word(b, i) as u64)
}

/// The inode bitmap block of a device.
pub open spec fn inode_bitmap<D: BlockDevice>(device: D) -> Seq<u8> {
    device.spec_block(INODE_BITMAP_OFFSET as int)
}

/// The first free inode that the inode bitmap block `b` shows.
pub open spec fn free_inode(b: Seq<u8>) -> Option<int> {
    first_clear(bitmap_words(b))
}

/// Marking inode `p` in use sets bit `p % 64` of byte `p / 64` of the bitmap
/// block; only bits 0 to 7 of a byte can be set so.
pub open spec fn marking_defined(b: Seq<u8>) -> bool {
    free_inode(b) matches Some(p) ==> p % 64 < 8
}

/// The bitmap block `b` with inode `p` marked in use.
pub open spec fn marked(b: Seq<u8>, p: int) -> Seq<u8> {
    b.update(p / 64, b[p / 64] | (1u8 << ((p % 64) as u8)))
}

/// When the first free inode is one of the first 8, marking it sets its bit
/// in the bitmap, so it is no longer the first free inode.
pub proof fn lemma_marked_in_use(b: Seq<u8>, p: int)
    requires
        b.len() == BLOCK_SIZE,
        free_inode(b) == Some(p),
        p < 8,
    ensures
        bit_set(bitmap_words(marked(b, p)), p),
        free_inode(marked(b, p)) != Some(p),
{
    lemma_first_clear_is_least(bitmap_words(b));
    let m = marked(b, p);
    let words = bitmap_words(m);
    assert(p / 64 == 0 && p % 64 == p);
    lemma_le_at_step(m, 0, 8);
    let w = word(m, 0);
    let rest = le_at(m, 1, 7);
    assert(w == m[0] + 256 * rest);
    lemma_le_bound(m.subrange(0, 8));
    lemma_exp2_64();
    assert(w < 0x1_0000_0000_0000_0000);
    let w64 = w as u64;
    assert(words[0] == w64);
    let byte = m[0];
    let old_byte = b[0];
    let shift = p as u64;
    assert(byte == old_byte | (1u8 << (shift as u8)));
    assert(w64 % 256 == byte as u64);
    assert((w64 % 256 == byte as u64 && byte == old_byte | (1u8 << (shift as u8)) && shift < 8)
        ==> (w64 >> shift) & 1u64 == 1u64) by (bit_vector);
    lemma_first_clear_is_least(words);
}

/// The directory block `b` with inode `index` listed in word `i`.
pub open spec fn with_entry(b: Seq<u8>, i: int, index: nat) -> Seq<u8> {
    b.subrange(0, 8 * i) + le_bytes(index, 8) + b.subrange(8 * i + 8, BLOCK_SIZE as int)
}

/// What listing `file` in directory `dir` does to the device `a`, giving `b`
/// and `r`.
pub open spec fn add_file_outcome<D: BlockDevice>(
    a: D,
    b: D,
    name: Seq<char>,
    dir: nat,
    file: nat,
    r: Result<(), IOError>,
) -> bool {
    let block = inode_block(a, dir);
    if block[0] == KIND_DIRECTORY {
        match first_zero_word_from(block, FIRST_LIST_WORD as int) {
            Some(i) => r is Ok && blocks_updated(
                a,
                b,
                INODE_OFFSET + dir,
                with_entry(block, i, file),
            ),
            None => r matches Err(IOError::DirectoryFull) && same_blocks(a, b),
        }
    } else {
        (r matches Err(IOError::NotADirectory(s)) && s@ == name) && same_blocks(a, b)
    }
}

/// Devices with the same blocks have the same block contents.
pub proof fn lemma_same_blocks_contents<D: BlockDevice>(a: D, b: D)
    requires
        same_blocks(a, b),
    ensures
        block_contents(a) == block_contents(b),
{
    assert(block_contents(a) =~= block_contents(b));
}

/// The name of the file a path points to: its last part.
pub open spec fn file_name_of(path: Path) -> Seq<u8> {
    split_parts(path.spec_bytes()).last()
}

/// What creating the file named `name` in directory `root` does to the
/// device `a`, giving `b` and `r`: the first free inode is marked in use in
/// the inode bitmap and listed in the directory's first empty slot.
pub open spec fn create_outcome<D: BlockDevice>(
    a: D,
    b: D,
    name: Seq<u8>,
    root: nat,
    r: Result<VirtDiskFile, IOError>,
) -> bool {
    match free_inode(inode_bitmap(a)) {
        None => r matches Err(IOError::NoSpace) && same_blocks(a, b),
        Some(p) => {
            let dir = inode_block(a, root);
            let dir_id = INODE_OFFSET + root;
            &&& inode_bitmap(b) == marked(inode_bitmap(a), p)
            &&& forall|i: int|
                i != INODE_BITMAP_OFFSET && i != dir_id ==> #[trigger] b.spec_block(i)
                    == a.spec_block(i)
            &&& if dir[0] == KIND_DIRECTORY {
                match first_zero_word_from(dir, FIRST_LIST_WORD as int) {
                    Some(i) => {
                        &&& b.spec_block(dir_id) == with_entry(dir, i, p as nat)
                        &&& r matches Ok(f) && encode_utf8(f.spec_name()) == name && f.index()
                            == p
                    },
                    None => b.spec_block(dir_id) == dir && r matches Err(IOError::DirectoryFull),
                }
            } else {
                &&& b.spec_block(dir_id) == dir
                &&& r matches Err(IOError::NotADirectory(s)) && encode_utf8(s@) == name
            }
        },
    }
}

/// What opening the file named `name` in directory `root` of device `a`
/// gives: the first entry of that name when it is a file.
pub open spec fn open_outcome<D: BlockDevice>(
    a: D,
    name: Seq<u8>,
    root: nat,
    r: Result<VirtDiskFile, IOError>,
) -> bool {
    let entries = nonzero_words(inode_block(a, root), FIRST_LIST_WORD as int);
    match dir_lookup_from(block_contents(a), entries, name, 0) {
        Some(k) => {
            let index = entries[k] as usize;
            if inode_block(a, index as nat)[0] == KIND_FILE {
                r matches Ok(f) && encode_utf8(f.spec_name()) == name && f.index() == index
            } else {
                r matches Err(IOError::CannotOpenADirectory)
            }
        },
        None => r matches Err(IOError::DoesNotExist),
    }
}

/// Opening a file gives the file whose inode, listed in directory `root`,
/// holds exactly the requested name; when every entry's name is UTF-8, the
/// file does not exist exactly when no entry has that name.
pub proof fn lemma_open_exact_name<D: BlockDevice>(
    a: D,
    name: Seq<u8>,
    root: nat,
    r: Result<VirtDiskFile, IOError>,
)
    requires
        open_outcome(a, name, root, r),
    ensures
        ({
            let entries = nonzero_words(inode_block(a, root), FIRST_LIST_WORD as int);
            &&& r matches Ok(f) ==> {
                &&& exists|k: int| 0 <= k < entries.len() && #[trigger] entries[k] as usize == f.index()
                &&& inode_name_bytes(inode_block(a, f.index())) == name
                &&& encode_utf8(f.spec_name()) == name
            }
            &&& (forall|i: int|
                0 <= i < entries.len() ==> valid_utf8(
                    inode_name_bytes(inode_block(a, (#[trigger] entries[i] as usize) as nat)),
                )) ==> (r matches Err(IOError::DoesNotExist) <==> forall|i: int|
                0 <= i < entries.len() ==> inode_name_bytes(
                    inode_block(a, (#[trigger] entries[i] as usize) as nat),
                ) != name)
        }),
{
    let entries = nonzero_words(inode_block(a, root), FIRST_LIST_WORD as int);
    let blocks = block_contents(a);
    lemma_dir_lookup_exact(blocks, entries, name, 0);
    assert forall|i: int| 0 <= i < entries.len() implies inode_name_bytes(
        inode_block(a, (#[trigger] entries[i] as usize) as nat),
    ) == inode_name_bytes(blocks(INODE_OFFSET + (entries[i] as usize))) by {}
}

/// The disk driver: the disk's header and its root directory.
pub struct VirtDiskDriver {
    header: VirtDiskHeader,
    root_dir_index: INodeIndex,
}

impl VirtDiskDriver {
    /// The inode of the root directory.
    pub closed spec fn root(&self) -> nat {
        self.root_dir_index@ as nat
    }

    /// Finds the first free inode in the inode bitmaps and marks it in use.
    fn flip_free_inode_index<D: BlockDevice>(&self, device: &mut D) -> (r: Option<INodeIndex>)
        requires
            old(device).describes_blocks(),
            marking_defined(inode_bitmap(*old(device))),
        ensures
            match free_inode(inode_bitmap(*old(device))) {
                Some(p) => r matches Some(i) && i@ == p && blocks_updated(
                    *old(device),
                    *final(device),
                    INODE_BITMAP_OFFSET as int,
                    marked(inode_bitmap(*old(device)), p),
                ),
                None => r is None && same_blocks(*old(device), *final(device)),
            },
    {
        let mut buffer = [0u8; BLOCK_SIZE];
        let bitmap_indexes = self.header.inodes_bitmap_indexes();
        let mut k: usize = 0;
        while k < bitmap_indexes.len()
            invariant
                bitmap_indexes@.len() == 1,
                bitmap_indexes@[0]@ == INODE_BITMAP_OFFSET,
                k <= 1,
                old(device).describes_blocks(),
                marking_defined(inode_bitmap(*old(device))),
                same_blocks(*old(device), *device),
                k == 1 ==> free_inode(inode_bitmap(*old(device))) is None,
            decreases 1 - k,
        {
            let bitmap_index = bitmap_indexes[k];
            device.read(bitmap_index.as_usize(), &mut buffer);
            let bitmap = VirtDiskBitmap::from_buffer(&buffer);
            proof {
                assert(bitmap@ =~= bitmap_words(buffer@));
                assert(buffer@ == inode_bitmap(*old(device)));
                lemma_first_clear_is_least(bitmap@);
            }
            if let Some(index) = bitmap.find_zero() {
                buffer[index / 64] |= 1u8 << (index % 64);
                proof {
                    assert(buffer@ == marked(inode_bitmap(*old(device)), index as int));
                }
                device.write(bitmap_index.as_usize(), &buffer);
                return Some(
                    INodeIndex((bitmap_index.as_usize() - INODE_BITMAP_OFFSET) * 8 * BLOCK_SIZE + index),
                );
            }
            k = k + 1;
        }
        None
    }

    /// Whether `open` is defined for `path` on `device`: the root inode is an
    /// unlocked directory and every inode that the search reads decodes.
    pub fn open_is_defined<D: BlockDevice>(&self, device: &mut D, path: Path) -> (b: bool)
        requires
            old(device).describes_blocks(),
        ensures
            same_blocks(*old(device), *final(device)),
            b == self.open_defined(block_contents(*old(device)), path),
    {
        let mut parts: Vec<&str> = path.split();
        let file_name = match parts.pop() {
            Some(n) => n,
            None => {
                return false;
            },
        };
        let dir_inode_index = self.root_dir_index;
        if dir_inode_index.as_usize() > usize::MAX - INODE_OFFSET {
            return false;
        }
        let dir_inode = match self.get_inode(device, dir_inode_index) {
            Ok(VirtDiskINode::Directory(d)) => d,
            _ => {
                return false;
            },
        };
        proof {
            lemma_same_blocks_contents(*old(device), *device);
        }
        dir_inode.get_defined(self, device, file_name)
    }

    /// Reads inode `index`.
    pub fn get_inode<D: BlockDevice>(&self, device: &mut D, index: INodeIndex) -> (r: Result<
        VirtDiskINode,
        String,
    >)
        requires
            old(device).describes_blocks(),
            INODE_OFFSET + index@ <= usize::MAX,
        ensures
            same_blocks(*old(device), *final(device)),
            decoding(inode_block(*old(device), index@ as nat), r),
    {
        let mut buffer = [0u8; BLOCK_SIZE];
        device.read(index.to_block_id().as_usize(), &mut buffer);
        VirtDiskINode::from_buffer(buffer)
    }

    /// Lists inode `file_inode_index` in directory `dir_inode_index` and
    /// writes the directory back.
    fn add_file<D: BlockDevice>(
        &self,
        device: &mut D,
        name: &str,
        dir_inode_index: INodeIndex,
        file_inode_index: INodeIndex,
    ) -> (r: Result<(), IOError>)
        requires
            old(device).describes_blocks(),
            INODE_OFFSET + dir_inode_index@ <= usize::MAX,
            inode_block(*old(device), dir_inode_index@ as nat)[1] == 0,
            inode_block(*old(device), dir_inode_index@ as nat)[0] <= KIND_DIRECTORY,
        ensures
            add_file_outcome(
                *old(device),
                *final(device),
                name@,
                dir_inode_index@ as nat,
                file_inode_index@ as nat,
                r,
            ),
    {
        match self.get_inode(device, dir_inode_index) {
            Ok(VirtDiskINode::Directory(mut dir)) => {
                let result = match dir.add_file(name, file_inode_index) {
                    Some(()) => Ok(()),
                    None => Err(IOError::DirectoryFull),
                };
                device.write(dir_inode_index.to_block_id().as_usize(), dir.buffer());
                proof {
                    let block = inode_block(*old(device), dir_inode_index@ as nat);
                    if first_zero_word_from(block, FIRST_LIST_WORD as int) is None {
                        assert forall|i: int| #[trigger] final(device).spec_block(i) == old(device).spec_block(i) by {}
                    }
                }
                result
            },
            Ok(VirtDiskINode::File(_)) => Err(IOError::NotADirectory(name.to_owned())),
            Err(_) => vstd::pervasive::unreached(),
        }
    }
}

impl DiskDriver for VirtDiskDriver {
    type Handle = VirtDiskFile;

    /// Creating is defined where the free inode can be marked in the bitmap
    /// and the root inode decodes.
    open spec fn create_defined(&self, blocks: spec_fn(int) -> Seq<u8>, path: Path) -> bool {
        let bitmap = blocks(INODE_BITMAP_OFFSET as int);
        let dir = blocks(INODE_OFFSET + self.root());
        &&& marking_defined(bitmap)
        &&& free_inode(bitmap) is Some ==> {
            &&& INODE_OFFSET + self.root() <= usize::MAX
            &&& dir[1] == 0
            &&& dir[0] <= KIND_DIRECTORY
        }
    }

    /// Opening is defined where the root inode is a directory and every
    /// inode that the search reads decodes.
    open spec fn open_defined(&self, blocks: spec_fn(int) -> Seq<u8>, path: Path) -> bool {
        let dir = blocks(INODE_OFFSET + self.root());
        &&& INODE_OFFSET + self.root() <= usize::MAX
        &&& dir[1] == 0
        &&& dir[0] == KIND_DIRECTORY
        &&& dir_lookup_defined_from(
            blocks,
            nonzero_words(dir, FIRST_LIST_WORD as int),
            file_name_of(path),
            0,
        )
    }

    /// Creates the file named by the last part of `path` in the root
    /// directory, on the first free inode.
    fn create<D: BlockDevice>(&self, device: &mut D, path: Path) -> (r: Result<VirtDiskFile, IOError>)
        ensures
            create_outcome(*old(device), *final(device), file_name_of(path), self.root(), r),
    {
        let inode_index = match self.flip_free_inode_index(device) {
            Some(i) => i,
            None => {
                return Err(IOError::NoSpace);
            },
        };
        let ghost mid = *device;
        let mut parts: Vec<&str> = path.split();
        let file_name = match parts.pop() {
            Some(n) => n,
            None => {
                return Err(IOError::InvalidPath);
            },
        };
        let dir_inode_index = self.root_dir_index;
        match self.add_file(device, file_name, dir_inode_index, inode_index) {
            Ok(()) => {},
            Err(e) => {
                proof {
                    let dir = inode_block(*old(device), self.root());
                    assert(inode_block(mid, self.root()) == dir);
                    assert(file_name.spec_bytes() == file_name_of(path));
                    if dir[0] == KIND_DIRECTORY {
                        assert(e matches IOError::DirectoryFull);
                    } else {
                        assert(e matches IOError::NotADirectory(s) && s@ == file_name@);
                    }
                    assert(mid.spec_block(INODE_BITMAP_OFFSET as int) == device.spec_block(
                        INODE_BITMAP_OFFSET as int,
                    ));
                    assert(mid.spec_block(INODE_OFFSET + self.root()) == device.spec_block(
                        INODE_OFFSET + self.root(),
                    ));
                    assert forall|i: int|
                        i != INODE_BITMAP_OFFSET && i != INODE_OFFSET + self.root() implies #[trigger] device.spec_block(i) == old(device).spec_block(i) by {
                        assert(mid.spec_block(i) == device.spec_block(i));
                    }
                }
                return Err(e);
            },
        }
        Ok(VirtDiskFile::new(file_name.to_owned(), inode_index))
    }

    /// Opens the file named by the last part of `path` in the root directory.
    fn open<D: BlockDevice>(&self, device: &mut D, path: Path) -> (r: Result<VirtDiskFile, IOError>)
        ensures
            same_blocks(*old(device), *final(device)),
            open_outcome(*old(device), file_name_of(path), self.root(), r),
    {
        let mut parts: Vec<&str> = path.split();
        let file_name = match parts.pop() {
            Some(n) => n,
            None => {
                return Err(IOError::InvalidPath);
            },
        };
        let dir_inode_index = self.root_dir_index;
        let dir_inode = match self.get_inode(device, dir_inode_index) {
            Ok(VirtDiskINode::Directory(d)) => d,
            _ => vstd::pervasive::unreached(),
        };
        proof {
            lemma_same_blocks_contents(*old(device), *device);
        }
        match dir_inode.get(self, device, file_name) {
            Some((inode_index, inode)) => match inode {
                VirtDiskINode::File(_) => Ok(VirtDiskFile::new(file_name.to_owned(), inode_index)),
                VirtDiskINode::Directory(_) => Err(IOError::CannotOpenADirectory),
            },
            None => Err(IOError::DoesNotExist),
        }
    }
}

/// Reads the header block and gives the driver of a compatible disk, whose
/// root directory is inode 0; `None` when the header lacks the magic number.
pub fn init<D: BlockDevice>(device: &mut D) -> (r: Option<VirtDiskDriver>)
    requires
        old(device).describes_blocks(),
    ensures
        same_blocks(*old(device), *final(device)),
        r is Some <==> crate::bytes::le_at(old(device).spec_block(0), 0, 8) == MAGIC_NUMBER,
        r matches Some(d) ==> d.root() == 0,
{
    let mut buffer = [0u8; BLOCK_SIZE];
    device.read(0, &mut buffer);
    match VirtDiskHeader::from_buffer(buffer) {
        Some(header) => Some(VirtDiskDriver { header, root_dir_index: INodeIndex(0) }),
        None => None,
    }
}

} // verus!
