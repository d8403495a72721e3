use vstd::prelude::*;

use crate::bytes::{bytes_equal, le_at, le_bytes, read_le, str_from_utf8, write_le};
use crate::fs::device::{block_contents, BlockDevice};
use crate::io::disk::driver::{inode_block, same_blocks, BlockId, INodeIndex, VirtDiskDriver};
use crate::io::disk::{BLOCK_SIZE, INODE_OFFSET};
use vstd::string::StringSliceAdditionalSpecFns;
use vstd::utf8::valid_utf8;

verus! {

/// Bytes 0 to 7 of an inode block: byte 0 is the inode's kind (0 for a file,
/// 1 for a directory), byte 1 is nonzero while the inode is locked.
pub const KIND_FILE: u8 = 0;

pub const KIND_DIRECTORY: u8 = 1;

/// A file's name: at most 20 bytes from byte 12, NUL-padded.
pub const FILE_NAME_START: usize = 12;

pub const FILE_NAME_MAX: usize = 20;

/// A directory's name: at most 31 bytes from byte 1, NUL-padded.
pub const DIR_NAME_START: usize = 1;

pub const DIR_NAME_MAX: usize = 31;

/// Words 4 to 63 of an inode block list a file's data blocks (until the
/// first 0) or a directory's entries (0 for an empty slot).
pub const FIRST_LIST_WORD: usize = 4;

pub const BLOCK_WORDS: usize = 64;

/// Word `i` of a block: the little-endian value of bytes `8i` to `8i + 7`.
pub open spec fn word(b: Seq<u8>, i: int) -> nat {
    le_at(b, 8 * i, 8)
}

/// The length of the NUL-terminated string of at most `max` bytes at `start`,
/// from position `k` on.
pub open spec fn name_len_from(b: Seq<u8>, start: int, k: int, max: int) -> int
    decreases max - k,
{
    if k >= max {
        max
    } else if b[start + k] == 0 {
        k
    } else {
        name_len_from(b, start, k + 1, max)
    }
}

/// The bytes of the NUL-terminated string of at most `max` bytes at `start`.
pub open spec fn name_bytes(b: Seq<u8>, start: int, max: int) -> Seq<u8> {
    b.subrange(start, start + name_len_from(b, start, 0, max))
}

/// The name bytes of the inode that block `b` holds.
pub open spec fn inode_name_bytes(b: Seq<u8>) -> Seq<u8> {
    if b[0] == KIND_FILE {
        name_bytes(b, FILE_NAME_START as int, FILE_NAME_MAX as int)
    } else {
        name_bytes(b, DIR_NAME_START as int, DIR_NAME_MAX as int)
    }
}

/// A block decodes to an inode: it is unlocked and of a known kind.
pub open spec fn decodes(b: Seq<u8>) -> bool {
    b[1] == 0 && (b[0] == KIND_FILE || b[0] == KIND_DIRECTORY)
}

/// The position of the first 0 word from word `i` on, if any before the
/// end of the block.
pub open spec fn first_zero_word_from(b: Seq<u8>, i: int) -> Option<int>
    decreases BLOCK_WORDS - i,
{
    if i >= BLOCK_WORDS {
        None
    } else if word(b, i) == 0 {
        Some(i)
    } else {
        first_zero_word_from(b, i + 1)
    }
}

/// The words from word `i` on up to the first 0 word.
pub open spec fn words_until_zero(b: Seq<u8>, i: int) -> Seq<nat>
    decreases BLOCK_WORDS - i,
{
    if i >= BLOCK_WORDS || word(b, i) == 0 {
        Seq::empty()
    } else {
        seq![word(b, i)] + words_until_zero(b, i + 1)
    }
}

/// The nonzero words from word `i` on.
pub open spec fn nonzero_words(b: Seq<u8>, i: int) -> Seq<nat>
    decreases BLOCK_WORDS - i,
{
    if i >= BLOCK_WORDS {
        Seq::empty()
    } else if word(b, i) == 0 {
        nonzero_words(b, i + 1)
    } else {
        seq![word(b, i)] + nonzero_words(b, i + 1)
    }
}

/// `r` is the NUL-terminated string of at most `max` bytes at `start` of `b`
/// when that is valid UTF-8, and `None` otherwise.
pub open spec fn name_result(r: Option<&str>, b: Seq<u8>, start: int, max: int) -> bool {
    &&& r is Some <==> valid_utf8(name_bytes(b, start, max))
    &&& r matches Some(s) ==> s.spec_bytes() == name_bytes(b, start, max)
}

/// The length of the NUL-terminated string of at most `max` bytes at `start`.
fn name_len(buffer: &[u8; BLOCK_SIZE], start: usize, max: usize) -> (r: usize)
    requires
        start + max <= BLOCK_SIZE,
    ensures
        r == name_len_from(buffer@, start as int, 0, max as int),
        r <= max,
{
    let mut k: usize = 0;
    while k < max
        invariant
            start + max <= BLOCK_SIZE,
            k <= max,
            name_len_from(buffer@, start as int, k as int, max as int) == name_len_from(
                buffer@,
                start as int,
                0,
                max as int,
            ),
        decreases max - k,
    {
        if buffer[start + k] == 0 {
            return k;
        }
        k = k + 1;
    }
    k
}

/// The NUL-terminated string of at most `max` bytes at `start`, if it is
/// valid UTF-8.
fn name_at(buffer: &[u8; BLOCK_SIZE], start: usize, max: usize) -> (r: Option<&str>)
    requires
        start + max <= BLOCK_SIZE,
    ensures
        name_result(r, buffer@, start as int, max as int),
{
    let len = name_len(buffer, start, max);
    str_from_utf8(&buffer[start..start + len])
}

/// Where a search for the entry named `name` among `entries` (inode numbers),
/// from position `k` on, stops: at the first entry of that name, or with
/// `None` at the first entry whose name is not UTF-8 or after the last.
/// `blocks` gives the device's blocks.
pub open spec fn dir_lookup_from(
    blocks: spec_fn(int) -> Seq<u8>,
    entries: Seq<nat>,
    name: Seq<u8>,
    k: int,
) -> Option<int>
    decreases entries.len() - k,
{
    if k < 0 || k >= entries.len() {
        None
    } else {
        let entry_name = inode_name_bytes(blocks(INODE_OFFSET + (entries[k] as usize)));
        if !valid_utf8(entry_name) {
            None
        } else if entry_name == name {
            Some(k)
        } else {
            dir_lookup_from(blocks, entries, name, k + 1)
        }
    }
}

/// A directory search from position `k` finds an entry only by its exact
/// name, and the first entry from `k` on with that name; when the name of
/// every entry from `k` on is UTF-8, it finds nothing exactly when none of
/// them has the name.
pub proof fn lemma_dir_lookup_exact(
    blocks: spec_fn(int) -> Seq<u8>,
    entries: Seq<nat>,
    name: Seq<u8>,
    k: int,
)
    requires
        0 <= k,
    ensures
        dir_lookup_from(blocks, entries, name, k) matches Some(j) ==> {
            &&& k <= j < entries.len()
            &&& inode_name_bytes(blocks(INODE_OFFSET + (entries[j] as usize))) == name
            &&& forall|i: int|
                k <= i < j ==> inode_name_bytes(blocks(INODE_OFFSET + (#[trigger] entries[i] as usize)))
                    != name
        },
        (forall|i: int|
            k <= i < entries.len() ==> valid_utf8(
                inode_name_bytes(blocks(INODE_OFFSET + (#[trigger] entries[i] as usize))),
            )) ==> (dir_lookup_from(blocks, entries, name, k) is None <==> forall|i: int|
            k <= i < entries.len() ==> inode_name_bytes(
                blocks(INODE_OFFSET + (#[trigger] entries[i] as usize)),
            ) != name),
    decreases entries.len() - k,
{
    if k < entries.len() {
        lemma_dir_lookup_exact(blocks, entries, name, k + 1);
    }
}

/// Every inode that the search of `dir_lookup_from` reads has a block
/// number and decodes.
pub open spec fn dir_lookup_defined_from(
    blocks: spec_fn(int) -> Seq<u8>,
    entries: Seq<nat>,
    name: Seq<u8>,
    k: int,
) -> bool
    decreases entries.len() - k,
{
    if k < 0 || k >= entries.len() {
        true
    } else {
        let b = blocks(INODE_OFFSET + (entries[k] as usize));
        let entry_name = inode_name_bytes(b);
        &&& INODE_OFFSET + (entries[k] as usize) <= usize::MAX
        &&& decodes(b)
        &&& (valid_utf8(entry_name) && entry_name != name) ==> dir_lookup_defined_from(
            blocks,
            entries,
            name,
            k + 1,
        )
    }
}

/// A file's inode.
pub struct VirtDiskFileNode {
    buffer: [u8; BLOCK_SIZE],
}

/// A directory's inode.
pub struct VirtDiskDirNode {
    buffer: [u8; BLOCK_SIZE],
}

/// An inode: a file or a directory.
pub enum VirtDiskINode {
    File(VirtDiskFileNode),
    Directory(VirtDiskDirNode),
}

/// The block of a new file's inode named `name`: marked in byte 1, the name
/// from byte 12, zeros elsewhere.
pub open spec fn new_file_block(name: Seq<u8>) -> Seq<u8> {
    Seq::new(
        BLOCK_SIZE as nat,
        |k: int|
            if k == 1 {
                1u8
            } else if FILE_NAME_START <= k < FILE_NAME_START + name.len() {
                name[k - FILE_NAME_START]
            } else {
                0u8
            },
    )
}

/// What decoding block `b` gives: an error for a locked inode or an unknown
/// kind, else the file or directory inode of that block.
pub open spec fn decoding(b: Seq<u8>, r: Result<VirtDiskINode, String>) -> bool {
    if b[1] != 0 {
        r matches Err(e) && e@ == "File is locked"@
    } else if b[0] == KIND_FILE {
        r matches Ok(VirtDiskINode::File(f)) && f.spec_buffer() == b
    } else if b[0] == KIND_DIRECTORY {
        r matches Ok(VirtDiskINode::Directory(d)) && d.spec_buffer() == b
    } else {
        r matches Err(e) && e@ == "Invalid inode type"@
    }
}

impl VirtDiskINode {
    /// The block the inode was read from.
    pub open spec fn spec_buffer(&self) -> Seq<u8> {
        match self {
            VirtDiskINode::File(f) => f.spec_buffer(),
            VirtDiskINode::Directory(d) => d.spec_buffer(),
        }
    }

    /// Where the inode's name starts in its block.
    pub open spec fn name_start(&self) -> int {
        match self {
            VirtDiskINode::File(_) => FILE_NAME_START as int,
            VirtDiskINode::Directory(_) => DIR_NAME_START as int,
        }
    }

    /// How long the inode's name may be.
    pub open spec fn name_max(&self) -> int {
        match self {
            VirtDiskINode::File(_) => FILE_NAME_MAX as int,
            VirtDiskINode::Directory(_) => DIR_NAME_MAX as int,
        }
    }

    /// Decodes an inode block: a locked inode and an unknown kind are errors.
    pub fn from_buffer(buffer: [u8; BLOCK_SIZE]) -> (r: Result<Self, String>)
        ensures
            decoding(buffer@, r),
    {
        if buffer[1] != 0 {
            return Err("File is locked".to_owned());
        }
        match buffer[0] {
            0 => Ok(VirtDiskINode::File(VirtDiskFileNode::from_buffer(buffer))),
            1 => Ok(VirtDiskINode::Directory(VirtDiskDirNode::from_buffer(buffer))),
            _ => Err("Invalid inode type".to_owned()),
        }
    }

    /// The inode's name, if it is valid UTF-8.
    pub fn name(&self) -> (r: Option<&str>)
        ensures
            name_result(r, self.spec_buffer(), self.name_start(), self.name_max()),
    {
        match self {
            VirtDiskINode::File(file_node) => file_node.name(),
            VirtDiskINode::Directory(dir_node) => dir_node.name(),
        }
    }

    /// The inode's block.
    pub fn buffer(&self) -> (r: &[u8; BLOCK_SIZE])
        ensures
            r@ == self.spec_buffer(),
    {
        match self {
            VirtDiskINode::File(file_node) => file_node.buffer(),
            VirtDiskINode::Directory(dir_node) => dir_node.buffer(),
        }
    }
}

impl VirtDiskFileNode {
    pub closed spec fn spec_buffer(&self) -> Seq<u8> {
        self.buffer@
    }

    /// A new file inode named `name`, or `None` for a name of more than 20
    /// bytes.
    pub fn new(name: &str) -> (r: Option<Self>)
        ensures
            r is Some <==> name.spec_bytes().len() <= FILE_NAME_MAX,
            r matches Some(n) ==> n.spec_buffer() == new_file_block(name.spec_bytes()),
    {
        let bytes = name.as_bytes();
        if bytes.len() > 20 {
            return None;
        }
        let mut buffer = [0u8; 512];
        buffer[1] = 1;
        let mut i: usize = 0;
        while i < bytes.len()
            invariant
                bytes@ == name.spec_bytes(),
                bytes@.len() <= FILE_NAME_MAX,
                i <= bytes@.len(),
                buffer@.len() == BLOCK_SIZE,
                forall|k: int|
                    0 <= k < BLOCK_SIZE && !(FILE_NAME_START + i <= k < FILE_NAME_START + bytes@.len())
                        ==> buffer@[k] == new_file_block(bytes@)[k],
            decreases bytes@.len() - i,
        {
            buffer[12 + i] = bytes[i];
            i = i + 1;
        }
        let r = VirtDiskFileNode { buffer };
        assert(r.spec_buffer() =~= new_file_block(name.spec_bytes()));
        Some(r)
    }

    pub fn from_buffer(buffer: [u8; BLOCK_SIZE]) -> (r: Self)
        ensures
            r.spec_buffer() == buffer@,
    {
        VirtDiskFileNode { buffer }
    }

    /// The file's name (up to 20 bytes from byte 12, NUL-terminated), if it is
    /// valid UTF-8.
    pub fn name(&self) -> (r: Option<&str>)
        ensures
            name_result(r, self.spec_buffer(), FILE_NAME_START as int, FILE_NAME_MAX as int),
    {
        name_at(&self.buffer, 12, 20)
    }

    pub fn buffer(&self) -> (r: &[u8; BLOCK_SIZE])
        ensures
            r@ == self.spec_buffer(),
    {
        &self.buffer
    }

    /// The file's size in bytes (bytes 4 to 11, little-endian).
    pub fn size(&self) -> (r: u64)
        ensures
            r == le_at(self.spec_buffer(), 4, 8),
    {
        read_le(&self.buffer, 4, 8)
    }

    /// The file's data blocks: words 4 on, up to the first 0.
    pub fn data_blocks(&self) -> (r: Vec<BlockId>)
        ensures
            r@.len() == words_until_zero(self.spec_buffer(), FIRST_LIST_WORD as int).len(),
            forall|k: int|
                0 <= k < r@.len() ==> (#[trigger] r@[k])@ == words_until_zero(
                    self.spec_buffer(),
                    FIRST_LIST_WORD as int,
                )[k] as usize,
    {
        let mut blocks: Vec<BlockId> = Vec::new();
        let mut i: usize = 4;
        let ghost b = self.buffer@;
        let ghost mut taken: Seq<nat> = Seq::empty();
        while i < 64
            invariant_except_break
                words_until_zero(b, FIRST_LIST_WORD as int) == taken + words_until_zero(b, i as int),
            invariant
                b == self.buffer@,
                b.len() == BLOCK_SIZE,
                FIRST_LIST_WORD <= i <= BLOCK_WORDS,
                blocks@.len() == taken.len(),
                forall|k: int|
                    0 <= k < blocks@.len() ==> (#[trigger] blocks@[k])@ == taken[k] as usize,
            ensures
                words_until_zero(b, FIRST_LIST_WORD as int) == taken,
            decreases BLOCK_WORDS - i,
        {
            let block_id = read_le(&self.buffer, 8 * i, 8);
            if block_id == 0 {
                assert(words_until_zero(b, i as int) =~= Seq::<nat>::empty());
                assert(taken + Seq::<nat>::empty() =~= taken);
                break;
            }
            proof {
                let w = word(b, i as int);
                assert(words_until_zero(b, i as int) == seq![w] + words_until_zero(b, i + 1));
                assert(taken + (seq![w] + words_until_zero(b, i + 1)) =~= taken.push(w)
                    + words_until_zero(b, i + 1));
                taken = taken.push(w);
            }
            blocks.push(BlockId::raw(block_id as usize));
            i = i + 1;
        }
        proof {
            if i >= 64 {
                assert(words_until_zero(b, i as int) =~= Seq::<nat>::empty());
                assert(taken + Seq::<nat>::empty() =~= taken);
            }
        }
        blocks
    }
}

impl VirtDiskDirNode {
    pub closed spec fn spec_buffer(&self) -> Seq<u8> {
        self.buffer@
    }

    pub fn from_buffer(buffer: [u8; BLOCK_SIZE]) -> (r: Self)
        ensures
            r.spec_buffer() == buffer@,
    {
        VirtDiskDirNode { buffer }
    }

    /// The directory's name (up to 31 bytes from byte 1, NUL-terminated), if
    /// it is valid UTF-8.
    pub fn name(&self) -> (r: Option<&str>)
        ensures
            name_result(r, self.spec_buffer(), DIR_NAME_START as int, DIR_NAME_MAX as int),
    {
        name_at(&self.buffer, 1, 31)
    }

    pub fn buffer(&self) -> (r: &[u8; BLOCK_SIZE])
        ensures
            r@ == self.spec_buffer(),
    {
        &self.buffer
    }

    /// The inodes listed in the directory: its nonzero words from word 4 on.
    fn files_inode_index(&self) -> (r: Vec<INodeIndex>)
        ensures
            r@.len() == nonzero_words(self.spec_buffer(), FIRST_LIST_WORD as int).len(),
            forall|k: int|
                0 <= k < r@.len() ==> (#[trigger] r@[k])@ == nonzero_words(
                    self.spec_buffer(),
                    FIRST_LIST_WORD as int,
                )[k] as usize,
    {
        let mut r: Vec<INodeIndex> = Vec::new();
        let mut i: usize = 4;
        let ghost b = self.buffer@;
        let ghost mut taken: Seq<nat> = Seq::empty();
        while i < 64
            invariant
                b == self.buffer@,
                b.len() == BLOCK_SIZE,
                FIRST_LIST_WORD <= i <= BLOCK_WORDS,
                nonzero_words(b, FIRST_LIST_WORD as int) == taken + nonzero_words(b, i as int),
                r@.len() == taken.len(),
                forall|k: int| 0 <= k < r@.len() ==> (#[trigger] r@[k])@ == taken[k] as usize,
            decreases BLOCK_WORDS - i,
        {
            let inode_index = read_le(&self.buffer, 8 * i, 8);
            if inode_index != 0 {
                proof {
                    let w = word(b, i as int);
                    assert(taken + (seq![w] + nonzero_words(b, i + 1)) =~= taken.push(w)
                        + nonzero_words(b, i + 1));
                    taken = taken.push(w);
                }
                r.push(INodeIndex::new(inode_index as usize));
            }
            i = i + 1;
        }
        proof {
            assert(taken + nonzero_words(b, i as int) =~= taken);
        }
        r
    }

    /// Whether `get` is defined for `name` on `device`: every inode that its
    /// search reads lies on the device and decodes.
    pub fn get_defined<D: BlockDevice>(&self, driver: &VirtDiskDriver, device: &mut D, name: &str) -> (b:
        bool)
        requires
            old(device).describes_blocks(),
        ensures
            same_blocks(*old(device), *final(device)),
            b == dir_lookup_defined_from(
                block_contents(*old(device)),
                nonzero_words(self.spec_buffer(), FIRST_LIST_WORD as int),
                name.spec_bytes(),
                0,
            ),
    {
        let ghost blocks = block_contents(*old(device));
        let ghost entries = nonzero_words(self.spec_buffer(), FIRST_LIST_WORD as int);
        let indexes = self.files_inode_index();
        let mut k: usize = 0;
        while k < indexes.len()
            invariant
                blocks == block_contents(*old(device)),
                entries == nonzero_words(self.spec_buffer(), FIRST_LIST_WORD as int),
                indexes@.len() == entries.len(),
                forall|j: int| 0 <= j < indexes@.len() ==> (#[trigger] indexes@[j])@ == entries[j] as usize,
                k <= indexes@.len(),
                old(device).describes_blocks(),
                same_blocks(*old(device), *device),
                dir_lookup_defined_from(blocks, entries, name.spec_bytes(), 0)
                    == dir_lookup_defined_from(blocks, entries, name.spec_bytes(), k as int),
            decreases indexes@.len() - k,
        {
            let inode_index = indexes[k];
            let ghost b = blocks(INODE_OFFSET + inode_index@);
            proof {
                assert(inode_index@ == entries[k as int] as usize);
            }
            if inode_index.as_usize() > usize::MAX - INODE_OFFSET {
                return false;
            }
            let inode = match driver.get_inode(device, inode_index) {
                Ok(inode) => inode,
                Err(_) => {
                    assert(b == inode_block(*old(device), inode_index@ as nat));
                    return false;
                },
            };
            proof {
                assert(b == inode_block(*old(device), inode_index@ as nat));
                assert(inode.spec_buffer() == b);
                assert(inode.name_start() == if b[0] == KIND_FILE {
                    FILE_NAME_START as int
                } else {
                    DIR_NAME_START as int
                });
            }
            let matched = match inode.name() {
                Some(s) => Some(bytes_equal(s.as_bytes(), name.as_bytes())),
                None => None,
            };
            proof {
                let entry_name = inode_name_bytes(b);
                assert(matched is None <==> !valid_utf8(entry_name));
                assert(matched == Some(true) <==> valid_utf8(entry_name) && entry_name
                    == name.spec_bytes());
            }
            match matched {
                Some(false) => {},
                _ => {
                    return true;
                },
            }
            k = k + 1;
        }
        true
    }

    /// The directory's entry named `name` and its inode, read from `device`:
    /// the first entry of that name, or `None` once an entry's name is not
    /// UTF-8 or when no entry has that name.
    pub fn get<D: BlockDevice>(&self, driver: &VirtDiskDriver, device: &mut D, name: &str) -> (r:
        Option<(INodeIndex, VirtDiskINode)>)
        requires
            old(device).describes_blocks(),
            dir_lookup_defined_from(
                block_contents(*old(device)),
                nonzero_words(self.spec_buffer(), FIRST_LIST_WORD as int),
                name.spec_bytes(),
                0,
            ),
        ensures
            same_blocks(*old(device), *final(device)),
            match dir_lookup_from(
                block_contents(*old(device)),
                nonzero_words(self.spec_buffer(), FIRST_LIST_WORD as int),
                name.spec_bytes(),
                0,
            ) {
                Some(k) => r matches Some((i, n)) && i@ == nonzero_words(
                    self.spec_buffer(),
                    FIRST_LIST_WORD as int,
                )[k] as usize && decoding(inode_block(*old(device), i@ as nat), Ok(n)),
                None => r is None,
            },
    {
        let ghost blocks = block_contents(*old(device));
        let ghost entries = nonzero_words(self.spec_buffer(), FIRST_LIST_WORD as int);
        let indexes = self.files_inode_index();
        let mut k: usize = 0;
        while k < indexes.len()
            invariant
                blocks == block_contents(*old(device)),
                entries == nonzero_words(self.spec_buffer(), FIRST_LIST_WORD as int),
                indexes@.len() == entries.len(),
                forall|j: int| 0 <= j < indexes@.len() ==> (#[trigger] indexes@[j])@ == entries[j] as usize,
                k <= indexes@.len(),
                old(device).describes_blocks(),
                same_blocks(*old(device), *device),
                dir_lookup_from(blocks, entries, name.spec_bytes(), 0) == dir_lookup_from(
                    blocks,
                    entries,
                    name.spec_bytes(),
                    k as int,
                ),
                dir_lookup_defined_from(blocks, entries, name.spec_bytes(), k as int),
            decreases indexes@.len() - k,
        {
            let inode_index = indexes[k];
            let ghost b = blocks(INODE_OFFSET + inode_index@);
            let inode = match driver.get_inode(device, inode_index) {
                Ok(inode) => inode,
                Err(_) => vstd::pervasive::unreached(),
            };
            proof {
                assert(inode_index@ == entries[k as int] as usize);
                assert(b == inode_block(*old(device), inode_index@ as nat));
                assert(inode.spec_buffer() == b);
                assert(inode.name_start() == if b[0] == KIND_FILE {
                    FILE_NAME_START as int
                } else {
                    DIR_NAME_START as int
                });
            }
            let matched = match inode.name() {
                Some(s) => Some(bytes_equal(s.as_bytes(), name.as_bytes())),
                None => None,
            };
            proof {
                let entry_name = inode_name_bytes(b);
                assert(matched is None <==> !valid_utf8(entry_name));
                assert(matched == Some(true) <==> valid_utf8(entry_name) && entry_name
                    == name.spec_bytes());
            }
            match matched {
                None => {
                    assert(dir_lookup_from(blocks, entries, name.spec_bytes(), k as int) is None);
                    return None;
                },
                Some(true) => {
                    assert(dir_lookup_from(blocks, entries, name.spec_bytes(), k as int) == Some(
                        k as int,
                    ));
                    return Some((inode_index, inode));
                },
                Some(false) => {},
            }
            k = k + 1;
        }
        None
    }

    /// Lists `file_inode_index` in the first empty slot (a 0 word from word 4
    /// on); `None`, with the directory unchanged, when there is no such slot.
    pub fn add_file(&mut self, _name: &str, file_inode_index: INodeIndex) -> (r: Option<()>)
        ensures
            match first_zero_word_from(old(self).spec_buffer(), FIRST_LIST_WORD as int) {
                Some(i) => r is Some && final(self).spec_buffer() == old(self).spec_buffer().subrange(
                    0,
                    8 * i,
                ) + le_bytes(file_inode_index@ as nat, 8) + old(self).spec_buffer().subrange(
                    8 * i + 8,
                    BLOCK_SIZE as int,
                ),
                None => r is None && final(self).spec_buffer() == old(self).spec_buffer(),
            },
    {
        let mut i: usize = 4;
        while i < 64
            invariant
                self.buffer@ == old(self).buffer@,
                FIRST_LIST_WORD <= i <= BLOCK_WORDS,
                first_zero_word_from(self.buffer@, FIRST_LIST_WORD as int) == first_zero_word_from(
                    self.buffer@,
                    i as int,
                ),
            decreases BLOCK_WORDS - i,
        {
            if read_le(&self.buffer, 8 * i, 8) == 0 {
                write_le(&mut self.buffer, 8 * i, file_inode_index.as_usize() as u64);
                return Some(());
            }
            i = i + 1;
        }
        None
    }
}

} // verus!
