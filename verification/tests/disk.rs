use std::collections::HashMap;

use bazos::fs::device::BlockDevice;
use bazos::fs::driver::{DiskDriver, IOError};
use bazos::fs::file::File;
use bazos::fs::path::Path;
use bazos::io::disk::bitmap::VirtDiskBitmap;
use bazos::io::disk::driver::{init, BlockId, INodeIndex};
use bazos::io::disk::header::VirtDiskHeader;
use bazos::io::disk::inode::{VirtDiskDirNode, VirtDiskFileNode, VirtDiskINode};

/// A disk in memory; blocks never written read as zeros.
#[derive(Default)]
struct MemDisk {
    blocks: HashMap<usize, [u8; 512]>,
}

impl MemDisk {
    fn block(&self, id: usize) -> [u8; 512] {
        self.blocks.get(&id).copied().unwrap_or([0u8; 512])
    }

    fn set(&mut self, id: usize, block: [u8; 512]) {
        self.blocks.insert(id, block);
    }
}

impl BlockDevice for MemDisk {
    fn read(&mut self, block_id: usize, buf: &mut [u8]) {
        buf.copy_from_slice(&self.block(block_id));
    }

    fn write(&mut self, block_id: usize, block: &[u8]) {
        let mut b = [0u8; 512];
        b.copy_from_slice(block);
        self.blocks.insert(block_id, b);
    }
}

fn put_word(b: &mut [u8; 512], word: usize, value: u64) {
    b[8 * word..8 * word + 8].copy_from_slice(&value.to_le_bytes());
}

fn word(b: &[u8; 512], word: usize) -> u64 {
    u64::from_le_bytes(b[8 * word..8 * word + 8].try_into().unwrap())
}

const MAGIC: u64 = 0xBA205;

/// A disk with the root directory (inode 0) listing the file `hello.txt`
/// (inode 1), whose data are blocks 40 and 41.
fn sample_disk() -> MemDisk {
    let mut disk = MemDisk::default();
    let mut header = [0u8; 512];
    put_word(&mut header, 0, MAGIC);
    disk.set(0, header);

    let mut bitmap = [0u8; 512];
    bitmap[0] = 0b11;
    disk.set(17, bitmap);

    let mut root = [0u8; 512];
    root[0] = 1;
    put_word(&mut root, 4, 1);
    disk.set(18, root);

    let mut file = [0u8; 512];
    file[0] = 0;
    file[4] = 0x10;
    file[5] = 0x04;
    file[12..21].copy_from_slice(b"hello.txt");
    put_word(&mut file, 4, 40);
    put_word(&mut file, 5, 41);
    disk.set(19, file);

    disk.set(40, [b'a'; 512]);
    disk.set(41, [b'b'; 512]);
    disk
}

#[test]
fn header_requires_magic_number() {
    let mut block = [0u8; 512];
    assert!(VirtDiskHeader::from_buffer(block).is_none());
    block[0..8].copy_from_slice(&MAGIC.to_le_bytes());
    let header = VirtDiskHeader::from_buffer(block).unwrap();
    let indexes = header.inodes_bitmap_indexes();
    assert_eq!(indexes.len(), 1);
    assert_eq!(indexes[0].as_usize(), 17);
}

#[test]
fn init_refuses_incompatible_disk() {
    let mut disk = MemDisk::default();
    assert!(init(&mut disk).is_none());
    let mut disk = sample_disk();
    assert!(init(&mut disk).is_some());
}

#[test]
fn block_ids_and_inode_indexes() {
    assert_eq!(BlockId::inode_bitmap(0).as_usize(), 17);
    assert_eq!(BlockId::data_bitmap(3).as_usize(), 4);
    assert_eq!(BlockId::inode(2).as_usize(), 20);
    assert_eq!(BlockId::data(0).as_usize(), 18 + 4096);
    assert_eq!(BlockId::raw(7).as_usize(), 7);
    assert!(BlockId::raw(0).is_none());
    assert!(!BlockId::raw(1).is_none());
    assert!(INodeIndex::new(0).is_none());
    assert_eq!(INodeIndex::new(5).to_block_id().as_usize(), 23);
    assert_eq!(INodeIndex::new(5).as_usize(), 5);
}

#[test]
fn bitmap_finds_first_clear_bit() {
    let mut block = [0u8; 512];
    block[0] = 0xff;
    block[1] = 0x07;
    assert_eq!(VirtDiskBitmap::from_buffer(&block).find_zero(), Some(11));
    let full = [0xffu8; 512];
    assert_eq!(VirtDiskBitmap::from_buffer(&full).find_zero(), None);
    let mut second_word = [0xffu8; 512];
    second_word[8] = 0xfe;
    assert_eq!(VirtDiskBitmap::from_buffer(&second_word).find_zero(), Some(64));
}

#[test]
fn inode_decoding() {
    let mut block = [0u8; 512];
    block[1] = 1;
    assert_eq!(
        VirtDiskINode::from_buffer(block).err().unwrap(),
        "File is locked"
    );
    let mut block = [0u8; 512];
    block[0] = 7;
    assert_eq!(
        VirtDiskINode::from_buffer(block).err().unwrap(),
        "Invalid inode type"
    );
    let disk = sample_disk();
    match VirtDiskINode::from_buffer(disk.block(19)).unwrap() {
        VirtDiskINode::File(f) => {
            assert_eq!(f.name(), Some("hello.txt"));
            assert_eq!(f.size(), 0x410);
            let blocks: Vec<usize> = f.data_blocks().iter().map(|b| b.as_usize()).collect();
            assert_eq!(blocks, vec![40, 41]);
        }
        VirtDiskINode::Directory(_) => panic!("expected a file"),
    }
    match VirtDiskINode::from_buffer(disk.block(18)).unwrap() {
        VirtDiskINode::Directory(d) => assert_eq!(d.name(), Some("")),
        VirtDiskINode::File(_) => panic!("expected a directory"),
    }
}

#[test]
fn file_node_names() {
    let node = VirtDiskFileNode::new("report.txt").unwrap();
    assert_eq!(node.name(), Some("report.txt"));
    assert_eq!(node.buffer()[1], 1);
    assert!(VirtDiskFileNode::new("a-name-longer-than-twenty").is_none());
    let mut block = [0u8; 512];
    block[12] = 0xff;
    assert_eq!(VirtDiskFileNode::from_buffer(block).name(), None);
}

#[test]
fn directory_add_file_fills_first_empty_slot() {
    let disk = sample_disk();
    let mut dir = VirtDiskDirNode::from_buffer(disk.block(18));
    assert_eq!(dir.add_file("x", INodeIndex::new(9)), Some(()));
    assert_eq!(word(dir.buffer(), 4), 1);
    assert_eq!(word(dir.buffer(), 5), 9);
    let mut full = [0u8; 512];
    full[0] = 1;
    for w in 4..64 {
        put_word(&mut full, w, 3);
    }
    let mut dir = VirtDiskDirNode::from_buffer(full);
    assert_eq!(dir.add_file("x", INodeIndex::new(9)), None);
    assert_eq!(dir.buffer(), &full);
}

#[test]
fn directory_get_finds_entry_by_name() {
    let mut disk = sample_disk();
    let driver = init(&mut disk).unwrap();
    let dir = VirtDiskDirNode::from_buffer(disk.block(18));
    let (index, inode) = dir.get(&driver, &mut disk, "hello.txt").unwrap();
    assert_eq!(index.as_usize(), 1);
    assert!(matches!(inode, VirtDiskINode::File(_)));
    assert!(dir.get(&driver, &mut disk, "other").is_none());
}

#[test]
fn open_and_read_file() {
    let mut disk = sample_disk();
    let driver = init(&mut disk).unwrap();
    let file = driver.open(&mut disk, Path::new("hello.txt")).unwrap();
    assert_eq!(file.name(), "hello.txt");
    let content = file.read(&driver, &mut disk);
    assert_eq!(content.len(), 1024);
    assert!(content[..512].iter().all(|&b| b == b'a'));
    assert!(content[512..].iter().all(|&b| b == b'b'));
    let file = driver.open(&mut disk, Path::new("/hello.txt")).unwrap();
    assert_eq!(file.name(), "hello.txt");
}

#[test]
fn open_missing_file() {
    let mut disk = sample_disk();
    let driver = init(&mut disk).unwrap();
    assert!(matches!(
        driver.open(&mut disk, Path::new("missing")),
        Err(IOError::DoesNotExist)
    ));
}

#[test]
fn open_directory_is_refused() {
    let mut disk = sample_disk();
    let mut sub = [0u8; 512];
    sub[0] = 1;
    disk.set(19, sub);
    let driver = init(&mut disk).unwrap();
    assert!(matches!(
        driver.open(&mut disk, Path::new("")),
        Err(IOError::CannotOpenADirectory)
    ));
}

#[test]
fn create_marks_inode_and_lists_it() {
    let mut disk = sample_disk();
    let driver = init(&mut disk).unwrap();
    let file = driver.create(&mut disk, Path::new("dir/new.txt")).unwrap();
    assert_eq!(file.name(), "new.txt");
    assert_eq!(disk.block(17)[0], 0b111);
    assert_eq!(word(&disk.block(18), 4), 1);
    assert_eq!(word(&disk.block(18), 5), 2);
    // The new inode's own block is not written, so it cannot be opened by
    // name yet.
    assert!(matches!(
        driver.open(&mut disk, Path::new("new.txt")),
        Err(IOError::DoesNotExist)
    ));
}

#[test]
fn create_without_free_inode() {
    let mut disk = sample_disk();
    disk.set(17, [0xff; 512]);
    let driver = init(&mut disk).unwrap();
    assert!(matches!(
        driver.create(&mut disk, Path::new("a")),
        Err(IOError::NoSpace)
    ));
    assert_eq!(disk.block(18), sample_disk().block(18));
}

#[test]
fn create_in_full_directory() {
    let mut disk = sample_disk();
    let mut full = [0u8; 512];
    full[0] = 1;
    for w in 4..64 {
        put_word(&mut full, w, 1);
    }
    disk.set(18, full);
    let driver = init(&mut disk).unwrap();
    assert!(matches!(
        driver.create(&mut disk, Path::new("a")),
        Err(IOError::DirectoryFull)
    ));
    assert_eq!(disk.block(17)[0], 0b111);
    assert_eq!(disk.block(18), full);
}

#[test]
fn create_when_root_is_a_file() {
    let mut disk = sample_disk();
    disk.set(18, [0u8; 512]);
    let driver = init(&mut disk).unwrap();
    match driver.create(&mut disk, Path::new("notes")) {
        Err(IOError::NotADirectory(name)) => assert_eq!(name, "notes"),
        _ => panic!("expected NotADirectory"),
    }
}

#[test]
fn path_split_on_slashes() {
    assert_eq!(Path::new("a/b/c").split(), vec!["a", "b", "c"]);
    assert_eq!(Path::new("").split(), vec![""]);
    assert_eq!(Path::new("/x").split(), vec!["", "x"]);
    assert_eq!(Path::new("x/").split(), vec!["x", ""]);
    assert_eq!(Path::new("é/ü").split(), vec!["é", "ü"]);
}

#[test]
fn open_and_read_are_defined_on_a_sound_disk() {
    let mut disk = sample_disk();
    let driver = init(&mut disk).unwrap();
    assert!(driver.open_is_defined(&mut disk, Path::new("hello.txt")));
    assert!(driver.open_is_defined(&mut disk, Path::new("missing")));
    let file = driver.open(&mut disk, Path::new("hello.txt")).unwrap();
    assert!(file.read_is_defined(&driver, &mut disk));
}

#[test]
fn locked_inode_makes_open_and_read_undefined() {
    let mut disk = sample_disk();
    let driver = init(&mut disk).unwrap();
    let file = driver.open(&mut disk, Path::new("hello.txt")).unwrap();
    let mut locked = disk.block(19);
    locked[1] = 1;
    disk.set(19, locked);
    assert!(!driver.open_is_defined(&mut disk, Path::new("hello.txt")));
    assert!(!file.read_is_defined(&driver, &mut disk));

    let mut disk = sample_disk();
    let mut root = disk.block(18);
    root[0] = 0;
    disk.set(18, root);
    assert!(!driver.open_is_defined(&mut disk, Path::new("hello.txt")));
}
