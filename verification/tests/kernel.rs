use bazos::memory::frame_allocator::{usable_frame, PhysRegion};
use bazos::asynchronous::process::{find_free_mem_region, free_mem_region_defined, PageRange};
use bazos::asynchronous::thread::{forked_stack_fits, init_forked_stack, init_stack, stack_fits_args, ThreadId};
use bazos::asynchronous::threads_array::ThreadsArray;
use bazos::bits::{highest_one, lowest_one, next_power_of_two};
use bazos::bytes::{bytes_equal, read_le};
use bazos::fs::elf::error::ElfParserError;
use bazos::fs::elf::header::ElfHeader;
use bazos::fs::elf::program_header::{ElfProgramHeader, ElfProgramType};
use bazos::memory::binary_allocator::BinaryAllocator;
use bazos::memory::buddy_allocator::{compute_max_depth, BuddyAllocator};
use bazos::memory::slab_allocator::SlabAllocator;
use bazos::program::executor::{ProgramExecutor, SegmentCopy};
use bazos::utils::interval::{merge_intervals, Interval};
use bazos::utils::tree::Tree;

#[test]
fn bit_helpers() {
    assert_eq!(next_power_of_two(0), 1);
    assert_eq!(next_power_of_two(5), 8);
    assert_eq!(next_power_of_two(64), 64);
    assert_eq!(highest_one(0), None);
    assert_eq!(highest_one(0b1010), Some(3));
    assert_eq!(lowest_one(0b1010), Some(1));
    assert_eq!(lowest_one(0), None);
}

#[test]
fn little_endian_bytes() {
    let bytes = [0x01, 0x02, 0x03, 0x04, 0x05];
    assert_eq!(read_le(&bytes, 1, 2), 0x0302);
    assert_eq!(read_le(&bytes, 0, 0), 0);
    assert!(bytes_equal(b"abc", b"abc"));
    assert!(!bytes_equal(b"abc", b"abd"));
    assert!(!bytes_equal(b"abc", b"ab"));
}

#[test]
fn buddy_allocator_splits_and_merges() {
    assert_eq!(compute_max_depth(4096, 256), 5);
    let mut buddy = BuddyAllocator::<5>::new(4096, 256, 0x1000);
    buddy.init();
    assert_eq!(buddy.minimum_block_size(), 256);
    assert_eq!(buddy.max_depth(), 5);
    let a = buddy.allocate(256).unwrap();
    assert_eq!(a, 0x1F00);
    let b = buddy.allocate(256).unwrap();
    assert_eq!(b, 0x1E00);
    let c = buddy.allocate(1024).unwrap();
    assert_eq!(c, 0x1800);
    assert_eq!(buddy.allocate(4096), None);
    buddy.dealloc(b, 256);
    buddy.dealloc(a, 256);
    // The search for a buddy skips the head of its free list, so the two
    // freed halves stay apart and the next 512-byte block is a fresh one.
    assert_eq!(buddy.allocate(512).unwrap(), 0x1C00);
    assert_eq!(buddy.allocate(256).unwrap(), 0x1F00);
}

#[test]
fn buddy_allocator_whole_region_round_trip() {
    let mut buddy = BuddyAllocator::<2>::new(8192, 4096, 0x10000);
    buddy.init();
    let whole = buddy.allocate(8192).unwrap();
    assert_eq!(whole, 0x10000);
    assert_eq!(buddy.allocate(16), None);
    buddy.dealloc(whole, 8192);
    assert_eq!(buddy.allocate(8192), Some(0x10000));
}

#[test]
fn slab_allocator_serves_small_blocks() {
    let mut buddy = BuddyAllocator::<2>::new(8192, 4096, 0x10000);
    buddy.init();
    let mut slab: SlabAllocator<BuddyAllocator<2>> = SlabAllocator::new();
    slab.init(buddy);
    assert_eq!(slab.minimum_block_size(), 8);
    assert_eq!(slab.max_depth(), 10);
    let a = slab.allocate(16).unwrap();
    assert_eq!(a, 0x11FF0);
    let b = slab.allocate(16).unwrap();
    assert_eq!(b, 0x11FE0);
    slab.dealloc(a, 16);
    assert_eq!(slab.allocate(16), Some(0x11FF0));
    let page = slab.allocate(4096).unwrap();
    assert_eq!(page, 0x10000);
    assert_eq!(slab.allocate(4096), None);
    slab.dealloc(page, 4096);
    assert_eq!(slab.allocate(4096), Some(0x10000));
}

#[test]
fn intervals_merge() {
    let a = Interval::with_size(0x1000, 0x1000);
    assert_eq!(a.start(), 0x1000);
    assert_eq!(a.size(), 0x1000);
    let b = Interval::with_size(0x1800, 0x1000);
    let c = Interval::with_size(0x5000, 0x100);
    assert!(a.overlap(&b));
    assert!(!a.overlap(&c));
    let merged = merge_intervals(vec![c, b, a]);
    assert_eq!(merged.len(), 2);
    assert_eq!(merged[0].start(), 0x1000);
    assert_eq!(merged[0].size(), 0x1800);
    assert_eq!(merged[1].start(), 0x5000);
    assert_eq!(merged[1].size(), 0x100);
}

#[test]
fn tree_children() {
    let mut tree = Tree::root(1);
    tree.add_child(2);
    tree.add_child(3);
    assert_eq!(tree.value, 1);
    assert_eq!(tree.children.len(), 2);
    assert_eq!(tree.children[1].value, 3);
}

fn put(bytes: &mut Vec<u8>, at: usize, value: u64, n: usize) {
    bytes[at..at + n].copy_from_slice(&value.to_le_bytes()[..n]);
}

/// An executable with one loadable segment and one note.
fn sample_elf() -> Vec<u8> {
    let mut e = vec![0u8; 64 + 2 * 56];
    e[0..4].copy_from_slice(&[0x7f, b'E', b'L', b'F']);
    e[4] = 2;
    e[5] = 1;
    e[6] = 1;
    put(&mut e, 16, 2, 2);
    put(&mut e, 18, 0x3e, 2);
    put(&mut e, 24, 0x401000, 8);
    put(&mut e, 56, 2, 2);
    let h = 64;
    put(&mut e, h, 1, 4);
    put(&mut e, h + 4, 5, 4);
    put(&mut e, h + 8, 0x100, 8);
    put(&mut e, h + 16, 0x400000, 8);
    put(&mut e, h + 32, 0x120, 8);
    put(&mut e, h + 40, 0x2000, 8);
    put(&mut e, h + 48, 0x1000, 8);
    let n = 64 + 56;
    put(&mut e, n, 4, 4);
    put(&mut e, n + 16, 0x500000, 8);
    e
}

#[test]
fn elf_header_parses() {
    let elf = sample_elf();
    let header = ElfHeader::parse(&elf).unwrap();
    assert_eq!(header.entry_point(), 0x401000);
    assert_eq!(header.n_program_headers(), 2);
    let load = &header.program_headers()[0];
    assert!(load.should_load());
    assert_eq!(load.virt_addr(), 0x400000);
    assert_eq!(load.offset(), 0x100);
    assert_eq!(load.file_size(), 0x120);
    assert_eq!(load.mem_size(), 0x2000);
    assert_eq!(load.align(), 0x1000);
    assert!(!header.program_headers()[1].should_load());
}

#[test]
fn elf_header_errors() {
    let mut elf = sample_elf();
    elf[0] = 0;
    assert_eq!(ElfHeader::parse(&elf).err(), Some(ElfParserError::WrongMagicNumber));
    let mut elf = sample_elf();
    elf[4] = 1;
    assert_eq!(ElfHeader::parse(&elf).err(), Some(ElfParserError::Not64Bit));
    let mut elf = sample_elf();
    elf[5] = 2;
    assert_eq!(ElfHeader::parse(&elf).err(), Some(ElfParserError::NotLittleEndian));
    let mut elf = sample_elf();
    elf[7] = 3;
    assert_eq!(ElfHeader::parse(&elf).err(), Some(ElfParserError::NotUnixCompatible));
    let mut elf = sample_elf();
    elf[16] = 3;
    assert_eq!(ElfHeader::parse(&elf).err(), Some(ElfParserError::NotExecutable));
    let mut elf = sample_elf();
    elf[18] = 0x28;
    assert_eq!(ElfHeader::parse(&elf).err(), Some(ElfParserError::Notx64Compatible));
    let mut elf = sample_elf();
    elf[64] = 9;
    assert_eq!(ElfHeader::parse(&elf).err(), Some(ElfParserError::UnknownProgramType));
}

#[test]
fn program_types() {
    assert_eq!(ElfProgramType::try_from(1), Ok(ElfProgramType::Load));
    assert_eq!(ElfProgramType::try_from(0x6474e551), Ok(ElfProgramType::GnuStack));
    assert_eq!(ElfProgramType::try_from(5), Err(()));
    let mut raw = [0u8; 56];
    raw[0] = 2;
    let header = ElfProgramHeader::parse(&raw).unwrap();
    assert!(!header.should_load());
}

#[test]
fn executor_plans_loading() {
    let elf = sample_elf();
    let header = ElfHeader::parse(&elf).unwrap();
    let ranges = ProgramExecutor::load_ranges(&header);
    assert_eq!(ranges, vec![PageRange { start: 0x400000, end: 0x402000 }]);
    let copies = ProgramExecutor::segment_copies(&header);
    assert_eq!(
        copies,
        vec![SegmentCopy {
            virt_addr: 0x400000,
            offset: 0x100,
            file_size: 0x120,
            mem_size: 0x2000,
            zero_size: 0x1ee0,
        }]
    );
}

#[test]
fn free_region_first_fit() {
    let heap = 0x2000_0000_0000u64;
    let regions = vec![
        PageRange { start: heap + 0x3000, end: heap + 0x4000 },
        PageRange { start: heap, end: heap + 0x1000 },
    ];
    let r = find_free_mem_region(&regions, heap, 2);
    assert_eq!(r, PageRange { start: heap + 0x1000, end: heap + 0x3000 });
    let r = find_free_mem_region(&regions, heap, 3);
    assert_eq!(r, PageRange { start: heap + 0x4000, end: heap + 0x7000 });
    let r = find_free_mem_region(&Vec::new(), heap, 1);
    assert_eq!(r, PageRange { start: heap, end: heap + 0x1000 });
}

#[test]
fn thread_stack_layout() {
    let layout = init_stack(0x10000, 0x400000, 0x401234, &["ab", "cde"], true);
    assert_eq!(layout.strings, vec![0xfffb, 0xfffd]);
    assert_eq!(layout.arguments, 0xffd0);
    assert_eq!(layout.argument_words, vec![0xfffb, 2, 0xfffd, 3]);
    assert_eq!(layout.trampoline, 0xffc8);
    assert_eq!(layout.trampoline_word, 0x401234);
    assert_eq!(layout.frame, 0xffa0);
    assert_eq!(layout.frame_words, vec![0x400000, 0x23, 0x202, 0xffc8, 0x1b]);
    assert_eq!(layout.context, 0xff28);
    let mut expected = vec![0u64; 15];
    expected[10] = 0xffd0;
    expected[11] = 2;
    assert_eq!(layout.context_words, expected);

    let kernel = init_stack(0x8000, 0x1234, 0x5678, &[], false);
    assert_eq!(kernel.arguments, 0x8000);
    assert_eq!(kernel.frame_words, vec![0x1234, 0x8, 0x202, 0x7ff8, 0x10]);
    assert_eq!(kernel.context_words[11], 0);
    let forked = init_forked_stack(0x9000, 7, &[1, 2, 3, 4, 5, 6]);
    assert_eq!(forked.context, 0x9000 - 120);
    assert_eq!(
        forked.writes,
        vec![
            (0x9000 - 120, 1),
            (0x9000 - 112, 2),
            (0x9000 - 104, 3),
            (0x9000 - 96, 4),
            (0x9000 - 88, 5),
            (0x9000 - 80, 6),
            (0x9000 - 8, 7),
        ]
    );
    assert!(forked_stack_fits(0x9000));
    assert!(!forked_stack_fits(100));
    assert!(!forked_stack_fits(0x8000_0000_1000));
}

#[test]
fn threads_array_round_robin() {
    let id = |pid, thread_id| ThreadId { pid, thread_id };
    let mut threads: ThreadsArray<&str> = ThreadsArray::new();
    assert_eq!(threads.add(id(1, 0), "a"), Some(()));
    assert_eq!(threads.add(id(2, 0), "b"), Some(()));
    assert_eq!(threads.add(id(1, 1), "c"), Some(()));
    let mut cursor = 0u32;
    assert_eq!(threads.pick(&mut cursor), 0);
    assert_eq!(cursor, 1);
    assert_eq!(threads.pick(&mut cursor), 1);
    assert_eq!(threads.pick(&mut cursor), 2);
    assert_eq!(cursor, 3);
    threads.make_available(1);
    assert_eq!(threads.pick(&mut cursor), 1);
    assert_eq!(cursor, 2);
    threads.make_available(0);
    assert_eq!(threads.pick(&mut cursor), 0);
    assert_eq!(threads.get(2), Some(&"c"));
    assert_eq!(threads.get(5), None);
    threads.kill(|t| t.pid == 1);
    assert!(threads.should_die(0));
    assert!(!threads.should_die(1));
    assert!(threads.should_die(2));
    assert_eq!(threads.remove(1), "b");
    assert_eq!(threads.get(1), None);
    assert_eq!(threads.add(id(3, 0), "d"), Some(()));
    assert_eq!(threads.get(1), Some(&"d"));
}

#[test]
fn threads_array_full() {
    let mut threads: ThreadsArray<u32> = ThreadsArray::new();
    for i in 0..128u32 {
        assert_eq!(threads.add(ThreadId { pid: 0, thread_id: i as u64 }, i), Some(()));
    }
    assert_eq!(threads.add(ThreadId { pid: 0, thread_id: 128 }, 128), None);
}

#[test]
fn free_region_defined_checks_inputs() {
    let heap = 0x2000_0000_0000u64;
    let regions = vec![PageRange { start: heap, end: heap + 0x1000 }];
    assert!(free_mem_region_defined(&regions, heap, 2));
    assert!(!free_mem_region_defined(&regions, heap + 1, 2));
    assert!(!free_mem_region_defined(&regions, heap, u64::MAX));
    let top = 0x7fff_ffff_f000u64;
    assert!(!free_mem_region_defined(&Vec::new(), top, 2));
    assert!(free_mem_region_defined(&Vec::new(), top - 0x2000, 2));
}

#[test]
fn stack_fits_checks_room() {
    assert!(stack_fits_args(0x10000, &["ab", "cde"]));
    assert!(!stack_fits_args(0x10, &["ab"]));
    assert!(!stack_fits_args(0x10000, &["a"; 33]));
    assert!(!stack_fits_args(0xffff_8000_0000_0010, &["ab"]));
    assert!(stack_fits_args(0xffff_8000_0000_1000, &["ab"]));
}

#[test]
fn load_ranges_defined_checks_segments() {
    let elf = sample_elf();
    let header = ElfHeader::parse(&elf).unwrap();
    assert!(ProgramExecutor::load_ranges_defined(&header));
    let mut wide = sample_elf();
    put(&mut wide, 64 + 48, 0x2000, 8);
    let header = ElfHeader::parse(&wide).unwrap();
    assert!(!ProgramExecutor::load_ranges_defined(&header));
    let mut odd = sample_elf();
    put(&mut odd, 64 + 16, 0x400800, 8);
    let header = ElfHeader::parse(&odd).unwrap();
    assert!(!ProgramExecutor::load_ranges_defined(&header));
}

#[test]
fn parse_defined_checks_the_file() {
    let elf = sample_elf();
    assert!(ElfHeader::parse_is_defined(&elf));
    assert!(ElfHeader::parse_is_defined(&[0u8; 4]));
    assert!(!ElfHeader::parse_is_defined(&[0x7f, b'E', b'L', b'F']));
    assert!(!ElfHeader::parse_is_defined(&elf[..100]));
    let mut odd = sample_elf();
    put(&mut odd, 64 + 16, 0x8000_0000_0000, 8);
    assert!(!ElfHeader::parse_is_defined(&odd));
    let mut unknown = sample_elf();
    put(&mut unknown, 64, 5, 4);
    assert!(ElfHeader::parse_is_defined(&unknown[..120]));
}

#[test]
fn usable_frames_in_order() {
    let regions = [
        PhysRegion { start: 0x0, end: 0x2000, usable: false },
        PhysRegion { start: 0x2000, end: 0x4800, usable: true },
        PhysRegion { start: 0x10000, end: 0x11000, usable: true },
    ];
    assert_eq!(usable_frame(&regions, 0), Some(0x2000));
    assert_eq!(usable_frame(&regions, 1), Some(0x3000));
    assert_eq!(usable_frame(&regions, 2), Some(0x4000));
    assert_eq!(usable_frame(&regions, 3), Some(0x10000));
    assert_eq!(usable_frame(&regions, 4), None);
    assert_eq!(usable_frame(&[], 0), None);
}
