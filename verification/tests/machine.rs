use bazos::asynchronous::task::TaskId;
use bazos::fs::path::Path;
use bazos::gdt::tss::{Stack, TaskStateSegment, STACK_SIZE, TSS_SIZE};
use bazos::interrupts::faults::{GeneralFaultErrorCode, PageFaultErrorCode};
use bazos::interrupts::syscall::{out_handler, SyscallNumber};
use bazos::io::configuration_access::{cam_address, cam_offset, Cam};
use bazos::memory::memory_mapper::{pages_to_map, pages_to_map_defined};
use bazos::out::vga::{Writer, BUFFER_HEIGHT};
use bazos::utils::debug::DebugHex;

#[test]
fn split_parts_join_back() {
    for path in ["a/b", "/x/y/", "", "//", "name"] {
        assert_eq!(Path::new(path).split().join("/"), path);
    }
}

#[test]
fn syscall_numbers() {
    assert_eq!(SyscallNumber::from_value(1), Some(SyscallNumber::Out));
    assert_eq!(SyscallNumber::from_value(4), Some(SyscallNumber::Exit));
    assert_eq!(SyscallNumber::from_value(0), None);
    assert_eq!(SyscallNumber::from_value(5), None);
    for n in [SyscallNumber::Out, SyscallNumber::Fork, SyscallNumber::Exec, SyscallNumber::Exit] {
        assert_eq!(SyscallNumber::from_value(n.value()), Some(n));
    }
}

#[test]
fn out_call_prints_or_fails() {
    let mut writer = Writer::vga();
    assert_eq!(out_handler(&mut writer, None), -1);
    assert_eq!(writer.read(BUFFER_HEIGHT - 1, 0).ascii_character, b' ');
    assert_eq!(out_handler(&mut writer, Some("hi")), 0);
    assert_eq!(writer.read(BUFFER_HEIGHT - 1, 0).ascii_character, b'h');
    assert_eq!(writer.read(BUFFER_HEIGHT - 1, 1).ascii_character, b'i');
}

#[test]
fn page_fault_codes() {
    assert!(PageFaultErrorCode::from_u64(0x20).is_none());
    let code = PageFaultErrorCode::from_u64(0b00110).unwrap();
    assert_eq!(code.describe(), "NOT MAPPED, WRITE, USER, ");
    let code = PageFaultErrorCode::from_u64(0b11001).unwrap();
    assert_eq!(code.describe(), "READ, KERNEL, MALFORMED TABLEINSTRUCTION FETCH");
}

#[test]
fn general_fault_codes() {
    let code = GeneralFaultErrorCode::from_u64(0x1_0000_002b);
    assert_eq!(code.index(), 5);
    assert!(code.table());
    assert!(code.external());
    let code = GeneralFaultErrorCode::from_u64(0x10);
    assert_eq!(code.index(), 2);
    assert!(!code.table());
    assert!(!code.external());
    assert_eq!(code.describe(), "Selector index: 2, GDT, INTERNAL");
    let code = GeneralFaultErrorCode::from_u64(0x1_0000_002b);
    assert_eq!(code.describe(), "Selector index: 5, LDT, EXTERNAL");
    let code = GeneralFaultErrorCode::from_u64(0xffff_ffff);
    assert_eq!(code.describe(), "Selector index: 536870911, LDT, EXTERNAL");
}

#[test]
fn task_state_segment_stacks() {
    let mut tss = TaskStateSegment::new();
    assert_eq!(tss.io_map_base_address(), TSS_SIZE);
    assert_eq!(tss.interrupt_stack(0), 0);
    tss.set_stack(0, 0x1000);
    assert_eq!(tss.interrupt_stack(0), 0x1000 + STACK_SIZE);
    assert_eq!(tss.interrupt_stack(1), 0);
    tss.set_privilege_stack(0, 0xdead_0000);
    assert_eq!(tss.privilege_stack(0), 0xdead_0000);
    assert_eq!(tss.privilege_stack(2), 0);
    let _stack = Stack::new();
}

#[test]
fn task_ids_count_up() {
    let mut counter = 7u64;
    let a = TaskId::new(&mut counter);
    let b = TaskId::new(&mut counter);
    assert_ne!(a, b);
    assert!(a < b);
    assert_eq!(counter, 9);
    let mut last = u64::MAX;
    let _ = TaskId::new(&mut last);
    assert_eq!(last, 0);
}

#[test]
fn pci_configuration_offsets() {
    assert_eq!(cam_address(Cam::Ecam, 1, 2, 3, 0x10), ((1 << 8 | 2 << 3 | 3) << 12) | 0x10);
    assert_eq!(cam_offset(Cam::Ecam, 0, 1, 0, 4), 0x8004);
    assert_eq!(cam_offset(Cam::MmioCam, 0, 1, 0, 4), 0x804);
    assert_eq!(Cam::Ecam.size(), 0x1000_0000);
}

#[test]
fn pages_of_a_region() {
    assert_eq!(pages_to_map(0x2000_0000_0000, 0x10_0000), (0x2000_0000_0000, 0x2000_000f_f000));
    assert_eq!(pages_to_map(0x1234, 1), (0x1000, 0x1000));
    assert_eq!(pages_to_map(0x1ff0, 0x20), (0x1000, 0x2000));
    assert!(pages_to_map_defined(0x1ff0, 0x20));
    assert!(!pages_to_map_defined(0, 0));
    assert!(!pages_to_map_defined(u64::MAX, 2));
    assert!(!pages_to_map_defined(0x7fff_ffff_f000, 0x2000));
}

#[test]
fn debug_hex_strings() {
    assert_eq!(DebugHex(0u64).to_debug_string(), "0x0");
    assert_eq!(DebugHex(255u64).to_debug_string(), "0xff");
    assert_eq!(DebugHex(0x1234_abcdu64).to_debug_string(), "0x1234abcd");
    assert_eq!(DebugHex(u64::MAX).to_debug_string(), format!("0x{:x}", u64::MAX));
    assert_eq!(*DebugHex(42u64), 42);
}
