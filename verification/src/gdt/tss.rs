//! The task state segment: the stacks the CPU switches to on a privilege
//! change or for an interrupt.
use vstd::prelude::*;

verus! {

/// Size of an interrupt stack.
pub const STACK_SIZE: u64 = 4096 * 5;

/// Size of the task state segment in memory.
pub const TSS_SIZE: u16 = 104;

/// A stack for an interrupt handler.
pub struct Stack([u8; 20480]);

impl Stack {
    /// The stack's bytes.
    pub closed spec fn bytes(&self) -> Seq<u8> {
        self.0@
    }

    /// A stack of `STACK_SIZE` zero bytes.
    pub fn new() -> (r: Stack)
        ensures
            r.bytes().len() == STACK_SIZE,
            forall|i: int| 0 <= i < STACK_SIZE ==> #[trigger] r.bytes()[i] == 0,
    {
        Stack([0u8; 20480])
    }
}

/// The task state segment: the stacks of privilege levels 0 to 2 and the 7
/// interrupt stacks, given by the addresses of their ends, and where the I/O
/// permission map starts.
pub struct TaskStateSegment {
    privilege_stack: [u64; 3],
    interrupt_stack_table: [u64; 7],
    io_map_base_address: u16,
}

impl TaskStateSegment {
    pub closed spec fn spec_privilege_stack(&self) -> Seq<u64> {
        self.privilege_stack@
    }

    pub closed spec fn spec_interrupt_stack_table(&self) -> Seq<u64> {
        self.interrupt_stack_table@
    }

    pub closed spec fn spec_io_map_base_address(&self) -> u16 {
        self.io_map_base_address
    }

    /// A segment with no stacks whose I/O permission map starts after it
    /// (that is, there is none).
    pub fn new() -> (r: TaskStateSegment)
        ensures
            r.spec_privilege_stack() == seq![0u64, 0, 0],
            r.spec_interrupt_stack_table() == seq![0u64, 0, 0, 0, 0, 0, 0],
            r.spec_io_map_base_address() == TSS_SIZE,
    {
        let r = TaskStateSegment {
            privilege_stack: [0; 3],
            interrupt_stack_table: [0; 7],
            io_map_base_address: TSS_SIZE,
        };
        assert(r.privilege_stack@ =~= seq![0u64, 0, 0]);
        assert(r.interrupt_stack_table@ =~= seq![0u64, 0, 0, 0, 0, 0, 0]);
        r
    }

    /// Makes interrupt stack `index` the stack that starts at `stack_start`.
    pub fn set_stack(&mut self, index: usize, stack_start: u64)
        requires
            index < 7,
            stack_start + STACK_SIZE <= u64::MAX,
        ensures
            final(self).spec_interrupt_stack_table() == old(self).spec_interrupt_stack_table().update(
                index as int,
                (stack_start + STACK_SIZE) as u64,
            ),
            final(self).spec_privilege_stack() == old(self).spec_privilege_stack(),
            final(self).spec_io_map_base_address() == old(self).spec_io_map_base_address(),
    {
        let stack_end = stack_start + STACK_SIZE;
        self.interrupt_stack_table[index] = stack_end;
    }

    /// Makes the stack of privilege level `index` the one that ends at
    /// `stack_end`.
    pub fn set_privilege_stack(&mut self, index: usize, stack_end: u64)
        requires
            index < 3,
        ensures
            final(self).spec_privilege_stack() == old(self).spec_privilege_stack().update(
                index as int,
                stack_end,
            ),
            final(self).spec_interrupt_stack_table() == old(self).spec_interrupt_stack_table(),
            final(self).spec_io_map_base_address() == old(self).spec_io_map_base_address(),
    {
        self.privilege_stack[index] = stack_end;
    }

    /// The end of the stack of privilege level `index`.
    pub fn privilege_stack(&self, index: usize) -> (r: u64)
        requires
            index < 3,
        ensures
            r == self.spec_privilege_stack()[index as int],
    {
        self.privilege_stack[index]
    }

    /// The end of interrupt stack `index`.
    pub fn interrupt_stack(&self, index: usize) -> (r: u64)
        requires
            index < 7,
        ensures
            r == self.spec_interrupt_stack_table()[index as int],
    {
        self.interrupt_stack_table[index]
    }

    /// Where the I/O permission map starts.
    pub fn io_map_base_address(&self) -> (r: u16)
        ensures
            r == self.spec_io_map_base_address(),
    {
        self.io_map_base_address
    }
}

} // verus!
