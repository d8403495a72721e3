//! Threads: their ids and the layout of a new thread's stack.
use vstd::prelude::*;

use crate::memory::{canonical, is_canonical, PAGE_SIZE};
use vstd::string::StringSliceAdditionalSpecFns;

verus! {

/// Size of a thread's stack.
pub const STACK_SIZE: u64 = 3 * PAGE_SIZE;

/// Where the stack of a user process's main thread starts.
pub const USER_STACK_START: u64 = 0xffff_9000_0000_0000;

/// The most arguments a thread starts with.
pub const MAX_ARGS: usize = 32;

/// The registers saved on a thread's stack: r15, r14, r13, r12, rbp, rbx,
/// r11, r10, r9, r8, rdi, rsi, rdx, rcx, rax, in that order from the lowest
/// address.
pub const CONTEXT_WORDS: usize = 15;

/// The words of an exception frame: instruction pointer, code segment, CPU
/// flags, stack pointer, stack segment.
pub const FRAME_WORDS: usize = 5;

/// The position of `rdi` among the saved registers.
pub const RDI_SLOT: usize = 10;

/// The position of `rsi` among the saved registers.
pub const RSI_SLOT: usize = 11;

/// The position of `rax` among the saved registers: the highest.
pub const RAX_SLOT: usize = 14;

/// The CPU flags a thread starts with: interrupts enabled.
pub const START_FLAGS: u64 = 0x202;

/// A thread: the process it belongs to and its number in that process.
#[derive(Debug, Clone, Copy, PartialEq, Eq, Structural, PartialOrd, Ord)]
pub struct ThreadId {
    pub pid: u64,
    pub thread_id: u64,
}

/// Where a new thread's stack holds what it starts with, from the top down:
/// the bytes of each argument; after aligning down to 16 bytes, the
/// arguments as (address, length) pairs; the return address to the
/// trampoline; an exception frame; the saved registers. The thread starts
/// with its stack pointer at the saved registers.
pub struct StackLayout {
    /// Where the bytes of each argument go.
    pub strings: Vec<u64>,
    /// Where the (address, length) pairs start: the first argument of the
    /// thread's entry point.
    pub arguments: u64,
    /// The words of the (address, length) pairs, from `arguments` up.
    pub argument_words: Vec<u64>,
    /// Where the return address to the trampoline goes.
    pub trampoline: u64,
    /// The return address written there: the trampoline's address, where the
    /// entry point returns to.
    pub trampoline_word: u64,
    /// Where the exception frame goes.
    pub frame: u64,
    /// The words of the exception frame, from `frame` up.
    pub frame_words: Vec<u64>,
    /// Where the saved registers go: the thread's stack pointer.
    pub context: u64,
    /// The saved registers, from `context` up.
    pub context_words: Vec<u64>,
}

/// The bytes that arguments `i` and after take.
pub open spec fn bytes_from(args: Seq<&str>, i: int) -> nat
    decreases args.len() - i,
{
    if i < 0 || i >= args.len() {
        0
    } else {
        args[i].spec_bytes().len() + bytes_from(args, i + 1)
    }
}

/// `x` rounded down to a multiple of 16.
pub open spec fn align_down_16(x: int) -> int {
    x - x % 16
}

/// Where the (address, length) pairs start.
pub open spec fn arguments_at(stack_end: u64, args: Seq<&str>) -> int {
    align_down_16(stack_end - bytes_from(args, 0)) - 16 * args.len()
}

/// Where the saved registers start: the lowest address of the stack that a
/// thread starts with.
pub open spec fn context_at(stack_end: u64, args: Seq<&str>) -> int {
    arguments_at(stack_end, args) - 8 * (1 + FRAME_WORDS + CONTEXT_WORDS)
}

/// The stack has room for everything the thread starts with, and every
/// address from its lowest to `stack_end` is canonical (they lie in the same
/// half of the address space).
pub open spec fn stack_fits(stack_end: u64, args: Seq<&str>) -> bool {
    &&& bytes_from(args, 0) <= stack_end
    &&& context_at(stack_end, args) >= 0
    &&& (stack_end < 0x0000_8000_0000_0000 || context_at(stack_end, args) >= 0xffff_8000_0000_0000)
}

proof fn lemma_bytes_from(args: Seq<&str>, i: int)
    requires
        0 <= i <= args.len(),
    ensures
        bytes_from(args, i) <= bytes_from(args, 0),
    decreases i,
{
    if i > 0 {
        lemma_bytes_from(args, i - 1);
    }
}

/// Whether `init_stack` can lay out a stack ending at `stack_end` for the
/// arguments `args`: there are at most `MAX_ARGS` of them and they fit, as
/// `stack_fits` says.
pub fn stack_fits_args(stack_end: u64, args: &[&str]) -> (b: bool)
    ensures
        b == (args@.len() <= MAX_ARGS && stack_fits(stack_end, args@)),
{
    let n = args.len();
    if n > MAX_ARGS {
        return false;
    }
    let mut total: u64 = 0;
    let mut i: usize = n;
    while i > 0
        invariant
            n == args@.len(),
            n <= MAX_ARGS,
            i <= n,
            total == bytes_from(args@, i as int),
            total <= stack_end,
        decreases i,
    {
        i = i - 1;
        let len = args[i].as_bytes().len();
        proof {
            assert(bytes_from(args@, i as int) == len + bytes_from(args@, i + 1));
        }
        if len as u64 > stack_end - total {
            proof {
                lemma_bytes_from(args@, i as int);
            }
            return false;
        }
        total = total + len as u64;
    }
    let rsp = stack_end - total;
    let aligned = rsp - rsp % 16;
    let below: u64 = 16 * (n as u64) + 8 * (1 + FRAME_WORDS + CONTEXT_WORDS) as u64;
    if aligned < below {
        return false;
    }
    let context = aligned - below;
    stack_end < 0x0000_8000_0000_0000 || context >= 0xffff_8000_0000_0000
}

/// Lays out the stack of a new thread whose stack ends at `stack_end`, which
/// starts at `entry_point` with the arguments `args`, in user or kernel mode,
/// and returns from its entry point to `return_address`.
pub fn init_stack(
    stack_end: u64,
    entry_point: u64,
    return_address: u64,
    args: &[&str],
    user: bool,
) -> (r: StackLayout)
    requires
        args@.len() <= MAX_ARGS,
        stack_fits(stack_end, args@),
    ensures
        r.strings@.len() == args@.len(),
        forall|i: int|
            0 <= i < args@.len() ==> #[trigger] r.strings@[i] == stack_end - bytes_from(args@, i),
        r.arguments == arguments_at(stack_end, args@),
        r.argument_words@.len() == 2 * args@.len(),
        forall|i: int|
            0 <= i < args@.len() ==> #[trigger] r.argument_words@[2 * i] == r.strings@[i]
                && r.argument_words@[2 * i + 1] == args@[i].spec_bytes().len(),
        r.trampoline == r.arguments - 8,
        r.trampoline_word == return_address,
        r.frame == r.trampoline - 8 * FRAME_WORDS,
        r.frame_words@ == seq![
            entry_point,
            if user { 0x23u64 } else { 0x8u64 },
            START_FLAGS,
            r.trampoline,
            if user { 0x1bu64 } else { 0x10u64 },
        ],
        r.context == r.frame - 8 * CONTEXT_WORDS,
        r.context_words@ == Seq::new(
            CONTEXT_WORDS as nat,
            |k: int|
                if k == RDI_SLOT {
                    r.arguments
                } else if k == RSI_SLOT {
                    args@.len() as u64
                } else {
                    0u64
                },
        ),
{
    let n = args.len();
    let mut rsp: u64 = stack_end;
    let mut strings: Vec<u64> = Vec::new();
    let mut i: usize = 0;
    while i < n
        invariant
            n == args@.len(),
            n <= MAX_ARGS,
            stack_fits(stack_end, args@),
            i <= n,
            strings@.len() == i,
            forall|k: int| 0 <= k < i ==> #[trigger] strings@[k] == 0,
        decreases n - i,
    {
        strings.push(0);
        i = i + 1;
    }
    // The bytes of each argument, the last one highest.
    let mut i: usize = n;
    while i > 0
        invariant
            n == args@.len(),
            n <= MAX_ARGS,
            stack_fits(stack_end, args@),
            i <= n,
            strings@.len() == n,
            rsp == stack_end - bytes_from(args@, i as int),
            forall|k: int|
                i <= k < n ==> #[trigger] strings@[k] == stack_end - bytes_from(args@, k),
        decreases i,
    {
        i = i - 1;
        let len = args[i].as_bytes().len();
        proof {
            lemma_bytes_from(args@, i as int);
            assert(bytes_from(args@, i as int) == len + bytes_from(args@, i + 1));
        }
        rsp = rsp - len as u64;
        strings.set(i, rsp);
    }
    // The (address, length) pairs, the first one lowest.
    let aligned = rsp - rsp % 16;
    let arguments = aligned - 16 * (n as u64);
    let mut argument_words: Vec<u64> = Vec::new();
    let mut i: usize = 0;
    while i < n
        invariant
            n == args@.len(),
            n <= MAX_ARGS,
            strings@.len() == n,
            i <= n,
            argument_words@.len() == 2 * i,
            forall|k: int|
                0 <= k < i ==> #[trigger] argument_words@[2 * k] == strings@[k]
                    && argument_words@[2 * k + 1] == args@[k].spec_bytes().len(),
        decreases n - i,
    {
        let ghost before = argument_words@;
        argument_words.push(strings[i]);
        argument_words.push(args[i].as_bytes().len() as u64);
        proof {
            assert forall|k: int| 0 <= k < i + 1 implies #[trigger] argument_words@[2 * k]
                == strings@[k] && argument_words@[2 * k + 1] == args@[k].spec_bytes().len() by {
                if k < i {
                    assert(argument_words@[2 * k] == before[2 * k]);
                    assert(argument_words@[2 * k + 1] == before[2 * k + 1]);
                }
            }
        }
        i = i + 1;
    }
    let trampoline = arguments - 8;
    let frame = trampoline - 8 * (FRAME_WORDS as u64);
    let context = frame - 8 * (CONTEXT_WORDS as u64);
    let frame_words: Vec<u64> = vec![
        entry_point,
        if user { 0x23 } else { 0x8 },
        START_FLAGS,
        trampoline,
        if user { 0x1b } else { 0x10 },
    ];
    let mut context_words: Vec<u64> = Vec::new();
    let mut k: usize = 0;
    while k < CONTEXT_WORDS
        invariant
            k <= CONTEXT_WORDS,
            context_words@ == Seq::new(
                k as nat,
                |j: int|
                    if j == RDI_SLOT {
                        arguments
                    } else if j == RSI_SLOT {
                        n as u64
                    } else {
                        0u64
                    },
            ),
        decreases CONTEXT_WORDS - k,
    {
        let word = if k == RDI_SLOT {
            arguments
        } else if k == RSI_SLOT {
            n as u64
        } else {
            0
        };
        context_words.push(word);
        k = k + 1;
    }
    StackLayout {
        strings,
        arguments,
        argument_words,
        trampoline,
        trampoline_word: return_address,
        frame,
        frame_words,
        context,
        context_words,
    }
}

/// The number of callee-saved registers: r15, r14, r13, r12, rbp, rbx.
pub const CALLEE_SAVED_WORDS: usize = 6;

/// The saved registers of a forked thread: its stack pointer, and the words
/// written below the stack it was forked at, as (address, word) pairs.
pub struct ForkedStack {
    /// The thread's stack pointer: the lowest saved register.
    pub context: u64,
    /// The callee-saved registers at the bottom of the saved registers, r15
    /// lowest, then `rax` at its slot; the scratch registers are left as
    /// they are.
    pub writes: Vec<(u64, u64)>,
}

/// The saved registers of a forked thread whose stack is at `stack_pointer`:
/// the callee-saved registers `callee_saved` (r15, r14, r13, r12, rbp, rbx, in
/// that order) at the bottom and `rax`, the value the thread sees returned,
/// at slot `RAX_SLOT`, the highest.
pub fn init_forked_stack(stack_pointer: u64, rax: u64, callee_saved: &[u64; 6]) -> (r: ForkedStack)
    requires
        stack_pointer >= 8 * CONTEXT_WORDS,
        is_canonical((stack_pointer - 8 * CONTEXT_WORDS) as u64),
    ensures
        r.context == stack_pointer - 8 * CONTEXT_WORDS,
        r.context + 8 * RAX_SLOT == stack_pointer - 8,
        r.writes@.len() == CALLEE_SAVED_WORDS + 1,
        forall|i: int|
            0 <= i < CALLEE_SAVED_WORDS ==> #[trigger] r.writes@[i] == (
                (r.context + 8 * i) as u64,
                callee_saved@[i],
            ),
        r.writes@[CALLEE_SAVED_WORDS as int] == ((stack_pointer - 8) as u64, rax),
{
    let context = stack_pointer - 8 * (CONTEXT_WORDS as u64);
    let mut writes: Vec<(u64, u64)> = Vec::new();
    let mut i: usize = 0;
    while i < CALLEE_SAVED_WORDS
        invariant
            context == stack_pointer - 8 * CONTEXT_WORDS,
            stack_pointer >= 8 * CONTEXT_WORDS,
            i <= CALLEE_SAVED_WORDS,
            writes@.len() == i,
            forall|j: int|
                0 <= j < i ==> #[trigger] writes@[j] == ((context + 8 * j) as u64, callee_saved@[j]),
        decreases CALLEE_SAVED_WORDS - i,
    {
        writes.push((context + 8 * (i as u64), callee_saved[i]));
        i = i + 1;
    }
    writes.push((stack_pointer - 8, rax));
    ForkedStack { context, writes }
}

/// Whether `init_forked_stack` can place the saved registers below
/// `stack_pointer`: there is room for them and the lowest is canonical.
pub fn forked_stack_fits(stack_pointer: u64) -> (b: bool)
    ensures
        b == (stack_pointer >= 8 * CONTEXT_WORDS && is_canonical(
            (stack_pointer - 8 * CONTEXT_WORDS) as u64,
        )),
{
    stack_pointer >= 8 * (CONTEXT_WORDS as u64) && canonical(
        stack_pointer - 8 * (CONTEXT_WORDS as u64),
    )
}

} // verus!
