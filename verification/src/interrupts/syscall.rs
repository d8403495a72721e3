//! System calls: their numbers and the output call.
use vstd::prelude::*;

use crate::out::vga::{_print, printed, ForegroundColor, Writer};
use vstd::string::StringSliceAdditionalSpecFns;

verus! {

/// A system call, by the number a program passes in `r8`.
#[derive(Debug, Clone, Copy, PartialEq, Eq, Structural)]
pub enum SyscallNumber {
    Out,
    Fork,
    Exec,
    Exit,
}

impl SyscallNumber {
    /// The call's number.
    pub open spec fn spec_value(self) -> u64 {
        match self {
            SyscallNumber::Out => 1,
            SyscallNumber::Fork => 2,
            SyscallNumber::Exec => 3,
            SyscallNumber::Exit => 4,
        }
    }

    /// The call's number.
    pub fn value(self) -> (r: u64)
        ensures
            r == self.spec_value(),
    {
        match self {
            SyscallNumber::Out => 1,
            SyscallNumber::Fork => 2,
            SyscallNumber::Exec => 3,
            SyscallNumber::Exit => 4,
        }
    }

    /// The call of number `value`, if there is one.
    pub fn from_value(value: u64) -> (r: Option<Self>)
        ensures
            r is Some <==> 1 <= value <= 4,
            r matches Some(s) ==> s.spec_value() == value,
    {
        match value {
            1 => Some(SyscallNumber::Out),
            2 => Some(SyscallNumber::Fork),
            3 => Some(SyscallNumber::Exec),
            4 => Some(SyscallNumber::Exit),
            _ => None,
        }
    }
}

/// The output call: prints `string` in white and answers 0, or answers -1
/// when the program's bytes were not a string.
pub fn out_handler(writer: &mut Writer, string: Option<&str>) -> (r: i64)
    requires
        old(writer).wf(),
    ensures
        final(writer).wf(),
        string is None ==> r == -1 && final(writer)@ == old(writer)@,
        string matches Some(s) ==> r == 0 && printed(
            old(writer)@,
            final(writer)@,
            s.spec_bytes(),
            ForegroundColor::White,
        ),
{
    match string {
        Some(string) => {
            _print(writer, string, ForegroundColor::White);
            0
        },
        None => -1,
    }
}

} // verus!
