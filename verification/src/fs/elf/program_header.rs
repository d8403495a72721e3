use vstd::prelude::*;

use crate::bytes::{le_at, read_le};
use crate::fs::elf::error::ElfParserError;
use crate::memory::is_canonical;

verus! {

/// Size of one program header.
pub const ELF_PROGRAM_HEADER_SIZE: usize = 0x38;

/// The type of a program header (segment).
#[derive(Debug, Clone, Copy, PartialEq, Eq, Structural)]
pub enum ElfProgramType {
    Load,
    Dynamic,
    InterpretorPath,
    Note,
    ProgramHeaderTable,
    ThreadLocalStorage,
    GnuExceptionHandlingFrame,
    GnuStack,
    GnuRelocationReadonly,
}

/// The program type with the number `value` in the ELF format.
pub open spec fn program_type_of(value: nat) -> Option<ElfProgramType> {
    if value == 1 {
        Some(ElfProgramType::Load)
    } else if value == 2 {
        Some(ElfProgramType::Dynamic)
    } else if value == 3 {
        Some(ElfProgramType::InterpretorPath)
    } else if value == 4 {
        Some(ElfProgramType::Note)
    } else if value == 6 {
        Some(ElfProgramType::ProgramHeaderTable)
    } else if value == 7 {
        Some(ElfProgramType::ThreadLocalStorage)
    } else if value == 0x6474e550 {
        Some(ElfProgramType::GnuExceptionHandlingFrame)
    } else if value == 0x6474e551 {
        Some(ElfProgramType::GnuStack)
    } else if value == 0x6474e552 {
        Some(ElfProgramType::GnuRelocationReadonly)
    } else {
        None
    }
}

impl ElfProgramType {
    /// The program type with the number `value`, or an error for a number
    /// that the ELF format does not assign.
    pub fn try_from(value: u32) -> (r: Result<Self, ()>)
        ensures
            r == (match program_type_of(value as nat) {
                Some(t) => Ok::<ElfProgramType, ()>(t),
                None => Err(()),
            }),
    {
        match value {
            1 => Ok(ElfProgramType::Load),
            2 => Ok(ElfProgramType::Dynamic),
            3 => Ok(ElfProgramType::InterpretorPath),
            4 => Ok(ElfProgramType::Note),
            6 => Ok(ElfProgramType::ProgramHeaderTable),
            7 => Ok(ElfProgramType::ThreadLocalStorage),
            0x6474e550 => Ok(ElfProgramType::GnuExceptionHandlingFrame),
            0x6474e551 => Ok(ElfProgramType::GnuStack),
            0x6474e552 => Ok(ElfProgramType::GnuRelocationReadonly),
            _ => Err(()),
        }
    }
}

/// A program header: where a segment lies in the file and in memory.
#[derive(Debug)]
pub struct ElfProgramHeader {
    type_: ElfProgramType,
    flags: u32,
    offset: u64,
    vaddr: u64,
    file_size: u64,
    mem_size: u64,
    align: u64,
}

/// The program header of type `t` read from the 56 bytes of `c` at `at`.
pub closed spec fn program_header_at(c: Seq<u8>, at: int, t: ElfProgramType) -> ElfProgramHeader {
    ElfProgramHeader {
        type_: t,
        flags: le_at(c, at + 4, 4) as u32,
        offset: le_at(c, at + 8, 8) as u64,
        vaddr: le_at(c, at + 16, 8) as u64,
        file_size: le_at(c, at + 32, 8) as u64,
        mem_size: le_at(c, at + 40, 8) as u64,
        align: le_at(c, at + 48, 8) as u64,
    }
}

/// The program type number of the program header at `at`.
pub open spec fn program_type_number(c: Seq<u8>, at: int) -> nat {
    le_at(c, at, 4)
}

/// Reading the program header at `at` does not stop on a non-canonical
/// segment address: the type is unknown (an error comes first) or the
/// address is canonical.
pub open spec fn program_header_readable(c: Seq<u8>, at: int) -> bool {
    program_type_of(program_type_number(c, at)) is Some ==> is_canonical(
        le_at(c, at + 16, 8) as u64,
    )
}

impl ElfProgramHeader {
    pub closed spec fn spec_type(&self) -> ElfProgramType {
        self.type_
    }

    pub closed spec fn spec_flags(&self) -> u32 {
        self.flags
    }

    pub closed spec fn spec_offset(&self) -> u64 {
        self.offset
    }

    pub closed spec fn spec_vaddr(&self) -> u64 {
        self.vaddr
    }

    pub closed spec fn spec_file_size(&self) -> u64 {
        self.file_size
    }

    pub closed spec fn spec_mem_size(&self) -> u64 {
        self.mem_size
    }

    pub closed spec fn spec_align(&self) -> u64 {
        self.align
    }

    /// The fields of a program header read from bytes: type at 0, flags at 4,
    /// file offset at 8, virtual address at 16, file size at 32, memory size
    /// at 40 and alignment at 48, all little-endian.
    pub proof fn lemma_program_header_at(c: Seq<u8>, at: int, t: ElfProgramType)
        ensures
            ({
                let h = program_header_at(c, at, t);
                &&& h.spec_type() == t
                &&& h.spec_flags() == le_at(c, at + 4, 4) as u32
                &&& h.spec_offset() == le_at(c, at + 8, 8) as u64
                &&& h.spec_vaddr() == le_at(c, at + 16, 8) as u64
                &&& h.spec_file_size() == le_at(c, at + 32, 8) as u64
                &&& h.spec_mem_size() == le_at(c, at + 40, 8) as u64
                &&& h.spec_align() == le_at(c, at + 48, 8) as u64
            }),
    {
    }

    /// Parses the program header in the 56 bytes of `content` at `at`.
    pub fn parse_at(content: &[u8], at: usize) -> (r: Result<Self, ElfParserError>)
        requires
            at + ELF_PROGRAM_HEADER_SIZE <= content@.len(),
            program_header_readable(content@, at as int),
        ensures
            r == (match program_type_of(program_type_number(content@, at as int)) {
                Some(t) => Ok::<ElfProgramHeader, ElfParserError>(
                    program_header_at(content@, at as int, t),
                ),
                None => Err(ElfParserError::UnknownProgramType),
            }),
    {
        let len = content.len();
        proof {
            crate::bytes::lemma_le_bound(content@.subrange(at as int, at + 4));
            crate::bytes::lemma_le_bound(content@.subrange(at + 4, at + 8));
            crate::bits::lemma_exp2_64();
        }
        let type_ = match ElfProgramType::try_from(read_le(content, at, 4) as u32) {
            Ok(t) => t,
            Err(_) => {
                return Err(ElfParserError::UnknownProgramType);
            },
        };
        Ok(ElfProgramHeader {
            type_,
            flags: read_le(content, at + 4, 4) as u32,
            offset: read_le(content, at + 8, 8),
            vaddr: read_le(content, at + 16, 8),
            file_size: read_le(content, at + 32, 8),
            mem_size: read_le(content, at + 40, 8),
            align: read_le(content, at + 48, 8),
        })
    }

    /// Parses a program header.
    pub fn parse(header: &[u8; ELF_PROGRAM_HEADER_SIZE]) -> (r: Result<Self, ElfParserError>)
        requires
            program_header_readable(header@, 0),
        ensures
            r == (match program_type_of(program_type_number(header@, 0)) {
                Some(t) => Ok::<ElfProgramHeader, ElfParserError>(
                    program_header_at(header@, 0, t),
                ),
                None => Err(ElfParserError::UnknownProgramType),
            }),
    {
        Self::parse_at(header, 0)
    }

    /// Whether the segment is loaded into memory.
    pub fn should_load(&self) -> (r: bool)
        ensures
            r == (self.spec_type() == ElfProgramType::Load),
    {
        self.type_ == ElfProgramType::Load
    }

    pub fn virt_addr(&self) -> (r: u64)
        ensures
            r == self.spec_vaddr(),
    {
        self.vaddr
    }

    pub fn mem_size(&self) -> (r: u64)
        ensures
            r == self.spec_mem_size(),
    {
        self.mem_size
    }

    pub fn align(&self) -> (r: u64)
        ensures
            r == self.spec_align(),
    {
        self.align
    }

    pub fn offset(&self) -> (r: u64)
        ensures
            r == self.spec_offset(),
    {
        self.offset
    }

    pub fn file_size(&self) -> (r: u64)
        ensures
            r == self.spec_file_size(),
    {
        self.file_size
    }
}

} // verus!
