use vstd::prelude::*;

use crate::bytes::{le_at, read_le};
use crate::fs::elf::error::ElfParserError;
use crate::fs::elf::program_header::{
    program_header_at, program_header_readable, program_type_number, program_type_of,
    ElfProgramHeader, ElfProgramType, ELF_PROGRAM_HEADER_SIZE,
};
use crate::memory::{canonical, is_canonical};

verus! {

/// Size of the ELF file header.
pub const ELF_HEADER_SIZE: usize = 0x40;

/// The identification checks of an ELF header, in the order they are made:
/// magic number, 64-bit class, little-endian data, System V ABI, executable
/// file type, x86_64 machine. `None` when the file ends before the byte that
/// the next check reads.
pub open spec fn ident_check(c: Seq<u8>) -> Option<Result<(), ElfParserError>> {
    if c.len() < 4 {
        None
    } else if !(c[0] == 0x7f && c[1] == 0x45 && c[2] == 0x4c && c[3] == 0x46) {
        Some(Err(ElfParserError::WrongMagicNumber))
    } else if c.len() < 5 {
        None
    } else if c[4] != 2 {
        Some(Err(ElfParserError::Not64Bit))
    } else if c.len() < 6 {
        None
    } else if c[5] != 1 {
        Some(Err(ElfParserError::NotLittleEndian))
    } else if c.len() < 8 {
        None
    } else if c[7] != 0 {
        Some(Err(ElfParserError::NotUnixCompatible))
    } else if c.len() < 18 {
        None
    } else if !(c[16] == 0x02 && c[17] == 0x00) {
        Some(Err(ElfParserError::NotExecutable))
    } else if c.len() < 20 {
        None
    } else if !(c[18] == 0x3e && c[19] == 0x00) {
        Some(Err(ElfParserError::Notx64Compatible))
    } else {
        Some(Ok(()))
    }
}

/// Where program header `i` starts.
pub open spec fn program_header_offset(i: int) -> int {
    ELF_HEADER_SIZE + ELF_PROGRAM_HEADER_SIZE * i
}

/// The number of program headers (at byte 56, 2 bytes).
pub open spec fn program_header_count(c: Seq<u8>) -> nat {
    le_at(c, 56, 2)
}

/// Program header `i` has a known type.
pub open spec fn program_header_known(c: Seq<u8>, i: int) -> bool {
    program_type_of(program_type_number(c, program_header_offset(i))) is Some
}

/// Every program header before `i` has a known type.
pub open spec fn known_before(c: Seq<u8>, i: int) -> bool {
    forall|j: int| 0 <= j < i ==> #[trigger] program_header_known(c, j)
}

/// The entry point (at byte 24, 8 bytes).
pub open spec fn entry_point_of(c: Seq<u8>) -> u64 {
    le_at(c, 24, 8) as u64
}

/// `parse` reads only bytes that the file holds and meets only canonical
/// addresses before it finishes: the identification checks stay inside the
/// file; and when they pass, the header holds the program header count, each
/// program header that is reached (all before it have a known type) lies in
/// the file with a canonical address if its type is known, and when all types
/// are known the entry point is canonical.
#[verifier::opaque]
pub open spec fn parse_defined(c: Seq<u8>) -> bool {
    &&& ident_check(c) is Some
    &&& ident_check(c) == Some(Ok::<(), ElfParserError>(())) ==> {
        &&& c.len() >= 58
        &&& forall|i: int|
            0 <= i < program_header_count(c) && #[trigger] known_before(c, i) ==> {
                &&& program_header_offset(i) + ELF_PROGRAM_HEADER_SIZE <= c.len()
                &&& program_header_readable(c, program_header_offset(i))
            }
        &&& (forall|i: int|
            0 <= i < program_header_count(c) ==> #[trigger] program_header_known(c, i))
            ==> is_canonical(entry_point_of(c))
    }
}

/// Program header `i` is in the file and readable once all before it have a known type.
proof fn lemma_program_header_readable(c: Seq<u8>, i: int)
    requires
        parse_defined(c),
        ident_check(c) == Some(Ok::<(), ElfParserError>(())),
        0 <= i < program_header_count(c),
        forall|j: int| 0 <= j < i ==> #[trigger] program_header_known(c, j),
    ensures
        program_header_offset(i) + ELF_PROGRAM_HEADER_SIZE <= c.len(),
        program_header_readable(c, program_header_offset(i)),
{
    reveal(parse_defined);
    assert(known_before(c, i));
}

/// An ELF executable's header: its entry point and its program headers.
#[derive(Debug)]
pub struct ElfHeader {
    entry_point: u64,
    program_headers: Vec<ElfProgramHeader>,
}

impl ElfHeader {
    pub closed spec fn spec_entry_point(&self) -> u64 {
        self.entry_point
    }

    pub closed spec fn spec_program_headers(&self) -> Seq<ElfProgramHeader> {
        self.program_headers@
    }

    /// Parses an executable: its identification is checked, then its program
    /// headers are read in order, the first one of unknown type making the
    /// file an error.
    pub fn parse(content: &[u8]) -> (r: Result<Self, ElfParserError>)
        requires
            parse_defined(content@),
        ensures
            match ident_check(content@)->0 {
                Err(e) => r == Err::<ElfHeader, ElfParserError>(e),
                Ok(_) => if exists|i: int|
                    0 <= i < program_header_count(content@) && !#[trigger] program_header_known(
                        content@,
                        i,
                    ) {
                    r == Err::<ElfHeader, ElfParserError>(ElfParserError::UnknownProgramType)
                } else {
                    &&& r is Ok
                    &&& r->Ok_0.spec_entry_point() == entry_point_of(content@)
                    &&& r->Ok_0.spec_program_headers().len() == program_header_count(content@)
                    &&& forall|i: int|
                        #![trigger r->Ok_0.spec_program_headers()[i]]
                        0 <= i < program_header_count(content@) ==> r->Ok_0.spec_program_headers()[i]
                            == program_header_at(
                            content@,
                            program_header_offset(i),
                            program_type_of(
                                program_type_number(content@, program_header_offset(i)),
                            )->0,
                        )
                },
            },
    {
        proof {
            reveal(parse_defined);
        }
        match Self::check_compatibility(content) {
            Err(e) => {
                return Err(e);
            },
            Ok(_) => {},
        }
        let len = content.len();
        proof {
            reveal(parse_defined);
            crate::bytes::lemma_le_bound(content@.subrange(56, 58));
            crate::bits::lemma_exp2_64();
        }
        let n_program_headers = read_le(content, 56, 2);
        let mut program_headers: Vec<ElfProgramHeader> = Vec::new();
        let mut i: u64 = 0;
        while i < n_program_headers
            invariant
                parse_defined(content@),
                ident_check(content@) == Some(Ok::<(), ElfParserError>(())),
                len == content@.len(),
                n_program_headers == program_header_count(content@),
                n_program_headers < 0x10000,
                i <= n_program_headers,
                program_headers@.len() == i,
                forall|j: int| 0 <= j < i ==> #[trigger] program_header_known(content@, j),
                forall|j: int|
                    #![trigger program_headers@[j]]
                    0 <= j < i ==> program_headers@[j] == program_header_at(
                        content@,
                        program_header_offset(j),
                        program_type_of(program_type_number(content@, program_header_offset(j)))->0,
                    ),
            decreases n_program_headers - i,
        {
            let offset = ELF_HEADER_SIZE + ELF_PROGRAM_HEADER_SIZE * (i as usize);
            proof {
                lemma_program_header_readable(content@, i as int);
                assert(offset == program_header_offset(i as int));
            }
            match ElfProgramHeader::parse_at(content, offset) {
                Err(e) => {
                    assert(!program_header_known(content@, i as int));
                    return Err(e);
                },
                Ok(h) => {
                    program_headers.push(h);
                },
            }
            i = i + 1;
        }
        proof {
            crate::bytes::lemma_le_bound(content@.subrange(24, 32));
            crate::bits::lemma_exp2_64();
            reveal(parse_defined);
        }
        let entry_point = read_le(content, 24, 8);
        Ok(ElfHeader { entry_point, program_headers })
    }

    /// The identification checks of `content`, as `ident_check` says.
    fn identification(content: &[u8]) -> (r: Option<Result<(), ElfParserError>>)
        ensures
            r == ident_check(content@),
    {
        let len = content.len();
        if len < 4 {
            return None;
        }
        if !(content[0] == 0x7f && content[1] == 0x45 && content[2] == 0x4c && content[3] == 0x46) {
            return Some(Err(ElfParserError::WrongMagicNumber));
        }
        if len < 5 {
            return None;
        }
        if content[4] != 2 {
            return Some(Err(ElfParserError::Not64Bit));
        }
        if len < 6 {
            return None;
        }
        if content[5] != 1 {
            return Some(Err(ElfParserError::NotLittleEndian));
        }
        if len < 8 {
            return None;
        }
        if content[7] != 0 {
            return Some(Err(ElfParserError::NotUnixCompatible));
        }
        if len < 18 {
            return None;
        }
        if !(content[16] == 0x02 && content[17] == 0x00) {
            return Some(Err(ElfParserError::NotExecutable));
        }
        if len < 20 {
            return None;
        }
        if !(content[18] == 0x3e && content[19] == 0x00) {
            return Some(Err(ElfParserError::Notx64Compatible));
        }
        Some(Ok(()))
    }

    /// Whether `parse` is defined on `content`, as `parse_defined` says: the
    /// file holds every byte that parsing reads, and every address that it
    /// meets before it finishes is canonical.
    pub fn parse_is_defined(content: &[u8]) -> (b: bool)
        ensures
            b == parse_defined(content@),
    {
        proof {
            reveal(parse_defined);
        }
        match Self::identification(content) {
            None => {
                return false;
            },
            Some(Err(_)) => {
                return true;
            },
            Some(Ok(_)) => {},
        }
        let len = content.len();
        if len < 58 {
            return false;
        }
        proof {
            crate::bytes::lemma_le_bound(content@.subrange(56, 58));
            crate::bits::lemma_exp2_64();
        }
        let n_program_headers = read_le(content, 56, 2);
        let mut i: u64 = 0;
        while i < n_program_headers
            invariant
                ident_check(content@) == Some(Ok::<(), ElfParserError>(())),
                len == content@.len(),
                len >= 58,
                n_program_headers == program_header_count(content@),
                n_program_headers < 0x10000,
                i <= n_program_headers,
                forall|j: int|
                    0 <= j < i ==> {
                        &&& #[trigger] program_header_known(content@, j)
                        &&& program_header_offset(j) + ELF_PROGRAM_HEADER_SIZE <= len
                        &&& program_header_readable(content@, program_header_offset(j))
                    },
            decreases n_program_headers - i,
        {
            let offset = ELF_HEADER_SIZE + ELF_PROGRAM_HEADER_SIZE * (i as usize);
            assert(offset == program_header_offset(i as int));
            assert(known_before(content@, i as int));
            if offset + ELF_PROGRAM_HEADER_SIZE > len {
                proof {
                    reveal(parse_defined);
                }
                return false;
            }
            proof {
                crate::bytes::lemma_le_bound(content@.subrange(offset as int, offset + 4));
                crate::bits::lemma_exp2_64();
            }
            let number = read_le(content, offset, 4);
            match ElfProgramType::try_from(number as u32) {
                Err(_) => {
                    assert(!program_header_known(content@, i as int));
                    assert(program_header_readable(content@, offset as int));
                    assert forall|k: int|
                        0 <= k < program_header_count(content@) && #[trigger] known_before(
                            content@,
                            k,
                        ) implies {
                        &&& program_header_offset(k) + ELF_PROGRAM_HEADER_SIZE <= content@.len()
                        &&& program_header_readable(content@, program_header_offset(k))
                    } by {
                        if k > i {
                            assert(program_header_known(content@, i as int));
                        } else if k < i {
                            assert(program_header_known(content@, k));
                        } else {
                            assert(program_header_offset(k) == offset);
                        }
                    }
                    proof {
                        reveal(parse_defined);
                    }
                    return true;
                },
                Ok(_) => {},
            }
            proof {
                crate::bytes::lemma_le_bound(content@.subrange(offset + 16, offset + 24));
            }
            let vaddr = read_le(content, offset + 16, 8);
            if !canonical(vaddr) {
                assert(!program_header_readable(content@, offset as int));
                proof {
                    reveal(parse_defined);
                }
                return false;
            }
            assert(number as u32 as nat == number);
            assert(program_header_known(content@, i as int));
            assert(program_header_readable(content@, offset as int));
            i = i + 1;
        }
        proof {
            crate::bytes::lemma_le_bound(content@.subrange(24, 32));
            crate::bits::lemma_exp2_64();
        }
        let entry_point = read_le(content, 24, 8);
        proof {
            reveal(parse_defined);
            assert forall|k: int|
                0 <= k < program_header_count(content@) && #[trigger] known_before(content@, k)
                    implies {
                &&& program_header_offset(k) + ELF_PROGRAM_HEADER_SIZE <= content@.len()
                &&& program_header_readable(content@, program_header_offset(k))
            } by {
                assert(program_header_known(content@, k));
            }
            assert forall|k: int|
                0 <= k < program_header_count(content@) implies #[trigger] program_header_known(
                content@,
                k,
            ) by {}
        }
        canonical(entry_point)
    }

    /// Checks that the file is a little-endian 64-bit System V executable for
    /// x86_64.
    fn check_compatibility(content: &[u8]) -> (r: Result<(), ElfParserError>)
        requires
            ident_check(content@) is Some,
        ensures
            r == ident_check(content@)->0,
    {
        if !(content[0] == 0x7f && content[1] == 0x45 && content[2] == 0x4c && content[3] == 0x46) {
            return Err(ElfParserError::WrongMagicNumber);
        }
        if content[4] != 2 {
            return Err(ElfParserError::Not64Bit);
        }
        if content[5] != 1 {
            return Err(ElfParserError::NotLittleEndian);
        }
        if content[7] != 0 {
            return Err(ElfParserError::NotUnixCompatible);
        }
        if !(content[16] == 0x02 && content[17] == 0x00) {
            return Err(ElfParserError::NotExecutable);
        }
        if !(content[18] == 0x3e && content[19] == 0x00) {
            return Err(ElfParserError::Notx64Compatible);
        }
        Ok(())
    }

    /// The program headers, in file order.
    pub fn program_headers(&self) -> (r: &Vec<ElfProgramHeader>)
        ensures
            r@ == self.spec_program_headers(),
    {
        &self.program_headers
    }

    pub fn n_program_headers(&self) -> (r: usize)
        ensures
            r == self.spec_program_headers().len(),
    {
        self.program_headers.len()
    }

    pub fn entry_point(&self) -> (r: u64)
        ensures
            r == self.spec_entry_point(),
    {
        self.entry_point
    }
}

} // verus!
