use vstd::prelude::*;

verus! {

/// Why a file is not an executable that this kernel can load.
#[derive(Debug, Clone, Copy, PartialEq, Eq, Structural)]
pub enum ElfParserError {
    Not64Bit,
    NotExecutable,
    NotLittleEndian,
    NotUnixCompatible,
    Notx64Compatible,
    UnknownProgramType,
    WrongMagicNumber,
}

} // verus!
