//! The error codes of page faults and general protection faults.
use vstd::prelude::*;

verus! {

/// The error code of a page fault: bit 0 set when the page was present, bit
/// 1 for a write, bit 2 for user mode, bit 3 for a malformed table, bit 4
/// for an instruction fetch.
#[derive(Debug, Clone, Copy, PartialEq, Eq, Structural)]
pub struct PageFaultErrorCode(u8);

/// Whether bit `i` of `x` is set.
pub open spec fn bit(x: u64, i: u64) -> bool {
    (x >> i) & 1 == 1
}

/// How a page fault's error code reads: for each of bits 0 to 4 in turn,
/// what it says.
pub open spec fn page_fault_text(code: u64) -> Seq<char> {
    (if bit(code, 0) {
        Seq::empty()
    } else {
        "NOT MAPPED, "@
    }) + (if bit(code, 1) {
        "WRITE, "@
    } else {
        "READ, "@
    }) + (if bit(code, 2) {
        "USER, "@
    } else {
        "KERNEL, "@
    }) + (if bit(code, 3) {
        "MALFORMED TABLE"@
    } else {
        Seq::empty()
    }) + (if bit(code, 4) {
        "INSTRUCTION FETCH"@
    } else {
        Seq::empty()
    })
}

impl View for PageFaultErrorCode {
    type V = u8;

    closed spec fn view(&self) -> u8 {
        self.0
    }
}

impl PageFaultErrorCode {
    /// The error code, when only bits 0 to 4 of `value` may be set.
    pub fn from_u64(value: u64) -> (r: Option<PageFaultErrorCode>)
        ensures
            r is Some <==> value & !0b11111u64 == 0,
            r matches Some(c) ==> c@ == value,
    {
        if value & !0b11111 != 0 {
            return None;
        }
        assert(value & !0b11111u64 == 0 ==> value < 32) by (bit_vector);
        Some(PageFaultErrorCode(value as u8))
    }

    /// How the error code reads.
    pub fn describe(&self) -> (r: String)
        ensures
            r@ == page_fault_text(self@ as u64),
    {
        let code = self.0 as u64;
        let mut text = String::new();
        if (code >> 0u64) & 1 != 1 {
            text.append("NOT MAPPED, ");
        }
        if (code >> 1u64) & 1 == 1 {
            text.append("WRITE, ");
        } else {
            text.append("READ, ");
        }
        if (code >> 2u64) & 1 == 1 {
            text.append("USER, ");
        } else {
            text.append("KERNEL, ");
        }
        if (code >> 3u64) & 1 == 1 {
            text.append("MALFORMED TABLE");
        }
        if (code >> 4u64) & 1 == 1 {
            text.append("INSTRUCTION FETCH");
        }
        assert(text@ =~= page_fault_text(code));
        text
    }
}

/// The decimal digits of `n`, most significant first, with no leading zero.
pub open spec fn decimal_text(n: nat) -> Seq<char>
    decreases n,
{
    if n < 10 {
        seq![(48 + n) as char]
    } else {
        decimal_text(n / 10).push((48 + n % 10) as char)
    }
}

/// How a general protection fault's error code reads: the selector index in
/// decimal, the table (local or global) and the origin (external or internal).
pub open spec fn general_fault_text(code: u32) -> Seq<char> {
    "Selector index: "@ + decimal_text((code >> 3u32) as nat) + ", "@ + (if (code >> 1u32) & 1
        == 1 {
        "LDT, "@
    } else {
        "GDT, "@
    }) + (if code & 1 == 1 {
        "EXTERNAL"@
    } else {
        "INTERNAL"@
    })
}

/// The digit `d` as text.
fn digit_str(d: u32) -> (r: &'static str)
    requires
        d < 10,
    ensures
        r@ == seq![(48 + d) as char],
{
    match d {
        0 => {
            proof {
                reveal_strlit("0");
            }
            "0"
        },
        1 => {
            proof {
                reveal_strlit("1");
            }
            "1"
        },
        2 => {
            proof {
                reveal_strlit("2");
            }
            "2"
        },
        3 => {
            proof {
                reveal_strlit("3");
            }
            "3"
        },
        4 => {
            proof {
                reveal_strlit("4");
            }
            "4"
        },
        5 => {
            proof {
                reveal_strlit("5");
            }
            "5"
        },
        6 => {
            proof {
                reveal_strlit("6");
            }
            "6"
        },
        7 => {
            proof {
                reveal_strlit("7");
            }
            "7"
        },
        8 => {
            proof {
                reveal_strlit("8");
            }
            "8"
        },
        _ => {
            proof {
                reveal_strlit("9");
            }
            "9"
        },
    }
}

/// Appends `n` in decimal to `text`.
fn append_decimal(text: &mut String, n: u32)
    ensures
        final(text)@ == old(text)@ + decimal_text(n as nat),
    decreases n,
{
    if n >= 10 {
        append_decimal(text, n / 10);
    }
    text.append(digit_str(n % 10));
    proof {
        if n >= 10 {
            assert(decimal_text(n as nat) == decimal_text((n / 10) as nat).push(
                (48 + n % 10) as char,
            ));
        }
    }
}

/// The error code of a general protection fault: bit 0 set for an external
/// event, bit 1 set for the local descriptor table, the selector index from
/// bit 3 on.
#[derive(Debug, Clone, Copy, PartialEq, Eq, Structural)]
pub struct GeneralFaultErrorCode(u32);

impl View for GeneralFaultErrorCode {
    type V = u32;

    closed spec fn view(&self) -> u32 {
        self.0
    }
}

impl GeneralFaultErrorCode {
    /// The error code of the low 32 bits of `value`.
    pub fn from_u64(value: u64) -> (r: GeneralFaultErrorCode)
        ensures
            r@ == value % 0x1_0000_0000,
    {
        assert(value as u32 == value % 0x1_0000_0000) by (bit_vector);
        GeneralFaultErrorCode(value as u32)
    }

    /// Whether the fault comes from an external event.
    pub fn external(&self) -> (r: bool)
        ensures
            r == ((self@ & 1) == 1),
    {
        self.0 & 1 == 1
    }

    /// Whether the selector is in the local descriptor table.
    pub fn table(&self) -> (r: bool)
        ensures
            r == (((self@ >> 1u32) & 1) == 1),
    {
        (self.0 >> 1) & 1 == 1
    }

    /// The selector index.
    pub fn index(&self) -> (r: u32)
        ensures
            r == self@ >> 3u32,
    {
        self.0 >> 3
    }

    /// How the error code reads.
    pub fn describe(&self) -> (r: String)
        ensures
            r@ == general_fault_text(self@),
    {
        let mut text = String::new();
        text.append("Selector index: ");
        append_decimal(&mut text, self.index());
        text.append(", ");
        if self.table() {
            text.append("LDT, ");
        } else {
            text.append("GDT, ");
        }
        if self.external() {
            text.append("EXTERNAL");
        } else {
            text.append("INTERNAL");
        }
        assert(text@ =~= general_fault_text(self@));
        text
    }
}

} // verus!
