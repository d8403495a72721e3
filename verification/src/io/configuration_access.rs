//! Offsets in the PCI configuration access mechanism.
use vstd::prelude::*;

verus! {

/// The PCI configuration access mechanism: the older memory-mapped one, or
/// the enhanced one.
#[derive(Debug, Clone, Copy, PartialEq, Eq, Structural)]
pub enum Cam {
    MmioCam,
    Ecam,
}

impl Cam {
    /// The size of the mechanism's memory region.
    pub open spec fn spec_size(self) -> u32 {
        match self {
            Cam::MmioCam => 0x1000000,
            Cam::Ecam => 0x10000000,
        }
    }

    /// How far a function's number is shifted in an address.
    pub open spec fn spec_shift(self) -> u32 {
        match self {
            Cam::MmioCam => 8,
            Cam::Ecam => 12,
        }
    }

    /// The size of the mechanism's memory region.
    pub fn size(self) -> (r: u32)
        ensures
            r == self.spec_size(),
    {
        match self {
            Cam::MmioCam => 0x1000000,
            Cam::Ecam => 0x10000000,
        }
    }
}

/// The address of register `register_offset` of function `function` of
/// device `device` on bus `bus`.
pub open spec fn spec_cam_address(cam: Cam, bus: u8, device: u8, function: u8, register_offset: u8) -> u32 {
    ((((bus as u32) << 8u32) | ((device as u32) << 3u32) | (function as u32)) << cam.spec_shift())
        | (register_offset as u32)
}

/// The address of register `register_offset` of function `function` of
/// device `device` on bus `bus`.
pub fn cam_address(cam: Cam, bus: u8, device: u8, function: u8, register_offset: u8) -> (r: u32)
    ensures
        r == spec_cam_address(cam, bus, device, function, register_offset),
{
    let bdf = (bus as u32) << 8 | (device as u32) << 3 | function as u32;
    let shift: u32 = match cam {
        Cam::MmioCam => 8,
        Cam::Ecam => 12,
    };
    bdf << shift | register_offset as u32
}

/// The offset in the mechanism's memory region of a register of a PCI
/// function. The device must be below 32 and the function below 8, the
/// address within the region and word-aligned.
pub fn cam_offset(cam: Cam, bus: u8, device: u8, function: u8, register_offset: u8) -> (r: u32)
    requires
        device < 32,
        function < 8,
        spec_cam_address(cam, bus, device, function, register_offset) < cam.spec_size(),
        spec_cam_address(cam, bus, device, function, register_offset) & 0x3 == 0,
    ensures
        r == spec_cam_address(cam, bus, device, function, register_offset),
{
    cam_address(cam, bus, device, function, register_offset)
}

} // verus!
