//! Open modes.
use vstd::prelude::*;

verus! {

pub const O_RDONLY: i32 = 0x000;

pub const O_WRONLY: i32 = 0x001;

pub const O_RDWR: i32 = 0x002;

pub const O_CREATE: i32 = 0x200;

pub const O_TRUNC: i32 = 0x400;

/// The mode bits passed to open.
#[derive(Clone, Copy, Debug, PartialEq, Eq, Structural)]
pub struct OMode(pub i32);

impl OMode {
    /// All the bits of `bits`, whether or not they name a mode.
    pub fn from_bits_retain(bits: i32) -> (r: OMode)
        ensures
            r.0 == bits,
    {
        OMode(bits)
    }

    /// The raw bits.
    pub fn bits(&self) -> (r: i32)
        ensures
            r == self.0,
    {
        self.0
    }

    /// Whether any bit of `other` is set in `self`.
    pub fn intersects(&self, other: OMode) -> (r: bool)
        ensures
            r == (self.0 & other.0 != 0),
    {
        self.0 & other.0 != 0
    }
}

} // verus!
