use vstd::prelude::*;

verus! {

/// Size in bytes of one packed readiness record.
pub const RECORD_SIZE: usize = 24;

/// Bit that marks readiness for reading.
pub const READ_BIT: u32 = 1;

/// Bit that marks readiness for writing.
pub const WRITE_BIT: u32 = 2;

/// Readiness flags of a descriptor, as a bitset.
#[derive(Clone, Copy, Debug, PartialEq, Eq, Structural, Hash, Default)]
pub struct EventFlags {
    pub bits: u32,
}

impl EventFlags {
    pub open spec fn has(self, other: EventFlags) -> bool {
        self.bits & other.bits == other.bits
    }

    /// No flag set.
    pub fn empty() -> (r: EventFlags)
        ensures
            r.bits == 0,
    {
        EventFlags { bits: 0 }
    }

    /// Readiness for reading.
    pub fn read() -> (r: EventFlags)
        ensures
            r.bits == READ_BIT,
    {
        EventFlags { bits: READ_BIT }
    }

    /// Readiness for writing.
    pub fn write() -> (r: EventFlags)
        ensures
            r.bits == WRITE_BIT,
    {
        EventFlags { bits: WRITE_BIT }
    }

    /// The flags with exactly these bits, unknown bits kept.
    pub fn from_bits_retain(bits: u32) -> (r: EventFlags)
        ensures
            r.bits == bits,
    {
        EventFlags { bits }
    }

    pub fn bits(&self) -> (r: u32)
        ensures
            r == self.bits,
    {
        self.bits
    }

    pub fn is_empty(&self) -> (r: bool)
        ensures
            r == (self.bits == 0),
    {
        self.bits == 0
    }

    /// Whether every bit of `other` is set in `self`.
    pub fn contains(&self, other: EventFlags) -> (r: bool)
        ensures
            r == self.has(other),
    {
        self.bits & other.bits == other.bits
    }

    /// The bits set in either.
    pub fn union(&self, other: EventFlags) -> (r: EventFlags)
        ensures
            r.bits == self.bits | other.bits,
    {
        EventFlags { bits: self.bits | other.bits }
    }
}

/// One fixed-layout readiness record as exchanged with the kernel channel:
/// the source descriptor, the identity tag it was subscribed with, and flags.
#[derive(Clone, Copy, Debug, PartialEq, Eq, Structural, Default)]
pub struct RawEventV1 {
    pub fd: usize,
    pub user_data: usize,
    pub flags: u32,
}

} // verus!
