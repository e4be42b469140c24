//! The width/format tag of a register's raw bytes.

use vstd::prelude::*;

verus! {

/// The closed set of register formats.  Each kind has a fixed byte
/// width; the two composite kinds additionally carry structure:
/// `Frequency` is a fixed-point ratio and `TimeOfDay` an epoch-based
/// timestamp with a fractional-seconds field.
#[derive(Copy, Clone, Debug, PartialEq, Eq, Structural)]
pub enum Contents {
    Byte,
    Word,
    Word24,
    Word32,
    Word40,
    Word48,
    Frequency,
    TimeOfDay,
}

/// Byte width of each contents kind.
pub open spec fn spec_size(c: Contents) -> nat {
    match c {
        Contents::Byte => 1,
        Contents::Word => 2,
        Contents::Word24 => 3,
        Contents::Word32 => 4,
        Contents::Word40 => 5,
        Contents::Word48 => 6,
        Contents::Frequency => 8,
        Contents::TimeOfDay => 11,
    }
}

impl Contents {
    /// How many bytes a register of this kind occupies.
    pub fn size(&self) -> (s: u8)
        ensures
            s == spec_size(*self),
    {
        match self {
            Contents::Byte => 1,
            Contents::Word => 2,
            Contents::Word24 => 3,
            Contents::Word32 => 4,
            Contents::Word40 => 5,
            Contents::Word48 => 6,
            Contents::Frequency => 8,
            Contents::TimeOfDay => 11,
        }
    }
}

} // verus!
