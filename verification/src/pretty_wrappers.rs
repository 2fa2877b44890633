//! Thin wrappers that mark a number as a size in bytes or as a set of bit
//! flags, so that whoever prints it can pick a fitting form.
use vstd::prelude::*;

verus! {

/// How big something is, in bytes.
#[derive(Copy, Clone, PartialEq, Eq, Debug, Structural)]
pub struct PrettySize(pub u64);

/// A set of bit flags, kept as the raw bits.
#[derive(Copy, Clone, PartialEq, Eq, Debug, Structural)]
pub struct PrettyBitflag(pub u32);

impl PrettyBitflag {
    /// Whether bit `index` is set. Bits beyond the 32 that exist are not.
    pub open spec fn spec_has_bit(self, index: int) -> bool {
        0 <= index < 32 && (self.0 >> (index as u32)) & 1u32 == 1u32
    }

    /// Whether bit `index` is set. Bits beyond the 32 that exist are not.
    pub fn has_bit(&self, index: usize) -> (set: bool)
        ensures
            set == self.spec_has_bit(index as int),
    {
        index < 32 && (self.0 >> (index as u32)) & 1u32 == 1u32
    }
}

} // verus!
