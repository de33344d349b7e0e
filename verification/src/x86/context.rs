//! The registers that a mid-function hook hands to its detour.

use vstd::prelude::*;

verus! {

/// Flags of the processor. A value may hold bits that no flag is named after.
#[derive(Debug, Clone, Copy, PartialEq, Eq, PartialOrd, Ord, Hash)]
pub struct EFlags {
    pub bits: u32,
}

/// The bits that a flag is named after.
pub const NAMED_BITS: u32 = 0xFD5;

#[allow(non_snake_case)]
impl EFlags {
    /// Carry flag.
    pub fn CF() -> (flags: EFlags)
        ensures
            flags.bits == 0x1,
    {
        EFlags { bits: 0x1 }
    }

    /// Parity flag.
    pub fn PF() -> (flags: EFlags)
        ensures
            flags.bits == 0x4,
    {
        EFlags { bits: 0x4 }
    }

    /// Auxiliary carry flag.
    pub fn AF() -> (flags: EFlags)
        ensures
            flags.bits == 0x10,
    {
        EFlags { bits: 0x10 }
    }

    /// Zero flag.
    pub fn ZF() -> (flags: EFlags)
        ensures
            flags.bits == 0x40,
    {
        EFlags { bits: 0x40 }
    }

    /// Sign flag.
    pub fn SF() -> (flags: EFlags)
        ensures
            flags.bits == 0x80,
    {
        EFlags { bits: 0x80 }
    }

    /// Trap flag.
    pub fn TF() -> (flags: EFlags)
        ensures
            flags.bits == 0x100,
    {
        EFlags { bits: 0x100 }
    }

    /// Interrupt enable flag.
    pub fn IF() -> (flags: EFlags)
        ensures
            flags.bits == 0x200,
    {
        EFlags { bits: 0x200 }
    }

    /// Direction flag.
    pub fn DF() -> (flags: EFlags)
        ensures
            flags.bits == 0x400,
    {
        EFlags { bits: 0x400 }
    }

    /// Overflow flag.
    pub fn OF() -> (flags: EFlags)
        ensures
            flags.bits == 0x800,
    {
        EFlags { bits: 0x800 }
    }
}

impl EFlags {
    /// Whether every bit of `other` is set.
    pub open spec fn has_all(self, other: EFlags) -> bool {
        self.bits & other.bits == other.bits
    }

    /// Whether a bit of `other` is set.
    pub open spec fn has_any(self, other: EFlags) -> bool {
        self.bits & other.bits != 0
    }

    /// No flags.
    pub fn empty() -> (flags: EFlags)
        ensures
            flags.bits == 0,
    {
        EFlags { bits: 0 }
    }

    /// Every flag that has a name.
    pub fn all() -> (flags: EFlags)
        ensures
            flags.bits == NAMED_BITS,
            flags.bits == 0xFD5,
    {
        EFlags { bits: NAMED_BITS }
    }

    /// The bits of the flags.
    pub fn bits(&self) -> (bits: u32)
        ensures
            bits == self.bits,
    {
        self.bits
    }

    /// The flags with these bits; `None` where a bit has no name.
    pub fn from_bits(bits: u32) -> (flags: Option<EFlags>)
        ensures
            flags == (if bits & NAMED_BITS == bits {
                Some(EFlags { bits })
            } else {
                None
            }),
    {
        if bits & NAMED_BITS == bits {
            Some(EFlags { bits })
        } else {
            None
        }
    }

    /// The flags with those of these bits that have a name.
    pub fn from_bits_truncate(bits: u32) -> (flags: EFlags)
        ensures
            flags.bits == bits & NAMED_BITS,
    {
        EFlags { bits: bits & NAMED_BITS }
    }

    /// The flags with these bits, named or not.
    pub fn from_bits_retain(bits: u32) -> (flags: EFlags)
        ensures
            flags.bits == bits,
    {
        EFlags { bits }
    }

    /// Whether no bit is set.
    pub fn is_empty(&self) -> (empty: bool)
        ensures
            empty == (self.bits == 0),
    {
        self.bits == 0
    }

    /// Whether every bit that has a name is set.
    pub fn is_all(&self) -> (all: bool)
        ensures
            all == (NAMED_BITS | self.bits == self.bits),
    {
        NAMED_BITS | self.bits == self.bits
    }

    /// Whether every bit of `other` is set.
    pub fn contains(&self, other: EFlags) -> (contained: bool)
        ensures
            contained == self.has_all(other),
            contained == (self.bits & other.bits == other.bits),
    {
        self.bits & other.bits == other.bits
    }

    /// Whether a bit of `other` is set.
    pub fn intersects(&self, other: EFlags) -> (met: bool)
        ensures
            met == self.has_any(other),
            met == (self.bits & other.bits != 0),
    {
        self.bits & other.bits != 0
    }

    /// Sets the bits of `other`.
    pub fn insert(&mut self, other: EFlags)
        ensures
            final(self).bits == old(self).bits | other.bits,
    {
        self.bits = self.bits | other.bits;
    }

    /// Clears the bits of `other`.
    pub fn remove(&mut self, other: EFlags)
        ensures
            final(self).bits == old(self).bits & !other.bits,
    {
        self.bits = self.bits & !other.bits;
    }

    /// Flips the bits of `other`.
    pub fn toggle(&mut self, other: EFlags)
        ensures
            final(self).bits == old(self).bits ^ other.bits,
    {
        self.bits = self.bits ^ other.bits;
    }

    /// Sets or clears the bits of `other`.
    pub fn set(&mut self, other: EFlags, value: bool)
        ensures
            final(self).bits == (if value {
                old(self).bits | other.bits
            } else {
                old(self).bits & !other.bits
            }),
    {
        if value {
            self.insert(other);
        } else {
            self.remove(other);
        }
    }

    /// The bits that are set here or in `other`.
    pub fn union(self, other: EFlags) -> (flags: EFlags)
        ensures
            flags.bits == self.bits | other.bits,
    {
        EFlags { bits: self.bits | other.bits }
    }

    /// The bits that are set here and in `other`.
    pub fn intersection(self, other: EFlags) -> (flags: EFlags)
        ensures
            flags.bits == self.bits & other.bits,
    {
        EFlags { bits: self.bits & other.bits }
    }

    /// The bits that are set here and not in `other`.
    pub fn difference(self, other: EFlags) -> (flags: EFlags)
        ensures
            flags.bits == self.bits & !other.bits,
    {
        EFlags { bits: self.bits & !other.bits }
    }

    /// The bits that are set here or in `other`, and not in both.
    pub fn symmetric_difference(self, other: EFlags) -> (flags: EFlags)
        ensures
            flags.bits == self.bits ^ other.bits,
    {
        EFlags { bits: self.bits ^ other.bits }
    }

    /// The bits with a name that are not set.
    pub fn complement(self) -> (flags: EFlags)
        ensures
            flags.bits == !self.bits & NAMED_BITS,
    {
        EFlags { bits: !self.bits & NAMED_BITS }
    }
}

/// After flags were set they are all there, and whatever else was; after they were
/// cleared none is there, and what else was still is.
pub proof fn law_setting_and_clearing_touch_only_their_flags(
    flags: EFlags,
    changed: EFlags,
    other: EFlags,
)
    requires
        changed.bits & other.bits == 0,
    ensures
        (EFlags { bits: flags.bits | changed.bits }).has_all(changed),
        !(EFlags { bits: flags.bits & !changed.bits }).has_any(changed),
        (EFlags { bits: flags.bits | changed.bits }).has_all(other) == flags.has_all(other),
        (EFlags { bits: flags.bits & !changed.bits }).has_all(other) == flags.has_all(other),
{
    let (a, b, c) = (flags.bits, changed.bits, other.bits);
    assert((a | b) & b == b) by (bit_vector);
    assert((a & !b) & b == 0) by (bit_vector);
    assert((a | b) & c == a & c) by (bit_vector)
        requires
            b & c == 0,
    ;
    assert((a & !b) & c == a & c) by (bit_vector)
        requires
            b & c == 0,
    ;
}

/// Flags hold others exactly where every bit of them is set, and share one with others
/// exactly where some bit is set in both.
pub proof fn law_flags_are_compared_bit_by_bit(flags: EFlags, other: EFlags)
    ensures
        flags.has_all(other) <==> flags.bits | other.bits == flags.bits,
        flags.has_any(other) <==> other.bits & !flags.bits != other.bits,
{
    let (a, b) = (flags.bits, other.bits);
    assert(a & b == b <==> a | b == a) by (bit_vector);
    assert(a & b != 0 <==> b & !a != b) by (bit_vector);
}

/// The bits with a name are those of the nine flags, no more and no fewer.
pub proof fn law_named_bits_are_those_of_the_flags()
    ensures
        NAMED_BITS == 0x1u32 | 0x4 | 0x10 | 0x40 | 0x80 | 0x100 | 0x200 | 0x400 | 0x800,
{
    assert(0x1u32 | 0x4 | 0x10 | 0x40 | 0x80 | 0x100 | 0x200 | 0x400 | 0x800 == 0xFD5u32)
        by (bit_vector);
}

/// Flipping flags twice changes nothing.
pub proof fn law_flipping_twice_changes_nothing(flags: EFlags, flipped: EFlags)
    ensures
        (flags.bits ^ flipped.bits) ^ flipped.bits == flags.bits,
{
    let (a, b) = (flags.bits, flipped.bits);
    assert((a ^ b) ^ b == a) by (bit_vector);
}

/// The registers at a mid-function hook, in the order in which they lie on the stack.
pub struct UnsafetyHookContext {
    pub edi: u32,
    pub esi: u32,
    pub ebp: u32,
    pub esp: u32,
    pub ebx: u32,
    pub edx: u32,
    pub ecx: u32,
    pub eax: u32,
    pub eflags: EFlags,
    pub eip: u32,
}

} // verus!
