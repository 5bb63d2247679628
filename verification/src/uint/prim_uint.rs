//! The native unsigned integers that integer gadgets shadow.
use vstd::prelude::*;

verus! {

/// A native unsigned integer of fixed width, as far as bit-level gadgets
/// need it: its binary digits and the bitwise AND.
pub trait PrimUInt: Copy + Sized {
    /// The binary digit of weight `2^i`; false at and beyond the width.
    spec fn spec_bit(self, i: nat) -> bool;

    /// The bitwise AND of two numbers.
    spec fn spec_and(self, other: Self) -> Self;

    /// Each digit of the bitwise AND is the conjunction of the operands'
    /// digits at that place.
    proof fn lemma_and_bit(self, other: Self, i: nat)
        ensures
            self.spec_and(other).spec_bit(i) == (self.spec_bit(i) && other.spec_bit(i)),
    ;

    /// The binary digit of weight `2^i`; false at and beyond the width.
    fn bit(self, i: usize) -> (b: bool)
        ensures
            b == self.spec_bit(i as nat),
    ;

    /// The bitwise AND of two numbers.
    fn and(self, other: Self) -> (r: Self)
        ensures
            r == self.spec_and(other),
    ;
}

impl PrimUInt for u8 {
    open spec fn spec_bit(self, i: nat) -> bool {
        i < 8 && (self >> (i as u8)) & 1u8 == 1u8
    }

    open spec fn spec_and(self, other: Self) -> Self {
        self & other
    }

    proof fn lemma_and_bit(self, other: Self, i: nat) {
        if i < 8 {
            let s = i as u8;
            assert((((self & other) >> s) & 1u8 == 1u8) == (((self >> s) & 1u8 == 1u8) && ((other >> s)
                & 1u8 == 1u8))) by (bit_vector);
        }
    }

    fn bit(self, i: usize) -> (b: bool) {
        if i < 8 {
            (self >> (i as u8)) & 1 == 1
        } else {
            false
        }
    }

    fn and(self, other: Self) -> (r: Self) {
        self & other
    }
}

impl PrimUInt for u16 {
    open spec fn spec_bit(self, i: nat) -> bool {
        i < 16 && (self >> (i as u16)) & 1u16 == 1u16
    }

    open spec fn spec_and(self, other: Self) -> Self {
        self & other
    }

    proof fn lemma_and_bit(self, other: Self, i: nat) {
        if i < 16 {
            let s = i as u16;
            assert((((self & other) >> s) & 1u16 == 1u16) == (((self >> s) & 1u16 == 1u16) && ((other >> s)
                & 1u16 == 1u16))) by (bit_vector);
        }
    }

    fn bit(self, i: usize) -> (b: bool) {
        if i < 16 {
            (self >> (i as u16)) & 1 == 1
        } else {
            false
        }
    }

    fn and(self, other: Self) -> (r: Self) {
        self & other
    }
}

impl PrimUInt for u32 {
    open spec fn spec_bit(self, i: nat) -> bool {
        i < 32 && (self >> (i as u32)) & 1u32 == 1u32
    }

    open spec fn spec_and(self, other: Self) -> Self {
        self & other
    }

    proof fn lemma_and_bit(self, other: Self, i: nat) {
        if i < 32 {
            let s = i as u32;
            assert((((self & other) >> s) & 1u32 == 1u32) == (((self >> s) & 1u32 == 1u32) && ((other >> s)
                & 1u32 == 1u32))) by (bit_vector);
        }
    }

    fn bit(self, i: usize) -> (b: bool) {
        if i < 32 {
            (self >> (i as u32)) & 1 == 1
        } else {
            false
        }
    }

    fn and(self, other: Self) -> (r: Self) {
        self & other
    }
}

impl PrimUInt for u64 {
    open spec fn spec_bit(self, i: nat) -> bool {
        i < 64 && (self >> (i as u64)) & 1u64 == 1u64
    }

    open spec fn spec_and(self, other: Self) -> Self {
        self & other
    }

    proof fn lemma_and_bit(self, other: Self, i: nat) {
        if i < 64 {
            let s = i as u64;
            assert((((self & other) >> s) & 1u64 == 1u64) == (((self >> s) & 1u64 == 1u64) && ((other >> s)
                & 1u64 == 1u64))) by (bit_vector);
        }
    }

    fn bit(self, i: usize) -> (b: bool) {
        if i < 64 {
            (self >> (i as u64)) & 1 == 1
        } else {
            false
        }
    }

    fn and(self, other: Self) -> (r: Self) {
        self & other
    }
}

impl PrimUInt for u128 {
    open spec fn spec_bit(self, i: nat) -> bool {
        i < 128 && (self >> (i as u128)) & 1u128 == 1u128
    }

    open spec fn spec_and(self, other: Self) -> Self {
        self & other
    }

    proof fn lemma_and_bit(self, other: Self, i: nat) {
        if i < 128 {
            let s = i as u128;
            assert((((self & other) >> s) & 1u128 == 1u128) == (((self >> s) & 1u128 == 1u128) && ((other >> s)
                & 1u128 == 1u128))) by (bit_vector);
        }
    }

    fn bit(self, i: usize) -> (b: bool) {
        if i < 128 {
            (self >> (i as u128)) & 1 == 1
        } else {
            false
        }
    }

    fn and(self, other: Self) -> (r: Self) {
        self & other
    }
}

} // verus!
