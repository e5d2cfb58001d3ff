//! The capacity ladder: which native unsigned types a wire can be read out
//! as. A wire of `B` bits belongs to the class of every native width of at
//! least `B` bits; reading it out as a narrower type is a call whose
//! precondition cannot be met, so the verifier refuses it.

use crate::layout::{le_fold, lemma_pow2_monotone};
use crate::wire::Wire;
use vstd::arithmetic::power2::lemma2_to64;
use vstd::prelude::*;

verus! {

/// The smallest native unsigned width that holds a given number of bits.
#[derive(Clone, Copy, Debug, PartialEq, Eq, Structural)]
pub enum CapacityClass {
    Width8,
    Width16,
    Width32,
    Width64,
    Width128,
    /// More than 128 bits: no native type holds it.
    Wider,
}

/// The class of a width of `bits` bits.
pub open spec fn spec_capacity_class(bits: nat) -> CapacityClass {
    if bits <= 8 {
        CapacityClass::Width8
    } else if bits <= 16 {
        CapacityClass::Width16
    } else if bits <= 32 {
        CapacityClass::Width32
    } else if bits <= 64 {
        CapacityClass::Width64
    } else if bits <= 128 {
        CapacityClass::Width128
    } else {
        CapacityClass::Wider
    }
}

/// The smallest native unsigned width that holds `bits` bits.
pub fn capacity_class(bits: usize) -> (c: CapacityClass)
    ensures
        c == spec_capacity_class(bits as nat),
{
    if bits <= 8 {
        CapacityClass::Width8
    } else if bits <= 16 {
        CapacityClass::Width16
    } else if bits <= 32 {
        CapacityClass::Width32
    } else if bits <= 64 {
        CapacityClass::Width64
    } else if bits <= 128 {
        CapacityClass::Width128
    } else {
        CapacityClass::Wider
    }
}

/// Wires with 128 bits or fewer.
pub trait FitsInU128 {
    /// The number of bits a wire of this type holds.
    spec fn spec_width() -> nat;

    /// The unsigned value the wire holds.
    spec fn spec_content(&self) -> nat;

    /// The wire's value as a `u128`.
    fn to_u128(&self) -> (r: u128)
        requires
            Self::spec_width() <= 128,
        ensures
            r == self.spec_content(),
    ;
}

/// Wires with 64 bits or fewer.
pub trait FitsInU64: FitsInU128 {
    /// The wire's value as a `u64`.
    fn to_u64(&self) -> (r: u64)
        requires
            Self::spec_width() <= 64,
        ensures
            r == self.spec_content(),
    ;
}

/// Wires with 32 bits or fewer.
pub trait FitsInU32: FitsInU64 {
    /// The wire's value as a `u32`.
    fn to_u32(&self) -> (r: u32)
        requires
            Self::spec_width() <= 32,
        ensures
            r == self.spec_content(),
    ;
}

/// Wires with 16 bits or fewer.
pub trait FitsInU16: FitsInU32 {
    /// The wire's value as a `u16`.
    fn to_u16(&self) -> (r: u16)
        requires
            Self::spec_width() <= 16,
        ensures
            r == self.spec_content(),
    ;
}

/// Wires with 8 bits or fewer.
pub trait FitsInU8: FitsInU16 {
    /// The wire's value as a `u8`.
    fn to_u8(&self) -> (r: u8)
        requires
            Self::spec_width() <= 8,
        ensures
            r == self.spec_content(),
    ;
}

impl<const B: usize, const S: usize> FitsInU128 for Wire<B, S> {
    open spec fn spec_width() -> nat {
        B as nat
    }

    open spec fn spec_content(&self) -> nat {
        self.value()
    }

    fn to_u128(&self) -> (r: u128) {
        let bytes = self.storage();
        proof {
            lemma_pow2_monotone(B as nat, 128);
            vstd::layout::unsigned_int_max_values();
        }
        le_fold(bytes)
    }
}

impl<const B: usize, const S: usize> FitsInU64 for Wire<B, S> {
    fn to_u64(&self) -> (r: u64) {
        let bytes = self.storage();
        proof {
            lemma_pow2_monotone(B as nat, 64);
            lemma2_to64();
            vstd::layout::unsigned_int_max_values();
        }
        le_fold(bytes) as u64
    }
}

impl<const B: usize, const S: usize> FitsInU32 for Wire<B, S> {
    fn to_u32(&self) -> (r: u32) {
        let bytes = self.storage();
        proof {
            lemma_pow2_monotone(B as nat, 32);
            lemma2_to64();
            vstd::layout::unsigned_int_max_values();
        }
        le_fold(bytes) as u32
    }
}

impl<const B: usize, const S: usize> FitsInU16 for Wire<B, S> {
    fn to_u16(&self) -> (r: u16) {
        let bytes = self.storage();
        proof {
            lemma_pow2_monotone(B as nat, 16);
            lemma2_to64();
            vstd::layout::unsigned_int_max_values();
        }
        le_fold(bytes) as u16
    }
}

impl<const B: usize, const S: usize> FitsInU8 for Wire<B, S> {
    fn to_u8(&self) -> (r: u8) {
        let bytes = self.storage();
        proof {
            lemma_pow2_monotone(B as nat, 8);
            lemma2_to64();
            vstd::layout::unsigned_int_max_values();
        }
        le_fold(bytes) as u8
    }
}

} // verus!
