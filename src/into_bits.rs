//! The native unsigned integer types that a wire can be loaded from.

use crate::layout::{bit_len, bit_length, le_bytes_of, le_bytes_u128, lemma_bit_len_bound};
use vstd::arithmetic::power2::{lemma2_to64, pow2};
use vstd::prelude::*;

verus! {

/// An unsigned integer type whose values can be loaded into a wire.
pub trait IntoBits: Sized {
    /// The number of bytes in the type.
    spec fn spec_bytes() -> nat;

    /// The value as a natural number.
    spec fn spec_value(&self) -> nat;

    /// Every value of the type fits in its bytes.
    proof fn lemma_in_range(&self)
        ensures
            1 <= Self::spec_bytes() <= 16,
            self.spec_value() < pow2(8 * Self::spec_bytes()),
    ;

    /// The number of bytes in the type.
    fn bytes() -> (r: usize)
        ensures
            r == Self::spec_bytes(),
    ;

    /// The value's bytes, least significant first.
    fn le_bytes(&self) -> (r: Vec<u8>)
        ensures
            r@ == le_bytes_of(self.spec_value(), Self::spec_bytes()),
    ;

    /// The number of zero bits above the highest one bit (all of them for 0).
    fn num_leading_zeros(&self) -> (r: u32)
        ensures
            r == 8 * Self::spec_bytes() - bit_len(self.spec_value()),
    ;
}

impl IntoBits for u8 {
    open spec fn spec_bytes() -> nat {
        1
    }

    open spec fn spec_value(&self) -> nat {
        *self as nat
    }

    proof fn lemma_in_range(&self) {
        lemma2_to64();
    }

    fn bytes() -> (r: usize) {
        1
    }

    fn le_bytes(&self) -> (r: Vec<u8>) {
        le_bytes_u128(*self as u128, Self::bytes())
    }

    fn num_leading_zeros(&self) -> (r: u32) {
        proof {
            self.lemma_in_range();
            lemma_bit_len_bound(*self as nat, 8 * Self::spec_bytes());
        }
        (8 * Self::bytes() as u32) - bit_length(*self as u128)
    }
}

impl IntoBits for u16 {
    open spec fn spec_bytes() -> nat {
        2
    }

    open spec fn spec_value(&self) -> nat {
        *self as nat
    }

    proof fn lemma_in_range(&self) {
        lemma2_to64();
    }

    fn bytes() -> (r: usize) {
        2
    }

    fn le_bytes(&self) -> (r: Vec<u8>) {
        le_bytes_u128(*self as u128, Self::bytes())
    }

    fn num_leading_zeros(&self) -> (r: u32) {
        proof {
            self.lemma_in_range();
            lemma_bit_len_bound(*self as nat, 8 * Self::spec_bytes());
        }
        (8 * Self::bytes() as u32) - bit_length(*self as u128)
    }
}

impl IntoBits for u32 {
    open spec fn spec_bytes() -> nat {
        4
    }

    open spec fn spec_value(&self) -> nat {
        *self as nat
    }

    proof fn lemma_in_range(&self) {
        lemma2_to64();
    }

    fn bytes() -> (r: usize) {
        4
    }

    fn le_bytes(&self) -> (r: Vec<u8>) {
        le_bytes_u128(*self as u128, Self::bytes())
    }

    fn num_leading_zeros(&self) -> (r: u32) {
        proof {
            self.lemma_in_range();
            lemma_bit_len_bound(*self as nat, 8 * Self::spec_bytes());
        }
        (8 * Self::bytes() as u32) - bit_length(*self as u128)
    }
}

impl IntoBits for u64 {
    open spec fn spec_bytes() -> nat {
        8
    }

    open spec fn spec_value(&self) -> nat {
        *self as nat
    }

    proof fn lemma_in_range(&self) {
        lemma2_to64();
    }

    fn bytes() -> (r: usize) {
        8
    }

    fn le_bytes(&self) -> (r: Vec<u8>) {
        le_bytes_u128(*self as u128, Self::bytes())
    }

    fn num_leading_zeros(&self) -> (r: u32) {
        proof {
            self.lemma_in_range();
            lemma_bit_len_bound(*self as nat, 8 * Self::spec_bytes());
        }
        (8 * Self::bytes() as u32) - bit_length(*self as u128)
    }
}

impl IntoBits for u128 {
    open spec fn spec_bytes() -> nat {
        16
    }

    open spec fn spec_value(&self) -> nat {
        *self as nat
    }

    proof fn lemma_in_range(&self) {
        vstd::layout::unsigned_int_max_values();
    }

    fn bytes() -> (r: usize) {
        16
    }

    fn le_bytes(&self) -> (r: Vec<u8>) {
        le_bytes_u128(*self as u128, Self::bytes())
    }

    fn num_leading_zeros(&self) -> (r: u32) {
        proof {
            self.lemma_in_range();
            lemma_bit_len_bound(*self as nat, 8 * Self::spec_bytes());
        }
        (8 * Self::bytes() as u32) - bit_length(*self as u128)
    }
}

impl IntoBits for usize {
    open spec fn spec_bytes() -> nat {
        (usize::BITS / 8) as nat
    }

    open spec fn spec_value(&self) -> nat {
        *self as nat
    }

    proof fn lemma_in_range(&self) {
        vstd::layout::unsigned_int_max_values();
    }

    fn bytes() -> (r: usize) {
        (usize::BITS / 8) as usize
    }

    fn le_bytes(&self) -> (r: Vec<u8>) {
        le_bytes_u128(*self as u128, Self::bytes())
    }

    fn num_leading_zeros(&self) -> (r: u32) {
        proof {
            self.lemma_in_range();
            lemma_bit_len_bound(*self as nat, 8 * Self::spec_bytes());
        }
        (8 * Self::bytes() as u32) - bit_length(*self as u128)
    }
}

} // verus!
