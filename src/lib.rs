//! Bit-accurate wires: fixed-width containers that hold exactly `B` logical
//! bits packed little-endian into `ceil(B / 8)` bytes, with bounds-checked
//! loading from and extraction to the native unsigned integer types.

mod capacity;
mod into_bits;
mod layout;
mod wire;

pub use capacity::{
    capacity_class, spec_capacity_class, CapacityClass, FitsInU128, FitsInU16, FitsInU32, FitsInU64,
    FitsInU8,
};
pub use into_bits::IntoBits;
pub use layout::{
    bit_at, bit_len, byte_and_offset, le_bytes_of, le_value, lemma_bit_len_bound, lemma_le_bytes_len,
    lemma_le_bytes_value, lemma_le_value_bit, lemma_le_value_byte, num_bytes, spec_num_bytes,
};
pub use wire::{
    lemma_load_clears_high_bytes, lemma_load_round_trip, lemma_zero_width_refuses, TooManyBits, Wire,
};
