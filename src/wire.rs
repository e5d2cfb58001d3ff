//! The wire: a fixed-width container of `B` bits packed into `S` bytes.

use crate::into_bits::IntoBits;
use crate::layout::{
    bit_at, bit_len, byte_and_offset, byte_bit, le_bytes_of, le_value, lemma_bit_len_bound,
    lemma_le_bytes_agree, lemma_le_bytes_len, lemma_le_bytes_value, lemma_le_bytes_zero_above,
    lemma_le_value_bit, lemma_pow2_monotone, num_bytes, spec_num_bytes,
};
use vstd::arithmetic::power2::{lemma2_to64, lemma_pow2_pos, pow2};
use vstd::prelude::*;

verus! {

/// Why a checked load was refused: the value needs more bits than the wire
/// holds.
#[derive(Clone, Copy, Debug, PartialEq, Eq, Structural)]
pub struct TooManyBits {
    /// The number of bits the value needs.
    pub value_bits: usize,
    /// The number of bits the wire holds.
    pub wire_bits: usize,
}

/// `B` bits of a hardware signal, stored little-endian in `S` bytes.
///
/// `S` must be `ceil(B / 8)`: the constructors require it. Bits above bit
/// `B - 1` are always zero.
#[derive(Clone, Copy)]
pub struct Wire<const B: usize, const S: usize> {
    repr: [u8; S],
}

impl<const B: usize, const S: usize> View for Wire<B, S> {
    type V = Seq<u8>;

    /// The storage bytes, least significant first.
    closed spec fn view(&self) -> Seq<u8> {
        self.repr@
    }
}

impl<const B: usize, const S: usize> Wire<B, S> {
    #[verifier::type_invariant]
    spec fn well_formed(self) -> bool {
        &&& S == spec_num_bytes(B as int)
        &&& le_value(self.repr@) < pow2(B as nat)
    }

    /// The unsigned value the wire holds.
    pub open spec fn value(&self) -> nat {
        le_value(self@)
    }

    /// A wire with every bit zero.
    pub fn new() -> (w: Self)
        requires
            S == spec_num_bytes(B as int),
        ensures
            w@ == Seq::new(S as nat, |_i: int| 0u8),
            w.value() == 0,
    {
        let repr = [0u8; S];
        proof {
            lemma2_to64();
            lemma_pow2_monotone(0, B as nat);
            lemma_pow2_pos(8 * S as nat);
            lemma_le_bytes_len(0, S as nat);
            lemma_le_bytes_value(0, S as nat);
            assert forall|i: int| 0 <= i < S implies #[trigger] le_bytes_of(0, S as nat)[i] == 0u8 by {
                lemma_le_bytes_zero_above(0, 0, S as nat, i);
            }
            assert(repr@ =~= le_bytes_of(0, S as nat));
            assert(repr@ =~= Seq::new(S as nat, |_i: int| 0u8));
        }
        Wire { repr }
    }

    /// Loads `val` into the wire, replacing all of its contents.
    ///
    /// The value must need no more than `B` bits. The low bytes of its
    /// little-endian form are copied in and every byte above them is
    /// cleared, so nothing of an earlier value survives.
    pub fn set<C: IntoBits>(&mut self, val: C) -> (r: &mut Self)
        requires
            bit_len(val.spec_value()) <= B,
        ensures
            (*r)@ == le_bytes_of(val.spec_value(), S as nat),
            r.value() == val.spec_value(),
            forall|i: int| C::spec_bytes() <= i < S ==> (*r)@[i] == 0,
            *final(self) == *final(r),
    {
        proof {
            use_type_invariant(&*self);
            val.lemma_in_range();
        }
        let ghost v = val.spec_value();
        let bytes = val.le_bytes();
        let n = C::bytes();
        let z: usize = if n < S { n } else { S };
        let mut repr = self.repr;
        proof {
            lemma_le_bytes_len(v, n as nat);
            lemma_le_bytes_len(v, S as nat);
        }
        let mut i: usize = 0;
        while i < z
            invariant
                z <= n,
                z <= S,
                i <= z,
                n == C::spec_bytes(),
                bytes@ == le_bytes_of(v, n as nat),
                le_bytes_of(v, n as nat).len() == n,
                le_bytes_of(v, S as nat).len() == S,
                forall|j: int| 0 <= j < i ==> repr@[j] == le_bytes_of(v, S as nat)[j],
            decreases z - i,
        {
            proof {
                lemma_le_bytes_agree(v, n as nat, S as nat, i as int);
            }
            repr[i] = bytes[i];
            i = i + 1;
        }
        while i < S
            invariant
                z <= i <= S,
                z == n || z == S,
                v < pow2(8 * C::spec_bytes()),
                n == C::spec_bytes(),
                le_bytes_of(v, S as nat).len() == S,
                forall|j: int| 0 <= j < i ==> repr@[j] == le_bytes_of(v, S as nat)[j],
            decreases S - i,
        {
            proof {
                lemma_le_bytes_zero_above(v, n as nat, S as nat, i as int);
            }
            repr[i] = 0;
            i = i + 1;
        }
        proof {
            assert(repr@ =~= le_bytes_of(v, S as nat));
            lemma_bit_len_bound(v, B as nat);
            lemma_pow2_monotone(B as nat, 8 * S as nat);
            lemma_le_bytes_value(v, S as nat);
            lemma_load_clears_high_bytes(v, C::spec_bytes(), S as nat);
        }
        self.repr = repr;
        self
    }

    /// A wire with every bit zero, or `None` when `S` is not `ceil(B / 8)`.
    pub fn try_new() -> (r: Option<Self>)
        ensures
            r is Some <==> S == spec_num_bytes(B as int),
            r matches Some(w) ==> w@ == Seq::new(S as nat, |_i: int| 0u8) && w.value() == 0,
    {
        if S == num_bytes(B) {
            Some(Self::new())
        } else {
            None
        }
    }

    /// A wire holding `val`, which must need no more than `B` bits.
    pub fn new_with_val<C: IntoBits>(val: C) -> (w: Self)
        requires
            S == spec_num_bytes(B as int),
            bit_len(val.spec_value()) <= B,
        ensures
            w@ == le_bytes_of(val.spec_value(), S as nat),
            w.value() == val.spec_value(),
    {
        let mut wire = Self::new();
        wire.set(val);
        wire
    }

    /// Loads `val` when it needs no more than `B` bits, as `set` does;
    /// otherwise leaves the wire as it was and says how many bits the value
    /// needs.
    pub fn try_set<C: IntoBits>(&mut self, val: C) -> (r: Result<(), TooManyBits>)
        ensures
            bit_len(val.spec_value()) <= B ==> {
                &&& r is Ok
                &&& final(self)@ == le_bytes_of(val.spec_value(), S as nat)
                &&& final(self).value() == val.spec_value()
            },
            bit_len(val.spec_value()) > B ==> {
                &&& r == Err::<(), TooManyBits>(
                    TooManyBits { value_bits: bit_len(val.spec_value()) as usize, wire_bits: B },
                )
                &&& *final(self) == *old(self)
            },
    {
        proof {
            val.lemma_in_range();
            lemma_bit_len_bound(val.spec_value(), 8 * C::spec_bytes());
        }
        let value_bits = (8 * C::bytes() as u32 - val.num_leading_zeros()) as usize;
        if value_bits > B {
            Err(TooManyBits { value_bits, wire_bits: B })
        } else {
            self.set(val);
            Ok(())
        }
    }

    /// Storage byte `idx` (bytes, not bits, are indexed here).
    pub fn byte(&self, idx: usize) -> (r: u8)
        requires
            idx < S,
        ensures
            r == self@[idx as int],
    {
        self.repr[idx]
    }

    /// The storage as `U` bytes, least significant first: the first `S`
    /// bytes are the wire's own, cut off at `U` when `U < S`, and any bytes
    /// beyond them are zero.
    pub fn get_bytes<const U: usize>(&self) -> (r: [u8; U])
        ensures
            r@ == Seq::new(U as nat, |i: int| if i < S { self@[i] } else { 0u8 }),
    {
        let mut out = [0u8; U];
        let z: usize = if U < S { U } else { S };
        let mut i: usize = 0;
        while i < z
            invariant
                z <= U,
                z <= S,
                i <= z,
                forall|j: int| 0 <= j < i ==> out@[j] == self.repr@[j],
                forall|j: int| i <= j < U ==> out@[j] == 0u8,
            decreases z - i,
        {
            out[i] = self.repr[i];
            i = i + 1;
        }
        assert(out@ =~= Seq::new(U as nat, |i: int| if i < S { self@[i] } else { 0u8 }));
        out
    }

    /// Bit `n` of the wire (bit 0 is the least significant): 0 or 1.
    pub fn get_bit(&self, n: usize) -> (r: u8)
        requires
            n < B,
        ensures
            r as nat == bit_at(self.value(), n as nat),
    {
        let bytes = self.storage();
        let (idx, off) = byte_and_offset(n);
        proof {
            lemma_le_value_bit(self@, idx as int, off as nat);
        }
        byte_bit(bytes[idx], off)
    }

    /// The top bit of the wire (bit `B - 1`), as a one-bit wire.
    pub fn get_sign_bit(&self) -> (r: Wire<1, 1>)
        requires
            B > 0,
        ensures
            r.value() == bit_at(self.value(), (B - 1) as nat),
    {
        let bit = self.get_bit(B - 1);
        proof {
            reveal_with_fuel(bit_len, 2);
        }
        Wire::<1, 1>::new_with_val(bit)
    }

    /// The storage bytes, with what the wire's invariant says of them.
    pub(crate) fn storage(&self) -> (r: &[u8])
        ensures
            r@ == self@,
            r@.len() == S,
            S == spec_num_bytes(B as int),
            le_value(r@) < pow2(B as nat),
    {
        proof {
            use_type_invariant(self);
        }
        &self.repr
    }
}

/// Loading then reading back gives the value loaded: for a width of `bits`
/// bits and a value that needs no more than `bits` bits, the value of the
/// `ceil(bits / 8)` bytes that a load stores is the value itself.
pub proof fn lemma_load_round_trip(bits: nat, v: nat)
    requires
        bit_len(v) <= bits,
    ensures
        le_value(le_bytes_of(v, spec_num_bytes(bits as int) as nat)) == v,
{
    let n = spec_num_bytes(bits as int) as nat;
    lemma_bit_len_bound(v, bits);
    lemma_pow2_monotone(bits, 8 * n);
    lemma_le_bytes_value(v, n);
}

/// A load leaves nothing of what the wire held before: the bytes it stores
/// for a value of a `value_bytes`-byte type are zero at every place from
/// `value_bytes` on, and they depend on the new value alone.
pub proof fn lemma_load_clears_high_bytes(v: nat, value_bytes: nat, storage_bytes: nat)
    requires
        v < pow2(8 * value_bytes),
    ensures
        le_bytes_of(v, storage_bytes).len() == storage_bytes,
        forall|i: int|
            value_bytes <= i < storage_bytes ==> #[trigger] le_bytes_of(v, storage_bytes)[i] == 0,
{
    lemma_le_bytes_len(v, storage_bytes);
    assert forall|i: int| value_bytes <= i < storage_bytes implies #[trigger] le_bytes_of(
        v,
        storage_bytes,
    )[i] == 0 by {
        lemma_le_bytes_zero_above(v, value_bytes, storage_bytes, i);
    }
}

/// A wire of no bits takes no nonzero value: every nonzero value needs at
/// least one bit, so loading it is refused.
pub proof fn lemma_zero_width_refuses(v: nat)
    requires
        v > 0,
    ensures
        bit_len(v) > 0,
        spec_num_bytes(0) == 0,
{
}

} // verus!
