//! The arithmetic that maps bits onto bytes: how many bytes a number of bits
//! needs, where a bit lives, and how an unsigned value is laid out as
//! little-endian bytes.

use vstd::arithmetic::div_mod::{
    lemma_div_denominator, lemma_fundamental_div_mod, lemma_fundamental_div_mod_converse,
    lemma_mod_breakdown, lemma_mod_mod,
};
use vstd::arithmetic::power2::{lemma2_to64, lemma_pow2_adds, lemma_pow2_pos, lemma_pow2_unfold, pow2};
use vstd::prelude::*;

verus! {

/// `ceil(bits / 8)`: the number of bytes that back `bits` bits.
pub open spec fn spec_num_bytes(bits: int) -> int {
    (bits + 7) / 8
}

/// The number of bits needed to write `v` in binary (0 needs none).
pub open spec fn bit_len(v: nat) -> nat
    decreases v,
{
    if v == 0 {
        0
    } else {
        1 + bit_len(v / 2)
    }
}

/// The unsigned value that the bytes `s` spell out, least significant first.
pub open spec fn le_value(s: Seq<u8>) -> nat
    decreases s.len(),
{
    if s.len() == 0 {
        0
    } else {
        s[0] as nat + 256 * le_value(s.drop_first())
    }
}

/// The `n` low-order bytes of `v`, least significant first.
pub open spec fn le_bytes_of(v: nat, n: nat) -> Seq<u8>
    decreases n,
{
    if n == 0 {
        Seq::empty()
    } else {
        seq![(v % 256) as u8] + le_bytes_of(v / 256, (n - 1) as nat)
    }
}

/// `pow2(8 * (n + 1)) == 256 * pow2(8 * n)`: one more byte multiplies the
/// range by 256.
pub proof fn lemma_pow2_byte_step(n: nat)
    ensures
        pow2(8 * (n + 1)) == 256 * pow2(8 * n),
{
    lemma2_to64();
    lemma_pow2_adds(8 * n, 8);
    assert(8 * (n + 1) == 8 * n + 8) by (nonlinear_arith);
}

/// A value needs at most `k` bits exactly when it is below `2^k`.
pub proof fn lemma_bit_len_bound(v: nat, k: nat)
    ensures
        bit_len(v) <= k <==> v < pow2(k),
    decreases k,
{
    lemma_pow2_pos(k);
    if k == 0 {
        lemma2_to64();
    } else if v != 0 {
        lemma_bit_len_bound(v / 2, (k - 1) as nat);
        lemma_pow2_unfold(k);
    }
}

/// More bits never shrink the range: `j <= k` gives `pow2(j) <= pow2(k)`.
pub proof fn lemma_pow2_monotone(j: nat, k: nat)
    requires
        j <= k,
    ensures
        pow2(j) <= pow2(k),
    decreases k,
{
    if j < k {
        lemma_pow2_monotone(j, (k - 1) as nat);
        lemma_pow2_unfold(k);
    }
}

/// The bytes of `v` laid out over `n` places are exactly `n` bytes long.
pub proof fn lemma_le_bytes_len(v: nat, n: nat)
    ensures
        le_bytes_of(v, n).len() == n,
    decreases n,
{
    if n > 0 {
        lemma_le_bytes_len(v / 256, (n - 1) as nat);
    }
}

/// A value that fits in `n` bytes is read back unchanged from its layout.
pub proof fn lemma_le_bytes_value(v: nat, n: nat)
    requires
        v < pow2(8 * n),
    ensures
        le_value(le_bytes_of(v, n)) == v,
    decreases n,
{
    lemma_le_bytes_len(v, n);
    if n == 0 {
        lemma2_to64();
    } else {
        let m = (n - 1) as nat;
        lemma_pow2_byte_step(m);
        lemma_pow2_pos(8 * m);
        assert(v / 256 < pow2(8 * m));
        lemma_le_bytes_value(v / 256, m);
        let s = le_bytes_of(v, n);
        assert(s.drop_first() =~= le_bytes_of(v / 256, m));
    }
}

/// Laying `v` out over `m` or over `n` bytes gives the same byte wherever
/// both layouts have one.
pub proof fn lemma_le_bytes_agree(v: nat, m: nat, n: nat, i: int)
    requires
        0 <= i < m,
        i < n,
    ensures
        le_bytes_of(v, m)[i] == le_bytes_of(v, n)[i],
    decreases i,
{
    lemma_le_bytes_len(v / 256, (m - 1) as nat);
    lemma_le_bytes_len(v / 256, (n - 1) as nat);
    if i > 0 {
        lemma_le_bytes_agree(v / 256, (m - 1) as nat, (n - 1) as nat, i - 1);
    }
}

/// A value below `2^(8k)` has only zero bytes from place `k` on.
pub proof fn lemma_le_bytes_zero_above(v: nat, k: nat, n: nat, i: int)
    requires
        v < pow2(8 * k),
        k <= i < n,
    ensures
        le_bytes_of(v, n)[i] == 0,
    decreases i,
{
    lemma_le_bytes_len(v / 256, (n - 1) as nat);
    if k == 0 {
        lemma2_to64();
        assert(v == 0);
        if i > 0 {
            lemma_le_bytes_zero_above(v / 256, 0, (n - 1) as nat, i - 1);
        }
    } else {
        lemma_pow2_byte_step((k - 1) as nat);
        lemma_pow2_pos(8 * (k - 1) as nat);
        lemma_le_bytes_zero_above(v / 256, (k - 1) as nat, (n - 1) as nat, i - 1);
    }
}

/// Reading from place `i` on is reading byte `i` and then, 256 times over,
/// the places after it.
pub proof fn lemma_le_value_step(s: Seq<u8>, i: int)
    requires
        0 <= i < s.len(),
    ensures
        le_value(s.subrange(i, s.len() as int)) == s[i] as nat + 256 * le_value(
            s.subrange(i + 1, s.len() as int),
        ),
{
    let t = s.subrange(i, s.len() as int);
    assert(t.drop_first() =~= s.subrange(i + 1, s.len() as int));
}

/// The value of a tail of the bytes never exceeds the value of them all.
pub proof fn lemma_le_value_suffix(s: Seq<u8>, i: int)
    requires
        0 <= i <= s.len(),
    ensures
        le_value(s.subrange(i, s.len() as int)) <= le_value(s),
    decreases i,
{
    if i == 0 {
        assert(s.subrange(0, s.len() as int) =~= s);
    } else {
        lemma_le_value_step(s, i - 1);
        lemma_le_value_suffix(s, i - 1);
    }
}

/// Bit `o` of `x` as a number: 0 or 1.
pub open spec fn bit_at(x: nat, o: nat) -> nat {
    (x / pow2(o)) % 2
}

/// Byte `k` of the bytes is the `k`-th base-256 digit of their value.
pub proof fn lemma_le_value_byte(s: Seq<u8>, k: int)
    requires
        0 <= k < s.len(),
    ensures
        (le_value(s) / pow2(8 * k as nat)) % 256 == s[k] as nat,
    decreases k,
{
    let rest = le_value(s.drop_first()) as int;
    lemma_fundamental_div_mod_converse(le_value(s) as int, 256, rest, s[0] as int);
    if k == 0 {
        lemma2_to64();
        assert(le_value(s) / pow2(0) == le_value(s));
    } else {
        let m = (k - 1) as nat;
        lemma_pow2_byte_step(m);
        lemma_pow2_pos(8 * m);
        lemma_div_denominator(le_value(s) as int, 256, pow2(8 * m) as int);
        lemma_le_value_byte(s.drop_first(), k - 1);
        assert(8 * k as nat == 8 * (m + 1));
    }
}

/// Bit `o` of `x` reads the same in `x` and in `x` cut down to any multiple
/// of `2^(o + 1)`.
proof fn lemma_bit_at_mod(x: nat, o: nat, m: nat)
    requires
        m > 0,
    ensures
        bit_at(x, o) == bit_at(x % (2 * pow2(o) * m), o),
{
    let p = pow2(o) as int;
    lemma_pow2_pos(o);
    let w = (x as int % (2 * p * m)) as nat;
    lemma_mod_mod(x as int, 2 * p, m as int);
    lemma_bit_at_low(x, o);
    lemma_bit_at_low(w, o);
}

/// Bit `o` of `x` is what remains of `x` modulo `2^(o + 1)`, divided by
/// `2^o`.
proof fn lemma_bit_at_low(x: nat, o: nat)
    ensures
        bit_at(x, o) == (x % (2 * pow2(o))) / pow2(o),
{
    let p = pow2(o) as int;
    let xi = x as int;
    lemma_pow2_pos(o);
    lemma_mod_breakdown(xi, p, 2);
    lemma_fundamental_div_mod(xi, p);
    lemma_fundamental_div_mod_converse(xi % (p * 2), p, (xi / p) % 2, xi % p);
}

/// Bit `8k + o` of the value is bit `o` of byte `k`.
pub proof fn lemma_le_value_bit(s: Seq<u8>, k: int, o: nat)
    requires
        0 <= k < s.len(),
        o < 8,
    ensures
        bit_at(le_value(s), (8 * k + o) as nat) == bit_at(s[k] as nat, o),
{
    let x = le_value(s);
    let kk = 8 * k as nat;
    lemma_pow2_pos(kk);
    lemma_pow2_pos(o);
    lemma_pow2_adds(kk, o);
    lemma_div_denominator(x as int, pow2(kk) as int, pow2(o) as int);
    let y = x / pow2(kk);
    assert(bit_at(x, (8 * k + o) as nat) == bit_at(y, o));
    lemma_le_value_byte(s, k);
    lemma_pow2_adds(o, 1);
    lemma_pow2_adds(o + 1, (7 - o) as nat);
    lemma2_to64();
    lemma_pow2_pos((7 - o) as nat);
    assert(pow2(o + 1) == 2 * pow2(o)) by {
        lemma_pow2_unfold(o + 1);
    }
    assert(2 * pow2(o) * pow2((7 - o) as nat) == 256);
    lemma_bit_at_mod(y, o, pow2((7 - o) as nat));
}

/// The number of bytes needed to hold `bits` bits: `bits` divided by 8,
/// rounded up.
///
///  bits | bytes
///    0  |   0
///    1  |   1
///    7  |   1
///    8  |   1
///    9  |   2
///
/// The result is computed without forming `bits + 7`, so it is exact for
/// every `usize`.
pub fn num_bytes(bits: usize) -> (r: usize)
    ensures
        r == spec_num_bytes(bits as int),
{
    if bits % 8 == 0 {
        bits / 8
    } else {
        bits / 8 + 1
    }
}

/// For a bit index (0-based), the index of the byte that holds it and the
/// position of the bit within that byte.
///
///  bit | byte, offset
///   0  |   0     0
///   7  |   0     7
///   8  |   1     0
///   9  |   1     1
///  16  |   2     0
pub fn byte_and_offset(bit: usize) -> (r: (usize, usize))
    ensures
        r.0 == bit / 8,
        r.1 == bit % 8,
        r.1 < 8,
        bit == 8 * r.0 + r.1,
{
    (bit / 8, bit % 8)
}

/// The `n` low-order bytes of `v`, least significant first.
pub(crate) fn le_bytes_u128(v: u128, n: usize) -> (r: Vec<u8>)
    ensures
        r@ == le_bytes_of(v as nat, n as nat),
{
    let mut out: Vec<u8> = Vec::new();
    let mut rest: u128 = v;
    let mut i: usize = 0;
    proof {
        lemma_le_bytes_len(v as nat, n as nat);
    }
    while i < n
        invariant
            i <= n,
            out@ + le_bytes_of(rest as nat, (n - i) as nat) == le_bytes_of(v as nat, n as nat),
        decreases n - i,
    {
        let ghost before = out@;
        let ghost tail = le_bytes_of((rest / 256) as nat, (n - i - 1) as nat);
        out.push((rest % 256) as u8);
        rest = rest / 256;
        i = i + 1;
        assert(before + (seq![(out@.last())] + tail) =~= out@ + tail);
    }
    assert(out@ + le_bytes_of(rest as nat, 0) =~= out@);
    out
}

/// The number of bits needed to write `v` in binary.
pub(crate) fn bit_length(v: u128) -> (r: u32)
    ensures
        r == bit_len(v as nat),
        r <= 128,
{
    proof {
        lemma_bit_len_bound(v as nat, 128);
        vstd::layout::unsigned_int_max_values();
    }
    let mut rest: u128 = v;
    let mut n: u32 = 0;
    while rest > 0
        invariant
            n + bit_len(rest as nat) == bit_len(v as nat),
            bit_len(v as nat) <= 128,
        decreases rest,
    {
        rest = rest / 2;
        n = n + 1;
    }
    n
}

/// The value that `bytes` spell out, least significant first, when it fits
/// in 128 bits.
pub(crate) fn le_fold(bytes: &[u8]) -> (r: u128)
    requires
        le_value(bytes@) <= u128::MAX,
    ensures
        r == le_value(bytes@),
{
    let len = bytes.len();
    let mut acc: u128 = 0;
    let mut i: usize = len;
    proof {
        assert(bytes@.subrange(len as int, len as int) =~= Seq::<u8>::empty());
    }
    while i > 0
        invariant
            i <= len == bytes@.len(),
            acc == le_value(bytes@.subrange(i as int, len as int)),
            le_value(bytes@) <= u128::MAX,
        decreases i,
    {
        proof {
            lemma_le_value_step(bytes@, i - 1);
            lemma_le_value_suffix(bytes@, i - 1);
        }
        acc = acc * 256 + bytes[i - 1] as u128;
        i = i - 1;
    }
    proof {
        assert(bytes@.subrange(0, len as int) =~= bytes@);
    }
    acc
}

/// Bit `o` of the byte `b`: 0 or 1.
pub(crate) fn byte_bit(b: u8, o: usize) -> (r: u8)
    requires
        o < 8,
    ensures
        r as nat == bit_at(b as nat, o as nat),
{
    let mut rest: u8 = b;
    let mut i: usize = 0;
    proof {
        lemma2_to64();
    }
    while i < o
        invariant
            i <= o < 8,
            rest as nat == b as nat / pow2(i as nat),
        decreases o - i,
    {
        proof {
            lemma_pow2_pos(i as nat);
            lemma_div_denominator(b as int, pow2(i as nat) as int, 2);
            lemma_pow2_unfold((i + 1) as nat);
        }
        rest = rest / 2;
        i = i + 1;
    }
    rest % 2
}

} // verus!
