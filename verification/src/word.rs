//! Arithmetic on 32-bit machine words.
//!
//! Registers hold bare bit patterns (`u32`). The functions here give those
//! patterns their two readings, unsigned and two's-complement, and state
//! every operation over unbounded integers.

use vstd::arithmetic::div_mod::lemma_fundamental_div_mod;
use vstd::arithmetic::div_mod::lemma_hoist_over_denominator;
use vstd::arithmetic::div_mod::lemma_basic_div;
use vstd::arithmetic::power2::lemma2_to64;
use vstd::arithmetic::power2::lemma_pow2_adds;
use vstd::arithmetic::power2::lemma_pow2_pos;
use vstd::arithmetic::power2::lemma_pow2_strictly_increases;
use vstd::arithmetic::power2::lemma_pow2_unfold;
use vstd::arithmetic::power2::pow2;
use vstd::bits::lemma_u32_shr_is_div;
use vstd::bits::lemma_u64_low_bits_mask_is_mod;
use vstd::bits::lemma_u64_pow2_no_overflow;
use vstd::bits::lemma_u64_shl_is_mul;
use vstd::bits::low_bits_mask;
use vstd::prelude::*;

verus! {

/// The integer that the word `x` denotes in two's complement.
pub open spec fn signed(x: u32) -> int {
    if x < 0x8000_0000 {
        x as int
    } else {
        x as int - 0x1_0000_0000
    }
}

/// The word that denotes `v` modulo 2^32.
pub open spec fn word(v: int) -> u32 {
    (v % 0x1_0000_0000) as u32
}

/// The integer denoted by the low `bits` bits of `x`, read as a
/// two's-complement number of that width.
pub open spec fn sign_extend(x: u32, bits: nat) -> int {
    let modulus = pow2(bits) as int;
    let low = (x as int) % modulus;
    if 2 * low < modulus {
        low
    } else {
        low - modulus
    }
}

/// The arithmetic shift of `x` right by `shift` bits: the signed reading
/// of the word, divided by 2^shift and rounded down.
pub open spec fn sra(x: u32, shift: u32) -> u32 {
    word(signed(x) / (pow2(shift as nat) as int))
}

/// The bits of `x` shifted right by `shift`, the vacated bits filled with
/// copies of the sign bit.
pub open spec fn sign_replicating_shift(x: u32, shift: u32) -> u32 {
    if x < 0x8000_0000 {
        x >> shift
    } else {
        (x >> shift) | !(0xFFFF_FFFFu32 >> shift)
    }
}

/// Quotient of `a` by `b`, rounded toward zero.
pub open spec fn div_trunc(a: int, b: int) -> int
    recommends
        b != 0,
{
    if a >= 0 && b > 0 {
        a / b
    } else if a >= 0 {
        -(a / (-b))
    } else if b > 0 {
        -((-a) / b)
    } else {
        (-a) / (-b)
    }
}

/// Remainder of `a` by `b` that goes with [`div_trunc`]: it has the sign of
/// the dividend.
pub open spec fn rem_trunc(a: int, b: int) -> int
    recommends
        b != 0,
{
    let magnitude = if b > 0 { b } else { -b };
    if a >= 0 {
        a % magnitude
    } else {
        -((-a) % magnitude)
    }
}

/// Reads a word as a two's-complement integer.
pub fn to_signed(x: u32) -> (r: i32)
    ensures
        r == signed(x),
{
    assert((x as i32) as int == if x < 0x8000_0000u32 {
        x as int
    } else {
        x as int - 0x1_0000_0000
    }) by (bit_vector);
    x as i32
}

/// The bit pattern of a two's-complement integer.
pub fn to_word(x: i32) -> (r: u32)
    ensures
        r == word(x as int),
{
    assert((x as u32) as int == if x >= 0i32 {
        x as int
    } else {
        x as int + 0x1_0000_0000
    }) by (bit_vector);
    x as u32
}

/// Sign-extends the low `size` bits of `data` to 32 bits.
pub fn sign_extend32(data: u32, size: u32) -> (r: i32)
    requires
        1 <= size <= 32,
    ensures
        r == sign_extend(data, size as nat),
{
    let shift: u32 = 32 - size;
    let r: i32 = ((data << shift) as i32) >> shift;
    proof {
        let x: u64 = data as u64;
        let modulus: u64 = 1u64 << size;
        let half: u64 = 1u64 << ((size - 1) as u32);
        let mask: u64 = (modulus - 1) as u64;
        let low: u64 = x & mask;
        lemma_u64_pow2_no_overflow(size as nat);
        lemma_u64_pow2_no_overflow((size - 1) as nat);
        lemma_u64_shl_is_mul(1, size as u64);
        lemma_u64_shl_is_mul(1, (size - 1) as u64);
        lemma_pow2_unfold(size as nat);
        lemma_pow2_pos(size as nat);
        assert(modulus == 2 * half);
        assert(mask == low_bits_mask(size as nat));
        lemma_u64_low_bits_mask_is_mod(x, size as nat);
        assert(low == x % modulus);
        assert(r == (if low < half {
            low as int
        } else {
            low - modulus
        })) by (bit_vector)
            requires
                1 <= size <= 32,
                shift == 32 - size,
                r == ((data << shift) as i32) >> shift,
                x == data as u64,
                modulus == 1u64 << size,
                half == 1u64 << ((size - 1) as u32),
                mask == (modulus - 1) as u64,
                low == x & mask,
        ;
    }
    r
}

/// Shifts a word right, replicating its sign bit.
pub fn shift_right_arithmetic(x: u32, shift: u32) -> (r: u32)
    requires
        shift < 32,
    ensures
        r == sra(x, shift),
{
    proof {
        lemma_sra_replicates(x, shift);
    }
    assert((((x as i32) >> shift) as u32) == (if x < 0x8000_0000u32 {
        x >> shift
    } else {
        (x >> shift) | !(0xFFFF_FFFFu32 >> shift)
    })) by (bit_vector)
        requires
            shift < 32,
    ;
    ((x as i32) >> shift) as u32
}

/// Adds a signed displacement to a word, wrapping around.
pub fn add_signed(base: u32, displacement: i32) -> (r: u32)
    ensures
        r == word(base + displacement),
{
    base.wrapping_add_signed(displacement)
}

/// Adds two words, wrapping around.
pub fn add_words(a: u32, b: u32) -> (r: u32)
    ensures
        r == word(a + b),
{
    a.wrapping_add(b)
}

/// Subtracts a word from another, wrapping around.
pub fn sub_words(a: u32, b: u32) -> (r: u32)
    ensures
        r == word(a - b),
{
    a.wrapping_sub(b)
}

/// The 64-bit product of two words read as signed numbers, split into its
/// upper and lower word.
pub fn mul_signed(a: u32, b: u32) -> (r: (u32, u32))
    ensures
        r.0 == word((signed(a) * signed(b)) / 0x1_0000_0000),
        r.1 == word(signed(a) * signed(b)),
{
    let sa: i64 = to_signed(a) as i64;
    let sb: i64 = to_signed(b) as i64;
    assert(-0x4000_0000_0000_0000 <= sa * sb <= 0x4000_0000_0000_0000) by (nonlinear_arith)
        requires
            -0x8000_0000 <= sa <= 0x7fff_ffff,
            -0x8000_0000 <= sb <= 0x7fff_ffff,
    ;
    let product: i64 = sa * sb;
    assert(((product >> 32) as u32) as int == (product as int / 0x1_0000_0000) % 0x1_0000_0000
        && (product as u32) as int == (product as int) % 0x1_0000_0000) by (bit_vector);
    ((product >> 32) as u32, product as u32)
}

/// The 64-bit product of two words read as unsigned numbers, split into its
/// upper and lower word.
pub fn mul_unsigned(a: u32, b: u32) -> (r: (u32, u32))
    ensures
        r.0 == (a * b) / 0x1_0000_0000,
        r.1 == (a * b) % 0x1_0000_0000,
{
    assert(a * b <= 0xffff_fffe_0000_0001) by (nonlinear_arith);
    let product: u64 = (a as u64) * (b as u64);
    ((product / 0x1_0000_0000) as u32, (product % 0x1_0000_0000) as u32)
}

/// Quotient and remainder of two words read as signed numbers, rounded
/// toward zero. The one quotient that does not fit, -2^31 / -1, wraps.
pub fn div_signed(a: u32, b: u32) -> (r: (u32, u32))
    requires
        b != 0,
    ensures
        r.0 == word(div_trunc(signed(a), signed(b))),
        r.1 == word(rem_trunc(signed(a), signed(b))),
{
    let a_negative: bool = a >= 0x8000_0000;
    let b_negative: bool = b >= 0x8000_0000;
    let a_magnitude: u32 = if a_negative { 0u32.wrapping_sub(a) } else { a };
    let b_magnitude: u32 = if b_negative { 0u32.wrapping_sub(b) } else { b };
    let quotient: u32 = a_magnitude / b_magnitude;
    let remainder: u32 = a_magnitude % b_magnitude;
    (
        if a_negative != b_negative { 0u32.wrapping_sub(quotient) } else { quotient },
        if a_negative { 0u32.wrapping_sub(remainder) } else { remainder },
    )
}

/// Quotient and remainder of two words read as unsigned numbers.
pub fn div_unsigned(a: u32, b: u32) -> (r: (u32, u32))
    requires
        b != 0,
    ensures
        r.0 == a / b,
        r.1 == a % b,
{
    (a / b, a % b)
}

/// The quotient and the remainder of a division that rounds toward zero
/// make up the dividend, and the remainder is smaller than the divisor.
pub proof fn lemma_div_rem_trunc(a: int, b: int)
    requires
        b != 0,
    ensures
        a == b * div_trunc(a, b) + rem_trunc(a, b),
        a >= 0 ==> 0 <= rem_trunc(a, b),
        a <= 0 ==> rem_trunc(a, b) <= 0,
        b > 0 ==> -b < rem_trunc(a, b) < b,
        b < 0 ==> b < rem_trunc(a, b) < -b,
{
    let magnitude = if b > 0 { b } else { -b };
    let dividend = if a >= 0 { a } else { -a };
    lemma_fundamental_div_mod(dividend, magnitude);
    let q = dividend / magnitude;
    assert(b * (-q) == -(b * q) && (-b) * q == -(b * q)) by (nonlinear_arith);
}

/// Dividing the signed reading of a word by a power of two, rounding
/// down, shifts its bits right and replicates the sign bit.
pub proof fn lemma_sra_replicates(x: u32, shift: u32)
    requires
        shift < 32,
    ensures
        sra(x, shift) == sign_replicating_shift(x, shift),
{
    let p = pow2(shift as nat) as int;
    let k = pow2((32 - shift) as nat) as int;
    lemma_pow2_pos(shift as nat);
    lemma_pow2_pos((32 - shift) as nat);
    lemma_pow2_adds(shift as nat, (32 - shift) as nat);
    lemma2_to64();
    assert(p * k == 0x1_0000_0000);
    lemma_u32_shr_is_div(x, shift);
    lemma_u32_shr_is_div(0xFFFF_FFFF, shift);
    lemma_fundamental_div_mod(x as int, p);
    lemma_fundamental_div_mod(signed(x), p);
    assert(0 <= (x as int) / p <= x) by (nonlinear_arith)
        requires
            p >= 1,
            x == p * ((x as int) / p) + (x as int) % p,
            0 <= (x as int) % p < p,
    ;
    if x >= 0x8000_0000 {
        assert((x >> shift) | !(0xFFFF_FFFFu32 >> shift) == (x >> shift) + (0xFFFF_FFFFu32
            - (0xFFFF_FFFFu32 >> shift))) by (bit_vector)
            requires
                shift < 32,
        ;
        lemma_hoist_over_denominator(x as int, -k, p as nat);
        assert((x as int + (-k) * p) == signed(x)) by (nonlinear_arith)
            requires
                p * k == 0x1_0000_0000,
                signed(x) == x - 0x1_0000_0000,
        ;
        lemma_hoist_over_denominator(p - 1, k - 1, p as nat);
        lemma_basic_div(p - 1, p);
        assert((p - 1) + (k - 1) * p == 0xFFFF_FFFF) by (nonlinear_arith)
            requires
                p * k == 0x1_0000_0000,
        ;
    }
}

/// A shift left multiplies by a power of two, modulo 2^32; a logical shift
/// right divides by it, rounding down.
pub proof fn lemma_logical_shifts(x: u32, shift: u32)
    requires
        shift < 32,
    ensures
        x << shift == word(x * pow2(shift as nat)),
        x >> shift == x / (pow2(shift as nat) as u32),
{
    lemma_u32_shr_is_div(x, shift);
    lemma_u64_pow2_no_overflow(shift as nat);
    lemma2_to64();
    lemma_pow2_strictly_increases(shift as nat, 32);
    assert(x * pow2(shift as nat) <= u64::MAX) by (nonlinear_arith)
        requires
            x <= 0xFFFF_FFFF,
            pow2(shift as nat) <= 0x1_0000_0000,
    ;
    lemma_u64_shl_is_mul(x as u64, shift as u64);
    assert((x << shift) as u64 == ((x as u64) << (shift as u64)) % 0x1_0000_0000) by (bit_vector)
        requires
            shift < 32,
    ;
}

/// Sign extension from 16 bits keeps a value below 2^15 and fills the upper
/// half-word of any other with ones.
pub proof fn lemma_sign_extend_16(x: u32)
    requires
        x < 0x1_0000,
    ensures
        x < 0x8000 ==> word(sign_extend(x, 16)) == x,
        x >= 0x8000 ==> word(sign_extend(x, 16)) == x | 0xFFFF_0000,
{
    lemma2_to64();
    assert(x >= 0x8000 && x < 0x1_0000 ==> x | 0xFFFF_0000 == x + 0xFFFF_0000) by (bit_vector);
}

/// Sign extension from 18 bits keeps a value below 2^17 and fills the upper
/// fourteen bits of any other with ones.
pub proof fn lemma_sign_extend_18(x: u32)
    requires
        x < 0x4_0000,
    ensures
        x < 0x2_0000 ==> word(sign_extend(x, 18)) == x,
        x >= 0x2_0000 ==> word(sign_extend(x, 18)) == x | 0xFFFC_0000,
{
    lemma2_to64();
    assert(x >= 0x2_0000 && x < 0x4_0000 ==> x | 0xFFFC_0000 == x + 0xFFFC_0000) by (bit_vector);
}

/// Sign extension from 8 bits keeps a value below 2^7 and fills the upper
/// three bytes of any other with ones.
pub proof fn lemma_sign_extend_8(x: u32)
    requires
        x < 0x100,
    ensures
        x < 0x80 ==> word(sign_extend(x, 8)) == x,
        x >= 0x80 ==> word(sign_extend(x, 8)) == x | 0xFFFF_FF00,
{
    lemma2_to64();
    assert(x >= 0x80 && x < 0x100 ==> x | 0xFFFF_FF00 == x + 0xFFFF_FF00) by (bit_vector);
}

} // verus!
