//! The arithmetic meaning of RV32E-16B instruction fields and ALU operations.
//! Fields are read off the instruction word by division and remainder by powers
//! of two; register values are 32-bit words read modulo 2^32.

use vstd::arithmetic::div_mod::{
    lemma_fundamental_div_mod, lemma_fundamental_div_mod_converse, lemma_mod_pos_bound,
};
use vstd::arithmetic::mul::lemma_mul_upper_bound;
use vstd::arithmetic::power2::{lemma_pow2_pos, pow2};
use vstd::bits::{lemma_u32_pow2_no_overflow, lemma_u32_shr_is_div, lemma_u64_shl_is_mul};
use vstd::prelude::*;

verus! {

/// 2^32, the number of distinct register values.
pub open spec fn word_modulus() -> int {
    0x1_0000_0000
}

/// The 32-bit word congruent to `x` modulo 2^32.
pub open spec fn wrap(x: int) -> u32 {
    (x % word_modulus()) as u32
}

/// A register value read as a two's-complement signed integer.
pub open spec fn signed(x: u32) -> int {
    if x < 0x8000_0000 {
        x as int
    } else {
        x - word_modulus()
    }
}

/// Two's-complement reading of a field whose top bit has weight `top`.
pub open spec fn sign_extend(v: int, top: int) -> int {
    if v >= top {
        v - 2 * top
    } else {
        v
    }
}

/// bits [6:0]
pub open spec fn opcode_field(inst: u32) -> u32 {
    inst % 0x80
}

/// bits [10:7]: the four-bit destination register of RV32E.
pub open spec fn rd_field(inst: u32) -> u8 {
    ((inst / 0x80) % 0x10) as u8
}

/// bits [18:15]
pub open spec fn rs1_field(inst: u32) -> u8 {
    ((inst / 0x8000) % 0x10) as u8
}

/// bits [23:20]
pub open spec fn rs2_field(inst: u32) -> u8 {
    ((inst / 0x10_0000) % 0x10) as u8
}

/// bits [14:12]
pub open spec fn funct3_field(inst: u32) -> u32 {
    (inst / 0x1000) % 0x8
}

/// bits [31:25]
pub open spec fn funct7_field(inst: u32) -> u32 {
    inst / 0x200_0000
}

/// I-type immediate: bits [31:20], sign-extended.
pub open spec fn imm_i_field(inst: u32) -> i32 {
    sign_extend((inst / 0x10_0000) as int, 0x800) as i32
}

/// S-type immediate: imm[11:5] = bits [31:25], imm[4:0] = bits [11:7], sign-extended.
pub open spec fn imm_s_field(inst: u32) -> i32 {
    sign_extend((inst / 0x200_0000) * 0x20 + (inst / 0x80) % 0x20, 0x800) as i32
}

/// B-type immediate: imm[12] = bit 31, imm[11] = bit 7, imm[10:5] = bits [30:25],
/// imm[4:1] = bits [11:8], imm[0] = 0, sign-extended.
pub open spec fn imm_b_field(inst: u32) -> i32 {
    sign_extend(
        (inst / 0x8000_0000) * 0x1000 + ((inst / 0x80) % 2) * 0x800 + ((inst / 0x200_0000) % 0x40)
            * 0x20 + ((inst / 0x100) % 0x10) * 2,
        0x1000,
    ) as i32
}

/// U-type immediate: bits [31:12] in place, low twelve bits zero.
pub open spec fn imm_u_field(inst: u32) -> u32 {
    ((inst / 0x1000) * 0x1000) as u32
}

/// J-type immediate: imm[20] = bit 31, imm[19:12] = bits [19:12], imm[11] = bit 20,
/// imm[10:1] = bits [30:21], imm[0] = 0, sign-extended.
pub open spec fn imm_j_field(inst: u32) -> i32 {
    sign_extend(
        (inst / 0x8000_0000) * 0x10_0000 + ((inst / 0x1000) % 0x100) * 0x1000 + ((inst / 0x10_0000)
            % 2) * 0x800 + ((inst / 0x20_0000) % 0x400) * 2,
        0x10_0000,
    ) as i32
}

/// Shift left, bits shifted out of the word are lost.
pub open spec fn shift_left(x: u32, amount: nat) -> u32 {
    wrap(x * pow2(amount))
}

/// Logical shift right.
pub open spec fn shift_right_logical(x: u32, amount: nat) -> u32 {
    (x as nat / pow2(amount)) as u32
}

/// Arithmetic shift right: the signed value divided by 2^amount, rounded down.
pub open spec fn shift_right_arith(x: u32, amount: nat) -> u32 {
    wrap(signed(x) / (pow2(amount) as int))
}

/// The word with its lowest bit cleared.
pub open spec fn clear_low_bit(x: u32) -> u32 {
    (x - x % 2) as u32
}

/// The low 16 bits of a word.
pub open spec fn low_half(x: u32) -> u16 {
    (x % 0x1_0000) as u16
}

/// Reduction modulo 2^32 keeps an even number even.
pub proof fn lemma_wrap_even(x: int)
    requires
        x % 2 == 0,
    ensures
        wrap(x) % 2 == 0,
{
    lemma_fundamental_div_mod(x, word_modulus());
}

pub proof fn lemma_wrapping_add(a: u32, b: u32)
    ensures
        a.wrapping_add(b) == wrap(a + b),
{
}

/// Adding a sign-extended immediate to a word, modulo 2^32.
pub proof fn lemma_wrapping_add_signed(a: u32, imm: i32)
    ensures
        a.wrapping_add(imm as u32) == wrap(a + imm),
{
    lemma_i32_to_u32(imm);
    assert(wrap(a + wrap(imm as int)) == wrap(a + imm));
}

pub proof fn lemma_wrapping_sub(a: u32, b: u32)
    ensures
        a.wrapping_sub(b) == wrap(a - b),
{
}

pub proof fn lemma_i32_to_u32(i: i32)
    ensures
        i as u32 == wrap(i as int),
{
    assert((i as u32) as int == if i >= 0 {
        i as int
    } else {
        i + 0x1_0000_0000
    }) by (bit_vector);
}

pub proof fn lemma_u32_to_i32(a: u32)
    ensures
        a as i32 as int == signed(a),
{
    assert((a as i32) as int == if a < 0x8000_0000 {
        a as int
    } else {
        a - 0x1_0000_0000
    }) by (bit_vector);
}

/// Facts on masks and truncations that the simulator's word operations use.
pub proof fn lemma_masks(x: u32)
    by (bit_vector)
    ensures
        x & 0x1F == x % 0x20,
        x & !1u32 == x - x % 2,
        x as u16 == x % 0x1_0000,
{
}

pub proof fn lemma_cell_sign_extend(v: u16)
    ensures
        v as i16 as i32 as u32 == wrap(sign_extend(v as int, 0x8000)),
{
    assert((v as i16 as i32 as u32) as int == if v >= 0x8000 {
        v + 0xFFFF_0000
    } else {
        v as int
    }) by (bit_vector);
}

pub proof fn lemma_shift_left(a: u32, s: u32)
    requires
        s < 32,
    ensures
        a << s == shift_left(a, s as nat),
{
    assert(a << s == (((a as u64) << (s as u64)) as u32)) by (bit_vector)
        requires
            s < 32,
    ;
    lemma_u32_pow2_no_overflow(s as nat);
    lemma_mul_upper_bound(a as int, 0xFFFF_FFFF, pow2(s as nat) as int, 0xFFFF_FFFF);
    lemma_u64_shl_is_mul(a as u64, s as u64);
    let w: u64 = (a as u64) << (s as u64);
    assert(w as u32 == w % 0x1_0000_0000) by (bit_vector);
}

pub proof fn lemma_shift_right_logical(a: u32, s: u32)
    requires
        s < 32,
    ensures
        a >> s == shift_right_logical(a, s as nat),
{
    lemma_u32_shr_is_div(a, s);
}

pub proof fn lemma_shift_right_arith(a: u32, s: u32)
    requires
        s < 32,
    ensures
        ((a as i32) >> s) as u32 == shift_right_arith(a, s as nat),
{
    assert(((a as i32) >> s) as u32 == if a < 0x8000_0000 {
        a >> s
    } else {
        !((!a) >> s)
    }) by (bit_vector)
        requires
            s < 32,
    ;
    lemma_u32_shr_is_div(a, s);
    lemma_pow2_pos(s as nat);
    let d = pow2(s as nat) as int;
    if a < 0x8000_0000 {
        assert(signed(a) / d <= a) by (nonlinear_arith)
            requires
                signed(a) == a,
                d > 0,
                a >= 0,
        ;
    } else {
        let m: u32 = !a;
        assert(m == 0xFFFF_FFFF - a) by (bit_vector)
            requires
                m == !a,
        ;
        lemma_u32_shr_is_div(m, s);
        let q = m as int / d;
        let r = m as int % d;
        lemma_fundamental_div_mod(m as int, d);
        lemma_mod_pos_bound(m as int, d);
        assert(0 <= q <= m) by (nonlinear_arith)
            requires
                d > 0,
                q == m as int / d,
                m >= 0,
        ;
        assert(signed(a) == (-1 - q) * d + (d - 1 - r)) by (nonlinear_arith)
            requires
                signed(a) == -1 - m,
                m == d * q + r,
        ;
        lemma_fundamental_div_mod_converse(signed(a), d, -1 - q, d - 1 - r);
        let t: u32 = m >> s;
        assert(!t == 0xFFFF_FFFF - t) by (bit_vector)
            requires
                t == m >> s,
        ;
    }
}

pub proof fn lemma_shift_amount_width(a: u32, s: u8)
    by (bit_vector)
    requires
        s < 32,
    ensures
        a << s == a << (s as u32),
        a >> s == a >> (s as u32),
        (a as i32) >> s == (a as i32) >> (s as u32),
{
}

} // verus!
