//! Support routines for programs running on the simulated machine: Fibonacci,
//! division by 10 without a divide instruction, and the text of numbers as
//! written to the UART.

use vstd::arithmetic::div_mod::{
    lemma_div_by_multiple, lemma_div_denominator, lemma_fundamental_div_mod,
    lemma_fundamental_div_mod_converse,
};
use vstd::arithmetic::power2::{lemma2_to64, lemma_pow2_adds, lemma_pow2_pos, pow2};
use vstd::bits::{lemma_u32_pow2_no_overflow, lemma_u32_shl_is_mul, lemma_u32_shr_is_div};
use vstd::prelude::*;

verus! {

/// The `n`-th Fibonacci number: 0, 1, 1, 2, 3, 5, ...
pub open spec fn fib(n: nat) -> nat
    decreases n,
{
    if n <= 1 {
        n
    } else {
        fib((n - 2) as nat) + fib((n - 1) as nat)
    }
}

/// The `n`-th Fibonacci number modulo 2^32, computed with wrapping additions.
pub fn fibonacci(n: u32) -> (r: u32)
    requires
        n < u32::MAX,
    ensures
        r == fib(n as nat) % 0x1_0000_0000,
{
    if n <= 1 {
        return n;
    }
    let mut a: u32 = 0;
    let mut b: u32 = 1;
    let mut i: u32 = 2;
    while i <= n
        invariant
            2 <= i <= n + 1,
            n < u32::MAX,
            a == fib((i - 2) as nat) % 0x1_0000_0000,
            b == fib((i - 1) as nat) % 0x1_0000_0000,
        decreases n + 1 - i,
    {
        let tmp = a.wrapping_add(b);
        proof {
            assert(fib(i as nat) == fib((i - 2) as nat) + fib((i - 1) as nat));
            let x = fib((i - 2) as nat) as int;
            let y = fib((i - 1) as nat) as int;
            let m = 0x1_0000_0000int;
            lemma_fundamental_div_mod(x, m);
            lemma_fundamental_div_mod(y, m);
            lemma_fundamental_div_mod_converse(
                x + y,
                m,
                x / m + y / m + (if a + b >= m { 1int } else { 0 }),
                tmp as int,
            );
        }
        a = b;
        b = tmp;
        i += 1;
    }
    b
}

/// `n / 2^s` splits into its value shifted down by `w` more bits, and its low
/// `w` bits.
proof fn lemma_prefix_split(n: nat, s: nat, w: nat)
    ensures
        n / pow2(s) == pow2(w) * (n / pow2(s + w)) + (n / pow2(s)) % pow2(w),
        n / pow2(s + w) == (n / pow2(s)) / pow2(w),
{
    lemma_pow2_pos(s);
    lemma_pow2_pos(w);
    lemma_pow2_adds(s, w);
    lemma_div_denominator(n as int, pow2(s) as int, pow2(w) as int);
    lemma_fundamental_div_mod((n / pow2(s)) as int, pow2(w) as int);
}

proof fn lemma_shift_in_bit(r: u32, bit: u32)
    by (bit_vector)
    requires
        r < 10,
        bit < 2,
    ensures
        (r << 1) | bit == 2 * r + bit,
{
}

proof fn lemma_low_bits(x: u32)
    by (bit_vector)
    ensures
        x & 1 == x % 2,
        x & 0xF == x % 16,
{
}

proof fn lemma_set_clear_bit(q: u32, i: u32)
    by (bit_vector)
    requires
        i < 32,
        (q >> i) & 1 == 0,
    ensures
        q | (1u32 << i) == q + (1u32 << i),
{
}

/// The quotient and remainder of `n` by 10, by binary long division: no divide
/// instruction is needed.
pub fn divmod10(n: u32) -> (qr: (u32, u32))
    ensures
        qr.0 == n / 10,
        qr.1 == n % 10,
{
    let mut q: u32 = 0;
    let mut r: u32 = 0;
    let mut i: i32 = 31;
    proof {
        lemma2_to64();
        assert(n as nat / pow2(32) == 0);
    }
    while i >= 0
        invariant
            -1 <= i <= 31,
            r == (n as nat / pow2((i + 1) as nat)) % 10,
            q == (n as nat / pow2((i + 1) as nat)) / 10 * pow2((i + 1) as nat),
        decreases i + 1,
    {
        let ghost s = i as nat;
        let ghost p = n as nat / pow2(s + 1);
        let ghost p2 = n as nat / pow2(s);
        proof {
            lemma_prefix_split(n as nat, s, 1);
            lemma2_to64();
            lemma_u32_shr_is_div(n, i as u32);
            lemma_low_bits(n >> (i as u32));
        }
        let bit = (n >> (i as u32)) & 1;
        proof {
            lemma_shift_in_bit(r, bit);
        }
        r = (r << 1) | bit;
        let ghost t = r as int;
        let ghost a: int = (p / 10) as int;
        proof {
            lemma_pow2_pos(s);
            lemma_pow2_adds(s, 1);
            assert(p2 == 20 * a + t) by {
                lemma_fundamental_div_mod(p as int, 10);
            }
        }
        if r >= 10 {
            proof {
                lemma_u32_pow2_no_overflow(s);
                lemma_u32_shl_is_mul(1, i as u32);
                lemma_u32_shr_is_div(q, i as u32);
                assert(q == (2 * a) * pow2(s)) by (nonlinear_arith)
                    requires
                        q == a * pow2(s + 1),
                        pow2(s + 1) == pow2(s) * 2,
                ;
                lemma_div_by_multiple(2 * a, pow2(s) as int);
                lemma_low_bits(q >> (i as u32));
                lemma_set_clear_bit(q, i as u32);
            }
            r = r.wrapping_sub(10);
            q |= 1 << (i as u32);
            proof {
                lemma_fundamental_div_mod_converse(p2 as int, 10, 2 * a + 1, t - 10);
                assert(q == (2 * a + 1) * pow2(s)) by (nonlinear_arith)
                    requires
                        q == a * pow2(s + 1) + pow2(s),
                        pow2(s + 1) == pow2(s) * 2,
                ;
            }
        } else {
            proof {
                lemma_fundamental_div_mod_converse(p2 as int, 10, 2 * a, t);
                assert(q == (2 * a) * pow2(s)) by (nonlinear_arith)
                    requires
                        q == a * pow2(s + 1),
                        pow2(s + 1) == pow2(s) * 2,
                ;
            }
        }
        i -= 1;
    }
    proof {
        lemma2_to64();
        assert(pow2(0) == 1);
        assert(n as nat / pow2(0) == n);
        assert(q == (n as nat / 10) * 1);
    }
    (q, r)
}

/// ASCII '0'.
pub const ASCII_ZERO: u8 = 48;

/// ASCII 'a'.
pub const ASCII_LOWER_A: u8 = 97;

/// ASCII 'x'.
pub const ASCII_X: u8 = 120;

/// ASCII '-'.
pub const ASCII_MINUS: u8 = 45;

/// The decimal digits of `n` in ASCII, most significant first, without leading zeros.
pub open spec fn decimal_digits(n: nat) -> Seq<u8>
    decreases n,
{
    if n < 10 {
        seq![(48 + n) as u8]
    } else {
        decimal_digits(n / 10).push((48 + n % 10) as u8)
    }
}

/// The lower-case ASCII hex digit for `d < 16`.
pub open spec fn hex_digit(d: nat) -> u8 {
    if d < 10 {
        (48 + d) as u8
    } else {
        (97 + d - 10) as u8
    }
}

/// The hex digits of `n` in lower-case ASCII, most significant first, without
/// leading zeros.
pub open spec fn hex_digits(n: nat) -> Seq<u8>
    decreases n,
{
    if n < 16 {
        seq![hex_digit(n)]
    } else {
        hex_digits(n / 16).push(hex_digit(n % 16))
    }
}

/// Appends the decimal digits of `n` to `out`.
fn print_u32_inner(n: u32, out: &mut Vec<u8>)
    ensures
        final(out)@ == old(out)@ + decimal_digits(n as nat),
    decreases n,
{
    if n >= 10 {
        let (q, r) = divmod10(n);
        print_u32_inner(q, out);
        out.push(ASCII_ZERO + r as u8);
        proof {
            assert(decimal_digits(n as nat) == decimal_digits(q as nat).push((48 + r) as u8));
            assert(final(out)@ =~= old(out)@ + decimal_digits(n as nat));
        }
    } else {
        out.push(ASCII_ZERO + n as u8);
        proof {
            assert(final(out)@ =~= old(out)@ + decimal_digits(n as nat));
        }
    }
}

/// The decimal text of `n`.
pub fn format_u32(n: u32) -> (text: Vec<u8>)
    ensures
        text@ == decimal_digits(n as nat),
{
    let mut out: Vec<u8> = Vec::new();
    print_u32_inner(n, &mut out);
    assert(out@ =~= decimal_digits(n as nat));
    out
}

proof fn lemma_negate(n: i32)
    by (bit_vector)
    requires
        n < 0,
    ensures
        ((!n) as u32) as int + 1 == -(n as int),
{
}

/// The decimal text of `n`, with a leading '-' when it is negative.
pub fn format_i32(n: i32) -> (text: Vec<u8>)
    ensures
        text@ == if n < 0 {
            seq![45u8] + decimal_digits((-n) as nat)
        } else {
            decimal_digits(n as nat)
        },
{
    let mut out: Vec<u8> = Vec::new();
    if n < 0 {
        out.push(ASCII_MINUS);
        proof {
            lemma_negate(n);
        }
        print_u32_inner((!n as u32).wrapping_add(1), &mut out);
    } else {
        print_u32_inner(n as u32, &mut out);
    }
    assert(out@ =~= if n < 0 {
        seq![45u8] + decimal_digits((-n) as nat)
    } else {
        decimal_digits(n as nat)
    });
    out
}

/// "0x" followed by the lower-case hex digits of `n` without leading zeros ("0x0"
/// for zero).
pub fn format_hex(n: u32) -> (text: Vec<u8>)
    ensures
        text@ == seq![48u8, 120u8] + hex_digits(n as nat),
{
    let mut out: Vec<u8> = Vec::new();
    out.push(ASCII_ZERO);
    out.push(ASCII_X);
    let ghost prefix = out@;
    if n == 0 {
        out.push(ASCII_ZERO);
        assert(out@ =~= seq![48u8, 120u8] + hex_digits(n as nat));
        return out;
    }
    let mut started = false;
    let mut shift: i32 = 28;
    proof {
        lemma2_to64();
        assert(n as nat / pow2(32) == 0);
    }
    while shift >= 0
        invariant
            -4 <= shift <= 28,
            shift % 4 == 0,
            prefix == seq![48u8, 120u8],
            started == (n as nat / pow2((shift + 4) as nat) != 0),
            out@ == prefix + (if n as nat / pow2((shift + 4) as nat) == 0 {
                Seq::<u8>::empty()
            } else {
                hex_digits(n as nat / pow2((shift + 4) as nat))
            }),
        decreases shift + 4,
    {
        let ghost s = shift as nat;
        let ghost p = n as nat / pow2(s + 4);
        let ghost p2 = n as nat / pow2(s);
        proof {
            lemma_prefix_split(n as nat, s, 4);
            lemma2_to64();
            lemma_u32_shr_is_div(n, shift as u32);
            lemma_low_bits(n >> (shift as u32));
            lemma_fundamental_div_mod_converse(p2 as int, 16, p as int, (p2 % 16) as int);
        }
        let nibble = ((n >> (shift as u32)) & 0xF) as u8;
        if nibble != 0 || started {
            out.push(
                if nibble < 10 {
                    ASCII_ZERO + nibble
                } else {
                    ASCII_LOWER_A + nibble - 10
                },
            );
            started = true;
            proof {
                if p == 0 {
                    assert(hex_digits(p2) == seq![hex_digit(p2)]);
                    assert(out@ =~= prefix + hex_digits(p2));
                } else {
                    assert(hex_digits(p2) == hex_digits(p).push(hex_digit(nibble as nat)));
                    assert(out@ =~= prefix + hex_digits(p2));
                }
            }
        }
        shift -= 4;
    }
    proof {
        lemma2_to64();
        assert(n as nat / pow2(0) == n);
    }
    out
}

} // verus!
