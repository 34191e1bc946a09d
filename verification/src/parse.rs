//! Numbers given on the command line, in decimal or with a `0x` prefix in hex.

use crate::runtime::{decimal_digits, hex_digit, hex_digits};
use vstd::prelude::*;
use vstd::string::StringSliceAdditionalSpecFns;

verus! {

/// The value of the ASCII digit `c` in base `radix` (10 or 16, either case for
/// hex letters), if it is one.
pub open spec fn digit_value(c: u8, radix: nat) -> Option<nat> {
    if 48 <= c <= 57 && c - 48 < radix {
        Some((c - 48) as nat)
    } else if radix == 16 && 97 <= c <= 102 {
        Some((c - 87) as nat)
    } else if radix == 16 && 65 <= c <= 70 {
        Some((c - 55) as nat)
    } else {
        None
    }
}

/// Every byte of `s` is a digit in base `radix`.
pub open spec fn all_digits(s: Seq<u8>, radix: nat) -> bool {
    forall|i: int| 0 <= i < s.len() ==> (#[trigger] digit_value(s[i], radix)) is Some
}

/// The number that the digits `s` write in base `radix`, most significant first.
pub open spec fn digits_value(s: Seq<u8>, radix: nat) -> nat
    decreases s.len(),
{
    if s.len() == 0 {
        0
    } else {
        digits_value(s.drop_last(), radix) * radix + digit_value(s.last(), radix).unwrap()
    }
}

/// An unsigned number in base `radix`: an optional '+', then one or more digits;
/// `None` for anything else or for a value above `u32::MAX`.
pub open spec fn spec_parse_radix(s: Seq<u8>, radix: nat) -> Option<u32> {
    let body = if s.len() > 0 && s[0] == 43 {
        s.drop_first()
    } else {
        s
    };
    if body.len() == 0 || !all_digits(body, radix) || digits_value(body, radix) > u32::MAX {
        None
    } else {
        Some(digits_value(body, radix) as u32)
    }
}

/// A number with a `0x` or `0X` prefix is hex, any other decimal.
pub open spec fn spec_parse_u32(s: Seq<u8>) -> Option<u32> {
    if s.len() >= 2 && s[0] == 48 && (s[1] == 120 || s[1] == 88) {
        spec_parse_radix(s.subrange(2, s.len() as int), 16)
    } else {
        spec_parse_radix(s, 10)
    }
}

proof fn lemma_digits_value_grows(s: Seq<u8>, radix: nat, k: int)
    requires
        radix >= 1,
        0 <= k <= s.len(),
        all_digits(s, radix),
    ensures
        digits_value(s.take(k), radix) <= digits_value(s, radix),
    decreases s.len() - k,
{
    if k < s.len() {
        lemma_digits_value_grows(s, radix, k + 1);
        let t = s.take(k + 1);
        assert(t.drop_last() =~= s.take(k));
        assert(digit_value(s[k], radix) is Some);
        assert(digits_value(s.take(k), radix) * radix >= digits_value(s.take(k), radix))
            by (nonlinear_arith)
            requires
                radix >= 1,
        ;
    } else {
        assert(s.take(k) =~= s);
    }
}

fn digit(c: u8, radix: u32) -> (d: Option<u32>)
    requires
        radix == 10 || radix == 16,
    ensures
        d matches Some(v) ==> digit_value(c, radix as nat) == Some(v as nat),
        d is None ==> digit_value(c, radix as nat) is None,
{
    if 48 <= c && c <= 57 {
        Some((c - 48) as u32)
    } else if radix == 16 && 97 <= c && c <= 102 {
        Some((c - 87) as u32)
    } else if radix == 16 && 65 <= c && c <= 70 {
        Some((c - 55) as u32)
    } else {
        None
    }
}

/// Parses the bytes `s[start..]` as an unsigned number in base `radix`.
fn parse_radix(s: &[u8], start: usize, radix: u32) -> (r: Option<u32>)
    requires
        radix == 10 || radix == 16,
        start <= s@.len(),
    ensures
        r == spec_parse_radix(s@.subrange(start as int, s@.len() as int), radix as nat),
{
    let ghost whole = s@.subrange(start as int, s@.len() as int);
    let mut i = start;
    if i < s.len() && s[i] == 43 {
        i = i + 1;
    }
    let ghost body = s@.subrange(i as int, s@.len() as int);
    assert(body =~= if whole.len() > 0 && whole[0] == 43 {
        whole.drop_first()
    } else {
        whole
    });
    if i == s.len() {
        assert(body.len() == 0);
        return None;
    }
    // every byte must be a digit
    let mut j = i;
    while j < s.len()
        invariant
            i <= j <= s@.len(),
            radix == 10 || radix == 16,
            body == s@.subrange(i as int, s@.len() as int),
            whole == s@.subrange(start as int, s@.len() as int),
            body == (if whole.len() > 0 && whole[0] == 43 {
                whole.drop_first()
            } else {
                whole
            }),
            forall|k: int| 0 <= k < j - i ==> (#[trigger] digit_value(body[k], radix as nat)) is Some,
        decreases s.len() - j,
    {
        if digit(s[j], radix).is_none() {
            assert(body[j - i] == s@[j as int]);
            assert(digit_value(body[j - i], radix as nat) is None);
            assert(!all_digits(body, radix as nat));
            return None;
        }
        j = j + 1;
    }
    assert(all_digits(body, radix as nat));
    // the value, refused as soon as it exceeds u32::MAX
    let mut acc: u64 = 0;
    let mut j = i;
    while j < s.len()
        invariant
            i <= j <= s@.len(),
            radix == 10 || radix == 16,
            body == s@.subrange(i as int, s@.len() as int),
            whole == s@.subrange(start as int, s@.len() as int),
            body == (if whole.len() > 0 && whole[0] == 43 {
                whole.drop_first()
            } else {
                whole
            }),
            all_digits(body, radix as nat),
            acc == digits_value(body.take(j - i), radix as nat),
            acc <= u32::MAX,
        decreases s.len() - j,
    {
        let ghost k = j - i;
        assert(digit_value(body[k], radix as nat) is Some);
        let d = match digit(s[j], radix) {
            Some(v) => v,
            None => 0,
        };
        assert(body.take(k + 1).drop_last() =~= body.take(k));
        assert(acc * (radix as u64) <= 0xFFFF_FFFF * 16) by (nonlinear_arith)
            requires
                acc <= 0xFFFF_FFFF,
                radix <= 16,
        ;
        acc = acc * (radix as u64) + d as u64;
        assert(acc == digits_value(body.take(k + 1), radix as nat));
        if acc > 0xFFFF_FFFF {
            proof {
                lemma_digits_value_grows(body, radix as nat, k + 1);
                assert(digits_value(body, radix as nat) > u32::MAX);
            }
            return None;
        }
        j = j + 1;
    }
    assert(body.take(body.len() as int) =~= body);
    Some(acc as u32)
}

/// The value of a number written in decimal, or in hex after a `0x` or `0X`
/// prefix, with an optional '+' before the digits; `None` when it is not such a
/// number or exceeds `u32::MAX`.
pub fn parse_u32(s: &str) -> (r: Option<u32>)
    ensures
        r == spec_parse_u32(s.spec_bytes()),
{
    let b = s.as_bytes();
    if b.len() >= 2 && b[0] == 48 && (b[1] == 120 || b[1] == 88) {
        parse_radix(b, 2, 16)
    } else {
        assert(b@.subrange(0, b@.len() as int) =~= b@);
        parse_radix(b, 0, 10)
    }
}

/// ASCII '0' to '9' are the digits 0 to 9 in both bases; 'a' to 'f' and 'A' to
/// 'F' are 10 to 15 in hex only; nothing else is a digit.
pub proof fn lemma_digit_values(c: u8)
    ensures
        48 <= c <= 57 ==> digit_value(c, 10) == Some((c - 48) as nat) && digit_value(c, 16) == Some(
            (c - 48) as nat,
        ),
        97 <= c <= 102 ==> digit_value(c, 16) == Some((c - 97 + 10) as nat) && digit_value(c, 10)
            is None,
        65 <= c <= 70 ==> digit_value(c, 16) == Some((c - 65 + 10) as nat) && digit_value(c, 10)
            is None,
        !(48 <= c <= 57 || 97 <= c <= 102 || 65 <= c <= 70) ==> digit_value(c, 16) is None
            && digit_value(c, 10) is None,
{
}

proof fn lemma_digits_push(s: Seq<u8>, c: u8, radix: nat)
    ensures
        digits_value(s.push(c), radix) == digits_value(s, radix) * radix + digit_value(
            c,
            radix,
        ).unwrap(),
{
    assert(s.push(c).drop_last() =~= s);
}

proof fn lemma_decimal_digits_value(n: nat)
    ensures
        all_digits(decimal_digits(n), 10),
        digits_value(decimal_digits(n), 10) == n,
        decimal_digits(n).len() > 0,
        48 <= decimal_digits(n)[0] <= 57,
    decreases n,
{
    if n < 10 {
        lemma_digits_push(Seq::<u8>::empty(), (48 + n) as u8, 10);
        assert(seq![(48 + n) as u8] =~= Seq::<u8>::empty().push((48 + n) as u8));
    } else {
        lemma_decimal_digits_value(n / 10);
        let prev = decimal_digits(n / 10);
        lemma_digits_push(prev, (48 + n % 10) as u8, 10);
        assert forall|i: int| 0 <= i < decimal_digits(n).len() implies (#[trigger] digit_value(
            decimal_digits(n)[i],
            10,
        )) is Some by {
            if i < prev.len() {
                assert(digit_value(prev[i], 10) is Some);
            }
        }
    }
}

proof fn lemma_hex_digits_value(n: nat)
    ensures
        all_digits(hex_digits(n), 16),
        digits_value(hex_digits(n), 16) == n,
        hex_digits(n).len() > 0,
        hex_digits(n)[0] != 43,
    decreases n,
{
    if n < 16 {
        lemma_digits_push(Seq::<u8>::empty(), hex_digit(n), 16);
        assert(seq![hex_digit(n)] =~= Seq::<u8>::empty().push(hex_digit(n)));
    } else {
        lemma_hex_digits_value(n / 16);
        let prev = hex_digits(n / 16);
        lemma_digits_push(prev, hex_digit(n % 16), 16);
        assert forall|i: int| 0 <= i < hex_digits(n).len() implies (#[trigger] digit_value(
            hex_digits(n)[i],
            16,
        )) is Some by {
            if i < prev.len() {
                assert(digit_value(prev[i], 16) is Some);
            }
        }
    }
}

/// Reading back the decimal text of any `u32` gives the number, and so does
/// reading back its "0x" hex text.
pub proof fn lemma_parse_reads_back_formatted(n: u32)
    ensures
        spec_parse_u32(decimal_digits(n as nat)) == Some(n),
        spec_parse_u32(seq![48u8, 120u8] + hex_digits(n as nat)) == Some(n),
{
    lemma_decimal_digits_value(n as nat);
    let d = decimal_digits(n as nat);
    if d.len() >= 2 {
        assert(digit_value(d[1], 10) is Some);
    }
    lemma_hex_digits_value(n as nat);
    let h = seq![48u8, 120u8] + hex_digits(n as nat);
    assert(h.subrange(2, h.len() as int) =~= hex_digits(n as nat));
}

} // verus!
