//! Numeric text conversions.
//!
//! Decimal integer parsing and formatting are verified against small
//! recursive specifications that mirror the standard library's integer
//! grammar (optional sign, decimal digits, overflow checked at each
//! digit).  Conversions between decimal text and 64-bit float bit
//! patterns go through trusted wrappers: no float type can appear in the
//! verified library, so a value travels as its bit pattern and the
//! conversions name their results.

use vstd::prelude::*;

verus! {

// ---------------------------------------------------------------------------
// Digits.
// ---------------------------------------------------------------------------

pub open spec fn spec_is_dec_digit(c: char) -> bool {
    0x30 <= c as u32 && c as u32 <= 0x39
}

#[verifier::when_used_as_spec(spec_is_dec_digit)]
pub fn is_dec_digit(c: char) -> (r: bool)
    ensures
        r == spec_is_dec_digit(c),
{
    let u = c as u32;
    0x30 <= u && u <= 0x39
}

pub open spec fn dec_digit_val(c: char) -> int {
    c as u32 - 0x30
}

pub open spec fn spec_is_hex_digit(c: char) -> bool {
    (0x30 <= c as u32 && c as u32 <= 0x39) || (0x41 <= c as u32 && c as u32 <= 0x46) || (0x61
        <= c as u32 && c as u32 <= 0x66)
}

#[verifier::when_used_as_spec(spec_is_hex_digit)]
pub fn is_hex_digit(c: char) -> (r: bool)
    ensures
        r == spec_is_hex_digit(c),
{
    let u = c as u32;
    (0x30 <= u && u <= 0x39) || (0x41 <= u && u <= 0x46) || (0x61 <= u && u <= 0x66)
}

/// The numeric value of a hexadecimal digit.
pub open spec fn hex_digit_val(c: char) -> int {
    if 0x30 <= c as u32 && c as u32 <= 0x39 {
        c as u32 - 0x30
    } else if 0x41 <= c as u32 && c as u32 <= 0x46 {
        c as u32 - 0x41 + 10
    } else {
        c as u32 - 0x61 + 10
    }
}

pub fn hex_val(c: char) -> (r: u32)
    requires
        spec_is_hex_digit(c),
    ensures
        r == hex_digit_val(c),
        r < 16,
{
    let u = c as u32;
    if 0x30 <= u && u <= 0x39 {
        u - 0x30
    } else if 0x41 <= u && u <= 0x46 {
        u - 0x41 + 10
    } else {
        u - 0x61 + 10
    }
}

// ---------------------------------------------------------------------------
// Decimal integer parsing.
// ---------------------------------------------------------------------------

/// Outcome of reading an unsigned decimal literal.
#[derive(Debug, Clone, Copy, PartialEq, Eq, Structural)]
pub enum DecU {
    Val(u128),
    BadDigit,
    TooLarge,
    Empty,
}

/// Outcome of reading a signed decimal literal.
#[derive(Debug, Clone, Copy, PartialEq, Eq, Structural)]
pub enum DecI {
    Val(i128),
    BadDigit,
    TooLarge,
    TooSmall,
    Empty,
}

pub open spec fn parse_u128_loop(s: Seq<char>, i: int, acc: u128) -> DecU
    decreases s.len() - i,
{
    if i < 0 || i >= s.len() {
        DecU::Val(acc)
    } else if !spec_is_dec_digit(s[i]) {
        DecU::BadDigit
    } else if acc * 10 + dec_digit_val(s[i]) > u128::MAX {
        DecU::TooLarge
    } else {
        parse_u128_loop(s, i + 1, (acc * 10 + dec_digit_val(s[i])) as u128)
    }
}

/// An unsigned decimal literal: an optional `+`, then decimal digits,
/// with overflow reported at the first digit that no longer fits.
pub open spec fn dec_u128_spec(s: Seq<char>) -> DecU {
    if s.len() == 0 {
        DecU::Empty
    } else {
        let t = if s[0] == '+' {
            s.drop_first()
        } else {
            s
        };
        if t.len() == 0 {
            DecU::BadDigit
        } else {
            parse_u128_loop(t, 0, 0)
        }
    }
}

pub open spec fn parse_i128_pos_loop(s: Seq<char>, i: int, mag: u128) -> DecI
    decreases s.len() - i,
{
    if i < 0 || i >= s.len() {
        DecI::Val(mag as i128)
    } else if !spec_is_dec_digit(s[i]) {
        DecI::BadDigit
    } else if mag * 10 + dec_digit_val(s[i]) > i128::MAX {
        DecI::TooLarge
    } else {
        parse_i128_pos_loop(s, i + 1, (mag * 10 + dec_digit_val(s[i])) as u128)
    }
}

pub open spec fn parse_i128_neg_loop(s: Seq<char>, i: int, mag: u128) -> DecI
    decreases s.len() - i,
{
    if i < 0 || i >= s.len() {
        DecI::Val(
            if mag == 0x8000_0000_0000_0000_0000_0000_0000_0000u128 {
                i128::MIN
            } else {
                (-(mag as int)) as i128
            },
        )
    } else if !spec_is_dec_digit(s[i]) {
        DecI::BadDigit
    } else if mag * 10 + dec_digit_val(s[i]) > 0x8000_0000_0000_0000_0000_0000_0000_0000u128 {
        DecI::TooSmall
    } else {
        parse_i128_neg_loop(s, i + 1, (mag * 10 + dec_digit_val(s[i])) as u128)
    }
}

/// A signed decimal literal: an optional sign, then decimal digits, with
/// overflow reported at the first digit that no longer fits.  A negative
/// literal accumulates downward, so the most negative value is reached
/// without overflow.
pub open spec fn dec_i128_spec(s: Seq<char>) -> DecI {
    if s.len() == 0 {
        DecI::Empty
    } else {
        let neg = s[0] == '-';
        let t = if s[0] == '+' || s[0] == '-' {
            s.drop_first()
        } else {
            s
        };
        if t.len() == 0 {
            DecI::BadDigit
        } else if neg {
            parse_i128_neg_loop(t, 0, 0)
        } else {
            parse_i128_pos_loop(t, 0, 0)
        }
    }
}

fn parse_u128_from(s: &Vec<char>, from: usize, to: usize, i: usize, acc: u128) -> (r: DecU)
    requires
        from <= i <= to <= s.len(),
    ensures
        r == parse_u128_loop(s@.subrange(from as int, to as int), i - from, acc),
    decreases to - i,
{
    if i == to {
        DecU::Val(acc)
    } else {
        let c = s[i];
        assert(s@.subrange(from as int, to as int)[i - from] == c);
        if !is_dec_digit(c) {
            DecU::BadDigit
        } else {
            let d = (c as u32 - 0x30) as u128;
            assert(d == dec_digit_val(c));
            if acc > (u128::MAX - d) / 10 {
                proof {
                    assert(acc * 10 + d > u128::MAX) by (nonlinear_arith)
                        requires
                            acc > (u128::MAX - d) / 10,
                            d <= 9,
                    ;
                }
                DecU::TooLarge
            } else {
                proof {
                    assert(acc * 10 + d <= u128::MAX) by (nonlinear_arith)
                        requires
                            acc <= (u128::MAX - d) / 10,
                            d <= 9,
                    ;
                }
                parse_u128_from(s, from, to, i + 1, acc * 10 + d)
            }
        }
    }
}

/// Reads `s[from..to]` as an unsigned decimal literal.
pub fn parse_dec_u128(s: &Vec<char>, from: usize, to: usize) -> (r: DecU)
    requires
        from <= to <= s.len(),
    ensures
        r == dec_u128_spec(s@.subrange(from as int, to as int)),
{
    if from == to {
        DecU::Empty
    } else if s[from] == '+' {
        assert(s@.subrange(from as int, to as int).drop_first() =~= s@.subrange(
            from as int + 1,
            to as int,
        ));
        if from + 1 == to {
            DecU::BadDigit
        } else {
            parse_u128_from(s, from + 1, to, from + 1, 0)
        }
    } else {
        parse_u128_from(s, from, to, from, 0)
    }
}

fn parse_i128_pos_from(s: &Vec<char>, from: usize, to: usize, i: usize, mag: u128) -> (r: DecI)
    requires
        from <= i <= to <= s.len(),
        mag <= i128::MAX,
    ensures
        r == parse_i128_pos_loop(s@.subrange(from as int, to as int), i - from, mag),
    decreases to - i,
{
    if i == to {
        DecI::Val(mag as i128)
    } else {
        let c = s[i];
        assert(s@.subrange(from as int, to as int)[i - from] == c);
        if !is_dec_digit(c) {
            DecI::BadDigit
        } else {
            let d = (c as u32 - 0x30) as u128;
            assert(d == dec_digit_val(c));
            let limit: u128 = 0x7FFF_FFFF_FFFF_FFFF_FFFF_FFFF_FFFF_FFFFu128;
            assert(limit == i128::MAX);
            if mag > (limit - d) / 10 {
                proof {
                    assert(mag * 10 + d > limit) by (nonlinear_arith)
                        requires
                            mag > (limit - d) / 10,
                            d <= 9,
                            limit >= 10,
                    ;
                }
                DecI::TooLarge
            } else {
                proof {
                    assert(mag * 10 + d <= limit) by (nonlinear_arith)
                        requires
                            mag <= (limit - d) / 10,
                            d <= 9,
                    ;
                }
                parse_i128_pos_from(s, from, to, i + 1, mag * 10 + d)
            }
        }
    }
}

fn parse_i128_neg_from(s: &Vec<char>, from: usize, to: usize, i: usize, mag: u128) -> (r: DecI)
    requires
        from <= i <= to <= s.len(),
        mag <= 0x8000_0000_0000_0000_0000_0000_0000_0000u128,
    ensures
        r == parse_i128_neg_loop(s@.subrange(from as int, to as int), i - from, mag),
    decreases to - i,
{
    let limit: u128 = 0x8000_0000_0000_0000_0000_0000_0000_0000u128;
    if i == to {
        if mag == limit {
            DecI::Val(i128::MIN)
        } else {
            DecI::Val(-(mag as i128))
        }
    } else {
        let c = s[i];
        assert(s@.subrange(from as int, to as int)[i - from] == c);
        if !is_dec_digit(c) {
            DecI::BadDigit
        } else {
            let d = (c as u32 - 0x30) as u128;
            assert(d == dec_digit_val(c));
            if mag > (limit - d) / 10 {
                proof {
                    assert(mag * 10 + d > limit) by (nonlinear_arith)
                        requires
                            mag > (limit - d) / 10,
                            d <= 9,
                            limit >= 10,
                    ;
                }
                DecI::TooSmall
            } else {
                proof {
                    assert(mag * 10 + d <= limit) by (nonlinear_arith)
                        requires
                            mag <= (limit - d) / 10,
                            d <= 9,
                    ;
                }
                parse_i128_neg_from(s, from, to, i + 1, mag * 10 + d)
            }
        }
    }
}

/// Reads `s[from..to]` as a signed decimal literal.
pub fn parse_dec_i128(s: &Vec<char>, from: usize, to: usize) -> (r: DecI)
    requires
        from <= to <= s.len(),
    ensures
        r == dec_i128_spec(s@.subrange(from as int, to as int)),
{
    if from == to {
        DecI::Empty
    } else if s[from] == '+' || s[from] == '-' {
        let neg = s[from] == '-';
        assert(s@.subrange(from as int, to as int).drop_first() =~= s@.subrange(
            from as int + 1,
            to as int,
        ));
        if from + 1 == to {
            DecI::BadDigit
        } else if neg {
            parse_i128_neg_from(s, from + 1, to, from + 1, 0)
        } else {
            parse_i128_pos_from(s, from + 1, to, from + 1, 0)
        }
    } else {
        parse_i128_pos_from(s, from, to, from, 0)
    }
}

// ---------------------------------------------------------------------------
// Decimal integer formatting.
// ---------------------------------------------------------------------------

pub open spec fn char_of_digit(d: int) -> char {
    ((0x30 + d) as u8) as char
}

/// The decimal digits of `n`, most significant first.
pub open spec fn dec_str(n: nat) -> Seq<char>
    decreases n,
{
    if n < 10 {
        seq![char_of_digit(n as int)]
    } else {
        dec_str(n / 10) + seq![char_of_digit(n as int % 10)]
    }
}

/// The decimal form of a signed value: a `-` before the magnitude when
/// negative.
pub open spec fn dec_str_signed(n: int) -> Seq<char> {
    if n >= 0 {
        dec_str(n as nat)
    } else {
        seq!['-'] + dec_str((-n) as nat)
    }
}

/// Appends the decimal digits of `n` to `out`.
pub fn push_dec_u128(out: &mut Vec<char>, n: u128)
    ensures
        final(out)@ == old(out)@ + dec_str(n as nat),
    decreases n,
{
    if n < 10 {
        out.push((0x30 + n as u8) as char);
    } else {
        push_dec_u128(out, n / 10);
        out.push((0x30 + (n % 10) as u8) as char);
    }
    assert(out@ =~= old(out)@ + dec_str(n as nat));
}

/// Appends the decimal form of `n` to `out`, with a leading `-` when
/// negative.
pub fn push_dec_i128(out: &mut Vec<char>, n: i128)
    ensures
        final(out)@ == old(out)@ + dec_str_signed(n as int),
{
    if n >= 0 {
        push_dec_u128(out, n as u128);
    } else {
        out.push('-');
        let mag: u128 = if n == i128::MIN {
            0x8000_0000_0000_0000_0000_0000_0000_0000u128
        } else {
            (-n) as u128
        };
        push_dec_u128(out, mag);
        assert(out@ =~= old(out)@ + dec_str_signed(n as int));
    }
}

/// Appends the decimal digits of `n` to `out`.
pub fn push_dec_usize(out: &mut Vec<char>, n: usize)
    ensures
        final(out)@ == old(out)@ + dec_str(n as nat),
{
    push_dec_u128(out, n as u128);
}


/// Sixteen to the power `n`.
pub open spec fn pow16(n: nat) -> nat
    decreases n,
{
    if n == 0 {
        1
    } else {
        16 * pow16((n - 1) as nat)
    }
}


pub proof fn lemma_pow16_pos(n: nat)
    ensures
        pow16(n) >= 1,
    decreases n,
{
    if n > 0 {
        lemma_pow16_pos((n - 1) as nat);
    }
}

/// The small powers of sixteen the escape lexers need.
pub proof fn lemma_pow16_val()
    ensures
        pow16(0) == 1,
        pow16(1) == 16,
        pow16(2) == 256,
        pow16(3) == 4096,
        pow16(4) == 65536,
{
    assert(pow16(0) == 1);
    assert(pow16(1) == 16);
    assert(pow16(2) == 256);
    assert(pow16(3) == 4096);
    assert(pow16(4) == 65536);
}

pub open spec fn hex_char_of(d: int) -> char {
    if d < 10 {
        ((0x30 + d) as u8) as char
    } else {
        ((0x61 + d - 10) as u8) as char
    }
}

/// The lowercase hexadecimal digits of `n`, most significant first.
pub open spec fn hex_str(n: nat) -> Seq<char>
    decreases n,
{
    if n < 16 {
        seq![hex_char_of(n as int)]
    } else {
        hex_str(n / 16) + seq![hex_char_of(n as int % 16)]
    }
}

/// Appends the lowercase hexadecimal digits of `n` to `out`.
pub fn push_hex_u32(out: &mut Vec<char>, n: u32)
    ensures
        final(out)@ == old(out)@ + hex_str(n as nat),
    decreases n,
{
    if n < 16 {
        if n < 10 {
            out.push((0x30 + n as u8) as char);
        } else {
            out.push((0x61 + (n as u8 - 10)) as char);
        }
    } else {
        push_hex_u32(out, n / 16);
        let d = n % 16;
        if d < 10 {
            out.push((0x30 + d as u8) as char);
        } else {
            out.push((0x61 + (d as u8 - 10)) as char);
        }
    }
    assert(out@ =~= old(out)@ + hex_str(n as nat));
}


/// Ten to the power `n`.
pub open spec fn pow10(n: nat) -> nat
    decreases n,
{
    if n == 0 {
        1
    } else {
        10 * pow10((n - 1) as nat)
    }
}

pub proof fn lemma_pow10_pos(n: nat)
    ensures
        pow10(n) >= 1,
    decreases n,
{
    if n > 0 {
        lemma_pow10_pos((n - 1) as nat)
    }
}

/// The decimal digits of a value are decimal digit characters, at
/// least one of them, and the leading one is `0` only for zero itself.
pub proof fn lemma_dec_str_digits(n: nat)
    ensures
        dec_str(n).len() >= 1,
        forall|j: int| 0 <= j < dec_str(n).len() ==> spec_is_dec_digit(#[trigger] dec_str(n)[j]),
        forall|j: int| 0 <= j < dec_str(n).len() ==> dec_digit_val(#[trigger] dec_str(n)[j]) <= 9,
        n >= 1 ==> dec_str(n)[0] != '0',
    decreases n,
{
    if n < 10 {
        assert(dec_str(n) =~= seq![char_of_digit(n as int)]);
    } else {
        lemma_dec_str_digits(n / 10);
        assert(dec_str(n) =~= dec_str(n / 10) + seq![char_of_digit(n as int % 10)]);
        assert(dec_str(n)[0] == dec_str(n / 10)[0]);
        assert forall|j: int| 0 <= j < dec_str(n).len() implies spec_is_dec_digit(
            #[trigger] dec_str(n)[j],
        ) by {
            if j < dec_str(n / 10).len() {
                assert(dec_str(n)[j] == dec_str(n / 10)[j]);
            } else {
                assert(dec_str(n)[j] == char_of_digit(n as int % 10));
            }
        }
    }
}

/// Reading the digits of `m` starting at `i` folds them onto the
/// accumulator and continues past them.
proof fn lemma_parse_digits_chunk(s: Seq<char>, i: int, acc: u128, m: nat)
    requires
        0 <= i,
        i + dec_str(m).len() <= s.len(),
        s.subrange(i, i + dec_str(m).len()) == dec_str(m),
        (acc as nat) * pow10(dec_str(m).len()) + m <= u128::MAX,
    ensures
        parse_u128_loop(s, i, acc) == parse_u128_loop(
            s,
            i + dec_str(m).len(),
            ((acc as nat) * pow10(dec_str(m).len()) + m) as u128,
        ),
    decreases m,
{
    lemma_dec_str_digits(m);
    if m < 10 {
        assert(dec_str(m) =~= seq![char_of_digit(m as int)]);
        assert(s.subrange(i, i + dec_str(m).len())[0] == s[i]);
        assert(s[i] == char_of_digit(m as int));
        assert(pow10(0) == 1);
        assert(pow10(1) == 10);
        assert((acc as nat) * 10 + m <= u128::MAX) by (nonlinear_arith)
            requires
                (acc as nat) * pow10(1) + m <= u128::MAX,
                pow10(1) == 10,
        ;
        assert(dec_digit_val(s[i]) == m);
        assert(parse_u128_loop(s, i, acc) == parse_u128_loop(
            s,
            i + 1,
            (acc * 10 + dec_digit_val(s[i])) as u128,
        ));
    } else {
        let l1 = dec_str(m / 10).len();
        let l = dec_str(m).len();
        assert(dec_str(m) =~= dec_str(m / 10) + seq![char_of_digit(m as int % 10)]);
        assert(l == l1 + 1);
        assert(pow10(l) == 10 * pow10(l1));
        lemma_pow10_pos(l1);
        let mid = (acc as nat) * pow10(l1) + m / 10;
        assert(10 * mid + m % 10 == (acc as nat) * pow10(l) + m) by (nonlinear_arith)
            requires
                pow10(l) == 10 * pow10(l1),
                mid == (acc as nat) * pow10(l1) + m / 10,
                m == 10 * (m / 10) + m % 10,
        ;
        assert(mid <= u128::MAX);
        assert(s.subrange(i, i + l1) =~= dec_str(m / 10));
        lemma_parse_digits_chunk(s, i, acc, m / 10);
        assert(s.subrange(i, i + l)[l1 as int] == s[i + l1]);
        assert(dec_str(m)[l1 as int] == char_of_digit(m as int % 10));
        assert(s[i + l1] == char_of_digit(m as int % 10));
        assert(dec_digit_val(s[i + l1]) == m % 10);
        assert(parse_u128_loop(s, i + l1, mid as u128) == parse_u128_loop(
            s,
            i + l,
            ((mid as u128) * 10 + dec_digit_val(s[i + l1])) as u128,
        ));
    }
}

/// Reading back the decimal digits of a value yields the value: the
/// decimal formatter and the unsigned decimal reader are inverses.
pub proof fn lemma_dec_u128_inverse(n: u128)
    ensures
        dec_u128_spec(dec_str(n as nat)) == DecU::Val(n),
{
    let t = dec_str(n as nat);
    lemma_dec_str_digits(n as nat);
    assert(t[0] != '+');
    assert(t.subrange(0, t.len() as int) =~= t);
    lemma_pow10_pos(t.len());
    assert((0 as nat) * pow10(t.len()) + n == n) by (nonlinear_arith);
    lemma_parse_digits_chunk(t, 0, 0, n as nat);
    assert(parse_u128_loop(t, t.len() as int, n) == DecU::Val(n));
}


/// Reading the digits of `m` starting at `i` folds them onto the
/// negative magnitude and continues past them.
proof fn lemma_parse_neg_digits_chunk(s: Seq<char>, i: int, mag: u128, m: nat)
    requires
        0 <= i,
        i + dec_str(m).len() <= s.len(),
        s.subrange(i, i + dec_str(m).len()) == dec_str(m),
        (mag as nat) * pow10(dec_str(m).len()) + m <= 0x8000_0000_0000_0000_0000_0000_0000_0000,
    ensures
        parse_i128_neg_loop(s, i, mag) == parse_i128_neg_loop(
            s,
            i + dec_str(m).len(),
            ((mag as nat) * pow10(dec_str(m).len()) + m) as u128,
        ),
    decreases m,
{
    lemma_dec_str_digits(m);
    if m < 10 {
        assert(dec_str(m) =~= seq![char_of_digit(m as int)]);
        assert(s.subrange(i, i + dec_str(m).len())[0] == s[i]);
        assert(s[i] == char_of_digit(m as int));
        assert(pow10(0) == 1);
        assert(pow10(1) == 10);
        assert((mag as nat) * 10 + m <= 0x8000_0000_0000_0000_0000_0000_0000_0000)
            by (nonlinear_arith)
            requires
                (mag as nat) * pow10(1) + m <= 0x8000_0000_0000_0000_0000_0000_0000_0000,
                pow10(1) == 10,
        ;
        assert(dec_digit_val(s[i]) == m);
        assert(parse_i128_neg_loop(s, i, mag) == parse_i128_neg_loop(
            s,
            i + 1,
            (mag * 10 + dec_digit_val(s[i])) as u128,
        ));
    } else {
        let l1 = dec_str(m / 10).len();
        let l = dec_str(m).len();
        assert(dec_str(m) =~= dec_str(m / 10) + seq![char_of_digit(m as int % 10)]);
        assert(l == l1 + 1);
        assert(pow10(l) == 10 * pow10(l1));
        lemma_pow10_pos(l1);
        let mid = (mag as nat) * pow10(l1) + m / 10;
        assert(10 * mid + m % 10 == (mag as nat) * pow10(l) + m) by (nonlinear_arith)
            requires
                pow10(l) == 10 * pow10(l1),
                mid == (mag as nat) * pow10(l1) + m / 10,
                m == 10 * (m / 10) + m % 10,
        ;
        assert(mid <= 0x8000_0000_0000_0000_0000_0000_0000_0000);
        assert(s.subrange(i, i + l1) =~= dec_str(m / 10));
        lemma_parse_neg_digits_chunk(s, i, mag, m / 10);
        assert(s.subrange(i, i + l)[l1 as int] == s[i + l1]);
        assert(dec_str(m)[l1 as int] == char_of_digit(m as int % 10));
        assert(s[i + l1] == char_of_digit(m as int % 10));
        assert(dec_digit_val(s[i + l1]) == m % 10);
        assert(parse_i128_neg_loop(s, i + l1, mid as u128) == parse_i128_neg_loop(
            s,
            i + l,
            ((mid as u128) * 10 + dec_digit_val(s[i + l1])) as u128,
        ));
    }
}

/// Reading back the decimal form of a negative value yields the value:
/// the signed decimal formatter and reader are inverses on negatives.
pub proof fn lemma_dec_i128_neg_inverse(i: i128)
    requires
        i < 0,
    ensures
        dec_i128_spec(dec_str_signed(i as int)) == DecI::Val(i),
{
    let mag = (-(i as int)) as nat;
    let t = dec_str_signed(i as int);
    let d = dec_str(mag);
    lemma_dec_str_digits(mag);
    assert(t =~= seq!['-'] + d);
    assert(t[0] == '-');
    assert(t.drop_first() =~= d);
    lemma_pow10_pos(d.len());
    assert(mag <= 0x8000_0000_0000_0000_0000_0000_0000_0000);
    assert((0 as nat) * pow10(d.len()) + mag == mag) by (nonlinear_arith);
    assert(d.subrange(0, d.len() as int) =~= d);
    lemma_parse_neg_digits_chunk(d, 0, 0, mag);
    assert(parse_i128_neg_loop(d, d.len() as int, mag as u128) == DecI::Val(i));
}

// ---------------------------------------------------------------------------
// Float conversions, behind trusted wrappers.
// ---------------------------------------------------------------------------

/// The bit pattern of the 64-bit float that a decimal literal denotes,
/// or `None` when the text is not a decimal float literal.
pub uninterp spec fn float_from_text(s: Seq<char>) -> Option<u64>;

/// Relies on `rustc_apfloat::ieee::Double`'s `FromStr`: correctly
/// rounded decimal-to-binary conversion for IEEE 754 double precision,
/// with overflow to an infinity; the result depends on the text alone.
#[verifier::external_body]
pub fn parse_float_text(s: &str) -> (r: Option<u64>)
    ensures
        r == float_from_text(s@),
{
    match s.parse::<rustc_apfloat::ieee::Double>() {
        Ok(d) => Some(<rustc_apfloat::ieee::Double as rustc_apfloat::Float>::to_bits(d) as u64),
        Err(_) => None,
    }
}

/// A decimal rendering of the float with bit pattern `bits`, with enough
/// digits that reading it back yields `bits` again.
pub uninterp spec fn float_repr_text(bits: u64) -> Seq<char>;

/// Relies on `rustc_apfloat::ieee::Double`'s `Display`: a decimal form
/// carrying enough digits to convert back to the same value; the result
/// depends on the bits alone.
#[verifier::external_body]
pub fn float_repr(bits: u64) -> (r: String)
    ensures
        r@ == float_repr_text(bits),
{
    let d = <rustc_apfloat::ieee::Double as rustc_apfloat::Float>::from_bits(bits as u128);
    format!("{}", d)
}

/// The shortest standard rendering of the number a decimal text denotes,
/// or `None` when the text is not a plain decimal number.
pub uninterp spec fn shortest_float_text(s: Seq<char>) -> Option<Seq<char>>;

/// Relies on `serde_json`'s number parsing (`from_str` to a
/// `serde_json::Number`, correctly rounded) and on the standard shortest
/// round-trip formatting of the value; the result depends on the text
/// alone.
#[verifier::external_body]
pub fn reformat_float_text(s: &str) -> (r: Option<String>)
    ensures
        r is Some <==> shortest_float_text(s@) is Some,
        r is Some ==> r->0@ == shortest_float_text(s@)->0,
{
    match serde_json::from_str::<serde_json::Number>(s) {
        Ok(n) => n.as_f64().map(|x| format!("{}", x)),
        Err(_) => None,
    }
}

} // verus!
