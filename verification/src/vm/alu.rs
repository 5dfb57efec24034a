//! The arithmetic and logic of the machine, on plain 16-bit words.
//!
//! Every operation is stated over the integers and computed in machine
//! arithmetic; the two are proved to agree.

use vstd::prelude::*;
use vstd::std_specs::bits::{u16_leading_zeros, u16_trailing_zeros};

verus! {

/// What an operation hands to the flags: its result, and the carry and
/// overflow that it raised.
#[derive(Clone, Copy, Debug, PartialEq, Eq, Structural)]
pub struct Outcome {
    pub value: u16,
    pub carry: bool,
    pub overflow: bool,
}

/// The two halves of a 32-bit product, and whether it outgrew 16 bits.
#[derive(Clone, Copy, Debug, PartialEq, Eq, Structural)]
pub struct Product {
    pub low: u16,
    pub high: u16,
    pub overflow: bool,
}

/// A word read as a signed number in two's complement.
pub open spec fn signed(v: u16) -> int {
    if v >= 0x8000 {
        v - 0x1_0000
    } else {
        v as int
    }
}

/// The word that agrees with `x` modulo 2^16.
pub open spec fn word(x: int) -> u16 {
    (x % 0x1_0000) as u16
}

/// Whether a number fits a signed 16-bit word.
pub open spec fn fits_signed(x: int) -> bool {
    -0x8000 <= x <= 0x7fff
}

pub open spec fn sum(a: u16, b: u16) -> Outcome {
    Outcome {
        value: word(a + b),
        carry: a + b > 0xffff,
        overflow: !fits_signed(signed(a) + signed(b)),
    }
}

pub open spec fn difference(a: u16, b: u16) -> Outcome {
    Outcome { value: word(a - b), carry: a < b, overflow: !fits_signed(signed(a) - signed(b)) }
}

pub open spec fn low_product(a: u16, b: u16) -> Outcome {
    Outcome {
        value: word(a * b),
        carry: a * b > 0xffff,
        overflow: !fits_signed(signed(a) * signed(b)),
    }
}

pub open spec fn negation(a: u16) -> Outcome {
    Outcome { value: word(-a), carry: a != 0, overflow: a == 0x8000 }
}

pub open spec fn magnitude(a: u16) -> Outcome {
    Outcome {
        value: if signed(a) < 0 {
            word(-signed(a))
        } else {
            a
        },
        carry: a == 0x8000,
        overflow: a == 0x8000,
    }
}

/// The full product of two words read as unsigned numbers.
pub open spec fn wide_product(a: u16, b: u16) -> Product {
    Product {
        low: word(a * b),
        high: ((a * b) / 0x1_0000) as u16,
        overflow: a * b > 0xffff,
    }
}

/// The full product of two words read as signed numbers, in 32-bit two's
/// complement.
pub open spec fn wide_signed_product(a: u16, b: u16) -> Product {
    let p = signed(a) * signed(b);
    Product {
        low: word(p),
        high: ((p % 0x1_0000_0000) / 0x1_0000) as u16,
        overflow: !fits_signed(p),
    }
}

/// Quotient and remainder of two words read as unsigned numbers.
pub open spec fn quotient(a: u16, b: u16) -> (u16, u16)
    recommends
        b != 0,
{
    ((a / b) as u16, (a % b) as u16)
}

/// Euclidean quotient and remainder of two words read as signed numbers:
/// the remainder is never negative. The one quotient that does not fit,
/// that of -32768 by -1, wraps.
pub open spec fn signed_quotient(a: u16, b: u16) -> (u16, u16)
    recommends
        b != 0,
{
    let n = signed(a);
    let d = signed(b);
    if d > 0 {
        (word(n / d), word(n % d))
    } else {
        (word(-(n / (-d))), word(n % (-d)))
    }
}

pub open spec fn nand(a: u16, b: u16) -> u16 {
    !(a & b)
}

pub open spec fn nor(a: u16, b: u16) -> u16 {
    !(a | b)
}

pub open spec fn xnor(a: u16, b: u16) -> u16 {
    !(a ^ b)
}

/// `a` shifted right by `count` places with the sign bit filling in.
pub open spec fn arithmetic_shift_right(a: u16, count: u16) -> u16
    recommends
        count < 16,
{
    if a < 0x8000 {
        a >> count
    } else {
        !((!a) >> count)
    }
}

/// `a` rotated left by `count` places; counts go modulo 16.
pub open spec fn rotated_left(a: u16, count: u16) -> u16 {
    let k = count % 16;
    if k == 0 {
        a
    } else {
        (a << k) | (a >> ((16 - k) as u16))
    }
}

/// `a` rotated right by `count` places; counts go modulo 16.
pub open spec fn rotated_right(a: u16, count: u16) -> u16 {
    let k = count % 16;
    if k == 0 {
        a
    } else {
        (a >> k) | (a << ((16 - k) as u16))
    }
}

/// The number of bits of `v` that are set.
pub open spec fn ones(v: u16) -> u16 {
    (v % 2 + v / 2 % 2 + v / 4 % 2 + v / 8 % 2 + v / 16 % 2 + v / 32 % 2 + v / 64 % 2 + v / 128 % 2
        + v / 256 % 2 + v / 512 % 2 + v / 1024 % 2 + v / 2048 % 2 + v / 4096 % 2 + v / 8192 % 2 + v
        / 16384 % 2 + v / 32768 % 2) as u16
}

/// The two bytes of `v` in the other order.
pub open spec fn bytes_swapped(v: u16) -> u16 {
    ((v % 256) * 256 + v / 256) as u16
}

/// A word with only its low byte kept.
pub open spec fn low_byte(v: u16) -> u16 {
    v % 256
}

/// The low byte of `v` read as a signed number and widened to 16 bits.
pub open spec fn low_byte_sign_extended(v: u16) -> u16 {
    if v % 256 >= 128 {
        (0xff00 + v % 256) as u16
    } else {
        v % 256
    }
}

/// Parallel bit extract over the bit positions from `from` up: going from the
/// highest position down, each source bit under a set mask bit is shifted
/// into the low end of the result.
pub open spec fn extracted_from(source: u16, mask: u16, from: nat) -> u16
    decreases 16 - from,
{
    if from >= 16 {
        0
    } else {
        let above = extracted_from(source, mask, from + 1);
        if mask & (1u16 << from) != 0 {
            (above << 1) | ((source >> from) & 1)
        } else {
            above
        }
    }
}

/// Parallel bit extract of `source` under `mask`.
pub open spec fn extracted(source: u16, mask: u16) -> u16 {
    extracted_from(source, mask, 0)
}

fn to_signed(v: u16) -> (s: i32)
    ensures
        s == signed(v),
{
    if v >= 0x8000 {
        v as i32 - 0x1_0000
    } else {
        v as i32
    }
}

fn to_word(x: i64) -> (w: u16)
    requires
        -0x1_0000_0000 <= x <= 0x1_0000_0000,
    ensures
        w == word(x as int),
{
    ((x + 0x1_0000_0000) % 0x1_0000) as u16
}

pub fn add16(a: u16, b: u16) -> (r: Outcome)
    ensures
        r == sum(a, b),
{
    let wide: u32 = a as u32 + b as u32;
    let s: i32 = to_signed(a) + to_signed(b);
    Outcome { value: (wide % 0x1_0000) as u16, carry: wide > 0xffff, overflow: s < -0x8000 || s > 0x7fff }
}

pub fn sub16(a: u16, b: u16) -> (r: Outcome)
    ensures
        r == difference(a, b),
{
    let s: i32 = to_signed(a) - to_signed(b);
    Outcome {
        value: to_word(a as i64 - b as i64),
        carry: a < b,
        overflow: s < -0x8000 || s > 0x7fff,
    }
}

pub fn mullo16(a: u16, b: u16) -> (r: Outcome)
    ensures
        r == low_product(a, b),
{
    assert(0 <= a * b <= 0xffff * 0xffff) by (nonlinear_arith)
        requires
            0 <= a <= 0xffff,
            0 <= b <= 0xffff,
    ;
    let sa = to_signed(a);
    let sb = to_signed(b);
    assert(-0x8000 * 0x8000 <= sa * sb <= 0x8000 * 0x8000) by (nonlinear_arith)
        requires
            -0x8000 <= sa <= 0x7fff,
            -0x8000 <= sb <= 0x7fff,
    ;
    let wide: u32 = a as u32 * b as u32;
    let s: i32 = sa * sb;
    Outcome { value: (wide % 0x1_0000) as u16, carry: wide > 0xffff, overflow: s < -0x8000 || s > 0x7fff }
}

pub fn neg16(a: u16) -> (r: Outcome)
    ensures
        r == negation(a),
{
    Outcome { value: to_word(-(a as i64)), carry: a != 0, overflow: a == 0x8000 }
}

pub fn abs16(a: u16) -> (r: Outcome)
    ensures
        r == magnitude(a),
{
    let s = to_signed(a);
    let value = if s < 0 {
        to_word(-(s as i64))
    } else {
        a
    };
    Outcome { value, carry: a == 0x8000, overflow: a == 0x8000 }
}

pub fn mul16(a: u16, b: u16) -> (r: Product)
    ensures
        r == wide_product(a, b),
{
    assert(0 <= a * b <= 0xffff * 0xffff) by (nonlinear_arith)
        requires
            0 <= a <= 0xffff,
            0 <= b <= 0xffff,
    ;
    let wide: u32 = a as u32 * b as u32;
    Product { low: (wide % 0x1_0000) as u16, high: (wide / 0x1_0000) as u16, overflow: wide > 0xffff }
}

pub fn imul16(a: u16, b: u16) -> (r: Product)
    ensures
        r == wide_signed_product(a, b),
{
    let sa = to_signed(a);
    let sb = to_signed(b);
    assert(-0x8000 * 0x8000 <= sa * sb <= 0x8000 * 0x8000) by (nonlinear_arith)
        requires
            -0x8000 <= sa <= 0x7fff,
            -0x8000 <= sb <= 0x7fff,
    ;
    let p: i64 = sa as i64 * sb as i64;
    let u: i64 = (p + 0x1_0000_0000) % 0x1_0000_0000;
    Product {
        low: (u % 0x1_0000) as u16,
        high: (u / 0x1_0000) as u16,
        overflow: p < -0x8000 || p > 0x7fff,
    }
}

pub fn div16(a: u16, b: u16) -> (r: (u16, u16))
    requires
        b != 0,
    ensures
        r == quotient(a, b),
{
    (a / b, a % b)
}

/// Floor quotient and remainder of `n` by a positive `d`.
fn floor_div(n: i32, d: i32) -> (r: (i32, i32))
    requires
        -0x8000 <= n <= 0x7fff,
        0 < d <= 0x8000,
    ensures
        r.0 == n as int / d as int,
        r.1 == n as int % d as int,
{
    if n >= 0 {
        (n / d, n % d)
    } else {
        let m = -n;
        let q0 = m / d;
        let r0 = m % d;
        let (q, r) = if r0 == 0 {
            (-q0, 0)
        } else {
            (-q0 - 1, d - r0)
        };
        proof {
            assert(m == q0 * d + r0) by (nonlinear_arith)
                requires
                    q0 == m as int / d as int,
                    r0 == m as int % d as int,
                    d > 0,
            ;
            assert(n == q * d + r) by (nonlinear_arith)
                requires
                    m == q0 * d + r0,
                    n == -m,
                    (r0 == 0 && q == -q0 && r == 0) || (r0 != 0 && q == -q0 - 1 && r == d - r0),
            ;
            vstd::arithmetic::div_mod::lemma_fundamental_div_mod_converse(
                n as int,
                d as int,
                q as int,
                r as int,
            );
        }
        (q, r)
    }
}

pub fn idiv16(a: u16, b: u16) -> (r: (u16, u16))
    requires
        b != 0,
    ensures
        r == signed_quotient(a, b),
{
    let n = to_signed(a);
    let d = to_signed(b);
    if d > 0 {
        let (q, r) = floor_div(n, d);
        assert(-0x8000 <= q <= 0x7fff) by (nonlinear_arith)
            requires
                q == n as int / d as int,
                -0x8000 <= n <= 0x7fff,
                d > 0,
        ;
        (to_word(q as i64), to_word(r as i64))
    } else {
        let (q, r) = floor_div(n, -d);
        assert(-0x8000 <= q <= 0x7fff) by (nonlinear_arith)
            requires
                q == n as int / (-d) as int,
                -0x8000 <= n <= 0x7fff,
                -d > 0,
        ;
        (to_word(-(q as i64)), to_word(r as i64))
    }
}

pub fn sar(a: u16, count: u16) -> (r: u16)
    requires
        count < 16,
    ensures
        r == arithmetic_shift_right(a, count),
{
    if a < 0x8000 {
        a >> count
    } else {
        !((!a) >> count)
    }
}

pub fn rol(a: u16, count: u16) -> (r: u16)
    ensures
        r == rotated_left(a, count),
{
    let k = count % 16;
    if k == 0 {
        a
    } else {
        (a << k) | (a >> (16 - k))
    }
}

pub fn ror(a: u16, count: u16) -> (r: u16)
    ensures
        r == rotated_right(a, count),
{
    let k = count % 16;
    if k == 0 {
        a
    } else {
        (a >> k) | (a << (16 - k))
    }
}

pub fn ctz(v: u16) -> (r: u16)
    ensures
        r == u16_trailing_zeros(v),
        r <= 16,
{
    broadcast use vstd::std_specs::bits::axiom_u16_trailing_zeros;

    v.trailing_zeros() as u16
}

pub fn clz(v: u16) -> (r: u16)
    ensures
        r == u16_leading_zeros(v),
        r <= 16,
{
    broadcast use vstd::std_specs::bits::axiom_u16_leading_zeros;

    v.leading_zeros() as u16
}

pub fn popcnt(v: u16) -> (r: u16)
    ensures
        r == ones(v),
{
    v % 2 + v / 2 % 2 + v / 4 % 2 + v / 8 % 2 + v / 16 % 2 + v / 32 % 2 + v / 64 % 2 + v / 128 % 2
        + v / 256 % 2 + v / 512 % 2 + v / 1024 % 2 + v / 2048 % 2 + v / 4096 % 2 + v / 8192 % 2 + v
        / 16384 % 2 + v / 32768 % 2
}

pub fn bswap(v: u16) -> (r: u16)
    ensures
        r == bytes_swapped(v),
{
    (v % 256) * 256 + v / 256
}

pub fn sex(v: u16) -> (r: u16)
    ensures
        r == low_byte_sign_extended(v),
{
    if v % 256 >= 128 {
        0xff00 + v % 256
    } else {
        v % 256
    }
}

pub fn pext(source: u16, mask: u16) -> (r: u16)
    ensures
        r == extracted(source, mask),
{
    let mut result: u16 = 0;
    let mut idx: u16 = 16;
    while idx > 0
        invariant
            idx <= 16,
            result == extracted_from(source, mask, idx as nat),
        decreases idx,
    {
        idx -= 1;
        if mask & (1u16 << idx) != 0 {
            result = (result << 1) | ((source >> idx) & 1);
        }
    }
    result
}

} // verus!
