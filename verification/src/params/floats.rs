//! Floating point numbers by their bits: how they compare and which are integers.
//!
//! A number is held as its IEEE 754 binary64 bit pattern, so that comparing two numbers and
//! finding the integer that a number equals are decided on integers.

use vstd::arithmetic::power2::pow2;
use vstd::prelude::*;

verus! {

/// The bits of an infinity without its sign.
pub const INFINITY_BITS: u64 = 0x7ff0_0000_0000_0000;

/// A sign bit alone.
pub const SIGN_BIT: u64 = 0x8000_0000_0000_0000;

/// The fraction takes the lowest 52 bits.
pub const FRACTION_STEPS: u64 = 0x0010_0000_0000_0000;

/// The bit pattern of the number one.
pub const ONE_BITS: u64 = 0x3ff0_0000_0000_0000;

/// The bits of a number without its sign.
pub open spec fn magnitude(bits: u64) -> int {
    if bits >= SIGN_BIT {
        bits - SIGN_BIT
    } else {
        bits as int
    }
}

/// Whether the bits stand for no number.
pub open spec fn is_nan(bits: u64) -> bool {
    magnitude(bits) > INFINITY_BITS
}

/// Whether the bits stand for a finite number.
pub open spec fn is_finite(bits: u64) -> bool {
    magnitude(bits) < INFINITY_BITS
}

/// Numbers are ordered as these keys are; both zeros have the key 0.
pub open spec fn float_key(bits: u64) -> int {
    if bits >= SIGN_BIT {
        -magnitude(bits)
    } else {
        magnitude(bits)
    }
}

/// Whether the first number is less than the second.
pub open spec fn float_lt(a: u64, b: u64) -> bool {
    !is_nan(a) && !is_nan(b) && float_key(a) < float_key(b)
}

/// Whether two numbers are equal: both zeros are, and what is no number equals nothing.
pub open spec fn float_eq(a: u64, b: u64) -> bool {
    !is_nan(a) && !is_nan(b) && float_key(a) == float_key(b)
}

/// The significand as an integer.
pub open spec fn significand(bits: u64) -> int {
    let m = magnitude(bits);
    if m / (FRACTION_STEPS as int) == 0 {
        m
    } else {
        m % (FRACTION_STEPS as int) + FRACTION_STEPS
    }
}

/// The power of two by which the significand counts.
pub open spec fn scale(bits: u64) -> int {
    let e = magnitude(bits) / (FRACTION_STEPS as int);
    if e == 0 {
        -1074
    } else {
        e - 1075
    }
}

/// The absolute value of a finite number, if it is an integer.
pub open spec fn whole_magnitude(bits: u64) -> Option<int> {
    if scale(bits) >= 0 {
        Some(significand(bits) * pow2(scale(bits) as nat))
    } else if significand(bits) % (pow2((-scale(bits)) as nat) as int) == 0 {
        Some(significand(bits) / (pow2((-scale(bits)) as nat) as int))
    } else {
        None
    }
}

/// The integer that a number equals, if it equals one.
pub open spec fn integer_value(bits: u64) -> Option<int> {
    if !is_finite(bits) {
        None
    } else {
        match whole_magnitude(bits) {
            Some(n) => Some(
                if bits >= SIGN_BIT {
                    -n
                } else {
                    n
                },
            ),
            None => None,
        }
    }
}

fn magnitude_of(bits: u64) -> (m: u64)
    ensures
        m == magnitude(bits),
{
    if bits >= SIGN_BIT {
        bits - SIGN_BIT
    } else {
        bits
    }
}

fn key_of(bits: u64) -> (k: i128)
    ensures
        k == float_key(bits),
{
    let m: u64 = magnitude_of(bits);
    if bits >= SIGN_BIT {
        -(m as i128)
    } else {
        m as i128
    }
}

/// Whether the bits stand for no number.
pub fn nan_bits(bits: u64) -> (r: bool)
    ensures
        r == is_nan(bits),
{
    magnitude_of(bits) > INFINITY_BITS
}

/// Whether the bits stand for a finite number.
pub fn finite_bits(bits: u64) -> (r: bool)
    ensures
        r == is_finite(bits),
{
    magnitude_of(bits) < INFINITY_BITS
}

/// Whether the first number is less than the second.
pub fn less(a: u64, b: u64) -> (r: bool)
    ensures
        r == float_lt(a, b),
{
    !nan_bits(a) && !nan_bits(b) && key_of(a) < key_of(b)
}

/// Whether two numbers are equal.
pub fn equal(a: u64, b: u64) -> (r: bool)
    ensures
        r == float_eq(a, b),
{
    !nan_bits(a) && !nan_bits(b) && key_of(a) == key_of(b)
}

fn pow2_of(n: u64) -> (p: u128)
    requires
        n <= 64,
    ensures
        p == pow2(n as nat),
{
    let mut p: u128 = 1;
    let mut i: u64 = 0;
    proof {
        vstd::arithmetic::power2::lemma2_to64();
    }
    while i < n
        invariant
            i <= n <= 64,
            p == pow2(i as nat),
            pow2(64) == 0x10000000000000000,
        decreases n - i,
    {
        proof {
            vstd::arithmetic::power2::lemma_pow2_unfold((i + 1) as nat);
            if i + 1 < 64 {
                vstd::arithmetic::power2::lemma_pow2_strictly_increases((i + 1) as nat, 64);
            }
        }
        p = p * 2;
        i += 1;
    }
    p
}

proof fn small_is_no_multiple(s: int, d: nat)
    requires
        0 <= s < 0x10000000000000000,
        d >= 64,
    ensures
        s % (pow2(d) as int) == 0 <==> s == 0,
        s == 0 ==> s / (pow2(d) as int) == 0,
{
    vstd::arithmetic::power2::lemma2_to64();
    if d > 64 {
        vstd::arithmetic::power2::lemma_pow2_strictly_increases(64, d);
    }
    vstd::arithmetic::div_mod::lemma_small_mod(s as nat, pow2(d));
    if s == 0 {
        vstd::arithmetic::div_mod::lemma_div_basics(pow2(d) as int);
    }
}

/// The 64-bit integer that a number equals, if it equals one.
pub fn to_i64(bits: u64) -> (r: Option<i64>)
    ensures
        r is Some <==> (integer_value(bits) matches Some(n) && i64::MIN <= n <= i64::MAX),
        r matches Some(v) ==> integer_value(bits) == Some(v as int),
{
    if !finite_bits(bits) {
        return None;
    }
    let m: u64 = magnitude_of(bits);
    let e: u64 = m / FRACTION_STEPS;
    let s: u64 = if e == 0 {
        m
    } else {
        m % FRACTION_STEPS + FRACTION_STEPS
    };
    assert(s == significand(bits));
    let n: u128 = if e >= 1075 {
        let up: u64 = e - 1075;
        if up > 11 {
            proof {
                vstd::arithmetic::power2::lemma2_to64();
                if up > 12 {
                    vstd::arithmetic::power2::lemma_pow2_strictly_increases(12, up as nat);
                }
                assert(s * pow2(up as nat) >= 0x10000000000000000) by (nonlinear_arith)
                    requires
                        s >= 0x10000000000000,
                        pow2(up as nat) >= 0x1000,
                ;
            }
            return None;
        }
        let p: u128 = pow2_of(up);
        proof {
            vstd::arithmetic::power2::lemma2_to64();
            if up < 11 {
                vstd::arithmetic::power2::lemma_pow2_strictly_increases(up as nat, 11);
            }
            assert(s * p <= 0x20000000000000 * 0x800) by (nonlinear_arith)
                requires
                    s <= 0x20000000000000,
                    p <= 0x800,
            ;
        }
        s as u128 * p
    } else {
        let down: u64 = if e == 0 {
            1074
        } else {
            1075 - e
        };
        if down > 63 {
            proof {
                small_is_no_multiple(s as int, down as nat);
            }
            if s != 0 {
                return None;
            }
            0
        } else {
            let p: u128 = pow2_of(down);
            proof {
                vstd::arithmetic::power2::lemma_pow2_pos(down as nat);
                vstd::arithmetic::div_mod::lemma_div_is_ordered_by_denominator(
                    s as int,
                    1,
                    p as int,
                );
            }
            if s as u128 % p != 0 {
                return None;
            }
            s as u128 / p
        }
    };
    assert(whole_magnitude(bits) == Some(n as int));
    if bits >= SIGN_BIT {
        if n > 9223372036854775808 {
            None
        } else if n == 9223372036854775808 {
            Some(i64::MIN)
        } else {
            Some(-(n as i64))
        }
    } else if n > 9223372036854775807 {
        None
    } else {
        Some(n as i64)
    }
}

/// The larger of two numbers; what is no number gives way to the other.
pub open spec fn float_max(a: u64, b: u64) -> u64 {
    if is_nan(a) || float_lt(a, b) {
        b
    } else {
        a
    }
}

/// The smaller of two numbers; what is no number gives way to the other.
pub open spec fn float_min(a: u64, b: u64) -> u64 {
    if is_nan(a) || float_lt(b, a) {
        b
    } else {
        a
    }
}

/// Equal numbers other than zero have the same bits.
pub proof fn equal_numbers_have_equal_bits(a: u64, b: u64)
    requires
        float_eq(a, b),
        float_key(a) != 0,
    ensures
        a == b,
{
}

/// A number is below a bound if and only if it is below one of the two that the larger was
/// taken from, and in the same way above.
pub proof fn tighter_bound_is_both(v: u64, a: u64, b: u64)
    ensures
        float_lt(v, float_max(a, b)) <==> float_lt(v, a) || float_lt(v, b),
        float_lt(float_min(a, b), v) <==> float_lt(a, v) || float_lt(b, v),
{
}

/// A number with the text that it prints as.
#[derive(Debug)]
pub struct FloatNumber {
    /// The binary64 bit pattern.
    pub bits: u64,
    /// The number as it is printed in messages.
    pub shown: String,
}

/// What a contract reads of a number.
pub struct NumberView {
    pub bits: u64,
    pub shown: Seq<char>,
}

impl View for FloatNumber {
    type V = NumberView;

    open spec fn view(&self) -> NumberView {
        NumberView { bits: self.bits, shown: self.shown@ }
    }
}

impl FloatNumber {
    /// A copy of the number.
    pub fn copy(&self) -> (r: FloatNumber)
        ensures
            r == *self,
    {
        FloatNumber { bits: self.bits, shown: self.shown.clone() }
    }
}

/// A finite number as a value, with the text that stands for it.
#[derive(Debug)]
pub struct Float64 {
    /// The number itself.
    pub number: FloatNumber,
    /// The literal that the value was written as, or else its own text.
    pub text: String,
}

/// What a contract reads of a float value.
pub struct FloatView {
    pub number: NumberView,
    pub text: Seq<char>,
}

impl View for Float64 {
    type V = FloatView;

    open spec fn view(&self) -> FloatView {
        FloatView { number: self.number@, text: self.text@ }
    }
}

impl Float64 {
    /// The value of a finite number; none of an infinity or of what is no number.
    pub fn new(number: FloatNumber, text: String) -> (r: Option<Float64>)
        ensures
            r is Some <==> is_finite(number.bits),
            r matches Some(v) ==> v@ == (FloatView { number: number@, text: text@ }),
    {
        if finite_bits(number.bits) {
            Some(Float64 { number, text })
        } else {
            None
        }
    }

    /// A copy of the value.
    pub fn copy(&self) -> (r: Float64)
        ensures
            r == *self,
    {
        Float64 { number: self.number.copy(), text: self.text.clone() }
    }
}

/// Bits stand for a finite number exactly where the eleven bits of the exponent are not all
/// set, and for no number where they are and the fraction is not zero.
pub proof fn exponent_tells_numbers(bits: u64)
    ensures
        is_finite(bits) <==> (bits / 0x0010_0000_0000_0000) % 0x800 != 0x7ff,
        is_nan(bits) <==> (bits / 0x0010_0000_0000_0000) % 0x800 == 0x7ff && bits
            % 0x0010_0000_0000_0000 != 0,
{
}

/// Of two numbers without a sign the one with the smaller bits is the smaller, of two with a
/// sign the one with the larger bits is, and one with a sign is smaller than one without unless
/// both are zero. What is no number is neither smaller nor larger than anything, nor equal.
pub proof fn numbers_order_by_their_bits(a: u64, b: u64)
    ensures
        ({
            let negative_a = a >= 0x8000_0000_0000_0000;
            let negative_b = b >= 0x8000_0000_0000_0000;
            let zeros = (a == 0 || a == 0x8000_0000_0000_0000) && (b == 0 || b
                == 0x8000_0000_0000_0000);
            &&& is_nan(a) || is_nan(b) ==> !float_lt(a, b) && !float_eq(a, b)
            &&& !is_nan(a) && !is_nan(b) ==> (float_eq(a, b) <==> a == b || zeros)
            &&& !is_nan(a) && !is_nan(b) ==> (float_lt(a, b) <==> if !negative_a && !negative_b {
                a < b
            } else if negative_a && negative_b {
                a > b
            } else {
                negative_a && !zeros
            })
        }),
{
}

/// A number that equals an integer equals it exactly: its significand, with the leading bit
/// that is not written, times the power of two that its exponent says, is the integer without
/// its sign. A number that is not finite equals none.
pub proof fn integer_value_is_exact(bits: u64, n: int)
    requires
        0x0010_0000_0000_0000 <= magnitude(bits),
    ensures
        ({
            let e = (bits / 0x0010_0000_0000_0000) % 0x800;
            let m = bits % 0x0010_0000_0000_0000 + 0x0010_0000_0000_0000;
            let size = if n < 0 {
                -n
            } else {
                n
            };
            &&& !is_finite(bits) ==> integer_value(bits) is None
            &&& integer_value(bits) == Some(n) ==> (n < 0 <==> bits >= 0x8000_0000_0000_0000)
            &&& integer_value(bits) == Some(n) && e >= 1075 ==> size == m * pow2(
                (e - 1075) as nat,
            )
            &&& integer_value(bits) == Some(n) && e < 1075 ==> size * pow2((1075 - e) as nat) == m
            &&& is_finite(bits) && e >= 1075 ==> integer_value(bits) is Some
            &&& is_finite(bits) && e < 1075 && n >= 0 && n * pow2((1075 - e) as nat) == m
                ==> integer_value(bits) == Some(
                if bits >= 0x8000_0000_0000_0000 {
                    -n
                } else {
                    n
                },
            )
        }),
{
    let e = (bits / 0x0010_0000_0000_0000) % 0x800;
    let m = bits % 0x0010_0000_0000_0000 + 0x0010_0000_0000_0000;
    assert(m == significand(bits));
    assert(e == scale(bits) + 1075);
    if e >= 1075 {
        vstd::arithmetic::power2::lemma_pow2_pos((e - 1075) as nat);
        assert(m * pow2((e - 1075) as nat) > 0) by (nonlinear_arith)
            requires
                m > 0,
                pow2((e - 1075) as nat) > 0,
        ;
    } else {
        let p = pow2((1075 - e) as nat) as int;
        vstd::arithmetic::power2::lemma_pow2_pos((1075 - e) as nat);
        vstd::arithmetic::div_mod::lemma_fundamental_div_mod(m as int, p);
        assert((m as int / p) * p == p * (m as int / p)) by (nonlinear_arith);
        if m as int % p == 0 {
            assert(m as int / p > 0) by (nonlinear_arith)
                requires
                    m > 0,
                    p > 0,
                    m == p * (m as int / p),
            ;
        }
        if n >= 0 && n * p == m {
            vstd::arithmetic::div_mod::lemma_div_multiples_vanish(n, p);
            vstd::arithmetic::div_mod::lemma_mod_multiples_basic(n, p);
            assert(n * p == p * n) by (nonlinear_arith);
        }
    }
}

/// A zero equals the integer zero, with or without a sign, and no smaller number than the
/// smallest with a leading bit equals any other integer.
pub proof fn only_zero_is_whole_among_the_smallest(bits: u64)
    requires
        magnitude(bits) < 0x0010_0000_0000_0000,
    ensures
        magnitude(bits) == 0 ==> integer_value(bits) == Some(0int),
        magnitude(bits) != 0 ==> integer_value(bits) is None,
{
    small_is_no_multiple(magnitude(bits), 1074);
}

} // verus!
