//! IEEE 754 binary64 numbers, held by their bit patterns.
//!
//! A score, a frequency or a significance level reaches this library as the
//! 64 bits of its encoding. Every finite pattern denotes a whole number of
//! quanta, a quantum being two to the power -1074, the smallest positive
//! subnormal number. That makes the value of a pattern an integer, and the
//! statements about order and rounding below exact.

use vstd::prelude::*;
use vstd::arithmetic::power2::*;
use vstd::arithmetic::mul::*;

verus! {

/// The bit that holds the sign.
pub const SIGN_BIT: u64 = 0x8000_0000_0000_0000;

/// Two to the power 52: the weight of the lowest bit of the exponent field,
/// and the implicit leading bit of a normal number's significand.
pub const HIDDEN_BIT: u64 = 0x0010_0000_0000_0000;

/// The pattern of positive infinity: every pattern whose magnitude lies
/// above it is a NaN.
pub const INFINITY: u64 = 0x7FF0_0000_0000_0000;

/// The pattern of the number one.
pub const ONE: u64 = 0x3FF0_0000_0000_0000;

/// The exponent of the quantum: a number's value is its quanta divided by
/// two to this power.
pub const QUANTUM_EXPONENT: u64 = 1074;

/// Whether the sign bit is set.
pub open spec fn is_negative(bits: u64) -> bool {
    bits >= SIGN_BIT
}

/// The pattern without its sign bit.
pub open spec fn magnitude_bits(bits: u64) -> nat {
    if bits >= SIGN_BIT {
        (bits - SIGN_BIT) as nat
    } else {
        bits as nat
    }
}

/// The biased exponent, between 0 and 2047.
pub open spec fn exponent_field(bits: u64) -> nat {
    magnitude_bits(bits) / (HIDDEN_BIT as nat)
}

/// The 52 explicit bits of the significand.
pub open spec fn fraction_field(bits: u64) -> nat {
    magnitude_bits(bits) % (HIDDEN_BIT as nat)
}

/// Neither an infinity nor a NaN.
pub open spec fn is_finite(bits: u64) -> bool {
    magnitude_bits(bits) < INFINITY
}

/// Not a number.
pub open spec fn is_nan(bits: u64) -> bool {
    magnitude_bits(bits) > INFINITY
}

/// Positive or negative zero.
pub open spec fn is_zero(bits: u64) -> bool {
    magnitude_bits(bits) == 0
}

/// The absolute value of a finite pattern, in quanta: the fraction alone for
/// a subnormal number, and the fraction with its hidden bit, shifted by the
/// exponent, for a normal one.
pub open spec fn quanta(bits: u64) -> nat {
    if exponent_field(bits) == 0 {
        fraction_field(bits)
    } else {
        (HIDDEN_BIT + fraction_field(bits)) as nat * pow2((exponent_field(bits) - 1) as nat)
    }
}

/// The value of a finite pattern, in quanta.
pub open spec fn value(bits: u64) -> int {
    if is_negative(bits) {
        -(quanta(bits) as int)
    } else {
        quanta(bits) as int
    }
}

/// The number one, in quanta.
pub open spec fn unit() -> nat {
    pow2(QUANTUM_EXPONENT as nat)
}

/// A finite number strictly between zero and one.
pub open spec fn in_open_unit_interval(bits: u64) -> bool {
    is_finite(bits) && 0 < value(bits) < unit()
}

/// The place of a pattern in the IEEE 754 total order: patterns with the sign
/// bit set come first, the largest magnitude lowest, and then those without
/// it by rising magnitude. So negative NaNs precede negative infinity, the
/// negative numbers, negative zero, positive zero, the positive numbers,
/// positive infinity and the positive NaNs.
pub open spec fn total_order_rank(bits: u64) -> int {
    if is_negative(bits) {
        -(magnitude_bits(bits) as int) - 1
    } else {
        magnitude_bits(bits) as int
    }
}

/// The key by which patterns are sorted: a signed integer that rises with the
/// total order.
pub fn total_order_key(bits: u64) -> (key: i64)
    ensures
        key == total_order_rank(bits),
{
    if bits < SIGN_BIT {
        bits as i64
    } else {
        let magnitude: u64 = bits - SIGN_BIT;
        -1i64 - (magnitude as i64)
    }
}

/// Whether a pattern is one of the two zeros, the only values that compare
/// equal to zero.
pub fn denotes_zero(bits: u64) -> (zero: bool)
    ensures
        zero == is_zero(bits),
{
    bits == 0 || bits == SIGN_BIT
}

/// Whether a pattern is a finite number strictly between zero and one.
pub fn is_probability(bits: u64) -> (inside: bool)
    ensures
        inside == in_open_unit_interval(bits),
{
    proof {
        unit_interval_patterns(bits);
    }
    0 < bits && bits < ONE
}

/// The numbers strictly between zero and one are the patterns strictly
/// between those of zero and of one.
pub proof fn unit_interval_patterns(bits: u64)
    ensures
        in_open_unit_interval(bits) <==> 0 < bits < ONE,
{
    quanta_of_one();
    if 0 < bits && bits < INFINITY {
        assert(magnitude_bits(ONE) == ONE);
        quanta_rise_with_bits(0, bits);
        if bits < ONE {
            quanta_rise_with_bits(bits, ONE);
        } else if bits > ONE {
            quanta_rise_with_bits(ONE, bits);
        }
    }
}

/// The pattern of one denotes two to the power 1074 quanta, and that of zero
/// none.
pub proof fn quanta_of_one()
    ensures
        quanta(ONE) == unit(),
        quanta(0) == 0,
{
    assert(exponent_field(ONE) == 1023);
    assert(fraction_field(ONE) == 0);
    assert(exponent_field(0) == 0);
    assert(pow2(52) == HIDDEN_BIT) by {
        lemma2_to64_rest();
    }
    assert(pow2(52) * pow2(1022) == pow2(1074)) by {
        lemma_pow2_adds(52, 1022);
    }
}

/// Among the finite patterns, one of larger magnitude bits denotes a number
/// of larger absolute value.
pub proof fn quanta_rise_with_bits(a: u64, b: u64)
    requires
        magnitude_bits(a) < magnitude_bits(b),
        is_finite(b),
    ensures
        quanta(a) < quanta(b),
{
    let ea = exponent_field(a);
    let eb = exponent_field(b);
    let fa = fraction_field(a);
    let fb = fraction_field(b);
    let h = HIDDEN_BIT as nat;
    assert(magnitude_bits(a) == ea * h + fa && magnitude_bits(b) == eb * h + fb);
    assert(ea <= eb);
    if ea == eb {
        if ea != 0 {
            let p = pow2((ea - 1) as nat);
            lemma_pow2_pos((ea - 1) as nat);
            lemma_mul_strict_inequality((h + fa) as int, (h + fb) as int, p as int);
        }
    } else {
        let pb = pow2((eb - 1) as nat);
        lemma_pow2_pos((eb - 1) as nat);
        // quanta(b) >= h * pb
        lemma_mul_inequality(h as int, (h + fb) as int, pb as int);
        if ea == 0 {
            // quanta(a) = fa < h <= h * pb
            lemma_mul_inequality(1, pb as int, h as int);
            lemma_mul_is_commutative(h as int, pb as int);
        } else {
            let pa = pow2((ea - 1) as nat);
            lemma_pow2_pos((ea - 1) as nat);
            // quanta(a) < 2h * pa = h * pow2(ea) <= h * pb
            lemma_mul_strict_inequality((h + fa) as int, (2 * h) as int, pa as int);
            lemma_pow2_unfold(ea);
            assert(2 * h * pa == h * pow2(ea)) by (nonlinear_arith)
                requires
                    pow2(ea) == 2 * pa,
            ;
            if ea < eb - 1 {
                lemma_pow2_strictly_increases(ea, (eb - 1) as nat);
            }
            lemma_mul_inequality(pow2(ea) as int, pb as int, h as int);
            lemma_mul_is_commutative(h as int, pb as int);
            lemma_mul_is_commutative(h as int, pow2(ea) as int);
        }
    }
}

/// No two patterns share a place in the total order.
pub proof fn total_order_tells_patterns_apart(a: u64, b: u64)
    requires
        total_order_rank(a) == total_order_rank(b),
    ensures
        a == b,
{
}

/// Among the finite patterns the total order follows the numbers: a pattern
/// that stands before another does not denote a larger number. The two zeros
/// denote the same number, and the negative one stands first.
pub proof fn total_order_follows_value(a: u64, b: u64)
    requires
        is_finite(a),
        is_finite(b),
        total_order_rank(a) <= total_order_rank(b),
    ensures
        value(a) <= value(b),
{
    if is_negative(a) == is_negative(b) {
        if magnitude_bits(a) < magnitude_bits(b) {
            quanta_rise_with_bits(a, b);
        } else if magnitude_bits(b) < magnitude_bits(a) {
            quanta_rise_with_bits(b, a);
        } else {
            assert(a == b);
        }
    }
}

/// Among the finite patterns, a smaller number stands before a larger one in
/// the total order.
pub proof fn value_order_decides_total_order(a: u64, b: u64)
    requires
        is_finite(a),
        is_finite(b),
        value(a) < value(b),
    ensures
        total_order_rank(a) < total_order_rank(b),
{
    if total_order_rank(b) <= total_order_rank(a) {
        total_order_follows_value(b, a);
    }
}

} // verus!
