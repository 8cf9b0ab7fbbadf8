//! IEEE 754 binary64 encodings, held as `u64`.
//!
//! An encoding has a sign bit, an 11-bit biased exponent and a 52-bit
//! fraction. The functions here read those fields arithmetically and give the
//! magnitude of a finite encoding as a natural number of units of 2^-1074,
//! the spacing of the smallest subnormals, so that magnitudes can be compared
//! exactly.

use vstd::prelude::*;
use vstd::arithmetic::power2::pow2;
use vstd::arithmetic::power2::lemma_pow2_pos;
use vstd::arithmetic::power2::lemma_pow2_unfold;
use vstd::arithmetic::power2::lemma_pow2_strictly_increases;
use vstd::arithmetic::power2::lemma_pow2_adds;
use vstd::arithmetic::power2::lemma2_to64;
use vstd::arithmetic::power2::lemma2_to64_rest;

verus! {

/// Encoding of positive zero.
pub const ZERO: u64 = 0;

/// Encoding of one.
pub const ONE: u64 = 0x3FF0_0000_0000_0000;

/// Encoding of minus one.
pub const NEG_ONE: u64 = 0xBFF0_0000_0000_0000;

/// Encoding of the binary64 nearest to 10^-12: an off-diagonal covariance
/// counts only if its absolute value is greater than this threshold.
pub const EPSILON: u64 = 0x3D71_9799_812D_EA11;

/// Encoding of positive infinity.
pub const INFINITY: u64 = 0x7FF0_0000_0000_0000;

/// The sign bit alone.
pub const SIGN_BIT: u64 = 0x8000_0000_0000_0000;

/// Two to the 52, the weight of the implicit leading bit of a normal number.
pub const HIDDEN_BIT: u64 = 0x10_0000_0000_0000;

/// Whether the sign bit is set.
pub open spec fn is_negative(bits: u64) -> bool {
    bits >= SIGN_BIT
}

/// The encoding with its sign bit cleared: the encoding of the absolute value.
pub open spec fn magnitude_field(bits: u64) -> u64 {
    if bits >= SIGN_BIT {
        (bits - SIGN_BIT) as u64
    } else {
        bits
    }
}

/// The biased exponent, between 0 and 2047.
pub open spec fn exponent_field(bits: u64) -> nat {
    (magnitude_field(bits) / HIDDEN_BIT) as nat
}

/// The 52 fraction bits.
pub open spec fn fraction_field(bits: u64) -> nat {
    (magnitude_field(bits) % HIDDEN_BIT) as nat
}

/// Zero, subnormal or normal.
pub open spec fn is_finite(bits: u64) -> bool {
    exponent_field(bits) < 0x7FF
}

/// Positive or negative infinity.
pub open spec fn is_infinite(bits: u64) -> bool {
    exponent_field(bits) == 0x7FF && fraction_field(bits) == 0
}

/// Not a number.
pub open spec fn is_nan(bits: u64) -> bool {
    exponent_field(bits) == 0x7FF && fraction_field(bits) != 0
}

/// The absolute value of a finite encoding, counted in units of 2^-1074.
///
/// A subnormal is its fraction; a normal number with biased exponent `e` is
/// `(2^52 + fraction) * 2^(e - 1)`.
pub open spec fn scaled_magnitude(bits: u64) -> nat
    recommends
        is_finite(bits),
{
    if exponent_field(bits) == 0 {
        fraction_field(bits)
    } else {
        ((HIDDEN_BIT + fraction_field(bits)) * pow2((exponent_field(bits) - 1) as nat)) as nat
    }
}

/// `|a| > |b|` as extended real numbers; false when either is not a number.
pub open spec fn magnitude_exceeds(a: u64, b: u64) -> bool {
    &&& !is_nan(a)
    &&& !is_nan(b)
    &&& if is_infinite(a) {
        is_finite(b)
    } else {
        is_finite(b) && scaled_magnitude(a) > scaled_magnitude(b)
    }
}

/// Whether the absolute value is greater than the threshold `EPSILON`.
pub open spec fn is_significant(bits: u64) -> bool {
    magnitude_exceeds(bits, EPSILON)
}

/// Among finite encodings, a smaller magnitude field is a smaller magnitude.
pub proof fn lemma_magnitude_field_orders(a: u64, b: u64)
    requires
        is_finite(a),
        is_finite(b),
    ensures
        magnitude_field(a) < magnitude_field(b) <==> scaled_magnitude(a) < scaled_magnitude(b),
{
    if magnitude_field(a) < magnitude_field(b) {
        lemma_smaller_field_smaller_magnitude(a, b);
    } else if magnitude_field(b) < magnitude_field(a) {
        lemma_smaller_field_smaller_magnitude(b, a);
    }
}

/// One direction of the order: the magnitude grows with the magnitude field,
/// within one exponent by the fraction and across exponents by the power of
/// two.
proof fn lemma_smaller_field_smaller_magnitude(a: u64, b: u64)
    requires
        is_finite(a),
        is_finite(b),
        magnitude_field(a) < magnitude_field(b),
    ensures
        scaled_magnitude(a) < scaled_magnitude(b),
{
    let ea = exponent_field(a);
    let eb = exponent_field(b);
    let fa = fraction_field(a) as int;
    let fb = fraction_field(b) as int;
    let h = HIDDEN_BIT as int;
    assert(ea <= eb);
    if ea == eb {
        assert(fa < fb);
        if ea != 0 {
            let p = pow2((ea - 1) as nat) as int;
            lemma_pow2_pos((ea - 1) as nat);
            assert((h + fa) * p < (h + fb) * p) by (nonlinear_arith)
                requires
                    fa < fb,
                    p > 0,
            ;
        }
    } else {
        let pb = pow2((eb - 1) as nat) as int;
        lemma_pow2_pos((eb - 1) as nat);
        assert(h * pb <= (h + fb) * pb) by (nonlinear_arith)
            requires
                0 <= fb,
                pb > 0,
        ;
        if ea == 0 {
            assert(h * 1 <= h * pb) by (nonlinear_arith)
                requires
                    h > 0,
                    pb >= 1,
            ;
        } else {
            let pa = pow2((ea - 1) as nat) as int;
            lemma_pow2_pos((ea - 1) as nat);
            lemma_pow2_unfold(ea);
            if ea < eb - 1 {
                lemma_pow2_strictly_increases(ea, (eb - 1) as nat);
            }
            assert(pow2(ea) <= pb);
            assert((h + fa) * pa < h * (2 * pa)) by (nonlinear_arith)
                requires
                    0 <= fa < h,
                    pa > 0,
            ;
            assert(h * (2 * pa) <= h * pb) by (nonlinear_arith)
                requires
                    h > 0,
                    2 * pa <= pb,
            ;
        }
    }
}

/// An encoding is significant exactly when its magnitude field lies above
/// that of the threshold and not above that of infinity.
pub proof fn lemma_significant_by_field(bits: u64)
    ensures
        is_significant(bits) <==> EPSILON < magnitude_field(bits) <= INFINITY,
{
    if magnitude_field(bits) < INFINITY {
        lemma_magnitude_field_orders(EPSILON, bits);
    }
}

/// Ten to the twelfth.
pub open spec fn ten_to_twelve() -> int {
    1_000_000_000_000
}

/// `EPSILON` is the binary64 nearest to 10^-12.
///
/// It is a positive normal number with biased exponent 983, so one unit in
/// its last place is `2^982` units of 2^-1074. In those units 10^-12 is
/// `2^1074 / 10^12`, and twice the distance from `EPSILON` to it is at most
/// one unit in the last place, here stated with both sides multiplied by
/// 10^12.
pub proof fn lemma_epsilon_rounds_ten_to_minus_twelve()
    ensures
        !is_negative(EPSILON),
        is_finite(EPSILON),
        exponent_field(EPSILON) == 983,
        2 * (scaled_magnitude(EPSILON) * ten_to_twelve() - pow2(1074)) <= ten_to_twelve() * pow2(
            982,
        ),
        2 * (pow2(1074) - scaled_magnitude(EPSILON) * ten_to_twelve()) <= ten_to_twelve() * pow2(
            982,
        ),
{
    let m: int = HIDDEN_BIT + fraction_field(EPSILON);
    let t: int = ten_to_twelve();
    let ulp: int = pow2(982) as int;
    let q: int = pow2(92) as int;
    assert(exponent_field(EPSILON) == 983);
    assert(m == 4951760157141521);
    assert(q == 4951760157141521099596496896) by {
        lemma2_to64();
        lemma_pow2_adds(64, 28);
    }
    assert(pow2(1074) == q * ulp) by {
        lemma_pow2_adds(92, 982);
    }
    lemma_pow2_pos(982);
    assert(scaled_magnitude(EPSILON) == m * ulp);
    let d: int = q - m * t;
    assert(0 <= 2 * d <= t);
    assert(q * ulp - (m * ulp) * t == d * ulp) by (nonlinear_arith)
        requires
            d == q - m * t,
    ;
    assert(2 * (d * ulp) <= t * ulp) by (nonlinear_arith)
        requires
            2 * d <= t,
            ulp > 0,
    ;
    assert(0 <= d * ulp) by (nonlinear_arith)
        requires
            0 <= d,
            ulp > 0,
    ;
}

/// `ONE` and `NEG_ONE` encode plus and minus one: their magnitude is `2^1074`
/// units of 2^-1074, and only `NEG_ONE` has the sign bit. `ZERO` has
/// magnitude zero.
pub proof fn lemma_unit_encodings()
    ensures
        !is_negative(ONE),
        is_negative(NEG_ONE),
        is_finite(ONE),
        is_finite(NEG_ONE),
        scaled_magnitude(ONE) == pow2(1074),
        scaled_magnitude(NEG_ONE) == pow2(1074),
        is_finite(ZERO),
        scaled_magnitude(ZERO) == 0,
{
    assert(exponent_field(ONE) == 1023 && fraction_field(ONE) == 0);
    assert(exponent_field(NEG_ONE) == 1023 && fraction_field(NEG_ONE) == 0);
    assert(pow2(52) == HIDDEN_BIT) by {
        lemma2_to64_rest();
    }
    lemma_pow2_adds(52, 1022);
}

/// Tests `|x| > 10^-12` on the encoding of `x`.
///
/// The sign is discarded, and what is left is compared as an integer with the
/// threshold and with infinity: an encoding that is not a number sits above
/// infinity and is never significant.
pub fn exceeds_epsilon(bits: u64) -> (significant: bool)
    ensures
        significant == is_significant(bits),
{
    let magnitude: u64 = bits & 0x7FFF_FFFF_FFFF_FFFF;
    proof {
        assert(magnitude == magnitude_field(bits)) by (bit_vector)
            requires
                magnitude == bits & 0x7FFF_FFFF_FFFF_FFFF,
        ;
        lemma_significant_by_field(bits);
    }
    magnitude > EPSILON && magnitude <= INFINITY
}

/// A vector of `n` zeros.
pub fn zeros(n: usize) -> (v: Vec<u64>)
    ensures
        v@ == Seq::new(n as nat, |i: int| ZERO),
{
    let mut v: Vec<u64> = Vec::new();
    let mut i: usize = 0;
    while i < n
        invariant
            i <= n,
            v@ == Seq::new(i as nat, |j: int| ZERO),
        decreases n - i,
    {
        v.push(ZERO);
        i = i + 1;
    }
    v
}

} // verus!
