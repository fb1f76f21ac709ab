//! Numbers, held as IEEE 754 binary64 bit patterns.
//!
//! A number is a `u64`: one sign bit, eleven bits of biased exponent and
//! fifty-two bits of fraction. Everything here is integer work on that
//! pattern: classification, the numeric order, and the conversions between
//! numbers and array indices. What a finite pattern is worth as a number
//! says [`scaled_value`], and the laws at the end of this file hold the
//! order and the conversions to it. Arithmetic and decimal text are not
//! computed here; the functions that need them take the host's routines as
//! arguments.
use vstd::prelude::*;
use vstd::arithmetic::div_mod::{
    lemma_basic_div,
    lemma_div_by_multiple,
    lemma_div_denominator,
};
use vstd::arithmetic::power2::{
    pow2,
    lemma_pow2_unfold,
    lemma_pow2_pos,
    lemma_pow2_adds,
    lemma_pow2_strictly_increases,
    lemma2_to64,
    lemma2_to64_rest,
};

verus! {

/// The sign bit, which is also the pattern of negative zero.
pub const SIGN_BIT: u64 = 0x8000_0000_0000_0000;

/// The pattern of positive infinity: all exponent bits set, no fraction bit.
pub const INFINITY: u64 = 0x7FF0_0000_0000_0000;

/// The implicit leading bit of a normal significand, two to the 52nd.
pub const HIDDEN_BIT: u64 = 0x0010_0000_0000_0000;

/// The biased exponent of the numbers in `[1, 2)`.
pub const EXPONENT_BIAS: u64 = 1023;

/// The biased exponent at which the significand is the value itself.
pub const UNIT_EXPONENT: u64 = 1075;

/// The pattern without its sign bit.
pub open spec fn magnitude(bits: u64) -> u64 {
    (bits % SIGN_BIT) as u64
}

/// Whether the sign bit is set.
pub open spec fn is_negative(bits: u64) -> bool {
    bits >= SIGN_BIT
}

/// Not a number: all exponent bits set and some fraction bit set.
pub open spec fn spec_is_nan(bits: u64) -> bool {
    magnitude(bits) > INFINITY
}

/// Positive or negative zero.
pub open spec fn spec_is_zero(bits: u64) -> bool {
    magnitude(bits) == 0
}

/// The place of a number in the numeric order. Magnitudes grow with the
/// pattern, negative numbers mirror the positive ones, and the two zeros
/// share rank zero: so two numbers that are not NaN compare as their ranks
/// do. For finite numbers [`law_order_is_numeric`] shows that this is the
/// order of their values.
pub open spec fn rank(bits: u64) -> int {
    if is_negative(bits) {
        -(magnitude(bits) as int)
    } else {
        magnitude(bits) as int
    }
}

/// `a < b` on numbers. False as soon as either is NaN.
pub open spec fn spec_less(a: u64, b: u64) -> bool {
    !spec_is_nan(a) && !spec_is_nan(b) && rank(a) < rank(b)
}

/// `a == b` on numbers. False as soon as either is NaN; the two zeros are equal.
pub open spec fn spec_same(a: u64, b: u64) -> bool {
    !spec_is_nan(a) && !spec_is_nan(b) && rank(a) == rank(b)
}

/// `a <= b` on numbers.
pub open spec fn spec_at_most(a: u64, b: u64) -> bool {
    spec_less(a, b) || spec_same(a, b)
}

#[verifier::when_used_as_spec(spec_is_nan)]
pub fn is_nan(bits: u64) -> (r: bool)
    ensures
        r == spec_is_nan(bits),
{
    bits % SIGN_BIT > INFINITY
}

#[verifier::when_used_as_spec(spec_is_zero)]
pub fn is_zero(bits: u64) -> (r: bool)
    ensures
        r == spec_is_zero(bits),
{
    bits % SIGN_BIT == 0
}

/// The rank as a machine integer.
fn rank_of(bits: u64) -> (r: i64)
    ensures
        r == rank(bits),
{
    let m: u64 = bits % SIGN_BIT;
    if bits >= SIGN_BIT {
        -(m as i64)
    } else {
        m as i64
    }
}

#[verifier::when_used_as_spec(spec_less)]
pub fn less(a: u64, b: u64) -> (r: bool)
    ensures
        r == spec_less(a, b),
{
    !is_nan(a) && !is_nan(b) && rank_of(a) < rank_of(b)
}

#[verifier::when_used_as_spec(spec_same)]
pub fn same(a: u64, b: u64) -> (r: bool)
    ensures
        r == spec_same(a, b),
{
    !is_nan(a) && !is_nan(b) && rank_of(a) == rank_of(b)
}

#[verifier::when_used_as_spec(spec_at_most)]
pub fn at_most(a: u64, b: u64) -> (r: bool)
    ensures
        r == spec_at_most(a, b),
{
    !is_nan(a) && !is_nan(b) && rank_of(a) <= rank_of(b)
}

/// The position of the highest set bit of `n`, zero for `n <= 1`.
pub open spec fn floor_log2(n: nat) -> nat
    decreases n,
{
    if n <= 1 {
        0
    } else {
        1 + floor_log2(n / 2)
    }
}

/// `n` lies between two to its logarithm and the next power of two.
pub proof fn lemma_floor_log2_bounds(n: nat)
    requires
        n > 0,
    ensures
        pow2(floor_log2(n)) <= n < pow2(floor_log2(n) + 1),
    decreases n,
{
    lemma2_to64();
    if n > 1 {
        lemma_floor_log2_bounds(n / 2);
        lemma_pow2_unfold(floor_log2(n));
        lemma_pow2_unfold(floor_log2(n) + 1);
    }
}

/// The significand of `n` rounded to 53 bits, ties to the even neighbour.
/// It lies between two to the 52nd and two to the 53rd, both included.
pub open spec fn rounded_significand(n: nat) -> nat {
    let k = floor_log2(n);
    if k <= 52 {
        n * pow2((52 - k) as nat)
    } else {
        let unit = pow2((k - 52) as nat);
        let half = pow2((k - 53) as nat);
        let q = n / unit;
        let r = n % unit;
        if r > half || (r == half && q % 2 == 1) {
            q + 1
        } else {
            q
        }
    }
}

/// The number nearest to the natural number `n`, ties to even: what a cast
/// of an unsigned integer to binary64 gives. Exact below two to the 53rd.
pub open spec fn from_nat(n: nat) -> u64 {
    if n == 0 {
        0
    } else {
        ((EXPONENT_BIAS + floor_log2(n)) * HIDDEN_BIT + (rounded_significand(n) - HIDDEN_BIT)) as u64
    }
}

/// The integral part of a number that is neither negative nor NaN nor
/// infinite, as a natural number of any size.
pub open spec fn integral_part(bits: u64) -> nat {
    let e = bits / HIDDEN_BIT;
    let significand = HIDDEN_BIT + bits % HIDDEN_BIT;
    if e < EXPONENT_BIAS {
        0
    } else if e <= UNIT_EXPONENT {
        significand as nat / pow2((UNIT_EXPONENT - e) as nat)
    } else {
        significand as nat * pow2((e - UNIT_EXPONENT) as nat)
    }
}

/// The index that a number stands for: its integral part, cut to the range
/// of `usize`. NaN and everything negative give zero, and what is too large,
/// infinity included, gives `usize::MAX`.
pub open spec fn to_index(bits: u64) -> usize {
    if spec_is_nan(bits) || is_negative(bits) {
        0
    } else if bits == INFINITY || integral_part(bits) > usize::MAX {
        usize::MAX
    } else {
        integral_part(bits) as usize
    }
}

/// Two to the power `e`, by doubling.
fn power_of_two(e: u64) -> (r: u64)
    requires
        e < 64,
    ensures
        r == pow2(e as nat),
{
    let mut r: u64 = 1;
    let mut i: u64 = 0;
    proof {
        lemma2_to64();
    }
    while i < e
        invariant
            i <= e < 64,
            r == pow2(i as nat),
        decreases e - i,
    {
        proof {
            lemma_pow2_unfold((i + 1) as nat);
            lemma2_to64_rest();
            if i + 1 < 63 {
                lemma_pow2_strictly_increases((i + 1) as nat, 63);
            }
        }
        r = r * 2;
        i += 1;
    }
    r
}

/// The logarithm of a 64-bit value is below 64.
proof fn lemma_floor_log2_u64(m: u64)
    requires
        m > 0,
    ensures
        floor_log2(m as nat) <= 63,
{
    let k = floor_log2(m as nat);
    lemma_floor_log2_bounds(m as nat);
    lemma2_to64_rest();
    if k > 64 {
        lemma_pow2_strictly_increases(64, k);
    }
}

/// The position of the highest set bit of `m`.
fn highest_bit(m: u64) -> (k: u64)
    requires
        m > 0,
    ensures
        k == floor_log2(m as nat),
        k <= 63,
{
    let mut k: u64 = 0;
    let mut rest: u64 = m;
    proof {
        lemma_floor_log2_u64(m);
    }
    while rest > 1
        invariant
            rest >= 1,
            floor_log2(m as nat) == k + floor_log2(rest as nat),
            floor_log2(m as nat) <= 63,
        decreases rest,
    {
        rest = rest / 2;
        k += 1;
    }
    k
}

/// The number that stands for the index or length `n`.
pub fn from_index(n: usize) -> (r: u64)
    ensures
        r == from_nat(n as nat),
{
    if n == 0 {
        return 0;
    }
    let m: u64 = n as u64;
    let k: u64 = highest_bit(m);
    proof {
        lemma_floor_log2_bounds(m as nat);
        lemma2_to64_rest();
    }
    let significand: u64 = if k <= 52 {
        let scale: u64 = power_of_two(52 - k);
        proof {
            lemma_pow2_adds(k as nat, (52 - k) as nat);
            lemma_pow2_adds((k + 1) as nat, (52 - k) as nat);
            lemma_pow2_pos((52 - k) as nat);
            assert(pow2(k as nat) * scale <= m * scale) by (nonlinear_arith)
                requires
                    pow2(k as nat) <= m,
                    scale > 0,
            ;
            assert(m * scale < pow2((k + 1) as nat) * scale) by (nonlinear_arith)
                requires
                    m < pow2((k + 1) as nat),
                    scale > 0,
            ;
        }
        m * scale
    } else {
        let unit: u64 = power_of_two(k - 52);
        let half: u64 = power_of_two(k - 53);
        proof {
            lemma_pow2_adds(53, (k - 52) as nat);
            assert(m / unit >= pow2(52)) by (nonlinear_arith)
                requires
                    pow2(52) * unit <= m,
                    unit > 0,
            ;
            assert(m / unit < pow2(53)) by (nonlinear_arith)
                requires
                    m < pow2(53) * unit,
                    unit > 0,
            ;
        }
        let q: u64 = m / unit;
        let r: u64 = m % unit;
        if r > half || (r == half && q % 2 == 1) {
            q + 1
        } else {
            q
        }
    };
    (EXPONENT_BIAS + k) * HIDDEN_BIT + (significand - HIDDEN_BIT)
}

/// The index that the number `bits` stands for.
pub fn index_of(bits: u64) -> (r: usize)
    ensures
        r == to_index(bits),
{
    if is_nan(bits) || bits >= SIGN_BIT {
        return 0;
    }
    let e: u64 = bits / HIDDEN_BIT;
    let significand: u64 = HIDDEN_BIT + bits % HIDDEN_BIT;
    proof {
        lemma2_to64();
    }
    if e < EXPONENT_BIAS {
        0
    } else if e <= UNIT_EXPONENT {
        let unit: u64 = power_of_two(UNIT_EXPONENT - e);
        proof {
            lemma_pow2_pos((UNIT_EXPONENT - e) as nat);
        }
        let whole: u64 = significand / unit;
        if whole > usize::MAX as u64 {
            usize::MAX
        } else {
            whole as usize
        }
    } else if e - UNIT_EXPONENT <= 11 {
        let unit: u64 = power_of_two(e - UNIT_EXPONENT);
        proof {
            assert(significand * unit < 0x20_0000_0000_0000 * 0x800) by (nonlinear_arith)
                requires
                    significand < 0x20_0000_0000_0000,
                    0 < unit <= 0x800,
            ;
        }
        let whole: u64 = significand * unit;
        if whole > usize::MAX as u64 {
            usize::MAX
        } else {
            whole as usize
        }
    } else {
        proof {
            if bits != INFINITY {
                let unit = pow2((e - UNIT_EXPONENT) as nat);
                if e - UNIT_EXPONENT > 12 {
                    lemma_pow2_strictly_increases(12, (e - UNIT_EXPONENT) as nat);
                }
                assert(significand * unit >= 0x10_0000_0000_0000 * 0x1000) by (nonlinear_arith)
                    requires
                        significand >= 0x10_0000_0000_0000,
                        unit >= 0x1000,
                ;
            }
        }
        usize::MAX
    }
}

/// The fields of the number of an index below two to the 53rd: the
/// exponent says where the highest bit of the index stands, and the
/// significand is the index, moved up until that bit is the hidden bit.
proof fn lemma_exact_index_fields(n: nat)
    requires
        0 < n < 0x20_0000_0000_0000,
    ensures
        floor_log2(n) <= 52,
        from_nat(n) / HIDDEN_BIT == EXPONENT_BIAS + floor_log2(n),
        HIDDEN_BIT + from_nat(n) % HIDDEN_BIT == n * pow2((52 - floor_log2(n)) as nat),
        from_nat(n) < INFINITY,
{
    lemma2_to64_rest();
    let k = floor_log2(n);
    lemma_floor_log2_bounds(n);
    if k > 53 {
        lemma_pow2_strictly_increases(53, k);
    }
    let scale = pow2((52 - k) as nat);
    lemma_pow2_adds(k, (52 - k) as nat);
    lemma_pow2_adds(k + 1, (52 - k) as nat);
    lemma_pow2_pos((52 - k) as nat);
    assert(pow2(k) * scale <= n * scale) by (nonlinear_arith)
        requires
            pow2(k) <= n,
            scale > 0,
    ;
    assert(n * scale < pow2(k + 1) * scale) by (nonlinear_arith)
        requires
            n < pow2(k + 1),
            scale > 0,
    ;
    let significand = n * scale;
    let bits = from_nat(n);
    assert((EXPONENT_BIAS + k) * HIDDEN_BIT <= 1075 * HIDDEN_BIT) by (nonlinear_arith)
        requires
            k <= 52,
    ;
    assert(bits / HIDDEN_BIT == EXPONENT_BIAS + k && bits % HIDDEN_BIT == significand
        - HIDDEN_BIT) by (nonlinear_arith)
        requires
            bits == (EXPONENT_BIAS + k) * HIDDEN_BIT + (significand - HIDDEN_BIT),
            HIDDEN_BIT <= significand < 2 * HIDDEN_BIT,
            HIDDEN_BIT > 0,
    ;
}

/// An index below two to the 53rd survives the way through a number.
pub proof fn law_index_round_trip(n: nat)
    requires
        n < 0x20_0000_0000_0000,
        n <= usize::MAX,
    ensures
        to_index(from_nat(n)) == n,
{
    if n > 0 {
        lemma_exact_index_fields(n);
        let scale = pow2((52 - floor_log2(n)) as nat);
        lemma_pow2_pos((52 - floor_log2(n)) as nat);
        assert((n * scale) / scale == n) by (nonlinear_arith)
            requires
                scale > 0,
        ;
    }
}

/// Whether the number is finite: neither an infinity nor NaN.
pub open spec fn is_finite(bits: u64) -> bool {
    magnitude(bits) < INFINITY
}

/// The size of a finite number with the magnitude `m`, counted in units of
/// the smallest positive number, two to the power -1074. With a biased
/// exponent of zero the fraction counts as it is; otherwise the fraction
/// with the hidden bit before it is doubled once for each step of the
/// exponent above one.
pub open spec fn scaled_magnitude(m: u64) -> nat {
    let e = m / HIDDEN_BIT;
    let f = m % HIDDEN_BIT;
    if e == 0 {
        f as nat
    } else {
        (HIDDEN_BIT + f) as nat * pow2((e - 1) as nat)
    }
}

/// The value of a finite number, in units of two to the power -1074.
pub open spec fn scaled_value(bits: u64) -> int {
    if is_negative(bits) {
        -(scaled_magnitude(magnitude(bits)) as int)
    } else {
        scaled_magnitude(magnitude(bits)) as int
    }
}

/// A greater magnitude is a greater size.
proof fn lemma_scaled_magnitude_increases(m1: u64, m2: u64)
    requires
        m1 < m2,
    ensures
        scaled_magnitude(m1) < scaled_magnitude(m2),
{
    let e1 = m1 / HIDDEN_BIT;
    let f1 = m1 % HIDDEN_BIT;
    let e2 = m2 / HIDDEN_BIT;
    let f2 = m2 % HIDDEN_BIT;
    if e1 == e2 {
        if e1 > 0 {
            let p = pow2((e1 - 1) as nat);
            lemma_pow2_pos((e1 - 1) as nat);
            assert((HIDDEN_BIT + f1) * p < (HIDDEN_BIT + f2) * p) by (nonlinear_arith)
                requires
                    f1 < f2,
                    p > 0,
            ;
        }
    } else {
        let upper = pow2((e2 - 1) as nat);
        lemma_pow2_pos((e2 - 1) as nat);
        assert(HIDDEN_BIT * upper <= (HIDDEN_BIT + f2) * upper) by (nonlinear_arith)
            requires
                f2 >= 0,
                upper > 0,
        ;
        assert(HIDDEN_BIT * 1 <= HIDDEN_BIT * upper) by (nonlinear_arith)
            requires
                upper >= 1,
        ;
        if e1 > 0 {
            let lower = pow2((e1 - 1) as nat);
            lemma_pow2_pos((e1 - 1) as nat);
            lemma_pow2_unfold(e1 as nat);
            if e1 < e2 - 1 {
                lemma_pow2_strictly_increases(e1 as nat, (e2 - 1) as nat);
            }
            assert((HIDDEN_BIT + f1) * lower < HIDDEN_BIT * (2 * lower)) by (nonlinear_arith)
                requires
                    f1 < HIDDEN_BIT,
                    lower > 0,
            ;
            assert(HIDDEN_BIT * (2 * lower) <= HIDDEN_BIT * upper) by (nonlinear_arith)
                requires
                    2 * lower <= upper,
            ;
        }
    }
}

/// The order of the ranks is the order of the values: of two finite
/// numbers the one with the smaller rank is the smaller number, and two
/// finite numbers have one rank exactly when they have one value.
pub proof fn law_order_is_numeric(a: u64, b: u64)
    requires
        is_finite(a),
        is_finite(b),
    ensures
        spec_less(a, b) <==> scaled_value(a) < scaled_value(b),
        spec_same(a, b) <==> scaled_value(a) == scaled_value(b),
        spec_at_most(a, b) <==> scaled_value(a) <= scaled_value(b),
{
    let ma = magnitude(a);
    let mb = magnitude(b);
    if ma < mb {
        lemma_scaled_magnitude_increases(ma, mb);
    } else if mb < ma {
        lemma_scaled_magnitude_increases(mb, ma);
    }
    if 0 < ma {
        lemma_scaled_magnitude_increases(0, ma);
    }
    if 0 < mb {
        lemma_scaled_magnitude_increases(0, mb);
    }
}

/// Every finite number lies between the two infinities.
pub proof fn law_infinities_bound(a: u64)
    requires
        is_finite(a),
    ensures
        spec_less(a, INFINITY),
        spec_less((SIGN_BIT + INFINITY) as u64, a),
{
}

/// A number is zero exactly when its value is zero.
pub proof fn law_zero_is_numeric(a: u64)
    requires
        is_finite(a),
    ensures
        spec_is_zero(a) <==> scaled_value(a) == 0,
{
    if 0 < magnitude(a) {
        lemma_scaled_magnitude_increases(0, magnitude(a));
    }
}

/// Below two to the 53rd the number of an index is the index itself.
pub proof fn law_index_number_is_exact(n: nat)
    requires
        n < 0x20_0000_0000_0000,
    ensures
        is_finite(from_nat(n)),
        !is_negative(from_nat(n)),
        scaled_value(from_nat(n)) == n * pow2(1074),
{
    if n > 0 {
        lemma_exact_index_fields(n);
        let k = floor_log2(n);
        let scale = pow2((52 - k) as nat);
        let lift = pow2((1022 + k) as nat);
        lemma_pow2_adds((52 - k) as nat, (1022 + k) as nat);
        assert((n * scale) * lift == n * (scale * lift)) by (nonlinear_arith);
    } else {
        assert(0 * pow2(1074) == 0) by (nonlinear_arith);
    }
}

/// The integral part of a finite number that is not negative is its value
/// rounded down to a whole number.
pub proof fn law_integral_part_is_floor(bits: u64)
    requires
        is_finite(bits),
        !is_negative(bits),
    ensures
        integral_part(bits) == scaled_value(bits) / (pow2(1074) as int),
{
    lemma2_to64_rest();
    let e = bits / HIDDEN_BIT;
    let f = bits % HIDDEN_BIT;
    let unit = pow2(1074);
    lemma_pow2_strictly_increases(52, 1074);
    if e == 0 {
        lemma_basic_div(f as int, unit as int);
    } else {
        let significand = (HIDDEN_BIT + f) as nat;
        let lift = pow2((e - 1) as nat);
        lemma_pow2_pos((e - 1) as nat);
        if e < EXPONENT_BIAS {
            lemma_pow2_adds(53, (e - 1) as nat);
            if 52 + e < 1074 {
                lemma_pow2_strictly_increases((52 + e) as nat, 1074);
            }
            assert(significand * lift < 0x20_0000_0000_0000 * lift) by (nonlinear_arith)
                requires
                    significand < 0x20_0000_0000_0000,
                    lift > 0,
            ;
            lemma_basic_div((significand * lift) as int, unit as int);
        } else if e <= UNIT_EXPONENT {
            let rest = pow2((UNIT_EXPONENT - e) as nat);
            lemma_pow2_adds((e - 1) as nat, (UNIT_EXPONENT - e) as nat);
            lemma_div_denominator((significand * lift) as int, lift as int, rest as int);
            lemma_div_by_multiple(significand as int, lift as int);
        } else {
            let more = pow2((e - UNIT_EXPONENT) as nat);
            lemma_pow2_adds((e - UNIT_EXPONENT) as nat, 1074);
            assert(significand * (more * unit) == (significand * more) * unit)
                by (nonlinear_arith);
            lemma_div_by_multiple((significand * more) as int, unit as int);
        }
    }
}

} // verus!
