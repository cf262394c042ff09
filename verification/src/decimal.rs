//! A fixed-scale signed decimal value, mirrored as a plain mantissa/scale
//! pair so that contracts can speak about the exact rational it denotes.
//! The arithmetic itself is performed by the `rust_decimal` crate through
//! trusted wrappers; every wrapper converts a [`Dec`] to a
//! `rust_decimal::Decimal`, makes one call, and converts the result back.

use vstd::arithmetic::div_mod::{
    lemma_div_multiples_vanish, lemma_fundamental_div_mod, lemma_mod_multiples_basic,
};
use vstd::arithmetic::mul::{lemma_mul_is_commutative, lemma_mul_strict_inequality};
use vstd::prelude::*;

use rust_decimal::prelude::ToPrimitive;

verus! {

/// Largest mantissa magnitude the backing decimal type can hold: `2^96 - 1`.
pub const MAX_MANTISSA: i128 = 79228162514264337593543950335;

/// Largest scale (count of fractional digits) the backing decimal type allows.
pub const MAX_SCALE: u32 = 28;

/// Mathematical power of ten.
pub open spec fn pow10(e: nat) -> int
    decreases e,
{
    if e == 0 {
        1
    } else {
        10 * pow10((e - 1) as nat)
    }
}

/// Magnitude of an integer.
pub open spec fn iabs(x: int) -> int {
    if x < 0 {
        -x
    } else {
        x
    }
}

pub proof fn lemma_pow10_pos(e: nat)
    ensures
        pow10(e) >= 1,
    decreases e,
{
    if e > 0 {
        lemma_pow10_pos((e - 1) as nat);
    }
}

pub proof fn lemma_pow10_adds(a: nat, b: nat)
    ensures
        pow10(a + b) == pow10(a) * pow10(b),
    decreases a,
{
    if a == 0 {
    } else {
        lemma_pow10_adds((a - 1) as nat, b);
        assert(pow10(a + b) == 10 * pow10((a + b - 1) as nat));
        assert(10 * (pow10((a - 1) as nat) * pow10(b)) == (10 * pow10((a - 1) as nat)) * pow10(b))
            by (nonlinear_arith);
    }
}

pub proof fn lemma_pow10_increases(a: nat, b: nat)
    requires
        a <= b,
    ensures
        pow10(a) <= pow10(b),
    decreases b,
{
    if a < b {
        lemma_pow10_increases(a, (b - 1) as nat);
        lemma_pow10_pos((b - 1) as nat);
    }
}

pub proof fn lemma_pow10_28()
    ensures
        pow10(28) == 10000000000000000000000000000,
{
    reveal_with_fuel(pow10, 29);
}

/// A decimal value `m / 10^s`.
#[derive(Clone, Copy, PartialEq, Eq, Structural, Debug)]
pub struct Dec {
    pub m: i128,
    pub s: u32,
}

impl Dec {
    /// Well-formed: representable by the backing 96-bit decimal type.
    pub open spec fn wf(self) -> bool {
        &&& self.s <= MAX_SCALE
        &&& -MAX_MANTISSA <= self.m <= MAX_MANTISSA
    }

    /// The denoted value scaled to a common fixed exponent: `value * 10^28`.
    /// Two well-formed decimals denote the same rational exactly when their
    /// scaled values agree.
    pub open spec fn s28(self) -> int {
        (self.m as int) * pow10((MAX_SCALE - self.s) as nat)
    }

    /// Builds a decimal from its mantissa and scale.
    pub fn new(m: i128, s: u32) -> (r: Dec)
        requires
            -MAX_MANTISSA <= m <= MAX_MANTISSA,
            s <= MAX_SCALE,
        ensures
            r == (Dec { m, s }),
            r.wf(),
    {
        Dec { m, s }
    }

    /// Builds an integer-valued decimal.
    pub fn from_int(v: i64) -> (r: Dec)
        ensures
            r == (Dec { m: v as i128, s: 0u32 }),
            r.wf(),
            r.s28() == v * pow10(28),
    {
        proof {
            lemma_pow10_28();
        }
        Dec { m: v as i128, s: 0 }
    }

    pub fn mantissa(&self) -> (r: i128)
        ensures
            r == self.m,
    {
        self.m
    }

    pub fn scale(&self) -> (r: u32)
        ensures
            r == self.s,
    {
        self.s
    }
}

/// The value `d` holds once rescaled to the (larger) scale `s`.
pub open spec fn rescaled(d: Dec, s: u32) -> int {
    (d.m as int) * pow10((s - d.s) as nat)
}

/// Larger of the two scales.
pub open spec fn max_scale_of(a: Dec, b: Dec) -> u32 {
    if a.s >= b.s {
        a.s
    } else {
        b.s
    }
}

/// The exact difference `a - b` is representable at the common scale without
/// overflowing the backing type, so subtraction loses nothing.
pub open spec fn sub_exact_fit(a: Dec, b: Dec) -> bool {
    let s = max_scale_of(a, b);
    &&& iabs(rescaled(a, s)) <= MAX_MANTISSA
    &&& iabs(rescaled(b, s)) <= MAX_MANTISSA
    &&& iabs(rescaled(a, s) - rescaled(b, s)) <= MAX_MANTISSA
}

/// `qm / 10^qs` is a representation of the quotient `a / b` that fits the
/// backing type.
pub open spec fn quotient_rep(qm: int, qs: nat, a: Dec, b: Dec) -> bool {
    &&& qs <= 28
    &&& iabs(qm) <= MAX_MANTISSA
    &&& qm * b.s28() == a.s28() * pow10(qs)
}

/// The quotient `a / b` has some exact representation in the backing type.
pub open spec fn div_representable(a: Dec, b: Dec) -> bool {
    exists|qm: int, qs: nat| #[trigger] quotient_rep(qm, qs, a, b)
}

/// Name for the decimal that `rust_decimal`'s subtraction returns; only used
/// where the exact-fit case below does not pin the result.
pub uninterp spec fn sub_of(a: Dec, b: Dec) -> Dec;

/// Name for the decimal that `rust_decimal`'s multiplication returns.
pub uninterp spec fn mul_of(a: Dec, b: Dec) -> Dec;

/// Name for the decimal that `rust_decimal`'s division returns.
pub uninterp spec fn div_of(a: Dec, b: Dec) -> Dec;

/// Relies on `rust_decimal`'s `Sub for Decimal` (`ops/add.rs`,
/// `add_sub_internal`): when both operands rescale to the common scale within
/// 96 bits and the exact difference also fits, the result is the exact
/// difference at the common scale; a zero left operand returns the negated
/// right operand unchanged. A zero right operand returns the left operand
/// unchanged, which is the common-scale result only when its scale is not
/// below the right one's; the requires keeps that case out.
#[verifier::external_body]
pub(crate) fn dec_sub(a: &Dec, b: &Dec) -> (r: Dec)
    requires
        a.wf(),
        b.wf(),
        sub_exact_fit(*a, *b),
        b.m != 0 || b.s <= a.s,
    ensures
        r.wf(),
        r == sub_of(*a, *b),
        a.m == 0 ==> r == (Dec { m: (-(b.m as int)) as i128, s: b.s }),
        a.m != 0 ==> r == (Dec {
            m: (rescaled(*a, max_scale_of(*a, *b)) - rescaled(*b, max_scale_of(*a, *b))) as i128,
            s: max_scale_of(*a, *b),
        }),
{
    let x = rust_decimal::Decimal::from_i128_with_scale(a.m, a.s);
    let y = rust_decimal::Decimal::from_i128_with_scale(b.m, b.s);
    let z = x - y;
    Dec { m: z.mantissa(), s: z.scale() }
}

/// Relies on `rust_decimal`'s `Mul for Decimal` (`ops/mul.rs`): exact when the
/// product of the mantissas fits in 96 bits; otherwise the crate rounds the
/// product to the nearest representable value, which the error bound and the
/// floor/ceiling envelope describe. The right operand is restricted to a
/// positive integer, which is how this crate multiplies.
#[verifier::external_body]
pub(crate) fn dec_mul(a: &Dec, b: &Dec) -> (r: Dec)
    requires
        a.wf(),
        b.wf(),
        b.s == 0,
        b.m > 0,
        iabs(a.s28() * b.m) <= (MAX_MANTISSA - 1) * pow10(28),
    ensures
        r.wf(),
        r == mul_of(*a, *b),
        iabs(a.m * b.m) <= MAX_MANTISSA ==> r.s28() == a.s28() * b.m,
        iabs(r.s28() - a.s28() * b.m) <= iabs(a.s28() * b.m) / pow10(26) + 100,
        ((a.s28() * b.m) / pow10(28)) * pow10(28) <= r.s28(),
        r.s28() <= ((a.s28() * b.m + pow10(28) - 1) / pow10(28)) * pow10(28),
{
    let x = rust_decimal::Decimal::from_i128_with_scale(a.m, a.s);
    let y = rust_decimal::Decimal::from_i128_with_scale(b.m, b.s);
    let z = x * y;
    Dec { m: z.mantissa(), s: z.scale() }
}

/// Relies on `rust_decimal`'s `Div for Decimal` (`ops/div.rs`): the quotient
/// is computed exactly while it fits and is rounded (half to even) at the
/// last representable digit otherwise. Stated: exactness whenever some exact
/// representation fits, an error bound, and a floor/ceiling envelope. The
/// divisor is restricted to be positive, which is how this crate divides.
#[verifier::external_body]
pub(crate) fn dec_div(a: &Dec, b: &Dec) -> (r: Dec)
    requires
        a.wf(),
        b.wf(),
        b.m > 0,
        iabs(a.s28()) <= (MAX_MANTISSA - 1) * b.s28(),
    ensures
        r.wf(),
        r == div_of(*a, *b),
        div_representable(*a, *b) ==> r.s28() * b.s28() == a.s28() * pow10(28),
        iabs(r.s28() * b.s28() - a.s28() * pow10(28)) <= 100 * (iabs(a.s28()) + b.s28()),
        ((a.s28() / b.s28()) * pow10(28)) <= r.s28(),
        r.s28() <= (((a.s28() + b.s28() - 1) / b.s28()) * pow10(28)),
{
    let x = rust_decimal::Decimal::from_i128_with_scale(a.m, a.s);
    let y = rust_decimal::Decimal::from_i128_with_scale(b.m, b.s);
    let z = x / y;
    Dec { m: z.mantissa(), s: z.scale() }
}

/// Relies on `rust_decimal`'s `Decimal::floor`: returns the mathematical
/// floor as an integer-valued (scale 0) decimal.
#[verifier::external_body]
pub(crate) fn dec_floor(a: &Dec) -> (r: Dec)
    requires
        a.wf(),
    ensures
        r.wf(),
        r.s == 0,
        r.m == a.s28() / pow10(28),
{
    let x = rust_decimal::Decimal::from_i128_with_scale(a.m, a.s);
    let z = x.floor();
    Dec { m: z.mantissa(), s: z.scale() }
}

/// Relies on `rust_decimal`'s `PartialOrd for Decimal` (`ops/cmp.rs`), which
/// compares the denoted values exactly.
#[verifier::external_body]
pub(crate) fn dec_lt(a: &Dec, b: &Dec) -> (r: bool)
    requires
        a.wf(),
        b.wf(),
    ensures
        r == (a.s28() < b.s28()),
{
    let x = rust_decimal::Decimal::from_i128_with_scale(a.m, a.s);
    let y = rust_decimal::Decimal::from_i128_with_scale(b.m, b.s);
    x < y
}

/// Relies on `rust_decimal`'s `ToPrimitive::to_u64` for `Decimal`: `None` for
/// negative values, otherwise the value truncated toward zero if it fits.
#[verifier::external_body]
pub(crate) fn dec_to_u64(a: &Dec) -> (r: Option<u64>)
    requires
        a.wf(),
    ensures
        a.m < 0 ==> r is None,
        a.m >= 0 ==> r == (if a.s28() / pow10(28) <= u64::MAX {
            Some((a.s28() / pow10(28)) as u64)
        } else {
            Option::<u64>::None
        }),
{
    let x = rust_decimal::Decimal::from_i128_with_scale(a.m, a.s);
    x.to_u64()
}

/// Relies on `rust_decimal`'s `ToPrimitive::to_u32` for `Decimal`: `None` for
/// negative values, otherwise the value truncated toward zero if it fits.
#[verifier::external_body]
pub(crate) fn dec_to_u32(a: &Dec) -> (r: Option<u32>)
    requires
        a.wf(),
    ensures
        a.m < 0 ==> r is None,
        a.m >= 0 ==> r == (if a.s28() / pow10(28) <= u32::MAX {
            Some((a.s28() / pow10(28)) as u32)
        } else {
            Option::<u32>::None
        }),
{
    let x = rust_decimal::Decimal::from_i128_with_scale(a.m, a.s);
    x.to_u32()
}

/// Truncation toward zero of `x / d` for a positive divisor.
pub open spec fn trunc_div(x: int, d: int) -> int {
    if x >= 0 {
        x / d
    } else {
        -((-x) / d)
    }
}

/// Relies on `rust_decimal`'s `ToPrimitive::to_i32` for `Decimal`: the value
/// truncated toward zero if it fits the `i32` range, else `None`.
#[verifier::external_body]
pub(crate) fn dec_to_i32(a: &Dec) -> (r: Option<i32>)
    requires
        a.wf(),
    ensures
        r == (if i32::MIN <= trunc_div(a.s28(), pow10(28)) <= i32::MAX {
            Some(trunc_div(a.s28(), pow10(28)) as i32)
        } else {
            Option::<i32>::None
        }),
{
    let x = rust_decimal::Decimal::from_i128_with_scale(a.m, a.s);
    x.to_i32()
}

/// Decimal rounding strategies, mirroring the ones `rust_decimal` offers.
#[derive(Clone, Copy, Debug, PartialEq, Eq, Structural)]
pub enum RoundingStrategy {
    /// Round to the nearest value; ties go to the even neighbour.
    MidpointNearestEven,
    /// Round to the nearest value; ties go away from zero.
    MidpointAwayFromZero,
    /// Round to the nearest value; ties go toward zero.
    MidpointTowardZero,
    /// Always truncate toward zero.
    ToZero,
    /// Always round away from zero.
    AwayFromZero,
    /// Always round toward negative infinity.
    ToNegativeInfinity,
    /// Always round toward positive infinity.
    ToPositiveInfinity,
}

/// Rounded magnitude: `q` whole units with a remainder of `f` out of `2*h`,
/// rounded per strategy (`neg` tells the sign of the value being rounded).
pub open spec fn round_mag(strat: RoundingStrategy, neg: bool, q: int, f: int, h: int) -> int {
    match strat {
        RoundingStrategy::MidpointNearestEven => if f > h || (f == h && q % 2 == 1) {
            q + 1
        } else {
            q
        },
        RoundingStrategy::MidpointAwayFromZero => if f >= h {
            q + 1
        } else {
            q
        },
        RoundingStrategy::MidpointTowardZero => if f > h {
            q + 1
        } else {
            q
        },
        RoundingStrategy::ToZero => q,
        RoundingStrategy::AwayFromZero => if f > 0 {
            q + 1
        } else {
            q
        },
        RoundingStrategy::ToPositiveInfinity => if !neg && f > 0 {
            q + 1
        } else {
            q
        },
        RoundingStrategy::ToNegativeInfinity => if neg && f > 0 {
            q + 1
        } else {
            q
        },
    }
}

/// The scaled value (`value * 10^28`) that rounding `a` (a scaled value) to
/// `dp` fractional digits produces under the given strategy.
pub open spec fn round_s28(a: int, dp: nat, strat: RoundingStrategy) -> int {
    if dp >= 28 {
        a
    } else {
        let e: int = pow10((28 - dp) as nat);
        let mag: int = iabs(a);
        let m: int = round_mag(strat, a < 0, mag / e, mag % e, e / 2);
        if a < 0 {
            -(m * e)
        } else {
            m * e
        }
    }
}

/// Relies on `rust_decimal`'s `Decimal::round_dp_with_strategy`: returns the
/// value rounded to `dp` fractional digits per the strategy, with a scale of
/// at most `dp`.
#[verifier::external_body]
pub(crate) fn dec_round(a: &Dec, dp: u32, strat: RoundingStrategy) -> (r: Dec)
    requires
        a.wf(),
        dp <= MAX_SCALE,
    ensures
        r.wf(),
        r.s <= dp,
        r.s28() == round_s28(a.s28(), dp as nat, strat),
{
    let x = rust_decimal::Decimal::from_i128_with_scale(a.m, a.s);
    let rs = match strat {
        RoundingStrategy::MidpointNearestEven => rust_decimal::RoundingStrategy::MidpointNearestEven,
        RoundingStrategy::MidpointAwayFromZero => rust_decimal::RoundingStrategy::MidpointAwayFromZero,
        RoundingStrategy::MidpointTowardZero => rust_decimal::RoundingStrategy::MidpointTowardZero,
        RoundingStrategy::ToZero => rust_decimal::RoundingStrategy::ToZero,
        RoundingStrategy::AwayFromZero => rust_decimal::RoundingStrategy::AwayFromZero,
        RoundingStrategy::ToNegativeInfinity => rust_decimal::RoundingStrategy::ToNegativeInfinity,
        RoundingStrategy::ToPositiveInfinity => rust_decimal::RoundingStrategy::ToPositiveInfinity,
    };
    let z = x.round_dp_with_strategy(dp, rs);
    Dec { m: z.mantissa(), s: z.scale() }
}

/// Rounding a scaled value that is already an integer returns it unchanged,
/// under every strategy.
pub proof fn lemma_round_multiple(p: int, strat: RoundingStrategy)
    requires
        p % pow10(28) == 0,
    ensures
        round_s28(p, 0, strat) == p,
{
    let e: int = pow10(28);
    lemma_pow10_pos(28);
    lemma_fundamental_div_mod(p, e);
    let q: int = p / e;
    let mag: int = iabs(p);
    if p < 0 {
        assert(mag == (-q) * e) by (nonlinear_arith)
            requires
                p == e * q + 0,
                mag == -p,
        ;
        lemma_mul_is_commutative(-q, e);
        lemma_mod_multiples_basic(-q, e);
        lemma_div_multiples_vanish(-q, e);
    } else {
        assert(mag == q * e) by (nonlinear_arith)
            requires
                p == e * q + 0,
                mag == p,
        ;
        lemma_mul_is_commutative(q, e);
        lemma_mod_multiples_basic(q, e);
        lemma_div_multiples_vanish(q, e);
    }
    assert(mag % e == 0 && (mag / e) * e == mag) by {
        lemma_fundamental_div_mod(mag, e);
    };
}

/// Rounding keeps a non-negative scaled value non-negative, under every
/// strategy.
pub proof fn lemma_round_nonneg(p: int, dp: nat, strat: RoundingStrategy)
    requires
        p >= 0,
    ensures
        round_s28(p, dp, strat) >= 0,
{
    if dp < 28 {
        let e: int = pow10((28 - dp) as nat);
        lemma_pow10_pos((28 - dp) as nat);
        lemma_fundamental_div_mod(p, e);
        vstd::arithmetic::div_mod::lemma_mod_bound(p, e);
        assert(p / e >= 0) by (nonlinear_arith)
            requires
                p == e * (p / e) + p % e,
                0 <= p % e < e,
                p >= 0,
                e >= 1,
        ;
        let m: int = round_mag(strat, p < 0, p / e, p % e, e / 2);
        assert(m >= 0);
        assert(m * e >= 0) by (nonlinear_arith)
            requires
                m >= 0,
                e >= 1,
        ;
    }
}

/// Power of ten as an `i128`.
pub fn pow10_i128(e: u32) -> (r: i128)
    requires
        e <= MAX_SCALE,
    ensures
        r == pow10(e as nat),
        r >= 1,
{
    proof {
        lemma_pow10_28();
        lemma_pow10_pos(e as nat);
        lemma_pow10_increases(e as nat, 28);
    }
    let mut r: i128 = 1;
    let mut i: u32 = 0;
    while i < e
        invariant
            i <= e,
            e <= MAX_SCALE,
            r == pow10(i as nat),
            pow10(e as nat) <= pow10(28),
            pow10(28) == 10000000000000000000000000000,
        decreases e - i,
    {
        proof {
            lemma_pow10_pos(i as nat);
            lemma_pow10_increases((i + 1) as nat, e as nat);
        }
        r = r * 10;
        i = i + 1;
    }
    r
}

/// Compares a well-formed decimal against a small non-negative integer.
pub fn cmp_int(a: &Dec, n: i64) -> (r: i8)
    requires
        a.wf(),
        0 <= n <= 1000000,
    ensures
        r == -1i8 <==> a.s28() < n * pow10(28),
        r == 0i8 <==> a.s28() == n * pow10(28),
        r == 1i8 <==> a.s28() > n * pow10(28),
{
    let p = pow10_i128(a.s);
    proof {
        lemma_pow10_pos(a.s as nat);
        lemma_pow10_increases(a.s as nat, 28);
        lemma_pow10_pos((MAX_SCALE - a.s) as nat);
        lemma_pow10_adds(a.s as nat, (MAX_SCALE - a.s) as nat);
        lemma_pow10_28();
        assert((n as int) * (p as int) <= 1000000 * pow10(28) && (n as int) * (p as int) >= 0)
            by (nonlinear_arith)
            requires
                0 <= n <= 1000000,
                1 <= p <= pow10(28),
                pow10(28) == 10000000000000000000000000000,
        ;
    }
    let rhs: i128 = (n as i128) * p;
    proof {
        // a.m <=> n * 10^s  corresponds to  a.m * 10^(28-s) <=> n * 10^28.
        let q: int = pow10((MAX_SCALE - a.s) as nat);
        assert((n * pow10(a.s as nat)) * q == n * (pow10(a.s as nat) * q)) by (nonlinear_arith);
        if a.m < rhs {
            lemma_mul_strict_inequality(a.m as int, n * pow10(a.s as nat), q);
        } else if a.m > rhs {
            lemma_mul_strict_inequality(n * pow10(a.s as nat), a.m as int, q);
        }
    }
    if a.m < rhs {
        -1
    } else if a.m == rhs {
        0
    } else {
        1
    }
}

/// Smaller of two decimals, preferring the first on ties (as
/// `rust_decimal`'s `Decimal::min` does).
pub fn dec_min(a: &Dec, b: &Dec) -> (r: Dec)
    requires
        a.wf(),
        b.wf(),
    ensures
        r == (if b.s28() < a.s28() {
            *b
        } else {
            *a
        }),
        r.wf(),
{
    if dec_lt(b, a) {
        *b
    } else {
        *a
    }
}

} // verus!
