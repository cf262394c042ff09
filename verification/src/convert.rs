//! The odds-conversion engine: the six pairwise conversions between
//! American, Decimal and Fractional odds, odds normalization, and the
//! continued-fraction rational approximation, each consulting the lookup
//! tables first (per configuration) and falling back to computation.

use vstd::arithmetic::div_mod::{
    lemma_div_multiples_vanish, lemma_fundamental_div_mod, lemma_fundamental_div_mod_converse,
    lemma_mod_multiples_basic,
};
use vstd::arithmetic::mul::lemma_mul_is_commutative;
use vstd::prelude::*;

use crate::config::{ConversionConfig, FractionStrategy, LookupVariant};
use crate::decimal::{
    cmp_int, dec_div, dec_floor, dec_lt, dec_min, dec_mul, dec_round, dec_sub, dec_to_i32,
    dec_to_u32, dec_to_u64, div_of, div_representable, iabs, lemma_pow10_28, lemma_pow10_adds,
    lemma_pow10_increases, lemma_pow10_pos, max_scale_of, mul_of, pow10, quotient_rep, rescaled,
    round_s28, sub_exact_fit, trunc_div, Dec, RoundingStrategy, MAX_MANTISSA, MAX_SCALE,
};
use crate::lookup_tables::{
    american_to_decimal_basic, american_to_fraction_basic, dec_key_of, dec_table_key,
    decimal_to_fraction_basic, decimal_to_fraction_extended, get_american_to_decimal_extended_map,
    get_american_to_decimal_map, get_american_to_fraction_extended_map,
    get_american_to_fraction_map, get_decimal_to_fraction_extended_map,
    get_decimal_to_fraction_map, lemma_a2d_values, lemma_decimal_table_keys_above_one,
};

verus! {

#[derive(Debug, PartialEq, Eq, Structural)]
pub enum ConversionError {
    /// American odds value cannot be zero.
    AmericanZero,
    /// Denominator in fractional odds cannot be zero.
    DenominatorZero,
    /// Ran into overflow while computing an american value from a decimal.
    DecimalOverflow,
    /// Decimal odds cannot be less than or equal to 1.0.
    InvalidDecimal,
}

/// What odds normalization returns: small-magnitude american values are
/// remapped into the opposite sign with the complementary magnitude.
pub open spec fn normalize_spec(odds: int) -> int {
    if 0 < odds < 100 {
        -(10000int / odds)
    } else if -100 < odds < 0 {
        10000int / (-odds)
    } else {
        odds
    }
}

/// Normalize american odds: values 1 to 99 become negative values, -1 to -99
/// become positive values, everything else is unchanged.
pub fn normalize_american_odds(odds: i32) -> (r: i32)
    ensures
        r == normalize_spec(odds as int),
{
    if odds > 0 && odds < 100 {
        -((100 * 100) / odds)
    } else if odds < 0 && odds > -100 {
        (100 * 100) / (-odds)
    } else {
        odds
    }
}

/// Euclid's greatest common divisor.
pub open spec fn gcd_nat(a: nat, b: nat) -> nat
    decreases b,
{
    if b == 0 {
        a
    } else {
        gcd_nat(b, a % b)
    }
}

proof fn lemma_gcd_divides(a: nat, b: nat)
    ensures
        a > 0 || b > 0 ==> gcd_nat(a, b) >= 1,
        gcd_nat(a, b) >= 1 ==> a % gcd_nat(a, b) == 0 && b % gcd_nat(a, b) == 0,
    decreases b,
{
    let g = gcd_nat(a, b);
    if b == 0 {
        if a > 0 {
            assert(a % a == 0 && 0nat % a == 0) by (nonlinear_arith)
                requires
                    a > 0,
            ;
        }
    } else {
        lemma_gcd_divides(b, a % b);
        if g >= 1 {
            // g divides b and a % b; a == b * (a / b) + a % b, so g divides a.
            assert(b % g == 0 && (a % b) % g == 0);
            lemma_fundamental_div_mod(a as int, b as int);
            lemma_fundamental_div_mod(b as int, g as int);
            lemma_fundamental_div_mod((a % b) as int, g as int);
            let q: int = a as int / b as int;
            let qb: int = b as int / g as int;
            let qr: int = (a % b) as int / g as int;
            assert(a as int == (q * qb + qr) * (g as int)) by (nonlinear_arith)
                requires
                    a as int == (b as int) * q + ((a % b) as int),
                    b as int == (g as int) * qb,
                    (a % b) as int == (g as int) * qr,
            ;
            lemma_mod_multiples_basic(q * qb + qr, g as int);
        }
    }
}

/// Relies on `num_integer::gcd` for `u64`: returns the greatest common
/// divisor of the two arguments.
#[verifier::external_body]
fn gcd_u64(a: u64, b: u64) -> (r: u64)
    ensures
        r as nat == gcd_nat(a as nat, b as nat),
{
    num_integer::gcd(a, b)
}

/// The decimal one less than `v`, at `v`'s own scale (what subtracting one
/// from a positive decimal yields).
pub open spec fn dec_minus_one(v: Dec) -> Dec {
    Dec { m: (v.m - pow10(v.s as nat)) as i128, s: v.s }
}

/// A well-formed decimal above one has a mantissa above `10^scale`.
pub proof fn lemma_gt_one_mantissa(v: Dec)
    requires
        v.wf(),
        v.s28() > pow10(28),
    ensures
        v.m > pow10(v.s as nat),
{
    lemma_pow10_adds(v.s as nat, (28 - v.s as int) as nat);
    lemma_pow10_pos((28 - v.s as int) as nat);
    lemma_pow10_pos(v.s as nat);
    assert(v.m > pow10(v.s as nat)) by (nonlinear_arith)
        requires
            (v.m as int) * pow10((28 - v.s as int) as nat) > pow10(v.s as nat) * pow10(
                (28 - v.s as int) as nat,
            ),
            pow10((28 - v.s as int) as nat) >= 1,
    ;
}

/// A well-formed decimal with positive scaled value has a positive mantissa.
proof fn lemma_pos_mantissa(v: Dec)
    requires
        v.s28() > 0,
    ensures
        v.m > 0,
{
    lemma_pow10_pos((28 - v.s as int) as nat);
    assert(v.m > 0) by (nonlinear_arith)
        requires
            (v.m as int) * pow10((28 - v.s as int) as nat) > 0,
            pow10((28 - v.s as int) as nat) >= 1,
    ;
}

/// A decimal with non-negative scaled value has a non-negative mantissa.
proof fn lemma_pos_mantissa_nonneg(v: Dec)
    requires
        v.s28() >= 0,
    ensures
        v.m >= 0,
{
    lemma_pow10_pos((28 - v.s as int) as nat);
    assert(v.m >= 0) by (nonlinear_arith)
        requires
            (v.m as int) * pow10((28 - v.s as int) as nat) >= 0,
            pow10((28 - v.s as int) as nat) >= 1,
    ;
}

/// An integer-valued decimal divides back to its mantissa.
pub proof fn lemma_scaled_div(m: int)
    ensures
        (m * pow10(28)) / pow10(28) == m,
{
    lemma_pow10_pos(28);
    lemma_mul_is_commutative(m, pow10(28));
    lemma_div_multiples_vanish(m, pow10(28));
}

pub proof fn lemma_mul_cancel(x: int, y: int, c: int)
    requires
        c > 0,
        x * c == y * c,
    ensures
        x == y,
{
    assert(x == y) by (nonlinear_arith)
        requires
            c > 0,
            x * c == y * c,
    ;
}

/// What the basic/extended american-to-decimal lookup yields.
pub open spec fn a2d_lookup(v: i32, cfg: ConversionConfig) -> Option<Dec> {
    match cfg.lookup_tables_variant {
        LookupVariant::Disabled => None,
        LookupVariant::Basic => if american_to_decimal_basic().contains_key(v) {
            Some(american_to_decimal_basic()[v])
        } else {
            None
        },
        LookupVariant::Extended => if american_to_decimal_basic().contains_key(v) {
            Some(american_to_decimal_basic()[v])
        } else {
            None
        },
    }
}

/// The formula path of american-to-decimal: `a/100 + 1` for underdogs and
/// `100/(-a) + 1` for favorites, evaluated as a single decimal division.
pub open spec fn american_to_decimal_formula(v: i32) -> Result<Dec, ConversionError> {
    if v == 0 {
        Err(ConversionError::AmericanZero)
    } else if v > 0 {
        Ok(div_of(Dec { m: (v + 100) as i128, s: 0u32 }, Dec { m: 100, s: 0u32 }))
    } else {
        Ok(
            div_of(
                Dec { m: (100 - v as int) as i128, s: 0u32 },
                Dec { m: (-(v as int)) as i128, s: 0u32 },
            ),
        )
    }
}

/// Full behavior of american-to-decimal under a configuration.
pub open spec fn american_to_decimal_custom_spec(v: i32, cfg: ConversionConfig) -> Result<
    Dec,
    ConversionError,
> {
    if v == 0 {
        Err(ConversionError::AmericanZero)
    } else {
        match a2d_lookup(v, cfg) {
            Some(d) => Ok(d),
            None => american_to_decimal_formula(v),
        }
    }
}

/// Computes `a/100 + 1` (underdogs) or `100/(-a) + 1` (favorites) as a
/// single decimal division, bypassing the lookup tables.
fn american_to_decimal_inner(value: i32) -> (r: Result<Dec, ConversionError>)
    ensures
        r == american_to_decimal_formula(value),
        r is Err <==> value == 0,
        r is Ok ==> r->Ok_0.wf() && r->Ok_0.s28() > pow10(28),
        value > 0 ==> r is Ok && r->Ok_0.s28() * 100 == (value + 100) * pow10(28),
{
    proof {
        lemma_pow10_28();
    }
    if value > 0 {
        let num = Dec::from_int(value as i64 + 100);
        let den = Dec::from_int(100);
        proof {
            assert(iabs(num.s28()) <= (MAX_MANTISSA - 1) * den.s28()) by (nonlinear_arith)
                requires
                    num.s28() == (value + 100) * pow10(28),
                    den.s28() == 100 * pow10(28),
                    0 < value <= 0x7fffffff,
                    pow10(28) == 10000000000000000000000000000,
                    MAX_MANTISSA == 79228162514264337593543950335,
            ;
        }
        let d = dec_div(&num, &den);
        proof {
            assert(quotient_rep((value + 100) as int, 2nat, num, den)) by {
                reveal_with_fuel(pow10, 3);
                assert(((value + 100) as int) * den.s28() == num.s28() * pow10(2))
                    by (nonlinear_arith)
                    requires
                        num.s28() == (value + 100) * pow10(28),
                        den.s28() == 100 * pow10(28),
                        pow10(2) == 100,
                ;
            };
            assert(div_representable(num, den));
            // d * 100e28 == (value+100)e28 * e28, so d * 100 == (value+100) * e28.
            assert(d.s28() * 100 * pow10(28) == ((value + 100) * pow10(28)) * pow10(28))
                by (nonlinear_arith)
                requires
                    d.s28() * den.s28() == num.s28() * pow10(28),
                    den.s28() == 100 * pow10(28),
                    num.s28() == (value + 100) * pow10(28),
            ;
            lemma_pow10_pos(28);
            lemma_mul_cancel(d.s28() * 100, (value + 100) * pow10(28), pow10(28));
            assert(d.s28() > pow10(28)) by (nonlinear_arith)
                requires
                    d.s28() * 100 == (value + 100) * pow10(28),
                    value >= 1,
                    pow10(28) >= 1,
            ;
        }
        Ok(d)
    } else if value < 0 {
        let num = Dec::from_int(100 - value as i64);
        let den = Dec::from_int(-(value as i64));
        proof {
            assert(iabs(num.s28()) <= (MAX_MANTISSA - 1) * den.s28()) by (nonlinear_arith)
                requires
                    num.s28() == (100 - value as int) * pow10(28),
                    den.s28() == (-(value as int)) * pow10(28),
                    -0x80000000 <= value < 0,
                    pow10(28) == 10000000000000000000000000000,
                    MAX_MANTISSA == 79228162514264337593543950335,
            ;
        }
        let d = dec_div(&num, &den);
        proof {
            let e: int = pow10(28);
            let nv: int = -(value as int);
            // The error bound keeps the result strictly above one.
            assert(iabs(d.s28() * den.s28() - num.s28() * e) <= 100 * (iabs(num.s28())
                + den.s28()));
            assert(d.s28() > e) by (nonlinear_arith)
                requires
                    iabs(d.s28() * (nv * e) - ((100 + nv) * e) * e) <= 100 * ((100 + nv) * e + nv
                        * e),
                    num.s28() == (100 + nv) * e,
                    den.s28() == nv * e,
                    1 <= nv <= 0x80000000,
                    e == 10000000000000000000000000000,
            ;
        }
        Ok(d)
    } else {
        Err(ConversionError::AmericanZero)
    }
}

/// Convert from american to decimal using custom parameters.
pub fn american_to_decimal_custom(value: i32, config: &ConversionConfig) -> (r: Result<
    Dec,
    ConversionError,
>)
    ensures
        r == american_to_decimal_custom_spec(value, *config),
        r is Err <==> value == 0,
        value == 0 ==> r == Err::<Dec, ConversionError>(ConversionError::AmericanZero),
        r is Ok ==> r->Ok_0.wf() && r->Ok_0.s28() > pow10(28),
        config.lookup_tables_variant is Disabled && value > 0 ==> r is Ok && r->Ok_0.s28() * 100
            == (value + 100) * pow10(28),
        !(config.lookup_tables_variant is Disabled) && value != 0
            && american_to_decimal_basic().contains_key(value) ==> r == Ok::<Dec, ConversionError>(
            american_to_decimal_basic()[value],
        ),
{
    if value == 0 {
        return Err(ConversionError::AmericanZero);
    }
    match config.lookup_tables_variant {
        LookupVariant::Basic => {
            let m = get_american_to_decimal_map();
            if let Some(d) = m.get(&value) {
                proof {
                    lemma_a2d_values(value);
                }
                return Ok(*d);
            }
        },
        LookupVariant::Extended => {
            let m = get_american_to_decimal_map();
            if let Some(d) = m.get(&value) {
                proof {
                    lemma_a2d_values(value);
                }
                return Ok(*d);
            }
            let mx = get_american_to_decimal_extended_map();
            if let Some(d) = mx.get(&value) {
                return Ok(*d);
            }
        },
        LookupVariant::Disabled => {},
    }
    american_to_decimal_inner(value)
}

/// Convert from american to decimal using default parameters.
pub fn american_to_decimal(value: i32) -> (r: Result<Dec, ConversionError>)
    ensures
        r == american_to_decimal_custom_spec(value, ConversionConfig::standard()),
        r is Err <==> value == 0,
        r is Ok ==> r->Ok_0.wf() && r->Ok_0.s28() > pow10(28),
{
    american_to_decimal_custom(value, &ConversionConfig::default())
}

/// Full behavior of fractional-to-decimal: `n/d + 1`, evaluated as the
/// single decimal division `(n+d)/d`.
pub open spec fn fractional_to_decimal_spec(num: u32, den: u32) -> Result<Dec, ConversionError> {
    if den == 0 {
        Err(ConversionError::DenominatorZero)
    } else {
        Ok(
            div_of(
                Dec { m: (num + den) as i128, s: 0u32 },
                Dec { m: den as i128, s: 0u32 },
            ),
        )
    }
}

/// Convert from fractional to decimal (does not use conversion parameters).
pub fn fractional_to_decimal(num: u32, den: u32) -> (r: Result<Dec, ConversionError>)
    ensures
        r == fractional_to_decimal_spec(num, den),
        r is Err <==> den == 0,
        r is Ok ==> r->Ok_0.wf() && r->Ok_0.s28() >= pow10(28),
        r is Ok && num > 0 ==> r->Ok_0.s28() > pow10(28),
        r is Ok && num == 0 ==> r->Ok_0.s28() == pow10(28),
        r is Ok ==> r->Ok_0.s28() <= ((num + den) as int + 1) * pow10(28),
        r is Ok && num > 0 ==> r->Ok_0.s28() - pow10(28) >= 13,
{
    if den == 0 {
        return Err(ConversionError::DenominatorZero);
    }
    proof {
        lemma_pow10_28();
    }
    let n = Dec::from_int(num as i64 + den as i64);
    let d = Dec::from_int(den as i64);
    proof {
        assert(iabs(n.s28()) <= (MAX_MANTISSA - 1) * d.s28()) by (nonlinear_arith)
            requires
                n.s28() == (num + den) * pow10(28),
                d.s28() == den * pow10(28),
                0 < den <= 0xffffffffu64,
                num <= 0xffffffffu64,
                pow10(28) == 10000000000000000000000000000,
                MAX_MANTISSA == 79228162514264337593543950335,
        ;
    }
    let q = dec_div(&n, &d);
    proof {
        let e: int = pow10(28);
        if num == 0 {
            assert(quotient_rep(1int, 0nat, n, d)) by {
                reveal_with_fuel(pow10, 1);
                assert(1int * d.s28() == n.s28() * 1) by (nonlinear_arith)
                    requires
                        n.s28() == (num + den) * pow10(28),
                        d.s28() == den * pow10(28),
                        num == 0,
                ;
            };
            assert(div_representable(n, d));
            assert(q.s28() * d.s28() == n.s28() * e);
            assert(q.s28() == e) by (nonlinear_arith)
                requires
                    q.s28() * (den * e) == (den * e) * e,
                    q.s28() * d.s28() == n.s28() * e,
                    d.s28() == den * e,
                    n.s28() == den * e,
                    den >= 1,
                    e >= 1,
            ;
        } else {
            assert(q.s28() > e && q.s28() - e >= 13) by (nonlinear_arith)
                requires
                    iabs(q.s28() * ((den as int) * e) - (((num + den) as int) * e) * e) <= 100 * (
                    ((num + den) as int) * e + (den as int) * e),
                    q.s28() * d.s28() == q.s28() * ((den as int) * e) || d.s28() == (den as int)
                        * e,
                    iabs(q.s28() * d.s28() - n.s28() * e) <= 100 * (iabs(n.s28()) + d.s28()),
                    n.s28() == ((num + den) as int) * e,
                    d.s28() == (den as int) * e,
                    1 <= num <= 0xffffffffu64,
                    1 <= den <= 0xffffffffu64,
                    e == 10000000000000000000000000000,
            ;
        }
        // The upper envelope: the payout is at most num + den + 1.
        let a: int = (num + den) as int;
        let b: int = den as int;
        lemma_fundamental_div_mod(a * e + b * e - 1, b * e);
        let qc: int = (a * e + b * e - 1) / (b * e);
        assert(b * e >= 1) by (nonlinear_arith)
            requires
                b >= 1,
                e >= 1,
        ;
        vstd::arithmetic::div_mod::lemma_mod_bound(a * e + b * e - 1, b * e);
        assert(qc <= a + 1) by (nonlinear_arith)
            requires
                a * e + b * e - 1 == (b * e) * qc + ((a * e + b * e - 1) % (b * e)),
                0 <= (a * e + b * e - 1) % (b * e) < b * e,
                1 <= b,
                1 <= a,
                e >= 1,
        ;
        assert(q.s28() <= (((a * e) + (b * e) - 1) / (b * e)) * pow10(28)) by {
            assert(q.s28() <= ((n.s28() + d.s28() - 1) / d.s28()) * pow10(28));
            assert(n.s28() + d.s28() - 1 == a * e + b * e - 1);
        };
        assert(q.s28() <= (a + 1) * e) by (nonlinear_arith)
            requires
                q.s28() <= qc * e,
                qc <= a + 1,
                e >= 1,
        ;
    }
    Ok(q)
}


/// Facts about subtracting one from a decimal above one.
pub proof fn lemma_minus_one_facts(v: Dec)
    requires
        v.wf(),
        v.s28() > pow10(28),
    ensures
        sub_exact_fit(v, Dec { m: 1, s: 0u32 }),
        v.m != 0,
        dec_minus_one(v).wf(),
        dec_minus_one(v).s28() == v.s28() - pow10(28),
        dec_minus_one(v).s28() > 0,
        rescaled(v, v.s) == v.m,
        rescaled(Dec { m: 1, s: 0u32 }, v.s) == pow10(v.s as nat),
        dec_minus_one(v) == (Dec {
            m: (rescaled(v, max_scale_of(v, Dec { m: 1, s: 0u32 })) - rescaled(
                Dec { m: 1, s: 0u32 },
                max_scale_of(v, Dec { m: 1, s: 0u32 }),
            )) as i128,
            s: max_scale_of(v, Dec { m: 1, s: 0u32 }),
        }),
{
    lemma_pow10_28();
    lemma_gt_one_mantissa(v);
    lemma_pos_mantissa(v);
    lemma_pow10_pos(v.s as nat);
    lemma_pow10_increases(v.s as nat, 28);
    lemma_pow10_adds(v.s as nat, (28 - v.s as int) as nat);
    let one = Dec { m: 1, s: 0u32 };
    assert(rescaled(v, v.s) == v.m) by {
        assert(pow10((v.s - v.s) as nat) == 1);
    };
    assert(rescaled(one, v.s) == pow10(v.s as nat));
    assert(dec_minus_one(v).s28() == v.s28() - pow10(28)) by (nonlinear_arith)
        requires
            dec_minus_one(v).s28() == (v.m - pow10(v.s as nat)) * pow10((28 - v.s as int) as nat),
            v.s28() == (v.m as int) * pow10((28 - v.s as int) as nat),
            pow10(v.s as nat) * pow10((28 - v.s as int) as nat) == pow10(28),
    ;
}

/// The underdog branch loses nothing to rounding: `(v-1)*100` is an exact
/// integer and its product mantissa fits the backing type.
pub open spec fn d2a_exact_pos(v: Dec) -> bool {
    &&& (v.s28() - pow10(28)) * 100 % pow10(28) == 0
    &&& iabs((v.m - pow10(v.s as nat)) * 100) <= MAX_MANTISSA
}

/// The favorite branch loses nothing to rounding: `100/(v-1)` is an exact
/// integer representable by the backing type.
pub open spec fn d2a_exact_neg(v: Dec) -> bool {
    &&& div_representable(Dec { m: -100i128, s: 0u32 }, dec_minus_one(v))
    &&& (100 * pow10(28)) % (v.s28() - pow10(28)) == 0
}

/// Scaled-value characterization of decimal-to-american. Where no rounding
/// loss occurs the result is given in closed form; otherwise it follows the
/// named results of the backing decimal arithmetic.
pub open spec fn decimal_to_american_custom_spec(v: Dec, strat: RoundingStrategy) -> Result<
    i32,
    ConversionError,
> {
    let e: int = pow10(28);
    if v.s28() >= 2 * e {
        let n: int = if d2a_exact_pos(v) {
            (v.s28() - e) * 100 / e
        } else {
            trunc_div(
                round_s28(mul_of(dec_minus_one(v), Dec { m: 100, s: 0u32 }).s28(), 0, strat),
                e,
            )
        };
        if i32::MIN <= n <= i32::MAX {
            Ok(normalize_spec(n) as i32)
        } else {
            Err(ConversionError::DecimalOverflow)
        }
    } else if v.s28() > e {
        let n: int = if d2a_exact_neg(v) {
            -(100 * e / (v.s28() - e))
        } else {
            trunc_div(
                round_s28(div_of(Dec { m: -100i128, s: 0u32 }, dec_minus_one(v)).s28(), 0, strat),
                e,
            )
        };
        if i32::MIN <= n <= i32::MAX {
            Ok(n as i32)
        } else {
            Err(ConversionError::DecimalOverflow)
        }
    } else {
        Err(ConversionError::InvalidDecimal)
    }
}

/// For a payout at least two, the machine can hold `(v - 1) * 100`.
pub open spec fn d2a_mul_in_range(v: Dec) -> bool {
    (v.s28() - pow10(28)) * 100 <= (MAX_MANTISSA - 1) * pow10(28)
}

/// Convert from decimal to american using custom parameters.
///
/// The two `requires` bounds keep the backing decimal arithmetic from
/// overflowing its 96-bit mantissa (a machine limit): the payout may not be
/// astronomically large, and for payouts between one and two the fractional
/// part may not be smaller than `13 * 10^-28`.
pub fn decimal_to_american_custom(decimal: Dec, config: &ConversionConfig) -> (r: Result<
    i32,
    ConversionError,
>)
    requires
        decimal.wf(),
        decimal.s28() >= 2 * pow10(28) ==> d2a_mul_in_range(decimal),
        pow10(28) < decimal.s28() < 2 * pow10(28) ==> decimal.s28() - pow10(28) >= 13,
    ensures
        r == decimal_to_american_custom_spec(decimal, config.rounding_strategy),
        decimal.s28() <= pow10(28) <==> r == Err::<i32, ConversionError>(
            ConversionError::InvalidDecimal,
        ),
{
    proof {
        lemma_pow10_28();
    }
    let le_one = cmp_int(&decimal, 1);
    if le_one <= 0 {
        return Err(ConversionError::InvalidDecimal);
    }
    let ge_two = cmp_int(&decimal, 2);
    let one = Dec::from_int(1);
    proof {
        lemma_minus_one_facts(decimal);
    }
    let diff = dec_sub(&decimal, &one);
    proof {
        assert(diff == dec_minus_one(decimal));
    }
    if ge_two >= 0 {
        let hundred = Dec::from_int(100);
        proof {
            assert(iabs(diff.s28() * hundred.m) <= (MAX_MANTISSA - 1) * pow10(28)) by {
                assert(diff.s28() > 0);
                assert(diff.s28() * 100 == (decimal.s28() - pow10(28)) * 100);
            };
        }
        let p = dec_mul(&diff, &hundred);
        let rd = dec_round(&p, 0, config.rounding_strategy);
        let n_opt = dec_to_i32(&rd);
        proof {
            let e: int = pow10(28);
            if d2a_exact_pos(decimal) {
                let pv: int = (decimal.s28() - e) * 100;
                assert(iabs(diff.m * 100) <= MAX_MANTISSA);
                assert(p.s28() == diff.s28() * 100);
                assert(p.s28() == pv);
                crate::decimal::lemma_round_multiple(pv, config.rounding_strategy);
                assert(rd.s28() == pv);
                lemma_fundamental_div_mod(pv, e);
                assert(pv >= 100 * e) by (nonlinear_arith)
                    requires
                        pv == (decimal.s28() - e) * 100,
                        decimal.s28() >= 2 * e,
                        e >= 1,
                ;
                assert(trunc_div(pv, e) == pv / e);
                assert(pv / e >= 100) by (nonlinear_arith)
                    requires
                        pv >= 100 * e,
                        e > 0,
                ;
            }
        }
        match n_opt {
            Some(n) => Ok(normalize_american_odds(n)),
            None => Err(ConversionError::DecimalOverflow),
        }
    } else {
        let neg_hundred = Dec::from_int(-100);
        proof {
            assert(iabs(neg_hundred.s28()) <= (MAX_MANTISSA - 1) * diff.s28()) by (nonlinear_arith)
                requires
                    neg_hundred.s28() == -100 * pow10(28),
                    diff.s28() == decimal.s28() - pow10(28),
                    decimal.s28() - pow10(28) >= 13,
                    pow10(28) == 10000000000000000000000000000,
                    MAX_MANTISSA == 79228162514264337593543950335,
            ;
            lemma_pos_mantissa(diff);
        }
        let q = dec_div(&neg_hundred, &diff);
        let rd = dec_round(&q, 0, config.rounding_strategy);
        let n_opt = dec_to_i32(&rd);
        proof {
            let e: int = pow10(28);
            if d2a_exact_neg(decimal) {
                let w: int = decimal.s28() - e;
                let n0: int = 100 * e / w;
                lemma_fundamental_div_mod(100 * e, w);
                assert(100 * e == w * n0);
                assert(q.s28() * diff.s28() == neg_hundred.s28() * e);
                assert(q.s28() * w == (-(n0 * e)) * w) by (nonlinear_arith)
                    requires
                        q.s28() * w == (-100 * e) * e,
                        100 * e == w * n0,
                ;
                lemma_mul_cancel(q.s28(), -(n0 * e), w);
                assert(q.s28() == -(n0 * e));
                lemma_mul_is_commutative(-n0, e);
                lemma_mod_multiples_basic(-n0, e);
                assert((-n0 * e) % e == 0);
                assert(q.s28() % e == 0) by (nonlinear_arith)
                    requires
                        q.s28() == -(n0 * e),
                        (-n0 * e) % e == 0,
                ;
                crate::decimal::lemma_round_multiple(q.s28(), config.rounding_strategy);
                assert(rd.s28() == -(n0 * e));
                lemma_scaled_div(n0);
                assert(n0 >= 1) by (nonlinear_arith)
                    requires
                        100 * e == w * n0,
                        0 < w < e,
                        e >= 1,
                ;
                assert(trunc_div(rd.s28(), e) == -n0) by {
                    assert(rd.s28() < 0) by (nonlinear_arith)
                        requires
                            rd.s28() == -(n0 * e),
                            n0 >= 1,
                            e >= 1,
                    ;
                    assert(-rd.s28() == n0 * e);
                };
            }
        }
        match n_opt {
            Some(n) => Ok(n),
            None => Err(ConversionError::DecimalOverflow),
        }
    }
}

/// Convert from decimal to american using default parameters.
pub fn decimal_to_american(decimal: Dec) -> (r: Result<i32, ConversionError>)
    requires
        decimal.wf(),
        decimal.s28() >= 2 * pow10(28) ==> d2a_mul_in_range(decimal),
        pow10(28) < decimal.s28() < 2 * pow10(28) ==> decimal.s28() - pow10(28) >= 13,
    ensures
        r == decimal_to_american_custom_spec(
            decimal,
            RoundingStrategy::MidpointAwayFromZero,
        ),
        decimal.s28() <= pow10(28) <==> r == Err::<i32, ConversionError>(
            ConversionError::InvalidDecimal,
        ),
{
    decimal_to_american_custom(decimal, &ConversionConfig::default())
}


/// The fraction the plain strategy derives from the scaled value of
/// `(v - 1) * 1000`: round to an integer, reduce by the greatest common
/// divisor with `100000`, and truncate the quotients into 32 bits (an
/// unrepresentable numerator degenerates to zero, as documented).
pub open spec fn plain_from_scaled(ps: int, strat: RoundingStrategy) -> (u32, u32) {
    let e: int = pow10(28);
    let rounded: int = round_s28(ps, 0, strat) / e;
    let numerator: int = if 0 <= rounded <= u64::MAX {
        rounded
    } else {
        0
    };
    let g: int = gcd_nat(numerator as nat, 100000) as int;
    let num_v: int = numerator / g;
    let den_v: int = 1000int / g;
    (
        (if num_v <= u32::MAX {
            num_v
        } else {
            0int
        }) as u32,
        den_v as u32,
    )
}

/// Full behavior of the plain decimal-to-fraction strategy.
pub open spec fn decimal_to_fractional_plain_spec(v: Dec, strat: RoundingStrategy) -> Result<
    (u32, u32),
    ConversionError,
> {
    if v.s28() <= pow10(28) {
        Err(ConversionError::InvalidDecimal)
    } else {
        Ok(plain_from_scaled(mul_of(dec_minus_one(v), Dec { m: 1000, s: 0u32 }).s28(), strat))
    }
}

/// The machine can hold `(v - 1) * 1000` for this payout.
pub open spec fn plain_mul_in_range(v: Dec) -> bool {
    (v.s28() - pow10(28)) * 1000 <= (MAX_MANTISSA - 1) * pow10(28)
}

/// Convert from decimal to fractional with the plain fractional strategy.
/// Bypasses lookup tables.
///
/// The `requires` bound keeps the backing decimal arithmetic from overflowing
/// its 96-bit mantissa (a machine limit on astronomically large payouts).
pub fn decimal_to_fractional_plain(value: Dec, config: &ConversionConfig) -> (r: Result<
    (u32, u32),
    ConversionError,
>)
    requires
        value.wf(),
        value.s28() > pow10(28) ==> plain_mul_in_range(value),
    ensures
        r == decimal_to_fractional_plain_spec(value, config.rounding_strategy),
        value.s28() <= pow10(28) <==> r == Err::<(u32, u32), ConversionError>(
            ConversionError::InvalidDecimal,
        ),
        (value.s28() > pow10(28) && iabs((value.m - pow10(value.s as nat)) * 1000)
            <= MAX_MANTISSA) ==> r == Ok::<(u32, u32), ConversionError>(
            plain_from_scaled((value.s28() - pow10(28)) * 1000, config.rounding_strategy),
        ),
{
    proof {
        lemma_pow10_28();
    }
    let le_one = cmp_int(&value, 1);
    if le_one <= 0 {
        return Err(ConversionError::InvalidDecimal);
    }
    let one = Dec::from_int(1);
    proof {
        lemma_minus_one_facts(value);
    }
    let diff = dec_sub(&value, &one);
    let thousand = Dec::from_int(1000);
    proof {
        assert(diff == dec_minus_one(value));
        assert(iabs(diff.s28() * thousand.m) <= (MAX_MANTISSA - 1) * pow10(28)) by {
            assert(diff.s28() > 0);
            assert(diff.s28() * 1000 == (value.s28() - pow10(28)) * 1000);
        };
    }
    let p = dec_mul(&diff, &thousand);
    let rd = dec_round(&p, 0, config.rounding_strategy);
    proof {
        if iabs((value.m - pow10(value.s as nat)) * 1000) <= MAX_MANTISSA {
            assert(p.s28() == diff.s28() * 1000);
        }
    }
    let numerator: u64 = match dec_to_u64(&rd) {
        Some(x) => x,
        None => 0,
    };
    proof {
        // The exec numerator matches the one in `plain_from_scaled`.
        let e: int = pow10(28);
        let rv: int = round_s28(p.s28(), 0, config.rounding_strategy);
        assert(rd.s28() == rv);
        lemma_pow10_pos(28);
        if rd.m < 0 {
            assert(rd.s28() < 0) by (nonlinear_arith)
                requires
                    rd.s28() == (rd.m as int) * pow10((28 - rd.s as int) as nat),
                    rd.m < 0,
                    pow10((28 - rd.s as int) as nat) >= 1,
            ;
            vstd::arithmetic::div_mod::lemma_div_is_ordered(rv, -1, e);
            assert((-1) / e == -1) by {
                lemma_fundamental_div_mod_converse(-1, e, -1, e - 1);
            };
        } else {
            assert(rd.s28() >= 0) by (nonlinear_arith)
                requires
                    rd.s28() == (rd.m as int) * pow10((28 - rd.s as int) as nat),
                    rd.m >= 0,
                    pow10((28 - rd.s as int) as nat) >= 1,
            ;
            vstd::arithmetic::div_mod::lemma_div_is_ordered(0, rv, e);
        }
    }
    let divisor: u64 = gcd_u64(numerator, 100000);
    proof {
        lemma_gcd_divides(numerator as nat, 100000nat);
        assert(1 <= divisor);
        assert(divisor <= 100000) by {
            lemma_fundamental_div_mod(100000int, divisor as int);
            assert(divisor <= 100000) by (nonlinear_arith)
                requires
                    100000int == (divisor as int) * (100000int / (divisor as int)) + 0,
                    divisor >= 1,
            ;
        };
    }
    let num_dec_n = Dec::new(numerator as i128, 0);
    let div_dec = Dec::new(divisor as i128, 0);
    proof {
        assert(iabs(num_dec_n.s28()) <= (MAX_MANTISSA - 1) * div_dec.s28()) by (nonlinear_arith)
            requires
                num_dec_n.s28() == (numerator as int) * pow10(28),
                div_dec.s28() == (divisor as int) * pow10(28),
                numerator <= 0xffffffffffffffffu64,
                divisor >= 1,
                pow10(28) == 10000000000000000000000000000,
                MAX_MANTISSA == 79228162514264337593543950335,
        ;
        // numerator / divisor is exactly representable at scale zero.
        lemma_fundamental_div_mod(numerator as int, divisor as int);
        let qn: int = numerator as int / divisor as int;
        assert(quotient_rep(qn, 0nat, num_dec_n, div_dec)) by {
            reveal_with_fuel(pow10, 1);
            assert(0 <= qn <= numerator) by (nonlinear_arith)
                requires
                    numerator as int == (divisor as int) * qn + 0,
                    divisor >= 1,
                    numerator >= 0,
            ;
            assert(qn * div_dec.s28() == num_dec_n.s28() * 1) by (nonlinear_arith)
                requires
                    num_dec_n.s28() == (numerator as int) * pow10(28),
                    div_dec.s28() == (divisor as int) * pow10(28),
                    numerator as int == (divisor as int) * qn,
            ;
        };
        assert(div_representable(num_dec_n, div_dec));
    }
    let num_q = dec_div(&num_dec_n, &div_dec);
    proof {
        let e: int = pow10(28);
        let qn: int = numerator as int / divisor as int;
        assert(num_q.s28() == qn * e) by (nonlinear_arith)
            requires
                num_q.s28() * ((divisor as int) * e) == ((numerator as int) * e) * e,
                num_q.s28() * div_dec.s28() == num_dec_n.s28() * e,
                div_dec.s28() == (divisor as int) * e,
                num_dec_n.s28() == (numerator as int) * e,
                numerator as int == (divisor as int) * qn,
                divisor >= 1,
                e >= 1,
        ;
        lemma_scaled_div(qn);
        assert(qn >= 0) by (nonlinear_arith)
            requires
                numerator as int == (divisor as int) * qn + 0,
                divisor >= 1,
                numerator >= 0,
        ;
        lemma_pos_mantissa_nonneg(num_q);
    }
    let num_final: u32 = match dec_to_u32(&num_q) {
        Some(x) => x,
        None => 0,
    };
    let thousand2 = Dec::from_int(1000);
    proof {
        assert(iabs(thousand2.s28()) <= (MAX_MANTISSA - 1) * div_dec.s28()) by (nonlinear_arith)
            requires
                thousand2.s28() == 1000 * pow10(28),
                div_dec.s28() == (divisor as int) * pow10(28),
                divisor >= 1,
                pow10(28) == 10000000000000000000000000000,
                MAX_MANTISSA == 79228162514264337593543950335,
        ;
        // 1000 / divisor is exactly representable at scale five, because the
        // divisor divides 100000.
        lemma_fundamental_div_mod(100000int, divisor as int);
        let k0: int = 100000int / divisor as int;
        let k: int = k0 * 1000;
        assert(quotient_rep(k, 5nat, thousand2, div_dec)) by {
            reveal_with_fuel(pow10, 6);
            assert(1 <= k0 <= 100000 && (divisor as int) * k == 100000000) by (nonlinear_arith)
                requires
                    100000int == (divisor as int) * k0 + 0,
                    1 <= divisor <= 100000,
                    k == k0 * 1000,
            ;
            assert(k * div_dec.s28() == thousand2.s28() * pow10(5)) by (nonlinear_arith)
                requires
                    thousand2.s28() == 1000 * pow10(28),
                    div_dec.s28() == (divisor as int) * pow10(28),
                    (divisor as int) * k == 100000000,
                    pow10(5) == 100000,
            ;
        };
        assert(div_representable(thousand2, div_dec));
    }
    let den_q = dec_div(&thousand2, &div_dec);
    proof {
        let e: int = pow10(28);
        let g: int = divisor as int;
        let qd: int = 1000int / g;
        let rd0: int = 1000int % g;
        lemma_fundamental_div_mod(1000int, g);
        // den_q holds exactly 1000e/g; its truncation to an integer is 1000/g.
        assert(den_q.s28() * (g * e) == (1000 * e) * e) by {
            assert(den_q.s28() * div_dec.s28() == thousand2.s28() * e);
        };
        assert(den_q.s28() * g == 1000 * e) by (nonlinear_arith)
            requires
                den_q.s28() * (g * e) == (1000 * e) * e,
                e >= 1,
        ;
        // Bound the leftover part and read off the truncated quotient.
        assert(0 <= den_q.s28() - qd * e < e) by (nonlinear_arith)
            requires
                den_q.s28() * g == 1000 * e,
                1000int == g * qd + rd0,
                0 <= rd0 < g,
                g >= 1,
                e >= 1,
        ;
        lemma_fundamental_div_mod_converse(den_q.s28(), e, qd, den_q.s28() - qd * e);
        assert(den_q.s28() / e == qd);
        assert(qd >= 0 && qd <= 1000) by (nonlinear_arith)
            requires
                1000int == g * qd + rd0,
                0 <= rd0 < g,
                g >= 1,
        ;
        lemma_pos_mantissa_nonneg(den_q);
    }
    let den_final: u32 = match dec_to_u32(&den_q) {
        Some(x) => x,
        None => 0,
    };
    Ok((num_final, den_final))
}



/// Saturating clamp into the 64-bit range (for non-negative values).
pub open spec fn sat64(x: int) -> int {
    if x > u64::MAX {
        u64::MAX as int
    } else {
        x
    }
}

/// Truncation into 32 bits.
pub open spec fn wrap32(x: int) -> u32 {
    (x % 0x100000000) as u32
}

/// The floor of a decimal, as an integer-valued decimal.
pub open spec fn cf_floor(a: Dec) -> Dec {
    Dec { m: (a.s28() / pow10(28)) as i128, s: 0u32 }
}

/// The fractional remainder `a - floor(a)` (what decimal subtraction yields).
pub open spec fn cf_rem(a: Dec, fl: Dec) -> Dec {
    if a.m == 0 {
        Dec { m: (-(fl.m as int)) as i128, s: fl.s }
    } else {
        Dec {
            m: (rescaled(a, max_scale_of(a, fl)) - rescaled(fl, max_scale_of(a, fl))) as i128,
            s: max_scale_of(a, fl),
        }
    }
}

/// One state of the continued-fraction convergent recurrence, unfolded until
/// a stop condition: a floor that cannot be represented, a denominator beyond
/// one thousand, or a negligible remainder. The running convergents use
/// saturating 64-bit arithmetic and the result is truncated into 32 bits,
/// exactly as the executable loop computes.
pub open spec fn simplify_loop(
    a: Dec,
    num: int,
    den: int,
    num_prev: int,
    den_prev: int,
    eps: Dec,
    fuel: nat,
) -> (u32, u32)
    decreases fuel,
{
    if fuel == 0 {
        (wrap32(num), wrap32(den))
    } else {
        let fl = cf_floor(a);
        if fl.m < 0 || fl.m > u64::MAX {
            (wrap32(num), wrap32(den))
        } else {
            let whole: int = fl.m as int;
            let num_next: int = sat64(sat64(whole * num) + num_prev);
            let den_next: int = sat64(sat64(whole * den) + den_prev);
            if den_next > 1000 {
                (wrap32(num), wrap32(den))
            } else {
                let rem = cf_rem(a, fl);
                if rem.s28() < eps.s28() {
                    (wrap32(num_next), wrap32(den_next))
                } else {
                    simplify_loop(
                        div_of(Dec { m: 1, s: 0u32 }, rem),
                        num_next,
                        den_next,
                        num,
                        den,
                        eps,
                        (fuel - 1) as nat,
                    )
                }
            }
        }
    }
}

/// Full behavior of the continued-fraction decimal-to-fraction strategy.
pub open spec fn decimal_to_fractional_simplify_spec(v: Dec) -> Result<(u32, u32), ConversionError> {
    if v.s28() <= pow10(28) {
        Err(ConversionError::InvalidDecimal)
    } else {
        let frac = dec_minus_one(v);
        let centi = Dec { m: 1, s: 2u32 };
        let eps = if centi.s28() < frac.s28() {
            centi
        } else {
            frac
        };
        let nd = simplify_loop(frac, 1, 0, 0, 1, eps, 3000);
        Ok((nd.0, if nd.1 == 0 {
            1u32
        } else {
            nd.1
        }))
    }
}

/// Runs the convergent recurrence; mirrors `simplify_loop` step by step.
fn simplify_loop_exec(
    a: Dec,
    num: u64,
    den: u64,
    num_prev: u64,
    den_prev: u64,
    eps: &Dec,
    Ghost(fuel): Ghost<nat>,
) -> (r: (u32, u32))
    requires
        a.wf(),
        eps.wf(),
        eps.s28() > 0,
        a.s28() > 0,
        den <= 1000,
        den_prev <= 1000,
        den == 0 ==> num == 1 && num_prev == 0 && den_prev == 1,
        den != 0 ==> a.s28() >= pow10(28),
        den_prev == 0 ==> den == 1,
        fuel <= 3000,
        fuel + 2 * (den as int) + (if den_prev > 0 {
            1int
        } else {
            0int
        }) >= 3001,
    ensures
        r == simplify_loop(
            a,
            num as int,
            den as int,
            num_prev as int,
            den_prev as int,
            *eps,
            fuel,
        ),
        r.1 <= 1000,
    decreases fuel,
{
    proof {
        lemma_pow10_28();
        lemma_pow10_pos(28);
        lemma_pos_mantissa(a);
    }
    let fl = dec_floor(&a);
    proof {
        assert(fl == cf_floor(a));
        lemma_scaled_div(fl.m as int);
        lemma_div_multiples_vanish(0, pow10(28));
        vstd::arithmetic::div_mod::lemma_div_is_ordered(0, a.s28(), pow10(28));
        assert(fl.m >= 0);
        assert(fuel > 0);
    }
    let w_opt = dec_to_u64(&fl);
    let whole: u64;
    match w_opt {
        None => {
            let out = (
                ((num % 0x100000000) as u32),
                ((den % 0x100000000) as u32),
            );
            proof {
                assert(out.0 == wrap32(num as int) && out.1 == wrap32(den as int));
                assert(out == simplify_loop(
                    a,
                    num as int,
                    den as int,
                    num_prev as int,
                    den_prev as int,
                    *eps,
                    fuel,
                ));
            }
            return out;
        },
        Some(w) => {
            whole = w;
        },
    }
    proof {
        assert(whole == fl.m);
    }
    proof {
        assert((whole as int) * (num as int) <= 0xfffffffffffffffe0000000000000001)
            by (nonlinear_arith)
            requires
                whole <= 0xffffffffffffffffu64,
                num <= 0xffffffffffffffffu64,
        ;
    }
    let prod_n: u128 = (whole as u128) * (num as u128);
    let num_mul: u64 = if prod_n > u64::MAX as u128 {
        u64::MAX
    } else {
        #[verifier::truncate]
        (prod_n as u64)
    };
    let num_next: u64 = if num_mul > u64::MAX - num_prev {
        u64::MAX
    } else {
        num_mul + num_prev
    };
    proof {
        assert((whole as int) * (den as int) <= 0xfffffffffffffffe0000000000000001)
            by (nonlinear_arith)
            requires
                whole <= 0xffffffffffffffffu64,
                den <= 0xffffffffffffffffu64,
        ;
    }
    let prod_d: u128 = (whole as u128) * (den as u128);
    let den_mul: u64 = if prod_d > u64::MAX as u128 {
        u64::MAX
    } else {
        #[verifier::truncate]
        (prod_d as u64)
    };
    let den_next: u64 = if den_mul > u64::MAX - den_prev {
        u64::MAX
    } else {
        den_mul + den_prev
    };
    proof {
        assert(num_next as int == sat64(sat64(fl.m as int * num) + num_prev));
        assert(den_next as int == sat64(sat64(fl.m as int * den) + den_prev));
    }
    if den_next > 1000 {
        let out = (
            ((num % 0x100000000) as u32),
            ((den % 0x100000000) as u32),
        );
        proof {
            assert(out.0 == wrap32(num as int) && out.1 == wrap32(den as int));
            assert(out == simplify_loop(
                a,
                num as int,
                den as int,
                num_prev as int,
                den_prev as int,
                *eps,
                fuel,
            ));
        }
        return out;
    }
    // floor(a) rescaled to a's scale stays below the mantissa of a, so the
    // subtraction is exact.
    proof {
        lemma_fundamental_div_mod(a.s28(), pow10(28));
        vstd::arithmetic::div_mod::lemma_mod_bound(a.s28(), pow10(28));
        lemma_mul_is_commutative(fl.m as int, pow10(28));
        lemma_pow10_pos(a.s as nat);
        lemma_pow10_pos((28 - a.s as int) as nat);
        lemma_pow10_adds(a.s as nat, (28 - a.s as int) as nat);
        assert(0 <= (fl.m as int) * pow10(a.s as nat) <= a.m) by (nonlinear_arith)
            requires
                (fl.m as int) * pow10(28) <= a.s28(),
                a.s28() == (a.m as int) * pow10((28 - a.s as int) as nat),
                pow10(a.s as nat) * pow10((28 - a.s as int) as nat) == pow10(28),
                pow10(a.s as nat) >= 1,
                pow10((28 - a.s as int) as nat) >= 1,
                fl.m >= 0,
                a.m > 0,
        ;
        assert(rescaled(a, max_scale_of(a, fl)) == a.m) by {
            assert(pow10((a.s - a.s) as nat) == 1);
        };
        assert(rescaled(fl, max_scale_of(a, fl)) == (fl.m as int) * pow10(a.s as nat));
        assert(sub_exact_fit(a, fl));
    }
    let rem = dec_sub(&a, &fl);
    proof {
        assert(rem == cf_rem(a, fl));
        // rem holds a.s28() % 10^28: non-negative and below one.
        assert(rem.s28() == a.s28() - (fl.m as int) * pow10(28)) by (nonlinear_arith)
            requires
                rem.s28() == ((a.m as int) - (fl.m as int) * pow10(a.s as nat)) * pow10(
                    (28 - a.s as int) as nat,
                ),
                a.s28() == (a.m as int) * pow10((28 - a.s as int) as nat),
                pow10(a.s as nat) * pow10((28 - a.s as int) as nat) == pow10(28),
        ;
        assert(rem.s28() == a.s28() % pow10(28));
        assert(0 <= rem.s28() < pow10(28));
    }
    if dec_lt(&rem, eps) {
        let out = (
            ((num_next % 0x100000000) as u32),
            ((den_next % 0x100000000) as u32),
        );
        proof {
            assert(out.0 == wrap32(num_next as int) && out.1 == wrap32(den_next as int));
            assert(out == simplify_loop(
                a,
                num as int,
                den as int,
                num_prev as int,
                den_prev as int,
                *eps,
                fuel,
            ));
        }
        return out;
    }
    let one = Dec::from_int(1);
    proof {
        assert(rem.s28() >= eps.s28());
        lemma_pos_mantissa(rem);
        assert(iabs(one.s28()) <= (MAX_MANTISSA - 1) * rem.s28()) by (nonlinear_arith)
            requires
                one.s28() == 1 * pow10(28),
                rem.s28() >= 1,
                pow10(28) == 10000000000000000000000000000,
                MAX_MANTISSA == 79228162514264337593543950335,
        ;
    }
    let a2 = dec_div(&one, &rem);
    proof {
        // The next value is at least one: the remainder is below one, so its
        // reciprocal's floor envelope starts at one.
        lemma_fundamental_div_mod(pow10(28), rem.s28());
        assert(pow10(28) / rem.s28() >= 1) by (nonlinear_arith)
            requires
                pow10(28) == rem.s28() * (pow10(28) / rem.s28()) + pow10(28) % rem.s28(),
                0 <= pow10(28) % rem.s28() < rem.s28(),
                0 < rem.s28() < pow10(28),
        ;
        assert(a2.s28() >= pow10(28)) by (nonlinear_arith)
            requires
                (one.s28() / rem.s28()) * pow10(28) <= a2.s28(),
                one.s28() == 1 * pow10(28),
                pow10(28) / rem.s28() >= 1,
                pow10(28) >= 1,
        ;
        // The denominator measure grows by at least one each pass.
        if den == 0 {
            assert(den_next == 1);
        } else {
            assert(a.s28() >= pow10(28));
            assert(fl.m >= 1) by (nonlinear_arith)
                requires
                    a.s28() == pow10(28) * (fl.m as int) + a.s28() % pow10(28),
                    0 <= a.s28() % pow10(28) < pow10(28),
                    a.s28() >= pow10(28),
                    pow10(28) >= 1,
            ;
            assert(den_next as int >= den + 1 || den_prev == 0) by (nonlinear_arith)
                requires
                    den_next as int == sat64(sat64(fl.m as int * den) + den_prev),
                    den_next <= 1000,
                    fl.m >= 1,
                    den >= 1,
                    den_prev >= 0,
            ;
            if den_prev == 0 {
                assert(den == 1);
                assert(den_next as int >= 1) by (nonlinear_arith)
                    requires
                        den_next as int == sat64(sat64(fl.m as int * den) + den_prev),
                        fl.m >= 1,
                        den == 1,
                        den_prev == 0,
                ;
            }
        }
        assert(fuel - 1 + 2 * (den_next as int) + 1int >= 3001) by (nonlinear_arith)
            requires
                fuel + 2 * (den as int) + (if den_prev > 0 {
                    1int
                } else {
                    0int
                }) >= 3001,
                den == 0 ==> den_next == 1 && den_prev == 1,
                den >= 1 ==> (den_next as int >= den + 1 || (den_prev == 0 && den == 1
                    && den_next >= 1)),
                den_prev == 0 ==> den == 1,
                den_next >= 1,
        ;
    }
    let r = simplify_loop_exec(a2, num_next, den_next, num, den, eps, Ghost((fuel - 1) as nat));
    proof {
        assert(r == simplify_loop(
            a,
            num as int,
            den as int,
            num_prev as int,
            den_prev as int,
            *eps,
            fuel,
        ));
    }
    r
}

/// Conversion from decimal to fractional using a continued-fraction
/// algorithm to find the best rational approximation. This usually produces
/// simplified fractions. Bypasses lookup tables.
pub fn decimal_to_fractional_simplify(value: Dec) -> (r: Result<(u32, u32), ConversionError>)
    requires
        value.wf(),
    ensures
        r == decimal_to_fractional_simplify_spec(value),
        value.s28() <= pow10(28) <==> r == Err::<(u32, u32), ConversionError>(
            ConversionError::InvalidDecimal,
        ),
        r is Ok ==> 1 <= r->Ok_0.1 <= 1000,
{
    let le_one = cmp_int(&value, 1);
    if le_one <= 0 {
        return Err(ConversionError::InvalidDecimal);
    }
    let one = Dec::from_int(1);
    proof {
        lemma_pow10_28();
        lemma_minus_one_facts(value);
    }
    let frac = dec_sub(&value, &one);
    let centi = Dec::new(1, 2);
    proof {
        assert(frac == dec_minus_one(value));
        lemma_pow10_pos(26);
        assert(centi.m == 1 && centi.s == 2);
        assert((MAX_SCALE - centi.s) as nat == 26nat);
        assert(centi.s28() == 1int * pow10(26));
        assert(centi.s28() == pow10(26));
    }
    let eps = dec_min(&frac, &centi);
    let nd = simplify_loop_exec(frac, 1, 0, 0, 1, &eps, Ghost(3000nat));
    let d_final: u32 = if nd.1 == 0 {
        1
    } else {
        nd.1
    };
    Ok((nd.0, d_final))
}


/// What the decimal-to-fraction lookup yields under a configuration.
pub open spec fn d2f_lookup(v: Dec, cfg: ConversionConfig) -> Option<(u32, u32)> {
    match cfg.lookup_tables_variant {
        LookupVariant::Disabled => None,
        LookupVariant::Basic => match dec_key_of(v) {
            Some(k) => if decimal_to_fraction_basic().contains_key(k) {
                Some(decimal_to_fraction_basic()[k])
            } else {
                None
            },
            None => None,
        },
        LookupVariant::Extended => match dec_key_of(v) {
            Some(k) => if decimal_to_fraction_basic().contains_key(k) {
                Some(decimal_to_fraction_basic()[k])
            } else if decimal_to_fraction_extended().contains_key(k) {
                Some(decimal_to_fraction_extended()[k])
            } else {
                None
            },
            None => None,
        },
    }
}

/// Full behavior of decimal-to-fractional under a configuration.
pub open spec fn decimal_to_fractional_custom_spec(v: Dec, cfg: ConversionConfig) -> Result<
    (u32, u32),
    ConversionError,
> {
    match d2f_lookup(v, cfg) {
        Some(f) => Ok(f),
        None => match cfg.fraction_strategy {
            FractionStrategy::Plain => decimal_to_fractional_plain_spec(v, cfg.rounding_strategy),
            FractionStrategy::Simplify => decimal_to_fractional_simplify_spec(v),
        },
    }
}

/// A hit in the decimal tables means the decimal denotes a value above one.
proof fn lemma_d2f_hit_gt_one(v: Dec, k: i64)
    requires
        v.wf(),
        dec_key_of(v) == Some(k),
        decimal_to_fraction_basic().contains_key(k) || decimal_to_fraction_extended().contains_key(
            k,
        ),
    ensures
        v.s28() > pow10(28),
{
    lemma_decimal_table_keys_above_one(k);
    lemma_pow10_adds(24, 4);
    lemma_pow10_pos(24);
    reveal_with_fuel(pow10, 5);
    lemma_fundamental_div_mod(v.s28(), pow10(24));
    lemma_mul_is_commutative(v.s28() / pow10(24), pow10(24));
    assert(v.s28() == k * pow10(24));
    assert(v.s28() > pow10(28)) by (nonlinear_arith)
        requires
            v.s28() == k * pow10(24),
            k > 10000,
            pow10(28) == pow10(24) * pow10(4),
            pow10(4) == 10000,
            pow10(24) >= 1,
    ;
}

/// Convert from decimal to fractional using custom parameters.
///
/// The `requires` bound applies only to the plain strategy and keeps the
/// backing decimal arithmetic from overflowing its 96-bit mantissa.
pub fn decimal_to_fractional_custom(value: Dec, config: &ConversionConfig) -> (r: Result<
    (u32, u32),
    ConversionError,
>)
    requires
        value.wf(),
        config.fraction_strategy is Plain && value.s28() > pow10(28) ==> plain_mul_in_range(value),
    ensures
        r == decimal_to_fractional_custom_spec(value, *config),
        value.s28() <= pow10(28) <==> r == Err::<(u32, u32), ConversionError>(
            ConversionError::InvalidDecimal,
        ),
        value.s28() > pow10(28) && config.fraction_strategy is Simplify ==> r is Ok,
        config.lookup_tables_variant is Basic && dec_key_of(value) is Some
            && decimal_to_fraction_basic().contains_key(dec_key_of(value)->Some_0) ==> r
            == Ok::<(u32, u32), ConversionError>(
            decimal_to_fraction_basic()[dec_key_of(value)->Some_0],
        ),
{
    let key_opt = dec_table_key(&value);
    match config.lookup_tables_variant {
        LookupVariant::Basic => {
            if let Some(k) = key_opt {
                let m = get_decimal_to_fraction_map();
                if let Some(f) = m.get(&k) {
                    proof {
                        lemma_d2f_hit_gt_one(value, k);
                    }
                    return Ok(*f);
                }
            }
        },
        LookupVariant::Extended => {
            if let Some(k) = key_opt {
                let m = get_decimal_to_fraction_map();
                if let Some(f) = m.get(&k) {
                    proof {
                        lemma_d2f_hit_gt_one(value, k);
                    }
                    return Ok(*f);
                }
                let mx = get_decimal_to_fraction_extended_map();
                if let Some(f) = mx.get(&k) {
                    proof {
                        lemma_d2f_hit_gt_one(value, k);
                    }
                    return Ok(*f);
                }
            }
        },
        LookupVariant::Disabled => {},
    }
    match config.fraction_strategy {
        FractionStrategy::Plain => decimal_to_fractional_plain(value, config),
        FractionStrategy::Simplify => decimal_to_fractional_simplify(value),
    }
}

/// Convert from decimal to fractional using default parameters.
pub fn decimal_to_fractional(value: Dec) -> (r: Result<(u32, u32), ConversionError>)
    requires
        value.wf(),
    ensures
        r == decimal_to_fractional_custom_spec(value, ConversionConfig::standard()),
        value.s28() <= pow10(28) <==> r == Err::<(u32, u32), ConversionError>(
            ConversionError::InvalidDecimal,
        ),
        value.s28() > pow10(28) ==> r is Ok,
{
    decimal_to_fractional_custom(value, &ConversionConfig::default())
}

/// What the basic/extended american-to-fraction lookup yields.
pub open spec fn a2f_lookup(v: i32, cfg: ConversionConfig) -> Option<(u32, u32)> {
    match cfg.lookup_tables_variant {
        LookupVariant::Disabled => None,
        LookupVariant::Basic => if american_to_fraction_basic().contains_key(v) {
            Some(american_to_fraction_basic()[v])
        } else {
            None
        },
        LookupVariant::Extended => if american_to_fraction_basic().contains_key(v) {
            Some(american_to_fraction_basic()[v])
        } else {
            None
        },
    }
}

/// Full behavior of american-to-fractional under a configuration: lookup
/// first, then the american-to-decimal formula followed by the
/// decimal-to-fractional conversion under default parameters.
pub open spec fn american_to_fractional_custom_spec(v: i32, cfg: ConversionConfig) -> Result<
    (u32, u32),
    ConversionError,
> {
    match a2f_lookup(v, cfg) {
        Some(f) => Ok(f),
        None => match american_to_decimal_formula(v) {
            Ok(d) => decimal_to_fractional_custom_spec(d, ConversionConfig::standard()),
            Err(e) => Err(e),
        },
    }
}

/// Convert from american to fractional with custom parameters.
pub fn american_to_fractional_custom(value: i32, config: &ConversionConfig) -> (r: Result<
    (u32, u32),
    ConversionError,
>)
    ensures
        r == american_to_fractional_custom_spec(value, *config),
        r is Err <==> value == 0,
        value == 0 ==> r == Err::<(u32, u32), ConversionError>(ConversionError::AmericanZero),
        !(config.lookup_tables_variant is Disabled)
            && american_to_fraction_basic().contains_key(value) ==> r == Ok::<
            (u32, u32),
            ConversionError,
        >(american_to_fraction_basic()[value]),
{
    proof {
        assert(!american_to_fraction_basic().contains_key(0i32));
    }
    match config.lookup_tables_variant {
        LookupVariant::Basic => {
            let m = get_american_to_fraction_map();
            if let Some(f) = m.get(&value) {
                return Ok(*f);
            }
        },
        LookupVariant::Extended => {
            let m = get_american_to_fraction_map();
            if let Some(f) = m.get(&value) {
                return Ok(*f);
            }
            let mx = get_american_to_fraction_extended_map();
            if let Some(f) = mx.get(&value) {
                return Ok(*f);
            }
        },
        LookupVariant::Disabled => {},
    }
    let decimal = match american_to_decimal_inner(value) {
        Ok(d) => d,
        Err(e) => {
            return Err(e);
        },
    };
    decimal_to_fractional(decimal)
}

/// Convert from american to fractional with default parameters.
pub fn american_to_fractional(value: i32) -> (r: Result<(u32, u32), ConversionError>)
    ensures
        r == american_to_fractional_custom_spec(value, ConversionConfig::standard()),
        r is Err <==> value == 0,
        value == 0 ==> r == Err::<(u32, u32), ConversionError>(ConversionError::AmericanZero),
{
    american_to_fractional_custom(value, &ConversionConfig::default())
}

/// Full behavior of fractional-to-american: the fraction becomes a decimal
/// payout, which is then converted to american odds.
pub open spec fn fractional_to_american_custom_spec(
    num: u32,
    den: u32,
    strat: RoundingStrategy,
) -> Result<i32, ConversionError> {
    match fractional_to_decimal_spec(num, den) {
        Err(e) => Err(e),
        Ok(d) => decimal_to_american_custom_spec(d, strat),
    }
}

/// Convert from fractional to american with custom parameters.
pub fn fractional_to_american_custom(num: u32, den: u32, config: &ConversionConfig) -> (r: Result<
    i32,
    ConversionError,
>)
    ensures
        r == fractional_to_american_custom_spec(num, den, config.rounding_strategy),
        den == 0 <==> r == Err::<i32, ConversionError>(ConversionError::DenominatorZero),
        den != 0 ==> (num == 0 <==> r == Err::<i32, ConversionError>(
            ConversionError::InvalidDecimal,
        )),
{
    if den == 0 {
        return Err(ConversionError::DenominatorZero);
    }
    let decimal = match fractional_to_decimal(num, den) {
        Ok(d) => d,
        Err(e) => {
            return Err(e);
        },
    };
    proof {
        lemma_pow10_28();
        let e: int = pow10(28);
        let a: int = (num + den) as int;
        if decimal.s28() >= 2 * e {
            assert((decimal.s28() - e) * 100 <= (MAX_MANTISSA - 1) * e) by (nonlinear_arith)
                requires
                    decimal.s28() <= (a + 1) * e,
                    2 * e <= decimal.s28(),
                    1 <= a <= 0x200000000,
                    e == 10000000000000000000000000000,
                    MAX_MANTISSA == 79228162514264337593543950335,
            ;
            assert(d2a_mul_in_range(decimal));
        }
        if e < decimal.s28() < 2 * e {
            assert(num > 0);
            assert(decimal.s28() - e >= 13);
        }
    }
    decimal_to_american_custom(decimal, config)
}

/// Convert from fractional to american with default parameters.
pub fn fractional_to_american(num: u32, den: u32) -> (r: Result<i32, ConversionError>)
    ensures
        r == fractional_to_american_custom_spec(
            num,
            den,
            RoundingStrategy::MidpointAwayFromZero,
        ),
        den == 0 <==> r == Err::<i32, ConversionError>(ConversionError::DenominatorZero),
        den != 0 ==> (num == 0 <==> r == Err::<i32, ConversionError>(
            ConversionError::InvalidDecimal,
        )),
{
    fractional_to_american_custom(num, den, &ConversionConfig::default())
}

} // verus!
