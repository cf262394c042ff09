//! Laws that relate the conversions, stated over the engine's specification
//! functions and proved for every input they admit.

use vstd::arithmetic::div_mod::{
    lemma_div_multiples_vanish, lemma_fundamental_div_mod, lemma_mod_multiples_basic,
};
use vstd::arithmetic::mul::lemma_mul_is_commutative;
use vstd::prelude::*;

use crate::config::ConversionConfig;
use crate::convert::{
    d2a_exact_neg, d2a_exact_pos, dec_minus_one, decimal_to_american_custom_spec,
    decimal_to_fractional_custom_spec, lemma_minus_one_facts, lemma_scaled_div, normalize_spec,
    ConversionError,
};
use crate::decimal::{
    iabs, lemma_pow10_28, lemma_pow10_adds, lemma_pow10_pos, pow10, quotient_rep, Dec,
    RoundingStrategy, MAX_MANTISSA,
};
use crate::lookup_tables::{dec_key_of, lemma_decimal_table_keys_above_one};
use crate::odds::Odds;

verus! {

/// Law (round trip, underdog side): a decimal payout that equals `a/100 + 1`
/// exactly, for american odds `a` of at least one hundred, converts back to
/// exactly `a` under every rounding strategy, provided the payout's mantissa
/// leaves room to multiply by one hundred (no rounding loss).
pub proof fn lemma_round_trip_underdog(a: int, d: Dec, strat: RoundingStrategy)
    requires
        100 <= a <= i32::MAX,
        d.wf(),
        d.s28() * 100 == (a + 100) * pow10(28),
        iabs((d.m - pow10(d.s as nat)) * 100) <= MAX_MANTISSA,
    ensures
        decimal_to_american_custom_spec(d, strat) == Ok::<i32, ConversionError>(a as i32),
{
    let e: int = pow10(28);
    lemma_pow10_28();
    assert(d.s28() >= 2 * e) by (nonlinear_arith)
        requires
            d.s28() * 100 == (a + 100) * e,
            a >= 100,
            e >= 1,
    ;
    assert((d.s28() - e) * 100 == a * e) by (nonlinear_arith)
        requires
            d.s28() * 100 == (a + 100) * e,
    ;
    lemma_mul_is_commutative(a, e);
    lemma_mod_multiples_basic(a, e);
    assert((d.s28() - e) * 100 % e == 0);
    assert(d2a_exact_pos(d));
    lemma_scaled_div(a);
    assert((d.s28() - e) * 100 / e == a);
    assert(normalize_spec(a) == a);
}

/// Law (round trip, favorite side): a decimal payout that equals
/// `100/(-a) + 1` exactly, for american odds `a` below minus one hundred,
/// converts back to exactly `a` under every rounding strategy.
pub proof fn lemma_round_trip_favorite(a: int, d: Dec, strat: RoundingStrategy)
    requires
        i32::MIN <= a <= -101,
        d.wf(),
        d.s28() * (-a) == (100 - a) * pow10(28),
    ensures
        decimal_to_american_custom_spec(d, strat) == Ok::<i32, ConversionError>(a as i32),
{
    let e: int = pow10(28);
    lemma_pow10_28();
    assert(e < d.s28() < 2 * e) by (nonlinear_arith)
        requires
            d.s28() * (-a) == (100 - a) * e,
            -0x80000000 <= a <= -101,
            e >= 1,
    ;
    let w: int = d.s28() - e;
    assert(w * (-a) == 100 * e) by (nonlinear_arith)
        requires
            d.s28() * (-a) == (100 - a) * e,
            w == d.s28() - e,
    ;
    lemma_minus_one_facts(d);
    assert(dec_minus_one(d).s28() == w);
    // 100/(v-1) is exactly the integer -a, so the favorite branch is exact.
    let negh = Dec { m: -100i128, s: 0u32 };
    assert(quotient_rep(a, 0nat, negh, dec_minus_one(d))) by {
        reveal_with_fuel(pow10, 1);
        assert(negh.s28() == -100 * e);
        assert(a * w == (-100 * e) * 1) by (nonlinear_arith)
            requires
                w * (-a) == 100 * e,
        ;
    };
    assert(crate::decimal::div_representable(negh, dec_minus_one(d)));
    lemma_mul_is_commutative(w, -a);
    lemma_mod_multiples_basic(-a, w);
    assert((100 * e) % w == 0);
    assert(d2a_exact_neg(d));
    lemma_div_multiples_vanish(-a, w);
    assert(100 * e / w == -a);
    assert(-(100 * e / w) == a);
}

/// Law (boundary): every decimal of at most one is rejected with
/// `InvalidDecimal`, by decimal-to-fractional under every configuration and
/// by decimal-to-american under every rounding strategy.
pub proof fn lemma_below_one_rejected(v: Dec, cfg: ConversionConfig, strat: RoundingStrategy)
    requires
        v.wf(),
        v.s28() <= pow10(28),
    ensures
        decimal_to_fractional_custom_spec(v, cfg) == Err::<(u32, u32), ConversionError>(
            ConversionError::InvalidDecimal,
        ),
        decimal_to_american_custom_spec(v, strat) == Err::<i32, ConversionError>(
            ConversionError::InvalidDecimal,
        ),
{
    lemma_pow10_28();
    lemma_pow10_pos(24);
    if dec_key_of(v) is Some {
        let k = dec_key_of(v)->Some_0;
        lemma_fundamental_div_mod(v.s28(), pow10(24));
        lemma_mul_is_commutative(v.s28() / pow10(24), pow10(24));
        assert(v.s28() == k * pow10(24));
        lemma_pow10_adds(24, 4);
        reveal_with_fuel(pow10, 5);
        assert(k <= 10000) by (nonlinear_arith)
            requires
                v.s28() == k * pow10(24),
                v.s28() <= pow10(28),
                pow10(28) == pow10(24) * pow10(4),
                pow10(4) == 10000,
                pow10(24) >= 1,
        ;
        lemma_decimal_table_keys_above_one(k);
    }
}

/// Law (idempotence): converting a value already in its target
/// representation returns it unchanged, still subject to the validity
/// checks: an american value always, a fraction whenever its denominator is
/// positive, and a decimal payout whenever it is above one.
pub proof fn lemma_same_representation_identity(
    cfg: ConversionConfig,
    a: i32,
    d: Dec,
    num: u32,
    den: u32,
)
    ensures
        Odds::American(a).to_american_spec(cfg) == Ok::<i32, ConversionError>(a),
        den > 0 ==> (Odds::Fractional { num, den }).to_fractional_spec(cfg) == Ok::<
            (u32, u32),
            ConversionError,
        >((num, den)),
        den == 0 ==> (Odds::Fractional { num, den }).to_fractional_spec(cfg) == Err::<
            (u32, u32),
            ConversionError,
        >(ConversionError::DenominatorZero),
        d.s28() > pow10(28) ==> Odds::Decimal(d).to_decimal_spec(cfg) == Ok::<
            Dec,
            ConversionError,
        >(d),
        d.s28() <= pow10(28) ==> Odds::Decimal(d).to_decimal_spec(cfg) == Err::<
            Dec,
            ConversionError,
        >(ConversionError::InvalidDecimal),
{
}

} // verus!
