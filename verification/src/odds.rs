//! The unified odds value: a tagged union over the three representations,
//! with conversion and formatting methods that dispatch to the conversion
//! engine. Converting to the value's own representation returns it unchanged,
//! still subject to the validity checks.

use vstd::prelude::*;

use crate::config::ConversionConfig;
use crate::convert::{
    american_to_decimal_custom, american_to_decimal_custom_spec, american_to_fractional_custom,
    american_to_fractional_custom_spec, d2a_mul_in_range, decimal_to_american_custom,
    decimal_to_american_custom_spec, decimal_to_fractional_custom,
    decimal_to_fractional_custom_spec, fractional_to_american_custom,
    fractional_to_american_custom_spec, fractional_to_decimal, fractional_to_decimal_spec,
    plain_mul_in_range, ConversionError,
};
use crate::decimal::{cmp_int, dec_round, pow10, pow10_i128, round_s28, Dec, RoundingStrategy};
use crate::text::{fraction_text, fraction_string, two_dp_text, two_dp_string};

verus! {

#[derive(Clone, Copy)]
pub enum Odds {
    American(i32),
    Decimal(Dec),
    Fractional { num: u32, den: u32 },
}

impl Odds {
    /// Any decimal payout the value holds is well formed.
    pub open spec fn wf(self) -> bool {
        match self {
            Odds::Decimal(d) => d.wf(),
            _ => true,
        }
    }

    /// The machine limits of decimal-to-american apply when the held value is
    /// a decimal payout.
    pub open spec fn to_american_in_range(self) -> bool {
        match self {
            Odds::Decimal(d) => {
                &&& (d.s28() >= 2 * pow10(28) ==> d2a_mul_in_range(d))
                &&& (pow10(28) < d.s28() < 2 * pow10(28) ==> d.s28() - pow10(28) >= 13)
            },
            _ => true,
        }
    }

    /// The machine limit of the plain fraction strategy applies when the held
    /// value is a decimal payout.
    pub open spec fn to_fractional_in_range(self, cfg: ConversionConfig) -> bool {
        match self {
            Odds::Decimal(d) => cfg.fraction_strategy is Plain && d.s28() > pow10(28)
                ==> plain_mul_in_range(d),
            _ => true,
        }
    }

    /// What converting to american odds yields.
    pub open spec fn to_american_spec(self, cfg: ConversionConfig) -> Result<i32, ConversionError> {
        match self {
            Odds::American(inner) => Ok(inner),
            Odds::Decimal(d) => decimal_to_american_custom_spec(d, cfg.rounding_strategy),
            Odds::Fractional { num, den } => fractional_to_american_custom_spec(
                num,
                den,
                cfg.rounding_strategy,
            ),
        }
    }

    /// Convert from decimal or fractional to american using custom
    /// parameters. If already american, just return the value.
    pub fn to_american_custom(&self, config: &ConversionConfig) -> (r: Result<i32, ConversionError>)
        requires
            self.wf(),
            self.to_american_in_range(),
        ensures
            r == self.to_american_spec(*config),
            self is American ==> r == Ok::<i32, ConversionError>(self->American_0),
    {
        match self {
            Odds::American(inner) => Ok(*inner),
            Odds::Decimal(decimal) => decimal_to_american_custom(*decimal, config),
            Odds::Fractional { num, den } => fractional_to_american_custom(*num, *den, config),
        }
    }

    /// Convert from decimal or fractional to american using default
    /// parameters. If already american, just return the value.
    pub fn to_american(&self) -> (r: Result<i32, ConversionError>)
        requires
            self.wf(),
            self.to_american_in_range(),
        ensures
            r == self.to_american_spec(ConversionConfig::standard()),
            self is American ==> r == Ok::<i32, ConversionError>(self->American_0),
    {
        self.to_american_custom(&ConversionConfig::default())
    }

    /// What converting to fractional odds yields.
    pub open spec fn to_fractional_spec(self, cfg: ConversionConfig) -> Result<
        (u32, u32),
        ConversionError,
    > {
        match self {
            Odds::American(inner) => american_to_fractional_custom_spec(inner, cfg),
            Odds::Decimal(d) => decimal_to_fractional_custom_spec(d, cfg),
            Odds::Fractional { num, den } => if den > 0 {
                Ok((num, den))
            } else {
                Err(ConversionError::DenominatorZero)
            },
        }
    }

    /// Convert from american or decimal to fractional using custom
    /// parameters. If already fractional, just return the value.
    pub fn to_fractional_custom(&self, config: &ConversionConfig) -> (r: Result<
        (u32, u32),
        ConversionError,
    >)
        requires
            self.wf(),
            self.to_fractional_in_range(*config),
        ensures
            r == self.to_fractional_spec(*config),
            (*self) matches Odds::Fractional { num, den } ==> (den > 0 ==> r == Ok::<
                (u32, u32),
                ConversionError,
            >((num, den))),
    {
        match self {
            Odds::American(inner) => american_to_fractional_custom(*inner, config),
            Odds::Decimal(decimal) => decimal_to_fractional_custom(*decimal, config),
            Odds::Fractional { num, den } => {
                if *den > 0 {
                    Ok((*num, *den))
                } else {
                    Err(ConversionError::DenominatorZero)
                }
            },
        }
    }

    /// Convert from american or decimal to fractional using default
    /// parameters. If already fractional, just return the value.
    pub fn to_fractional(&self) -> (r: Result<(u32, u32), ConversionError>)
        requires
            self.wf(),
        ensures
            r == self.to_fractional_spec(ConversionConfig::standard()),
            (*self) matches Odds::Fractional { num, den } ==> (den > 0 ==> r == Ok::<
                (u32, u32),
                ConversionError,
            >((num, den))),
    {
        self.to_fractional_custom(&ConversionConfig::default())
    }

    /// What converting to a decimal payout yields.
    pub open spec fn to_decimal_spec(self, cfg: ConversionConfig) -> Result<Dec, ConversionError> {
        match self {
            Odds::American(inner) => american_to_decimal_custom_spec(inner, cfg),
            Odds::Decimal(d) => if d.s28() > pow10(28) {
                Ok(d)
            } else {
                Err(ConversionError::InvalidDecimal)
            },
            Odds::Fractional { num, den } => fractional_to_decimal_spec(num, den),
        }
    }

    /// Convert from american or fractional to decimal using custom
    /// parameters. If already decimal, just return the value.
    pub fn to_decimal_custom(&self, config: &ConversionConfig) -> (r: Result<Dec, ConversionError>)
        requires
            self.wf(),
        ensures
            r == self.to_decimal_spec(*config),
            r is Ok ==> r->Ok_0.wf() && r->Ok_0.s28() >= pow10(28),
            (*self) matches Odds::Decimal(d) ==> (d.s28() > pow10(28) ==> r == Ok::<
                Dec,
                ConversionError,
            >(d)),
    {
        match self {
            Odds::American(inner) => american_to_decimal_custom(*inner, config),
            Odds::Decimal(decimal) => {
                if cmp_int(decimal, 1) > 0 {
                    Ok(*decimal)
                } else {
                    Err(ConversionError::InvalidDecimal)
                }
            },
            Odds::Fractional { num, den } => fractional_to_decimal(*num, *den),
        }
    }

    /// Convert from american or fractional to decimal using default
    /// parameters. If already decimal, just return the value.
    pub fn to_decimal(&self) -> (r: Result<Dec, ConversionError>)
        requires
            self.wf(),
        ensures
            r == self.to_decimal_spec(ConversionConfig::standard()),
            (*self) matches Odds::Decimal(d) ==> (d.s28() > pow10(28) ==> r == Ok::<
                Dec,
                ConversionError,
            >(d)),
    {
        self.to_decimal_custom(&ConversionConfig::default())
    }

    /// Convert to fractional using custom parameters (if already fractional,
    /// just take the value) and format as `num/den`.
    pub fn to_fractional_str_custom(&self, config: &ConversionConfig) -> (r: Result<
        String,
        ConversionError,
    >)
        requires
            self.wf(),
            self.to_fractional_in_range(*config),
        ensures
            match self.to_fractional_spec(*config) {
                Ok(f) => r is Ok && r->Ok_0@ == fraction_text(f.0 as nat, f.1 as nat),
                Err(e) => r == Err::<String, ConversionError>(e),
            },
    {
        let f = match self.to_fractional_custom(config) {
            Ok(f) => f,
            Err(e) => {
                return Err(e);
            },
        };
        Ok(fraction_string(f.0, f.1))
    }

    /// Convert to fractional using default parameters (if already fractional,
    /// just take the value) and format as `num/den`.
    pub fn to_fractional_str(&self) -> (r: Result<String, ConversionError>)
        requires
            self.wf(),
        ensures
            match self.to_fractional_spec(ConversionConfig::standard()) {
                Ok(f) => r is Ok && r->Ok_0@ == fraction_text(f.0 as nat, f.1 as nat),
                Err(e) => r == Err::<String, ConversionError>(e),
            },
    {
        self.to_fractional_str_custom(&ConversionConfig::default())
    }

    /// Convert to decimal using custom parameters (if already decimal, just
    /// take the value) and format with exactly two decimal places. The
    /// formatting always rounds half away from zero, whatever rounding
    /// strategy the configuration selects.
    pub fn to_decimal_str_custom(&self, config: &ConversionConfig) -> (r: Result<
        String,
        ConversionError,
    >)
        requires
            self.wf(),
        ensures
            match self.to_decimal_spec(*config) {
                Ok(d) => r is Ok && r->Ok_0@ == two_dp_text(
                    (round_s28(d.s28(), 2, RoundingStrategy::MidpointAwayFromZero) / pow10(
                        26,
                    )) as nat,
                ),
                Err(e) => r == Err::<String, ConversionError>(e),
            },
    {
        let d = match self.to_decimal_custom(config) {
            Ok(d) => d,
            Err(e) => {
                return Err(e);
            },
        };
        let rd = dec_round(&d, 2, RoundingStrategy::MidpointAwayFromZero);
        proof {
            crate::decimal::lemma_pow10_pos((28 - rd.s as int) as nat);
            crate::decimal::lemma_pow10_pos(26);
            crate::decimal::lemma_pow10_28();
            // Rounding a payout of at least one stays non-negative.
            crate::decimal::lemma_round_nonneg(
                d.s28(),
                2,
                RoundingStrategy::MidpointAwayFromZero,
            );
            assert(rd.m >= 0) by (nonlinear_arith)
                requires
                    (rd.m as int) * pow10((28 - rd.s as int) as nat) >= 0,
                    pow10((28 - rd.s as int) as nat) >= 1,
            ;
        }
        let f = pow10_i128(2 - rd.s);
        proof {
            crate::decimal::lemma_pow10_increases((2 - rd.s) as nat, 2);
            reveal_with_fuel(crate::decimal::pow10, 3);
            assert((rd.m as int) * f <= crate::decimal::MAX_MANTISSA * 100 && (rd.m as int) * f
                >= 0) by (nonlinear_arith)
                requires
                    0 <= rd.m <= crate::decimal::MAX_MANTISSA,
                    1 <= f <= 100,
            ;
        }
        let m2: i128 = rd.m * f;
        proof {
            // m2 is the rounded value scaled to two decimal places.
            crate::decimal::lemma_pow10_adds((2 - rd.s) as nat, 26);
            assert((2 - rd.s) as nat + 26nat == (28 - rd.s as int) as nat);
            assert(rd.s28() == m2 * pow10(26)) by (nonlinear_arith)
                requires
                    rd.s28() == (rd.m as int) * pow10((28 - rd.s as int) as nat),
                    pow10((28 - rd.s as int) as nat) == pow10((2 - rd.s as int) as nat) * pow10(26),
                    m2 == (rd.m as int) * pow10((2 - rd.s as int) as nat),
            ;
            vstd::arithmetic::mul::lemma_mul_is_commutative(m2 as int, pow10(26));
            vstd::arithmetic::div_mod::lemma_div_multiples_vanish(m2 as int, pow10(26));
            assert(rd.s28() / pow10(26) == m2);
        }
        Ok(two_dp_string(m2 as u128))
    }

    /// Convert to decimal using default parameters (if already decimal, just
    /// take the value) and format with exactly two decimal places.
    pub fn to_decimal_str(&self) -> (r: Result<String, ConversionError>)
        requires
            self.wf(),
        ensures
            match self.to_decimal_spec(ConversionConfig::standard()) {
                Ok(d) => r is Ok && r->Ok_0@ == two_dp_text(
                    (round_s28(d.s28(), 2, RoundingStrategy::MidpointAwayFromZero) / pow10(
                        26,
                    )) as nat,
                ),
                Err(e) => r == Err::<String, ConversionError>(e),
            },
    {
        self.to_decimal_str_custom(&ConversionConfig::default())
    }
}

impl From<i32> for Odds {
    fn from(value: i32) -> (r: Self) {
        Self::American(value)
    }
}

impl vstd::std_specs::convert::FromSpecImpl<i32> for Odds {
    open spec fn obeys_from_spec() -> bool {
        true
    }

    open spec fn from_spec(value: i32) -> Self {
        Odds::American(value)
    }
}

impl From<Dec> for Odds {
    fn from(value: Dec) -> (r: Self) {
        Self::Decimal(value)
    }
}

impl vstd::std_specs::convert::FromSpecImpl<Dec> for Odds {
    open spec fn obeys_from_spec() -> bool {
        true
    }

    open spec fn from_spec(value: Dec) -> Self {
        Odds::Decimal(value)
    }
}

impl From<(u32, u32)> for Odds {
    fn from(value: (u32, u32)) -> (r: Self) {
        Self::Fractional { num: value.0, den: value.1 }
    }
}

impl vstd::std_specs::convert::FromSpecImpl<(u32, u32)> for Odds {
    open spec fn obeys_from_spec() -> bool {
        true
    }

    open spec fn from_spec(value: (u32, u32)) -> Self {
        Odds::Fractional { num: value.0, den: value.1 }
    }
}

} // verus!
