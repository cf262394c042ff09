//! Conversion settings: which lookup tables to consult, how fractions are
//! computed, and which rounding rule decimal roundings use.

use vstd::prelude::*;

use crate::decimal::RoundingStrategy;

verus! {

#[derive(Debug, Clone, Copy, PartialEq, Eq, Structural)]
pub enum FractionStrategy {
    /// Plain method (less precise, but faster; for example 1.33 gives 33/100
    /// instead of 1/3).
    ///
    /// Leaving lookup enabled can still return simplified fractions (for
    /// example 1.33 -> 1/3) from the lookup tables.
    Plain,
    /// Continued-fraction algorithm for better precision and simple fractions
    /// (1.33 gives 1/3 instead of 33/100).
    Simplify,
}

#[derive(Debug, Clone, Copy, PartialEq, Eq, Structural)]
pub enum LookupVariant {
    /// No lookup.
    Disabled,
    /// Basic lookup for common values, whose entries usually sit close to
    /// the computed result.
    Basic,
    /// Extended lookup: covers more values but also gives more rounded
    /// results, for example 1.0013 -> 1/750 instead of 1/768.
    Extended,
}

/// Configuration for conversion functions.
#[derive(Debug, Clone, Copy)]
pub struct ConversionConfig {
    /// Use lookup tables first for conversion, then fall back to regular
    /// computation. With lookup enabled, conversion from 1.67 or -150 gives
    /// 4/6 instead of 2/3.
    pub lookup_tables_variant: LookupVariant,
    /// Fraction computing strategy.
    pub fraction_strategy: FractionStrategy,
    /// Rounding rule for decimal roundings.
    pub rounding_strategy: RoundingStrategy,
}

impl ConversionConfig {
    /// The standard settings: basic lookup, simplified fractions, and
    /// round-half-away-from-zero.
    pub open spec fn standard() -> ConversionConfig {
        ConversionConfig {
            lookup_tables_variant: LookupVariant::Basic,
            fraction_strategy: FractionStrategy::Simplify,
            rounding_strategy: RoundingStrategy::MidpointAwayFromZero,
        }
    }
}

impl Default for ConversionConfig {
    /// Provides standard settings: lookup enabled, fractions simplified, and
    /// the midpoint-away-from-zero rounding strategy.
    fn default() -> (r: Self)
        ensures
            r == ConversionConfig::standard(),
    {
        ConversionConfig {
            lookup_tables_variant: LookupVariant::Basic,
            fraction_strategy: FractionStrategy::Simplify,
            rounding_strategy: RoundingStrategy::MidpointAwayFromZero,
        }
    }
}

impl ConversionConfig {
    pub fn no_lookup(self) -> (r: Self)
        ensures
            r == (ConversionConfig { lookup_tables_variant: LookupVariant::Disabled, ..self }),
    {
        ConversionConfig { lookup_tables_variant: LookupVariant::Disabled, ..self }
    }

    pub fn extended_lookup(self) -> (r: Self)
        ensures
            r == (ConversionConfig { lookup_tables_variant: LookupVariant::Extended, ..self }),
    {
        ConversionConfig { lookup_tables_variant: LookupVariant::Extended, ..self }
    }

    pub fn plain_fraction_strategy(self) -> (r: Self)
        ensures
            r == (ConversionConfig { fraction_strategy: FractionStrategy::Plain, ..self }),
    {
        ConversionConfig { fraction_strategy: FractionStrategy::Plain, ..self }
    }

    pub fn fraction_strategy(self, strategy: FractionStrategy) -> (r: Self)
        ensures
            r == (ConversionConfig { fraction_strategy: strategy, ..self }),
    {
        ConversionConfig { fraction_strategy: strategy, ..self }
    }

    pub fn rounding_strategy(self, strategy: RoundingStrategy) -> (r: Self)
        ensures
            r == (ConversionConfig { rounding_strategy: strategy, ..self }),
    {
        ConversionConfig { rounding_strategy: strategy, ..self }
    }
}

} // verus!
