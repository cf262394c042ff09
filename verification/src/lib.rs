//! Conversion of betting odds between American (moneyline), Decimal and
//! Fractional notations, with curated lookup tables for common values, a
//! continued-fraction rational approximation for decimal-to-fraction
//! conversion, and configurable rounding.

pub mod config;
pub mod convert;
pub mod laws;
pub mod decimal;
pub mod distance;
pub mod lookup_funcs;
pub mod lookup_tables;
pub mod odds;
pub mod text;

pub use config::{ConversionConfig, FractionStrategy, LookupVariant};
pub use convert::{
    american_to_decimal, american_to_decimal_custom, american_to_fractional,
    american_to_fractional_custom, decimal_to_american, decimal_to_american_custom,
    decimal_to_fractional, decimal_to_fractional_custom, decimal_to_fractional_plain,
    decimal_to_fractional_simplify, fractional_to_american, fractional_to_american_custom,
    fractional_to_decimal, normalize_american_odds, ConversionError,
};
pub use decimal::{Dec, RoundingStrategy};
pub use distance::RaceDistance;
pub use lookup_funcs::{
    lookup_american_to_fraction, lookup_american_to_fraction_with_config,
    lookup_decimal_to_fraction, lookup_decimal_to_fraction_with_config,
};
pub use lookup_tables::{
    get_american_to_decimal_extended_map, get_american_to_decimal_map,
    get_american_to_fraction_extended_map, get_american_to_fraction_map,
    get_decimal_to_fraction_extended_map, get_decimal_to_fraction_map,
};
pub use odds::Odds;
