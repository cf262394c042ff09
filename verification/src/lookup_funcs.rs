//! Manual access to the lookup tables: the basic table is always consulted,
//! and the extended table as well when the configuration selects it.

use vstd::prelude::*;

use crate::config::{ConversionConfig, LookupVariant};
use crate::decimal::Dec;
use crate::lookup_tables::{
    american_to_fraction_basic, dec_key_of, dec_table_key, decimal_to_fraction_basic,
    decimal_to_fraction_extended, get_american_to_fraction_extended_map,
    get_american_to_fraction_map, get_decimal_to_fraction_extended_map,
    get_decimal_to_fraction_map,
};

verus! {

/// What the manual decimal-to-fraction lookup yields.
pub open spec fn manual_d2f_lookup(odds: Dec, config: ConversionConfig) -> Option<(u32, u32)> {
    match dec_key_of(odds) {
        None => None,
        Some(k) => if decimal_to_fraction_basic().contains_key(k) {
            Some(decimal_to_fraction_basic()[k])
        } else if config.lookup_tables_variant is Extended
            && decimal_to_fraction_extended().contains_key(k) {
            Some(decimal_to_fraction_extended()[k])
        } else {
            None
        },
    }
}

/// Manually look up the decimal-to-fractional table using the provided
/// configuration.
pub fn lookup_decimal_to_fraction_with_config(odds: Dec, config: ConversionConfig) -> (r: Option<
    (u32, u32),
>)
    requires
        odds.wf(),
    ensures
        r == manual_d2f_lookup(odds, config),
{
    let key_opt = dec_table_key(&odds);
    match key_opt {
        None => None,
        Some(k) => {
            let m = get_decimal_to_fraction_map();
            match m.get(&k) {
                Some(f) => Some(*f),
                None => {
                    if config.lookup_tables_variant == LookupVariant::Extended {
                        let mx = get_decimal_to_fraction_extended_map();
                        match mx.get(&k) {
                            Some(f) => Some(*f),
                            None => None,
                        }
                    } else {
                        None
                    }
                },
            }
        },
    }
}

/// Manually look up the decimal-to-fractional table using the default
/// configuration (no extended tables used).
pub fn lookup_decimal_to_fraction(odds: Dec) -> (r: Option<(u32, u32)>)
    requires
        odds.wf(),
    ensures
        r == manual_d2f_lookup(odds, ConversionConfig::standard()),
{
    lookup_decimal_to_fraction_with_config(odds, ConversionConfig::default())
}

/// What the manual american-to-fraction lookup yields.
pub open spec fn manual_a2f_lookup(odds: i32, config: ConversionConfig) -> Option<(u32, u32)> {
    if american_to_fraction_basic().contains_key(odds) {
        Some(american_to_fraction_basic()[odds])
    } else {
        None
    }
}

/// Manually look up the american-to-fractional table using the provided
/// configuration.
pub fn lookup_american_to_fraction_with_config(odds: i32, config: ConversionConfig) -> (r: Option<
    (u32, u32),
>)
    ensures
        r == manual_a2f_lookup(odds, config),
{
    let m = get_american_to_fraction_map();
    match m.get(&odds) {
        Some(f) => Some(*f),
        None => {
            if config.lookup_tables_variant == LookupVariant::Extended {
                let mx = get_american_to_fraction_extended_map();
                match mx.get(&odds) {
                    Some(f) => Some(*f),
                    None => None,
                }
            } else {
                None
            }
        },
    }
}

/// Manually look up the american-to-fractional table using the default
/// configuration (no extended tables used).
pub fn lookup_american_to_fraction(odds: i32) -> (r: Option<(u32, u32)>)
    ensures
        r == manual_a2f_lookup(odds, ConversionConfig::standard()),
{
    lookup_american_to_fraction_with_config(odds, ConversionConfig::default())
}

} // verus!
