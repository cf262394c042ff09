//! The conversion engine, exercised on the values its users care about:
//! favorites, underdogs, edge cases and invalid input.

use oddsidizer::{
    american_to_decimal, american_to_decimal_custom, american_to_fractional,
    american_to_fractional_custom, decimal_to_american, decimal_to_fractional,
    decimal_to_fractional_custom, fractional_to_american, fractional_to_decimal,
    normalize_american_odds, ConversionConfig, ConversionError, Dec,
};

fn assert_decimal_eq(d: Dec, expected: f64) {
    let v = d.mantissa() as f64 / 10f64.powi(d.scale() as i32);
    assert!(
        (v - expected).abs() < 0.001,
        "Expected {} to be close to {}",
        v,
        expected
    );
}

#[test]
fn test_american_to_decimal() {
    // Real-world examples (Favorites)
    assert_decimal_eq(american_to_decimal(-110).unwrap(), 1.91);

    assert_decimal_eq(american_to_decimal(-150).unwrap(), 1.67);

    assert_decimal_eq(
        american_to_decimal_custom(-150, &ConversionConfig::default().no_lookup()).unwrap(),
        1.666,
    );

    assert_decimal_eq(american_to_decimal(-200).unwrap(), 1.5);
    assert_decimal_eq(american_to_decimal(-500).unwrap(), 1.2);

    // Real-world examples (Underdogs)
    assert_decimal_eq(american_to_decimal(100).unwrap(), 2.0);
    assert_decimal_eq(american_to_decimal(250).unwrap(), 3.5);
    assert_decimal_eq(american_to_decimal(900).unwrap(), 10.0);
    assert_decimal_eq(american_to_decimal(1200).unwrap(), 13.0);

    // Unrealistic / Edge cases
    assert_decimal_eq(american_to_decimal(50000).unwrap(), 501.0);
    assert_decimal_eq(american_to_decimal(-50000).unwrap(), 1.002);

    // Invalid cases
    assert!(american_to_decimal(0).is_err());
}

#[test]
fn test_fractional_to_decimal() {
    // Real-world examples (Favorites)
    assert_decimal_eq(fractional_to_decimal(1, 2).unwrap(), 1.5);
    assert_decimal_eq(fractional_to_decimal(4, 5).unwrap(), 1.8);
    assert_decimal_eq(fractional_to_decimal(2, 3).unwrap(), 1.666);

    // Real-world examples (Underdogs)
    assert_decimal_eq(fractional_to_decimal(1, 1).unwrap(), 2.0);
    assert_decimal_eq(fractional_to_decimal(5, 2).unwrap(), 3.5);
    assert_decimal_eq(fractional_to_decimal(20, 1).unwrap(), 21.0);
    assert_decimal_eq(fractional_to_decimal(9, 5).unwrap(), 2.8);

    // Unrealistic / Edge cases
    assert_decimal_eq(fractional_to_decimal(1000, 1).unwrap(), 1001.0);
    assert_decimal_eq(fractional_to_decimal(1, 1000).unwrap(), 1.001);
    assert_decimal_eq(fractional_to_decimal(0, 1).unwrap(), 1.0);

    // Invalid cases
    assert!(fractional_to_decimal(10, 0).is_err());
}

#[test]
fn test_decimal_to_american() {
    // Real-world examples (Favorites: > 1 and < 2)
    assert_eq!(decimal_to_american(Dec::new(15, 1)).unwrap(), -200);
    assert_eq!(decimal_to_american(Dec::new(12, 1)).unwrap(), -500);
    assert_eq!(decimal_to_american(Dec::new(18, 1)).unwrap(), -125);
    assert_eq!(decimal_to_american(Dec::new(1666, 3)).unwrap(), -150);

    // Real-world examples (Underdogs: >= 2)
    assert_eq!(decimal_to_american(Dec::new(20, 1)).unwrap(), 100);
    assert_eq!(decimal_to_american(Dec::new(35, 1)).unwrap(), 250);
    assert_eq!(decimal_to_american(Dec::new(100, 1)).unwrap(), 900);
    assert_eq!(decimal_to_american(Dec::new(210, 1)).unwrap(), 2000);

    // Normalization path (a decimal that gives american odds between -99 and 99):
    // 1.05 -> +5, which is normalized to -2000.
    assert_eq!(decimal_to_american(Dec::new(105, 2)).unwrap(), -2000);

    // Unrealistic / Edge cases
    assert_eq!(decimal_to_american(Dec::new(5010, 1)).unwrap(), 50000);
    assert_eq!(decimal_to_american(Dec::new(1002, 3)).unwrap(), -50000);

    // Invalid cases
    assert!(decimal_to_american(Dec::new(10, 1)).is_err());
    assert!(decimal_to_american(Dec::new(99, 2)).is_err());
    assert!(decimal_to_american(Dec::new(-50, 1)).is_err());
}

#[test]
fn test_fractional_to_american() {
    // Real-world examples (Favorites)
    assert_eq!(fractional_to_american(1, 2).unwrap(), -200);
    assert_eq!(fractional_to_american(2, 3).unwrap(), -150);
    assert_eq!(fractional_to_american(4, 5).unwrap(), -125);

    // Real-world examples (Underdogs)
    assert_eq!(fractional_to_american(1, 1).unwrap(), 100);
    assert_eq!(fractional_to_american(5, 2).unwrap(), 250);
    assert_eq!(fractional_to_american(9, 1).unwrap(), 900);
    assert_eq!(fractional_to_american(30, 1).unwrap(), 3000);

    // Unrealistic / Edge cases
    assert_eq!(fractional_to_american(1000, 1).unwrap(), 100000);
    assert_eq!(fractional_to_american(1, 1000).unwrap(), -100000);
    assert_eq!(fractional_to_american(1, 20).unwrap(), -2000); // tests normalization path

    // Invalid cases
    assert_eq!(
        fractional_to_american(10, 0),
        Err(ConversionError::DenominatorZero)
    );
}

#[test]
fn test_american_to_fractional() {
    // Real-world examples (Favorites)
    assert_eq!(american_to_fractional(-200), Ok((1, 2)));
    assert_eq!(american_to_fractional(-500), Ok((1, 5)));

    // Traditional UK fraction
    assert_eq!(american_to_fractional(-150), Ok((4, 6)));

    // The same without the lookup table
    assert_eq!(
        american_to_fractional_custom(-150, &ConversionConfig::default().no_lookup()),
        Ok((2, 3))
    );

    // Real-world examples (Underdogs)
    assert_eq!(american_to_fractional(100), Ok((1, 1)));
    assert_eq!(american_to_fractional(250), Ok((5, 2)));
    assert_eq!(american_to_fractional(900), Ok((9, 1)));
    assert_eq!(american_to_fractional(1200), Ok((12, 1)));

    // Unrealistic / Edge cases
    assert_eq!(american_to_fractional(50000), Ok((500, 1)));
    assert_eq!(american_to_fractional(-110), Ok((10, 11))); // common case
    assert_eq!(american_to_fractional(-1000), Ok((1, 10)));

    // Invalid cases
    assert_eq!(
        american_to_fractional(0),
        Err(ConversionError::AmericanZero)
    );
}

#[test]
fn test_decimal_to_fractional() {
    assert_eq!(decimal_to_fractional(Dec::new(13, 1)), Ok((3, 10)));
    assert_eq!(decimal_to_fractional(Dec::new(133, 2)), Ok((1, 3)));
    assert_eq!(decimal_to_fractional(Dec::new(1333, 3)), Ok((1, 3)));
    assert_eq!(decimal_to_fractional(Dec::new(13333, 4)), Ok((1, 3)));
    assert_eq!(decimal_to_fractional(Dec::new(13337, 4)), Ok((1, 3)));
    assert_eq!(decimal_to_fractional(Dec::new(125, 2)), Ok((1, 4)));
    assert_eq!(decimal_to_fractional(Dec::new(41, 1)), Ok((31, 10)));
    assert_eq!(decimal_to_fractional(Dec::new(1005, 1)), Ok((199, 2)));

    // Gives 1/3 from the lookup tables
    assert_eq!(
        decimal_to_fractional_custom(
            Dec::new(133, 2),
            &ConversionConfig::default().plain_fraction_strategy()
        ),
        Ok((1, 3))
    );

    // Gives 33/100 with lookup tables disabled
    assert_eq!(
        decimal_to_fractional_custom(
            Dec::new(133, 2),
            &ConversionConfig::default()
                .plain_fraction_strategy()
                .no_lookup()
        ),
        Ok((33, 100))
    );

    // No lookup entry for 1.333
    assert_eq!(
        decimal_to_fractional_custom(
            Dec::new(1333, 3),
            &ConversionConfig::default().plain_fraction_strategy()
        ),
        Ok((333, 1000))
    );

    // Additional real-world cases
    assert_eq!(decimal_to_fractional(Dec::new(15, 1)), Ok((1, 2)));
    assert_eq!(decimal_to_fractional(Dec::new(20, 1)), Ok((1, 1)));
    assert_eq!(decimal_to_fractional(Dec::new(35, 1)), Ok((5, 2)));
    assert_eq!(decimal_to_fractional(Dec::new(18, 1)), Ok((4, 5)));
    assert_eq!(decimal_to_fractional(Dec::new(110, 1)), Ok((10, 1)));

    // Edge cases
    assert_eq!(decimal_to_fractional(Dec::new(1001, 3)), Ok((1, 1000)));
    assert_eq!(
        decimal_to_fractional(Dec::new(10, 1)),
        Err(ConversionError::InvalidDecimal)
    );
}

#[test]
fn test_normalize_american_odds() {
    // Should not change
    assert_eq!(normalize_american_odds(100), 100);
    assert_eq!(normalize_american_odds(-100), -100);
    assert_eq!(normalize_american_odds(500), 500);
    assert_eq!(normalize_american_odds(-500), -500);
    assert_eq!(normalize_american_odds(0), 0);

    // Positive values < 100 should become negative
    assert_eq!(normalize_american_odds(50), -200);
    assert_eq!(normalize_american_odds(20), -500);
    assert_eq!(normalize_american_odds(1), -10000);
    assert_eq!(normalize_american_odds(99), -101);

    // Negative values > -100 should become positive
    assert_eq!(normalize_american_odds(-50), 200);
    assert_eq!(normalize_american_odds(-20), 500);
    assert_eq!(normalize_american_odds(-1), 10000);
    assert_eq!(normalize_american_odds(-99), 101);
}
