//! The unified odds wrapper: construction from primitives, dispatching
//! conversions, and string formatting.

use oddsidizer::{ConversionConfig, ConversionError, Dec, Odds};

fn assert_decimal_ok_eq(a: Result<Dec, ConversionError>, expected: f64) {
    assert!(a.is_ok());
    let d = a.unwrap();
    let v = d.mantissa() as f64 / 10f64.powi(d.scale() as i32);
    assert!(
        (v - expected).abs() < 0.001,
        "Expected {} to be close to {}",
        v,
        expected
    );
}

#[test]
fn test_from_primitives_to_odds() {
    // From<i32>
    if let Odds::American(val) = Odds::from(150) {
        assert_eq!(val, 150);
    } else {
        panic!("Expected Odds::American");
    }

    // From<Dec>
    if let Odds::Decimal(val) = Odds::from(Dec::new(333, 2)) {
        assert_eq!(val.mantissa(), 333);
        assert_eq!(val.scale(), 2);
    } else {
        panic!("Expected Odds::Decimal");
    }

    // From<(u32, u32)>
    if let Odds::Fractional { num, den } = Odds::from((7u32, 2u32)) {
        assert_eq!(num, 7);
        assert_eq!(den, 2);
    } else {
        panic!("Expected Odds::Fractional");
    }
}

#[test]
fn test_from_odds_to_i32() {
    let american = Odds::American(-110);
    let decimal = Odds::Decimal(Dec::new(35, 1));
    let fractional = Odds::Fractional { num: 9, den: 1 };
    let invalid_decimal = Odds::Decimal(Dec::new(10, 1));

    assert_eq!(american.to_american(), Ok(-110));
    assert_eq!(decimal.to_american(), Ok(250));
    assert_eq!(fractional.to_american(), Ok(900));
    assert_eq!(
        invalid_decimal.to_american(),
        Err(ConversionError::InvalidDecimal)
    );
}

#[test]
fn test_from_odds_to_fractional_tuple() {
    let american = Odds::American(-150);
    let decimal = Odds::Decimal(Dec::new(125, 2));
    let fractional = Odds::Fractional { num: 9, den: 1 };
    let invalid_american = Odds::American(0);

    assert_eq!(american.to_fractional(), Ok((4, 6)));

    assert_eq!(
        american.to_fractional_custom(&ConversionConfig::default().no_lookup()),
        Ok((2, 3))
    );

    assert_eq!(decimal.to_fractional(), Ok((1, 4)));
    assert_eq!(fractional.to_fractional(), Ok((9, 1)));

    assert_eq!(
        invalid_american.to_fractional(),
        Err(ConversionError::AmericanZero)
    );
}

#[test]
fn test_from_odds_to_decimal() {
    let american = Odds::American(200);
    let decimal = Odds::Decimal(Dec::new(175, 2));
    let fractional = Odds::Fractional { num: 1, den: 2 };
    let invalid_american = Odds::American(0);

    assert_decimal_ok_eq(american.to_decimal(), 3.0);
    assert_decimal_ok_eq(decimal.to_decimal(), 1.75);
    assert_decimal_ok_eq(fractional.to_decimal(), 1.5);

    assert_eq!(
        invalid_american.to_decimal(),
        Err(ConversionError::AmericanZero)
    );
}

#[test]
fn test_to_fractional_str() {
    // From American
    assert_eq!(Odds::American(-200).to_fractional_str().unwrap(), "1/2");
    assert_eq!(Odds::American(250).to_fractional_str().unwrap(), "5/2");

    assert_eq!(Odds::American(-150).to_fractional_str().unwrap(), "4/6");

    assert_eq!(
        Odds::American(-150)
            .to_fractional_str_custom(&ConversionConfig::default().no_lookup())
            .unwrap(),
        "2/3"
    );

    // From Decimal
    assert_eq!(
        Odds::Decimal(Dec::new(15, 1)).to_fractional_str().unwrap(),
        "1/2"
    );
    assert_eq!(
        Odds::Decimal(Dec::new(35, 1)).to_fractional_str().unwrap(),
        "5/2"
    );
    assert_eq!(
        Odds::Decimal(Dec::new(225, 2)).to_fractional_str().unwrap(),
        "5/4"
    );

    // From Fractional (passthrough)
    assert_eq!(
        Odds::Fractional { num: 7, den: 2 }
            .to_fractional_str()
            .unwrap(),
        "7/2"
    );
    assert_eq!(
        Odds::Fractional { num: 1, den: 1 }
            .to_fractional_str()
            .unwrap(),
        "1/1"
    );

    // Error cases
    assert!(Odds::American(0).to_fractional_str().is_err());
    assert!(Odds::Decimal(Dec::new(9, 1)).to_fractional_str().is_err());
    assert!(Odds::Fractional { num: 1, den: 0 }
        .to_fractional_str()
        .is_err());
}

#[test]
fn test_to_decimal_str() {
    // From American
    assert_eq!(Odds::American(-500).to_decimal_str().unwrap(), "1.20");
    assert_eq!(Odds::American(200).to_decimal_str().unwrap(), "3.00");
    assert_eq!(Odds::American(-110).to_decimal_str().unwrap(), "1.91"); // Tests rounding

    // From Decimal
    assert_eq!(
        Odds::Decimal(Dec::new(40, 1)).to_decimal_str().unwrap(),
        "4.00"
    );
    assert_eq!(
        Odds::Decimal(Dec::new(275, 2)).to_decimal_str().unwrap(),
        "2.75"
    );
    assert_eq!(
        Odds::Decimal(Dec::new(13333, 4)).to_decimal_str().unwrap(),
        "1.33"
    ); // Tests rounding

    // From Fractional
    assert_eq!(
        Odds::Fractional { num: 1, den: 2 }
            .to_decimal_str()
            .unwrap(),
        "1.50"
    );
    assert_eq!(
        Odds::Fractional { num: 4, den: 1 }
            .to_decimal_str()
            .unwrap(),
        "5.00"
    );
    assert_eq!(
        Odds::Fractional { num: 2, den: 3 }
            .to_decimal_str()
            .unwrap(),
        "1.67"
    ); // Tests rounding

    // Error cases
    assert!(Odds::American(0).to_decimal_str().is_err());
    assert!(Odds::Decimal(Dec::new(-20, 1)).to_decimal_str().is_err());
    assert!(Odds::Fractional { num: 1, den: 0 }
        .to_decimal_str()
        .is_err());
}
