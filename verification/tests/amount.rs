use payment_engine::amount::Amount;

#[test]
fn test_parse_whole_number() {
    let a = Amount::from_decimal_str("10").unwrap();
    assert_eq!(a, Amount::from_units(10));
    assert_eq!(a.raw_units(), 100_000);
}

#[test]
fn test_parse_fractional() {
    assert_eq!(Amount::from_decimal_str("1.5").unwrap().raw_units(), 15_000);
    assert_eq!(Amount::from_decimal_str("0.0001").unwrap().raw_units(), 1);
    assert_eq!(Amount::from_decimal_str("3.1415").unwrap().raw_units(), 31_415);
    assert_eq!(Amount::from_decimal_str("0.05").unwrap().raw_units(), 500);
}

#[test]
fn test_parse_rescales_to_four_digits_half_up() {
    assert_eq!(Amount::from_decimal_str("1.00005").unwrap().raw_units(), 10_001);
    assert_eq!(Amount::from_decimal_str("1.00004999").unwrap().raw_units(), 10_000);
    assert_eq!(Amount::from_decimal_str("0.99995").unwrap().raw_units(), 10_000);
    assert_eq!(Amount::from_decimal_str("2.123456").unwrap().raw_units(), 21_235);
}

#[test]
fn test_parse_rejects_malformed() {
    assert!(Amount::from_decimal_str("").is_none());
    assert!(Amount::from_decimal_str(".5").is_none());
    assert!(Amount::from_decimal_str("5.").is_none());
    assert!(Amount::from_decimal_str("-5").is_none());
    assert!(Amount::from_decimal_str("1.2.3").is_none());
    assert!(Amount::from_decimal_str("12a").is_none());
    assert!(Amount::from_decimal_str("1,5").is_none());
}

#[test]
fn test_parse_rejects_out_of_range() {
    // One more than the largest representable number of raw units.
    assert!(Amount::from_decimal_str("17014118346046923173168730371588410.5728").is_none());
    assert_eq!(
        Amount::from_decimal_str("17014118346046923173168730371588410.5727")
            .unwrap()
            .raw_units(),
        i128::MAX
    );
}

#[test]
fn test_render_trims_trailing_zeros() {
    assert_eq!(Amount::from_units(10).to_decimal_string(), "10");
    assert_eq!(Amount::from_raw_units(105_000).to_decimal_string(), "10.5");
    assert_eq!(Amount::from_raw_units(100_010).to_decimal_string(), "10.001");
    assert_eq!(Amount::from_raw_units(5).to_decimal_string(), "0.0005");
    assert_eq!(Amount::from_raw_units(0).to_decimal_string(), "0");
    assert_eq!(Amount::from_raw_units(31_415).to_decimal_string(), "3.1415");
}

#[test]
fn test_render_negative() {
    let a = Amount::from_raw_units(-5_000);
    assert!(a.is_negative());
    assert_eq!(a.to_decimal_string(), "-0.5");
    assert_eq!(Amount::from_units(-2).to_decimal_string(), "-2");
    assert!(!Amount::zero().is_negative());
}

#[test]
fn test_parse_render_round_trip() {
    for s in ["0.1", "12.34", "7", "0.0001", "99999.9999"] {
        let a = Amount::from_decimal_str(s).unwrap();
        assert_eq!(a.to_decimal_string(), s);
    }
}

#[test]
fn test_exact_arithmetic() {
    let a = Amount::from_decimal_str("0.1").unwrap();
    let mut sum = Amount::zero();
    for _ in 0..10 {
        sum = sum.add(a);
    }
    assert_eq!(sum, Amount::from_units(1));

    let b = Amount::from_units(3).sub(Amount::from_decimal_str("0.0001").unwrap());
    assert_eq!(b.raw_units(), 29_999);
    assert!(Amount::from_units(3).ge(&b));
    assert!(!b.ge(&Amount::from_units(3)));
}
