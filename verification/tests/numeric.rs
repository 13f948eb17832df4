use iroha_ledger::numeric::{Numeric, NumericError, NumericSpec};

#[test]
fn sum_takes_the_larger_scale() {
    let a = Numeric::new(15, 1);
    let b = Numeric::new(2, 0);
    assert_eq!(a.checked_add(b), Some(Numeric::new(35, 1)));
    assert_eq!(b.checked_add(a), Some(Numeric::new(35, 1)));
}

#[test]
fn difference_takes_the_larger_scale() {
    let a = Numeric::new(2, 0);
    let b = Numeric::new(15, 1);
    assert_eq!(a.checked_sub(b), Some(Numeric::new(5, 1)));
    assert_eq!(b.checked_sub(a), None);
}

#[test]
fn sum_that_overflows_is_none() {
    let a = Numeric::new(u128::MAX, 0);
    assert_eq!(a.checked_add(Numeric::new(1, 0)), None);
    assert_eq!(a.checked_add(Numeric::new(0, 1)), None);
    assert_eq!(a.checked_add(Numeric::new(0, 0)), Some(a));
}

#[test]
fn difference_to_zero_is_zero() {
    let a = Numeric::new(60, 1);
    let r = a.checked_sub(Numeric::new(6, 0)).unwrap();
    assert!(r.is_zero());
    assert_eq!(r, Numeric::new(0, 1));
}

#[test]
fn scale_is_bounded() {
    assert_eq!(Numeric::try_new(1, 38), Ok(Numeric::new(1, 38)));
    assert_eq!(Numeric::try_new(1, 39), Err(NumericError::ScaleTooBig));
}

#[test]
fn spec_checks_the_scale() {
    let two_digits = NumericSpec::fractional(2);
    assert!(two_digits.check(&Numeric::new(125, 2)).is_ok());
    assert!(two_digits.check(&Numeric::new(125, 3)).is_err());
    assert!(NumericSpec::integer().check(&Numeric::new(7, 0)).is_ok());
    assert!(NumericSpec::integer().check(&Numeric::new(7, 1)).is_err());
    assert!(NumericSpec::unconstrained().check(&Numeric::new(7, 38)).is_ok());
    assert_eq!(NumericSpec::default(), NumericSpec::Unconstrained);
}

#[test]
fn quantities_are_read_from_decimal_digits() {
    assert_eq!(Numeric::from_str("0"), Some(Numeric::new(0, 0)));
    assert_eq!(Numeric::from_str("30"), Some(Numeric::new(30, 0)));
    assert_eq!(Numeric::from_str("30.0"), Some(Numeric::new(300, 1)));
    assert_eq!(Numeric::from_str("0.125"), Some(Numeric::new(125, 3)));
    assert_eq!(Numeric::from_str("007.50"), Some(Numeric::new(750, 2)));
    assert_eq!(
        Numeric::from_str("340282366920938463463374607431768211455"),
        Some(Numeric::new(u128::MAX, 0))
    );
    assert_eq!(
        Numeric::from_str("3.40282366920938463463374607431768211455"),
        Some(Numeric::new(u128::MAX, 38))
    );
    assert_eq!(Numeric::from_str("340282366920938463463374607431768211456"), None);
    assert_eq!(Numeric::from_str("0.000000000000000000000000000000000000001"), None);
    assert_eq!(Numeric::from_str(""), None);
    assert_eq!(Numeric::from_str("."), None);
    assert_eq!(Numeric::from_str("1."), None);
    assert_eq!(Numeric::from_str(".5"), None);
    assert_eq!(Numeric::from_str("1.2.3"), None);
    assert_eq!(Numeric::from_str("-1"), None);
    assert_eq!(Numeric::from_str("+1"), None);
    assert_eq!(Numeric::from_str("1e3"), None);
    assert_eq!(Numeric::from_str("1 "), None);
    assert_eq!(Numeric::from_str("١"), None);
}

#[test]
fn quantities_are_written_in_decimal_digits() {
    assert_eq!(Numeric::new(0, 0).to_string(), "0");
    assert_eq!(Numeric::new(30, 0).to_string(), "30");
    assert_eq!(Numeric::new(300, 1).to_string(), "30.0");
    assert_eq!(Numeric::new(125, 3).to_string(), "0.125");
    assert_eq!(Numeric::new(5, 1).to_string(), "0.5");
    assert_eq!(Numeric::new(0, 2).to_string(), "0.00");
    assert_eq!(Numeric::new(u128::MAX, 38).to_string(), "3.40282366920938463463374607431768211455");
    assert_eq!(Numeric::new(1, 38).to_string(), "0.00000000000000000000000000000000000001");
    for text in ["0", "12.50", "0.001", "99999"] {
        assert_eq!(Numeric::from_str(text).unwrap().to_string(), text);
    }
}
