use tollgrid::Currency;

#[test]
fn zero_currency() {
    let currency = Currency::zero();
    assert_eq!(currency.value, 0);
    assert_eq!(currency.cents, 0);
}

#[test]
fn currency_from_str_handles_integer_values() {
    let currency = Currency::from_str("123").unwrap();
    assert_eq!(currency.value, 123);
    assert_eq!(currency.cents, 0);
}

#[test]
fn currency_from_str_handles_fractional_values() {
    let currency = Currency::from_str("123.45").unwrap();
    assert_eq!(currency.value, 123);
    assert_eq!(currency.cents, 45);
}

#[test]
fn currency_display_handles_integer_values() {
    let currency = Currency::new(123, 0);
    assert_eq!(currency.to_text(), "123");
}

#[test]
fn currency_display_handles_fractional_values() {
    let currency = Currency::new(123, 45);
    assert_eq!(currency.to_text(), "123.45");
}

#[test]
fn serialize_currency_with_cents() {
    let currency = Currency::new(12, 34);
    let serialized = currency.to_json();
    assert_eq!(serialized, "12.34");
}

#[test]
fn serialize_currency_with_cents2() {
    let currency = Currency::new(12, 04);
    let serialized = currency.to_json();
    assert_eq!(serialized, "12.04");
}

#[test]
fn serialize_currency_without_cents() {
    let currency = Currency::new(100, 0);
    let serialized = currency.to_json();
    assert_eq!(serialized, "100");
}

#[test]
fn deserialize_currency_with_cents() {
    let currency = Currency::from_str("9.2").unwrap();
    assert_eq!(currency.value, 9);
    assert_eq!(currency.cents, 20);
}

#[test]
fn deserialize_currency_without_cents() {
    let currency = Currency::from_str("100").unwrap();
    assert_eq!(currency.value, 100);
    assert_eq!(currency.cents, 0);
}

#[test]
fn round_trip_single_fractional_digit() {
    let currency = Currency::from_str("1.3").unwrap();
    assert_eq!(currency.value, 1);
    assert_eq!(currency.cents, 30);
    let text = currency.to_json();
    assert_eq!(text, "1.3");
    let again = Currency::from_str(&text).unwrap();
    assert_eq!(again, currency);
}

#[test]
fn round_trip_two_fractional_digits() {
    let texts = ["0", "0.5", "12.04", "12.34", "1.30", "65535.99", "007"];
    for t in texts {
        let c = Currency::from_str(t).unwrap();
        let again = Currency::from_str(&c.to_json()).unwrap();
        assert_eq!(again, c, "round trip failed for {t}");
        assert_eq!(
            again.value as u32 * 100 + again.cents as u32,
            c.value as u32 * 100 + c.cents as u32
        );
    }
}

#[test]
fn equal_amounts_from_different_digit_counts() {
    let a = Currency::from_str("1.3").unwrap();
    let b = Currency::from_str("1.30").unwrap();
    assert_eq!(a, b);
    assert_eq!(a.to_json(), b.to_json());
}

#[test]
fn integral_amount_has_no_decimal_point() {
    let c = Currency::from_str("42").unwrap();
    assert!(!c.to_json().contains('.'));
    let d = Currency::new(7, 50);
    assert!(d.to_json().contains('.'));
    assert_eq!(d.to_json(), "7.5");
}

#[test]
fn from_str_rejects_bad_text() {
    assert!(Currency::from_str("abc").is_err());
    assert!(Currency::from_str("").is_err());
    assert!(Currency::from_str("1.").is_err());
    assert!(Currency::from_str("1.234").is_err());
    assert!(Currency::from_str(".5").is_err());
    assert!(Currency::from_str("70000").is_err());
    assert!(Currency::from_str("-1").is_err());
    assert!(Currency::from_str("1,5").is_err());
    assert!(Currency::from_str("1.2.3").is_err());
}

#[test]
fn from_hundredths_splits() {
    let c = Currency::from_hundredths(150);
    assert_eq!(c.value, 1);
    assert_eq!(c.cents, 50);
    assert_eq!(c.to_text(), "1.5");
}
