use prettystrict::Number;

fn n(s: &str) -> Number {
    Number::parse(s).unwrap()
}

#[test]
fn parse_number_fields() {
    assert_eq!(n("12.50"), Number { negative: false, mantissa: 1250, scale: 2 });
    assert_eq!(n("-.5"), Number { negative: true, mantissa: 5, scale: 1 });
    assert_eq!(n("007"), Number { negative: false, mantissa: 7, scale: 0 });
    assert_eq!(Number::parse("1."), None);
    assert_eq!(Number::parse(""), None);
    assert_eq!(Number::parse("-"), None);
    assert_eq!(Number::parse("1e5"), None);
    assert_eq!(Number::parse("1.2.3"), None);
    assert_eq!(Number::parse("18446744073709551615"), Some(Number {
        negative: false,
        mantissa: u64::MAX,
        scale: 0,
    }));
    assert_eq!(Number::parse("18446744073709551616"), None);
}

#[test]
fn number_order_is_numeric() {
    assert!(n("0.5").le(&n("0.50")));
    assert!(n("0.50").le(&n("0.5")));
    assert!(n("-1").le(&n("0")));
    assert!(!n("0").le(&n("-1")));
    assert!(n("-0").le(&n("0")) && n("0").le(&n("-0")));
    assert!(n("-2.5").le(&n("-2.4")));
    assert!(!n("-2.4").le(&n("-2.5")));
    assert!(n("999.999").le(&n("1000")));
    assert!(!n("1000.0001").le(&n("1000")));
    assert!(n("0.000000000000000000000001").le(&n("0.00000000000000000000001")));
    assert!(!n("18446744073709551615").le(&n("0.000000000000000000001")));
}
