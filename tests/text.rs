use dropcamp_exporter::text::{centi_text_of, join, u128_text, u64_text};

#[test]
fn decimal_text_of_numbers() {
    assert_eq!(u64_text(0), "0");
    assert_eq!(u64_text(42), "42");
    assert_eq!(u128_text(u128::MAX), "340282366920938463463374607431768211455");
}

#[test]
fn centi_text_has_two_places() {
    assert_eq!(centi_text_of(0), "0.00");
    assert_eq!(centi_text_of(5), "0.05");
    assert_eq!(centi_text_of(1234), "12.34");
    assert_eq!(centi_text_of(10000), "100.00");
}

#[test]
fn join_puts_separator_between() {
    let items = vec!["a".to_string(), "b".to_string(), "c".to_string()];
    assert_eq!(join(&items, ","), "a,b,c");
    assert_eq!(join(&vec!["x".to_string()], ","), "x");
    assert_eq!(join(&Vec::new(), ","), "");
}
