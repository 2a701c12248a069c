use school_sanctioned_gambling::text::{decimal_string, parse_dollar_amount};

#[test]
fn decimal_rendering() {
    assert_eq!(decimal_string(0), "0");
    assert_eq!(decimal_string(7), "7");
    assert_eq!(decimal_string(1234567890), "1234567890");
    assert_eq!(decimal_string(u64::MAX), u64::MAX.to_string());
}

#[test]
fn dollar_amounts_are_read_after_the_sign() {
    assert_eq!(parse_dollar_amount("Current Top Bet: $150"), Some(150));
    assert_eq!(parse_dollar_amount("Current Top Bet: $ 75 \nnext"), Some(75));
    assert_eq!(parse_dollar_amount("Top: $+8"), Some(8));
    assert_eq!(parse_dollar_amount("no sign here"), None);
    assert_eq!(parse_dollar_amount("Top: $abc"), None);
    assert_eq!(parse_dollar_amount("Top: $"), None);
    assert_eq!(parse_dollar_amount("Top: $99999999999999999999999"), None);
}
