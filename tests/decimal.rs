use chain_tx::decimal::{parse_u128_decimal, u128_to_decimal};

#[test]
fn transfer_deposit_as_decimal_text() {
    let text = u128_to_decimal(1_000_000_000);
    assert_eq!(text, "1000000000");
    assert_eq!(parse_u128_decimal(&text), Some(1_000_000_000));
    let json = serde_json::to_string(&text).unwrap();
    assert_eq!(json, "\"1000000000\"");
}

#[test]
fn decimal_extremes() {
    assert_eq!(u128_to_decimal(0), "0");
    assert_eq!(u128_to_decimal(7), "7");
    assert_eq!(u128_to_decimal(u128::MAX), u128::MAX.to_string());
    assert_eq!(u128_to_decimal(u64::MAX as u128), "18446744073709551615");
    for x in [0u128, 9, 10, 99, 100, 1 << 53, (1 << 53) + 1, u128::MAX - 1, u128::MAX] {
        assert_eq!(parse_u128_decimal(&u128_to_decimal(x)), Some(x));
    }
}

#[test]
fn decimal_parse_rejects() {
    assert_eq!(parse_u128_decimal(""), None);
    assert_eq!(parse_u128_decimal("12a"), None);
    assert_eq!(parse_u128_decimal("+1"), None);
    assert_eq!(parse_u128_decimal("-1"), None);
    assert_eq!(parse_u128_decimal("340282366920938463463374607431768211456"), None);
    assert_eq!(parse_u128_decimal("007"), Some(7));
}
