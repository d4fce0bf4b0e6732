use food_market::text::{parse_price_cents, parse_u32, trim, u64_to_string};

#[test]
fn parse_u32_accepts_plain_numbers() {
    assert_eq!(parse_u32("42"), Some(42));
    assert_eq!(parse_u32("0"), Some(0));
    assert_eq!(parse_u32("+7"), Some(7));
    assert_eq!(parse_u32("4294967295"), Some(u32::MAX));
}

#[test]
fn parse_u32_rejects_non_numbers() {
    assert_eq!(parse_u32(""), None);
    assert_eq!(parse_u32("+"), None);
    assert_eq!(parse_u32("abc"), None);
    assert_eq!(parse_u32("12x"), None);
    assert_eq!(parse_u32("-3"), None);
    assert_eq!(parse_u32("4294967296"), None);
    assert_eq!(parse_u32("99999999999999999999"), None);
}

#[test]
fn trim_strips_terminal_whitespace() {
    assert_eq!(trim("  alice \n"), "alice");
    assert_eq!(trim("bob"), "bob");
    assert_eq!(trim("\t a b \r\n"), "a b");
    assert_eq!(trim("   "), "");
    assert_eq!(trim(""), "");
}

#[test]
fn prices_parse_to_hundredths() {
    assert_eq!(parse_price_cents("12.5"), Some(1250));
    assert_eq!(parse_price_cents("12.50"), Some(1250));
    assert_eq!(parse_price_cents("7"), Some(700));
    assert_eq!(parse_price_cents("0.05"), Some(5));
    assert_eq!(parse_price_cents("0.5"), Some(50));
}

#[test]
fn bad_prices_are_rejected() {
    assert_eq!(parse_price_cents(""), None);
    assert_eq!(parse_price_cents("abc"), None);
    assert_eq!(parse_price_cents(".5"), None);
    assert_eq!(parse_price_cents("1."), None);
    assert_eq!(parse_price_cents("1.555"), None);
    assert_eq!(parse_price_cents("1.2.3"), None);
    assert_eq!(parse_price_cents("-1"), None);
}

#[test]
fn numbers_render_in_decimal() {
    assert_eq!(u64_to_string(0), "0");
    assert_eq!(u64_to_string(7), "7");
    assert_eq!(u64_to_string(1234), "1234");
    assert_eq!(u64_to_string(u64::MAX), "18446744073709551615");
}
