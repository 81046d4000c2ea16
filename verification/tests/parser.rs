use yahoo_finance_metrics::fields::{parse, parse_value, ParseError, RawFieldSet};
use yahoo_finance_metrics::num::{parse_decimal, render_decimal, FixedDec};

fn raw(th: Option<&str>, dg: Option<&str>, tg: Option<&str>) -> RawFieldSet {
    RawFieldSet {
        total_holding: th.map(|s| s.as_bytes().to_vec()),
        daily_gain: dg.map(|s| s.as_bytes().to_vec()),
        total_gain: tg.map(|s| s.as_bytes().to_vec()),
    }
}

#[test]
fn full_scrape_parses_exactly() {
    let r = raw(Some("$10,000.00"), Some("-13.68 (-0.33%)"), Some("500.00 (5.25%)"));
    let m = parse(&r).unwrap();
    assert_eq!(m.total_holding_value, FixedDec::new(false, 1000000, 2));
    assert_eq!(m.daily_gain_value, FixedDec::new(true, 1368, 2));
    assert_eq!(m.daily_gain_percent_value, FixedDec::new(true, 33, 2));
    assert_eq!(m.total_gain_value, FixedDec::new(false, 50000, 2));
    assert_eq!(m.total_gain_percent_value, FixedDec::new(false, 525, 2));
}

#[test]
fn all_fragments_absent_is_no_usable_data() {
    let r = raw(None, None, None);
    assert_eq!(parse(&r), Err(ParseError::NoUsableData));
}

#[test]
fn all_fragments_garbage_is_no_usable_data() {
    let r = raw(Some("N/A"), Some("loading"), Some("--"));
    assert_eq!(parse(&r), Err(ParseError::NoUsableData));
}

#[test]
fn missing_fragments_default_to_zero() {
    let r = raw(None, Some("-13.68 (-0.33%)"), None);
    let m = parse(&r).unwrap();
    let zero = FixedDec::new(false, 0, 0);
    assert_eq!(m.total_holding_value, zero);
    assert_eq!(m.daily_gain_value, FixedDec::new(true, 1368, 2));
    assert_eq!(m.daily_gain_percent_value, FixedDec::new(true, 33, 2));
    assert_eq!(m.total_gain_value, zero);
    assert_eq!(m.total_gain_percent_value, zero);
}

#[test]
fn missing_token_defaults_only_that_field() {
    // the daily-gain fragment has no second token: the percent field alone
    // is zeroed
    let r = raw(Some("$1.00"), Some("-13.68"), Some("500.00 (5.25%)"));
    let m = parse(&r).unwrap();
    assert_eq!(m.daily_gain_value, FixedDec::new(true, 1368, 2));
    assert_eq!(m.daily_gain_percent_value, FixedDec::new(false, 0, 0));
    assert_eq!(m.total_gain_percent_value, FixedDec::new(false, 525, 2));
}

#[test]
fn parse_value_picks_token_and_trims() {
    let frag = "-13.68 (-0.33%)".as_bytes();
    assert_eq!(parse_value(Some(frag), 0, b"$,"), Some(FixedDec::new(true, 1368, 2)));
    assert_eq!(parse_value(Some(frag), 1, b"(%)"), Some(FixedDec::new(true, 33, 2)));
    assert_eq!(parse_value(Some(frag), 2, b"$,"), None);
    assert_eq!(parse_value(None, 0, b"$,"), None);
}

#[test]
fn parse_value_strips_thousands_separators() {
    let frag = "$1,234.56".as_bytes();
    assert_eq!(parse_value(Some(frag), 0, b"$,"), Some(FixedDec::new(false, 123456, 2)));
    let big = "$12,345,678".as_bytes();
    assert_eq!(parse_value(Some(big), 0, b"$,"), Some(FixedDec::new(false, 12345678, 0)));
}

#[test]
fn decimal_grammar_edges() {
    assert_eq!(parse_decimal(b"0"), Some(FixedDec::new(false, 0, 0)));
    assert_eq!(parse_decimal(b"-0.00"), Some(FixedDec::new(true, 0, 2)));
    assert_eq!(parse_decimal(b"+5.25"), Some(FixedDec::new(false, 525, 2)));
    assert_eq!(parse_decimal(b".5"), Some(FixedDec::new(false, 5, 1)));
    assert_eq!(parse_decimal(b"5."), Some(FixedDec::new(false, 5, 0)));
    assert_eq!(parse_decimal(b""), None);
    assert_eq!(parse_decimal(b"-"), None);
    assert_eq!(parse_decimal(b"."), None);
    assert_eq!(parse_decimal(b"1.2.3"), None);
    assert_eq!(parse_decimal(b"12a"), None);
    // 2^64 does not fit in the unscaled value; one less does
    assert_eq!(parse_decimal(b"18446744073709551616"), None);
    assert_eq!(
        parse_decimal(b"18446744073709551615"),
        Some(FixedDec::new(false, u64::MAX, 0))
    );
}

#[test]
fn render_decimal_canonical_text() {
    assert_eq!(render_decimal(&FixedDec::new(false, 1000000, 2)), b"10000.00".to_vec());
    assert_eq!(render_decimal(&FixedDec::new(true, 1368, 2)), b"-13.68".to_vec());
    assert_eq!(render_decimal(&FixedDec::new(true, 33, 2)), b"-0.33".to_vec());
    assert_eq!(render_decimal(&FixedDec::new(false, 5, 4)), b"0.0005".to_vec());
    assert_eq!(render_decimal(&FixedDec::new(false, 0, 0)), b"0".to_vec());
    assert_eq!(render_decimal(&FixedDec::new(false, 42, 0)), b"42".to_vec());
}
