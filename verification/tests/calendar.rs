use yahoo_finance_metrics::exchange::{
    get_exchange_info, is_exchange_open, is_open_at, Exchange, ExchangeError,
};

// 2024-01-10 00:00:00 UTC, a Wednesday.
const WED_MIDNIGHT_UTC: i64 = 1704844800;
// 2024-01-13 00:00:00 UTC, a Saturday.
const SAT_MIDNIGHT_UTC: i64 = 1705104000;

#[test]
fn lookup_unknown_exchange() {
    assert_eq!(get_exchange_info("FOOEX"), Err(ExchangeError::UnknownExchange));
    assert_eq!(get_exchange_info(""), Err(ExchangeError::UnknownExchange));
    assert_eq!(get_exchange_info("nyse"), Err(ExchangeError::UnknownExchange));
}

#[test]
fn lookup_known_exchanges() {
    let nyse = get_exchange_info("NYSE").unwrap();
    assert_eq!(nyse.exchange, Exchange::NYSE);
    assert_eq!(nyse.open_minute, 570);
    assert_eq!(nyse.close_minute, 960);
    let lse = get_exchange_info("LSE").unwrap();
    assert_eq!(lse.open_minute, 480);
    assert_eq!(lse.close_minute, 960);
    let tse = get_exchange_info("TSE").unwrap();
    assert_eq!(tse.close_minute, 900);
    assert!(get_exchange_info("NASDAQ").is_ok());
    assert!(get_exchange_info("TSX").is_ok());
}

#[test]
fn exchange_metadata() {
    assert_eq!(Exchange::NYSE.name(), "NYSE");
    assert_eq!(Exchange::NYSE.time_zone_name(), "America/New_York");
    assert_eq!(Exchange::TSE.time_zone_name(), "Asia/Tokyo");
    assert_eq!(Exchange::all().len(), 5);
}

#[test]
fn nyse_open_wednesday_morning() {
    // 10:00 in New York (EST, UTC-5) is 15:00 UTC
    let at = WED_MIDNIGHT_UTC + 15 * 3600;
    assert_eq!(is_exchange_open("NYSE", at), Ok(true));
}

#[test]
fn nyse_closed_wednesday_evening() {
    // 17:00 in New York is 22:00 UTC
    let at = WED_MIDNIGHT_UTC + 22 * 3600;
    assert_eq!(is_exchange_open("NYSE", at), Ok(false));
}

#[test]
fn nyse_closed_saturday_morning() {
    // Saturday 10:00 in New York is 15:00 UTC
    let at = SAT_MIDNIGHT_UTC + 15 * 3600;
    assert_eq!(is_exchange_open("NYSE", at), Ok(false));
}

#[test]
fn unknown_exchange_is_an_error_not_a_guess() {
    let at = WED_MIDNIGHT_UTC + 15 * 3600;
    assert_eq!(is_exchange_open("FOOEX", at), Err(ExchangeError::UnknownExchange));
}

#[test]
fn time_zones_differ_at_the_same_instant() {
    // 08:00 UTC on a Wednesday: London's open minute exactly, 03:00 in New
    // York, 17:00 in Tokyo — the zone conversion must really happen.
    let at = WED_MIDNIGHT_UTC + 8 * 3600;
    assert_eq!(is_exchange_open("LSE", at), Ok(true));
    assert_eq!(is_exchange_open("NYSE", at), Ok(false));
    assert_eq!(is_exchange_open("TSE", at), Ok(false));
}

#[test]
fn unrepresentable_timestamp_is_reported() {
    // far outside the range a calendar date can express
    assert_eq!(
        is_exchange_open("NYSE", i64::MAX),
        Err(ExchangeError::LocalTimeUnavailable)
    );
}

#[test]
fn repeated_calls_agree() {
    let at = WED_MIDNIGHT_UTC + 15 * 3600;
    let first = is_exchange_open("NYSE", at);
    let second = is_exchange_open("NYSE", at);
    assert_eq!(first, second);
    let third = is_exchange_open("TSX", at);
    let fourth = is_exchange_open("TSX", at);
    assert_eq!(third, fourth);
}

#[test]
fn gate_decision_on_local_parts() {
    let nyse = get_exchange_info("NYSE").unwrap();
    // Wednesday 10:00 local
    assert!(is_open_at(&nyse, 2, 10, 0));
    // Wednesday 17:00 local
    assert!(!is_open_at(&nyse, 2, 17, 0));
    // Saturday 10:00 local
    assert!(!is_open_at(&nyse, 5, 10, 0));
    // boundary minutes: 9:29 closed, 9:30 open, 15:59 open, 16:00 closed
    assert!(!is_open_at(&nyse, 2, 9, 29));
    assert!(is_open_at(&nyse, 2, 9, 30));
    assert!(is_open_at(&nyse, 2, 15, 59));
    assert!(!is_open_at(&nyse, 2, 16, 0));
}
