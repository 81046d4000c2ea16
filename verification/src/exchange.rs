//! Exchange calendar: which exchanges are known and when each one trades.
//!
//! An exchange is looked up by its identifier; unknown identifiers are an
//! error, never a silent default.  Whether the market is open is a pure
//! function of the exchange and an injected UTC timestamp: the timestamp is
//! converted to exchange-local time, and the market is open on a weekday
//! between the opening and closing minute.  Trading hours are kept as whole
//! minutes since local midnight (9:30 is minute 570).  The holiday check is
//! a fixed stub returning false: holiday data is out of scope, a documented
//! limitation.

use vstd::prelude::*;
use vstd::string::StringExecFns;

verus! {

/// The closed set of known exchanges.
#[derive(Clone, Copy, Debug, PartialEq, Eq, Structural)]
pub enum Exchange {
    NYSE,
    NASDAQ,
    TSX,
    LSE,
    TSE,
}

/// Trading hours of one exchange, in minutes since local midnight.
#[derive(Clone, Copy, Debug, PartialEq, Eq, Structural)]
pub struct ExchangeDetails {
    pub exchange: Exchange,
    pub open_minute: u32,
    pub close_minute: u32,
}

/// How a calendar question can fail: the identifier is not in the known set,
/// or the timestamp cannot be expressed in the exchange's local time.
#[derive(Clone, Copy, Debug, PartialEq, Eq, Structural)]
pub enum ExchangeError {
    UnknownExchange,
    LocalTimeUnavailable,
}

/// Which exchange an identifier names, if any.
pub open spec fn exchange_of(name: Seq<char>) -> Option<Exchange> {
    if name == "NYSE"@ {
        Some(Exchange::NYSE)
    } else if name == "NASDAQ"@ {
        Some(Exchange::NASDAQ)
    } else if name == "TSX"@ {
        Some(Exchange::TSX)
    } else if name == "LSE"@ {
        Some(Exchange::LSE)
    } else if name == "TSE"@ {
        Some(Exchange::TSE)
    } else {
        None
    }
}

pub open spec fn name_of(e: Exchange) -> Seq<char> {
    match e {
        Exchange::NYSE => "NYSE"@,
        Exchange::NASDAQ => "NASDAQ"@,
        Exchange::TSX => "TSX"@,
        Exchange::LSE => "LSE"@,
        Exchange::TSE => "TSE"@,
    }
}

/// The IANA time-zone name of each exchange's local clock.
pub open spec fn tz_name_of(e: Exchange) -> Seq<char> {
    match e {
        Exchange::NYSE => "America/New_York"@,
        Exchange::NASDAQ => "America/New_York"@,
        Exchange::TSX => "America/Toronto"@,
        Exchange::LSE => "Europe/London"@,
        Exchange::TSE => "Asia/Tokyo"@,
    }
}

/// The fixed trading hours of each exchange.
pub open spec fn details_of(e: Exchange) -> ExchangeDetails {
    match e {
        Exchange::NYSE => ExchangeDetails { exchange: Exchange::NYSE, open_minute: 570, close_minute: 960 },
        Exchange::NASDAQ => ExchangeDetails {
            exchange: Exchange::NASDAQ,
            open_minute: 570,
            close_minute: 960,
        },
        Exchange::TSX => ExchangeDetails { exchange: Exchange::TSX, open_minute: 570, close_minute: 960 },
        Exchange::LSE => ExchangeDetails { exchange: Exchange::LSE, open_minute: 480, close_minute: 960 },
        Exchange::TSE => ExchangeDetails { exchange: Exchange::TSE, open_minute: 570, close_minute: 900 },
    }
}

/// The market-hours gate: open on a weekday (0 = Monday, so 0..4) when the
/// local time of day has reached the opening minute and not the closing one.
/// No holiday is known, so no day is closed as one.
pub open spec fn open_at_spec(d: ExchangeDetails, weekday: int, hour: int, minute: int) -> bool {
    &&& 0 <= weekday < 5
    &&& d.open_minute <= hour * 60 + minute < d.close_minute
}

impl Exchange {
    /// The trading hours of this exchange.
    pub fn details(&self) -> (r: ExchangeDetails)
        ensures
            r == details_of(*self),
    {
        match self {
            Exchange::NYSE => ExchangeDetails {
                exchange: Exchange::NYSE,
                open_minute: 570,
                close_minute: 960,
            },
            Exchange::NASDAQ => ExchangeDetails {
                exchange: Exchange::NASDAQ,
                open_minute: 570,
                close_minute: 960,
            },
            Exchange::TSX => ExchangeDetails {
                exchange: Exchange::TSX,
                open_minute: 570,
                close_minute: 960,
            },
            Exchange::LSE => ExchangeDetails {
                exchange: Exchange::LSE,
                open_minute: 480,
                close_minute: 960,
            },
            Exchange::TSE => ExchangeDetails {
                exchange: Exchange::TSE,
                open_minute: 570,
                close_minute: 900,
            },
        }
    }

    /// The identifier of this exchange.
    pub fn name(&self) -> (r: &'static str)
        ensures
            r@ == name_of(*self),
    {
        match self {
            Exchange::NYSE => "NYSE",
            Exchange::NASDAQ => "NASDAQ",
            Exchange::TSX => "TSX",
            Exchange::LSE => "LSE",
            Exchange::TSE => "TSE",
        }
    }

    /// The IANA name of this exchange's time zone.
    pub fn time_zone_name(&self) -> (r: &'static str)
        ensures
            r@ == tz_name_of(*self),
    {
        match self {
            Exchange::NYSE => "America/New_York",
            Exchange::NASDAQ => "America/New_York",
            Exchange::TSX => "America/Toronto",
            Exchange::LSE => "Europe/London",
            Exchange::TSE => "Asia/Tokyo",
        }
    }

    /// Every known exchange, in a fixed order.
    pub fn all() -> (r: Vec<Exchange>)
        ensures
            r@ == seq![
                Exchange::NYSE,
                Exchange::NASDAQ,
                Exchange::TSX,
                Exchange::LSE,
                Exchange::TSE,
            ],
    {
        let mut v: Vec<Exchange> = Vec::new();
        v.push(Exchange::NYSE);
        v.push(Exchange::NASDAQ);
        v.push(Exchange::TSX);
        v.push(Exchange::LSE);
        v.push(Exchange::TSE);
        assert(v@ =~= seq![
            Exchange::NYSE,
            Exchange::NASDAQ,
            Exchange::TSX,
            Exchange::LSE,
            Exchange::TSE,
        ]);
        v
    }
}

fn exchange_from_name(name: &str) -> (r: Option<Exchange>)
    ensures
        r == exchange_of(name@),
{
    let n = String::from_str(name);
    if n == String::from_str("NYSE") {
        Some(Exchange::NYSE)
    } else if n == String::from_str("NASDAQ") {
        Some(Exchange::NASDAQ)
    } else if n == String::from_str("TSX") {
        Some(Exchange::TSX)
    } else if n == String::from_str("LSE") {
        Some(Exchange::LSE)
    } else if n == String::from_str("TSE") {
        Some(Exchange::TSE)
    } else {
        None
    }
}

/// Looks an exchange up by its identifier.
///
/// Returns the exchange's trading hours for a known identifier and
/// `UnknownExchange` for any other: no silent default.
pub fn get_exchange_info(exchange_name: &str) -> (r: Result<ExchangeDetails, ExchangeError>)
    ensures
        exchange_of(exchange_name@) matches Some(e) ==> r == Ok::<ExchangeDetails, ExchangeError>(
            details_of(e),
        ),
        exchange_of(exchange_name@) is None <==> r == Err::<ExchangeDetails, ExchangeError>(
            ExchangeError::UnknownExchange,
        ),
{
    match exchange_from_name(exchange_name) {
        Some(e) => Ok(e.details()),
        None => Err(ExchangeError::UnknownExchange),
    }
}

/// The local weekday (0 = Monday), hour and minute that a zone's wall clock
/// shows at a UTC timestamp; `None` where the zone name or the timestamp is
/// not convertible.  The tz database is compiled into the crate, so this is
/// a function of the two arguments.
pub uninterp spec fn local_civil_time(tz: Seq<char>, utc_secs: int) -> Option<(int, int, int)>;

/// Relies on `chrono_tz::Tz::from_str` and chrono's `TimeZone::timestamp_opt`
/// together with `Datelike::weekday` (via `num_days_from_monday`),
/// `Timelike::hour` and `Timelike::minute`: converts a UTC timestamp to the
/// named zone's local weekday, hour and minute.  `timestamp_opt` documents
/// `None` only for an out-of-range number of seconds, and the accessors
/// document a weekday number below 7, an hour below 24 and a minute below 60.
#[verifier::external_body]
fn local_civil_time_exec(tz: &str, utc_secs: i64) -> (r: Option<(u8, u8, u8)>)
    ensures
        r is Some <==> local_civil_time(tz@, utc_secs as int) is Some,
        r matches Some(t) ==> ({
            &&& local_civil_time(tz@, utc_secs as int) matches Some(u)
            &&& t.0 == u.0 && t.1 == u.1 && t.2 == u.2
            &&& t.0 < 7 && t.1 < 24 && t.2 < 60
        }),
{
    let zone: chrono_tz::Tz = match tz.parse() {
        Ok(z) => z,
        Err(_) => return None,
    };
    match chrono::TimeZone::timestamp_opt(&zone, utc_secs, 0) {
        chrono::LocalResult::Single(dt) => {
            let wd = chrono::Datelike::weekday(&dt).num_days_from_monday() as u8;
            let hour = chrono::Timelike::hour(&dt) as u8;
            let minute = chrono::Timelike::minute(&dt) as u8;
            Some((wd, hour, minute))
        },
        _ => None,
    }
}

/// The market-hours decision on an already-converted local time.
///
/// `weekday` counts from Monday as 0.  Open on Monday through Friday when
/// the minute of day has reached the opening minute and not the closing one;
/// the holiday check is a fixed stub, so no day is closed as a holiday.
pub fn is_open_at(d: &ExchangeDetails, weekday: u8, hour: u8, minute: u8) -> (r: bool)
    requires
        weekday < 7,
        hour < 24,
        minute < 60,
    ensures
        r == open_at_spec(*d, weekday as int, hour as int, minute as int),
{
    let is_weekday = weekday < 5;
    let minute_of_day: u32 = (hour as u32) * 60 + (minute as u32);
    // holiday data is out of scope: a fixed stub, documented, not a default
    let is_holiday = false;
    is_weekday && d.open_minute <= minute_of_day && minute_of_day < d.close_minute && !is_holiday
}

/// Whether the named exchange is trading at the given UTC timestamp.
///
/// Pure in its two arguments.  The identifier picks the exchange; an
/// unknown identifier fails with `UnknownExchange`, never a guessed answer.
/// The exchange's wall clock reads the timestamp, and `open_at_spec`
/// decides.  `LocalTimeUnavailable` comes only of a timestamp the wall
/// clock cannot express.
pub fn is_exchange_open(exchange_name: &str, utc_secs: i64) -> (r: Result<bool, ExchangeError>)
    ensures
        exchange_of(exchange_name@) is None <==> r == Err::<bool, ExchangeError>(
            ExchangeError::UnknownExchange,
        ),
        exchange_of(exchange_name@) matches Some(e) ==> ({
            match local_civil_time(tz_name_of(e), utc_secs as int) {
                Some(t) => r == Ok::<bool, ExchangeError>(
                    open_at_spec(details_of(e), t.0, t.1, t.2),
                ),
                None => r == Err::<bool, ExchangeError>(ExchangeError::LocalTimeUnavailable),
            }
        }),
{
    let e = match exchange_from_name(exchange_name) {
        Some(e) => e,
        None => {
            return Err(ExchangeError::UnknownExchange);
        },
    };
    let d = e.details();
    match local_civil_time_exec(e.time_zone_name(), utc_secs) {
        Some((w, h, m)) => Ok(is_open_at(&d, w, h, m)),
        None => Err(ExchangeError::LocalTimeUnavailable),
    }
}

} // verus!
