use vstd::prelude::*;

use crate::config::Config;
use crate::util::decimal;
use chrono::{Datelike, Timelike};

verus! {

/// Why a localized text could not be made.
#[derive(Debug, Clone, Copy, PartialEq, Eq, Structural)]
pub enum FormatError {
    /// No number formatter for the locale, or a number it does not take.
    Decimal,
    /// No date formatter for the locale, or a date or time it does not take.
    DateTime,
    /// A length setting beyond the range of `usize`.
    Width,
    /// The table's columns and the columns asked for differ.
    Columns,
}

/// The decimal number written `digits` as `icu_decimal` formats it for `locale` (grouping
/// separators, digits of the locale's numbering system); `None` where the locale or the
/// number is not accepted.
pub uninterp spec fn localized_decimal(locale: Seq<char>, digits: Seq<char>) -> Option<Seq<char>>;

/// Formats the decimal number written `digits` for `locale`: `icu_locale::Locale` parses the
/// locale, `fixed_decimal::Decimal` the number, and `icu_decimal::DecimalFormatter` (default
/// options) formats it. The result is named by `localized_decimal`.
#[verifier::external_body]
fn format_decimal(locale: &str, digits: &str) -> (r: Option<String>)
    ensures
        r matches Some(s) ==> localized_decimal(locale@, digits@) == Some(s@),
        r is None ==> localized_decimal(locale@, digits@) is None,
{
    let loc = icu_locale::Locale::try_from_str(locale).ok()?;
    let opts = icu_decimal::options::DecimalFormatterOptions::default();
    let fmt = icu_decimal::DecimalFormatter::try_new(loc.into(), opts).ok()?;
    let d = fixed_decimal::Decimal::try_from_str(digits).ok()?;
    Some(fmt.format(&d).to_string())
}

/// An amount formatted for the settings' locale.
pub fn u64_to_sat_string(config: &Config, amount_sat: u64) -> (r: Result<String, FormatError>)
    ensures
        r matches Ok(s) ==> localized_decimal(config.locale@, decimal(amount_sat as nat)) == Some(s@),
        r is Err ==> localized_decimal(config.locale@, decimal(amount_sat as nat)) is None
            && r == Err::<String, FormatError>(FormatError::Decimal),
{
    let digits = crate::util::u64_to_decimal(amount_sat);
    match format_decimal(config.locale.as_str(), digits.as_str()) {
        Some(s) => Ok(s),
        None => Err(FormatError::Decimal),
    }
}

/// `n` written with exactly `w` digits, zeros in front (for `n` below `10^w`).
pub open spec fn zero_padded(n: nat, w: nat) -> Seq<char>
    decreases w,
{
    if w == 0 {
        Seq::empty()
    } else {
        zero_padded(n / 10, (w - 1) as nat).push((('0' as int) + n % 10) as char)
    }
}

/// An amount in msat written in bitcoin with eight decimals, the rest cut off.
pub open spec fn btc_digits(msat: u64) -> Seq<char> {
    decimal((msat / 100_000_000_000) as nat) + seq!['.'] + zero_padded(
        ((msat % 100_000_000_000) / 1000) as nat,
        8,
    )
}

fn push_zero_padded(out: &mut Vec<char>, n: u64, w: u64)
    ensures
        final(out)@ == old(out)@ + zero_padded(n as nat, w as nat),
    decreases w,
{
    if w > 0 {
        push_zero_padded(out, n / 10, w - 1);
        out.push(((48u8 + ((n % 10) as u8)) as char));
        proof {
            assert(final(out)@ =~= old(out)@ + zero_padded(n as nat, w as nat));
        }
    } else {
        proof {
            assert(final(out)@ =~= old(out)@ + zero_padded(n as nat, w as nat));
        }
    }
}

/// Writes an amount in msat as bitcoin with eight decimals.
pub fn msat_to_btc_digits(msat: u64) -> (r: String)
    ensures
        r@ == btc_digits(msat),
{
    let whole = crate::util::u64_to_decimal(msat / 100_000_000_000);
    let mut cs = crate::strutil::str_chars(whole.as_str());
    cs.push('.');
    push_zero_padded(&mut cs, (msat % 100_000_000_000) / 1000, 8);
    proof {
        assert(cs@ =~= btc_digits(msat));
    }
    crate::strutil::string_from_chars(cs.as_slice())
}

/// An amount in msat, formatted in bitcoin with eight decimals for the settings' locale.
pub fn u64_to_btc_string(config: &Config, amount_msat: u64) -> (r: Result<String, FormatError>)
    ensures
        r matches Ok(s) ==> localized_decimal(config.locale@, btc_digits(amount_msat)) == Some(s@),
        r is Err ==> localized_decimal(config.locale@, btc_digits(amount_msat)) is None
            && r == Err::<String, FormatError>(FormatError::Decimal),
{
    let digits = msat_to_btc_digits(amount_msat);
    match format_decimal(config.locale.as_str(), digits.as_str()) {
        Some(s) => Ok(s),
        None => Err(FormatError::Decimal),
    }
}

/// A moment in the machine's local time zone: year, month, day, hour, minute, second and
/// nanosecond.
#[derive(Debug, Clone, Copy)]
pub struct LocalTime {
    pub year: i32,
    pub month: u32,
    pub day: u32,
    pub hour: u32,
    pub minute: u32,
    pub second: u32,
    pub nanosecond: u32,
}

/// The latest timestamp that is turned into a local time: the last second of the day before
/// the last day that chrono can hold (December 31 of the year 262142), so that the local time
/// stays within chrono's range for every offset of less than a day (chrono panics beyond it).
pub open spec fn max_datetime_secs() -> u64 {
    8_210_266_790_399
}

/// The date and time in the proleptic Gregorian calendar of `secs` seconds after
/// 1970-01-01 00:00:00, with no leap seconds: the day count is turned into a date through
/// 400-year eras that start on March 1 (Howard Hinnant's `civil_from_days`).
pub open spec fn civil_of(secs: int) -> LocalTime {
    let days = secs / 86400;
    let sod = secs % 86400;
    let z = days + 719468;
    let era = z / 146097;
    let doe = z - era * 146097;
    let yoe = (doe - doe / 1460 + doe / 36524 - doe / 146096) / 365;
    let doy = doe - (365 * yoe + yoe / 4 - yoe / 100);
    let mp = (5 * doy + 2) / 153;
    let d = doy - (153 * mp + 2) / 5 + 1;
    let m = if mp < 10 {
        mp + 3
    } else {
        mp - 9
    };
    let y = yoe + era * 400 + if m <= 2 {
        1int
    } else {
        0int
    };
    LocalTime {
        year: y as i32,
        month: m as u32,
        day: d as u32,
        hour: (sod / 3600) as u32,
        minute: (sod % 3600 / 60) as u32,
        second: (sod % 60) as u32,
        nanosecond: 0,
    }
}

/// Whether `off` is an offset that chrono accepts for a time zone: less than a day either way.
pub open spec fn zone_offset(off: int) -> bool {
    -86400 < off < 86400
}

/// `t` is the calendar date and time of `timestamp` moved by some time-zone offset.
pub open spec fn is_local_time_of(t: LocalTime, timestamp: u64) -> bool {
    exists|off: int| zone_offset(off) && t == civil_of(timestamp + off)
}

/// The local time of `timestamp` seconds after the Unix epoch, as `chrono::DateTime<Local>`
/// gives it from `UNIX_EPOCH + Duration::from_secs(timestamp)`: the calendar date and time of
/// the timestamp moved by the machine's time-zone offset at that moment, which chrono's
/// `FixedOffset` holds to less than a day; whole seconds, so no nanoseconds. Which offset it
/// is depends on the machine and is not stated.
#[verifier::external_body]
fn local_time(timestamp: u64) -> (r: LocalTime)
    requires
        timestamp <= max_datetime_secs(),
    ensures
        is_local_time_of(r, timestamp),
        1 <= r.month <= 12,
        1 <= r.day <= 31,
        r.hour < 24,
        r.minute < 60,
        r.second < 60,
        r.nanosecond == 0,
{
    let d = std::time::UNIX_EPOCH + std::time::Duration::from_secs(timestamp);
    let t = chrono::DateTime::<chrono::Local>::from(d);
    LocalTime { year: t.year(), month: t.month(), day: t.day(), hour: t.hour(), minute: t.minute(), second: t.second(), nanosecond: t.nanosecond() }
}

/// The date and time `t` as `icu_datetime` formats it for `locale` with the short
/// year-month-day-time field set; `None` where the locale or the date is not accepted.
pub uninterp spec fn localized_datetime(locale: Seq<char>, t: LocalTime) -> Option<Seq<char>>;

/// Formats a date and time for `locale`: `icu_locale::Locale` parses the locale,
/// `icu_calendar::Date::try_new_gregorian` and `icu_time::Time::try_new` build the moment,
/// and `icu_datetime::DateTimeFormatter` (`fieldsets::YMDT::short`) formats it. The result is
/// named by `localized_datetime`.
#[verifier::external_body]
fn format_datetime(locale: &str, t: LocalTime) -> (r: Option<String>)
    requires
        t.month <= 12,
        t.day <= 31,
        t.hour < 24,
        t.minute < 60,
        t.second < 60,
    ensures
        r matches Some(s) ==> localized_datetime(locale@, t) == Some(s@),
        r is None ==> localized_datetime(locale@, t) is None,
{
    let loc = icu_locale::Locale::try_from_str(locale).ok()?;
    let set = icu_datetime::fieldsets::YMDT::short();
    let fmt = icu_datetime::DateTimeFormatter::try_new(loc.into(), set).ok()?;
    let date = icu_calendar::Date::try_new_gregorian(t.year, t.month as u8, t.day as u8).ok()?;
    let time = icu_time::Time::try_new(t.hour as u8, t.minute as u8, t.second as u8, t.nanosecond).ok()?;
    let dt = icu_time::DateTime { date, time };
    let f = fmt.format_same_calendar(&dt).ok()?;
    Some(f.to_string())
}

/// The text is the locale's formatting of the local time of `timestamp`, for some time-zone
/// offset (see `local_time`).
pub open spec fn datetime_ok(locale: Seq<char>, timestamp: u64, s: Seq<char>) -> bool {
    &&& timestamp <= max_datetime_secs()
    &&& exists|off: int|
        zone_offset(off) && #[trigger] localized_datetime(locale, civil_of(timestamp + off)) == Some(s)
}

/// The timestamp is beyond `max_datetime_secs`, or the locale does not format its local time
/// for some time-zone offset.
pub open spec fn datetime_fails(locale: Seq<char>, timestamp: u64) -> bool {
    ||| timestamp > max_datetime_secs()
    ||| exists|off: int|
        zone_offset(off) && #[trigger] localized_datetime(locale, civil_of(timestamp + off)) is None
}

/// A Unix timestamp as local date and time, formatted for the settings' locale; a timestamp
/// beyond `max_datetime_secs` is refused. The local time depends on the machine's time zone
/// (see `local_time`); the text is the locale's formatting of that local time, and the error
/// comes where the timestamp is too late or the locale does not format it.
pub fn timestamp_to_localized_datetime_string(config: &Config, timestamp: u64) -> (r: Result<
    String,
    FormatError,
>)
    ensures
        r matches Ok(s) ==> datetime_ok(config.locale@, timestamp, s@),
        r is Err ==> r == Err::<String, FormatError>(FormatError::DateTime) && datetime_fails(
            config.locale@,
            timestamp,
        ),
        timestamp > max_datetime_secs() ==> r is Err,
{
    if timestamp > 8_210_266_790_399u64 {
        return Err(FormatError::DateTime);
    }
    let t = local_time(timestamp);
    match format_datetime(config.locale.as_str(), t) {
        Some(s) => Ok(s),
        None => Err(FormatError::DateTime),
    }
}

} // verus!
