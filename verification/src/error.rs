use vstd::prelude::*;

use crate::opts::{opt_key, Opt};
use crate::strutil::{append_chars, str_chars, string_from_chars};
use crate::util::{decimal, u64_to_decimal};

verus! {

/// Why an option value, a column list or a request argument was refused.
#[derive(Debug, Clone)]
pub enum ConfigError {
    /// No option has this key.
    UnknownOption(String),
    /// No column has this name.
    InvalidColumn(String),
    /// A column list names one column twice; the list as given.
    DuplicateColumns(String),
    /// No channel state has this name.
    InvalidState(String),
    /// No table style has this name.
    InvalidStyle(String),
    /// The option (by key) takes an integer.
    NotAnInteger(String),
    /// The option (by key) takes a boolean.
    NotABoolean(String),
    /// The option (by key) takes a string.
    NotAString(String),
    /// The graph column can not be sorted by.
    SortByGraphSats,
    /// The sort column is unknown; the input in upper case.
    InvalidSortColumn(String),
    /// Both `PUBLIC` and `PRIVATE` were excluded.
    BothVisibilities,
    /// Both `ONLINE` and `OFFLINE` were excluded.
    BothConnectionStatuses,
    /// The value is below the option's minimum.
    BelowMinimum { name: String, gteq: u64 },
    /// An hour count that reaches back before the epoch; `max_hours` is the current hour count.
    HoursOutOfRange { name: String, max_hours: u64, hours: u64 },
    /// The option takes no negative value.
    Negative { name: String, value: i64 },
    /// The absolute value is below the option's minimum.
    AbsoluteBelowMinimum { name: String, min_abs: i64 },
    /// The value does not fit in a `usize`.
    TooLarge { name: String, value: i64 },
    /// The locale could not be parsed.
    InvalidLocale(String),
    /// The option can not be set for a single request.
    InternalOption(String),
    /// `by` has no effect unless `needed` is set.
    MissingDependency { needed: Opt, by: Opt },
}

/// A signed number in decimal, with a minus sign where it is negative.
pub open spec fn signed_decimal(v: i64) -> Seq<char> {
    if v < 0 {
        seq!['-'] + decimal((-(v as int)) as nat)
    } else {
        decimal(v as nat)
    }
}

/// The columns that the channels table can be sorted by, as listed in the error on a wrong one.
pub open spec fn sortable_columns_text() -> Seq<char> {
    "OUT_SATS, IN_SATS, TOTAL_SATS, SCID, MAX_HTLC, MIN_HTLC, FLAG, BASE, IN_BASE, PPM, IN_PPM, ALIAS, PEER_ID, UPTIME, HTLCS, STATE, PERC_US, PING"@
}

/// The message that an error is reported with.
pub open spec fn config_error_text(e: ConfigError) -> Seq<char> {
    match e {
        ConfigError::UnknownOption(s) => "Unknown option: "@ + s@,
        ConfigError::InvalidColumn(s) => "`"@ + s@ + "` is not a valid column name!"@,
        ConfigError::DuplicateColumns(s) => "Duplicate column names in: "@ + s@,
        ConfigError::InvalidState(s) => "Could not parse channel state: `"@ + s@ + "`"@,
        ConfigError::InvalidStyle(s) => "could not parse Style from "@ + s@,
        ConfigError::NotAnInteger(k) => k@ + " is not a valid integer!"@,
        ConfigError::NotABoolean(k) => k@ + " is not a valid boolean!"@,
        ConfigError::NotAString(k) => k@ + " is not a valid string!"@,
        ConfigError::SortByGraphSats => "Can not sort by `GRAPH_SATS`, use `IN_SATS`, `OUT_SATS` or `TOTAL_SATS` instead!"@,
        ConfigError::InvalidSortColumn(s) => "`"@ + s@ + "` is invalid. Can only sort by valid columns. Must be one of: "@
            + sortable_columns_text(),
        ConfigError::BothVisibilities => "Can only filter `PUBLIC` OR `PRIVATE`, not both."@,
        ConfigError::BothConnectionStatuses => "Can only filter `ONLINE` OR `OFFLINE`, not both."@,
        ConfigError::BelowMinimum { name, gteq } => name@ + " must be greater than or equal to "@
            + decimal(gteq as nat),
        ConfigError::HoursOutOfRange { name, max_hours, hours } => name@
            + " needs to be a positive number and smaller than "@ + decimal(max_hours as nat) + ", not `"@
            + decimal(hours as nat) + "`."@,
        ConfigError::Negative { name, value } => name@ + " needs to be a positive number and not `"@
            + signed_decimal(value) + "`."@,
        ConfigError::AbsoluteBelowMinimum { name, min_abs } => name@
            + " must be greater than or equal to |"@ + signed_decimal(min_abs) + "|"@,
        ConfigError::TooLarge { name, value } => name@ + " is too large: `"@ + signed_decimal(value)
            + "`."@,
        ConfigError::InvalidLocale(s) => "`"@ + s@ + "` is not a valid locale"@,
        ConfigError::InternalOption(k) => "Setting "@ + k@
            + " here does not make sense, please use a longer-lasting method!"@,
        ConfigError::MissingDependency { needed, by } => "You must set `"@ + opt_key(needed)
            + "` for `"@ + opt_key(by) + "` to have an effect!"@,
    }
}

fn push_text(cs: &mut Vec<char>, s: &str)
    ensures
        final(cs)@ == old(cs)@ + s@,
{
    append_chars(cs, &str_chars(s));
}

fn push_signed(cs: &mut Vec<char>, v: i64)
    ensures
        final(cs)@ == old(cs)@ + signed_decimal(v),
{
    if v < 0 {
        cs.push('-');
        let a: u64 = (-(v as i128)) as u64;
        append_chars(cs, &str_chars(u64_to_decimal(a).as_str()));
        proof {
            assert(final(cs)@ =~= old(cs)@ + signed_decimal(v));
        }
    } else {
        append_chars(cs, &str_chars(u64_to_decimal(v as u64).as_str()));
    }
}

fn push_unsigned(cs: &mut Vec<char>, v: u64)
    ensures
        final(cs)@ == old(cs)@ + decimal(v as nat),
{
    append_chars(cs, &str_chars(u64_to_decimal(v).as_str()));
}

impl ConfigError {
    /// The message that the error is reported with (see `config_error_text`).
    pub fn message(&self) -> (r: String)
        ensures
            r@ == config_error_text(*self),
    {
        let mut cs: Vec<char> = Vec::new();
        match self {
            ConfigError::UnknownOption(s) => {
                push_text(&mut cs, "Unknown option: ");
                push_text(&mut cs, s.as_str());
            },
            ConfigError::InvalidColumn(s) => {
                push_text(&mut cs, "`");
                push_text(&mut cs, s.as_str());
                push_text(&mut cs, "` is not a valid column name!");
            },
            ConfigError::DuplicateColumns(s) => {
                push_text(&mut cs, "Duplicate column names in: ");
                push_text(&mut cs, s.as_str());
            },
            ConfigError::InvalidState(s) => {
                push_text(&mut cs, "Could not parse channel state: `");
                push_text(&mut cs, s.as_str());
                push_text(&mut cs, "`");
            },
            ConfigError::InvalidStyle(s) => {
                push_text(&mut cs, "could not parse Style from ");
                push_text(&mut cs, s.as_str());
            },
            ConfigError::NotAnInteger(k) => {
                push_text(&mut cs, k.as_str());
                push_text(&mut cs, " is not a valid integer!");
            },
            ConfigError::NotABoolean(k) => {
                push_text(&mut cs, k.as_str());
                push_text(&mut cs, " is not a valid boolean!");
            },
            ConfigError::NotAString(k) => {
                push_text(&mut cs, k.as_str());
                push_text(&mut cs, " is not a valid string!");
            },
            ConfigError::SortByGraphSats => {
                push_text(
                    &mut cs,
                    "Can not sort by `GRAPH_SATS`, use `IN_SATS`, `OUT_SATS` or `TOTAL_SATS` instead!",
                );
            },
            ConfigError::InvalidSortColumn(s) => {
                push_text(&mut cs, "`");
                push_text(&mut cs, s.as_str());
                push_text(&mut cs, "` is invalid. Can only sort by valid columns. Must be one of: ");
                push_text(
                    &mut cs,
                    "OUT_SATS, IN_SATS, TOTAL_SATS, SCID, MAX_HTLC, MIN_HTLC, FLAG, BASE, IN_BASE, PPM, IN_PPM, ALIAS, PEER_ID, UPTIME, HTLCS, STATE, PERC_US, PING",
                );
            },
            ConfigError::BothVisibilities => {
                push_text(&mut cs, "Can only filter `PUBLIC` OR `PRIVATE`, not both.");
            },
            ConfigError::BothConnectionStatuses => {
                push_text(&mut cs, "Can only filter `ONLINE` OR `OFFLINE`, not both.");
            },
            ConfigError::BelowMinimum { name, gteq } => {
                push_text(&mut cs, name.as_str());
                push_text(&mut cs, " must be greater than or equal to ");
                push_unsigned(&mut cs, *gteq);
            },
            ConfigError::HoursOutOfRange { name, max_hours, hours } => {
                push_text(&mut cs, name.as_str());
                push_text(&mut cs, " needs to be a positive number and smaller than ");
                push_unsigned(&mut cs, *max_hours);
                push_text(&mut cs, ", not `");
                push_unsigned(&mut cs, *hours);
                push_text(&mut cs, "`.");
            },
            ConfigError::Negative { name, value } => {
                push_text(&mut cs, name.as_str());
                push_text(&mut cs, " needs to be a positive number and not `");
                push_signed(&mut cs, *value);
                push_text(&mut cs, "`.");
            },
            ConfigError::AbsoluteBelowMinimum { name, min_abs } => {
                push_text(&mut cs, name.as_str());
                push_text(&mut cs, " must be greater than or equal to |");
                push_signed(&mut cs, *min_abs);
                push_text(&mut cs, "|");
            },
            ConfigError::TooLarge { name, value } => {
                push_text(&mut cs, name.as_str());
                push_text(&mut cs, " is too large: `");
                push_signed(&mut cs, *value);
                push_text(&mut cs, "`.");
            },
            ConfigError::InvalidLocale(s) => {
                push_text(&mut cs, "`");
                push_text(&mut cs, s.as_str());
                push_text(&mut cs, "` is not a valid locale");
            },
            ConfigError::InternalOption(k) => {
                push_text(&mut cs, "Setting ");
                push_text(&mut cs, k.as_str());
                push_text(&mut cs, " here does not make sense, please use a longer-lasting method!");
            },
            ConfigError::MissingDependency { needed, by } => {
                push_text(&mut cs, "You must set `");
                push_text(&mut cs, needed.as_key());
                push_text(&mut cs, "` for `");
                push_text(&mut cs, by.as_key());
                push_text(&mut cs, "` to have an effect!");
            },
        }
        proof {
            assert(cs@ =~= config_error_text(*self));
        }
        string_from_chars(cs.as_slice())
    }
}

} // verus!
