use vstd::prelude::*;

use crate::columns::{
    columns_parsed, find_column, is_column_name, names_match, spec_default_columns, ClosedChannelsColumns,
    ForwardsColumns, InvoicesColumns, PaysColumns, SummaryColumns, TableColumn,
};
use crate::error::ConfigError;
use crate::numparse::{parse_bool, parse_i64, parsed_bool, parsed_i64};
use crate::opts::{opt_is_internal, opt_key, Opt};
use crate::states::{
    state_lower_name, style_name, unicode_lower, ChannelState, ShortChannelState, Styles,
};
use crate::strutil::{
    ascii_lower, ascii_upper, split_by, split_chars, str_chars, string_from_chars,
    strip_whitespace, strip_ws, to_lower_chars, to_upper_chars, chars_eq, chars_from, contains_chars,
};

verus! {

/// A value given for an option, as the plugin framework holds it.
#[derive(Debug, Clone)]
pub enum OptionValue {
    String(String),
    Integer(i64),
    Boolean(bool),
}

/// A request argument as JSON gives it, reduced to what option parsing reads: an integer
/// that fits in an `i64`, any other number, a string, a boolean, or something else.
#[derive(Debug, Clone)]
pub enum ArgValue {
    Null,
    Bool(bool),
    Int(i64),
    OtherNumber,
    Str(String),
    Array,
    Object,
}

/// Filter channels by whether their peer is connected.
#[derive(Debug, Clone, Copy, PartialEq, Eq, Structural)]
pub enum ConnectionStatus {
    Online,
    Offline,
}

/// Filter channels by whether they are announced.
#[derive(Debug, Clone, Copy, PartialEq, Eq, Structural)]
pub enum ChannelVisibility {
    Private,
    Public,
}

/// Which channels are left out of the channels table.
#[derive(Debug, Clone)]
pub struct ExcludeStates {
    pub channel_states: Vec<ShortChannelState>,
    pub channel_visibility: Option<ChannelVisibility>,
    pub connection_status: Option<ConnectionStatus>,
}

/// The plugin's settings.
#[derive(Debug, Clone)]
pub struct Config {
    pub columns: Vec<SummaryColumns>,
    pub closed_channels: usize,
    pub closed_channels_columns: Vec<ClosedChannelsColumns>,
    pub sort_by: SummaryColumns,
    pub sort_reverse: bool,
    pub exclude_channel_states: ExcludeStates,
    pub forwards: u64,
    pub forwards_limit: usize,
    pub forwards_columns: Vec<ForwardsColumns>,
    pub forwards_filter_amt_msat: Option<u64>,
    pub forwards_filter_fee_msat: Option<u64>,
    pub pays: u64,
    pub pays_limit: usize,
    pub pays_columns: Vec<PaysColumns>,
    pub max_desc_length: i64,
    pub invoices: u64,
    pub invoices_limit: usize,
    pub invoices_columns: Vec<InvoicesColumns>,
    pub max_label_length: i64,
    pub invoices_filter_amt_msat: Option<u64>,
    /// The locale, in the canonical form of its identifier.
    pub locale: String,
    pub refresh_alias: u64,
    pub max_alias_length: i64,
    pub availability_interval: u64,
    pub availability_window: u64,
    pub utf8: bool,
    pub style: Styles,
    pub flow_style: Styles,
    pub json: bool,
}

/// The options whose value is an integer.
pub open spec fn opt_takes_integer(o: Opt) -> bool {
    match o {
        Opt::Forwards | Opt::ForwardsLimit | Opt::ForwardsFilterAmt
        | Opt::ForwardsFilterFee | Opt::Pays | Opt::PaysLimit | Opt::MaxDescLength
        | Opt::Invoices | Opt::InvoicesLimit | Opt::MaxLabelLength | Opt::InvoicesFilterAmt
        | Opt::RefreshAlias | Opt::MaxAliasLength | Opt::AvailabilityInterval
        | Opt::AvailabilityWindow => true,
        _ => false,
    }
}

/// The options whose value is a boolean.
pub open spec fn opt_takes_bool(o: Opt) -> bool {
    o == Opt::Utf8 || o == Opt::Json
}

/// The value has the kind that the option takes.
pub open spec fn option_value_fits(o: Opt, v: OptionValue) -> bool {
    if opt_takes_integer(o) {
        v is Integer
    } else if opt_takes_bool(o) {
        v is Boolean
    } else {
        v is String
    }
}

/// Whether a value has the kind that the option takes (see `option_value_fits`).
pub fn value_fits(opt: Opt, v: &OptionValue) -> (r: bool)
    ensures
        r == option_value_fits(opt, *v),
{
    if takes_integer(opt) {
        matches!(v, OptionValue::Integer(_))
    } else if opt == Opt::Utf8 || opt == Opt::Json {
        matches!(v, OptionValue::Boolean(_))
    } else {
        matches!(v, OptionValue::String(_))
    }
}

/// What parsing an argument for an option gives: integers from JSON integers or from
/// strings that parse as `i64`; booleans from JSON booleans or from `"true"`/`"false"`;
/// strings only from JSON strings.
pub open spec fn option_parsed(o: Opt, v: ArgValue, r: Result<OptionValue, ConfigError>) -> bool {
    if opt_takes_integer(o) {
        match v {
            ArgValue::Int(n) => r == Ok::<OptionValue, ConfigError>(OptionValue::Integer(n)),
            ArgValue::Str(s) if parsed_i64(s@) is Some => r == Ok::<OptionValue, ConfigError>(
                OptionValue::Integer(parsed_i64(s@)->0),
            ),
            _ => r matches Err(ConfigError::NotAnInteger(k)) && k@ == opt_key(o),
        }
    } else if opt_takes_bool(o) {
        match v {
            ArgValue::Bool(b) => r == Ok::<OptionValue, ConfigError>(OptionValue::Boolean(b)),
            ArgValue::Str(s) if parsed_bool(s@) is Some => r == Ok::<OptionValue, ConfigError>(
                OptionValue::Boolean(parsed_bool(s@)->0),
            ),
            _ => r matches Err(ConfigError::NotABoolean(k)) && k@ == opt_key(o),
        }
    } else {
        match v {
            ArgValue::Str(s) => r matches Ok(OptionValue::String(t)) && t@ == s@,
            _ => r matches Err(ConfigError::NotAString(k)) && k@ == opt_key(o),
        }
    }
}

fn key_string(opt: Opt) -> (r: String)
    ensures
        r@ == opt_key(opt),
{
    let cs = str_chars(opt.as_key());
    string_from_chars(cs.as_slice())
}

fn takes_integer(o: Opt) -> (r: bool)
    ensures
        r == opt_takes_integer(o),
{
    matches!(
        o,
        Opt::Forwards | Opt::ForwardsLimit | Opt::ForwardsFilterAmt
            | Opt::ForwardsFilterFee | Opt::Pays | Opt::PaysLimit | Opt::MaxDescLength
            | Opt::Invoices | Opt::InvoicesLimit | Opt::MaxLabelLength | Opt::InvoicesFilterAmt
            | Opt::RefreshAlias | Opt::MaxAliasLength | Opt::AvailabilityInterval
            | Opt::AvailabilityWindow
    )
}

/// Reads the value given for an option as the kind of value that the option takes.
pub fn parse_option(opt: Opt, value: &ArgValue) -> (r: Result<OptionValue, ConfigError>)
    ensures
        option_parsed(opt, *value, r),
        r matches Ok(v) ==> option_value_fits(opt, v),
{
    if takes_integer(opt) {
        match value {
            ArgValue::Int(n) => {
                return Ok(OptionValue::Integer(*n));
            },
            ArgValue::Str(s) => {
                let cs = str_chars(s.as_str());
                if let Some(n) = parse_i64(&cs) {
                    return Ok(OptionValue::Integer(n));
                }
            },
            _ => {},
        }
        Err(ConfigError::NotAnInteger(key_string(opt)))
    } else if matches!(opt, Opt::Utf8 | Opt::Json) {
        match value {
            ArgValue::Bool(b) => {
                return Ok(OptionValue::Boolean(*b));
            },
            ArgValue::Str(s) => {
                let cs = str_chars(s.as_str());
                if let Some(b) = parse_bool(&cs) {
                    return Ok(OptionValue::Boolean(b));
                }
            },
            _ => {},
        }
        Err(ConfigError::NotABoolean(key_string(opt)))
    } else {
        match value {
            ArgValue::Str(s) => {
                let cs = str_chars(s.as_str());
                Ok(OptionValue::String(string_from_chars(cs.as_slice())))
            },
            _ => Err(ConfigError::NotAString(key_string(opt))),
        }
    }
}

/// The current time in seconds since the Unix epoch, from the system clock
/// (`chrono::Utc::now().timestamp()`, taken by absolute value). Nothing is stated of the
/// value: it depends on the clock. chrono panics if the clock is set before the epoch.
#[verifier::external_body]
fn now_unix_secs() -> u64 {
    chrono::Utc::now().timestamp().unsigned_abs()
}

/// `val` hours lie within the time since the epoch at `now`.
pub open spec fn valid_hours_at(val: u64, now: u64) -> bool {
    now as int > val as int * 3600
}

/// What validating an unsigned option value gives.
pub open spec fn u64_input_checked(
    n: u64,
    name: Seq<char>,
    gteq: u64,
    check_time: bool,
    now: u64,
    r: Result<u64, ConfigError>,
) -> bool {
    if n < gteq {
        r matches Err(ConfigError::BelowMinimum { name: m, gteq: g }) && m@ == name && g == gteq
    } else if check_time && !valid_hours_at(n, now) {
        r matches Err(ConfigError::HoursOutOfRange { name: m, max_hours: h, hours: v }) && m@
            == name && h == now / 3600 && v == n
    } else {
        r == Ok::<u64, ConfigError>(n)
    }
}

/// What validating a signed option value as an unsigned one gives.
pub open spec fn i64_as_u64_checked(
    value: i64,
    name: Seq<char>,
    gteq: u64,
    check_time: bool,
    now: u64,
    r: Result<u64, ConfigError>,
) -> bool {
    if value >= 0 {
        u64_input_checked(value as u64, name, gteq, check_time, now, r)
    } else {
        r matches Err(ConfigError::Negative { name: m, value: v }) && m@ == name && v == value
    }
}

/// What validating a signed option value as a count gives.
pub open spec fn usize_checked(value: i64, name: Seq<char>, r: Result<usize, ConfigError>) -> bool {
    if value < 0 {
        r matches Err(ConfigError::Negative { name: m, value: v }) && m@ == name && v == value
    } else if value > usize::MAX {
        r matches Err(ConfigError::TooLarge { name: m, value: v }) && m@ == name && v == value
    } else {
        r == Ok::<usize, ConfigError>(value as usize)
    }
}

/// The absolute value as `i64::abs` computes it in a release build, where `i64::MIN` stays
/// `i64::MIN`.
pub open spec fn abs_wrapping(n: i64) -> int {
    if n == i64::MIN {
        i64::MIN as int
    } else if n < 0 {
        -n
    } else {
        n as int
    }
}

/// What validating a length option, whose sign chooses between cutting and wrapping, gives.
pub open spec fn abs_checked(n: i64, name: Seq<char>, gteq: i64, r: Result<i64, ConfigError>) -> bool {
    if abs_wrapping(n) < gteq {
        r matches Err(ConfigError::AbsoluteBelowMinimum { name: m, min_abs: g }) && m@ == name && g
            == gteq
    } else {
        r == Ok::<i64, ConfigError>(n)
    }
}

/// Whether `val` hours reach back no further than the epoch, at the time `now`.
pub fn is_valid_hour_timestamp_at(val: u64, now: u64) -> (r: bool)
    ensures
        r == valid_hours_at(val, now),
{
    if val > u64::MAX / 3600 {
        assert(val * 3600 > u64::MAX) by (nonlinear_arith)
            requires
                val > u64::MAX / 3600,
        ;
        false
    } else {
        assert(val * 3600 <= u64::MAX) by (nonlinear_arith)
            requires
                val <= u64::MAX / 3600,
        ;
        now > val * 3600
    }
}

/// Whether `val` hours reach back no further than the epoch, now.
pub fn is_valid_hour_timestamp(val: u64) -> (r: bool)
    ensures
        exists|now: u64| r == valid_hours_at(val, now),
{
    is_valid_hour_timestamp_at(val, now_unix_secs())
}

/// Checks an unsigned option value against a minimum and, where asked, as an hour count
/// at the time `now`.
pub fn validate_u64_input_at(n: u64, var_name: &str, gteq: u64, check_valid_time: bool, now: u64) -> (r:
    Result<u64, ConfigError>)
    ensures
        u64_input_checked(n, var_name@, gteq, check_valid_time, now, r),
{
    if n < gteq {
        let cs = str_chars(var_name);
        return Err(ConfigError::BelowMinimum { name: string_from_chars(cs.as_slice()), gteq });
    }
    if check_valid_time && !is_valid_hour_timestamp_at(n, now) {
        let cs = str_chars(var_name);
        return Err(
            ConfigError::HoursOutOfRange {
                name: string_from_chars(cs.as_slice()),
                max_hours: now / 3600,
                hours: n,
            },
        );
    }
    Ok(n)
}

/// Checks an unsigned option value against a minimum and, where asked, as an hour count now.
pub fn validate_u64_input(n: u64, var_name: &str, gteq: u64, check_valid_time: bool) -> (r: Result<
    u64,
    ConfigError,
>)
    ensures
        exists|now: u64| u64_input_checked(n, var_name@, gteq, check_valid_time, now, r),
{
    let now = now_unix_secs();
    validate_u64_input_at(n, var_name, gteq, check_valid_time, now)
}

/// A signed filter amount: negative turns the filter off.
pub fn validate_i64_as_u64_input(n: i64) -> (r: Option<u64>)
    ensures
        n < 0 ==> r is None,
        n >= 0 ==> r == Some(n as u64),
{
    if n < 0 {
        None
    } else {
        Some(n as u64)
    }
}

/// Checks that the absolute value of a length option reaches the minimum.
pub fn validate_i64_input_absolute(n: i64, var_name: &str, gteq: i64) -> (r: Result<i64, ConfigError>)
    ensures
        abs_checked(n, var_name@, gteq, r),
{
    let a: i64 = if n == i64::MIN {
        i64::MIN
    } else if n < 0 {
        -n
    } else {
        n
    };
    if a < gteq {
        let cs = str_chars(var_name);
        return Err(
            ConfigError::AbsoluteBelowMinimum { name: string_from_chars(cs.as_slice()), min_abs: gteq },
        );
    }
    Ok(n)
}

/// A signed option value that must not be negative, checked as an unsigned one at `now`.
pub fn options_value_to_u64_at(name: &str, value: i64, gteq: u64, check_valid_time: bool, now: u64) -> (r:
    Result<u64, ConfigError>)
    ensures
        i64_as_u64_checked(value, name@, gteq, check_valid_time, now, r),
{
    if value >= 0 {
        validate_u64_input_at(value as u64, name, gteq, check_valid_time, now)
    } else {
        let cs = str_chars(name);
        Err(ConfigError::Negative { name: string_from_chars(cs.as_slice()), value })
    }
}

/// A signed option value that must not be negative, checked as an unsigned one now.
pub fn options_value_to_u64(name: &str, value: i64, gteq: u64, check_valid_time: bool) -> (r: Result<
    u64,
    ConfigError,
>)
    ensures
        exists|now: u64| i64_as_u64_checked(value, name@, gteq, check_valid_time, now, r),
{
    let now = now_unix_secs();
    options_value_to_u64_at(name, value, gteq, check_valid_time, now)
}

/// A signed option value that must not be negative, as a count.
pub fn options_value_to_usize(name: &str, value: i64) -> (r: Result<usize, ConfigError>)
    ensures
        usize_checked(value, name@, r),
{
    if value >= 0 {
        if value as u64 > usize::MAX as u64 {
            let cs = str_chars(name);
            return Err(ConfigError::TooLarge { name: string_from_chars(cs.as_slice()), value });
        }
        Ok(value as usize)
    } else {
        let cs = str_chars(name);
        Err(ConfigError::Negative { name: string_from_chars(cs.as_slice()), value })
    }
}

/// What parsing a sort option gives: a leading `-` reverses the order; the rest names a
/// column up to ASCII case, and the graph column is refused.
pub open spec fn sort_parsed(input: Seq<char>, r: Result<(SummaryColumns, bool), ConfigError>) -> bool {
    let reverse = input.len() > 0 && input[0] == '-';
    let rest = if reverse {
        input.drop_first()
    } else {
        input
    };
    let sane = ascii_lower(rest);
    if sane == "graph_sats"@ {
        r matches Err(ConfigError::SortByGraphSats)
    } else if is_column_name::<SummaryColumns>(sane) {
        r matches Ok((c, rev)) && rev == reverse && names_match(c.col_name(), sane)
    } else {
        r matches Err(ConfigError::InvalidSortColumn(m)) && m@ == ascii_upper(input)
    }
}

/// Reads the column to sort the channels table by, and whether to reverse the order.
pub fn parse_sort_input(input: &str) -> (r: Result<(SummaryColumns, bool), ConfigError>)
    ensures
        sort_parsed(input@, r),
{
    let cs = str_chars(input);
    let reverse = cs.len() > 0 && cs[0] == '-';
    let rest = if reverse {
        chars_from(&cs, 1)
    } else {
        chars_from(&cs, 0)
    };
    proof {
        assert(cs@.subrange(0, cs@.len() as int) =~= cs@);
        if reverse {
            assert(cs@.subrange(1, cs@.len() as int) =~= cs@.drop_first());
        }
    }
    let sane = to_lower_chars(&rest);
    let graph = str_chars("graph_sats");
    if chars_eq(&sane, &graph) {
        return Err(ConfigError::SortByGraphSats);
    }
    match find_column::<SummaryColumns>(&sane) {
        Some(col) => {
            proof {
                assert(ascii_lower(sane@) =~= sane@);
            }
            Ok((col, reverse))
        },
        None => {
            proof {
                assert forall|c: SummaryColumns| !names_match(c.col_name(), sane@) by {
                }
            }
            let up = to_upper_chars(&cs);
            Err(ConfigError::InvalidSortColumn(string_from_chars(up.as_slice())))
        },
    }
}

/// The pieces of an exclude list: white space dropped, ASCII upper case, split at commas.
pub open spec fn exclude_pieces(input: Seq<char>) -> Seq<Seq<char>> {
    split_by(ascii_upper(strip_ws(input)), ',')
}

/// The channel state that a piece names, compared after Unicode lowercasing.
pub open spec fn piece_state(p: Seq<char>) -> Option<ChannelState> {
    if exists|c: ChannelState| state_lower_name(c) == unicode_lower(p) {
        Some(choose|c: ChannelState| state_lower_name(c) == unicode_lower(p))
    } else {
        None
    }
}

pub open spec fn piece_valid(p: Seq<char>) -> bool {
    ||| piece_state(p) is Some
    ||| p == "PUBLIC"@
    ||| p == "PRIVATE"@
    ||| p == "ONLINE"@
    ||| p == "OFFLINE"@
}

pub open spec fn first_invalid_piece(ps: Seq<Seq<char>>, k: int) -> bool {
    &&& 0 <= k < ps.len()
    &&& !piece_valid(ps[k])
    &&& forall|j: int| 0 <= j < k ==> piece_valid(#[trigger] ps[j])
}

/// The states named in the pieces, in order.
pub open spec fn states_in(ps: Seq<Seq<char>>) -> Seq<ShortChannelState>
    decreases ps.len(),
{
    if ps.len() == 0 {
        Seq::empty()
    } else {
        let prev = states_in(ps.drop_last());
        match piece_state(ps.last()) {
            Some(c) => prev.push(ShortChannelState(c)),
            None => prev,
        }
    }
}

/// The visibility named last among the pieces that name no state.
pub open spec fn visibility_in(ps: Seq<Seq<char>>) -> Option<ChannelVisibility>
    decreases ps.len(),
{
    if ps.len() == 0 {
        None
    } else {
        let prev = visibility_in(ps.drop_last());
        let p = ps.last();
        if piece_state(p) is Some {
            prev
        } else if p == "PUBLIC"@ {
            Some(ChannelVisibility::Public)
        } else if p == "PRIVATE"@ {
            Some(ChannelVisibility::Private)
        } else {
            prev
        }
    }
}

/// The connection status named last among the pieces that name no state.
pub open spec fn connection_in(ps: Seq<Seq<char>>) -> Option<ConnectionStatus>
    decreases ps.len(),
{
    if ps.len() == 0 {
        None
    } else {
        let prev = connection_in(ps.drop_last());
        let p = ps.last();
        if piece_state(p) is Some {
            prev
        } else if p == "ONLINE"@ {
            Some(ConnectionStatus::Online)
        } else if p == "OFFLINE"@ {
            Some(ConnectionStatus::Offline)
        } else {
            prev
        }
    }
}

/// What parsing an exclude list gives: `PUBLIC` with `PRIVATE`, or `ONLINE` with
/// `OFFLINE`, is refused; then the first piece that is neither a state nor one of those
/// four words is refused; else the states, the visibility and the connection status named.
pub open spec fn exclude_parsed(input: Seq<char>, r: Result<ExcludeStates, ConfigError>) -> bool {
    let ps = exclude_pieces(input);
    if ps.contains("PUBLIC"@) && ps.contains("PRIVATE"@) {
        r matches Err(ConfigError::BothVisibilities)
    } else if ps.contains("ONLINE"@) && ps.contains("OFFLINE"@) {
        r matches Err(ConfigError::BothConnectionStatuses)
    } else if exists|k: int| first_invalid_piece(ps, k) {
        r matches Err(ConfigError::InvalidState(m)) && exists|k: int|
            first_invalid_piece(ps, k) && m@ == ps[k]
    } else {
        r matches Ok(ex) && ex.channel_states@ == states_in(ps) && ex.channel_visibility
            == visibility_in(ps) && ex.connection_status == connection_in(ps)
    }
}

/// Reads the list of channel states, visibilities and connection statuses to leave out.
pub fn validate_exclude_states_input(input: &str) -> (r: Result<ExcludeStates, ConfigError>)
    ensures
        exclude_parsed(input@, r),
{
    let raw = str_chars(input);
    let stripped = strip_whitespace(&raw);
    let upper = to_upper_chars(&stripped);
    let pieces = split_chars(&upper, ',');
    let ghost ps = exclude_pieces(input@);
    proof {
        assert(pieces@.len() == ps.len());
        assert forall|k: int| 0 <= k < ps.len() implies (#[trigger] pieces@[k])@ == ps[k] by {
        }
        reveal_strlit("PUBLIC");
        reveal_strlit("PRIVATE");
        reveal_strlit("ONLINE");
        reveal_strlit("OFFLINE");
    }
    let public = str_chars("PUBLIC");
    let private = str_chars("PRIVATE");
    let online = str_chars("ONLINE");
    let offline = str_chars("OFFLINE");
    let has_public = contains_chars(&pieces, &public);
    let has_private = contains_chars(&pieces, &private);
    proof {
        if has_public {
            let k = choose|k: int| 0 <= k < pieces@.len() && (#[trigger] pieces@[k])@ == public@;
            assert(ps[k] == "PUBLIC"@);
        }
        if ps.contains("PUBLIC"@) {
            let k = choose|k: int| 0 <= k < ps.len() && ps[k] == "PUBLIC"@;
            assert(pieces@[k]@ == public@);
        }
        if has_private {
            let k = choose|k: int| 0 <= k < pieces@.len() && (#[trigger] pieces@[k])@ == private@;
            assert(ps[k] == "PRIVATE"@);
        }
        if ps.contains("PRIVATE"@) {
            let k = choose|k: int| 0 <= k < ps.len() && ps[k] == "PRIVATE"@;
            assert(pieces@[k]@ == private@);
        }
    }
    if has_public && has_private {
        return Err(ConfigError::BothVisibilities);
    }
    let has_online = contains_chars(&pieces, &online);
    let has_offline = contains_chars(&pieces, &offline);
    proof {
        if has_online {
            let k = choose|k: int| 0 <= k < pieces@.len() && (#[trigger] pieces@[k])@ == online@;
            assert(ps[k] == "ONLINE"@);
        }
        if ps.contains("ONLINE"@) {
            let k = choose|k: int| 0 <= k < ps.len() && ps[k] == "ONLINE"@;
            assert(pieces@[k]@ == online@);
        }
        if has_offline {
            let k = choose|k: int| 0 <= k < pieces@.len() && (#[trigger] pieces@[k])@ == offline@;
            assert(ps[k] == "OFFLINE"@);
        }
        if ps.contains("OFFLINE"@) {
            let k = choose|k: int| 0 <= k < ps.len() && ps[k] == "OFFLINE"@;
            assert(pieces@[k]@ == offline@);
        }
    }
    if has_online && has_offline {
        return Err(ConfigError::BothConnectionStatuses);
    }
    let mut states: Vec<ShortChannelState> = Vec::new();
    let mut visibility: Option<ChannelVisibility> = None;
    let mut connection: Option<ConnectionStatus> = None;
    let mut i: usize = 0;
    while i < pieces.len()
        invariant
            pieces@.len() == ps.len(),
            forall|k: int| 0 <= k < ps.len() ==> (#[trigger] pieces@[k])@ == ps[k],
            public@ == "PUBLIC"@,
            private@ == "PRIVATE"@,
            online@ == "ONLINE"@,
            offline@ == "OFFLINE"@,
            !(ps.contains("PUBLIC"@) && ps.contains("PRIVATE"@)),
            !(ps.contains("ONLINE"@) && ps.contains("OFFLINE"@)),
            ps == exclude_pieces(input@),
            i <= pieces@.len(),
            forall|j: int| 0 <= j < i ==> piece_valid(#[trigger] ps[j]),
            states@ == states_in(ps.take(i as int)),
            visibility == visibility_in(ps.take(i as int)),
            connection == connection_in(ps.take(i as int)),
        decreases pieces@.len() - i,
    {
        let ghost p = ps[i as int];
        proof {
            assert(ps.take(i + 1).drop_last() =~= ps.take(i as int));
            assert(ps.take(i + 1).last() == p);
            crate::states::lemma_state_names();
            reveal_strlit("PUBLIC");
            reveal_strlit("PRIVATE");
            reveal_strlit("ONLINE");
            reveal_strlit("OFFLINE");
            assert("PUBLIC"@[0] == 'P' && "PRIVATE"@[0] == 'P' && "ONLINE"@[0] == 'O'
                && "OFFLINE"@[0] == 'O');
        }
        let piece_str = string_from_chars(pieces[i].as_slice());
        match ShortChannelState::parse(piece_str.as_str()) {
            Ok(st) => {
                proof {
                    let c = choose|c: ChannelState| state_lower_name(c) == unicode_lower(p);
                    assert(state_lower_name(c) == state_lower_name(st.0));
                }
                states.push(st);
            },
            Err(_) => {
                if chars_eq(&pieces[i], &public) {
                    visibility = Some(ChannelVisibility::Public);
                } else if chars_eq(&pieces[i], &private) {
                    visibility = Some(ChannelVisibility::Private);
                } else if chars_eq(&pieces[i], &online) {
                    connection = Some(ConnectionStatus::Online);
                } else if chars_eq(&pieces[i], &offline) {
                    connection = Some(ConnectionStatus::Offline);
                } else {
                    proof {
                        assert(first_invalid_piece(ps, i as int));
                    }
                    return Err(ConfigError::InvalidState(piece_str));
                }
            },
        }
        i = i + 1;
    }
    proof {
        assert(ps.take(ps.len() as int) =~= ps);
        assert forall|k: int| !first_invalid_piece(ps, k) by {
        }
    }
    Ok(ExcludeStates { channel_states: states, channel_visibility: visibility, connection_status: connection })
}

/// The canonical form of a locale identifier, as `icu_locale::Locale` parses and prints it;
/// `None` where it does not parse.
pub uninterp spec fn canonical_locale(s: Seq<char>) -> Option<Seq<char>>;

/// `icu_locale::Locale::from_str`, then `to_string` on the locale: the identifier in
/// canonical form, or `None` where it does not parse.
#[verifier::external_body]
pub(crate) fn parse_locale(s: &str) -> (r: Option<String>)
    ensures
        r matches Some(l) ==> canonical_locale(s@) == Some(l@),
        r is None ==> canonical_locale(s@) is None,
{
    match <icu_locale::Locale as std::str::FromStr>::from_str(s) {
        Ok(l) => Some(l.to_string()),
        Err(_) => None,
    }
}

/// What setting an option with a validated value does to the settings: on success the
/// option's field (or fields) take the parsed value and nothing else changes; on failure the
/// settings stay as they were and the error is that of the value's validation. The count of
/// closed channels comes as a string that must read as an integer.
pub open spec fn option_effect(
    old: Config,
    opt: Opt,
    v: OptionValue,
    now: u64,
    r: Result<(), ConfigError>,
    new: Config,
) -> bool {
    let key = opt_key(opt);
    match opt {
        Opt::Columns => match r {
            Ok(_) => columns_parsed::<SummaryColumns>(v->String_0@, Ok(new.columns)) && new == Config {
                columns: new.columns,
                ..old
            },
            Err(e) => columns_parsed::<SummaryColumns>(v->String_0@, Err(e)) && new == old,
        },
        Opt::ClosedChannels => match parsed_i64(v->String_0@) {
            Some(n) => match r {
                Ok(_) => usize_checked(n, key, Ok(new.closed_channels)) && new == Config {
                    closed_channels: new.closed_channels,
                    ..old
                },
                Err(e) => usize_checked(n, key, Err(e)) && new == old,
            },
            None => (r matches Err(ConfigError::NotAnInteger(k)) && k@ == key) && new == old,
        },
        Opt::ClosedChannelsColumns => match r {
            Ok(_) => columns_parsed::<ClosedChannelsColumns>(
                v->String_0@,
                Ok(new.closed_channels_columns),
            ) && new == Config { closed_channels_columns: new.closed_channels_columns, ..old },
            Err(e) => columns_parsed::<ClosedChannelsColumns>(v->String_0@, Err(e)) && new == old,
        },
        Opt::SortBy => match r {
            Ok(_) => sort_parsed(v->String_0@, Ok((new.sort_by, new.sort_reverse))) && new == Config {
                sort_by: new.sort_by,
                sort_reverse: new.sort_reverse,
                ..old
            },
            Err(e) => sort_parsed(v->String_0@, Err(e)) && new == old,
        },
        Opt::ExcludeChannelStates => match r {
            Ok(_) => exclude_parsed(v->String_0@, Ok(new.exclude_channel_states)) && new == Config {
                exclude_channel_states: new.exclude_channel_states,
                ..old
            },
            Err(e) => exclude_parsed(v->String_0@, Err(e)) && new == old,
        },
        Opt::Forwards => match r {
            Ok(_) => i64_as_u64_checked(v->Integer_0, key, 0, true, now, Ok(new.forwards)) && new
                == Config { forwards: new.forwards, ..old },
            Err(e) => i64_as_u64_checked(v->Integer_0, key, 0, true, now, Err(e)) && new == old,
        },
        Opt::ForwardsLimit => match r {
            Ok(_) => usize_checked(v->Integer_0, key, Ok(new.forwards_limit)) && new == Config {
                forwards_limit: new.forwards_limit,
                ..old
            },
            Err(e) => usize_checked(v->Integer_0, key, Err(e)) && new == old,
        },
        Opt::ForwardsColumns => match r {
            Ok(_) => columns_parsed::<ForwardsColumns>(v->String_0@, Ok(new.forwards_columns))
                && new == Config { forwards_columns: new.forwards_columns, ..old },
            Err(e) => columns_parsed::<ForwardsColumns>(v->String_0@, Err(e)) && new == old,
        },
        Opt::ForwardsFilterAmt => r is Ok && new == Config {
            forwards_filter_amt_msat: i64_filter(v->Integer_0),
            ..old
        },
        Opt::ForwardsFilterFee => r is Ok && new == Config {
            forwards_filter_fee_msat: i64_filter(v->Integer_0),
            ..old
        },
        Opt::Pays => match r {
            Ok(_) => i64_as_u64_checked(v->Integer_0, key, 0, true, now, Ok(new.pays)) && new
                == Config { pays: new.pays, ..old },
            Err(e) => i64_as_u64_checked(v->Integer_0, key, 0, true, now, Err(e)) && new == old,
        },
        Opt::PaysLimit => match r {
            Ok(_) => usize_checked(v->Integer_0, key, Ok(new.pays_limit)) && new == Config {
                pays_limit: new.pays_limit,
                ..old
            },
            Err(e) => usize_checked(v->Integer_0, key, Err(e)) && new == old,
        },
        Opt::PaysColumns => match r {
            Ok(_) => columns_parsed::<PaysColumns>(v->String_0@, Ok(new.pays_columns)) && new
                == Config { pays_columns: new.pays_columns, ..old },
            Err(e) => columns_parsed::<PaysColumns>(v->String_0@, Err(e)) && new == old,
        },
        Opt::MaxDescLength => match r {
            Ok(_) => abs_checked(v->Integer_0, key, 5, Ok(new.max_desc_length)) && new == Config {
                max_desc_length: new.max_desc_length,
                ..old
            },
            Err(e) => abs_checked(v->Integer_0, key, 5, Err(e)) && new == old,
        },
        Opt::Invoices => match r {
            Ok(_) => i64_as_u64_checked(v->Integer_0, key, 0, true, now, Ok(new.invoices)) && new
                == Config { invoices: new.invoices, ..old },
            Err(e) => i64_as_u64_checked(v->Integer_0, key, 0, true, now, Err(e)) && new == old,
        },
        Opt::InvoicesLimit => match r {
            Ok(_) => usize_checked(v->Integer_0, key, Ok(new.invoices_limit)) && new == Config {
                invoices_limit: new.invoices_limit,
                ..old
            },
            Err(e) => usize_checked(v->Integer_0, key, Err(e)) && new == old,
        },
        Opt::InvoicesColumns => match r {
            Ok(_) => columns_parsed::<InvoicesColumns>(v->String_0@, Ok(new.invoices_columns))
                && new == Config { invoices_columns: new.invoices_columns, ..old },
            Err(e) => columns_parsed::<InvoicesColumns>(v->String_0@, Err(e)) && new == old,
        },
        Opt::MaxLabelLength => match r {
            Ok(_) => abs_checked(v->Integer_0, key, 5, Ok(new.max_label_length)) && new == Config {
                max_label_length: new.max_label_length,
                ..old
            },
            Err(e) => abs_checked(v->Integer_0, key, 5, Err(e)) && new == old,
        },
        Opt::InvoicesFilterAmt => r is Ok && new == Config {
            invoices_filter_amt_msat: i64_filter(v->Integer_0),
            ..old
        },
        Opt::Locale => match r {
            Ok(_) => canonical_locale(v->String_0@) == Some(new.locale@) && new == Config {
                locale: new.locale,
                ..old
            },
            Err(e) => canonical_locale(v->String_0@) is None && (e matches ConfigError::InvalidLocale(
                m,
            ) && m@ == v->String_0@) && new == old,
        },
        Opt::RefreshAlias => match r {
            Ok(_) => i64_as_u64_checked(v->Integer_0, key, 1, false, now, Ok(new.refresh_alias))
                && new == Config { refresh_alias: new.refresh_alias, ..old },
            Err(e) => i64_as_u64_checked(v->Integer_0, key, 1, false, now, Err(e)) && new == old,
        },
        Opt::MaxAliasLength => match r {
            Ok(_) => abs_checked(v->Integer_0, key, 5, Ok(new.max_alias_length)) && new == Config {
                max_alias_length: new.max_alias_length,
                ..old
            },
            Err(e) => abs_checked(v->Integer_0, key, 5, Err(e)) && new == old,
        },
        Opt::AvailabilityInterval => match r {
            Ok(_) => i64_as_u64_checked(
                v->Integer_0,
                key,
                1,
                false,
                now,
                Ok(new.availability_interval),
            ) && new == Config { availability_interval: new.availability_interval, ..old },
            Err(e) => i64_as_u64_checked(v->Integer_0, key, 1, false, now, Err(e)) && new == old,
        },
        Opt::AvailabilityWindow => match r {
            Ok(_) => i64_as_u64_checked(
                v->Integer_0,
                key,
                1,
                false,
                now,
                Ok(new.availability_window),
            ) && new == Config { availability_window: new.availability_window, ..old },
            Err(e) => i64_as_u64_checked(v->Integer_0, key, 1, false, now, Err(e)) && new == old,
        },
        Opt::Utf8 => r is Ok && new == Config { utf8: v->Boolean_0, ..old },
        Opt::Style => match r {
            Ok(_) => style_name(new.style) == unicode_lower(v->String_0@) && new == Config {
                style: new.style,
                ..old
            },
            Err(e) => (forall|c: Styles| style_name(c) != unicode_lower(v->String_0@)) && (
            e matches ConfigError::InvalidStyle(m) && m@ == v->String_0@) && new == old,
        },
        Opt::FlowStyle => match r {
            Ok(_) => style_name(new.flow_style) == unicode_lower(v->String_0@) && new == Config {
                flow_style: new.flow_style,
                ..old
            },
            Err(e) => (forall|c: Styles| style_name(c) != unicode_lower(v->String_0@)) && (
            e matches ConfigError::InvalidStyle(m) && m@ == v->String_0@) && new == old,
        },
        Opt::Json => r is Ok && new == Config { json: v->Boolean_0, ..old },
    }
}

/// Setting an option that succeeds writes the option's own field, and only it: the hour counts,
/// limits and lengths take the number given, the filters take it (off where negative), the
/// switches take the boolean, each of the two styles takes the style named (whatever the case
/// of its letters), the locale takes its canonical form, and the column lists, sort column and
/// excluded states take what their text reads as; every other field stays as it was.
pub proof fn lemma_option_sets_own_field(old: Config, opt: Opt, v: OptionValue, now: u64, new: Config)
    requires
        option_value_fits(opt, v),
        option_effect(old, opt, v, now, Ok(()), new),
    ensures
        opt == Opt::Columns ==> new == (Config { columns: new.columns, ..old }),
        opt == Opt::ClosedChannels ==> new.closed_channels as int == parsed_i64(v->String_0@)->0
            && new == (Config { closed_channels: new.closed_channels, ..old }),
        opt == Opt::ClosedChannelsColumns ==> new == (Config {
            closed_channels_columns: new.closed_channels_columns,
            ..old
        }),
        opt == Opt::SortBy ==> new == (Config { sort_by: new.sort_by, sort_reverse: new.sort_reverse, ..old }),
        opt == Opt::ExcludeChannelStates ==> new == (Config {
            exclude_channel_states: new.exclude_channel_states,
            ..old
        }),
        opt == Opt::Forwards ==> new.forwards as int == v->Integer_0 && new == (Config { forwards: new.forwards, ..old }),
        opt == Opt::ForwardsLimit ==> new.forwards_limit as int == v->Integer_0 && new == (Config {
            forwards_limit: new.forwards_limit,
            ..old
        }),
        opt == Opt::ForwardsColumns ==> new == (Config { forwards_columns: new.forwards_columns, ..old }),
        opt == Opt::ForwardsFilterAmt ==> new == (Config {
            forwards_filter_amt_msat: if v->Integer_0 < 0 {
                None
            } else {
                Some(v->Integer_0 as u64)
            },
            ..old
        }),
        opt == Opt::ForwardsFilterFee ==> new == (Config {
            forwards_filter_fee_msat: if v->Integer_0 < 0 {
                None
            } else {
                Some(v->Integer_0 as u64)
            },
            ..old
        }),
        opt == Opt::Pays ==> new.pays as int == v->Integer_0 && new == (Config { pays: new.pays, ..old }),
        opt == Opt::PaysLimit ==> new.pays_limit as int == v->Integer_0 && new == (Config {
            pays_limit: new.pays_limit,
            ..old
        }),
        opt == Opt::PaysColumns ==> new == (Config { pays_columns: new.pays_columns, ..old }),
        opt == Opt::MaxDescLength ==> new == (Config { max_desc_length: v->Integer_0, ..old }),
        opt == Opt::Invoices ==> new.invoices as int == v->Integer_0 && new == (Config { invoices: new.invoices, ..old }),
        opt == Opt::InvoicesLimit ==> new.invoices_limit as int == v->Integer_0 && new == (Config {
            invoices_limit: new.invoices_limit,
            ..old
        }),
        opt == Opt::InvoicesColumns ==> new == (Config { invoices_columns: new.invoices_columns, ..old }),
        opt == Opt::MaxLabelLength ==> new == (Config { max_label_length: v->Integer_0, ..old }),
        opt == Opt::InvoicesFilterAmt ==> new == (Config {
            invoices_filter_amt_msat: if v->Integer_0 < 0 {
                None
            } else {
                Some(v->Integer_0 as u64)
            },
            ..old
        }),
        opt == Opt::Locale ==> canonical_locale(v->String_0@) == Some(new.locale@) && new == (Config {
            locale: new.locale,
            ..old
        }),
        opt == Opt::RefreshAlias ==> new.refresh_alias as int == v->Integer_0 && new == (Config {
            refresh_alias: new.refresh_alias,
            ..old
        }),
        opt == Opt::MaxAliasLength ==> new == (Config { max_alias_length: v->Integer_0, ..old }),
        opt == Opt::AvailabilityInterval ==> new.availability_interval as int == v->Integer_0 && new == (Config {
            availability_interval: new.availability_interval,
            ..old
        }),
        opt == Opt::AvailabilityWindow ==> new.availability_window as int == v->Integer_0 && new == (Config {
            availability_window: new.availability_window,
            ..old
        }),
        opt == Opt::Utf8 ==> new == (Config { utf8: v->Boolean_0, ..old }),
        opt == Opt::Style ==> style_name(new.style) == unicode_lower(v->String_0@) && new == (Config {
            style: new.style,
            ..old
        }),
        opt == Opt::FlowStyle ==> style_name(new.flow_style) == unicode_lower(v->String_0@) && new == (Config {
            flow_style: new.flow_style,
            ..old
        }),
        opt == Opt::Json ==> new == (Config { json: v->Boolean_0, ..old }),
{
}

/// A filter amount: off where negative.
pub open spec fn i64_filter(n: i64) -> Option<u64> {
    if n < 0 {
        None
    } else {
        Some(n as u64)
    }
}

/// Sets an option from a value of the kind it takes, validating it at the time `now`.
pub fn check_option_at(config: &mut Config, opt: Opt, value: &OptionValue, now: u64) -> (r: Result<
    (),
    ConfigError,
>)
    requires
        option_value_fits(opt, *value),
    ensures
        option_effect(*old(config), opt, *value, now, r, *final(config)),
        r is Ok && opt == Opt::FlowStyle ==> style_name(final(config).flow_style) == unicode_lower(
            value->String_0@,
        ) && final(config).style == old(config).style,
        r is Ok && opt == Opt::Style ==> style_name(final(config).style) == unicode_lower(value->String_0@)
            && final(config).flow_style == old(config).flow_style,
        (opt == Opt::Style || opt == Opt::FlowStyle) && (exists|c: Styles|
            style_name(c) == unicode_lower(value->String_0@)) ==> r is Ok,
{
    let key = opt.as_key();
    match opt {
        Opt::Columns => {
            let OptionValue::String(s) = value else { return Ok(()) };
            let v = SummaryColumns::parse_columns(s.as_str())?;
            config.columns = v;
        },
        Opt::ClosedChannels => {
            let OptionValue::String(s) = value else { return Ok(()) };
            let cs = str_chars(s.as_str());
            match parse_i64(&cs) {
                Some(n) => {
                    let v = options_value_to_usize(key, n)?;
                    config.closed_channels = v;
                },
                None => {
                    return Err(ConfigError::NotAnInteger(key_string(opt)));
                },
            }
        },
        Opt::ClosedChannelsColumns => {
            let OptionValue::String(s) = value else { return Ok(()) };
            let v = ClosedChannelsColumns::parse_columns(s.as_str())?;
            config.closed_channels_columns = v;
        },
        Opt::SortBy => {
            let OptionValue::String(s) = value else { return Ok(()) };
            let (col, rev) = parse_sort_input(s.as_str())?;
            config.sort_by = col;
            config.sort_reverse = rev;
        },
        Opt::ExcludeChannelStates => {
            let OptionValue::String(s) = value else { return Ok(()) };
            let v = validate_exclude_states_input(s.as_str())?;
            config.exclude_channel_states = v;
        },
        Opt::Forwards => {
            let OptionValue::Integer(n) = value else { return Ok(()) };
            let v = options_value_to_u64_at(key, *n, 0, true, now)?;
            config.forwards = v;
        },
        Opt::ForwardsLimit => {
            let OptionValue::Integer(n) = value else { return Ok(()) };
            let v = options_value_to_usize(key, *n)?;
            config.forwards_limit = v;
        },
        Opt::ForwardsColumns => {
            let OptionValue::String(s) = value else { return Ok(()) };
            let v = ForwardsColumns::parse_columns(s.as_str())?;
            config.forwards_columns = v;
        },
        Opt::ForwardsFilterAmt => {
            let OptionValue::Integer(n) = value else { return Ok(()) };
            config.forwards_filter_amt_msat = validate_i64_as_u64_input(*n);
        },
        Opt::ForwardsFilterFee => {
            let OptionValue::Integer(n) = value else { return Ok(()) };
            config.forwards_filter_fee_msat = validate_i64_as_u64_input(*n);
        },
        Opt::Pays => {
            let OptionValue::Integer(n) = value else { return Ok(()) };
            let v = options_value_to_u64_at(key, *n, 0, true, now)?;
            config.pays = v;
        },
        Opt::PaysLimit => {
            let OptionValue::Integer(n) = value else { return Ok(()) };
            let v = options_value_to_usize(key, *n)?;
            config.pays_limit = v;
        },
        Opt::PaysColumns => {
            let OptionValue::String(s) = value else { return Ok(()) };
            let v = PaysColumns::parse_columns(s.as_str())?;
            config.pays_columns = v;
        },
        Opt::MaxDescLength => {
            let OptionValue::Integer(n) = value else { return Ok(()) };
            let v = validate_i64_input_absolute(*n, key, 5)?;
            config.max_desc_length = v;
        },
        Opt::Invoices => {
            let OptionValue::Integer(n) = value else { return Ok(()) };
            let v = options_value_to_u64_at(key, *n, 0, true, now)?;
            config.invoices = v;
        },
        Opt::InvoicesLimit => {
            let OptionValue::Integer(n) = value else { return Ok(()) };
            let v = options_value_to_usize(key, *n)?;
            config.invoices_limit = v;
        },
        Opt::InvoicesColumns => {
            let OptionValue::String(s) = value else { return Ok(()) };
            let v = InvoicesColumns::parse_columns(s.as_str())?;
            config.invoices_columns = v;
        },
        Opt::MaxLabelLength => {
            let OptionValue::Integer(n) = value else { return Ok(()) };
            let v = validate_i64_input_absolute(*n, key, 5)?;
            config.max_label_length = v;
        },
        Opt::InvoicesFilterAmt => {
            let OptionValue::Integer(n) = value else { return Ok(()) };
            config.invoices_filter_amt_msat = validate_i64_as_u64_input(*n);
        },
        Opt::Locale => {
            let OptionValue::String(s) = value else { return Ok(()) };
            match parse_locale(s.as_str()) {
                Some(l) => {
                    config.locale = l;
                },
                None => {
                    let cs = str_chars(s.as_str());
                    return Err(ConfigError::InvalidLocale(string_from_chars(cs.as_slice())));
                },
            }
        },
        Opt::RefreshAlias => {
            let OptionValue::Integer(n) = value else { return Ok(()) };
            let v = options_value_to_u64_at(key, *n, 1, false, now)?;
            config.refresh_alias = v;
        },
        Opt::MaxAliasLength => {
            let OptionValue::Integer(n) = value else { return Ok(()) };
            let v = validate_i64_input_absolute(*n, key, 5)?;
            config.max_alias_length = v;
        },
        Opt::AvailabilityInterval => {
            let OptionValue::Integer(n) = value else { return Ok(()) };
            let v = options_value_to_u64_at(key, *n, 1, false, now)?;
            config.availability_interval = v;
        },
        Opt::AvailabilityWindow => {
            let OptionValue::Integer(n) = value else { return Ok(()) };
            let v = options_value_to_u64_at(key, *n, 1, false, now)?;
            config.availability_window = v;
        },
        Opt::Utf8 => {
            let OptionValue::Boolean(b) = value else { return Ok(()) };
            config.utf8 = *b;
        },
        Opt::Style => {
            let OptionValue::String(s) = value else { return Ok(()) };
            let st = Styles::parse(s.as_str())?;
            config.style = st;
        },
        Opt::FlowStyle => {
            let OptionValue::String(s) = value else { return Ok(()) };
            let st = Styles::parse(s.as_str())?;
            config.flow_style = st;
        },
        Opt::Json => {
            let OptionValue::Boolean(b) = value else { return Ok(()) };
            config.json = *b;
        },
    }
    proof {
        assert(option_effect(*old(config), opt, *value, now, Ok(()), *config));
        lemma_option_sets_own_field(*old(config), opt, *value, now, *config);
    }
    Ok(())
}

/// Sets an option from a value of the kind it takes, validating hour counts at the current
/// time.
pub fn check_option(config: &mut Config, opt: Opt, value: &OptionValue) -> (r: Result<(), ConfigError>)
    requires
        option_value_fits(opt, *value),
    ensures
        exists|now: u64| option_effect(*old(config), opt, *value, now, r, *final(config)),
{
    let now = now_unix_secs();
    check_option_at(config, opt, value, now)
}

/// What checking that no limit is set without its time window gives, in the order
/// forwards, pays, invoices.
pub open spec fn dependencies_checked(c: Config, r: Result<(), ConfigError>) -> bool {
    if c.forwards_limit > 0 && c.forwards == 0 {
        r matches Err(ConfigError::MissingDependency { needed: n, by: b }) && n == Opt::Forwards
            && b == Opt::ForwardsLimit
    } else if c.pays_limit > 0 && c.pays == 0 {
        r matches Err(ConfigError::MissingDependency { needed: n, by: b }) && n == Opt::Pays && b
            == Opt::PaysLimit
    } else if c.invoices_limit > 0 && c.invoices == 0 {
        r matches Err(ConfigError::MissingDependency { needed: n, by: b }) && n == Opt::Invoices
            && b == Opt::InvoicesLimit
    } else {
        r is Ok
    }
}

/// A limit only has an effect where its time window is set.
pub fn check_options_dependencies(config: &Config) -> (r: Result<(), ConfigError>)
    ensures
        dependencies_checked(*config, r),
{
    if config.forwards_limit > 0 && config.forwards == 0 {
        return Err(ConfigError::MissingDependency { needed: Opt::Forwards, by: Opt::ForwardsLimit });
    }
    if config.pays_limit > 0 && config.pays == 0 {
        return Err(ConfigError::MissingDependency { needed: Opt::Pays, by: Opt::PaysLimit });
    }
    if config.invoices_limit > 0 && config.invoices == 0 {
        return Err(ConfigError::MissingDependency { needed: Opt::Invoices, by: Opt::InvoicesLimit });
    }
    Ok(())
}

/// What one request argument does: its key must be an option's, that option must not be
/// one of the long-lasting ones, its value must parse, and then it is set.
pub open spec fn arg_applied(
    c: Config,
    key: Seq<char>,
    v: ArgValue,
    now: u64,
    r: Result<(), ConfigError>,
    c2: Config,
) -> bool {
    if forall|o: Opt| opt_key(o) != key {
        (r matches Err(ConfigError::UnknownOption(m)) && m@ == key) && c2 == c
    } else {
        let o = choose|o: Opt| opt_key(o) == key;
        if opt_is_internal(o) {
            (r matches Err(ConfigError::InternalOption(m)) && m@ == key) && c2 == c
        } else {
            ||| exists|pv: OptionValue|
                option_parsed(o, v, Ok(pv)) && option_effect(c, o, pv, now, r, c2)
            ||| exists|e: ConfigError|
                option_parsed(o, v, Err(e)) && r == Err::<(), ConfigError>(e) && c2 == c
        }
    }
}

proof fn lemma_arg_applied_ok(
    c: Config,
    key: Seq<char>,
    v: ArgValue,
    now: u64,
    r: Result<(), ConfigError>,
    c2: Config,
)
    requires
        r is Ok,
        arg_applied(c, key, v, now, r, c2),
    ensures
        arg_applied(c, key, v, now, Ok(()), c2),
{
    if exists|o: Opt| opt_key(o) == key {
        let o = choose|o: Opt| opt_key(o) == key;
        if !opt_is_internal(o) {
            let pv = choose|pv: OptionValue| option_parsed(o, v, Ok(pv)) && option_effect(c, o, pv, now, r, c2);
            assert(option_effect(c, o, pv, now, Ok(()), c2));
        }
    }
}

/// `cs` are the settings before each of the first `k` arguments and after the last of them,
/// each argument having been set without error.
pub open spec fn args_prefix_trace(
    c0: Config,
    a: Seq<(String, ArgValue)>,
    now: u64,
    cs: Seq<Config>,
    k: int,
) -> bool {
    &&& 0 <= k <= a.len()
    &&& cs.len() == k + 1
    &&& cs[0] == c0
    &&& forall|j: int|
        0 <= j < k ==> arg_applied(
            #[trigger] cs[j],
            a[j].0@,
            a[j].1,
            now,
            Ok(()),
            cs[j + 1],
        )
}

/// What applying the arguments of a request gives, at the time `now`: the arguments are set
/// one after the other until one fails; when all are set, the limits are checked.
pub open spec fn args_applied(
    c0: Config,
    a: Seq<(String, ArgValue)>,
    now: u64,
    r: Result<(), ConfigError>,
    c1: Config,
) -> bool {
    exists|cs: Seq<Config>, k: int|
        #![trigger args_prefix_trace(c0, a, now, cs, k)]
        args_prefix_trace(c0, a, now, cs, k) && {
            ||| k < a.len() && r is Err && arg_applied(cs[k], a[k].0@, a[k].1, now, r, c1)
            ||| k == a.len() && c1 == cs[k] && dependencies_checked(cs[k], r)
        }
}

/// Applies the arguments of a request to a copy of the settings, at the time `now`. `None`
/// stands for arguments that are not a JSON object, which leave the settings as they are.
pub fn validateargs_at(args: &Option<Vec<(String, ArgValue)>>, config: &mut Config, now: u64) -> (r:
    Result<(), ConfigError>)
    ensures
        args is None ==> r is Ok && *final(config) == *old(config),
        args matches Some(a) ==> args_applied(*old(config), a@, now, r, *final(config)),
{
    let a = match args {
        None => {
            return Ok(());
        },
        Some(a) => a,
    };
    let ghost c0 = *config;
    let ghost mut cs: Seq<Config> = seq![*config];
    let mut i: usize = 0;
    while i < a.len()
        invariant
            i <= a@.len(),
            args_prefix_trace(c0, a@, now, cs, i as int),
            *config == cs.last(),
            args == Some(*a),
            c0 == *old(config),
        decreases a@.len() - i,
    {
        let ghost before = *config;
        let (key, value) = (&a[i].0, &a[i].1);
        proof {
            crate::opts::lemma_opt_key_injective(Opt::Columns, Opt::Columns);
        }
        let opt = match Opt::from_key(key.as_str()) {
            Ok(o) => o,
            Err(e) => {
                proof {
                    assert(arg_applied(before, a@[i as int].0@, a@[i as int].1, now, Err(e), *config));
                    assert(args_prefix_trace(c0, a@, now, cs, i as int));
                }
                return Err(e);
            },
        };
        proof {
            let o = choose|o: Opt| opt_key(o) == key@;
            crate::opts::lemma_opt_key_injective(o, opt);
        }
        if opt.is_internal() {
            let cs2 = str_chars(key.as_str());
            let e = ConfigError::InternalOption(string_from_chars(cs2.as_slice()));
            proof {
                assert(arg_applied(before, a@[i as int].0@, a@[i as int].1, now, Err(e), *config));
                assert(args_prefix_trace(c0, a@, now, cs, i as int));
            }
            return Err(e);
        }
        let parsed = parse_option(opt, value);
        let pv = match parsed {
            Ok(pv) => pv,
            Err(e) => {
                proof {
                    assert(option_parsed(opt, a@[i as int].1, Err(e)));
                    assert(arg_applied(before, a@[i as int].0@, a@[i as int].1, now, Err(e), *config));
                    assert(args_prefix_trace(c0, a@, now, cs, i as int));
                }
                return Err(e);
            },
        };
        let res = check_option_at(config, opt, &pv, now);
        proof {
            assert(option_parsed(opt, a@[i as int].1, Ok(pv)));
            assert(arg_applied(before, a@[i as int].0@, a@[i as int].1, now, res, *config));
        }
        if res.is_err() {
            proof {
                assert(args_prefix_trace(c0, a@, now, cs, i as int));
            }
            return res;
        }
        proof {
            lemma_arg_applied_ok(before, a@[i as int].0@, a@[i as int].1, now, res, *config);
        }
        proof {
            let ghost old_cs = cs;
            cs = cs.push(*config);
            assert(args_prefix_trace(c0, a@, now, cs, i + 1)) by {
                assert forall|j: int| 0 <= j < i + 1 implies arg_applied(
                    #[trigger] cs[j],
                    a@[j].0@,
                    a@[j].1,
                    now,
                    Ok(()),
                    cs[j + 1],
                ) by {
                    if j < i {
                        assert(cs[j] == old_cs[j]);
                        assert(cs[j + 1] == old_cs[j + 1]);
                    } else {
                        assert(cs[j] == before);
                        assert(cs[j + 1] == *config);
                    }
                }
            }
        }
        i = i + 1;
    }
    let r = check_options_dependencies(config);
    proof {
        assert(args_prefix_trace(c0, a@, now, cs, a@.len() as int));
    }
    r
}

/// Applies the arguments of a request to a copy of the settings, validating hour counts at
/// the current time.
pub fn validateargs(args: &Option<Vec<(String, ArgValue)>>, config: &mut Config) -> (r: Result<
    (),
    ConfigError,
>)
    ensures
        args is None ==> r is Ok && *final(config) == *old(config),
        args matches Some(a) ==> exists|now: u64|
            args_applied(*old(config), a@, now, r, *final(config)),
{
    let now = now_unix_secs();
    validateargs_at(args, config, now)
}


/// The locales that the system reports, most preferred first
/// (`sys_locale::get_locales`). Nothing is stated of them: they come from the environment.
#[verifier::external_body]
fn system_locales() -> Vec<String> {
    sys_locale::get_locales().collect()
}

/// The canonical form of the first of `ls` that is a valid locale identifier.
pub open spec fn first_canonical(ls: Seq<Seq<char>>) -> Option<Seq<char>>
    decreases ls.len(),
{
    if ls.len() == 0 {
        None
    } else if canonical_locale(ls[0]) is Some {
        canonical_locale(ls[0])
    } else {
        first_canonical(ls.drop_first())
    }
}

/// The locale used when the system offers none that parses: `en-US`.
pub open spec fn fallback_locale() -> Seq<char> {
    match canonical_locale("en-US"@) {
        Some(l) => l,
        None => "en-US"@,
    }
}

/// The locale chosen from the system's list: the first that parses, else `en-US`.
pub open spec fn chosen_locale(ls: Seq<Seq<char>>) -> Seq<char> {
    match first_canonical(ls) {
        Some(l) => l,
        None => fallback_locale(),
    }
}

/// The views of a list of strings.
pub open spec fn string_views(v: Seq<String>) -> Seq<Seq<char>> {
    v.map_values(|s: String| s@)
}

/// Picks the locale from the system's list: the first identifier that parses, in canonical
/// form, else `en-US`.
pub fn pick_locale(locales: &Vec<String>) -> (r: String)
    ensures
        r@ == chosen_locale(string_views(locales@)),
{
    let ghost ls = string_views(locales@);
    proof {
        assert(ls.subrange(0, ls.len() as int) =~= ls);
    }
    let mut i: usize = 0;
    while i < locales.len()
        invariant
            i <= locales@.len(),
            ls == string_views(locales@),
            ls.len() == locales@.len(),
            first_canonical(ls) == first_canonical(ls.subrange(i as int, ls.len() as int)),
        decreases locales@.len() - i,
    {
        proof {
            assert(ls.subrange(i as int, ls.len() as int).drop_first() =~= ls.subrange(
                i + 1,
                ls.len() as int,
            ));
            assert(ls.subrange(i as int, ls.len() as int)[0] == locales@[i as int]@);
        }
        match parse_locale(locales[i].as_str()) {
            Some(l) => {
                return l;
            },
            None => {},
        }
        i = i + 1;
    }
    proof {
        assert(ls.subrange(i as int, ls.len() as int) =~= Seq::<Seq<char>>::empty());
    }
    let en = "en-US";
    proof {
        reveal_strlit("en-US");
    }
    match parse_locale(en) {
        Some(l) => l,
        None => {
            let cs = str_chars(en);
            string_from_chars(cs.as_slice())
        },
    }
}

/// The settings before any option is set, with the given locale: the default columns of
/// each table, sorting by `SCID` upwards, no channel excluded, every flow table off and
/// unlimited, no filters, descriptions and labels cut at 30 characters and aliases at 20,
/// aliases refreshed every 24 hours, availability sampled every 300 seconds over 72 hours,
/// UTF-8 on, the `modern` style for the channels table and `blank` for the flow tables, and
/// text output.
pub open spec fn is_default_config(c: Config, locale: Seq<char>) -> bool {
    &&& c.columns@ == spec_default_columns::<SummaryColumns>()
    &&& c.closed_channels == 0
    &&& c.closed_channels_columns@ == spec_default_columns::<ClosedChannelsColumns>()
    &&& c.sort_by == SummaryColumns::SCID
    &&& !c.sort_reverse
    &&& c.exclude_channel_states.channel_states@.len() == 0
    &&& c.exclude_channel_states.channel_visibility is None
    &&& c.exclude_channel_states.connection_status is None
    &&& c.forwards == 0
    &&& c.forwards_limit == 0
    &&& c.forwards_columns@ == spec_default_columns::<ForwardsColumns>()
    &&& c.forwards_filter_amt_msat is None
    &&& c.forwards_filter_fee_msat is None
    &&& c.pays == 0
    &&& c.pays_limit == 0
    &&& c.pays_columns@ == spec_default_columns::<PaysColumns>()
    &&& c.max_desc_length == 30
    &&& c.invoices == 0
    &&& c.invoices_limit == 0
    &&& c.invoices_columns@ == spec_default_columns::<InvoicesColumns>()
    &&& c.max_label_length == 30
    &&& c.invoices_filter_amt_msat is None
    &&& c.locale@ == locale
    &&& c.refresh_alias == 24
    &&& c.max_alias_length == 20
    &&& c.availability_interval == 300
    &&& c.availability_window == 72
    &&& c.utf8
    &&& c.style == Styles::Modern
    &&& c.flow_style == Styles::Blank
    &&& !c.json
}

impl Config {
    /// The default settings, with the locale picked from `locales` (see `pick_locale`).
    pub fn with_locales(locales: &Vec<String>) -> (c: Config)
        ensures
            is_default_config(c, chosen_locale(string_views(locales@))),
    {
        Config {
            columns: SummaryColumns::default_columns(),
            closed_channels: 0,
            closed_channels_columns: ClosedChannelsColumns::default_columns(),
            sort_by: SummaryColumns::SCID,
            sort_reverse: false,
            exclude_channel_states: ExcludeStates {
                channel_states: Vec::new(),
                channel_visibility: None,
                connection_status: None,
            },
            forwards: 0,
            forwards_limit: 0,
            forwards_columns: ForwardsColumns::default_columns(),
            forwards_filter_amt_msat: None,
            forwards_filter_fee_msat: None,
            pays: 0,
            pays_limit: 0,
            pays_columns: PaysColumns::default_columns(),
            max_desc_length: 30,
            invoices: 0,
            invoices_limit: 0,
            invoices_columns: InvoicesColumns::default_columns(),
            max_label_length: 30,
            invoices_filter_amt_msat: None,
            locale: pick_locale(locales),
            refresh_alias: 24,
            max_alias_length: 20,
            availability_interval: 300,
            availability_window: 72,
            utf8: true,
            style: Styles::Modern,
            flow_style: Styles::Blank,
            json: false,
        }
    }

    /// The default settings, with the locale picked from the system's locales.
    pub fn new() -> (c: Config)
        ensures
            exists|ls: Seq<Seq<char>>| is_default_config(c, chosen_locale(ls)),
    {
        let locales = system_locales();
        Config::with_locales(&locales)
    }
}

/// Settings `cs` before each of the first `k` options and after the last of them, each set
/// without error.
pub open spec fn options_prefix_trace(
    c0: Config,
    vals: Seq<(Opt, OptionValue)>,
    now: u64,
    cs: Seq<Config>,
    k: int,
) -> bool {
    &&& 0 <= k <= vals.len()
    &&& cs.len() == k + 1
    &&& cs[0] == c0
    &&& forall|j: int|
        0 <= j < k ==> option_effect(
            #[trigger] cs[j],
            vals[j].0,
            vals[j].1,
            now,
            Ok(()),
            cs[j + 1],
        )
}

/// What setting the options in order gives, at the time `now`: each is set in turn until
/// one fails, whose error is returned with the settings as they were before it.
pub open spec fn options_applied(
    c0: Config,
    vals: Seq<(Opt, OptionValue)>,
    now: u64,
    r: Result<(), ConfigError>,
    c1: Config,
) -> bool {
    exists|cs: Seq<Config>, k: int|
        #![trigger options_prefix_trace(c0, vals, now, cs, k)]
        options_prefix_trace(c0, vals, now, cs, k) && {
            ||| k < vals.len() && r is Err && option_effect(cs[k], vals[k].0, vals[k].1, now, r, c1)
            ||| k == vals.len() && c1 == cs[k] && r is Ok
        }
}

/// Sets the options that were given at startup, in order, validating hour counts at `now`.
pub fn apply_options_at(config: &mut Config, vals: &Vec<(Opt, OptionValue)>, now: u64) -> (r:
    Result<(), ConfigError>)
    requires
        forall|k: int| 0 <= k < vals@.len() ==> option_value_fits(#[trigger] vals@[k].0, vals@[k].1),
    ensures
        options_applied(*old(config), vals@, now, r, *final(config)),
{
    let ghost c0 = *config;
    let ghost mut cs: Seq<Config> = seq![*config];
    let mut i: usize = 0;
    while i < vals.len()
        invariant
            i <= vals@.len(),
            forall|k: int| 0 <= k < vals@.len() ==> option_value_fits(#[trigger] vals@[k].0, vals@[k].1),
            options_prefix_trace(c0, vals@, now, cs, i as int),
            *config == cs.last(),
            c0 == *old(config),
        decreases vals@.len() - i,
    {
        let ghost before = *config;
        let res = check_option_at(config, vals[i].0, &vals[i].1, now);
        if res.is_err() {
            proof {
                assert(options_prefix_trace(c0, vals@, now, cs, i as int));
            }
            return res;
        }
        proof {
            let ghost old_cs = cs;
            cs = cs.push(*config);
            assert(options_prefix_trace(c0, vals@, now, cs, i + 1)) by {
                assert forall|j: int| 0 <= j < i + 1 implies option_effect(
                    #[trigger] cs[j],
                    vals@[j].0,
                    vals@[j].1,
                    now,
                    Ok(()),
                    cs[j + 1],
                ) by {
                    if j < i {
                        assert(cs[j] == old_cs[j]);
                        assert(cs[j + 1] == old_cs[j + 1]);
                    } else {
                        assert(cs[j] == before);
                        assert(cs[j + 1] == *config);
                    }
                }
            }
        }
        i = i + 1;
    }
    proof {
        assert(options_prefix_trace(c0, vals@, now, cs, vals@.len() as int));
    }
    Ok(())
}

/// Sets the options that were given at startup, in order, validating hour counts at the
/// current time.
pub fn apply_options(config: &mut Config, vals: &Vec<(Opt, OptionValue)>) -> (r: Result<
    (),
    ConfigError,
>)
    requires
        forall|k: int| 0 <= k < vals@.len() ==> option_value_fits(#[trigger] vals@[k].0, vals@[k].1),
    ensures
        exists|now: u64| options_applied(*old(config), vals@, now, r, *final(config)),
{
    let now = now_unix_secs();
    apply_options_at(config, vals, now)
}

/// What a `setconfig` of the key `key` to `v` does, at the time `now`: the key must be an
/// option's, its value must parse, and then it is set; on success the parsed value is
/// returned, to be stored with the plugin framework.
pub open spec fn setconfig_applied(
    c: Config,
    key: Seq<char>,
    v: ArgValue,
    now: u64,
    r: Result<OptionValue, ConfigError>,
    c2: Config,
) -> bool {
    if forall|o: Opt| opt_key(o) != key {
        (r matches Err(ConfigError::UnknownOption(m)) && m@ == key) && c2 == c
    } else {
        let o = choose|o: Opt| opt_key(o) == key;
        ||| exists|pv: OptionValue|
            option_parsed(o, v, Ok(pv)) && match r {
                Ok(rv) => rv == pv && option_effect(c, o, pv, now, Ok(()), c2),
                Err(e) => option_effect(c, o, pv, now, Err(e), c2),
            }
        ||| exists|e: ConfigError| option_parsed(o, v, Err(e)) && r == Err::<OptionValue, ConfigError>(e) && c2 == c
    }
}

/// Handles a `setconfig` of one of the plugin's options at the time `now`.
pub fn setconfig_at(config: &mut Config, key: &str, value: &ArgValue, now: u64) -> (r: Result<
    OptionValue,
    ConfigError,
>)
    ensures
        setconfig_applied(*old(config), key@, *value, now, r, *final(config)),
{
    proof {
        crate::opts::lemma_opt_key_injective(Opt::Columns, Opt::Columns);
    }
    let opt = Opt::from_key(key)?;
    proof {
        let o = choose|o: Opt| opt_key(o) == key@;
        crate::opts::lemma_opt_key_injective(o, opt);
    }
    let pv = parse_option(opt, value)?;
    let res = check_option_at(config, opt, &pv, now);
    match res {
        Ok(()) => Ok(pv),
        Err(e) => Err(e),
    }
}

/// Handles a `setconfig` of one of the plugin's options at the current time.
pub fn setconfig(config: &mut Config, key: &str, value: &ArgValue) -> (r: Result<
    OptionValue,
    ConfigError,
>)
    ensures
        exists|now: u64| setconfig_applied(*old(config), key@, *value, now, r, *final(config)),
{
    let now = now_unix_secs();
    setconfig_at(config, key, value, now)
}


/// An option that fails to be set leaves the settings as they were.
pub proof fn lemma_failed_option_keeps_config(
    before: Config,
    opt: Opt,
    v: OptionValue,
    now: u64,
    r: Result<(), ConfigError>,
    after: Config,
)
    requires
        option_effect(before, opt, v, now, r, after),
        r is Err,
    ensures
        after == before,
{
}

/// Applying request arguments that all parse and set without error, then passing the check
/// of the limits, leaves the settings that the last argument set.
pub proof fn lemma_args_ok_all_applied(
    c0: Config,
    a: Seq<(String, ArgValue)>,
    now: u64,
    c1: Config,
)
    requires
        args_applied(c0, a, now, Ok(()), c1),
    ensures
        exists|cs: Seq<Config>|
            args_prefix_trace(c0, a, now, cs, a.len() as int) && c1 == cs.last() && dependencies_checked(
                c1,
                Ok(()),
            ),
{
    let (cs, k) = choose|cs: Seq<Config>, k: int|
        #![trigger args_prefix_trace(c0, a, now, cs, k)]
        args_prefix_trace(c0, a, now, cs, k) && {
            ||| k < a.len() && Ok::<(), ConfigError>(()) is Err && arg_applied(cs[k], a[k].0@, a[k].1, now, Ok(()), c1)
            ||| k == a.len() && c1 == cs[k] && dependencies_checked(cs[k], Ok(()))
        };
    assert(k == a.len());
    assert(cs.last() == cs[k]);
}

} // verus!
