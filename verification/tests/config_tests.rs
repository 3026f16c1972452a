use summars::columns::{ClosedChannelsColumns, ForwardsColumns, InvoicesColumns, PaysColumns, SummaryColumns};
use summars::config::{
    apply_options, check_option_at, check_options_dependencies, is_valid_hour_timestamp_at, options_value_to_usize,
    parse_option, parse_sort_input, setconfig, validate_exclude_states_input,
    validate_i64_as_u64_input, validate_i64_input_absolute, validate_u64_input_at, validateargs, ArgValue,
    ChannelVisibility, Config, ConnectionStatus, OptionValue,
};
use summars::error::ConfigError;
use summars::opts::Opt;
use summars::states::{ChannelState, Styles};

fn en_us() -> Config {
    Config::with_locales(&vec!["en-US".to_string()])
}

#[test]
fn config_defaults() {
    let c = en_us();
    assert_eq!(c.locale, "en-US");
    assert_eq!(
        c.columns,
        vec![
            SummaryColumns::OUT_SATS,
            SummaryColumns::IN_SATS,
            SummaryColumns::SCID,
            SummaryColumns::MAX_HTLC,
            SummaryColumns::FLAG,
            SummaryColumns::BASE,
            SummaryColumns::PPM,
            SummaryColumns::ALIAS,
            SummaryColumns::PEER_ID,
            SummaryColumns::UPTIME,
            SummaryColumns::HTLCS,
            SummaryColumns::STATE,
        ]
    );
    assert_eq!(c.sort_by, SummaryColumns::SCID);
    assert!(!c.sort_reverse);
    assert_eq!(c.forwards, 0);
    assert_eq!(c.pays, 0);
    assert_eq!(c.invoices, 0);
    assert_eq!(c.max_desc_length, 30);
    assert_eq!(c.max_label_length, 30);
    assert_eq!(c.max_alias_length, 20);
    assert_eq!(c.refresh_alias, 24);
    assert_eq!(c.availability_interval, 300);
    assert_eq!(c.availability_window, 72);
    assert!(c.utf8);
    assert_eq!(c.style, Styles::Modern);
    assert_eq!(c.flow_style, Styles::Blank);
    assert!(!c.json);
    assert_eq!(
        c.invoices_columns,
        vec![
            InvoicesColumns::paid_at,
            InvoicesColumns::label,
            InvoicesColumns::sats_received,
            InvoicesColumns::payment_hash,
        ]
    );
    assert!(!c.closed_channels_columns.contains(&ClosedChannelsColumns::TOTAL_SATS));
}

#[test]
fn config_locale_falls_back_to_en_us() {
    let c = Config::with_locales(&vec!["not a locale!".to_string()]);
    assert_eq!(c.locale, "en-US");
    let c = Config::with_locales(&vec![]);
    assert_eq!(c.locale, "en-US");
    let c = Config::with_locales(&vec!["?!".to_string(), "de-DE".to_string()]);
    assert_eq!(c.locale, "de-DE");
}

#[test]
fn config_unknown_key() {
    match Opt::from_key("summars-nothing") {
        Err(ConfigError::UnknownOption(k)) => assert_eq!(k, "summars-nothing"),
        other => panic!("unexpected {:?}", other),
    }
}

#[test]
fn columns_parse_and_list() {
    let v = SummaryColumns::parse_columns("out_sats, In_Sats").unwrap();
    assert_eq!(v, vec![SummaryColumns::OUT_SATS, SummaryColumns::IN_SATS]);
    match SummaryColumns::parse_columns("OUT_SATS,bogus") {
        Err(ConfigError::InvalidColumn(c)) => assert_eq!(c, "bogus"),
        other => panic!("unexpected {:?}", other),
    }
    match SummaryColumns::parse_columns("OUT_SATS,out_sats") {
        Err(ConfigError::DuplicateColumns(c)) => assert_eq!(c, "OUT_SATS,out_sats"),
        other => panic!("unexpected {:?}", other),
    }
    let s = SummaryColumns::to_list_string(&[SummaryColumns::OUT_SATS, SummaryColumns::ALIAS]);
    assert_eq!(s, "OUT_SATS, ALIAS");
    let back = SummaryColumns::parse_columns(&s).unwrap();
    assert_eq!(back, vec![SummaryColumns::OUT_SATS, SummaryColumns::ALIAS]);
    let d = PaysColumns::default_columns();
    let back = PaysColumns::parse_columns(&PaysColumns::to_list_string(&d)).unwrap();
    assert_eq!(back, d);
    assert_eq!(ForwardsColumns::parse_column("FEE_MSATS").unwrap(), ForwardsColumns::fee_msats);
}

#[test]
fn sort_input() {
    let (c, rev) = parse_sort_input("-alias").unwrap();
    assert_eq!(c, SummaryColumns::ALIAS);
    assert!(rev);
    let (c, rev) = parse_sort_input("OUT_SATS").unwrap();
    assert_eq!(c, SummaryColumns::OUT_SATS);
    assert!(!rev);
    assert!(matches!(parse_sort_input("graph_sats"), Err(ConfigError::SortByGraphSats)));
    match parse_sort_input("bogus") {
        Err(ConfigError::InvalidSortColumn(c)) => assert_eq!(c, "BOGUS"),
        other => panic!("unexpected {:?}", other),
    }
}

#[test]
fn exclude_states_input() {
    let ex = validate_exclude_states_input("ok, public").unwrap();
    assert_eq!(ex.channel_states.len(), 1);
    assert_eq!(ex.channel_states[0].0, ChannelState::CHANNELD_NORMAL);
    assert_eq!(ex.channel_visibility, Some(ChannelVisibility::Public));
    assert_eq!(ex.connection_status, None);
    let ex = validate_exclude_states_input("offline").unwrap();
    assert_eq!(ex.connection_status, Some(ConnectionStatus::Offline));
    assert!(matches!(
        validate_exclude_states_input("PUBLIC,PRIVATE"),
        Err(ConfigError::BothVisibilities)
    ));
    assert!(matches!(
        validate_exclude_states_input("online,offline"),
        Err(ConfigError::BothConnectionStatuses)
    ));
    match validate_exclude_states_input("ok,foo") {
        Err(ConfigError::InvalidState(s)) => assert_eq!(s, "FOO"),
        other => panic!("unexpected {:?}", other),
    }
}

#[test]
fn styles_parse() {
    assert_eq!(Styles::parse("MODERN").unwrap(), Styles::Modern);
    assert_eq!(Styles::parse("re_structured_text").unwrap(), Styles::ReStructuredText);
    match Styles::parse("bogus") {
        Err(ConfigError::InvalidStyle(s)) => assert_eq!(s, "bogus"),
        other => panic!("unexpected {:?}", other),
    }
    assert_eq!(Styles::Psql.to_string(), "psql");
    assert_eq!(Styles::AsciiRounded.to_string(), "ascii_rounded");
}

#[test]
fn setconfig_integer_option() {
    let mut c = en_us();
    let r = setconfig(&mut c, "summars-forwards", &ArgValue::Int(24));
    assert!(matches!(r, Ok(OptionValue::Integer(24))));
    assert_eq!(c.forwards, 24);
    let r = setconfig(&mut c, "summars-forwards", &ArgValue::Str("12".to_string()));
    assert!(matches!(r, Ok(OptionValue::Integer(12))));
    assert_eq!(c.forwards, 12);
}

#[test]
fn setconfig_errors_keep_config() {
    let mut c = en_us();
    match setconfig(&mut c, "summars-forwards", &ArgValue::Bool(true)) {
        Err(ConfigError::NotAnInteger(k)) => assert_eq!(k, "summars-forwards"),
        other => panic!("unexpected {:?}", other),
    }
    match setconfig(&mut c, "summars-forwards", &ArgValue::Int(-1)) {
        Err(ConfigError::Negative { name, value }) => {
            assert_eq!(name, "summars-forwards");
            assert_eq!(value, -1);
        },
        other => panic!("unexpected {:?}", other),
    }
    match setconfig(&mut c, "summars-forwards", &ArgValue::Int(i64::MAX)) {
        Err(ConfigError::HoursOutOfRange { name, hours, .. }) => {
            assert_eq!(name, "summars-forwards");
            assert_eq!(hours, i64::MAX as u64);
        },
        other => panic!("unexpected {:?}", other),
    }
    match setconfig(&mut c, "summars-max-alias-length", &ArgValue::Int(3)) {
        Err(ConfigError::AbsoluteBelowMinimum { name, min_abs }) => {
            assert_eq!(name, "summars-max-alias-length");
            assert_eq!(min_abs, 5);
        },
        other => panic!("unexpected {:?}", other),
    }
    match setconfig(&mut c, "summars-refresh-alias", &ArgValue::Int(0)) {
        Err(ConfigError::BelowMinimum { name, gteq }) => {
            assert_eq!(name, "summars-refresh-alias");
            assert_eq!(gteq, 1);
        },
        other => panic!("unexpected {:?}", other),
    }
    match setconfig(&mut c, "summars-locale", &ArgValue::Str("no!such!locale".to_string())) {
        Err(ConfigError::InvalidLocale(l)) => assert_eq!(l, "no!such!locale"),
        other => panic!("unexpected {:?}", other),
    }
    match setconfig(&mut c, "summars-columns", &ArgValue::Int(1)) {
        Err(ConfigError::NotAString(k)) => assert_eq!(k, "summars-columns"),
        other => panic!("unexpected {:?}", other),
    }
    match setconfig(&mut c, "summars-json", &ArgValue::Str("maybe".to_string())) {
        Err(ConfigError::NotABoolean(k)) => assert_eq!(k, "summars-json"),
        other => panic!("unexpected {:?}", other),
    }
    match setconfig(&mut c, "summars-bogus", &ArgValue::Int(1)) {
        Err(ConfigError::UnknownOption(k)) => assert_eq!(k, "summars-bogus"),
        other => panic!("unexpected {:?}", other),
    }
    assert_eq!(c.forwards, 0);
    assert_eq!(c.max_alias_length, 20);
    assert_eq!(c.refresh_alias, 24);
    assert_eq!(c.locale, "en-US");
    assert!(!c.json);
}

#[test]
fn setconfig_other_options() {
    let mut c = en_us();
    assert!(setconfig(&mut c, "summars-max-alias-length", &ArgValue::Int(-10)).is_ok());
    assert_eq!(c.max_alias_length, -10);
    assert!(setconfig(&mut c, "summars-utf8", &ArgValue::Str("false".to_string())).is_ok());
    assert!(!c.utf8);
    assert!(setconfig(&mut c, "summars-locale", &ArgValue::Str("de-DE".to_string())).is_ok());
    assert_eq!(c.locale, "de-DE");
    assert!(setconfig(&mut c, "summars-forwards-filter-amount-msat", &ArgValue::Int(100)).is_ok());
    assert_eq!(c.forwards_filter_amt_msat, Some(100));
    assert!(setconfig(&mut c, "summars-forwards-filter-amount-msat", &ArgValue::Int(-1)).is_ok());
    assert_eq!(c.forwards_filter_amt_msat, None);
    assert!(setconfig(&mut c, "summars-style", &ArgValue::Str("rounded".to_string())).is_ok());
    assert_eq!(c.style, Styles::Rounded);
    assert!(setconfig(&mut c, "summars-sort-by", &ArgValue::Str("-PPM".to_string())).is_ok());
    assert_eq!(c.sort_by, SummaryColumns::PPM);
    assert!(c.sort_reverse);
    assert!(setconfig(&mut c, "summars-exclude-states", &ArgValue::Str("private".to_string())).is_ok());
    assert_eq!(c.exclude_channel_states.channel_visibility, Some(ChannelVisibility::Private));
    assert!(setconfig(&mut c, "summars-refresh-alias", &ArgValue::Int(2)).is_ok());
    assert_eq!(c.refresh_alias, 2);
}

#[test]
fn validateargs_applies_arguments() {
    let mut c = en_us();
    let args = Some(vec![
        ("summars-forwards".to_string(), ArgValue::Int(2)),
        ("summars-forwards-limit".to_string(), ArgValue::Int(5)),
    ]);
    assert!(validateargs(&args, &mut c).is_ok());
    assert_eq!(c.forwards, 2);
    assert_eq!(c.forwards_limit, 5);

    let mut c = en_us();
    let args = Some(vec![("summars-forwards-limit".to_string(), ArgValue::Int(5))]);
    match validateargs(&args, &mut c) {
        Err(ConfigError::MissingDependency { needed, by }) => {
            assert_eq!(needed, Opt::Forwards);
            assert_eq!(by, Opt::ForwardsLimit);
        },
        other => panic!("unexpected {:?}", other),
    }

    let mut c = en_us();
    let args = Some(vec![("summars-refresh-alias".to_string(), ArgValue::Int(5))]);
    match validateargs(&args, &mut c) {
        Err(ConfigError::InternalOption(k)) => assert_eq!(k, "summars-refresh-alias"),
        other => panic!("unexpected {:?}", other),
    }
    assert_eq!(c.refresh_alias, 24);

    let mut c = en_us();
    assert!(validateargs(&None, &mut c).is_ok());
    assert_eq!(c.forwards, 0);
}

#[test]
fn apply_startup_options() {
    let mut c = en_us();
    let vals = vec![(Opt::Pays, OptionValue::Integer(48)), (Opt::Json, OptionValue::Boolean(true))];
    assert!(apply_options(&mut c, &vals).is_ok());
    assert_eq!(c.pays, 48);
    assert!(c.json);

    let mut c = en_us();
    let vals = vec![
        (Opt::Pays, OptionValue::Integer(48)),
        (Opt::Style, OptionValue::String("nope".to_string())),
        (Opt::Json, OptionValue::Boolean(true)),
    ];
    assert!(matches!(apply_options(&mut c, &vals), Err(ConfigError::InvalidStyle(_))));
    assert_eq!(c.pays, 48);
    assert!(!c.json);
}

#[test]
fn option_parsing_and_checks() {
    match parse_option(Opt::Columns, &ArgValue::Int(3)) {
        Err(ConfigError::NotAString(k)) => assert_eq!(k, "summars-columns"),
        other => panic!("unexpected {:?}", other),
    }
    assert!(matches!(parse_option(Opt::Utf8, &ArgValue::Bool(false)), Ok(OptionValue::Boolean(false))));
    match parse_option(Opt::Style, &ArgValue::Str("dots".to_string())) {
        Ok(OptionValue::String(s)) => assert_eq!(s, "dots"),
        other => panic!("unexpected {:?}", other),
    }
    let mut c = en_us();
    c.pays_limit = 3;
    match check_options_dependencies(&c) {
        Err(ConfigError::MissingDependency { needed, by }) => {
            assert_eq!(needed, Opt::Pays);
            assert_eq!(by, Opt::PaysLimit);
        },
        other => panic!("unexpected {:?}", other),
    }
    c.pays = 1;
    assert!(check_options_dependencies(&c).is_ok());
    assert!(matches!(options_value_to_usize("n", -3), Err(ConfigError::Negative { value: -3, .. })));
    assert_eq!(options_value_to_usize("n", 7).unwrap(), 7);
    assert_eq!(validate_i64_as_u64_input(-1), None);
    assert_eq!(validate_i64_as_u64_input(9), Some(9));
    assert!(is_valid_hour_timestamp_at(10, 36001));
    assert!(!is_valid_hour_timestamp_at(10, 36000));
    match validate_u64_input_at(11, "h", 0, true, 36000) {
        Err(ConfigError::HoursOutOfRange { max_hours, hours, .. }) => {
            assert_eq!(max_hours, 10);
            assert_eq!(hours, 11);
        },
        other => panic!("unexpected {:?}", other),
    }
    assert_eq!(validate_i64_input_absolute(-7, "x", 5).unwrap(), -7);
    assert!(validate_i64_input_absolute(4, "x", 5).is_err());
}

#[test]
fn error_messages() {
    assert_eq!(ConfigError::UnknownOption("x".to_string()).message(), "Unknown option: x");
    assert_eq!(
        ConfigError::Negative { name: "summars-forwards".to_string(), value: -5 }.message(),
        "summars-forwards needs to be a positive number and not `-5`."
    );
    assert_eq!(
        ConfigError::Negative { name: "n".to_string(), value: i64::MIN }.message(),
        "n needs to be a positive number and not `-9223372036854775808`."
    );
    assert_eq!(
        ConfigError::BelowMinimum { name: "summars-refresh-alias".to_string(), gteq: 1 }.message(),
        "summars-refresh-alias must be greater than or equal to 1"
    );
    assert_eq!(
        ConfigError::AbsoluteBelowMinimum { name: "m".to_string(), min_abs: 5 }.message(),
        "m must be greater than or equal to |5|"
    );
    assert_eq!(
        ConfigError::HoursOutOfRange { name: "h".to_string(), max_hours: 10, hours: 11 }.message(),
        "h needs to be a positive number and smaller than 10, not `11`."
    );
    assert_eq!(
        ConfigError::MissingDependency { needed: Opt::Forwards, by: Opt::ForwardsLimit }.message(),
        "You must set `summars-forwards` for `summars-forwards-limit` to have an effect!"
    );
    assert_eq!(
        ConfigError::InternalOption("summars-refresh-alias".to_string()).message(),
        "Setting summars-refresh-alias here does not make sense, please use a longer-lasting method!"
    );
    assert_eq!(
        ConfigError::BothVisibilities.message(),
        "Can only filter `PUBLIC` OR `PRIVATE`, not both."
    );
    assert_eq!(ConfigError::NotAnInteger("k".to_string()).message(), "k is not a valid integer!");
    assert!(ConfigError::InvalidSortColumn("BOGUS".to_string())
        .message()
        .starts_with("`BOGUS` is invalid. Can only sort by valid columns. Must be one of: OUT_SATS, IN_SATS"));
}

#[test]
fn closed_channels_option_is_a_string_holding_an_integer() {
    match parse_option(Opt::ClosedChannels, &ArgValue::Int(3)) {
        Err(ConfigError::NotAString(k)) => assert_eq!(k, "summars-closed-channels"),
        other => panic!("unexpected {:?}", other),
    }
    let v = parse_option(Opt::ClosedChannels, &ArgValue::Str("3".to_string())).unwrap();
    let mut c = en_us();
    check_option_at(&mut c, Opt::ClosedChannels, &v, 1_700_000_000).unwrap();
    assert_eq!(c.closed_channels, 3);
    match check_option_at(&mut c, Opt::ClosedChannels, &OptionValue::String("three".to_string()), 1_700_000_000) {
        Err(ConfigError::NotAnInteger(k)) => assert_eq!(k, "summars-closed-channels"),
        other => panic!("unexpected {:?}", other),
    }
    match check_option_at(&mut c, Opt::ClosedChannels, &OptionValue::String("-2".to_string()), 1_700_000_000) {
        Err(ConfigError::Negative { value, .. }) => assert_eq!(value, -2),
        other => panic!("unexpected {:?}", other),
    }
    assert_eq!(c.closed_channels, 3);
}
