use summars::config::Config;
use summars::locale::{msat_to_btc_digits, timestamp_to_localized_datetime_string, u64_to_btc_string, u64_to_sat_string, FormatError};
use summars::states::ChannelState;
use summars::util::{
    at_or_above_version, draw_chans_graph, feeppm_effective_from_amts, hex_encode, is_active_state,
    replace_escaping_chars, rounded_div_u64, u64_to_decimal, GraphCharset, VersionError,
};

fn en_us() -> Config {
    Config::with_locales(&vec!["en-US".to_string()])
}

#[test]
fn fee_ppm_values() {
    assert_eq!(feeppm_effective_from_amts(1_001_000, 1_000_000), 1000);
    assert_eq!(feeppm_effective_from_amts(1_000_001, 1_000_000), 1);
    assert_eq!(feeppm_effective_from_amts(1000, 999), 1002);
    assert_eq!(feeppm_effective_from_amts(1000, 1000), 0);
    assert_eq!(feeppm_effective_from_amts(0, 0), 0);
    assert_eq!(feeppm_effective_from_amts(5, 0), u32::MAX);
    assert_eq!(feeppm_effective_from_amts(u64::MAX, 1), u32::MAX);
}

#[test]
fn rounded_division() {
    assert_eq!(rounded_div_u64(1499, 1000), 1);
    assert_eq!(rounded_div_u64(1500, 1000), 2);
    assert_eq!(rounded_div_u64(2500, 1000), 3);
    assert_eq!(rounded_div_u64(0, 1000), 0);
    assert_eq!(rounded_div_u64(u64::MAX, 1), u64::MAX);
    assert_eq!(rounded_div_u64(u64::MAX, 1000), 18_446_744_073_709_552);
}

#[test]
fn hex_and_decimal_text() {
    assert_eq!(hex_encode(&[0x00, 0xab, 0xff, 0x10]), "00abff10");
    assert_eq!(hex_encode(&[]), "");
    assert_eq!(u64_to_decimal(0), "0");
    assert_eq!(u64_to_decimal(1_234_567_890), "1234567890");
    assert_eq!(u64_to_decimal(u64::MAX), "18446744073709551615");
}

#[test]
fn escaping_characters() {
    assert_eq!(replace_escaping_chars("a\"b\\c\nd\te\r\u{7}f"), "a'b/c d e _f");
    assert_eq!(replace_escaping_chars("plain ünïcode"), "plain ünïcode");
}

#[test]
fn version_comparison() {
    assert_eq!(at_or_above_version("v24.11", "24.08"), Ok(true));
    assert_eq!(at_or_above_version("v24.05", "24.08"), Ok(false));
    assert_eq!(at_or_above_version("v23.05.2", "23.05"), Ok(true));
    assert_eq!(at_or_above_version("v23.05", "23.05.1"), Ok(false));
    assert_eq!(at_or_above_version("v25.09-rc1-modded", "25.09"), Ok(true));
    assert_eq!(at_or_above_version("24.11", "24.08"), Err(VersionError::MissingV));
    assert_eq!(at_or_above_version("v24", "24.08"), Err(VersionError::PartCount));
    assert_eq!(at_or_above_version("v1.2.3.4", "1.2"), Err(VersionError::PartCount));
    assert_eq!(at_or_above_version("v24.11", "24.ab"), Err(VersionError::InvalidNumber));
}

#[test]
fn active_states() {
    assert!(is_active_state(ChannelState::CHANNELD_NORMAL));
    assert!(is_active_state(ChannelState::OPENINGD));
    assert!(is_active_state(ChannelState::CHANNELD_AWAITING_SPLICE));
    assert!(!is_active_state(ChannelState::ONCHAIN));
    assert!(!is_active_state(ChannelState::CLOSINGD_COMPLETE));
}

#[test]
fn graph_charsets() {
    let u = GraphCharset::new_utf8();
    assert_eq!(u.left, "├");
    assert_eq!(u.empty, "║");
    let a = GraphCharset::new_ascii();
    assert_eq!(a.left, "[");
    assert_eq!(a.right, "]");
    assert_eq!(a.mid, "+");
    assert_eq!(a.double_left, "#");
}

#[test]
fn channel_graph_lines() {
    let mut c = en_us();
    let g = draw_chans_graph(&c, 1000, 500, 1000);
    let expected = format!(
        "{}├{}┼{}┤{}",
        " ".repeat(11),
        "─".repeat(11),
        "─".repeat(11),
        " ".repeat(11)
    );
    assert_eq!(g, expected);
    assert_eq!(g.chars().count(), 47);
    c.utf8 = false;
    let g = draw_chans_graph(&c, 0, 0, 0);
    assert_eq!(g, format!("{}|{}", " ".repeat(23), " ".repeat(23)));
    let g = draw_chans_graph(&c, 1000, 1000, 1000);
    assert_eq!(g, format!("[{}#{}", "-".repeat(22), " ".repeat(23)));
    let g = draw_chans_graph(&c, 1000, 0, 1000);
    assert_eq!(g, format!("{}#{}]", " ".repeat(23), "-".repeat(22)));
}

#[test]
fn locale_amounts() {
    let c = en_us();
    assert_eq!(u64_to_sat_string(&c, 1_234_567).unwrap(), "1,234,567");
    assert_eq!(u64_to_sat_string(&c, 0).unwrap(), "0");
    assert_eq!(msat_to_btc_digits(12_504_690_900), "0.12504690");
    assert_eq!(msat_to_btc_digits(123_456_789_012_345), "1234.56789012");
    assert_eq!(u64_to_btc_string(&c, 12_504_690_900).unwrap(), "0.12504690");
    assert_eq!(u64_to_btc_string(&c, 123_456_789_012_345).unwrap(), "1,234.56789012");
    let mut bad = en_us();
    bad.locale = "not a locale!".to_string();
    assert_eq!(u64_to_sat_string(&bad, 5), Err(FormatError::Decimal));
}

#[test]
fn localized_datetimes() {
    let c = en_us();
    let s = timestamp_to_localized_datetime_string(&c, 1_700_000_000).unwrap();
    assert!(!s.is_empty());
    assert!(s.contains("23"));
    let mut bad = en_us();
    bad.locale = "not a locale!".to_string();
    assert_eq!(timestamp_to_localized_datetime_string(&bad, 1_700_000_000), Err(FormatError::DateTime));
}

#[test]
fn channel_graph_beyond_scale() {
    let c = en_us();
    let g = draw_chans_graph(&c, 100, 100, 10);
    assert_eq!(g, format!("├{}╢{}", "─".repeat(229), " ".repeat(23)));
    assert_eq!(g.chars().count(), 254);
}

#[test]
fn datetime_beyond_range() {
    let c = en_us();
    assert_eq!(
        timestamp_to_localized_datetime_string(&c, 8_210_266_790_400),
        Err(FormatError::DateTime)
    );
}

#[test]
fn hex_digit_pairs_read_back_as_bytes() {
    let bytes = [0u8, 15, 16, 171, 255];
    let h = hex_encode(&bytes);
    assert_eq!(h, "000f10abff");
    for (i, b) in bytes.iter().enumerate() {
        assert_eq!(u8::from_str_radix(&h[2 * i..2 * i + 2], 16), Ok(*b));
    }
}

#[test]
fn exact_rates_and_half_bars() {
    assert_eq!(feeppm_effective_from_amts(123, 40), 2_075_000);
    let mut c = en_us();
    c.utf8 = false;
    let g = draw_chans_graph(&c, 13, 13, 46);
    assert_eq!(g, format!("{}[{}#{}", " ".repeat(16), "-".repeat(6), " ".repeat(23)));
}
