use summars::channels::{chan_to_summary, ChannelInfo};
use summars::columns::{ForwardsColumns, InvoicesColumns, PaysColumns, SummaryColumns};
use summars::config::Config;
use summars::flows::{
    pay_row, ForwardsFilterStats, ForwardsTotals, Forwards, Invoices, InvoicesFilterStats, PayEntry,
    PaysTotals,
};
use summars::locale::FormatError;
use summars::render::{
    fmt_option, format_forwards, format_invoices, format_pays, format_summary, plan_forwards_table,
    plan_invoices_table, plan_pays_table, plan_summary_table, render_table, width_for, Align, CellWidth,
    ColumnFormat, TablePlan,
};
use summars::states::{ChannelState, Styles};

fn en_us() -> Config {
    Config::with_locales(&vec!["en-US".to_string()])
}

fn channel(peer: &str, to_us: u64, total: u64) -> ChannelInfo {
    ChannelInfo {
        peer_id: peer.to_string(),
        peer_connected: true,
        state: ChannelState::CHANNELD_NORMAL,
        short_channel_id: Some((800_000u64 << 40) | (1 << 16)),
        private: false,
        to_us_msat: Some(to_us),
        total_msat: Some(total),
        our_reserve_msat: Some(0),
        their_reserve_msat: Some(0),
        minimum_htlc_out_msat: 0,
        maximum_htlc_out_msat: 1_000_000_000,
        fee_base_msat: 1_000,
        fee_proportional_millionths: 2_500,
        remote_fee_base_msat: None,
        remote_fee_proportional_millionths: None,
        htlc_count: 0,
        uptime_order: 0,
        perc_us_order: 0,
        uptime_text: "99%".to_string(),
        perc_us_text: "1%".to_string(),
    }
}

fn forward(in_sats: u64) -> Forwards {
    Forwards {
        received_time: 0,
        received_time_str: "r".to_string(),
        resolved_time: 0,
        resolved_time_str: "s".to_string(),
        in_alias: "in".to_string(),
        out_alias: "out".to_string(),
        in_channel: 0,
        out_channel: 0,
        in_msats: in_sats * 1000,
        in_sats,
        out_msats: 0,
        out_sats: 0,
        fee_msats: 0,
        fee_sats: 0,
        eff_fee_ppm: 0,
    }
}

#[test]
fn width_rules() {
    assert_eq!(width_for(20), Ok(CellWidth::Truncate(20)));
    assert_eq!(width_for(-30), Ok(CellWidth::Wrap(30)));
    assert_eq!(width_for(0), Ok(CellWidth::Truncate(0)));
    assert_eq!(fmt_option(&Some("x".to_string())), "x");
    assert_eq!(fmt_option(&None), "N/A");
}

#[test]
fn channels_table_plan() {
    let c = en_us();
    let rows = vec![
        chan_to_summary(&c, &channel("p1", 1_234_567_000, 2_000_000_000), "A".to_string(), 1_234_567_000).unwrap(),
    ];
    let plan = plan_summary_table(&c, &rows, 1_234_567_000, 2).unwrap();
    assert_eq!(
        plan.rows[0],
        vec!["OUT_SATS", "IN_SATS", "SCID", "MAX_HTLC", "FLAG", "BASE", "PPM", "ALIAS", "PEER_ID", "UPTIME", "HTLCS", "STATE"]
    );
    assert_eq!(
        plan.rows[1],
        vec!["1,234,567", "765,433", "800000x1x0", "1,000,000", "[__]", "1,000", "2,500", "A", "p1", "99%", "0", "OK"]
    );
    assert_eq!(plan.style, Styles::Modern);
    assert_eq!(plan.header, None);
    assert_eq!(plan.footers, vec!["\n 2 channels filtered.".to_string()]);
    assert!(plan.last_row_left);
    assert_eq!(plan.columns[0], ColumnFormat { align: Some(Align::Right), width: None });
    assert_eq!(plan.columns[4], ColumnFormat { align: Some(Align::Center), width: None });
    assert_eq!(plan.columns[7], ColumnFormat { align: None, width: Some(CellWidth::Truncate(20)) });
    let plan = plan_summary_table(&c, &rows, 1_234_567_000, 0).unwrap();
    assert!(plan.footers.is_empty());
    assert!(!plan.last_row_left);

    let mut g = en_us();
    g.columns = vec![SummaryColumns::GRAPH_SATS, SummaryColumns::ALIAS];
    g.utf8 = false;
    let plan = plan_summary_table(&g, &rows, 1_234_567_000, 1).unwrap();
    assert_eq!(plan.rows[0][0], "[0.01234567   OUT GRAPH_SATS IN     0.01234567]");
    assert_eq!(plan.footers, vec!["\n 1 channel filtered.".to_string()]);

    let text = format_summary(&c, &rows, 1_234_567_000, 0).unwrap();
    assert!(text.contains("OUT_SATS"));
    assert!(text.contains("1,234,567"));

    let mut dup = en_us();
    dup.columns = vec![SummaryColumns::ALIAS, SummaryColumns::ALIAS];
    assert_eq!(plan_summary_table(&dup, &rows, 1, 0).err(), Some(FormatError::Columns));
}

#[test]
fn forwards_table_plan() {
    let mut c = en_us();
    c.forwards = 24;
    c.forwards_limit = 10;
    c.flow_style = Styles::Ascii;
    let data = vec![forward(1_500), forward(2)];
    let stats = ForwardsFilterStats { amt_sum_msat: 2_500_000, fee_sum_msat: 1_234, count: 2 };
    let totals = ForwardsTotals {
        count: 0,
        amount_in_msat: Some(10_000_000),
        amount_out_msat: Some(9_000_000),
        fees_msat: Some(1_000_000),
    };
    let plan = plan_forwards_table(&c, &data, &stats, &totals).unwrap();
    assert_eq!(plan.header, Some("forwards (last 24h, limit: 2/10)".to_string()));
    assert_eq!(plan.style, Styles::Ascii);
    assert_eq!(
        plan.rows[0],
        vec!["resolved_time", "in_alias", "out_alias", "in_sats", "out_sats", "fee_msats"]
    );
    assert_eq!(plan.rows[1], vec!["s", "in", "out", "1,500", "0", "0"]);
    assert_eq!(
        plan.footers,
        vec![
            "\nFiltered 2 forwards with 2,500 sats routed and 1,234 msat fees.".to_string(),
            "\nTotal forwards stats in the last 24h: 10,000 in_sats 9,000 out_sats 1,000 fee_sats".to_string(),
        ]
    );
    assert_eq!(plan.columns[3], ColumnFormat { align: Some(Align::Right), width: None });
    assert_eq!(plan.columns[1], ColumnFormat { align: None, width: Some(CellWidth::Truncate(20)) });
    c.forwards_limit = 0;
    let plan = plan_forwards_table(&c, &data, &ForwardsFilterStats::default(), &ForwardsTotals::default()).unwrap();
    assert_eq!(plan.header, Some("forwards (last 24h, limit: off)".to_string()));
    assert!(plan.footers.is_empty());
    c.forwards_columns = vec![ForwardsColumns::eff_fee_ppm, ForwardsColumns::in_sats];
    let plan = plan_forwards_table(&c, &data, &ForwardsFilterStats::default(), &ForwardsTotals::default()).unwrap();
    assert_eq!(plan.rows[0], vec!["eff_fee_ppm", "in_sats"]);
    assert_eq!(plan.rows[2], vec!["0", "2"]);
    let text = format_forwards(&c, &data, &ForwardsFilterStats::default(), &ForwardsTotals::default()).unwrap();
    assert!(text.contains("forwards (last 24h, limit: off)"));
}

fn pay_entry(idx: u64) -> PayEntry {
    PayEntry {
        updated_index: Some(idx),
        completed_at: Some(1_700_000_000),
        destination: Some("node".to_string()),
        destination_alias: Some("Carol".to_string()),
        amount_msat: Some(1_000_000),
        amount_sent_msat: Some(1_001_000),
        payment_hash: "ab".to_string(),
        preimage: vec![],
        description: Some("tea".to_string()),
        bolt11: None,
        bolt12: None,
    }
}

#[test]
fn pays_table_plan() {
    let mut c = en_us();
    c.pays = 48;
    c.pays_columns = vec![PaysColumns::payment_hash, PaysColumns::sats_sent, PaysColumns::destination, PaysColumns::fee_msats];
    let data = vec![pay_row(&c, &pay_entry(1))];
    let totals = PaysTotals {
        count: 1,
        amount_msat: Some(1_000_000),
        amount_sent_msat: Some(1_001_000),
        fees_msat: Some(1_000),
        self_count: 0,
        self_amount_msat: None,
        self_amount_sent_msat: None,
        self_fees_msat: None,
    };
    let plan = plan_pays_table(&c, &data, &totals).unwrap();
    assert_eq!(plan.header, None);
    assert_eq!(plan.rows[0], vec!["payment_hash", "sats_sent", "destination", "fee_msats"]);
    assert_eq!(plan.rows[1], vec!["ab", "1,001", "Carol", "1,000"]);
    assert_eq!(
        plan.footers,
        vec!["\nTotal of 1 pays in the last 48h: 1,000 sats_requested 1,001 sats_sent 1 fee_sats".to_string()]
    );
    let text = format_pays(&c, &data, &totals).unwrap();
    assert!(text.starts_with("\n\npays (last 48h, limit: off):\n"));
    assert!(text.ends_with('\n'));
    let mut none = PaysTotals::default();
    none.self_amount_sent_msat = Some(2_000);
    none.self_count = 2;
    let plan = plan_pays_table(&c, &vec![], &none).unwrap();
    assert_eq!(
        plan.footers,
        vec!["\nTotal of 2 self-pays in the last 48h: N/A sats_requested 2 sats_sent N/A fee_sats".to_string()]
    );
}

#[test]
fn invoices_table_plan() {
    let mut c = en_us();
    c.invoices = 12;
    c.invoices_limit = 5;
    c.invoices_columns = vec![InvoicesColumns::label, InvoicesColumns::sats_received];
    let data = vec![Invoices {
        paid_at: 0,
        paid_at_str: "t".to_string(),
        label: "lbl".to_string(),
        description: String::new(),
        msats_received: 12_345_000,
        sats_received: 12_345,
        payment_hash: "h".to_string(),
        preimage: "p".to_string(),
    }];
    let stats = InvoicesFilterStats { filter_amt_sum_msat: 3_000, filter_count: 1 };
    let plan = plan_invoices_table(&c, &data, &stats, Some(15_345_000)).unwrap();
    assert_eq!(plan.header, Some("invoices (last 12h, limit: 1/5)".to_string()));
    assert_eq!(plan.rows[0], vec!["label", "sats_received"]);
    assert_eq!(plan.rows[1], vec!["lbl", "12,345"]);
    assert_eq!(plan.footers[0], "\nFiltered 1 invoice with 3 sats total.");
    let text = format_invoices(&c, &data, &stats, Some(15_345_000)).unwrap();
    assert!(text.contains("lbl"));
}

#[test]
fn drawing_a_plan() {
    let mut c = en_us();
    c.columns = vec![SummaryColumns::ALIAS];
    c.max_alias_length = 8;
    c.style = Styles::Ascii;
    let rows = vec![chan_to_summary(&c, &channel("p1", 0, 0), "averyveryverylongalias".to_string(), 0).unwrap()];
    let plan = plan_summary_table(&c, &rows, 0, 0).unwrap();
    let text = render_table(plan);
    assert!(text.contains("ALIAS"));
    assert!(text.contains("[..]"));
    assert!(!text.contains("averyveryverylongalias"));
    assert!(text.starts_with('+'));
}

#[test]
fn table_without_columns_gets_no_title_or_footers() {
    let plan = TablePlan {
        rows: vec![],
        style: Styles::Psql,
        columns: vec![],
        header: Some("the title".to_string()),
        footers: vec!["the footer".to_string()],
        last_row_left: true,
    };
    let s = render_table(plan);
    assert!(!s.contains("the title"));
    assert!(!s.contains("the footer"));
}

#[test]
fn table_with_a_column_gets_its_title_and_footers() {
    let plan = TablePlan {
        rows: vec![vec!["name".to_string()], vec!["value".to_string()]],
        style: Styles::Psql,
        columns: vec![ColumnFormat { align: None, width: None }],
        header: Some("the title".to_string()),
        footers: vec!["the footer".to_string()],
        last_row_left: false,
    };
    let s = render_table(plan);
    let title = s.find("the title").unwrap();
    let name = s.find("name").unwrap();
    let footer = s.find("the footer").unwrap();
    assert!(title < name && name < footer);
}
