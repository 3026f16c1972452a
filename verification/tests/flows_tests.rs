use summars::config::Config;
use summars::flows::{
    accumulate_msat, accumulate_totals, build_forwards_table, build_invoices_table, build_pays_table,
    decode_bolt11_descriptions, descriptions_wanted, first_forwards_page, first_page, flow_cutoff,
    forward_row, get_alias_from_scid, get_pay_description_and_status, invoice_row,
    limit_and_sort_forwards, limit_and_sort_invoices_data, limit_and_sort_pays_data, lookup_value,
    next_forwards_page, next_page, pay_row, replace_non_ascii, scid_to_string, DescriptionStatus,
    ForwardEntry, Forwards, ForwardsAccumulator, ForwardsFilterStats, ForwardsTotals, InvoiceEntry,
    Invoices, InvoicesAccumulator, InvoicesFilterStats, PageError, PagingIndex, PayEntry, Pays,
    PaysAccumulator, PaysTotals,
};

fn en_us() -> Config {
    Config::with_locales(&vec!["en-US".to_string()])
}

fn scid(block: u64, tx: u64, out: u64) -> u64 {
    (block << 40) | (tx << 16) | out
}

fn fwd(idx: Option<u64>, received: u64, resolved: u64, in_msat: u64, out_msat: u64) -> ForwardEntry {
    ForwardEntry {
        updated_index: idx,
        received_time: received,
        resolved_time: Some(resolved),
        in_channel: scid(800_000, 1, 0),
        out_channel: scid(800_001, 2, 1),
        in_msat,
        out_msat,
        fee_msat: in_msat - out_msat,
    }
}

fn forward_row_of(resolved_time: u64, in_sats: u64) -> Forwards {
    Forwards {
        received_time: 0,
        received_time_str: String::new(),
        resolved_time,
        resolved_time_str: String::new(),
        in_alias: String::new(),
        out_alias: String::new(),
        in_channel: 0,
        out_channel: 0,
        in_msats: 0,
        in_sats,
        out_msats: 0,
        out_sats: 0,
        fee_msats: 0,
        fee_sats: 0,
        eff_fee_ppm: 0,
    }
}

#[test]
fn scid_text() {
    assert_eq!(scid_to_string(scid(800_000, 1234, 1)), "800000x1234x1");
    assert_eq!(scid_to_string(0), "0x0x0");
}

#[test]
fn aliases_of_channels() {
    let s = scid(700_000, 5, 0);
    let chans = vec![(s, "peer1".to_string())];
    let aliases = vec![("peer1".to_string(), "Alice".to_string())];
    assert_eq!(get_alias_from_scid(s, &chans, &aliases), "Alice");
    let unset = vec![("peer1".to_string(), "NO_ALIAS_SET".to_string())];
    assert_eq!(get_alias_from_scid(s, &chans, &unset), "700000x5x0");
    assert_eq!(get_alias_from_scid(scid(1, 1, 1), &chans, &aliases), "1x1x1");
    assert_eq!(get_alias_from_scid(s, &chans, &vec![]), "700000x5x0");
    let kv = vec![("a".to_string(), "1".to_string()), ("a".to_string(), "2".to_string())];
    assert_eq!(lookup_value(&kv, &vec!['a']), Some("1".to_string()));
    assert_eq!(lookup_value(&kv, &vec!['b']), None);
}

#[test]
fn ascii_replacement() {
    assert_eq!(replace_non_ascii("héllo ⚡"), "h?llo ?");
    assert_eq!(replace_non_ascii("plain"), "plain");
}

#[test]
fn msat_accumulation() {
    let mut t: Option<u64> = None;
    accumulate_msat(&mut t, 5);
    assert_eq!(t, Some(5));
    accumulate_msat(&mut t, 7);
    assert_eq!(t, Some(12));
    let mut totals = PaysTotals::default();
    accumulate_totals(false, 10, &mut totals, 1000, 1010);
    accumulate_totals(true, 0, &mut totals, 500, 500);
    assert_eq!(totals.fees_msat, Some(10));
    assert_eq!(totals.amount_msat, Some(1000));
    assert_eq!(totals.amount_sent_msat, Some(1010));
    assert_eq!(totals.self_fees_msat, Some(0));
    assert_eq!(totals.self_amount_msat, Some(500));
    assert_eq!(totals.self_amount_sent_msat, Some(500));
}

#[test]
fn pay_descriptions() {
    let (st, d) = get_pay_description_and_status(Some("x".to_string()), Some("lnbc".to_string()), None);
    assert_eq!(st, DescriptionStatus::Processed);
    assert_eq!(d, Some("x".to_string()));
    let (st, d) = get_pay_description_and_status(None, Some("lnbc".to_string()), Some("lno".to_string()));
    assert_eq!(st, DescriptionStatus::Bolt11);
    assert_eq!(d, Some("lnbc".to_string()));
    let (st, d) = get_pay_description_and_status(None, None, Some("lno".to_string()));
    assert_eq!(st, DescriptionStatus::Bolt12);
    assert_eq!(d, Some("lno".to_string()));
    let (st, d) = get_pay_description_and_status(None, None, None);
    assert_eq!(st, DescriptionStatus::Processed);
    assert_eq!(d, None);
}

#[test]
fn forward_rows() {
    let c = en_us();
    let chans = vec![(scid(800_000, 1, 0), "p1".to_string())];
    let aliases = vec![("p1".to_string(), "Zoë".to_string())];
    let e = fwd(Some(1), 1_700_000_000, 1_700_000_005, 1_001_000, 1_000_000);
    let r = forward_row(&c, &e, &chans, &aliases).unwrap();
    assert_eq!(r.received_time, 1_700_000_000_000);
    assert_eq!(r.resolved_time, 1_700_000_005_000);
    assert_eq!(r.in_alias, "Zoë");
    assert_eq!(r.out_alias, "800001x2x1");
    assert_eq!(r.in_sats, 1001);
    assert_eq!(r.out_sats, 1000);
    assert_eq!(r.fee_msats, 1000);
    assert_eq!(r.fee_sats, 1);
    assert_eq!(r.eff_fee_ppm, 1000);
    assert!(!r.received_time_str.is_empty());
    let mut ascii = en_us();
    ascii.utf8 = false;
    let r = forward_row(&ascii, &e, &chans, &aliases).unwrap();
    assert_eq!(r.in_alias, "Zo?");
}

#[test]
fn forwards_collection() {
    let mut c = en_us();
    c.forwards_filter_fee_msat = Some(100);
    let batch = vec![
        fwd(Some(1), 2000, 2100, 10_000, 9_000),
        fwd(Some(2), 1500, 1600, 5_000, 4_990),
        fwd(Some(3), 500, 900, 1_000, 900),
        fwd(None, 100, 3000, 1_000, 900),
        fwd(Some(1), 2000, 2100, 10_000, 9_000),
    ];
    let mut acc = ForwardsAccumulator {
        oldest_updated: u64::MAX,
        index_start: u64::MAX,
        index_timestamp: 1000,
        rows: vec![],
        filtered: vec![],
    };
    let mut totals = ForwardsTotals::default();
    let mut stats = ForwardsFilterStats::default();
    build_forwards_table(&mut acc, &c, &batch, &vec![], &vec![], &mut totals, &mut stats).unwrap();
    assert_eq!(acc.rows.len(), 1);
    assert_eq!(acc.rows[0].0, 1);
    assert_eq!(acc.rows[0].1.in_msats, 10_000);
    assert_eq!(acc.filtered, vec![2]);
    assert_eq!(acc.oldest_updated, 500);
    assert_eq!(acc.index_start, 1);
    assert_eq!(totals.amount_in_msat, Some(15_000));
    assert_eq!(totals.amount_out_msat, Some(13_990));
    assert_eq!(totals.fees_msat, Some(1_010));
    assert_eq!(stats, ForwardsFilterStats { amt_sum_msat: 5_000, fee_sum_msat: 10, count: 1 });

    // A second batch with the same forwards changes nothing.
    build_forwards_table(&mut acc, &c, &batch, &vec![], &vec![], &mut totals, &mut stats).unwrap();
    assert_eq!(acc.rows.len(), 1);
    assert_eq!(totals.amount_in_msat, Some(15_000));
    assert_eq!(stats.count, 1);
}

#[test]
fn forwards_limit_and_order() {
    let rows = vec![
        (3, forward_row_of(300, 3)),
        (1, forward_row_of(100, 1)),
        (2, forward_row_of(50, 2)),
    ];
    let shown = limit_and_sort_forwards(rows.clone(), 2);
    assert_eq!(shown.iter().map(|f| f.in_sats).collect::<Vec<_>>(), vec![2, 3]);
    let shown = limit_and_sort_forwards(rows, 0);
    assert_eq!(shown.iter().map(|f| f.in_sats).collect::<Vec<_>>(), vec![2, 1, 3]);
}

#[test]
fn paging_decisions() {
    let p = PagingIndex::new();
    assert_eq!(p, PagingIndex { start: u64::MAX, timestamp: 0, age: 0 });
    let q = PagingIndex { start: 5, timestamp: 10, age: 24 };
    assert_eq!(q.reset_if_needed(24), q);
    assert_eq!(q.reset_if_needed(48), PagingIndex::new());
    assert_eq!(first_forwards_page(u64::MAX, 5000), (4001, Some(1000)));
    assert_eq!(first_forwards_page(u64::MAX, 10), (0, Some(1000)));
    assert_eq!(first_forwards_page(42, 5000), (42, None));
    let acc = ForwardsAccumulator {
        oldest_updated: 2000,
        index_start: 0,
        index_timestamp: 1000,
        rows: vec![],
        filtered: vec![],
    };
    assert_eq!(next_forwards_page(&acc, 0), Ok(None));
    assert_eq!(next_forwards_page(&acc, 4001), Ok(Some((3001, 1000))));
    assert_eq!(next_forwards_page(&acc, 600), Ok(Some((0, 600))));
    assert_eq!(next_forwards_page(&acc, 1u64 << 33), Err(PageError::IndexTooLarge));
    let old = ForwardsAccumulator { oldest_updated: 999, ..acc };
    assert_eq!(next_forwards_page(&old, 4001), Ok(None));
    assert_eq!(first_page(5000), (4001, 1000));
    assert_eq!(next_page(2000, 1000, 4001, 1), Ok(Some((3001, 1000))));
    assert_eq!(next_page(2000, 1000, 1, 1), Ok(None));
    assert_eq!(next_page(2000, 1000, 50, 60), Ok(None));
    assert_eq!(next_page(999, 1000, 4001, 1), Ok(None));
    assert_eq!(next_page(2000, 1000, 1u64 << 33, 1), Err(PageError::IndexTooLarge));
    assert_eq!(flow_cutoff(10_000, 2), 2_800);
}

fn pay(idx: u64, completed: Option<u64>, dest: &str, alias: Option<&str>, amount: Option<u64>, sent: Option<u64>) -> PayEntry {
    PayEntry {
        updated_index: Some(idx),
        completed_at: completed,
        destination: Some(dest.to_string()),
        destination_alias: alias.map(|a| a.to_string()),
        amount_msat: amount,
        amount_sent_msat: sent,
        payment_hash: format!("hash{}", idx),
        preimage: vec![1, 2],
        description: Some("coffee".to_string()),
        bolt11: None,
        bolt12: None,
    }
}

#[test]
fn pay_rows() {
    let c = en_us();
    let r = pay_row(&c, &pay(1, Some(2000), "node1", Some("Bob"), Some(1000), Some(1010)));
    assert_eq!(r.completed_at, 2000);
    assert_eq!(r.destination, Some("Bob".to_string()));
    assert_eq!(r.msats_sent, 1010);
    assert_eq!(r.sats_sent, 1);
    assert_eq!(r.msats_requested, Some(1000));
    assert_eq!(r.sats_requested, Some(1));
    assert_eq!(r.fee_msats, Some(10));
    assert_eq!(r.fee_sats, Some(0));
    assert_eq!(r.preimage, "0102");
    assert_eq!(r.description, Some("coffee".to_string()));
    assert_eq!(r.description_status, DescriptionStatus::Processed);
    let r = pay_row(&c, &pay(1, Some(2000), "node1", Some("NO_ALIAS_SET"), None, Some(1010)));
    assert_eq!(r.destination, Some("node1".to_string()));
    assert_eq!(r.sats_requested, None);
    assert_eq!(r.fee_msats, None);
    let r = pay_row(&c, &pay(1, Some(2000), "node1", None, None, Some(1010)));
    assert_eq!(r.destination, None);
}

#[test]
fn pays_collection() {
    let c = en_us();
    let batch = vec![
        pay(1, Some(2000), "node1", Some("Bob"), Some(1000), Some(1010)),
        pay(2, Some(3000), "me", Some("Me"), Some(500), Some(500)),
        pay(3, Some(500), "node1", Some("Bob"), Some(1), Some(1)),
        pay(4, Some(2500), "node1", Some("Bob"), None, None),
    ];
    let mut acc = PaysAccumulator { oldest_updated: u64::MAX, cutoff_timestamp: 1000, rows: vec![], filtered: vec![] };
    let mut totals = PaysTotals::default();
    build_pays_table(&mut acc, &c, &batch, "me", &mut totals);
    assert_eq!(acc.rows.len(), 1);
    assert_eq!(acc.rows[0].0, 1);
    assert_eq!(acc.filtered, vec![2]);
    assert_eq!(acc.oldest_updated, 500);
    assert_eq!(totals.count, 1);
    assert_eq!(totals.amount_msat, Some(1000));
    assert_eq!(totals.amount_sent_msat, Some(1010));
    assert_eq!(totals.fees_msat, Some(10));
    assert_eq!(totals.self_count, 1);
    assert_eq!(totals.self_amount_msat, Some(500));
    assert_eq!(totals.self_amount_sent_msat, Some(500));
    assert_eq!(totals.self_fees_msat, Some(0));
    let rows: Vec<(u64, Pays)> = vec![
        (5, pay_row(&c, &pay(5, Some(30), "n", None, None, Some(1)))),
        (4, pay_row(&c, &pay(4, Some(10), "n", None, None, Some(1)))),
        (6, pay_row(&c, &pay(6, Some(20), "n", None, None, Some(1)))),
    ];
    let shown = limit_and_sort_pays_data(rows, 2);
    assert_eq!(shown.iter().map(|p| p.completed_at).collect::<Vec<_>>(), vec![20, 30]);
}

#[test]
fn bolt11_descriptions() {
    // A BOLT11 test vector ("1 cup coffee").
    let inv = "lnbc2500u1pvjluezsp5zyg3zyg3zyg3zyg3zyg3zyg3zyg3zyg3zyg3zyg3zyg3zyg3zygspp5qqqsyqcyq5rqwzqfqqqsyqcyq5rqwzqfqqqsyqcyq5rqwzqfqypqdq5xysxxatsyp3k7enxv4jsxqzpu9qrsgquk0rl77nj30yxdy8j9vdx85fkpmdla2087ne0xh8nhedh8w27kyke0lp53ut353s06fv3qfegext0eh0ymjpf39tuven09sam30g4vgpfna3rh";
    let c = en_us();
    let mut e = pay(1, Some(2000), "n", None, None, Some(1));
    e.description = None;
    e.bolt11 = Some(inv.to_string());
    let mut pays = vec![pay_row(&c, &e)];
    assert_eq!(pays[0].description_status, DescriptionStatus::Bolt11);
    let mut e2 = pay(2, Some(2000), "n", None, None, Some(1));
    e2.description = None;
    e2.bolt11 = Some("not an invoice".to_string());
    pays.push(pay_row(&c, &e2));
    pays.push(pay_row(&c, &pay(3, Some(2000), "n", None, None, Some(1))));
    decode_bolt11_descriptions(&mut pays);
    assert_eq!(pays[0].description, Some("1 cup coffee".to_string()));
    assert_eq!(pays[1].description, None);
    assert_eq!(pays[2].description, Some("coffee".to_string()));
    let mut c2 = en_us();
    assert!(!descriptions_wanted(&c2));
    c2.json = true;
    assert!(descriptions_wanted(&c2));
}

fn invoice(idx: u64, paid: bool, paid_at: u64, amount: u64) -> InvoiceEntry {
    InvoiceEntry {
        paid,
        updated_index: Some(idx),
        paid_at: Some(paid_at),
        amount_received_msat: amount,
        label: format!("label{}", idx),
        description: None,
        payment_hash: format!("hash{}", idx),
        preimage: vec![0xde, 0xad],
    }
}

#[test]
fn invoice_rows_and_collection() {
    let mut c = en_us();
    let r = invoice_row(&c, &invoice(1, true, 1_700_000_000, 2_500)).unwrap();
    assert_eq!(r.paid_at, 1_700_000_000);
    assert_eq!(r.sats_received, 3);
    assert_eq!(r.description, "");
    assert_eq!(r.preimage, "dead");
    assert_eq!(r.label, "label1");
    c.invoices_filter_amt_msat = Some(1_000);
    let batch = vec![
        invoice(1, true, 2000, 5_000),
        invoice(2, true, 2500, 500),
        invoice(3, false, 2600, 9_000),
        invoice(4, true, 1000, 7_000),
        invoice(5, true, 999, 7_000),
    ];
    let mut acc = InvoicesAccumulator { oldest_updated: u64::MAX, cutoff_timestamp: 1000, rows: vec![], filtered: vec![] };
    let mut received: Option<u64> = None;
    let mut stats = InvoicesFilterStats::default();
    build_invoices_table(&mut acc, &batch, &mut received, &mut stats, &c).unwrap();
    let mut keys: Vec<u64> = acc.rows.iter().map(|r| r.0).collect();
    keys.sort();
    assert_eq!(keys, vec![1, 4]);
    assert_eq!(acc.filtered, vec![2]);
    assert_eq!(acc.oldest_updated, 999);
    assert_eq!(received, Some(12_500));
    assert_eq!(stats, InvoicesFilterStats { filter_amt_sum_msat: 500, filter_count: 1 });
    let rows: Vec<(u64, Invoices)> = acc.rows;
    let shown = limit_and_sort_invoices_data(rows, 0);
    assert_eq!(shown.iter().map(|i| i.paid_at).collect::<Vec<_>>(), vec![1000, 2000]);
}

#[test]
fn paging_goes_on_until_the_oldest_is_before_the_cutoff() {
    let mut acc = ForwardsAccumulator {
        oldest_updated: 100,
        index_start: 0,
        index_timestamp: 100,
        rows: vec![],
        filtered: vec![],
    };
    assert!(acc.pages_remain());
    acc.oldest_updated = 99;
    assert!(!acc.pages_remain());
}
