use summars::channels::{
    alias_from_lookup, alias_of_node, btc_amount_text, chan_peers, chan_to_summary, count_gossipers, get_addrstr,
    graph_max_chan_side, is_chan_filtered, join_tables, next_alias_refresh, node_summary_text,
    peers_to_ping, ping_concurrency, ping_ms, pings_wanted, process_channels_data, sort_summary,
    utxo_amount, BindingAddress, ChannelError, ChannelInfo, FullNodeData, HoldInvoicePageHelper,
    NodeAddress, NodeSummary, Summary,
};
use summars::columns::SummaryColumns;
use summars::config::{ChannelVisibility, Config};
use summars::states::ChannelState;
use summars::util::VersionError;

fn en_us() -> Config {
    Config::with_locales(&vec!["en-US".to_string()])
}

fn scid(block: u64, tx: u64, out: u64) -> u64 {
    (block << 40) | (tx << 16) | out
}

fn chan(peer: &str, connected: bool, state: ChannelState, scid: Option<u64>, private: bool, to_us: u64, total: u64) -> ChannelInfo {
    ChannelInfo {
        peer_id: peer.to_string(),
        peer_connected: connected,
        state,
        short_channel_id: scid,
        private,
        to_us_msat: Some(to_us),
        total_msat: Some(total),
        our_reserve_msat: Some(10_000),
        their_reserve_msat: Some(10_000),
        minimum_htlc_out_msat: 1_000,
        maximum_htlc_out_msat: 990_000,
        fee_base_msat: 1_000,
        fee_proportional_millionths: 100,
        remote_fee_base_msat: Some(5),
        remote_fee_proportional_millionths: Some(7),
        htlc_count: 2,
        uptime_order: 0,
        perc_us_order: 0,
        uptime_text: "100%".to_string(),
        perc_us_text: "50.00%".to_string(),
    }
}

fn sample_channels() -> Vec<ChannelInfo> {
    vec![
        chan("p1", true, ChannelState::CHANNELD_NORMAL, Some(scid(800_000, 1, 0)), false, 600_000, 1_000_000),
        chan("p2", false, ChannelState::CHANNELD_AWAITING_LOCKIN, None, false, 0, 2_000_000),
        chan("p3", true, ChannelState::CHANNELD_NORMAL, Some(scid(800_000, 2, 0)), true, 1_000, 2_000),
        chan("p4", true, ChannelState::ONCHAIN, Some(scid(700_000, 3, 1)), false, 100, 100),
    ]
}

#[test]
fn gossipers_and_graph_scale() {
    assert_eq!(count_gossipers(&vec![Some(0), Some(2), Some(0)]), 2);
    assert_eq!(count_gossipers(&vec![]), 0);
    assert_eq!(graph_max_chan_side(&sample_channels()), 2_000_000);
    assert_eq!(graph_max_chan_side(&vec![]), 0);
}

#[test]
fn channel_filtering() {
    let mut c = en_us();
    let chans = sample_channels();
    assert!(!is_chan_filtered(&c, &chans[2]));
    c.exclude_channel_states.channel_visibility = Some(ChannelVisibility::Private);
    assert!(is_chan_filtered(&c, &chans[2]));
    assert!(!is_chan_filtered(&c, &chans[0]));
}

#[test]
fn channel_rows() {
    let c = en_us();
    let chans = sample_channels();
    let s = chan_to_summary(&c, &chans[0], "Alice".to_string(), 2_000_000).unwrap();
    assert_eq!(s.out_sats, 600);
    assert_eq!(s.in_sats, 400);
    assert_eq!(s.total_sats, 1000);
    assert_eq!(s.scid, "800000x1x0");
    assert_eq!(s.min_htlc, 1);
    assert_eq!(s.max_htlc, 990);
    assert_eq!(s.flag, "[__]");
    assert_eq!(s.state, "OK");
    assert_eq!(s.alias, "Alice");
    assert_eq!(s.in_base, "N/A");
    assert_eq!(s.in_ppm, "N/A");
    assert_eq!(s.graph_sats, "");
    assert_eq!(s.ping, 0);
    let s = chan_to_summary(&c, &chans[1], "Bob".to_string(), 2_000_000).unwrap();
    assert_eq!(s.scid, "PENDING");
    assert_eq!(s.scid_raw, 11153726328280121443);
    assert_eq!(s.flag, "[_O]");
    let mut with_fees = en_us();
    with_fees.columns.push(SummaryColumns::IN_BASE);
    with_fees.columns.push(SummaryColumns::GRAPH_SATS);
    let s = chan_to_summary(&with_fees, &chans[0], "Ålice".to_string(), 2_000_000).unwrap();
    assert_eq!(s.in_base, "5");
    assert_eq!(s.in_ppm, "7");
    assert_eq!(s.graph_sats.chars().count(), 47);
    let mut ascii = en_us();
    ascii.utf8 = false;
    let s = chan_to_summary(&ascii, &chans[0], "Ålice".to_string(), 2_000_000).unwrap();
    assert_eq!(s.alias, "?lice");
    let mut broken = chans[0].clone();
    broken.to_us_msat = None;
    match chan_to_summary(&c, &broken, "x".to_string(), 2_000_000) {
        Err(ChannelError::NoToUs(p)) => assert_eq!(p, "p1"),
        other => panic!("unexpected {:?}", other),
    }
    let mut broken = chans[0].clone();
    broken.total_msat = None;
    match chan_to_summary(&c, &broken, "x".to_string(), 2_000_000) {
        Err(ChannelError::NoTotal(p)) => assert_eq!(p, "p1"),
        other => panic!("unexpected {:?}", other),
    }
}

#[test]
fn channels_table_and_node_summary() {
    let mut c = en_us();
    c.exclude_channel_states.channel_visibility = Some(ChannelVisibility::Private);
    let chans = sample_channels();
    let aliases = vec![("p1".to_string(), "Alice".to_string())];
    let (ns, rows) = process_channels_data(&c, &chans, &vec![Some(0), Some(0), Some(2), Some(0)], &aliases, graph_max_chan_side(&chans)).unwrap();
    assert_eq!(
        ns,
        NodeSummary {
            channel_count: 2,
            num_connected: 1,
            num_gossipers: 3,
            avail_in: 390_000,
            avail_out: 590_000,
            filter_count: 1,
        }
    );
    assert_eq!(rows.iter().map(|r| r.peer_id.as_str()).collect::<Vec<_>>(), vec!["p1", "p2", "p4"]);
    assert_eq!(rows[0].alias, "Alice");
    assert_eq!(rows[1].alias, "NODE_GOSSIP_MISS");
    let mut broken = sample_channels();
    broken[3].our_reserve_msat = None;
    match process_channels_data(&c, &broken, &vec![], &aliases, 2_000_000) {
        Err(ChannelError::NoOurReserve(p)) => assert_eq!(p, "p4"),
        other => panic!("unexpected {:?}", other),
    }
    // A channel the settings filter need not be complete.
    let mut filtered_broken = sample_channels();
    filtered_broken[2].their_reserve_msat = None;
    assert!(process_channels_data(&c, &filtered_broken, &vec![], &aliases, 2_000_000).is_ok());
}

fn row(peer: &str, alias: &str, out_sats: u64) -> Summary {
    let c = en_us();
    let mut ch = chan(peer, true, ChannelState::CHANNELD_NORMAL, Some(scid(1, 1, 1)), false, out_sats * 1000, out_sats * 1000);
    ch.peer_id = peer.to_string();
    chan_to_summary(&c, &ch, alias.to_string(), u64::MAX).unwrap()
}

#[test]
fn channels_sorting() {
    let mut c = en_us();
    let mut table = vec![row("p1", "bob", 600), row("p2", "Alice", 0), row("p3", "@carol", 0)];
    c.sort_by = SummaryColumns::OUT_SATS;
    sort_summary(&c, &mut table);
    assert_eq!(table.iter().map(|r| r.peer_id.as_str()).collect::<Vec<_>>(), vec!["p2", "p3", "p1"]);
    c.sort_reverse = true;
    sort_summary(&c, &mut table);
    assert_eq!(table.iter().map(|r| r.peer_id.as_str()).collect::<Vec<_>>(), vec!["p1", "p2", "p3"]);
    c.sort_by = SummaryColumns::ALIAS;
    c.sort_reverse = false;
    sort_summary(&c, &mut table);
    assert_eq!(table.iter().map(|r| r.alias.as_str()).collect::<Vec<_>>(), vec!["Alice", "bob", "@carol"]);
}

#[test]
fn node_addresses() {
    let addrs = Some(vec![
        NodeAddress { is_ipv4: false, address: Some("abc.onion".to_string()), port: 9735 },
        NodeAddress { is_ipv4: true, address: Some("1.2.3.4".to_string()), port: 9736 },
    ]);
    assert_eq!(get_addrstr("id", &addrs, &None), "id@1.2.3.4:9736");
    let onion = Some(vec![NodeAddress { is_ipv4: false, address: Some("abc.onion".to_string()), port: 9735 }]);
    assert_eq!(get_addrstr("id", &onion, &None), "id@abc.onion:9735");
    let bind = Some(vec![BindingAddress { address: Some("127.0.0.1".to_string()), port: None }]);
    assert_eq!(get_addrstr("id", &None, &bind), "id@127.0.0.1:9735");
    let bind = Some(vec![BindingAddress { address: None, port: Some(1) }]);
    assert_eq!(get_addrstr("id", &Some(vec![]), &bind), "id@missing address:1");
    assert_eq!(get_addrstr("id", &None, &None), "No addresses found!");
}

#[test]
fn node_summary_texts() {
    assert_eq!(utxo_amount(&vec![(true, 1000), (false, 500), (true, 1)]), 1001);
    let ns = NodeSummary { channel_count: 2, num_connected: 1, num_gossipers: 3, avail_in: 0, avail_out: 0, filter_count: 0 };
    let t = node_summary_text(
        &"id@1.2.3.4:9735".to_string(),
        4,
        &"0.1 BTC".to_string(),
        &ns,
        &"0.2 BTC".to_string(),
        &"0.3 BTC".to_string(),
        &"5".to_string(),
        &"TABLES".to_string(),
    );
    assert_eq!(
        t,
        "address=id@1.2.3.4:9735\nnum_utxos=4\nutxo_amount=0.1 BTC\nnum_channels=2\nnum_connected=1\nnum_gossipers=3\navail_out=0.2 BTC\navail_in=0.3 BTC\nfees_collected=5\nchannels_flags=P:private O:offline\nTABLES"
    );
    assert_eq!(
        join_tables(&"ch".to_string(), &Some("f".to_string()), &None, &Some("i".to_string())),
        "ch\n\nf\n\ni"
    );
    assert_eq!(join_tables(&"ch".to_string(), &None, &None, &None), "ch");
    assert_eq!(btc_amount_text(&en_us(), 12_504_690_900).unwrap(), "0.12504690 BTC");
}

#[test]
fn alias_refresh_schedule() {
    assert_eq!(next_alias_refresh(0, 100, 24), 86_400);
    assert_eq!(next_alias_refresh(5, 100, 24), 86_400);
    assert_eq!(next_alias_refresh(6, 100, 24), 3_600);
    assert_eq!(next_alias_refresh(10, 100, 24), 3_600);
    assert_eq!(next_alias_refresh(11, 100, 24), 600);
    assert_eq!(next_alias_refresh(25, 100, 24), 600);
    assert_eq!(next_alias_refresh(26, 100, 24), 60);
    assert_eq!(next_alias_refresh(0, 0, 24), 60);
}

#[test]
fn pings() {
    let mut c = en_us();
    assert_eq!(pings_wanted(&c, "v25.09"), Ok(false));
    c.columns.push(SummaryColumns::PING);
    assert_eq!(pings_wanted(&c, "v25.09"), Ok(true));
    assert_eq!(pings_wanted(&c, "v24.11"), Ok(false));
    assert_eq!(pings_wanted(&c, "garbage"), Err(VersionError::MissingV));
    assert_eq!(ping_concurrency(30), 5);
    assert_eq!(ping_concurrency(100), 10);
    assert_eq!(ping_ms(true, 42), 42);
    assert_eq!(ping_ms(false, 42), 5001);
    let rows = vec![row("p1", "a", 1), row("p2", "b", 1), row("p1", "c", 1)];
    let groups = peers_to_ping(&rows);
    assert_eq!(groups, vec![("p1".to_string(), vec![0, 2]), ("p2".to_string(), vec![1])]);
}

#[test]
fn node_aliases_and_peers() {
    assert_eq!(alias_of_node(true, Some("A".to_string())), "A");
    assert_eq!(alias_of_node(true, None), "NO_ALIAS_SET");
    assert_eq!(alias_of_node(false, Some("A".to_string())), "NODE_GOSSIP_MISS");
    let peers = chan_peers(&sample_channels());
    assert_eq!(peers.len(), 3);
    assert_eq!(peers[0], (scid(800_000, 1, 0), "p1".to_string()));
    assert_eq!(peers[2], (scid(700_000, 3, 1), "p4".to_string()));
}

#[test]
fn starting_states() {
    let d = FullNodeData::new("me".to_string(), "v25.09".to_string(), 7);
    assert_eq!(d.my_pubkey, "me");
    assert_eq!(d.graph_max_chan_side_msat, 7);
    assert!(d.channels.is_empty());
    assert_eq!(d.node_summary, NodeSummary::default());
    assert_eq!(HoldInvoicePageHelper::default(), HoldInvoicePageHelper { first_index: 1, last_window: 0 });
}

#[test]
fn channel_error_messages() {
    assert_eq!(ChannelError::NoToUs("p".to_string()).message(), "Channel with p has no msats to us!");
    assert_eq!(ChannelError::NoTotal("p".to_string()).message(), "Channel with p has no total amount!");
    assert_eq!(ChannelError::NoOurReserve("p".to_string()).message(), "Channel with p has no our_reserve!");
    assert_eq!(ChannelError::NoTheirReserve("p".to_string()).message(), "Channel with p has no their_reserve!");
}

#[test]
fn alias_lookups() {
    assert_eq!(alias_from_lookup(true, Some("A".to_string())), ("A".to_string(), true));
    assert_eq!(alias_from_lookup(true, None), ("NO_ALIAS_SET".to_string(), true));
    assert_eq!(alias_from_lookup(false, None), ("NODE_GOSSIP_MISS".to_string(), false));
}

#[test]
fn chan_peers_keeps_each_id_once_with_its_last_peer() {
    let mut chans = sample_channels();
    chans.push(chan("p5", true, ChannelState::CHANNELD_NORMAL, Some(scid(800_000, 1, 0)), false, 1, 2));
    let peers = chan_peers(&chans);
    assert_eq!(
        peers,
        vec![
            (scid(800_000, 1, 0), "p5".to_string()),
            (scid(800_000, 2, 0), "p3".to_string()),
            (scid(700_000, 3, 1), "p4".to_string()),
        ]
    );
}
