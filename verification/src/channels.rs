use vstd::prelude::*;

use crate::columns::SummaryColumns;
use crate::config::{ChannelVisibility, Config, ConnectionStatus};
use crate::flows::{
    ascii_only, get_alias_from_scid, keys_unique, lookup, lookup_value, node_gossip_miss, scid_text,
    scid_to_string, shown_alias,
};
use crate::numparse::{parse_u64, parsed_u64};
use crate::order::{key_views, sort_by_lex_key, sort_lex};
use crate::states::{state_short_name, ChannelState, ShortChannelState};
use crate::strutil::{ascii_lower, is_ws, str_chars, string_from_chars};
use crate::util::{
    active_state, channel_flags, decimal, draw_chans_graph, glyphs, graph_drawable, graph_line, make_channel_flags,
    rounded_div, rounded_div_u64, side_len, u64_to_decimal,
};

verus! {

/// A channel as `listpeerchannels` reports it, reduced to what the channels table reads;
/// `uptime_order` and `perc_us_order` rank the channel's availability and our share of it
/// the way their floating-point values compare, and `uptime_text` and `perc_us_text` are
/// those values as the table shows them.
#[derive(Debug, Clone)]
pub struct ChannelInfo {
    pub peer_id: String,
    pub peer_connected: bool,
    pub state: ChannelState,
    pub short_channel_id: Option<u64>,
    pub private: bool,
    pub to_us_msat: Option<u64>,
    pub total_msat: Option<u64>,
    pub our_reserve_msat: Option<u64>,
    pub their_reserve_msat: Option<u64>,
    pub minimum_htlc_out_msat: u64,
    pub maximum_htlc_out_msat: u64,
    pub fee_base_msat: u64,
    pub fee_proportional_millionths: u32,
    pub remote_fee_base_msat: Option<u64>,
    pub remote_fee_proportional_millionths: Option<u32>,
    pub htlc_count: usize,
    pub uptime_order: u64,
    pub perc_us_order: u64,
    pub uptime_text: String,
    pub perc_us_text: String,
}

/// A row of the channels table.
#[derive(Debug, Clone)]
pub struct Summary {
    pub graph_sats: String,
    pub out_sats: u64,
    pub in_sats: u64,
    pub total_sats: u64,
    pub scid_raw: u64,
    pub scid: String,
    pub max_htlc: u64,
    pub min_htlc: u64,
    pub flag: String,
    pub private: bool,
    pub offline: bool,
    pub base: u64,
    pub in_base: String,
    pub ppm: u32,
    pub in_ppm: String,
    pub alias: String,
    pub peer_id: String,
    pub uptime_order: u64,
    pub htlcs: usize,
    pub state: String,
    pub perc_us_order: u64,
    pub uptime_text: String,
    pub perc_us_text: String,
    pub ping: u64,
}

/// A row of the closed channels table.
#[derive(Debug, Clone)]
pub struct ClosedChannels {
    pub out_sats: u64,
    pub in_sats: u64,
    pub total_sats: u64,
    pub scid: Option<String>,
    pub flag: String,
    pub private: bool,
    pub alias: String,
    pub peer_id: Option<String>,
    pub htlcs_sent: u64,
    pub close_cause: String,
    pub last_connect: Option<u64>,
}

/// The node's channel counts and capacity.
#[derive(Debug, Clone, Copy, PartialEq, Eq, Structural)]
pub struct NodeSummary {
    pub channel_count: u32,
    pub num_connected: u32,
    pub num_gossipers: usize,
    pub avail_in: u64,
    pub avail_out: u64,
    pub filter_count: u32,
}

impl Default for NodeSummary {
    fn default() -> (r: NodeSummary)
        ensures
            r == (NodeSummary {
                channel_count: 0,
                num_connected: 0,
                num_gossipers: 0,
                avail_in: 0,
                avail_out: 0,
                filter_count: 0,
            }),
    {
        NodeSummary {
            channel_count: 0,
            num_connected: 0,
            num_gossipers: 0,
            avail_in: 0,
            avail_out: 0,
            filter_count: 0,
        }
    }
}

/// Where paging through hold invoices stands.
#[derive(Debug, Clone, Copy, PartialEq, Eq, Structural)]
pub struct HoldInvoicePageHelper {
    pub first_index: i64,
    pub last_window: u64,
}

impl Default for HoldInvoicePageHelper {
    fn default() -> (r: HoldInvoicePageHelper)
        ensures
            r == (HoldInvoicePageHelper { first_index: 1, last_window: 0 }),
    {
        HoldInvoicePageHelper { first_index: 1, last_window: 0 }
    }
}

/// The short channel id that pending channels are sorted by.
pub open spec fn pending_scid_value() -> u64 {
    11153726328280121443
}

/// `cln_rpc::primitives::ShortChannelId::from_str("999999999x9999x99")` as `u64`: the block
/// shifted left by 40 bits (the bits beyond 64 lost), or-ed with the transaction index
/// shifted by 16 and the output, as its source computes.
#[verifier::external_body]
fn pending_scid() -> (r: u64)
    ensures
        r == pending_scid_value(),
{
    <cln_rpc::primitives::ShortChannelId as std::str::FromStr>::from_str("999999999x9999x99").unwrap().to_u64()
}

/// The number of peers without channels: the gossipers.
pub open spec fn gossipers(peer_channel_counts: Seq<Option<u32>>) -> int {
    peer_channel_counts.filter(|n: Option<u32>| n == Some(0u32)).len() as int
}

/// Counts the peers that have no channel with us. A peer's channel count must be known.
pub fn count_gossipers(peer_channel_counts: &Vec<Option<u32>>) -> (r: usize)
    requires
        forall|k: int| 0 <= k < peer_channel_counts@.len() ==> (#[trigger] peer_channel_counts@[k]) is Some,
    ensures
        r as int == gossipers(peer_channel_counts@),
{
    let mut n: usize = 0;
    let mut i: usize = 0;
    while i < peer_channel_counts.len()
        invariant
            i <= peer_channel_counts@.len(),
            n as int == gossipers(peer_channel_counts@.take(i as int)),
            n <= i,
        decreases peer_channel_counts@.len() - i,
    {
        proof {
            assert(peer_channel_counts@.take(i + 1).drop_last() =~= peer_channel_counts@.take(i as int));
            reveal(Seq::filter);
        }
        if peer_channel_counts[i] == Some(0u32) {
            n = n + 1;
        }
        i = i + 1;
    }
    proof {
        assert(peer_channel_counts@.take(peer_channel_counts@.len() as int) =~= peer_channel_counts@);
    }
    n
}

/// Our side of a channel, zero where unknown.
pub open spec fn our_side(c: ChannelInfo) -> u64 {
    match c.to_us_msat {
        Some(x) => x,
        None => 0,
    }
}

/// Their side of a channel (total less ours, at least zero), zero where unknown.
pub open spec fn their_side(c: ChannelInfo) -> u64 {
    (match c.total_msat {
        Some(x) => x,
        None => 0,
    }).saturating_sub(our_side(c))
}

/// The largest side of any channel, zero for none.
pub open spec fn max_side(chans: Seq<ChannelInfo>) -> u64
    decreases chans.len(),
{
    if chans.len() == 0 {
        0
    } else {
        let m = max_side(chans.drop_last());
        let a = our_side(chans.last());
        let b = their_side(chans.last());
        let mab = if a >= b { a } else { b };
        if m >= mab { m } else { mab }
    }
}

proof fn lemma_max_side_bounds(chans: Seq<ChannelInfo>, k: int)
    requires
        0 <= k < chans.len(),
    ensures
        our_side(chans[k]) <= max_side(chans),
        their_side(chans[k]) <= max_side(chans),
    decreases chans.len(),
{
    if k < chans.len() - 1 {
        lemma_max_side_bounds(chans.drop_last(), k);
        assert(chans.drop_last()[k] == chans[k]);
    }
}

/// The largest side of any channel: the scale of the channel graphs.
pub fn graph_max_chan_side(chans: &Vec<ChannelInfo>) -> (r: u64)
    ensures
        r == max_side(chans@),
        forall|k: int|
            0 <= k < chans@.len() ==> our_side(#[trigger] chans@[k]) <= r && their_side(chans@[k]) <= r,
{
    let mut m: u64 = 0;
    let mut i: usize = 0;
    while i < chans.len()
        invariant
            i <= chans@.len(),
            m == max_side(chans@.take(i as int)),
        decreases chans@.len() - i,
    {
        let a = match chans[i].to_us_msat {
            Some(x) => x,
            None => 0,
        };
        let t = match chans[i].total_msat {
            Some(x) => x,
            None => 0,
        };
        let b = t.saturating_sub(a);
        let mab = if a >= b { a } else { b };
        proof {
            assert(chans@.take(i + 1).drop_last() =~= chans@.take(i as int));
            assert(chans@.take(i + 1).last() == chans@[i as int]);
        }
        if m < mab {
            m = mab;
        }
        i = i + 1;
    }
    proof {
        assert(chans@.take(chans@.len() as int) =~= chans@);
        assert forall|k: int| 0 <= k < chans@.len() implies our_side(#[trigger] chans@[k]) <= m
            && their_side(chans@[k]) <= m by {
            lemma_max_side_bounds(chans@, k);
        }
    }
    m
}

/// The channel is left out of the table by the excluded states, visibility or connection
/// status of the settings.
pub open spec fn chan_filtered(config: Config, c: ChannelInfo) -> bool {
    let ex = config.exclude_channel_states;
    ||| exists|k: int| 0 <= k < ex.channel_states@.len() && ex.channel_states@[k].0 == c.state
    ||| (ex.channel_visibility matches Some(v) && (match v {
        ChannelVisibility::Private => c.private,
        ChannelVisibility::Public => !c.private,
    }))
    ||| (ex.connection_status matches Some(s) && (match s {
        ConnectionStatus::Online => c.peer_connected,
        ConnectionStatus::Offline => !c.peer_connected,
    }))
}

/// The exclusions of the settings, read on the channel's fields: a channel is left out where
/// its state is among the excluded states, where it is private and private channels are
/// excluded (public where public ones are), where its peer is connected and online peers are
/// excluded, or where its peer is not connected and offline peers are excluded; and only
/// then.
pub proof fn lemma_chan_filtered_fields(config: Config, c: ChannelInfo)
    ensures
        chan_filtered(config, c) <==> (exists|k: int|
            0 <= k < config.exclude_channel_states.channel_states@.len()
                && #[trigger] config.exclude_channel_states.channel_states@[k].0 == c.state)
            || (config.exclude_channel_states.channel_visibility == Some(ChannelVisibility::Private) && c.private)
            || (config.exclude_channel_states.channel_visibility == Some(ChannelVisibility::Public) && !c.private)
            || (config.exclude_channel_states.connection_status == Some(ConnectionStatus::Online) && c.peer_connected)
            || (config.exclude_channel_states.connection_status == Some(ConnectionStatus::Offline)
                && !c.peer_connected),
{
}

/// Whether the settings leave the channel out of the table.
pub fn is_chan_filtered(config: &Config, chan: &ChannelInfo) -> (r: bool)
    ensures
        r == chan_filtered(*config, *chan),
        config.exclude_channel_states.connection_status == Some(ConnectionStatus::Online) && chan.peer_connected ==> r,
        config.exclude_channel_states.connection_status == Some(ConnectionStatus::Offline) && !chan.peer_connected ==> r,
        config.exclude_channel_states.channel_visibility == Some(ChannelVisibility::Private) && chan.private ==> r,
        config.exclude_channel_states.channel_visibility == Some(ChannelVisibility::Public) && !chan.private ==> r,
        forall|k: int|
            0 <= k < config.exclude_channel_states.channel_states@.len()
                && #[trigger] config.exclude_channel_states.channel_states@[k].0 == chan.state ==> r,
        r ==> (exists|k: int|
            0 <= k < config.exclude_channel_states.channel_states@.len()
                && #[trigger] config.exclude_channel_states.channel_states@[k].0 == chan.state)
            || (config.exclude_channel_states.channel_visibility == Some(ChannelVisibility::Private) && chan.private)
            || (config.exclude_channel_states.channel_visibility == Some(ChannelVisibility::Public) && !chan.private)
            || (config.exclude_channel_states.connection_status == Some(ConnectionStatus::Online) && chan.peer_connected)
            || (config.exclude_channel_states.connection_status == Some(ConnectionStatus::Offline)
                && !chan.peer_connected),
{
    proof {
        lemma_chan_filtered_fields(*config, *chan);
    }
    let states = &config.exclude_channel_states.channel_states;
    let mut excluded_state = false;
    let mut i: usize = 0;
    while i < states.len()
        invariant
            i <= states@.len(),
            excluded_state == exists|k: int| 0 <= k < i && states@[k].0 == chan.state,
        decreases states@.len() - i,
    {
        if states[i].0 == chan.state {
            excluded_state = true;
        }
        i = i + 1;
    }
    let vis = match config.exclude_channel_states.channel_visibility {
        Some(ChannelVisibility::Private) => chan.private,
        Some(ChannelVisibility::Public) => !chan.private,
        None => false,
    };
    let con = match config.exclude_channel_states.connection_status {
        Some(ConnectionStatus::Online) => chan.peer_connected,
        Some(ConnectionStatus::Offline) => !chan.peer_connected,
        None => false,
    };
    excluded_state || vis || con
}

/// A field that a channel lacks, with its peer.
#[derive(Debug, Clone)]
pub enum ChannelError {
    NoToUs(String),
    NoTotal(String),
    NoOurReserve(String),
    NoTheirReserve(String),
}

/// The message that a channel error is reported with.
pub open spec fn channel_error_text(e: ChannelError) -> Seq<char> {
    match e {
        ChannelError::NoToUs(p) => "Channel with "@ + p@ + " has no msats to us!"@,
        ChannelError::NoTotal(p) => "Channel with "@ + p@ + " has no total amount!"@,
        ChannelError::NoOurReserve(p) => "Channel with "@ + p@ + " has no our_reserve!"@,
        ChannelError::NoTheirReserve(p) => "Channel with "@ + p@ + " has no their_reserve!"@,
    }
}

impl ChannelError {
    /// The message that the error is reported with (see `channel_error_text`).
    pub fn message(&self) -> (r: String)
        ensures
            r@ == channel_error_text(*self),
    {
        let mut cs: Vec<char> = Vec::new();
        push_all(&mut cs, "Channel with ");
        let (p, tail) = match self {
            ChannelError::NoToUs(p) => (p, " has no msats to us!"),
            ChannelError::NoTotal(p) => (p, " has no total amount!"),
            ChannelError::NoOurReserve(p) => (p, " has no our_reserve!"),
            ChannelError::NoTheirReserve(p) => (p, " has no their_reserve!"),
        };
        push_all(&mut cs, p.as_str());
        push_all(&mut cs, tail);
        proof {
            assert(cs@ =~= channel_error_text(*self));
        }
        string_from_chars(cs.as_slice())
    }
}

/// Where the graph column is shown, a channel with both amounts can be drawn against the
/// scale (see `graph_drawable`).
pub open spec fn chan_graph_ok(config: Config, c: ChannelInfo, max: u64) -> bool {
    (config.columns@.contains(SummaryColumns::GRAPH_SATS) && c.to_us_msat is Some && c.total_msat
        is Some) ==> graph_drawable(c.to_us_msat->0, c.total_msat->0, max)
}

/// The columns that show the peer's fees towards us are shown or sorted by.
pub open spec fn wants_inbound_fees(config: Config) -> bool {
    ||| config.columns@.contains(SummaryColumns::IN_BASE)
    ||| config.columns@.contains(SummaryColumns::IN_PPM)
    ||| config.sort_by == SummaryColumns::IN_BASE
    ||| config.sort_by == SummaryColumns::IN_PPM
}

/// The row that a channel with both amounts gives: amounts rounded to sat, the graph where
/// it is a column, the peer's fees where they are wanted and known (else `N/A`), the alias
/// as shown, and `PENDING` for a channel without short channel id.
pub open spec fn summary_row_ok(
    s: Summary,
    c: ChannelInfo,
    config: Config,
    alias: Seq<char>,
    graph_max: u64,
) -> bool {
    let to_us = c.to_us_msat->0;
    let total = c.total_msat->0;
    let scid = match c.short_channel_id {
        Some(x) => x,
        None => pending_scid_value(),
    };
    &&& s.graph_sats@ == (if config.columns@.contains(SummaryColumns::GRAPH_SATS) {
        graph_line(
            glyphs(config.utf8),
            side_len(to_us as int, graph_max as int),
            side_len(total - to_us, graph_max as int),
        )
    } else {
        Seq::<char>::empty()
    })
    &&& s.out_sats == rounded_div(to_us as int, 1000)
    &&& s.in_sats == rounded_div(total - to_us, 1000)
    &&& s.total_sats == rounded_div(total as int, 1000)
    &&& s.scid_raw == scid
    &&& s.scid@ == (if scid == pending_scid_value() {
        "PENDING"@
    } else {
        scid_text(scid)
    })
    &&& s.min_htlc == rounded_div(c.minimum_htlc_out_msat as int, 1000)
    &&& s.max_htlc == rounded_div(c.maximum_htlc_out_msat as int, 1000)
    &&& s.flag@ == channel_flags(c.private, !c.peer_connected)
    &&& s.private == c.private
    &&& s.offline == !c.peer_connected
    &&& s.base == c.fee_base_msat
    &&& s.ppm == c.fee_proportional_millionths
    &&& s.in_base@ == (if wants_inbound_fees(config) && c.remote_fee_base_msat is Some
        && c.remote_fee_proportional_millionths is Some {
        decimal(c.remote_fee_base_msat->0 as nat)
    } else {
        "N/A"@
    })
    &&& s.in_ppm@ == (if wants_inbound_fees(config) && c.remote_fee_base_msat is Some
        && c.remote_fee_proportional_millionths is Some {
        decimal(c.remote_fee_proportional_millionths->0 as nat)
    } else {
        "N/A"@
    })
    &&& s.alias@ == shown_alias(alias, config.utf8)
    &&& s.peer_id@ == c.peer_id@
    &&& s.uptime_order == c.uptime_order
    &&& s.htlcs == c.htlc_count
    &&& s.state@ == state_short_name(c.state)
    &&& s.perc_us_order == c.perc_us_order
    &&& s.uptime_text@ == c.uptime_text@
    &&& s.perc_us_text@ == c.perc_us_text@
    &&& s.ping == 0
}

fn contains_column(cols: &Vec<SummaryColumns>, c: SummaryColumns) -> (r: bool)
    ensures
        r == cols@.contains(c),
{
    let mut i: usize = 0;
    while i < cols.len()
        invariant
            i <= cols@.len(),
            forall|k: int| 0 <= k < i ==> cols@[k] != c,
        decreases cols@.len() - i,
    {
        if cols[i] == c {
            proof {
                assert(cols@[i as int] == c);
            }
            return true;
        }
        i = i + 1;
    }
    false
}

/// Makes the table row of a channel (see `summary_row_ok`).
pub fn chan_to_summary(
    config: &Config,
    chan: &ChannelInfo,
    alias: String,
    graph_max_chan_side_msat: u64,
) -> (r: Result<Summary, ChannelError>)
    requires
        chan.to_us_msat matches Some(u) && chan.total_msat matches Some(t) ==> u <= t,
        chan_graph_ok(*config, *chan, graph_max_chan_side_msat),
    ensures
        r is Ok <==> chan.to_us_msat is Some && chan.total_msat is Some,
        r matches Ok(s) ==> summary_row_ok(s, *chan, *config, alias@, graph_max_chan_side_msat),
        r matches Err(e) ==> (if chan.to_us_msat is None {
            e matches ChannelError::NoToUs(p) && p@ == chan.peer_id@
        } else {
            e matches ChannelError::NoTotal(p) && p@ == chan.peer_id@
        }),
{
    let to_us = match chan.to_us_msat {
        Some(x) => x,
        None => {
            return Err(ChannelError::NoToUs(chan.peer_id.clone()));
        },
    };
    let total = match chan.total_msat {
        Some(x) => x,
        None => {
            return Err(ChannelError::NoTotal(chan.peer_id.clone()));
        },
    };
    let dummy = pending_scid();
    let scid = match chan.short_channel_id {
        Some(s) => s,
        None => dummy,
    };
    let na = "N/A";
    proof {
        reveal_strlit("N/A");
    }
    let mut in_base = string_from_chars(str_chars(na).as_slice());
    let mut in_ppm = string_from_chars(str_chars(na).as_slice());
    if contains_column(&config.columns, SummaryColumns::IN_BASE) || contains_column(
        &config.columns,
        SummaryColumns::IN_PPM,
    ) || config.sort_by == SummaryColumns::IN_BASE || config.sort_by == SummaryColumns::IN_PPM {
        if let (Some(b), Some(p)) = (chan.remote_fee_base_msat, chan.remote_fee_proportional_millionths) {
            in_base = u64_to_decimal(b);
            in_ppm = u64_to_decimal(p as u64);
        }
    }
    let graph_sats = if contains_column(&config.columns, SummaryColumns::GRAPH_SATS) {
        draw_chans_graph(config, total, to_us, graph_max_chan_side_msat)
    } else {
        String::new()
    };
    let scid_str = if scid == dummy {
        proof {
            reveal_strlit("PENDING");
        }
        string_from_chars(str_chars("PENDING").as_slice())
    } else {
        scid_to_string(scid)
    };
    let shown = if config.utf8 {
        alias
    } else {
        crate::flows::replace_non_ascii(alias.as_str())
    };
    Ok(Summary {
        graph_sats,
        out_sats: rounded_div_u64(to_us, 1000),
        in_sats: rounded_div_u64(total - to_us, 1000),
        total_sats: rounded_div_u64(total, 1000),
        scid_raw: scid,
        scid: scid_str,
        max_htlc: rounded_div_u64(chan.maximum_htlc_out_msat, 1000),
        min_htlc: rounded_div_u64(chan.minimum_htlc_out_msat, 1000),
        flag: make_channel_flags(chan.private, !chan.peer_connected),
        private: chan.private,
        offline: !chan.peer_connected,
        base: chan.fee_base_msat,
        in_base,
        ppm: chan.fee_proportional_millionths,
        in_ppm,
        alias: shown,
        peer_id: chan.peer_id.clone(),
        uptime_order: chan.uptime_order,
        htlcs: chan.htlc_count,
        state: ShortChannelState(chan.state).to_string(),
        perc_us_order: chan.perc_us_order,
        uptime_text: chan.uptime_text.clone(),
        perc_us_text: chan.perc_us_text.clone(),
        ping: 0,
    })
}


/// The channel has both amounts and both reserves.
pub open spec fn chan_complete(c: ChannelInfo) -> bool {
    c.to_us_msat is Some && c.total_msat is Some && c.our_reserve_msat is Some
        && c.their_reserve_msat is Some
}

/// The error for a channel that lacks a field: the first missing of our amount, the total,
/// our reserve and theirs.
pub open spec fn chan_error(e: ChannelError, c: ChannelInfo) -> bool {
    if c.to_us_msat is None {
        e matches ChannelError::NoToUs(p) && p@ == c.peer_id@
    } else if c.total_msat is None {
        e matches ChannelError::NoTotal(p) && p@ == c.peer_id@
    } else if c.our_reserve_msat is None {
        e matches ChannelError::NoOurReserve(p) && p@ == c.peer_id@
    } else {
        e matches ChannelError::NoTheirReserve(p) && p@ == c.peer_id@
    }
}

/// One channel counted into the node summary: a filtered one only counts as filtered; a
/// normal one (or one awaiting a splice) adds what can be sent and received beyond the
/// reserves; an active one counts as a channel, and as connected where its peer is.
pub open spec fn node_step(ns: NodeSummary, config: Config, c: ChannelInfo) -> NodeSummary {
    if chan_filtered(config, c) {
        NodeSummary { filter_count: ns.filter_count.wrapping_add(1), ..ns }
    } else {
        let to_us = c.to_us_msat->0;
        let total = c.total_msat->0;
        let ours = c.our_reserve_msat->0;
        let theirs = c.their_reserve_msat->0;
        let ns1 = if c.state == ChannelState::CHANNELD_NORMAL || c.state
            == ChannelState::CHANNELD_AWAITING_SPLICE {
            NodeSummary {
                avail_out: if ours < to_us {
                    ns.avail_out.wrapping_add((to_us - ours) as u64)
                } else {
                    ns.avail_out
                },
                avail_in: if theirs < total - to_us {
                    ns.avail_in.wrapping_add((total - to_us - theirs) as u64)
                } else {
                    ns.avail_in
                },
                ..ns
            }
        } else {
            ns
        };
        if active_state(c.state) {
            NodeSummary {
                num_connected: if c.peer_connected {
                    ns1.num_connected.wrapping_add(1)
                } else {
                    ns1.num_connected
                },
                channel_count: ns1.channel_count.wrapping_add(1),
                ..ns1
            }
        } else {
            ns1
        }
    }
}

/// The channels counted into the node summary in order.
pub open spec fn node_fold(ns: NodeSummary, config: Config, s: Seq<ChannelInfo>) -> NodeSummary
    decreases s.len(),
{
    if s.len() == 0 {
        ns
    } else {
        node_step(node_fold(ns, config, s.drop_last()), config, s.last())
    }
}

/// The channels that the settings keep in the table.
pub open spec fn kept_channels(config: Config, s: Seq<ChannelInfo>) -> Seq<ChannelInfo> {
    s.filter(|c: ChannelInfo| !chan_filtered(config, c))
}

/// The alias known for a channel's peer, else the mark for a node gossip has not told about.
pub open spec fn peer_alias(c: ChannelInfo, aliases: Seq<(String, String)>) -> Seq<char> {
    match lookup(aliases, c.peer_id@) {
        Some(a) => a,
        None => node_gossip_miss(),
    }
}

/// Builds the channels table and the node summary from the channels, in their order: the
/// channels the settings filter are only counted; the others must have both amounts and both
/// reserves, and give a row each. The summary's gossipers are the peers without channels,
/// counted from the peers' channel counts.
pub fn process_channels_data(
    config: &Config,
    peer_channels: &Vec<ChannelInfo>,
    peer_channel_counts: &Vec<Option<u32>>,
    aliases: &Vec<(String, String)>,
    graph_max_chan_side_msat: u64,
) -> (r: Result<(NodeSummary, Vec<Summary>), ChannelError>)
    requires
        forall|k: int| 0 <= k < peer_channel_counts@.len() ==> (#[trigger] peer_channel_counts@[k]) is Some,
        forall|k: int|
            0 <= k < peer_channels@.len() ==> ((#[trigger] peer_channels@[k]).to_us_msat matches Some(
                u,
            ) && peer_channels@[k].total_msat matches Some(t) ==> u <= t),
        forall|k: int|
            0 <= k < peer_channels@.len() && !chan_filtered(*config, #[trigger] peer_channels@[k])
                ==> chan_graph_ok(*config, peer_channels@[k], graph_max_chan_side_msat),
    ensures
        r is Ok <==> forall|k: int|
            0 <= k < peer_channels@.len() && !chan_filtered(*config, #[trigger] peer_channels@[k])
                ==> chan_complete(peer_channels@[k]),
        r matches Ok(res) ==> {
            let kept = kept_channels(*config, peer_channels@);
            &&& res.0 == node_fold(
                NodeSummary {
                    channel_count: 0,
                    num_connected: 0,
                    num_gossipers: gossipers(peer_channel_counts@) as usize,
                    avail_in: 0,
                    avail_out: 0,
                    filter_count: 0,
                },
                *config,
                peer_channels@,
            )
            &&& res.1@.len() == kept.len()
            &&& forall|k: int|
                0 <= k < kept.len() ==> summary_row_ok(
                    #[trigger] res.1@[k],
                    kept[k],
                    *config,
                    peer_alias(kept[k], aliases@),
                    graph_max_chan_side_msat,
                )
        },
        r matches Err(e) ==> exists|k: int|
            0 <= k < peer_channels@.len() && !chan_filtered(*config, #[trigger] peer_channels@[k])
                && !chan_complete(peer_channels@[k]) && chan_error(e, peer_channels@[k]),
{
    let num_gossipers = count_gossipers(peer_channel_counts);
    let ghost s = peer_channels@;
    let ghost init = NodeSummary {
        channel_count: 0,
        num_connected: 0,
        num_gossipers,
        avail_in: 0,
        avail_out: 0,
        filter_count: 0,
    };
    let mut ns = NodeSummary {
        channel_count: 0,
        num_connected: 0,
        num_gossipers,
        avail_in: 0,
        avail_out: 0,
        filter_count: 0,
    };
    let mut rows: Vec<Summary> = Vec::new();
    let mut i: usize = 0;
    proof {
        assert(s.take(0) =~= Seq::<ChannelInfo>::empty());
        assert(kept_channels(*config, s.take(0)) =~= Seq::<ChannelInfo>::empty());
    }
    while i < peer_channels.len()
        invariant
            s == peer_channels@,
            i <= s.len(),
            init.num_gossipers == num_gossipers,
            init == (NodeSummary {
                channel_count: 0,
                num_connected: 0,
                num_gossipers,
                avail_in: 0,
                avail_out: 0,
                filter_count: 0,
            }),
            forall|k: int|
                0 <= k < s.len() ==> ((#[trigger] s[k]).to_us_msat matches Some(u) && s[k].total_msat matches Some(
                    t,
                ) ==> u <= t),
            forall|k: int|
                0 <= k < s.len() && !chan_filtered(*config, #[trigger] s[k]) ==> chan_graph_ok(
                    *config,
                    s[k],
                    graph_max_chan_side_msat,
                ),
            forall|k: int| 0 <= k < i && !chan_filtered(*config, #[trigger] s[k]) ==> chan_complete(s[k]),
            ns == node_fold(init, *config, s.take(i as int)),
            rows@.len() == kept_channels(*config, s.take(i as int)).len(),
            forall|k: int|
                0 <= k < rows@.len() ==> summary_row_ok(
                    #[trigger] rows@[k],
                    kept_channels(*config, s.take(i as int))[k],
                    *config,
                    peer_alias(kept_channels(*config, s.take(i as int))[k], aliases@),
                    graph_max_chan_side_msat,
                ),
        decreases s.len() - i,
    {
        let chan = &peer_channels[i];
        proof {
            assert(s.take(i + 1).drop_last() =~= s.take(i as int));
            assert(s.take(i + 1).last() == s[i as int]);
            reveal(Seq::filter);
        }
        if is_chan_filtered(config, chan) {
            ns.filter_count = ns.filter_count.wrapping_add(1);
        } else {
            if chan.to_us_msat.is_none() || chan.total_msat.is_none() || chan.our_reserve_msat.is_none()
                || chan.their_reserve_msat.is_none() {
                let p = chan.peer_id.clone();
                let e = if chan.to_us_msat.is_none() {
                    ChannelError::NoToUs(p)
                } else if chan.total_msat.is_none() {
                    ChannelError::NoTotal(p)
                } else if chan.our_reserve_msat.is_none() {
                    ChannelError::NoOurReserve(p)
                } else {
                    ChannelError::NoTheirReserve(p)
                };
                proof {
                    assert(chan_error(e, s[i as int]));
                }
                return Err(e);
            }
            let to_us = match chan.to_us_msat {
                Some(x) => x,
                None => 0,
            };
            let total = match chan.total_msat {
                Some(x) => x,
                None => 0,
            };
            let ours = match chan.our_reserve_msat {
                Some(x) => x,
                None => 0,
            };
            let theirs = match chan.their_reserve_msat {
                Some(x) => x,
                None => 0,
            };
            if chan.state == ChannelState::CHANNELD_NORMAL || chan.state
                == ChannelState::CHANNELD_AWAITING_SPLICE {
                if ours < to_us {
                    ns.avail_out = ns.avail_out.wrapping_add(to_us - ours);
                }
                if theirs < total - to_us {
                    ns.avail_in = ns.avail_in.wrapping_add(total - to_us - theirs);
                }
            }
            let alias = match lookup_value(aliases, &str_chars(chan.peer_id.as_str())) {
                Some(a) => a,
                None => string_from_chars(str_chars("NODE_GOSSIP_MISS").as_slice()),
            };
            let row = match chan_to_summary(config, chan, alias, graph_max_chan_side_msat) {
                Ok(row) => row,
                Err(e) => {
                    return Err(e);
                },
            };
            if crate::util::is_active_state(chan.state) {
                if chan.peer_connected {
                    ns.num_connected = ns.num_connected.wrapping_add(1);
                }
                ns.channel_count = ns.channel_count.wrapping_add(1);
            }
            let ghost rows0 = rows@;
            rows.push(row);
            proof {
                let kept1 = kept_channels(*config, s.take(i + 1));
                let kept0 = kept_channels(*config, s.take(i as int));
                assert(kept1 =~= kept0.push(s[i as int]));
                assert forall|k: int| 0 <= k < rows@.len() implies summary_row_ok(
                    #[trigger] rows@[k],
                    kept1[k],
                    *config,
                    peer_alias(kept1[k], aliases@),
                    graph_max_chan_side_msat,
                ) by {
                    if k < rows0.len() {
                        assert(rows@[k] == rows0[k]);
                        assert(kept1[k] == kept0[k]);
                    }
                }
            }
        }
        proof {
            let kept1 = kept_channels(*config, s.take(i + 1));
            let kept0 = kept_channels(*config, s.take(i as int));
            if chan_filtered(*config, s[i as int]) {
                assert(kept1 =~= kept0);
            }
        }
        i = i + 1;
    }
    proof {
        assert(s.take(s.len() as int) =~= s);
    }
    Ok((ns, rows))
}

/// A text as a sort key: its characters' code points.
pub open spec fn codes(s: Seq<char>) -> Seq<u64> {
    s.map_values(|c: char| c as u64)
}

/// The text an alias is sorted by: its ASCII characters other than white space and `@`,
/// lowercased.
pub open spec fn alias_sort_text(a: Seq<char>) -> Seq<char> {
    ascii_lower(a.filter(|c: char| (c as u32) < 128 && !is_ws(c) && c != '@'))
}

/// A peer fee column as a number to sort by: its value, or the largest `u64` for `N/A`.
pub open spec fn fee_sort_value(s: Seq<char>) -> u64 {
    match parsed_u64(s) {
        Some(v) => v,
        None => u64::MAX,
    }
}

/// What a row is sorted by for a column: the number or text of the column; the channel
/// graph sorts by short channel id.
pub open spec fn summary_sort_key(s: Summary, col: SummaryColumns) -> Seq<u64> {
    match col {
        SummaryColumns::OUT_SATS => seq![s.out_sats],
        SummaryColumns::IN_SATS => seq![s.in_sats],
        SummaryColumns::TOTAL_SATS => seq![s.total_sats],
        SummaryColumns::MIN_HTLC => seq![s.min_htlc],
        SummaryColumns::MAX_HTLC => seq![s.max_htlc],
        SummaryColumns::FLAG => codes(s.flag@),
        SummaryColumns::BASE => seq![s.base],
        SummaryColumns::PPM => seq![s.ppm as u64],
        SummaryColumns::PEER_ID => codes(s.peer_id@),
        SummaryColumns::HTLCS => seq![s.htlcs as u64],
        SummaryColumns::STATE => codes(s.state@),
        SummaryColumns::PING => seq![s.ping],
        SummaryColumns::SCID | SummaryColumns::GRAPH_SATS => seq![s.scid_raw],
        SummaryColumns::IN_BASE => seq![fee_sort_value(s.in_base@)],
        SummaryColumns::IN_PPM => seq![fee_sort_value(s.in_ppm@)],
        SummaryColumns::ALIAS => codes(alias_sort_text(s.alias@)),
        SummaryColumns::UPTIME => seq![s.uptime_order],
        SummaryColumns::PERC_US => seq![s.perc_us_order],
    }
}

/// The rows with their sort keys.
pub open spec fn keyed_summaries(s: Seq<Summary>, col: SummaryColumns) -> Seq<(Seq<u64>, Summary)> {
    s.map_values(|x: Summary| (summary_sort_key(x, col), x))
}

/// The rows of keyed rows.
pub open spec fn unkeyed(s: Seq<(Seq<u64>, Summary)>) -> Seq<Summary> {
    s.map_values(|p: (Seq<u64>, Summary)| p.1)
}

fn char_codes(s: &Vec<char>) -> (r: Vec<u64>)
    ensures
        r@ == codes(s@),
{
    let mut out: Vec<u64> = Vec::new();
    let mut i: usize = 0;
    while i < s.len()
        invariant
            i <= s@.len(),
            out@ == codes(s@.take(i as int)),
        decreases s@.len() - i,
    {
        out.push(s[i] as u64);
        proof {
            assert(out@ =~= codes(s@.take(i + 1)));
        }
        i = i + 1;
    }
    proof {
        assert(s@.take(s@.len() as int) =~= s@);
    }
    out
}

fn alias_key(a: &String) -> (r: Vec<char>)
    ensures
        r@ == alias_sort_text(a@),
{
    let cs = str_chars(a.as_str());
    let mut kept: Vec<char> = Vec::new();
    let mut i: usize = 0;
    while i < cs.len()
        invariant
            i <= cs@.len(),
            kept@ == cs@.take(i as int).filter(|c: char| (c as u32) < 128 && !is_ws(c) && c != '@'),
        decreases cs@.len() - i,
    {
        let c = cs[i];
        proof {
            assert(cs@.take(i + 1).drop_last() =~= cs@.take(i as int));
            reveal(Seq::filter);
        }
        if (c as u32) < 128 && !crate::strutil::is_whitespace(c) && c != '@' {
            kept.push(c);
        }
        i = i + 1;
    }
    proof {
        assert(cs@.take(cs@.len() as int) =~= cs@);
    }
    crate::strutil::to_lower_chars(&kept)
}

fn fee_key(s: &String) -> (r: u64)
    ensures
        r == fee_sort_value(s@),
{
    match parse_u64(&str_chars(s.as_str())) {
        Some(v) => v,
        None => u64::MAX,
    }
}

fn sort_key_of(s: &Summary, col: SummaryColumns) -> (r: Vec<u64>)
    ensures
        r@ == summary_sort_key(*s, col),
{
    let mut k: Vec<u64> = Vec::new();
    match col {
        SummaryColumns::OUT_SATS => k.push(s.out_sats),
        SummaryColumns::IN_SATS => k.push(s.in_sats),
        SummaryColumns::TOTAL_SATS => k.push(s.total_sats),
        SummaryColumns::MIN_HTLC => k.push(s.min_htlc),
        SummaryColumns::MAX_HTLC => k.push(s.max_htlc),
        SummaryColumns::FLAG => {
            k = char_codes(&str_chars(s.flag.as_str()));
        },
        SummaryColumns::BASE => k.push(s.base),
        SummaryColumns::PPM => k.push(s.ppm as u64),
        SummaryColumns::PEER_ID => {
            k = char_codes(&str_chars(s.peer_id.as_str()));
        },
        SummaryColumns::HTLCS => k.push(s.htlcs as u64),
        SummaryColumns::STATE => {
            k = char_codes(&str_chars(s.state.as_str()));
        },
        SummaryColumns::PING => k.push(s.ping),
        SummaryColumns::SCID | SummaryColumns::GRAPH_SATS => k.push(s.scid_raw),
        SummaryColumns::IN_BASE => k.push(fee_key(&s.in_base)),
        SummaryColumns::IN_PPM => k.push(fee_key(&s.in_ppm)),
        SummaryColumns::ALIAS => {
            k = char_codes(&alias_key(&s.alias));
        },
        SummaryColumns::UPTIME => k.push(s.uptime_order),
        SummaryColumns::PERC_US => k.push(s.perc_us_order),
    }
    proof {
        assert(k@ =~= summary_sort_key(*s, col));
    }
    k
}

/// Sorts the channels table by the column of the settings, downwards where they reverse it;
/// rows with equal keys keep their order.
pub fn sort_summary(config: &Config, table: &mut Vec<Summary>)
    ensures
        final(table)@ == unkeyed(
            sort_lex(keyed_summaries(old(table)@, config.sort_by), config.sort_reverse),
        ),
        forall|i: int, j: int|
            0 <= i < j < final(table)@.len() ==> rows_in_order(
                #[trigger] final(table)@[i],
                #[trigger] final(table)@[j],
                config.sort_by,
                config.sort_reverse,
            ),
        config.sort_by == SummaryColumns::PPM ==> forall|i: int, j: int|
            0 <= i < j < final(table)@.len() ==> if config.sort_reverse {
                (#[trigger] final(table)@[i]).ppm >= (#[trigger] final(table)@[j]).ppm
            } else {
                final(table)@[i].ppm <= final(table)@[j].ppm
            },
{
    let ghost t0 = table@;
    let n0 = table.len();
    assert(t0.len() == n0);
    let mut keyed: Vec<(Vec<u64>, Summary)> = Vec::new();
    let mut i: usize = 0;
    while table.len() > 0
        invariant
            i <= t0.len(),
            table@ == t0.subrange(i as int, t0.len() as int),
            table@.len() == t0.len() - i,
            t0.len() <= usize::MAX,
            key_views(keyed@) == keyed_summaries(t0.take(i as int), config.sort_by),
        decreases table@.len(),
    {
        let s = table.remove(0);
        proof {
            assert(s == t0[i as int]);
        }
        let k = sort_key_of(&s, config.sort_by);
        let ghost keyed0 = keyed@;
        keyed.push((k, s));
        proof {
            assert(t0.take(i + 1) =~= t0.take(i as int).push(t0[i as int]));
            assert(keyed@ =~= keyed0.push((k, s)));
            assert(key_views(keyed@) =~= key_views(keyed0).push((k@, s)));
            assert(keyed_summaries(t0.take(i as int).push(t0[i as int]), config.sort_by) =~= keyed_summaries(
                t0.take(i as int),
                config.sort_by,
            ).push((summary_sort_key(t0[i as int], config.sort_by), t0[i as int])));
            assert(table@ =~= t0.subrange(i + 1, t0.len() as int));
            assert(key_views(keyed@) =~= keyed_summaries(t0.take(i + 1), config.sort_by));
        }
        i = i + 1;
    }
    proof {
        assert(t0.take(i as int) =~= t0);
    }
    let sorted = sort_by_lex_key(keyed, config.sort_reverse);
    let ghost sv = sorted@;
    let m0 = sorted.len();
    assert(sv.len() == m0);
    let mut rest = sorted;
    let mut j: usize = 0;
    while rest.len() > 0
        invariant
            j <= sv.len(),
            rest@ == sv.subrange(j as int, sv.len() as int),
            rest@.len() == sv.len() - j,
            sv.len() <= usize::MAX,
            table@ == unkeyed(key_views(sv).take(j as int)),
        decreases rest@.len(),
    {
        let (_, s) = rest.remove(0);
        proof {
            assert(s == sv[j as int].1);
        }
        table.push(s);
        proof {
            assert(rest@ =~= sv.subrange(j + 1, sv.len() as int));
            assert(table@ =~= unkeyed(key_views(sv).take(j + 1)));
        }
        j = j + 1;
    }
    proof {
        assert(key_views(sv).take(j as int) =~= key_views(sv));
        lemma_sort_summary_fields(t0, config.sort_by, config.sort_reverse);
    }
}


/// An address the node announces: whether it is IPv4, the address, and the port.
#[derive(Debug, Clone)]
pub struct NodeAddress {
    pub is_ipv4: bool,
    pub address: Option<String>,
    pub port: u16,
}

/// An address the node listens on.
#[derive(Debug, Clone)]
pub struct BindingAddress {
    pub address: Option<String>,
    pub port: Option<u16>,
}

/// The index of the first IPv4 address, where there is one.
pub open spec fn first_ipv4(a: Seq<NodeAddress>) -> Option<int>
    decreases a.len(),
{
    if a.len() == 0 {
        None
    } else if a[0].is_ipv4 {
        Some(0)
    } else {
        match first_ipv4(a.drop_first()) {
            Some(i) => Some(i + 1),
            None => None,
        }
    }
}

/// `id@address:port`, `missing address` standing for an address that is not given.
pub open spec fn connect_string(id: Seq<char>, address: Option<String>, port: u16) -> Seq<char> {
    id + seq!['@'] + (match address {
        Some(a) => a@,
        None => "missing address"@,
    }) + seq![':'] + decimal(port as nat)
}

/// How the node can be reached: by the first announced IPv4 address, else the first
/// announced address, else the first address it listens on (port 9735 where none is
/// given), else no address.
pub open spec fn address_string(
    id: Seq<char>,
    address: Option<Vec<NodeAddress>>,
    binding: Option<Vec<BindingAddress>>,
) -> Seq<char> {
    if address matches Some(a) && a@.len() > 0 {
        let a = address->0@;
        let chosen = match first_ipv4(a) {
            Some(i) => a[i],
            None => a[0],
        };
        connect_string(id, chosen.address, chosen.port)
    } else if binding matches Some(b) && b@.len() > 0 {
        let b0 = binding->0@[0];
        connect_string(
            id,
            b0.address,
            match b0.port {
                Some(p) => p,
                None => 9735,
            },
        )
    } else {
        "No addresses found!"@
    }
}

fn connect_text(id: &str, address: &Option<String>, port: u16) -> (r: String)
    ensures
        r@ == connect_string(id@, *address, port),
{
    let mut cs = str_chars(id);
    cs.push('@');
    let a = match address {
        Some(a) => str_chars(a.as_str()),
        None => {
            proof {
                reveal_strlit("missing address");
            }
            str_chars("missing address")
        },
    };
    crate::strutil::append_chars(&mut cs, &a);
    cs.push(':');
    let p = u64_to_decimal(port as u64);
    crate::strutil::append_chars(&mut cs, &str_chars(p.as_str()));
    proof {
        assert(cs@ =~= connect_string(id@, *address, port));
    }
    string_from_chars(cs.as_slice())
}

/// The address line of the node (see `address_string`).
pub fn get_addrstr(
    id: &str,
    address: &Option<Vec<NodeAddress>>,
    binding: &Option<Vec<BindingAddress>>,
) -> (r: String)
    ensures
        r@ == address_string(id@, *address, *binding),
{
    if let Some(a) = address {
        if a.len() > 0 {
            let mut i: usize = 0;
            proof {
                assert(a@.subrange(0, a@.len() as int) =~= a@);
            }
            while i < a.len() && !a[i].is_ipv4
                invariant
                    i <= a@.len(),
                    forall|k: int| 0 <= k < i ==> !(#[trigger] a@[k]).is_ipv4,
                decreases a@.len() - i,
            {
                i = i + 1;
            }
            proof {
                lemma_first_ipv4(a@, i as int);
            }
            let chosen = if i < a.len() {
                &a[i]
            } else {
                &a[0]
            };
            return connect_text(id, &chosen.address, chosen.port);
        }
    }
    if let Some(b) = binding {
        if b.len() > 0 {
            let port = match b[0].port {
                Some(p) => p,
                None => 9735,
            };
            return connect_text(id, &b[0].address, port);
        }
    }
    proof {
        reveal_strlit("No addresses found!");
    }
    string_from_chars(str_chars("No addresses found!").as_slice())
}

proof fn lemma_first_ipv4(a: Seq<NodeAddress>, i: int)
    requires
        0 <= i <= a.len(),
        forall|k: int| 0 <= k < i ==> !(#[trigger] a[k]).is_ipv4,
        i == a.len() || a[i].is_ipv4,
    ensures
        first_ipv4(a) == (if i < a.len() {
            Some(i)
        } else {
            None::<int>
        }),
    decreases a.len(),
{
    if a.len() > 0 && i > 0 {
        let t = a.drop_first();
        assert forall|k: int| 0 <= k < i - 1 implies !(#[trigger] t[k]).is_ipv4 by {
            assert(t[k] == a[k + 1]);
        }
        lemma_first_ipv4(t, i - 1);
    }
}


/// The total of the confirmed outputs, in msat (wrapping at the range of `u64`).
pub open spec fn confirmed_total(outputs: Seq<(bool, u64)>) -> u64
    decreases outputs.len(),
{
    if outputs.len() == 0 {
        0
    } else {
        let t = confirmed_total(outputs.drop_last());
        if outputs.last().0 {
            t.wrapping_add(outputs.last().1)
        } else {
            t
        }
    }
}

/// Sums the amounts of the confirmed outputs; each output is whether it is confirmed and its
/// amount in msat.
pub fn utxo_amount(outputs: &Vec<(bool, u64)>) -> (r: u64)
    ensures
        r == confirmed_total(outputs@),
{
    let mut t: u64 = 0;
    let mut i: usize = 0;
    while i < outputs.len()
        invariant
            i <= outputs@.len(),
            t == confirmed_total(outputs@.take(i as int)),
        decreases outputs@.len() - i,
    {
        proof {
            assert(outputs@.take(i + 1).drop_last() =~= outputs@.take(i as int));
        }
        if outputs[i].0 {
            t = t.wrapping_add(outputs[i].1);
        }
        i = i + 1;
    }
    proof {
        assert(outputs@.take(outputs@.len() as int) =~= outputs@);
    }
    t
}

/// The text of the node summary above the tables.
pub open spec fn node_text(
    address: Seq<char>,
    num_utxos: usize,
    utxo_amount: Seq<char>,
    ns: NodeSummary,
    avail_out: Seq<char>,
    avail_in: Seq<char>,
    fees_collected: Seq<char>,
    tables: Seq<char>,
) -> Seq<char> {
    "address="@ + address + "\nnum_utxos="@ + decimal(num_utxos as nat) + "\nutxo_amount="@
        + utxo_amount + "\nnum_channels="@ + decimal(ns.channel_count as nat) + "\nnum_connected="@
        + decimal(ns.num_connected as nat) + "\nnum_gossipers="@ + decimal(ns.num_gossipers as nat)
        + "\navail_out="@ + avail_out + "\navail_in="@ + avail_in + "\nfees_collected="@
        + fees_collected + "\nchannels_flags=P:private O:offline\n"@ + tables
}

fn push_all(cs: &mut Vec<char>, s: &str)
    ensures
        final(cs)@ == old(cs)@ + s@,
{
    crate::strutil::append_chars(cs, &str_chars(s));
}

/// Writes the node summary above the tables (see `node_text`).
pub fn node_summary_text(
    address: &String,
    num_utxos: usize,
    utxo_amount: &String,
    ns: &NodeSummary,
    avail_out: &String,
    avail_in: &String,
    fees_collected: &String,
    tables: &String,
) -> (r: String)
    ensures
        r@ == node_text(
            address@,
            num_utxos,
            utxo_amount@,
            *ns,
            avail_out@,
            avail_in@,
            fees_collected@,
            tables@,
        ),
{
    let mut cs: Vec<char> = Vec::new();
    push_all(&mut cs, "address=");
    push_all(&mut cs, address.as_str());
    push_all(&mut cs, "\nnum_utxos=");
    push_all(&mut cs, u64_to_decimal(num_utxos as u64).as_str());
    push_all(&mut cs, "\nutxo_amount=");
    push_all(&mut cs, utxo_amount.as_str());
    push_all(&mut cs, "\nnum_channels=");
    push_all(&mut cs, u64_to_decimal(ns.channel_count as u64).as_str());
    push_all(&mut cs, "\nnum_connected=");
    push_all(&mut cs, u64_to_decimal(ns.num_connected as u64).as_str());
    push_all(&mut cs, "\nnum_gossipers=");
    push_all(&mut cs, u64_to_decimal(ns.num_gossipers as u64).as_str());
    push_all(&mut cs, "\navail_out=");
    push_all(&mut cs, avail_out.as_str());
    push_all(&mut cs, "\navail_in=");
    push_all(&mut cs, avail_in.as_str());
    push_all(&mut cs, "\nfees_collected=");
    push_all(&mut cs, fees_collected.as_str());
    push_all(&mut cs, "\nchannels_flags=P:private O:offline\n");
    push_all(&mut cs, tables.as_str());
    proof {
        assert(cs@ =~= node_text(
            address@,
            num_utxos,
            utxo_amount@,
            *ns,
            avail_out@,
            avail_in@,
            fees_collected@,
            tables@,
        ));
    }
    string_from_chars(cs.as_slice())
}

/// An amount in msat as bitcoin for the settings' locale, followed by ` BTC`.
pub fn btc_amount_text(config: &Config, msat: u64) -> (r: Result<String, crate::locale::FormatError>)
    ensures
        r matches Ok(s) ==> (localized_decimal_btc(config.locale@, msat) matches Some(b) && s@ == b
            + " BTC"@),
        r is Err ==> localized_decimal_btc(config.locale@, msat) is None,
{
    let b = crate::locale::u64_to_btc_string(config, msat)?;
    let mut cs = str_chars(b.as_str());
    push_all(&mut cs, " BTC");
    Ok(string_from_chars(cs.as_slice()))
}

/// An amount in msat as bitcoin for the locale (see `btc_digits`).
pub open spec fn localized_decimal_btc(locale: Seq<char>, msat: u64) -> Option<Seq<char>> {
    crate::locale::localized_decimal(locale, crate::locale::btc_digits(msat))
}

/// The tables after the channels table: each one that is on, after an empty line.
pub open spec fn tables_text(
    channels: Seq<char>,
    forwards: Option<String>,
    pays: Option<String>,
    invoices: Option<String>,
) -> Seq<char> {
    let part = |t: Option<String>|
        match t {
            Some(x) => "\n\n"@ + x@,
            None => Seq::<char>::empty(),
        };
    channels + part(forwards) + part(pays) + part(invoices)
}

fn push_part(cs: &mut Vec<char>, t: &Option<String>)
    ensures
        final(cs)@ == old(cs)@ + (match *t {
            Some(x) => "\n\n"@ + x@,
            None => Seq::<char>::empty(),
        }),
{
    match t {
        Some(x) => {
            push_all(cs, "\n\n");
            push_all(cs, x.as_str());
            proof {
                assert(final(cs)@ =~= old(cs)@ + ("\n\n"@ + x@));
            }
        },
        None => {
            proof {
                assert(old(cs)@ + Seq::<char>::empty() =~= old(cs)@);
            }
        },
    }
}

/// Joins the channels table with the flow tables that are on (see `tables_text`).
pub fn join_tables(
    channels: &String,
    forwards: &Option<String>,
    pays: &Option<String>,
    invoices: &Option<String>,
) -> (r: String)
    ensures
        r@ == tables_text(channels@, *forwards, *pays, *invoices),
{
    let mut cs = str_chars(channels.as_str());
    push_part(&mut cs, forwards);
    push_part(&mut cs, pays);
    push_part(&mut cs, invoices);
    string_from_chars(cs.as_slice())
}

/// How long to wait before the next alias refresh, in seconds: the configured hours where at
/// most 5% of the peers were missing from gossip, an hour up to 10%, ten minutes up to 25%,
/// else a minute (also where there are no peers).
pub open spec fn alias_refresh_delay(miss_count: usize, peer_count: usize, refresh_hours: u64) -> u64 {
    if peer_count == 0 {
        60
    } else if miss_count * 100 <= 5 * peer_count {
        refresh_hours.wrapping_mul(3600)
    } else if miss_count * 100 <= 10 * peer_count {
        3600
    } else if miss_count * 100 <= 25 * peer_count {
        600
    } else {
        60
    }
}

/// Decides when the aliases are refreshed next (see `alias_refresh_delay`).
pub fn next_alias_refresh(miss_count: usize, peer_count: usize, refresh_hours: u64) -> (r: u64)
    ensures
        r == alias_refresh_delay(miss_count, peer_count, refresh_hours),
{
    if peer_count == 0 {
        return 60;
    }
    let m: u128 = (miss_count as u128) * 100;
    let p: u128 = peer_count as u128;
    if m <= 5 * p {
        refresh_hours.wrapping_mul(3600)
    } else if m <= 10 * p {
        3600
    } else if m <= 25 * p {
        600
    } else {
        60
    }
}


/// Two numbers are in order: upwards, or downwards where `desc`.
pub open spec fn in_order(a: int, b: int, desc: bool) -> bool {
    if desc {
        a >= b
    } else {
        a <= b
    }
}

/// Row `a` may come before row `b` in the channels table sorted by `col` (downwards where
/// `desc`), read from the rows' fields: the numbers of the numeric columns in order, the
/// fee texts by the number they read as (unreadable ones last), and the texts by their
/// characters' codes (the alias without spaces, `@` and non-ASCII characters, lowercased).
pub open spec fn rows_in_order(a: Summary, b: Summary, col: SummaryColumns, desc: bool) -> bool {
    match col {
        SummaryColumns::OUT_SATS => in_order(a.out_sats as int, b.out_sats as int, desc),
        SummaryColumns::IN_SATS => in_order(a.in_sats as int, b.in_sats as int, desc),
        SummaryColumns::TOTAL_SATS => in_order(a.total_sats as int, b.total_sats as int, desc),
        SummaryColumns::MIN_HTLC => in_order(a.min_htlc as int, b.min_htlc as int, desc),
        SummaryColumns::MAX_HTLC => in_order(a.max_htlc as int, b.max_htlc as int, desc),
        SummaryColumns::BASE => in_order(a.base as int, b.base as int, desc),
        SummaryColumns::PPM => in_order(a.ppm as int, b.ppm as int, desc),
        SummaryColumns::HTLCS => in_order(a.htlcs as int, b.htlcs as int, desc),
        SummaryColumns::PING => in_order(a.ping as int, b.ping as int, desc),
        SummaryColumns::SCID | SummaryColumns::GRAPH_SATS => in_order(a.scid_raw as int, b.scid_raw as int, desc),
        SummaryColumns::IN_BASE => in_order(
            fee_sort_value(a.in_base@) as int,
            fee_sort_value(b.in_base@) as int,
            desc,
        ),
        SummaryColumns::IN_PPM => in_order(
            fee_sort_value(a.in_ppm@) as int,
            fee_sort_value(b.in_ppm@) as int,
            desc,
        ),
        SummaryColumns::UPTIME => in_order(a.uptime_order as int, b.uptime_order as int, desc),
        SummaryColumns::PERC_US => in_order(a.perc_us_order as int, b.perc_us_order as int, desc),
        SummaryColumns::FLAG => crate::order::may_follow(codes(a.flag@), codes(b.flag@), desc),
        SummaryColumns::PEER_ID => crate::order::may_follow(codes(a.peer_id@), codes(b.peer_id@), desc),
        SummaryColumns::STATE => crate::order::may_follow(codes(a.state@), codes(b.state@), desc),
        SummaryColumns::ALIAS => crate::order::may_follow(
            codes(alias_sort_text(a.alias@)),
            codes(alias_sort_text(b.alias@)),
            desc,
        ),
    }
}

proof fn lemma_lex_lt_single(a: u64, b: u64)
    ensures
        crate::order::lex_lt(seq![a], seq![b]) == (a < b),
{
    reveal_with_fuel(crate::order::lex_lt, 2);
    assert(seq![a].drop_first() =~= Seq::<u64>::empty());
    assert(seq![b].drop_first() =~= Seq::<u64>::empty());
}

/// The channels table sorted by a column has its rows in that column's order, read from the
/// rows' fields: each row may come before every later one (see `rows_in_order`).
pub proof fn lemma_sort_summary_fields(table: Seq<Summary>, col: SummaryColumns, desc: bool)
    ensures
        forall|i: int, j: int|
            0 <= i < j < unkeyed(sort_lex(keyed_summaries(table, col), desc)).len() ==> rows_in_order(
                #[trigger] unkeyed(sort_lex(keyed_summaries(table, col), desc))[i],
                #[trigger] unkeyed(sort_lex(keyed_summaries(table, col), desc))[j],
                col,
                desc,
            ),
{
    lemma_sort_summary(table, col, desc);
    let out = unkeyed(sort_lex(keyed_summaries(table, col), desc));
    assert forall|i: int, j: int| 0 <= i < j < out.len() implies rows_in_order(
        #[trigger] out[i],
        #[trigger] out[j],
        col,
        desc,
    ) by {
        let ka = summary_sort_key(out[i], col);
        let kb = summary_sort_key(out[j], col);
        assert(crate::order::may_follow(ka, kb, desc));
        if ka.len() == 1 && kb.len() == 1 {
            lemma_lex_lt_single(ka[0], kb[0]);
            lemma_lex_lt_single(kb[0], ka[0]);
            assert(ka =~= seq![ka[0]]);
            assert(kb =~= seq![kb[0]]);
        }
    }
}

/// The channels table comes out ordered by the sort column (downwards where reversed), with
/// as many rows as it had, each of them one of its rows.
pub proof fn lemma_sort_summary(table: Seq<Summary>, col: SummaryColumns, desc: bool)
    ensures
        unkeyed(sort_lex(keyed_summaries(table, col), desc)).len() == table.len(),
        forall|i: int, j: int|
            0 <= i < j < table.len() ==> crate::order::may_follow(
                summary_sort_key(#[trigger] unkeyed(sort_lex(keyed_summaries(table, col), desc))[i], col),
                summary_sort_key(#[trigger] unkeyed(sort_lex(keyed_summaries(table, col), desc))[j], col),
                desc,
            ),
        forall|i: int|
            0 <= i < table.len() ==> table.contains(#[trigger] unkeyed(sort_lex(keyed_summaries(table, col), desc))[i]),
{
    broadcast use vstd::seq_lib::group_to_multiset_ensures;
    let k = keyed_summaries(table, col);
    crate::order::lemma_sort_lex(k, desc);
    let s = sort_lex(k, desc);
    assert forall|i: int| 0 <= i < s.len() implies (#[trigger] s[i]).0 == summary_sort_key(s[i].1, col)
        && table.contains(s[i].1) by {
        assert(s.to_multiset().count(s[i]) > 0);
        assert(k.to_multiset().count(s[i]) > 0);
        assert(k.contains(s[i]));
        let q = choose|q: int| 0 <= q < k.len() && k[q] == s[i];
        assert(table[q] == s[i].1);
    }
    let out = unkeyed(s);
    assert forall|i: int, j: int| 0 <= i < j < table.len() implies crate::order::may_follow(
        summary_sort_key(#[trigger] out[i], col),
        summary_sort_key(#[trigger] out[j], col),
        desc,
    ) by {
        assert(crate::order::may_follow(s[i].0, s[j].0, desc));
    }
}


/// Everything the summary is made from.
#[derive(Debug)]
pub struct FullNodeData {
    pub node_summary: NodeSummary,
    pub channels: Vec<Summary>,
    pub closed_channels: Vec<ClosedChannels>,
    pub forwards: Vec<crate::flows::Forwards>,
    pub forwards_filter_stats: crate::flows::ForwardsFilterStats,
    pub pays: Vec<crate::flows::Pays>,
    pub invoices: Vec<crate::flows::Invoices>,
    pub invoices_filter_stats: crate::flows::InvoicesFilterStats,
    pub totals: crate::flows::Totals,
    pub graph_max_chan_side_msat: u64,
    pub cln_version: String,
    pub my_pubkey: String,
}

impl FullNodeData {
    /// Nothing gathered yet.
    pub fn new(my_pubkey: String, cln_version: String, graph_max_chan_side_msat: u64) -> (r: FullNodeData)
        ensures
            r.my_pubkey == my_pubkey,
            r.cln_version == cln_version,
            r.graph_max_chan_side_msat == graph_max_chan_side_msat,
            r.node_summary == (NodeSummary {
                channel_count: 0,
                num_connected: 0,
                num_gossipers: 0,
                avail_in: 0,
                avail_out: 0,
                filter_count: 0,
            }),
            r.channels@.len() == 0 && r.closed_channels@.len() == 0 && r.forwards@.len() == 0
                && r.pays@.len() == 0 && r.invoices@.len() == 0,
            r.forwards_filter_stats == (crate::flows::ForwardsFilterStats {
                amt_sum_msat: 0,
                fee_sum_msat: 0,
                count: 0,
            }),
            r.invoices_filter_stats == (crate::flows::InvoicesFilterStats {
                filter_amt_sum_msat: 0,
                filter_count: 0,
            }),
            r.totals.forwards == (crate::flows::ForwardsTotals {
                count: 0,
                amount_in_msat: None,
                amount_out_msat: None,
                fees_msat: None,
            }),
            r.totals.invoices == (crate::flows::InvoicesTotals { count: 0, amount_received_msat: None }),
            r.totals.pays == (crate::flows::PaysTotals {
                count: 0,
                amount_msat: None,
                amount_sent_msat: None,
                fees_msat: None,
                self_count: 0,
                self_amount_msat: None,
                self_amount_sent_msat: None,
                self_fees_msat: None,
            }),
    {
        FullNodeData {
            node_summary: NodeSummary::default(),
            channels: Vec::new(),
            closed_channels: Vec::new(),
            forwards: Vec::new(),
            forwards_filter_stats: crate::flows::ForwardsFilterStats::default(),
            pays: Vec::new(),
            invoices: Vec::new(),
            invoices_filter_stats: crate::flows::InvoicesFilterStats::default(),
            totals: crate::flows::Totals::default(),
            graph_max_chan_side_msat,
            cln_version,
            my_pubkey,
        }
    }
}

/// Pings are taken where the node runs version 25.09 or later and the ping column is shown
/// or sorted by.
pub open spec fn pings_wanted_spec(config: Config, version: Seq<char>) -> Result<bool, crate::util::VersionError> {
    match crate::util::version_at_or_above(version, "25.09"@) {
        Err(e) => Err(e),
        Ok(false) => Ok(false),
        Ok(true) => Ok(config.columns@.contains(SummaryColumns::PING) || config.sort_by == SummaryColumns::PING),
    }
}

/// Whether the peers are to be pinged (see `pings_wanted_spec`).
pub fn pings_wanted(config: &Config, version: &str) -> (r: Result<bool, crate::util::VersionError>)
    ensures
        r == pings_wanted_spec(*config, version@),
{
    let at = crate::util::at_or_above_version(version, "25.09")?;
    if !at {
        return Ok(false);
    }
    Ok(contains_column(&config.columns, SummaryColumns::PING) || config.sort_by == SummaryColumns::PING)
}

/// How many pings run at once: a tenth of the peers, at least five.
pub fn ping_concurrency(peers: usize) -> (r: usize)
    ensures
        r == (if peers / 10 > 5 { peers / 10 } else { 5 }),
{
    if peers / 10 > 5 {
        peers / 10
    } else {
        5
    }
}

/// The milliseconds a ping is shown with: its time where it was answered in time, else one
/// more than the timeout.
pub fn ping_ms(answered: bool, elapsed_ms: u64) -> (r: u64)
    ensures
        r == (if answered { elapsed_ms } else { 5001 }),
{
    if answered {
        elapsed_ms
    } else {
        5001
    }
}

/// Row `i` of peer `peer` is among the rows of that peer's group.
pub open spec fn grouped_at(groups: Seq<(String, Vec<usize>)>, peer: Seq<char>, i: int) -> bool {
    exists|g: int| 0 <= g < groups.len() && groups[g].0@ == peer && groups[g].1@.contains(i as usize)
}

/// Groups the rows by peer: each peer once, with the indexes of its rows.
pub fn peers_to_ping(rows: &Vec<Summary>) -> (r: Vec<(String, Vec<usize>)>)
    ensures
        forall|g: int, h: int| 0 <= g < h < r@.len() ==> (#[trigger] r@[g]).0@ != (#[trigger] r@[h]).0@,
        forall|g: int, x: int|
            0 <= g < r@.len() && 0 <= x < r@[g].1@.len() ==> #[trigger] r@[g].1@[x] < rows@.len()
                && rows@[r@[g].1@[x] as int].peer_id@ == r@[g].0@,
        forall|i: int| 0 <= i < rows@.len() ==> grouped_at(r@, (#[trigger] rows@[i]).peer_id@, i),
{
    let mut groups: Vec<(String, Vec<usize>)> = Vec::new();
    let mut i: usize = 0;
    while i < rows.len()
        invariant
            i <= rows@.len(),
            forall|g: int, h: int| 0 <= g < h < groups@.len() ==> (#[trigger] groups@[g]).0@ != (#[trigger] groups@[h]).0@,
            forall|g: int, x: int|
                0 <= g < groups@.len() && 0 <= x < groups@[g].1@.len() ==> #[trigger] groups@[g].1@[x] < i
                    && rows@[groups@[g].1@[x] as int].peer_id@ == groups@[g].0@,
            forall|q: int| 0 <= q < i ==> grouped_at(groups@, (#[trigger] rows@[q]).peer_id@, q),
        decreases rows@.len() - i,
    {
        let p = str_chars(rows[i].peer_id.as_str());
        let mut g: usize = 0;
        while g < groups.len() && !crate::strutil::chars_eq(&str_chars(groups[g].0.as_str()), &p)
            invariant
                g <= groups@.len(),
                p@ == rows@[i as int].peer_id@,
                forall|h: int| 0 <= h < g ==> (#[trigger] groups@[h]).0@ != p@,
            decreases groups@.len() - g,
        {
            g = g + 1;
        }
        let ghost old_groups = groups@;
        if g < groups.len() {
            let (name, mut ids) = groups.remove(g);
            ids.push(i);
            groups.insert(g, (name, ids));
            proof {
                assert forall|a: int, b: int| 0 <= a < b < groups@.len() implies (#[trigger] groups@[a]).0@ != (#[trigger] groups@[b]).0@ by {
                    assert(groups@[a].0 == old_groups[a].0);
                    assert(groups@[b].0 == old_groups[b].0);
                }
                assert forall|a: int, x: int|
                    0 <= a < groups@.len() && 0 <= x < groups@[a].1@.len() implies #[trigger] groups@[a].1@[x] < i + 1
                        && rows@[groups@[a].1@[x] as int].peer_id@ == groups@[a].0@ by {
                    if a != g {
                        assert(groups@[a] == old_groups[a]);
                    } else if x < old_groups[a].1@.len() {
                        assert(groups@[a].1@[x] == old_groups[a].1@[x]);
                    }
                }
                assert forall|q: int| 0 <= q < i + 1 implies grouped_at(groups@, (#[trigger] rows@[q]).peer_id@, q) by {
                    if q == i {
                        assert(groups@[g as int].1@[groups@[g as int].1@.len() - 1] == i);
                    } else {
                        let a = choose|a: int| 0 <= a < old_groups.len() && old_groups[a].0@ == rows@[q].peer_id@
                            && old_groups[a].1@.contains(q as usize);
                        let x = choose|x: int| 0 <= x < old_groups[a].1@.len() && old_groups[a].1@[x] == q as usize;
                        if a == g {
                            assert(groups@[a].1@[x] == q as usize);
                        } else {
                            assert(groups@[a] == old_groups[a]);
                        }
                    }
                }
            }
        } else {
            let mut ids: Vec<usize> = Vec::new();
            ids.push(i);
            groups.push((rows[i].peer_id.clone(), ids));
            proof {
                assert forall|a: int, b: int| 0 <= a < b < groups@.len() implies (#[trigger] groups@[a]).0@ != (#[trigger] groups@[b]).0@ by {
                    if b == old_groups.len() {
                        assert(old_groups[a].0@ != p@);
                    } else {
                        assert(groups@[a] == old_groups[a]);
                        assert(groups@[b] == old_groups[b]);
                    }
                }
                assert forall|a: int, x: int|
                    0 <= a < groups@.len() && 0 <= x < groups@[a].1@.len() implies #[trigger] groups@[a].1@[x] < i + 1
                        && rows@[groups@[a].1@[x] as int].peer_id@ == groups@[a].0@ by {
                    if a < old_groups.len() {
                        assert(groups@[a] == old_groups[a]);
                    }
                }
                assert forall|q: int| 0 <= q < i + 1 implies grouped_at(groups@, (#[trigger] rows@[q]).peer_id@, q) by {
                    if q == i {
                        assert(groups@[old_groups.len() as int].1@[0] == i);
                    } else {
                        let a = choose|a: int| 0 <= a < old_groups.len() && old_groups[a].0@ == rows@[q].peer_id@
                            && old_groups[a].1@.contains(q as usize);
                        assert(groups@[a] == old_groups[a]);
                    }
                }
            }
        }
        i = i + 1;
    }
    groups
}

/// The alias found for a node: its announced alias, the mark for one without alias where
/// gossip knows the node, else the mark for one gossip has not told about.
pub fn alias_of_node(node_known: bool, alias: Option<String>) -> (r: String)
    ensures
        node_known && alias is Some ==> r@ == alias->0@,
        node_known && alias is None ==> r@ == crate::flows::no_alias_set(),
        !node_known ==> r@ == node_gossip_miss(),
{
    if !node_known {
        string_from_chars(str_chars("NODE_GOSSIP_MISS").as_slice())
    } else {
        match alias {
            Some(a) => a,
            None => string_from_chars(str_chars("NO_ALIAS_SET").as_slice()),
        }
    }
}

/// The peer of the last of the channels that have the short channel id, which is what a map
/// filled channel by channel holds for it; `None` where no channel has it.
pub open spec fn last_peer_of(chans: Seq<ChannelInfo>, scid: u64) -> Option<Seq<char>>
    decreases chans.len(),
{
    if chans.len() == 0 {
        None
    } else if chans.last().short_channel_id == Some(scid) {
        Some(chans.last().peer_id@)
    } else {
        last_peer_of(chans.drop_last(), scid)
    }
}

/// The position of the key among the pairs, if it is there.
fn find_key(pairs: &Vec<(u64, String)>, key: u64) -> (r: Option<usize>)
    ensures
        r matches Some(j) ==> j < pairs@.len() && pairs@[j as int].0 == key,
        r is None ==> forall|k: int| 0 <= k < pairs@.len() ==> (#[trigger] pairs@[k]).0 != key,
{
    let mut j: usize = 0;
    while j < pairs.len()
        invariant
            j <= pairs@.len(),
            forall|k: int| 0 <= k < j ==> (#[trigger] pairs@[k]).0 != key,
        decreases pairs@.len() - j,
    {
        if pairs[j].0 == key {
            return Some(j);
        }
        j = j + 1;
    }
    None
}

/// The channels' short channel ids with their peers, as a map filled channel by channel: each
/// id once, with the peer of the last channel that has it, in the order the ids first occur.
pub fn chan_peers(chans: &Vec<ChannelInfo>) -> (r: Vec<(u64, String)>)
    ensures
        keys_unique(r@),
        forall|k: int| 0 <= k < r@.len() ==> last_peer_of(chans@, (#[trigger] r@[k]).0) == Some(r@[k].1@),
        forall|s: u64|
            #[trigger] last_peer_of(chans@, s) is Some ==> exists|k: int| 0 <= k < r@.len() && r@[k].0 == s,
{
    let mut out: Vec<(u64, String)> = Vec::new();
    let mut i: usize = 0;
    while i < chans.len()
        invariant
            i <= chans@.len(),
            keys_unique(out@),
            forall|k: int|
                0 <= k < out@.len() ==> last_peer_of(chans@.take(i as int), (#[trigger] out@[k]).0) == Some(
                    out@[k].1@,
                ),
            forall|s: u64|
                #[trigger] last_peer_of(chans@.take(i as int), s) is Some ==> exists|k: int|
                    0 <= k < out@.len() && out@[k].0 == s,
        decreases chans@.len() - i,
    {
        let ghost before = out@;
        let ghost c = chans@.take(i as int);
        let ghost c1 = chans@.take(i + 1);
        proof {
            assert(c1.drop_last() =~= c);
            assert(c1.last() == chans@[i as int]);
        }
        if let Some(s) = chans[i].short_channel_id {
            let p = chans[i].peer_id.clone();
            match find_key(&out, s) {
                Some(j) => {
                    out.set(j, (s, p));
                    proof {
                        assert forall|k: int| 0 <= k < out@.len() implies last_peer_of(c1, (#[trigger] out@[k]).0)
                            == Some(out@[k].1@) by {
                            if k != j {
                                assert(out@[k] == before[k]);
                            }
                        }
                        assert forall|t: u64| #[trigger] last_peer_of(c1, t) is Some implies exists|k: int|
                            0 <= k < out@.len() && out@[k].0 == t by {
                            if t != s {
                                assert(last_peer_of(c1, t) == last_peer_of(c, t));
                                assert(last_peer_of(c, t) is Some);
                                let k = choose|k: int| 0 <= k < before.len() && before[k].0 == t;
                                assert(out@[k].0 == t);
                            } else {
                                assert(out@[j as int].0 == t);
                            }
                        }
                    }
                },
                None => {
                    out.push((s, p));
                    proof {
                        assert forall|k: int| 0 <= k < out@.len() implies last_peer_of(c1, (#[trigger] out@[k]).0)
                            == Some(out@[k].1@) by {
                            if k < before.len() {
                                assert(out@[k] == before[k]);
                            }
                        }
                        assert forall|t: u64| #[trigger] last_peer_of(c1, t) is Some implies exists|k: int|
                            0 <= k < out@.len() && out@[k].0 == t by {
                            if t != s {
                                assert(last_peer_of(c1, t) == last_peer_of(c, t));
                                assert(last_peer_of(c, t) is Some);
                                let k = choose|k: int| 0 <= k < before.len() && before[k].0 == t;
                                assert(out@[k].0 == t);
                            } else {
                                assert(out@[before.len() as int].0 == t);
                            }
                        }
                    }
                },
            }
        } else {
            proof {
                assert forall|t: u64| #[trigger] last_peer_of(c1, t) == last_peer_of(c, t) by {}
            }
        }
        i = i + 1;
    }
    proof {
        assert(chans@.take(chans@.len() as int) =~= chans@);
    }
    out
}

/// Rows of the channels table whose sort keys are equal keep the order they came in.
pub proof fn lemma_sort_summary_keeps_ties(table: Seq<Summary>, col: SummaryColumns, desc: bool, k: Seq<u64>)
    ensures
        sort_lex(keyed_summaries(table, col), desc).filter(crate::order::lex_key_is::<Summary>(k))
            == keyed_summaries(table, col).filter(crate::order::lex_key_is::<Summary>(k)),
{
    crate::order::lemma_sort_lex_keeps_ties(keyed_summaries(table, col), desc, k);
}

/// What looking up a node that is not in the alias cache gives: the alias found (see
/// `alias_of_node`), and whether it goes into the cache, which it does only where gossip
/// knows the node.
pub fn alias_from_lookup(node_known: bool, alias: Option<String>) -> (r: (String, bool))
    ensures
        r.1 == node_known,
        node_known && alias is Some ==> r.0@ == alias->0@,
        node_known && alias is None ==> r.0@ == crate::flows::no_alias_set(),
        !node_known ==> r.0@ == node_gossip_miss(),
{
    (alias_of_node(node_known, alias), node_known)
}

/// What one channel adds to the node summary, read on its fields: a channel the settings
/// leave out only counts as filtered; a kept one in normal operation (or awaiting a splice)
/// adds what we can send beyond our reserve to the outgoing liquidity and what the peer can
/// send beyond theirs to the incoming one; a kept active one counts as a channel, and as a
/// connected one where its peer is connected. The gossiper count never changes.
pub proof fn lemma_node_step_fields(ns: NodeSummary, config: Config, c: ChannelInfo)
    requires
        c.to_us_msat is Some,
        c.total_msat is Some,
        c.our_reserve_msat is Some,
        c.their_reserve_msat is Some,
        c.to_us_msat->0 <= c.total_msat->0,
    ensures
        ({
            let n = node_step(ns, config, c);
            let to_us = c.to_us_msat->0;
            let theirs = c.total_msat->0 - to_us;
            let normal = c.state == ChannelState::CHANNELD_NORMAL || c.state == ChannelState::CHANNELD_AWAITING_SPLICE;
            &&& n.num_gossipers == ns.num_gossipers
            &&& chan_filtered(config, c) ==> n == (NodeSummary { filter_count: ns.filter_count.wrapping_add(1), ..ns })
            &&& !chan_filtered(config, c) ==> {
                &&& n.filter_count == ns.filter_count
                &&& n.avail_out == (if normal && c.our_reserve_msat->0 < to_us {
                    ns.avail_out.wrapping_add((to_us - c.our_reserve_msat->0) as u64)
                } else {
                    ns.avail_out
                })
                &&& n.avail_in == (if normal && c.their_reserve_msat->0 < theirs {
                    ns.avail_in.wrapping_add((theirs - c.their_reserve_msat->0) as u64)
                } else {
                    ns.avail_in
                })
                &&& n.channel_count == (if active_state(c.state) {
                    ns.channel_count.wrapping_add(1)
                } else {
                    ns.channel_count
                })
                &&& n.num_connected == (if active_state(c.state) && c.peer_connected {
                    ns.num_connected.wrapping_add(1)
                } else {
                    ns.num_connected
                })
            }
        }),
{
}

} // verus!
