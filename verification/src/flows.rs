use vstd::prelude::*;

use crate::config::Config;
use crate::locale::{datetime_fails, datetime_ok, timestamp_to_localized_datetime_string, FormatError};
use crate::order::{among_newest, count_above, into_values, keep_last, sort_by_key, stable_sort, take_last, values_of};
use crate::strutil::{str_chars, string_from_chars};
use crate::util::{
    decimal, fee_ppm, feeppm_effective_from_amts, rounded_div, rounded_div_u64, u64_to_decimal,
};

verus! {

/// The alias recorded for a node that announced none.
pub open spec fn no_alias_set() -> Seq<char> {
    "NO_ALIAS_SET"@
}

/// The alias shown for a node that gossip has not told about.
pub open spec fn node_gossip_miss() -> Seq<char> {
    "NODE_GOSSIP_MISS"@
}

/// A short channel id as text: block, transaction index and output, separated by `x`.
pub open spec fn scid_text(scid: u64) -> Seq<char> {
    decimal(((scid / 0x100_0000_0000) % 0x100_0000) as nat) + seq!['x'] + decimal(
        ((scid / 0x1_0000) % 0x100_0000) as nat,
    ) + seq!['x'] + decimal((scid % 0x1_0000) as nat)
}

/// Writes a short channel id as text.
pub fn scid_to_string(scid: u64) -> (r: String)
    ensures
        r@ == scid_text(scid),
{
    let a = u64_to_decimal((scid / 0x100_0000_0000) % 0x100_0000);
    let b = u64_to_decimal((scid / 0x1_0000) % 0x100_0000);
    let c = u64_to_decimal(scid % 0x1_0000);
    let mut cs = str_chars(a.as_str());
    cs.push('x');
    let bs = str_chars(b.as_str());
    crate::strutil::append_chars(&mut cs, &bs);
    cs.push('x');
    let ccs = str_chars(c.as_str());
    crate::strutil::append_chars(&mut cs, &ccs);
    proof {
        assert(cs@ =~= scid_text(scid));
    }
    string_from_chars(cs.as_slice())
}

/// The value stored under the first key equal to `k`.
pub open spec fn lookup(m: Seq<(String, String)>, k: Seq<char>) -> Option<Seq<char>>
    decreases m.len(),
{
    if m.len() == 0 {
        None
    } else if m[0].0@ == k {
        Some(m[0].1@)
    } else {
        lookup(m.drop_first(), k)
    }
}

/// The peer of the first channel with the short channel id `scid`.
pub open spec fn peer_of(chans: Seq<(u64, String)>, scid: u64) -> Option<Seq<char>>
    decreases chans.len(),
{
    if chans.len() == 0 {
        None
    } else if chans[0].0 == scid {
        Some(chans[0].1@)
    } else {
        peer_of(chans.drop_first(), scid)
    }
}

/// The name shown for a channel of a forward: its peer's alias where the channel is one of
/// ours and the peer's alias is known and set, else the short channel id.
pub open spec fn channel_alias(
    scid: u64,
    chans: Seq<(u64, String)>,
    aliases: Seq<(String, String)>,
) -> Seq<char> {
    match peer_of(chans, scid) {
        Some(p) => match lookup(aliases, p) {
            Some(a) => if a != no_alias_set() {
                a
            } else {
                scid_text(scid)
            },
            None => scid_text(scid),
        },
        None => scid_text(scid),
    }
}

/// Looks up the value stored under `k`.
pub fn lookup_value(m: &Vec<(String, String)>, k: &Vec<char>) -> (r: Option<String>)
    ensures
        r is None ==> lookup(m@, k@) is None,
        r matches Some(v) ==> lookup(m@, k@) == Some(v@),
{
    let mut i: usize = 0;
    proof {
        assert(m@.subrange(0, m@.len() as int) =~= m@);
    }
    while i < m.len()
        invariant
            i <= m@.len(),
            lookup(m@, k@) == lookup(m@.subrange(i as int, m@.len() as int), k@),
        decreases m@.len() - i,
    {
        proof {
            assert(m@.subrange(i as int, m@.len() as int).drop_first() =~= m@.subrange(
                i + 1,
                m@.len() as int,
            ));
        }
        let key = str_chars(m[i].0.as_str());
        if crate::strutil::chars_eq(&key, k) {
            return Some(m[i].1.clone());
        }
        i = i + 1;
    }
    None
}

fn peer_of_scid(chans: &Vec<(u64, String)>, scid: u64) -> (r: Option<Vec<char>>)
    ensures
        r is None ==> peer_of(chans@, scid) is None,
        r matches Some(v) ==> peer_of(chans@, scid) == Some(v@),
{
    let mut i: usize = 0;
    proof {
        assert(chans@.subrange(0, chans@.len() as int) =~= chans@);
    }
    while i < chans.len()
        invariant
            i <= chans@.len(),
            peer_of(chans@, scid) == peer_of(chans@.subrange(i as int, chans@.len() as int), scid),
        decreases chans@.len() - i,
    {
        proof {
            assert(chans@.subrange(i as int, chans@.len() as int).drop_first() =~= chans@.subrange(
                i + 1,
                chans@.len() as int,
            ));
        }
        if chans[i].0 == scid {
            return Some(str_chars(chans[i].1.as_str()));
        }
        i = i + 1;
    }
    None
}

/// The name shown for a channel of a forward (see `channel_alias`).
pub fn get_alias_from_scid(
    scid: u64,
    chans: &Vec<(u64, String)>,
    aliases: &Vec<(String, String)>,
) -> (r: String)
    ensures
        r@ == channel_alias(scid, chans@, aliases@),
{
    match peer_of_scid(chans, scid) {
        Some(p) => match lookup_value(aliases, &p) {
            Some(a) => {
                let no_alias = "NO_ALIAS_SET";
                let ac = str_chars(a.as_str());
                let nc = str_chars(no_alias);
                if crate::strutil::chars_eq(&ac, &nc) {
                    scid_to_string(scid)
                } else {
                    a
                }
            },
            None => scid_to_string(scid),
        },
        None => scid_to_string(scid),
    }
}

/// `s` with every character outside ASCII replaced by `?`.
pub open spec fn ascii_only(s: Seq<char>) -> Seq<char> {
    s.map_values(|c: char| if (c as u32) < 128 { c } else { '?' })
}

/// Replaces every character outside ASCII by `?`.
pub fn replace_non_ascii(s: &str) -> (r: String)
    ensures
        r@ == ascii_only(s@),
{
    let cs = str_chars(s);
    let mut out: Vec<char> = Vec::new();
    let mut i: usize = 0;
    while i < cs.len()
        invariant
            i <= cs@.len(),
            out@ == ascii_only(cs@.take(i as int)),
        decreases cs@.len() - i,
    {
        let c = cs[i];
        out.push(if (c as u32) < 128 { c } else { '?' });
        proof {
            assert(out@ =~= ascii_only(cs@.take(i + 1)));
        }
        i = i + 1;
    }
    proof {
        assert(cs@.take(cs@.len() as int) =~= cs@);
    }
    string_from_chars(out.as_slice())
}

/// An alias as shown: as it is with UTF-8 on, else with non-ASCII characters replaced.
pub open spec fn shown_alias(a: Seq<char>, utf8: bool) -> Seq<char> {
    if utf8 {
        a
    } else {
        ascii_only(a)
    }
}

fn show_alias(a: String, utf8: bool) -> (r: String)
    ensures
        r@ == shown_alias(a@, utf8),
{
    if utf8 {
        a
    } else {
        replace_non_ascii(a.as_str())
    }
}

/// A sum that may not have started yet: the first amount starts it, later ones are added
/// (wrapping at the range of `u64`).
pub open spec fn accumulated(total: Option<u64>, amt: u64) -> Option<u64> {
    match total {
        Some(t) => Some(t.wrapping_add(amt)),
        None => Some(amt),
    }
}

/// Adds an amount to a sum that may not have started yet.
pub fn accumulate_msat(total: &mut Option<u64>, amt: u64)
    ensures
        *final(total) == accumulated(*old(total), amt),
{
    match total {
        Some(t) => {
            *t = t.wrapping_add(amt);
        },
        None => {
            *total = Some(amt);
        },
    }
}

/// Totals of the forwards within the time window.
#[derive(Debug, Clone, Copy, PartialEq, Eq, Structural)]
pub struct ForwardsTotals {
    pub count: u64,
    pub amount_in_msat: Option<u64>,
    pub amount_out_msat: Option<u64>,
    pub fees_msat: Option<u64>,
}

/// Totals of the payments within the time window, payments to ourselves apart.
#[derive(Debug, Clone, Copy, PartialEq, Eq, Structural)]
pub struct PaysTotals {
    pub count: u64,
    pub amount_msat: Option<u64>,
    pub amount_sent_msat: Option<u64>,
    pub fees_msat: Option<u64>,
    pub self_count: u64,
    pub self_amount_msat: Option<u64>,
    pub self_amount_sent_msat: Option<u64>,
    pub self_fees_msat: Option<u64>,
}

/// Totals of the paid invoices within the time window.
#[derive(Debug, Clone, Copy, PartialEq, Eq, Structural)]
pub struct InvoicesTotals {
    pub count: u64,
    pub amount_received_msat: Option<u64>,
}

/// Totals of the flow tables.
#[derive(Debug, Clone, Copy, PartialEq, Eq, Structural)]
pub struct Totals {
    pub pays: PaysTotals,
    pub invoices: InvoicesTotals,
    pub forwards: ForwardsTotals,
}

/// What the forwards filters left out of the table.
#[derive(Debug, Clone, Copy, PartialEq, Eq, Structural)]
pub struct ForwardsFilterStats {
    pub amt_sum_msat: u64,
    pub fee_sum_msat: u64,
    pub count: u64,
}

/// What the invoices filter left out of the table.
#[derive(Debug, Clone, Copy, PartialEq, Eq, Structural)]
pub struct InvoicesFilterStats {
    pub filter_amt_sum_msat: u64,
    pub filter_count: u64,
}

impl Default for ForwardsTotals {
    fn default() -> (r: ForwardsTotals)
        ensures
            r == (ForwardsTotals { count: 0, amount_in_msat: None, amount_out_msat: None, fees_msat: None }),
    {
        ForwardsTotals { count: 0, amount_in_msat: None, amount_out_msat: None, fees_msat: None }
    }
}

impl Default for PaysTotals {
    fn default() -> (r: PaysTotals)
        ensures
            r == (PaysTotals {
                count: 0,
                amount_msat: None,
                amount_sent_msat: None,
                fees_msat: None,
                self_count: 0,
                self_amount_msat: None,
                self_amount_sent_msat: None,
                self_fees_msat: None,
            }),
    {
        PaysTotals {
            count: 0,
            amount_msat: None,
            amount_sent_msat: None,
            fees_msat: None,
            self_count: 0,
            self_amount_msat: None,
            self_amount_sent_msat: None,
            self_fees_msat: None,
        }
    }
}

impl Default for InvoicesTotals {
    fn default() -> (r: InvoicesTotals)
        ensures
            r == (InvoicesTotals { count: 0, amount_received_msat: None }),
    {
        InvoicesTotals { count: 0, amount_received_msat: None }
    }
}

impl Default for Totals {
    fn default() -> (r: Totals)
        ensures
            r.forwards == (ForwardsTotals { count: 0, amount_in_msat: None, amount_out_msat: None, fees_msat: None }),
            r.invoices == (InvoicesTotals { count: 0, amount_received_msat: None }),
            r.pays.count == 0 && r.pays.self_count == 0,
            r.pays.amount_msat is None && r.pays.amount_sent_msat is None && r.pays.fees_msat is None,
            r.pays.self_amount_msat is None && r.pays.self_amount_sent_msat is None
                && r.pays.self_fees_msat is None,
    {
        Totals {
            pays: PaysTotals::default(),
            invoices: InvoicesTotals::default(),
            forwards: ForwardsTotals::default(),
        }
    }
}

impl Default for ForwardsFilterStats {
    fn default() -> (r: ForwardsFilterStats)
        ensures
            r == (ForwardsFilterStats { amt_sum_msat: 0, fee_sum_msat: 0, count: 0 }),
    {
        ForwardsFilterStats { amt_sum_msat: 0, fee_sum_msat: 0, count: 0 }
    }
}

impl Default for InvoicesFilterStats {
    fn default() -> (r: InvoicesFilterStats)
        ensures
            r == (InvoicesFilterStats { filter_amt_sum_msat: 0, filter_count: 0 }),
    {
        InvoicesFilterStats { filter_amt_sum_msat: 0, filter_count: 0 }
    }
}


/// A settled forward as `listforwards` reports it, with times in whole seconds.
#[derive(Debug, Clone)]
pub struct ForwardEntry {
    pub updated_index: Option<u64>,
    pub received_time: u64,
    pub resolved_time: Option<u64>,
    pub in_channel: u64,
    pub out_channel: u64,
    pub in_msat: u64,
    pub out_msat: u64,
    pub fee_msat: u64,
}

/// A row of the forwards table; times in milliseconds.
#[derive(Debug, Clone)]
pub struct Forwards {
    pub received_time: u64,
    pub received_time_str: String,
    pub resolved_time: u64,
    pub resolved_time_str: String,
    pub in_alias: String,
    pub out_alias: String,
    pub in_channel: u64,
    pub out_channel: u64,
    pub in_msats: u64,
    pub in_sats: u64,
    pub out_msats: u64,
    pub out_sats: u64,
    pub fee_msats: u64,
    pub fee_sats: u64,
    pub eff_fee_ppm: u32,
}

/// The resolution time of a forward, zero where it has none.
pub open spec fn resolved_secs(e: ForwardEntry) -> u64 {
    match e.resolved_time {
        Some(t) => t,
        None => 0,
    }
}

/// The row that a forward gives: amounts in msat and rounded to sat, times in milliseconds,
/// channels named by `channel_alias` (with non-ASCII characters replaced where UTF-8 is
/// off), and the effective fee rate.
pub open spec fn forward_row_ok(
    r: Forwards,
    e: ForwardEntry,
    locale: Seq<char>,
    utf8: bool,
    chans: Seq<(u64, String)>,
    aliases: Seq<(String, String)>,
) -> bool {
    &&& r.received_time == e.received_time.wrapping_mul(1000)
    &&& r.resolved_time == resolved_secs(e).wrapping_mul(1000)
    &&& datetime_ok(locale, e.received_time, r.received_time_str@)
    &&& datetime_ok(locale, resolved_secs(e), r.resolved_time_str@)
    &&& r.in_alias@ == shown_alias(channel_alias(e.in_channel, chans, aliases), utf8)
    &&& r.out_alias@ == shown_alias(channel_alias(e.out_channel, chans, aliases), utf8)
    &&& r.in_channel == e.in_channel
    &&& r.out_channel == e.out_channel
    &&& r.in_msats == e.in_msat
    &&& r.out_msats == e.out_msat
    &&& r.fee_msats == e.fee_msat
    &&& r.in_sats == rounded_div(e.in_msat as int, 1000)
    &&& r.out_sats == rounded_div(e.out_msat as int, 1000)
    &&& r.fee_sats == rounded_div(e.fee_msat as int, 1000)
    &&& r.eff_fee_ppm == fee_ppm(e.in_msat, e.out_msat)
}

/// Makes the table row of a forward.
pub fn forward_row(
    config: &Config,
    e: &ForwardEntry,
    chans: &Vec<(u64, String)>,
    aliases: &Vec<(String, String)>,
) -> (r: Result<Forwards, FormatError>)
    requires
        e.in_msat >= e.out_msat,
    ensures
        r matches Ok(row) ==> forward_row_ok(row, *e, config.locale@, config.utf8, chans@, aliases@),
        r is Err ==> r == Err::<Forwards, FormatError>(FormatError::DateTime) && (datetime_fails(
            config.locale@,
            e.received_time,
        ) || datetime_fails(config.locale@, resolved_secs(*e))),
{
    let resolved = match e.resolved_time {
        Some(t) => t,
        None => 0,
    };
    let received_str = timestamp_to_localized_datetime_string(config, e.received_time)?;
    let resolved_str = timestamp_to_localized_datetime_string(config, resolved)?;
    let in_alias = show_alias(get_alias_from_scid(e.in_channel, chans, aliases), config.utf8);
    let out_alias = show_alias(get_alias_from_scid(e.out_channel, chans, aliases), config.utf8);
    Ok(Forwards {
        received_time: e.received_time.wrapping_mul(1000),
        received_time_str: received_str,
        resolved_time: resolved.wrapping_mul(1000),
        resolved_time_str: resolved_str,
        in_alias,
        out_alias,
        in_channel: e.in_channel,
        out_channel: e.out_channel,
        in_msats: e.in_msat,
        in_sats: rounded_div_u64(e.in_msat, 1000),
        out_msats: e.out_msat,
        out_sats: rounded_div_u64(e.out_msat, 1000),
        fee_msats: e.fee_msat,
        fee_sats: rounded_div_u64(e.fee_msat, 1000),
        eff_fee_ppm: feeppm_effective_from_amts(e.in_msat, e.out_msat),
    })
}

/// What collecting forwards has gathered so far: the oldest time seen, the lowest index seen
/// at that time, the cut-off time, the rows keyed by index, and the indexes filtered out.
#[derive(Debug)]
pub struct ForwardsAccumulator {
    pub oldest_updated: u64,
    pub index_start: u64,
    pub index_timestamp: u64,
    pub rows: Vec<(u64, Forwards)>,
    pub filtered: Vec<u64>,
}

/// The keys of keyed rows.
pub open spec fn keys_of<R>(rows: Seq<(u64, R)>) -> Set<u64> {
    rows.map_values(|p: (u64, R)| p.0).to_set()
}

/// No key occurs twice.
pub open spec fn keys_unique<R>(rows: Seq<(u64, R)>) -> bool {
    forall|i: int, j: int| 0 <= i < j < rows.len() ==> #[trigger] rows[i].0 != #[trigger] rows[j].0
}

/// The state of collecting forwards, with the entries that rows were added for.
pub struct ForwardsModel {
    pub oldest: u64,
    pub start: u64,
    pub keys: Set<u64>,
    pub added: Map<u64, ForwardEntry>,
    pub filtered: Set<u64>,
    pub totals: ForwardsTotals,
    pub stats: ForwardsFilterStats,
}

/// A forward is filtered out where its incoming amount or its fee is at most the set limit.
pub open spec fn forward_filtered(e: ForwardEntry, amt: Option<u64>, fee: Option<u64>) -> bool {
    (amt matches Some(f) && e.in_msat <= f) || (fee matches Some(f) && e.fee_msat <= f)
}

/// One forward taken into account: one without index, or whose index was seen, changes
/// nothing; otherwise the oldest time (and the lowest index at it) is updated, and where it
/// was resolved after the cut-off, its amounts go to the totals and it goes either to the
/// rows or, where filtered, to the filter statistics.
pub open spec fn forward_step(
    m: ForwardsModel,
    e: ForwardEntry,
    cutoff: u64,
    amt: Option<u64>,
    fee: Option<u64>,
) -> ForwardsModel {
    match e.updated_index {
        None => m,
        Some(k) => if m.keys.contains(k) || m.filtered.contains(k) {
            m
        } else {
            let m1 = if e.received_time <= m.oldest {
                ForwardsModel {
                    oldest: e.received_time,
                    start: if k <= m.start {
                        k
                    } else {
                        m.start
                    },
                    ..m
                }
            } else {
                m
            };
            if resolved_secs(e) > cutoff {
                let t = ForwardsTotals {
                    amount_in_msat: accumulated(m1.totals.amount_in_msat, e.in_msat),
                    amount_out_msat: accumulated(m1.totals.amount_out_msat, e.out_msat),
                    fees_msat: accumulated(m1.totals.fees_msat, e.fee_msat),
                    ..m1.totals
                };
                if forward_filtered(e, amt, fee) {
                    ForwardsModel {
                        totals: t,
                        stats: ForwardsFilterStats {
                            amt_sum_msat: m1.stats.amt_sum_msat.wrapping_add(e.in_msat),
                            fee_sum_msat: m1.stats.fee_sum_msat.wrapping_add(e.fee_msat),
                            count: m1.stats.count.wrapping_add(1),
                        },
                        filtered: m1.filtered.insert(k),
                        ..m1
                    }
                } else {
                    ForwardsModel {
                        totals: t,
                        keys: m1.keys.insert(k),
                        added: m1.added.insert(k, e),
                        ..m1
                    }
                }
            } else {
                m1
            }
        },
    }
}

/// The forwards of a batch taken into account from the last to the first.
pub open spec fn forward_fold(
    m: ForwardsModel,
    s: Seq<ForwardEntry>,
    cutoff: u64,
    amt: Option<u64>,
    fee: Option<u64>,
) -> ForwardsModel
    decreases s.len(),
{
    if s.len() == 0 {
        m
    } else {
        forward_step(forward_fold(m, s.drop_first(), cutoff, amt, fee), s[0], cutoff, amt, fee)
    }
}

/// The model that a forwards accumulator starts a batch from.
pub open spec fn forwards_start(
    acc: ForwardsAccumulator,
    totals: ForwardsTotals,
    stats: ForwardsFilterStats,
) -> ForwardsModel {
    ForwardsModel {
        oldest: acc.oldest_updated,
        start: acc.index_start,
        keys: keys_of(acc.rows@),
        added: Map::empty(),
        filtered: acc.filtered@.to_set(),
        totals,
        stats,
    }
}

/// The accumulator, totals and statistics are those of the model: the rows present before
/// stay in place, and each added row is that of the entry the model added for its key.
pub open spec fn forwards_holds(
    acc: ForwardsAccumulator,
    totals: ForwardsTotals,
    stats: ForwardsFilterStats,
    m: ForwardsModel,
    before: Seq<(u64, Forwards)>,
    cutoff: u64,
    locale: Seq<char>,
    utf8: bool,
    chans: Seq<(u64, String)>,
    aliases: Seq<(String, String)>,
) -> bool {
    &&& acc.oldest_updated == m.oldest
    &&& acc.index_start == m.start
    &&& acc.index_timestamp == cutoff
    &&& keys_of(acc.rows@) == m.keys
    &&& keys_unique(acc.rows@)
    &&& acc.filtered@.to_set() == m.filtered
    &&& totals == m.totals
    &&& stats == m.stats
    &&& before.len() <= acc.rows@.len()
    &&& forall|i: int| 0 <= i < before.len() ==> acc.rows@[i] == #[trigger] before[i]
    &&& forall|i: int|
        before.len() <= i < acc.rows@.len() ==> m.added.contains_key(#[trigger] acc.rows@[i].0)
            && forward_row_ok(acc.rows@[i].1, m.added[acc.rows@[i].0], locale, utf8, chans, aliases)
}

fn has_key<R>(rows: &Vec<(u64, R)>, k: u64) -> (r: bool)
    ensures
        r == keys_of(rows@).contains(k),
{
    let mut i: usize = 0;
    while i < rows.len()
        invariant
            i <= rows@.len(),
            forall|j: int| 0 <= j < i ==> (#[trigger] rows@[j]).0 != k,
        decreases rows@.len() - i,
    {
        if rows[i].0 == k {
            proof {
                assert(rows@.map_values(|p: (u64, R)| p.0)[i as int] == k);
            }
            return true;
        }
        i = i + 1;
    }
    proof {
        if keys_of(rows@).contains(k) {
            let ks = rows@.map_values(|p: (u64, R)| p.0);
            assert(ks.contains(k));
            let j = choose|j: int| 0 <= j < ks.len() && #[trigger] ks[j] == k;
            assert(rows@[j].0 == k);
        }
    }
    false
}

fn contains_u64(v: &Vec<u64>, k: u64) -> (r: bool)
    ensures
        r == v@.to_set().contains(k),
{
    let mut i: usize = 0;
    while i < v.len()
        invariant
            i <= v@.len(),
            forall|j: int| 0 <= j < i ==> v@[j] != k,
        decreases v@.len() - i,
    {
        if v[i] == k {
            proof {
                assert(v@.contains(k));
            }
            return true;
        }
        i = i + 1;
    }
    false
}

proof fn lemma_keys_push<R>(rows: Seq<(u64, R)>, p: (u64, R))
    ensures
        keys_of(rows.push(p)) == keys_of(rows).insert(p.0),
{
    assert(rows.push(p).map_values(|q: (u64, R)| q.0) =~= rows.map_values(|q: (u64, R)| q.0).push(p.0));
    rows.map_values(|q: (u64, R)| q.0).lemma_push_to_set_commute(p.0);
}

/// The forward at `i` of a batch is made into a row, with its times formatted, when the batch
/// is taken in from the last to the first: it has an index not seen before it (among the rows
/// and the filtered), and it was resolved after the cut-off. The filters come after the row is
/// made.
pub open spec fn forward_formatted(
    m0: ForwardsModel,
    s: Seq<ForwardEntry>,
    i: int,
    cutoff: u64,
    amt: Option<u64>,
    fee: Option<u64>,
) -> bool {
    let m = forward_fold(m0, s.subrange(i + 1, s.len() as int), cutoff, amt, fee);
    &&& s[i].updated_index matches Some(k) && !m.keys.contains(k) && !m.filtered.contains(k)
    &&& resolved_secs(s[i]) > cutoff
}

/// Takes a batch of settled forwards into the accumulator, from the last to the first (see
/// `forward_step`), with the cut-off time and filters of the settings. It fails only where the
/// time of a forward made into a row cannot be formatted; a batch with no such forward is
/// always taken in.
pub fn build_forwards_table(
    acc: &mut ForwardsAccumulator,
    config: &Config,
    settled_forwards: &Vec<ForwardEntry>,
    chans: &Vec<(u64, String)>,
    aliases: &Vec<(String, String)>,
    totals: &mut ForwardsTotals,
    stats: &mut ForwardsFilterStats,
) -> (r: Result<(), FormatError>)
    requires
        keys_unique(old(acc).rows@),
        forall|k: int|
            0 <= k < settled_forwards@.len() ==> (#[trigger] settled_forwards@[k]).in_msat
                >= settled_forwards@[k].out_msat,
    ensures
        r is Ok ==> forwards_holds(
            *final(acc),
            *final(totals),
            *final(stats),
            forward_fold(
                forwards_start(*old(acc), *old(totals), *old(stats)),
                settled_forwards@,
                old(acc).index_timestamp,
                config.forwards_filter_amt_msat,
                config.forwards_filter_fee_msat,
            ),
            old(acc).rows@,
            old(acc).index_timestamp,
            config.locale@,
            config.utf8,
            chans@,
            aliases@,
        ),
        (forall|i: int|
            0 <= i < settled_forwards@.len() ==> !#[trigger] forward_formatted(
                forwards_start(*old(acc), *old(totals), *old(stats)),
                settled_forwards@,
                i,
                old(acc).index_timestamp,
                config.forwards_filter_amt_msat,
                config.forwards_filter_fee_msat,
            )) ==> r is Ok,
        r is Err ==> r == Err::<(), FormatError>(FormatError::DateTime) && exists|i: int|
            0 <= i < settled_forwards@.len() && #[trigger] forward_formatted(
                forwards_start(*old(acc), *old(totals), *old(stats)),
                settled_forwards@,
                i,
                old(acc).index_timestamp,
                config.forwards_filter_amt_msat,
                config.forwards_filter_fee_msat,
            ) && (datetime_fails(config.locale@, settled_forwards@[i].received_time) || datetime_fails(
                config.locale@,
                resolved_secs(settled_forwards@[i]),
            )),
        r is Ok ==> forall|i: int|
            0 <= i < settled_forwards@.len() && #[trigger] forward_formatted(
                forwards_start(*old(acc), *old(totals), *old(stats)),
                settled_forwards@,
                i,
                old(acc).index_timestamp,
                config.forwards_filter_amt_msat,
                config.forwards_filter_fee_msat,
            ) && ((config.forwards_filter_amt_msat matches Some(f) && settled_forwards@[i].in_msat <= f) || (
            config.forwards_filter_fee_msat matches Some(f) && settled_forwards@[i].fee_msat <= f))
                ==> final(acc).filtered@.contains(settled_forwards@[i].updated_index->0) && !keys_of(
                final(acc).rows@,
            ).contains(settled_forwards@[i].updated_index->0),
{
    let ghost s = settled_forwards@;
    let ghost m0 = forwards_start(*acc, *totals, *stats);
    let ghost before = acc.rows@;
    let ghost cutoff = acc.index_timestamp;
    let ghost amt = config.forwards_filter_amt_msat;
    let ghost fee = config.forwards_filter_fee_msat;
    let n = settled_forwards.len();
    let mut i: usize = n;
    proof {
        assert(s.subrange(n as int, n as int) =~= Seq::<ForwardEntry>::empty());
    }
    while i > 0
        invariant
            n == s.len(),
            s == settled_forwards@,
            i <= n,
            cutoff == old(acc).index_timestamp,
            amt == config.forwards_filter_amt_msat,
            fee == config.forwards_filter_fee_msat,
            before == old(acc).rows@,
            m0 == forwards_start(*old(acc), *old(totals), *old(stats)),
            forall|k: int| 0 <= k < s.len() ==> (#[trigger] s[k]).in_msat >= s[k].out_msat,
            forwards_holds(
                *acc,
                *totals,
                *stats,
                forward_fold(m0, s.subrange(i as int, n as int), cutoff, amt, fee),
                before,
                cutoff,
                config.locale@,
                config.utf8,
                chans@,
                aliases@,
            ),
        decreases i,
    {
        i = i - 1;
        let ghost m = forward_fold(m0, s.subrange(i + 1, n as int), cutoff, amt, fee);
        let ghost rows0 = acc.rows@;
        proof {
            assert(s.subrange(i as int, n as int).drop_first() =~= s.subrange(i + 1, n as int));
            assert(s.subrange(i as int, n as int)[0] == s[i as int]);
        }
        let e = &settled_forwards[i];
        if let Some(k) = e.updated_index {
            if !has_key(&acc.rows, k) && !contains_u64(&acc.filtered, k) {
                if e.received_time <= acc.oldest_updated {
                    acc.oldest_updated = e.received_time;
                    if k <= acc.index_start {
                        acc.index_start = k;
                    }
                }
                let resolved = match e.resolved_time {
                    Some(t) => t,
                    None => 0,
                };
                if resolved > acc.index_timestamp {
                    let row = match forward_row(config, e, chans, aliases) {
                        Ok(row) => row,
                        Err(err) => {
                            proof {
                                assert(forward_formatted(m0, s, i as int, cutoff, amt, fee));
                            }
                            return Err(err);
                        },
                    };
                    accumulate_msat(&mut totals.amount_in_msat, e.in_msat);
                    accumulate_msat(&mut totals.amount_out_msat, e.out_msat);
                    accumulate_msat(&mut totals.fees_msat, e.fee_msat);
                    let mut should_filter = false;
                    if let Some(f) = config.forwards_filter_amt_msat {
                        if e.in_msat <= f {
                            should_filter = true;
                        }
                    }
                    if let Some(f) = config.forwards_filter_fee_msat {
                        if e.fee_msat <= f {
                            should_filter = true;
                        }
                    }
                    if should_filter {
                        stats.amt_sum_msat = stats.amt_sum_msat.wrapping_add(e.in_msat);
                        stats.fee_sum_msat = stats.fee_sum_msat.wrapping_add(e.fee_msat);
                        stats.count = stats.count.wrapping_add(1);
                        proof {
                            acc.filtered@.lemma_push_to_set_commute(k);
                        }
                        acc.filtered.push(k);
                    } else {
                        let ghost old_rows = acc.rows@;
                        proof {
                            lemma_keys_push(old_rows, (k, row));
                        }
                        acc.rows.push((k, row));
                        proof {
                            assert forall|a: int, b: int| 0 <= a < b < acc.rows@.len() implies #[trigger] acc.rows@[a].0
                                != #[trigger] acc.rows@[b].0 by {
                                if b == old_rows.len() {
                                    assert(old_rows.map_values(|p: (u64, Forwards)| p.0)[a] == old_rows[a].0);
                                }
                            }
                        }
                    }
                }
            }
        }
        proof {
            assert(forward_fold(m0, s.subrange(i as int, n as int), cutoff, amt, fee) == forward_step(m, s[i as int], cutoff, amt, fee));
            let m2 = forward_step(m, s[i as int], cutoff, amt, fee);
            assert(acc.oldest_updated == m2.oldest);
            assert(acc.index_start == m2.start);
            assert(acc.index_timestamp == cutoff);
            assert(keys_of(acc.rows@) == m2.keys);
            assert(keys_unique(acc.rows@));
            assert(acc.filtered@.to_set() == m2.filtered);
            assert(*totals == m2.totals);
            assert(*stats == m2.stats);
            assert(before.len() <= acc.rows@.len());
            assert(forall|j: int| 0 <= j < before.len() ==> acc.rows@[j] == #[trigger] before[j]);
            assert forall|j: int|
                before.len() <= j < acc.rows@.len() implies m2.added.contains_key(#[trigger] acc.rows@[j].0)
                    && forward_row_ok(acc.rows@[j].1, m2.added[acc.rows@[j].0], config.locale@, config.utf8, chans@, aliases@) by {
                if j < rows0.len() {
                    assert(acc.rows@[j] == rows0[j]);
                    assert(m.added.contains_key(rows0[j].0));
                    assert(rows0.map_values(|p: (u64, Forwards)| p.0)[j] == rows0[j].0);
                    assert(keys_of(rows0).contains(rows0[j].0));
                }
            }
        }
    }
    proof {
        assert(s.subrange(0, n as int) =~= s);
        assert forall|j: int|
            0 <= j < s.len() && #[trigger] forward_formatted(m0, s, j, cutoff, amt, fee) && ((amt matches Some(
                f,
            ) && s[j].in_msat <= f) || (fee matches Some(f) && s[j].fee_msat <= f)) implies acc.filtered@.contains(
            s[j].updated_index->0,
        ) && !keys_of(acc.rows@).contains(s[j].updated_index->0) by {
            lemma_forward_fold_filtered_out(m0, s, j, cutoff, amt, fee);
            assert(acc.filtered@.to_set().contains(s[j].updated_index->0));
        }
    }
    Ok(())
}


/// `(resolved_time, row)` for each row, to sort by.
pub open spec fn by_resolved(s: Seq<Forwards>) -> Seq<(u64, Forwards)> {
    s.map_values(|f: Forwards| (f.resolved_time, f))
}

fn pair_by_resolved(v: Vec<Forwards>) -> (r: Vec<(u64, Forwards)>)
    ensures
        r@ == by_resolved(v@),
{
    let ghost v0 = v@;
    let mut v = v;
    let mut out: Vec<(u64, Forwards)> = Vec::new();
    let ghost mut i: int = 0;
    while v.len() > 0
        invariant
            0 <= i <= v0.len(),
            v@ == v0.subrange(i, v0.len() as int),
            out@ == by_resolved(v0.take(i)),
        decreases v@.len(),
    {
        let f = v.remove(0);
        let t = f.resolved_time;
        out.push((t, f));
        proof {
            assert(v@ =~= v0.subrange(i + 1, v0.len() as int));
            assert(out@ =~= by_resolved(v0.take(i + 1)));
            i = i + 1;
        }
    }
    proof {
        assert(v0.take(i) =~= v0);
    }
    out
}

/// The forwards shown: the rows in index order, only the last `limit` of them where a limit
/// is set, then ordered by resolution time (rows resolved at the same time keep their
/// order).
pub open spec fn forwards_shown(rows: Seq<(u64, Forwards)>, limit: usize) -> Seq<Forwards> {
    values_of(stable_sort(by_resolved(keep_last(values_of(stable_sort(rows)), limit))))
}

/// The forwards to show, from the collected rows (see `forwards_shown`).
pub fn limit_and_sort_forwards(rows: Vec<(u64, Forwards)>, limit: usize) -> (r: Vec<Forwards>)
    ensures
        r@ == forwards_shown(rows@, limit),
        keys_unique(rows@) && limit > 0 && rows@.len() > limit ==> r@.len() == limit,
        keys_unique(rows@) && limit > 0 && rows@.len() > limit ==> forall|i: int|
            0 <= i < r@.len() ==> among_newest(rows@, limit, #[trigger] r@[i]),
        keys_unique(rows@) && limit > 0 && rows@.len() > limit ==> forall|q: int|
            0 <= q < rows@.len() && count_above(rows@, (#[trigger] rows@[q]).0) < limit ==> r@.contains(
                rows@[q].1,
            ),
{
    proof {
        if keys_unique(rows@) && limit > 0 && rows@.len() > limit {
            lemma_forwards_shown_newest(rows@, limit);
        }
    }
    let by_index = into_values(sort_by_key(rows));
    let kept = take_last(by_index, limit);
    into_values(sort_by_key(pair_by_resolved(kept)))
}

/// Where paging through an index stands: the lowest index reached, the cut-off time it was
/// reached for, and the time window (in hours) that it belongs to.
#[derive(Debug, Clone, Copy, PartialEq, Eq, Structural)]
pub struct PagingIndex {
    pub start: u64,
    pub timestamp: u64,
    pub age: u64,
}

impl PagingIndex {
    /// No page read yet.
    pub fn new() -> (r: PagingIndex)
        ensures
            r == (PagingIndex { start: u64::MAX, timestamp: 0, age: 0 }),
    {
        PagingIndex { start: u64::MAX, timestamp: 0, age: 0 }
    }

    /// The index, started afresh where the time window changed.
    pub fn reset_if_needed(self, window_hours: u64) -> (r: PagingIndex)
        ensures
            r == (if self.age != window_hours {
                PagingIndex { start: u64::MAX, timestamp: 0, age: 0 }
            } else {
                self
            }),
    {
        if self.age != window_hours {
            PagingIndex::new()
        } else {
            self
        }
    }
}

/// How many entries a page asks for.
pub const PAGE_SIZE: u64 = 1000;

/// Why the next page could not be asked for: an index beyond the range of a page limit.
#[derive(Debug, Clone, Copy, PartialEq, Eq, Structural)]
pub enum PageError {
    IndexTooLarge,
}

/// The first page of forwards to ask for: from the index reached last time, with no limit,
/// where one was reached; else the last page before the current index.
pub fn first_forwards_page(index_start: u64, current_index: u64) -> (r: (u64, Option<u32>))
    ensures
        index_start < u64::MAX ==> r == (index_start, None::<u32>),
        index_start == u64::MAX ==> r == (current_index.saturating_sub((PAGE_SIZE - 1) as u64), Some(
            PAGE_SIZE as u32,
        )),
{
    if index_start < u64::MAX {
        (index_start, None)
    } else {
        (current_index.saturating_sub(PAGE_SIZE - 1), Some(1000u32))
    }
}

/// The page of forwards after the one that started at `start_index`: none where that was the
/// first page; an error where the index is beyond the range of a page limit; none where the
/// oldest forward seen is older than the cut-off; else the page before it, as large as what
/// is left.
pub fn next_forwards_page(acc: &ForwardsAccumulator, start_index: u64) -> (r: Result<
    Option<(u64, u32)>,
    PageError,
>)
    ensures
        r == (if start_index == 0 {
            Ok::<Option<(u64, u32)>, PageError>(None)
        } else if start_index > u32::MAX {
            Err::<Option<(u64, u32)>, PageError>(PageError::IndexTooLarge)
        } else if acc.oldest_updated < acc.index_timestamp {
            Ok::<Option<(u64, u32)>, PageError>(None)
        } else {
            Ok::<Option<(u64, u32)>, PageError>(
                Some(
                    (
                        start_index.saturating_sub(PAGE_SIZE),
                        if start_index < PAGE_SIZE {
                            start_index as u32
                        } else {
                            PAGE_SIZE as u32
                        },
                    ),
                ),
            )
        }),
{
    if start_index == 0 {
        return Ok(None);
    }
    if start_index > 0xffff_ffffu64 {
        return Err(PageError::IndexTooLarge);
    }
    if acc.oldest_updated < acc.index_timestamp {
        return Ok(None);
    }
    let limit: u32 = if start_index < PAGE_SIZE {
        start_index as u32
    } else {
        1000u32
    };
    Ok(Some((start_index.saturating_sub(PAGE_SIZE), limit)))
}


/// Where the description of a payment came from: given as such, or still to be decoded from
/// its BOLT11 invoice or BOLT12 string.
#[derive(Debug, Clone, Copy, PartialEq, Eq, Structural)]
pub enum DescriptionStatus {
    Processed,
    Bolt11,
    Bolt12,
}

/// The description of a payment: its own where it has one, else its BOLT11 invoice, else its
/// BOLT12 string (the latter two to be decoded), else none.
pub open spec fn pay_description(
    description: Option<String>,
    bolt11: Option<String>,
    bolt12: Option<String>,
) -> (DescriptionStatus, Option<String>) {
    if description is Some {
        (DescriptionStatus::Processed, description)
    } else if bolt11 is Some {
        (DescriptionStatus::Bolt11, bolt11)
    } else if bolt12 is Some {
        (DescriptionStatus::Bolt12, bolt12)
    } else {
        (DescriptionStatus::Processed, None)
    }
}

/// Picks the description of a payment (see `pay_description`).
pub fn get_pay_description_and_status(
    description: Option<String>,
    bolt11: Option<String>,
    bolt12: Option<String>,
) -> (r: (DescriptionStatus, Option<String>))
    ensures
        r == pay_description(description, bolt11, bolt12),
{
    if description.is_some() {
        (DescriptionStatus::Processed, description)
    } else if bolt11.is_some() {
        (DescriptionStatus::Bolt11, bolt11)
    } else if bolt12.is_some() {
        (DescriptionStatus::Bolt12, bolt12)
    } else {
        (DescriptionStatus::Processed, None)
    }
}

/// The payment totals with a payment of `amount_msat` requested and `amount_sent_msat` sent
/// added, to the self-payment sums or to the others.
pub open spec fn pays_totals_added(
    t: PaysTotals,
    is_self_pay: bool,
    fee_msat: u64,
    amount_msat: u64,
    amount_sent_msat: u64,
) -> PaysTotals {
    if is_self_pay {
        PaysTotals {
            self_fees_msat: accumulated(t.self_fees_msat, fee_msat),
            self_amount_msat: accumulated(t.self_amount_msat, amount_msat),
            self_amount_sent_msat: accumulated(t.self_amount_sent_msat, amount_sent_msat),
            ..t
        }
    } else {
        PaysTotals {
            fees_msat: accumulated(t.fees_msat, fee_msat),
            amount_msat: accumulated(t.amount_msat, amount_msat),
            amount_sent_msat: accumulated(t.amount_sent_msat, amount_sent_msat),
            ..t
        }
    }
}

/// Adds a payment to the totals (see `pays_totals_added`).
pub fn accumulate_totals(
    is_self_pay: bool,
    fee_msat: u64,
    totals: &mut PaysTotals,
    amount_msat: u64,
    amount_sent_msat: u64,
)
    ensures
        *final(totals) == pays_totals_added(
            *old(totals),
            is_self_pay,
            fee_msat,
            amount_msat,
            amount_sent_msat,
        ),
{
    if is_self_pay {
        accumulate_msat(&mut totals.self_fees_msat, fee_msat);
        accumulate_msat(&mut totals.self_amount_msat, amount_msat);
        accumulate_msat(&mut totals.self_amount_sent_msat, amount_sent_msat);
    } else {
        accumulate_msat(&mut totals.fees_msat, fee_msat);
        accumulate_msat(&mut totals.amount_msat, amount_msat);
        accumulate_msat(&mut totals.amount_sent_msat, amount_sent_msat);
    }
}

/// A completed payment as `listpays` reports it, with the alias of its destination (looked
/// up for payments that have one).
#[derive(Debug, Clone)]
pub struct PayEntry {
    pub updated_index: Option<u64>,
    pub completed_at: Option<u64>,
    pub destination: Option<String>,
    pub destination_alias: Option<String>,
    pub amount_msat: Option<u64>,
    pub amount_sent_msat: Option<u64>,
    pub payment_hash: String,
    pub preimage: Vec<u8>,
    pub description: Option<String>,
    pub bolt11: Option<String>,
    pub bolt12: Option<String>,
}

/// A row of the pays table.
#[derive(Debug, Clone)]
pub struct Pays {
    pub completed_at: u64,
    pub completed_at_str: String,
    pub payment_hash: String,
    pub msats_requested: Option<u64>,
    pub sats_requested: Option<u64>,
    pub msats_sent: u64,
    pub sats_sent: u64,
    pub fee_msats: Option<u64>,
    pub fee_sats: Option<u64>,
    pub destination: Option<String>,
    pub description: Option<String>,
    pub preimage: String,
    pub description_status: DescriptionStatus,
}

/// How the destination of a payment is shown: its alias where one is known and set (with
/// non-ASCII characters replaced where UTF-8 is off), else its node id.
pub open spec fn shown_destination(e: PayEntry, utf8: bool) -> Option<Seq<char>> {
    match e.destination_alias {
        Some(a) => if a@ == node_gossip_miss() || a@ == no_alias_set() {
            match e.destination {
                Some(d) => Some(d@),
                None => None,
            }
        } else {
            Some(shown_alias(a@, utf8))
        },
        None => None,
    }
}

/// The row that a payment gives, where it has an amount sent.
pub open spec fn pay_row_ok(r: Pays, e: PayEntry, locale: Seq<char>, utf8: bool) -> bool {
    let sent = e.amount_sent_msat->0;
    let (status, desc) = pay_description(e.description, e.bolt11, e.bolt12);
    &&& r.completed_at == e.completed_at->0
    &&& (datetime_ok(locale, r.completed_at, r.completed_at_str@) || (r.completed_at_str@ == "ERROR"@
        && datetime_fails(locale, r.completed_at)))
    &&& r.payment_hash@ == e.payment_hash@
    &&& r.msats_sent == sent
    &&& r.sats_sent == rounded_div(sent as int, 1000)
    &&& r.msats_requested == e.amount_msat
    &&& (match e.amount_msat {
        Some(a) => r.sats_requested == Some(rounded_div(a as int, 1000) as u64) && r.fee_msats
            == Some(sent.saturating_sub(a)) && r.fee_sats == Some(
            rounded_div(sent.saturating_sub(a) as int, 1000) as u64,
        ),
        None => r.sats_requested is None && r.fee_msats is None && r.fee_sats is None,
    })
    &&& (match shown_destination(e, utf8) {
        Some(d) => r.destination matches Some(x) && x@ == d,
        None => r.destination is None,
    })
    &&& r.description_status == status
    &&& (match desc {
        Some(d) => r.description matches Some(x) && x@ == d@,
        None => r.description is None,
    })
    &&& r.preimage@ == crate::util::hex_of(e.preimage@)
}

/// What collecting payments has gathered so far.
#[derive(Debug)]
pub struct PaysAccumulator {
    pub oldest_updated: u64,
    pub cutoff_timestamp: u64,
    pub rows: Vec<(u64, Pays)>,
    pub filtered: Vec<u64>,
}

/// The state of collecting payments, with the entries that rows were added for.
pub struct PaysModel {
    pub oldest: u64,
    pub keys: Set<u64>,
    pub added: Map<u64, PayEntry>,
    pub filtered: Set<u64>,
    pub totals: PaysTotals,
}

/// The payment is one to this node itself.
pub open spec fn is_self_pay(e: PayEntry, my_id: Seq<char>) -> bool {
    e.destination matches Some(d) && d@ == my_id
}

/// One payment taken into account: one without index or completion time, or whose index was
/// seen, changes nothing; otherwise the oldest time is updated, and a payment completed
/// after the cut-off with an amount sent goes to the totals, and to the rows, or where it
/// is one to this node, to the filtered ones.
pub open spec fn pay_step(m: PaysModel, e: PayEntry, cutoff: u64, my_id: Seq<char>) -> PaysModel {
    match (e.updated_index, e.completed_at) {
        (Some(k), Some(c)) => if m.keys.contains(k) || m.filtered.contains(k) {
            m
        } else {
            let m1 = if c <= m.oldest {
                PaysModel { oldest: c, ..m }
            } else {
                m
            };
            if c <= cutoff || e.amount_sent_msat is None {
                m1
            } else {
                let sent = e.amount_sent_msat->0;
                let self_pay = is_self_pay(e, my_id);
                let t = match e.amount_msat {
                    Some(a) => pays_totals_added(m1.totals, self_pay, sent.saturating_sub(a), a, sent),
                    None => m1.totals,
                };
                if self_pay {
                    PaysModel {
                        totals: PaysTotals { self_count: t.self_count.wrapping_add(1), ..t },
                        filtered: m1.filtered.insert(k),
                        ..m1
                    }
                } else {
                    PaysModel {
                        totals: PaysTotals { count: t.count.wrapping_add(1), ..t },
                        keys: m1.keys.insert(k),
                        added: m1.added.insert(k, e),
                        ..m1
                    }
                }
            }
        },
        _ => m,
    }
}

/// The payments of a batch taken into account from the last to the first.
pub open spec fn pay_fold(m: PaysModel, s: Seq<PayEntry>, cutoff: u64, my_id: Seq<char>) -> PaysModel
    decreases s.len(),
{
    if s.len() == 0 {
        m
    } else {
        pay_step(pay_fold(m, s.drop_first(), cutoff, my_id), s[0], cutoff, my_id)
    }
}

/// The model that a pays accumulator starts a batch from.
pub open spec fn pays_start(acc: PaysAccumulator, totals: PaysTotals) -> PaysModel {
    PaysModel {
        oldest: acc.oldest_updated,
        keys: keys_of(acc.rows@),
        added: Map::empty(),
        filtered: acc.filtered@.to_set(),
        totals,
    }
}

/// The accumulator and totals are those of the model (see `forwards_holds`).
pub open spec fn pays_holds(
    acc: PaysAccumulator,
    totals: PaysTotals,
    m: PaysModel,
    before: Seq<(u64, Pays)>,
    cutoff: u64,
    locale: Seq<char>,
    utf8: bool,
) -> bool {
    &&& acc.oldest_updated == m.oldest
    &&& acc.cutoff_timestamp == cutoff
    &&& keys_of(acc.rows@) == m.keys
    &&& keys_unique(acc.rows@)
    &&& acc.filtered@.to_set() == m.filtered
    &&& totals == m.totals
    &&& before.len() <= acc.rows@.len()
    &&& forall|i: int| 0 <= i < before.len() ==> acc.rows@[i] == #[trigger] before[i]
    &&& forall|i: int|
        before.len() <= i < acc.rows@.len() ==> m.added.contains_key(#[trigger] acc.rows@[i].0)
            && pay_row_ok(acc.rows@[i].1, m.added[acc.rows@[i].0], locale, utf8)
}

fn clone_opt(s: &Option<String>) -> (r: Option<String>)
    ensures
        r is None <==> s is None,
        r matches Some(x) ==> x@ == s->0@,
{
    match s {
        Some(x) => Some(x.clone()),
        None => None,
    }
}

/// Makes the table row of a payment that has an amount sent; its completion time is shown
/// as local date and time, or `ERROR` where that cannot be formatted.
pub fn pay_row(config: &Config, e: &PayEntry) -> (r: Pays)
    requires
        e.amount_sent_msat is Some,
        e.completed_at is Some,
    ensures
        pay_row_ok(r, *e, config.locale@, config.utf8),
{
    let utf8 = config.utf8;
    let sent = match e.amount_sent_msat {
        Some(s) => s,
        None => 0,
    };
    let (msats_requested, sats_requested, fee_msats, fee_sats) = match e.amount_msat {
        Some(a) => {
            let fee = sent.saturating_sub(a);
            (Some(a), Some(rounded_div_u64(a, 1000)), Some(fee), Some(rounded_div_u64(fee, 1000)))
        },
        None => (None, None, None, None),
    };
    let destination = match &e.destination_alias {
        Some(a) => {
            let ac = str_chars(a.as_str());
            let miss = str_chars("NODE_GOSSIP_MISS");
            let unset = str_chars("NO_ALIAS_SET");
            if crate::strutil::chars_eq(&ac, &miss) || crate::strutil::chars_eq(&ac, &unset) {
                clone_opt(&e.destination)
            } else {
                Some(show_alias(a.clone(), utf8))
            }
        },
        None => None,
    };
    let (status, description) = get_pay_description_and_status(
        e.description.clone(),
        e.bolt11.clone(),
        e.bolt12.clone(),
    );
    let completed_at = match e.completed_at {
        Some(c) => c,
        None => 0,
    };
    let completed_at_str = match timestamp_to_localized_datetime_string(config, completed_at) {
        Ok(t) => t,
        Err(_) => {
            proof {
                reveal_strlit("ERROR");
            }
            string_from_chars(str_chars("ERROR").as_slice())
        },
    };
    Pays {
        completed_at,
        completed_at_str,
        payment_hash: e.payment_hash.clone(),
        msats_requested,
        sats_requested,
        msats_sent: sent,
        sats_sent: rounded_div_u64(sent, 1000),
        fee_msats,
        fee_sats,
        destination,
        description,
        preimage: crate::util::hex_encode(e.preimage.as_slice()),
        description_status: status,
    }
}


/// Takes a batch of completed payments into the accumulator, from the last to the first (see
/// `pay_step`); `my_id` is this node's id.
pub fn build_pays_table(
    acc: &mut PaysAccumulator,
    config: &Config,
    pays: &Vec<PayEntry>,
    my_id: &str,
    totals: &mut PaysTotals,
)
    requires
        keys_unique(old(acc).rows@),
    ensures
        pays_holds(
            *final(acc),
            *final(totals),
            pay_fold(pays_start(*old(acc), *old(totals)), pays@, old(acc).cutoff_timestamp, my_id@),
            old(acc).rows@,
            old(acc).cutoff_timestamp,
            config.locale@,
            config.utf8,
        ),
{
    let ghost s = pays@;
    let ghost m0 = pays_start(*acc, *totals);
    let ghost before = acc.rows@;
    let ghost cutoff = acc.cutoff_timestamp;
    let my = str_chars(my_id);
    let n = pays.len();
    let mut i: usize = n;
    proof {
        assert(s.subrange(n as int, n as int) =~= Seq::<PayEntry>::empty());
    }
    while i > 0
        invariant
            n == s.len(),
            s == pays@,
            i <= n,
            my@ == my_id@,
            cutoff == old(acc).cutoff_timestamp,
            before == old(acc).rows@,
            m0 == pays_start(*old(acc), *old(totals)),
            pays_holds(
                *acc,
                *totals,
                pay_fold(m0, s.subrange(i as int, n as int), cutoff, my_id@),
                before,
                cutoff,
                config.locale@,
                config.utf8,
            ),
        decreases i,
    {
        i = i - 1;
        let ghost m = pay_fold(m0, s.subrange(i + 1, n as int), cutoff, my_id@);
        let ghost rows0 = acc.rows@;
        proof {
            assert(s.subrange(i as int, n as int).drop_first() =~= s.subrange(i + 1, n as int));
            assert(s.subrange(i as int, n as int)[0] == s[i as int]);
        }
        let e = &pays[i];
        if let (Some(k), Some(c)) = (e.updated_index, e.completed_at) {
            if !has_key(&acc.rows, k) && !contains_u64(&acc.filtered, k) {
                if c <= acc.oldest_updated {
                    acc.oldest_updated = c;
                }
                if c > acc.cutoff_timestamp && e.amount_sent_msat.is_some() {
                    let sent = match e.amount_sent_msat {
                        Some(x) => x,
                        None => 0,
                    };
                    let self_pay = match &e.destination {
                        Some(d) => {
                            let dc = str_chars(d.as_str());
                            crate::strutil::chars_eq(&dc, &my)
                        },
                        None => false,
                    };
                    if let Some(a) = e.amount_msat {
                        accumulate_totals(self_pay, sent.saturating_sub(a), totals, a, sent);
                    }
                    if self_pay {
                        totals.self_count = totals.self_count.wrapping_add(1);
                        proof {
                            acc.filtered@.lemma_push_to_set_commute(k);
                        }
                        acc.filtered.push(k);
                    } else {
                        totals.count = totals.count.wrapping_add(1);
                        let row = pay_row(config, e);
                        proof {
                            lemma_keys_push(rows0, (k, row));
                        }
                        acc.rows.push((k, row));
                        proof {
                            assert forall|a: int, b: int| 0 <= a < b < acc.rows@.len() implies #[trigger] acc.rows@[a].0
                                != #[trigger] acc.rows@[b].0 by {
                                if b == rows0.len() {
                                    assert(rows0.map_values(|p: (u64, Pays)| p.0)[a] == rows0[a].0);
                                }
                            }
                        }
                    }
                }
            }
        }
        proof {
            assert(pay_fold(m0, s.subrange(i as int, n as int), cutoff, my_id@) == pay_step(m, s[i as int], cutoff, my_id@));
            let m2 = pay_step(m, s[i as int], cutoff, my_id@);
            assert forall|j: int|
                before.len() <= j < acc.rows@.len() implies m2.added.contains_key(#[trigger] acc.rows@[j].0)
                    && pay_row_ok(acc.rows@[j].1, m2.added[acc.rows@[j].0], config.locale@, config.utf8) by {
                if j < rows0.len() {
                    assert(acc.rows@[j] == rows0[j]);
                    assert(m.added.contains_key(rows0[j].0));
                    assert(rows0.map_values(|p: (u64, Pays)| p.0)[j] == rows0[j].0);
                    assert(keys_of(rows0).contains(rows0[j].0));
                }
            }
        }
    }
    proof {
        assert(s.subrange(0, n as int) =~= s);
    }
}

/// `(completed_at, row)` for each row, to sort by.
pub open spec fn by_completed(s: Seq<Pays>) -> Seq<(u64, Pays)> {
    s.map_values(|p: Pays| (p.completed_at, p))
}

fn pair_by_completed(v: Vec<Pays>) -> (r: Vec<(u64, Pays)>)
    ensures
        r@ == by_completed(v@),
{
    let ghost v0 = v@;
    let mut v = v;
    let mut out: Vec<(u64, Pays)> = Vec::new();
    let ghost mut i: int = 0;
    while v.len() > 0
        invariant
            0 <= i <= v0.len(),
            v@ == v0.subrange(i, v0.len() as int),
            out@ == by_completed(v0.take(i)),
        decreases v@.len(),
    {
        let p = v.remove(0);
        let t = p.completed_at;
        out.push((t, p));
        proof {
            assert(v@ =~= v0.subrange(i + 1, v0.len() as int));
            assert(out@ =~= by_completed(v0.take(i + 1)));
            i = i + 1;
        }
    }
    proof {
        assert(v0.take(i) =~= v0);
    }
    out
}

/// The payments shown: the rows in index order, only the last `limit` of them where a limit
/// is set, then ordered by completion time (rows completed at the same time keep their
/// order).
pub open spec fn pays_shown(rows: Seq<(u64, Pays)>, limit: usize) -> Seq<Pays> {
    values_of(stable_sort(by_completed(keep_last(values_of(stable_sort(rows)), limit))))
}

/// The payments to show, from the collected rows (see `pays_shown`).
pub fn limit_and_sort_pays_data(rows: Vec<(u64, Pays)>, limit: usize) -> (r: Vec<Pays>)
    ensures
        r@ == pays_shown(rows@, limit),
        keys_unique(rows@) && limit > 0 && rows@.len() > limit ==> r@.len() == limit,
        keys_unique(rows@) && limit > 0 && rows@.len() > limit ==> forall|i: int|
            0 <= i < r@.len() ==> among_newest(rows@, limit, #[trigger] r@[i]),
        keys_unique(rows@) && limit > 0 && rows@.len() > limit ==> forall|q: int|
            0 <= q < rows@.len() && count_above(rows@, (#[trigger] rows@[q]).0) < limit ==> r@.contains(
                rows@[q].1,
            ),
{
    proof {
        if keys_unique(rows@) && limit > 0 && rows@.len() > limit {
            lemma_pays_shown_newest(rows@, limit);
        }
    }
    let by_index = into_values(sort_by_key(rows));
    let kept = take_last(by_index, limit);
    into_values(sort_by_key(pair_by_completed(kept)))
}

/// The page of payments (or invoices) after the one that started at `current_index`: none
/// where that was the first page or the first index is reached; an error where the index is
/// beyond the range of a page limit; none where the oldest one seen is older than the
/// cut-off; else the page before it, as large as what is left.
pub fn next_page(oldest_updated: u64, cutoff_timestamp: u64, current_index: u64, first_index: u64) -> (r:
    Result<Option<(u64, u32)>, PageError>)
    ensures
        r == (if current_index <= 1 || current_index <= first_index {
            Ok::<Option<(u64, u32)>, PageError>(None)
        } else if current_index > u32::MAX {
            Err::<Option<(u64, u32)>, PageError>(PageError::IndexTooLarge)
        } else if oldest_updated < cutoff_timestamp {
            Ok::<Option<(u64, u32)>, PageError>(None)
        } else {
            Ok::<Option<(u64, u32)>, PageError>(
                Some(
                    (
                        current_index.saturating_sub(PAGE_SIZE),
                        if current_index < PAGE_SIZE {
                            current_index as u32
                        } else {
                            PAGE_SIZE as u32
                        },
                    ),
                ),
            )
        }),
{
    if current_index <= 1 || current_index <= first_index {
        return Ok(None);
    }
    if current_index > 0xffff_ffffu64 {
        return Err(PageError::IndexTooLarge);
    }
    if oldest_updated < cutoff_timestamp {
        return Ok(None);
    }
    let limit: u32 = if current_index < PAGE_SIZE {
        current_index as u32
    } else {
        1000u32
    };
    Ok(Some((current_index.saturating_sub(PAGE_SIZE), limit)))
}


/// The first page of payments or invoices to ask for: the last page before the current
/// index.
pub fn first_page(current_index: u64) -> (r: (u64, u32))
    ensures
        r == (current_index.saturating_sub((PAGE_SIZE - 1) as u64), PAGE_SIZE as u32),
{
    (current_index.saturating_sub(PAGE_SIZE - 1), 1000u32)
}

/// An invoice as `listinvoices` reports it.
#[derive(Debug, Clone)]
pub struct InvoiceEntry {
    pub paid: bool,
    pub updated_index: Option<u64>,
    pub paid_at: Option<u64>,
    pub amount_received_msat: u64,
    pub label: String,
    pub description: Option<String>,
    pub payment_hash: String,
    pub preimage: Vec<u8>,
}

/// A row of the invoices table.
#[derive(Debug, Clone)]
pub struct Invoices {
    pub paid_at: u64,
    pub paid_at_str: String,
    pub label: String,
    pub description: String,
    pub msats_received: u64,
    pub sats_received: u64,
    pub payment_hash: String,
    pub preimage: String,
}

/// The row that a paid invoice gives.
pub open spec fn invoice_row_ok(r: Invoices, e: InvoiceEntry, locale: Seq<char>) -> bool {
    &&& r.paid_at == e.paid_at->0
    &&& datetime_ok(locale, r.paid_at, r.paid_at_str@)
    &&& r.label@ == e.label@
    &&& r.description@ == (match e.description {
        Some(d) => d@,
        None => Seq::<char>::empty(),
    })
    &&& r.msats_received == e.amount_received_msat
    &&& r.sats_received == rounded_div(e.amount_received_msat as int, 1000)
    &&& r.payment_hash@ == e.payment_hash@
    &&& r.preimage@ == crate::util::hex_of(e.preimage@)
}

/// Makes the table row of a paid invoice.
pub fn invoice_row(config: &Config, e: &InvoiceEntry) -> (r: Result<Invoices, FormatError>)
    requires
        e.paid_at is Some,
    ensures
        r matches Ok(row) ==> invoice_row_ok(row, *e, config.locale@),
        r is Err ==> r == Err::<Invoices, FormatError>(FormatError::DateTime) && datetime_fails(
            config.locale@,
            e.paid_at->0,
        ),
{
    let paid_at = match e.paid_at {
        Some(p) => p,
        None => 0,
    };
    let paid_at_str = timestamp_to_localized_datetime_string(config, paid_at)?;
    let description = match &e.description {
        Some(d) => d.clone(),
        None => String::new(),
    };
    Ok(Invoices {
        paid_at,
        paid_at_str,
        label: e.label.clone(),
        description,
        msats_received: e.amount_received_msat,
        sats_received: rounded_div_u64(e.amount_received_msat, 1000),
        payment_hash: e.payment_hash.clone(),
        preimage: crate::util::hex_encode(e.preimage.as_slice()),
    })
}

/// What collecting invoices has gathered so far.
#[derive(Debug)]
pub struct InvoicesAccumulator {
    pub oldest_updated: u64,
    pub cutoff_timestamp: u64,
    pub rows: Vec<(u64, Invoices)>,
    pub filtered: Vec<u64>,
}

/// The state of collecting invoices, with the entries that rows were added for.
pub struct InvoicesModel {
    pub oldest: u64,
    pub keys: Set<u64>,
    pub added: Map<u64, InvoiceEntry>,
    pub filtered: Set<u64>,
    pub amount_received: Option<u64>,
    pub stats: InvoicesFilterStats,
}

/// One invoice taken into account: one that is not paid, has no index or payment time, or
/// whose index was seen, changes nothing; otherwise the oldest time is updated, and an
/// invoice paid at or after the cut-off adds to the total received and goes to the rows, or
/// where its amount is at most the filter amount, to the filter statistics.
pub open spec fn invoice_step(m: InvoicesModel, e: InvoiceEntry, cutoff: u64, filter: Option<u64>) -> InvoicesModel {
    if !e.paid {
        m
    } else {
        match (e.updated_index, e.paid_at) {
            (Some(k), Some(p)) => if m.keys.contains(k) || m.filtered.contains(k) {
                m
            } else {
                let m1 = if p <= m.oldest {
                    InvoicesModel { oldest: p, ..m }
                } else {
                    m
                };
                if p >= cutoff {
                    let total = accumulated(m1.amount_received, e.amount_received_msat);
                    if filter matches Some(f) && e.amount_received_msat <= f {
                        InvoicesModel {
                            amount_received: total,
                            stats: InvoicesFilterStats {
                                filter_count: m1.stats.filter_count.wrapping_add(1),
                                filter_amt_sum_msat: m1.stats.filter_amt_sum_msat.wrapping_add(
                                    e.amount_received_msat,
                                ),
                            },
                            filtered: m1.filtered.insert(k),
                            ..m1
                        }
                    } else {
                        InvoicesModel {
                            amount_received: total,
                            keys: m1.keys.insert(k),
                            added: m1.added.insert(k, e),
                            ..m1
                        }
                    }
                } else {
                    m1
                }
            },
            _ => m,
        }
    }
}

/// The invoices of a batch taken into account from the last to the first.
pub open spec fn invoice_fold(m: InvoicesModel, s: Seq<InvoiceEntry>, cutoff: u64, filter: Option<u64>) -> InvoicesModel
    decreases s.len(),
{
    if s.len() == 0 {
        m
    } else {
        invoice_step(invoice_fold(m, s.drop_first(), cutoff, filter), s[0], cutoff, filter)
    }
}

/// The model that an invoices accumulator starts a batch from.
pub open spec fn invoices_start(
    acc: InvoicesAccumulator,
    amount_received: Option<u64>,
    stats: InvoicesFilterStats,
) -> InvoicesModel {
    InvoicesModel {
        oldest: acc.oldest_updated,
        keys: keys_of(acc.rows@),
        added: Map::empty(),
        filtered: acc.filtered@.to_set(),
        amount_received,
        stats,
    }
}

/// The accumulator, total and statistics are those of the model (see `forwards_holds`).
pub open spec fn invoices_holds(
    acc: InvoicesAccumulator,
    amount_received: Option<u64>,
    stats: InvoicesFilterStats,
    m: InvoicesModel,
    before: Seq<(u64, Invoices)>,
    cutoff: u64,
    locale: Seq<char>,
) -> bool {
    &&& acc.oldest_updated == m.oldest
    &&& acc.cutoff_timestamp == cutoff
    &&& keys_of(acc.rows@) == m.keys
    &&& keys_unique(acc.rows@)
    &&& acc.filtered@.to_set() == m.filtered
    &&& amount_received == m.amount_received
    &&& stats == m.stats
    &&& before.len() <= acc.rows@.len()
    &&& forall|i: int| 0 <= i < before.len() ==> acc.rows@[i] == #[trigger] before[i]
    &&& forall|i: int|
        before.len() <= i < acc.rows@.len() ==> m.added.contains_key(#[trigger] acc.rows@[i].0)
            && invoice_row_ok(acc.rows@[i].1, m.added[acc.rows@[i].0], locale)
}

/// The invoice at `i` of a batch is made into a row, with its payment time formatted, when the
/// batch is taken in from the last to the first: it is paid, it has an index not seen before
/// it (among the rows and the filtered) and a payment time, and it was paid at or after the
/// cut-off. The filter comes after the row is made.
pub open spec fn invoice_formatted(
    m0: InvoicesModel,
    s: Seq<InvoiceEntry>,
    i: int,
    cutoff: u64,
    filter: Option<u64>,
) -> bool {
    let m = invoice_fold(m0, s.subrange(i + 1, s.len() as int), cutoff, filter);
    &&& s[i].paid
    &&& s[i].updated_index matches Some(k) && !m.keys.contains(k) && !m.filtered.contains(k)
    &&& s[i].paid_at matches Some(p) && p >= cutoff
}

/// Takes a batch of invoices into the accumulator, from the last to the first (see
/// `invoice_step`), with the filter amount of the settings; `amount_received` is the total
/// received. It fails only where the payment time of an invoice made into a row cannot be
/// formatted; a batch with no such invoice is always taken in.
pub fn build_invoices_table(
    acc: &mut InvoicesAccumulator,
    invoices: &Vec<InvoiceEntry>,
    amount_received: &mut Option<u64>,
    stats: &mut InvoicesFilterStats,
    config: &Config,
) -> (r: Result<(), FormatError>)
    requires
        keys_unique(old(acc).rows@),
    ensures
        r is Ok ==> invoices_holds(
            *final(acc),
            *final(amount_received),
            *final(stats),
            invoice_fold(
                invoices_start(*old(acc), *old(amount_received), *old(stats)),
                invoices@,
                old(acc).cutoff_timestamp,
                config.invoices_filter_amt_msat,
            ),
            old(acc).rows@,
            old(acc).cutoff_timestamp,
            config.locale@,
        ),
        (forall|i: int|
            0 <= i < invoices@.len() ==> !#[trigger] invoice_formatted(
                invoices_start(*old(acc), *old(amount_received), *old(stats)),
                invoices@,
                i,
                old(acc).cutoff_timestamp,
                config.invoices_filter_amt_msat,
            )) ==> r is Ok,
        r is Err ==> r == Err::<(), FormatError>(FormatError::DateTime) && exists|i: int|
            0 <= i < invoices@.len() && #[trigger] invoice_formatted(
                invoices_start(*old(acc), *old(amount_received), *old(stats)),
                invoices@,
                i,
                old(acc).cutoff_timestamp,
                config.invoices_filter_amt_msat,
            ) && datetime_fails(config.locale@, invoices@[i].paid_at->0),
{
    let ghost s = invoices@;
    let ghost m0 = invoices_start(*acc, *amount_received, *stats);
    let ghost before = acc.rows@;
    let ghost cutoff = acc.cutoff_timestamp;
    let ghost filter = config.invoices_filter_amt_msat;
    let n = invoices.len();
    let mut i: usize = n;
    proof {
        assert(s.subrange(n as int, n as int) =~= Seq::<InvoiceEntry>::empty());
    }
    while i > 0
        invariant
            n == s.len(),
            s == invoices@,
            i <= n,
            cutoff == old(acc).cutoff_timestamp,
            filter == config.invoices_filter_amt_msat,
            before == old(acc).rows@,
            m0 == invoices_start(*old(acc), *old(amount_received), *old(stats)),
            invoices_holds(
                *acc,
                *amount_received,
                *stats,
                invoice_fold(m0, s.subrange(i as int, n as int), cutoff, filter),
                before,
                cutoff,
                config.locale@,
            ),
        decreases i,
    {
        i = i - 1;
        let ghost m = invoice_fold(m0, s.subrange(i + 1, n as int), cutoff, filter);
        let ghost rows0 = acc.rows@;
        proof {
            assert(s.subrange(i as int, n as int).drop_first() =~= s.subrange(i + 1, n as int));
            assert(s.subrange(i as int, n as int)[0] == s[i as int]);
        }
        let e = &invoices[i];
        if e.paid {
            if let (Some(k), Some(p)) = (e.updated_index, e.paid_at) {
                if !has_key(&acc.rows, k) && !contains_u64(&acc.filtered, k) {
                    if p <= acc.oldest_updated {
                        acc.oldest_updated = p;
                    }
                    if p >= acc.cutoff_timestamp {
                        let row = match invoice_row(config, e) {
                            Ok(row) => row,
                            Err(err) => {
                                proof {
                                    assert(invoice_formatted(m0, s, i as int, cutoff, filter));
                                }
                                return Err(err);
                            },
                        };
                        accumulate_msat(amount_received, e.amount_received_msat);
                        let mut filtered = false;
                        if let Some(f) = config.invoices_filter_amt_msat {
                            if e.amount_received_msat <= f {
                                filtered = true;
                            }
                        }
                        if filtered {
                            stats.filter_count = stats.filter_count.wrapping_add(1);
                            stats.filter_amt_sum_msat = stats.filter_amt_sum_msat.wrapping_add(
                                e.amount_received_msat,
                            );
                            proof {
                                acc.filtered@.lemma_push_to_set_commute(k);
                            }
                            acc.filtered.push(k);
                        } else {
                            proof {
                                lemma_keys_push(rows0, (k, row));
                            }
                            acc.rows.push((k, row));
                            proof {
                                assert forall|a: int, b: int| 0 <= a < b < acc.rows@.len() implies #[trigger] acc.rows@[a].0
                                    != #[trigger] acc.rows@[b].0 by {
                                    if b == rows0.len() {
                                        assert(rows0.map_values(|q: (u64, Invoices)| q.0)[a] == rows0[a].0);
                                    }
                                }
                            }
                        }
                    }
                }
            }
        }
        proof {
            assert(invoice_fold(m0, s.subrange(i as int, n as int), cutoff, filter) == invoice_step(m, s[i as int], cutoff, filter));
            let m2 = invoice_step(m, s[i as int], cutoff, filter);
            assert forall|j: int|
                before.len() <= j < acc.rows@.len() implies m2.added.contains_key(#[trigger] acc.rows@[j].0)
                    && invoice_row_ok(acc.rows@[j].1, m2.added[acc.rows@[j].0], config.locale@) by {
                if j < rows0.len() {
                    assert(acc.rows@[j] == rows0[j]);
                    assert(m.added.contains_key(rows0[j].0));
                    assert(rows0.map_values(|q: (u64, Invoices)| q.0)[j] == rows0[j].0);
                    assert(keys_of(rows0).contains(rows0[j].0));
                }
            }
        }
    }
    proof {
        assert(s.subrange(0, n as int) =~= s);
    }
    Ok(())
}

/// `(paid_at, row)` for each row, to sort by.
pub open spec fn by_paid(s: Seq<Invoices>) -> Seq<(u64, Invoices)> {
    s.map_values(|p: Invoices| (p.paid_at, p))
}

fn pair_by_paid(v: Vec<Invoices>) -> (r: Vec<(u64, Invoices)>)
    ensures
        r@ == by_paid(v@),
{
    let ghost v0 = v@;
    let mut v = v;
    let mut out: Vec<(u64, Invoices)> = Vec::new();
    let ghost mut i: int = 0;
    while v.len() > 0
        invariant
            0 <= i <= v0.len(),
            v@ == v0.subrange(i, v0.len() as int),
            out@ == by_paid(v0.take(i)),
        decreases v@.len(),
    {
        let p = v.remove(0);
        let t = p.paid_at;
        out.push((t, p));
        proof {
            assert(v@ =~= v0.subrange(i + 1, v0.len() as int));
            assert(out@ =~= by_paid(v0.take(i + 1)));
            i = i + 1;
        }
    }
    proof {
        assert(v0.take(i) =~= v0);
    }
    out
}

/// The invoices shown: the rows in index order, only the last `limit` of them where a limit
/// is set, then ordered by payment time (rows paid at the same time keep their order).
pub open spec fn invoices_shown(rows: Seq<(u64, Invoices)>, limit: usize) -> Seq<Invoices> {
    values_of(stable_sort(by_paid(keep_last(values_of(stable_sort(rows)), limit))))
}

/// The invoices to show, from the collected rows (see `invoices_shown`).
pub fn limit_and_sort_invoices_data(rows: Vec<(u64, Invoices)>, limit: usize) -> (r: Vec<Invoices>)
    ensures
        r@ == invoices_shown(rows@, limit),
        keys_unique(rows@) && limit > 0 && rows@.len() > limit ==> r@.len() == limit,
        keys_unique(rows@) && limit > 0 && rows@.len() > limit ==> forall|i: int|
            0 <= i < r@.len() ==> among_newest(rows@, limit, #[trigger] r@[i]),
        keys_unique(rows@) && limit > 0 && rows@.len() > limit ==> forall|q: int|
            0 <= q < rows@.len() && count_above(rows@, (#[trigger] rows@[q]).0) < limit ==> r@.contains(
                rows@[q].1,
            ),
{
    proof {
        if keys_unique(rows@) && limit > 0 && rows@.len() > limit {
            lemma_invoices_shown_newest(rows@, limit);
        }
    }
    let by_index = into_values(sort_by_key(rows));
    let kept = take_last(by_index, limit);
    into_values(sort_by_key(pair_by_paid(kept)))
}


/// The forwards shown are at most as many as the limit, where one is set, and are ordered by
/// resolution time.
pub proof fn lemma_forwards_shown(rows: Seq<(u64, Forwards)>, limit: usize)
    ensures
        forwards_shown(rows, limit).len() == (if limit > 0 && rows.len() > limit {
            limit as int
        } else {
            rows.len() as int
        }),
        forall|i: int, j: int|
            0 <= i < j < forwards_shown(rows, limit).len() ==> (#[trigger] forwards_shown(rows, limit)[i]).resolved_time
                <= (#[trigger] forwards_shown(rows, limit)[j]).resolved_time,
{
    let key = |f: Forwards| f.resolved_time;
    crate::order::lemma_shown_rows(rows, limit, key);
    assert(by_resolved(keep_last(values_of(stable_sort(rows)), limit)) =~= keep_last(
        values_of(stable_sort(rows)),
        limit,
    ).map_values(|r: Forwards| (key(r), r)));
}

/// The payments shown are at most as many as the limit, where one is set, and are ordered
/// by completion time.
pub proof fn lemma_pays_shown(rows: Seq<(u64, Pays)>, limit: usize)
    ensures
        pays_shown(rows, limit).len() == (if limit > 0 && rows.len() > limit {
            limit as int
        } else {
            rows.len() as int
        }),
        forall|i: int, j: int|
            0 <= i < j < pays_shown(rows, limit).len() ==> (#[trigger] pays_shown(rows, limit)[i]).completed_at
                <= (#[trigger] pays_shown(rows, limit)[j]).completed_at,
{
    let key = |p: Pays| p.completed_at;
    crate::order::lemma_shown_rows(rows, limit, key);
    assert(by_completed(keep_last(values_of(stable_sort(rows)), limit)) =~= keep_last(
        values_of(stable_sort(rows)),
        limit,
    ).map_values(|r: Pays| (key(r), r)));
}

/// The invoices shown are at most as many as the limit, where one is set, and are ordered by
/// payment time.
pub proof fn lemma_invoices_shown(rows: Seq<(u64, Invoices)>, limit: usize)
    ensures
        invoices_shown(rows, limit).len() == (if limit > 0 && rows.len() > limit {
            limit as int
        } else {
            rows.len() as int
        }),
        forall|i: int, j: int|
            0 <= i < j < invoices_shown(rows, limit).len() ==> (#[trigger] invoices_shown(rows, limit)[i]).paid_at
                <= (#[trigger] invoices_shown(rows, limit)[j]).paid_at,
{
    let key = |p: Invoices| p.paid_at;
    crate::order::lemma_shown_rows(rows, limit, key);
    assert(by_paid(keep_last(values_of(stable_sort(rows)), limit)) =~= keep_last(
        values_of(stable_sort(rows)),
        limit,
    ).map_values(|r: Invoices| (key(r), r)));
}

/// Taking forwards into account never puts an index both among the rows and among the
/// filtered ones, and never drops an index once seen.
pub proof fn lemma_forward_fold_disjoint(
    m: ForwardsModel,
    s: Seq<ForwardEntry>,
    cutoff: u64,
    amt: Option<u64>,
    fee: Option<u64>,
)
    requires
        m.keys.disjoint(m.filtered),
    ensures
        forward_fold(m, s, cutoff, amt, fee).keys.disjoint(forward_fold(m, s, cutoff, amt, fee).filtered),
        m.keys.subset_of(forward_fold(m, s, cutoff, amt, fee).keys),
        m.filtered.subset_of(forward_fold(m, s, cutoff, amt, fee).filtered),
    decreases s.len(),
{
    if s.len() > 0 {
        lemma_forward_fold_disjoint(m, s.drop_first(), cutoff, amt, fee);
    }
}

/// Taking payments into account never puts an index both among the rows and among the
/// filtered ones, and never drops an index once seen.
pub proof fn lemma_pay_fold_disjoint(m: PaysModel, s: Seq<PayEntry>, cutoff: u64, my_id: Seq<char>)
    requires
        m.keys.disjoint(m.filtered),
    ensures
        pay_fold(m, s, cutoff, my_id).keys.disjoint(pay_fold(m, s, cutoff, my_id).filtered),
        m.keys.subset_of(pay_fold(m, s, cutoff, my_id).keys),
        m.filtered.subset_of(pay_fold(m, s, cutoff, my_id).filtered),
    decreases s.len(),
{
    if s.len() > 0 {
        lemma_pay_fold_disjoint(m, s.drop_first(), cutoff, my_id);
    }
}

/// Taking invoices into account never puts an index both among the rows and among the
/// filtered ones, and never drops an index once seen.
pub proof fn lemma_invoice_fold_disjoint(
    m: InvoicesModel,
    s: Seq<InvoiceEntry>,
    cutoff: u64,
    filter: Option<u64>,
)
    requires
        m.keys.disjoint(m.filtered),
    ensures
        invoice_fold(m, s, cutoff, filter).keys.disjoint(invoice_fold(m, s, cutoff, filter).filtered),
        m.keys.subset_of(invoice_fold(m, s, cutoff, filter).keys),
        m.filtered.subset_of(invoice_fold(m, s, cutoff, filter).filtered),
    decreases s.len(),
{
    if s.len() > 0 {
        lemma_invoice_fold_disjoint(m, s.drop_first(), cutoff, filter);
    }
}


/// The description of a BOLT11 invoice as `lightning_invoice` decodes it (its text, or the
/// hash of a description given out of band); `None` where the invoice does not decode.
pub uninterp spec fn bolt11_description_of(invoice: Seq<char>) -> Option<Seq<char>>;

/// `lightning_invoice::Bolt11Invoice::from_str`, then the invoice's `description()` as text.
/// The result is named by `bolt11_description_of`.
#[verifier::external_body]
fn bolt11_description(invoice: &str) -> (r: Option<String>)
    ensures
        r matches Some(d) ==> bolt11_description_of(invoice@) == Some(d@),
        r is None ==> bolt11_description_of(invoice@) is None,
{
    let inv = <lightning_invoice::Bolt11Invoice as std::str::FromStr>::from_str(invoice).ok()?;
    Some(inv.description().to_string())
}

/// The descriptions of payments are wanted where the description column is shown or the
/// output is JSON.
pub fn descriptions_wanted(config: &Config) -> (r: bool)
    ensures
        r == (config.pays_columns@.contains(crate::columns::PaysColumns::description) || config.json),
{
    let mut found = false;
    let mut i: usize = 0;
    while i < config.pays_columns.len()
        invariant
            i <= config.pays_columns@.len(),
            found == exists|k: int| 0 <= k < i && config.pays_columns@[k] == crate::columns::PaysColumns::description,
        decreases config.pays_columns@.len() - i,
    {
        if config.pays_columns[i] == crate::columns::PaysColumns::description {
            found = true;
        }
        i = i + 1;
    }
    proof {
        if found {
            let k = choose|k: int| 0 <= k < i && config.pays_columns@[k] == crate::columns::PaysColumns::description;
            assert(config.pays_columns@.contains(config.pays_columns@[k]));
        }
    }
    found || config.json
}

/// What a payment's description becomes once BOLT11 invoices are decoded: the decoded
/// description for a BOLT11 one (none where it does not decode), as it was otherwise.
pub open spec fn decoded_description(p: Pays) -> Option<Seq<char>> {
    if p.description_status == DescriptionStatus::Bolt11 {
        match p.description {
            Some(inv) => bolt11_description_of(inv@),
            None => None,
        }
    } else {
        match p.description {
            Some(d) => Some(d@),
            None => None,
        }
    }
}

/// Decodes the descriptions of the payments whose description is a BOLT11 invoice; the
/// other payments are left as they are (BOLT12 strings are decoded by the node).
pub fn decode_bolt11_descriptions(pays: &mut Vec<Pays>)
    ensures
        final(pays)@.len() == old(pays)@.len(),
        forall|k: int| 0 <= k < final(pays)@.len() ==> {
            let p = #[trigger] final(pays)@[k];
            let q = old(pays)@[k];
            &&& (match decoded_description(q) {
                Some(d) => p.description matches Some(x) && x@ == d,
                None => p.description is None,
            })
            &&& p.description_status == q.description_status
            &&& p.completed_at == q.completed_at
            &&& p.completed_at_str == q.completed_at_str
            &&& p.payment_hash == q.payment_hash
            &&& p.msats_requested == q.msats_requested
            &&& p.sats_requested == q.sats_requested
            &&& p.msats_sent == q.msats_sent
            &&& p.sats_sent == q.sats_sent
            &&& p.fee_msats == q.fee_msats
            &&& p.fee_sats == q.fee_sats
            &&& p.destination == q.destination
            &&& p.preimage == q.preimage
        },
{
    let ghost p0 = pays@;
    let n = pays.len();
    let mut out: Vec<Pays> = Vec::new();
    let mut i: usize = 0;
    while pays.len() > 0
        invariant
            n == p0.len(),
            i + pays@.len() == n,
            pays@ == p0.subrange(i as int, n as int),
            out@.len() == i,
            forall|k: int| 0 <= k < i ==> {
                let p = #[trigger] out@[k];
                let q = p0[k];
                &&& (match decoded_description(q) {
                    Some(d) => p.description matches Some(x) && x@ == d,
                    None => p.description is None,
                })
                &&& p.description_status == q.description_status
                &&& p.completed_at == q.completed_at
                &&& p.completed_at_str == q.completed_at_str
                &&& p.payment_hash == q.payment_hash
                &&& p.msats_requested == q.msats_requested
                &&& p.sats_requested == q.sats_requested
                &&& p.msats_sent == q.msats_sent
                &&& p.sats_sent == q.sats_sent
                &&& p.fee_msats == q.fee_msats
                &&& p.fee_sats == q.fee_sats
                &&& p.destination == q.destination
                &&& p.preimage == q.preimage
            },
        decreases pays@.len(),
    {
        let mut p = pays.remove(0);
        proof {
            assert(p == p0[i as int]);
            assert(pays@ =~= p0.subrange(i + 1, n as int));
        }
        if p.description_status == DescriptionStatus::Bolt11 {
            let d = match &p.description {
                Some(inv) => bolt11_description(inv.as_str()),
                None => None,
            };
            p.description = d;
        }
        out.push(p);
        i = i + 1;
    }
    *pays = out;
}


/// The cut-off time of a flow table: `hours` before `now` (both in seconds since the epoch).
pub fn flow_cutoff(now: u64, hours: u64) -> (r: u64)
    requires
        hours * 3600 <= now,
    ensures
        r == now - hours * 3600,
{
    now - hours * 3600
}

impl ForwardsAccumulator {
    /// Whether paging goes on: the oldest forward seen is not older than the cut-off, so
    /// older pages may still hold forwards within it.
    pub fn pages_remain(&self) -> (r: bool)
        ensures
            r == (self.oldest_updated >= self.index_timestamp),
    {
        self.oldest_updated >= self.index_timestamp
    }
}

impl PaysAccumulator {
    /// Whether paging goes on: the oldest payment seen is not older than the cut-off, so
    /// older pages may still hold payments within it.
    pub fn pages_remain(&self) -> (r: bool)
        ensures
            r == (self.oldest_updated >= self.cutoff_timestamp),
    {
        self.oldest_updated >= self.cutoff_timestamp
    }
}

impl InvoicesAccumulator {
    /// Whether paging goes on: the oldest invoice seen is not older than the cut-off, so
    /// older pages may still hold invoices within it.
    pub fn pages_remain(&self) -> (r: bool)
        ensures
            r == (self.oldest_updated >= self.cutoff_timestamp),
    {
        self.oldest_updated >= self.cutoff_timestamp
    }
}

/// A forward taken in (its index not seen before, resolved after the cut-off) whose incoming
/// amount is at most the amount filter, or whose fee is at most the fee filter, does not
/// become a row: its index joins the filtered ones, and its incoming amount and fee go to the
/// filter statistics, one more forward counted there. One that passes both filters becomes a
/// row under its index and leaves the filter statistics as they were. Either way its amounts
/// go to the totals.
pub proof fn lemma_forward_step_filters(
    m: ForwardsModel,
    e: ForwardEntry,
    cutoff: u64,
    amt: Option<u64>,
    fee: Option<u64>,
)
    requires
        e.updated_index is Some,
        !m.keys.contains(e.updated_index->0),
        !m.filtered.contains(e.updated_index->0),
        resolved_secs(e) > cutoff,
    ensures
        ({
            let n = forward_step(m, e, cutoff, amt, fee);
            let k = e.updated_index->0;
            &&& n.totals.amount_in_msat == Some(
                match m.totals.amount_in_msat {
                    Some(t) => t.wrapping_add(e.in_msat),
                    None => e.in_msat,
                },
            )
            &&& ((amt matches Some(f) && e.in_msat <= f) || (fee matches Some(f) && e.fee_msat <= f)) ==> {
                &&& n.filtered == m.filtered.insert(k)
                &&& n.keys == m.keys
                &&& n.added == m.added
                &&& n.stats.amt_sum_msat == m.stats.amt_sum_msat.wrapping_add(e.in_msat)
                &&& n.stats.fee_sum_msat == m.stats.fee_sum_msat.wrapping_add(e.fee_msat)
                &&& n.stats.count == m.stats.count.wrapping_add(1)
            }
            &&& !((amt matches Some(f) && e.in_msat <= f) || (fee matches Some(f) && e.fee_msat <= f)) ==> {
                &&& n.keys == m.keys.insert(k)
                &&& n.added == m.added.insert(k, e)
                &&& n.filtered == m.filtered
                &&& n.stats == m.stats
            }
        }),
{
}

/// An index among the filtered ones and not among the rows stays so, whatever forwards are
/// taken in after.
pub proof fn lemma_forward_fold_keeps_filtered(
    m: ForwardsModel,
    s: Seq<ForwardEntry>,
    cutoff: u64,
    amt: Option<u64>,
    fee: Option<u64>,
    k: u64,
)
    requires
        m.filtered.contains(k),
        !m.keys.contains(k),
    ensures
        forward_fold(m, s, cutoff, amt, fee).filtered.contains(k),
        !forward_fold(m, s, cutoff, amt, fee).keys.contains(k),
    decreases s.len(),
{
    if s.len() > 0 {
        lemma_forward_fold_keeps_filtered(m, s.drop_first(), cutoff, amt, fee, k);
    }
}

/// Taking in `a + b` from the last to the first is taking in `b`, then `a`.
pub proof fn lemma_forward_fold_append(
    m: ForwardsModel,
    a: Seq<ForwardEntry>,
    b: Seq<ForwardEntry>,
    cutoff: u64,
    amt: Option<u64>,
    fee: Option<u64>,
)
    ensures
        forward_fold(m, a + b, cutoff, amt, fee) == forward_fold(forward_fold(m, b, cutoff, amt, fee), a, cutoff, amt, fee),
    decreases a.len(),
{
    if a.len() == 0 {
        assert(a + b =~= b);
    } else {
        lemma_forward_fold_append(m, a.drop_first(), b, cutoff, amt, fee);
        assert((a + b).drop_first() =~= a.drop_first() + b);
        assert((a + b)[0] == a[0]);
    }
}

/// In a batch of forwards taken in, one that is made into a row (see `forward_formatted`) but
/// whose incoming amount is at most the amount filter, or whose fee is at most the fee filter,
/// ends among the filtered indexes and never among the rows.
pub proof fn lemma_forward_fold_filtered_out(
    m0: ForwardsModel,
    s: Seq<ForwardEntry>,
    i: int,
    cutoff: u64,
    amt: Option<u64>,
    fee: Option<u64>,
)
    requires
        0 <= i < s.len(),
        forward_formatted(m0, s, i, cutoff, amt, fee),
        (amt matches Some(f) && s[i].in_msat <= f) || (fee matches Some(f) && s[i].fee_msat <= f),
    ensures
        forward_fold(m0, s, cutoff, amt, fee).filtered.contains(s[i].updated_index->0),
        !forward_fold(m0, s, cutoff, amt, fee).keys.contains(s[i].updated_index->0),
{
    let n = s.len() as int;
    let m = forward_fold(m0, s.subrange(i + 1, n), cutoff, amt, fee);
    assert(s.subrange(i, n).drop_first() =~= s.subrange(i + 1, n));
    assert(s.subrange(i, n)[0] == s[i]);
    let mi = forward_fold(m0, s.subrange(i, n), cutoff, amt, fee);
    assert(mi == forward_step(m, s[i], cutoff, amt, fee));
    lemma_forward_step_filters(m, s[i], cutoff, amt, fee);
    lemma_forward_fold_append(m0, s.subrange(0, i), s.subrange(i, n), cutoff, amt, fee);
    assert(s.subrange(0, i) + s.subrange(i, n) =~= s);
    lemma_forward_fold_keeps_filtered(mi, s.subrange(0, i), cutoff, amt, fee, s[i].updated_index->0);
}

/// A paid invoice taken in (its index not seen before, paid at or after the cut-off) whose
/// received amount is at most the amount filter does not become a row: its index joins the
/// filtered ones and its amount goes to the filter statistics, one more invoice counted there.
/// One above the filter (or with no filter set) becomes a row under its index. Either way its
/// amount goes to the total received.
pub proof fn lemma_invoice_step_filter(m: InvoicesModel, e: InvoiceEntry, cutoff: u64, filter: Option<u64>)
    requires
        e.paid,
        e.updated_index is Some,
        e.paid_at is Some,
        !m.keys.contains(e.updated_index->0),
        !m.filtered.contains(e.updated_index->0),
        e.paid_at->0 >= cutoff,
    ensures
        ({
            let n = invoice_step(m, e, cutoff, filter);
            let k = e.updated_index->0;
            &&& n.amount_received == Some(
                match m.amount_received {
                    Some(t) => t.wrapping_add(e.amount_received_msat),
                    None => e.amount_received_msat,
                },
            )
            &&& (filter matches Some(f) && e.amount_received_msat <= f) ==> {
                &&& n.filtered == m.filtered.insert(k)
                &&& n.keys == m.keys
                &&& n.stats.filter_count == m.stats.filter_count.wrapping_add(1)
                &&& n.stats.filter_amt_sum_msat == m.stats.filter_amt_sum_msat.wrapping_add(e.amount_received_msat)
            }
            &&& !(filter matches Some(f) && e.amount_received_msat <= f) ==> {
                &&& n.keys == m.keys.insert(k)
                &&& n.added == m.added.insert(k, e)
                &&& n.filtered == m.filtered
                &&& n.stats == m.stats
            }
        }),
{
}

/// A completed payment taken in (its index not seen before, completed after the cut-off, with
/// an amount sent) to this node itself does not become a row: its index joins the filtered
/// ones and it is counted among the self-payments. One to another node becomes a row under
/// its index and is counted among the payments.
pub proof fn lemma_pay_step_self(m: PaysModel, e: PayEntry, cutoff: u64, my_id: Seq<char>)
    requires
        e.updated_index is Some,
        e.completed_at is Some,
        e.amount_sent_msat is Some,
        !m.keys.contains(e.updated_index->0),
        !m.filtered.contains(e.updated_index->0),
        e.completed_at->0 > cutoff,
    ensures
        ({
            let n = pay_step(m, e, cutoff, my_id);
            let k = e.updated_index->0;
            &&& (e.destination matches Some(d) && d@ == my_id) ==> {
                &&& n.filtered == m.filtered.insert(k)
                &&& n.keys == m.keys
                &&& n.totals.self_count == m.totals.self_count.wrapping_add(1)
                &&& n.totals.count == m.totals.count
            }
            &&& !(e.destination matches Some(d) && d@ == my_id) ==> {
                &&& n.keys == m.keys.insert(k)
                &&& n.added == m.added.insert(k, e)
                &&& n.filtered == m.filtered
                &&& n.totals.count == m.totals.count.wrapping_add(1)
                &&& n.totals.self_count == m.totals.self_count
            }
        }),
{
}


/// Where a limit is set and there are more forwards than it, the forwards shown are exactly those
/// with the `limit` largest indexes (indexes being distinct), whatever order they come in:
/// `limit` of them, each one with fewer than `limit` indexes above its own, and each such one
/// among them.
pub proof fn lemma_forwards_shown_newest(rows: Seq<(u64, Forwards)>, limit: usize)
    requires
        keys_unique(rows),
        limit > 0,
        rows.len() > limit,
    ensures
        forwards_shown(rows, limit).len() == limit,
        forall|i: int| 0 <= i < limit ==> among_newest(rows, limit, #[trigger] forwards_shown(rows, limit)[i]),
        forall|q: int|
            0 <= q < rows.len() && count_above(rows, (#[trigger] rows[q]).0) < limit ==> forwards_shown(
                rows,
                limit,
            ).contains(rows[q].1),
{
    let key = |x: Forwards| x.resolved_time;
    crate::order::lemma_shown_newest(rows, limit, key);
    assert(by_resolved(keep_last(values_of(stable_sort(rows)), limit)) =~= keep_last(
        values_of(stable_sort(rows)),
        limit,
    ).map_values(|x: Forwards| (key(x), x)));
}

/// Where a limit is set and there are more payments than it, the payments shown are exactly those
/// with the `limit` largest indexes (indexes being distinct), whatever order they come in:
/// `limit` of them, each one with fewer than `limit` indexes above its own, and each such one
/// among them.
pub proof fn lemma_pays_shown_newest(rows: Seq<(u64, Pays)>, limit: usize)
    requires
        keys_unique(rows),
        limit > 0,
        rows.len() > limit,
    ensures
        pays_shown(rows, limit).len() == limit,
        forall|i: int| 0 <= i < limit ==> among_newest(rows, limit, #[trigger] pays_shown(rows, limit)[i]),
        forall|q: int|
            0 <= q < rows.len() && count_above(rows, (#[trigger] rows[q]).0) < limit ==> pays_shown(
                rows,
                limit,
            ).contains(rows[q].1),
{
    let key = |x: Pays| x.completed_at;
    crate::order::lemma_shown_newest(rows, limit, key);
    assert(by_completed(keep_last(values_of(stable_sort(rows)), limit)) =~= keep_last(
        values_of(stable_sort(rows)),
        limit,
    ).map_values(|x: Pays| (key(x), x)));
}

/// Where a limit is set and there are more invoices than it, the invoices shown are exactly those
/// with the `limit` largest indexes (indexes being distinct), whatever order they come in:
/// `limit` of them, each one with fewer than `limit` indexes above its own, and each such one
/// among them.
pub proof fn lemma_invoices_shown_newest(rows: Seq<(u64, Invoices)>, limit: usize)
    requires
        keys_unique(rows),
        limit > 0,
        rows.len() > limit,
    ensures
        invoices_shown(rows, limit).len() == limit,
        forall|i: int| 0 <= i < limit ==> among_newest(rows, limit, #[trigger] invoices_shown(rows, limit)[i]),
        forall|q: int|
            0 <= q < rows.len() && count_above(rows, (#[trigger] rows[q]).0) < limit ==> invoices_shown(
                rows,
                limit,
            ).contains(rows[q].1),
{
    let key = |x: Invoices| x.paid_at;
    crate::order::lemma_shown_newest(rows, limit, key);
    assert(by_paid(keep_last(values_of(stable_sort(rows)), limit)) =~= keep_last(
        values_of(stable_sort(rows)),
        limit,
    ).map_values(|x: Invoices| (key(x), x)));
}

} // verus!
