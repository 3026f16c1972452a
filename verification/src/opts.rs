use vstd::prelude::*;

use crate::error::ConfigError;
use crate::strutil::{str_eq, string_from_chars, str_chars};

verus! {

/// The plugin's options, each set under its own key.
#[derive(Debug, Clone, Copy, PartialEq, Eq, Hash, Structural)]
pub enum Opt {
    Columns,
    ClosedChannels,
    ClosedChannelsColumns,
    SortBy,
    ExcludeChannelStates,
    Forwards,
    ForwardsLimit,
    ForwardsColumns,
    ForwardsFilterAmt,
    ForwardsFilterFee,
    Pays,
    PaysLimit,
    PaysColumns,
    MaxDescLength,
    Invoices,
    InvoicesLimit,
    InvoicesColumns,
    MaxLabelLength,
    InvoicesFilterAmt,
    Locale,
    RefreshAlias,
    MaxAliasLength,
    AvailabilityInterval,
    AvailabilityWindow,
    Utf8,
    Style,
    FlowStyle,
    Json,
}

/// The key under which an option is set.
pub open spec fn opt_key(o: Opt) -> Seq<char> {
    match o {
        Opt::Columns => "summars-columns"@,
        Opt::ClosedChannels => "summars-closed-channels"@,
        Opt::ClosedChannelsColumns => "summars-closed-channels-columns"@,
        Opt::SortBy => "summars-sort-by"@,
        Opt::ExcludeChannelStates => "summars-exclude-states"@,
        Opt::Forwards => "summars-forwards"@,
        Opt::ForwardsLimit => "summars-forwards-limit"@,
        Opt::ForwardsColumns => "summars-forwards-columns"@,
        Opt::ForwardsFilterAmt => "summars-forwards-filter-amount-msat"@,
        Opt::ForwardsFilterFee => "summars-forwards-filter-fee-msat"@,
        Opt::Pays => "summars-pays"@,
        Opt::PaysLimit => "summars-pays-limit"@,
        Opt::PaysColumns => "summars-pays-columns"@,
        Opt::MaxDescLength => "summars-max-description-length"@,
        Opt::Invoices => "summars-invoices"@,
        Opt::InvoicesLimit => "summars-invoices-limit"@,
        Opt::InvoicesColumns => "summars-invoices-columns"@,
        Opt::MaxLabelLength => "summars-max-label-length"@,
        Opt::InvoicesFilterAmt => "summars-invoices-filter-amount-msat"@,
        Opt::Locale => "summars-locale"@,
        Opt::RefreshAlias => "summars-refresh-alias"@,
        Opt::MaxAliasLength => "summars-max-alias-length"@,
        Opt::AvailabilityInterval => "summars-availability-interval"@,
        Opt::AvailabilityWindow => "summars-availability-window"@,
        Opt::Utf8 => "summars-utf8"@,
        Opt::Style => "summars-style"@,
        Opt::FlowStyle => "summars-flow-style"@,
        Opt::Json => "summars-json"@,
    }
}

/// Every option, in declaration order.
pub open spec fn all_opts() -> Seq<Opt> {
    seq![
        Opt::Columns,
        Opt::ClosedChannels,
        Opt::ClosedChannelsColumns,
        Opt::SortBy,
        Opt::ExcludeChannelStates,
        Opt::Forwards,
        Opt::ForwardsLimit,
        Opt::ForwardsColumns,
        Opt::ForwardsFilterAmt,
        Opt::ForwardsFilterFee,
        Opt::Pays,
        Opt::PaysLimit,
        Opt::PaysColumns,
        Opt::MaxDescLength,
        Opt::Invoices,
        Opt::InvoicesLimit,
        Opt::InvoicesColumns,
        Opt::MaxLabelLength,
        Opt::InvoicesFilterAmt,
        Opt::Locale,
        Opt::RefreshAlias,
        Opt::MaxAliasLength,
        Opt::AvailabilityInterval,
        Opt::AvailabilityWindow,
        Opt::Utf8,
        Opt::Style,
        Opt::FlowStyle,
        Opt::Json
    ]
}

/// The options that only a long-lasting setting may change.
pub open spec fn opt_is_internal(o: Opt) -> bool {
    o == Opt::RefreshAlias || o == Opt::AvailabilityInterval || o == Opt::AvailabilityWindow
}

impl Opt {
    /// The key of this option.
    pub fn as_key(self) -> (r: &'static str)
        ensures
            r@ == opt_key(self),
    {
        match self {
            Opt::Columns => "summars-columns",
            Opt::ClosedChannels => "summars-closed-channels",
            Opt::ClosedChannelsColumns => "summars-closed-channels-columns",
            Opt::SortBy => "summars-sort-by",
            Opt::ExcludeChannelStates => "summars-exclude-states",
            Opt::Forwards => "summars-forwards",
            Opt::ForwardsLimit => "summars-forwards-limit",
            Opt::ForwardsColumns => "summars-forwards-columns",
            Opt::ForwardsFilterAmt => "summars-forwards-filter-amount-msat",
            Opt::ForwardsFilterFee => "summars-forwards-filter-fee-msat",
            Opt::Pays => "summars-pays",
            Opt::PaysLimit => "summars-pays-limit",
            Opt::PaysColumns => "summars-pays-columns",
            Opt::MaxDescLength => "summars-max-description-length",
            Opt::Invoices => "summars-invoices",
            Opt::InvoicesLimit => "summars-invoices-limit",
            Opt::InvoicesColumns => "summars-invoices-columns",
            Opt::MaxLabelLength => "summars-max-label-length",
            Opt::InvoicesFilterAmt => "summars-invoices-filter-amount-msat",
            Opt::Locale => "summars-locale",
            Opt::RefreshAlias => "summars-refresh-alias",
            Opt::MaxAliasLength => "summars-max-alias-length",
            Opt::AvailabilityInterval => "summars-availability-interval",
            Opt::AvailabilityWindow => "summars-availability-window",
            Opt::Utf8 => "summars-utf8",
            Opt::Style => "summars-style",
            Opt::FlowStyle => "summars-flow-style",
            Opt::Json => "summars-json",
        }
    }

    /// The option whose key is `s`; keys are matched exactly.
    pub fn from_key(s: &str) -> (r: Result<Opt, ConfigError>)
        ensures
            r matches Ok(o) ==> opt_key(o) == s@,
            r is Err <==> forall|o: Opt| opt_key(o) != s@,
            r matches Err(e) ==> (e matches ConfigError::UnknownOption(m) && m@ == s@),
    {
        proof {
            lemma_opt_key_literals();
        }
        if str_eq(s, "summars-columns") {
            Ok(Opt::Columns)
        } else if str_eq(s, "summars-closed-channels") {
            Ok(Opt::ClosedChannels)
        } else if str_eq(s, "summars-closed-channels-columns") {
            Ok(Opt::ClosedChannelsColumns)
        } else if str_eq(s, "summars-sort-by") {
            Ok(Opt::SortBy)
        } else if str_eq(s, "summars-exclude-states") {
            Ok(Opt::ExcludeChannelStates)
        } else if str_eq(s, "summars-forwards") {
            Ok(Opt::Forwards)
        } else if str_eq(s, "summars-forwards-limit") {
            Ok(Opt::ForwardsLimit)
        } else if str_eq(s, "summars-forwards-columns") {
            Ok(Opt::ForwardsColumns)
        } else if str_eq(s, "summars-forwards-filter-amount-msat") {
            Ok(Opt::ForwardsFilterAmt)
        } else if str_eq(s, "summars-forwards-filter-fee-msat") {
            Ok(Opt::ForwardsFilterFee)
        } else if str_eq(s, "summars-pays") {
            Ok(Opt::Pays)
        } else if str_eq(s, "summars-pays-limit") {
            Ok(Opt::PaysLimit)
        } else if str_eq(s, "summars-pays-columns") {
            Ok(Opt::PaysColumns)
        } else if str_eq(s, "summars-max-description-length") {
            Ok(Opt::MaxDescLength)
        } else if str_eq(s, "summars-invoices") {
            Ok(Opt::Invoices)
        } else if str_eq(s, "summars-invoices-limit") {
            Ok(Opt::InvoicesLimit)
        } else if str_eq(s, "summars-invoices-columns") {
            Ok(Opt::InvoicesColumns)
        } else if str_eq(s, "summars-max-label-length") {
            Ok(Opt::MaxLabelLength)
        } else if str_eq(s, "summars-invoices-filter-amount-msat") {
            Ok(Opt::InvoicesFilterAmt)
        } else if str_eq(s, "summars-locale") {
            Ok(Opt::Locale)
        } else if str_eq(s, "summars-refresh-alias") {
            Ok(Opt::RefreshAlias)
        } else if str_eq(s, "summars-max-alias-length") {
            Ok(Opt::MaxAliasLength)
        } else if str_eq(s, "summars-availability-interval") {
            Ok(Opt::AvailabilityInterval)
        } else if str_eq(s, "summars-availability-window") {
            Ok(Opt::AvailabilityWindow)
        } else if str_eq(s, "summars-utf8") {
            Ok(Opt::Utf8)
        } else if str_eq(s, "summars-style") {
            Ok(Opt::Style)
        } else if str_eq(s, "summars-flow-style") {
            Ok(Opt::FlowStyle)
        } else if str_eq(s, "summars-json") {
            Ok(Opt::Json)
        } else {
            proof {
                assert forall|o: Opt| opt_key(o) != s@ by {
                    lemma_opt_key_literals();
                }
            }
            let cs = str_chars(s);
            Err(ConfigError::UnknownOption(string_from_chars(cs.as_slice())))
        }
    }

    /// Every option, in declaration order.
    pub fn iter() -> (r: Vec<Opt>)
        ensures
            r@ == all_opts(),
    {
        let mut v: Vec<Opt> = Vec::new();
        v.push(Opt::Columns);
        v.push(Opt::ClosedChannels);
        v.push(Opt::ClosedChannelsColumns);
        v.push(Opt::SortBy);
        v.push(Opt::ExcludeChannelStates);
        v.push(Opt::Forwards);
        v.push(Opt::ForwardsLimit);
        v.push(Opt::ForwardsColumns);
        v.push(Opt::ForwardsFilterAmt);
        v.push(Opt::ForwardsFilterFee);
        v.push(Opt::Pays);
        v.push(Opt::PaysLimit);
        v.push(Opt::PaysColumns);
        v.push(Opt::MaxDescLength);
        v.push(Opt::Invoices);
        v.push(Opt::InvoicesLimit);
        v.push(Opt::InvoicesColumns);
        v.push(Opt::MaxLabelLength);
        v.push(Opt::InvoicesFilterAmt);
        v.push(Opt::Locale);
        v.push(Opt::RefreshAlias);
        v.push(Opt::MaxAliasLength);
        v.push(Opt::AvailabilityInterval);
        v.push(Opt::AvailabilityWindow);
        v.push(Opt::Utf8);
        v.push(Opt::Style);
        v.push(Opt::FlowStyle);
        v.push(Opt::Json);
        proof {
            assert(v@ =~= all_opts());
        }
        v
    }

    /// Whether this option is only meant for a long-lasting setting.
    pub fn is_internal(self) -> (r: bool)
        ensures
            r == opt_is_internal(self),
    {
        matches!(self, Opt::RefreshAlias | Opt::AvailabilityInterval | Opt::AvailabilityWindow)
    }
}

proof fn lemma_opt_key_literals()
    ensures
        opt_key(Opt::Columns) == "summars-columns"@,
        opt_key(Opt::ClosedChannels) == "summars-closed-channels"@,
        opt_key(Opt::ClosedChannelsColumns) == "summars-closed-channels-columns"@,
        opt_key(Opt::SortBy) == "summars-sort-by"@,
        opt_key(Opt::ExcludeChannelStates) == "summars-exclude-states"@,
        opt_key(Opt::Forwards) == "summars-forwards"@,
        opt_key(Opt::ForwardsLimit) == "summars-forwards-limit"@,
        opt_key(Opt::ForwardsColumns) == "summars-forwards-columns"@,
        opt_key(Opt::ForwardsFilterAmt) == "summars-forwards-filter-amount-msat"@,
        opt_key(Opt::ForwardsFilterFee) == "summars-forwards-filter-fee-msat"@,
        opt_key(Opt::Pays) == "summars-pays"@,
        opt_key(Opt::PaysLimit) == "summars-pays-limit"@,
        opt_key(Opt::PaysColumns) == "summars-pays-columns"@,
        opt_key(Opt::MaxDescLength) == "summars-max-description-length"@,
        opt_key(Opt::Invoices) == "summars-invoices"@,
        opt_key(Opt::InvoicesLimit) == "summars-invoices-limit"@,
        opt_key(Opt::InvoicesColumns) == "summars-invoices-columns"@,
        opt_key(Opt::MaxLabelLength) == "summars-max-label-length"@,
        opt_key(Opt::InvoicesFilterAmt) == "summars-invoices-filter-amount-msat"@,
        opt_key(Opt::Locale) == "summars-locale"@,
        opt_key(Opt::RefreshAlias) == "summars-refresh-alias"@,
        opt_key(Opt::MaxAliasLength) == "summars-max-alias-length"@,
        opt_key(Opt::AvailabilityInterval) == "summars-availability-interval"@,
        opt_key(Opt::AvailabilityWindow) == "summars-availability-window"@,
        opt_key(Opt::Utf8) == "summars-utf8"@,
        opt_key(Opt::Style) == "summars-style"@,
        opt_key(Opt::FlowStyle) == "summars-flow-style"@,
        opt_key(Opt::Json) == "summars-json"@,
        opt_key(Opt::Columns).len() == 15,
        opt_key(Opt::ClosedChannels).len() == 23,
        opt_key(Opt::ClosedChannelsColumns).len() == 31,
        opt_key(Opt::SortBy).len() == 15,
        opt_key(Opt::ExcludeChannelStates).len() == 22,
        opt_key(Opt::Forwards).len() == 16,
        opt_key(Opt::ForwardsLimit).len() == 22,
        opt_key(Opt::ForwardsColumns).len() == 24,
        opt_key(Opt::ForwardsFilterAmt).len() == 35,
        opt_key(Opt::ForwardsFilterFee).len() == 32,
        opt_key(Opt::Pays).len() == 12,
        opt_key(Opt::PaysLimit).len() == 18,
        opt_key(Opt::PaysColumns).len() == 20,
        opt_key(Opt::MaxDescLength).len() == 30,
        opt_key(Opt::Invoices).len() == 16,
        opt_key(Opt::InvoicesLimit).len() == 22,
        opt_key(Opt::InvoicesColumns).len() == 24,
        opt_key(Opt::MaxLabelLength).len() == 24,
        opt_key(Opt::InvoicesFilterAmt).len() == 35,
        opt_key(Opt::Locale).len() == 14,
        opt_key(Opt::RefreshAlias).len() == 21,
        opt_key(Opt::MaxAliasLength).len() == 24,
        opt_key(Opt::AvailabilityInterval).len() == 29,
        opt_key(Opt::AvailabilityWindow).len() == 27,
        opt_key(Opt::Utf8).len() == 12,
        opt_key(Opt::Style).len() == 13,
        opt_key(Opt::FlowStyle).len() == 18,
        opt_key(Opt::Json).len() == 12,
{
    reveal_strlit("summars-columns");
    reveal_strlit("summars-closed-channels");
    reveal_strlit("summars-closed-channels-columns");
    reveal_strlit("summars-sort-by");
    reveal_strlit("summars-exclude-states");
    reveal_strlit("summars-forwards");
    reveal_strlit("summars-forwards-limit");
    reveal_strlit("summars-forwards-columns");
    reveal_strlit("summars-forwards-filter-amount-msat");
    reveal_strlit("summars-forwards-filter-fee-msat");
    reveal_strlit("summars-pays");
    reveal_strlit("summars-pays-limit");
    reveal_strlit("summars-pays-columns");
    reveal_strlit("summars-max-description-length");
    reveal_strlit("summars-invoices");
    reveal_strlit("summars-invoices-limit");
    reveal_strlit("summars-invoices-columns");
    reveal_strlit("summars-max-label-length");
    reveal_strlit("summars-invoices-filter-amount-msat");
    reveal_strlit("summars-locale");
    reveal_strlit("summars-refresh-alias");
    reveal_strlit("summars-max-alias-length");
    reveal_strlit("summars-availability-interval");
    reveal_strlit("summars-availability-window");
    reveal_strlit("summars-utf8");
    reveal_strlit("summars-style");
    reveal_strlit("summars-flow-style");
    reveal_strlit("summars-json");
    assert("summars-columns"@.len() == 15);
    assert("summars-closed-channels"@.len() == 23);
    assert("summars-closed-channels-columns"@.len() == 31);
    assert("summars-sort-by"@.len() == 15);
    assert("summars-exclude-states"@.len() == 22);
    assert("summars-forwards"@.len() == 16);
    assert("summars-forwards-limit"@.len() == 22);
    assert("summars-forwards-columns"@.len() == 24);
    assert("summars-forwards-filter-amount-msat"@.len() == 35);
    assert("summars-forwards-filter-fee-msat"@.len() == 32);
    assert("summars-pays"@.len() == 12);
    assert("summars-pays-limit"@.len() == 18);
    assert("summars-pays-columns"@.len() == 20);
    assert("summars-max-description-length"@.len() == 30);
    assert("summars-invoices"@.len() == 16);
    assert("summars-invoices-limit"@.len() == 22);
    assert("summars-invoices-columns"@.len() == 24);
    assert("summars-max-label-length"@.len() == 24);
    assert("summars-invoices-filter-amount-msat"@.len() == 35);
    assert("summars-locale"@.len() == 14);
    assert("summars-refresh-alias"@.len() == 21);
    assert("summars-max-alias-length"@.len() == 24);
    assert("summars-availability-interval"@.len() == 29);
    assert("summars-availability-window"@.len() == 27);
    assert("summars-utf8"@.len() == 12);
    assert("summars-style"@.len() == 13);
    assert("summars-flow-style"@.len() == 18);
    assert("summars-json"@.len() == 12);
    assert("summars-columns"@[8] == 'c');
    assert("summars-exclude-states"@[8] == 'e');
    assert("summars-flow-style"@[8] == 'f');
    assert("summars-forwards"@[8] == 'f');
    assert("summars-forwards-columns"@[8] == 'f');
    assert("summars-forwards-filter-amount-msat"@[8] == 'f');
    assert("summars-forwards-limit"@[8] == 'f');
    assert("summars-invoices"@[8] == 'i');
    assert("summars-invoices-columns"@[8] == 'i');
    assert("summars-invoices-filter-amount-msat"@[8] == 'i');
    assert("summars-invoices-limit"@[8] == 'i');
    assert("summars-json"@[8] == 'j');
    assert("summars-max-alias-length"@[8] == 'm');
    assert("summars-max-alias-length"@[12] == 'a');
    assert("summars-max-label-length"@[8] == 'm');
    assert("summars-max-label-length"@[12] == 'l');
    assert("summars-pays"@[8] == 'p');
    assert("summars-pays-limit"@[8] == 'p');
    assert("summars-sort-by"@[8] == 's');
    assert("summars-utf8"@[8] == 'u');
}

/// No two options share a key.
pub proof fn lemma_opt_key_injective(a: Opt, b: Opt)
    ensures
        opt_key(a) == opt_key(b) ==> a == b,
{
    reveal_strlit("summars-columns");
    reveal_strlit("summars-closed-channels");
    reveal_strlit("summars-closed-channels-columns");
    reveal_strlit("summars-sort-by");
    reveal_strlit("summars-exclude-states");
    reveal_strlit("summars-forwards");
    reveal_strlit("summars-forwards-limit");
    reveal_strlit("summars-forwards-columns");
    reveal_strlit("summars-forwards-filter-amount-msat");
    reveal_strlit("summars-forwards-filter-fee-msat");
    reveal_strlit("summars-pays");
    reveal_strlit("summars-pays-limit");
    reveal_strlit("summars-pays-columns");
    reveal_strlit("summars-max-description-length");
    reveal_strlit("summars-invoices");
    reveal_strlit("summars-invoices-limit");
    reveal_strlit("summars-invoices-columns");
    reveal_strlit("summars-max-label-length");
    reveal_strlit("summars-invoices-filter-amount-msat");
    reveal_strlit("summars-locale");
    reveal_strlit("summars-refresh-alias");
    reveal_strlit("summars-max-alias-length");
    reveal_strlit("summars-availability-interval");
    reveal_strlit("summars-availability-window");
    reveal_strlit("summars-utf8");
    reveal_strlit("summars-style");
    reveal_strlit("summars-flow-style");
    reveal_strlit("summars-json");
    assert("summars-columns"@.len() == 15);
    assert("summars-closed-channels"@.len() == 23);
    assert("summars-closed-channels-columns"@.len() == 31);
    assert("summars-sort-by"@.len() == 15);
    assert("summars-exclude-states"@.len() == 22);
    assert("summars-forwards"@.len() == 16);
    assert("summars-forwards-limit"@.len() == 22);
    assert("summars-forwards-columns"@.len() == 24);
    assert("summars-forwards-filter-amount-msat"@.len() == 35);
    assert("summars-forwards-filter-fee-msat"@.len() == 32);
    assert("summars-pays"@.len() == 12);
    assert("summars-pays-limit"@.len() == 18);
    assert("summars-pays-columns"@.len() == 20);
    assert("summars-max-description-length"@.len() == 30);
    assert("summars-invoices"@.len() == 16);
    assert("summars-invoices-limit"@.len() == 22);
    assert("summars-invoices-columns"@.len() == 24);
    assert("summars-max-label-length"@.len() == 24);
    assert("summars-invoices-filter-amount-msat"@.len() == 35);
    assert("summars-locale"@.len() == 14);
    assert("summars-refresh-alias"@.len() == 21);
    assert("summars-max-alias-length"@.len() == 24);
    assert("summars-availability-interval"@.len() == 29);
    assert("summars-availability-window"@.len() == 27);
    assert("summars-utf8"@.len() == 12);
    assert("summars-style"@.len() == 13);
    assert("summars-flow-style"@.len() == 18);
    assert("summars-json"@.len() == 12);
    assert("summars-columns"@[8] == 'c');
    assert("summars-exclude-states"@[8] == 'e');
    assert("summars-flow-style"@[8] == 'f');
    assert("summars-forwards"@[8] == 'f');
    assert("summars-forwards-columns"@[8] == 'f');
    assert("summars-forwards-filter-amount-msat"@[8] == 'f');
    assert("summars-forwards-limit"@[8] == 'f');
    assert("summars-invoices"@[8] == 'i');
    assert("summars-invoices-columns"@[8] == 'i');
    assert("summars-invoices-filter-amount-msat"@[8] == 'i');
    assert("summars-invoices-limit"@[8] == 'i');
    assert("summars-json"@[8] == 'j');
    assert("summars-max-alias-length"@[8] == 'm');
    assert("summars-max-alias-length"@[12] == 'a');
    assert("summars-max-label-length"@[8] == 'm');
    assert("summars-max-label-length"@[12] == 'l');
    assert("summars-pays"@[8] == 'p');
    assert("summars-pays-limit"@[8] == 'p');
    assert("summars-sort-by"@[8] == 's');
    assert("summars-utf8"@[8] == 'u');
}

/// Every option occurs in `all_opts`, once.
pub proof fn lemma_all_opts_complete(o: Opt)
    ensures
        all_opts().contains(o),
        forall|i: int, j: int|
            0 <= i < j < all_opts().len() ==> all_opts()[i] != all_opts()[j],
{
    match o {
        Opt::Columns => assert(all_opts()[0] == o),
        Opt::ClosedChannels => assert(all_opts()[1] == o),
        Opt::ClosedChannelsColumns => assert(all_opts()[2] == o),
        Opt::SortBy => assert(all_opts()[3] == o),
        Opt::ExcludeChannelStates => assert(all_opts()[4] == o),
        Opt::Forwards => assert(all_opts()[5] == o),
        Opt::ForwardsLimit => assert(all_opts()[6] == o),
        Opt::ForwardsColumns => assert(all_opts()[7] == o),
        Opt::ForwardsFilterAmt => assert(all_opts()[8] == o),
        Opt::ForwardsFilterFee => assert(all_opts()[9] == o),
        Opt::Pays => assert(all_opts()[10] == o),
        Opt::PaysLimit => assert(all_opts()[11] == o),
        Opt::PaysColumns => assert(all_opts()[12] == o),
        Opt::MaxDescLength => assert(all_opts()[13] == o),
        Opt::Invoices => assert(all_opts()[14] == o),
        Opt::InvoicesLimit => assert(all_opts()[15] == o),
        Opt::InvoicesColumns => assert(all_opts()[16] == o),
        Opt::MaxLabelLength => assert(all_opts()[17] == o),
        Opt::InvoicesFilterAmt => assert(all_opts()[18] == o),
        Opt::Locale => assert(all_opts()[19] == o),
        Opt::RefreshAlias => assert(all_opts()[20] == o),
        Opt::MaxAliasLength => assert(all_opts()[21] == o),
        Opt::AvailabilityInterval => assert(all_opts()[22] == o),
        Opt::AvailabilityWindow => assert(all_opts()[23] == o),
        Opt::Utf8 => assert(all_opts()[24] == o),
        Opt::Style => assert(all_opts()[25] == o),
        Opt::FlowStyle => assert(all_opts()[26] == o),
        Opt::Json => assert(all_opts()[27] == o),
    }
}

} // verus!
