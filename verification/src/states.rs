use vstd::prelude::*;

use crate::error::ConfigError;
use crate::strutil::{ascii_lower, str_chars, str_eq, string_from_chars};

verus! {

/// The Unicode lowercase mapping of a string, as `str::to_lowercase` computes it.
pub uninterp spec fn unicode_lower(s: Seq<char>) -> Seq<char>;

/// `str::to_lowercase`: the Unicode lowercase of `s`; on ASCII text it is the ASCII lowercase.
#[verifier::external_body]
pub(crate) fn to_lowercase(s: &str) -> (r: String)
    ensures
        r@ == unicode_lower(s@),
        vstd::utf8::is_ascii_chars(s@) ==> r@ == ascii_lower(s@),
{
    s.to_lowercase()
}

/// The states a channel can be in.
#[allow(non_camel_case_types)]
#[derive(Debug, Clone, Copy, PartialEq, Eq, Hash, Structural)]
pub enum ChannelState {
    OPENINGD,
    CHANNELD_AWAITING_LOCKIN,
    CHANNELD_NORMAL,
    CHANNELD_SHUTTING_DOWN,
    CLOSINGD_SIGEXCHANGE,
    CLOSINGD_COMPLETE,
    AWAITING_UNILATERAL,
    FUNDING_SPEND_SEEN,
    ONCHAIN,
    DUALOPEND_OPEN_INIT,
    DUALOPEND_OPEN_COMMITTED,
    DUALOPEND_OPEN_COMMIT_READY,
    DUALOPEND_AWAITING_LOCKIN,
    CHANNELD_AWAITING_SPLICE,
}

/// A channel state as the tables show it.
#[derive(Debug, Clone, Copy, PartialEq, Eq, Structural)]
pub struct ShortChannelState(pub ChannelState);

/// The short name under which a state is shown.
pub open spec fn state_short_name(s: ChannelState) -> Seq<char> {
    match s {
        ChannelState::OPENINGD => "OPENING"@,
        ChannelState::CHANNELD_AWAITING_LOCKIN => "AWAIT_LOCK"@,
        ChannelState::CHANNELD_NORMAL => "OK"@,
        ChannelState::CHANNELD_SHUTTING_DOWN => "SHUTTING_DOWN"@,
        ChannelState::CLOSINGD_SIGEXCHANGE => "CLOSINGD_SIGEX"@,
        ChannelState::CLOSINGD_COMPLETE => "CLOSINGD_DONE"@,
        ChannelState::AWAITING_UNILATERAL => "AWAIT_UNILATERAL"@,
        ChannelState::FUNDING_SPEND_SEEN => "FUNDING_SPEND"@,
        ChannelState::ONCHAIN => "ONCHAIN"@,
        ChannelState::DUALOPEND_OPEN_INIT => "DUAL_OPEN"@,
        ChannelState::DUALOPEND_OPEN_COMMITTED => "DUAL_COMITTED"@,
        ChannelState::DUALOPEND_OPEN_COMMIT_READY => "DUAL_COMMIT_RDY"@,
        ChannelState::DUALOPEND_AWAITING_LOCKIN => "DUAL_AWAIT"@,
        ChannelState::CHANNELD_AWAITING_SPLICE => "AWAIT_SPLICE"@,
    }
}

/// The lowercase short name that parsing accepts for a state.
pub open spec fn state_lower_name(s: ChannelState) -> Seq<char> {
    match s {
        ChannelState::OPENINGD => "opening"@,
        ChannelState::CHANNELD_AWAITING_LOCKIN => "await_lock"@,
        ChannelState::CHANNELD_NORMAL => "ok"@,
        ChannelState::CHANNELD_SHUTTING_DOWN => "shutting_down"@,
        ChannelState::CLOSINGD_SIGEXCHANGE => "closingd_sigex"@,
        ChannelState::CLOSINGD_COMPLETE => "closingd_done"@,
        ChannelState::AWAITING_UNILATERAL => "await_unilateral"@,
        ChannelState::FUNDING_SPEND_SEEN => "funding_spend"@,
        ChannelState::ONCHAIN => "onchain"@,
        ChannelState::DUALOPEND_OPEN_INIT => "dual_open"@,
        ChannelState::DUALOPEND_OPEN_COMMITTED => "dual_comitted"@,
        ChannelState::DUALOPEND_OPEN_COMMIT_READY => "dual_commit_rdy"@,
        ChannelState::DUALOPEND_AWAITING_LOCKIN => "dual_await"@,
        ChannelState::CHANNELD_AWAITING_SPLICE => "await_splice"@,
    }
}

pub proof fn lemma_state_names()
    ensures
        forall|a: ChannelState, b: ChannelState|
            a != b ==> state_lower_name(a) != state_lower_name(b),
        forall|a: ChannelState|
            #![trigger state_short_name(a)]
            vstd::utf8::is_ascii_chars(state_short_name(a)) && ascii_lower(state_short_name(a))
                == state_lower_name(a),
{
    reveal_strlit("OPENING");
    reveal_strlit("AWAIT_LOCK");
    reveal_strlit("OK");
    reveal_strlit("SHUTTING_DOWN");
    reveal_strlit("CLOSINGD_SIGEX");
    reveal_strlit("CLOSINGD_DONE");
    reveal_strlit("AWAIT_UNILATERAL");
    reveal_strlit("FUNDING_SPEND");
    reveal_strlit("ONCHAIN");
    reveal_strlit("DUAL_OPEN");
    reveal_strlit("DUAL_COMITTED");
    reveal_strlit("DUAL_COMMIT_RDY");
    reveal_strlit("DUAL_AWAIT");
    reveal_strlit("AWAIT_SPLICE");
    reveal_strlit("opening");
    reveal_strlit("await_lock");
    reveal_strlit("ok");
    reveal_strlit("shutting_down");
    reveal_strlit("closingd_sigex");
    reveal_strlit("closingd_done");
    reveal_strlit("await_unilateral");
    reveal_strlit("funding_spend");
    reveal_strlit("onchain");
    reveal_strlit("dual_open");
    reveal_strlit("dual_comitted");
    reveal_strlit("dual_commit_rdy");
    reveal_strlit("dual_await");
    reveal_strlit("await_splice");
    assert("OPENING"@.len() == 7);
    assert("AWAIT_LOCK"@.len() == 10);
    assert("OK"@.len() == 2);
    assert("SHUTTING_DOWN"@.len() == 13);
    assert("CLOSINGD_SIGEX"@.len() == 14);
    assert("CLOSINGD_DONE"@.len() == 13);
    assert("AWAIT_UNILATERAL"@.len() == 16);
    assert("FUNDING_SPEND"@.len() == 13);
    assert("ONCHAIN"@.len() == 7);
    assert("DUAL_OPEN"@.len() == 9);
    assert("DUAL_COMITTED"@.len() == 13);
    assert("DUAL_COMMIT_RDY"@.len() == 15);
    assert("DUAL_AWAIT"@.len() == 10);
    assert("AWAIT_SPLICE"@.len() == 12);
    assert("opening"@.len() == 7);
    assert("await_lock"@.len() == 10);
    assert("ok"@.len() == 2);
    assert("shutting_down"@.len() == 13);
    assert("closingd_sigex"@.len() == 14);
    assert("closingd_done"@.len() == 13);
    assert("await_unilateral"@.len() == 16);
    assert("funding_spend"@.len() == 13);
    assert("onchain"@.len() == 7);
    assert("dual_open"@.len() == 9);
    assert("dual_comitted"@.len() == 13);
    assert("dual_commit_rdy"@.len() == 15);
    assert("dual_await"@.len() == 10);
    assert("await_splice"@.len() == 12);
    assert("AWAIT_LOCK"@[0] == 'A');
    assert("AWAIT_SPLICE"@[0] == 'A');
    assert("AWAIT_UNILATERAL"@[0] == 'A');
    assert("CLOSINGD_DONE"@[0] == 'C');
    assert("CLOSINGD_SIGEX"@[0] == 'C');
    assert("DUAL_AWAIT"@[0] == 'D');
    assert("DUAL_COMITTED"@[0] == 'D');
    assert("DUAL_COMMIT_RDY"@[0] == 'D');
    assert("DUAL_OPEN"@[0] == 'D');
    assert("FUNDING_SPEND"@[0] == 'F');
    assert("OK"@[0] == 'O');
    assert("ONCHAIN"@[0] == 'O');
    assert("ONCHAIN"@[1] == 'N');
    assert("OPENING"@[0] == 'O');
    assert("OPENING"@[1] == 'P');
    assert("SHUTTING_DOWN"@[0] == 'S');
    assert("await_lock"@[0] == 'a');
    assert("await_splice"@[0] == 'a');
    assert("await_unilateral"@[0] == 'a');
    assert("closingd_done"@[0] == 'c');
    assert("closingd_sigex"@[0] == 'c');
    assert("dual_await"@[0] == 'd');
    assert("dual_comitted"@[0] == 'd');
    assert("dual_commit_rdy"@[0] == 'd');
    assert("dual_open"@[0] == 'd');
    assert("funding_spend"@[0] == 'f');
    assert("ok"@[0] == 'o');
    assert("onchain"@[0] == 'o');
    assert("onchain"@[1] == 'n');
    assert("opening"@[0] == 'o');
    assert("opening"@[1] == 'p');
    assert("shutting_down"@[0] == 's');
    assert forall|a: ChannelState|
        #![trigger state_short_name(a)]
        vstd::utf8::is_ascii_chars(state_short_name(a)) && ascii_lower(state_short_name(a))
            == state_lower_name(a) by {
        assert(ascii_lower(state_short_name(a)) =~= state_lower_name(a));
    }
}

impl ShortChannelState {
    /// The short name of the state.
    pub fn to_string(&self) -> (r: String)
        ensures
            r@ == state_short_name(self.0),
    {
        let s: &str = match self.0 {
            ChannelState::OPENINGD => "OPENING",
            ChannelState::CHANNELD_AWAITING_LOCKIN => "AWAIT_LOCK",
            ChannelState::CHANNELD_NORMAL => "OK",
            ChannelState::CHANNELD_SHUTTING_DOWN => "SHUTTING_DOWN",
            ChannelState::CLOSINGD_SIGEXCHANGE => "CLOSINGD_SIGEX",
            ChannelState::CLOSINGD_COMPLETE => "CLOSINGD_DONE",
            ChannelState::AWAITING_UNILATERAL => "AWAIT_UNILATERAL",
            ChannelState::FUNDING_SPEND_SEEN => "FUNDING_SPEND",
            ChannelState::ONCHAIN => "ONCHAIN",
            ChannelState::DUALOPEND_OPEN_INIT => "DUAL_OPEN",
            ChannelState::DUALOPEND_OPEN_COMMITTED => "DUAL_COMITTED",
            ChannelState::DUALOPEND_OPEN_COMMIT_READY => "DUAL_COMMIT_RDY",
            ChannelState::DUALOPEND_AWAITING_LOCKIN => "DUAL_AWAIT",
            ChannelState::CHANNELD_AWAITING_SPLICE => "AWAIT_SPLICE",
        };
        let cs = str_chars(s);
        string_from_chars(cs.as_slice())
    }

    /// The state whose short name is `s`, compared after Unicode lowercasing.
    pub fn parse(s: &str) -> (r: Result<ShortChannelState, ConfigError>)
        ensures
            r matches Ok(st) ==> state_lower_name(st.0) == unicode_lower(s@),
            r is Err <==> forall|c: ChannelState| state_lower_name(c) != unicode_lower(s@),
            r matches Err(e) ==> (e matches ConfigError::InvalidState(m) && m@ == s@),
            vstd::utf8::is_ascii_chars(s@) ==> unicode_lower(s@) == ascii_lower(s@),
    {
        proof {
            lemma_state_lower_literals();
        }
        let l = to_lowercase(s);
        let ls = l.as_str();
        if str_eq(ls, "opening") {
            Ok(ShortChannelState(ChannelState::OPENINGD))
        } else if str_eq(ls, "await_lock") {
            Ok(ShortChannelState(ChannelState::CHANNELD_AWAITING_LOCKIN))
        } else if str_eq(ls, "ok") {
            Ok(ShortChannelState(ChannelState::CHANNELD_NORMAL))
        } else if str_eq(ls, "shutting_down") {
            Ok(ShortChannelState(ChannelState::CHANNELD_SHUTTING_DOWN))
        } else if str_eq(ls, "closingd_sigex") {
            Ok(ShortChannelState(ChannelState::CLOSINGD_SIGEXCHANGE))
        } else if str_eq(ls, "closingd_done") {
            Ok(ShortChannelState(ChannelState::CLOSINGD_COMPLETE))
        } else if str_eq(ls, "await_unilateral") {
            Ok(ShortChannelState(ChannelState::AWAITING_UNILATERAL))
        } else if str_eq(ls, "funding_spend") {
            Ok(ShortChannelState(ChannelState::FUNDING_SPEND_SEEN))
        } else if str_eq(ls, "onchain") {
            Ok(ShortChannelState(ChannelState::ONCHAIN))
        } else if str_eq(ls, "dual_open") {
            Ok(ShortChannelState(ChannelState::DUALOPEND_OPEN_INIT))
        } else if str_eq(ls, "dual_comitted") {
            Ok(ShortChannelState(ChannelState::DUALOPEND_OPEN_COMMITTED))
        } else if str_eq(ls, "dual_commit_rdy") {
            Ok(ShortChannelState(ChannelState::DUALOPEND_OPEN_COMMIT_READY))
        } else if str_eq(ls, "dual_await") {
            Ok(ShortChannelState(ChannelState::DUALOPEND_AWAITING_LOCKIN))
        } else if str_eq(ls, "await_splice") {
            Ok(ShortChannelState(ChannelState::CHANNELD_AWAITING_SPLICE))
        } else {
            let cs = str_chars(s);
            Err(ConfigError::InvalidState(string_from_chars(cs.as_slice())))
        }
    }
}

proof fn lemma_state_lower_literals()
    ensures
        state_lower_name(ChannelState::OPENINGD) == "opening"@,
        state_lower_name(ChannelState::CHANNELD_AWAITING_LOCKIN) == "await_lock"@,
        state_lower_name(ChannelState::CHANNELD_NORMAL) == "ok"@,
        state_lower_name(ChannelState::CHANNELD_SHUTTING_DOWN) == "shutting_down"@,
        state_lower_name(ChannelState::CLOSINGD_SIGEXCHANGE) == "closingd_sigex"@,
        state_lower_name(ChannelState::CLOSINGD_COMPLETE) == "closingd_done"@,
        state_lower_name(ChannelState::AWAITING_UNILATERAL) == "await_unilateral"@,
        state_lower_name(ChannelState::FUNDING_SPEND_SEEN) == "funding_spend"@,
        state_lower_name(ChannelState::ONCHAIN) == "onchain"@,
        state_lower_name(ChannelState::DUALOPEND_OPEN_INIT) == "dual_open"@,
        state_lower_name(ChannelState::DUALOPEND_OPEN_COMMITTED) == "dual_comitted"@,
        state_lower_name(ChannelState::DUALOPEND_OPEN_COMMIT_READY) == "dual_commit_rdy"@,
        state_lower_name(ChannelState::DUALOPEND_AWAITING_LOCKIN) == "dual_await"@,
        state_lower_name(ChannelState::CHANNELD_AWAITING_SPLICE) == "await_splice"@,
{
}

impl std::str::FromStr for ShortChannelState {
    type Err = ConfigError;

    fn from_str(s: &str) -> (r: Result<Self, Self::Err>)
        ensures
            r matches Ok(st) ==> state_lower_name(st.0) == unicode_lower(s@),
            r is Err <==> forall|c: ChannelState| state_lower_name(c) != unicode_lower(s@),
            r matches Err(e) ==> (e matches ConfigError::InvalidState(m) && m@ == s@),
    {
        ShortChannelState::parse(s)
    }
}

/// Parsing the short name of a state gives that state back: the name is ASCII, and the
/// only state whose lowercase name is its lowercase is the state itself.
pub proof fn lemma_state_parse_short_name(st: ChannelState, parsed: ChannelState)
    requires
        state_lower_name(parsed) == ascii_lower(state_short_name(st)),
    ensures
        parsed == st,
        vstd::utf8::is_ascii_chars(state_short_name(st)),
        ascii_lower(state_short_name(st)) == state_lower_name(st),
{
    lemma_state_names();
}

/// The table styles.
#[derive(Debug, Clone, Copy, PartialEq, Eq, Structural)]
pub enum Styles {
    Ascii,
    Modern,
    Sharp,
    Rounded,
    Extended,
    Psql,
    Markdown,
    ReStructuredText,
    Dots,
    AsciiRounded,
    Blank,
    Empty,
}

/// The name of a style.
pub open spec fn style_name(s: Styles) -> Seq<char> {
    match s {
        Styles::Ascii => "ascii"@,
        Styles::Modern => "modern"@,
        Styles::Sharp => "sharp"@,
        Styles::Rounded => "rounded"@,
        Styles::Extended => "extended"@,
        Styles::Psql => "psql"@,
        Styles::Markdown => "markdown"@,
        Styles::ReStructuredText => "re_structured_text"@,
        Styles::Dots => "dots"@,
        Styles::AsciiRounded => "ascii_rounded"@,
        Styles::Blank => "blank"@,
        Styles::Empty => "empty"@,
    }
}

impl Styles {
    /// The name of the style.
    pub fn to_string(&self) -> (r: String)
        ensures
            r@ == style_name(*self),
    {
        let s: &str = match self {
            Styles::Ascii => "ascii",
            Styles::Modern => "modern",
            Styles::Sharp => "sharp",
            Styles::Rounded => "rounded",
            Styles::Extended => "extended",
            Styles::Psql => "psql",
            Styles::Markdown => "markdown",
            Styles::ReStructuredText => "re_structured_text",
            Styles::Dots => "dots",
            Styles::AsciiRounded => "ascii_rounded",
            Styles::Blank => "blank",
            Styles::Empty => "empty",
        };
        let cs = str_chars(s);
        string_from_chars(cs.as_slice())
    }

    /// The style named `s`, compared after Unicode lowercasing.
    pub fn parse(s: &str) -> (r: Result<Styles, ConfigError>)
        ensures
            r matches Ok(st) ==> style_name(st) == unicode_lower(s@),
            r is Err <==> forall|c: Styles| style_name(c) != unicode_lower(s@),
            r matches Err(e) ==> (e matches ConfigError::InvalidStyle(m) && m@ == s@),
            vstd::utf8::is_ascii_chars(s@) ==> unicode_lower(s@) == ascii_lower(s@),
    {
        proof {
            lemma_style_literals();
        }
        let l = to_lowercase(s);
        let ls = l.as_str();
        if str_eq(ls, "ascii") {
            Ok(Styles::Ascii)
        } else if str_eq(ls, "modern") {
            Ok(Styles::Modern)
        } else if str_eq(ls, "sharp") {
            Ok(Styles::Sharp)
        } else if str_eq(ls, "rounded") {
            Ok(Styles::Rounded)
        } else if str_eq(ls, "extended") {
            Ok(Styles::Extended)
        } else if str_eq(ls, "psql") {
            Ok(Styles::Psql)
        } else if str_eq(ls, "markdown") {
            Ok(Styles::Markdown)
        } else if str_eq(ls, "re_structured_text") {
            Ok(Styles::ReStructuredText)
        } else if str_eq(ls, "dots") {
            Ok(Styles::Dots)
        } else if str_eq(ls, "ascii_rounded") {
            Ok(Styles::AsciiRounded)
        } else if str_eq(ls, "blank") {
            Ok(Styles::Blank)
        } else if str_eq(ls, "empty") {
            Ok(Styles::Empty)
        } else {
            let cs = str_chars(s);
            Err(ConfigError::InvalidStyle(string_from_chars(cs.as_slice())))
        }
    }
}

proof fn lemma_style_literals()
    ensures
        style_name(Styles::Ascii) == "ascii"@,
        style_name(Styles::Modern) == "modern"@,
        style_name(Styles::Sharp) == "sharp"@,
        style_name(Styles::Rounded) == "rounded"@,
        style_name(Styles::Extended) == "extended"@,
        style_name(Styles::Psql) == "psql"@,
        style_name(Styles::Markdown) == "markdown"@,
        style_name(Styles::ReStructuredText) == "re_structured_text"@,
        style_name(Styles::Dots) == "dots"@,
        style_name(Styles::AsciiRounded) == "ascii_rounded"@,
        style_name(Styles::Blank) == "blank"@,
        style_name(Styles::Empty) == "empty"@,
{
}

impl std::str::FromStr for Styles {
    type Err = ConfigError;

    fn from_str(s: &str) -> (r: Result<Self, Self::Err>)
        ensures
            r matches Ok(st) ==> style_name(st) == unicode_lower(s@),
            r is Err <==> forall|c: Styles| style_name(c) != unicode_lower(s@),
            r matches Err(e) ==> (e matches ConfigError::InvalidStyle(m) && m@ == s@),
    {
        Styles::parse(s)
    }
}

/// Parsing the name of a style gives that style back: the name is ASCII and lowercase, and
/// no other style has it.
pub proof fn lemma_style_parse_name(st: Styles, parsed: Styles)
    requires
        style_name(parsed) == ascii_lower(style_name(st)),
    ensures
        parsed == st,
        vstd::utf8::is_ascii_chars(style_name(st)),
        ascii_lower(style_name(st)) == style_name(st),
{
    reveal_strlit("ascii");
    reveal_strlit("modern");
    reveal_strlit("sharp");
    reveal_strlit("rounded");
    reveal_strlit("extended");
    reveal_strlit("psql");
    reveal_strlit("markdown");
    reveal_strlit("re_structured_text");
    reveal_strlit("dots");
    reveal_strlit("ascii_rounded");
    reveal_strlit("blank");
    reveal_strlit("empty");
    assert("ascii"@.len() == 5);
    assert("modern"@.len() == 6);
    assert("sharp"@.len() == 5);
    assert("rounded"@.len() == 7);
    assert("extended"@.len() == 8);
    assert("psql"@.len() == 4);
    assert("markdown"@.len() == 8);
    assert("re_structured_text"@.len() == 18);
    assert("dots"@.len() == 4);
    assert("ascii_rounded"@.len() == 13);
    assert("blank"@.len() == 5);
    assert("empty"@.len() == 5);
    assert("ascii"@[0] == 'a');
    assert("blank"@[0] == 'b');
    assert("dots"@[0] == 'd');
    assert("empty"@[0] == 'e');
    assert("extended"@[0] == 'e');
    assert("markdown"@[0] == 'm');
    assert("psql"@[0] == 'p');
    assert("sharp"@[0] == 's');
    assert(vstd::utf8::is_ascii_chars(style_name(st)));
    assert(ascii_lower(style_name(st)) =~= style_name(st));
}

} // verus!
