use vstd::prelude::*;

use crate::numparse::{is_digit, parse_u32, parsed_u32};
use crate::states::ChannelState;
use crate::strutil::{split_by, split_chars, str_chars, string_from_chars};

verus! {

/// The channel is open or about to be: opening, waiting for lock-in, normal, or waiting for a
/// splice.
pub open spec fn active_state(s: ChannelState) -> bool {
    match s {
        ChannelState::OPENINGD | ChannelState::CHANNELD_AWAITING_LOCKIN
        | ChannelState::CHANNELD_NORMAL | ChannelState::DUALOPEND_OPEN_INIT
        | ChannelState::DUALOPEND_AWAITING_LOCKIN | ChannelState::CHANNELD_AWAITING_SPLICE => true,
        _ => false,
    }
}

/// Whether a channel in state `state` counts as active.
pub fn is_active_state(state: ChannelState) -> (r: bool)
    ensures
        r == active_state(state),
{
    matches!(
        state,
        ChannelState::OPENINGD | ChannelState::CHANNELD_AWAITING_LOCKIN
            | ChannelState::CHANNELD_NORMAL | ChannelState::DUALOPEND_OPEN_INIT
            | ChannelState::DUALOPEND_AWAITING_LOCKIN | ChannelState::CHANNELD_AWAITING_SPLICE
    )
}

/// The flag cell of a channel: `P` for private, `O` for offline, `_` otherwise, in brackets.
pub open spec fn channel_flags(private: bool, offline: bool) -> Seq<char> {
    seq!['[', if private { 'P' } else { '_' }, if offline { 'O' } else { '_' }, ']']
}

pub fn make_channel_flags(private: bool, offline: bool) -> (r: String)
    ensures
        r@ == channel_flags(private, offline),
{
    let mut cs: Vec<char> = Vec::new();
    cs.push('[');
    cs.push(if private { 'P' } else { '_' });
    cs.push(if offline { 'O' } else { '_' });
    cs.push(']');
    proof {
        assert(cs@ =~= channel_flags(private, offline));
    }
    string_from_chars(cs.as_slice())
}

/// The lowercase hexadecimal digit for `d` (below 16).
pub open spec fn hex_digit(d: int) -> char {
    if d < 10 {
        (('0' as int) + d) as char
    } else {
        (('a' as int) + d - 10) as char
    }
}

/// Two lowercase hexadecimal digits per byte.
pub open spec fn hex_of(bytes: Seq<u8>) -> Seq<char>
    decreases bytes.len(),
{
    if bytes.len() == 0 {
        Seq::empty()
    } else {
        hex_of(bytes.drop_last()) + seq![
            hex_digit(bytes.last() as int / 16),
            hex_digit(bytes.last() as int % 16),
        ]
    }
}

fn hex_char(d: u8) -> (r: char)
    requires
        d < 16,
    ensures
        r == hex_digit(d as int),
{
    if d < 10 {
        ((48u8 + d) as char)
    } else {
        ((97u8 + d - 10) as char)
    }
}

/// The bytes as lowercase hexadecimal, two digits each.
pub fn hex_encode(bytes: &[u8]) -> (r: String)
    ensures
        r@ == hex_of(bytes@),
{
    let mut cs: Vec<char> = Vec::new();
    let mut i: usize = 0;
    while i < bytes.len()
        invariant
            i <= bytes@.len(),
            cs@ == hex_of(bytes@.take(i as int)),
        decreases bytes@.len() - i,
    {
        let b = bytes[i];
        cs.push(hex_char(b / 16));
        cs.push(hex_char(b % 16));
        proof {
            assert(bytes@.take(i + 1).drop_last() =~= bytes@.take(i as int));
            assert(cs@ =~= hex_of(bytes@.take(i + 1)));
        }
        i = i + 1;
    }
    proof {
        assert(bytes@.take(bytes@.len() as int) =~= bytes@);
    }
    string_from_chars(cs.as_slice())
}

/// Why a version string could not be compared.
#[derive(Debug, Clone, Copy, PartialEq, Eq, Structural)]
pub enum VersionError {
    /// No `v` in the version string.
    MissingV,
    /// The version after the `v` has fewer than two or more than three parts.
    PartCount,
    /// A compared part is not a number.
    InvalidNumber,
}

/// What follows the first occurrence of `c` in `s`.
pub open spec fn after_first(s: Seq<char>, c: char) -> Option<Seq<char>>
    decreases s.len(),
{
    if s.len() == 0 {
        None
    } else if s[0] == c {
        Some(s.drop_first())
    } else {
        after_first(s.drop_first(), c)
    }
}

/// The longest prefix of `s` made of ASCII digits and dots.
pub open spec fn version_prefix(s: Seq<char>) -> Seq<char>
    decreases s.len(),
{
    if s.len() == 0 || !(is_digit(s[0]) || s[0] == '.') {
        Seq::empty()
    } else {
        seq![s[0]] + version_prefix(s.drop_first())
    }
}

/// Compares two versions part by part from part `i` on: the first pair of parts that differ
/// decides; where one version runs out, the one with at least as many parts is at or above.
/// A part that is compared and is not a `u32` makes the comparison fail.
pub open spec fn compare_parts(my: Seq<Seq<char>>, min: Seq<Seq<char>>, i: int) -> Result<
    bool,
    VersionError,
>
    decreases my.len() - i,
{
    if i < 0 || i >= my.len() || i >= min.len() {
        Ok(my.len() >= min.len())
    } else {
        match (parsed_u32(my[i]), parsed_u32(min[i])) {
            (Some(a), Some(b)) => if a != b {
                Ok(a > b)
            } else {
                compare_parts(my, min, i + 1)
            },
            _ => Err(VersionError::InvalidNumber),
        }
    }
}

/// Whether the version in `my` (the part after its first `v`, cut at the first character
/// that is neither a digit nor a dot) is at or above `min`, compared part by part.
pub open spec fn version_at_or_above(my: Seq<char>, min: Seq<char>) -> Result<bool, VersionError> {
    match after_first(my, 'v') {
        None => Err(VersionError::MissingV),
        Some(rest) => {
            let parts = split_by(version_prefix(rest), '.');
            if parts.len() <= 1 || parts.len() > 3 {
                Err(VersionError::PartCount)
            } else {
                compare_parts(parts, split_by(min, '.'), 0)
            }
        },
    }
}

fn chars_after_first(s: &Vec<char>, c: char) -> (r: Option<Vec<char>>)
    ensures
        r is None ==> after_first(s@, c) is None,
        r matches Some(v) ==> after_first(s@, c) == Some(v@),
{
    let mut i: usize = 0;
    proof {
        assert(s@.subrange(0, s@.len() as int) =~= s@);
    }
    while i < s.len()
        invariant
            i <= s@.len(),
            after_first(s@, c) == after_first(s@.subrange(i as int, s@.len() as int), c),
        decreases s@.len() - i,
    {
        let ghost rest = s@.subrange(i as int, s@.len() as int);
        proof {
            assert(rest.drop_first() =~= s@.subrange(i + 1, s@.len() as int));
        }
        if s[i] == c {
            let mut out: Vec<char> = Vec::new();
            let mut j: usize = i + 1;
            while j < s.len()
                invariant
                    i + 1 <= j <= s@.len(),
                    out@ == s@.subrange(i + 1, j as int),
                decreases s@.len() - j,
            {
                out.push(s[j]);
                proof {
                    assert(s@.subrange(i + 1, j + 1) =~= s@.subrange(i + 1, j as int).push(
                        s@[j as int],
                    ));
                }
                j = j + 1;
            }
            return Some(out);
        }
        i = i + 1;
    }
    proof {
        assert(s@.subrange(i as int, s@.len() as int).len() == 0);
    }
    None
}

fn take_version_prefix(s: &Vec<char>) -> (r: Vec<char>)
    ensures
        r@ == version_prefix(s@),
{
    let mut i: usize = 0;
    while i < s.len() && (('0' <= s[i] && s[i] <= '9') || s[i] == '.')
        invariant
            i <= s@.len(),
            forall|k: int| 0 <= k < i ==> is_digit(#[trigger] s@[k]) || s@[k] == '.',
        decreases s@.len() - i,
    {
        i = i + 1;
    }
    let mut out: Vec<char> = Vec::new();
    let mut j: usize = 0;
    while j < i
        invariant
            j <= i <= s@.len(),
            out@ == s@.subrange(0, j as int),
        decreases i - j,
    {
        out.push(s[j]);
        proof {
            assert(s@.subrange(0, j + 1) =~= s@.subrange(0, j as int).push(s@[j as int]));
        }
        j = j + 1;
    }
    proof {
        lemma_version_prefix_at(s@, i as int);
    }
    out
}

proof fn lemma_version_prefix_at(s: Seq<char>, i: int)
    requires
        0 <= i <= s.len(),
        forall|k: int| 0 <= k < i ==> is_digit(#[trigger] s[k]) || s[k] == '.',
        i == s.len() || !(is_digit(s[i]) || s[i] == '.'),
    ensures
        version_prefix(s) == s.subrange(0, i),
    decreases i,
{
    if i == 0 {
        assert(s.subrange(0, 0) =~= Seq::<char>::empty());
    } else {
        let t = s.drop_first();
        assert forall|k: int| 0 <= k < i - 1 implies is_digit(#[trigger] t[k]) || t[k] == '.' by {
            assert(t[k] == s[k + 1]);
        }
        lemma_version_prefix_at(t, i - 1);
        assert(seq![s[0]] + t.subrange(0, i - 1) =~= s.subrange(0, i));
    }
}

/// Whether the version in `my_version` (after its first `v`) is at or above `min_version`,
/// compared part by part as numbers.
pub fn at_or_above_version(my_version: &str, min_version: &str) -> (r: Result<bool, VersionError>)
    ensures
        r == version_at_or_above(my_version@, min_version@),
{
    let my = str_chars(my_version);
    let rest = match chars_after_first(&my, 'v') {
        Some(rest) => rest,
        None => {
            return Err(VersionError::MissingV);
        },
    };
    let clean = take_version_prefix(&rest);
    let my_parts = split_chars(&clean, '.');
    let min = str_chars(min_version);
    let min_parts = split_chars(&min, '.');
    let ghost mp = split_by(clean@, '.');
    let ghost np = split_by(min@, '.');
    if my_parts.len() <= 1 || my_parts.len() > 3 {
        return Err(VersionError::PartCount);
    }
    let mut i: usize = 0;
    while i < my_parts.len() && i < min_parts.len()
        invariant
            my_parts@.len() == mp.len(),
            min_parts@.len() == np.len(),
            forall|k: int| 0 <= k < my_parts@.len() ==> #[trigger] my_parts@[k]@ == mp[k],
            forall|k: int| 0 <= k < min_parts@.len() ==> #[trigger] min_parts@[k]@ == np[k],
            i <= my_parts@.len(),
            compare_parts(mp, np, 0) == compare_parts(mp, np, i as int),
            version_at_or_above(my_version@, min_version@) == compare_parts(mp, np, 0),
        decreases my_parts@.len() - i,
    {
        let a = parse_u32(&my_parts[i]);
        let b = parse_u32(&min_parts[i]);
        match (a, b) {
            (Some(x), Some(y)) => {
                if x != y {
                    return Ok(x > y);
                }
            },
            _ => {
                return Err(VersionError::InvalidNumber);
            },
        }
        i = i + 1;
    }
    Ok(my_parts.len() >= min_parts.len())
}

/// The effective fee rate, in parts per million of the outgoing amount, rounded up; an
/// outgoing amount of zero gives the largest `u32` (or zero when nothing came in either),
/// and rates beyond the range of `u32` are capped at its largest value. The rate is taken
/// exactly, in integers: where it is a whole number (123 msat in, 40 out gives 2075000) it is
/// that number, where a floating-point division, landing just above it, would be rounded up
/// to the next one (2075001).
pub open spec fn fee_ppm(start: u64, end: u64) -> int {
    if end == 0 {
        if start > 0 {
            u32::MAX as int
        } else {
            0
        }
    } else {
        let q = ((start - end) * 1_000_000 + end - 1) / (end as int);
        if q > u32::MAX {
            u32::MAX as int
        } else {
            q
        }
    }
}

/// The fee rate that a forward of `amount_msat_start` in and `amount_msat_end` out earned,
/// taken exactly in integers and rounded up (see `fee_ppm`).
pub fn feeppm_effective_from_amts(amount_msat_start: u64, amount_msat_end: u64) -> (r: u32)
    requires
        amount_msat_start >= amount_msat_end,
    ensures
        r as int == fee_ppm(amount_msat_start, amount_msat_end),
{
    if amount_msat_end == 0 {
        return if amount_msat_start > 0 {
            u32::MAX
        } else {
            0
        };
    }
    let diff: u128 = (amount_msat_start - amount_msat_end) as u128;
    assert(diff * 1_000_000 <= 0xffff_ffff_ffff_ffffu128 * 1_000_000) by (nonlinear_arith)
        requires
            diff <= 0xffff_ffff_ffff_ffffu128,
    ;
    let num: u128 = diff * 1_000_000 + (amount_msat_end as u128) - 1;
    let q: u128 = num / (amount_msat_end as u128);
    if q > 0xffff_ffffu128 {
        u32::MAX
    } else {
        q as u32
    }
}

/// `a / b` rounded to the nearest integer, halves upwards.
pub open spec fn rounded_div(a: int, b: int) -> int {
    (a + b / 2) / b
}

/// Divides with rounding to the nearest integer, halves upwards.
pub fn rounded_div_u64(a: u64, b: u64) -> (r: u64)
    requires
        b > 0,
    ensures
        r as int == rounded_div(a as int, b as int),
{
    let n: u128 = (a as u128) + ((b / 2) as u128);
    let q: u128 = n / (b as u128);
    proof {
        if b == 1 {
            assert(n == a as u128);
            assert((n as int) / 1 == n as int);
        } else {
            assert((n as int) / (b as int) <= (n as int) / 2) by {
                vstd::arithmetic::div_mod::lemma_div_is_ordered_by_denominator(n as int, 2, b as int);
            }
        }
    }
    q as u64
}

/// A control character (general category Cc): U+0000 to U+001F and U+007F to U+009F.
pub open spec fn is_cc(c: char) -> bool {
    c <= '\u{1f}' || ('\u{7f}' <= c && c <= '\u{9f}')
}

/// What a character of a description becomes in a table cell: double quotes become single
/// quotes, backslashes slashes, line breaks and tabs spaces, other control characters `_`.
pub open spec fn escape_char(c: char) -> char {
    if c == '"' {
        '\''
    } else if c == '\\' {
        '/'
    } else if c == '\n' || c == '\t' || c == '\r' {
        ' '
    } else if is_cc(c) {
        '_'
    } else {
        c
    }
}

/// Replaces the characters of `s` that would break a table cell.
pub fn replace_escaping_chars(s: &str) -> (r: String)
    ensures
        r@ == s@.map_values(|c: char| escape_char(c)),
{
    let cs = str_chars(s);
    let mut out: Vec<char> = Vec::new();
    let mut i: usize = 0;
    while i < cs.len()
        invariant
            i <= cs@.len(),
            cs@ == s@,
            out@ == cs@.take(i as int).map_values(|c: char| escape_char(c)),
        decreases cs@.len() - i,
    {
        let c = cs[i];
        let e = if c == '"' {
            '\''
        } else if c == '\\' {
            '/'
        } else if c == '\n' || c == '\t' || c == '\r' {
            ' '
        } else if c <= '\u{1f}' || ('\u{7f}' <= c && c <= '\u{9f}') {
            '_'
        } else {
            c
        };
        out.push(e);
        proof {
            assert(out@ =~= cs@.take(i + 1).map_values(|c: char| escape_char(c)));
        }
        i = i + 1;
    }
    proof {
        assert(cs@.take(cs@.len() as int) =~= cs@);
    }
    string_from_chars(out.as_slice())
}

/// The decimal digits of `n`, without leading zeros.
pub open spec fn decimal(n: nat) -> Seq<char>
    decreases n,
{
    if n < 10 {
        seq![(('0' as int) + n) as char]
    } else {
        decimal(n / 10).push((('0' as int) + n % 10) as char)
    }
}

fn push_decimal(out: &mut Vec<char>, n: u64)
    ensures
        final(out)@ == old(out)@ + decimal(n as nat),
    decreases n,
{
    if n < 10 {
        out.push(((48u8 + (n as u8)) as char));
        proof {
            assert(final(out)@ =~= old(out)@ + decimal(n as nat));
        }
    } else {
        push_decimal(out, n / 10);
        out.push(((48u8 + ((n % 10) as u8)) as char));
        proof {
            assert(final(out)@ =~= old(out)@ + decimal(n as nat));
        }
    }
}

/// The decimal representation of `n`.
pub fn u64_to_decimal(n: u64) -> (r: String)
    ensures
        r@ == decimal(n as nat),
{
    let mut cs: Vec<char> = Vec::new();
    push_decimal(&mut cs, n);
    proof {
        assert(cs@ =~= decimal(n as nat));
    }
    string_from_chars(cs.as_slice())
}


/// The glyphs of the channel graph, one character each.
pub struct GraphGlyphs {
    pub double_left: char,
    pub left: char,
    pub bar: char,
    pub mid: char,
    pub right: char,
    pub double_right: char,
    pub empty: char,
}

/// Box-drawing glyphs, or ASCII ones.
pub open spec fn glyphs(utf8: bool) -> GraphGlyphs {
    if utf8 {
        GraphGlyphs {
            double_left: '╟',
            left: '├',
            bar: '─',
            mid: '┼',
            right: '┤',
            double_right: '╢',
            empty: '║',
        }
    } else {
        GraphGlyphs {
            double_left: '#',
            left: '[',
            bar: '-',
            mid: '+',
            right: ']',
            double_right: '#',
            empty: '|',
        }
    }
}

/// The charset holds the glyphs `g`.
pub open spec fn charset_is(cs: GraphCharset, g: GraphGlyphs) -> bool {
    &&& cs.double_left@ == seq![g.double_left]
    &&& cs.left@ == seq![g.left]
    &&& cs.bar@ == seq![g.bar]
    &&& cs.mid@ == seq![g.mid]
    &&& cs.right@ == seq![g.right]
    &&& cs.double_right@ == seq![g.double_right]
    &&& cs.empty@ == seq![g.empty]
}

/// The characters that the channel graph is drawn with.
pub struct GraphCharset {
    pub double_left: String,
    pub left: String,
    pub bar: String,
    pub mid: String,
    pub right: String,
    pub double_right: String,
    pub empty: String,
}

fn one_char(s: &str) -> (r: String)
    ensures
        r@ == s@,
{
    let cs = str_chars(s);
    string_from_chars(cs.as_slice())
}

impl GraphCharset {
    /// Box-drawing characters.
    pub fn new_utf8() -> (r: GraphCharset)
        ensures
            charset_is(r, glyphs(true)),
    {
        proof {
            reveal_strlit("╟");
            reveal_strlit("├");
            reveal_strlit("─");
            reveal_strlit("┼");
            reveal_strlit("┤");
            reveal_strlit("╢");
            reveal_strlit("║");
        }
        let double_left = one_char("╟");
        assert(double_left@ =~= seq!['╟']);
        let left = one_char("├");
        assert(left@ =~= seq!['├']);
        let bar = one_char("─");
        assert(bar@ =~= seq!['─']);
        let mid = one_char("┼");
        assert(mid@ =~= seq!['┼']);
        let right = one_char("┤");
        assert(right@ =~= seq!['┤']);
        let double_right = one_char("╢");
        assert(double_right@ =~= seq!['╢']);
        let empty = one_char("║");
        assert(empty@ =~= seq!['║']);
        GraphCharset { double_left, left, bar, mid, right, double_right, empty }
    }

    /// ASCII characters.
    pub fn new_ascii() -> (r: GraphCharset)
        ensures
            charset_is(r, glyphs(false)),
    {
        proof {
            reveal_strlit("#");
            reveal_strlit("[");
            reveal_strlit("-");
            reveal_strlit("+");
            reveal_strlit("]");
            reveal_strlit("|");
        }
        let double_left = one_char("#");
        assert(double_left@ =~= seq!['#']);
        let left = one_char("[");
        assert(left@ =~= seq!['[']);
        let bar = one_char("-");
        assert(bar@ =~= seq!['-']);
        let mid = one_char("+");
        assert(mid@ =~= seq!['+']);
        let right = one_char("]");
        assert(right@ =~= seq![']']);
        let double_right = one_char("#");
        assert(double_right@ =~= seq!['#']);
        let empty = one_char("|");
        assert(empty@ =~= seq!['|']);
        GraphCharset { double_left, left, bar, mid, right, double_right, empty }
    }
}

/// The width of each half of the channel graph.
pub open spec fn graph_half() -> nat {
    23
}

/// The length of the bar for one side of a channel: its share of the largest side in the
/// node, times the half width, rounded to the nearest integer (halves upwards). The share is
/// taken exactly, in integers: where it is exactly a half (13 of 46 gives 6.5 bars), the bar
/// gets the longer length (7), where a floating-point division, landing just below the half,
/// would give the shorter one.
pub open spec fn side_len(side: int, max: int) -> int {
    if max == 0 {
        0
    } else {
        (side * 46 + max) / (2 * max)
    }
}

/// `n` spaces.
pub open spec fn spaces(n: int) -> Seq<char> {
    Seq::new(if n < 0 { 0 } else { n as nat }, |i: int| ' ')
}

/// `s` repeated `n` times.
pub open spec fn repeat(s: Seq<char>, n: int) -> Seq<char>
    decreases n,
{
    if n <= 0 {
        Seq::empty()
    } else {
        repeat(s, n - 1) + s
    }
}

/// `s` right-aligned in a field of `w` characters.
pub open spec fn pad_left(s: Seq<char>, w: int) -> Seq<char> {
    if s.len() >= w {
        s
    } else {
        spaces(w - s.len()) + s
    }
}

/// `s` left-aligned in a field of `w` characters.
pub open spec fn pad_right(s: Seq<char>, w: int) -> Seq<char> {
    if s.len() >= w {
        s
    } else {
        s + spaces(w - s.len())
    }
}

/// The graph of a channel whose bars have lengths `our` and `their`: our bar grows leftwards
/// from the middle, theirs rightwards; a side without bar gets a double line in the middle,
/// and a channel with neither gets the empty mark.
pub open spec fn graph_line(g: GraphGlyphs, our: int, their: int) -> Seq<char> {
    let left = if our == 0 {
        pad_left(Seq::empty(), 23)
    } else {
        pad_left(seq![g.left] + repeat(seq![g.bar], our - 1), 23)
    };
    let right = if their == 0 {
        pad_right(Seq::empty(), 23)
    } else {
        pad_right(repeat(seq![g.bar], their - 1) + seq![g.right], 23)
    };
    let mid = if their == 0 {
        if our == 0 {
            g.empty
        } else {
            g.double_right
        }
    } else if our == 0 {
        g.double_left
    } else {
        g.mid
    };
    left + seq![mid] + right
}

fn repeat_chars(s: &Vec<char>, n: u64) -> (r: Vec<char>)
    ensures
        r@ == repeat(s@, n as int),
{
    let mut out: Vec<char> = Vec::new();
    let mut i: u64 = 0;
    while i < n
        invariant
            i <= n,
            out@ == repeat(s@, i as int),
        decreases n - i,
    {
        crate::strutil::append_chars(&mut out, s);
        i = i + 1;
    }
    out
}

fn pad_chars(s: &Vec<char>, w: usize, on_left: bool) -> (r: Vec<char>)
    ensures
        on_left ==> r@ == pad_left(s@, w as int),
        !on_left ==> r@ == pad_right(s@, w as int),
{
    if s.len() >= w {
        return s.clone();
    }
    let mut sp: Vec<char> = Vec::new();
    let mut i: usize = 0;
    while i < w - s.len()
        invariant
            s@.len() < w,
            i <= w - s@.len(),
            sp@ == spaces(i as int),
        decreases w - s@.len() - i,
    {
        sp.push(' ');
        proof {
            assert(sp@ =~= spaces(i + 1));
        }
        i = i + 1;
    }
    let mut out: Vec<char> = Vec::new();
    if on_left {
        crate::strutil::append_chars(&mut out, &sp);
        crate::strutil::append_chars(&mut out, s);
    } else {
        crate::strutil::append_chars(&mut out, s);
        crate::strutil::append_chars(&mut out, &sp);
    }
    proof {
        assert(out@ =~= (if on_left { spaces(w - s@.len()) + s@ } else { s@ + spaces(w - s@.len()) }));
    }
    out
}

fn bar_len(side: u64, max: u64) -> (r: u64)
    requires
        max > 0 || side == 0,
        side_len(side as int, max as int) <= u64::MAX,
    ensures
        r as int == side_len(side as int, max as int),
{
    if max == 0 {
        return 0;
    }
    let num: u128 = (side as u128) * 46 + (max as u128);
    let den: u128 = (max as u128) * 2;
    let q = num / den;
    q as u64
}

/// Whether the graph of a channel with `to_us` of `total` can be drawn against the largest
/// side `max`: our side is within the total, a scale of zero comes only with an empty
/// channel, and the bars are no longer than memory can hold.
pub open spec fn graph_drawable(to_us: u64, total: u64, max: u64) -> bool {
    &&& to_us <= total
    &&& (max == 0 ==> total == 0)
    &&& side_len(to_us as int, max as int) <= usize::MAX
    &&& side_len(total - to_us, max as int) <= usize::MAX
}

/// The graph of one channel: its sides (ours and theirs) against the largest side of any
/// channel of the node, with bar lengths taken exactly in integers (see `side_len`).
pub fn draw_chans_graph(
    config: &crate::config::Config,
    total_msat: u64,
    to_us_msat: u64,
    graph_max_chan_side_msat: u64,
) -> (r: String)
    requires
        graph_drawable(to_us_msat, total_msat, graph_max_chan_side_msat),
    ensures
        r@ == graph_line(
            glyphs(config.utf8),
            side_len(to_us_msat as int, graph_max_chan_side_msat as int),
            side_len(total_msat - to_us_msat, graph_max_chan_side_msat as int),
        ),
{
    let draw = if config.utf8 {
        GraphCharset::new_utf8()
    } else {
        GraphCharset::new_ascii()
    };
    let our_len = bar_len(to_us_msat, graph_max_chan_side_msat);
    let their_len = bar_len(total_msat - to_us_msat, graph_max_chan_side_msat);
    let left_c = str_chars(draw.left.as_str());
    let right_c = str_chars(draw.right.as_str());
    let bar_c = str_chars(draw.bar.as_str());
    let empty: Vec<char> = Vec::new();
    let left = if our_len == 0 {
        pad_chars(&empty, 23, true)
    } else {
        let mut l = left_c.clone();
        let bars = repeat_chars(&bar_c, our_len - 1);
        crate::strutil::append_chars(&mut l, &bars);
        pad_chars(&l, 23, true)
    };
    let right = if their_len == 0 {
        pad_chars(&empty, 23, false)
    } else {
        let mut rr = repeat_chars(&bar_c, their_len - 1);
        crate::strutil::append_chars(&mut rr, &right_c);
        pad_chars(&rr, 23, false)
    };
    let mid = if their_len == 0 {
        if our_len == 0 {
            str_chars(draw.empty.as_str())
        } else {
            str_chars(draw.double_right.as_str())
        }
    } else if our_len == 0 {
        str_chars(draw.double_left.as_str())
    } else {
        str_chars(draw.mid.as_str())
    };
    let mut out = left;
    crate::strutil::append_chars(&mut out, &mid);
    crate::strutil::append_chars(&mut out, &right);
    proof {
        assert(Seq::<char>::empty() =~= empty@);
    }
    string_from_chars(out.as_slice())
}


proof fn lemma_repeat_len(s: Seq<char>, n: int)
    requires
        n >= 0,
    ensures
        repeat(s, n).len() == n * s.len(),
    decreases n,
{
    if n > 0 {
        lemma_repeat_len(s, n - 1);
        assert(n * s.len() == (n - 1) * s.len() + s.len()) by (nonlinear_arith);
    } else {
        assert(n * s.len() == 0) by (nonlinear_arith)
            requires
                n == 0,
        ;
    }
}

/// Every channel's graph is equally wide, the two halves and the middle mark, so that the
/// graphs of all channels line up: bars of at most the half width fill their halves exactly.
pub proof fn lemma_graph_width(g: GraphGlyphs, our: int, their: int)
    requires
        0 <= our <= 23,
        0 <= their <= 23,
    ensures
        graph_line(g, our, their).len() == 47,
{
    if our > 0 {
        lemma_repeat_len(seq![g.bar], our - 1);
        assert((our - 1) * 1 == our - 1);
        assert((seq![g.left] + repeat(seq![g.bar], our - 1)).len() == our);
    }
    if their > 0 {
        lemma_repeat_len(seq![g.bar], their - 1);
        assert((their - 1) * 1 == their - 1);
        assert((repeat(seq![g.bar], their - 1) + seq![g.right]).len() == their);
    }
}

/// The bar of a side no larger than the largest side fits in its half of the graph.
pub proof fn lemma_side_len_bounded(side: int, max: int)
    requires
        0 <= side <= max,
    ensures
        0 <= side_len(side, max) <= 23,
{
    if max > 0 {
        assert((side * 46 + max) / (2 * max) <= 23) by (nonlinear_arith)
            requires
                0 <= side <= max,
                max > 0,
        ;
        assert((side * 46 + max) / (2 * max) >= 0) by (nonlinear_arith)
            requires
                0 <= side,
                max > 0,
        ;
    }
}

/// The hexadecimal form of bytes has two lowercase hexadecimal digits per byte.
pub proof fn lemma_hex_of(bytes: Seq<u8>)
    ensures
        hex_of(bytes).len() == 2 * bytes.len(),
        forall|k: int|
            0 <= k < hex_of(bytes).len() ==> ('0' <= #[trigger] hex_of(bytes)[k] <= '9') || ('a'
                <= hex_of(bytes)[k] <= 'f'),
    decreases bytes.len(),
{
    if bytes.len() > 0 {
        lemma_hex_of(bytes.drop_last());
        let b = bytes.last();
        assert(b as int / 16 < 16);
        assert(b as int % 16 < 16);
        let h = hex_of(bytes);
        let p = hex_of(bytes.drop_last());
        assert forall|k: int| 0 <= k < h.len() implies ('0' <= #[trigger] h[k] <= '9') || ('a' <= h[k] <= 'f') by {
            if k < p.len() {
                assert(h[k] == p[k]);
            }
        }
    }
}

/// A description made safe for a table cell holds no double quote, no backslash and no
/// control character, and is as long as the description.
pub proof fn lemma_escaped_safe(s: Seq<char>)
    ensures
        s.map_values(|c: char| escape_char(c)).len() == s.len(),
        forall|k: int|
            0 <= k < s.len() ==> escape_char(#[trigger] s[k]) != '"' && escape_char(s[k]) != '\\'
                && !is_cc(escape_char(s[k])),
        forall|k: int| 0 <= k < s.len() ==> s.map_values(|c: char| escape_char(c))[k] == escape_char(#[trigger] s[k]),
{
}

/// A channel whose sides are within the largest side of any channel can always be drawn: that
/// is how the channels table picks its scale.
pub proof fn lemma_within_scale_drawable(to_us: u64, total: u64, max: u64)
    requires
        to_us <= total,
        to_us <= max,
        total - to_us <= max,
    ensures
        graph_drawable(to_us, total, max),
{
    lemma_side_len_bounded(to_us as int, max as int);
    lemma_side_len_bounded(total - to_us, max as int);
}

/// The value of a lowercase hexadecimal digit; `-1` for any other character.
pub open spec fn hex_value(c: char) -> int {
    if '0' <= c <= '9' {
        c as int - '0' as int
    } else if 'a' <= c <= 'f' {
        c as int - 'a' as int + 10
    } else {
        -1
    }
}

/// Each pair of digits in the hexadecimal form of bytes reads back, base 16, as its byte.
pub proof fn lemma_hex_decodes(bytes: Seq<u8>)
    ensures
        hex_of(bytes).len() == 2 * bytes.len(),
        forall|i: int|
            0 <= i < bytes.len() ==> 16 * hex_value(hex_of(bytes)[2 * i]) + hex_value(hex_of(bytes)[2 * i + 1])
                == #[trigger] bytes[i] as int,
    decreases bytes.len(),
{
    lemma_hex_of(bytes);
    if bytes.len() > 0 {
        lemma_hex_decodes(bytes.drop_last());
        let b = bytes.last();
        let h = hex_of(bytes);
        let p = hex_of(bytes.drop_last());
        let n = bytes.len() - 1;
        assert(hex_value(hex_digit(b as int / 16)) == b as int / 16);
        assert(hex_value(hex_digit(b as int % 16)) == b as int % 16);
        assert forall|i: int| 0 <= i < bytes.len() implies 16 * hex_value(h[2 * i]) + hex_value(h[2 * i + 1])
            == #[trigger] bytes[i] as int by {
            if i < n {
                assert(h[2 * i] == p[2 * i]);
                assert(h[2 * i + 1] == p[2 * i + 1]);
                assert(bytes[i] == bytes.drop_last()[i]);
            } else {
                assert(h[2 * i] == hex_digit(b as int / 16));
                assert(h[2 * i + 1] == hex_digit(b as int % 16));
            }
        }
    }
}

} // verus!
