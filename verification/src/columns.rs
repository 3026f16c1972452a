use vstd::prelude::*;

use crate::error::ConfigError;
use crate::strutil::{
    append_chars, ascii_lower, chars_eq_ignore_case, is_ws, lower_char, split_by, split_chars, str_chars,
    string_from_chars, strip_whitespace, strip_ws,
};

verus! {

/// Neither a comma nor white space occurs in `s`.
pub open spec fn no_sep_or_ws(s: Seq<char>) -> bool {
    forall|k: int| 0 <= k < s.len() ==> s[k] != ',' && !is_ws(#[trigger] s[k])
}

/// Two names are the same up to ASCII case.
pub open spec fn names_match(a: Seq<char>, b: Seq<char>) -> bool {
    ascii_lower(a) == ascii_lower(b)
}

/// `s` names a column of `T`, ignoring ASCII case.
pub open spec fn is_column_name<T: TableColumn>(s: Seq<char>) -> bool {
    exists|c: T| names_match(c.col_name(), s)
}

/// The pieces of a comma-separated column list, white space removed.
pub open spec fn column_pieces(input: Seq<char>) -> Seq<Seq<char>> {
    split_by(strip_ws(input), ',')
}

/// `parts` joined with `sep` between each two.
pub open spec fn join_with(parts: Seq<Seq<char>>, sep: Seq<char>) -> Seq<char>
    decreases parts.len(),
{
    if parts.len() == 0 {
        Seq::empty()
    } else if parts.len() == 1 {
        parts[0]
    } else {
        join_with(parts.drop_last(), sep) + sep + parts.last()
    }
}

pub open spec fn column_names<T: TableColumn>(cols: Seq<T>) -> Seq<Seq<char>> {
    cols.map_values(|c: T| c.col_name())
}

/// The columns that are enabled when no column list is given.
pub open spec fn spec_default_columns<T: TableColumn>() -> Seq<T> {
    T::spec_all().filter(|c: T| !c.default_excluded())
}

/// The first piece, if any, that names no column.
pub open spec fn first_unknown_piece<T: TableColumn>(pieces: Seq<Seq<char>>, k: int) -> bool {
    &&& 0 <= k < pieces.len()
    &&& !is_column_name::<T>(pieces[k])
    &&& forall|j: int| 0 <= j < k ==> is_column_name::<T>(#[trigger] pieces[j])
}

/// What parsing a comma-separated column list gives: white space is dropped, each piece
/// must name a column, and no two pieces may name the same one; the first piece that names
/// no column is reported, else the list itself as holding a duplicate.
pub open spec fn columns_parsed<T: TableColumn>(input: Seq<char>, r: Result<Vec<T>, ConfigError>) -> bool {
        let pieces = column_pieces(input);
        &&& r is Ok <==> (forall|k: int|
            0 <= k < pieces.len() ==> is_column_name::<T>(#[trigger] pieces[k])) && (
        forall|i: int, j: int|
            0 <= i < j < pieces.len() ==> !names_match(
                #[trigger] pieces[i],
                #[trigger] pieces[j],
            ))
        &&& r matches Ok(v) ==> v@.len() == pieces.len() && forall|k: int|
            0 <= k < v@.len() ==> names_match((#[trigger] v@[k]).col_name(), pieces[k])
        &&& r matches Err(e) ==> (exists|k: int| first_unknown_piece::<T>(pieces, k)) ==> (
        e matches ConfigError::InvalidColumn(m) && exists|k: int|
            first_unknown_piece::<T>(pieces, k) && m@ == pieces[k])
        &&& r matches Err(e) ==> (forall|k: int|
            0 <= k < pieces.len() ==> is_column_name::<T>(#[trigger] pieces[k])) ==> (
        e matches ConfigError::DuplicateColumns(m) && m@ == input)
    
}

/// A kind of table column: a closed set of names, each of which is parsed without regard to
/// ASCII case.
pub trait TableColumn: Sized + Copy {
    spec fn spec_all() -> Seq<Self>;

    spec fn col_name(self) -> Seq<char>;

    spec fn col_pos(self) -> int;

    spec fn default_excluded(self) -> bool;

    spec fn spec_numerical() -> Seq<Self>;

    spec fn spec_optional_numerical() -> Seq<Self>;

    /// Every column occurs once in `spec_all`, at its position; no two names match up to
    /// ASCII case; a name is never empty and holds no comma and no white space.
    proof fn lemma_columns_wf()
        ensures
            forall|c: Self|
                0 <= #[trigger] c.col_pos() < Self::spec_all().len() && Self::spec_all()[c.col_pos()]
                    == c,
            forall|i: int|
                0 <= i < Self::spec_all().len() ==> (#[trigger] Self::spec_all()[i]).col_pos() == i,
            forall|a: Self, b: Self|
                a != b ==> ascii_lower(#[trigger] a.col_name()) != ascii_lower(
                    #[trigger] b.col_name(),
                ),
            forall|c: Self| #[trigger] c.col_name().len() > 0 && no_sep_or_ws(c.col_name()),
    ;

    /// Every column, in canonical order.
    fn all() -> (r: Vec<Self>)
        ensures
            r@ == Self::spec_all(),
    ;

    /// The column's name.
    fn name(self) -> (r: &'static str)
        ensures
            r@ == self.col_name(),
    ;

    /// The column's position in canonical order.
    fn pos(self) -> (r: usize)
        ensures
            r as int == self.col_pos(),
    ;

    fn excluded_by_default(self) -> (r: bool)
        ensures
            r == self.default_excluded(),
    ;

    /// The columns whose cells hold amounts, formatted with thousands separators.
    fn numerical() -> (r: Vec<Self>)
        ensures
            r@ == Self::spec_numerical(),
    ;

    /// The columns whose cells hold an amount or `N/A`.
    fn optional_numerical() -> (r: Vec<Self>)
        ensures
            r@ == Self::spec_optional_numerical(),
    ;

}

/// All columns but those left out by default, in canonical order.
pub fn default_columns_of<T: TableColumn>() -> (r: Vec<T>)
    ensures
        r@ == spec_default_columns::<T>(),
{
    let all = T::all();
    let mut r: Vec<T> = Vec::new();
    let mut i: usize = 0;
    while i < all.len()
        invariant
            all@ == T::spec_all(),
            i <= all@.len(),
            r@ == all@.take(i as int).filter(|c: T| !c.default_excluded()),
        decreases all@.len() - i,
    {
        let c = all[i];
        proof {
            assert(all@.take(i + 1).drop_last() =~= all@.take(i as int));
            reveal(Seq::filter);
        }
        if !c.excluded_by_default() {
            r.push(c);
        }
        i = i + 1;
    }
    proof {
        assert(all@.take(all@.len() as int) =~= all@);
    }
    r
}

/// The column named `input`, ignoring ASCII case.
pub fn parse_column_of<T: TableColumn>(input: &str) -> (r: Result<T, ConfigError>)
    ensures
        r matches Ok(c) ==> names_match(c.col_name(), input@),
        r is Err <==> !is_column_name::<T>(input@),
        r matches Err(e) ==> (e matches ConfigError::InvalidColumn(m) && m@ == input@),
{
    let cs = str_chars(input);
    match find_column::<T>(&cs) {
        Some(c) => Ok(c),
        None => Err(ConfigError::InvalidColumn(string_from_chars(cs.as_slice()))),
    }
}

/// The columns named in a comma-separated list; white space is ignored, each name must
/// be a column's and no column may be named twice.
pub fn parse_columns_of<T: TableColumn>(input: &str) -> (r: Result<Vec<T>, ConfigError>)
    ensures
        columns_parsed::<T>(input@, r),
{
    let raw = str_chars(input);
    let stripped = strip_whitespace(&raw);
    let pieces = split_chars(&stripped, ',');
    let ghost gp = column_pieces(input@);
    let mut cols: Vec<T> = Vec::new();
    let mut k: usize = 0;
    while k < pieces.len()
        invariant
            pieces@.len() == gp.len(),
            forall|j: int| 0 <= j < pieces@.len() ==> #[trigger] pieces@[j]@ == gp[j],
            gp == column_pieces(input@),
            k <= pieces@.len(),
            cols@.len() == k,
            forall|j: int|
                0 <= j < k ==> names_match((#[trigger] cols@[j]).col_name(), gp[j]),
            forall|j: int| 0 <= j < k ==> is_column_name::<T>(#[trigger] gp[j]),
        decreases pieces@.len() - k,
    {
        match find_column::<T>(&pieces[k]) {
            Some(c) => {
                cols.push(c);
            },
            None => {
                proof {
                    assert(first_unknown_piece::<T>(gp, k as int));
                }
                return Err(ConfigError::InvalidColumn(string_from_chars(pieces[k].as_slice())));
            },
        }
        k = k + 1;
    }
    proof {
        T::lemma_columns_wf();
    }
    let mut i: usize = 0;
    while i < cols.len()
        invariant
            cols@.len() == gp.len(),
            forall|j: int|
                0 <= j < cols@.len() ==> names_match((#[trigger] cols@[j]).col_name(), gp[j]),
            i <= cols@.len(),
            forall|x: int| 0 <= x < gp.len() ==> is_column_name::<T>(#[trigger] gp[x]),
            gp == column_pieces(input@),
            raw@ == input@,
            forall|a: int, b: int|
                0 <= a < i && a < b < cols@.len() ==> !names_match(
                    #[trigger] gp[a],
                    #[trigger] gp[b],
                ),
        decreases cols@.len() - i,
    {
        let mut j: usize = i + 1;
        while j < cols.len()
            invariant
                cols@.len() == gp.len(),
                forall|x: int|
                    0 <= x < cols@.len() ==> names_match(
                        (#[trigger] cols@[x]).col_name(),
                        gp[x],
                    ),
                i < cols@.len(),
                forall|x: int| 0 <= x < gp.len() ==> is_column_name::<T>(#[trigger] gp[x]),
                gp == column_pieces(input@),
                raw@ == input@,
                forall|a: int, b: int|
                    0 <= a < i && a < b < cols@.len() ==> !names_match(
                        #[trigger] gp[a],
                        #[trigger] gp[b],
                    ),
                i + 1 <= j <= cols@.len(),
                forall|b: int| i < b < j ==> !names_match(gp[i as int], #[trigger] gp[b]),
            decreases cols@.len() - j,
        {
            if cols[i].pos() == cols[j].pos() {
                proof {
                    lemma_same_pos_same::<T>(cols@[i as int], cols@[j as int]);
                    assert(names_match(gp[i as int], gp[j as int]));
                }
                return Err(ConfigError::DuplicateColumns(string_from_chars(raw.as_slice())));
            }
            proof {
                lemma_distinct_names::<T>(cols@[i as int], cols@[j as int]);
            }
            j = j + 1;
        }
        i = i + 1;
    }
    Ok(cols)
}

/// The names of `columns`, separated by a comma and a space.
pub fn list_string_of<T: TableColumn>(columns: &[T]) -> (r: String)
    ensures
        r@ == join_with(column_names(columns@), ", "@),
{
    let mut out: Vec<char> = Vec::new();
    let sep = str_chars(", ");
    let mut i: usize = 0;
    while i < columns.len()
        invariant
            i <= columns@.len(),
            sep@ == ", "@,
            out@ == join_with(column_names(columns@.take(i as int)), ", "@),
        decreases columns@.len() - i,
    {
        let name = str_chars(columns[i].name());
        proof {
            assert(column_names(columns@.take(i + 1)).drop_last() =~= column_names(
                columns@.take(i as int),
            ));
            assert(column_names(columns@.take(i + 1)).last() == columns@[i as int].col_name());
        }
        if i > 0 {
            append_chars(&mut out, &sep);
        }
        append_chars(&mut out, &name);
        proof {
            if i == 0 {
                assert(out@ =~= column_names(columns@.take(1))[0]);
            }
        }
        i = i + 1;
    }
    proof {
        assert(columns@.take(columns@.len() as int) =~= columns@);
    }
    string_from_chars(out.as_slice())
}

/// The column named `s` up to ASCII case, if there is one.
pub fn find_column<T: TableColumn>(s: &Vec<char>) -> (r: Option<T>)
    ensures
        r matches Some(c) ==> names_match(c.col_name(), s@),
        r is None <==> !is_column_name::<T>(s@),
{
    let all = T::all();
    let mut i: usize = 0;
    while i < all.len()
        invariant
            all@ == T::spec_all(),
            i <= all@.len(),
            forall|j: int| 0 <= j < i ==> !names_match((#[trigger] all@[j]).col_name(), s@),
        decreases all@.len() - i,
    {
        let name = str_chars(all[i].name());
        if chars_eq_ignore_case(&name, s) {
            return Some(all[i]);
        }
        i = i + 1;
    }
    proof {
        T::lemma_columns_wf();
        assert forall|c: T| !names_match(c.col_name(), s@) by {
            assert(all@[c.col_pos()] == c);
        }
    }
    None
}

pub proof fn lemma_same_pos_same<T: TableColumn>(a: T, b: T)
    requires
        a.col_pos() == b.col_pos(),
    ensures
        a == b,
{
    T::lemma_columns_wf();
    assert(T::spec_all()[a.col_pos()] == a);
    assert(T::spec_all()[b.col_pos()] == b);
}

proof fn lemma_distinct_names<T: TableColumn>(a: T, b: T)
    requires
        a.col_pos() != b.col_pos(),
    ensures
        !names_match(a.col_name(), b.col_name()),
{
    T::lemma_columns_wf();
}

/// The name of a column parses back to that column.
pub proof fn lemma_parse_name<T: TableColumn>(c: T, d: T)
    requires
        names_match(d.col_name(), c.col_name()),
    ensures
        d == c,
{
    if d.col_pos() != c.col_pos() {
        lemma_distinct_names::<T>(d, c);
    } else {
        lemma_same_pos_same::<T>(d, c);
    }
}

/// The columns of the channels table, in their canonical order.
#[allow(non_camel_case_types)]
#[derive(Debug, Clone, Copy, PartialEq, Eq, Hash, Structural)]
pub enum SummaryColumns {
    GRAPH_SATS,
    OUT_SATS,
    IN_SATS,
    TOTAL_SATS,
    SCID,
    MAX_HTLC,
    MIN_HTLC,
    FLAG,
    BASE,
    IN_BASE,
    PPM,
    IN_PPM,
    ALIAS,
    PEER_ID,
    UPTIME,
    HTLCS,
    STATE,
    PERC_US,
    PING,
}

impl TableColumn for SummaryColumns {
    open spec fn spec_all() -> Seq<Self> {
        seq![SummaryColumns::GRAPH_SATS, SummaryColumns::OUT_SATS, SummaryColumns::IN_SATS, SummaryColumns::TOTAL_SATS, SummaryColumns::SCID, SummaryColumns::MAX_HTLC, SummaryColumns::MIN_HTLC, SummaryColumns::FLAG, SummaryColumns::BASE, SummaryColumns::IN_BASE, SummaryColumns::PPM, SummaryColumns::IN_PPM, SummaryColumns::ALIAS, SummaryColumns::PEER_ID, SummaryColumns::UPTIME, SummaryColumns::HTLCS, SummaryColumns::STATE, SummaryColumns::PERC_US, SummaryColumns::PING]
    }

    open spec fn col_name(self) -> Seq<char> {
        match self {
            SummaryColumns::GRAPH_SATS => "GRAPH_SATS"@,
            SummaryColumns::OUT_SATS => "OUT_SATS"@,
            SummaryColumns::IN_SATS => "IN_SATS"@,
            SummaryColumns::TOTAL_SATS => "TOTAL_SATS"@,
            SummaryColumns::SCID => "SCID"@,
            SummaryColumns::MAX_HTLC => "MAX_HTLC"@,
            SummaryColumns::MIN_HTLC => "MIN_HTLC"@,
            SummaryColumns::FLAG => "FLAG"@,
            SummaryColumns::BASE => "BASE"@,
            SummaryColumns::IN_BASE => "IN_BASE"@,
            SummaryColumns::PPM => "PPM"@,
            SummaryColumns::IN_PPM => "IN_PPM"@,
            SummaryColumns::ALIAS => "ALIAS"@,
            SummaryColumns::PEER_ID => "PEER_ID"@,
            SummaryColumns::UPTIME => "UPTIME"@,
            SummaryColumns::HTLCS => "HTLCS"@,
            SummaryColumns::STATE => "STATE"@,
            SummaryColumns::PERC_US => "PERC_US"@,
            SummaryColumns::PING => "PING"@,
        }
    }

    open spec fn col_pos(self) -> int {
        match self {
            SummaryColumns::GRAPH_SATS => 0,
            SummaryColumns::OUT_SATS => 1,
            SummaryColumns::IN_SATS => 2,
            SummaryColumns::TOTAL_SATS => 3,
            SummaryColumns::SCID => 4,
            SummaryColumns::MAX_HTLC => 5,
            SummaryColumns::MIN_HTLC => 6,
            SummaryColumns::FLAG => 7,
            SummaryColumns::BASE => 8,
            SummaryColumns::IN_BASE => 9,
            SummaryColumns::PPM => 10,
            SummaryColumns::IN_PPM => 11,
            SummaryColumns::ALIAS => 12,
            SummaryColumns::PEER_ID => 13,
            SummaryColumns::UPTIME => 14,
            SummaryColumns::HTLCS => 15,
            SummaryColumns::STATE => 16,
            SummaryColumns::PERC_US => 17,
            SummaryColumns::PING => 18,
        }
    }

    open spec fn default_excluded(self) -> bool {
        self == SummaryColumns::GRAPH_SATS || self == SummaryColumns::PERC_US || self == SummaryColumns::TOTAL_SATS || self == SummaryColumns::MIN_HTLC || self == SummaryColumns::IN_BASE || self == SummaryColumns::IN_PPM || self == SummaryColumns::PING
    }

    open spec fn spec_numerical() -> Seq<Self> {
        seq![SummaryColumns::OUT_SATS, SummaryColumns::IN_SATS, SummaryColumns::TOTAL_SATS, SummaryColumns::MIN_HTLC, SummaryColumns::MAX_HTLC, SummaryColumns::BASE, SummaryColumns::PPM]
    }

    open spec fn spec_optional_numerical() -> Seq<Self> {
        seq![SummaryColumns::IN_BASE, SummaryColumns::IN_PPM]
    }

    proof fn lemma_columns_wf() {
        reveal_strlit("GRAPH_SATS");
        reveal_strlit("OUT_SATS");
        reveal_strlit("IN_SATS");
        reveal_strlit("TOTAL_SATS");
        reveal_strlit("SCID");
        reveal_strlit("MAX_HTLC");
        reveal_strlit("MIN_HTLC");
        reveal_strlit("FLAG");
        reveal_strlit("BASE");
        reveal_strlit("IN_BASE");
        reveal_strlit("PPM");
        reveal_strlit("IN_PPM");
        reveal_strlit("ALIAS");
        reveal_strlit("PEER_ID");
        reveal_strlit("UPTIME");
        reveal_strlit("HTLCS");
        reveal_strlit("STATE");
        reveal_strlit("PERC_US");
        reveal_strlit("PING");
        assert("GRAPH_SATS"@.len() == 10);
        assert("OUT_SATS"@.len() == 8);
        assert("IN_SATS"@.len() == 7);
        assert("TOTAL_SATS"@.len() == 10);
        assert("SCID"@.len() == 4);
        assert("MAX_HTLC"@.len() == 8);
        assert("MIN_HTLC"@.len() == 8);
        assert("FLAG"@.len() == 4);
        assert("BASE"@.len() == 4);
        assert("IN_BASE"@.len() == 7);
        assert("PPM"@.len() == 3);
        assert("IN_PPM"@.len() == 6);
        assert("ALIAS"@.len() == 5);
        assert("PEER_ID"@.len() == 7);
        assert("UPTIME"@.len() == 6);
        assert("HTLCS"@.len() == 5);
        assert("STATE"@.len() == 5);
        assert("PERC_US"@.len() == 7);
        assert("PING"@.len() == 4);
        assert("ALIAS"@[0] == 'A');
        assert("BASE"@[0] == 'B');
        assert("FLAG"@[0] == 'F');
        assert("GRAPH_SATS"@[0] == 'G');
        assert("HTLCS"@[0] == 'H');
        assert("IN_BASE"@[0] == 'I');
        assert("IN_BASE"@[3] == 'B');
        assert("IN_PPM"@[0] == 'I');
        assert("IN_SATS"@[0] == 'I');
        assert("IN_SATS"@[3] == 'S');
        assert("MAX_HTLC"@[0] == 'M');
        assert("MAX_HTLC"@[1] == 'A');
        assert("MIN_HTLC"@[0] == 'M');
        assert("MIN_HTLC"@[1] == 'I');
        assert("OUT_SATS"@[0] == 'O');
        assert("PEER_ID"@[0] == 'P');
        assert("PEER_ID"@[2] == 'E');
        assert("PERC_US"@[0] == 'P');
        assert("PERC_US"@[2] == 'R');
        assert("PING"@[0] == 'P');
        assert("SCID"@[0] == 'S');
        assert("STATE"@[0] == 'S');
        assert("TOTAL_SATS"@[0] == 'T');
        assert("UPTIME"@[0] == 'U');
        assert(ascii_lower("GRAPH_SATS"@).len() != ascii_lower("OUT_SATS"@).len());
        assert(ascii_lower("GRAPH_SATS"@).len() != ascii_lower("IN_SATS"@).len());
        assert(ascii_lower("GRAPH_SATS"@)[0] != ascii_lower("TOTAL_SATS"@)[0]);
        assert(ascii_lower("GRAPH_SATS"@).len() != ascii_lower("SCID"@).len());
        assert(ascii_lower("GRAPH_SATS"@).len() != ascii_lower("MAX_HTLC"@).len());
        assert(ascii_lower("GRAPH_SATS"@).len() != ascii_lower("MIN_HTLC"@).len());
        assert(ascii_lower("GRAPH_SATS"@).len() != ascii_lower("FLAG"@).len());
        assert(ascii_lower("GRAPH_SATS"@).len() != ascii_lower("BASE"@).len());
        assert(ascii_lower("GRAPH_SATS"@).len() != ascii_lower("IN_BASE"@).len());
        assert(ascii_lower("GRAPH_SATS"@).len() != ascii_lower("PPM"@).len());
        assert(ascii_lower("GRAPH_SATS"@).len() != ascii_lower("IN_PPM"@).len());
        assert(ascii_lower("GRAPH_SATS"@).len() != ascii_lower("ALIAS"@).len());
        assert(ascii_lower("GRAPH_SATS"@).len() != ascii_lower("PEER_ID"@).len());
        assert(ascii_lower("GRAPH_SATS"@).len() != ascii_lower("UPTIME"@).len());
        assert(ascii_lower("GRAPH_SATS"@).len() != ascii_lower("HTLCS"@).len());
        assert(ascii_lower("GRAPH_SATS"@).len() != ascii_lower("STATE"@).len());
        assert(ascii_lower("GRAPH_SATS"@).len() != ascii_lower("PERC_US"@).len());
        assert(ascii_lower("GRAPH_SATS"@).len() != ascii_lower("PING"@).len());
        assert(ascii_lower("OUT_SATS"@).len() != ascii_lower("IN_SATS"@).len());
        assert(ascii_lower("OUT_SATS"@).len() != ascii_lower("TOTAL_SATS"@).len());
        assert(ascii_lower("OUT_SATS"@).len() != ascii_lower("SCID"@).len());
        assert(ascii_lower("OUT_SATS"@)[0] != ascii_lower("MAX_HTLC"@)[0]);
        assert(ascii_lower("OUT_SATS"@)[0] != ascii_lower("MIN_HTLC"@)[0]);
        assert(ascii_lower("OUT_SATS"@).len() != ascii_lower("FLAG"@).len());
        assert(ascii_lower("OUT_SATS"@).len() != ascii_lower("BASE"@).len());
        assert(ascii_lower("OUT_SATS"@).len() != ascii_lower("IN_BASE"@).len());
        assert(ascii_lower("OUT_SATS"@).len() != ascii_lower("PPM"@).len());
        assert(ascii_lower("OUT_SATS"@).len() != ascii_lower("IN_PPM"@).len());
        assert(ascii_lower("OUT_SATS"@).len() != ascii_lower("ALIAS"@).len());
        assert(ascii_lower("OUT_SATS"@).len() != ascii_lower("PEER_ID"@).len());
        assert(ascii_lower("OUT_SATS"@).len() != ascii_lower("UPTIME"@).len());
        assert(ascii_lower("OUT_SATS"@).len() != ascii_lower("HTLCS"@).len());
        assert(ascii_lower("OUT_SATS"@).len() != ascii_lower("STATE"@).len());
        assert(ascii_lower("OUT_SATS"@).len() != ascii_lower("PERC_US"@).len());
        assert(ascii_lower("OUT_SATS"@).len() != ascii_lower("PING"@).len());
        assert(ascii_lower("IN_SATS"@).len() != ascii_lower("TOTAL_SATS"@).len());
        assert(ascii_lower("IN_SATS"@).len() != ascii_lower("SCID"@).len());
        assert(ascii_lower("IN_SATS"@).len() != ascii_lower("MAX_HTLC"@).len());
        assert(ascii_lower("IN_SATS"@).len() != ascii_lower("MIN_HTLC"@).len());
        assert(ascii_lower("IN_SATS"@).len() != ascii_lower("FLAG"@).len());
        assert(ascii_lower("IN_SATS"@).len() != ascii_lower("BASE"@).len());
        assert(ascii_lower("IN_SATS"@)[3] != ascii_lower("IN_BASE"@)[3]);
        assert(ascii_lower("IN_SATS"@).len() != ascii_lower("PPM"@).len());
        assert(ascii_lower("IN_SATS"@).len() != ascii_lower("IN_PPM"@).len());
        assert(ascii_lower("IN_SATS"@).len() != ascii_lower("ALIAS"@).len());
        assert(ascii_lower("IN_SATS"@)[0] != ascii_lower("PEER_ID"@)[0]);
        assert(ascii_lower("IN_SATS"@).len() != ascii_lower("UPTIME"@).len());
        assert(ascii_lower("IN_SATS"@).len() != ascii_lower("HTLCS"@).len());
        assert(ascii_lower("IN_SATS"@).len() != ascii_lower("STATE"@).len());
        assert(ascii_lower("IN_SATS"@)[0] != ascii_lower("PERC_US"@)[0]);
        assert(ascii_lower("IN_SATS"@).len() != ascii_lower("PING"@).len());
        assert(ascii_lower("TOTAL_SATS"@).len() != ascii_lower("SCID"@).len());
        assert(ascii_lower("TOTAL_SATS"@).len() != ascii_lower("MAX_HTLC"@).len());
        assert(ascii_lower("TOTAL_SATS"@).len() != ascii_lower("MIN_HTLC"@).len());
        assert(ascii_lower("TOTAL_SATS"@).len() != ascii_lower("FLAG"@).len());
        assert(ascii_lower("TOTAL_SATS"@).len() != ascii_lower("BASE"@).len());
        assert(ascii_lower("TOTAL_SATS"@).len() != ascii_lower("IN_BASE"@).len());
        assert(ascii_lower("TOTAL_SATS"@).len() != ascii_lower("PPM"@).len());
        assert(ascii_lower("TOTAL_SATS"@).len() != ascii_lower("IN_PPM"@).len());
        assert(ascii_lower("TOTAL_SATS"@).len() != ascii_lower("ALIAS"@).len());
        assert(ascii_lower("TOTAL_SATS"@).len() != ascii_lower("PEER_ID"@).len());
        assert(ascii_lower("TOTAL_SATS"@).len() != ascii_lower("UPTIME"@).len());
        assert(ascii_lower("TOTAL_SATS"@).len() != ascii_lower("HTLCS"@).len());
        assert(ascii_lower("TOTAL_SATS"@).len() != ascii_lower("STATE"@).len());
        assert(ascii_lower("TOTAL_SATS"@).len() != ascii_lower("PERC_US"@).len());
        assert(ascii_lower("TOTAL_SATS"@).len() != ascii_lower("PING"@).len());
        assert(ascii_lower("SCID"@).len() != ascii_lower("MAX_HTLC"@).len());
        assert(ascii_lower("SCID"@).len() != ascii_lower("MIN_HTLC"@).len());
        assert(ascii_lower("SCID"@)[0] != ascii_lower("FLAG"@)[0]);
        assert(ascii_lower("SCID"@)[0] != ascii_lower("BASE"@)[0]);
        assert(ascii_lower("SCID"@).len() != ascii_lower("IN_BASE"@).len());
        assert(ascii_lower("SCID"@).len() != ascii_lower("PPM"@).len());
        assert(ascii_lower("SCID"@).len() != ascii_lower("IN_PPM"@).len());
        assert(ascii_lower("SCID"@).len() != ascii_lower("ALIAS"@).len());
        assert(ascii_lower("SCID"@).len() != ascii_lower("PEER_ID"@).len());
        assert(ascii_lower("SCID"@).len() != ascii_lower("UPTIME"@).len());
        assert(ascii_lower("SCID"@).len() != ascii_lower("HTLCS"@).len());
        assert(ascii_lower("SCID"@).len() != ascii_lower("STATE"@).len());
        assert(ascii_lower("SCID"@).len() != ascii_lower("PERC_US"@).len());
        assert(ascii_lower("SCID"@)[0] != ascii_lower("PING"@)[0]);
        assert(ascii_lower("MAX_HTLC"@)[1] != ascii_lower("MIN_HTLC"@)[1]);
        assert(ascii_lower("MAX_HTLC"@).len() != ascii_lower("FLAG"@).len());
        assert(ascii_lower("MAX_HTLC"@).len() != ascii_lower("BASE"@).len());
        assert(ascii_lower("MAX_HTLC"@).len() != ascii_lower("IN_BASE"@).len());
        assert(ascii_lower("MAX_HTLC"@).len() != ascii_lower("PPM"@).len());
        assert(ascii_lower("MAX_HTLC"@).len() != ascii_lower("IN_PPM"@).len());
        assert(ascii_lower("MAX_HTLC"@).len() != ascii_lower("ALIAS"@).len());
        assert(ascii_lower("MAX_HTLC"@).len() != ascii_lower("PEER_ID"@).len());
        assert(ascii_lower("MAX_HTLC"@).len() != ascii_lower("UPTIME"@).len());
        assert(ascii_lower("MAX_HTLC"@).len() != ascii_lower("HTLCS"@).len());
        assert(ascii_lower("MAX_HTLC"@).len() != ascii_lower("STATE"@).len());
        assert(ascii_lower("MAX_HTLC"@).len() != ascii_lower("PERC_US"@).len());
        assert(ascii_lower("MAX_HTLC"@).len() != ascii_lower("PING"@).len());
        assert(ascii_lower("MIN_HTLC"@).len() != ascii_lower("FLAG"@).len());
        assert(ascii_lower("MIN_HTLC"@).len() != ascii_lower("BASE"@).len());
        assert(ascii_lower("MIN_HTLC"@).len() != ascii_lower("IN_BASE"@).len());
        assert(ascii_lower("MIN_HTLC"@).len() != ascii_lower("PPM"@).len());
        assert(ascii_lower("MIN_HTLC"@).len() != ascii_lower("IN_PPM"@).len());
        assert(ascii_lower("MIN_HTLC"@).len() != ascii_lower("ALIAS"@).len());
        assert(ascii_lower("MIN_HTLC"@).len() != ascii_lower("PEER_ID"@).len());
        assert(ascii_lower("MIN_HTLC"@).len() != ascii_lower("UPTIME"@).len());
        assert(ascii_lower("MIN_HTLC"@).len() != ascii_lower("HTLCS"@).len());
        assert(ascii_lower("MIN_HTLC"@).len() != ascii_lower("STATE"@).len());
        assert(ascii_lower("MIN_HTLC"@).len() != ascii_lower("PERC_US"@).len());
        assert(ascii_lower("MIN_HTLC"@).len() != ascii_lower("PING"@).len());
        assert(ascii_lower("FLAG"@)[0] != ascii_lower("BASE"@)[0]);
        assert(ascii_lower("FLAG"@).len() != ascii_lower("IN_BASE"@).len());
        assert(ascii_lower("FLAG"@).len() != ascii_lower("PPM"@).len());
        assert(ascii_lower("FLAG"@).len() != ascii_lower("IN_PPM"@).len());
        assert(ascii_lower("FLAG"@).len() != ascii_lower("ALIAS"@).len());
        assert(ascii_lower("FLAG"@).len() != ascii_lower("PEER_ID"@).len());
        assert(ascii_lower("FLAG"@).len() != ascii_lower("UPTIME"@).len());
        assert(ascii_lower("FLAG"@).len() != ascii_lower("HTLCS"@).len());
        assert(ascii_lower("FLAG"@).len() != ascii_lower("STATE"@).len());
        assert(ascii_lower("FLAG"@).len() != ascii_lower("PERC_US"@).len());
        assert(ascii_lower("FLAG"@)[0] != ascii_lower("PING"@)[0]);
        assert(ascii_lower("BASE"@).len() != ascii_lower("IN_BASE"@).len());
        assert(ascii_lower("BASE"@).len() != ascii_lower("PPM"@).len());
        assert(ascii_lower("BASE"@).len() != ascii_lower("IN_PPM"@).len());
        assert(ascii_lower("BASE"@).len() != ascii_lower("ALIAS"@).len());
        assert(ascii_lower("BASE"@).len() != ascii_lower("PEER_ID"@).len());
        assert(ascii_lower("BASE"@).len() != ascii_lower("UPTIME"@).len());
        assert(ascii_lower("BASE"@).len() != ascii_lower("HTLCS"@).len());
        assert(ascii_lower("BASE"@).len() != ascii_lower("STATE"@).len());
        assert(ascii_lower("BASE"@).len() != ascii_lower("PERC_US"@).len());
        assert(ascii_lower("BASE"@)[0] != ascii_lower("PING"@)[0]);
        assert(ascii_lower("IN_BASE"@).len() != ascii_lower("PPM"@).len());
        assert(ascii_lower("IN_BASE"@).len() != ascii_lower("IN_PPM"@).len());
        assert(ascii_lower("IN_BASE"@).len() != ascii_lower("ALIAS"@).len());
        assert(ascii_lower("IN_BASE"@)[0] != ascii_lower("PEER_ID"@)[0]);
        assert(ascii_lower("IN_BASE"@).len() != ascii_lower("UPTIME"@).len());
        assert(ascii_lower("IN_BASE"@).len() != ascii_lower("HTLCS"@).len());
        assert(ascii_lower("IN_BASE"@).len() != ascii_lower("STATE"@).len());
        assert(ascii_lower("IN_BASE"@)[0] != ascii_lower("PERC_US"@)[0]);
        assert(ascii_lower("IN_BASE"@).len() != ascii_lower("PING"@).len());
        assert(ascii_lower("PPM"@).len() != ascii_lower("IN_PPM"@).len());
        assert(ascii_lower("PPM"@).len() != ascii_lower("ALIAS"@).len());
        assert(ascii_lower("PPM"@).len() != ascii_lower("PEER_ID"@).len());
        assert(ascii_lower("PPM"@).len() != ascii_lower("UPTIME"@).len());
        assert(ascii_lower("PPM"@).len() != ascii_lower("HTLCS"@).len());
        assert(ascii_lower("PPM"@).len() != ascii_lower("STATE"@).len());
        assert(ascii_lower("PPM"@).len() != ascii_lower("PERC_US"@).len());
        assert(ascii_lower("PPM"@).len() != ascii_lower("PING"@).len());
        assert(ascii_lower("IN_PPM"@).len() != ascii_lower("ALIAS"@).len());
        assert(ascii_lower("IN_PPM"@).len() != ascii_lower("PEER_ID"@).len());
        assert(ascii_lower("IN_PPM"@)[0] != ascii_lower("UPTIME"@)[0]);
        assert(ascii_lower("IN_PPM"@).len() != ascii_lower("HTLCS"@).len());
        assert(ascii_lower("IN_PPM"@).len() != ascii_lower("STATE"@).len());
        assert(ascii_lower("IN_PPM"@).len() != ascii_lower("PERC_US"@).len());
        assert(ascii_lower("IN_PPM"@).len() != ascii_lower("PING"@).len());
        assert(ascii_lower("ALIAS"@).len() != ascii_lower("PEER_ID"@).len());
        assert(ascii_lower("ALIAS"@).len() != ascii_lower("UPTIME"@).len());
        assert(ascii_lower("ALIAS"@)[0] != ascii_lower("HTLCS"@)[0]);
        assert(ascii_lower("ALIAS"@)[0] != ascii_lower("STATE"@)[0]);
        assert(ascii_lower("ALIAS"@).len() != ascii_lower("PERC_US"@).len());
        assert(ascii_lower("ALIAS"@).len() != ascii_lower("PING"@).len());
        assert(ascii_lower("PEER_ID"@).len() != ascii_lower("UPTIME"@).len());
        assert(ascii_lower("PEER_ID"@).len() != ascii_lower("HTLCS"@).len());
        assert(ascii_lower("PEER_ID"@).len() != ascii_lower("STATE"@).len());
        assert(ascii_lower("PEER_ID"@)[2] != ascii_lower("PERC_US"@)[2]);
        assert(ascii_lower("PEER_ID"@).len() != ascii_lower("PING"@).len());
        assert(ascii_lower("UPTIME"@).len() != ascii_lower("HTLCS"@).len());
        assert(ascii_lower("UPTIME"@).len() != ascii_lower("STATE"@).len());
        assert(ascii_lower("UPTIME"@).len() != ascii_lower("PERC_US"@).len());
        assert(ascii_lower("UPTIME"@).len() != ascii_lower("PING"@).len());
        assert(ascii_lower("HTLCS"@)[0] != ascii_lower("STATE"@)[0]);
        assert(ascii_lower("HTLCS"@).len() != ascii_lower("PERC_US"@).len());
        assert(ascii_lower("HTLCS"@).len() != ascii_lower("PING"@).len());
        assert(ascii_lower("STATE"@).len() != ascii_lower("PERC_US"@).len());
        assert(ascii_lower("STATE"@).len() != ascii_lower("PING"@).len());
        assert(ascii_lower("PERC_US"@).len() != ascii_lower("PING"@).len());
        assert forall|a: Self, b: Self| a != b implies ascii_lower(#[trigger] a.col_name()) != ascii_lower(
            #[trigger] b.col_name(),
        ) by {
        }
        assert forall|c: Self| #[trigger] c.col_name().len() > 0 && no_sep_or_ws(c.col_name()) by {
        }
    }

    fn all() -> (r: Vec<Self>) {
        let mut v: Vec<Self> = Vec::new();
        v.push(SummaryColumns::GRAPH_SATS);
        v.push(SummaryColumns::OUT_SATS);
        v.push(SummaryColumns::IN_SATS);
        v.push(SummaryColumns::TOTAL_SATS);
        v.push(SummaryColumns::SCID);
        v.push(SummaryColumns::MAX_HTLC);
        v.push(SummaryColumns::MIN_HTLC);
        v.push(SummaryColumns::FLAG);
        v.push(SummaryColumns::BASE);
        v.push(SummaryColumns::IN_BASE);
        v.push(SummaryColumns::PPM);
        v.push(SummaryColumns::IN_PPM);
        v.push(SummaryColumns::ALIAS);
        v.push(SummaryColumns::PEER_ID);
        v.push(SummaryColumns::UPTIME);
        v.push(SummaryColumns::HTLCS);
        v.push(SummaryColumns::STATE);
        v.push(SummaryColumns::PERC_US);
        v.push(SummaryColumns::PING);
        proof {
            assert(v@ =~= Self::spec_all());
        }
        v
    }

    fn name(self) -> (r: &'static str) {
        match self {
            SummaryColumns::GRAPH_SATS => "GRAPH_SATS",
            SummaryColumns::OUT_SATS => "OUT_SATS",
            SummaryColumns::IN_SATS => "IN_SATS",
            SummaryColumns::TOTAL_SATS => "TOTAL_SATS",
            SummaryColumns::SCID => "SCID",
            SummaryColumns::MAX_HTLC => "MAX_HTLC",
            SummaryColumns::MIN_HTLC => "MIN_HTLC",
            SummaryColumns::FLAG => "FLAG",
            SummaryColumns::BASE => "BASE",
            SummaryColumns::IN_BASE => "IN_BASE",
            SummaryColumns::PPM => "PPM",
            SummaryColumns::IN_PPM => "IN_PPM",
            SummaryColumns::ALIAS => "ALIAS",
            SummaryColumns::PEER_ID => "PEER_ID",
            SummaryColumns::UPTIME => "UPTIME",
            SummaryColumns::HTLCS => "HTLCS",
            SummaryColumns::STATE => "STATE",
            SummaryColumns::PERC_US => "PERC_US",
            SummaryColumns::PING => "PING",
        }
    }

    fn pos(self) -> (r: usize) {
        match self {
            SummaryColumns::GRAPH_SATS => 0,
            SummaryColumns::OUT_SATS => 1,
            SummaryColumns::IN_SATS => 2,
            SummaryColumns::TOTAL_SATS => 3,
            SummaryColumns::SCID => 4,
            SummaryColumns::MAX_HTLC => 5,
            SummaryColumns::MIN_HTLC => 6,
            SummaryColumns::FLAG => 7,
            SummaryColumns::BASE => 8,
            SummaryColumns::IN_BASE => 9,
            SummaryColumns::PPM => 10,
            SummaryColumns::IN_PPM => 11,
            SummaryColumns::ALIAS => 12,
            SummaryColumns::PEER_ID => 13,
            SummaryColumns::UPTIME => 14,
            SummaryColumns::HTLCS => 15,
            SummaryColumns::STATE => 16,
            SummaryColumns::PERC_US => 17,
            SummaryColumns::PING => 18,
        }
    }

    fn excluded_by_default(self) -> (r: bool) {
        matches!(self, SummaryColumns::GRAPH_SATS | SummaryColumns::PERC_US | SummaryColumns::TOTAL_SATS | SummaryColumns::MIN_HTLC | SummaryColumns::IN_BASE | SummaryColumns::IN_PPM | SummaryColumns::PING)
    }

    fn numerical() -> (r: Vec<Self>) {
        let mut v: Vec<Self> = Vec::new();
        v.push(SummaryColumns::OUT_SATS);
        v.push(SummaryColumns::IN_SATS);
        v.push(SummaryColumns::TOTAL_SATS);
        v.push(SummaryColumns::MIN_HTLC);
        v.push(SummaryColumns::MAX_HTLC);
        v.push(SummaryColumns::BASE);
        v.push(SummaryColumns::PPM);
        proof {
            assert(v@ =~= Self::spec_numerical());
        }
        v
    }

    fn optional_numerical() -> (r: Vec<Self>) {
        let mut v: Vec<Self> = Vec::new();
        v.push(SummaryColumns::IN_BASE);
        v.push(SummaryColumns::IN_PPM);
        proof {
            assert(v@ =~= Self::spec_optional_numerical());
        }
        v
    }
}

/// The columns of the closed channels table, in their canonical order.
#[allow(non_camel_case_types)]
#[derive(Debug, Clone, Copy, PartialEq, Eq, Hash, Structural)]
pub enum ClosedChannelsColumns {
    LAST_CONNECT,
    OUT_SATS,
    IN_SATS,
    TOTAL_SATS,
    SCID,
    FLAG,
    ALIAS,
    PEER_ID,
    HTLCS_SENT,
    CLOSE_CAUSE,
}

impl TableColumn for ClosedChannelsColumns {
    open spec fn spec_all() -> Seq<Self> {
        seq![ClosedChannelsColumns::LAST_CONNECT, ClosedChannelsColumns::OUT_SATS, ClosedChannelsColumns::IN_SATS, ClosedChannelsColumns::TOTAL_SATS, ClosedChannelsColumns::SCID, ClosedChannelsColumns::FLAG, ClosedChannelsColumns::ALIAS, ClosedChannelsColumns::PEER_ID, ClosedChannelsColumns::HTLCS_SENT, ClosedChannelsColumns::CLOSE_CAUSE]
    }

    open spec fn col_name(self) -> Seq<char> {
        match self {
            ClosedChannelsColumns::LAST_CONNECT => "LAST_CONNECT"@,
            ClosedChannelsColumns::OUT_SATS => "OUT_SATS"@,
            ClosedChannelsColumns::IN_SATS => "IN_SATS"@,
            ClosedChannelsColumns::TOTAL_SATS => "TOTAL_SATS"@,
            ClosedChannelsColumns::SCID => "SCID"@,
            ClosedChannelsColumns::FLAG => "FLAG"@,
            ClosedChannelsColumns::ALIAS => "ALIAS"@,
            ClosedChannelsColumns::PEER_ID => "PEER_ID"@,
            ClosedChannelsColumns::HTLCS_SENT => "HTLCS_SENT"@,
            ClosedChannelsColumns::CLOSE_CAUSE => "CLOSE_CAUSE"@,
        }
    }

    open spec fn col_pos(self) -> int {
        match self {
            ClosedChannelsColumns::LAST_CONNECT => 0,
            ClosedChannelsColumns::OUT_SATS => 1,
            ClosedChannelsColumns::IN_SATS => 2,
            ClosedChannelsColumns::TOTAL_SATS => 3,
            ClosedChannelsColumns::SCID => 4,
            ClosedChannelsColumns::FLAG => 5,
            ClosedChannelsColumns::ALIAS => 6,
            ClosedChannelsColumns::PEER_ID => 7,
            ClosedChannelsColumns::HTLCS_SENT => 8,
            ClosedChannelsColumns::CLOSE_CAUSE => 9,
        }
    }

    open spec fn default_excluded(self) -> bool {
        self == ClosedChannelsColumns::TOTAL_SATS
    }

    open spec fn spec_numerical() -> Seq<Self> {
        seq![ClosedChannelsColumns::OUT_SATS, ClosedChannelsColumns::IN_SATS, ClosedChannelsColumns::TOTAL_SATS]
    }

    open spec fn spec_optional_numerical() -> Seq<Self> {
        Seq::empty()
    }

    proof fn lemma_columns_wf() {
        reveal_strlit("LAST_CONNECT");
        reveal_strlit("OUT_SATS");
        reveal_strlit("IN_SATS");
        reveal_strlit("TOTAL_SATS");
        reveal_strlit("SCID");
        reveal_strlit("FLAG");
        reveal_strlit("ALIAS");
        reveal_strlit("PEER_ID");
        reveal_strlit("HTLCS_SENT");
        reveal_strlit("CLOSE_CAUSE");
        assert("LAST_CONNECT"@.len() == 12);
        assert("OUT_SATS"@.len() == 8);
        assert("IN_SATS"@.len() == 7);
        assert("TOTAL_SATS"@.len() == 10);
        assert("SCID"@.len() == 4);
        assert("FLAG"@.len() == 4);
        assert("ALIAS"@.len() == 5);
        assert("PEER_ID"@.len() == 7);
        assert("HTLCS_SENT"@.len() == 10);
        assert("CLOSE_CAUSE"@.len() == 11);
        assert("FLAG"@[0] == 'F');
        assert("HTLCS_SENT"@[0] == 'H');
        assert("IN_SATS"@[0] == 'I');
        assert("PEER_ID"@[0] == 'P');
        assert("SCID"@[0] == 'S');
        assert("TOTAL_SATS"@[0] == 'T');
        assert(ascii_lower("LAST_CONNECT"@).len() != ascii_lower("OUT_SATS"@).len());
        assert(ascii_lower("LAST_CONNECT"@).len() != ascii_lower("IN_SATS"@).len());
        assert(ascii_lower("LAST_CONNECT"@).len() != ascii_lower("TOTAL_SATS"@).len());
        assert(ascii_lower("LAST_CONNECT"@).len() != ascii_lower("SCID"@).len());
        assert(ascii_lower("LAST_CONNECT"@).len() != ascii_lower("FLAG"@).len());
        assert(ascii_lower("LAST_CONNECT"@).len() != ascii_lower("ALIAS"@).len());
        assert(ascii_lower("LAST_CONNECT"@).len() != ascii_lower("PEER_ID"@).len());
        assert(ascii_lower("LAST_CONNECT"@).len() != ascii_lower("HTLCS_SENT"@).len());
        assert(ascii_lower("LAST_CONNECT"@).len() != ascii_lower("CLOSE_CAUSE"@).len());
        assert(ascii_lower("OUT_SATS"@).len() != ascii_lower("IN_SATS"@).len());
        assert(ascii_lower("OUT_SATS"@).len() != ascii_lower("TOTAL_SATS"@).len());
        assert(ascii_lower("OUT_SATS"@).len() != ascii_lower("SCID"@).len());
        assert(ascii_lower("OUT_SATS"@).len() != ascii_lower("FLAG"@).len());
        assert(ascii_lower("OUT_SATS"@).len() != ascii_lower("ALIAS"@).len());
        assert(ascii_lower("OUT_SATS"@).len() != ascii_lower("PEER_ID"@).len());
        assert(ascii_lower("OUT_SATS"@).len() != ascii_lower("HTLCS_SENT"@).len());
        assert(ascii_lower("OUT_SATS"@).len() != ascii_lower("CLOSE_CAUSE"@).len());
        assert(ascii_lower("IN_SATS"@).len() != ascii_lower("TOTAL_SATS"@).len());
        assert(ascii_lower("IN_SATS"@).len() != ascii_lower("SCID"@).len());
        assert(ascii_lower("IN_SATS"@).len() != ascii_lower("FLAG"@).len());
        assert(ascii_lower("IN_SATS"@).len() != ascii_lower("ALIAS"@).len());
        assert(ascii_lower("IN_SATS"@)[0] != ascii_lower("PEER_ID"@)[0]);
        assert(ascii_lower("IN_SATS"@).len() != ascii_lower("HTLCS_SENT"@).len());
        assert(ascii_lower("IN_SATS"@).len() != ascii_lower("CLOSE_CAUSE"@).len());
        assert(ascii_lower("TOTAL_SATS"@).len() != ascii_lower("SCID"@).len());
        assert(ascii_lower("TOTAL_SATS"@).len() != ascii_lower("FLAG"@).len());
        assert(ascii_lower("TOTAL_SATS"@).len() != ascii_lower("ALIAS"@).len());
        assert(ascii_lower("TOTAL_SATS"@).len() != ascii_lower("PEER_ID"@).len());
        assert(ascii_lower("TOTAL_SATS"@)[0] != ascii_lower("HTLCS_SENT"@)[0]);
        assert(ascii_lower("TOTAL_SATS"@).len() != ascii_lower("CLOSE_CAUSE"@).len());
        assert(ascii_lower("SCID"@)[0] != ascii_lower("FLAG"@)[0]);
        assert(ascii_lower("SCID"@).len() != ascii_lower("ALIAS"@).len());
        assert(ascii_lower("SCID"@).len() != ascii_lower("PEER_ID"@).len());
        assert(ascii_lower("SCID"@).len() != ascii_lower("HTLCS_SENT"@).len());
        assert(ascii_lower("SCID"@).len() != ascii_lower("CLOSE_CAUSE"@).len());
        assert(ascii_lower("FLAG"@).len() != ascii_lower("ALIAS"@).len());
        assert(ascii_lower("FLAG"@).len() != ascii_lower("PEER_ID"@).len());
        assert(ascii_lower("FLAG"@).len() != ascii_lower("HTLCS_SENT"@).len());
        assert(ascii_lower("FLAG"@).len() != ascii_lower("CLOSE_CAUSE"@).len());
        assert(ascii_lower("ALIAS"@).len() != ascii_lower("PEER_ID"@).len());
        assert(ascii_lower("ALIAS"@).len() != ascii_lower("HTLCS_SENT"@).len());
        assert(ascii_lower("ALIAS"@).len() != ascii_lower("CLOSE_CAUSE"@).len());
        assert(ascii_lower("PEER_ID"@).len() != ascii_lower("HTLCS_SENT"@).len());
        assert(ascii_lower("PEER_ID"@).len() != ascii_lower("CLOSE_CAUSE"@).len());
        assert(ascii_lower("HTLCS_SENT"@).len() != ascii_lower("CLOSE_CAUSE"@).len());
        assert forall|a: Self, b: Self| a != b implies ascii_lower(#[trigger] a.col_name()) != ascii_lower(
            #[trigger] b.col_name(),
        ) by {
        }
        assert forall|c: Self| #[trigger] c.col_name().len() > 0 && no_sep_or_ws(c.col_name()) by {
        }
    }

    fn all() -> (r: Vec<Self>) {
        let mut v: Vec<Self> = Vec::new();
        v.push(ClosedChannelsColumns::LAST_CONNECT);
        v.push(ClosedChannelsColumns::OUT_SATS);
        v.push(ClosedChannelsColumns::IN_SATS);
        v.push(ClosedChannelsColumns::TOTAL_SATS);
        v.push(ClosedChannelsColumns::SCID);
        v.push(ClosedChannelsColumns::FLAG);
        v.push(ClosedChannelsColumns::ALIAS);
        v.push(ClosedChannelsColumns::PEER_ID);
        v.push(ClosedChannelsColumns::HTLCS_SENT);
        v.push(ClosedChannelsColumns::CLOSE_CAUSE);
        proof {
            assert(v@ =~= Self::spec_all());
        }
        v
    }

    fn name(self) -> (r: &'static str) {
        match self {
            ClosedChannelsColumns::LAST_CONNECT => "LAST_CONNECT",
            ClosedChannelsColumns::OUT_SATS => "OUT_SATS",
            ClosedChannelsColumns::IN_SATS => "IN_SATS",
            ClosedChannelsColumns::TOTAL_SATS => "TOTAL_SATS",
            ClosedChannelsColumns::SCID => "SCID",
            ClosedChannelsColumns::FLAG => "FLAG",
            ClosedChannelsColumns::ALIAS => "ALIAS",
            ClosedChannelsColumns::PEER_ID => "PEER_ID",
            ClosedChannelsColumns::HTLCS_SENT => "HTLCS_SENT",
            ClosedChannelsColumns::CLOSE_CAUSE => "CLOSE_CAUSE",
        }
    }

    fn pos(self) -> (r: usize) {
        match self {
            ClosedChannelsColumns::LAST_CONNECT => 0,
            ClosedChannelsColumns::OUT_SATS => 1,
            ClosedChannelsColumns::IN_SATS => 2,
            ClosedChannelsColumns::TOTAL_SATS => 3,
            ClosedChannelsColumns::SCID => 4,
            ClosedChannelsColumns::FLAG => 5,
            ClosedChannelsColumns::ALIAS => 6,
            ClosedChannelsColumns::PEER_ID => 7,
            ClosedChannelsColumns::HTLCS_SENT => 8,
            ClosedChannelsColumns::CLOSE_CAUSE => 9,
        }
    }

    fn excluded_by_default(self) -> (r: bool) {
        matches!(self, ClosedChannelsColumns::TOTAL_SATS)
    }

    fn numerical() -> (r: Vec<Self>) {
        let mut v: Vec<Self> = Vec::new();
        v.push(ClosedChannelsColumns::OUT_SATS);
        v.push(ClosedChannelsColumns::IN_SATS);
        v.push(ClosedChannelsColumns::TOTAL_SATS);
        proof {
            assert(v@ =~= Self::spec_numerical());
        }
        v
    }

    fn optional_numerical() -> (r: Vec<Self>) {
        let mut v: Vec<Self> = Vec::new();
        proof {
            assert(v@ =~= Self::spec_optional_numerical());
        }
        v
    }
}

/// The columns of the forwards table, in their canonical order.
#[allow(non_camel_case_types)]
#[derive(Debug, Clone, Copy, PartialEq, Eq, Hash, Structural)]
pub enum ForwardsColumns {
    received_time,
    resolved_time,
    in_alias,
    out_alias,
    in_channel,
    out_channel,
    in_msats,
    out_msats,
    in_sats,
    out_sats,
    fee_msats,
    fee_sats,
    eff_fee_ppm,
}

impl TableColumn for ForwardsColumns {
    open spec fn spec_all() -> Seq<Self> {
        seq![ForwardsColumns::received_time, ForwardsColumns::resolved_time, ForwardsColumns::in_alias, ForwardsColumns::out_alias, ForwardsColumns::in_channel, ForwardsColumns::out_channel, ForwardsColumns::in_msats, ForwardsColumns::out_msats, ForwardsColumns::in_sats, ForwardsColumns::out_sats, ForwardsColumns::fee_msats, ForwardsColumns::fee_sats, ForwardsColumns::eff_fee_ppm]
    }

    open spec fn col_name(self) -> Seq<char> {
        match self {
            ForwardsColumns::received_time => "received_time"@,
            ForwardsColumns::resolved_time => "resolved_time"@,
            ForwardsColumns::in_alias => "in_alias"@,
            ForwardsColumns::out_alias => "out_alias"@,
            ForwardsColumns::in_channel => "in_channel"@,
            ForwardsColumns::out_channel => "out_channel"@,
            ForwardsColumns::in_msats => "in_msats"@,
            ForwardsColumns::out_msats => "out_msats"@,
            ForwardsColumns::in_sats => "in_sats"@,
            ForwardsColumns::out_sats => "out_sats"@,
            ForwardsColumns::fee_msats => "fee_msats"@,
            ForwardsColumns::fee_sats => "fee_sats"@,
            ForwardsColumns::eff_fee_ppm => "eff_fee_ppm"@,
        }
    }

    open spec fn col_pos(self) -> int {
        match self {
            ForwardsColumns::received_time => 0,
            ForwardsColumns::resolved_time => 1,
            ForwardsColumns::in_alias => 2,
            ForwardsColumns::out_alias => 3,
            ForwardsColumns::in_channel => 4,
            ForwardsColumns::out_channel => 5,
            ForwardsColumns::in_msats => 6,
            ForwardsColumns::out_msats => 7,
            ForwardsColumns::in_sats => 8,
            ForwardsColumns::out_sats => 9,
            ForwardsColumns::fee_msats => 10,
            ForwardsColumns::fee_sats => 11,
            ForwardsColumns::eff_fee_ppm => 12,
        }
    }

    open spec fn default_excluded(self) -> bool {
        self == ForwardsColumns::received_time || self == ForwardsColumns::in_msats || self == ForwardsColumns::out_msats || self == ForwardsColumns::fee_sats || self == ForwardsColumns::eff_fee_ppm || self == ForwardsColumns::in_channel || self == ForwardsColumns::out_channel
    }

    open spec fn spec_numerical() -> Seq<Self> {
        seq![ForwardsColumns::in_sats, ForwardsColumns::in_msats, ForwardsColumns::out_sats, ForwardsColumns::out_msats, ForwardsColumns::fee_sats, ForwardsColumns::fee_msats, ForwardsColumns::eff_fee_ppm]
    }

    open spec fn spec_optional_numerical() -> Seq<Self> {
        Seq::empty()
    }

    proof fn lemma_columns_wf() {
        reveal_strlit("received_time");
        reveal_strlit("resolved_time");
        reveal_strlit("in_alias");
        reveal_strlit("out_alias");
        reveal_strlit("in_channel");
        reveal_strlit("out_channel");
        reveal_strlit("in_msats");
        reveal_strlit("out_msats");
        reveal_strlit("in_sats");
        reveal_strlit("out_sats");
        reveal_strlit("fee_msats");
        reveal_strlit("fee_sats");
        reveal_strlit("eff_fee_ppm");
        assert("received_time"@.len() == 13);
        assert("resolved_time"@.len() == 13);
        assert("in_alias"@.len() == 8);
        assert("out_alias"@.len() == 9);
        assert("in_channel"@.len() == 10);
        assert("out_channel"@.len() == 11);
        assert("in_msats"@.len() == 8);
        assert("out_msats"@.len() == 9);
        assert("in_sats"@.len() == 7);
        assert("out_sats"@.len() == 8);
        assert("fee_msats"@.len() == 9);
        assert("fee_sats"@.len() == 8);
        assert("eff_fee_ppm"@.len() == 11);
        assert("eff_fee_ppm"@[0] == 'e');
        assert("fee_msats"@[0] == 'f');
        assert("fee_sats"@[0] == 'f');
        assert("in_alias"@[0] == 'i');
        assert("in_alias"@[3] == 'a');
        assert("in_msats"@[0] == 'i');
        assert("in_msats"@[3] == 'm');
        assert("out_alias"@[0] == 'o');
        assert("out_alias"@[4] == 'a');
        assert("out_channel"@[0] == 'o');
        assert("out_msats"@[0] == 'o');
        assert("out_msats"@[4] == 'm');
        assert("out_sats"@[0] == 'o');
        assert("received_time"@[2] == 'c');
        assert("resolved_time"@[2] == 's');
        assert(ascii_lower("received_time"@)[2] != ascii_lower("resolved_time"@)[2]);
        assert(ascii_lower("received_time"@).len() != ascii_lower("in_alias"@).len());
        assert(ascii_lower("received_time"@).len() != ascii_lower("out_alias"@).len());
        assert(ascii_lower("received_time"@).len() != ascii_lower("in_channel"@).len());
        assert(ascii_lower("received_time"@).len() != ascii_lower("out_channel"@).len());
        assert(ascii_lower("received_time"@).len() != ascii_lower("in_msats"@).len());
        assert(ascii_lower("received_time"@).len() != ascii_lower("out_msats"@).len());
        assert(ascii_lower("received_time"@).len() != ascii_lower("in_sats"@).len());
        assert(ascii_lower("received_time"@).len() != ascii_lower("out_sats"@).len());
        assert(ascii_lower("received_time"@).len() != ascii_lower("fee_msats"@).len());
        assert(ascii_lower("received_time"@).len() != ascii_lower("fee_sats"@).len());
        assert(ascii_lower("received_time"@).len() != ascii_lower("eff_fee_ppm"@).len());
        assert(ascii_lower("resolved_time"@).len() != ascii_lower("in_alias"@).len());
        assert(ascii_lower("resolved_time"@).len() != ascii_lower("out_alias"@).len());
        assert(ascii_lower("resolved_time"@).len() != ascii_lower("in_channel"@).len());
        assert(ascii_lower("resolved_time"@).len() != ascii_lower("out_channel"@).len());
        assert(ascii_lower("resolved_time"@).len() != ascii_lower("in_msats"@).len());
        assert(ascii_lower("resolved_time"@).len() != ascii_lower("out_msats"@).len());
        assert(ascii_lower("resolved_time"@).len() != ascii_lower("in_sats"@).len());
        assert(ascii_lower("resolved_time"@).len() != ascii_lower("out_sats"@).len());
        assert(ascii_lower("resolved_time"@).len() != ascii_lower("fee_msats"@).len());
        assert(ascii_lower("resolved_time"@).len() != ascii_lower("fee_sats"@).len());
        assert(ascii_lower("resolved_time"@).len() != ascii_lower("eff_fee_ppm"@).len());
        assert(ascii_lower("in_alias"@).len() != ascii_lower("out_alias"@).len());
        assert(ascii_lower("in_alias"@).len() != ascii_lower("in_channel"@).len());
        assert(ascii_lower("in_alias"@).len() != ascii_lower("out_channel"@).len());
        assert(ascii_lower("in_alias"@)[3] != ascii_lower("in_msats"@)[3]);
        assert(ascii_lower("in_alias"@).len() != ascii_lower("out_msats"@).len());
        assert(ascii_lower("in_alias"@).len() != ascii_lower("in_sats"@).len());
        assert(ascii_lower("in_alias"@)[0] != ascii_lower("out_sats"@)[0]);
        assert(ascii_lower("in_alias"@).len() != ascii_lower("fee_msats"@).len());
        assert(ascii_lower("in_alias"@)[0] != ascii_lower("fee_sats"@)[0]);
        assert(ascii_lower("in_alias"@).len() != ascii_lower("eff_fee_ppm"@).len());
        assert(ascii_lower("out_alias"@).len() != ascii_lower("in_channel"@).len());
        assert(ascii_lower("out_alias"@).len() != ascii_lower("out_channel"@).len());
        assert(ascii_lower("out_alias"@).len() != ascii_lower("in_msats"@).len());
        assert(ascii_lower("out_alias"@)[4] != ascii_lower("out_msats"@)[4]);
        assert(ascii_lower("out_alias"@).len() != ascii_lower("in_sats"@).len());
        assert(ascii_lower("out_alias"@).len() != ascii_lower("out_sats"@).len());
        assert(ascii_lower("out_alias"@)[0] != ascii_lower("fee_msats"@)[0]);
        assert(ascii_lower("out_alias"@).len() != ascii_lower("fee_sats"@).len());
        assert(ascii_lower("out_alias"@).len() != ascii_lower("eff_fee_ppm"@).len());
        assert(ascii_lower("in_channel"@).len() != ascii_lower("out_channel"@).len());
        assert(ascii_lower("in_channel"@).len() != ascii_lower("in_msats"@).len());
        assert(ascii_lower("in_channel"@).len() != ascii_lower("out_msats"@).len());
        assert(ascii_lower("in_channel"@).len() != ascii_lower("in_sats"@).len());
        assert(ascii_lower("in_channel"@).len() != ascii_lower("out_sats"@).len());
        assert(ascii_lower("in_channel"@).len() != ascii_lower("fee_msats"@).len());
        assert(ascii_lower("in_channel"@).len() != ascii_lower("fee_sats"@).len());
        assert(ascii_lower("in_channel"@).len() != ascii_lower("eff_fee_ppm"@).len());
        assert(ascii_lower("out_channel"@).len() != ascii_lower("in_msats"@).len());
        assert(ascii_lower("out_channel"@).len() != ascii_lower("out_msats"@).len());
        assert(ascii_lower("out_channel"@).len() != ascii_lower("in_sats"@).len());
        assert(ascii_lower("out_channel"@).len() != ascii_lower("out_sats"@).len());
        assert(ascii_lower("out_channel"@).len() != ascii_lower("fee_msats"@).len());
        assert(ascii_lower("out_channel"@).len() != ascii_lower("fee_sats"@).len());
        assert(ascii_lower("out_channel"@)[0] != ascii_lower("eff_fee_ppm"@)[0]);
        assert(ascii_lower("in_msats"@).len() != ascii_lower("out_msats"@).len());
        assert(ascii_lower("in_msats"@).len() != ascii_lower("in_sats"@).len());
        assert(ascii_lower("in_msats"@)[0] != ascii_lower("out_sats"@)[0]);
        assert(ascii_lower("in_msats"@).len() != ascii_lower("fee_msats"@).len());
        assert(ascii_lower("in_msats"@)[0] != ascii_lower("fee_sats"@)[0]);
        assert(ascii_lower("in_msats"@).len() != ascii_lower("eff_fee_ppm"@).len());
        assert(ascii_lower("out_msats"@).len() != ascii_lower("in_sats"@).len());
        assert(ascii_lower("out_msats"@).len() != ascii_lower("out_sats"@).len());
        assert(ascii_lower("out_msats"@)[0] != ascii_lower("fee_msats"@)[0]);
        assert(ascii_lower("out_msats"@).len() != ascii_lower("fee_sats"@).len());
        assert(ascii_lower("out_msats"@).len() != ascii_lower("eff_fee_ppm"@).len());
        assert(ascii_lower("in_sats"@).len() != ascii_lower("out_sats"@).len());
        assert(ascii_lower("in_sats"@).len() != ascii_lower("fee_msats"@).len());
        assert(ascii_lower("in_sats"@).len() != ascii_lower("fee_sats"@).len());
        assert(ascii_lower("in_sats"@).len() != ascii_lower("eff_fee_ppm"@).len());
        assert(ascii_lower("out_sats"@).len() != ascii_lower("fee_msats"@).len());
        assert(ascii_lower("out_sats"@)[0] != ascii_lower("fee_sats"@)[0]);
        assert(ascii_lower("out_sats"@).len() != ascii_lower("eff_fee_ppm"@).len());
        assert(ascii_lower("fee_msats"@).len() != ascii_lower("fee_sats"@).len());
        assert(ascii_lower("fee_msats"@).len() != ascii_lower("eff_fee_ppm"@).len());
        assert(ascii_lower("fee_sats"@).len() != ascii_lower("eff_fee_ppm"@).len());
        assert forall|a: Self, b: Self| a != b implies ascii_lower(#[trigger] a.col_name()) != ascii_lower(
            #[trigger] b.col_name(),
        ) by {
        }
        assert forall|c: Self| #[trigger] c.col_name().len() > 0 && no_sep_or_ws(c.col_name()) by {
        }
    }

    fn all() -> (r: Vec<Self>) {
        let mut v: Vec<Self> = Vec::new();
        v.push(ForwardsColumns::received_time);
        v.push(ForwardsColumns::resolved_time);
        v.push(ForwardsColumns::in_alias);
        v.push(ForwardsColumns::out_alias);
        v.push(ForwardsColumns::in_channel);
        v.push(ForwardsColumns::out_channel);
        v.push(ForwardsColumns::in_msats);
        v.push(ForwardsColumns::out_msats);
        v.push(ForwardsColumns::in_sats);
        v.push(ForwardsColumns::out_sats);
        v.push(ForwardsColumns::fee_msats);
        v.push(ForwardsColumns::fee_sats);
        v.push(ForwardsColumns::eff_fee_ppm);
        proof {
            assert(v@ =~= Self::spec_all());
        }
        v
    }

    fn name(self) -> (r: &'static str) {
        match self {
            ForwardsColumns::received_time => "received_time",
            ForwardsColumns::resolved_time => "resolved_time",
            ForwardsColumns::in_alias => "in_alias",
            ForwardsColumns::out_alias => "out_alias",
            ForwardsColumns::in_channel => "in_channel",
            ForwardsColumns::out_channel => "out_channel",
            ForwardsColumns::in_msats => "in_msats",
            ForwardsColumns::out_msats => "out_msats",
            ForwardsColumns::in_sats => "in_sats",
            ForwardsColumns::out_sats => "out_sats",
            ForwardsColumns::fee_msats => "fee_msats",
            ForwardsColumns::fee_sats => "fee_sats",
            ForwardsColumns::eff_fee_ppm => "eff_fee_ppm",
        }
    }

    fn pos(self) -> (r: usize) {
        match self {
            ForwardsColumns::received_time => 0,
            ForwardsColumns::resolved_time => 1,
            ForwardsColumns::in_alias => 2,
            ForwardsColumns::out_alias => 3,
            ForwardsColumns::in_channel => 4,
            ForwardsColumns::out_channel => 5,
            ForwardsColumns::in_msats => 6,
            ForwardsColumns::out_msats => 7,
            ForwardsColumns::in_sats => 8,
            ForwardsColumns::out_sats => 9,
            ForwardsColumns::fee_msats => 10,
            ForwardsColumns::fee_sats => 11,
            ForwardsColumns::eff_fee_ppm => 12,
        }
    }

    fn excluded_by_default(self) -> (r: bool) {
        matches!(self, ForwardsColumns::received_time | ForwardsColumns::in_msats | ForwardsColumns::out_msats | ForwardsColumns::fee_sats | ForwardsColumns::eff_fee_ppm | ForwardsColumns::in_channel | ForwardsColumns::out_channel)
    }

    fn numerical() -> (r: Vec<Self>) {
        let mut v: Vec<Self> = Vec::new();
        v.push(ForwardsColumns::in_sats);
        v.push(ForwardsColumns::in_msats);
        v.push(ForwardsColumns::out_sats);
        v.push(ForwardsColumns::out_msats);
        v.push(ForwardsColumns::fee_sats);
        v.push(ForwardsColumns::fee_msats);
        v.push(ForwardsColumns::eff_fee_ppm);
        proof {
            assert(v@ =~= Self::spec_numerical());
        }
        v
    }

    fn optional_numerical() -> (r: Vec<Self>) {
        let mut v: Vec<Self> = Vec::new();
        proof {
            assert(v@ =~= Self::spec_optional_numerical());
        }
        v
    }
}

/// The columns of the pays table, in their canonical order.
#[allow(non_camel_case_types)]
#[derive(Debug, Clone, Copy, PartialEq, Eq, Hash, Structural)]
pub enum PaysColumns {
    completed_at,
    payment_hash,
    msats_requested,
    sats_requested,
    msats_sent,
    sats_sent,
    fee_msats,
    fee_sats,
    destination,
    description,
    preimage,
}

impl TableColumn for PaysColumns {
    open spec fn spec_all() -> Seq<Self> {
        seq![PaysColumns::completed_at, PaysColumns::payment_hash, PaysColumns::msats_requested, PaysColumns::sats_requested, PaysColumns::msats_sent, PaysColumns::sats_sent, PaysColumns::fee_msats, PaysColumns::fee_sats, PaysColumns::destination, PaysColumns::description, PaysColumns::preimage]
    }

    open spec fn col_name(self) -> Seq<char> {
        match self {
            PaysColumns::completed_at => "completed_at"@,
            PaysColumns::payment_hash => "payment_hash"@,
            PaysColumns::msats_requested => "msats_requested"@,
            PaysColumns::sats_requested => "sats_requested"@,
            PaysColumns::msats_sent => "msats_sent"@,
            PaysColumns::sats_sent => "sats_sent"@,
            PaysColumns::fee_msats => "fee_msats"@,
            PaysColumns::fee_sats => "fee_sats"@,
            PaysColumns::destination => "destination"@,
            PaysColumns::description => "description"@,
            PaysColumns::preimage => "preimage"@,
        }
    }

    open spec fn col_pos(self) -> int {
        match self {
            PaysColumns::completed_at => 0,
            PaysColumns::payment_hash => 1,
            PaysColumns::msats_requested => 2,
            PaysColumns::sats_requested => 3,
            PaysColumns::msats_sent => 4,
            PaysColumns::sats_sent => 5,
            PaysColumns::fee_msats => 6,
            PaysColumns::fee_sats => 7,
            PaysColumns::destination => 8,
            PaysColumns::description => 9,
            PaysColumns::preimage => 10,
        }
    }

    open spec fn default_excluded(self) -> bool {
        self == PaysColumns::description || self == PaysColumns::preimage || self == PaysColumns::sats_requested || self == PaysColumns::msats_requested || self == PaysColumns::msats_sent || self == PaysColumns::fee_msats
    }

    open spec fn spec_numerical() -> Seq<Self> {
        seq![PaysColumns::sats_sent, PaysColumns::msats_sent]
    }

    open spec fn spec_optional_numerical() -> Seq<Self> {
        seq![PaysColumns::sats_requested, PaysColumns::msats_requested, PaysColumns::fee_sats, PaysColumns::fee_msats]
    }

    proof fn lemma_columns_wf() {
        reveal_strlit("completed_at");
        reveal_strlit("payment_hash");
        reveal_strlit("msats_requested");
        reveal_strlit("sats_requested");
        reveal_strlit("msats_sent");
        reveal_strlit("sats_sent");
        reveal_strlit("fee_msats");
        reveal_strlit("fee_sats");
        reveal_strlit("destination");
        reveal_strlit("description");
        reveal_strlit("preimage");
        assert("completed_at"@.len() == 12);
        assert("payment_hash"@.len() == 12);
        assert("msats_requested"@.len() == 15);
        assert("sats_requested"@.len() == 14);
        assert("msats_sent"@.len() == 10);
        assert("sats_sent"@.len() == 9);
        assert("fee_msats"@.len() == 9);
        assert("fee_sats"@.len() == 8);
        assert("destination"@.len() == 11);
        assert("description"@.len() == 11);
        assert("preimage"@.len() == 8);
        assert("completed_at"@[0] == 'c');
        assert("description"@[3] == 'c');
        assert("destination"@[3] == 't');
        assert("fee_msats"@[0] == 'f');
        assert("fee_sats"@[0] == 'f');
        assert("payment_hash"@[0] == 'p');
        assert("preimage"@[0] == 'p');
        assert("sats_sent"@[0] == 's');
        assert(ascii_lower("completed_at"@)[0] != ascii_lower("payment_hash"@)[0]);
        assert(ascii_lower("completed_at"@).len() != ascii_lower("msats_requested"@).len());
        assert(ascii_lower("completed_at"@).len() != ascii_lower("sats_requested"@).len());
        assert(ascii_lower("completed_at"@).len() != ascii_lower("msats_sent"@).len());
        assert(ascii_lower("completed_at"@).len() != ascii_lower("sats_sent"@).len());
        assert(ascii_lower("completed_at"@).len() != ascii_lower("fee_msats"@).len());
        assert(ascii_lower("completed_at"@).len() != ascii_lower("fee_sats"@).len());
        assert(ascii_lower("completed_at"@).len() != ascii_lower("destination"@).len());
        assert(ascii_lower("completed_at"@).len() != ascii_lower("description"@).len());
        assert(ascii_lower("completed_at"@).len() != ascii_lower("preimage"@).len());
        assert(ascii_lower("payment_hash"@).len() != ascii_lower("msats_requested"@).len());
        assert(ascii_lower("payment_hash"@).len() != ascii_lower("sats_requested"@).len());
        assert(ascii_lower("payment_hash"@).len() != ascii_lower("msats_sent"@).len());
        assert(ascii_lower("payment_hash"@).len() != ascii_lower("sats_sent"@).len());
        assert(ascii_lower("payment_hash"@).len() != ascii_lower("fee_msats"@).len());
        assert(ascii_lower("payment_hash"@).len() != ascii_lower("fee_sats"@).len());
        assert(ascii_lower("payment_hash"@).len() != ascii_lower("destination"@).len());
        assert(ascii_lower("payment_hash"@).len() != ascii_lower("description"@).len());
        assert(ascii_lower("payment_hash"@).len() != ascii_lower("preimage"@).len());
        assert(ascii_lower("msats_requested"@).len() != ascii_lower("sats_requested"@).len());
        assert(ascii_lower("msats_requested"@).len() != ascii_lower("msats_sent"@).len());
        assert(ascii_lower("msats_requested"@).len() != ascii_lower("sats_sent"@).len());
        assert(ascii_lower("msats_requested"@).len() != ascii_lower("fee_msats"@).len());
        assert(ascii_lower("msats_requested"@).len() != ascii_lower("fee_sats"@).len());
        assert(ascii_lower("msats_requested"@).len() != ascii_lower("destination"@).len());
        assert(ascii_lower("msats_requested"@).len() != ascii_lower("description"@).len());
        assert(ascii_lower("msats_requested"@).len() != ascii_lower("preimage"@).len());
        assert(ascii_lower("sats_requested"@).len() != ascii_lower("msats_sent"@).len());
        assert(ascii_lower("sats_requested"@).len() != ascii_lower("sats_sent"@).len());
        assert(ascii_lower("sats_requested"@).len() != ascii_lower("fee_msats"@).len());
        assert(ascii_lower("sats_requested"@).len() != ascii_lower("fee_sats"@).len());
        assert(ascii_lower("sats_requested"@).len() != ascii_lower("destination"@).len());
        assert(ascii_lower("sats_requested"@).len() != ascii_lower("description"@).len());
        assert(ascii_lower("sats_requested"@).len() != ascii_lower("preimage"@).len());
        assert(ascii_lower("msats_sent"@).len() != ascii_lower("sats_sent"@).len());
        assert(ascii_lower("msats_sent"@).len() != ascii_lower("fee_msats"@).len());
        assert(ascii_lower("msats_sent"@).len() != ascii_lower("fee_sats"@).len());
        assert(ascii_lower("msats_sent"@).len() != ascii_lower("destination"@).len());
        assert(ascii_lower("msats_sent"@).len() != ascii_lower("description"@).len());
        assert(ascii_lower("msats_sent"@).len() != ascii_lower("preimage"@).len());
        assert(ascii_lower("sats_sent"@)[0] != ascii_lower("fee_msats"@)[0]);
        assert(ascii_lower("sats_sent"@).len() != ascii_lower("fee_sats"@).len());
        assert(ascii_lower("sats_sent"@).len() != ascii_lower("destination"@).len());
        assert(ascii_lower("sats_sent"@).len() != ascii_lower("description"@).len());
        assert(ascii_lower("sats_sent"@).len() != ascii_lower("preimage"@).len());
        assert(ascii_lower("fee_msats"@).len() != ascii_lower("fee_sats"@).len());
        assert(ascii_lower("fee_msats"@).len() != ascii_lower("destination"@).len());
        assert(ascii_lower("fee_msats"@).len() != ascii_lower("description"@).len());
        assert(ascii_lower("fee_msats"@).len() != ascii_lower("preimage"@).len());
        assert(ascii_lower("fee_sats"@).len() != ascii_lower("destination"@).len());
        assert(ascii_lower("fee_sats"@).len() != ascii_lower("description"@).len());
        assert(ascii_lower("fee_sats"@)[0] != ascii_lower("preimage"@)[0]);
        assert(ascii_lower("destination"@)[3] != ascii_lower("description"@)[3]);
        assert(ascii_lower("destination"@).len() != ascii_lower("preimage"@).len());
        assert(ascii_lower("description"@).len() != ascii_lower("preimage"@).len());
        assert forall|a: Self, b: Self| a != b implies ascii_lower(#[trigger] a.col_name()) != ascii_lower(
            #[trigger] b.col_name(),
        ) by {
        }
        assert forall|c: Self| #[trigger] c.col_name().len() > 0 && no_sep_or_ws(c.col_name()) by {
        }
    }

    fn all() -> (r: Vec<Self>) {
        let mut v: Vec<Self> = Vec::new();
        v.push(PaysColumns::completed_at);
        v.push(PaysColumns::payment_hash);
        v.push(PaysColumns::msats_requested);
        v.push(PaysColumns::sats_requested);
        v.push(PaysColumns::msats_sent);
        v.push(PaysColumns::sats_sent);
        v.push(PaysColumns::fee_msats);
        v.push(PaysColumns::fee_sats);
        v.push(PaysColumns::destination);
        v.push(PaysColumns::description);
        v.push(PaysColumns::preimage);
        proof {
            assert(v@ =~= Self::spec_all());
        }
        v
    }

    fn name(self) -> (r: &'static str) {
        match self {
            PaysColumns::completed_at => "completed_at",
            PaysColumns::payment_hash => "payment_hash",
            PaysColumns::msats_requested => "msats_requested",
            PaysColumns::sats_requested => "sats_requested",
            PaysColumns::msats_sent => "msats_sent",
            PaysColumns::sats_sent => "sats_sent",
            PaysColumns::fee_msats => "fee_msats",
            PaysColumns::fee_sats => "fee_sats",
            PaysColumns::destination => "destination",
            PaysColumns::description => "description",
            PaysColumns::preimage => "preimage",
        }
    }

    fn pos(self) -> (r: usize) {
        match self {
            PaysColumns::completed_at => 0,
            PaysColumns::payment_hash => 1,
            PaysColumns::msats_requested => 2,
            PaysColumns::sats_requested => 3,
            PaysColumns::msats_sent => 4,
            PaysColumns::sats_sent => 5,
            PaysColumns::fee_msats => 6,
            PaysColumns::fee_sats => 7,
            PaysColumns::destination => 8,
            PaysColumns::description => 9,
            PaysColumns::preimage => 10,
        }
    }

    fn excluded_by_default(self) -> (r: bool) {
        matches!(self, PaysColumns::description | PaysColumns::preimage | PaysColumns::sats_requested | PaysColumns::msats_requested | PaysColumns::msats_sent | PaysColumns::fee_msats)
    }

    fn numerical() -> (r: Vec<Self>) {
        let mut v: Vec<Self> = Vec::new();
        v.push(PaysColumns::sats_sent);
        v.push(PaysColumns::msats_sent);
        proof {
            assert(v@ =~= Self::spec_numerical());
        }
        v
    }

    fn optional_numerical() -> (r: Vec<Self>) {
        let mut v: Vec<Self> = Vec::new();
        v.push(PaysColumns::sats_requested);
        v.push(PaysColumns::msats_requested);
        v.push(PaysColumns::fee_sats);
        v.push(PaysColumns::fee_msats);
        proof {
            assert(v@ =~= Self::spec_optional_numerical());
        }
        v
    }
}

/// The columns of the invoices table, in their canonical order.
#[allow(non_camel_case_types)]
#[derive(Debug, Clone, Copy, PartialEq, Eq, Hash, Structural)]
pub enum InvoicesColumns {
    paid_at,
    label,
    description,
    msats_received,
    sats_received,
    payment_hash,
    preimage,
}

impl TableColumn for InvoicesColumns {
    open spec fn spec_all() -> Seq<Self> {
        seq![InvoicesColumns::paid_at, InvoicesColumns::label, InvoicesColumns::description, InvoicesColumns::msats_received, InvoicesColumns::sats_received, InvoicesColumns::payment_hash, InvoicesColumns::preimage]
    }

    open spec fn col_name(self) -> Seq<char> {
        match self {
            InvoicesColumns::paid_at => "paid_at"@,
            InvoicesColumns::label => "label"@,
            InvoicesColumns::description => "description"@,
            InvoicesColumns::msats_received => "msats_received"@,
            InvoicesColumns::sats_received => "sats_received"@,
            InvoicesColumns::payment_hash => "payment_hash"@,
            InvoicesColumns::preimage => "preimage"@,
        }
    }

    open spec fn col_pos(self) -> int {
        match self {
            InvoicesColumns::paid_at => 0,
            InvoicesColumns::label => 1,
            InvoicesColumns::description => 2,
            InvoicesColumns::msats_received => 3,
            InvoicesColumns::sats_received => 4,
            InvoicesColumns::payment_hash => 5,
            InvoicesColumns::preimage => 6,
        }
    }

    open spec fn default_excluded(self) -> bool {
        self == InvoicesColumns::description || self == InvoicesColumns::preimage || self == InvoicesColumns::msats_received
    }

    open spec fn spec_numerical() -> Seq<Self> {
        seq![InvoicesColumns::sats_received, InvoicesColumns::msats_received]
    }

    open spec fn spec_optional_numerical() -> Seq<Self> {
        Seq::empty()
    }

    proof fn lemma_columns_wf() {
        reveal_strlit("paid_at");
        reveal_strlit("label");
        reveal_strlit("description");
        reveal_strlit("msats_received");
        reveal_strlit("sats_received");
        reveal_strlit("payment_hash");
        reveal_strlit("preimage");
        assert("paid_at"@.len() == 7);
        assert("label"@.len() == 5);
        assert("description"@.len() == 11);
        assert("msats_received"@.len() == 14);
        assert("sats_received"@.len() == 13);
        assert("payment_hash"@.len() == 12);
        assert("preimage"@.len() == 8);
        assert(ascii_lower("paid_at"@).len() != ascii_lower("label"@).len());
        assert(ascii_lower("paid_at"@).len() != ascii_lower("description"@).len());
        assert(ascii_lower("paid_at"@).len() != ascii_lower("msats_received"@).len());
        assert(ascii_lower("paid_at"@).len() != ascii_lower("sats_received"@).len());
        assert(ascii_lower("paid_at"@).len() != ascii_lower("payment_hash"@).len());
        assert(ascii_lower("paid_at"@).len() != ascii_lower("preimage"@).len());
        assert(ascii_lower("label"@).len() != ascii_lower("description"@).len());
        assert(ascii_lower("label"@).len() != ascii_lower("msats_received"@).len());
        assert(ascii_lower("label"@).len() != ascii_lower("sats_received"@).len());
        assert(ascii_lower("label"@).len() != ascii_lower("payment_hash"@).len());
        assert(ascii_lower("label"@).len() != ascii_lower("preimage"@).len());
        assert(ascii_lower("description"@).len() != ascii_lower("msats_received"@).len());
        assert(ascii_lower("description"@).len() != ascii_lower("sats_received"@).len());
        assert(ascii_lower("description"@).len() != ascii_lower("payment_hash"@).len());
        assert(ascii_lower("description"@).len() != ascii_lower("preimage"@).len());
        assert(ascii_lower("msats_received"@).len() != ascii_lower("sats_received"@).len());
        assert(ascii_lower("msats_received"@).len() != ascii_lower("payment_hash"@).len());
        assert(ascii_lower("msats_received"@).len() != ascii_lower("preimage"@).len());
        assert(ascii_lower("sats_received"@).len() != ascii_lower("payment_hash"@).len());
        assert(ascii_lower("sats_received"@).len() != ascii_lower("preimage"@).len());
        assert(ascii_lower("payment_hash"@).len() != ascii_lower("preimage"@).len());
        assert forall|a: Self, b: Self| a != b implies ascii_lower(#[trigger] a.col_name()) != ascii_lower(
            #[trigger] b.col_name(),
        ) by {
        }
        assert forall|c: Self| #[trigger] c.col_name().len() > 0 && no_sep_or_ws(c.col_name()) by {
        }
    }

    fn all() -> (r: Vec<Self>) {
        let mut v: Vec<Self> = Vec::new();
        v.push(InvoicesColumns::paid_at);
        v.push(InvoicesColumns::label);
        v.push(InvoicesColumns::description);
        v.push(InvoicesColumns::msats_received);
        v.push(InvoicesColumns::sats_received);
        v.push(InvoicesColumns::payment_hash);
        v.push(InvoicesColumns::preimage);
        proof {
            assert(v@ =~= Self::spec_all());
        }
        v
    }

    fn name(self) -> (r: &'static str) {
        match self {
            InvoicesColumns::paid_at => "paid_at",
            InvoicesColumns::label => "label",
            InvoicesColumns::description => "description",
            InvoicesColumns::msats_received => "msats_received",
            InvoicesColumns::sats_received => "sats_received",
            InvoicesColumns::payment_hash => "payment_hash",
            InvoicesColumns::preimage => "preimage",
        }
    }

    fn pos(self) -> (r: usize) {
        match self {
            InvoicesColumns::paid_at => 0,
            InvoicesColumns::label => 1,
            InvoicesColumns::description => 2,
            InvoicesColumns::msats_received => 3,
            InvoicesColumns::sats_received => 4,
            InvoicesColumns::payment_hash => 5,
            InvoicesColumns::preimage => 6,
        }
    }

    fn excluded_by_default(self) -> (r: bool) {
        matches!(self, InvoicesColumns::description | InvoicesColumns::preimage | InvoicesColumns::msats_received)
    }

    fn numerical() -> (r: Vec<Self>) {
        let mut v: Vec<Self> = Vec::new();
        v.push(InvoicesColumns::sats_received);
        v.push(InvoicesColumns::msats_received);
        proof {
            assert(v@ =~= Self::spec_numerical());
        }
        v
    }

    fn optional_numerical() -> (r: Vec<Self>) {
        let mut v: Vec<Self> = Vec::new();
        proof {
            assert(v@ =~= Self::spec_optional_numerical());
        }
        v
    }
}
impl SummaryColumns {
    /// All columns but those left out by default, in canonical order.
    pub fn default_columns() -> (r: Vec<Self>)
        ensures
            r@ == spec_default_columns::<Self>(),
    {
        default_columns_of::<Self>()
    }

    /// The column named `input`, ignoring ASCII case.
    pub fn parse_column(input: &str) -> (r: Result<Self, ConfigError>)
        ensures
            r matches Ok(c) ==> names_match(c.col_name(), input@),
            r is Err <==> !is_column_name::<Self>(input@),
            r matches Err(e) ==> (e matches ConfigError::InvalidColumn(m) && m@ == input@),
    {
        parse_column_of::<Self>(input)
    }

    /// The columns named in a comma-separated list (see `parse_columns_of`).
    pub fn parse_columns(input: &str) -> (r: Result<Vec<Self>, ConfigError>)
        ensures
            columns_parsed::<Self>(input@, r),
    {
        parse_columns_of::<Self>(input)
    }

    /// The names of `columns`, separated by a comma and a space.
    pub fn to_list_string(columns: &[Self]) -> (r: String)
        ensures
            r@ == join_with(column_names(columns@), ", "@),
    {
        list_string_of::<Self>(columns)
    }
}

impl ClosedChannelsColumns {
    /// All columns but those left out by default, in canonical order.
    pub fn default_columns() -> (r: Vec<Self>)
        ensures
            r@ == spec_default_columns::<Self>(),
    {
        default_columns_of::<Self>()
    }

    /// The column named `input`, ignoring ASCII case.
    pub fn parse_column(input: &str) -> (r: Result<Self, ConfigError>)
        ensures
            r matches Ok(c) ==> names_match(c.col_name(), input@),
            r is Err <==> !is_column_name::<Self>(input@),
            r matches Err(e) ==> (e matches ConfigError::InvalidColumn(m) && m@ == input@),
    {
        parse_column_of::<Self>(input)
    }

    /// The columns named in a comma-separated list (see `parse_columns_of`).
    pub fn parse_columns(input: &str) -> (r: Result<Vec<Self>, ConfigError>)
        ensures
            columns_parsed::<Self>(input@, r),
    {
        parse_columns_of::<Self>(input)
    }

    /// The names of `columns`, separated by a comma and a space.
    pub fn to_list_string(columns: &[Self]) -> (r: String)
        ensures
            r@ == join_with(column_names(columns@), ", "@),
    {
        list_string_of::<Self>(columns)
    }
}

impl ForwardsColumns {
    /// All columns but those left out by default, in canonical order.
    pub fn default_columns() -> (r: Vec<Self>)
        ensures
            r@ == spec_default_columns::<Self>(),
    {
        default_columns_of::<Self>()
    }

    /// The column named `input`, ignoring ASCII case.
    pub fn parse_column(input: &str) -> (r: Result<Self, ConfigError>)
        ensures
            r matches Ok(c) ==> names_match(c.col_name(), input@),
            r is Err <==> !is_column_name::<Self>(input@),
            r matches Err(e) ==> (e matches ConfigError::InvalidColumn(m) && m@ == input@),
    {
        parse_column_of::<Self>(input)
    }

    /// The columns named in a comma-separated list (see `parse_columns_of`).
    pub fn parse_columns(input: &str) -> (r: Result<Vec<Self>, ConfigError>)
        ensures
            columns_parsed::<Self>(input@, r),
    {
        parse_columns_of::<Self>(input)
    }

    /// The names of `columns`, separated by a comma and a space.
    pub fn to_list_string(columns: &[Self]) -> (r: String)
        ensures
            r@ == join_with(column_names(columns@), ", "@),
    {
        list_string_of::<Self>(columns)
    }
}

impl PaysColumns {
    /// All columns but those left out by default, in canonical order.
    pub fn default_columns() -> (r: Vec<Self>)
        ensures
            r@ == spec_default_columns::<Self>(),
    {
        default_columns_of::<Self>()
    }

    /// The column named `input`, ignoring ASCII case.
    pub fn parse_column(input: &str) -> (r: Result<Self, ConfigError>)
        ensures
            r matches Ok(c) ==> names_match(c.col_name(), input@),
            r is Err <==> !is_column_name::<Self>(input@),
            r matches Err(e) ==> (e matches ConfigError::InvalidColumn(m) && m@ == input@),
    {
        parse_column_of::<Self>(input)
    }

    /// The columns named in a comma-separated list (see `parse_columns_of`).
    pub fn parse_columns(input: &str) -> (r: Result<Vec<Self>, ConfigError>)
        ensures
            columns_parsed::<Self>(input@, r),
    {
        parse_columns_of::<Self>(input)
    }

    /// The names of `columns`, separated by a comma and a space.
    pub fn to_list_string(columns: &[Self]) -> (r: String)
        ensures
            r@ == join_with(column_names(columns@), ", "@),
    {
        list_string_of::<Self>(columns)
    }
}

impl InvoicesColumns {
    /// All columns but those left out by default, in canonical order.
    pub fn default_columns() -> (r: Vec<Self>)
        ensures
            r@ == spec_default_columns::<Self>(),
    {
        default_columns_of::<Self>()
    }

    /// The column named `input`, ignoring ASCII case.
    pub fn parse_column(input: &str) -> (r: Result<Self, ConfigError>)
        ensures
            r matches Ok(c) ==> names_match(c.col_name(), input@),
            r is Err <==> !is_column_name::<Self>(input@),
            r matches Err(e) ==> (e matches ConfigError::InvalidColumn(m) && m@ == input@),
    {
        parse_column_of::<Self>(input)
    }

    /// The columns named in a comma-separated list (see `parse_columns_of`).
    pub fn parse_columns(input: &str) -> (r: Result<Vec<Self>, ConfigError>)
        ensures
            columns_parsed::<Self>(input@, r),
    {
        parse_columns_of::<Self>(input)
    }

    /// The names of `columns`, separated by a comma and a space.
    pub fn to_list_string(columns: &[Self]) -> (r: String)
        ensures
            r@ == join_with(column_names(columns@), ", "@),
    {
        list_string_of::<Self>(columns)
    }
}

/// `c` is one of `s`.
pub open spec fn occurs_in<T>(s: Seq<T>, c: T) -> bool {
    exists|j: int| 0 <= j < s.len() && s[j] == c
}

/// Moves the cells of each row from the order of `headers` into the order of
/// `config_columns`: the cell under `headers[i]` goes to the position of that column in
/// `config_columns`.
pub fn sort_columns<T: TableColumn>(
    records: &mut Vec<Vec<String>>,
    headers: &[T],
    config_columns: &[T],
)
    requires
        headers@.len() == config_columns@.len(),
        forall|i: int, j: int|
            0 <= i < j < headers@.len() ==> #[trigger] headers@[i] != #[trigger] headers@[j],
        forall|i: int, j: int|
            0 <= i < j < config_columns@.len() ==> #[trigger] config_columns@[i]
                != #[trigger] config_columns@[j],
        forall|i: int| 0 <= i < headers@.len() ==> occurs_in(config_columns@, #[trigger] headers@[i]),
        forall|r: int| 0 <= r < old(records)@.len() ==> (#[trigger] old(records)@[r])@.len() == headers@.len(),
    ensures
        final(records)@.len() == old(records)@.len(),
        forall|r: int| 0 <= r < final(records)@.len() ==> (#[trigger] final(records)@[r])@.len() == headers@.len(),
        forall|r: int, i: int, j: int|
            #![trigger final(records)@[r], headers@[i], config_columns@[j]]
            0 <= r < final(records)@.len() && 0 <= i < headers@.len() && 0 <= j
                < config_columns@.len() && headers@[i] == config_columns@[j]
                ==> final(records)@[r]@[j]@ == old(records)@[r]@[i]@,
{
    let n = headers.len();
    let mut target: Vec<usize> = Vec::new();
    let mut i: usize = 0;
    while i < n
        invariant
            n == headers@.len(),
            n == config_columns@.len(),
            i <= n,
            target@.len() == i,
            forall|k: int| 0 <= k < i ==> (#[trigger] target@[k]) < n && config_columns@[target@[k] as int] == headers@[k],
            forall|x: int| 0 <= x < headers@.len() ==> occurs_in(config_columns@, #[trigger] headers@[x]),
        decreases n - i,
    {
        let mut j: usize = 0;
        assert(occurs_in(config_columns@, headers@[i as int]));
        let ghost w = choose|j: int| 0 <= j < config_columns@.len() && config_columns@[j] == headers@[i as int];
        while j < n && headers[i].pos() != config_columns[j].pos()
            invariant
                n == config_columns@.len(),
                n == headers@.len(),
                j <= n,
                i < n,
                0 <= w < n,
                config_columns@[w] == headers@[i as int],
                forall|k: int| 0 <= k < j ==> config_columns@[k] != headers@[i as int],
            decreases n - j,
        {
            proof {
                if config_columns@[j as int] == headers@[i as int] {
                    assert(config_columns@[j as int].col_pos() == headers@[i as int].col_pos());
                }
            }
            j = j + 1;
        }
        proof {
            if j == n {
                assert(config_columns@[w] != headers@[i as int]);
            }
            lemma_same_pos_same::<T>(headers@[i as int], config_columns@[j as int]);
        }
        target.push(j);
        i = i + 1;
    }
    let ghost old_records = records@;
    let mut r: usize = 0;
    while r < records.len()
        invariant
            n == headers@.len(),
            n == config_columns@.len(),
            target@.len() == n,
            forall|k: int| 0 <= k < n ==> (#[trigger] target@[k]) < n && config_columns@[target@[k] as int] == headers@[k],
            forall|i: int, j: int|
                0 <= i < j < config_columns@.len() ==> #[trigger] config_columns@[i]
                    != #[trigger] config_columns@[j],
            forall|i: int, j: int|
                0 <= i < j < headers@.len() ==> #[trigger] headers@[i] != #[trigger] headers@[j],
            records@.len() == old_records.len(),
            old_records == old(records)@,
            r <= records@.len(),
            forall|q: int| 0 <= q < records@.len() ==> (#[trigger] records@[q])@.len() == n,
            forall|q: int| r <= q < records@.len() ==> #[trigger] records@[q] == old_records[q],
            forall|q: int, i: int|
                #![trigger records@[q], target@[i]]
                0 <= q < r && 0 <= i < n ==> records@[q]@[target@[i] as int]@ == old_records[q]@[i]@,
        decreases records@.len() - r,
    {
        let row = &records[r];
        let mut new_row: Vec<String> = Vec::new();
        let mut c: usize = 0;
        while c < n
            invariant
                row@.len() == n,
                c <= n,
                new_row@.len() == c,
                forall|k: int| 0 <= k < c ==> (#[trigger] new_row@[k])@ == row@[k]@,
            decreases n - c,
        {
            new_row.push(row[c].clone());
            c = c + 1;
        }
        let mut k: usize = 0;
        while k < n
            invariant
                row@.len() == n,
                new_row@.len() == n,
                k <= n,
                target@.len() == n,
                forall|x: int| 0 <= x < n ==> (#[trigger] target@[x]) < n,
                forall|x: int, y: int| 0 <= x < y < n ==> #[trigger] target@[x] != #[trigger] target@[y],
                forall|x: int| 0 <= x < k ==> (#[trigger] new_row@[target@[x] as int])@ == row@[x]@,
            decreases n - k,
        {
            new_row.set(target[k], row[k].clone());
            k = k + 1;
        }
        proof {
            assert forall|x: int, y: int| 0 <= x < y < n implies #[trigger] target@[x] != #[trigger] target@[y] by {
                if target@[x] == target@[y] {
                    assert(headers@[x] == headers@[y]);
                }
            }
        }
        records.set(r, new_row);
        r = r + 1;
    }
    proof {
        assert forall|q: int, i: int, j: int|
            #![trigger records@[q], headers@[i], config_columns@[j]]
            0 <= q < records@.len() && 0 <= i < headers@.len() && 0 <= j < config_columns@.len()
                && headers@[i] == config_columns@[j] implies records@[q]@[j]@ == old_records[q]@[i]@ by {
            let t = target@[i] as int;
            if t != j {
                if t < j {
                    assert(config_columns@[t] != config_columns@[j]);
                } else {
                    assert(config_columns@[j] != config_columns@[t]);
                }
            }
            assert(records@[q]@[target@[i] as int]@ == old_records[q]@[i]@);
        }
    }
}


proof fn lemma_filter_all<A>(s: Seq<A>, p: spec_fn(A) -> bool)
    requires
        forall|k: int| 0 <= k < s.len() ==> p(#[trigger] s[k]),
    ensures
        s.filter(p) == s,
    decreases s.len(),
{
    reveal(Seq::filter);
    if s.len() > 0 {
        lemma_filter_all(s.drop_last(), p);
        assert(s.drop_last().push(s.last()) =~= s);
    }
}

proof fn lemma_split_single(t: Seq<char>, sep: char)
    requires
        forall|k: int| 0 <= k < t.len() ==> t[k] != sep,
    ensures
        split_by(t, sep) == seq![t],
    decreases t.len(),
{
    if t.len() > 0 {
        lemma_split_single(t.drop_last(), sep);
        let p = split_by(t.drop_last(), sep);
        assert(p == seq![t.drop_last()]);
        assert(t.drop_last().push(t.last()) =~= t);
        assert(t.last() != sep);
        assert(split_by(t, sep) == p.update(p.len() - 1, p.last().push(t.last())));
        assert(p.update(p.len() - 1, p.last().push(t.last())) =~= seq![t]);
    } else {
        assert(t =~= Seq::<char>::empty());
    }
}

proof fn lemma_split_append_piece(s: Seq<char>, t: Seq<char>, sep: char)
    requires
        forall|k: int| 0 <= k < t.len() ==> t[k] != sep,
    ensures
        split_by(s + seq![sep] + t, sep) == split_by(s, sep).push(t),
    decreases t.len(),
{
    let u = s + seq![sep] + t;
    if t.len() == 0 {
        assert(u.drop_last() =~= s);
        assert(u.last() == sep);
        assert(t =~= Seq::<char>::empty());
        assert(split_by(u, sep) == split_by(u.drop_last(), sep).push(Seq::<char>::empty()));
    } else {
        lemma_split_append_piece(s, t.drop_last(), sep);
        assert(u.drop_last() =~= s + seq![sep] + t.drop_last());
        assert(u.last() == t.last());
        let p = split_by(s, sep).push(t.drop_last());
        assert(split_by(u.drop_last(), sep) == p);
        assert(t.drop_last().push(t.last()) =~= t);
        assert(p.update(p.len() - 1, p.last().push(t.last())) =~= split_by(s, sep).push(t));
    }
}

proof fn lemma_split_join(names: Seq<Seq<char>>, sep: char)
    requires
        names.len() > 0,
        forall|i: int, k: int| 0 <= i < names.len() && 0 <= k < names[i].len() ==> #[trigger] names[i][k] != sep,
    ensures
        split_by(join_with(names, seq![sep]), sep) == names,
    decreases names.len(),
{
    if names.len() == 1 {
        lemma_split_single(names[0], sep);
        assert(seq![names[0]] =~= names);
    } else {
        let init = names.drop_last();
        lemma_split_join(init, sep);
        let t = names.last();
        assert(forall|k: int| 0 <= k < t.len() ==> t[k] == names[names.len() - 1][k]);
        lemma_split_append_piece(join_with(init, seq![sep]), t, sep);
        assert(init.push(t) =~= names);
    }
}

proof fn lemma_strip_join(names: Seq<Seq<char>>)
    requires
        forall|i: int, k: int| 0 <= i < names.len() && 0 <= k < names[i].len() ==> !is_ws(#[trigger] names[i][k]),
    ensures
        strip_ws(join_with(names, ", "@)) == join_with(names, seq![',']),
    decreases names.len(),
{
    reveal_strlit(", ");
    let p = |c: char| !is_ws(c);
    if names.len() == 0 {
        assert(Seq::<char>::empty().filter(p) =~= Seq::<char>::empty()) by {
            reveal(Seq::filter);
        }
    } else if names.len() == 1 {
        lemma_filter_all(names[0], p);
    } else {
        let init = names.drop_last();
        lemma_strip_join(init);
        let t = names.last();
        lemma_filter_all(t, p);
        let a = join_with(init, ", "@);
        Seq::filter_distributes_over_add(a + ", "@, t, p);
        Seq::filter_distributes_over_add(a, ", "@, p);
        assert(", "@.filter(p) =~= seq![',']) by {
            reveal(Seq::filter);
            let cs = ", "@;
            assert(cs.len() == 2 && cs[0] == ',' && cs[1] == ' ');
            assert(cs.drop_last() =~= seq![',']);
            assert(seq![','].drop_last() =~= Seq::<char>::empty());
            assert(Seq::<char>::empty().filter(p) =~= Seq::<char>::empty());
            assert(seq![','].filter(p) =~= Seq::<char>::empty().push(','));
            assert(is_ws(' '));
            assert(cs.filter(p) == seq![','].filter(p));
        }
    }
}

/// A list of distinct columns, written out as a comma-separated list of names, parses back
/// to the same list: the settings' defaults, written as option values, read back unchanged.
pub proof fn lemma_list_string_parses_back<T: TableColumn>(cols: Seq<T>, r: Result<Vec<T>, ConfigError>)
    requires
        cols.len() > 0,
        forall|i: int, j: int| 0 <= i < j < cols.len() ==> #[trigger] cols[i] != #[trigger] cols[j],
        columns_parsed::<T>(join_with(column_names(cols), ", "@), r),
    ensures
        r matches Ok(v) && v@ == cols,
{
    T::lemma_columns_wf();
    let names = column_names(cols);
    assert forall|i: int, k: int| 0 <= i < names.len() && 0 <= k < names[i].len() implies !is_ws(
        #[trigger] names[i][k],
    ) && names[i][k] != ',' by {
        assert(names[i] == cols[i].col_name());
        assert(no_sep_or_ws(cols[i].col_name()));
    }
    lemma_strip_join(names);
    lemma_split_join(names, ',');
    let pieces = column_pieces(join_with(names, ", "@));
    assert(pieces == names);
    assert forall|k: int| 0 <= k < pieces.len() implies is_column_name::<T>(#[trigger] pieces[k]) by {
        assert(names_match(cols[k].col_name(), pieces[k]));
    }
    assert forall|i: int, j: int| 0 <= i < j < pieces.len() implies !names_match(
        #[trigger] pieces[i],
        #[trigger] pieces[j],
    ) by {
        assert(cols[i] != cols[j]);
        assert(pieces[i] == cols[i].col_name());
        assert(pieces[j] == cols[j].col_name());
    }
    let v = r->Ok_0;
    assert forall|k: int| 0 <= k < cols.len() implies v@[k] == cols[k] by {
        assert(names_match(v@[k].col_name(), pieces[k]));
        lemma_parse_name::<T>(cols[k], v@[k]);
    }
    assert(v@ =~= cols);
}

} // verus!
