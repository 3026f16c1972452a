use vstd::prelude::*;

use crate::columns::{
    occurs_in, sort_columns, ForwardsColumns, InvoicesColumns, PaysColumns, SummaryColumns, TableColumn,
};
use crate::config::Config;
use crate::locale::{localized_decimal, u64_to_sat_string, FormatError};
use crate::states::Styles;
use crate::strutil::{str_chars, string_from_chars};
use crate::util::{decimal, u64_to_decimal};
use tabled::settings::Style;

verus! {

/// How the cells of a column are aligned.
#[derive(Debug, Clone, Copy, PartialEq, Eq, Structural)]
pub enum Align {
    Left,
    Center,
    Right,
}

/// How long cells of a column are handled: cut at a width with a `[..]` suffix, or wrapped
/// at a width keeping words whole.
#[derive(Debug, Clone, Copy, PartialEq, Eq, Structural)]
pub enum CellWidth {
    Truncate(usize),
    Wrap(usize),
}

/// The formatting of one column.
#[derive(Debug, Clone, Copy, PartialEq, Eq, Structural)]
pub struct ColumnFormat {
    pub align: Option<Align>,
    pub width: Option<CellWidth>,
}

/// Everything a table is drawn from: its rows (the column names first), its style, the
/// formatting of each column, a title row, footer texts, and whether the last row is aligned
/// left.
#[derive(Debug, Clone)]
pub struct TablePlan {
    pub rows: Vec<Vec<String>>,
    pub style: Styles,
    pub columns: Vec<ColumnFormat>,
    pub header: Option<String>,
    pub footers: Vec<String>,
    pub last_row_left: bool,
}

/// The width rule for a length setting: wrapping at its absolute value where it is
/// negative, else cutting at it; `None` where it does not fit in `usize`.
pub open spec fn width_rule(n: i64) -> Option<CellWidth> {
    if n < 0 {
        if -(n as int) <= usize::MAX {
            Some(CellWidth::Wrap((-(n as int)) as usize))
        } else {
            None
        }
    } else if n <= usize::MAX {
        Some(CellWidth::Truncate(n as usize))
    } else {
        None
    }
}

/// The width rule for a length setting (see `width_rule`).
pub fn width_for(n: i64) -> (r: Result<CellWidth, FormatError>)
    ensures
        r matches Ok(w) ==> width_rule(n) == Some(w),
        r is Err ==> width_rule(n) is None && r == Err::<CellWidth, FormatError>(FormatError::Width),
{
    if n < 0 {
        let a: u64 = if n == i64::MIN {
            9223372036854775808u64
        } else {
            (-n) as u64
        };
        if a as u128 <= usize::MAX as u128 {
            Ok(CellWidth::Wrap(a as usize))
        } else {
            Err(FormatError::Width)
        }
    } else {
        if n as u128 <= usize::MAX as u128 {
            Ok(CellWidth::Truncate(n as usize))
        } else {
            Err(FormatError::Width)
        }
    }
}

#[verifier::external_type_specification]
#[verifier::external_body]
pub struct ExTable(tabled::Table);

/// One step of building a table with tabled: its rows (the column names first), its style,
/// an alignment or a width rule on one column, a title row, an alignment of the first row,
/// a footer, and an alignment of the last row.
pub enum TableStep {
    Rows(Seq<Seq<Seq<char>>>),
    Style(Styles),
    AlignColumn(usize, Align),
    TruncateColumn(usize, usize),
    WrapColumn(usize, usize),
    Header(Seq<char>),
    AlignFirstRow(Align),
    Footer(Seq<char>),
    AlignLastRow(Align),
}

/// The text tabled draws for a table built by the given steps, in order. tabled draws a
/// table from its cells and settings alone, so the same steps give the same text.
pub uninterp spec fn drawn_text(steps: Seq<TableStep>) -> Seq<char>;

/// The cells of rows of strings.
pub open spec fn cells(rows: Seq<Vec<String>>) -> Seq<Seq<Seq<char>>> {
    rows.map_values(|r: Vec<String>| texts(r@))
}

/// Whether some row has a cell, so that the table has a column.
pub open spec fn any_cell(rows: Seq<Seq<Seq<char>>>) -> bool {
    exists|i: int| 0 <= i < rows.len() && (#[trigger] rows[i]).len() > 0
}

/// Whether a table built by these steps has a column: its rows, the first step, have a cell.
pub open spec fn steps_have_column(steps: Seq<TableStep>) -> bool {
    steps.len() > 0 && (steps[0] matches TableStep::Rows(rows) && any_cell(rows))
}

/// A tabled table with the steps it was built by, which are its view.
struct Drawing {
    table: tabled::Table,
    steps: Ghost<Seq<TableStep>>,
}

impl View for Drawing {
    type V = Seq<TableStep>;

    closed spec fn view(&self) -> Seq<TableStep> {
        self.steps@
    }
}

/// `tabled::Table::from_iter`: a table of the given rows, the first row being the column
/// names. tabled pads the shorter rows with empty cells.
#[verifier::external_body]
fn new_table(rows: Vec<Vec<String>>) -> tabled::Table {
    tabled::Table::from_iter(rows)
}

impl Drawing {
    /// A table of the given rows.
    fn new(rows: Vec<Vec<String>>) -> (r: Drawing)
        ensures
            r@ == seq![TableStep::Rows(cells(rows@))],
    {
        let steps: Ghost<Seq<TableStep>> = Ghost(Seq::empty().push(TableStep::Rows(cells(rows@))));
        Drawing { table: new_table(rows), steps }
    }
}

/// `tabled::Table::with` of the tabled style that the library's style names, for the first
/// six styles (the others are left to `apply_style_rest`).
#[verifier::external_body]
fn apply_style_first(t: &mut Drawing, s: Styles)
    requires
        s is Ascii || s is Modern || s is Sharp || s is Rounded || s is Extended || s is Psql,
    ensures
        final(t)@ == old(t)@.push(TableStep::Style(s)),
{
    match s {
        Styles::Ascii => { t.table.with(Style::ascii()); },
        Styles::Modern => { t.table.with(Style::modern()); },
        Styles::Sharp => { t.table.with(Style::sharp()); },
        Styles::Rounded => { t.table.with(Style::rounded()); },
        Styles::Extended => { t.table.with(Style::extended()); },
        _ => { t.table.with(Style::psql()); },
    }
}

/// `tabled::Table::with` of the tabled style that the library's style names, for the last
/// six styles.
#[verifier::external_body]
fn apply_style_rest(t: &mut Drawing, s: Styles)
    requires
        s is Markdown || s is ReStructuredText || s is Dots || s is AsciiRounded || s is Blank || s is Empty,
    ensures
        final(t)@ == old(t)@.push(TableStep::Style(s)),
{
    match s {
        Styles::Markdown => { t.table.with(Style::markdown()); },
        Styles::ReStructuredText => { t.table.with(Style::re_structured_text()); },
        Styles::Dots => { t.table.with(Style::dots()); },
        Styles::AsciiRounded => { t.table.with(Style::ascii_rounded()); },
        Styles::Blank => { t.table.with(Style::blank()); },
        _ => { t.table.with(Style::empty()); },
    }
}

/// Applies a style to a table.
fn apply_style(t: &mut Drawing, s: Styles)
    ensures
        final(t)@ == old(t)@.push(TableStep::Style(s)),
{
    match s {
        Styles::Ascii | Styles::Modern | Styles::Sharp | Styles::Rounded | Styles::Extended
        | Styles::Psql => apply_style_first(t, s),
        _ => apply_style_rest(t, s),
    }
}

/// `tabled::Table::modify` of one column with an alignment.
#[verifier::external_body]
fn align_column(t: &mut Drawing, col: usize, a: Align)
    ensures
        final(t)@ == old(t)@.push(TableStep::AlignColumn(col, a)),
{
    let al = match a {
        Align::Left => tabled::settings::Alignment::left(),
        Align::Center => tabled::settings::Alignment::center(),
        Align::Right => tabled::settings::Alignment::right(),
    };
    t.table.modify(tabled::settings::object::Columns::one(col), al);
}

/// `tabled::Table::modify` of one column with `Width::truncate(..).suffix("[..]")`.
#[verifier::external_body]
fn truncate_column(t: &mut Drawing, col: usize, width: usize)
    ensures
        final(t)@ == old(t)@.push(TableStep::TruncateColumn(col, width)),
{
    let w = tabled::settings::Width::truncate(width).suffix("[..]");
    t.table.modify(tabled::settings::object::Columns::one(col), w);
}

/// `tabled::Table::modify` of one column with `Width::wrap(..).keep_words(true)`.
#[verifier::external_body]
fn wrap_column(t: &mut Drawing, col: usize, width: usize)
    ensures
        final(t)@ == old(t)@.push(TableStep::WrapColumn(col, width)),
{
    let w = tabled::settings::Width::wrap(width).keep_words(true);
    t.table.modify(tabled::settings::object::Columns::one(col), w);
}

/// `tabled::Table::with` of `Panel::header`: a title row above the table. tabled writes the
/// text into the first cell of the new row, which a table without columns does not have, so
/// the table must have a column.
#[verifier::external_body]
fn add_header(t: &mut Drawing, text: &str)
    requires
        steps_have_column(old(t)@),
    ensures
        final(t)@ == old(t)@.push(TableStep::Header(text@)),
{
    t.table.with(tabled::settings::Panel::header(text));
}

/// `tabled::Table::with` of `Panel::footer`: a row of text below the table. As with the
/// header, the table must have a column.
#[verifier::external_body]
fn add_footer(t: &mut Drawing, text: &str)
    requires
        steps_have_column(old(t)@),
    ensures
        final(t)@ == old(t)@.push(TableStep::Footer(text@)),
{
    t.table.with(tabled::settings::Panel::footer(text));
}

/// `tabled::Table::modify` of the first row (`first`) or the last row with an alignment.
#[verifier::external_body]
fn align_row(t: &mut Drawing, first: bool, a: Align)
    ensures
        final(t)@ == old(t)@.push(if first { TableStep::AlignFirstRow(a) } else { TableStep::AlignLastRow(a) }),
{
    let al = match a {
        Align::Left => tabled::settings::Alignment::left(),
        Align::Center => tabled::settings::Alignment::center(),
        Align::Right => tabled::settings::Alignment::right(),
    };
    if first { t.table.modify(tabled::settings::object::Rows::first(), al); } else { t.table.modify(tabled::settings::object::Rows::last(), al); }
}

/// `tabled::Table::to_string`: the drawn table, named by the steps it was built by.
#[verifier::external_body]
fn table_text(t: &Drawing) -> (r: String)
    ensures
        r@ == drawn_text(t@),
{
    t.table.to_string()
}

/// The steps for one column's format: its alignment, then its width rule.
pub open spec fn format_steps(i: usize, f: ColumnFormat) -> Seq<TableStep> {
    (match f.align {
        Some(a) => seq![TableStep::AlignColumn(i, a)],
        None => Seq::empty(),
    }) + (match f.width {
        Some(CellWidth::Truncate(w)) => seq![TableStep::TruncateColumn(i, w)],
        Some(CellWidth::Wrap(w)) => seq![TableStep::WrapColumn(i, w)],
        None => Seq::empty(),
    })
}

/// The steps for the formats of the columns, column by column.
pub open spec fn column_steps(cols: Seq<ColumnFormat>) -> Seq<TableStep>
    decreases cols.len(),
{
    if cols.len() == 0 {
        Seq::empty()
    } else {
        column_steps(cols.drop_last()) + format_steps((cols.len() - 1) as usize, cols.last())
    }
}

/// The steps a plan is drawn by: the rows, the style, the column formats, the title row, the
/// first row centered, the footers, and the last row aligned left where the plan says so. A
/// table without columns gets no title row and no footers.
pub open spec fn plan_steps(p: TablePlan) -> Seq<TableStep> {
    let rows = cells(p.rows@);
    seq![TableStep::Rows(rows), TableStep::Style(p.style)] + column_steps(p.columns@) + (if any_cell(rows)
        && p.header is Some {
        seq![TableStep::Header(p.header->0@)]
    } else {
        Seq::empty()
    }) + seq![TableStep::AlignFirstRow(Align::Center)] + (if any_cell(rows) {
        texts(p.footers@).map_values(|f: Seq<char>| TableStep::Footer(f))
    } else {
        Seq::empty()
    }) + (if p.last_row_left {
        seq![TableStep::AlignLastRow(Align::Left)]
    } else {
        Seq::empty()
    })
}

/// Whether some row has a cell.
fn rows_have_cell(rows: &Vec<Vec<String>>) -> (r: bool)
    ensures
        r == any_cell(cells(rows@)),
{
    let mut i: usize = 0;
    while i < rows.len()
        invariant
            i <= rows@.len(),
            forall|k: int| 0 <= k < i ==> rows@[k]@.len() == 0,
        decreases rows@.len() - i,
    {
        if rows[i].len() > 0 {
            assert(cells(rows@)[i as int].len() > 0);
            return true;
        }
        i = i + 1;
    }
    assert(!any_cell(cells(rows@))) by {
        assert forall|k: int| 0 <= k < cells(rows@).len() implies (#[trigger] cells(rows@)[k]).len() == 0 by {
            assert(rows@[k]@.len() == 0);
        }
    }
    false
}

/// Draws a table with tabled in the order the plan gives (see `plan_steps`).
pub fn render_table(plan: TablePlan) -> (r: String)
    ensures
        r@ == drawn_text(plan_steps(plan)),
{
    let ghost p = plan;
    let TablePlan { rows, style, columns, header, footers, last_row_left } = plan;
    let has_cell = rows_have_cell(&rows);
    let mut t = Drawing::new(rows);
    apply_style(&mut t, style);
    let ghost base = t@;
    let mut i: usize = 0;
    while i < columns.len()
        invariant
            i <= columns@.len(),
            t@ == base + column_steps(columns@.subrange(0, i as int)),
        decreases columns.len() - i,
    {
        let ghost before = t@;
        if let Some(a) = columns[i].align {
            align_column(&mut t, i, a);
        }
        match columns[i].width {
            Some(CellWidth::Truncate(w)) => truncate_column(&mut t, i, w),
            Some(CellWidth::Wrap(w)) => wrap_column(&mut t, i, w),
            None => {},
        }
        proof {
            assert(columns@.subrange(0, i + 1).drop_last() =~= columns@.subrange(0, i as int));
            assert(t@ =~= before + format_steps(i, columns@[i as int]));
        }
        i = i + 1;
    }
    assert(columns@.subrange(0, columns@.len() as int) =~= columns@);
    let ghost with_cols = t@;
    if has_cell {
        if let Some(h) = &header {
            add_header(&mut t, h.as_str());
        }
    }
    align_row(&mut t, true, Align::Center);
    let ghost centered = t@;
    if has_cell {
        let mut j: usize = 0;
        while j < footers.len()
            invariant
                j <= footers@.len(),
                steps_have_column(t@),
                t@ == centered + texts(footers@).subrange(0, j as int).map_values(|f: Seq<char>| TableStep::Footer(f)),
            decreases footers.len() - j,
        {
            add_footer(&mut t, footers[j].as_str());
            proof {
                assert(texts(footers@).subrange(0, j + 1).map_values(|f: Seq<char>| TableStep::Footer(f))
                    =~= texts(footers@).subrange(0, j as int).map_values(|f: Seq<char>| TableStep::Footer(f)).push(TableStep::Footer(footers@[j as int]@)));
            }
            j = j + 1;
        }
        assert(texts(footers@).subrange(0, footers@.len() as int) =~= texts(footers@));
    }
    if last_row_left {
        align_row(&mut t, false, Align::Left);
    }
    proof {
        assert(t@ =~= plan_steps(p));
    }
    table_text(&t)
}


/// A row type of a table whose columns are `C`: each cell's text, which may fail where a
/// number cannot be formatted for the locale, and the columns in the order of the row's
/// fields.
pub trait TableRow<C: TableColumn>: Sized {
    spec fn spec_cell(&self, locale: Seq<char>, c: C) -> Option<Seq<char>>;

    spec fn spec_field_order() -> Seq<C>;

    /// No column occurs twice in the field order.
    proof fn lemma_field_order()
        ensures
            forall|i: int, j: int|
                0 <= i < j < Self::spec_field_order().len() ==> #[trigger] Self::spec_field_order()[i]
                    != #[trigger] Self::spec_field_order()[j],
    ;

    fn cell(&self, config: &Config, c: C) -> (r: Result<String, FormatError>)
        ensures
            r matches Ok(s) ==> self.spec_cell(config.locale@, c) == Some(s@),
            r is Err ==> self.spec_cell(config.locale@, c) is None && r == Err::<String, FormatError>(
                FormatError::Decimal,
            ),
    ;

    fn field_order() -> (r: Vec<C>)
        ensures
            r@ == Self::spec_field_order(),
    ;
}

/// No element occurs twice.
pub open spec fn distinct<C>(s: Seq<C>) -> bool {
    forall|i: int, j: int| 0 <= i < j < s.len() ==> #[trigger] s[i] != #[trigger] s[j]
}

/// Every cell of the table can be formatted.
pub open spec fn cells_formattable<C: TableColumn, R: TableRow<C>>(
    cols: Seq<C>,
    data: Seq<R>,
    locale: Seq<char>,
) -> bool {
    forall|r: int, j: int|
        0 <= r < data.len() && 0 <= j < cols.len() ==> (#[trigger] data[r]).spec_cell(
            locale,
            #[trigger] cols[j],
        ) is Some
}

/// The records of a table with the columns `cols`: the column names, then a row of cells for
/// each of `data`.
pub open spec fn records_of<C: TableColumn, R: TableRow<C>>(
    records: Seq<Vec<String>>,
    cols: Seq<C>,
    data: Seq<R>,
    locale: Seq<char>,
) -> bool {
    &&& records.len() == data.len() + 1
    &&& forall|r: int| 0 <= r < records.len() ==> (#[trigger] records[r])@.len() == cols.len()
    &&& forall|j: int| 0 <= j < cols.len() ==> records[0]@[j]@ == (#[trigger] cols[j]).col_name()
    &&& forall|r: int, j: int|
        0 <= r < data.len() && 0 <= j < cols.len() ==> (#[trigger] data[r]).spec_cell(
            locale,
            #[trigger] cols[j],
        ) == Some(records[r + 1]@[j]@)
}

/// The columns of the field order that are asked for, in field order.
pub open spec fn present_columns<C>(order: Seq<C>, asked: Seq<C>) -> Seq<C> {
    order.filter(|c: C| occurs_in(asked, c))
}

/// The columns asked for are distinct and are exactly the fields present: as many, and each
/// of them present.
pub open spec fn columns_match<C>(order: Seq<C>, cols: Seq<C>) -> bool {
    let present = present_columns(order, cols);
    &&& distinct(cols)
    &&& present.len() == cols.len()
    &&& forall|j: int| 0 <= j < cols.len() ==> occurs_in(present, #[trigger] cols[j])
}

/// Whether `c` is one of `cols`.
pub fn has_column<C: TableColumn>(cols: &Vec<C>, c: C) -> (r: bool)
    ensures
        r == occurs_in(cols@, c),
{
    let mut i: usize = 0;
    while i < cols.len()
        invariant
            i <= cols@.len(),
            forall|k: int| 0 <= k < i ==> cols@[k] != c,
        decreases cols@.len() - i,
    {
        if cols[i].pos() == c.pos() {
            proof {
                crate::columns::lemma_same_pos_same::<C>(cols@[i as int], c);
            }
            return true;
        }
        proof {
            if cols@[i as int] == c {
                assert(cols@[i as int].col_pos() == c.col_pos());
            }
        }
        i = i + 1;
    }
    false
}

fn all_distinct<C: TableColumn>(cols: &Vec<C>) -> (r: bool)
    ensures
        r == distinct(cols@),
{
    let mut i: usize = 0;
    while i < cols.len()
        invariant
            i <= cols@.len(),
            forall|a: int, b: int| 0 <= a < b < cols@.len() && a < i ==> #[trigger] cols@[a] != #[trigger] cols@[b],
        decreases cols@.len() - i,
    {
        let mut j: usize = i + 1;
        while j < cols.len()
            invariant
                i < cols@.len(),
                i + 1 <= j <= cols@.len(),
                forall|a: int, b: int| 0 <= a < b < cols@.len() && a < i ==> #[trigger] cols@[a] != #[trigger] cols@[b],
                forall|b: int| i < b < j ==> cols@[i as int] != #[trigger] cols@[b],
            decreases cols@.len() - j,
        {
            if cols[i].pos() == cols[j].pos() {
                proof {
                    crate::columns::lemma_same_pos_same::<C>(cols@[i as int], cols@[j as int]);
                }
                return false;
            }
            proof {
                if cols@[i as int] == cols@[j as int] {
                    assert(cols@[i as int].col_pos() == cols@[j as int].col_pos());
                }
            }
            j = j + 1;
        }
        i = i + 1;
    }
    true
}

fn name_string<C: TableColumn>(c: C) -> (r: String)
    ensures
        r@ == c.col_name(),
{
    string_from_chars(str_chars(c.name()).as_slice())
}

/// The records of a table: the columns of the row's fields that are asked for, in field
/// order, filled cell by cell, then moved into the order asked for (see `sort_columns`).
/// The columns asked for must match the fields present; a cell that cannot be formatted
/// fails the table.
pub fn table_records<C: TableColumn, R: TableRow<C>>(
    config: &Config,
    data: &Vec<R>,
    cols: &Vec<C>,
) -> (r: Result<Vec<Vec<String>>, FormatError>)
    ensures
        r matches Ok(recs) ==> records_of(recs@, cols@, data@, config.locale@),
        r is Ok <==> columns_match(R::spec_field_order(), cols@) && cells_formattable(
            cols@,
            data@,
            config.locale@,
        ),
        r matches Err(e) ==> (e == FormatError::Columns <==> !columns_match(
            R::spec_field_order(),
            cols@,
        )),
        r matches Err(e) ==> (e == FormatError::Columns || e == FormatError::Decimal),
{
    let order = R::field_order();
    proof {
        R::lemma_field_order();
    }
    let mut headers: Vec<C> = Vec::new();
    let mut i: usize = 0;
    while i < order.len()
        invariant
            order@ == R::spec_field_order(),
            i <= order@.len(),
            distinct(order@),
            headers@ == present_columns(order@.take(i as int), cols@),
            forall|k: int| 0 <= k < headers@.len() ==> occurs_in(cols@, #[trigger] headers@[k]),
            forall|a: int, b: int|
                0 <= a < b < headers@.len() ==> #[trigger] headers@[a] != #[trigger] headers@[b],
            forall|k: int|
                0 <= k < headers@.len() ==> exists|q: int| 0 <= q < i && order@[q] == #[trigger] headers@[k],
        decreases order@.len() - i,
    {
        let c = order[i];
        proof {
            assert(order@.take(i + 1).drop_last() =~= order@.take(i as int));
            reveal(Seq::filter);
        }
        if has_column(cols, c) {
            proof {
                assert forall|k: int| 0 <= k < headers@.len() implies headers@[k] != c by {
                    let q = choose|q: int| 0 <= q < i && order@[q] == headers@[k];
                    assert(order@[q] != order@[i as int]);
                }
            }
            let ghost h0 = headers@;
            headers.push(c);
            proof {
                assert forall|k: int| 0 <= k < headers@.len() implies exists|q: int|
                    0 <= q < i + 1 && order@[q] == #[trigger] headers@[k] by {
                    if k < h0.len() {
                        assert(headers@[k] == h0[k]);
                    } else {
                        assert(order@[i as int] == headers@[k]);
                    }
                }
            }
        }
        i = i + 1;
    }
    proof {
        assert(order@.take(order@.len() as int) =~= order@);
    }
    let mut ok = all_distinct(cols) && headers.len() == cols.len();
    let mut j: usize = 0;
    while ok && j < cols.len()
        invariant
            j <= cols@.len(),
            ok ==> forall|q: int| 0 <= q < j ==> occurs_in(headers@, #[trigger] cols@[q]),
            ok ==> distinct(cols@) && headers@.len() == cols@.len(),
            !ok ==> !columns_match(R::spec_field_order(), cols@),
            headers@ == present_columns(R::spec_field_order(), cols@),
        decreases cols@.len() - j,
    {
        ok = has_column(&headers, cols[j]);
        j = j + 1;
    }
    if !ok {
        return Err(FormatError::Columns);
    }
    proof {
        assert(columns_match(R::spec_field_order(), cols@));
    }
    let mut recs: Vec<Vec<String>> = Vec::new();
    let mut head: Vec<String> = Vec::new();
    let mut h: usize = 0;
    while h < headers.len()
        invariant
            h <= headers@.len(),
            head@.len() == h,
            forall|k: int| 0 <= k < h ==> (#[trigger] head@[k])@ == headers@[k].col_name(),
        decreases headers@.len() - h,
    {
        head.push(name_string(headers[h]));
        h = h + 1;
    }
    recs.push(head);
    let mut r: usize = 0;
    while r < data.len()
        invariant
            r <= data@.len(),
            recs@.len() == r + 1,
            columns_match(R::spec_field_order(), cols@),
            forall|k: int| 0 <= k < headers@.len() ==> occurs_in(cols@, #[trigger] headers@[k]),
            forall|q: int| 0 <= q < recs@.len() ==> (#[trigger] recs@[q])@.len() == headers@.len(),
            forall|k: int| 0 <= k < headers@.len() ==> recs@[0]@[k]@ == (#[trigger] headers@[k]).col_name(),
            forall|q: int, k: int|
                0 <= q < r && 0 <= k < headers@.len() ==> (#[trigger] data@[q]).spec_cell(
                    config.locale@,
                    #[trigger] headers@[k],
                ) == Some(recs@[q + 1]@[k]@),
        decreases data@.len() - r,
    {
        let mut row: Vec<String> = Vec::new();
        let mut k: usize = 0;
        while k < headers.len()
            invariant
                k <= headers@.len(),
                row@.len() == k,
                r < data@.len(),
                columns_match(R::spec_field_order(), cols@),
                forall|x: int| 0 <= x < headers@.len() ==> occurs_in(cols@, #[trigger] headers@[x]),
                forall|x: int| 0 <= x < k ==> data@[r as int].spec_cell(config.locale@, headers@[x]) == Some(
                    (#[trigger] row@[x])@,
                ),
            decreases headers@.len() - k,
        {
            let cell = data[r].cell(config, headers[k]);
            match cell {
                Ok(s) => row.push(s),
                Err(e) => {
                    proof {
                        assert(occurs_in(cols@, headers@[k as int]));
                        let jj = choose|jj: int| 0 <= jj < cols@.len() && cols@[jj] == headers@[k as int];
                        assert(data@[r as int].spec_cell(config.locale@, cols@[jj]) is None);
                        assert(!cells_formattable(cols@, data@, config.locale@));
                    }
                    return Err(e);
                },
            }
            k = k + 1;
        }
        let ghost recs0 = recs@;
        recs.push(row);
        proof {
            assert forall|q: int, x: int|
                0 <= q < r + 1 && 0 <= x < headers@.len() implies (#[trigger] data@[q]).spec_cell(
                    config.locale@,
                    #[trigger] headers@[x],
                ) == Some(recs@[q + 1]@[x]@) by {
                if q < r {
                    assert(recs@[q + 1] == recs0[q + 1]);
                }
            }
        }
        r = r + 1;
    }
    let ghost before = recs@;
    sort_columns(&mut recs, headers.as_slice(), cols.as_slice());
    proof {
        assert forall|x: int| 0 <= x < cols@.len() implies recs@[0]@[x]@ == (#[trigger] cols@[x]).col_name() by {
            assert(occurs_in(headers@, cols@[x]));
            let y = choose|y: int| 0 <= y < headers@.len() && headers@[y] == cols@[x];
            assert(recs@[0]@[x]@ == before[0]@[y]@);
        }
        assert forall|q: int, x: int|
            0 <= q < data@.len() && 0 <= x < cols@.len() implies (#[trigger] data@[q]).spec_cell(
                config.locale@,
                #[trigger] cols@[x],
            ) == Some(recs@[q + 1]@[x]@) by {
            assert(occurs_in(headers@, cols@[x]));
            let y = choose|y: int| 0 <= y < headers@.len() && headers@[y] == cols@[x];
            assert(recs@[q + 1]@[x]@ == before[q + 1]@[y]@);
        }
        assert(cells_formattable(cols@, data@, config.locale@)) by {
            assert forall|q: int, x: int|
                0 <= q < data@.len() && 0 <= x < cols@.len() implies (#[trigger] data@[q]).spec_cell(
                    config.locale@,
                    #[trigger] cols@[x],
                ) is Some by {
                assert(data@[q].spec_cell(config.locale@, cols@[x]) == Some(recs@[q + 1]@[x]@));
            }
        }
    }
    Ok(recs)
}


/// An amount formatted for the locale.
pub open spec fn sat_text(locale: Seq<char>, n: u64) -> Option<Seq<char>> {
    localized_decimal(locale, decimal(n as nat))
}

/// `s` followed by `t`, where both are texts.
pub open spec fn then_text(s: Option<Seq<char>>, t: Option<Seq<char>>) -> Option<Seq<char>> {
    match (s, t) {
        (Some(a), Some(b)) => Some(a + b),
        _ => None,
    }
}

/// `s` as a text that cannot fail.
pub open spec fn lit(s: Seq<char>) -> Option<Seq<char>> {
    Some(s)
}

/// `s` for one, `s` with an `s` appended otherwise.
pub open spec fn plural(n: u64) -> Seq<char> {
    if n == 1 {
        Seq::empty()
    } else {
        "s"@
    }
}

/// How much of a flow table is shown: `count/limit` where a limit is set, else `off`.
pub open spec fn limit_text(count: nat, limit: usize) -> Seq<char> {
    if limit > 0 {
        decimal(count) + "/"@ + decimal(limit as nat)
    } else {
        "off"@
    }
}

fn push_str(cs: &mut Vec<char>, s: &str)
    ensures
        final(cs)@ == old(cs)@ + s@,
{
    let t = str_chars(s);
    crate::strutil::append_chars(cs, &t);
}

fn push_string(cs: &mut Vec<char>, s: &String)
    ensures
        final(cs)@ == old(cs)@ + s@,
{
    let t = str_chars(s.as_str());
    crate::strutil::append_chars(cs, &t);
}

fn push_decimal_text(cs: &mut Vec<char>, n: u64)
    ensures
        final(cs)@ == old(cs)@ + decimal(n as nat),
{
    let d = u64_to_decimal(n);
    push_string(cs, &d);
}

fn push_limit_text(cs: &mut Vec<char>, count: u64, limit: usize)
    ensures
        final(cs)@ == old(cs)@ + limit_text(count as nat, limit),
{
    if limit > 0 {
        push_decimal_text(cs, count);
        push_str(cs, "/");
        push_decimal_text(cs, limit as u64);
        proof {
            assert(final(cs)@ =~= old(cs)@ + limit_text(count as nat, limit));
        }
    } else {
        push_str(cs, "off");
    }
}

fn push_plural(cs: &mut Vec<char>, n: u64)
    ensures
        final(cs)@ == old(cs)@ + plural(n),
{
    if n != 1 {
        push_str(cs, "s");
    } else {
        proof {
            assert(old(cs)@ + plural(n) =~= old(cs)@);
        }
    }
}

fn push_sat(cs: &mut Vec<char>, config: &Config, n: u64) -> (r: Result<(), FormatError>)
    ensures
        r is Ok ==> (sat_text(config.locale@, n) matches Some(t) && final(cs)@ == old(cs)@ + t),
        r is Err ==> sat_text(config.locale@, n) is None && r == Err::<(), FormatError>(FormatError::Decimal),
{
    let s = u64_to_sat_string(config, n)?;
    push_string(cs, &s);
    Ok(())
}

/// Whether a forwards column holds amounts, shown right-aligned with the locale's grouping.
pub open spec fn forwards_numerical(c: ForwardsColumns) -> bool {
    ForwardsColumns::spec_numerical().contains(c)
}

impl TableRow<ForwardsColumns> for crate::flows::Forwards {
    open spec fn spec_cell(&self, locale: Seq<char>, c: ForwardsColumns) -> Option<Seq<char>> {
        match c {
            ForwardsColumns::received_time => Some(self.received_time_str@),
            ForwardsColumns::resolved_time => Some(self.resolved_time_str@),
            ForwardsColumns::in_alias => Some(self.in_alias@),
            ForwardsColumns::out_alias => Some(self.out_alias@),
            ForwardsColumns::in_channel => Some(crate::flows::scid_text(self.in_channel)),
            ForwardsColumns::out_channel => Some(crate::flows::scid_text(self.out_channel)),
            ForwardsColumns::in_msats => sat_text(locale, self.in_msats),
            ForwardsColumns::out_msats => sat_text(locale, self.out_msats),
            ForwardsColumns::in_sats => sat_text(locale, self.in_sats),
            ForwardsColumns::out_sats => sat_text(locale, self.out_sats),
            ForwardsColumns::fee_msats => sat_text(locale, self.fee_msats),
            ForwardsColumns::fee_sats => sat_text(locale, self.fee_sats),
            ForwardsColumns::eff_fee_ppm => sat_text(locale, self.eff_fee_ppm as u64),
        }
    }

    open spec fn spec_field_order() -> Seq<ForwardsColumns> {
        seq![
            ForwardsColumns::received_time,
            ForwardsColumns::resolved_time,
            ForwardsColumns::in_alias,
            ForwardsColumns::out_alias,
            ForwardsColumns::in_channel,
            ForwardsColumns::out_channel,
            ForwardsColumns::in_msats,
            ForwardsColumns::in_sats,
            ForwardsColumns::out_msats,
            ForwardsColumns::out_sats,
            ForwardsColumns::fee_msats,
            ForwardsColumns::fee_sats,
            ForwardsColumns::eff_fee_ppm,
        ]
    }

    proof fn lemma_field_order() {
    }

    fn cell(&self, config: &Config, c: ForwardsColumns) -> (r: Result<String, FormatError>) {
        match c {
            ForwardsColumns::received_time => Ok(self.received_time_str.clone()),
            ForwardsColumns::resolved_time => Ok(self.resolved_time_str.clone()),
            ForwardsColumns::in_alias => Ok(self.in_alias.clone()),
            ForwardsColumns::out_alias => Ok(self.out_alias.clone()),
            ForwardsColumns::in_channel => Ok(crate::flows::scid_to_string(self.in_channel)),
            ForwardsColumns::out_channel => Ok(crate::flows::scid_to_string(self.out_channel)),
            ForwardsColumns::in_msats => u64_to_sat_string(config, self.in_msats),
            ForwardsColumns::out_msats => u64_to_sat_string(config, self.out_msats),
            ForwardsColumns::in_sats => u64_to_sat_string(config, self.in_sats),
            ForwardsColumns::out_sats => u64_to_sat_string(config, self.out_sats),
            ForwardsColumns::fee_msats => u64_to_sat_string(config, self.fee_msats),
            ForwardsColumns::fee_sats => u64_to_sat_string(config, self.fee_sats),
            ForwardsColumns::eff_fee_ppm => u64_to_sat_string(config, self.eff_fee_ppm as u64),
        }
    }

    fn field_order() -> (r: Vec<ForwardsColumns>) {
        let r = vec![
            ForwardsColumns::received_time,
            ForwardsColumns::resolved_time,
            ForwardsColumns::in_alias,
            ForwardsColumns::out_alias,
            ForwardsColumns::in_channel,
            ForwardsColumns::out_channel,
            ForwardsColumns::in_msats,
            ForwardsColumns::in_sats,
            ForwardsColumns::out_msats,
            ForwardsColumns::out_sats,
            ForwardsColumns::fee_msats,
            ForwardsColumns::fee_sats,
            ForwardsColumns::eff_fee_ppm,
        ];
        proof {
            assert(r@ =~= Self::spec_field_order());
        }
        r
    }
}


/// The title row of the forwards table.
pub open spec fn forwards_title(config: Config, count: nat) -> Seq<char> {
    "forwards (last "@ + decimal(config.forwards as nat) + "h, limit: "@ + limit_text(
        count,
        config.forwards_limit,
    ) + ")"@
}

/// The footer on the forwards that the filters left out.
pub open spec fn forwards_filter_footer(locale: Seq<char>, s: crate::flows::ForwardsFilterStats) -> Option<Seq<char>> {
    match (sat_text(locale, crate::util::rounded_div(s.amt_sum_msat as int, 1000) as u64), sat_text(locale, s.fee_sum_msat)) {
        (Some(a), Some(f)) => Some(
            "\nFiltered "@ + decimal(s.count as nat) + " forward"@ + plural(s.count) + " with "@ + a
                + " sats routed and "@ + f + " msat fees."@,
        ),
        _ => None,
    }
}

/// The footer on the totals of the forwards.
pub open spec fn forwards_totals_footer(config: Config, t: crate::flows::ForwardsTotals) -> Option<Seq<char>> {
    let l = config.locale@;
    match (
        sat_text(l, crate::util::rounded_div(t.amount_in_msat->0 as int, 1000) as u64),
        sat_text(l, crate::util::rounded_div(t.amount_out_msat->0 as int, 1000) as u64),
        sat_text(l, crate::util::rounded_div(t.fees_msat->0 as int, 1000) as u64),
    ) {
        (Some(a), Some(b), Some(c)) => Some(
            "\nTotal forwards stats in the last "@ + decimal(config.forwards as nat) + "h: "@ + a
                + " in_sats "@ + b + " out_sats "@ + c + " fee_sats"@,
        ),
        _ => None,
    }
}

/// The formatting of a forwards column: amounts right-aligned, aliases cut or wrapped at the
/// alias length.
pub open spec fn forwards_column_format(config: Config, c: ForwardsColumns) -> ColumnFormat {
    ColumnFormat {
        align: if forwards_numerical(c) {
            Some(Align::Right)
        } else {
            None
        },
        width: if c == ForwardsColumns::in_alias || c == ForwardsColumns::out_alias {
            width_rule(config.max_alias_length)
        } else {
            None
        },
    }
}

/// The footers that are present, in order.
pub open spec fn footers_of(a: Option<Seq<char>>, b: Option<Seq<char>>) -> Seq<Seq<char>> {
    (match a {
        Some(x) => seq![x],
        None => Seq::empty(),
    }) + (match b {
        Some(x) => seq![x],
        None => Seq::empty(),
    })
}

/// The views of a list of strings.
pub open spec fn texts(v: Seq<String>) -> Seq<Seq<char>> {
    v.map_values(|s: String| s@)
}

/// Whether the forwards table can be made: its columns match, every cell and footer can be
/// formatted, and the alias length fits in `usize`.
pub open spec fn forwards_plannable(
    config: Config,
    data: Seq<crate::flows::Forwards>,
    stats: crate::flows::ForwardsFilterStats,
    totals: crate::flows::ForwardsTotals,
) -> bool {
    &&& columns_match(<crate::flows::Forwards as TableRow<ForwardsColumns>>::spec_field_order(), config.forwards_columns@)
    &&& cells_formattable(config.forwards_columns@, data, config.locale@)
    &&& width_rule(config.max_alias_length) is Some
    &&& stats.count > 0 ==> forwards_filter_footer(config.locale@, stats) is Some
    &&& totals.amount_in_msat is Some ==> forwards_totals_footer(config, totals) is Some
}

/// The plan of the forwards table: the records of the columns asked for, the flow style,
/// the column formats, the title, and the footers on filtered forwards and on the totals
/// where there are such.
pub open spec fn forwards_plan(
    p: TablePlan,
    config: Config,
    data: Seq<crate::flows::Forwards>,
    stats: crate::flows::ForwardsFilterStats,
    totals: crate::flows::ForwardsTotals,
) -> bool {
    let cols = config.forwards_columns@;
    &&& records_of(p.rows@, cols, data, config.locale@)
    &&& p.style == config.flow_style
    &&& p.columns@.len() == cols.len()
    &&& forall|j: int| 0 <= j < cols.len() ==> p.columns@[j] == forwards_column_format(config, #[trigger] cols[j])
    &&& p.header matches Some(h) && h@ == forwards_title(config, data.len())
    &&& texts(p.footers@) == footers_of(
        if stats.count > 0 {
            forwards_filter_footer(config.locale@, stats)
        } else {
            None
        },
        if totals.amount_in_msat is Some {
            forwards_totals_footer(config, totals)
        } else {
            None
        },
    )
    &&& !p.last_row_left
}

fn is_forwards_numerical(c: ForwardsColumns) -> (r: bool)
    ensures
        r == forwards_numerical(c),
{
    let n = ForwardsColumns::numerical();
    has_column(&n, c)
}

/// Plans the forwards table (see `forwards_plan`).
pub fn plan_forwards_table(
    config: &Config,
    forwards: &Vec<crate::flows::Forwards>,
    stats: &crate::flows::ForwardsFilterStats,
    totals: &crate::flows::ForwardsTotals,
) -> (r: Result<TablePlan, FormatError>)
    requires
        totals.amount_in_msat is Some ==> totals.amount_out_msat is Some && totals.fees_msat is Some,
    ensures
        r is Ok <==> forwards_plannable(*config, forwards@, *stats, *totals),
        r matches Ok(p) ==> forwards_plan(p, *config, forwards@, *stats, *totals),
{
    let rows = table_records(config, forwards, &config.forwards_columns)?;
    let w = width_for(config.max_alias_length)?;
    let cols = &config.forwards_columns;
    let mut formats: Vec<ColumnFormat> = Vec::new();
    let mut j: usize = 0;
    while j < cols.len()
        invariant
            j <= cols@.len(),
            width_rule(config.max_alias_length) == Some(w),
            formats@.len() == j,
            forall|k: int| 0 <= k < j ==> formats@[k] == forwards_column_format(*config, #[trigger] cols@[k]),
        decreases cols@.len() - j,
    {
        let c = cols[j];
        let align = if is_forwards_numerical(c) {
            Some(Align::Right)
        } else {
            None
        };
        let width = if c == ForwardsColumns::in_alias || c == ForwardsColumns::out_alias {
            Some(w)
        } else {
            None
        };
        formats.push(ColumnFormat { align, width });
        j = j + 1;
    }
    let mut title: Vec<char> = Vec::new();
    push_str(&mut title, "forwards (last ");
    push_decimal_text(&mut title, config.forwards);
    push_str(&mut title, "h, limit: ");
    push_limit_text(&mut title, forwards.len() as u64, config.forwards_limit);
    push_str(&mut title, ")");
    let mut footers: Vec<String> = Vec::new();
    if stats.count > 0 {
        let mut f: Vec<char> = Vec::new();
        push_str(&mut f, "\nFiltered ");
        push_decimal_text(&mut f, stats.count);
        push_str(&mut f, " forward");
        push_plural(&mut f, stats.count);
        push_str(&mut f, " with ");
        push_sat(&mut f, config, crate::util::rounded_div_u64(stats.amt_sum_msat, 1000))?;
        push_str(&mut f, " sats routed and ");
        push_sat(&mut f, config, stats.fee_sum_msat)?;
        push_str(&mut f, " msat fees.");
        footers.push(string_from_chars(f.as_slice()));
    }
    if let (Some(a), Some(b), Some(c)) = (totals.amount_in_msat, totals.amount_out_msat, totals.fees_msat) {
        let mut f: Vec<char> = Vec::new();
        push_str(&mut f, "\nTotal forwards stats in the last ");
        push_decimal_text(&mut f, config.forwards);
        push_str(&mut f, "h: ");
        push_sat(&mut f, config, crate::util::rounded_div_u64(a, 1000))?;
        push_str(&mut f, " in_sats ");
        push_sat(&mut f, config, crate::util::rounded_div_u64(b, 1000))?;
        push_str(&mut f, " out_sats ");
        push_sat(&mut f, config, crate::util::rounded_div_u64(c, 1000))?;
        push_str(&mut f, " fee_sats");
        footers.push(string_from_chars(f.as_slice()));
    }
    proof {
        assert(texts(footers@) =~= footers_of(
            if stats.count > 0 {
                forwards_filter_footer(config.locale@, *stats)
            } else {
                None
            },
            if totals.amount_in_msat is Some {
                forwards_totals_footer(*config, *totals)
            } else {
                None
            },
        ));
    }
    Ok(TablePlan {
        rows,
        style: config.flow_style,
        columns: formats,
        header: Some(string_from_chars(title.as_slice())),
        footers,
        last_row_left: false,
    })
}

/// The forwards table as text: planned (see `plan_forwards_table`), then drawn by tabled.
pub fn format_forwards(
    config: &Config,
    forwards: &Vec<crate::flows::Forwards>,
    stats: &crate::flows::ForwardsFilterStats,
    totals: &crate::flows::ForwardsTotals,
) -> (r: Result<String, FormatError>)
    requires
        totals.amount_in_msat is Some ==> totals.amount_out_msat is Some && totals.fees_msat is Some,
    ensures
        r is Ok <==> forwards_plannable(*config, forwards@, *stats, *totals),
        r matches Ok(s) ==> exists|p: TablePlan|
            #[trigger] forwards_plan(p, *config, forwards@, *stats, *totals) && s@ == drawn_text(plan_steps(p)),
{
    let plan = plan_forwards_table(config, forwards, stats, totals)?;
    let ghost p = plan;
    let s = render_table(plan);
    assert(forwards_plan(p, *config, forwards@, *stats, *totals) && s@ == drawn_text(plan_steps(p)));
    Ok(s)
}


/// An optional amount as a cell: formatted for the locale, or `N/A`.
pub open spec fn opt_sat_text(locale: Seq<char>, n: Option<u64>) -> Option<Seq<char>> {
    match n {
        Some(v) => sat_text(locale, v),
        None => Some("N/A"@),
    }
}

/// An optional text as a cell, `N/A` where it is missing.
pub open spec fn opt_text(s: Option<String>) -> Seq<char> {
    match s {
        Some(v) => v@,
        None => "N/A"@,
    }
}

/// A description as a cell, with the characters that would break it replaced.
pub open spec fn escaped(s: Seq<char>) -> Seq<char> {
    s.map_values(|c: char| crate::util::escape_char(c))
}

fn opt_sat_string(config: &Config, n: Option<u64>) -> (r: Result<String, FormatError>)
    ensures
        r matches Ok(s) ==> opt_sat_text(config.locale@, n) == Some(s@),
        r is Err ==> opt_sat_text(config.locale@, n) is None && r == Err::<String, FormatError>(FormatError::Decimal),
{
    match n {
        Some(v) => u64_to_sat_string(config, v),
        None => {
            proof {
                reveal_strlit("N/A");
            }
            Ok(string_from_chars(str_chars("N/A").as_slice()))
        },
    }
}

/// An optional text as a cell: the text, or `N/A`.
pub fn fmt_option(s: &Option<String>) -> (r: String)
    ensures
        r@ == opt_text(*s),
{
    match s {
        Some(v) => v.clone(),
        None => string_from_chars(str_chars("N/A").as_slice()),
    }
}

/// Whether a pays column holds amounts (or `N/A`), shown right-aligned.
pub open spec fn pays_numerical(c: PaysColumns) -> bool {
    PaysColumns::spec_numerical().contains(c) || PaysColumns::spec_optional_numerical().contains(c)
}

impl TableRow<PaysColumns> for crate::flows::Pays {
    open spec fn spec_cell(&self, locale: Seq<char>, c: PaysColumns) -> Option<Seq<char>> {
        match c {
            PaysColumns::completed_at => Some(self.completed_at_str@),
            PaysColumns::payment_hash => Some(self.payment_hash@),
            PaysColumns::msats_requested => opt_sat_text(locale, self.msats_requested),
            PaysColumns::sats_requested => opt_sat_text(locale, self.sats_requested),
            PaysColumns::msats_sent => sat_text(locale, self.msats_sent),
            PaysColumns::sats_sent => sat_text(locale, self.sats_sent),
            PaysColumns::fee_msats => opt_sat_text(locale, self.fee_msats),
            PaysColumns::fee_sats => opt_sat_text(locale, self.fee_sats),
            PaysColumns::destination => Some(opt_text(self.destination)),
            PaysColumns::description => Some(escaped(opt_text(self.description))),
            PaysColumns::preimage => Some(self.preimage@),
        }
    }

    open spec fn spec_field_order() -> Seq<PaysColumns> {
        seq![
            PaysColumns::completed_at,
            PaysColumns::payment_hash,
            PaysColumns::msats_requested,
            PaysColumns::sats_requested,
            PaysColumns::msats_sent,
            PaysColumns::sats_sent,
            PaysColumns::fee_msats,
            PaysColumns::fee_sats,
            PaysColumns::destination,
            PaysColumns::description,
            PaysColumns::preimage,
        ]
    }

    proof fn lemma_field_order() {
    }

    fn cell(&self, config: &Config, c: PaysColumns) -> (r: Result<String, FormatError>) {
        match c {
            PaysColumns::completed_at => Ok(self.completed_at_str.clone()),
            PaysColumns::payment_hash => Ok(self.payment_hash.clone()),
            PaysColumns::msats_requested => opt_sat_string(config, self.msats_requested),
            PaysColumns::sats_requested => opt_sat_string(config, self.sats_requested),
            PaysColumns::msats_sent => u64_to_sat_string(config, self.msats_sent),
            PaysColumns::sats_sent => u64_to_sat_string(config, self.sats_sent),
            PaysColumns::fee_msats => opt_sat_string(config, self.fee_msats),
            PaysColumns::fee_sats => opt_sat_string(config, self.fee_sats),
            PaysColumns::destination => Ok(fmt_option(&self.destination)),
            PaysColumns::description => {
                let d = fmt_option(&self.description);
                Ok(crate::util::replace_escaping_chars(d.as_str()))
            },
            PaysColumns::preimage => Ok(self.preimage.clone()),
        }
    }

    fn field_order() -> (r: Vec<PaysColumns>) {
        let r = vec![
            PaysColumns::completed_at,
            PaysColumns::payment_hash,
            PaysColumns::msats_requested,
            PaysColumns::sats_requested,
            PaysColumns::msats_sent,
            PaysColumns::sats_sent,
            PaysColumns::fee_msats,
            PaysColumns::fee_sats,
            PaysColumns::destination,
            PaysColumns::description,
            PaysColumns::preimage,
        ];
        proof {
            assert(r@ =~= Self::spec_field_order());
        }
        r
    }
}

/// The formatting of a pays column: amounts right-aligned, the destination cut or wrapped at
/// the alias length, the description at the description length.
pub open spec fn pays_column_format(config: Config, c: PaysColumns) -> ColumnFormat {
    ColumnFormat {
        align: if pays_numerical(c) {
            Some(Align::Right)
        } else {
            None
        },
        width: if c == PaysColumns::destination {
            width_rule(config.max_alias_length)
        } else if c == PaysColumns::description {
            width_rule(config.max_desc_length)
        } else {
            None
        },
    }
}

/// One line of the pays totals: count, time window, amounts requested and sent and fees
/// (`N/A` where not known).
pub open spec fn pays_total_line(
    config: Config,
    what: Seq<char>,
    count: u64,
    amount: Option<u64>,
    sent: u64,
    fees: Option<u64>,
) -> Option<Seq<char>> {
    let l = config.locale@;
    let a = match amount {
        Some(x) => sat_text(l, crate::util::rounded_div(x as int, 1000) as u64),
        None => Some("N/A"@),
    };
    let f = match fees {
        Some(x) => sat_text(l, crate::util::rounded_div(x as int, 1000) as u64),
        None => Some("N/A"@),
    };
    match (a, sat_text(l, crate::util::rounded_div(sent as int, 1000) as u64), f) {
        (Some(x), Some(y), Some(z)) => Some(
            "\nTotal of "@ + decimal(count as nat) + " "@ + what + " in the last "@ + decimal(
                config.pays as nat,
            ) + "h: "@ + x + " sats_requested "@ + y + " sats_sent "@ + z + " fee_sats"@,
        ),
        _ => None,
    }
}

/// The footer on the pays totals: the line on payments to others where any, then the line on
/// payments to this node where any.
pub open spec fn pays_totals_footer(config: Config, t: crate::flows::PaysTotals) -> Option<Seq<char>> {
    let a = if t.amount_sent_msat is Some {
        pays_total_line(config, "pays"@, t.count, t.amount_msat, t.amount_sent_msat->0, t.fees_msat)
    } else {
        Some(Seq::empty())
    };
    let b = if t.self_amount_sent_msat is Some {
        pays_total_line(
            config,
            "self-pays"@,
            t.self_count,
            t.self_amount_msat,
            t.self_amount_sent_msat->0,
            t.self_fees_msat,
        )
    } else {
        Some(Seq::empty())
    };
    then_text(a, b)
}

/// The line above the pays table.
pub open spec fn pays_title(config: Config, count: nat) -> Seq<char> {
    "\n\npays (last "@ + decimal(config.pays as nat) + "h, limit: "@ + limit_text(
        count,
        config.pays_limit,
    ) + "):\n"@
}

/// Whether the pays table can be made.
pub open spec fn pays_plannable(config: Config, data: Seq<crate::flows::Pays>, t: crate::flows::PaysTotals) -> bool {
    &&& columns_match(<crate::flows::Pays as TableRow<PaysColumns>>::spec_field_order(), config.pays_columns@)
    &&& cells_formattable(config.pays_columns@, data, config.locale@)
    &&& width_rule(config.max_alias_length) is Some
    &&& width_rule(config.max_desc_length) is Some
    &&& pays_totals_footer(config, t) is Some
}

/// The plan of the pays table: the records of the columns asked for, the flow style, the
/// column formats, no title row, and the totals as footer where there are any.
pub open spec fn pays_plan(p: TablePlan, config: Config, data: Seq<crate::flows::Pays>, t: crate::flows::PaysTotals) -> bool {
    let cols = config.pays_columns@;
    let foot = pays_totals_footer(config, t)->0;
    &&& records_of(p.rows@, cols, data, config.locale@)
    &&& p.style == config.flow_style
    &&& p.columns@.len() == cols.len()
    &&& forall|j: int| 0 <= j < cols.len() ==> p.columns@[j] == pays_column_format(config, #[trigger] cols[j])
    &&& p.header is None
    &&& texts(p.footers@) == (if foot.len() > 0 {
        seq![foot]
    } else {
        Seq::<Seq<char>>::empty()
    })
    &&& !p.last_row_left
}

fn is_pays_numerical(c: PaysColumns) -> (r: bool)
    ensures
        r == pays_numerical(c),
{
    has_column(&PaysColumns::numerical(), c) || has_column(&PaysColumns::optional_numerical(), c)
}

fn push_opt_sat_thousandth(cs: &mut Vec<char>, config: &Config, n: Option<u64>) -> (r: Result<(), FormatError>)
    ensures
        r is Ok ==> ((match n {
            Some(x) => sat_text(config.locale@, crate::util::rounded_div(x as int, 1000) as u64),
            None => Some("N/A"@),
        }) matches Some(t) && final(cs)@ == old(cs)@ + t),
        r is Err ==> (match n {
            Some(x) => sat_text(config.locale@, crate::util::rounded_div(x as int, 1000) as u64),
            None => Some("N/A"@),
        }) is None,
{
    match n {
        Some(x) => push_sat(cs, config, crate::util::rounded_div_u64(x, 1000)),
        None => {
            push_str(cs, "N/A");
            Ok(())
        },
    }
}

#[verifier::spinoff_prover]
#[verifier::rlimit(40)]
fn push_pays_total_line(
    cs: &mut Vec<char>,
    config: &Config,
    what: &str,
    count: u64,
    amount: Option<u64>,
    sent: u64,
    fees: Option<u64>,
) -> (r: Result<(), FormatError>)
    ensures
        r is Ok ==> (pays_total_line(*config, what@, count, amount, sent, fees) matches Some(t)
            && final(cs)@ == old(cs)@ + t),
        r is Err ==> pays_total_line(*config, what@, count, amount, sent, fees) is None,
{
    let ghost c0 = cs@;
    let mut a: Vec<char> = Vec::new();
    push_opt_sat_thousandth(&mut a, config, amount)?;
    let mut b: Vec<char> = Vec::new();
    push_sat(&mut b, config, crate::util::rounded_div_u64(sent, 1000))?;
    let mut f: Vec<char> = Vec::new();
    push_opt_sat_thousandth(&mut f, config, fees)?;
    push_str(cs, "\nTotal of ");
    push_decimal_text(cs, count);
    push_str(cs, " ");
    push_str(cs, what);
    push_str(cs, " in the last ");
    push_decimal_text(cs, config.pays);
    push_str(cs, "h: ");
    crate::strutil::append_chars(cs, &a);
    push_str(cs, " sats_requested ");
    crate::strutil::append_chars(cs, &b);
    push_str(cs, " sats_sent ");
    crate::strutil::append_chars(cs, &f);
    push_str(cs, " fee_sats");
    proof {
        let t = pays_total_line(*config, what@, count, amount, sent, fees)->0;
        assert(cs@ =~= c0 + t);
    }
    Ok(())
}

/// Plans the pays table (see `pays_plan`).
pub fn plan_pays_table(config: &Config, pays: &Vec<crate::flows::Pays>, totals: &crate::flows::PaysTotals) -> (r: Result<
    TablePlan,
    FormatError,
>)
    ensures
        r is Ok <==> pays_plannable(*config, pays@, *totals),
        r matches Ok(p) ==> pays_plan(p, *config, pays@, *totals),
{
    let rows = table_records(config, pays, &config.pays_columns)?;
    let wa = width_for(config.max_alias_length)?;
    let wd = width_for(config.max_desc_length)?;
    let cols = &config.pays_columns;
    let mut formats: Vec<ColumnFormat> = Vec::new();
    let mut j: usize = 0;
    while j < cols.len()
        invariant
            j <= cols@.len(),
            width_rule(config.max_alias_length) == Some(wa),
            width_rule(config.max_desc_length) == Some(wd),
            formats@.len() == j,
            forall|k: int| 0 <= k < j ==> formats@[k] == pays_column_format(*config, #[trigger] cols@[k]),
        decreases cols@.len() - j,
    {
        let c = cols[j];
        let align = if is_pays_numerical(c) {
            Some(Align::Right)
        } else {
            None
        };
        let width = if c == PaysColumns::destination {
            Some(wa)
        } else if c == PaysColumns::description {
            Some(wd)
        } else {
            None
        };
        formats.push(ColumnFormat { align, width });
        j = j + 1;
    }
    let mut foot: Vec<char> = Vec::new();
    if let Some(sent) = totals.amount_sent_msat {
        push_pays_total_line(&mut foot, config, "pays", totals.count, totals.amount_msat, sent, totals.fees_msat)?;
    }
    let ghost foot_a = foot@;
    if let Some(sent) = totals.self_amount_sent_msat {
        push_pays_total_line(
            &mut foot,
            config,
            "self-pays",
            totals.self_count,
            totals.self_amount_msat,
            sent,
            totals.self_fees_msat,
        )?;
    }
    proof {
        assert(pays_totals_footer(*config, *totals) == Some(foot@));
    }
    let mut footers: Vec<String> = Vec::new();
    if foot.len() > 0 {
        footers.push(string_from_chars(foot.as_slice()));
    }
    proof {
        assert(texts(footers@) =~= (if foot@.len() > 0 {
            seq![foot@]
        } else {
            Seq::<Seq<char>>::empty()
        }));
    }
    Ok(TablePlan { rows, style: config.flow_style, columns: formats, header: None, footers, last_row_left: false })
}

/// The pays table as text: its title line, the table (planned by `plan_pays_table`, drawn by
/// tabled), and a line break.
pub fn format_pays(config: &Config, pays: &Vec<crate::flows::Pays>, totals: &crate::flows::PaysTotals) -> (r: Result<
    String,
    FormatError,
>)
    ensures
        r is Ok <==> pays_plannable(*config, pays@, *totals),
        r matches Ok(s) ==> exists|p: TablePlan|
            #[trigger] pays_plan(p, *config, pays@, *totals) && s@ == pays_title(*config, pays@.len()) + drawn_text(
                plan_steps(p),
            ) + "\n"@,
{
    let plan = plan_pays_table(config, pays, totals)?;
    let ghost p = plan;
    let table = render_table(plan);
    let mut cs: Vec<char> = Vec::new();
    push_str(&mut cs, "\n\npays (last ");
    push_decimal_text(&mut cs, config.pays);
    push_str(&mut cs, "h, limit: ");
    push_limit_text(&mut cs, pays.len() as u64, config.pays_limit);
    push_str(&mut cs, "):\n");
    let ghost title = cs@;
    push_string(&mut cs, &table);
    push_str(&mut cs, "\n");
    proof {
        assert(cs@ =~= pays_title(*config, pays@.len()) + table@ + "\n"@);
        assert(pays_plan(p, *config, pays@, *totals));
    }
    Ok(string_from_chars(cs.as_slice()))
}


impl TableRow<InvoicesColumns> for crate::flows::Invoices {
    open spec fn spec_cell(&self, locale: Seq<char>, c: InvoicesColumns) -> Option<Seq<char>> {
        match c {
            InvoicesColumns::paid_at => Some(self.paid_at_str@),
            InvoicesColumns::label => Some(self.label@),
            InvoicesColumns::description => Some(escaped(self.description@)),
            InvoicesColumns::msats_received => sat_text(locale, self.msats_received),
            InvoicesColumns::sats_received => sat_text(locale, self.sats_received),
            InvoicesColumns::payment_hash => Some(self.payment_hash@),
            InvoicesColumns::preimage => Some(self.preimage@),
        }
    }

    open spec fn spec_field_order() -> Seq<InvoicesColumns> {
        seq![
            InvoicesColumns::paid_at,
            InvoicesColumns::label,
            InvoicesColumns::description,
            InvoicesColumns::msats_received,
            InvoicesColumns::sats_received,
            InvoicesColumns::payment_hash,
            InvoicesColumns::preimage,
        ]
    }

    proof fn lemma_field_order() {
    }

    fn cell(&self, config: &Config, c: InvoicesColumns) -> (r: Result<String, FormatError>) {
        match c {
            InvoicesColumns::paid_at => Ok(self.paid_at_str.clone()),
            InvoicesColumns::label => Ok(self.label.clone()),
            InvoicesColumns::description => Ok(crate::util::replace_escaping_chars(self.description.as_str())),
            InvoicesColumns::msats_received => u64_to_sat_string(config, self.msats_received),
            InvoicesColumns::sats_received => u64_to_sat_string(config, self.sats_received),
            InvoicesColumns::payment_hash => Ok(self.payment_hash.clone()),
            InvoicesColumns::preimage => Ok(self.preimage.clone()),
        }
    }

    fn field_order() -> (r: Vec<InvoicesColumns>) {
        let r = vec![
            InvoicesColumns::paid_at,
            InvoicesColumns::label,
            InvoicesColumns::description,
            InvoicesColumns::msats_received,
            InvoicesColumns::sats_received,
            InvoicesColumns::payment_hash,
            InvoicesColumns::preimage,
        ];
        proof {
            assert(r@ =~= Self::spec_field_order());
        }
        r
    }
}

/// The formatting of an invoices column: amounts right-aligned, the description cut or
/// wrapped at the description length, the label at the label length.
pub open spec fn invoices_column_format(config: Config, c: InvoicesColumns) -> ColumnFormat {
    ColumnFormat {
        align: if InvoicesColumns::spec_numerical().contains(c) {
            Some(Align::Right)
        } else {
            None
        },
        width: if c == InvoicesColumns::description {
            width_rule(config.max_desc_length)
        } else if c == InvoicesColumns::label {
            width_rule(config.max_label_length)
        } else {
            None
        },
    }
}

/// The title row of the invoices table.
pub open spec fn invoices_title(config: Config, count: nat) -> Seq<char> {
    "invoices (last "@ + decimal(config.invoices as nat) + "h, limit: "@ + limit_text(
        count,
        config.invoices_limit,
    ) + ")"@
}

/// The footer on the invoices that the filter left out.
pub open spec fn invoices_filter_footer(locale: Seq<char>, s: crate::flows::InvoicesFilterStats) -> Option<Seq<char>> {
    match sat_text(locale, crate::util::rounded_div(s.filter_amt_sum_msat as int, 1000) as u64) {
        Some(a) => Some(
            "\nFiltered "@ + decimal(s.filter_count as nat) + " invoice"@ + plural(s.filter_count)
                + " with "@ + a + " sats total."@,
        ),
        None => None,
    }
}

/// The footer on the total received.
pub open spec fn invoices_totals_footer(config: Config, total: u64) -> Option<Seq<char>> {
    match sat_text(config.locale@, crate::util::rounded_div(total as int, 1000) as u64) {
        Some(a) => Some(
            "\nTotal invoices stats in the last "@ + decimal(config.invoices as nat) + "h: "@ + a
                + " sats_received"@,
        ),
        None => None,
    }
}

/// Whether the invoices table can be made.
pub open spec fn invoices_plannable(
    config: Config,
    data: Seq<crate::flows::Invoices>,
    stats: crate::flows::InvoicesFilterStats,
    total: Option<u64>,
) -> bool {
    &&& columns_match(<crate::flows::Invoices as TableRow<InvoicesColumns>>::spec_field_order(), config.invoices_columns@)
    &&& cells_formattable(config.invoices_columns@, data, config.locale@)
    &&& width_rule(config.max_desc_length) is Some
    &&& width_rule(config.max_label_length) is Some
    &&& stats.filter_count > 0 ==> invoices_filter_footer(config.locale@, stats) is Some
    &&& total matches Some(t) ==> invoices_totals_footer(config, t) is Some
}

/// The plan of the invoices table: the records of the columns asked for, the flow style, the
/// column formats, the title, and the footers on filtered invoices and on the total where
/// there are such.
pub open spec fn invoices_plan(
    p: TablePlan,
    config: Config,
    data: Seq<crate::flows::Invoices>,
    stats: crate::flows::InvoicesFilterStats,
    total: Option<u64>,
) -> bool {
    let cols = config.invoices_columns@;
    &&& records_of(p.rows@, cols, data, config.locale@)
    &&& p.style == config.flow_style
    &&& p.columns@.len() == cols.len()
    &&& forall|j: int| 0 <= j < cols.len() ==> p.columns@[j] == invoices_column_format(config, #[trigger] cols[j])
    &&& p.header matches Some(h) && h@ == invoices_title(config, data.len())
    &&& texts(p.footers@) == footers_of(
        if stats.filter_count > 0 {
            invoices_filter_footer(config.locale@, stats)
        } else {
            None
        },
        match total {
            Some(t) => invoices_totals_footer(config, t),
            None => None,
        },
    )
    &&& !p.last_row_left
}

/// Plans the invoices table (see `invoices_plan`); `total` is the total received.
pub fn plan_invoices_table(
    config: &Config,
    invoices: &Vec<crate::flows::Invoices>,
    stats: &crate::flows::InvoicesFilterStats,
    total: Option<u64>,
) -> (r: Result<TablePlan, FormatError>)
    ensures
        r is Ok <==> invoices_plannable(*config, invoices@, *stats, total),
        r matches Ok(p) ==> invoices_plan(p, *config, invoices@, *stats, total),
{
    let rows = table_records(config, invoices, &config.invoices_columns)?;
    let wd = width_for(config.max_desc_length)?;
    let wl = width_for(config.max_label_length)?;
    let cols = &config.invoices_columns;
    let numerical = InvoicesColumns::numerical();
    let mut formats: Vec<ColumnFormat> = Vec::new();
    let mut j: usize = 0;
    while j < cols.len()
        invariant
            j <= cols@.len(),
            numerical@ == InvoicesColumns::spec_numerical(),
            width_rule(config.max_desc_length) == Some(wd),
            width_rule(config.max_label_length) == Some(wl),
            formats@.len() == j,
            forall|k: int| 0 <= k < j ==> formats@[k] == invoices_column_format(*config, #[trigger] cols@[k]),
        decreases cols@.len() - j,
    {
        let c = cols[j];
        let align = if has_column(&numerical, c) {
            proof {
                assert(occurs_in(numerical@, c) ==> numerical@.contains(c));
            }
            Some(Align::Right)
        } else {
            None
        };
        let width = if c == InvoicesColumns::description {
            Some(wd)
        } else if c == InvoicesColumns::label {
            Some(wl)
        } else {
            None
        };
        formats.push(ColumnFormat { align, width });
        j = j + 1;
    }
    let mut title: Vec<char> = Vec::new();
    push_str(&mut title, "invoices (last ");
    push_decimal_text(&mut title, config.invoices);
    push_str(&mut title, "h, limit: ");
    push_limit_text(&mut title, invoices.len() as u64, config.invoices_limit);
    push_str(&mut title, ")");
    let mut footers: Vec<String> = Vec::new();
    if stats.filter_count > 0 {
        let mut f: Vec<char> = Vec::new();
        push_str(&mut f, "\nFiltered ");
        push_decimal_text(&mut f, stats.filter_count);
        push_str(&mut f, " invoice");
        push_plural(&mut f, stats.filter_count);
        push_str(&mut f, " with ");
        push_sat(&mut f, config, crate::util::rounded_div_u64(stats.filter_amt_sum_msat, 1000))?;
        push_str(&mut f, " sats total.");
        footers.push(string_from_chars(f.as_slice()));
    }
    if let Some(t) = total {
        let mut f: Vec<char> = Vec::new();
        push_str(&mut f, "\nTotal invoices stats in the last ");
        push_decimal_text(&mut f, config.invoices);
        push_str(&mut f, "h: ");
        push_sat(&mut f, config, crate::util::rounded_div_u64(t, 1000))?;
        push_str(&mut f, " sats_received");
        footers.push(string_from_chars(f.as_slice()));
    }
    proof {
        assert(texts(footers@) =~= footers_of(
            if stats.filter_count > 0 {
                invoices_filter_footer(config.locale@, *stats)
            } else {
                None
            },
            match total {
                Some(t) => invoices_totals_footer(*config, t),
                None => None,
            },
        ));
    }
    Ok(TablePlan {
        rows,
        style: config.flow_style,
        columns: formats,
        header: Some(string_from_chars(title.as_slice())),
        footers,
        last_row_left: false,
    })
}

/// The invoices table as text: planned (see `plan_invoices_table`), then drawn by tabled.
pub fn format_invoices(
    config: &Config,
    invoices: &Vec<crate::flows::Invoices>,
    stats: &crate::flows::InvoicesFilterStats,
    total: Option<u64>,
) -> (r: Result<String, FormatError>)
    ensures
        r is Ok <==> invoices_plannable(*config, invoices@, *stats, total),
        r matches Ok(s) ==> exists|p: TablePlan|
            #[trigger] invoices_plan(p, *config, invoices@, *stats, total) && s@ == drawn_text(plan_steps(p)),
{
    let plan = plan_invoices_table(config, invoices, stats, total)?;
    let ghost p = plan;
    let s = render_table(plan);
    assert(invoices_plan(p, *config, invoices@, *stats, total) && s@ == drawn_text(plan_steps(p)));
    Ok(s)
}


/// A peer fee cell: formatted for the locale where it is a number, else as it is.
pub open spec fn fee_text(locale: Seq<char>, s: Seq<char>) -> Option<Seq<char>> {
    match crate::numparse::parsed_u64(s) {
        Some(v) => sat_text(locale, v),
        None => Some(s),
    }
}

/// The longest a ping may take before it counts as failed, in milliseconds.
pub open spec fn ping_timeout_ms() -> u64 {
    5000
}

/// A ping cell: `N/A` for no ping or a failed one, else the milliseconds.
pub open spec fn ping_text(locale: Seq<char>, ping: u64) -> Option<Seq<char>> {
    if ping > ping_timeout_ms() || ping == 0 {
        Some("N/A"@)
    } else {
        sat_text(locale, ping)
    }
}

fn fee_string(config: &Config, s: &String) -> (r: Result<String, FormatError>)
    ensures
        r matches Ok(t) ==> fee_text(config.locale@, s@) == Some(t@),
        r is Err ==> fee_text(config.locale@, s@) is None && r == Err::<String, FormatError>(FormatError::Decimal),
{
    match crate::numparse::parse_u64(&str_chars(s.as_str())) {
        Some(v) => u64_to_sat_string(config, v),
        None => Ok(s.clone()),
    }
}

impl TableRow<SummaryColumns> for crate::channels::Summary {
    open spec fn spec_cell(&self, locale: Seq<char>, c: SummaryColumns) -> Option<Seq<char>> {
        match c {
            SummaryColumns::GRAPH_SATS => Some(self.graph_sats@),
            SummaryColumns::OUT_SATS => sat_text(locale, self.out_sats),
            SummaryColumns::IN_SATS => sat_text(locale, self.in_sats),
            SummaryColumns::TOTAL_SATS => sat_text(locale, self.total_sats),
            SummaryColumns::SCID => Some(self.scid@),
            SummaryColumns::MAX_HTLC => sat_text(locale, self.max_htlc),
            SummaryColumns::MIN_HTLC => sat_text(locale, self.min_htlc),
            SummaryColumns::FLAG => Some(self.flag@),
            SummaryColumns::BASE => sat_text(locale, self.base),
            SummaryColumns::IN_BASE => fee_text(locale, self.in_base@),
            SummaryColumns::PPM => sat_text(locale, self.ppm as u64),
            SummaryColumns::IN_PPM => fee_text(locale, self.in_ppm@),
            SummaryColumns::ALIAS => Some(self.alias@),
            SummaryColumns::PEER_ID => Some(self.peer_id@),
            SummaryColumns::UPTIME => Some(self.uptime_text@),
            SummaryColumns::HTLCS => Some(decimal(self.htlcs as nat)),
            SummaryColumns::STATE => Some(self.state@),
            SummaryColumns::PERC_US => Some(self.perc_us_text@),
            SummaryColumns::PING => ping_text(locale, self.ping),
        }
    }

    open spec fn spec_field_order() -> Seq<SummaryColumns> {
        SummaryColumns::spec_all()
    }

    proof fn lemma_field_order() {
        SummaryColumns::lemma_columns_wf();
        assert forall|i: int, j: int|
            0 <= i < j < Self::spec_field_order().len() implies #[trigger] Self::spec_field_order()[i]
                != #[trigger] Self::spec_field_order()[j] by {
            assert(Self::spec_field_order()[i].col_pos() == i);
            assert(Self::spec_field_order()[j].col_pos() == j);
        }
    }

    fn cell(&self, config: &Config, c: SummaryColumns) -> (r: Result<String, FormatError>) {
        match c {
            SummaryColumns::GRAPH_SATS => Ok(self.graph_sats.clone()),
            SummaryColumns::OUT_SATS => u64_to_sat_string(config, self.out_sats),
            SummaryColumns::IN_SATS => u64_to_sat_string(config, self.in_sats),
            SummaryColumns::TOTAL_SATS => u64_to_sat_string(config, self.total_sats),
            SummaryColumns::SCID => Ok(self.scid.clone()),
            SummaryColumns::MAX_HTLC => u64_to_sat_string(config, self.max_htlc),
            SummaryColumns::MIN_HTLC => u64_to_sat_string(config, self.min_htlc),
            SummaryColumns::FLAG => Ok(self.flag.clone()),
            SummaryColumns::BASE => u64_to_sat_string(config, self.base),
            SummaryColumns::IN_BASE => fee_string(config, &self.in_base),
            SummaryColumns::PPM => u64_to_sat_string(config, self.ppm as u64),
            SummaryColumns::IN_PPM => fee_string(config, &self.in_ppm),
            SummaryColumns::ALIAS => Ok(self.alias.clone()),
            SummaryColumns::PEER_ID => Ok(self.peer_id.clone()),
            SummaryColumns::UPTIME => Ok(self.uptime_text.clone()),
            SummaryColumns::HTLCS => Ok(u64_to_decimal(self.htlcs as u64)),
            SummaryColumns::STATE => Ok(self.state.clone()),
            SummaryColumns::PERC_US => Ok(self.perc_us_text.clone()),
            SummaryColumns::PING => {
                if self.ping > 5000 || self.ping == 0 {
                    proof {
                        reveal_strlit("N/A");
                    }
                    Ok(string_from_chars(str_chars("N/A").as_slice()))
                } else {
                    u64_to_sat_string(config, self.ping)
                }
            },
        }
    }

    fn field_order() -> (r: Vec<SummaryColumns>) {
        SummaryColumns::all()
    }
}

/// The formatting of a channels column: amounts, peer fees, HTLC counts, pings and
/// percentages right-aligned, flags and states centered, aliases cut or wrapped at the alias
/// length.
pub open spec fn summary_column_format(config: Config, c: SummaryColumns) -> ColumnFormat {
    ColumnFormat {
        align: if SummaryColumns::spec_numerical().contains(c)
            || SummaryColumns::spec_optional_numerical().contains(c) || c == SummaryColumns::HTLCS
            || c == SummaryColumns::PING || c == SummaryColumns::UPTIME || c
            == SummaryColumns::PERC_US {
            Some(Align::Right)
        } else if c == SummaryColumns::FLAG || c == SummaryColumns::STATE {
            Some(Align::Center)
        } else {
            None
        },
        width: if c == SummaryColumns::ALIAS {
            width_rule(config.max_alias_length)
        } else {
            None
        },
    }
}

/// The heading of the graph column: the scale in bitcoin at both ends, between the graph's
/// end marks.
pub open spec fn graph_heading(utf8: bool, btc: Seq<char>) -> Seq<char> {
    seq![crate::util::glyphs(utf8).left] + crate::util::pad_right(btc, 12) + " OUT GRAPH_SATS IN "@
        + crate::util::pad_left(btc, 14) + seq![crate::util::glyphs(utf8).right]
}

/// The footer on the channels that the settings left out.
pub open spec fn filtered_channels_footer(n: u32) -> Seq<char> {
    "\n "@ + decimal(n as nat) + " channel"@ + plural(n as u64) + " filtered."@
}

/// Whether the channels table can be made: its columns match, every cell can be formatted,
/// the alias length fits in `usize`, and the graph's scale can be formatted.
pub open spec fn summary_plannable(config: Config, data: Seq<crate::channels::Summary>, graph_max: u64) -> bool {
    &&& columns_match(<crate::channels::Summary as TableRow<SummaryColumns>>::spec_field_order(), config.columns@)
    &&& cells_formattable(config.columns@, data, config.locale@)
    &&& width_rule(config.max_alias_length) is Some
    &&& localized_decimal(config.locale@, crate::locale::btc_digits(graph_max)) is Some
}

/// The plan of the channels table: the records of the columns asked for, with the graph's
/// heading in place of its name, the table style, the column formats, no title row, and the
/// footer on filtered channels, aligned left, where there are such.
pub open spec fn summary_plan(
    p: TablePlan,
    config: Config,
    data: Seq<crate::channels::Summary>,
    graph_max: u64,
    filter_count: u32,
) -> bool {
    let cols = config.columns@;
    let btc = localized_decimal(config.locale@, crate::locale::btc_digits(graph_max))->0;
    &&& p.rows@.len() == data.len() + 1
    &&& forall|r: int| 0 <= r < p.rows@.len() ==> (#[trigger] p.rows@[r])@.len() == cols.len()
    &&& forall|j: int|
        0 <= j < cols.len() ==> p.rows@[0]@[j]@ == (if #[trigger] cols[j] == SummaryColumns::GRAPH_SATS {
            graph_heading(config.utf8, btc)
        } else {
            cols[j].col_name()
        })
    &&& forall|r: int, j: int|
        0 <= r < data.len() && 0 <= j < cols.len() ==> (#[trigger] data[r]).spec_cell(
            config.locale@,
            #[trigger] cols[j],
        ) == Some(p.rows@[r + 1]@[j]@)
    &&& p.style == config.style
    &&& p.columns@.len() == cols.len()
    &&& forall|j: int| 0 <= j < cols.len() ==> p.columns@[j] == summary_column_format(config, #[trigger] cols[j])
    &&& p.header is None
    &&& texts(p.footers@) == (if filter_count > 0 {
        seq![filtered_channels_footer(filter_count)]
    } else {
        Seq::<Seq<char>>::empty()
    })
    &&& p.last_row_left == (filter_count > 0)
}

fn summary_format_of(config: &Config, c: SummaryColumns, w: CellWidth) -> (r: ColumnFormat)
    requires
        width_rule(config.max_alias_length) == Some(w),
    ensures
        r == summary_column_format(*config, c),
{
    let right = has_column(&SummaryColumns::numerical(), c) || has_column(
        &SummaryColumns::optional_numerical(),
        c,
    ) || c == SummaryColumns::HTLCS || c == SummaryColumns::PING || c == SummaryColumns::UPTIME
        || c == SummaryColumns::PERC_US;
    let align = if right {
        Some(Align::Right)
    } else if c == SummaryColumns::FLAG || c == SummaryColumns::STATE {
        Some(Align::Center)
    } else {
        None
    };
    let width = if c == SummaryColumns::ALIAS {
        Some(w)
    } else {
        None
    };
    ColumnFormat { align, width }
}

fn pad_text(s: &Vec<char>, w: usize, on_left: bool) -> (r: Vec<char>)
    ensures
        on_left ==> r@ == crate::util::pad_left(s@, w as int),
        !on_left ==> r@ == crate::util::pad_right(s@, w as int),
{
    if s.len() >= w {
        return s.clone();
    }
    let mut sp: Vec<char> = Vec::new();
    let mut i: usize = 0;
    while i < w - s.len()
        invariant
            s@.len() < w,
            i <= w - s@.len(),
            sp@ == crate::util::spaces(i as int),
        decreases w - s@.len() - i,
    {
        sp.push(' ');
        proof {
            assert(sp@ =~= crate::util::spaces(i + 1));
        }
        i = i + 1;
    }
    let mut out: Vec<char> = Vec::new();
    if on_left {
        crate::strutil::append_chars(&mut out, &sp);
        crate::strutil::append_chars(&mut out, s);
    } else {
        crate::strutil::append_chars(&mut out, s);
        crate::strutil::append_chars(&mut out, &sp);
    }
    out
}

/// Plans the channels table (see `summary_plan`); `graph_max` is the scale of the channel
/// graphs and `filter_count` the number of channels left out.
pub fn plan_summary_table(
    config: &Config,
    channels: &Vec<crate::channels::Summary>,
    graph_max: u64,
    filter_count: u32,
) -> (r: Result<TablePlan, FormatError>)
    ensures
        r is Ok <==> summary_plannable(*config, channels@, graph_max),
        r matches Ok(p) ==> summary_plan(p, *config, channels@, graph_max, filter_count),
{
    let mut rows = table_records(config, channels, &config.columns)?;
    let w = width_for(config.max_alias_length)?;
    let cols = &config.columns;
    let mut formats: Vec<ColumnFormat> = Vec::new();
    let mut j: usize = 0;
    while j < cols.len()
        invariant
            j <= cols@.len(),
            width_rule(config.max_alias_length) == Some(w),
            formats@.len() == j,
            forall|k: int| 0 <= k < j ==> formats@[k] == summary_column_format(*config, #[trigger] cols@[k]),
        decreases cols@.len() - j,
    {
        formats.push(summary_format_of(config, cols[j], w));
        j = j + 1;
    }
    let btc = crate::locale::u64_to_btc_string(config, graph_max)?;
    let draw = if config.utf8 {
        crate::util::GraphCharset::new_utf8()
    } else {
        crate::util::GraphCharset::new_ascii()
    };
    let btc_c = str_chars(btc.as_str());
    let mut heading: Vec<char> = Vec::new();
    push_string(&mut heading, &draw.left);
    crate::strutil::append_chars(&mut heading, &pad_text(&btc_c, 12, false));
    push_str(&mut heading, " OUT GRAPH_SATS IN ");
    crate::strutil::append_chars(&mut heading, &pad_text(&btc_c, 14, true));
    push_string(&mut heading, &draw.right);
    proof {
        assert(heading@ =~= graph_heading(config.utf8, btc@));
    }
    let ghost rows0 = rows@;
    let mut k: usize = 0;
    while k < cols.len()
        invariant
            k <= cols@.len(),
            rows@.len() == rows0.len(),
            rows0.len() >= 1,
            forall|r: int| 0 <= r < rows0.len() ==> (#[trigger] rows0[r])@.len() == cols@.len(),
            forall|r: int| 1 <= r < rows@.len() ==> #[trigger] rows@[r] == rows0[r],
            rows@[0]@.len() == cols@.len(),
            forall|x: int|
                0 <= x < cols@.len() ==> rows@[0]@[x]@ == (if x < k && #[trigger] cols@[x]
                    == SummaryColumns::GRAPH_SATS {
                    heading@
                } else {
                    rows0[0]@[x]@
                }),
        decreases cols@.len() - k,
    {
        if cols[k] == SummaryColumns::GRAPH_SATS {
            let mut head = rows.remove(0);
            head.set(k, string_from_chars(heading.as_slice()));
            rows.insert(0, head);
        }
        k = k + 1;
    }
    let mut footers: Vec<String> = Vec::new();
    if filter_count > 0 {
        let mut f: Vec<char> = Vec::new();
        push_str(&mut f, "\n ");
        push_decimal_text(&mut f, filter_count as u64);
        push_str(&mut f, " channel");
        push_plural(&mut f, filter_count as u64);
        push_str(&mut f, " filtered.");
        footers.push(string_from_chars(f.as_slice()));
    }
    proof {
        assert(texts(footers@) =~= (if filter_count > 0 {
            seq![filtered_channels_footer(filter_count)]
        } else {
            Seq::<Seq<char>>::empty()
        }));
        assert forall|r: int| 0 <= r < rows@.len() implies (#[trigger] rows@[r])@.len() == cols@.len() by {
            if r >= 1 {
                assert(rows@[r] == rows0[r]);
            }
        }
        assert forall|r: int, x: int|
            0 <= r < channels@.len() && 0 <= x < cols@.len() implies (#[trigger] channels@[r]).spec_cell(
                config.locale@,
                #[trigger] cols@[x],
            ) == Some(rows@[r + 1]@[x]@) by {
            assert(rows@[r + 1] == rows0[r + 1]);
        }
    }
    Ok(TablePlan {
        rows,
        style: config.style,
        columns: formats,
        header: None,
        footers,
        last_row_left: filter_count > 0,
    })
}

/// The channels table as text: planned (see `plan_summary_table`), then drawn by tabled.
pub fn format_summary(
    config: &Config,
    channels: &Vec<crate::channels::Summary>,
    graph_max: u64,
    filter_count: u32,
) -> (r: Result<String, FormatError>)
    ensures
        r is Ok <==> summary_plannable(*config, channels@, graph_max),
        r matches Ok(s) ==> exists|p: TablePlan|
            #[trigger] summary_plan(p, *config, channels@, graph_max, filter_count) && s@ == drawn_text(plan_steps(p)),
{
    let plan = plan_summary_table(config, channels, graph_max, filter_count)?;
    let ghost p = plan;
    let s = render_table(plan);
    assert(summary_plan(p, *config, channels@, graph_max, filter_count) && s@ == drawn_text(plan_steps(p)));
    Ok(s)
}

} // verus!
