//! The portfolio table: rows, their order, and the cells of the header and of
//! each row as the settings style them.

use vstd::prelude::*;
use vstd::string::*;
use crate::conf::{
    align_of_text, as_table, entry_lookup, name_answer_fits, node_child, node_get, node_str,
    node_strings, node_table, parse_align, strings_of, table_get, tint_of_text, tint_traced,
    CellAlignment, Color, ConfKind, ConfNode,
};
use crate::order::{column_order, insert_pos, is_sorted, lemma_sorted_by, lemma_sorted_by_stable, sorted_by, ties_with};
use crate::text::{
    chars_of, compare_chars, decimal, dictionary_before, law_lex_order_is_dictionary_order,
    lemma_lex_order_antisym, signed_decimal, signed_text, str_eq, unsigned_text,
};

verus! {

/// A number of a row: the text the table shows for it, and the number times a
/// hundred cut to a whole number, by which rows are ordered.
pub struct Figure {
    pub shown: String,
    pub hundredths: i64,
}

/// One portfolio row. Its figures arrive written out as the table shows
/// them: the amount as a plain number, price and value as money, market cap
/// and day's volume shortened (such as `1.02B`), the day's change rounded to
/// whole per cent.
pub struct RowData {
    pub tint: String,
    pub currency: String,
    pub desc: String,
    pub amount: Figure,
    pub price: Figure,
    pub value: Figure,
    pub market_cap: Figure,
    pub day_vol: Figure,
    /// The day's change in per cent; its text is rounded to a whole number.
    pub day_change: Figure,
    /// Whether the day's change, rounded to a whole number, is above zero.
    pub day_change_up: bool,
    /// When the price was last updated, in seconds since the Unix epoch.
    pub updated_at: u64,
}

/// The entries of a settings table.
pub type ConfTable = Vec<(String, ConfNode)>;

/// One table cell: its text, its alignment (none: the column's) and its text colour.
pub struct Cell {
    pub content: String,
    pub align: Option<CellAlignment>,
    pub fg: Color,
}

/// What a cell holds.
pub struct CellView {
    pub content: Seq<char>,
    pub align: Option<CellAlignment>,
    pub fg: Color,
}

impl View for Cell {
    type V = CellView;

    open spec fn view(&self) -> CellView {
        CellView { content: self.content@, align: self.align, fg: self.fg }
    }
}

/// What a list of cells holds.
pub open spec fn cells_view(v: Seq<Cell>) -> Seq<CellView> {
    v.map_values(|c: Cell| c@)
}

/// The keys of the table's columns, in their default order.
pub open spec fn title_keys() -> Seq<Seq<char>> {
    seq![
        "num"@,
        "currency"@,
        "amount"@,
        "desc"@,
        "value"@,
        "price"@,
        "market_cap"@,
        "day_vol"@,
        "day_change"@,
        "update"@,
    ]
}

/// The key of the column at index `i`.
pub fn title_key(i: usize) -> (r: &'static str)
    requires
        i < 10,
    ensures
        r@ == title_keys()[i as int],
{
    match i {
        0 => "num",
        1 => "currency",
        2 => "amount",
        3 => "desc",
        4 => "value",
        5 => "price",
        6 => "market_cap",
        7 => "day_vol",
        8 => "day_change",
        _ => "update",
    }
}

/// The index of the first column key from `i` on that equals `k`; 0 when none does.
pub open spec fn key_index_from(k: Seq<char>, i: int) -> int
    decreases 10 - i,
{
    if i >= 10 || i < 0 {
        0
    } else if title_keys()[i] == k {
        i
    } else {
        key_index_from(k, i + 1)
    }
}

/// The index of column key `k`; the first column when `k` names none.
pub open spec fn key_index(k: Seq<char>) -> int {
    key_index_from(k, 0)
}

/// The sort setting `table.sort.<key>` read as a string; `default` when it
/// is absent or is no string.
pub open spec fn sort_setting(conf: ConfNode, key: Seq<char>, default: Seq<char>) -> Seq<char> {
    match node_child(conf, "table"@) {
        Some(t) => match node_child(t, "sort"@) {
            Some(s) => match node_child(s, key) {
                Some(v) => match node_str(v) {
                    Some(text) => text,
                    None => default,
                },
                None => default,
            },
            None => default,
        },
        None => default,
    }
}

/// The key of the sort column: the setting `key` nested under the `sort`
/// table of the `table` table (the path `table.sort.key`, beside
/// `table.sort.inverse`), read through each level of the settings and not as
/// one top-level entry named with dots; `num` without one.
pub open spec fn sort_key_text(conf: ConfNode) -> Seq<char> {
    sort_setting(conf, "key"@, "num"@)
}

/// The sort direction setting `table.sort.inverse`; `false` without one.
pub open spec fn sort_inverse_text(conf_two: ConfNode) -> Seq<char> {
    sort_setting(conf_two, "inverse"@, "false"@)
}

/// Reads the sort setting `table.sort.<key>` as a string.
fn read_sort_setting(conf: &ConfNode, key: &str, default: &str) -> (r: String)
    ensures
        r@ == sort_setting(*conf, key@, default@),
{
    match node_get(conf, "table") {
        Some(t) => match node_get(t, "sort") {
            Some(s) => match node_get(s, key) {
                Some(v) => match &v.kind {
                    ConfKind::Scalar => v.shown.clone(),
                    _ => default.to_owned(),
                },
                None => default.to_owned(),
            },
            None => default.to_owned(),
        },
        None => default.to_owned(),
    }
}

/// The inverse setting can be read: it starts with a one-byte character.
pub open spec fn sort_inverse_readable(conf_two: ConfNode) -> bool {
    sort_inverse_text(conf_two).len() > 0 && (sort_inverse_text(conf_two)[0] as u32) < 128
}

/// Whether the table keeps the sorted order as it is: the inverse setting
/// starts with `t` or `y`. Otherwise the sorted rows are listed backwards.
pub open spec fn sort_inverse(conf_two: ConfNode) -> bool {
    sort_inverse_text(conf_two)[0] == 't' || sort_inverse_text(conf_two)[0] == 'y'
}

/// The rows in the order the table lists them.
pub open spec fn rows_in_order(conf_two: ConfNode, conf: ConfNode, rows: Seq<RowData>) -> Seq<RowData> {
    let s = sorted_by(key_index(sort_key_text(conf)), rows);
    if sort_inverse(conf_two) {
        s
    } else {
        s.reverse()
    }
}

/// The index of the column named `k`, the first column when none is.
pub fn column_index(k: &str) -> (r: usize)
    ensures
        r as int == key_index(k@),
        r < 10,
{
    let mut i: usize = 0;
    while i < 10
        invariant
            i <= 10,
            key_index(k@) == key_index_from(k@, i as int),
        decreases 10 - i,
    {
        if str_eq(title_key(i), k) {
            return i;
        }
        i = i + 1;
    }
    0
}

/// How row `a` compares with row `b` for sort column `col`.
pub fn compare_rows(col: usize, a: &RowData, b: &RowData) -> (r: i8)
    ensures
        r as int == column_order(col as int, *a, *b),
{
    if col == 3 {
        compare_chars(&chars_of(b.desc.as_str()), &chars_of(a.desc.as_str()))
    } else if col == 4 {
        compare_ints(a.value.hundredths, b.value.hundredths)
    } else if col == 5 {
        compare_ints(a.price.hundredths, b.price.hundredths)
    } else if col == 7 {
        compare_ints(b.day_vol.hundredths, a.day_vol.hundredths)
    } else if col == 8 {
        compare_ints(b.day_change.hundredths, a.day_change.hundredths)
    } else {
        compare_chars(&chars_of(b.currency.as_str()), &chars_of(a.currency.as_str()))
    }
}

/// -1, 0 or 1 as `x` is below, equal to or above `y`.
fn compare_ints(x: i64, y: i64) -> (r: i8)
    ensures
        r as int == crate::order::int_order(x as int, y as int),
{
    if x < y {
        -1
    } else if x > y {
        1
    } else {
        0
    }
}

/// Where a stable insertion puts `x` into the sorted rows `out`.
fn find_insert_pos(col: usize, out: &Vec<RowData>, x: &RowData) -> (r: usize)
    ensures
        r as int == insert_pos(col as int, out@, *x),
{
    let mut j: usize = 0;
    assert(out@.skip(0) =~= out@);
    while j < out.len()
        invariant
            j <= out.len(),
            insert_pos(col as int, out@, *x) == j + insert_pos(col as int, out@.skip(j as int), *x),
        decreases out.len() - j,
    {
        if compare_rows(col, x, &out[j]) < 0 {
            return j;
        }
        assert(out@.skip(j as int).drop_first() =~= out@.skip(j + 1));
        j = j + 1;
    }
    j
}

/// The rows ordered by column `col`, rows that tie keeping their order.
pub fn stable_sort(col: usize, rows: Vec<RowData>) -> (r: Vec<RowData>)
    ensures
        r@ == sorted_by(col as int, rows@),
{
    let ghost orig = rows@;
    let n = rows.len();
    let mut rest = rows;
    let mut out: Vec<RowData> = Vec::new();
    assert(orig.subrange(0, 0) =~= Seq::<RowData>::empty());
    assert(orig.subrange(0, n as int) =~= orig);
    for k in 0..n
        invariant
            n == orig.len(),
            out@ == sorted_by(col as int, orig.subrange(0, k as int)),
            rest@ == orig.subrange(k as int, n as int),
    {
        let x = rest.remove(0);
        let p = find_insert_pos(col, &out, &x);
        proof {
            lemma_sorted_by(col as int, orig.subrange(0, k as int));
            crate::order::lemma_insert_pos(col as int, out@, x);
            assert(orig.subrange(0, k + 1).drop_last() =~= orig.subrange(0, k as int));
            assert(rest@ =~= orig.subrange(k + 1, n as int));
        }
        out.insert(p, x);
    }
    out
}

/// The rows in the opposite order.
pub fn reversed_rows(rows: Vec<RowData>) -> (r: Vec<RowData>)
    ensures
        r@ == rows@.reverse(),
{
    let ghost orig = rows@;
    let mut rest = rows;
    let mut out: Vec<RowData> = Vec::new();
    while rest.len() > 0
        invariant
            rest.len() <= orig.len(),
            rest@ == orig.subrange(0, rest.len() as int),
            out@ == orig.subrange(rest.len() as int, orig.len() as int).reverse(),
        decreases rest.len(),
    {
        let ghost before = out@;
        let x = rest.pop().unwrap();
        out.push(x);
        proof {
            let k = rest.len() as int;
            let tail = orig.subrange(k, orig.len() as int);
            assert(x == orig[k]);
            assert(out@ =~= tail.reverse());
        }
    }
    assert(orig.subrange(0, orig.len() as int) =~= orig);
    out
}

/// Orders the rows for the table: by the configured sort column, listed
/// backwards unless the inverse setting starts with `t` or `y`.
pub fn sort_rows(conf_two: &ConfNode, conf: &ConfNode, vec: Vec<RowData>) -> (r: Vec<RowData>)
    requires
        sort_inverse_readable(*conf_two),
    ensures
        r@ == rows_in_order(*conf_two, *conf, vec@),
{
    let sort_key: String = read_sort_setting(conf, "key", "num");
    let inverse_text: String = read_sort_setting(conf_two, "inverse", "false");
    let first = inverse_text.as_str().get_char(0);
    let sort_inverse = first == 't' || first == 'y';
    let col = column_index(sort_key.as_str());
    let sorted = stable_sort(col, vec);
    if !sort_inverse {
        reversed_rows(sorted)
    } else {
        sorted
    }
}

/// The entries of the table stored under `key`; none when there is no such entry.
pub open spec fn sub_table(t: Seq<(String, ConfNode)>, key: Seq<char>) -> Seq<(String, ConfNode)> {
    match entry_lookup(t, key) {
        Some(n) => match node_table(n) {
            Some(e) => e,
            None => Seq::empty(),
        },
        None => Seq::empty(),
    }
}

/// An entry under `key`, if there is one, is a table.
pub open spec fn table_or_absent(t: Seq<(String, ConfNode)>, key: Seq<char>) -> bool {
    match entry_lookup(t, key) {
        Some(n) => node_table(n) is Some,
        None => true,
    }
}

/// The entries of the whole configuration.
pub open spec fn root_entries(conf: ConfNode) -> Seq<(String, ConfNode)> {
    match node_table(conf) {
        Some(e) => e,
        None => Seq::empty(),
    }
}

/// The `table.localize` settings; none when they are absent.
pub open spec fn localize(conf: ConfNode) -> Seq<(String, ConfNode)> {
    sub_table(sub_table(root_entries(conf), "table"@), "localize"@)
}

/// The header styles `table.localize.headers`, one table per column.
pub open spec fn header_styles(conf: ConfNode) -> Seq<(String, ConfNode)> {
    sub_table(localize(conf), "headers"@)
}

/// The data cell styles `table.localize.data`, one table per column.
pub open spec fn data_styles(conf: ConfNode) -> Seq<(String, ConfNode)> {
    sub_table(localize(conf), "data"@)
}

/// The style settings can be read: `table`, `table.localize` and its
/// `headers` and `data` entries, where present, are tables.
pub open spec fn localize_readable(conf: ConfNode) -> bool {
    &&& table_or_absent(root_entries(conf), "table"@)
    &&& table_or_absent(sub_table(root_entries(conf), "table"@), "localize"@)
    &&& table_or_absent(localize(conf), "headers"@)
    &&& table_or_absent(localize(conf), "data"@)
}

/// The entries of a table value, or none when `n` is no table.
fn table_entries<'a>(n: Option<&'a ConfNode>, empty: &'a ConfTable) -> (r: &'a ConfTable)
    requires
        empty@.len() == 0,
        n matches Some(x) ==> node_table(*x) is Some,
    ensures
        n matches Some(x) ==> node_table(*x) == Some(r@),
        n is None ==> r@.len() == 0,
{
    match n {
        Some(x) => match as_table(x) {
            Some(t) => t,
            None => empty,
        },
        None => empty,
    }
}

/// The table stored under `key` in `t`; none when there is no such entry.
fn sub_entries<'a>(t: &'a ConfTable, key: &str, empty: &'a ConfTable) -> (r: &'a ConfTable)
    requires
        empty@.len() == 0,
        table_or_absent(t@, key@),
    ensures
        r@ == sub_table(t@, key@),
{
    let r = table_entries(table_get(t, key), empty);
    assert(r@ =~= sub_table(t@, key@));
    r
}

/// Which text a cell's colour is read from: the `tint` style, where the
/// word `tint` stands for the row's own tint; none without a style or with
/// an empty one (the cell is then white).
pub open spec fn tint_source(style: Seq<(String, ConfNode)>, tint: Seq<char>) -> Option<Seq<char>> {
    match entry_lookup(style, "tint"@) {
        Some(i) => if i.shown@ == "tint"@ {
            Some(tint)
        } else if i.shown@.len() == 0 {
            None
        } else {
            Some(i.shown@)
        },
        None => None,
    }
}

/// The colour of a cell whose colour-name lookup gave `a`.
pub open spec fn cell_tint(style: Seq<(String, ConfNode)>, tint: Seq<char>, a: Option<(u8, u8, u8)>) -> Color {
    match tint_source(style, tint) {
        Some(t) => tint_of_text(t, a),
        None => Color::White,
    }
}

/// Whether `a` can be the colour-name lookup of the cell's colour text.
pub open spec fn answer_fits(source: Option<Seq<char>>, a: Option<(u8, u8, u8)>) -> bool {
    match source {
        Some(t) => name_answer_fits(t, a),
        None => true,
    }
}

/// The alignment of a cell: the `align` style, left without one.
pub open spec fn cell_align(style: Seq<(String, ConfNode)>) -> CellAlignment {
    match entry_lookup(style, "align"@) {
        Some(i) => align_of_text(i.shown@),
        None => CellAlignment::Left,
    }
}

/// A data cell showing `data`, styled by the data styles of `section`, whose
/// colour-name lookup gave `a`.
pub open spec fn styled_cell(
    styles: Seq<(String, ConfNode)>,
    section: Seq<char>,
    data: Seq<char>,
    tint: Seq<char>,
    a: Option<(u8, u8, u8)>,
) -> CellView {
    let style = sub_table(styles, section);
    CellView { content: data, align: Some(cell_align(style)), fg: cell_tint(style, tint, a) }
}

/// Whether `a` can be the colour-name lookup of a data cell of `section`.
pub open spec fn styled_fits(
    styles: Seq<(String, ConfNode)>,
    section: Seq<char>,
    tint: Seq<char>,
    a: Option<(u8, u8, u8)>,
) -> bool {
    answer_fits(tint_source(sub_table(styles, section), tint), a)
}

/// A data cell, with the answer of its colour-name lookup.
fn styled_cell_traced(head_dict: &ConfTable, section: &str, data: String, tint: &String) -> (r: (
    Cell,
    Option<(u8, u8, u8)>,
))
    requires
        table_or_absent(head_dict@, section@),
    ensures
        styled_fits(head_dict@, section@, tint@, r.1),
        r.0@ == styled_cell(head_dict@, section@, data@, tint@, r.1),
{
    let empty: ConfTable = Vec::new();
    let style = sub_entries(head_dict, section, &empty);
    let (num_tint, looked): (Color, Option<(u8, u8, u8)>) = match table_get(style, "tint") {
        Some(i) => {
            let is: &str = i.shown.as_str();
            if str_eq(is, "tint") {
                tint_traced(tint)
            } else if is.unicode_len() == 0 {
                (Color::White, None)
            } else {
                tint_traced(&i.shown)
            }
        },
        None => (Color::White, None),
    };
    let num_align: CellAlignment = match table_get(style, "align") {
        Some(i) => parse_align(i.shown.as_str()),
        None => CellAlignment::Left,
    };
    (Cell { content: data, align: Some(num_align), fg: num_tint }, looked)
}

/// A data cell showing `data`, styled by the data styles `head_dict` keeps
/// for `section`: `tint` (a colour, or `tint` for the row's own tint) and
/// `align`.
pub fn get_cell(head_dict: &ConfTable, section: &str, data: String, tint: &String) -> (r: Cell)
    requires
        table_or_absent(head_dict@, section@),
    ensures
        exists|a: Option<(u8, u8, u8)>|
            styled_fits(head_dict@, section@, tint@, a) && r@ == styled_cell(head_dict@, section@, data@, tint@, a),
{
    let (c, a) = styled_cell_traced(head_dict, section, data, tint);
    assert(styled_fits(head_dict@, section@, tint@, a));
    c
}

/// The columns of the header: the visible ones when some are listed, else all
/// columns in their default order.
pub open spec fn header_columns(visible: Seq<Seq<char>>) -> Seq<Seq<char>> {
    if visible.len() == 0 {
        title_keys()
    } else {
        visible
    }
}

/// The header styles of every listed column, if present, are tables.
pub open spec fn header_settings_ok(conf: Seq<(String, ConfNode)>, columns: Seq<Seq<char>>) -> bool {
    forall|i: int| 0 <= i < columns.len() ==> table_or_absent(conf, #[trigger] columns[i])
}

/// The header cell of column `def`, whose colour-name lookup gave `a`: its
/// `text` (the column key without one), `align` (left without one) and
/// `tint` (white without one) styles.
pub open spec fn header_cell(conf: Seq<(String, ConfNode)>, def: Seq<char>, a: Option<(u8, u8, u8)>) -> CellView {
    let dict = sub_table(conf, def);
    CellView {
        content: match entry_lookup(dict, "text"@) {
            Some(v) => v.shown@,
            None => def,
        },
        align: Some(
            match entry_lookup(dict, "align"@) {
                Some(v) => align_of_text(v.shown@),
                None => CellAlignment::Left,
            },
        ),
        fg: match entry_lookup(dict, "tint"@) {
            Some(v) => tint_of_text(v.shown@, a),
            None => Color::White,
        },
    }
}

/// Whether `a` can be the colour-name lookup of the header cell of `def`.
pub open spec fn header_fits(conf: Seq<(String, ConfNode)>, def: Seq<char>, a: Option<(u8, u8, u8)>) -> bool {
    match entry_lookup(sub_table(conf, def), "tint"@) {
        Some(v) => name_answer_fits(v.shown@, a),
        None => true,
    }
}

/// The header cells of the given columns, the colour-name lookup of the
/// `i`-th having given `answers[i]`.
pub open spec fn header_cells(
    conf: Seq<(String, ConfNode)>,
    columns: Seq<Seq<char>>,
    answers: Seq<Option<(u8, u8, u8)>>,
) -> Seq<CellView> {
    Seq::new(columns.len(), |i: int| header_cell(conf, columns[i], answers[i]))
}

/// Whether `answers` can be the colour-name lookups of the header cells.
pub open spec fn header_answers_fit(
    conf: Seq<(String, ConfNode)>,
    columns: Seq<Seq<char>>,
    answers: Seq<Option<(u8, u8, u8)>>,
) -> bool {
    answers.len() == columns.len() && forall|i: int|
        0 <= i < columns.len() ==> header_fits(conf, #[trigger] columns[i], answers[i])
}

/// The texts of a list of strings.
pub open spec fn texts(v: Seq<String>) -> Seq<Seq<char>> {
    v.map_values(|s: String| s@)
}

/// The header cell of one column, with the answer of its colour-name lookup.
fn header_cell_of(conf: &ConfTable, def: &str) -> (r: (Cell, Option<(u8, u8, u8)>))
    requires
        table_or_absent(conf@, def@),
    ensures
        header_fits(conf@, def@, r.1),
        r.0@ == header_cell(conf@, def@, r.1),
{
    let empty: ConfTable = Vec::new();
    let dict = sub_entries(conf, def, &empty);
    let title: String = match table_get(dict, "text") {
        Some(val) => val.shown.clone(),
        None => def.to_owned(),
    };
    let align: CellAlignment = match table_get(dict, "align") {
        Some(val) => parse_align(val.shown.as_str()),
        None => CellAlignment::Left,
    };
    let (tint, looked): (Color, Option<(u8, u8, u8)>) = match table_get(dict, "tint") {
        Some(val) => tint_traced(&val.shown),
        None => (Color::White, None),
    };
    (Cell { content: title, align: Some(align), fg: tint }, looked)
}

/// The column keys in their default order.
fn default_columns() -> (r: Vec<String>)
    ensures
        texts(r@) == title_keys(),
{
    let mut v: Vec<String> = Vec::new();
    for i in 0..10
        invariant
            texts(v@) =~= title_keys().subrange(0, i as int),
    {
        let ghost prev = v@;
        v.push(title_key(i).to_owned());
        assert(texts(v@) =~= texts(prev).push(title_keys()[i as int]));
        assert(title_keys().subrange(0, i + 1) =~= title_keys().subrange(0, i as int).push(title_keys()[i as int]));
    }
    v
}

/// The header cells: one per visible column, or one per column in the default
/// order when none is listed, each styled by the column's header styles.
pub fn get_header(conf: &ConfTable, visible: Vec<String>) -> (r: Vec<Cell>)
    requires
        header_settings_ok(conf@, header_columns(texts(visible@))),
    ensures
        exists|answers: Seq<Option<(u8, u8, u8)>>|
            header_answers_fit(conf@, header_columns(texts(visible@)), answers) && cells_view(r@)
                == header_cells(conf@, header_columns(texts(visible@)), answers),
{
    let ghost cols = header_columns(texts(visible@));
    let columns: Vec<String> = if visible.len() == 0 {
        default_columns()
    } else {
        visible
    };
    assert(texts(columns@) == cols);
    let mut map: Vec<Cell> = Vec::new();
    let ghost mut answers: Seq<Option<(u8, u8, u8)>> = Seq::empty();
    for i in 0..columns.len()
        invariant
            texts(columns@) == cols,
            header_settings_ok(conf@, cols),
            answers.len() == i,
            forall|j: int| 0 <= j < i ==> header_fits(conf@, #[trigger] cols[j], answers[j]),
            cells_view(map@) =~= Seq::new(i as nat, |j: int| header_cell(conf@, cols[j], answers[j])),
    {
        assert(cols[i as int] == columns[i as int]@);
        assert(table_or_absent(conf@, cols[i as int]));
        let (cell, looked) = header_cell_of(conf, columns[i].as_str());
        let ghost prev = map@;
        let ghost prev_answers = answers;
        proof {
            answers = answers.push(looked);
        }
        map.push(cell);
        assert(cells_view(map@) =~= cells_view(prev).push(cell@));
        assert forall|j: int| 0 <= j < i implies header_cell(conf@, cols[j], answers[j]) == header_cell(conf@, cols[j], prev_answers[j]) by {
            assert(answers[j] == prev_answers[j]);
        }
    }
    assert(header_answers_fit(conf@, cols, answers));
    map
}

/// The visible columns `table.visible`: a list of strings; none when the
/// setting is absent or is not such a list.
pub open spec fn visible_setting(conf: ConfNode) -> Seq<Seq<char>> {
    match node_child(conf, "table"@) {
        Some(t) => match node_child(t, "visible"@) {
            Some(v) => match node_strings(v) {
                Some(x) => x,
                None => Seq::empty(),
            },
            None => Seq::empty(),
        },
        None => Seq::empty(),
    }
}

/// The visible columns listed in the settings, in order; none when the
/// setting is absent or is not a list of strings.
pub fn get_visible_cols(conf: &ConfNode) -> (r: Vec<String>)
    ensures
        texts(r@) == visible_setting(*conf),
{
    let none: Vec<String> = Vec::new();
    assert(texts(none@) =~= Seq::<Seq<char>>::empty());
    match node_get(conf, "table") {
        Some(t) => match node_get(t, "visible") {
            Some(v) => match strings_of(v) {
                Some(x) => x,
                None => none,
            },
            None => none,
        },
        None => none,
    }
}

/// The `table.localize` settings.
fn localize_settings<'a>(conf: &'a ConfNode, empty: &'a ConfTable) -> (r: &'a ConfTable)
    requires
        empty@.len() == 0,
        localize_readable(*conf),
    ensures
        r@ == localize(*conf),
{
    let root: &ConfTable = match as_table(conf) {
        Some(t) => t,
        None => empty,
    };
    assert(root@ =~= root_entries(*conf));
    let t = sub_entries(root, "table", empty);
    sub_entries(t, "localize", empty)
}

/// The header cells of the table: one per visible column listed in `conf`,
/// or every column in the default order when none is listed, styled by the
/// `table.localize.headers` settings of `table_conf`. The caller lays them
/// out as the header of an empty table.
pub fn get_skeleton(conf: &ConfNode, table_conf: &ConfNode, _curr: &String) -> (r: Vec<Cell>)
    requires
        localize_readable(*table_conf),
        header_settings_ok(header_styles(*table_conf), header_columns(visible_setting(*conf))),
    ensures
        exists|answers: Seq<Option<(u8, u8, u8)>>|
            header_answers_fit(header_styles(*table_conf), header_columns(visible_setting(*conf)), answers)
                && cells_view(r@) == header_cells(
                header_styles(*table_conf),
                header_columns(visible_setting(*conf)),
                answers,
            ),
{
    let empty: ConfTable = Vec::new();
    let local = localize_settings(table_conf, &empty);
    let header_conf = sub_entries(local, "headers", &empty);
    let visible = get_visible_cols(conf);
    get_header(header_conf, visible)
}

/// The row text fields a visible column may name.
pub open spec fn is_text_field(f: Seq<char>) -> bool {
    f == "tint"@ || f == "currency"@ || f == "desc"@
}

/// The text of a row's text field.
pub open spec fn field_text(row: RowData, f: Seq<char>) -> Seq<char> {
    if f == "tint"@ {
        row.tint@
    } else if f == "currency"@ {
        row.currency@
    } else {
        row.desc@
    }
}

/// The text field of a row named `field`.
pub fn get_field_by_name(data: &RowData, field: &str) -> (r: String)
    requires
        is_text_field(field@),
    ensures
        r@ == field_text(*data, field@),
{
    if str_eq(field, "tint") {
        data.tint.clone()
    } else if str_eq(field, "currency") {
        data.currency.clone()
    } else {
        data.desc.clone()
    }
}

/// The rank a row shows: its place in the table, counted from one.
pub open spec fn rank_text(rank: int) -> Seq<char> {
    decimal((rank + 1) as nat)
}

/// What the cell of a visible column shows.
pub open spec fn visible_cell_text(row: RowData, rank: int, col: Seq<char>) -> Seq<char> {
    if col == "num"@ {
        rank_text(rank)
    } else {
        field_text(row, col)
    }
}

/// The colour of the age of a price: green up to two minutes, yellow up to
/// five, red when older (or dated in the future).
pub open spec fn age_color(minutes: int) -> Color {
    if 0 <= minutes <= 2 {
        Color::Green
    } else if 3 <= minutes <= 5 {
        Color::Yellow
    } else {
        Color::Red
    }
}

/// The texts of the first eight default columns of a row.
pub open spec fn default_texts(row: RowData, rank: int) -> Seq<Seq<char>> {
    seq![
        rank_text(rank),
        row.currency@,
        row.amount.shown@,
        row.desc@,
        row.value.shown@,
        row.price.shown@,
        row.market_cap.shown@,
        row.day_vol.shown@,
    ]
}

/// The sections whose data styles style the styled cells of a row: the
/// text of each visible cell, or the first eight columns.
pub open spec fn row_sections(conf: ConfNode, rank: int, row: RowData) -> Seq<Seq<char>> {
    let visible = visible_setting(conf);
    if visible.len() > 0 {
        visible.map_values(|col: Seq<char>| visible_cell_text(row, rank, col))
    } else {
        title_keys().subrange(0, 8)
    }
}

/// The texts of the styled cells of a row.
pub open spec fn row_texts(conf: ConfNode, rank: int, row: RowData) -> Seq<Seq<char>> {
    if visible_setting(conf).len() > 0 {
        row_sections(conf, rank, row)
    } else {
        default_texts(row, rank)
    }
}

/// The cells of a row whose price was updated `minutes` minutes ago, the
/// colour-name lookup of the `i`-th styled cell having given `answers[i]`:
/// one per visible column, styled by the data styles of the cell's own text;
/// or, when no column is listed, the first eight columns styled by their
/// data styles, then the day's change (green when it rose) and the age of
/// the price.
pub open spec fn row_cells(
    conf: ConfNode,
    rank: int,
    row: RowData,
    minutes: int,
    answers: Seq<Option<(u8, u8, u8)>>,
) -> Seq<CellView> {
    let sections = row_sections(conf, rank, row);
    let styled = Seq::new(
        sections.len(),
        |i: int| styled_cell(data_styles(conf), sections[i], row_texts(conf, rank, row)[i], row.tint@, answers[i]),
    );
    if visible_setting(conf).len() > 0 {
        styled
    } else {
        styled.push(
            CellView {
                content: row.day_change.shown@ + "%"@,
                align: None,
                fg: if row.day_change_up { Color::Green } else { Color::Red },
            },
        ).push(CellView { content: signed_decimal(minutes) + "m"@, align: None, fg: age_color(minutes) })
    }
}

/// Whether `answers` can be the colour-name lookups of a row's styled cells.
pub open spec fn row_answers_fit(conf: ConfNode, rank: int, row: RowData, answers: Seq<Option<(u8, u8, u8)>>) -> bool {
    let sections = row_sections(conf, rank, row);
    answers.len() == sections.len() && forall|i: int|
        0 <= i < sections.len() ==> styled_fits(data_styles(conf), #[trigger] sections[i], row.tint@, answers[i])
}

/// The earliest and latest Unix times that `chrono` can represent.
pub open spec fn time_in_range(t: int) -> bool {
    -8334601228800 <= t <= 8210266876799
}

/// Whole minutes from the Unix time `then` to the time `now_secs` seconds and
/// `now_nanos` nanoseconds, as chrono counts them: whole seconds, then whole
/// minutes, each cut toward zero.
pub open spec fn minutes_between(now_secs: int, now_nanos: int, then: int) -> int {
    let d = now_secs - then;
    let s = if d < 0 && now_nanos > 0 { d + 1 } else { d };
    if s >= 0 {
        s / 60
    } else {
        -((-s) / 60)
    }
}

/// A row can be laid out with these settings: the style settings can be
/// read, visible columns name the rank or a text field, the data styles in
/// use are tables, and (for the default columns) the update time can be
/// represented.
pub open spec fn row_settings_ok(conf: ConfNode, rank: int, row: RowData) -> bool {
    let visible = visible_setting(conf);
    let sections = row_sections(conf, rank, row);
    &&& localize_readable(conf)
    &&& rank + 1 <= usize::MAX
    &&& forall|i: int| 0 <= i < visible.len() ==> (#[trigger] visible[i] == "num"@ || is_text_field(visible[i]))
    &&& forall|i: int| 0 <= i < sections.len() ==> table_or_absent(data_styles(conf), #[trigger] sections[i])
    &&& visible.len() == 0 ==> time_in_range(row.updated_at as i64 as int)
}

/// The text of one of the first eight default columns of a row.
fn default_text(row: &RowData, rank: usize, i: usize) -> (r: String)
    requires
        i < 8,
        rank + 1 <= usize::MAX,
    ensures
        r@ == default_texts(*row, rank as int)[i as int],
{
    match i {
        0 => unsigned_text((rank + 1) as u64),
        1 => row.currency.clone(),
        2 => row.amount.shown.clone(),
        3 => row.desc.clone(),
        4 => row.value.shown.clone(),
        5 => row.price.shown.clone(),
        6 => row.market_cap.shown.clone(),
        _ => row.day_vol.shown.clone(),
    }
}

/// The system clock's time since the Unix epoch, as `UNIX_EPOCH.elapsed()`
/// gives it: whole seconds (`as_secs`) and the nanoseconds past them
/// (`subsec_nanos`), which std documents as less than a second; none when the
/// clock is set before the epoch, where `elapsed` returns an error. Which
/// time it is depends on the clock, so nothing more is stated.
#[verifier::external_body]
fn system_clock() -> (r: Option<(u64, u32)>)
    ensures
        r matches Some(t) ==> t.1 < 1_000_000_000,
{
    match std::time::UNIX_EPOCH.elapsed() {
        Ok(d) => Some((d.as_secs(), d.subsec_nanos())),
        Err(_) => None,
    }
}

/// Whole minutes from the Unix time `then` to `now_secs` and `now_nanos`.
pub fn minutes_since(now_secs: i64, now_nanos: u32, then: i64) -> (r: i64)
    requires
        time_in_range(now_secs as int),
        time_in_range(then as int),
    ensures
        r as int == minutes_between(now_secs as int, now_nanos as int, then as int),
{
    let d: i64 = now_secs - then;
    let s: i64 = if d < 0 && now_nanos > 0 { d + 1 } else { d };
    if s >= 0 {
        s / 60
    } else {
        let m: i64 = -s;
        -(m / 60)
    }
}

/// The cells of a row at `rank` (counted from zero) at the time `now_secs`
/// seconds and `now_nanos` nanoseconds: its age is the whole minutes since
/// its `updated_at`.
pub fn row_cells_at(conf: &ConfNode, rank: usize, vec: &RowData, now_secs: i64, now_nanos: u32) -> (r: Vec<Cell>)
    requires
        row_settings_ok(*conf, rank as int, *vec),
        time_in_range(now_secs as int),
    ensures
        exists|answers: Seq<Option<(u8, u8, u8)>>|
            row_answers_fit(*conf, rank as int, *vec, answers) && cells_view(r@) == row_cells(
                *conf,
                rank as int,
                *vec,
                minutes_between(now_secs as int, now_nanos as int, vec.updated_at as i64 as int),
                answers,
            ),
{
    let ghost sections = row_sections(*conf, rank as int, *vec);
    let ghost texts_s = row_texts(*conf, rank as int, *vec);
    let ghost styles = data_styles(*conf);
    let ghost tint = vec.tint@;
    let empty: ConfTable = Vec::new();
    let local = localize_settings(conf, &empty);
    let head_dict = sub_entries(local, "data", &empty);
    let visible_cols = get_visible_cols(conf);
    let ghost visible = visible_setting(*conf);
    let mut map: Vec<Cell> = Vec::new();
    let ghost mut answers: Seq<Option<(u8, u8, u8)>> = Seq::empty();
    let n: usize = if visible_cols.len() > 0 { visible_cols.len() } else { 8 };
    assert(sections.len() == n);
    assert(texts_s.len() == n);
    for i in 0..n
        invariant
            n == sections.len(),
            texts_s.len() == n,
            texts(visible_cols@) == visible,
            visible == visible_setting(*conf),
            sections == row_sections(*conf, rank as int, *vec),
            texts_s == row_texts(*conf, rank as int, *vec),
            head_dict@ == styles,
            styles == data_styles(*conf),
            tint == vec.tint@,
            row_settings_ok(*conf, rank as int, *vec),
            answers.len() == i,
            forall|j: int| 0 <= j < i ==> styled_fits(styles, #[trigger] sections[j], tint, answers[j]),
            cells_view(map@) =~= Seq::new(i as nat, |j: int| styled_cell(styles, sections[j], texts_s[j], tint, answers[j])),
    {
        let (section, data): (String, String) = if visible_cols.len() > 0 {
            let col = visible_cols[i].as_str();
            assert(visible[i as int] == col@);
            let tit: String = if str_eq(col, "num") {
                unsigned_text((rank + 1) as u64)
            } else {
                get_field_by_name(vec, col)
            };
            (tit.clone(), tit)
        } else {
            (title_key(i).to_owned(), default_text(vec, rank, i))
        };
        assert(section@ == sections[i as int]);
        assert(data@ == texts_s[i as int]);
        assert(table_or_absent(styles, sections[i as int]));
        let (cell, looked) = styled_cell_traced(head_dict, section.as_str(), data, &vec.tint);
        let ghost prev = map@;
        let ghost prev_answers = answers;
        proof {
            answers = answers.push(looked);
        }
        map.push(cell);
        assert(cells_view(map@) =~= cells_view(prev).push(cell@));
        assert forall|j: int| 0 <= j < i implies styled_cell(styles, sections[j], texts_s[j], tint, answers[j])
            == styled_cell(styles, sections[j], texts_s[j], tint, prev_answers[j]) by {
            assert(answers[j] == prev_answers[j]);
        }
    }
    if visible_cols.len() == 0 {
        let mut change: String = vec.day_change.shown.clone();
        change.append("%");
        let change_color = if vec.day_change_up { Color::Green } else { Color::Red };
        map.push(Cell { content: change, align: None, fg: change_color });
        let minutes = minutes_since(now_secs, now_nanos, vec.updated_at as i64);
        let mut age: String = signed_text(minutes);
        age.append("m");
        let age_col: Color = if 0 <= minutes && minutes <= 2 {
            Color::Green
        } else if 3 <= minutes && minutes <= 5 {
            Color::Yellow
        } else {
            Color::Red
        };
        map.push(Cell { content: age, align: None, fg: age_col });
    }
    assert(row_answers_fit(*conf, rank as int, *vec, answers));
    map
}

/// Whole minutes from the Unix time `then` to the clock reading `clock`
/// (seconds and nanoseconds since the Unix epoch); 0 without a reading.
pub open spec fn clock_minutes(clock: Option<(u64, u32)>, then: int) -> int {
    match clock {
        Some(t) => minutes_between(t.0 as int, t.1 as int, then),
        None => 0,
    }
}

/// Whether there is a clock reading, no later than the latest time `chrono`
/// represents.
pub open spec fn reading_in_range(clock: Option<(u64, u32)>) -> bool {
    clock matches Some(t) && t.0 <= 8210266876799
}

/// The cells of the row at `rank` (counted from zero) when the clock read
/// `clock`: the age of the price is the whole minutes from its `updated_at`
/// to that reading. Visible columns show no age and need no reading; the
/// default columns need a reading that `chrono` represents, and without one
/// there is no row.
pub fn row_cells_for_clock(conf: &ConfNode, rank: usize, vec: &RowData, clock: Option<(u64, u32)>) -> (r: Option<
    Vec<Cell>,
>)
    requires
        row_settings_ok(*conf, rank as int, *vec),
    ensures
        r is Some <==> (visible_setting(*conf).len() > 0 || reading_in_range(clock)),
        r matches Some(cells) ==> exists|answers: Seq<Option<(u8, u8, u8)>>|
            row_answers_fit(*conf, rank as int, *vec, answers) && cells_view(cells@) == #[trigger] row_cells(
                *conf,
                rank as int,
                *vec,
                clock_minutes(clock, vec.updated_at as i64 as int),
                answers,
            ),
{
    let visible = get_visible_cols(conf);
    let ghost m = clock_minutes(clock, vec.updated_at as i64 as int);
    match clock {
        Some((secs, nanos)) => {
            if secs <= 8210266876799 {
                Some(row_cells_at(conf, rank, vec, secs as i64, nanos))
            } else if visible.len() > 0 {
                let cells = row_cells_at(conf, rank, vec, 0, 0);
                proof {
                    let m0 = minutes_between(0, 0, vec.updated_at as i64 as int);
                    assert forall|answers: Seq<Option<(u8, u8, u8)>>|
                        #[trigger] row_cells(*conf, rank as int, *vec, m0, answers) == row_cells(
                            *conf,
                            rank as int,
                            *vec,
                            m,
                            answers,
                        ) by {}
                }
                Some(cells)
            } else {
                None
            }
        },
        None => {
            if visible.len() > 0 {
                let cells = row_cells_at(conf, rank, vec, 0, 0);
                proof {
                    let m0 = minutes_between(0, 0, vec.updated_at as i64 as int);
                    assert forall|answers: Seq<Option<(u8, u8, u8)>>|
                        #[trigger] row_cells(*conf, rank as int, *vec, m0, answers) == row_cells(
                            *conf,
                            rank as int,
                            *vec,
                            m,
                            answers,
                        ) by {}
                }
                Some(cells)
            } else {
                None
            }
        },
    }
}

/// The cells of the row at `rank` (counted from zero), for now: as
/// `row_cells_for_clock` lays them out for a reading of the system clock,
/// which decides the time. Only the default columns show the age of the
/// price, so only they read the clock; none comes back when the clock is set
/// before the Unix epoch or past the latest time `chrono` represents.
pub fn get_table_row(conf_two: &ConfNode, conf: &ConfNode, rank: usize, vec: &RowData) -> (r: Option<Vec<Cell>>)
    requires
        row_settings_ok(*conf, rank as int, *vec),
    ensures
        visible_setting(*conf).len() > 0 ==> r is Some,
        r matches Some(cells) ==> exists|now_secs: i64, now_nanos: u32, answers: Seq<Option<(u8, u8, u8)>>|
            time_in_range(now_secs as int) && now_nanos < 1_000_000_000 && row_answers_fit(
                *conf,
                rank as int,
                *vec,
                answers,
            ) && cells_view(cells@) == #[trigger] row_cells(
                *conf,
                rank as int,
                *vec,
                minutes_between(now_secs as int, now_nanos as int, vec.updated_at as i64 as int),
                answers,
            ),
{
    let visible = get_visible_cols(conf);
    let clock: Option<(u64, u32)> = if visible.len() > 0 {
        None
    } else {
        system_clock()
    };
    let r = row_cells_for_clock(conf, rank, vec, clock);
    proof {
        if r is Some {
            let cells = r->0;
            let m = clock_minutes(clock, vec.updated_at as i64 as int);
            let answers = choose|answers: Seq<Option<(u8, u8, u8)>>|
                row_answers_fit(*conf, rank as int, *vec, answers) && cells_view(cells@) == #[trigger] row_cells(
                    *conf,
                    rank as int,
                    *vec,
                    m,
                    answers,
                );
            let (s, n): (i64, u32) = match clock {
                Some(t) => (t.0 as i64, t.1),
                None => (0i64, 0u32),
            };
            let m1 = minutes_between(s as int, n as int, vec.updated_at as i64 as int);
            assert(row_cells(*conf, rank as int, *vec, m, answers) == row_cells(*conf, rank as int, *vec, m1, answers));
            assert(time_in_range(s as int) && n < 1_000_000_000);
        }
    }
    r
}

/// Ordering the table neither drops nor repeats a row: the rows come out as
/// a rearrangement of the rows that went in.
pub proof fn law_sort_keeps_rows(conf_two: ConfNode, conf: ConfNode, rows: Seq<RowData>)
    ensures
        rows_in_order(conf_two, conf, rows).to_multiset() =~= rows.to_multiset(),
        rows_in_order(conf_two, conf, rows).len() == rows.len(),
{
    let col = key_index(sort_key_text(conf));
    lemma_sorted_by(col, rows);
    sorted_by(col, rows).lemma_reverse_to_multiset();
}

/// With the inverse setting on, the table lists the rows sorted by the sort
/// column, and rows that tie in it appear in the order they were given.
pub proof fn law_sort_is_stable(conf_two: ConfNode, conf: ConfNode, rows: Seq<RowData>, y: RowData)
    requires
        sort_inverse(conf_two),
    ensures
        is_sorted(key_index(sort_key_text(conf)), rows_in_order(conf_two, conf, rows)),
        rows_in_order(conf_two, conf, rows).filter(ties_with(key_index(sort_key_text(conf)), y))
            == rows.filter(ties_with(key_index(sort_key_text(conf)), y)),
{
    let col = key_index(sort_key_text(conf));
    lemma_sorted_by(col, rows);
    lemma_sorted_by_stable(col, rows, y);
}

/// Switching the inverse setting lists the same rows in exactly the
/// opposite order.
pub proof fn law_inverse_flips_order(on: ConfNode, off: ConfNode, conf: ConfNode, rows: Seq<RowData>)
    requires
        sort_inverse(on),
        !sort_inverse(off),
    ensures
        rows_in_order(off, conf, rows) == rows_in_order(on, conf, rows).reverse(),
        rows_in_order(on, conf, rows) == rows_in_order(off, conf, rows).reverse(),
{
    let s = rows_in_order(on, conf, rows);
    assert(s.reverse().reverse() =~= s);
}

/// Sort keys that name no column with an order of its own (`num`, `amount`,
/// `market_cap`, `update`, or no column at all) order the table as no sort
/// key does: by asset name.
pub proof fn law_plain_sort_keys_order_by_name(
    conf_two: ConfNode,
    conf: ConfNode,
    plain: ConfNode,
    rows: Seq<RowData>,
)
    requires
        sort_key_text(plain) == "num"@,
        sort_key_text(conf) == "num"@ || sort_key_text(conf) == "amount"@ || sort_key_text(conf)
            == "market_cap"@ || sort_key_text(conf) == "update"@ || !title_keys().contains(sort_key_text(conf)),
    ensures
        rows_in_order(conf_two, conf, rows) == rows_in_order(conf_two, plain, rows),
{
    reveal_strlit("num");
    reveal_strlit("currency");
    reveal_strlit("amount");
    reveal_strlit("desc");
    reveal_strlit("value");
    reveal_strlit("price");
    reveal_strlit("market_cap");
    reveal_strlit("day_vol");
    reveal_strlit("day_change");
    reveal_strlit("update");
    let k = sort_key_text(conf);
    lemma_key_index_from(k, 0);
    lemma_key_index_from(sort_key_text(plain), 0);
    let c = key_index(k);
    if title_keys().contains(k) {
        let j = choose|j: int| 0 <= j < title_keys().len() && title_keys()[j] == k;
        assert(title_keys()[c] == k);
    } else {
        assert(forall|j: int| 0 <= j < 10 ==> title_keys()[j] != k);
        assert(c == 0);
    }
    assert(title_keys()[1].len() == 8 && title_keys()[3].len() == 4 && title_keys()[4].len() == 5);
    assert(title_keys()[5].len() == 5 && title_keys()[7].len() == 7 && title_keys()[8].len() == 10);
    assert("num"@.len() == 3 && "amount"@.len() == 6 && "market_cap"@.len() == 10 && "update"@.len() == 6);
    assert(title_keys()[8][0] == 'd' && "market_cap"@[0] == 'm');
    assert(c == 0 || c == 2 || c == 6 || c == 9);
    lemma_name_ordered_columns(c, rows);
    lemma_name_ordered_columns(key_index(sort_key_text(plain)), rows);
}

/// Whether the column at index `c` orders rows by asset name: every column
/// but the description, value, price, volume and day's change.
pub open spec fn orders_by_name(c: int) -> bool {
    c != 3 && c != 4 && c != 5 && c != 7 && c != 8
}

/// With a sort key whose column orders by asset name (no sort key at all
/// among them), the table lists the rows by asset name in dictionary order:
/// from A to Z, or from Z to A with the inverse setting on.
pub proof fn law_name_order_is_dictionary_order(conf_two: ConfNode, conf: ConfNode, rows: Seq<RowData>)
    requires
        orders_by_name(key_index(sort_key_text(conf))),
    ensures
        !sort_inverse(conf_two) ==> forall|i: int, j: int|
            0 <= i < j < rows.len() ==> !dictionary_before(
                #[trigger] rows_in_order(conf_two, conf, rows)[j].currency@,
                #[trigger] rows_in_order(conf_two, conf, rows)[i].currency@,
            ),
        sort_inverse(conf_two) ==> forall|i: int, j: int|
            0 <= i < j < rows.len() ==> !dictionary_before(
                #[trigger] rows_in_order(conf_two, conf, rows)[i].currency@,
                #[trigger] rows_in_order(conf_two, conf, rows)[j].currency@,
            ),
{
    let c = key_index(sort_key_text(conf));
    let s = sorted_by(c, rows);
    let out = rows_in_order(conf_two, conf, rows);
    lemma_sorted_by(c, rows);
    let n = rows.len();
    assert forall|i: int, j: int| 0 <= i < j < n implies !dictionary_before(s[i].currency@, s[j].currency@) by {
        assert(column_order(c, s[i], s[j]) <= 0);
        lemma_lex_order_antisym(s[i].currency@, s[j].currency@);
        law_lex_order_is_dictionary_order(s[i].currency@, s[j].currency@);
    }
    if sort_inverse(conf_two) {
        assert(out == s);
    } else {
        assert(out == s.reverse());
        assert forall|i: int, j: int| 0 <= i < j < n implies !dictionary_before(
            #[trigger] out[j].currency@,
            #[trigger] out[i].currency@,
        ) by {
            assert(out[i] == s[n - 1 - i]);
            assert(out[j] == s[n - 1 - j]);
            assert(!dictionary_before(s[n - 1 - j].currency@, s[n - 1 - i].currency@));
        }
    }
}

/// With the inverse setting on, a sort key that names a column with an
/// order of its own lists the rows by that field: values and prices from low
/// to high; descriptions (in dictionary order), volumes and day's changes
/// from high to low.
pub proof fn law_sort_key_orders_by_its_field(conf_two: ConfNode, conf: ConfNode, rows: Seq<RowData>)
    requires
        sort_inverse(conf_two),
    ensures
        sort_key_text(conf) == "value"@ ==> forall|i: int, j: int|
            0 <= i < j < rows.len() ==> (#[trigger] rows_in_order(conf_two, conf, rows)[i]).value.hundredths
                <= (#[trigger] rows_in_order(conf_two, conf, rows)[j]).value.hundredths,
        sort_key_text(conf) == "price"@ ==> forall|i: int, j: int|
            0 <= i < j < rows.len() ==> (#[trigger] rows_in_order(conf_two, conf, rows)[i]).price.hundredths
                <= (#[trigger] rows_in_order(conf_two, conf, rows)[j]).price.hundredths,
        sort_key_text(conf) == "day_vol"@ ==> forall|i: int, j: int|
            0 <= i < j < rows.len() ==> (#[trigger] rows_in_order(conf_two, conf, rows)[i]).day_vol.hundredths
                >= (#[trigger] rows_in_order(conf_two, conf, rows)[j]).day_vol.hundredths,
        sort_key_text(conf) == "day_change"@ ==> forall|i: int, j: int|
            0 <= i < j < rows.len() ==> (#[trigger] rows_in_order(conf_two, conf, rows)[i]).day_change.hundredths
                >= (#[trigger] rows_in_order(conf_two, conf, rows)[j]).day_change.hundredths,
        sort_key_text(conf) == "desc"@ ==> forall|i: int, j: int|
            0 <= i < j < rows.len() ==> !dictionary_before(
                (#[trigger] rows_in_order(conf_two, conf, rows)[i]).desc@,
                (#[trigger] rows_in_order(conf_two, conf, rows)[j]).desc@,
            ),
{
    reveal_strlit("num");
    reveal_strlit("currency");
    reveal_strlit("amount");
    reveal_strlit("desc");
    reveal_strlit("value");
    reveal_strlit("price");
    reveal_strlit("market_cap");
    reveal_strlit("day_vol");
    reveal_strlit("day_change");
    reveal_strlit("update");
    let k = sort_key_text(conf);
    let c = key_index(k);
    lemma_key_index_from(k, 0);
    let s = sorted_by(c, rows);
    lemma_sorted_by(c, rows);
    assert(rows_in_order(conf_two, conf, rows) == s);
    assert("value"@.len() == 5 && "price"@.len() == 5 && "desc"@.len() == 4);
    assert("day_vol"@.len() == 7 && "day_change"@.len() == 10 && "market_cap"@.len() == 10);
    assert("value"@[0] == 'v' && "price"@[0] == 'p' && "day_change"@[0] == 'd' && "market_cap"@[0] == 'm');
    if k == "value"@ || k == "price"@ || k == "day_vol"@ || k == "day_change"@ || k == "desc"@ {
        assert(title_keys()[c] == k);
        assert forall|i: int, j: int| 0 <= i < j < rows.len() implies column_order(c, #[trigger] s[i], #[trigger] s[j]) <= 0 by {}
        if k == "desc"@ {
            assert(c == 3);
            assert forall|i: int, j: int| 0 <= i < j < rows.len() implies !dictionary_before(
                (#[trigger] s[i]).desc@,
                (#[trigger] s[j]).desc@,
            ) by {
                assert(column_order(c, s[i], s[j]) <= 0);
                lemma_lex_order_antisym(s[i].desc@, s[j].desc@);
                law_lex_order_is_dictionary_order(s[i].desc@, s[j].desc@);
            }
        }
    }
}

/// What the column named `key` shows of a row at `rank`: the rank, or the
/// row's field of that name.
pub open spec fn column_shows(row: RowData, rank: int, key: Seq<char>) -> Seq<char> {
    if key == "num"@ {
        rank_text(rank)
    } else if key == "currency"@ {
        row.currency@
    } else if key == "amount"@ {
        row.amount.shown@
    } else if key == "desc"@ {
        row.desc@
    } else if key == "value"@ {
        row.value.shown@
    } else if key == "price"@ {
        row.price.shown@
    } else if key == "market_cap"@ {
        row.market_cap.shown@
    } else if key == "day_vol"@ {
        row.day_vol.shown@
    } else {
        Seq::empty()
    }
}

/// Without visible columns the header shows the columns `num`, `currency`,
/// `amount`, `desc`, `value`, `price`, `market_cap`, `day_vol`, `day_change`
/// and `update`, in that order, and each cell of a row sits under the header
/// of the field it shows: the first eight show the field their column is
/// named after, then the day's change in percent, then the age of the price
/// in minutes.
pub proof fn law_default_columns_line_up(
    conf: ConfNode,
    rank: int,
    row: RowData,
    minutes: int,
    row_answers: Seq<Option<(u8, u8, u8)>>,
)
    requires
        visible_setting(conf).len() == 0,
    ensures
        header_columns(visible_setting(conf)) == seq![
            "num"@,
            "currency"@,
            "amount"@,
            "desc"@,
            "value"@,
            "price"@,
            "market_cap"@,
            "day_vol"@,
            "day_change"@,
            "update"@,
        ],
        forall|i: int|
            0 <= i < 8 ==> #[trigger] row_cells(conf, rank, row, minutes, row_answers)[i].content == column_shows(
                row,
                rank,
                header_columns(visible_setting(conf))[i],
            ),
        row_cells(conf, rank, row, minutes, row_answers)[8].content == row.day_change.shown@ + "%"@,
        row_cells(conf, rank, row, minutes, row_answers)[9].content == signed_decimal(minutes) + "m"@,
{
    reveal_strlit("num");
    reveal_strlit("currency");
    reveal_strlit("amount");
    reveal_strlit("desc");
    reveal_strlit("value");
    reveal_strlit("price");
    reveal_strlit("market_cap");
    reveal_strlit("day_vol");
    let cols = header_columns(visible_setting(conf));
    let cells = row_cells(conf, rank, row, minutes, row_answers);
    assert(cols == title_keys());
    assert("num"@.len() == 3 && "currency"@.len() == 8 && "amount"@.len() == 6 && "desc"@.len() == 4);
    assert("value"@.len() == 5 && "price"@.len() == 5 && "market_cap"@.len() == 10 && "day_vol"@.len() == 7);
    assert("value"@[0] == 'v' && "price"@[0] == 'p');
    assert(column_shows(row, rank, cols[0]) == rank_text(rank));
    assert(column_shows(row, rank, cols[1]) == row.currency@);
    assert(column_shows(row, rank, cols[2]) == row.amount.shown@);
    assert(column_shows(row, rank, cols[3]) == row.desc@);
    assert(column_shows(row, rank, cols[4]) == row.value.shown@);
    assert(column_shows(row, rank, cols[5]) == row.price.shown@);
    assert(column_shows(row, rank, cols[6]) == row.market_cap.shown@);
    assert(column_shows(row, rank, cols[7]) == row.day_vol.shown@);
    assert forall|i: int| 0 <= i < 8 implies #[trigger] cells[i].content == column_shows(row, rank, cols[i]) by {
        assert(cells[i].content == default_texts(row, rank)[i]);
    }
}

/// `key_index_from` finds the key's place from `i` on, or gives 0.
proof fn lemma_key_index_from(k: Seq<char>, i: int)
    requires
        0 <= i <= 10,
    ensures
        (exists|j: int| i <= j < 10 && title_keys()[j] == k) ==> title_keys()[key_index_from(k, i)] == k,
        (forall|j: int| i <= j < 10 ==> title_keys()[j] != k) ==> key_index_from(k, i) == 0,
        0 <= key_index_from(k, i) < 10,
    decreases 10 - i,
{
    if i < 10 {
        lemma_key_index_from(k, i + 1);
        if title_keys()[i] != k {
            assert forall|j: int| i + 1 <= j < 10 && title_keys()[j] == k implies i <= j < 10 && title_keys()[j] == k by {}
        }
    }
}

/// Columns that order by asset name all sort alike.
proof fn lemma_name_ordered_columns(c: int, rows: Seq<RowData>)
    requires
        c != 3 && c != 4 && c != 5 && c != 7 && c != 8,
    ensures
        sorted_by(c, rows) == sorted_by(1, rows),
    decreases rows.len(),
{
    if rows.len() > 0 {
        lemma_name_ordered_columns(c, rows.drop_last());
        lemma_insert_pos_same(c, sorted_by(1, rows.drop_last()), rows.last());
    }
}

/// Columns that order by asset name place a row alike.
proof fn lemma_insert_pos_same(c: int, s: Seq<RowData>, x: RowData)
    requires
        c != 3 && c != 4 && c != 5 && c != 7 && c != 8,
    ensures
        insert_pos(c, s, x) == insert_pos(1, s, x),
    decreases s.len(),
{
    if s.len() > 0 {
        lemma_insert_pos_same(c, s.drop_first(), x);
    }
}

/// The header and every row of the table have the same number of cells: one
/// per visible column, or ten when no column is listed.
pub proof fn law_header_matches_rows(
    conf: ConfNode,
    rank: int,
    row: RowData,
    minutes: int,
    header_answers: Seq<Option<(u8, u8, u8)>>,
    row_answers: Seq<Option<(u8, u8, u8)>>,
)
    ensures
        header_cells(header_styles(conf), header_columns(visible_setting(conf)), header_answers).len()
            == row_cells(conf, rank, row, minutes, row_answers).len(),
        visible_setting(conf).len() > 0 ==> row_cells(conf, rank, row, minutes, row_answers).len()
            == visible_setting(conf).len(),
        visible_setting(conf).len() == 0 ==> row_cells(conf, rank, row, minutes, row_answers).len() == 10,
{
}

} // verus!
