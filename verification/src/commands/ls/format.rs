use vstd::prelude::*;

use crate::ansi::{BLUE, RESET_FG};
use vstd::utf8::encode_utf8;

use crate::num::{decimal, u64_to_string};
use crate::commands::ls::system::{classify, classify_text, get_extended_attributes, get_symlink_info, is_hidden, path_is_hidden, ClassifyProbe};
use crate::commands::ls::{order, ordered, LsFlags};
use crate::sort::{lemma_sort_map, sort_by_key, sort_by_keys, KeyText, SortKey};
use crate::text::{chars_of, eq_str, join_lines, join_with_newlines, pad_left, pad_left_string, pad_right, pad_right_string, replace_all, replace_str, spaces, spaces_string, split_whitespace, split_whitespace_words, views};

verus! {

/// `text` in blue; the colour is reset with the foreground reset (`39m`) so
/// that other attributes, such as bold, stay on.
pub open spec fn blue_text(text: Seq<char>) -> Seq<char> {
    BLUE@ + text + RESET_FG@
}

pub fn blue(text: &str) -> (r: String)
    ensures
        r@ == blue_text(text@),
{
    let mut r = String::from_str(BLUE);
    r.append(text);
    r.append(RESET_FG);
    r
}

/// After reading `s`: how many characters show, and whether an escape
/// sequence is open.
pub open spec fn visible_state(s: Seq<char>) -> (nat, bool)
    decreases s.len(),
{
    if s.len() == 0 {
        (0, false)
    } else {
        let (n, esc) = visible_state(s.drop_last());
        let c = s.last();
        if esc {
            (n, c != 'm')
        } else if c == '\x1b' {
            (n, true)
        } else {
            (n + 1, false)
        }
    }
}

/// The number of characters of `s` that show on a terminal: all but the
/// escape sequences, each running from `\x1b` to the next `m`.
pub open spec fn visible_len(s: Seq<char>) -> nat {
    visible_state(s).0
}

pub fn visible_width(s: &str) -> (w: usize)
    ensures
        w == visible_len(s@),
{
    let v = chars_of(s);
    let mut width: usize = 0;
    let mut esc = false;
    let mut i: usize = 0;
    while i < v.len()
        invariant
            v@ == s@,
            i <= v@.len(),
            width <= i,
            visible_state(s@.take(i as int)) == (width as nat, esc),
        decreases v@.len() - i,
    {
        assert(s@.take(i + 1).drop_last() =~= s@.take(i as int));
        let c = v[i];
        if esc {
            if c == 'm' {
                esc = false;
            }
        } else if c == '\x1b' {
            esc = true;
        } else {
            width = width + 1;
        }
        i = i + 1;
    }
    assert(s@.take(v@.len() as int) =~= s@);
    width
}

/// The widest visible length among `es` (0 for none).
pub open spec fn max_visible(es: Seq<Seq<char>>) -> nat
    decreases es.len(),
{
    if es.len() == 0 {
        0
    } else {
        let m = max_visible(es.drop_last());
        let w = visible_len(es.last());
        if w > m {
            w
        } else {
            m
        }
    }
}

fn max_visible_width(entries: &Vec<String>) -> (m: usize)
    ensures
        m == max_visible(views(entries@)),
{
    let mut m: usize = 0;
    let mut i: usize = 0;
    while i < entries.len()
        invariant
            i <= entries@.len(),
            m == max_visible(views(entries@).take(i as int)),
        decreases entries@.len() - i,
    {
        assert(views(entries@).take(i + 1).drop_last() =~= views(entries@).take(i as int));
        let w = visible_width(entries[i].as_str());
        if w > m {
            m = w;
        }
        i = i + 1;
    }
    assert(views(entries@).take(entries@.len() as int) =~= views(entries@));
    m
}

/// One cell of the grid: the entry at `idx` padded to `cw` visible
/// characters, or blanks where there is no entry.
pub open spec fn layout_cell(es: Seq<Seq<char>>, idx: int, cw: nat) -> Seq<char> {
    if 0 <= idx < es.len() {
        let v = visible_len(es[idx]);
        es[idx] + spaces((if v <= cw { cw - v } else { 0 }) as nat)
    } else {
        spaces(cw)
    }
}

/// The first `cols` cells of row `row`; the entries run down the columns.
pub open spec fn layout_row(es: Seq<Seq<char>>, row: int, rows: nat, cols: nat, cw: nat) -> Seq<char>
    decreases cols,
{
    if cols == 0 {
        Seq::<char>::empty()
    } else {
        layout_row(es, row, rows, (cols - 1) as nat, cw) + layout_cell(es, row + (cols - 1) * rows, cw)
    }
}

/// The first `count` rows, each ended by a newline.
pub open spec fn layout_lines(es: Seq<Seq<char>>, count: nat, rows: nat, cols: nat, cw: nat) -> Seq<char>
    decreases count,
{
    if count == 0 {
        Seq::<char>::empty()
    } else {
        layout_lines(es, (count - 1) as nat, rows, cols, cw) + layout_row(es, count - 1, rows, cols, cw)
            + seq!['\n']
    }
}

/// The column width of the grid: the widest entry and six blanks.
pub open spec fn grid_column_width(es: Seq<Seq<char>>) -> nat {
    max_visible(es) + 6
}

/// How many columns fit in `term_width`.
pub open spec fn grid_columns(es: Seq<Seq<char>>, term_width: nat) -> nat {
    term_width / grid_column_width(es)
}

/// The grid fits: at least one column, and no index overflows.
pub open spec fn grid_fits(es: Seq<Seq<char>>, term_width: nat) -> bool {
    grid_columns(es, term_width) >= 1 && es.len() + term_width <= usize::MAX
}

/// The entries in a grid as wide as the terminal, filled column by column.
pub open spec fn short_layout(es: Seq<Seq<char>>, term_width: nat) -> Seq<char> {
    let cw = grid_column_width(es);
    let cols = grid_columns(es, term_width);
    let rows = ((es.len() + cols - 1) / cols as int) as nat;
    layout_lines(es, rows, rows, cols, cw)
}

/// The entries one per line, for a file.
pub open spec fn redirect_layout(es: Seq<Seq<char>>) -> Seq<char> {
    join_lines(es) + seq!['\n']
}

proof fn lemma_columns_fit(w: int, c: int)
    requires
        c >= 1,
        w >= 0,
    ensures
        w / c >= 1 <==> c <= w,
{
    assert(w / c >= 1 ==> c <= w) by (nonlinear_arith)
        requires
            c >= 1,
            w >= 0,
    ;
    assert(c <= w ==> w / c >= 1) by (nonlinear_arith)
        requires
            c >= 1,
            w >= 0,
    ;
}

proof fn lemma_grid_index(row: int, col: int, rows: int, cols: int, n: int)
    requires
        0 <= row < rows,
        0 <= col < cols,
        rows == (n + cols - 1) / cols,
        n >= 0,
        cols >= 1,
    ensures
        0 <= row + col * rows < n + cols,
{
    assert(col * rows <= (cols - 1) * rows) by (nonlinear_arith)
        requires
            col <= cols - 1,
            rows >= 0,
    ;
    assert(cols * rows <= n + cols - 1) by (nonlinear_arith)
        requires
            rows == (n + cols - 1) / cols,
            cols >= 1,
            n >= 0,
    ;
    assert((cols - 1) * rows == cols * rows - rows) by (nonlinear_arith);
    assert(0 <= col * rows) by (nonlinear_arith)
        requires
            col >= 0,
            rows >= 0,
    ;
}

/// Lays the entries out in a grid of columns across `term_width`
/// characters.
pub fn short_format_layout(entries: &Vec<String>, term_width: usize) -> (r: String)
    requires
        grid_fits(views(entries@), term_width as nat),
    ensures
        r@ == short_layout(views(entries@), term_width as nat),
{
    let ghost es = views(entries@);
    let max_visible_len = max_visible_width(entries);
    proof {
        lemma_columns_fit(term_width as int, max_visible_len + 6);
    }
    let col_width = max_visible_len + 6;
    let num_cols = term_width / col_width;
    let n = entries.len();
    let num_rows = if n == 0 {
        0
    } else {
        (n - 1) / num_cols + 1
    };
    assert(num_rows == (n + num_cols - 1) / num_cols as int) by (nonlinear_arith)
        requires
            num_cols >= 1,
            n >= 0,
            num_rows == (if n == 0 { 0 } else { (n - 1) / num_cols as int + 1 }),
    ;
    let mut out: Vec<char> = Vec::new();
    let mut row: usize = 0;
    while row < num_rows
        invariant
            es == views(entries@),
            n == es.len(),
            col_width == grid_column_width(es),
            num_cols == grid_columns(es, term_width as nat),
            num_cols >= 1,
            n + term_width <= usize::MAX,
            num_cols <= term_width,
            num_rows == (n + num_cols - 1) / num_cols as int,
            row <= num_rows,
            out@ == layout_lines(es, row as nat, num_rows as nat, num_cols as nat, col_width as nat),
        decreases num_rows - row,
    {
        let ghost before = out@;
        let mut col: usize = 0;
        while col < num_cols
            invariant
                es == views(entries@),
                n == es.len(),
                col_width == grid_column_width(es),
                num_cols >= 1,
                n + term_width <= usize::MAX,
                num_cols <= term_width,
                num_rows == (n + num_cols - 1) / num_cols as int,
                row < num_rows,
                col <= num_cols,
                out@ == before + layout_row(es, row as int, num_rows as nat, col as nat, col_width as nat),
            decreases num_cols - col,
        {
            proof {
                lemma_grid_index(row as int, col as int, num_rows as int, num_cols as int, n as int);
            }
            let idx = row + col * num_rows;
            let ghost mid = out@;
            if idx < n {
                let entry = &entries[idx];
                let w = visible_width(entry.as_str());
                let pad = if w <= col_width {
                    col_width - w
                } else {
                    0
                };
                let cs = chars_of(entry.as_str());
                let mut k: usize = 0;
                while k < cs.len()
                    invariant
                        k <= cs@.len(),
                        out@ == mid + cs@.take(k as int),
                    decreases cs@.len() - k,
                {
                    out.push(cs[k]);
                    assert(cs@.take(k + 1) =~= cs@.take(k as int).push(cs@[k as int]));
                    k = k + 1;
                }
                let blanks = chars_of(spaces_string(pad).as_str());
                let mut k: usize = 0;
                let ghost mid2 = out@;
                while k < blanks.len()
                    invariant
                        k <= blanks@.len(),
                        out@ == mid2 + blanks@.take(k as int),
                    decreases blanks@.len() - k,
                {
                    out.push(blanks[k]);
                    assert(blanks@.take(k + 1) =~= blanks@.take(k as int).push(blanks@[k as int]));
                    k = k + 1;
                }
                assert(cs@.take(cs@.len() as int) =~= es[idx as int]);
                assert(blanks@.take(blanks@.len() as int) =~= blanks@);
                assert(out@ =~= mid + layout_cell(es, idx as int, col_width as nat));
            } else {
                let blanks = chars_of(spaces_string(col_width).as_str());
                let mut k: usize = 0;
                while k < blanks.len()
                    invariant
                        k <= blanks@.len(),
                        out@ == mid + blanks@.take(k as int),
                    decreases blanks@.len() - k,
                {
                    out.push(blanks[k]);
                    assert(blanks@.take(k + 1) =~= blanks@.take(k as int).push(blanks@[k as int]));
                    k = k + 1;
                }
                assert(blanks@.take(blanks@.len() as int) =~= blanks@);
                assert(out@ =~= mid + layout_cell(es, idx as int, col_width as nat));
            }
            assert(out@ =~= before + layout_row(es, row as int, num_rows as nat, (col + 1) as nat, col_width as nat));
            col = col + 1;
        }
        out.push('\n');
        assert(out@ =~= layout_lines(es, (row + 1) as nat, num_rows as nat, num_cols as nat, col_width as nat));
        row = row + 1;
    }
    crate::text::string_of(&out)
}

/// The number of columns of the terminal, when standard output, standard
/// error or standard input is one: `terminal_size::terminal_size`, whose
/// source gives a width only when it is above zero. What the terminal is
/// depends on the machine, and nothing more is claimed.
#[verifier::external_body]
fn terminal_columns() -> (r: Option<u16>)
    ensures
        r matches Some(w) ==> w > 0,
{
    match terminal_size::terminal_size() {
        Some((terminal_size::Width(w), _)) => Some(w),
        None => None,
    }
}

fn get_terminal_width() -> (w: usize)
    ensures
        1 <= w <= 65535,
{
    match terminal_columns() {
        Some(w) => w as usize,
        None => 80,
    }
}

/// The message for a listing that a terminal this narrow cannot hold.
pub const TOO_NARROW: &'static str = "Terminal too narrow for the listing";

/// The short listing of `entries`: one per line for a file, else a grid as
/// wide as the terminal.
pub fn short_format_list_for_width(entries: Vec<String>, is_redirect: bool, term_width: usize) -> (r:
    Result<String, String>)
    ensures
        is_redirect ==> r is Ok && r->Ok_0@ == redirect_layout(views(entries@)),
        !is_redirect && grid_fits(views(entries@), term_width as nat) ==> r is Ok && r->Ok_0@ == short_layout(
            views(entries@),
            term_width as nat,
        ),
        !is_redirect && !grid_fits(views(entries@), term_width as nat) ==> r is Err && r->Err_0@
            == TOO_NARROW@,
{
    if is_redirect {
        let mut output = join_with_newlines(&entries);
        output.append("\n");
        proof {
            reveal_strlit("\n");
        }
        return Ok(output);
    }
    let m = max_visible_width(&entries);
    proof {
        lemma_columns_fit(term_width as int, m + 6);
    }
    if term_width >= 6 && m <= term_width - 6 && entries.len() <= usize::MAX - term_width {
        Ok(short_format_layout(&entries, term_width))
    } else {
        Err(String::from_str(TOO_NARROW))
    }
}

/// `short_format_list`: the entries one per line for a file, else in a grid
/// as wide as the terminal.
pub fn short_format_list(entries: Vec<String>, is_redirect: bool) -> (r: Result<String, String>)
    ensures
        is_redirect ==> r is Ok && r->Ok_0@ == redirect_layout(views(entries@)),
        !is_redirect ==> (r is Ok ==> exists|w: nat|
            1 <= w <= 65535 && grid_fits(views(entries@), w) && r->Ok_0@ == short_layout(
                views(entries@),
                w,
            )),
        !is_redirect ==> (r is Err ==> r->Err_0@ == TOO_NARROW@),
{
    let w = if is_redirect {
        80
    } else {
        get_terminal_width()
    };
    short_format_list_for_width(entries, is_redirect, w)
}

/// The length of `s` in bytes of UTF-8, as `str::len` gives it.
pub open spec fn byte_len(s: Seq<char>) -> usize {
    encode_utf8(s).len() as usize
}

/// The width of column `i` of the long listing: its longest field, counted
/// in bytes.
pub open spec fn column_width(rows: Seq<Seq<Seq<char>>>, i: int) -> usize
    decreases rows.len(),
{
    if rows.len() == 0 {
        0
    } else {
        let m = column_width(rows.drop_last(), i);
        let r = rows.last();
        let w = if 0 <= i < r.len() {
            byte_len(r[i])
        } else {
            0
        };
        if w > m {
            w
        } else {
            m
        }
    }
}

/// Field `i` of a row whose last field is `last`, laid out in a column `w`
/// wide: permissions, owner and date fields to the left, the group between
/// blanks, the link count and size to the right, the name as it is.
pub open spec fn field_text(f: Seq<char>, i: int, last: int, w: nat) -> Seq<char> {
    if i == 0 || i == 2 {
        pad_right(f, w)
    } else if i == 3 {
        seq![' '] + pad_right(f, w) + seq![' ']
    } else if i == 1 || i == 4 {
        pad_left(f, w)
    } else if 5 <= i < last {
        pad_right(f, w)
    } else if i == last {
        f
    } else {
        Seq::<char>::empty()
    }
}

/// The first `k` fields of `row`, separated by blanks.
pub open spec fn row_text(rows: Seq<Seq<Seq<char>>>, row: Seq<Seq<char>>, k: nat) -> Seq<char>
    decreases k,
{
    if k == 0 {
        Seq::<char>::empty()
    } else {
        let i = k - 1;
        row_text(rows, row, i as nat) + (if i > 0 {
            seq![' ']
        } else {
            Seq::<char>::empty()
        }) + field_text(row[i], i, row.len() - 1, column_width(rows, i) as nat)
    }
}

/// A row of the long listing, with the `*` that stood for blanks in names
/// turned back into blanks.
pub open spec fn formatted_row(rows: Seq<Seq<Seq<char>>>, row: Seq<Seq<char>>) -> Seq<char> {
    replace_all(row_text(rows, row, row.len()), seq!['*'], seq![' '])
}

/// The name of a row: its last field.
pub open spec fn row_name(row: Seq<Seq<char>>) -> Seq<char> {
    if row.len() > 0 {
        row.last()
    } else {
        Seq::<char>::empty()
    }
}

/// The key a row is sorted by: its name, with `./` first and `../` next.
pub open spec fn row_sort_key(row: Seq<Seq<char>>) -> Seq<char> {
    let n = row_name(row);
    if n == seq!['.', '/'] {
        seq!['\x00']
    } else if n == seq!['.', '.', '/'] {
        seq!['\x01']
    } else {
        n
    }
}

pub open spec fn keyed_row(row: Seq<Seq<char>>) -> (Seq<char>, Seq<Seq<char>>) {
    (row_sort_key(row), row)
}

/// The entries split into their fields.
pub open spec fn long_rows(entries: Seq<Seq<char>>) -> Seq<Seq<Seq<char>>> {
    Seq::new(entries.len(), |j: int| split_whitespace(entries[j]))
}

/// The rows in the order of their keys (stable).
pub open spec fn sorted_rows(rows: Seq<Seq<Seq<char>>>) -> Seq<Seq<Seq<char>>> {
    let s = sort_by_key(Seq::new(rows.len(), |j: int| keyed_row(rows[j])));
    Seq::new(s.len(), |j: int| s[j].1)
}

/// The long listing of `entries`: a `total` line, then the rows sorted by
/// name, their fields aligned in columns.
pub open spec fn long_listing(entries: Seq<Seq<char>>, total: u64) -> Seq<char> {
    if entries.len() == 0 {
        Seq::<char>::empty()
    } else {
        let rows = long_rows(entries);
        let sorted = sorted_rows(rows);
        "total: "@ + decimal(total as nat) + seq!['\n'] + join_lines(
            Seq::new(sorted.len(), |j: int| formatted_row(rows, sorted[j])),
        ) + seq!['\n']
    }
}

/// A row of fields with the key it is sorted by.
pub struct KeyedRow {
    pub key: String,
    pub fields: Vec<String>,
}

impl SortKey for KeyedRow {
    open spec fn sort_key(&self) -> Seq<char> {
        self.key@
    }
}

impl KeyText for KeyedRow {
    fn key_text(&self) -> (r: &str) {
        self.key.as_str()
    }
}

pub open spec fn keyed_view(k: KeyedRow) -> (Seq<char>, Seq<Seq<char>>) {
    (k.key@, views(k.fields@))
}

fn row_key_text(row: &Vec<String>) -> (r: String)
    ensures
        r@ == row_sort_key(views(row@)),
{
    let name = if row.len() > 0 {
        row[row.len() - 1].clone()
    } else {
        String::new()
    };
    proof {
        reveal_strlit("./");
        reveal_strlit("../");
        reveal_strlit("\x00");
        reveal_strlit("\x01");
        assert("./"@ =~= seq!['.', '/']);
        assert("../"@ =~= seq!['.', '.', '/']);
        assert("\x00"@ =~= seq!['\x00']);
        assert("\x01"@ =~= seq!['\x01']);
        assert(name@ == row_name(views(row@)));
    }
    if eq_str(name.as_str(), "./") {
        String::from_str("\x00")
    } else if eq_str(name.as_str(), "../") {
        String::from_str("\x01")
    } else {
        name
    }
}

proof fn lemma_column_width_beyond(rows: Seq<Seq<Seq<char>>>, cc: int, i: int)
    requires
        forall|j: int| 0 <= j < rows.len() ==> #[trigger] rows[j].len() <= cc,
        i >= cc,
    ensures
        column_width(rows, i) == 0,
    decreases rows.len(),
{
    if rows.len() > 0 {
        assert forall|j: int| 0 <= j < rows.drop_last().len() implies #[trigger] rows.drop_last()[j].len() <= cc by {
            assert(rows.drop_last()[j] == rows[j]);
        }
        lemma_column_width_beyond(rows.drop_last(), cc, i);
        assert(rows.last().len() <= cc);
    }
}

fn column_width_of(rows: &Vec<KeyedRow>, i: usize, Ghost(rv): Ghost<Seq<Seq<Seq<char>>>>) -> (w: usize)
    requires
        rv.len() == rows@.len(),
        forall|j: int| 0 <= j < rows@.len() ==> #[trigger] rv[j] == views(rows@[j].fields@),
    ensures
        w == column_width(rv, i as int),
{
    let mut w: usize = 0;
    let mut j: usize = 0;
    while j < rows.len()
        invariant
            j <= rows@.len(),
            rv.len() == rows@.len(),
            forall|k: int| 0 <= k < rows@.len() ==> #[trigger] rv[k] == views(rows@[k].fields@),
            w == column_width(rv.take(j as int), i as int),
        decreases rows@.len() - j,
    {
        assert(rv.take(j + 1).drop_last() =~= rv.take(j as int));
        assert(rv.take(j + 1).last() == rv[j as int]);
        let fields = &rows[j].fields;
        if i < fields.len() {
            let b = fields[i].as_str().len();
            assert(views(fields@)[i as int] == fields@[i as int]@);
            if b > w {
                w = b;
            }
        }
        j = j + 1;
    }
    assert(rv.take(rows@.len() as int) =~= rv);
    w
}

fn format_long_row(fields: &Vec<String>, widths: &Vec<usize>, Ghost(rv): Ghost<Seq<Seq<Seq<char>>>>) -> (r:
    String)
    requires
        forall|i: int| 0 <= i < widths@.len() ==> #[trigger] widths@[i] == column_width(rv, i),
        forall|i: int| i >= widths@.len() ==> #[trigger] column_width(rv, i) == 0,
    ensures
        r@ == formatted_row(rv, views(fields@)),
{
    let ghost row = views(fields@);
    let n = fields.len();
    let mut text = String::new();
    let mut i: usize = 0;
    while i < n
        invariant
            n == fields@.len(),
            row == views(fields@),
            i <= n,
            forall|k: int| 0 <= k < widths@.len() ==> #[trigger] widths@[k] == column_width(rv, k),
            forall|k: int| k >= widths@.len() ==> #[trigger] column_width(rv, k) == 0,
            text@ == row_text(rv, row, i as nat),
        decreases n - i,
    {
        let ghost before = text@;
        if i > 0 {
            text.append(" ");
        }
        let w = if i < widths.len() {
            widths[i]
        } else {
            0
        };
        assert(w == column_width(rv, i as int));
        let f = fields[i].as_str();
        assert(f@ == row[i as int]);
        let piece = if i == 0 || i == 2 {
            pad_right_string(f, w)
        } else if i == 3 {
            let mut p = String::from_str(" ");
            let padded = pad_right_string(f, w);
            p.append(padded.as_str());
            p.append(" ");
            p
        } else if i == 1 || i == 4 {
            pad_left_string(f, w)
        } else if 5 <= i && i < n - 1 {
            pad_right_string(f, w)
        } else {
            String::from_str(f)
        };
        proof {
            reveal_strlit(" ");
        }
        assert(piece@ == field_text(row[i as int], i as int, n - 1, w as nat));
        text.append(piece.as_str());
        assert(text@ =~= row_text(rv, row, (i + 1) as nat));
        i = i + 1;
    }
    proof {
        reveal_strlit("*");
        reveal_strlit(" ");
    }
    let r = replace_str(text.as_str(), "*", " ");
    assert("*"@ =~= seq!['*']);
    assert(" "@ =~= seq![' ']);
    r
}

/// `long_format_list`: the long listing of `entries` under a `total` line.
pub fn long_format_list(entries: Vec<String>, total: u64) -> (r: Result<String, String>)
    ensures
        r is Ok && r->Ok_0@ == long_listing(views(entries@), total),
{
    if entries.len() == 0 {
        return Ok(String::new());
    }
    let ghost ev = views(entries@);
    let ghost rv = long_rows(ev);
    let mut keyed: Vec<KeyedRow> = Vec::new();
    let mut cc: usize = 0;
    let mut i: usize = 0;
    while i < entries.len()
        invariant
            ev == views(entries@),
            rv == long_rows(ev),
            i <= entries@.len(),
            keyed@.len() == i,
            forall|j: int| 0 <= j < i ==> #[trigger] views(keyed@[j].fields@) == rv[j],
            forall|j: int| 0 <= j < i ==> #[trigger] keyed@[j].key@ == row_sort_key(rv[j]),
            forall|j: int| 0 <= j < i ==> #[trigger] keyed@[j].fields@.len() <= cc,
        decreases entries@.len() - i,
    {
        let fields = split_whitespace_words(entries[i].as_str());
        let key = row_key_text(&fields);
        if fields.len() > cc {
            cc = fields.len();
        }
        keyed.push(KeyedRow { key, fields });
        i = i + 1;
    }
    assert(rv.len() == keyed@.len());
    let mut widths: Vec<usize> = Vec::new();
    let mut c: usize = 0;
    while c < cc
        invariant
            rv.len() == keyed@.len(),
            forall|j: int| 0 <= j < keyed@.len() ==> #[trigger] rv[j] == views(keyed@[j].fields@),
            c <= cc,
            widths@.len() == c,
            forall|k: int| 0 <= k < c ==> #[trigger] widths@[k] == column_width(rv, k),
        decreases cc - c,
    {
        let w = column_width_of(&keyed, c, Ghost(rv));
        widths.push(w);
        c = c + 1;
    }
    assert forall|k: int| k >= widths@.len() implies #[trigger] column_width(rv, k) == 0 by {
        assert forall|j: int| 0 <= j < rv.len() implies #[trigger] rv[j].len() <= cc by {
            assert(rv[j] == views(keyed@[j].fields@));
        }
        lemma_column_width_beyond(rv, cc as int, k);
    }
    let ghost kv = keyed@;
    let sorted = sort_by_keys(keyed);
    let ghost sr = sorted_rows(rv);
    proof {
        let f = |k: KeyedRow| keyed_view(k);
        lemma_sort_map(kv, f);
        assert(kv.map_values(f) =~= Seq::new(rv.len(), |j: int| keyed_row(rv[j])));
        let s = sort_by_key(Seq::new(rv.len(), |j: int| keyed_row(rv[j])));
        assert(s == sorted@.map_values(f));
        assert forall|j: int| 0 <= j < sorted@.len() implies #[trigger] sr[j] == views(sorted@[j].fields@) by {
            assert(s[j] == f(sorted@[j]));
        }
    }
    let mut lines: Vec<String> = Vec::new();
    let mut j: usize = 0;
    while j < sorted.len()
        invariant
            sr == sorted_rows(rv),
            sr.len() == sorted@.len(),
            forall|k: int| 0 <= k < sorted@.len() ==> #[trigger] sr[k] == views(sorted@[k].fields@),
            forall|k: int| 0 <= k < widths@.len() ==> #[trigger] widths@[k] == column_width(rv, k),
            forall|k: int| k >= widths@.len() ==> #[trigger] column_width(rv, k) == 0,
            j <= sorted@.len(),
            lines@.len() == j,
            forall|k: int| 0 <= k < j ==> #[trigger] lines@[k]@ == formatted_row(rv, sr[k]),
        decreases sorted@.len() - j,
    {
        let line = format_long_row(&sorted[j].fields, &widths, Ghost(rv));
        lines.push(line);
        j = j + 1;
    }
    let body = join_with_newlines(&lines);
    assert(views(lines@) =~= Seq::new(sr.len(), |k: int| formatted_row(rv, sr[k])));
    let mut result = String::from_str("total: ");
    result.append(u64_to_string(total).as_str());
    result.append("\n");
    result.append(body.as_str());
    result.append("\n");
    proof {
        reveal_strlit("\n");
    }
    Ok(result)
}

/// What chrono writes for the moment `secs` seconds after the epoch, in UTC,
/// with the format `%b %e %H:%M`; nothing where that moment is out of its
/// range.
pub uninterp spec fn chrono_month_day_time(secs: i64) -> Option<Seq<char>>;

/// `chrono::DateTime::from_timestamp(secs, 0)`, formatted with
/// `%b %e %H:%M` and written to a `String`. Claimed: the result is
/// `chrono_month_day_time` of `secs`; what that text is, is left to chrono.
#[verifier::external_body]
fn chrono_format_time(secs: i64) -> (r: Option<String>)
    ensures
        match r {
            Some(t) => chrono_month_day_time(secs) == Some(t@),
            None => chrono_month_day_time(secs) is None,
        },
{
    match chrono::DateTime::from_timestamp(secs, 0) {
        Some(d) => Some(d.format("%b %e %H:%M").to_string()),
        None => None,
    }
}

/// The time stamp of a long listing for a file modified `secs` seconds
/// after the epoch: month, day, hours and minutes, or the seconds themselves
/// where chrono has no date for them.
pub open spec fn time_text(secs: u64) -> Seq<char> {
    match chrono_month_day_time(secs as i64) {
        Some(t) => t,
        None => decimal(secs as nat),
    }
}

pub fn format_time(secs: u64) -> (r: String)
    ensures
        r@ == time_text(secs),
{
    let s = secs as i64;
    match chrono_format_time(s) {
        Some(t) => t,
        None => u64_to_string(secs),
    }
}

/// The fields of one line of a long listing.
pub struct FileInfo {
    pub file_type: String,
    pub permissions: String,
    pub hard_links: u64,
    pub user_name: String,
    pub group_name: String,
    pub size: u64,
    pub timestamp: String,
    pub name: String,
    pub suffix: String,
    pub extended_attr: String,
    pub symlink: String,
}

/// A line of a long listing: the fields padded to their widths, with the
/// blanks of the name written as `*` so that the name stays one field.
pub open spec fn long_line(
    file_type: Seq<char>,
    permissions: Seq<char>,
    extended_attr: Seq<char>,
    hard_links: u64,
    user_name: Seq<char>,
    group_name: Seq<char>,
    size: u64,
    timestamp: Seq<char>,
    name: Seq<char>,
    suffix: Seq<char>,
    symlink: Seq<char>,
) -> Seq<char> {
    file_type + pad_left(permissions, 7) + extended_attr + seq![' '] + pad_left(decimal(hard_links as nat), 1)
        + seq![' '] + pad_left(user_name, 7) + seq![' '] + pad_left(group_name, 6) + seq![' '] + pad_left(
        decimal(size as nat),
        6,
    ) + seq![' '] + pad_left(timestamp, 13) + seq![' '] + replace_all(name, seq![' '], seq!['*']) + suffix
        + seq![' '] + symlink
}

pub open spec fn file_info_text(i: FileInfo) -> Seq<char> {
    long_line(
        i.file_type@,
        i.permissions@,
        i.extended_attr@,
        i.hard_links,
        i.user_name@,
        i.group_name@,
        i.size,
        i.timestamp@,
        i.name@,
        i.suffix@,
        i.symlink@,
    )
}

impl FileInfo {
    pub fn format(&self) -> (r: String)
        ensures
            r@ == file_info_text(*self),
    {
        proof {
            reveal_strlit(" ");
            reveal_strlit("*");
            assert(" "@ =~= seq![' ']);
            assert("*"@ =~= seq!['*']);
        }
        let mut r = String::from_str(self.file_type.as_str());
        r.append(pad_left_string(self.permissions.as_str(), 7).as_str());
        r.append(self.extended_attr.as_str());
        r.append(" ");
        r.append(pad_left_string(u64_to_string(self.hard_links).as_str(), 1).as_str());
        r.append(" ");
        r.append(pad_left_string(self.user_name.as_str(), 7).as_str());
        r.append(" ");
        r.append(pad_left_string(self.group_name.as_str(), 6).as_str());
        r.append(" ");
        r.append(pad_left_string(u64_to_string(self.size).as_str(), 6).as_str());
        r.append(" ");
        r.append(pad_left_string(self.timestamp.as_str(), 13).as_str());
        r.append(" ");
        r.append(replace_str(self.name.as_str(), " ", "*").as_str());
        r.append(self.suffix.as_str());
        r.append(" ");
        r.append(self.symlink.as_str());
        r
    }
}

/// What a long listing reads of a file: its metadata (following links),
/// the owner's and group's names, whether it has extended attributes, and
/// what its type indicator is decided on.
pub struct EntryMeta {
    pub is_dir: bool,
    pub mode: u32,
    pub hard_links: u64,
    pub user_name: String,
    pub group_name: String,
    pub size: u64,
    pub modified_secs: u64,
    pub is_symlink: bool,
    pub has_extended_attributes: bool,
    pub probe: ClassifyProbe,
}

/// The fields of the long line of a file named `name`.
pub open spec fn entry_info(name: Seq<char>, m: EntryMeta, classify_flag: bool, colorize: bool) -> (
    Seq<char>,
    Seq<char>,
    Seq<char>,
    Seq<char>,
    Seq<char>,
) {
    (
        if m.is_dir { seq!['d'] } else { seq!['-'] },
        if colorize && m.is_dir { blue_text(name) } else { name },
        if classify_flag { classify_text(m.probe) } else { Seq::<char>::empty() },
        if m.has_extended_attributes { seq!['@'] } else { Seq::<char>::empty() },
        if m.is_symlink { "-> symlink"@ } else { Seq::<char>::empty() },
    )
}

/// The long line of a file named `name`.
pub open spec fn entry_text(name: Seq<char>, m: EntryMeta, classify_flag: bool, colorize: bool) -> Seq<char> {
    let (file_type, shown, suffix, attr, link) = entry_info(name, m, classify_flag, colorize);
    long_line(
        file_type,
        crate::commands::ls::system::mode_text(m.mode),
        attr,
        m.hard_links,
        m.user_name@,
        m.group_name@,
        m.size,
        time_text(m.modified_secs),
        shown,
        suffix,
        link,
    )
}

/// `format_entry`: the long line of a file named `name`, its name in blue
/// for a directory when `colorize`, with its type indicator when
/// `classify_flag`.
pub fn format_entry(name: &str, meta: EntryMeta, classify_flag: bool, colorize: bool) -> (r: String)
    ensures
        r@ == entry_text(name@, meta, classify_flag, colorize),
{
    proof {
        reveal_strlit("d");
        reveal_strlit("-");
    }
    let shown = if colorize && meta.is_dir {
        blue(name)
    } else {
        String::from_str(name)
    };
    let file_type = if meta.is_dir {
        String::from_str("d")
    } else {
        String::from_str("-")
    };
    let suffix = if classify_flag {
        classify(&meta.probe)
    } else {
        String::new()
    };
    let info = FileInfo {
        file_type,
        permissions: crate::commands::ls::system::mode_to_string(meta.mode),
        hard_links: meta.hard_links,
        user_name: meta.user_name,
        group_name: meta.group_name,
        size: meta.size,
        timestamp: format_time(meta.modified_secs),
        name: shown,
        suffix,
        extended_attr: get_extended_attributes(meta.has_extended_attributes),
        symlink: get_symlink_info(meta.is_symlink),
    };
    assert("d"@ =~= seq!['d']);
    assert("-"@ =~= seq!['-']);
    info.format()
}

/// An entry of a directory as a short listing reads it.
pub struct EntryInfo {
    pub path: String,
    pub name: String,
    pub probe: ClassifyProbe,
}

/// How an entry shows in a short listing: its name (in blue for a directory
/// on a terminal) and, for `-F`, its type indicator.
pub open spec fn entry_display(e: EntryInfo, classify_flag: bool, is_redirect: bool) -> Seq<char> {
    (if !is_redirect && e.probe.is_dir {
        blue_text(e.name@)
    } else {
        e.name@
    }) + (if classify_flag {
        classify_text(e.probe)
    } else {
        Seq::<char>::empty()
    })
}

/// The entries a short listing shows, in the order read: hidden ones only
/// for `-a`, and a line for each entry that could not be read.
pub open spec fn shown_entries(items: Seq<Result<EntryInfo, String>>, flags: LsFlags, is_redirect: bool) -> Seq<
    Seq<char>,
>
    decreases items.len(),
{
    if items.len() == 0 {
        Seq::<Seq<char>>::empty()
    } else {
        let rest = shown_entries(items.drop_last(), flags, is_redirect);
        match items.last() {
            Err(e) => rest.push("Error reading entry: "@ + e@),
            Ok(info) => if !flags.show_hidden && path_is_hidden(info.path@) {
                rest
            } else {
                rest.push(entry_display(info, flags.classify, is_redirect))
            },
        }
    }
}

/// The entries of a short listing in their order: with `.` and `..` for
/// `-a`, sorted, reversed for `-r`.
pub open spec fn short_entries(items: Seq<Result<EntryInfo, String>>, flags: LsFlags, is_redirect: bool) -> Seq<
    Seq<char>,
> {
    let shown = shown_entries(items, flags, is_redirect);
    let all = if flags.show_hidden {
        seq![seq!['.'], seq!['.', '.']] + shown
    } else {
        shown
    };
    ordered(all, flags.reverse)
}

pub fn short_list_entries(items: &Vec<Result<EntryInfo, String>>, flags: &LsFlags, is_redirect: bool) -> (r: Vec<
    String,
>)
    ensures
        views(r@) == short_entries(items@, *flags, is_redirect),
{
    let mut shown: Vec<String> = Vec::new();
    if flags.show_hidden {
        shown.push(String::from_str("."));
        shown.push(String::from_str(".."));
        proof {
            reveal_strlit(".");
            reveal_strlit("..");
            assert("."@ =~= seq!['.']);
            assert(".."@ =~= seq!['.', '.']);
        }
    }
    let ghost start = views(shown@);
    assert(start == (if flags.show_hidden { seq![seq!['.'], seq!['.', '.']] } else { Seq::<Seq<char>>::empty() }));
    let mut i: usize = 0;
    while i < items.len()
        invariant
            i <= items@.len(),
            views(shown@) == start + shown_entries(items@.take(i as int), *flags, is_redirect),
        decreases items@.len() - i,
    {
        assert(items@.take(i + 1).drop_last() =~= items@.take(i as int));
        let ghost before = views(shown@);
        match &items[i] {
            Err(e) => {
                let mut line = String::from_str("Error reading entry: ");
                line.append(e.as_str());
                shown.push(line);
                assert(views(shown@) =~= before.push("Error reading entry: "@ + e@));
            },
            Ok(info) => {
                if !flags.show_hidden && is_hidden(info.path.as_str()) {
                } else {
                    let mut line = if !is_redirect && info.probe.is_dir {
                        blue(info.name.as_str())
                    } else {
                        info.name.clone()
                    };
                    if flags.classify {
                        let suffix = classify(&info.probe);
                        line.append(suffix.as_str());
                    }
                    shown.push(line);
                    assert(views(shown@) =~= before.push(entry_display(*info, flags.classify, is_redirect)));
                }
            },
        }
        i = i + 1;
    }
    assert(items@.take(items@.len() as int) =~= items@);
    assert(views(shown@) =~= (if flags.show_hidden {
        seq![seq!['.'], seq!['.', '.']] + shown_entries(items@, *flags, is_redirect)
    } else {
        shown_entries(items@, *flags, is_redirect)
    }));
    order(shown, flags.reverse)
}

/// `get_short_list`, given what was read of the directory: the entries it
/// shows, laid out one per line for a file or in a grid on a terminal.
pub fn get_short_list(read: Result<Vec<Result<EntryInfo, String>>, String>, flags: &LsFlags, is_redirect: bool) -> (r:
    Result<String, String>)
    ensures
        match read {
            Err(e) => r is Ok && r->Ok_0@ == "Error reading directory: "@ + e@,
            Ok(items) => {
                let es = short_entries(items@, *flags, is_redirect);
                &&& es.len() == 0 ==> r is Ok && r->Ok_0@ == Seq::<char>::empty()
                &&& es.len() > 0 && is_redirect ==> r is Ok && r->Ok_0@ == redirect_layout(es)
                &&& es.len() > 0 && !is_redirect ==> match r {
                    Ok(t) => exists|w: nat|
                        1 <= w <= 65535 && grid_fits(es, w) && t@ == #[trigger] short_layout(es, w),
                    Err(e) => e@ == TOO_NARROW@,
                }
            },
        },
{
    match read {
        Err(e) => {
            let mut t = String::from_str("Error reading directory: ");
            t.append(e.as_str());
            Ok(t)
        },
        Ok(items) => {
            let entries = short_list_entries(&items, flags, is_redirect);
            if entries.len() == 0 {
                return Ok(String::new());
            }
            short_format_list(entries, is_redirect)
        },
    }
}

/// What a long listing found at a path.
pub enum LongSource {
    /// The path's metadata could not be read.
    Missing,
    /// A directory that could not be read.
    Unreadable,
    /// A directory: the long line of each entry whose metadata was read.
    Directory(Vec<String>),
    /// Another file: its long line, if its metadata was read.
    File(Option<String>),
}

/// The name a long line ends with: its last word.
pub open spec fn line_name(line: Seq<char>) -> Seq<char> {
    let words = split_whitespace(line);
    if words.len() > 0 {
        words.last()
    } else {
        Seq::<char>::empty()
    }
}

/// The lines of a directory that a long listing keeps: all for `-a`, else
/// those whose name is not hidden.
pub open spec fn kept_lines(lines: Seq<Seq<char>>, show_hidden: bool) -> Seq<Seq<char>>
    decreases lines.len(),
{
    if lines.len() == 0 {
        Seq::<Seq<char>>::empty()
    } else {
        let rest = kept_lines(lines.drop_last(), show_hidden);
        if show_hidden || !path_is_hidden(line_name(lines.last())) {
            rest.push(lines.last())
        } else {
            rest
        }
    }
}

/// The lines of a long listing before they are laid out, or nothing when
/// there is nothing to list.
pub open spec fn long_entries(source: LongSource, dot: Option<String>, dotdot: Option<String>, show_hidden: bool) -> Seq<
    Seq<char>,
> {
    let found = match source {
        LongSource::Directory(lines) => kept_lines(views(lines@), show_hidden),
        LongSource::File(Some(line)) => seq![line@],
        _ => Seq::<Seq<char>>::empty(),
    };
    match source {
        LongSource::Missing | LongSource::Unreadable | LongSource::File(None) => Seq::<Seq<char>>::empty(),
        _ => if show_hidden {
            (match dot {
                Some(d) => seq![d@],
                None => Seq::<Seq<char>>::empty(),
            }) + (match dotdot {
                Some(d) => seq![d@],
                None => Seq::<Seq<char>>::empty(),
            }) + found
        } else {
            found
        },
    }
}

fn line_name_text(line: &str) -> (r: String)
    ensures
        r@ == line_name(line@),
{
    let words = split_whitespace_words(line);
    if words.len() > 0 {
        words[words.len() - 1].clone()
    } else {
        String::new()
    }
}

/// `get_long_list`, given what was read at the path: the long lines of a
/// file, or of a directory's entries (hidden ones only for `-a`), with the
/// lines of `.` and `..` first for `-a`, laid out under the `total` line.
/// `dot` and `dotdot` are the long lines of the path itself and of its
/// parent, where their metadata could be read; `total` the blocks of the
/// directory's entries, where they could be counted (0 is written
/// otherwise).
pub fn get_long_list(
    source: LongSource,
    dot: Option<String>,
    dotdot: Option<String>,
    flags: &LsFlags,
    total: Option<u64>,
) -> (r: Result<String, String>)
    ensures
        r is Ok && r->Ok_0@ == long_listing(
            long_entries(source, dot, dotdot, flags.show_hidden),
            match total {
                Some(t) => t,
                None => 0,
            },
        ),
{
    let ghost es = long_entries(source, dot, dotdot, flags.show_hidden);
    let mut entries: Vec<String> = Vec::new();
    let ghost found: Seq<Seq<char>>;
    match &source {
        LongSource::Missing | LongSource::Unreadable | LongSource::File(None) => {
            assert(es.len() == 0);
            return Ok(String::new());
        },
        LongSource::File(Some(line)) => {
            entries.push(line.clone());
            proof {
                found = seq![line@];
                assert(views(entries@) =~= found);
            }
        },
        LongSource::Directory(lines) => {
            let mut i: usize = 0;
            while i < lines.len()
                invariant
                    i <= lines@.len(),
                    views(entries@) == kept_lines(views(lines@).take(i as int), flags.show_hidden),
                decreases lines@.len() - i,
            {
                assert(views(lines@).take(i + 1).drop_last() =~= views(lines@).take(i as int));
                let line = &lines[i];
                if flags.show_hidden || !is_hidden(line_name_text(line.as_str()).as_str()) {
                    let ghost before = views(entries@);
                    entries.push(line.clone());
                    assert(views(entries@) =~= before.push(line@));
                }
                i = i + 1;
            }
            assert(views(lines@).take(lines@.len() as int) =~= views(lines@));
            proof {
                found = kept_lines(views(lines@), flags.show_hidden);
            }
        },
    }
    if flags.show_hidden {
        let mut all: Vec<String> = Vec::new();
        if let Some(d) = &dot {
            all.push(d.clone());
        }
        if let Some(d) = &dotdot {
            all.push(d.clone());
        }
        let ghost front = views(all@);
        all.append(&mut entries);
        assert(views(all@) =~= front + found);
        entries = all;
    }
    assert(views(entries@) =~= es);
    let t = match total {
        Some(t) => t,
        None => 0,
    };
    long_format_list(entries, t)
}

} // verus!
