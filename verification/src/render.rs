//! Terminal layout.
//!
//! Flat and fixed-width: aligned columns, one line per port, no box drawing,
//! so the output stays readable when it is piped, grepped or pasted into an
//! issue. Styling is applied on top of the layout; whoever writes the lines
//! out removes it when the destination is not a terminal.

use owo_colors::OwoColorize;
use vstd::prelude::*;

use crate::scan::{
    group_label, group_views, entry_views, owner_label, primary_pid_of, protocol_name, size_text,
    state_name, format_bytes, PortEntry, PortEntryView, PortGroup, PortGroupView, ProcessInfoView,
};
use crate::kill::{collateral_note, port_list, port_list_text, preview, success, KillOutcome, KillStatus};
use crate::system::{elevation_hint, elevation_text, Platform, SystemSummary};
use crate::text::{
    concat, push_decimal,
    decimal, decimal_string,
    join, join_strings, trim_end, views,
    chars_of, is_control, is_control_char, is_space, is_whitespace, owned, push_char, push_str,
    string_of, trim, trim_str,
};

verus! {

// ---------------------------------------------------------------------------
// Styling
// ---------------------------------------------------------------------------

/// `owo_colors::OwoColorize::bold`, written out: SGR 1, the text, SGR 0.
#[verifier::external_body]
fn bold(text: &str) -> (r: String)
    ensures
        r@ == "\x1b[1m"@ + text@ + "\x1b[0m"@,
{
    text.bold().to_string()
}

/// `owo_colors::OwoColorize::dimmed`, written out: SGR 2, the text, SGR 0.
#[verifier::external_body]
fn dimmed(text: &str) -> (r: String)
    ensures
        r@ == "\x1b[2m"@ + text@ + "\x1b[0m"@,
{
    text.dimmed().to_string()
}

/// `owo_colors::OwoColorize::green`, written out: SGR 32, the text, SGR 39.
#[verifier::external_body]
fn green(text: &str) -> (r: String)
    ensures
        r@ == "\x1b[32m"@ + text@ + "\x1b[39m"@,
{
    text.green().to_string()
}

/// `owo_colors::OwoColorize::yellow`, written out: SGR 33, the text, SGR 39.
#[verifier::external_body]
fn yellow(text: &str) -> (r: String)
    ensures
        r@ == "\x1b[33m"@ + text@ + "\x1b[39m"@,
{
    text.yellow().to_string()
}

/// `owo_colors::OwoColorize::red`, written out: SGR 31, the text, SGR 39.
#[verifier::external_body]
fn red(text: &str) -> (r: String)
    ensures
        r@ == "\x1b[31m"@ + text@ + "\x1b[39m"@,
{
    text.red().to_string()
}

/// Column alignment.
#[derive(Debug, Clone, Copy, PartialEq, Eq, Structural)]
pub enum Align {
    Left,
    Right,
}

/// How a piece of text is styled.
#[derive(Debug, Clone, Copy, PartialEq, Eq, Structural)]
pub enum Tone {
    Strong,
    Normal,
    Muted,
    Good,
    Warn,
    Bad,
}

/// `text` with the escape sequences of `tone` around it.
pub open spec fn toned(text: Seq<char>, t: Tone) -> Seq<char> {
    match t {
        Tone::Strong => "\x1b[1m"@ + text + "\x1b[0m"@,
        Tone::Normal => text,
        Tone::Muted => "\x1b[2m"@ + text + "\x1b[0m"@,
        Tone::Good => "\x1b[32m"@ + text + "\x1b[39m"@,
        Tone::Warn => "\x1b[33m"@ + text + "\x1b[39m"@,
        Tone::Bad => "\x1b[31m"@ + text + "\x1b[39m"@,
    }
}

pub fn tone(text: &str, t: Tone) -> (r: String)
    ensures
        r@ == toned(text@, t),
{
    match t {
        Tone::Strong => bold(text),
        Tone::Normal => owned(text),
        Tone::Muted => dimmed(text),
        Tone::Good => green(text),
        Tone::Warn => yellow(text),
        Tone::Bad => red(text),
    }
}

// ---------------------------------------------------------------------------
// Cells
// ---------------------------------------------------------------------------

/// Placeholder written into a cell that has no value.
pub const EMPTY: &'static str = "—";

pub open spec fn empty_mark() -> Seq<char> {
    "—"@
}

/// A cell carries information unless it is blank or the placeholder.
pub open spec fn informative(cell: Seq<char>) -> bool {
    trim(cell).len() > 0 && trim(cell) != empty_mark()
}

pub fn is_informative(cell: &str) -> (r: bool)
    ensures
        r == informative(cell@),
{
    let trimmed = trim_str(cell);
    trimmed.as_str().unicode_len() > 0 && !crate::text::str_eq(trimmed.as_str(), EMPTY)
}

/// Width of text on screen, counted in characters.
pub fn display_width(text: &str) -> (r: usize)
    ensures
        r == text@.len(),
{
    text.unicode_len()
}

pub open spec fn spaces(n: nat) -> Seq<char> {
    Seq::new(n, |i: int| ' ')
}

/// `text` padded with spaces to `width`; never shortened.
pub open spec fn padded(text: Seq<char>, width: nat, align: Align) -> Seq<char> {
    if text.len() >= width {
        text
    } else {
        match align {
            Align::Left => text + spaces((width - text.len()) as nat),
            Align::Right => spaces((width - text.len()) as nat) + text,
        }
    }
}

fn space_string(n: usize) -> (r: String)
    ensures
        r@ == spaces(n as nat),
{
    let mut s = String::new();
    let mut i: usize = 0;
    while i < n
        invariant
            i <= n,
            s@ == spaces(i as nat),
        decreases n - i,
    {
        push_char(&mut s, ' ');
        i = i + 1;
        assert(s@ =~= spaces(i as nat));
    }
    s
}

pub fn pad(text: &str, width: usize, align: Align) -> (r: String)
    ensures
        r@ == padded(text@, width as nat, align),
{
    let len = display_width(text);
    if len >= width {
        return owned(text);
    }
    let padding = space_string(width - len);
    match align {
        Align::Left => {
            let mut s = owned(text);
            push_str(&mut s, padding.as_str());
            s
        },
        Align::Right => {
            let mut s = padding;
            push_str(&mut s, text);
            s
        },
    }
}

/// `text` cut to at most `width` characters, an ellipsis marking the cut.
pub open spec fn truncated(text: Seq<char>, width: nat) -> Seq<char> {
    if text.len() <= width {
        text
    } else if width <= 1 {
        "…"@
    } else {
        text.take(width - 1) + "…"@
    }
}

pub fn truncate(text: &str, width: usize) -> (r: String)
    ensures
        r@ == truncated(text@, width as nat),
{
    if display_width(text) <= width {
        return owned(text);
    }
    if width <= 1 {
        return owned("…");
    }
    let cs = chars_of(text);
    let mut kept: Vec<char> = Vec::new();
    let mut i: usize = 0;
    while i < width - 1
        invariant
            width - 1 < cs@.len(),
            i <= width - 1,
            kept@ == cs@.take(i as int),
        decreases width - 1 - i,
    {
        kept.push(cs[i]);
        i = i + 1;
        assert(kept@ =~= cs@.take(i as int));
    }
    let mut s = string_of(&kept);
    push_str(&mut s, "…");
    s
}

/// A character that breaks a line layout: whitespace or a control character.
pub open spec fn blank(c: char) -> bool {
    is_control_char(c) || is_space(c)
}

/// The non-blank characters of `s`, in order, with a single space wherever
/// one or more blanks separate two of them.
pub open spec fn squeezed(s: Seq<char>) -> Seq<char>
    decreases s.len(),
{
    if s.len() == 0 {
        s
    } else {
        let d = s.drop_last();
        let p = squeezed(d);
        let c = s.last();
        if blank(c) {
            p
        } else if d.len() > 0 && blank(d.last()) && p.len() > 0 {
            p.push(' ').push(c)
        } else {
            p.push(c)
        }
    }
}

/// Collapse a value onto one line: every run of whitespace and control
/// characters becomes one space, and none is left at either end.
pub fn single_line(text: &str) -> (r: String)
    ensures
        r@ == squeezed(text@),
{
    let cs = chars_of(text);
    let mut out: Vec<char> = Vec::new();
    let mut pending = false;
    let mut i: usize = 0;
    while i < cs.len()
        invariant
            i <= cs@.len(),
            cs@ == text@,
            out@ == squeezed(cs@.take(i as int)),
            pending == (i > 0 && blank(cs@[i - 1])),
        decreases cs.len() - i,
    {
        let c = cs[i];
        let is_blank = is_control(c) || is_whitespace(c);
        proof {
            let pre = cs@.take(i as int);
            let pre2 = cs@.take(i + 1);
            assert(pre2.drop_last() =~= pre);
            assert(pre2.last() == c);
            if i > 0 {
                assert(pre.last() == cs@[i - 1]);
            }
        }
        if is_blank {
            pending = true;
        } else {
            if pending && out.len() > 0 {
                out.push(' ');
            }
            out.push(c);
            pending = false;
        }
        i = i + 1;
    }
    assert(cs@.take(cs@.len() as int) =~= cs@);
    string_of(&out)
}

/// Every blank of `r` is a single space between two characters that are
/// not blank.
pub open spec fn one_line(r: Seq<char>) -> bool {
    forall|i: int|
        0 <= i < r.len() && blank(#[trigger] r[i]) ==> r[i] == ' ' && 0 < i && i + 1 < r.len()
            && !blank(r[i - 1]) && !blank(r[i + 1])
}

/// The characters of `s` that are not blank, in order.
pub open spec fn visible(s: Seq<char>) -> Seq<char> {
    s.filter(|c: char| !blank(c))
}

proof fn lemma_visible_push(s: Seq<char>, c: char)
    ensures
        visible(s.push(c)) == (if blank(c) {
            visible(s)
        } else {
            visible(s).push(c)
        }),
{
    reveal(Seq::filter);
    assert(s.push(c).drop_last() =~= s);
}

proof fn lemma_squeezed_shape(s: Seq<char>)
    ensures
        one_line(squeezed(s)),
        squeezed(s).len() > 0 ==> !blank(squeezed(s).last()),
        visible(squeezed(s)) == visible(s),
    decreases s.len(),
{
    assert(blank(' '));
    if s.len() > 0 {
        let d = s.drop_last();
        let p = squeezed(d);
        let c = s.last();
        lemma_squeezed_shape(d);
        assert(d.push(c) =~= s);
        lemma_visible_push(d, c);
        assert(visible(s) == visible(d.push(c)));
        if blank(c) {
            assert(squeezed(s) == p);
        } else if d.len() > 0 && blank(d.last()) && p.len() > 0 {
            let r = p.push(' ').push(c);
            lemma_visible_push(p, ' ');
            lemma_visible_push(p.push(' '), c);
            assert(squeezed(s) == r);
            assert(visible(r) == visible(p).push(c));
            assert forall|i: int| 0 <= i < r.len() && blank(#[trigger] r[i]) implies r[i] == ' ' && 0 < i
                && i + 1 < r.len() && !blank(r[i - 1]) && !blank(r[i + 1]) by {
                if i < p.len() {
                    assert(r[i] == p[i]);
                    if i + 1 < p.len() {
                        assert(r[i + 1] == p[i + 1]);
                    }
                    assert(r[i - 1] == p[i - 1]);
                } else if i == p.len() {
                    assert(r[i - 1] == p.last());
                    assert(r[i + 1] == c);
                }
            }
        } else {
            let r = p.push(c);
            lemma_visible_push(p, c);
            assert(squeezed(s) == r);
            assert forall|i: int| 0 <= i < r.len() && blank(#[trigger] r[i]) implies r[i] == ' ' && 0 < i
                && i + 1 < r.len() && !blank(r[i - 1]) && !blank(r[i + 1]) by {
                if i < p.len() {
                    assert(r[i] == p[i]);
                    if i + 1 < p.len() {
                        assert(r[i + 1] == p[i + 1]);
                    }
                    assert(r[i - 1] == p[i - 1]);
                }
            }
        }
    }
}

/// Flattening leaves a value on one line: no line break, tab or other
/// blank is left but single spaces between visible characters (none at
/// either end), and every visible character is kept, in order.
pub proof fn law_single_line_is_one_clean_line(text: Seq<char>)
    ensures
        one_line(squeezed(text)),
        visible(squeezed(text)) == visible(text),
{
    lemma_squeezed_shape(text);
}

/// Truncation respects the budget (at least one character, the ellipsis),
/// leaves text that fits untouched, and otherwise keeps a prefix.
pub proof fn law_truncation_fits_the_budget(text: Seq<char>, width: nat)
    ensures
        truncated(text, width).len() <= (if width == 0 {
            1
        } else {
            width
        }),
        text.len() <= width ==> truncated(text, width) == text,
        text.len() > width && width >= 1 ==> truncated(text, width).len() == width && truncated(
            text,
            width,
        ).take(width - 1) == text.take(width - 1),
{
    reveal_strlit("…");
    if text.len() > width && width > 1 {
        assert(truncated(text, width).take(width - 1) =~= text.take(width - 1));
    }
    if text.len() > width && width == 1 {
        assert(truncated(text, width).take(0) =~= text.take(0));
    }
}

/// Padding never shortens: the result is as wide as the content or the
/// column, whichever is wider, and holds the content at the aligned end.
pub proof fn law_padding_keeps_the_content(text: Seq<char>, width: nat, align: Align)
    ensures
        padded(text, width, align).len() == (if text.len() >= width {
            text.len()
        } else {
            width
        }),
        align == Align::Left ==> padded(text, width, align).take(text.len() as int) == text,
        align == Align::Right ==> padded(text, width, align).skip(
            padded(text, width, align).len() - text.len(),
        ) == text,
{
    let r = padded(text, width, align);
    if text.len() < width {
        if align == Align::Left {
            assert(r.take(text.len() as int) =~= text);
        } else {
            assert(r.skip(r.len() - text.len()) =~= text);
        }
    } else {
        assert(r.take(text.len() as int) =~= text);
        assert(r.skip(0) =~= text);
    }
}

// ---------------------------------------------------------------------------
// Tables
// ---------------------------------------------------------------------------

pub struct Column {
    pub header: &'static str,
    pub align: Align,
    pub tone: Tone,
    /// Flexible columns are the first to be truncated when the terminal is
    /// narrow.
    pub flexible: bool,
    /// Drop the column entirely when it carries no information for any row.
    pub elidable: bool,
}

/// Shorthand so column definitions stay readable.
pub fn column(header: &'static str, align: Align, tone: Tone, flexible: bool, elidable: bool) -> (r: Column)
    ensures
        r.header == header && r.align == align && r.tone == tone && r.flexible == flexible
            && r.elidable == elidable,
{
    Column { header, align, tone, flexible, elidable }
}

/// Column `c` is printed: it is not elidable, or some row has information
/// in it.
pub open spec fn column_shows(cols: Seq<Column>, cells: Seq<Seq<Seq<char>>>, c: int) -> bool {
    !cols[c].elidable || exists|r: int| 0 <= r < cells.len() && informative(#[trigger] cells[r][c])
}

/// The columns below `n` that are printed, ascending.
pub open spec fn shown_below(cols: Seq<Column>, cells: Seq<Seq<Seq<char>>>, n: nat) -> Seq<usize>
    decreases n,
{
    if n == 0 {
        Seq::empty()
    } else {
        let prev = shown_below(cols, cells, (n - 1) as nat);
        if column_shows(cols, cells, n - 1) {
            prev.push((n - 1) as usize)
        } else {
            prev
        }
    }
}

/// The columns that are printed, ascending.
pub open spec fn shown_columns_of(cols: Seq<Column>, cells: Seq<Seq<Seq<char>>>) -> Seq<usize> {
    shown_below(cols, cells, cols.len())
}

pub struct Table {
    pub columns: Vec<Column>,
    pub rows: Vec<Vec<String>>,
}

impl Table {
    /// Every row has one cell per column.
    pub open spec fn well_formed(&self) -> bool {
        forall|r: int| 0 <= r < self.rows@.len() ==> (#[trigger] self.rows@[r])@.len() == self.columns@.len()
    }

    /// The text of every cell, row by row.
    pub open spec fn cells(&self) -> Seq<Seq<Seq<char>>> {
        self.rows@.map_values(|row: Vec<String>| views(row@))
    }

    pub open spec fn shows(&self, c: int) -> bool {
        column_shows(self.columns@, self.cells(), c)
    }

    pub fn new(columns: Vec<Column>) -> (r: Self)
        ensures
            r.columns@ == columns@,
            r.rows@.len() == 0,
            r.well_formed(),
    {
        Table { columns, rows: Vec::new() }
    }

    pub fn push(&mut self, row: Vec<String>)
        requires
            old(self).well_formed(),
            row@.len() == old(self).columns@.len(),
        ensures
            final(self).well_formed(),
            final(self).columns@ == old(self).columns@,
            final(self).rows@ == old(self).rows@.push(row),
    {
        self.rows.push(row);
        assert forall|r: int| 0 <= r < self.rows@.len() implies (#[trigger] self.rows@[r])@.len()
            == self.columns@.len() by {
            if r < old(self).rows@.len() {
                assert(self.rows@[r] == old(self).rows@[r]);
            }
        }
    }

    pub open spec fn shown_below(&self, n: nat) -> Seq<usize> {
        shown_below(self.columns@, self.cells(), n)
    }

    pub open spec fn shown(&self) -> Seq<usize> {
        shown_columns_of(self.columns@, self.cells())
    }

    /// Indices of the columns worth printing, ascending.
    pub fn visible_columns(&self) -> (r: Vec<usize>)
        requires
            self.well_formed(),
        ensures
            r@ == self.shown(),
    {
        let mut out: Vec<usize> = Vec::new();
        let mut c: usize = 0;
        while c < self.columns.len()
            invariant
                c <= self.columns@.len(),
                self.well_formed(),
                out@ == self.shown_below(c as nat),
            decreases self.columns.len() - c,
        {
            let mut keep = !self.columns[c].elidable;
            let mut r: usize = 0;
            while r < self.rows.len()
                invariant
                    c < self.columns@.len(),
                    r <= self.rows@.len(),
                    self.well_formed(),
                    keep == (!self.columns@[c as int].elidable || exists|q: int|
                        0 <= q < r && informative(#[trigger] self.cells()[q][c as int])),
                decreases self.rows.len() - r,
            {
                assert(self.rows@[r as int]@.len() == self.columns@.len());
                assert(self.cells()[r as int][c as int] == self.rows@[r as int]@[c as int]@);
                if is_informative(self.rows[r][c].as_str()) {
                    keep = true;
                }
                r = r + 1;
            }
            if keep {
                out.push(c);
            }
            c = c + 1;
        }
        out
    }
}

/// What `str::to_uppercase` returns: the full Unicode uppercase mapping.
pub uninterp spec fn unicode_uppercase(s: Seq<char>) -> Seq<char>;

/// `str::to_uppercase`.
#[verifier::external_body]
fn to_uppercase(s: &str) -> (r: String)
    ensures
        r@ == unicode_uppercase(s@),
{
    s.to_uppercase()
}

/// `str::trim_end`.
pub fn trim_end_str(s: &str) -> (r: String)
    ensures
        r@ == trim_end(s@),
{
    let cs = chars_of(s);
    let mut j: usize = cs.len();
    assert(cs@.take(cs@.len() as int) =~= cs@);
    while j > 0 && is_whitespace(cs[j - 1])
        invariant
            j <= cs@.len(),
            cs@ == s@,
            trim_end(s@) == trim_end(cs@.take(j as int)),
        decreases j,
    {
        proof {
            let t = cs@.take(j as int);
            assert(t.last() == cs@[j - 1]);
            assert(t.drop_last() =~= cs@.take(j - 1));
        }
        j = j - 1;
    }
    let mut kept: Vec<char> = Vec::new();
    let mut i: usize = 0;
    while i < j
        invariant
            i <= j <= cs@.len(),
            kept@ == cs@.take(i as int),
        decreases j - i,
    {
        kept.push(cs[i]);
        i = i + 1;
        assert(kept@ =~= cs@.take(i as int));
    }
    proof {
        let t = cs@.take(j as int);
        if j > 0 {
            assert(t.last() == cs@[j - 1]);
        }
        assert(trim_end(t) == t);
    }
    string_of(&kept)
}

pub open spec fn nat_max(a: nat, b: nat) -> nat {
    if a >= b {
        a
    } else {
        b
    }
}

pub open spec fn nat_min(a: nat, b: nat) -> nat {
    if a <= b {
        a
    } else {
        b
    }
}

pub open spec fn sum(ws: Seq<nat>) -> nat
    decreases ws.len(),
{
    if ws.len() == 0 {
        0
    } else {
        sum(ws.drop_last()) + ws.last()
    }
}

/// Gap between columns.
pub open spec fn gap() -> Seq<char> {
    "  "@
}

/// Used when the output is not a terminal at all (pipes, CI logs).
pub const DEFAULT_WIDTH: usize = 120;
/// Below this the table stops being a table, so narrower reports are ignored.
pub const MIN_WIDTH: usize = 40;

/// The width of the terminal to lay out for: `COLUMNS` when it holds a
/// number of at least [`MIN_WIDTH`], else the width the terminal reports when
/// it is at least [`MIN_WIDTH`], else [`DEFAULT_WIDTH`].
pub fn choose_width(columns_env: Option<usize>, reported: Option<usize>) -> (r: usize)
    ensures
        r >= MIN_WIDTH,
        r == (match columns_env {
            Some(w) if w >= MIN_WIDTH => w,
            _ => match reported {
                Some(w) if w >= MIN_WIDTH => w,
                _ => DEFAULT_WIDTH,
            },
        }),
{
    match columns_env {
        Some(w) if w >= MIN_WIDTH => w,
        _ => match reported {
            Some(w) if w >= MIN_WIDTH => w,
            _ => DEFAULT_WIDTH,
        },
    }
}

/// Width of column `c` over the header and the first `n` rows.
pub open spec fn width_upto(cols: Seq<Column>, cells: Seq<Seq<Seq<char>>>, c: int, n: nat) -> nat
    decreases n,
{
    if n == 0 {
        cols[c].header@.len()
    } else {
        nat_max(width_upto(cols, cells, c, (n - 1) as nat), cells[n - 1][c].len())
    }
}

/// The natural widths of the printed columns.
pub open spec fn natural_widths(cols: Seq<Column>, cells: Seq<Seq<Seq<char>>>) -> Seq<nat> {
    shown_columns_of(cols, cells).map_values(|c: usize| width_upto(cols, cells, c as int, cells.len()))
}

/// The printed columns, in order.
pub open spec fn printed_columns(cols: Seq<Column>, cells: Seq<Seq<Seq<char>>>) -> Seq<Column> {
    shown_columns_of(cols, cells).map_values(|c: usize| cols[c as int])
}

/// The widths after flexible columns have given up what the terminal lacks.
pub open spec fn final_widths(cols: Seq<Column>, cells: Seq<Seq<Seq<char>>>, terminal: nat) -> Seq<nat> {
    let ws = natural_widths(cols, cells);
    let total = sum(ws) + 2 * (ws.len() - 1);
    if total > terminal {
        shrink(ws, printed_columns(cols, cells), (total - terminal) as nat)
    } else {
        ws
    }
}

/// The header line: upper-cased headers, padded and aligned, dimmed.
pub open spec fn header_line(cols: Seq<Column>, cells: Seq<Seq<Seq<char>>>, ws: Seq<nat>) -> Seq<char> {
    let pc = printed_columns(cols, cells);
    toned(
        join(
            Seq::new(pc.len(), |k: int| padded(unicode_uppercase(pc[k].header@), ws[k], pc[k].align)),
            gap(),
        ),
        Tone::Muted,
    )
}

/// The line for row `r`: each printed cell truncated, padded, aligned and
/// styled, trailing whitespace removed.
pub open spec fn row_line(cols: Seq<Column>, cells: Seq<Seq<Seq<char>>>, ws: Seq<nat>, r: int) -> Seq<char> {
    let pc = printed_columns(cols, cells);
    let shown = shown_columns_of(cols, cells);
    trim_end(
        join(
            Seq::new(
                pc.len(),
                |k: int| toned(padded(truncated(cells[r][shown[k] as int], ws[k]), ws[k], pc[k].align), pc[k].tone),
            ),
            gap(),
        ),
    )
}

/// The printed table for a terminal `terminal` characters wide: nothing for
/// a table without rows, else the header line and one line per row.
pub open spec fn layout_of(cols: Seq<Column>, cells: Seq<Seq<Seq<char>>>, terminal: nat) -> Seq<Seq<char>> {
    if cells.len() == 0 {
        Seq::empty()
    } else {
        let ws = final_widths(cols, cells, terminal);
        seq![header_line(cols, cells, ws)] + Seq::new(cells.len(), |r: int| row_line(cols, cells, ws, r))
    }
}

impl Table {
    pub open spec fn width_upto(&self, c: int, n: nat) -> nat {
        width_upto(self.columns@, self.cells(), c, n)
    }

    pub open spec fn natural_widths(&self) -> Seq<nat> {
        natural_widths(self.columns@, self.cells())
    }

    pub open spec fn shown_columns(&self) -> Seq<Column> {
        printed_columns(self.columns@, self.cells())
    }

    pub open spec fn final_widths(&self, terminal: nat) -> Seq<nat> {
        final_widths(self.columns@, self.cells(), terminal)
    }

    pub open spec fn header_line(&self, ws: Seq<nat>) -> Seq<char> {
        header_line(self.columns@, self.cells(), ws)
    }

    pub open spec fn row_line(&self, ws: Seq<nat>, r: int) -> Seq<char> {
        row_line(self.columns@, self.cells(), ws, r)
    }

    pub open spec fn layout(&self, terminal: nat) -> Seq<Seq<char>> {
        layout_of(self.columns@, self.cells(), terminal)
    }
}

/// Flexible columns give up width, in order, down to a floor of their
/// header's width or 8, until `overflow` is used up.
pub open spec fn shrink(ws: Seq<nat>, cols: Seq<Column>, overflow: nat) -> Seq<nat>
    decreases ws.len(),
{
    if ws.len() == 0 {
        ws
    } else {
        let c = cols[0];
        let floor = nat_max(c.header@.len(), 8);
        let can_give: nat = if ws[0] >= floor {
            (ws[0] - floor) as nat
        } else {
            0
        };
        let give = if overflow == 0 || !c.flexible {
            0
        } else {
            nat_min(can_give, overflow)
        };
        seq![(ws[0] - give) as nat] + shrink(ws.drop_first(), cols.drop_first(), (overflow - give) as nat)
    }
}

proof fn lemma_shown_below(t: &Table, n: nat)
    requires
        n <= t.columns@.len(),
        n <= usize::MAX,
    ensures
        forall|i: int| 0 <= i < t.shown_below(n).len() ==> (#[trigger] t.shown_below(n)[i]) < n,
        forall|i: int, j: int| 0 <= i < j < t.shown_below(n).len() ==> #[trigger] t.shown_below(n)[i] < #[trigger] t.shown_below(n)[j],
        forall|c: usize| c < n ==> (#[trigger] t.shown_below(n).contains(c) <==> t.shows(c as int)),
        (exists|c: int| 0 <= c < n && !t.columns@[c].elidable) ==> t.shown_below(n).len() > 0,
    decreases n,
{
    if n > 0 {
        let m = (n - 1) as nat;
        lemma_shown_below(t, m);
        let prev = t.shown_below(m);
        let cur = t.shown_below(n);
        let last = m as usize;
        if t.shows(m as int) {
            assert(cur == prev.push(last));
            assert forall|i: int| 0 <= i < cur.len() implies (#[trigger] cur[i]) < n by {
                if i < prev.len() {
                    assert(cur[i] == prev[i]);
                }
            }
            assert forall|i: int, j: int| 0 <= i < j < cur.len() implies #[trigger] cur[i] < #[trigger] cur[j] by {
                assert(cur[i] == prev[i]);
                if j < prev.len() {
                    assert(cur[j] == prev[j]);
                } else {
                    assert(prev[i] < m);
                }
            }
            assert forall|c: usize| c < n implies (#[trigger] cur.contains(c) <==> t.shows(c as int)) by {
                if c < m {
                    if cur.contains(c) {
                        let k = choose|k: int| 0 <= k < cur.len() && cur[k] == c;
                        if k < prev.len() {
                            assert(prev[k] == c);
                            assert(prev.contains(c));
                        } else {
                            assert(cur[k] == last);
                        }
                    }
                    if prev.contains(c) {
                        let k = choose|k: int| 0 <= k < prev.len() && prev[k] == c;
                        assert(cur[k] == c);
                    }
                } else {
                    assert(cur[prev.len() as int] == last);
                }
            }
        } else {
            assert(cur == prev);
            assert forall|c: usize| c < n implies (#[trigger] cur.contains(c) <==> t.shows(c as int)) by {
                if c == m {
                    if prev.contains(c) {
                        let k = choose|k: int| 0 <= k < prev.len() && prev[k] == c;
                    }
                }
            }
        }
        if exists|c: int| 0 <= c < n && !t.columns@[c].elidable {
            let c = choose|c: int| 0 <= c < n && !t.columns@[c].elidable;
            assert(t.shows(c));
            assert(cur.contains(c as usize));
        }
    }
}

proof fn lemma_shrink_len(ws: Seq<nat>, cols: Seq<Column>, overflow: nat)
    ensures
        shrink(ws, cols, overflow).len() == ws.len(),
    decreases ws.len(),
{
    if ws.len() > 0 {
        let c = cols[0];
        let floor = nat_max(c.header@.len(), 8);
        let can_give: nat = if ws[0] >= floor {
            (ws[0] - floor) as nat
        } else {
            0
        };
        let give = if overflow == 0 || !c.flexible {
            0
        } else {
            nat_min(can_give, overflow)
        };
        lemma_shrink_len(ws.drop_first(), cols.drop_first(), (overflow - give) as nat);
    }
}

/// The widest of `cells` and `start`, in characters.
fn column_width(t: &Table, c: usize) -> (r: usize)
    requires
        t.well_formed(),
        c < t.columns@.len(),
    ensures
        r == t.width_upto(c as int, t.rows@.len()),
{
    let mut w = display_width(t.columns[c].header);
    let mut r: usize = 0;
    while r < t.rows.len()
        invariant
            t.well_formed(),
            c < t.columns@.len(),
            r <= t.rows@.len(),
            w == t.width_upto(c as int, r as nat),
        decreases t.rows.len() - r,
    {
        assert(t.rows@[r as int]@.len() == t.columns@.len());
        let cw = display_width(t.rows[r][c].as_str());
        if cw > w {
            w = cw;
        }
        r = r + 1;
    }
    w
}

proof fn lemma_shrink_step(ws: Seq<nat>, cols: Seq<Column>, overflow: nat, k: int)
    requires
        0 <= k < ws.len(),
        cols.len() == ws.len(),
    ensures
        ({
            let c = cols[k];
            let floor = nat_max(c.header@.len(), 8);
            let can_give: nat = if ws[k] >= floor {
                (ws[k] - floor) as nat
            } else {
                0
            };
            let give = if overflow == 0 || !c.flexible {
                0
            } else {
                nat_min(can_give, overflow)
            };
            shrink(ws.skip(k), cols.skip(k), overflow) == seq![(ws[k] - give) as nat] + shrink(
                ws.skip(k + 1),
                cols.skip(k + 1),
                (overflow - give) as nat,
            )
        }),
{
    assert(ws.skip(k).drop_first() =~= ws.skip(k + 1));
    assert(cols.skip(k).drop_first() =~= cols.skip(k + 1));
    assert(ws.skip(k)[0] == ws[k]);
    assert(cols.skip(k)[0] == cols[k]);
}

proof fn lemma_sum_push(ws: Seq<nat>, x: nat)
    ensures
        sum(ws.push(x)) == sum(ws) + x,
{
    assert(ws.push(x).drop_last() =~= ws);
}

/// The joined line of `parts`, `gap()` between them.
fn join_gap(parts: &Vec<String>) -> (r: String)
    ensures
        r@ == join(views(parts@), gap()),
{
    join_strings(parts, "  ")
}

impl Table {
    /// Lay the table out for a terminal `terminal` characters wide.
    pub fn render(&self, terminal: usize) -> (r: Vec<String>)
        requires
            self.well_formed(),
            self.rows@.len() > 0 ==> exists|c: int| 0 <= c < self.columns@.len() && !self.columns@[c].elidable,
        ensures
            views(r@) == self.layout(terminal as nat),
    {
        if self.rows.len() == 0 {
            let r: Vec<String> = Vec::new();
            assert(views(r@) =~= self.layout(terminal as nat));
            return r;
        }
        let visible = self.visible_columns();
        let ncols = self.columns.len();
        proof {
            lemma_shown_below(self, ncols as nat);
        }
        assert forall|i: int| 0 <= i < visible@.len() implies (#[trigger] visible@[i]) < self.columns@.len() by {}
        let n = visible.len();
        // natural widths
        let mut widths: Vec<usize> = Vec::new();
        let mut total: u128 = 0;
        let mut k: usize = 0;
        while k < n
            invariant
                self.well_formed(),
                visible@ == self.shown(),
                n == visible@.len(),
                k <= n,
                forall|i: int| 0 <= i < n ==> (#[trigger] visible@[i]) < self.columns@.len(),
                widths@.len() == k,
                forall|i: int| 0 <= i < k ==> (#[trigger] widths@[i]) as nat == self.natural_widths()[i],
                total == sum(self.natural_widths().take(k as int)),
                total <= k * 0xFFFF_FFFF_FFFF_FFFF,
            decreases n - k,
        {
            let w = column_width(self, visible[k]);
            widths.push(w);
            proof {
                let nw = self.natural_widths();
                assert(nw[k as int] == w as nat);
                assert(nw.take(k + 1) =~= nw.take(k as int).push(w as nat));
                lemma_sum_push(nw.take(k as int), w as nat);
                assert((w as u128) <= 0xFFFF_FFFF_FFFF_FFFF);
                assert(total + w <= (k + 1) * 0xFFFF_FFFF_FFFF_FFFF) by (nonlinear_arith)
                    requires
                        total <= k * 0xFFFF_FFFF_FFFF_FFFF,
                        w <= 0xFFFF_FFFF_FFFF_FFFF,
                ;
            }
            total = total + w as u128;
            k = k + 1;
        }
        let ghost nw = self.natural_widths();
        let ghost cols = self.shown_columns();
        proof {
            assert(nw.take(n as int) =~= nw);
            assert(n > 0);
            assert((n as u128) <= 0xFFFF_FFFF_FFFF_FFFF);
            assert(total <= 0xFFFF_FFFF_FFFF_FFFF * 0xFFFF_FFFF_FFFF_FFFF) by (nonlinear_arith)
                requires
                    total <= n * 0xFFFF_FFFF_FFFF_FFFF,
                    n <= 0xFFFF_FFFF_FFFF_FFFF,
            ;
        }
        let full: u128 = total + 2 * ((n - 1) as u128);
        let ghost fw = self.final_widths(terminal as nat);
        if full > terminal as u128 {
            let mut overflow: u128 = full - terminal as u128;
            let mut i: usize = 0;
            proof {
                lemma_shrink_len(nw, cols, (full - terminal) as nat);
                assert(nw.skip(0) =~= nw);
                assert(cols.skip(0) =~= cols);
            }
            while i < n
                invariant
                    self.well_formed(),
                    visible@ == self.shown(),
                    n == visible@.len(),
                    nw == self.natural_widths(),
                    cols == self.shown_columns(),
                    fw == self.final_widths(terminal as nat),
                    fw == shrink(nw, cols, (full - terminal) as nat),
                    fw.len() == n,
                    forall|q: int| 0 <= q < n ==> (#[trigger] visible@[q]) < self.columns@.len(),
                    i <= n,
                    widths@.len() == n,
                    forall|q: int| 0 <= q < i ==> (#[trigger] widths@[q]) as nat == fw[q],
                    forall|q: int| i <= q < n ==> (#[trigger] widths@[q]) as nat == nw[q],
                    fw.skip(i as int) == shrink(nw.skip(i as int), cols.skip(i as int), overflow as nat),
                decreases n - i,
            {
                let col = &self.columns[visible[i]];
                let hw = display_width(col.header);
                let floor = if hw > 8 {
                    hw
                } else {
                    8
                };
                let can_give = if widths[i] >= floor {
                    widths[i] - floor
                } else {
                    0
                };
                let give: usize = if overflow == 0 || !col.flexible {
                    0
                } else if (can_give as u128) < overflow {
                    can_give
                } else {
                    overflow as usize
                };
                proof {
                    lemma_shrink_step(nw, cols, overflow as nat, i as int);
                    assert(cols[i as int] == self.columns@[visible@[i as int] as int]);
                    let rest = fw.skip(i as int);
                    assert(rest[0] == fw[i as int]);
                    assert(rest.drop_first() =~= fw.skip(i + 1));
                }
                let w = widths[i] - give;
                widths.set(i, w);
                overflow = overflow - give as u128;
                i = i + 1;
            }
        } else {
            assert(fw == nw);
        }
        proof {
            assert forall|q: int| 0 <= q < n implies (#[trigger] widths@[q]) as nat == fw[q] by {}
        }
        // header
        let mut heads: Vec<String> = Vec::new();
        let mut k: usize = 0;
        while k < n
            invariant
                self.well_formed(),
                visible@ == self.shown(),
                cols == self.shown_columns(),
                n == visible@.len(),
                widths@.len() == n,
                forall|q: int| 0 <= q < n ==> (#[trigger] widths@[q]) as nat == fw[q],
                forall|i: int| 0 <= i < n ==> (#[trigger] visible@[i]) < self.columns@.len(),
                k <= n,
                heads@.len() == k,
                forall|q: int| 0 <= q < k ==> (#[trigger] heads@[q])@ == padded(unicode_uppercase(cols[q].header@), fw[q], cols[q].align),
            decreases n - k,
        {
            let col = &self.columns[visible[k]];
            let upper = to_uppercase(col.header);
            heads.push(pad(upper.as_str(), widths[k], col.align));
            k = k + 1;
        }
        let header = join_gap(&heads);
        let mut lines: Vec<String> = Vec::new();
        lines.push(tone(header.as_str(), Tone::Muted));
        proof {
            assert(views(heads@) =~= Seq::new(
                cols.len(),
                |k: int| padded(unicode_uppercase(cols[k].header@), fw[k], cols[k].align),
            ));
        }
        let mut r: usize = 0;
        while r < self.rows.len()
            invariant
                self.well_formed(),
                visible@ == self.shown(),
                cols == self.shown_columns(),
                fw == self.final_widths(terminal as nat),
                n == visible@.len(),
                widths@.len() == n,
                forall|q: int| 0 <= q < n ==> (#[trigger] widths@[q]) as nat == fw[q],
                forall|i: int| 0 <= i < n ==> (#[trigger] visible@[i]) < self.columns@.len(),
                r <= self.rows@.len(),
                lines@.len() == r + 1,
                lines@[0]@ == self.header_line(fw),
                forall|q: int| 0 <= q < r ==> (#[trigger] lines@[q + 1])@ == self.row_line(fw, q),
            decreases self.rows.len() - r,
        {
            let mut cells: Vec<String> = Vec::new();
            let mut k: usize = 0;
            while k < n
                invariant
                    self.well_formed(),
                    visible@ == self.shown(),
                    cols == self.shown_columns(),
                    n == visible@.len(),
                    widths@.len() == n,
                    forall|q: int| 0 <= q < n ==> (#[trigger] widths@[q]) as nat == fw[q],
                    forall|i: int| 0 <= i < n ==> (#[trigger] visible@[i]) < self.columns@.len(),
                    r < self.rows@.len(),
                    k <= n,
                    cells@.len() == k,
                    forall|q: int| 0 <= q < k ==> (#[trigger] cells@[q])@ == toned(
                        padded(truncated(self.cells()[r as int][visible@[q] as int], fw[q]), fw[q], cols[q].align),
                        cols[q].tone,
                    ),
                decreases n - k,
            {
                let col = &self.columns[visible[k]];
                assert(self.rows@[r as int]@.len() == self.columns@.len());
                assert(self.cells()[r as int][visible@[k as int] as int] == self.rows@[r as int]@[visible@[k as int] as int]@);
                let text = truncate(self.rows[r][visible[k]].as_str(), widths[k]);
                let padded_text = pad(text.as_str(), widths[k], col.align);
                cells.push(tone(padded_text.as_str(), col.tone));
                k = k + 1;
            }
            let joined = join_gap(&cells);
            let line = trim_end_str(joined.as_str());
            proof {
                assert(views(cells@) =~= Seq::new(
                    cols.len(),
                    |k: int|
                        toned(
                            padded(truncated(self.cells()[r as int][visible@[k] as int], fw[k]), fw[k], cols[k].align),
                            cols[k].tone,
                        ),
                ));
            }
            lines.push(line);
            r = r + 1;
        }
        proof {
            let lay = self.layout(terminal as nat);
            assert(lay.len() == lines@.len());
            assert forall|i: int| 0 <= i < lay.len() implies views(lines@)[i] == lay[i] by {
                if i > 0 {
                    assert(lines@[(i - 1) + 1]@ == self.row_line(fw, i - 1));
                }
            }
        }
        assert(views(lines@) =~= self.layout(terminal as nat));
        lines
    }
}

// ---------------------------------------------------------------------------
// The port listing
// ---------------------------------------------------------------------------

pub open spec fn col(header: &'static str, align: Align, tone: Tone, flexible: bool, elidable: bool) -> Column {
    Column { header, align, tone, flexible, elidable }
}

/// The columns of the one-row-per-port view.
pub open spec fn group_columns(wide: bool) -> Seq<Column> {
    let base = seq![
        col("port", Align::Right, Tone::Strong, false, false),
        col("proto", Align::Left, Tone::Muted, false, false),
        col("process", Align::Left, Tone::Normal, true, false),
        col("pid", Align::Right, Tone::Muted, false, true),
        col("memory", Align::Right, Tone::Muted, false, true),
        col("conns", Align::Right, Tone::Muted, false, true),
        col("service", Align::Left, Tone::Muted, true, true),
    ];
    if wide {
        base.push(col("command", Align::Left, Tone::Muted, true, true))
    } else {
        base
    }
}

pub open spec fn first_process(g: PortGroupView) -> Option<ProcessInfoView> {
    if g.processes.len() > 0 {
        Some(g.processes[0])
    } else {
        None
    }
}

/// What the service column says: the port's convention when there is one,
/// else what the first process actually is.
pub open spec fn service_cell(g: PortGroupView) -> Seq<char> {
    match g.service {
        Some(s) => s@,
        None => match first_process(g) {
            Some(p) => match p.description {
                Some(d) => d@,
                None => ""@,
            },
            None => ""@,
        },
    }
}

/// The command column: the first process's command line, else its
/// executable path, on one line.
pub open spec fn command_cell(g: PortGroupView) -> Seq<char> {
    match first_process(g) {
        Some(p) => match p.command {
            Some(c) => squeezed(c),
            None => match p.exe {
                Some(x) => squeezed(x),
                None => ""@,
            },
        },
        None => ""@,
    }
}

pub open spec fn group_row(g: PortGroupView, wide: bool) -> Seq<Seq<char>> {
    let base = seq![
        decimal(g.port as nat),
        protocol_name(g.protocol),
        group_label(g),
        match primary_pid_of(g) {
            Some(pid) => decimal(pid as nat),
            None => empty_mark(),
        },
        match first_process(g) {
            Some(p) => match p.memory_bytes {
                Some(m) => size_text(m as nat),
                None => empty_mark(),
            },
            None => empty_mark(),
        },
        if g.connections > 0 {
            decimal(g.connections)
        } else {
            empty_mark()
        },
        service_cell(g),
    ];
    if wide {
        base.push(command_cell(g))
    } else {
        base
    }
}

pub open spec fn group_cells(gs: Seq<PortGroupView>, wide: bool) -> Seq<Seq<Seq<char>>> {
    gs.map_values(|g: PortGroupView| group_row(g, wide))
}

fn group_table_columns(wide: bool) -> (r: Vec<Column>)
    ensures
        r@ == group_columns(wide),
{
    let mut columns = vec![
        column("port", Align::Right, Tone::Strong, false, false),
        column("proto", Align::Left, Tone::Muted, false, false),
        column("process", Align::Left, Tone::Normal, true, false),
        column("pid", Align::Right, Tone::Muted, false, true),
        column("memory", Align::Right, Tone::Muted, false, true),
        column("conns", Align::Right, Tone::Muted, false, true),
        column("service", Align::Left, Tone::Muted, true, true),
    ];
    if wide {
        columns.push(column("command", Align::Left, Tone::Muted, true, true));
    }
    assert(columns@ =~= group_columns(wide));
    columns
}

fn group_row_cells(g: &PortGroup, wide: bool) -> (r: Vec<String>)
    ensures
        views(r@) == group_row(g@, wide),
{
    let process = if g.processes.len() > 0 {
        Some(&g.processes[0])
    } else {
        None
    };
    let pid = match g.primary_pid() {
        Some(pid) => decimal_string(pid as u128),
        None => owned(EMPTY),
    };
    let memory = match process {
        Some(p) => match p.memory_bytes {
            Some(m) => format_bytes(m),
            None => owned(EMPTY),
        },
        None => owned(EMPTY),
    };
    let conns = if g.connections > 0 {
        decimal_string(g.connections as u128)
    } else {
        owned(EMPTY)
    };
    let service = match g.service {
        Some(s) => owned(s),
        None => match process {
            Some(p) => match p.description {
                Some(d) => owned(d),
                None => owned(""),
            },
            None => owned(""),
        },
    };
    let mut row = vec![
        decimal_string(g.port as u128),
        owned(g.protocol.as_str()),
        g.process_label(),
        pid,
        memory,
        conns,
        service,
    ];
    if wide {
        let command = match process {
            Some(p) => match &p.command {
                Some(c) => single_line(c.as_str()),
                None => match &p.exe {
                    Some(x) => single_line(x.as_str()),
                    None => owned(""),
                },
            },
            None => owned(""),
        };
        row.push(command);
    }
    proof {
        if g.processes@.len() > 0 {
            assert(first_process(g@) == Some(g.processes@[0]@));
        }
    }
    assert(views(row@) =~= group_row(g@, wide));
    row
}

/// Lays out one row per port, the default view, for a terminal `terminal`
/// characters wide; returns the lines to print.
pub fn print_groups(groups: &[PortGroup], wide: bool, terminal: usize) -> (r: Vec<String>)
    ensures
        views(r@) == layout_of(group_columns(wide), group_cells(group_views(groups@), wide), terminal as nat),
{
    let mut table = Table::new(group_table_columns(wide));
    let mut i: usize = 0;
    while i < groups.len()
        invariant
            i <= groups@.len(),
            table.well_formed(),
            table.columns@ == group_columns(wide),
            table.cells() == group_cells(group_views(groups@.subrange(0, i as int)), wide),
        decreases groups.len() - i,
    {
        let row = group_row_cells(&groups[i], wide);
        assert(views(row@).len() == row@.len());
        assert(group_row(groups@[i as int]@, wide).len() == group_columns(wide).len());
        let ghost before = table.cells();
        table.push(row);
        i = i + 1;
        proof {
            assert(table.cells() =~= before.push(views(row@)));
            assert(group_cells(group_views(groups@.subrange(0, i as int)), wide) =~= group_cells(
                group_views(groups@.subrange(0, i - 1)),
                wide,
            ).push(group_row(groups@[i - 1]@, wide)));
        }
    }
    assert(groups@.subrange(0, groups@.len() as int) =~= groups@);
    assert(!table.columns@[0].elidable);
    table.render(terminal)
}

/// The columns of the one-row-per-socket view.
pub open spec fn entry_columns(wide: bool) -> Seq<Column> {
    let base = seq![
        col("port", Align::Right, Tone::Strong, false, false),
        col("proto", Align::Left, Tone::Muted, false, false),
        col("state", Align::Left, Tone::Normal, false, false),
        col("process", Align::Left, Tone::Normal, true, false),
        col("pid", Align::Right, Tone::Muted, false, true),
        col("local address", Align::Left, Tone::Muted, true, false),
    ];
    if wide {
        base.push(col("remote", Align::Left, Tone::Muted, true, true))
    } else {
        base
    }
}

pub open spec fn entry_row(e: PortEntryView, wide: bool) -> Seq<Seq<char>> {
    let base = seq![
        decimal(e.port as nat),
        protocol_name(e.protocol),
        state_name(e.state),
        owner_label(e),
        match e.pid {
            Some(pid) => decimal(pid as nat),
            None => empty_mark(),
        },
        e.local_address,
    ];
    if wide {
        base.push(
            match e.remote_address {
                Some(a) => a,
                None => ""@,
            },
        )
    } else {
        base
    }
}

pub open spec fn entry_cells(es: Seq<PortEntryView>, wide: bool) -> Seq<Seq<Seq<char>>> {
    es.map_values(|e: PortEntryView| entry_row(e, wide))
}

fn entry_table_columns(wide: bool) -> (r: Vec<Column>)
    ensures
        r@ == entry_columns(wide),
{
    let mut columns = vec![
        column("port", Align::Right, Tone::Strong, false, false),
        column("proto", Align::Left, Tone::Muted, false, false),
        column("state", Align::Left, Tone::Normal, false, false),
        column("process", Align::Left, Tone::Normal, true, false),
        column("pid", Align::Right, Tone::Muted, false, true),
        column("local address", Align::Left, Tone::Muted, true, false),
    ];
    if wide {
        columns.push(column("remote", Align::Left, Tone::Muted, true, true));
    }
    assert(columns@ =~= entry_columns(wide));
    columns
}

fn entry_row_cells(e: &PortEntry, wide: bool) -> (r: Vec<String>)
    ensures
        views(r@) == entry_row(e@, wide),
{
    let pid = match e.pid {
        Some(pid) => decimal_string(pid as u128),
        None => owned(EMPTY),
    };
    let mut row = vec![
        decimal_string(e.port as u128),
        owned(e.protocol.as_str()),
        owned(e.state.as_str()),
        owned(e.process_name()),
        pid,
        e.local_address.clone(),
    ];
    if wide {
        row.push(
            match &e.remote_address {
                Some(a) => a.clone(),
                None => owned(""),
            },
        );
    }
    assert(views(row@) =~= entry_row(e@, wide));
    row
}

/// Lays out one row per socket (`--raw`) for a terminal `terminal`
/// characters wide; returns the lines to print.
pub fn print_entries(entries: &[PortEntry], wide: bool, terminal: usize) -> (r: Vec<String>)
    ensures
        views(r@) == layout_of(entry_columns(wide), entry_cells(entry_views(entries@), wide), terminal as nat),
{
    let mut table = Table::new(entry_table_columns(wide));
    let mut i: usize = 0;
    while i < entries.len()
        invariant
            i <= entries@.len(),
            table.well_formed(),
            table.columns@ == entry_columns(wide),
            table.cells() == entry_cells(entry_views(entries@.subrange(0, i as int)), wide),
        decreases entries.len() - i,
    {
        let row = entry_row_cells(&entries[i], wide);
        assert(views(row@).len() == row@.len());
        assert(entry_row(entries@[i as int]@, wide).len() == entry_columns(wide).len());
        let ghost before = table.cells();
        table.push(row);
        i = i + 1;
        proof {
            assert(table.cells() =~= before.push(views(row@)));
            assert(entry_cells(entry_views(entries@.subrange(0, i as int)), wide) =~= entry_cells(
                entry_views(entries@.subrange(0, i - 1)),
                wide,
            ).push(entry_row(entries@[i - 1]@, wide)));
        }
    }
    assert(entries@.subrange(0, entries@.len() as int) =~= entries@);
    assert(!table.columns@[0].elidable);
    table.render(terminal)
}

// ---------------------------------------------------------------------------
// Footers, prompts and reports
// ---------------------------------------------------------------------------

/// The footer: an empty line, the count and the time taken, and a warning
/// when sockets are hidden from a process that is not elevated.
pub open spec fn summary_text(port_count: nat, hidden: nat, elapsed_ms: nat, elevated: bool, platform: Platform) -> Seq<Seq<char>> {
    let counts = decimal(port_count) + " "@ + (if port_count == 1 {
        "port"@
    } else {
        "ports"@
    }) + "  ·  "@ + decimal(elapsed_ms) + " ms"@;
    let base = seq![""@, toned(counts, Tone::Muted)];
    if hidden > 0 && !elevated {
        base.push(
            toned(
                decimal(hidden) + " socket(s) owned by another user — "@ + elevation_text(platform)
                    + " to see them"@,
                Tone::Warn,
            ),
        )
    } else {
        base
    }
}

/// The footer lines under a listing.
pub fn print_summary(port_count: usize, hidden: usize, elapsed_ms: u128, elevated: bool, platform: Platform) -> (r: Vec<String>)
    ensures
        views(r@) == summary_text(port_count as nat, hidden as nat, elapsed_ms as nat, elevated, platform),
{
    let mut counts = decimal_string(port_count as u128);
    push_str(&mut counts, if port_count == 1 {
        " port"
    } else {
        " ports"
    });
    push_str(&mut counts, "  ·  ");
    push_decimal(&mut counts, elapsed_ms);
    push_str(&mut counts, " ms");
    let ghost want = decimal(port_count as nat) + " "@ + (if port_count == 1 {
        "port"@
    } else {
        "ports"@
    }) + "  ·  "@ + decimal(elapsed_ms as nat) + " ms"@;
    proof {
        reveal_strlit(" port");
        reveal_strlit(" ports");
        reveal_strlit("port");
        reveal_strlit("ports");
        reveal_strlit(" ");
    }
    assert(counts@ =~= want);
    let mut lines = vec![owned(""), tone(counts.as_str(), Tone::Muted)];
    if hidden > 0 && !elevated {
        let mut w = decimal_string(hidden as u128);
        push_str(&mut w, " socket(s) owned by another user — ");
        push_str(&mut w, elevation_hint(platform));
        push_str(&mut w, " to see them");
        lines.push(tone(w.as_str(), Tone::Warn));
    }
    assert(views(lines@) =~= summary_text(port_count as nat, hidden as nat, elapsed_ms as nat, elevated, platform));
    lines
}

pub open spec fn empty_text(scope: Seq<char>) -> Seq<char> {
    toned("No "@ + scope + " found."@, Tone::Muted)
}

/// The line shown when nothing matched.
pub fn print_empty(scope: &str) -> (r: String)
    ensures
        r@ == empty_text(scope@),
{
    let mut s = owned("No ");
    push_str(&mut s, scope);
    push_str(&mut s, " found.");
    tone(s.as_str(), Tone::Muted)
}

/// The warning about the other ports a process holds, before killing it.
pub open spec fn collateral_text(ports: Seq<u16>) -> Seq<char> {
    let listed = port_list(preview(ports));
    if ports.len() > 6 {
        "⚠ this process also holds "@ + decimal(ports.len()) + " other ports ("@ + listed
            + ", …) — killing it drops all of them"@
    } else if ports.len() == 1 {
        "⚠ this process also holds port "@ + listed + ", which goes down with it"@
    } else {
        "⚠ this process also holds ports "@ + listed + " — all of them go down with it"@
    }
}

fn preview_of(ports: &[u16]) -> (r: Vec<u16>)
    ensures
        r@ == preview(ports@),
{
    let shown = if ports.len() > 6 {
        6
    } else {
        ports.len()
    };
    let mut first: Vec<u16> = Vec::new();
    let mut i: usize = 0;
    while i < shown
        invariant
            shown <= ports@.len(),
            shown == (if ports@.len() > 6 { 6 } else { ports@.len() }),
            i <= shown,
            first@ == ports@.subrange(0, i as int),
        decreases shown - i,
    {
        first.push(ports[i]);
        i = i + 1;
        assert(first@ =~= ports@.subrange(0, i as int));
    }
    assert(first@ =~= preview(ports@));
    first
}

pub fn collateral_line(ports: &[u16]) -> (r: String)
    ensures
        r@ == collateral_text(ports@),
{
    let first = preview_of(ports);
    let listed = port_list_text(first.as_slice());
    let mut s = String::new();
    if ports.len() > 6 {
        push_str(&mut s, "⚠ this process also holds ");
        push_decimal(&mut s, ports.len() as u128);
        push_str(&mut s, " other ports (");
        push_str(&mut s, listed.as_str());
        push_str(&mut s, ", …) — killing it drops all of them");
    } else if ports.len() == 1 {
        push_str(&mut s, "⚠ this process also holds port ");
        push_str(&mut s, listed.as_str());
        push_str(&mut s, ", which goes down with it");
    } else {
        push_str(&mut s, "⚠ this process also holds ports ");
        push_str(&mut s, listed.as_str());
        push_str(&mut s, " — all of them go down with it");
    }
    assert(s@ =~= collateral_text(ports@));
    s
}

/// The first collateral entry for `port`, if any.
pub open spec fn collateral_for(collateral: Seq<(u16, Vec<u16>)>, port: u16) -> Option<Seq<u16>>
    decreases collateral.len(),
{
    if collateral.len() == 0 {
        None
    } else if collateral[0].0 == port {
        Some(collateral[0].1@)
    } else {
        collateral_for(collateral.drop_first(), port)
    }
}

/// The lines about one port in the kill plan.
pub open spec fn plan_entry_text(port: u16, g: PortGroupView, collateral: Seq<(u16, Vec<u16>)>) -> Seq<Seq<char>> {
    let pid = match primary_pid_of(g) {
        Some(p) => decimal(p as nat),
        None => "?"@,
    };
    let head = "  "@ + toned("port "@ + decimal(port as nat), Tone::Strong) + " "@ + toned(
        protocol_name(g.protocol),
        Tone::Muted,
    ) + "  "@ + group_label(g) + "  "@ + toned("(PID "@ + pid + ")"@, Tone::Muted);
    let with_command = match first_process(g) {
        Some(p) => match p.command {
            Some(c) => seq![head, "      "@ + toned(truncated(squeezed(c), 96), Tone::Muted)],
            None => seq![head],
        },
        None => seq![head],
    };
    match collateral_for(collateral, port) {
        Some(others) => if others.len() > 0 {
            with_command.push("      "@ + toned(collateral_text(others), Tone::Warn))
        } else {
            with_command
        },
        None => with_command,
    }
}

pub open spec fn plan_lines_from(targets: Seq<(u16, PortGroup)>, collateral: Seq<(u16, Vec<u16>)>) -> Seq<Seq<char>>
    decreases targets.len(),
{
    if targets.len() == 0 {
        Seq::empty()
    } else {
        plan_lines_from(targets.drop_last(), collateral) + plan_entry_text(
            targets.last().0,
            targets.last().1@,
            collateral,
        )
    }
}

pub open spec fn kill_plan_text(targets: Seq<(u16, PortGroup)>, collateral: Seq<(u16, Vec<u16>)>) -> Seq<Seq<char>> {
    seq![toned("About to terminate:"@, Tone::Strong)] + plan_lines_from(targets, collateral)
}

fn find_collateral(collateral: &[(u16, Vec<u16>)], port: u16) -> (r: Option<&Vec<u16>>)
    ensures
        match r {
            Some(v) => collateral_for(collateral@, port) == Some(v@),
            None => collateral_for(collateral@, port).is_none(),
        },
{
    let mut i: usize = 0;
    assert(collateral@.skip(0) =~= collateral@);
    while i < collateral.len()
        invariant
            i <= collateral@.len(),
            collateral_for(collateral@, port) == collateral_for(collateral@.skip(i as int), port),
        decreases collateral.len() - i,
    {
        let ghost rest = collateral@.skip(i as int);
        assert(rest[0] == collateral@[i as int]);
        assert(rest.drop_first() =~= collateral@.skip(i + 1));
        if collateral[i].0 == port {
            return Some(&collateral[i].1);
        }
        i = i + 1;
    }
    None
}

fn plan_entry_lines(port: u16, group: &PortGroup, collateral: &[(u16, Vec<u16>)]) -> (r: Vec<String>)
    ensures
        views(r@) == plan_entry_text(port, group@, collateral@),
{
    let pid = match group.primary_pid() {
        Some(p) => decimal_string(p as u128),
        None => owned("?"),
    };
    let mut head = owned("  ");
    let mut port_text = owned("port ");
    push_decimal(&mut port_text, port as u128);
    push_str(&mut head, tone(port_text.as_str(), Tone::Strong).as_str());
    push_str(&mut head, " ");
    push_str(&mut head, tone(group.protocol.as_str(), Tone::Muted).as_str());
    push_str(&mut head, "  ");
    push_str(&mut head, group.process_label().as_str());
    push_str(&mut head, "  ");
    let mut pid_text = owned("(PID ");
    push_str(&mut pid_text, pid.as_str());
    push_str(&mut pid_text, ")");
    push_str(&mut head, tone(pid_text.as_str(), Tone::Muted).as_str());
    let mut lines = vec![head];
    if group.processes.len() > 0 {
        match &group.processes[0].command {
            Some(c) => {
                let flat = single_line(c.as_str());
                let cut = truncate(flat.as_str(), 96);
                lines.push(concat("      ", tone(cut.as_str(), Tone::Muted).as_str()));
            },
            None => {},
        }
    }
    let ghost with_command = views(lines@);
    proof {
        if group.processes@.len() > 0 {
            assert(first_process(group@) == Some(group.processes@[0]@));
        }
    }
    match find_collateral(collateral, port) {
        Some(others) => {
            if others.len() > 0 {
                let w = collateral_line(others.as_slice());
                lines.push(concat("      ", tone(w.as_str(), Tone::Warn).as_str()));
            }
        },
        None => {},
    }
    assert(views(lines@) =~= plan_entry_text(port, group@, collateral@));
    lines
}

/// What is about to be killed, shown before the confirmation prompt, with
/// the other ports each process also holds.
pub fn print_kill_plan(targets: &[(u16, PortGroup)], collateral: &[(u16, Vec<u16>)]) -> (r: Vec<String>)
    ensures
        views(r@) == kill_plan_text(targets@, collateral@),
{
    let mut lines = vec![tone("About to terminate:", Tone::Strong)];
    let mut i: usize = 0;
    while i < targets.len()
        invariant
            i <= targets@.len(),
            views(lines@) == kill_plan_text(targets@.subrange(0, i as int), collateral@),
        decreases targets.len() - i,
    {
        let mut more = plan_entry_lines(targets[i].0, &targets[i].1, collateral);
        let ghost before = lines@;
        let ghost added = more@;
        lines.append(&mut more);
        proof {
            assert(views(lines@) =~= views(before) + views(added));
            let pre2 = targets@.subrange(0, i + 1);
            assert(pre2.drop_last() =~= targets@.subrange(0, i as int));
            assert(pre2.last() == targets@[i as int]);
            assert(views(lines@) =~= kill_plan_text(pre2, collateral@));
        }
        i = i + 1;
    }
    assert(targets@.subrange(0, targets@.len() as int) =~= targets@);
    lines
}

pub open spec fn status_mark(s: KillStatus) -> (Seq<char>, Tone) {
    match s {
        KillStatus::Killed | KillStatus::Escalated => ("✔"@, Tone::Good),
        KillStatus::NotFound => ("·"@, Tone::Muted),
        KillStatus::PermissionDenied | KillStatus::Survived => ("✖"@, Tone::Bad),
        KillStatus::Refused => ("!"@, Tone::Warn),
    }
}

/// The report of one kill: a mark and the detail, and for a success the
/// ports that went down with the process.
pub open spec fn outcome_text(o: KillOutcome) -> Seq<Seq<char>> {
    let (mark, t) = status_mark(o.status);
    let first = toned(mark, t) + " "@ + o.detail@;
    if success(o.status) {
        match collateral_note(o.process_name@, o.collateral_ports@) {
            Some(w) => seq![first, "  "@ + toned(w, Tone::Warn)],
            None => seq![first],
        }
    } else {
        seq![first]
    }
}

pub fn print_kill_outcome(outcome: &KillOutcome) -> (r: Vec<String>)
    ensures
        views(r@) == outcome_text(*outcome),
{
    let (mark, t) = match outcome.status {
        KillStatus::Killed | KillStatus::Escalated => ("✔", Tone::Good),
        KillStatus::NotFound => ("·", Tone::Muted),
        KillStatus::PermissionDenied | KillStatus::Survived => ("✖", Tone::Bad),
        KillStatus::Refused => ("!", Tone::Warn),
    };
    let mut first = tone(mark, t);
    push_str(&mut first, " ");
    push_str(&mut first, outcome.detail.as_str());
    let mut lines = vec![first];
    if outcome.status.is_success() {
        match outcome.collateral_warning() {
            Some(w) => {
                lines.push(concat("  ", tone(w.as_str(), Tone::Warn).as_str()));
            },
            None => {},
        }
    }
    assert(views(lines@) =~= outcome_text(*outcome));
    lines
}

pub open spec fn privileges_text(elevated: bool, platform: Platform) -> Seq<char> {
    if elevated {
        "elevated — every process is visible and killable"@
    } else {
        "standard user — "@ + elevation_text(platform) + " to reach other users' processes"@
    }
}

/// `portify info`: one aligned line per fact.
pub open spec fn info_text(s: SystemSummary, platform: Platform) -> Seq<Seq<char>> {
    let row = |k: Seq<char>, v: Seq<char>| toned(padded(k, 10, Align::Left), Tone::Muted) + "  "@ + v;
    seq![
        row("portify"@, s.portify_version@),
        row("os"@, trim(s.os@ + " "@ + s.os_version@)),
        row("kernel"@, s.kernel_version@),
        row("arch"@, s.arch@),
        row("host"@, s.hostname@),
        row("privileges"@, privileges_text(s.elevated, platform)),
    ]
}

fn info_row(key: &str, value: &str) -> (r: String)
    ensures
        r@ == toned(padded(key@, 10, Align::Left), Tone::Muted) + "  "@ + value@,
{
    let mut s = tone(pad(key, 10, Align::Left).as_str(), Tone::Muted);
    push_str(&mut s, "  ");
    push_str(&mut s, value);
    s
}

pub fn print_info(summary: &SystemSummary, platform: Platform) -> (r: Vec<String>)
    ensures
        views(r@) == info_text(*summary, platform),
{
    let mut os = summary.os.clone();
    push_str(&mut os, " ");
    push_str(&mut os, summary.os_version.as_str());
    let os = trim_str(os.as_str());
    let privileges = if summary.elevated {
        owned("elevated — every process is visible and killable")
    } else {
        let mut p = owned("standard user — ");
        push_str(&mut p, elevation_hint(platform));
        push_str(&mut p, " to reach other users' processes");
        p
    };
    let lines = vec![
        info_row("portify", summary.portify_version.as_str()),
        info_row("os", os.as_str()),
        info_row("kernel", summary.kernel_version.as_str()),
        info_row("arch", summary.arch.as_str()),
        info_row("host", summary.hostname.as_str()),
        info_row("privileges", privileges.as_str()),
    ];
    assert(views(lines@) =~= info_text(*summary, platform));
    lines
}

pub open spec fn watch_header_text(interval: u64, elevated: bool) -> Seq<Seq<char>> {
    let base = "portify watch  ·  every "@ + decimal(interval as nat) + "s  ·  Ctrl+C to stop"@;
    let header = if elevated {
        base
    } else {
        base + "  ·  not elevated"@
    };
    seq![toned(header, Tone::Muted), ""@]
}

/// The header of the live view.
pub fn print_watch_header(interval: u64, elevated: bool) -> (r: Vec<String>)
    ensures
        views(r@) == watch_header_text(interval, elevated),
{
    let mut header = owned("portify watch  ·  every ");
    push_decimal(&mut header, interval as u128);
    push_str(&mut header, "s  ·  Ctrl+C to stop");
    if !elevated {
        push_str(&mut header, "  ·  not elevated");
    }
    let lines = vec![tone(header.as_str(), Tone::Muted), owned("")];
    assert(views(lines@) =~= watch_header_text(interval, elevated));
    lines
}

} // verus!
