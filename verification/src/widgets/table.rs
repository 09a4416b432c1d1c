//! `browse` tables: grey header, grey cursor, scrolling.
//!
//! Like the entry screens of the time: fixed-width columns, the current
//! row highlighted, `TableState{row, top}` for the viewport.

use vstd::prelude::*;

use crate::app::events::AppKey;
use crate::engine::buffer::{Buffer, Grid, paint_run, paint_seq};
use crate::engine::cell::Cell;
use crate::engine::color::{Attr, Color};
use crate::engine::rect::{Rect, max_int, min_int, sat_add, sat_sub};
use crate::engine::theme::Theme;
use crate::prim::label::draw_text;
use crate::text::{chars_of, string_from_chars};
use crate::widgets::common::{scroll_to, scroll_to_exec};

verus! {

/// Columns and rows (all text already formatted).
#[derive(Clone, Debug)]
pub struct TableDef {
    pub headers: Vec<(String, u16)>,
    pub rows: Vec<Vec<String>>,
}

/// Column where column `col` starts: each earlier column's width plus one
/// (columns past the last count as the end).
pub open spec fn col_x_spec(headers: Seq<(String, u16)>, col: int) -> int
    decreases col,
{
    if col <= 0 || headers.len() == 0 {
        0
    } else if col > headers.len() {
        col_x_spec(headers, headers.len() as int)
    } else {
        col_x_spec(headers, col - 1) + headers[col - 1].1 + 1
    }
}

proof fn lemma_col_x_mono(headers: Seq<(String, u16)>, j: int, k: int)
    requires
        0 <= j <= k <= headers.len(),
    ensures
        0 <= col_x_spec(headers, j) <= col_x_spec(headers, k),
    decreases k,
{
    if k > 0 {
        if j < k {
            lemma_col_x_mono(headers, j, k - 1);
        } else {
            lemma_col_x_mono(headers, k - 1, k - 1);
        }
    }
}

/// The column starts fit in a `u16`.
pub open spec fn cols_fit(headers: Seq<(String, u16)>) -> bool {
    col_x_spec(headers, headers.len() as int) <= u16::MAX
}

impl TableDef {
    pub fn new(headers: &[(&str, u16)], rows: Vec<Vec<String>>) -> (r: Self)
        ensures
            r.headers@.len() == headers@.len(),
            forall|i: int|
                0 <= i < headers@.len() ==> #[trigger] r.headers@[i].0@ == headers@[i].0@ && r.headers@[i].1
                    == headers@[i].1,
            r.rows == rows,
    {
        let mut hs: Vec<(String, u16)> = Vec::new();
        let mut i: usize = 0;
        while i < headers.len()
            invariant
                i <= headers@.len(),
                hs@.len() == i,
                forall|j: int|
                    0 <= j < i ==> #[trigger] hs@[j].0@ == headers@[j].0@ && hs@[j].1 == headers@[j].1,
            decreases headers.len() - i,
        {
            let (s, w) = headers[i];
            hs.push((s.to_owned(), w));
            i += 1;
        }
        TableDef { headers: hs, rows }
    }

    /// Column where column `col` starts.
    pub fn col_x(&self, col: usize) -> (r: u16)
        requires
            cols_fit(self.headers@),
        ensures
            r == col_x_spec(self.headers@, col as int),
    {
        let n = if col < self.headers.len() { col } else { self.headers.len() };
        let mut x: u16 = 0;
        let mut c: usize = 0;
        while c < n
            invariant
                n <= self.headers@.len(),
                n == min_int(col as int, self.headers@.len() as int),
                cols_fit(self.headers@),
                c <= n,
                x == col_x_spec(self.headers@, c as int),
            decreases n - c,
        {
            proof {
                lemma_col_x_mono(self.headers@, c + 1, self.headers@.len() as int);
            }
            x = x + self.headers[c].1 + 1;
            c += 1;
        }
        x
    }
}

/// Current row and first visible row.
#[derive(Clone, Copy, Debug, PartialEq, Eq, Structural)]
pub struct TableState {
    pub row: usize,
    pub top: usize,
}

impl TableState {
    pub fn new() -> (r: Self)
        ensures
            r == (TableState { row: 0, top: 0 }),
    {
        TableState { row: 0, top: 0 }
    }
}

impl Default for TableState {
    fn default() -> (r: Self)
        ensures
            r == (TableState { row: 0, top: 0 }),
    {
        TableState::new()
    }
}

/// The first `k` header titles on the top row.
pub open spec fn headers_grid(g: Grid, rect: Rect, headers: Seq<(String, u16)>, t: Theme, k: int) -> Grid
    decreases k,
{
    if k <= 0 {
        g
    } else {
        paint_run(
            headers_grid(g, rect, headers, t, k - 1),
            sat_add(rect.x as int, col_x_spec(headers, k - 1)),
            rect.y as int,
            paint_seq(headers[k - 1].0@, Attr { fg: Color::Black, bg: t.field_bg, bold: true, dim: false }),
            false,
        )
    }
}

/// The first `k` cells of a row on row `y`, each cut to its column's
/// width; cells past the last column are skipped.
pub open spec fn cells_grid(g: Grid, rect: Rect, headers: Seq<(String, u16)>, cells: Seq<String>, y: int, a: Attr, k: int) -> Grid
    decreases k,
{
    if k <= 0 {
        g
    } else {
        let g1 = cells_grid(g, rect, headers, cells, y, a, k - 1);
        if k - 1 >= headers.len() {
            g1
        } else {
            let text = cells[k - 1]@.take(min_int(headers[k - 1].1 as int, cells[k - 1]@.len() as int));
            paint_run(g1, sat_add(rect.x as int, col_x_spec(headers, k - 1)), y, paint_seq(text, a), false)
        }
    }
}

/// How many rows the viewport shows.
pub open spec fn shown_rows(rect: Rect, rows: int, top: int) -> int {
    if top < rows {
        min_int(sat_sub(rect.h as int, 2), rows - top)
    } else {
        0
    }
}

/// The first `k` visible rows from `rect.y + 1`, the current one on the
/// grey cursor bar.
pub open spec fn rows_grid(g: Grid, rect: Rect, def: TableDef, st: TableState, t: Theme, k: int) -> Grid
    decreases k,
{
    if k <= 0 {
        g
    } else {
        let g1 = rows_grid(g, rect, def, st, t, k - 1);
        let i = k - 1;
        let y = rect.y + 1 + i;
        let sel = st.top + i == st.row;
        let g2 = if sel {
            g1.fill(Rect { x: rect.x, y: y as u16, w: rect.w, h: 1 }, Cell::spec_new(' ', t.select_fg, t.select_bg))
        } else {
            g1
        };
        let cells = def.rows@[st.top + i]@;
        let a = if sel { t.spec_popup_sel_attr() } else { t.spec_form_attr() };
        cells_grid(g2, rect, def.headers@, cells, y, a, cells.len() as int)
    }
}

/// The table: grey header with the titles, the visible rows, the footer
/// on the last row.
pub open spec fn table_grid(g: Grid, rect: Rect, def: TableDef, st: TableState, footer: Seq<char>, t: Theme) -> Grid {
    if rect.spec_is_empty() || rect.h < 3 {
        g
    } else {
        let g1 = g.fill(Rect { x: rect.x, y: rect.y, w: rect.w, h: 1 }, Cell::spec_new(' ', Color::Black, t.field_bg));
        let g2 = headers_grid(g1, rect, def.headers@, t, def.headers@.len() as int);
        let g3 = rows_grid(g2, rect, def, st, t, shown_rows(rect, def.rows@.len() as int, st.top as int));
        paint_run(
            g3,
            sat_add(rect.x as int, 1),
            sat_sub(rect.spec_bottom() as int, 1),
            paint_seq(footer, t.spec_form_attr()),
            false,
        )
    }
}

fn cut(s: &String, w: u16) -> (r: String)
    ensures
        r@ == s@.take(min_int(w as int, s@.len() as int)),
{
    let cs = chars_of(s.as_str());
    let n = if (w as usize) < cs.len() { w as usize } else { cs.len() };
    let mut out: Vec<char> = Vec::new();
    let mut i: usize = 0;
    while i < n
        invariant
            n <= cs@.len(),
            cs@ == s@,
            i <= n,
            out@ == cs@.take(i as int),
        decreases n - i,
    {
        out.push(cs[i]);
        i += 1;
        assert(out@ =~= cs@.take(i as int));
    }
    string_from_chars(&out)
}

fn draw_cells(buf: &mut Buffer, rect: Rect, def: &TableDef, cells: &Vec<String>, y: u16, a: Attr)
    requires
        old(buf).wf(),
        cols_fit(def.headers@),
    ensures
        final(buf).wf(),
        final(buf)@ == cells_grid(old(buf)@, rect, def.headers@, cells@, y as int, a, cells@.len() as int),
{
    let ghost g0 = buf@;
    let mut c: usize = 0;
    while c < cells.len()
        invariant
            buf.wf(),
            cols_fit(def.headers@),
            c <= cells@.len(),
            buf@ == cells_grid(g0, rect, def.headers@, cells@, y as int, a, c as int),
        decreases cells.len() - c,
    {
        if c < def.headers.len() {
            let text = cut(&cells[c], def.headers[c].1);
            draw_text(buf, rect.x.saturating_add(def.col_x(c)), y, text.as_str(), a);
        }
        c += 1;
    }
}

/// Draws header, viewport and `footer` below. `rect` holds it all.
pub fn table_draw(buf: &mut Buffer, rect: Rect, def: &TableDef, state: &TableState, footer: &str, theme: Theme)
    requires
        old(buf).wf(),
        cols_fit(def.headers@),
        rect.y + shown_rows(rect, def.rows@.len() as int, state.top as int) <= u16::MAX,
    ensures
        final(buf).wf(),
        final(buf)@ == table_grid(old(buf)@, rect, *def, *state, footer@, theme),
{
    if rect.is_empty() || rect.h < 3 {
        return;
    }
    buf.fill_rect(Rect::new(rect.x, rect.y, rect.w, 1), Cell::new(' ', Color::Black, theme.field_bg));
    let ghost g1 = buf@;
    let ha = Attr::bold(Color::Black, theme.field_bg);
    let mut c: usize = 0;
    while c < def.headers.len()
        invariant
            buf.wf(),
            cols_fit(def.headers@),
            ha == (Attr { fg: Color::Black, bg: theme.field_bg, bold: true, dim: false }),
            c <= def.headers@.len(),
            buf@ == headers_grid(g1, rect, def.headers@, theme, c as int),
        decreases def.headers.len() - c,
    {
        draw_text(buf, rect.x.saturating_add(def.col_x(c)), rect.y, def.headers[c].0.as_str(), ha);
        c += 1;
    }
    let ghost g2 = buf@;
    let visible = rect.h - 2;
    let nrows = def.rows.len();
    let k: usize = if state.top < nrows {
        let left = nrows - state.top;
        if (visible as usize) < left { visible as usize } else { left }
    } else {
        0
    };
    let mut i: usize = 0;
    while i < k
        invariant
            buf.wf(),
            cols_fit(def.headers@),
            k == shown_rows(rect, def.rows@.len() as int, state.top as int),
            rect.y + k <= u16::MAX,
            k > 0 ==> state.top + k <= def.rows@.len(),
            nrows == def.rows@.len(),
            i <= k,
            buf@ == rows_grid(g2, rect, *def, *state, theme, i as int),
        decreases k - i,
    {
        let y = rect.y + 1 + (i as u16);
        let selected = state.top + i == state.row;
        if selected {
            buf.fill_rect(Rect::new(rect.x, y, rect.w, 1), Cell::new(' ', theme.select_fg, theme.select_bg));
        }
        let a = if selected { theme.popup_sel_attr() } else { theme.form_attr() };
        draw_cells(buf, rect, def, &def.rows[state.top + i], y, a);
        i += 1;
    }
    draw_text(buf, rect.x.saturating_add(1), rect.bottom().saturating_sub(1), footer, theme.form_attr());
}

/// Where a key takes the cursor of a table of `n` rows showing `visible`
/// of them (the cursor first clamped to the table): a row up or down,
/// the ends, a page; the viewport then scrolls to keep it in view. An
/// empty table resets both to `0`.
pub open spec fn table_next(row: int, top: int, n: int, visible: int, key: AppKey) -> (int, int) {
    if n == 0 {
        (0, 0)
    } else {
        let vis = max_int(visible, 1);
        let r = min_int(row, n - 1);
        let r2 = match key {
            AppKey::Up => sat_sub(r, 1),
            AppKey::Down => min_int(r + 1, n - 1),
            AppKey::Home => 0,
            AppKey::End => n - 1,
            AppKey::PageUp => sat_sub(r, vis),
            AppKey::PageDown => min_int(r + vis, n - 1),
            _ => r,
        };
        (r2, scroll_to(r2, top, vis))
    }
}

/// Moves the cursor and adjusts the viewport. `visible` is the number of
/// rows shown.
pub fn table_key(state: &mut TableState, n_rows: usize, visible: usize, code: AppKey)
    ensures
        (final(state).row as int, final(state).top as int) == table_next(
            old(state).row as int,
            old(state).top as int,
            n_rows as int,
            visible as int,
            code,
        ),
{
    if n_rows == 0 {
        state.row = 0;
        state.top = 0;
        return;
    }
    let vis = if visible > 1 { visible } else { 1 };
    let r = if state.row < n_rows - 1 { state.row } else { n_rows - 1 };
    let r2 = match code {
        AppKey::Up => r.saturating_sub(1),
        AppKey::Down => if r + 1 < n_rows - 1 { r + 1 } else { n_rows - 1 },
        AppKey::Home => 0,
        AppKey::End => n_rows - 1,
        AppKey::PageUp => r.saturating_sub(vis),
        AppKey::PageDown => if vis > n_rows - 1 - r { n_rows - 1 } else { r + vis },
        _ => r,
    };
    state.row = r2;
    state.top = scroll_to_exec(r2, state.top, vis);
}

/// The cursor stays in the table and in view: after any key on a
/// non-empty table the current row is a row of the table, at or after
/// the first visible row and among the `visible` rows shown from it.
pub proof fn lemma_table_cursor_in_view(row: int, top: int, n: int, visible: int, key: AppKey)
    requires
        n > 0,
        row >= 0,
        top >= 0,
    ensures
        ({
            let (r, t) = table_next(row, top, n, visible, key);
            &&& 0 <= r < n
            &&& 0 <= t <= r
            &&& r < t + max_int(visible, 1)
        }),
{
}

/// On a table with rows, `Down` puts the cursor on the next row and `Up` on
/// the one before, stopping at the ends, so that inside the table `Down`
/// then `Up` comes back; `Home` and `End` go to the first and the last
/// row, `PgDn` and `PgUp` a page (`visible` rows, at least one) down and up
/// without leaving the table.
pub proof fn lemma_table_moves(row: int, top: int, n: int, visible: int)
    requires
        0 <= row < n,
    ensures
        table_next(row, top, n, visible, AppKey::Down).0 == (if row + 1 < n { row + 1 } else { row }),
        table_next(row, top, n, visible, AppKey::Up).0 == (if row > 0 { row - 1 } else { 0 }),
        row + 1 < n ==> ({
            let (r1, t1) = table_next(row, top, n, visible, AppKey::Down);
            table_next(r1, t1, n, visible, AppKey::Up).0 == row
        }),
        table_next(row, top, n, visible, AppKey::Home).0 == 0,
        table_next(row, top, n, visible, AppKey::End).0 == n - 1,
        ({
            let vis = if visible >= 1 { visible } else { 1 };
            &&& table_next(row, top, n, visible, AppKey::PageDown).0 == (if row + vis < n { row + vis } else { n - 1 })
            &&& table_next(row, top, n, visible, AppKey::PageUp).0 == (if row >= vis { row - vis } else { 0 })
        }),
{
}

} // verus!
