//! Data table (`GridTable`): inventories and listings.
//!
//! Headers plus a matrix of cells, automatic (content) or fixed column
//! widths, the selected row highlighted and native vertical scrolling.

use vstd::prelude::*;

use crate::app::events::AppKey;
use crate::engine::buffer::{Buffer, Grid, paint_run, paint_seq};
use crate::engine::cell::Cell;
use crate::engine::color::{Attr, Color};
use crate::engine::rect::{Rect, clamp_int, max_int, min_int, sat_add, sat_sub};
use crate::engine::theme::Theme;
use crate::prim::label::{draw_text, fit_spec, fit_text, hot_clean, visible_len};
use crate::prim::shadow::{ShadowStyle, shadow, shadow_grid};
use crate::text::seq_width;
use crate::widgets::common::{draw_ring, ring, scroll_to, scroll_to_exec, strings_view};
use crate::widgets::listbox::owned_strings;

verus! {

/// Data table with scrolling.
#[derive(Clone, Debug, PartialEq, Eq)]
pub struct GridTable {
    pub headers: Vec<String>,
    pub rows: Vec<Vec<String>>,
    /// Width per column (`0` = automatic, from the content).
    pub widths: Vec<u16>,
    pub selected: usize,
    pub top: usize,
    pub foreground_color: Color,
    pub background_color: Color,
    pub header_fg: Color,
    pub header_bg: Color,
    pub highlight_fg: Color,
    pub highlight_bg: Color,
    pub border_color: Option<Color>,
    pub has_shadow: bool,
}

/// Result of a key in the table: nothing moved, or the selection went to
/// the given row.
#[derive(Clone, Copy, Debug, PartialEq, Eq, Structural)]
pub enum GridNav {
    Stay,
    Move(usize),
}

/// Selecting row `s`, scrolled into view.
pub open spec fn grid_go(s: int, top: int, vis: int) -> (int, int, GridNav) {
    (s, scroll_to(s, top, vis), GridNav::Move(s as usize))
}

impl GridTable {
    /// A table with automatic widths, the first row selected: black on
    /// white, white on navy headers, white on blue highlight.
    pub fn new(headers: &[&str], rows: Vec<Vec<String>>) -> (r: Self)
        ensures
            strings_view(r.headers@) == headers@.map_values(|s: &str| s@),
            r.rows == rows,
            r.widths@ == Seq::new(headers@.len(), |i: int| 0u16),
            r.selected == 0,
            r.top == 0,
            r.foreground_color == Color::Black,
            r.background_color == Color::White,
            r.header_fg == Color::White,
            r.header_bg == Color::Navy,
            r.highlight_fg == Color::White,
            r.highlight_bg == Color::Blue,
            r.border_color is None,
            !r.has_shadow,
    {
        let mut widths: Vec<u16> = Vec::new();
        let mut i: usize = 0;
        while i < headers.len()
            invariant
                i <= headers@.len(),
                widths@ == Seq::new(i as nat, |k: int| 0u16),
            decreases headers.len() - i,
        {
            widths.push(0);
            i += 1;
            assert(widths@ =~= Seq::new(i as nat, |k: int| 0u16));
        }
        GridTable {
            headers: owned_strings(headers),
            rows,
            widths,
            selected: 0,
            top: 0,
            foreground_color: Color::Black,
            background_color: Color::White,
            header_fg: Color::White,
            header_bg: Color::Navy,
            highlight_fg: Color::White,
            highlight_bg: Color::Blue,
            border_color: None,
            has_shadow: false,
        }
    }

    /// Number of columns (one per header).
    pub fn ncols(&self) -> (r: usize)
        ensures
            r == self.headers@.len(),
    {
        self.headers.len()
    }
}

/// Row navigation over `n` rows: the selection is clamped to the rows (and
/// `top` to the selection); `Up`/`Down` wrap round, `Home`/`End` go to the
/// ends, `PgUp`/`PgDn` move a page; the view follows. Other keys, or no
/// rows, leave it (clamped).
pub open spec fn grid_next(n: int, sel0: int, top0: int, visible: int, key: AppKey) -> (int, int, GridNav) {
    if n == 0 {
        (sel0, top0, GridNav::Stay)
    } else {
        let sel = min_int(sel0, n - 1);
        let top = min_int(top0, sel);
        let vis = max_int(visible, 1);
        match key {
            AppKey::Up => grid_go((sel + n - 1) % n, top, vis),
            AppKey::Down => grid_go((sel + 1) % n, top, vis),
            AppKey::Home => grid_go(0, top, vis),
            AppKey::End => grid_go(n - 1, top, vis),
            AppKey::PageUp => grid_go(sat_sub(sel, vis), top, vis),
            AppKey::PageDown => grid_go(min_int(sel + vis, n - 1), top, vis),
            _ => (sel, top, GridNav::Stay),
        }
    }
}

/// Pure navigation.
pub fn grid_key(grid: &mut GridTable, visible: usize, code: AppKey) -> (r: GridNav)
    ensures
        (final(grid).selected as int, final(grid).top as int, r) == grid_next(
            old(grid).rows@.len() as int,
            old(grid).selected as int,
            old(grid).top as int,
            visible as int,
            code,
        ),
        final(grid).headers == old(grid).headers,
        final(grid).rows == old(grid).rows,
        final(grid).widths == old(grid).widths,
        final(grid).foreground_color == old(grid).foreground_color,
        final(grid).background_color == old(grid).background_color,
        final(grid).header_fg == old(grid).header_fg,
        final(grid).header_bg == old(grid).header_bg,
        final(grid).highlight_fg == old(grid).highlight_fg,
        final(grid).highlight_bg == old(grid).highlight_bg,
        final(grid).border_color == old(grid).border_color,
        final(grid).has_shadow == old(grid).has_shadow,
{
    let n = grid.rows.len();
    if n == 0 {
        return GridNav::Stay;
    }
    if grid.selected > n - 1 {
        grid.selected = n - 1;
    }
    if grid.top > grid.selected {
        grid.top = grid.selected;
    }
    let sel = grid.selected;
    let vis = if visible < 1 { 1 } else { visible };
    let target: usize = match code {
        AppKey::Up => {
            proof {
                crate::widgets::common::lemma_mod_wrap(sel + n - 1, n as int);
            }
            if sel == 0 { n - 1 } else { sel - 1 }
        },
        AppKey::Down => {
            proof {
                crate::widgets::common::lemma_mod_wrap(sel + 1, n as int);
            }
            if sel + 1 == n { 0 } else { sel + 1 }
        },
        AppKey::Home => 0,
        AppKey::End => n - 1,
        AppKey::PageUp => sel.saturating_sub(vis),
        AppKey::PageDown => if vis > n - 1 - sel { n - 1 } else { sel + vis },
        _ => {
            return GridNav::Stay;
        },
    };
    let ghost top_c = grid.top;
    grid.selected = target;
    grid.top = scroll_to_exec(target, grid.top, vis);
    assert((grid.selected as int, grid.top as int, GridNav::Move(target)) == grid_go(target as int, top_c as int, vis as int));
    GridNav::Move(target)
}

/// Widest text of column `c` among the first `k` rows (cells the row does
/// not have are skipped), starting from `w`.
pub open spec fn column_max(rows: Seq<Vec<String>>, c: int, w: int, k: int) -> int
    decreases k,
{
    if k <= 0 {
        w
    } else {
        let prev = column_max(rows, c, w, k - 1);
        let row = rows[k - 1]@;
        if c < row.len() {
            max_int(prev, seq_width(hot_clean(row[c]@)))
        } else {
            prev
        }
    }
}

/// Natural width of column `c`: the fixed width when one is asked for,
/// else the widest of header and cells plus two, kept within `3..=24`.
pub open spec fn natural_width(grid: GridTable, c: int) -> int {
    if c < grid.widths@.len() && grid.widths@[c] > 0 {
        grid.widths@[c] as int
    } else {
        let w = column_max(grid.rows@, c, seq_width(hot_clean(grid.headers@[c]@)), grid.rows@.len() as int);
        clamp_int(sat_add(w, 2), 3, 24)
    }
}

/// Sum of the widths.
pub open spec fn width_sum(ws: Seq<u16>) -> int
    decreases ws.len(),
{
    if ws.len() == 0 {
        0
    } else {
        width_sum(ws.drop_last()) + ws.last()
    }
}

/// Index of the widest column among the first `k` (the leftmost of equals).
pub open spec fn widest_index(ws: Seq<u16>, k: int) -> int
    decreases k,
{
    if k <= 1 {
        0
    } else {
        let i = widest_index(ws, k - 1);
        if ws[k - 1] > ws[i] {
            k - 1
        } else {
            i
        }
    }
}

/// Trimming `over` columns of excess: the widest column loses one cell at
/// a time, never going below three.
pub open spec fn trim_widest(ws: Seq<u16>, over: int) -> Seq<u16>
    decreases over,
{
    if over <= 0 || ws.len() == 0 {
        ws
    } else {
        let i = widest_index(ws, ws.len() as int);
        if ws[i] <= 3 {
            ws
        } else {
            trim_widest(ws.update(i, (ws[i] - 1) as u16), over - 1)
        }
    }
}

/// The final widths: natural widths, then trimmed from the widest (never
/// below 3) while they and the one-cell gaps exceed `avail`.
pub open spec fn column_widths(grid: GridTable, avail: int) -> Seq<u16> {
    let n = grid.headers@.len() as int;
    let ws = Seq::new(n as nat, |c: int| natural_width(grid, c) as u16);
    trim_widest(ws, sat_sub(min_int(width_sum(ws) + sat_sub(n, 1), u16::MAX as int), avail))
}

/// The natural widths fit in `u16` when added up.
pub open spec fn widths_fit(grid: GridTable) -> bool {
    width_sum(Seq::new(grid.headers@.len(), |c: int| natural_width(grid, c) as u16)) <= u16::MAX
}

proof fn lemma_widest_index(ws: Seq<u16>, k: int)
    requires
        1 <= k <= ws.len(),
    ensures
        0 <= widest_index(ws, k) < k,
        forall|j: int| 0 <= j < k ==> #[trigger] ws[j] <= ws[widest_index(ws, k)],
    decreases k,
{
    if k > 1 {
        lemma_widest_index(ws, k - 1);
    }
}

fn natural_of(grid: &GridTable, c: usize) -> (r: u16)
    requires
        c < grid.headers@.len(),
    ensures
        r == natural_width(*grid, c as int),
{
    if c < grid.widths.len() && grid.widths[c] > 0 {
        return grid.widths[c];
    }
    let mut w = visible_len(grid.headers[c].as_str());
    let mut k: usize = 0;
    while k < grid.rows.len()
        invariant
            k <= grid.rows@.len(),
            c < grid.headers@.len(),
            w == column_max(grid.rows@, c as int, seq_width(hot_clean(grid.headers@[c as int]@)), k as int),
        decreases grid.rows.len() - k,
    {
        if c < grid.rows[k].len() {
            let cw = visible_len(grid.rows[k][c].as_str());
            if cw > w {
                w = cw;
            }
        }
        k += 1;
    }
    let w2 = w.saturating_add(2);
    if w2 < 3 {
        3
    } else if w2 > 24 {
        24
    } else {
        w2
    }
}

/// Final column widths: fixed where asked, automatic (content, capped at
/// 24) elsewhere; when they overflow `avail` they are trimmed from the
/// widest (minimum 3).
pub fn grid_column_widths(grid: &GridTable, avail: u16) -> (r: Vec<u16>)
    requires
        widths_fit(*grid),
    ensures
        r@ == column_widths(*grid, avail as int),
{
    let n = grid.ncols();
    let mut widths: Vec<u16> = Vec::new();
    let mut total: u16 = 0;
    let mut c: usize = 0;
    let ghost nat_ws = Seq::new(n as nat, |c: int| natural_width(*grid, c) as u16);
    proof {
        lemma_width_sum_prefix(nat_ws, 0);
        assert(nat_ws.take(0) =~= Seq::<u16>::empty());
    }
    while c < n
        invariant
            n == grid.headers@.len(),
            c <= n,
            widths@ == nat_ws.take(c as int),
            nat_ws == Seq::new(n as nat, |c: int| natural_width(*grid, c) as u16),
            width_sum(nat_ws) <= u16::MAX,
            total == width_sum(widths@),
            width_sum(widths@) <= width_sum(nat_ws),
            width_sum(widths@) >= 0,
        decreases n - c,
    {
        let w = natural_of(grid, c);
        proof {
            assert(nat_ws.take(c + 1).drop_last() =~= nat_ws.take(c as int));
            lemma_width_sum_prefix(nat_ws, c + 1);
        }
        widths.push(w);
        assert(widths@ =~= nat_ws.take(c + 1));
        total = total + w;
        c += 1;
    }
    assert(widths@ =~= nat_ws);
    if n == 0 {
        return widths;
    }
    let gaps: u16 = if n - 1 > u16::MAX as usize { u16::MAX } else { (n - 1) as u16 };
    let all = total.saturating_add(gaps);
    let mut over = all.saturating_sub(avail);
    while over > 0
        invariant
            widths@.len() == n,
            n >= 1,
            trim_widest(widths@, over as int) == column_widths(*grid, avail as int),
        ensures
            widths@ == column_widths(*grid, avail as int),
        decreases over,
    {
        let mut i: usize = 0;
        let mut k: usize = 1;
        while k < widths.len()
            invariant
                1 <= k <= widths@.len(),
                i == widest_index(widths@, k as int),
            decreases widths.len() - k,
        {
            proof {
                lemma_widest_index(widths@, k as int);
            }
            if widths[k] > widths[i] {
                i = k;
            }
            k += 1;
        }
        proof {
            lemma_widest_index(widths@, widths@.len() as int);
        }
        if widths[i] <= 3 {
            break;
        }
        let wi = widths[i] - 1;
        widths.set(i, wi);
        over -= 1;
    }
    widths
}

proof fn lemma_width_sum_prefix(ws: Seq<u16>, k: int)
    requires
        0 <= k <= ws.len(),
    ensures
        width_sum(ws.take(k)) <= width_sum(ws),
    decreases ws.len() - k,
{
    if k < ws.len() {
        lemma_width_sum_prefix(ws, k + 1);
        assert(ws.take(k + 1).drop_last() =~= ws.take(k));
    } else {
        assert(ws.take(k) =~= ws);
    }
}

/// Visible data rows (the header apart).
pub fn grid_visible(rect: Rect, bordered: bool) -> (r: usize)
    ensures
        r == sat_sub(sat_sub(rect.h as int, 1), if bordered { 2 } else { 0 }),
{
    rect.h.saturating_sub(1).saturating_sub(if bordered { 2 } else { 0 }) as usize
}

/// One line of the table drawn column by column from `x0`: each column of
/// width `w` gets a strip of `fill` and its text fitted to `w - 1` columns
/// one column in; the walk stops at a zero width or at a column that would
/// pass `limit`. Gives the grid, the next column and whether it stopped.
pub open spec fn grid_line(
    g: Grid,
    texts: Seq<Option<Seq<char>>>,
    widths: Seq<u16>,
    x0: int,
    y: int,
    limit: int,
    fill: Cell,
    attr: Attr,
    k: int,
) -> (Grid, int, bool)
    decreases k,
{
    if k <= 0 {
        (g, x0, false)
    } else {
        let (g1, cx, stopped) = grid_line(g, texts, widths, x0, y, limit, fill, attr, k - 1);
        let w = if k - 1 < widths.len() { widths[k - 1] as int } else { 0 };
        if stopped || w == 0 || sat_add(cx, w) > limit {
            (g1, cx, true)
        } else {
            let g2 = g1.fill(Rect { x: cx as u16, y: y as u16, w: w as u16, h: 1 }, fill);
            let g3 = match texts[k - 1] {
                Some(t) => paint_run(g2, sat_add(cx, 1), y, paint_seq(fit_spec(t, sat_sub(w, 1)), attr), false),
                None => g2,
            };
            (g3, sat_add(sat_add(cx, w), 1), false)
        }
    }
}

/// The characters of an optional text.
pub open spec fn opt_view(t: Option<&str>) -> Option<Seq<char>> {
    match t {
        Some(s) => Some(s@),
        None => None,
    }
}

/// The characters of each optional text.
pub open spec fn texts_view(t: Seq<Option<&str>>) -> Seq<Option<Seq<char>>> {
    Seq::new(t.len(), |i: int| opt_view(t[i]))
}

/// The cell texts of a data row, one per column (`None` past its end).
pub open spec fn row_texts(row: Seq<String>, n: int) -> Seq<Option<Seq<char>>> {
    Seq::new(n as nat, |c: int| if c < row.len() { Some(row[c]@) } else { None })
}

/// The header texts.
pub open spec fn header_texts(headers: Seq<String>) -> Seq<Option<Seq<char>>> {
    Seq::new(headers.len(), |c: int| Some(headers[c]@))
}

/// The data rows shown: for `k` rows from `top`, the row's line in the row
/// colours (highlight on the selected row).
pub open spec fn grid_rows(g: Grid, grid: GridTable, widths: Seq<u16>, x0: int, y0: int, limit: int, k: int) -> Grid
    decreases k,
{
    if k <= 0 {
        g
    } else {
        let prev = grid_rows(g, grid, widths, x0, y0, limit, k - 1);
        let idx = grid.top + k - 1;
        if idx >= grid.rows@.len() {
            prev
        } else {
            let y = sat_add(sat_add(y0, 1), k - 1);
            let sel = idx == grid.selected;
            let fg = if sel { grid.highlight_fg } else { grid.foreground_color };
            let bg = if sel { grid.highlight_bg } else { grid.background_color };
            grid_line(
                prev,
                row_texts(grid.rows@[idx]@, grid.headers@.len() as int),
                widths,
                x0,
                y,
                limit,
                Cell::spec_new(' ', fg, bg),
                Attr { fg, bg, bold: false, dim: false },
                grid.headers@.len() as int,
            ).0
        }
    }
}

proof fn lemma_grid_rows_stop(g: Grid, grid: GridTable, widths: Seq<u16>, x0: int, y0: int, limit: int, k0: int, k: int)
    requires
        0 <= k0 <= k,
        grid.top + k0 >= grid.rows@.len(),
    ensures
        grid_rows(g, grid, widths, x0, y0, limit, k) == grid_rows(g, grid, widths, x0, y0, limit, k0),
    decreases k - k0,
{
    if k > k0 {
        lemma_grid_rows_stop(g, grid, widths, x0, y0, limit, k0, k - 1);
    }
}

/// The table as `grid_draw` paints it: shadow, body, bold header line,
/// data rows, border.
pub open spec fn grid_table_grid(g: Grid, rect: Rect, grid: GridTable) -> Grid {
    if rect.spec_is_empty() || rect.h < 2 {
        g
    } else {
        let bordered = grid.border_color is Some;
        let g1 = if grid.has_shadow { shadow_grid(g, rect, 2, 1, ShadowStyle::Translucent, Theme::spec_clipper()) } else { g };
        let g2 = g1.fill(rect, Cell::spec_new(' ', grid.foreground_color, grid.background_color));
        let x0 = sat_add(rect.x as int, if bordered { 1 } else { 0 });
        let y0 = sat_add(rect.y as int, if bordered { 1 } else { 0 });
        let avail = sat_sub(rect.w as int, if bordered { 2 } else { 0 });
        let widths = column_widths(grid, avail);
        let limit = sat_add(x0, avail);
        let g3 = grid_line(
            g2,
            header_texts(grid.headers@),
            widths,
            x0,
            y0,
            limit,
            Cell::spec_new(' ', grid.header_fg, grid.header_bg),
            Attr { fg: grid.header_fg, bg: grid.header_bg, bold: true, dim: false },
            grid.headers@.len() as int,
        ).0;
        let rows = sat_sub(sat_sub(rect.h as int, 1), if bordered { 2 } else { 0 });
        let g4 = grid_rows(g3, grid, widths, x0, y0, limit, rows);
        match grid.border_color {
            Some(b) => ring(g4, rect, Cell::spec_new(' ', b, b)),
            None => g4,
        }
    }
}

/// Draws one line of the table (header or data row).
fn draw_line(
    buf: &mut Buffer,
    texts: &Vec<Option<&str>>,
    widths: &Vec<u16>,
    x0: u16,
    y: u16,
    limit: u16,
    fill: Cell,
    attr: Attr,
) -> (r: u16)
    requires
        old(buf).wf(),
    ensures
        final(buf).wf(),
        ({
            let tv = texts_view(texts@);
            let (g, cx, _) = grid_line(old(buf)@, tv, widths@, x0 as int, y as int, limit as int, fill, attr, texts@.len() as int);
            final(buf)@ == g && r == cx
        }),
{
    let ghost tv = texts_view(texts@);
    let ghost g0 = buf@;
    let mut cx = x0;
    let mut c: usize = 0;
    while c < texts.len()
        invariant
            buf.wf(),
            c <= texts@.len(),
            tv == texts_view(texts@),
            grid_line(g0, tv, widths@, x0 as int, y as int, limit as int, fill, attr, c as int) == (buf@, cx as int, false),
        ensures
            buf.wf(),
            grid_line(g0, tv, widths@, x0 as int, y as int, limit as int, fill, attr, texts@.len() as int).0 == buf@,
            grid_line(g0, tv, widths@, x0 as int, y as int, limit as int, fill, attr, texts@.len() as int).1 == cx,
        decreases texts.len() - c,
    {
        let w: u16 = if c < widths.len() { widths[c] } else { 0 };
        if w == 0 || cx.saturating_add(w) > limit {
            proof {
                lemma_grid_line_stopped(g0, tv, widths@, x0 as int, y as int, limit as int, fill, attr, c + 1, texts@.len() as int);
            }
            break;
        }
        buf.fill_rect(Rect::new(cx, y, w, 1), fill);
        match texts[c] {
            Some(t) => {
                let fit = fit_text(t, w.saturating_sub(1));
                draw_text(buf, cx.saturating_add(1), y, fit.as_str(), attr);
            },
            None => {},
        }
        cx = cx.saturating_add(w).saturating_add(1);
        c += 1;
    }
    cx
}

proof fn lemma_grid_line_stopped(
    g: Grid,
    texts: Seq<Option<Seq<char>>>,
    widths: Seq<u16>,
    x0: int,
    y: int,
    limit: int,
    fill: Cell,
    attr: Attr,
    k0: int,
    k: int,
)
    requires
        1 <= k0 <= k,
        grid_line(g, texts, widths, x0, y, limit, fill, attr, k0).2,
    ensures
        grid_line(g, texts, widths, x0, y, limit, fill, attr, k) == grid_line(g, texts, widths, x0, y, limit, fill, attr, k0),
    decreases k - k0,
{
    if k > k0 {
        lemma_grid_line_stopped(g, texts, widths, x0, y, limit, fill, attr, k0, k - 1);
    }
}

/// Draws the header, the rows with the highlight, and the scroll position.
pub fn grid_draw(buf: &mut Buffer, rect: Rect, grid: &GridTable)
    requires
        old(buf).wf(),
        widths_fit(*grid),
    ensures
        final(buf).wf(),
        final(buf)@ == grid_table_grid(old(buf)@, rect, *grid),
{
    if rect.is_empty() || rect.h < 2 {
        return;
    }
    let bordered = match grid.border_color {
        Some(_) => true,
        None => false,
    };
    if grid.has_shadow {
        shadow(buf, rect, Theme::clipper());
    }
    buf.fill_rect(rect, Cell::new(' ', grid.foreground_color, grid.background_color));
    let x0 = rect.x.saturating_add(if bordered { 1 } else { 0 });
    let y0 = rect.y.saturating_add(if bordered { 1 } else { 0 });
    let avail = rect.w.saturating_sub(if bordered { 2 } else { 0 });
    let widths = grid_column_widths(grid, avail);
    let limit = x0.saturating_add(avail);
    let n = grid.ncols();
    let mut heads: Vec<Option<&str>> = Vec::new();
    let mut c: usize = 0;
    while c < n
        invariant
            n == grid.headers@.len(),
            c <= n,
            heads@.len() == c,
            texts_view(heads@) == header_texts(grid.headers@).take(c as int),
        decreases n - c,
    {
        let h = grid.headers[c].as_str();
        assert(h@ == grid.headers@[c as int]@);
        let ghost before = heads@;
        heads.push(Some(h));
        assert(heads@ == before.push(Some(h)));
        assert(texts_view(heads@)[c as int] == Some(grid.headers@[c as int]@));
        c += 1;
        assert(texts_view(heads@) =~= header_texts(grid.headers@).take(c as int));
    }
    assert(header_texts(grid.headers@).take(c as int) =~= header_texts(grid.headers@));
    draw_line(
        buf,
        &heads,
        &widths,
        x0,
        y0,
        limit,
        Cell::new(' ', grid.header_fg, grid.header_bg),
        Attr::bold(grid.header_fg, grid.header_bg),
    );
    let rows = grid_visible(rect, bordered);
    let ghost g3 = buf@;
    let mut row: usize = 0;
    while row < rows
        invariant
            buf.wf(),
            rows <= u16::MAX,
            row <= rows,
            n == grid.headers@.len(),
            buf@ == grid_rows(g3, *grid, widths@, x0 as int, y0 as int, limit as int, row as int),
        ensures
            buf.wf(),
            buf@ == grid_rows(g3, *grid, widths@, x0 as int, y0 as int, limit as int, rows as int),
        decreases rows - row,
    {
        if row >= grid.rows.len() || grid.top >= grid.rows.len() - row {
            proof {
                lemma_grid_rows_stop(g3, *grid, widths@, x0 as int, y0 as int, limit as int, row as int, rows as int);
            }
            break;
        }
        let idx = grid.top + row;
        let y = y0.saturating_add(1).saturating_add(row as u16);
        let sel = idx == grid.selected;
        let (fg, bg) = if sel {
            (grid.highlight_fg, grid.highlight_bg)
        } else {
            (grid.foreground_color, grid.background_color)
        };
        let mut texts: Vec<Option<&str>> = Vec::new();
        let mut c: usize = 0;
        while c < n
            invariant
                c <= n,
                idx < grid.rows@.len(),
                texts@.len() == c,
                texts_view(texts@) == row_texts(grid.rows@[idx as int]@, n as int).take(c as int),
            decreases n - c,
        {
            if c < grid.rows[idx].len() {
                let t = grid.rows[idx][c].as_str();
                assert(t@ == grid.rows@[idx as int]@[c as int]@);
                texts.push(Some(t));
            } else {
                texts.push(None);
            }
            assert(texts_view(texts@)[c as int] == row_texts(grid.rows@[idx as int]@, n as int)[c as int]);
            c += 1;
            assert(texts_view(texts@) =~= row_texts(grid.rows@[idx as int]@, n as int).take(c as int));
        }
        assert(row_texts(grid.rows@[idx as int]@, n as int).take(c as int) =~= row_texts(grid.rows@[idx as int]@, n as int));
        draw_line(buf, &texts, &widths, x0, y, limit, Cell::new(' ', fg, bg), Attr::new(fg, bg));
        row += 1;
    }
    match grid.border_color {
        Some(b) => draw_ring(buf, rect, Cell::new(' ', b, b)),
        None => {},
    }
}

impl crate::widgets::focus::HandleEvent for GridTable {
    type Out = GridNav;

    /// `↑↓` (and `PgUp/PgDn/Home/End`) move `selected` with scrolling;
    /// the caller repaints to show the highlighted row.
    fn handle_event(&mut self, ctx: &crate::widgets::focus::EventCtx, code: AppKey) -> (r: GridNav)
        ensures
            (final(self).selected as int, final(self).top as int, r) == grid_next(
                old(self).rows@.len() as int,
                old(self).selected as int,
                old(self).top as int,
                ctx.visible as int,
                code,
            ),
    {
        grid_key(self, ctx.visible, code)
    }
}

/// Setting one width changes the sum by the difference.
proof fn lemma_width_sum_update(ws: Seq<u16>, i: int, v: u16)
    requires
        0 <= i < ws.len(),
    ensures
        width_sum(ws.update(i, v)) == width_sum(ws) - ws[i] + v,
    decreases ws.len(),
{
    let up = ws.update(i, v);
    if i == ws.len() - 1 {
        assert(up.drop_last() =~= ws.drop_last());
    } else {
        lemma_width_sum_update(ws.drop_last(), i, v);
        assert(up.drop_last() =~= ws.drop_last().update(i, v));
    }
}

/// A sum of widths is never negative.
proof fn lemma_width_sum_bound(ws: Seq<u16>)
    ensures
        width_sum(ws) >= 0,
    decreases ws.len(),
{
    if ws.len() > 0 {
        lemma_width_sum_bound(ws.drop_last());
    }
}

/// A trimmed column was the widest when last trimmed: no column ends
/// more than one cell wider than it.
pub open spec fn trimmed_from_widest(ws0: Seq<u16>, ws: Seq<u16>) -> bool {
    forall|c: int, j: int|
        0 <= c < ws.len() && 0 <= j < ws.len() && ws[c] < ws0[c] ==> #[trigger] ws[j] <= #[trigger] ws[c] + 1
}

/// Trimming keeps each width between its start (or three, if smaller) and
/// its start, takes the excess from the widest first, and removes all of
/// it unless every column is down to three.
proof fn lemma_trim_widest(ws0: Seq<u16>, ws: Seq<u16>, over: int)
    requires
        ws.len() == ws0.len(),
        forall|c: int| 0 <= c < ws.len() ==> min_int(ws0[c] as int, 3) <= #[trigger] ws[c] <= ws0[c],
        trimmed_from_widest(ws0, ws),
        over >= 0,
    ensures
        ({
            let r = trim_widest(ws, over);
            &&& r.len() == ws0.len()
            &&& forall|c: int| 0 <= c < r.len() ==> min_int(ws0[c] as int, 3) <= #[trigger] r[c] <= ws0[c]
            &&& trimmed_from_widest(ws0, r)
            &&& width_sum(r) >= width_sum(ws) - over
            &&& (width_sum(r) == width_sum(ws) - over || forall|c: int| 0 <= c < r.len() ==> #[trigger] r[c] <= 3)
        }),
    decreases over,
{
    if over > 0 && ws.len() > 0 {
        let i = widest_index(ws, ws.len() as int);
        lemma_widest_index(ws, ws.len() as int);
        if ws[i] > 3 {
            let ws2 = ws.update(i, (ws[i] - 1) as u16);
            lemma_width_sum_update(ws, i, (ws[i] - 1) as u16);
            assert forall|c: int, j: int|
                0 <= c < ws2.len() && 0 <= j < ws2.len() && ws2[c] < ws0[c] implies #[trigger] ws2[j] <= #[trigger] ws2[c] + 1 by {
                assert(ws[j] <= ws[i]);
                if c != i {
                    assert(ws[j] <= ws[c] + 1);
                }
            }
            lemma_trim_widest(ws0, ws2, over - 1);
        }
    }
}

/// The final column widths keep to the natural ones: each between the
/// natural width (or three, if smaller) and the natural width; all natural
/// when they fit `avail` with their gaps; otherwise trimmed from the
/// widest first (no column ends more than one cell wider than a trimmed
/// one) until they fit, or until every column is down to three.
pub proof fn lemma_column_widths_bounds(grid: GridTable, avail: int)
    requires
        avail >= 0,
    ensures
        ({
            let n = grid.headers@.len() as int;
            let ws = Seq::new(n as nat, |c: int| natural_width(grid, c) as u16);
            let r = column_widths(grid, avail);
            &&& r.len() == n
            &&& forall|c: int| 0 <= c < n ==> min_int(ws[c] as int, 3) <= #[trigger] r[c] <= ws[c]
            &&& width_sum(ws) + sat_sub(n, 1) <= avail ==> r == ws
            &&& trimmed_from_widest(ws, r)
            &&& width_sum(ws) + sat_sub(n, 1) <= u16::MAX ==> (width_sum(r) + sat_sub(n, 1) <= avail || forall|c: int|
                0 <= c < n ==> #[trigger] r[c] <= 3)
        }),
{
    let n = grid.headers@.len() as int;
    let ws = Seq::new(n as nat, |c: int| natural_width(grid, c) as u16);
    let over = sat_sub(min_int(width_sum(ws) + sat_sub(n, 1), u16::MAX as int), avail);
    lemma_width_sum_bound(ws);
    lemma_trim_widest(ws, ws, over);
}

/// On a table with rows, `Up` selects the row above and `Down` the row
/// below, wrapping round at the ends, so that `Down` then `Up` (and `Up`
/// then `Down`) come back to the starting row; `Home` and `End` select the
/// first and the last row. Each reports the row it selected.
pub proof fn lemma_grid_arrows(n: int, sel: int, top: int, visible: int)
    requires
        0 <= sel < n,
    ensures
        ({
            let (s, _, r) = grid_next(n, sel, top, visible, AppKey::Up);
            s == (if sel == 0 { n - 1 } else { sel - 1 }) && r == GridNav::Move(s as usize)
        }),
        ({
            let (s, _, r) = grid_next(n, sel, top, visible, AppKey::Down);
            s == (if sel == n - 1 { 0 } else { sel + 1 }) && r == GridNav::Move(s as usize)
        }),
        ({
            let (s1, t1, _) = grid_next(n, sel, top, visible, AppKey::Down);
            grid_next(n, s1, t1, visible, AppKey::Up).0 == sel
        }),
        ({
            let (s1, t1, _) = grid_next(n, sel, top, visible, AppKey::Up);
            grid_next(n, s1, t1, visible, AppKey::Down).0 == sel
        }),
        grid_next(n, sel, top, visible, AppKey::Home).0 == 0,
        grid_next(n, sel, top, visible, AppKey::End).0 == n - 1,
{
    crate::widgets::common::lemma_mod_wrap(sel + n - 1, n);
    crate::widgets::common::lemma_mod_wrap(sel + 1, n);
    let up = if sel == 0 { n - 1 } else { sel - 1 };
    let down = if sel == n - 1 { 0 } else { sel + 1 };
    crate::widgets::common::lemma_mod_wrap(down + n - 1, n);
    crate::widgets::common::lemma_mod_wrap(up + 1, n);
}

/// On a table with rows, `PgDn` moves the selection a page (`visible`
/// rows, at least one) down, stopping at the last row, and `PgUp` a page up,
/// stopping at the first; after any key that moves the selection, the
/// selected row is a row of the table and is among the rows shown.
pub proof fn lemma_grid_pages(n: int, sel: int, top: int, visible: int, key: AppKey)
    requires
        0 <= sel < n,
    ensures
        ({
            let vis = if visible >= 1 { visible } else { 1 };
            &&& grid_next(n, sel, top, visible, AppKey::PageDown).0 == (if sel + vis < n { sel + vis } else { n - 1 })
            &&& grid_next(n, sel, top, visible, AppKey::PageUp).0 == (if sel >= vis { sel - vis } else { 0 })
        }),
        ({
            let (s, t, r) = grid_next(n, sel, top, visible, key);
            let vis = if visible >= 1 { visible } else { 1 };
            r is Move ==> 0 <= s < n && t <= s < t + vis && r == GridNav::Move(s as usize)
        }),
{
    crate::widgets::common::lemma_mod_wrap(sel + n - 1, n);
    crate::widgets::common::lemma_mod_wrap(sel + 1, n);
}

} // verus!
