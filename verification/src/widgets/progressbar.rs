//! Progress bar (`ProgressBar`): 0-100 with sub-cell resolution.
//!
//! A high-resolution fill (8 steps per cell) of block eighths over a `░`
//! track: `foreground_color` is the fill, `background_color` the track,
//! with an optional border and shadow.

use vstd::prelude::*;

use crate::engine::buffer::{Buffer, Grid, paint_run, paint_seq};
use crate::engine::cell::Cell;
use crate::engine::color::{Attr, Color};
use crate::engine::rect::{Rect, min_int, sat_add, sat_sub};
use crate::engine::theme::Theme;
use crate::prim::label::{draw_text, hot_clean, visible_len};
use crate::prim::shadow::{ShadowStyle, shadow, shadow_grid};
use crate::prim::window::{col_strip, row_strip};
use crate::text::{decimal, decimal_chars, seq_width, string_from_chars};

verus! {

/// Unicode block eighths: 8x resolution per cell (the index is the number
/// of eighths painted; 0 = empty).
pub const SUB_BLOCKS: [char; 8] = [' ', '\u{258f}', '\u{258e}', '\u{258d}', '\u{258c}', '\u{258b}', '\u{258a}', '\u{2589}'];

/// The glyph of `n` eighths (`0 <= n < 8`).
pub open spec fn sub_block(n: int) -> char {
    if n == 0 {
        ' '
    } else if n == 1 {
        '\u{258f}'
    } else if n == 2 {
        '\u{258e}'
    } else if n == 3 {
        '\u{258d}'
    } else if n == 4 {
        '\u{258c}'
    } else if n == 5 {
        '\u{258b}'
    } else if n == 6 {
        '\u{258a}'
    } else {
        '\u{2589}'
    }
}

fn sub_block_of(n: u32) -> (r: char)
    requires
        n < 8,
    ensures
        r == sub_block(n as int),
{
    if n == 0 {
        ' '
    } else if n == 1 {
        '\u{258f}'
    } else if n == 2 {
        '\u{258e}'
    } else if n == 3 {
        '\u{258d}'
    } else if n == 4 {
        '\u{258c}'
    } else if n == 5 {
        '\u{258b}'
    } else if n == 6 {
        '\u{258a}'
    } else {
        '\u{2589}'
    }
}

/// Progress bar 0-100.
#[derive(Clone, Debug, PartialEq, Eq)]
pub struct ProgressBar {
    /// Percentage (clamped to 0..=100 when drawn).
    pub pct: u8,
    /// Colour of the fill (`█`).
    pub foreground_color: Color,
    /// Colour of the track (`░`).
    pub background_color: Color,
    pub border_color: Option<Color>,
    pub has_shadow: bool,
    /// Paints `NN%` centred when it fits.
    pub show_pct: bool,
}

impl ProgressBar {
    /// A bar at `min(pct, 100)`: navy fill on a grey track, showing the
    /// percentage, no border, no shadow.
    pub fn new(pct: u8) -> (r: Self)
        ensures
            r.pct == min_int(pct as int, 100),
            r.foreground_color == Color::Navy,
            r.background_color == Color::Grey,
            r.border_color is None,
            !r.has_shadow,
            r.show_pct,
    {
        ProgressBar {
            pct: if pct < 100 { pct } else { 100 },
            foreground_color: Color::Navy,
            background_color: Color::Grey,
            border_color: None,
            has_shadow: false,
            show_pct: true,
        }
    }

    /// Sets the percentage, clamped to 100.
    pub fn set_pct(&mut self, pct: u8)
        ensures
            final(self).pct == min_int(pct as int, 100),
            final(self).foreground_color == old(self).foreground_color,
            final(self).background_color == old(self).background_color,
            final(self).border_color == old(self).border_color,
            final(self).has_shadow == old(self).has_shadow,
            final(self).show_pct == old(self).show_pct,
    {
        self.pct = if pct < 100 { pct } else { 100 };
    }
}

/// Full cells for `pct` over a width `w`: `min(pct, 100) * w / 100`.
pub fn progress_fill(pct: u8, w: u16) -> (r: u16)
    ensures
        r == min_int(pct as int, 100) * w / 100,
        r <= w,
{
    let p: u32 = if pct < 100 { pct as u32 } else { 100 };
    assert(p * (w as u32) <= 100 * (w as u32)) by (nonlinear_arith)
        requires
            p <= 100,
    ;
    (p * w as u32 / 100) as u16
}

/// Eighths of fill for `pct` over a width `w`: `min(pct, 100) * w * 8 / 100`.
pub fn progress_eighths(pct: u8, w: u16) -> (r: u32)
    ensures
        r == min_int(pct as int, 100) * w * 8 / 100,
        r <= 8 * w,
{
    let p: u32 = if pct < 100 { pct as u32 } else { 100 };
    assert(p * (w as u32) * 8 <= 100 * (w as u32) * 8) by (nonlinear_arith)
        requires
            p <= 100,
    ;
    p * w as u32 * 8 / 100
}

/// Numbers up to 100 have at most three digits.
proof fn lemma_decimal_short(n: nat)
    requires
        n <= 100,
    ensures
        decimal(n).len() <= 3,
{
    reveal_with_fuel(decimal, 3);
    if n >= 10 {
        assert(n / 10 < 10 || n / 10 == 10);
        if n / 10 >= 10 {
            assert(decimal(n / 10).len() == 2);
        }
    }
}

/// The single-line box (`┌─┐│└┘`) on the track background.
pub open spec fn bar_box(g: Grid, rect: Rect, border: Color, bg: Color) -> Grid {
    let bc = Attr { fg: border, bg, bold: false, dim: false };
    let right = sat_sub(rect.spec_right() as int, 1);
    let bottom = sat_sub(rect.spec_bottom() as int, 1);
    let x1 = sat_add(rect.x as int, 1);
    let y1 = sat_add(rect.y as int, 1);
    let h = Cell::spec_with_attr('\u{2500}', bc);
    let v = Cell::spec_with_attr('\u{2502}', bc);
    g.fill(row_strip(rect.y as int, x1, right), h).fill(row_strip(bottom, x1, right), h).fill(col_strip(rect.x as int, y1, bottom), v).fill(
        col_strip(right, y1, bottom),
        v,
    ).set(rect.x as int, rect.y as int, Cell::spec_with_attr('\u{250c}', bc)).set(
        right,
        rect.y as int,
        Cell::spec_with_attr('\u{2510}', bc),
    ).set(rect.x as int, bottom, Cell::spec_with_attr('\u{2514}', bc)).set(right, bottom, Cell::spec_with_attr('\u{2518}', bc))
}

/// The track row `inner` filled to `pct`: full blocks, then the frontier
/// cell with its eighths (when it lies inside), then the `░` track.
pub open spec fn fill_row(g: Grid, inner: Rect, bar: ProgressBar) -> Grid {
    let total = min_int(bar.pct as int, 100) * inner.w * 8 / 100;
    let full = total / 8;
    let rem = total % 8;
    Grid {
        w: g.w,
        h: g.h,
        at: |px: int, py: int|
            if py == inner.y && inner.x <= px < inner.x + inner.w && g.in_bounds(px, py) {
                let i = px - inner.x;
                if i < full {
                    Cell::spec_new('\u{2588}', bar.foreground_color, bar.background_color)
                } else if i == full && full < inner.w {
                    Cell::spec_new(sub_block(rem), bar.foreground_color, bar.background_color)
                } else {
                    Cell::spec_new('\u{2591}', bar.background_color, bar.background_color)
                }
            } else {
                (g.at)(px, py)
            },
    }
}

/// The percentage text, `NN%`.
pub open spec fn pct_label(pct: u8) -> Seq<char> {
    decimal(min_int(pct as int, 100) as nat).push('%')
}

/// The first `k` characters of the label drawn from `lx`, skipping the
/// frontier cell, inverted over the filled part.
pub open spec fn label_cells(g: Grid, label: Seq<char>, lx: int, y: int, frontier: int, bar: ProgressBar, k: int) -> Grid
    decreases k,
{
    if k <= 0 {
        g
    } else {
        let prev = label_cells(g, label, lx, y, frontier, bar, k - 1);
        let x = sat_add(lx, k - 1);
        if x == frontier {
            prev
        } else {
            let attr = if x < frontier {
                Attr { fg: bar.background_color, bg: bar.foreground_color, bold: true, dim: false }
            } else {
                Attr { fg: bar.foreground_color, bg: bar.background_color, bold: true, dim: false }
            };
            paint_run(prev, x, y, seq![Cell::spec_with_attr(label[k - 1], attr)], false)
        }
    }
}

/// The inner track row of a bar drawn in `rect` (`None` when the rail
/// leaves no room).
pub open spec fn bar_inner(rect: Rect, bar: ProgressBar) -> Rect {
    let bordered = bar.border_color is Some;
    if bordered && rect.w >= 3 && rect.h >= 3 {
        Rect { x: sat_add(rect.x as int, 1) as u16, y: sat_add(rect.y as int, 1) as u16, w: sat_sub(rect.w as int, 2) as u16, h: 1 }
    } else if bordered && rect.w >= 3 {
        Rect { x: sat_add(rect.x as int, 1) as u16, y: rect.y, w: sat_sub(rect.w as int, 2) as u16, h: 1 }
    } else {
        Rect { x: rect.x, y: rect.y, w: rect.w, h: 1 }
    }
}

/// The bar as `progressbar_draw` paints it.
pub open spec fn progressbar_grid(g: Grid, rect: Rect, bar: ProgressBar) -> Grid {
    if rect.spec_is_empty() {
        g
    } else {
        let bordered = bar.border_color is Some;
        let border = match bar.border_color {
            Some(c) => c,
            None => Color::Black,
        };
        let g1 = if bar.has_shadow {
            shadow_grid(
                g,
                if bordered { rect } else { Rect { x: rect.x, y: rect.y, w: rect.w, h: 1 } },
                2,
                1,
                ShadowStyle::Translucent,
                Theme::spec_clipper(),
            )
        } else {
            g
        };
        let g2 = if bordered && rect.w >= 3 && rect.h >= 3 {
            bar_box(g1, rect, border, bar.background_color)
        } else if bordered && rect.w >= 3 {
            let bc = Attr { fg: border, bg: bar.background_color, bold: false, dim: false };
            g1.set(rect.x as int, rect.y as int, Cell::spec_with_attr('[', bc)).set(
                sat_sub(rect.spec_right() as int, 1),
                rect.y as int,
                Cell::spec_with_attr(']', bc),
            )
        } else {
            g1
        };
        let inner = bar_inner(rect, bar);
        if inner.spec_is_empty() {
            g2
        } else {
            let g3 = fill_row(g2, inner, bar);
            let label = pct_label(bar.pct);
            let lw = seq_width(hot_clean(label));
            if bar.show_pct && sat_add(lw, 2) <= inner.w {
                let total = min_int(bar.pct as int, 100) * inner.w * 8 / 100;
                let frontier = sat_add(inner.x as int, total / 8);
                let lx = sat_add(inner.x as int, sat_sub(inner.w as int, lw) / 2);
                label_cells(g3, label, lx, inner.y as int, frontier, bar, label.len() as int)
            } else {
                g3
            }
        }
    }
}

/// Draws the bar in `rect` (on its first row; optional border): `[`/`]`
/// brackets with a `border_color` and fewer than 3 rows, a single-line box
/// with 3 rows or more.
pub fn progressbar_draw(buf: &mut Buffer, rect: Rect, bar: &ProgressBar)
    requires
        old(buf).wf(),
    ensures
        final(buf).wf(),
        final(buf)@ == progressbar_grid(old(buf)@, rect, *bar),
{
    if rect.is_empty() {
        return;
    }
    let bordered = match bar.border_color {
        Some(_) => true,
        None => false,
    };
    let border = match bar.border_color {
        Some(c) => c,
        None => Color::Black,
    };
    if bar.has_shadow {
        shadow(buf, if bordered { rect } else { Rect::new(rect.x, rect.y, rect.w, 1) }, Theme::clipper());
    }
    let inner = if bordered && rect.w >= 3 && rect.h >= 3 {
        draw_box(buf, rect, border, bar.background_color);
        Rect::new(rect.x.saturating_add(1), rect.y.saturating_add(1), rect.w.saturating_sub(2), 1)
    } else if bordered && rect.w >= 3 {
        let bc = Attr::new(border, bar.background_color);
        buf.set(rect.x, rect.y, Cell::with_attr('[', bc));
        buf.set(rect.right().saturating_sub(1), rect.y, Cell::with_attr(']', bc));
        Rect::new(rect.x.saturating_add(1), rect.y, rect.w.saturating_sub(2), 1)
    } else {
        Rect::new(rect.x, rect.y, rect.w, 1)
    };
    if inner.is_empty() {
        return;
    }
    let total = progress_eighths(bar.pct, inner.w);
    let full = total / 8;
    let rem = total % 8;
    let frontier = inner.x.saturating_add(full as u16);
    draw_fill(buf, inner, bar, total);
    if bar.show_pct {
        let p: u8 = if bar.pct < 100 { bar.pct } else { 100 };
        let mut label = decimal_chars(p as u64);
        proof {
            lemma_decimal_short(p as nat);
        }
        label.push('%');
        let text = string_from_chars(&label);
        let lw = visible_len(text.as_str());
        if lw.saturating_add(2) <= inner.w {
            let lx = inner.x.saturating_add(inner.w.saturating_sub(lw) / 2);
            let ghost g3 = buf@;
            let mut i: usize = 0;
            while i < label.len()
                invariant
                    buf.wf(),
                    i <= label@.len(),
                    label@.len() <= 4,
                    label@ == pct_label(bar.pct),
                    buf@ == label_cells(g3, label@, lx as int, inner.y as int, frontier as int, *bar, i as int),
                decreases label.len() - i,
            {
                let x = lx.saturating_add(i as u16);
                if x != frontier {
                    let attr = if x < frontier {
                        Attr::bold(bar.background_color, bar.foreground_color)
                    } else {
                        Attr::bold(bar.foreground_color, bar.background_color)
                    };
                    let one = vec![label[i]];
                    let s = string_from_chars(&one);
                    assert(s@ =~= seq![label@[i as int]]);
                    assert(paint_seq(s@, attr) =~= seq![Cell::spec_with_attr(label@[i as int], attr)]);
                    draw_text(buf, x, inner.y, s.as_str(), attr);
                }
                i += 1;
            }
        }
    }
}

fn draw_fill(buf: &mut Buffer, inner: Rect, bar: &ProgressBar, total: u32)
    requires
        old(buf).wf(),
        total == min_int(bar.pct as int, 100) * inner.w * 8 / 100,
        total <= 8 * inner.w,
    ensures
        final(buf).wf(),
        final(buf)@ == fill_row(old(buf)@, inner, *bar),
{
    let ghost g0 = buf@;
    proof {
        buf.lemma_size();
    }
    let full = total / 8;
    let rem = total % 8;
    let mut i: u16 = 0;
    while i < inner.w
        invariant
            buf.wf(),
            buf@.w == g0.w,
            buf@.h == g0.h,
            g0.w <= u16::MAX,
            i <= inner.w,
            full == total / 8,
            rem == total % 8,
            total == min_int(bar.pct as int, 100) * inner.w * 8 / 100,
            full <= inner.w,
            forall|px: int, py: int| #![trigger (buf@.at)(px, py)]
                (buf@.at)(px, py) == if py == inner.y && inner.x <= px < inner.x + i && g0.in_bounds(px, py) {
                    (fill_row(g0, inner, *bar).at)(px, py)
                } else {
                    (g0.at)(px, py)
                },
        decreases inner.w - i,
    {
        let x = inner.x.saturating_add(i);
        let (ch, fg) = if (i as u32) < full {
            ('\u{2588}', bar.foreground_color)
        } else if i as u32 == full && full < inner.w as u32 {
            (sub_block_of(rem), bar.foreground_color)
        } else {
            ('\u{2591}', bar.background_color)
        };
        buf.set(x, inner.y, Cell::new(ch, fg, bar.background_color));
        i += 1;
    }
    assert(buf@ =~= fill_row(g0, inner, *bar));
}

/// Single-line box (`┌─┐│└┘`) on the track background.
fn draw_box(buf: &mut Buffer, rect: Rect, border: Color, bg: Color)
    requires
        old(buf).wf(),
    ensures
        final(buf).wf(),
        final(buf)@ == bar_box(old(buf)@, rect, border, bg),
{
    let bc = Attr::new(border, bg);
    let right = rect.right().saturating_sub(1);
    let bottom = rect.bottom().saturating_sub(1);
    let x1 = rect.x.saturating_add(1);
    let y1 = rect.y.saturating_add(1);
    let h = Cell::with_attr('\u{2500}', bc);
    let v = Cell::with_attr('\u{2502}', bc);
    buf.fill_rect(Rect::new(x1, rect.y, right.saturating_sub(x1), 1), h);
    buf.fill_rect(Rect::new(x1, bottom, right.saturating_sub(x1), 1), h);
    buf.fill_rect(Rect::new(rect.x, y1, 1, bottom.saturating_sub(y1)), v);
    buf.fill_rect(Rect::new(right, y1, 1, bottom.saturating_sub(y1)), v);
    buf.set(rect.x, rect.y, Cell::with_attr('\u{250c}', bc));
    buf.set(right, rect.y, Cell::with_attr('\u{2510}', bc));
    buf.set(rect.x, bottom, Cell::with_attr('\u{2514}', bc));
    buf.set(right, bottom, Cell::with_attr('\u{2518}', bc));
}

/// The fill follows the percentage: at 100% (or more) every cell of the
/// track is a full block, at 0% none is, and a cell that is full at one
/// percentage is full at every higher one.
pub proof fn lemma_fill_follows_pct(g: Grid, inner: Rect, bar: ProgressBar, pct2: u8, px: int)
    requires
        bar.pct <= pct2,
        inner.x <= px < inner.x + inner.w,
        g.in_bounds(px, inner.y as int),
    ensures
        bar.pct >= 100 ==> (fill_row(g, inner, bar).at)(px, inner.y as int).ch == '\u{2588}',
        bar.pct == 0 ==> (fill_row(g, inner, bar).at)(px, inner.y as int).ch != '\u{2588}',
        (fill_row(g, inner, bar).at)(px, inner.y as int).ch == '\u{2588}' ==> (fill_row(
            g,
            inner,
            ProgressBar { pct: pct2, ..bar },
        ).at)(px, inner.y as int).ch == '\u{2588}',
{
    let w = inner.w as int;
    let i = px - inner.x;
    let p1 = min_int(bar.pct as int, 100);
    let p2 = min_int(pct2 as int, 100);
    let t1 = p1 * w * 8 / 100;
    let t2 = p2 * w * 8 / 100;
    assert(0 <= p1 * w * 8 <= p2 * w * 8) by (nonlinear_arith)
        requires
            0 <= p1 <= p2,
            0 <= w,
    ;
    vstd::arithmetic::div_mod::lemma_div_is_ordered(p1 * w * 8, p2 * w * 8, 100);
    vstd::arithmetic::div_mod::lemma_div_is_ordered(t1, t2, 8);
    if bar.pct >= 100 {
        assert(100 * w * 8 == (w * 8) * 100) by (nonlinear_arith);
        vstd::arithmetic::div_mod::lemma_div_multiples_vanish(w * 8, 100);
        vstd::arithmetic::div_mod::lemma_div_multiples_vanish(w, 8);
        assert(w * 8 == 8 * w) by (nonlinear_arith);
    }
    if bar.pct == 0 {
        assert(0 * w * 8 == 0) by (nonlinear_arith);
    }
    assert(sub_block(t1 % 8) != '\u{2588}') by {
        vstd::arithmetic::div_mod::lemma_mod_bound(t1, 8);
    }
}

} // verus!
