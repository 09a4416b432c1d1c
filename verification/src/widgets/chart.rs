//! Analytic charts in text mode, drawn from values already scaled to
//! cells: the frame and title, the Y axis, solid bars with their labels,
//! the axes of a line chart with a tick under each point, the stacked
//! distribution bar with its flowing legend, and OHLC candles. (Scaling a
//! series works on floating-point values and is done by the caller, which
//! hands these functions the heights, widths, rows and axis texts.)

use vstd::prelude::*;

use crate::engine::buffer::{Buffer, Grid, paint_run, paint_seq};
use crate::engine::cell::Cell;
use crate::engine::color::{Attr, Color};
use crate::engine::rect::{Rect, max_int, min_int, sat_add, sat_sub};
use crate::engine::theme::Theme;
use crate::prim::label::{draw_text, fit_spec, fit_text, hot_clean, visible_len};
use crate::prim::shadow::{ShadowStyle, shadow, shadow_grid};
use crate::text::seq_width;
use crate::widgets::common::{draw_ring, ring, strings_view};

verus! {

/// Render mode of a chart: solid bars, a sub-cell polyline, or a stacked
/// distribution bar with its legend.
#[derive(Clone, Copy, Debug, PartialEq, Eq, Structural)]
pub enum ChartKind {
    Bars3D,
    Line,
    Pie,
}

impl Default for ChartKind {
    /// Bars.
    fn default() -> (r: Self)
        ensures
            r == ChartKind::Bars3D,
    {
        ChartKind::Bars3D
    }
}

/// The plot area inside a chart's frame: one column of air at each side,
/// the title row and a row of air at the top, one row at the bottom, and
/// the border's width on every side where there is a border.
pub open spec fn plot_area(rect: Rect, bordered: bool) -> Rect {
    let inset: int = if bordered { 1 } else { 0 };
    Rect {
        x: sat_add(sat_add(rect.x as int, inset), 1) as u16,
        y: sat_add(sat_add(rect.y as int, 1), 1) as u16,
        w: sat_sub(sat_sub(rect.w as int, inset * 2), 2) as u16,
        h: sat_sub(sat_sub(rect.h as int, 2), inset * 2) as u16,
    }
}

/// The chart's frame over `g`: the shadow (when asked), the background,
/// the title centred on the top row in bold (cut to the width less two),
/// and the solid border (when there is one).
pub open spec fn frame_grid(
    g: Grid,
    rect: Rect,
    title: Seq<char>,
    fg: Color,
    bg: Color,
    border: Option<Color>,
    has_shadow: bool,
) -> Grid {
    let g1 = if has_shadow { shadow_grid(g, rect, 2, 1, ShadowStyle::Translucent, Theme::spec_clipper()) } else { g };
    let g2 = g1.fill(rect, Cell::spec_new(' ', fg, bg));
    let fit = fit_spec(title, sat_sub(rect.w as int, 2));
    let tx = sat_add(rect.x as int, sat_sub(rect.w as int, seq_width(hot_clean(fit))) / 2);
    let g3 = if title.len() > 0 && rect.h >= 1 {
        paint_run(g2, tx, rect.y as int, paint_seq(fit, Attr { fg, bg, bold: true, dim: false }), false)
    } else {
        g2
    };
    match border {
        Some(c) => ring(g3, rect, Cell::spec_new(' ', c, c)),
        None => g3,
    }
}

/// Paints the frame of a chart (shadow, background, title, border) and
/// gives back the plot area inside it.
pub fn chart_frame(
    buf: &mut Buffer,
    rect: Rect,
    title: &str,
    fg: Color,
    bg: Color,
    border: Option<Color>,
    has_shadow: bool,
) -> (r: Rect)
    requires
        old(buf).wf(),
    ensures
        final(buf).wf(),
        final(buf)@ == frame_grid(old(buf)@, rect, title@, fg, bg, border, has_shadow),
        r == plot_area(rect, border is Some),
{
    if has_shadow {
        shadow(buf, rect, Theme::clipper());
    }
    buf.fill_rect(rect, Cell::new(' ', fg, bg));
    if crate::text::str_len(title) > 0 && rect.h >= 1 {
        let fit = fit_text(title, rect.w.saturating_sub(2));
        let tx = rect.x.saturating_add(rect.w.saturating_sub(visible_len(fit.as_str())) / 2);
        draw_text(buf, tx, rect.y, fit.as_str(), Attr::bold(fg, bg));
    }
    match border {
        Some(c) => {
            draw_ring(buf, rect, Cell::new(' ', c, c));
        },
        None => {},
    }
    let inset: u16 = if border.is_some() { 1 } else { 0 };
    Rect::new(
        rect.x.saturating_add(inset).saturating_add(1),
        rect.y.saturating_add(1).saturating_add(1),
        rect.w.saturating_sub(inset * 2).saturating_sub(2),
        rect.h.saturating_sub(2).saturating_sub(inset * 2),
    )
}

/// The text shown on a chart without data.
pub open spec fn no_data() -> Seq<char> {
    seq!['(', 's', 'i', 'n', ' ', 'd', 'a', 't', 'o', 's', ')']
}

/// A chart's shell over `g`: nothing on a rectangle under six columns or
/// four rows; else the frame, and on a chart without data the text
/// `(sin datos)` at the top left of the plot (cut to its width).
pub open spec fn shell_grid(
    g: Grid,
    rect: Rect,
    title: Seq<char>,
    fg: Color,
    bg: Color,
    border: Option<Color>,
    has_shadow: bool,
    has_data: bool,
) -> Grid {
    if rect.w < 6 || rect.h < 4 {
        g
    } else {
        let g1 = frame_grid(g, rect, title, fg, bg, border, has_shadow);
        let plot = plot_area(rect, border is Some);
        if plot.spec_is_empty() || has_data {
            g1
        } else {
            paint_run(g1, plot.x as int, plot.y as int, paint_seq(fit_spec(no_data(), plot.w as int), Attr { fg, bg, bold: false, dim: false }), false)
        }
    }
}

/// Where a chart's data is drawn after its shell: the plot, when the
/// rectangle is large enough, the plot is not empty and there is data.
pub open spec fn shell_plot(rect: Rect, border: Option<Color>, has_data: bool) -> Option<Rect> {
    let plot = plot_area(rect, border is Some);
    if rect.w < 6 || rect.h < 4 || plot.spec_is_empty() || !has_data {
        None
    } else {
        Some(plot)
    }
}

/// Paints a chart's shell (see `shell_grid`) and gives the plot where the
/// bars, line or distribution go (see `shell_plot`).
pub fn chart_shell(
    buf: &mut Buffer,
    rect: Rect,
    title: &str,
    fg: Color,
    bg: Color,
    border: Option<Color>,
    has_shadow: bool,
    has_data: bool,
) -> (r: Option<Rect>)
    requires
        old(buf).wf(),
    ensures
        final(buf).wf(),
        final(buf)@ == shell_grid(old(buf)@, rect, title@, fg, bg, border, has_shadow, has_data),
        r == shell_plot(rect, border, has_data),
{
    if rect.w < 6 || rect.h < 4 {
        return None;
    }
    let plot = chart_frame(buf, rect, title, fg, bg, border, has_shadow);
    if plot.is_empty() {
        return None;
    }
    if !has_data {
        let s = "(sin datos)";
        proof {
            reveal_strlit("(sin datos)");
            assert(s@ =~= no_data());
        }
        let fit = fit_text(s, plot.w);
        draw_text(buf, plot.x, plot.y, fit.as_str(), Attr::new(fg, bg));
        return None;
    }
    Some(plot)
}

/// Width kept for a chart's Y axis: five cells of number, one of air and
/// the joint.
pub const AXIS_W: u16 = 7;

/// The vertical rule of an axis on column `x`, rows `top .. top + n`,
/// skipping row `top` and row `mid`.
pub open spec fn rule_walk(g: Grid, x: int, top: int, mid: int, n: nat, c: Cell) -> Grid
    decreases n,
{
    if n == 0 {
        g
    } else {
        let g1 = rule_walk(g, x, top, mid, (n - 1) as nat, c);
        let y = top + n - 1;
        if y != top && y != mid {
            g1.set(x, y, c)
        } else {
            g1
        }
    }
}

/// A Y axis on column `x`: `top_text` and the joint `┤` on row `top`, the
/// middle text and `┤` on row `mid` (when that row is neither the top nor
/// the base), the rule `│` on the other rows above the base, and
/// `base_text` with the cross `┼` on row `base`. The joints stand six
/// columns right of `x`.
pub open spec fn y_axis_grid(
    g: Grid,
    x: int,
    top: int,
    mid: int,
    base: int,
    top_text: Seq<char>,
    mid_text: Seq<char>,
    base_text: Seq<char>,
    a: Attr,
) -> Grid {
    let jx = sat_add(x, 6);
    let g1 = paint_run(g, x, top, paint_seq(top_text, a), false).set(jx, top, Cell::spec_with_attr('\u{2524}', a));
    let g2 = if mid != top && mid != base {
        paint_run(g1, x, mid, paint_seq(mid_text, a), false).set(jx, mid, Cell::spec_with_attr('\u{2524}', a))
    } else {
        g1
    };
    let n: nat = if base > top { (base - top) as nat } else { 0 };
    let g3 = rule_walk(g2, jx, top, mid, n, Cell::spec_with_attr('\u{2502}', a));
    paint_run(g3, x, base, paint_seq(base_text, a), false).set(jx, base, Cell::spec_with_attr('\u{253c}', a))
}

/// Paints a chart's Y axis (see `y_axis_grid`).
pub fn y_axis_draw(
    buf: &mut Buffer,
    x: u16,
    top: u16,
    mid: u16,
    base: u16,
    top_text: &str,
    mid_text: &str,
    base_text: &str,
    a: Attr,
)
    requires
        old(buf).wf(),
    ensures
        final(buf).wf(),
        final(buf)@ == y_axis_grid(
            old(buf)@,
            x as int,
            top as int,
            mid as int,
            base as int,
            top_text@,
            mid_text@,
            base_text@,
            a,
        ),
{
    let jx = x.saturating_add(6);
    draw_text(buf, x, top, top_text, a);
    buf.set(jx, top, Cell::with_attr('\u{2524}', a));
    if mid != top && mid != base {
        draw_text(buf, x, mid, mid_text, a);
        buf.set(jx, mid, Cell::with_attr('\u{2524}', a));
    }
    let rule = Cell::with_attr('\u{2502}', a);
    let ghost g2 = buf@;
    let mut y: u16 = top;
    while y < base
        invariant
            buf.wf(),
            top <= y,
            y <= base || y == top,
            buf@ == rule_walk(g2, jx as int, top as int, mid as int, (y - top) as nat, rule),
        decreases base - y,
    {
        if y != top && y != mid {
            buf.set(jx, y, rule);
        }
        y = y + 1;
    }
    draw_text(buf, x, base, base_text, a);
    buf.set(jx, base, Cell::with_attr('\u{253c}', a));
}

/// The solid block of bars.
pub const FULL: char = '\u{2588}';

/// The first three characters of a label (all of it when shorter).
pub open spec fn bar_label(label: Seq<char>) -> Seq<char> {
    if label.len() <= 3 { label } else { label.take(3) }
}

/// One bar in column `x`: a solid block three cells wide rising `bh` rows
/// above the label row, and the label cut to three characters, centred
/// under it on the label row.
pub open spec fn bar_grid(g: Grid, x: int, label_row: int, bh: int, label: Seq<char>, fg: Color, bg: Color) -> Grid {
    let top = sat_sub(label_row, bh);
    let g1 = g.fill(Rect { x: x as u16, y: top as u16, w: 3, h: (label_row - top) as u16 }, Cell::spec_new(FULL, fg, bg));
    let lab = bar_label(label);
    let lw = seq_width(hot_clean(lab));
    paint_run(g1, sat_add(x, sat_sub(3, lw) / 2), label_row, paint_seq(lab, Attr { fg, bg, bold: false, dim: false }), false)
}

/// The first `k` bars, four columns apart from `x0`; a bar that would
/// pass `right` is not drawn (nor is any after it).
pub open spec fn bars_walk(
    g: Grid,
    x0: int,
    right: int,
    label_row: int,
    heights: Seq<u16>,
    labels: Seq<Seq<char>>,
    fg: Color,
    bg: Color,
    k: nat,
) -> Grid
    decreases k,
{
    if k == 0 {
        g
    } else {
        let g1 = bars_walk(g, x0, right, label_row, heights, labels, fg, bg, (k - 1) as nat);
        let x = sat_add(x0, 4 * (k - 1));
        if x + 3 > right {
            g1
        } else {
            bar_grid(g1, x, label_row, heights[k - 1] as int, labels[k - 1], fg, bg)
        }
    }
}

/// Once a bar does not fit, none of the later ones is drawn.
proof fn lemma_bars_stop(
    g: Grid,
    x0: int,
    right: int,
    label_row: int,
    heights: Seq<u16>,
    labels: Seq<Seq<char>>,
    fg: Color,
    bg: Color,
    i: nat,
    k: nat,
)
    requires
        i <= k,
        x0 >= 0,
        sat_add(x0, 4 * (i as int)) + 3 > right,
    ensures
        bars_walk(g, x0, right, label_row, heights, labels, fg, bg, k) == bars_walk(
            g,
            x0,
            right,
            label_row,
            heights,
            labels,
            fg,
            bg,
            i,
        ),
    decreases k,
{
    if k > i {
        lemma_bars_stop(g, x0, right, label_row, heights, labels, fg, bg, i, (k - 1) as nat);
        assert(sat_add(x0, 4 * (k - 1)) >= sat_add(x0, 4 * (i as int)));
    }
}

/// The axis numbers of the base: zero with one decimal in five cells.
pub open spec fn zero_axis() -> Seq<char> {
    seq![' ', ' ', '0', '.', '0']
}

/// A bar chart's plot: the Y axis (`top_text` at the top, `mid_text` half
/// way down, zero at the base) and one bar per height, each with its
/// label under it. Nothing when the plot is under eleven columns or three
/// rows.
pub open spec fn bars_grid(
    g: Grid,
    plot: Rect,
    top_text: Seq<char>,
    mid_text: Seq<char>,
    heights: Seq<u16>,
    labels: Seq<Seq<char>>,
    fg: Color,
    bg: Color,
) -> Grid {
    if plot.w < AXIS_W + 4 || plot.h < 3 {
        g
    } else {
        let a = Attr { fg, bg, bold: false, dim: false };
        let label_row = sat_sub(plot.spec_bottom() as int, 1);
        let mid_row = sat_add(plot.y as int, (plot.h - 1) / 2);
        let g1 = y_axis_grid(g, plot.x as int, plot.y as int, mid_row, label_row, top_text, mid_text, zero_axis(), a);
        let n: nat = if heights.len() <= labels.len() { heights.len() } else { labels.len() };
        bars_walk(g1, sat_add(plot.x as int, AXIS_W as int), plot.spec_right() as int, label_row, heights, labels, fg, bg, n)
    }
}

/// Paints one bar (see `bar_grid`).
fn bar_draw(buf: &mut Buffer, x: u16, label_row: u16, bh: u16, label: &str, fg: Color, bg: Color)
    requires
        old(buf).wf(),
    ensures
        final(buf).wf(),
        final(buf)@ == bar_grid(old(buf)@, x as int, label_row as int, bh as int, label@, fg, bg),
{
    let top = label_row.saturating_sub(bh);
    buf.fill_rect(Rect::new(x, top, 3, label_row - top), Cell::new(FULL, fg, bg));
    let chars = crate::text::chars_of(label);
    let mut lab_chars: Vec<char> = Vec::new();
    let mut i: usize = 0;
    let lim: usize = if chars.len() <= 3 { chars.len() } else { 3 };
    while i < lim
        invariant
            lim <= chars@.len(),
            lim == (if chars@.len() <= 3 { chars@.len() } else { 3 }),
            i <= lim,
            lab_chars@ == chars@.take(i as int),
        decreases lim - i,
    {
        lab_chars.push(chars[i]);
        i += 1;
        assert(lab_chars@ =~= chars@.take(i as int));
    }
    assert(lab_chars@ =~= bar_label(label@));
    let lab = crate::text::string_from_chars(&lab_chars);
    let lw = visible_len(lab.as_str());
    draw_text(buf, x.saturating_add(3u16.saturating_sub(lw) / 2), label_row, lab.as_str(), Attr::new(fg, bg));
}

/// Paints a bar chart's plot (see `bars_grid`): the heights come from the
/// series scaled to the plot's height less one, the axis texts from its
/// largest value.
pub fn bars_draw(
    buf: &mut Buffer,
    plot: Rect,
    top_text: &str,
    mid_text: &str,
    heights: &[u16],
    labels: &[String],
    fg: Color,
    bg: Color,
)
    requires
        old(buf).wf(),
    ensures
        final(buf).wf(),
        final(buf)@ == bars_grid(old(buf)@, plot, top_text@, mid_text@, heights@, strings_view(labels@), fg, bg),
{
    if plot.w < AXIS_W + 4 || plot.h < 3 {
        return;
    }
    let a = Attr::new(fg, bg);
    let label_row = plot.bottom().saturating_sub(1);
    let mid_row = plot.y.saturating_add((plot.h - 1) / 2);
    let zero = "  0.0";
    proof {
        reveal_strlit("  0.0");
        assert(zero@ =~= zero_axis());
    }
    y_axis_draw(buf, plot.x, plot.y, mid_row, label_row, top_text, mid_text, zero, a);
    let n: usize = if heights.len() <= labels.len() { heights.len() } else { labels.len() };
    let x0 = plot.x.saturating_add(AXIS_W);
    let right = plot.right();
    let ghost g1 = buf@;
    let ghost lv = strings_view(labels@);
    let mut i: usize = 0;
    let mut x: u16 = x0;
    while i < n && (x as u32) + 3 <= right as u32
        invariant
            buf.wf(),
            n <= heights@.len(),
            n <= labels@.len(),
            i <= n,
            x as int == sat_add(x0 as int, 4 * i),
            lv == strings_view(labels@),
            buf@ == bars_walk(g1, x0 as int, right as int, label_row as int, heights@, lv, fg, bg, i as nat),
        decreases n - i,
    {
        bar_draw(buf, x, label_row, heights[i], labels[i].as_str(), fg, bg);
        x = x.saturating_add(4);
        i += 1;
    }
    proof {
        if i < n {
            lemma_bars_stop(g1, x0 as int, right as int, label_row as int, heights@, lv, fg, bg, i as nat, n as nat);
        }
    }
}

/// Colour of section `i` of a distribution bar (eight, on a light
/// background, then round again).
pub open spec fn dist_color(i: int) -> Color {
    let k = i % 8;
    if k == 0 {
        Color::Blue
    } else if k == 1 {
        Color::Red
    } else if k == 2 {
        Color::Green
    } else if k == 3 {
        Color::Teal
    } else if k == 4 {
        Color::Yellow
    } else if k == 5 {
        Color::Navy
    } else if k == 6 {
        Color::Cyan
    } else {
        Color::Grey
    }
}

/// Colour of section `i`.
pub fn dist_color_of(i: usize) -> (r: Color)
    ensures
        r == dist_color(i as int),
{
    let k = i % 8;
    if k == 0 {
        Color::Blue
    } else if k == 1 {
        Color::Red
    } else if k == 2 {
        Color::Green
    } else if k == 3 {
        Color::Teal
    } else if k == 4 {
        Color::Yellow
    } else if k == 5 {
        Color::Navy
    } else if k == 6 {
        Color::Cyan
    } else {
        Color::Grey
    }
}

/// Sum of the first `k` widths.
pub open spec fn widths_sum(widths: Seq<u16>, k: nat) -> int
    decreases k,
{
    if k == 0 || k > widths.len() {
        0
    } else {
        widths_sum(widths, (k - 1) as nat) + widths[k - 1]
    }
}

/// The first `k` sections of a distribution bar two rows high from
/// `(x0, y)`, side by side, each as wide as its width, in its colour.
pub open spec fn dist_walk(g: Grid, x0: int, y: int, widths: Seq<u16>, k: nat) -> Grid
    decreases k,
{
    if k == 0 || k > widths.len() {
        g
    } else {
        let c = dist_color(k - 1);
        dist_walk(g, x0, y, widths, (k - 1) as nat).fill(
            Rect {
                x: sat_add(x0, widths_sum(widths, (k - 1) as nat)) as u16,
                y: y as u16,
                w: widths[k - 1],
                h: 2,
            },
            Cell::spec_new(' ', c, c),
        )
    }
}

/// The legend after `k` entries: each a square `■` in its section's colour
/// and the entry's text, flowing along the rows below the bar and going
/// down a row when an entry would pass the right edge; it stops at the
/// bottom. Gives the grid, the next column and row, and whether it stopped.
pub open spec fn legend_walk(
    g: Grid,
    plot: Rect,
    entries: Seq<Seq<char>>,
    fg: Color,
    bg: Color,
    k: nat,
) -> (Grid, int, int, bool)
    decreases k,
{
    if k == 0 || k > entries.len() {
        (g, plot.x as int, sat_add(plot.y as int, 3), false)
    } else {
        let (g1, lx, ly, stop) = legend_walk(g, plot, entries, fg, bg, (k - 1) as nat);
        if stop {
            (g1, lx, ly, true)
        } else {
            let e = entries[k - 1];
            let w = sat_add(seq_width(hot_clean(e)), 2);
            let wrap = sat_add(lx, w) > plot.spec_right() && lx != plot.x;
            let lx2 = if wrap { plot.x as int } else { lx };
            let ly2 = if wrap { sat_add(ly, 1) } else { ly };
            if ly2 >= plot.spec_bottom() {
                (g1, lx2, ly2, true)
            } else {
                let g2 = g1.set(lx2, ly2, Cell::spec_new('\u{25a0}', dist_color(k - 1), bg));
                let tx = sat_add(lx2, 2);
                let g3 = paint_run(
                    g2,
                    tx,
                    ly2,
                    paint_seq(fit_spec(e, sat_sub(plot.spec_right() as int, tx)), Attr { fg, bg, bold: false, dim: false }),
                    false,
                );
                (g3, sat_add(sat_add(lx2, w), 3), ly2, false)
            }
        }
    }
}

/// A distribution chart's plot: the stacked bar (two rows, one section
/// per width) and, from the row after the next, the legend. Nothing when
/// the plot is under three rows or four columns.
pub open spec fn pie_grid(g: Grid, plot: Rect, widths: Seq<u16>, entries: Seq<Seq<char>>, fg: Color, bg: Color) -> Grid {
    if plot.h < 3 || plot.w < 4 {
        g
    } else {
        let g1 = dist_walk(g, plot.x as int, plot.y as int, widths, widths.len());
        legend_walk(g1, plot, entries, fg, bg, entries.len()).0
    }
}

/// Paints a distribution chart's plot (see `pie_grid`): the widths are
/// each value's share of the plot's width, the entries `label (n%)`.
#[verifier::rlimit(50)]
pub fn pie_draw(buf: &mut Buffer, plot: Rect, widths: &[u16], entries: &[String], fg: Color, bg: Color)
    requires
        old(buf).wf(),
    ensures
        final(buf).wf(),
        final(buf)@ == pie_grid(old(buf)@, plot, widths@, strings_view(entries@), fg, bg),
{
    if plot.h < 3 || plot.w < 4 {
        return;
    }
    let ghost g0 = buf@;
    let mut i: usize = 0;
    let mut x: u16 = plot.x;
    while i < widths.len()
        invariant
            buf.wf(),
            i <= widths@.len(),
            x as int == sat_add(plot.x as int, widths_sum(widths@, i as nat)),
            buf@ == dist_walk(g0, plot.x as int, plot.y as int, widths@, i as nat),
        decreases widths.len() - i,
    {
        let c = dist_color_of(i);
        buf.fill_rect(Rect::new(x, plot.y, widths[i], 2), Cell::new(' ', c, c));
        proof {
            assert(widths_sum(widths@, (i + 1) as nat) == widths_sum(widths@, i as nat) + widths@[i as int]);
        }
        x = x.saturating_add(widths[i]);
        i += 1;
    }
    let ghost g1 = buf@;
    let ghost ev = strings_view(entries@);
    let mut k: usize = 0;
    let mut lx: u16 = plot.x;
    let mut ly: u16 = plot.y.saturating_add(3);
    let mut stop = false;
    while k < entries.len() && !stop
        invariant
            buf.wf(),
            k <= entries@.len(),
            ev == strings_view(entries@),
            legend_walk(g1, plot, ev, fg, bg, k as nat) == (buf@, lx as int, ly as int, stop),
        decreases entries.len() - k + (if stop { 0int } else { 1int }),
    {
        let e = entries[k].as_str();
        let w = visible_len(e).saturating_add(2);
        if lx.saturating_add(w) > plot.right() && lx != plot.x {
            lx = plot.x;
            ly = ly.saturating_add(1);
        }
        if ly >= plot.bottom() {
            stop = true;
        } else {
            buf.set(lx, ly, Cell::new('\u{25a0}', dist_color_of(k), bg));
            let tx = lx.saturating_add(2);
            let fit = fit_text(e, plot.right().saturating_sub(tx));
            draw_text(buf, tx, ly, fit.as_str(), Attr::new(fg, bg));
            lx = lx.saturating_add(w).saturating_add(3);
        }
        k += 1;
    }
    proof {
        lemma_legend_stays(g1, plot, ev, fg, bg, k as nat, entries@.len());
    }
}

/// Once the legend has stopped, later entries change nothing.
proof fn lemma_legend_stays(g: Grid, plot: Rect, entries: Seq<Seq<char>>, fg: Color, bg: Color, i: nat, k: nat)
    requires
        i <= k,
        legend_walk(g, plot, entries, fg, bg, i).3 || i == k || i == entries.len(),
        k <= entries.len(),
    ensures
        legend_walk(g, plot, entries, fg, bg, k) == legend_walk(g, plot, entries, fg, bg, i),
    decreases k,
{
    if k > i {
        lemma_legend_stays(g, plot, entries, fg, bg, i, (k - 1) as nat);
    }
}

/// Rows, from the top of the area, of a candle's high, low, open and
/// close, and whether it closed at or above its open.
#[derive(Clone, Copy, Debug, PartialEq, Eq, Structural)]
pub struct CandleRows {
    pub high: u16,
    pub low: u16,
    pub open: u16,
    pub close: u16,
    pub up: bool,
}

/// One candle in column `x` of `rect` (rows cut to the last row of the
/// area): the wick `│` from high to low and the body `█` between open and
/// close, green when it closed up, red when down.
pub open spec fn candle_grid(g: Grid, x: int, rect: Rect, c: CandleRows, bg: Color) -> Grid {
    let last = rect.h - 1;
    let hi = min_int(c.high as int, last);
    let lo = min_int(c.low as int, last);
    let o = min_int(c.open as int, last);
    let cl = min_int(c.close as int, last);
    let col = if c.up { Color::Green } else { Color::Red };
    let g1 = if hi <= lo {
        g.fill(
            Rect { x: x as u16, y: sat_add(rect.y as int, hi) as u16, w: 1, h: (lo - hi + 1) as u16 },
            Cell::spec_new('\u{2502}', col, bg),
        )
    } else {
        g
    };
    let top = min_int(o, cl);
    let bot = max_int(o, cl);
    g1.fill(Rect { x: x as u16, y: sat_add(rect.y as int, top) as u16, w: 1, h: (bot - top + 1) as u16 }, Cell::spec_new(FULL, col, bg))
}

/// The first `k` candles, one column each from the left of `rect`; the
/// ones past its right edge are not drawn.
pub open spec fn candles_walk(g: Grid, rect: Rect, cs: Seq<CandleRows>, bg: Color, k: nat) -> Grid
    decreases k,
{
    if k == 0 || k > cs.len() {
        g
    } else {
        let g1 = candles_walk(g, rect, cs, bg, (k - 1) as nat);
        let x = sat_add(rect.x as int, k - 1);
        if x >= rect.spec_right() {
            g1
        } else {
            candle_grid(g1, x, rect, cs[k - 1], bg)
        }
    }
}

/// Once a candle falls past the right edge, so do all later ones.
proof fn lemma_candles_stop(g: Grid, rect: Rect, cs: Seq<CandleRows>, bg: Color, i: nat, k: nat)
    requires
        i <= k,
        k <= cs.len(),
        sat_add(rect.x as int, i as int) >= rect.spec_right(),
    ensures
        candles_walk(g, rect, cs, bg, k) == candles_walk(g, rect, cs, bg, i),
    decreases k,
{
    if k > i {
        lemma_candles_stop(g, rect, cs, bg, i, (k - 1) as nat);
        assert(sat_add(rect.x as int, k - 1) >= sat_add(rect.x as int, i as int));
    }
}

/// OHLC candles over `rect` (see `candles_walk`); nothing for an empty
/// area or no candles.
pub open spec fn candles_grid(g: Grid, rect: Rect, cs: Seq<CandleRows>, bg: Color) -> Grid {
    if cs.len() == 0 || rect.spec_is_empty() {
        g
    } else {
        candles_walk(g, rect, cs, bg, cs.len())
    }
}

/// Paints one candle (see `candle_grid`).
fn candle_draw_one(buf: &mut Buffer, x: u16, rect: Rect, c: CandleRows, bg: Color)
    requires
        old(buf).wf(),
        rect.h >= 1,
    ensures
        final(buf).wf(),
        final(buf)@ == candle_grid(old(buf)@, x as int, rect, c, bg),
{
    let last = rect.h - 1;
    let hi = if c.high < last { c.high } else { last };
    let lo = if c.low < last { c.low } else { last };
    let o = if c.open < last { c.open } else { last };
    let cl = if c.close < last { c.close } else { last };
    let col = if c.up { Color::Green } else { Color::Red };
    if hi <= lo {
        buf.fill_rect(Rect::new(x, rect.y.saturating_add(hi), 1, lo - hi + 1), Cell::new('\u{2502}', col, bg));
    }
    let top = if o < cl { o } else { cl };
    let bot = if o < cl { cl } else { o };
    buf.fill_rect(Rect::new(x, rect.y.saturating_add(top), 1, bot - top + 1), Cell::new(FULL, col, bg));
}

/// Paints OHLC candles (see `candles_grid`): the rows come from each
/// price scaled between the highest high (top row) and the lowest low.
pub fn candles_draw(buf: &mut Buffer, rect: Rect, cs: &[CandleRows], bg: Color)
    requires
        old(buf).wf(),
    ensures
        final(buf).wf(),
        final(buf)@ == candles_grid(old(buf)@, rect, cs@, bg),
{
    if cs.len() == 0 || rect.is_empty() {
        return;
    }
    let ghost g0 = buf@;
    let right = rect.right();
    let mut i: usize = 0;
    let mut x: u16 = rect.x;
    let mut past = false;
    while i < cs.len() && !past
        invariant
            buf.wf(),
            i <= cs@.len(),
            rect.h >= 1,
            right == rect.spec_right(),
            !past ==> x as int == sat_add(rect.x as int, i as int),
            past ==> i >= 1 && sat_add(rect.x as int, (i - 1) as int) >= rect.spec_right(),
            buf@ == candles_walk(g0, rect, cs@, bg, (if past { (i - 1) as nat } else { i as nat })),
        decreases cs.len() - i,
    {
        if x >= right {
            past = true;
        } else {
            candle_draw_one(buf, x, rect, cs[i], bg);
            x = x.saturating_add(1);
        }
        i += 1;
    }
    proof {
        if past {
            lemma_candles_stop(g0, rect, cs@, bg, (i - 1) as nat, cs@.len());
        }
    }
}

/// Cell column of data point `i` of `n` across `cw` columns: the points
/// spread evenly from the first column to the last.
pub open spec fn point_col_spec(i: int, n: int, cw: int) -> int {
    if n <= 1 {
        0
    } else {
        i * (cw - 1) / (n - 1)
    }
}

/// Column of data point `i` of `n` (for ticks and the last-value badge).
pub fn point_col(i: usize, n: usize, cw: u16) -> (r: u16)
    requires
        i < n,
        cw >= 1,
    ensures
        r == point_col_spec(i as int, n as int, cw as int),
        r < cw,
{
    if n <= 1 {
        0
    } else {
        let a: u128 = i as u128;
        let b: u128 = cw as u128 - 1;
        assert(a * b <= 0xffff_ffff_ffff_ffff * 0xffff) by (nonlinear_arith)
            requires
                a <= 0xffff_ffff_ffff_ffff,
                b <= 0xffff,
        ;
        let num: u128 = a * b;
        proof {
            assert(i as int * (cw as int - 1) <= (n as int - 1) * (cw as int - 1)) by (nonlinear_arith)
                requires
                    i < n,
                    cw >= 1,
            ;
            assert((i as int * (cw as int - 1)) / (n as int - 1) <= cw as int - 1) by (nonlinear_arith)
                requires
                    0 <= i as int * (cw as int - 1) <= (n as int - 1) * (cw as int - 1),
                    n as int - 1 >= 1,
            ;
        }
        (num / (n as u128 - 1)) as u16
    }
}

/// Whether some data point of `n` falls in column `c` of `cw`.
pub open spec fn tick_at(n: int, cw: int, c: int) -> bool {
    exists|i: int| 0 <= i < n && point_col_spec(i, n, cw) == c
}

/// The base line's first `k` columns from `x0` on row `y`: `┴` under a
/// data point, `─` elsewhere.
pub open spec fn ticks_walk(g: Grid, x0: int, y: int, n: int, cw: int, a: Attr, k: nat) -> Grid
    decreases k,
{
    if k == 0 {
        g
    } else {
        let c = if tick_at(n, cw, k - 1) { '\u{2534}' } else { '\u{2500}' };
        ticks_walk(g, x0, y, n, cw, a, (k - 1) as nat).set(sat_add(x0, k - 1), y, Cell::spec_with_attr(c, a))
    }
}

/// A line chart's axes for `n` data points: the Y axis (`top_text`,
/// `mid_text`, `base_text`) on the left seven columns, the curve's area to
/// its right on all rows but the last, and on the last the base line with
/// a tick under each point. Nothing when the plot is under ten columns or
/// three rows (the curve then fills the plot alone).
pub open spec fn line_axes_grid(
    g: Grid,
    plot: Rect,
    top_text: Seq<char>,
    mid_text: Seq<char>,
    base_text: Seq<char>,
    n: int,
    fg: Color,
    bg: Color,
) -> Grid {
    if plot.w < AXIS_W + 3 || plot.h < 3 {
        g
    } else {
        let a = Attr { fg, bg, bold: false, dim: false };
        let cw = plot.w - AXIS_W;
        let ch = plot.h - 1;
        let g1 = y_axis_grid(
            g,
            plot.x as int,
            plot.y as int,
            sat_add(plot.y as int, (ch - 1) / 2),
            sat_add(plot.y as int, ch),
            top_text,
            mid_text,
            base_text,
            a,
        );
        ticks_walk(g1, sat_add(plot.x as int, AXIS_W as int), sat_add(plot.y as int, ch), n, cw, a, cw as nat)
    }
}

/// The area of a line chart's curve: right of the Y axis, above the base
/// line (the whole plot when there is no room for axes).
pub open spec fn line_area(plot: Rect) -> Rect {
    if plot.w < AXIS_W + 3 || plot.h < 3 {
        plot
    } else {
        Rect { x: sat_add(plot.x as int, AXIS_W as int) as u16, y: plot.y, w: (plot.w - AXIS_W) as u16, h: (plot.h - 1) as u16 }
    }
}

/// The curve's area (see `line_area`).
pub fn line_area_of(plot: Rect) -> (r: Rect)
    ensures
        r == line_area(plot),
{
    if plot.w < AXIS_W + 3 || plot.h < 3 {
        plot
    } else {
        Rect::new(plot.x.saturating_add(AXIS_W), plot.y, plot.w - AXIS_W, plot.h - 1)
    }
}

/// Paints a line chart's axes (see `line_axes_grid`); the texts are the
/// largest, middle and smallest values.
pub fn line_axes_draw(
    buf: &mut Buffer,
    plot: Rect,
    top_text: &str,
    mid_text: &str,
    base_text: &str,
    n: usize,
    fg: Color,
    bg: Color,
)
    requires
        old(buf).wf(),
    ensures
        final(buf).wf(),
        final(buf)@ == line_axes_grid(old(buf)@, plot, top_text@, mid_text@, base_text@, n as int, fg, bg),
{
    if plot.w < AXIS_W + 3 || plot.h < 3 {
        return;
    }
    let a = Attr::new(fg, bg);
    let cw = plot.w - AXIS_W;
    let ch = plot.h - 1;
    let by = plot.y.saturating_add(ch);
    y_axis_draw(buf, plot.x, plot.y, plot.y.saturating_add((ch - 1) / 2), by, top_text, mid_text, base_text, a);
    let mut tick: Vec<bool> = Vec::new();
    let mut c: u16 = 0;
    while c < cw
        invariant
            c <= cw,
            tick@.len() == c,
            forall|j: int| 0 <= j < c ==> !#[trigger] tick@[j],
        decreases cw - c,
    {
        tick.push(false);
        c += 1;
    }
    let mut i: usize = 0;
    while i < n
        invariant
            cw >= 3,
            i <= n,
            tick@.len() == cw,
            forall|j: int|
                0 <= j < cw ==> #[trigger] tick@[j] == (exists|k: int| 0 <= k < i && point_col_spec(k, n as int, cw as int) == j),
        decreases n - i,
    {
        let p = point_col(i, n, cw);
        let ghost old_tick = tick@;
        tick.set(p as usize, true);
        proof {
            assert forall|j: int| 0 <= j < cw implies #[trigger] tick@[j] == (exists|k: int|
                0 <= k < i + 1 && point_col_spec(k, n as int, cw as int) == j) by {
                if j == p as int {
                    assert(point_col_spec(i as int, n as int, cw as int) == j);
                } else {
                    assert(tick@[j] == old_tick[j]);
                    if exists|k: int| 0 <= k < i + 1 && point_col_spec(k, n as int, cw as int) == j {
                        let k = choose|k: int| 0 <= k < i + 1 && point_col_spec(k, n as int, cw as int) == j;
                        assert(k != i);
                        assert(0 <= k < i && point_col_spec(k, n as int, cw as int) == j);
                    }
                }
            }
        }
        i += 1;
    }
    let x0 = plot.x.saturating_add(AXIS_W);
    let ghost g1 = buf@;
    let mut dx: u16 = 0;
    while dx < cw
        invariant
            buf.wf(),
            dx <= cw,
            tick@.len() == cw,
            forall|j: int|
                0 <= j < cw ==> #[trigger] tick@[j] == tick_at(n as int, cw as int, j),
            buf@ == ticks_walk(g1, x0 as int, by as int, n as int, cw as int, a, dx as nat),
        decreases cw - dx,
    {
        let g = if tick[dx as usize] { '\u{2534}' } else { '\u{2500}' };
        buf.set(x0.saturating_add(dx), by, Cell::with_attr(g, a));
        dx += 1;
    }
}

/// Colour of a line chart's curve, with strict contrast: on a white
/// background, or with a yellow accent, always navy; otherwise the accent.
pub fn curve_color(background: Color, accent: Color) -> (r: Color)
    ensures
        r == (if background == Color::White || accent == Color::Yellow { Color::Navy } else { accent }),
{
    if background == Color::White || accent == Color::Yellow {
        Color::Navy
    } else {
        accent
    }
}

/// The data points spread over the whole width in order: the first point is
/// in the first column, the last (of two or more) in the last column, and a
/// later point never lies left of an earlier one.
pub proof fn lemma_point_cols_spread(i: int, j: int, n: int, cw: int)
    requires
        0 <= i <= j < n,
        cw >= 1,
    ensures
        point_col_spec(0, n, cw) == 0,
        n >= 2 ==> point_col_spec(n - 1, n, cw) == cw - 1,
        point_col_spec(i, n, cw) <= point_col_spec(j, n, cw),
        0 <= point_col_spec(j, n, cw) < cw,
{
    if n >= 2 {
        let d = n - 1;
        let s = cw - 1;
        assert(0 <= i * s <= j * s <= d * s) by (nonlinear_arith)
            requires
                0 <= i <= j <= d,
                0 <= s,
        ;
        vstd::arithmetic::div_mod::lemma_div_is_ordered(i * s, j * s, d);
        vstd::arithmetic::div_mod::lemma_div_is_ordered(j * s, d * s, d);
        vstd::arithmetic::div_mod::lemma_div_pos_is_pos(i * s, d);
        vstd::arithmetic::div_mod::lemma_div_multiples_vanish(s, d);
        assert(d * s == s * d) by (nonlinear_arith);
        assert((n - 1) * (cw - 1) == d * s);
        assert(0 * s == 0);
    }
}

} // verus!
