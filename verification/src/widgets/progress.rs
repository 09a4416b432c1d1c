//! Progress with stacked bars: a mint dialog holding real `ProgressBar`s.
//!
//! Each bar takes three rows: `0 ... 100 %` / the bar / `label  cur/total`.
//! The middle row is drawn by `progressbar_draw` (block eighths + `NN%`).

use vstd::prelude::*;

use crate::engine::buffer::{Buffer, Grid, paint_end, paint_run, paint_seq};
use crate::engine::color::Attr;
use crate::engine::rect::{Rect, max_int, min_int, sat_add, sat_sub};
use crate::engine::theme::Theme;
use crate::prim::label::{draw_text, hot_clean, visible_len};
use crate::prim::window::{WindowOpts, window, window_grid};
use crate::text::{chars_of, decimal, decimal_chars, seq_width, string_from_chars};
use crate::widgets::progressbar::{ProgressBar, progressbar_draw, progressbar_grid};

verus! {

/// One progress bar.
#[derive(Clone, Debug)]
pub struct BarInfo {
    pub label: String,
    pub file: String,
    pub pct: u8,
    pub cur: u64,
    pub total: u64,
}

impl BarInfo {
    /// A bar at `min(pct, 100)`.
    pub fn new(label: &str, file: &str, pct: u8, cur: u64, total: u64) -> (r: Self)
        ensures
            r.label@ == label@,
            r.file@ == file@,
            r.pct == min_int(pct as int, 100),
            r.cur == cur,
            r.total == total,
    {
        BarInfo { label: label.to_owned(), file: file.to_owned(), pct: if pct < 100 { pct } else { 100 }, cur, total }
    }
}

/// The whole progress dialog.
#[derive(Clone, Debug)]
pub struct ProgressInfo {
    pub title: String,
    pub space: String,
    pub elapsed: String,
    pub bars: Vec<BarInfo>,
}

impl ProgressInfo {
    pub fn new(title: &str, space: &str, elapsed: &str, bars: Vec<BarInfo>) -> (r: Self)
        ensures
            r.title@ == title@,
            r.space@ == space@,
            r.elapsed@ == elapsed@,
            r.bars == bars,
    {
        ProgressInfo { title: title.to_owned(), space: space.to_owned(), elapsed: elapsed.to_owned(), bars }
    }
}

/// Filled width for `pct` over a track of `inner` cells:
/// `inner * min(pct, 100) / 100`.
pub fn bar_fill_width(inner: u16, pct: u8) -> (r: u16)
    ensures
        r == inner * min_int(pct as int, 100) / 100,
        r <= inner,
{
    let p: u32 = if pct < 100 { pct as u32 } else { 100 };
    assert((inner as u32) * p <= (inner as u32) * 100) by (nonlinear_arith)
        requires
            p <= 100,
    ;
    (inner as u32 * p / 100) as u16
}

/// `Espacio: <space>   Tiempo: <elapsed>`.
pub open spec fn header_text(info: ProgressInfo) -> Seq<char> {
    "Espacio: "@ + info.space@ + "   Tiempo: "@ + info.elapsed@
}

/// Width a bar's description asks for.
pub open spec fn bar_need(b: BarInfo) -> int {
    seq_width(hot_clean(b.label@)) + seq_width(hot_clean(b.file@)) + 12
}

/// Widest need among the first `k` bars.
pub open spec fn widest_need(bars: Seq<BarInfo>, k: int) -> int
    decreases k,
{
    if k <= 0 {
        0
    } else {
        max_int(widest_need(bars, k - 1), bar_need(bars[k - 1]))
    }
}

/// Width of the content: header, widest bar, at least 40.
pub open spec fn content_width(info: ProgressInfo) -> int {
    max_int(max_int(seq_width(hot_clean(header_text(info))), widest_need(info.bars@, info.bars@.len() as int)), 40)
}

/// The dialog's rectangle.
pub open spec fn progress_rect(screen: Rect, info: ProgressInfo) -> Rect {
    let w = min_int(content_width(info) + 4, max_int(sat_sub(screen.w as int, 2), 10));
    let h = min_int(4 + 3 * ((info.bars@.len() as u16) as int) + 1, max_int(screen.h as int, 1));
    Rect::spec_centered_in(w as u16, h as u16, screen)
}

/// The arithmetic of `progress_draw` stays within `u16`.
pub open spec fn progress_fits(screen: Rect, info: ProgressInfo) -> bool {
    let w = min_int(content_width(info) + 4, max_int(sat_sub(screen.w as int, 2), 10));
    let h = min_int(4 + 3 * ((info.bars@.len() as u16) as int) + 1, max_int(screen.h as int, 1));
    let r = progress_rect(screen, info);
    &&& forall|i: int| 0 <= i < info.bars@.len() ==> bar_need(#[trigger] info.bars@[i]) <= u16::MAX
    &&& content_width(info) + 4 <= u16::MAX
    &&& 3 * ((info.bars@.len() as u16) as int) + 5 <= u16::MAX
    &&& Rect::centered_fits(w as u16, h as u16, screen)
    &&& r.y + r.h <= u16::MAX
}

/// Text of the dialog: `0`, `100 %`, the bar, `label: file` and `cur/total`.
pub open spec fn desc_text(b: BarInfo) -> Seq<char> {
    b.label@ + seq![':', ' '] + b.file@
}

pub open spec fn count_text(b: BarInfo) -> Seq<char> {
    decimal(b.cur as nat) + seq!['/'] + decimal(b.total as nat)
}

/// The bar drawn for `b`: popup fill on a field-grey track.
pub open spec fn bar_of(b: BarInfo, theme: Theme) -> ProgressBar {
    ProgressBar {
        pct: min_int(b.pct as int, 100) as u8,
        foreground_color: theme.popup,
        background_color: theme.field_bg,
        border_color: None,
        has_shadow: false,
        show_pct: true,
    }
}

/// Text at `(x, y)` in `attr`.
pub open spec fn text_at(g: Grid, x: int, y: int, s: Seq<char>, a: Attr) -> Grid {
    paint_run(g, x, y, paint_seq(s, a), false)
}

/// Text ending at the right edge `x_end` of the content.
pub open spec fn text_right(g: Grid, x_end: int, y: int, s: Seq<char>, a: Attr) -> Grid {
    text_at(g, sat_sub(x_end, seq_width(hot_clean(s))), y, s, a)
}

/// The three rows of bar `b` from row `base`.
pub open spec fn bar_rows(g: Grid, b: BarInfo, inner_x: int, inner_w: int, base: int, theme: Theme) -> Grid {
    let a = theme.spec_dialog_attr();
    let x_end = sat_add(inner_x, inner_w);
    let g1 = text_at(g, inner_x, base, seq!['0'], a);
    let g2 = text_right(g1, x_end, base, "100 %"@, a);
    let g3 = progressbar_grid(g2, Rect { x: inner_x as u16, y: (base + 1) as u16, w: inner_w as u16, h: 1 }, bar_of(b, theme));
    let g4 = text_at(g3, inner_x, base + 2, desc_text(b), a);
    text_right(g4, x_end, base + 2, count_text(b), a)
}

/// The first `k` bars drawn in the dialog `r` (stopping at the first one
/// whose rows would reach its bottom edge). Gives the grid and whether it
/// stopped.
pub open spec fn bars_grid(g: Grid, info: ProgressInfo, r: Rect, theme: Theme, k: int) -> (Grid, bool)
    decreases k,
{
    if k <= 0 {
        (g, false)
    } else {
        let (g1, stopped) = bars_grid(g, info, r, theme, k - 1);
        let i = k - 1;
        let base = r.y + 3 + 3 * i;
        if stopped || base + 2 >= r.y + r.h {
            (g1, true)
        } else {
            (bar_rows(g1, info.bars@[i], sat_add(r.x as int, 2), sat_sub(r.w as int, 4), base, theme), false)
        }
    }
}

/// The dialog as `progress_draw` paints it.
pub open spec fn progress_grid(g: Grid, screen: Rect, info: ProgressInfo, theme: Theme) -> Grid {
    let r = progress_rect(screen, info);
    if r.spec_is_empty() {
        g
    } else {
        let opts = WindowOpts {
            body_bg: theme.dialog,
            body_fg: theme.dialog_text,
            title: info.title,
            title_bg: theme.teal,
            title_fg: crate::engine::color::Color::White,
            title_bold: true,
            shadow: true,
            shadow_style: crate::prim::shadow::ShadowStyle::Translucent,
            border_color: None,
            border_style: crate::prim::window::BorderStyle::Single,
            controls: false,
        };
        let g1 = window_grid(g, r, opts, theme);
        let g2 = text_at(g1, sat_add(r.x as int, 2), r.y + 1, header_text(info), theme.spec_dialog_attr());
        bars_grid(g2, info, r, theme, info.bars@.len() as int).0
    }
}

proof fn lemma_bars_stopped(g: Grid, info: ProgressInfo, r: Rect, theme: Theme, k0: int, k: int)
    requires
        1 <= k0 <= k,
        bars_grid(g, info, r, theme, k0).1,
    ensures
        bars_grid(g, info, r, theme, k) == bars_grid(g, info, r, theme, k0),
    decreases k - k0,
{
    if k > k0 {
        lemma_bars_stopped(g, info, r, theme, k0, k - 1);
    }
}

fn text_of(parts: &Vec<char>) -> (r: String)
    ensures
        r@ == parts@,
{
    string_from_chars(parts)
}

/// Draws text so that it ends at `x_end`.
fn draw_right(buf: &mut Buffer, x_end: u16, y: u16, s: &str, a: Attr)
    requires
        old(buf).wf(),
    ensures
        final(buf).wf(),
        final(buf)@ == text_right(old(buf)@, x_end as int, y as int, s@, a),
{
    let w = visible_len(s);
    draw_text(buf, x_end.saturating_sub(w), y, s, a);
}

fn draw_bar_rows(buf: &mut Buffer, b: &BarInfo, inner_x: u16, inner_w: u16, base: u16, theme: Theme)
    requires
        old(buf).wf(),
        base + 2 <= u16::MAX,
    ensures
        final(buf).wf(),
        final(buf)@ == bar_rows(old(buf)@, *b, inner_x as int, inner_w as int, base as int, theme),
{
    let a = theme.dialog_attr();
    let x_end = inner_x.saturating_add(inner_w);
    proof {
        reveal_strlit("0");
    }
    assert("0"@ =~= seq!['0']);
    draw_text(buf, inner_x, base, "0", a);
    draw_right(buf, x_end, base, "100 %", a);
    let mut pbar = ProgressBar::new(b.pct);
    pbar.foreground_color = theme.popup;
    pbar.background_color = theme.field_bg;
    assert(pbar == bar_of(*b, theme));
    let ghost g2 = buf@;
    progressbar_draw(buf, Rect::new(inner_x, base + 1, inner_w, 1), &pbar);
    assert(buf@ == progressbar_grid(g2, Rect { x: inner_x, y: (base + 1) as u16, w: inner_w, h: 1 }, bar_of(*b, theme)));
    let mut desc = chars_of(b.label.as_str());
    desc.push(':');
    desc.push(' ');
    let mut file = chars_of(b.file.as_str());
    desc.append(&mut file);
    assert(desc@ =~= desc_text(*b));
    let ds = text_of(&desc);
    draw_text(buf, inner_x, base + 2, ds.as_str(), a);
    let mut cnt = decimal_chars(b.cur);
    cnt.push('/');
    let mut tot = decimal_chars(b.total);
    cnt.append(&mut tot);
    assert(cnt@ =~= count_text(*b));
    let cs = text_of(&cnt);
    draw_right(buf, x_end, base + 2, cs.as_str(), a);
}

/// Draws the centred dialog (clipped to the screen). Drawing only.
pub fn progress_draw(buf: &mut Buffer, screen: Rect, info: &ProgressInfo, theme: Theme)
    requires
        old(buf).wf(),
        progress_fits(screen, *info),
    ensures
        final(buf).wf(),
        final(buf)@ == progress_grid(old(buf)@, screen, *info, theme),
{
    let mut header = chars_of("Espacio: ");
    let mut sp = chars_of(info.space.as_str());
    header.append(&mut sp);
    let mut mid = chars_of("   Tiempo: ");
    header.append(&mut mid);
    let mut el = chars_of(info.elapsed.as_str());
    header.append(&mut el);
    assert(header@ =~= header_text(*info));
    let hs = text_of(&header);
    let mut widest: u16 = 0;
    let mut k: usize = 0;
    while k < info.bars.len()
        invariant
            k <= info.bars@.len(),
            widest == widest_need(info.bars@, k as int),
            forall|i: int| 0 <= i < info.bars@.len() ==> bar_need(#[trigger] info.bars@[i]) <= u16::MAX,
        decreases info.bars.len() - k,
    {
        let need = visible_len(info.bars[k].label.as_str()) as u32 + visible_len(info.bars[k].file.as_str()) as u32 + 12;
        assert(need == bar_need(info.bars@[k as int]));
        if need > widest as u32 {
            widest = need as u16;
        }
        k += 1;
    }
    let hw = visible_len(hs.as_str());
    let c1 = if hw > widest { hw } else { widest };
    let content_w = if c1 > 40 { c1 } else { 40 };
    let sw2 = screen.w.saturating_sub(2);
    let cap = if sw2 > 10 { sw2 } else { 10 };
    let w = if content_w + 4 < cap { content_w + 4 } else { cap };
    let nb = info.bars.len() as u16;
    let sh = if screen.h > 1 { screen.h } else { 1 };
    let h = if 4 + 3 * nb + 1 < sh { 4 + 3 * nb + 1 } else { sh };
    let r = Rect::centered_in(w, h, screen);
    if r.is_empty() {
        return;
    }
    let opts = WindowOpts::dialog(info.title.as_str(), theme);
    let opts2 = WindowOpts { title: info.title.clone(), ..opts };
    window(buf, r, &opts2, theme);
    let inner_x = r.x.saturating_add(2);
    let inner_w = r.w.saturating_sub(4);
    draw_text(buf, inner_x, r.y + 1, hs.as_str(), theme.dialog_attr());
    let ghost g2 = buf@;
    let mut i: usize = 0;
    while i < info.bars.len()
        invariant
            buf.wf(),
            i <= info.bars@.len(),
            r.y + r.h <= u16::MAX,
            r == progress_rect(screen, *info),
            inner_x == sat_add(r.x as int, 2),
            inner_w == sat_sub(r.w as int, 4),
            bars_grid(g2, *info, r, theme, i as int) == (buf@, false),
        ensures
            buf.wf(),
            bars_grid(g2, *info, r, theme, info.bars@.len() as int).0 == buf@,
        decreases info.bars.len() - i,
    {
        if 3 * (i as u32) + 5 >= r.h as u32 {
            proof {
                lemma_bars_stopped(g2, *info, r, theme, i + 1, info.bars@.len() as int);
            }
            break;
        }
        let base = r.y + 3 + 3 * (i as u16);
        draw_bar_rows(buf, &info.bars[i], inner_x, inner_w, base, theme);
        i += 1;
    }
}

} // verus!
