//! Static list box with a scroll bar (`ListBox`).
//!
//! A visible collection with scrolling and a right-hand bar: `▲` on top,
//! `▼` at the bottom, a proportional `█` block on a `░` track. Pure
//! navigation (`listbox_key`): arrows, `PgUp`/`PgDn`, `Home`/`End` and
//! quick search by first letter.

use vstd::prelude::*;

use crate::app::events::AppKey;
use crate::engine::buffer::{Buffer, Grid, paint_run, paint_seq};
use crate::engine::cell::Cell;
use crate::engine::color::{Attr, Color};
use crate::engine::rect::{Rect, max_int, min_int, sat_add, sat_sub};
use crate::engine::theme::Theme;
use crate::prim::label::{draw_text, fit_spec, fit_text};
use crate::prim::shadow::{ShadowStyle, shadow, shadow_grid};
use crate::prim::window::col_strip;
use crate::widgets::common::{draw_ring, find_by_letter, letter_search, ring, scroll_to, scroll_to_exec, strings_view};

verus! {

/// Static list box.
#[derive(Clone, Debug, PartialEq, Eq)]
pub struct ListBox {
    pub items: Vec<String>,
    pub selected: usize,
    /// First visible row (scroll).
    pub top: usize,
    pub foreground_color: Color,
    pub background_color: Color,
    pub highlight_fg: Color,
    pub highlight_bg: Color,
    pub border_color: Option<Color>,
    pub has_shadow: bool,
    /// Width of the scroll bar (0 = no bar).
    pub scrollbar_width: u16,
}

impl ListBox {
    /// A list of `items`, the first one selected: black on white, white on
    /// navy when selected, no border, no shadow, a one-column bar.
    pub fn new(items: &[&str]) -> (r: Self)
        ensures
            strings_view(r.items@) == items@.map_values(|s: &str| s@),
            r.selected == 0,
            r.top == 0,
            r.foreground_color == Color::Black,
            r.background_color == Color::White,
            r.highlight_fg == Color::White,
            r.highlight_bg == Color::Navy,
            r.border_color is None,
            !r.has_shadow,
            r.scrollbar_width == 1,
    {
        ListBox {
            items: owned_strings(items),
            selected: 0,
            top: 0,
            foreground_color: Color::Black,
            background_color: Color::White,
            highlight_fg: Color::White,
            highlight_bg: Color::Navy,
            border_color: None,
            has_shadow: false,
            scrollbar_width: 1,
        }
    }
}

/// Owned copies of `items`.
pub fn owned_strings(items: &[&str]) -> (r: Vec<String>)
    ensures
        strings_view(r@) == items@.map_values(|s: &str| s@),
{
    let mut out: Vec<String> = Vec::new();
    let mut i: usize = 0;
    while i < items.len()
        invariant
            i <= items@.len(),
            out@.len() == i,
            forall|j: int| 0 <= j < i ==> #[trigger] out@[j]@ == items@[j]@,
        decreases items.len() - i,
    {
        let o = items[i].to_owned();
        out.push(o);
        i += 1;
    }
    assert(strings_view(out@) =~= items@.map_values(|s: &str| s@));
    out
}

/// Result of a key in the list.
#[derive(Clone, Copy, Debug, PartialEq, Eq, Structural)]
pub enum ListNav {
    Stay,
    Move(usize),
}

/// Selecting row `s`, scrolled into view.
pub open spec fn list_go(s: int, top: int, vis: int) -> (int, int, ListNav) {
    (s, scroll_to(s, top, vis), ListNav::Move(s as usize))
}

/// What a key does to the selection `sel` and the first row `top` of a
/// list of `items` showing `visible` rows: the selection is first clamped
/// to the list (and `top` to the selection); `Up`/`Down` wrap round,
/// `Home`/`End` go to the ends, `PgUp`/`PgDn` move a page without
/// wrapping, a letter jumps to the next item starting with it; the view
/// then scrolls to the selection. An empty list ignores every key.
pub open spec fn listbox_next(items: Seq<Seq<char>>, sel0: int, top0: int, visible: int, key: AppKey) -> (int, int, ListNav) {
    let n = items.len() as int;
    if n == 0 {
        (sel0, top0, ListNav::Stay)
    } else {
        let sel = min_int(sel0, n - 1);
        let top = min_int(top0, sel);
        let vis = max_int(visible, 1);
        match key {
            AppKey::Up => list_go((sel + n - 1) % n, top, vis),
            AppKey::Down => list_go((sel + 1) % n, top, vis),
            AppKey::Home => list_go(0, top, vis),
            AppKey::End => list_go(n - 1, top, vis),
            AppKey::PageUp => list_go(sat_sub(sel, vis), top, vis),
            AppKey::PageDown => list_go(min_int(sel + vis, n - 1), top, vis),
            AppKey::Char(c) => match letter_search(items, sel, c, 0) {
                Some(i) => list_go(i, top, vis),
                None => (sel, top, ListNav::Stay),
            },
            _ => (sel, top, ListNav::Stay),
        }
    }
}

/// Pure navigation (testable without a terminal).
pub fn listbox_key(lb: &mut ListBox, visible: usize, code: AppKey) -> (r: ListNav)
    ensures
        (final(lb).selected as int, final(lb).top as int, r) == listbox_next(
            strings_view(old(lb).items@),
            old(lb).selected as int,
            old(lb).top as int,
            visible as int,
            code,
        ),
        final(lb).items == old(lb).items,
        final(lb).foreground_color == old(lb).foreground_color,
        final(lb).background_color == old(lb).background_color,
        final(lb).highlight_fg == old(lb).highlight_fg,
        final(lb).highlight_bg == old(lb).highlight_bg,
        final(lb).border_color == old(lb).border_color,
        final(lb).has_shadow == old(lb).has_shadow,
        final(lb).scrollbar_width == old(lb).scrollbar_width,
{
    let n = lb.items.len();
    if n == 0 {
        return ListNav::Stay;
    }
    if lb.selected > n - 1 {
        lb.selected = n - 1;
    }
    if lb.top > lb.selected {
        lb.top = lb.selected;
    }
    let sel = lb.selected;
    let vis = if visible < 1 { 1 } else { visible };
    let target: usize = match code {
        AppKey::Up => {
            proof {
                crate::widgets::common::lemma_mod_wrap(sel + n - 1, n as int);
            }
            if sel == 0 { n - 1 } else { sel - 1 }
        },
        AppKey::Down => {
            proof {
                crate::widgets::common::lemma_mod_wrap(sel + 1, n as int);
            }
            if sel + 1 == n { 0 } else { sel + 1 }
        },
        AppKey::Home => 0,
        AppKey::End => n - 1,
        AppKey::PageUp => sel.saturating_sub(vis),
        AppKey::PageDown => if vis > n - 1 - sel { n - 1 } else { sel + vis },
        AppKey::Char(c) => match find_by_letter(&lb.items, sel, c) {
            Some(i) => i,
            None => {
                return ListNav::Stay;
            },
        },
        _ => {
            return ListNav::Stay;
        },
    };
    let ghost top_c = lb.top;
    lb.selected = target;
    lb.top = scroll_to_exec(target, lb.top, vis);
    assert((lb.selected as int, lb.top as int, ListNav::Move(target)) == list_go(target as int, top_c as int, vis as int));
    ListNav::Move(target)
}

/// Visible text rows inside `rect` (without border or scroll bar).
pub fn listbox_visible(rect: Rect, bordered: bool) -> (r: usize)
    ensures
        r == if bordered { sat_sub(rect.h as int, 2) } else { rect.h as int },
{
    let h = if bordered { rect.h.saturating_sub(2) } else { rect.h };
    h as usize
}

/// The item rows of a list: for `k` rows from `top`, a strip of `text_w`
/// cells in the row colours (highlight on the selected item) and the item
/// fitted to `text_w - 1` columns one column in.
pub open spec fn list_rows(g: Grid, lb: ListBox, x0: int, y0: int, text_w: int, k: int) -> Grid
    decreases k,
{
    if k <= 0 {
        g
    } else {
        let prev = list_rows(g, lb, x0, y0, text_w, k - 1);
        let idx = lb.top + k - 1;
        if idx >= lb.items@.len() {
            prev
        } else {
            let y = sat_add(y0, k - 1);
            let sel = idx == lb.selected;
            let fg = if sel { lb.highlight_fg } else { lb.foreground_color };
            let bg = if sel { lb.highlight_bg } else { lb.background_color };
            paint_run(
                prev.fill(Rect { x: x0 as u16, y: y as u16, w: text_w as u16, h: 1 }, Cell::spec_new(' ', fg, bg)),
                sat_add(x0, 1),
                y,
                paint_seq(fit_spec(lb.items@[idx]@, sat_sub(text_w, 1)), Attr { fg, bg, bold: false, dim: false }),
                false,
            )
        }
    }
}

proof fn lemma_list_rows_stop(g: Grid, lb: ListBox, x0: int, y0: int, text_w: int, k0: int, k: int)
    requires
        0 <= k0 <= k,
        lb.top + k0 >= lb.items@.len(),
    ensures
        list_rows(g, lb, x0, y0, text_w, k) == list_rows(g, lb, x0, y0, text_w, k0),
    decreases k - k0,
{
    if k > k0 {
        lemma_list_rows_stop(g, lb, x0, y0, text_w, k0, k - 1);
    }
}

/// Row of the `█` block inside a track of `track_h` rows, proportional to
/// `top` (computed on 32-bit values, as the terminal code does).
pub open spec fn list_thumb(lb: ListBox, track_h: int) -> int {
    let n = (lb.items@.len() as u32) as int;
    if n <= 1 || track_h == 0 {
        0
    } else {
        (((lb.top as u32) as int * track_h / n) as u16) as int % track_h
    }
}

/// The 32-bit product of the thumb row does not overflow.
pub open spec fn list_thumb_fits(lb: ListBox, track_h: int) -> bool {
    (lb.top as u32) as int * track_h <= u32::MAX
}

/// Number of text rows, scroll-bar flag, and the bar's track of a list
/// drawn in `rect`.
pub open spec fn list_bar_shown(rect: Rect, lb: ListBox) -> bool {
    let rows = if lb.border_color is Some { sat_sub(rect.h as int, 2) } else { rect.h as int };
    lb.scrollbar_width > 0 && rect.w >= 4 && rows >= 3
}

pub open spec fn list_track_h(rect: Rect, lb: ListBox) -> int {
    let rows = if lb.border_color is Some { sat_sub(rect.h as int, 2) } else { rect.h as int };
    sat_sub(rows, 2)
}

/// The scroll bar: `▲`, the `░` track with its `█` block, `▼`.
pub open spec fn list_bar_grid(g: Grid, rect: Rect, lb: ListBox) -> Grid {
    let bordered = lb.border_color is Some;
    let rows = if bordered { sat_sub(rect.h as int, 2) } else { rect.h as int };
    let y0 = sat_add(rect.y as int, if bordered { 1 } else { 0 });
    let bx = sat_sub(sat_sub(rect.spec_right() as int, 1), if bordered { 1 } else { 0 });
    let track_top = sat_add(y0, 1);
    let track_h = list_track_h(rect, lb);
    let plain = Cell::spec_new('\u{2591}', lb.foreground_color, lb.background_color);
    g.set(bx, y0, Cell::spec_new('\u{25b2}', lb.foreground_color, lb.background_color))
        .set(bx, sat_sub(sat_add(y0, rows), 1), Cell::spec_new('\u{25bc}', lb.foreground_color, lb.background_color))
        .fill(col_strip(bx, track_top, sat_add(track_top, track_h)), plain)
        .set(bx, sat_add(track_top, list_thumb(lb, track_h)), Cell::spec_new('\u{2588}', lb.foreground_color, lb.background_color))
}

/// The list as `listbox_draw` paints it.
pub open spec fn listbox_grid(g: Grid, rect: Rect, lb: ListBox) -> Grid {
    if rect.spec_is_empty() {
        g
    } else {
        let bordered = lb.border_color is Some;
        let g1 = if lb.has_shadow { shadow_grid(g, rect, 2, 1, ShadowStyle::Translucent, Theme::spec_clipper()) } else { g };
        let g2 = g1.fill(rect, Cell::spec_new(' ', lb.foreground_color, lb.background_color));
        let bar_w = if lb.scrollbar_width > 0 && rect.w >= 4 { 1int } else { 0 };
        let text_w = sat_sub(sat_sub(rect.w as int, if bordered { 2 } else { 0 }), bar_w);
        let rows = if bordered { sat_sub(rect.h as int, 2) } else { rect.h as int };
        let x0 = sat_add(rect.x as int, if bordered { 1 } else { 0 });
        let y0 = sat_add(rect.y as int, if bordered { 1 } else { 0 });
        let g3 = list_rows(g2, lb, x0, y0, text_w, rows);
        let g4 = if list_bar_shown(rect, lb) { list_bar_grid(g3, rect, lb) } else { g3 };
        match lb.border_color {
            Some(b) => ring(g4, rect, Cell::spec_new(' ', b, b)),
            None => g4,
        }
    }
}

/// Draws the list and its right-hand scroll bar.
pub fn listbox_draw(buf: &mut Buffer, rect: Rect, lb: &ListBox)
    requires
        old(buf).wf(),
        list_bar_shown(rect, *lb) ==> list_thumb_fits(*lb, list_track_h(rect, *lb)),
    ensures
        final(buf).wf(),
        final(buf)@ == listbox_grid(old(buf)@, rect, *lb),
{
    if rect.is_empty() {
        return;
    }
    let bordered = match lb.border_color {
        Some(_) => true,
        None => false,
    };
    if lb.has_shadow {
        shadow(buf, rect, Theme::clipper());
    }
    buf.fill_rect(rect, Cell::new(' ', lb.foreground_color, lb.background_color));
    let bar_w: u16 = if lb.scrollbar_width > 0 && rect.w >= 4 { 1 } else { 0 };
    let text_w = rect.w.saturating_sub(if bordered { 2 } else { 0 }).saturating_sub(bar_w);
    let rows = listbox_visible(rect, bordered);
    let x0 = rect.x.saturating_add(if bordered { 1 } else { 0 });
    let y0 = rect.y.saturating_add(if bordered { 1 } else { 0 });
    let ghost g2 = buf@;
    let mut row: usize = 0;
    while row < rows
        invariant
            buf.wf(),
            rows <= u16::MAX,
            row <= rows,
            buf@ == list_rows(g2, *lb, x0 as int, y0 as int, text_w as int, row as int),
        ensures
            buf.wf(),
            buf@ == list_rows(g2, *lb, x0 as int, y0 as int, text_w as int, rows as int),
        decreases rows - row,
    {
        if row >= lb.items.len() || lb.top >= lb.items.len() - row {
            proof {
                lemma_list_rows_stop(g2, *lb, x0 as int, y0 as int, text_w as int, row as int, rows as int);
            }
            break;
        }
        let idx = lb.top + row;
        let y = y0.saturating_add(row as u16);
        let sel = idx == lb.selected;
        let (fg, bg) = if sel { (lb.highlight_fg, lb.highlight_bg) } else { (lb.foreground_color, lb.background_color) };
        buf.fill_rect(Rect::new(x0, y, text_w, 1), Cell::new(' ', fg, bg));
        let fit = fit_text(lb.items[idx].as_str(), text_w.saturating_sub(1));
        draw_text(buf, x0.saturating_add(1), y, fit.as_str(), Attr::new(fg, bg));
        row += 1;
    }
    if bar_w > 0 && rows >= 3 {
        draw_list_bar(buf, rect, lb);
    }
    match lb.border_color {
        Some(b) => draw_ring(buf, rect, Cell::new(' ', b, b)),
        None => {},
    }
}

fn draw_list_bar(buf: &mut Buffer, rect: Rect, lb: &ListBox)
    requires
        old(buf).wf(),
        list_bar_shown(rect, *lb),
        list_thumb_fits(*lb, list_track_h(rect, *lb)),
    ensures
        final(buf).wf(),
        final(buf)@ == list_bar_grid(old(buf)@, rect, *lb),
{
    let bordered = match lb.border_color {
        Some(_) => true,
        None => false,
    };
    let rows = listbox_visible(rect, bordered);
    let y0 = rect.y.saturating_add(if bordered { 1 } else { 0 });
    let bx = rect.right().saturating_sub(1).saturating_sub(if bordered { 1 } else { 0 });
    let track_top = y0.saturating_add(1);
    let track_h = (rows as u16).saturating_sub(2);
    buf.set(bx, y0, Cell::new('\u{25b2}', lb.foreground_color, lb.background_color));
    buf.set(bx, y0.saturating_add(rows as u16).saturating_sub(1), Cell::new('\u{25bc}', lb.foreground_color, lb.background_color));
    let thumb = thumb_row(lb, track_h);
    buf.fill_rect(
        Rect::new(bx, track_top, 1, track_top.saturating_add(track_h).saturating_sub(track_top)),
        Cell::new('\u{2591}', lb.foreground_color, lb.background_color),
    );
    buf.set(bx, track_top.saturating_add(thumb), Cell::new('\u{2588}', lb.foreground_color, lb.background_color));
}

/// Row of the `█` block inside the track.
fn thumb_row(lb: &ListBox, track_h: u16) -> (r: u16)
    requires
        track_h > 0 ==> list_thumb_fits(*lb, track_h as int),
    ensures
        r == list_thumb(*lb, track_h as int),
{
    let n = lb.items.len() as u32;
    if n <= 1 || track_h == 0 {
        return 0;
    }
    let top32 = lb.top as u32;
    ((top32 * track_h as u32 / n) as u16) % track_h
}

/// `Up` undoes `Down` on a non-empty list (the selection goes round).
pub proof fn lemma_listbox_down_up(items: Seq<Seq<char>>, sel: int, top: int, visible: int)
    requires
        items.len() > 0,
        0 <= sel < items.len(),
        0 <= top,
    ensures
        ({
            let (s1, t1, _) = listbox_next(items, sel, top, visible, AppKey::Down);
            let (s2, _, _) = listbox_next(items, s1, t1, visible, AppKey::Up);
            s2 == sel
        }),
{
    let n = items.len() as int;
    crate::widgets::common::lemma_mod_wrap(sel + 1, n);
    let s1 = (sel + 1) % n;
    crate::widgets::common::lemma_mod_wrap(s1 + n - 1, n);
}

/// Two lists that show the same items the same way draw the same.
pub proof fn lemma_listbox_grid_same_view(g: Grid, rect: Rect, a: ListBox, b: ListBox)
    requires
        a.items@.map_values(|s: String| s@) == b.items@.map_values(|s: String| s@),
        a.items@.len() == b.items@.len(),
        a.selected == b.selected,
        a.top == b.top,
        a.foreground_color == b.foreground_color,
        a.background_color == b.background_color,
        a.highlight_fg == b.highlight_fg,
        a.highlight_bg == b.highlight_bg,
        a.border_color == b.border_color,
        a.has_shadow == b.has_shadow,
        a.scrollbar_width == b.scrollbar_width,
    ensures
        listbox_grid(g, rect, a) == listbox_grid(g, rect, b),
{
    assert forall|i: int| 0 <= i < a.items@.len() implies #[trigger] a.items@[i]@ == b.items@[i]@ by {
        assert(a.items@.map_values(|s: String| s@)[i] == b.items@.map_values(|s: String| s@)[i]);
    }
    let bordered = a.border_color is Some;
    let bar_w = if a.scrollbar_width > 0 && rect.w >= 4 { 1int } else { 0 };
    let text_w = sat_sub(sat_sub(rect.w as int, if bordered { 2 } else { 0 }), bar_w);
    let rows = if bordered { sat_sub(rect.h as int, 2) } else { rect.h as int };
    let x0 = sat_add(rect.x as int, if bordered { 1 } else { 0 });
    let y0 = sat_add(rect.y as int, if bordered { 1 } else { 0 });
    let g1 = if a.has_shadow { shadow_grid(g, rect, 2, 1, ShadowStyle::Translucent, Theme::spec_clipper()) } else { g };
    let g2 = g1.fill(rect, Cell::spec_new(' ', a.foreground_color, a.background_color));
    lemma_list_rows_same_view(g2, a, b, x0, y0, text_w, rows);
}

proof fn lemma_list_rows_same_view(g: Grid, a: ListBox, b: ListBox, x0: int, y0: int, text_w: int, k: int)
    requires
        a.items@.len() == b.items@.len(),
        forall|i: int| 0 <= i < a.items@.len() ==> #[trigger] a.items@[i]@ == b.items@[i]@,
        a.selected == b.selected,
        a.top == b.top,
        a.foreground_color == b.foreground_color,
        a.background_color == b.background_color,
        a.highlight_fg == b.highlight_fg,
        a.highlight_bg == b.highlight_bg,
    ensures
        list_rows(g, a, x0, y0, text_w, k) == list_rows(g, b, x0, y0, text_w, k),
    decreases k,
{
    if k > 0 {
        lemma_list_rows_same_view(g, a, b, x0, y0, text_w, k - 1);
    }
}

/// On a list with items, `Down` selects the next item and `Up` the one
/// before, round the ends; `Home` and `End` the first and the last;
/// `PgDn` and `PgUp` a page (`visible` rows, at least one) down and up,
/// stopping at the ends; after a key that moves, the selection is an item
/// of the list and among the rows shown.
pub proof fn lemma_listbox_moves(items: Seq<Seq<char>>, sel: int, top: int, visible: int, key: AppKey)
    requires
        0 <= sel < items.len(),
    ensures
        ({
            let n = items.len() as int;
            let vis = if visible >= 1 { visible } else { 1 };
            &&& listbox_next(items, sel, top, visible, AppKey::Down).0 == (if sel + 1 < n { sel + 1 } else { 0 })
            &&& listbox_next(items, sel, top, visible, AppKey::Up).0 == (if sel > 0 { sel - 1 } else { n - 1 })
            &&& listbox_next(items, sel, top, visible, AppKey::Home).0 == 0
            &&& listbox_next(items, sel, top, visible, AppKey::End).0 == n - 1
            &&& listbox_next(items, sel, top, visible, AppKey::PageDown).0 == (if sel + vis < n { sel + vis } else { n - 1 })
            &&& listbox_next(items, sel, top, visible, AppKey::PageUp).0 == (if sel >= vis { sel - vis } else { 0 })
        }),
        ({
            let (s, t, r) = listbox_next(items, sel, top, visible, key);
            let vis = if visible >= 1 { visible } else { 1 };
            r is Move ==> 0 <= s < items.len() && t <= s < t + vis && r == ListNav::Move(s as usize)
        }),
{
    let n = items.len() as int;
    crate::widgets::common::lemma_mod_wrap(sel + 1, n);
    crate::widgets::common::lemma_mod_wrap(sel + n - 1, n);
    if key is Char {
        let c = key->Char_0;
        crate::widgets::common::lemma_letter_search_range(items, sel, c, 0);
    }
}

} // verus!
