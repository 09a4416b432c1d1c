//! Centred list with a blue selection bar (working dialogs).

use vstd::prelude::*;

use crate::app::events::AppKey;
use crate::engine::buffer::{Buffer, Grid, paint_run, paint_seq};
use crate::engine::cell::Cell;
use crate::engine::color::Attr;
use crate::engine::rect::{Rect, max_int, min_int, sat_add, sat_sub};
use crate::engine::theme::Theme;
use crate::prim::label::{draw_text, hot_clean, visible_len};
use crate::text::seq_width;
use crate::widgets::common::strings_view;

verus! {

/// Column where item text starts: centred in `rect`, or two cells in.
pub open spec fn text_x_spec(rect: Rect, s: Seq<char>, centered: bool) -> int {
    if centered {
        sat_add(rect.x as int, sat_sub(rect.w as int, seq_width(hot_clean(s))) / 2)
    } else {
        sat_add(rect.x as int, 2)
    }
}

fn text_x(rect: Rect, s: &str, centered: bool) -> (r: u16)
    ensures
        r == text_x_spec(rect, s@, centered),
{
    if centered {
        let w = visible_len(s);
        rect.x.saturating_add(rect.w.saturating_sub(w) / 2)
    } else {
        rect.x.saturating_add(2)
    }
}

/// The rows of the list from `rect.y`, one item per row until the bottom
/// of `rect`: the selected one on a blue bar, the others in form ink on
/// the window grey.
pub open spec fn list_rows_grid(g: Grid, rect: Rect, items: Seq<Seq<char>>, selected: int, centered: bool, t: Theme, k: int) -> (Grid, int, bool)
    decreases k,
{
    if k <= 0 {
        (g, rect.y as int, false)
    } else {
        let (g1, y, stopped) = list_rows_grid(g, rect, items, selected, centered, t, k - 1);
        if stopped || y >= rect.spec_bottom() {
            (g1, y, true)
        } else {
            let it = items[k - 1];
            let x = text_x_spec(rect, it, centered);
            let g2 = if k - 1 == selected {
                paint_run(
                    g1.fill(Rect { x: rect.x, y: y as u16, w: rect.w, h: 1 }, Cell::spec_new(' ', t.popup_text, t.popup)),
                    x,
                    y,
                    paint_seq(it, t.spec_list_sel_attr()),
                    false,
                )
            } else {
                paint_run(g1, x, y, paint_seq(it, Attr { fg: t.form_text, bg: t.window_bg, bold: false, dim: false }), false)
            };
            (g2, sat_add(y, 1), false)
        }
    }
}

proof fn lemma_list_stopped(g: Grid, rect: Rect, items: Seq<Seq<char>>, selected: int, centered: bool, t: Theme, k0: int, k: int)
    requires
        1 <= k0 <= k,
        list_rows_grid(g, rect, items, selected, centered, t, k0).2,
    ensures
        list_rows_grid(g, rect, items, selected, centered, t, k) == list_rows_grid(g, rect, items, selected, centered, t, k0),
    decreases k - k0,
{
    if k > k0 {
        lemma_list_stopped(g, rect, items, selected, centered, t, k0, k - 1);
    }
}

/// Draws `items` (centred when `centered`) with `selected` in blue. No
/// frame and no shadow: `window()` puts those around it.
pub fn list_draw(buf: &mut Buffer, rect: Rect, items: &[String], selected: usize, centered: bool, theme: Theme)
    requires
        old(buf).wf(),
    ensures
        final(buf).wf(),
        final(buf)@ == if rect.spec_is_empty() {
            old(buf)@
        } else {
            list_rows_grid(old(buf)@, rect, strings_view(items@), selected as int, centered, theme, items@.len() as int).0
        },
{
    if rect.is_empty() {
        return;
    }
    let ghost g0 = buf@;
    let ghost iv = strings_view(items@);
    let bottom = rect.bottom();
    let mut y = rect.y;
    let mut i: usize = 0;
    while i < items.len()
        invariant_except_break
            list_rows_grid(g0, rect, iv, selected as int, centered, theme, i as int) == (buf@, y as int, false),
        invariant
            buf.wf(),
            iv == strings_view(items@),
            i <= items@.len(),
            bottom == rect.spec_bottom(),
        ensures
            buf.wf(),
            list_rows_grid(g0, rect, iv, selected as int, centered, theme, items@.len() as int).0 == buf@,
        decreases items.len() - i,
    {
        if y >= bottom {
            proof {
                lemma_list_stopped(g0, rect, iv, selected as int, centered, theme, i + 1, items@.len() as int);
            }
            break;
        }
        let it = items[i].as_str();
        let x = text_x(rect, it, centered);
        if i == selected {
            buf.fill_rect(Rect::new(rect.x, y, rect.w, 1), Cell::new(' ', theme.popup_text, theme.popup));
            draw_text(buf, x, y, it, theme.list_sel_attr());
        } else {
            draw_text(buf, x, y, it, Attr::new(theme.form_text, theme.window_bg));
        }
        y = y.saturating_add(1);
        i += 1;
    }
}

/// Where a key takes the selection of a list of `len` rows (clamped to
/// the list first): one row up or down without wrapping, the ends, or a
/// page of `page` rows (at least one) without leaving the list. An empty
/// list gives `0`.
pub open spec fn list_next(selected: int, len: int, key: AppKey, page: int) -> int {
    if len == 0 {
        0
    } else {
        let sel = min_int(selected, len - 1);
        let p = max_int(page, 1);
        match key {
            AppKey::Up => sat_sub(sel, 1),
            AppKey::Down => min_int(sel + 1, len - 1),
            AppKey::Home => 0,
            AppKey::End => len - 1,
            AppKey::PageUp => sat_sub(sel, p),
            AppKey::PageDown => min_int(sel + p, len - 1),
            _ => sel,
        }
    }
}

/// Moves the selection, clamped. `page` is the jump of PgUp/PgDn.
pub fn list_key(selected: usize, len: usize, code: AppKey, page: u16) -> (r: usize)
    ensures
        r == list_next(selected as int, len as int, code, page as int),
        len > 0 ==> r < len,
{
    if len == 0 {
        return 0;
    }
    let sel = if selected < len - 1 { selected } else { len - 1 };
    let p: usize = if page > 1 { page as usize } else { 1 };
    match code {
        AppKey::Up => sel.saturating_sub(1),
        AppKey::Down => if sel + 1 < len - 1 { sel + 1 } else { len - 1 },
        AppKey::Home => 0,
        AppKey::End => len - 1,
        AppKey::PageUp => sel.saturating_sub(p),
        AppKey::PageDown => if p > len - 1 - sel { len - 1 } else { sel + p },
        _ => sel,
    }
}

/// In a list with rows, `Down` selects the next row and `Up` the one
/// before, stopping at the ends (no wrapping), so that inside the list
/// `Down` then `Up` comes back; `Home` and `End` select the first and the
/// last row; `PgDn` and `PgUp` move a page (at least one row) without
/// leaving the list; every key leaves a row of the list selected.
pub proof fn lemma_list_moves(selected: int, len: int, page: int, key: AppKey)
    requires
        0 <= selected < len,
    ensures
        list_next(selected, len, AppKey::Down, page) == (if selected + 1 < len { selected + 1 } else { selected }),
        list_next(selected, len, AppKey::Up, page) == (if selected > 0 { selected - 1 } else { 0 }),
        selected + 1 < len ==> list_next(list_next(selected, len, AppKey::Down, page), len, AppKey::Up, page)
            == selected,
        selected > 0 ==> list_next(list_next(selected, len, AppKey::Up, page), len, AppKey::Down, page) == selected,
        list_next(selected, len, AppKey::Home, page) == 0,
        list_next(selected, len, AppKey::End, page) == len - 1,
        ({
            let p = if page >= 1 { page } else { 1 };
            &&& list_next(selected, len, AppKey::PageDown, page) == (if selected + p < len { selected + p } else { len - 1 })
            &&& list_next(selected, len, AppKey::PageUp, page) == (if selected >= p { selected - p } else { 0 })
        }),
        0 <= list_next(selected, len, key, page) < len,
{
}

} // verus!
