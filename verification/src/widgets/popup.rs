//! Drop-down menu: blue popup without a frame and a hard shadow.
//!
//! Yellow hotkeys, thin white separators, the selection as a grey bar with
//! black text (not inverted). Navigation skips separators and disabled
//! items.

use vstd::prelude::*;

use crate::app::events::AppKey;
use crate::engine::buffer::{Buffer, Grid, paint_run};
use crate::engine::cell::Cell;
use crate::engine::color::{Attr, Color};
use crate::engine::rect::{Rect, max_int, sat_add, sat_sub};
use crate::engine::theme::Theme;
use crate::prim::label::{draw_hot_label, hot_cells, hot_clean, hot_key_of, hot_of, visible_len};
use crate::prim::separator::hsep;
use crate::prim::shadow::{ShadowStyle, shadow, shadow_grid};
use crate::text::{ascii_lower, seq_width, str_len, to_ascii_lower};

verus! {

/// A row of the popup. `sep_before` draws a white line above it.
#[derive(Clone, Debug)]
pub struct PopupItem {
    pub label: String,
    pub sep_before: bool,
    pub disabled: bool,
}

impl PopupItem {
    pub fn item(label: &str) -> (r: Self)
        ensures
            r.label@ == label@,
            !r.sep_before,
            !r.disabled,
    {
        PopupItem { label: label.to_owned(), sep_before: false, disabled: false }
    }

    pub fn group(label: &str) -> (r: Self)
        ensures
            r.label@ == label@,
            r.sep_before,
            !r.disabled,
    {
        PopupItem { label: label.to_owned(), sep_before: true, disabled: false }
    }

    pub fn disabled(label: &str) -> (r: Self)
        ensures
            r.label@ == label@,
            !r.sep_before,
            r.disabled,
    {
        PopupItem { label: label.to_owned(), sep_before: false, disabled: true }
    }
}

/// An item that can be selected: enabled, with a label.
pub open spec fn selectable(it: PopupItem) -> bool {
    !it.disabled && it.label@.len() > 0
}

fn is_selectable(it: &PopupItem) -> (r: bool)
    ensures
        r == selectable(*it),
{
    !it.disabled && str_len(it.label.as_str()) > 0
}

/// Widest visible label among the first `k` items.
pub open spec fn widest(items: Seq<PopupItem>, k: int) -> int
    decreases k,
{
    if k <= 0 {
        0
    } else {
        max_int(widest(items, k - 1), seq_width(hot_clean(items[k - 1].label@)))
    }
}

/// Separators among the first `k` items.
pub open spec fn seps(items: Seq<PopupItem>, k: int) -> int
    decreases k,
{
    if k <= 0 {
        0
    } else {
        seps(items, k - 1) + if items[k - 1].sep_before { 1int } else { 0 }
    }
}

proof fn lemma_seps_bounded(items: Seq<PopupItem>, k: int)
    requires
        0 <= k,
    ensures
        0 <= seps(items, k) <= k,
    decreases k,
{
    if k > 0 {
        lemma_seps_bounded(items, k - 1);
    }
}

/// Size of the popup: the widest visible label plus four cells of air (at
/// least ten), and one row per item, two of air and one per separator.
pub open spec fn popup_size_spec(items: Seq<PopupItem>) -> (int, int) {
    (max_int(sat_add(widest(items, items.len() as int), 4), 10), items.len() + 2 + seps(items, items.len() as int))
}

/// Size needed by the items.
pub fn popup_size(items: &[PopupItem]) -> (r: (u16, u16))
    requires
        items@.len() + 2 + seps(items@, items@.len() as int) <= u16::MAX,
    ensures
        (r.0 as int, r.1 as int) == popup_size_spec(items@),
{
    let mut w: u16 = 0;
    let mut s: u16 = 0;
    let mut i: usize = 0;
    while i < items.len()
        invariant
            i <= items@.len(),
            items@.len() + 2 + seps(items@, items@.len() as int) <= u16::MAX,
            w == widest(items@, i as int),
            s == seps(items@, i as int),
        decreases items.len() - i,
    {
        proof {
            lemma_seps_bounded(items@, i + 1);
            lemma_seps_mono(items@, i + 1, items@.len() as int);
        }
        let vl = visible_len(items[i].label.as_str());
        if vl > w {
            w = vl;
        }
        if items[i].sep_before {
            s = s + 1;
        }
        i += 1;
    }
    let w4 = w.saturating_add(4);
    let n = items.len() as u16;
    (if w4 > 10 { w4 } else { 10 }, n + 2 + s)
}

proof fn lemma_seps_mono(items: Seq<PopupItem>, j: int, k: int)
    requires
        0 <= j <= k,
    ensures
        seps(items, j) <= seps(items, k),
    decreases k - j,
{
    if j < k {
        lemma_seps_mono(items, j, k - 1);
    }
}

/// Rectangle anchored under `(x, y)` and kept on screen.
pub fn popup_layout(x: u16, y: u16, items: &[PopupItem], screen: Rect) -> (r: Rect)
    requires
        items@.len() + 2 + seps(items@, items@.len() as int) <= u16::MAX,
    ensures
        r == Rect::spec_popup_at(
            x,
            y,
            popup_size_spec(items@).0 as u16,
            popup_size_spec(items@).1 as u16,
            screen,
        ),
{
    let (w, h) = popup_size(items);
    Rect::popup_at(x, y, w, h, screen)
}

/// The attribute of a disabled item.
pub open spec fn dim_attr(t: Theme) -> Attr {
    Attr { fg: Color::DarkGrey, bg: t.popup, bold: false, dim: false }
}

/// One item's row at `y`: the selected one on a grey bar, all in black; a
/// disabled one in dark grey; the others with their yellow hotkey.
pub open spec fn popup_item_grid(g: Grid, rect: Rect, it: PopupItem, is_sel: bool, y: int, t: Theme) -> Grid {
    let x = sat_add(rect.x as int, 2);
    if is_sel {
        let g1 = g.fill(
            Rect { x: sat_add(rect.x as int, 1) as u16, y: y as u16, w: sat_sub(rect.w as int, 2) as u16, h: 1 },
            Cell::spec_new(' ', t.select_fg, t.select_bg),
        );
        paint_run(g1, x, y, hot_cells(it.label@, t.spec_popup_sel_attr(), t.spec_popup_sel_attr()), false)
    } else if it.disabled {
        paint_run(g, x, y, hot_cells(it.label@, dim_attr(t), dim_attr(t)), false)
    } else {
        paint_run(g, x, y, hot_cells(it.label@, t.spec_popup_attr(), t.spec_hot_attr()), false)
    }
}

/// The rows of the popup, one item after another from `rect.y + 1`: a
/// separator takes a row of its own, an empty label leaves its row blank;
/// the walk stops at the last row of air.
pub open spec fn popup_rows(g: Grid, rect: Rect, items: Seq<PopupItem>, selected: int, t: Theme, k: int) -> (Grid, int, bool)
    decreases k,
{
    if k <= 0 {
        (g, sat_add(rect.y as int, 1), false)
    } else {
        let (g1, y, stopped) = popup_rows(g, rect, items, selected, t, k - 1);
        let it = items[k - 1];
        let bot = sat_sub(rect.spec_bottom() as int, 1);
        if stopped || y >= bot {
            (g1, y, true)
        } else {
            let g2 = if it.sep_before {
                g1.hline(
                    y,
                    sat_add(rect.x as int, 1),
                    sat_sub(rect.spec_right() as int, 2),
                    Cell::spec_new('─', t.popup_text, t.popup),
                )
            } else {
                g1
            };
            let y2 = if it.sep_before { sat_add(y, 1) } else { y };
            if it.sep_before && y2 >= bot {
                (g2, y2, true)
            } else if it.label@.len() == 0 {
                (g2, sat_add(y2, 1), false)
            } else {
                (popup_item_grid(g2, rect, it, k - 1 == selected, y2, t), sat_add(y2, 1), false)
            }
        }
    }
}

proof fn lemma_rows_stopped(g: Grid, rect: Rect, items: Seq<PopupItem>, selected: int, t: Theme, k0: int, k: int)
    requires
        1 <= k0 <= k,
        popup_rows(g, rect, items, selected, t, k0).2,
    ensures
        popup_rows(g, rect, items, selected, t, k) == popup_rows(g, rect, items, selected, t, k0),
    decreases k - k0,
{
    if k > k0 {
        lemma_rows_stopped(g, rect, items, selected, t, k0, k - 1);
    }
}

/// The whole popup: shadow, blue body and the rows.
pub open spec fn popup_grid(g: Grid, rect: Rect, items: Seq<PopupItem>, selected: int, t: Theme) -> Grid {
    if rect.spec_is_empty() {
        g
    } else {
        let g1 = shadow_grid(g, rect, 2, 1, ShadowStyle::Translucent, t).fill(
            rect,
            Cell::spec_new(' ', t.popup_text, t.popup),
        );
        popup_rows(g1, rect, items, selected, t, items.len() as int).0
    }
}

fn draw_item(buf: &mut Buffer, rect: Rect, it: &PopupItem, is_sel: bool, y: u16, theme: Theme)
    requires
        old(buf).wf(),
    ensures
        final(buf).wf(),
        final(buf)@ == popup_item_grid(old(buf)@, rect, *it, is_sel, y as int, theme),
{
    let x = rect.x.saturating_add(2);
    if is_sel {
        buf.fill_rect(
            Rect::new(rect.x.saturating_add(1), y, rect.w.saturating_sub(2), 1),
            Cell::new(' ', theme.select_fg, theme.select_bg),
        );
        draw_hot_label(buf, x, y, it.label.as_str(), theme.popup_sel_attr(), theme.popup_sel_attr());
    } else if it.disabled {
        let dim = Attr::new(Color::DarkGrey, theme.popup);
        draw_hot_label(buf, x, y, it.label.as_str(), dim, dim);
    } else {
        draw_hot_label(buf, x, y, it.label.as_str(), theme.popup_attr(), theme.hot_attr());
    }
}

/// Draws the popup with `selected` highlighted. Leaves the screen stack
/// alone.
pub fn popup_draw(buf: &mut Buffer, rect: Rect, items: &[PopupItem], selected: usize, theme: Theme)
    requires
        old(buf).wf(),
    ensures
        final(buf).wf(),
        final(buf)@ == popup_grid(old(buf)@, rect, items@, selected as int, theme),
{
    if rect.is_empty() {
        return;
    }
    shadow(buf, rect, theme);
    buf.fill_rect(rect, Cell::new(' ', theme.popup_text, theme.popup));
    let ghost g0 = buf@;
    let bot = rect.bottom().saturating_sub(1);
    let mut y = rect.y.saturating_add(1);
    let mut i: usize = 0;
    while i < items.len()
        invariant_except_break
            popup_rows(g0, rect, items@, selected as int, theme, i as int) == (buf@, y as int, false),
        invariant
            buf.wf(),
            i <= items@.len(),
            bot == sat_sub(rect.spec_bottom() as int, 1),
        ensures
            buf.wf(),
            popup_rows(g0, rect, items@, selected as int, theme, items@.len() as int).0 == buf@,
        decreases items.len() - i,
    {
        let it = &items[i];
        if y >= bot {
            proof {
                lemma_rows_stopped(g0, rect, items@, selected as int, theme, i + 1, items@.len() as int);
            }
            break;
        }
        if it.sep_before {
            hsep(buf, y, rect.x.saturating_add(1), rect.right().saturating_sub(2), theme.popup_text, theme.popup);
            y = y.saturating_add(1);
            if y >= bot {
                proof {
                    lemma_rows_stopped(g0, rect, items@, selected as int, theme, i + 1, items@.len() as int);
                }
                break;
            }
        }
        if str_len(it.label.as_str()) > 0 {
            draw_item(buf, rect, it, i == selected, y, theme);
        }
        y = y.saturating_add(1);
        i += 1;
    }
}

/// Result of a key on the popup.
#[derive(Clone, Copy, Debug, PartialEq, Eq, Structural)]
pub enum PopupKey {
    Stay,
    Move(usize),
    Choose(usize),
    Dismiss,
}

/// The `k`-th index after `from` going forward (or backward), wrapping.
pub open spec fn wrap_step(n: int, from: int, forward: bool, k: int) -> int {
    if forward {
        (from + k) % n
    } else {
        (from - k) % n
    }
}

/// The first selectable item among the `k`-th, `k+1`-th, ... `n`-th step
/// from `from`; `from` itself when there is none.
pub open spec fn step_from(items: Seq<PopupItem>, from: int, forward: bool, k: int) -> int
    decreases items.len() + 1 - k,
{
    if k > items.len() || k < 1 {
        from
    } else if selectable(items[wrap_step(items.len() as int, from, forward, k)]) {
        wrap_step(items.len() as int, from, forward, k)
    } else {
        step_from(items, from, forward, k + 1)
    }
}

proof fn lemma_wrap_next(a: int, n: int)
    requires
        n > 0,
    ensures
        (a + 1) % n == if a % n + 1 == n { 0 } else { a % n + 1 },
{
    vstd::arithmetic::div_mod::lemma_add_mod_noop_right(1, a, n);
    assert((1 + a % n) % n == (1 + a) % n);
    if a % n + 1 == n {
        vstd::arithmetic::div_mod::lemma_mod_self_0(n);
    } else {
        vstd::arithmetic::div_mod::lemma_small_mod((a % n + 1) as nat, n as nat);
    }
}

proof fn lemma_wrap_prev(a: int, n: int)
    requires
        n > 0,
    ensures
        (a - 1) % n == if a % n == 0 { n - 1 } else { a % n - 1 },
{
    vstd::arithmetic::div_mod::lemma_sub_mod_noop(a, 1, n);
    if n == 1 {
        vstd::arithmetic::div_mod::lemma_mod_self_0(1);
        vstd::arithmetic::div_mod::lemma_small_mod(0, 1);
    } else {
        vstd::arithmetic::div_mod::lemma_small_mod(1, n as nat);
        if a % n == 0 {
            vstd::arithmetic::div_mod::lemma_mod_add_multiples_vanish(-1, n);
            vstd::arithmetic::div_mod::lemma_small_mod((n - 1) as nat, n as nat);
        } else {
            vstd::arithmetic::div_mod::lemma_small_mod((a % n - 1) as nat, n as nat);
        }
    }
}

fn step(items: &[PopupItem], from: usize, forward: bool) -> (r: usize)
    requires
        items@.len() > 0,
        from < items@.len(),
    ensures
        r == step_from(items@, from as int, forward, 1),
        r < items@.len(),
{
    let n = items.len();
    let mut i = from;
    let mut c: usize = 0;
    proof {
        vstd::arithmetic::div_mod::lemma_small_mod(from as nat, n as nat);
    }
    while c < n
        invariant
            n == items@.len(),
            n > 0,
            from < n,
            c <= n,
            i < n,
            i == wrap_step(n as int, from as int, forward, c as int),
            step_from(items@, from as int, forward, 1) == step_from(items@, from as int, forward, c + 1),
        decreases n - c,
    {
        proof {
            lemma_wrap_next(from + c, n as int);
            lemma_wrap_prev(from - c, n as int);
            assert(from + c + 1 == from + (c + 1));
            assert(from - c - 1 == from - (c + 1));
        }
        i = if forward {
            if i + 1 == n { 0 } else { i + 1 }
        } else {
            if i == 0 { n - 1 } else { i - 1 }
        };
        if is_selectable(&items[i]) {
            return i;
        }
        c += 1;
    }
    from
}

/// First selectable index from `i` on.
pub open spec fn first_selectable(items: Seq<PopupItem>, i: int) -> Option<int>
    decreases items.len() - i,
{
    if i >= items.len() || i < 0 {
        None
    } else if selectable(items[i]) {
        Some(i)
    } else {
        first_selectable(items, i + 1)
    }
}

/// Last selectable index below `i`.
pub open spec fn last_selectable(items: Seq<PopupItem>, i: int) -> Option<int>
    decreases i,
{
    if i <= 0 || i > items.len() {
        None
    } else if selectable(items[i - 1]) {
        Some(i - 1)
    } else {
        last_selectable(items, i - 1)
    }
}

/// First selectable index from `i` on whose hotkey is `lc` (ASCII case
/// ignored).
pub open spec fn hot_match(items: Seq<PopupItem>, lc: char, i: int) -> Option<int>
    decreases items.len() - i,
{
    if i >= items.len() || i < 0 {
        None
    } else if selectable(items[i]) && (match hot_of(items[i].label@) {
        Some((_, h)) => ascii_lower(h) == lc,
        None => false,
    }) {
        Some(i)
    } else {
        hot_match(items, lc, i + 1)
    }
}

/// What a key does on a popup whose selection is `selected` (clamped to
/// the items): arrows move to the next selectable item with wrap-around,
/// `Home`/`End` go to the first/last selectable one, `Enter` chooses (or
/// moves on from an item that cannot be chosen), `Esc` dismisses, a
/// letter chooses the item with that hotkey. An empty popup dismisses.
pub open spec fn popup_next(items: Seq<PopupItem>, selected: int, key: AppKey) -> PopupKey {
    if items.len() == 0 {
        PopupKey::Dismiss
    } else {
        let sel = if selected < items.len() - 1 { selected } else { items.len() - 1 };
        match key {
            AppKey::Up => PopupKey::Move(step_from(items, sel, false, 1) as usize),
            AppKey::Down => PopupKey::Move(step_from(items, sel, true, 1) as usize),
            AppKey::Home => PopupKey::Move(
                match first_selectable(items, 0) {
                    Some(i) => i,
                    None => sel,
                } as usize,
            ),
            AppKey::End => PopupKey::Move(
                match last_selectable(items, items.len() as int) {
                    Some(i) => i,
                    None => sel,
                } as usize,
            ),
            AppKey::Enter => if selectable(items[sel]) {
                PopupKey::Choose(sel as usize)
            } else {
                PopupKey::Move(step_from(items, sel, true, 1) as usize)
            },
            AppKey::Esc => PopupKey::Dismiss,
            AppKey::Char(c) => match hot_match(items, ascii_lower(c), 0) {
                Some(i) => PopupKey::Choose(i as usize),
                None => PopupKey::Stay,
            },
            _ => PopupKey::Stay,
        }
    }
}

/// A search of the steps `k ..= n` from `from` ends on a selectable item,
/// or gives `from` back when none of those steps is selectable.
proof fn lemma_step_from_lands(items: Seq<PopupItem>, from: int, forward: bool, k: int)
    requires
        items.len() > 0,
        0 <= from < items.len(),
        k >= 1,
    ensures
        ({
            let r = step_from(items, from, forward, k);
            ||| 0 <= r < items.len() && selectable(items[r])
            ||| r == from && forall|k2: int|
                k <= k2 <= items.len() ==> !#[trigger] selectable(
                    items[wrap_step(items.len() as int, from, forward, k2)],
                )
        }),
    decreases items.len() + 1 - k,
{
    if k <= items.len() {
        lemma_step_from_lands(items, from, forward, k + 1);
        let n = items.len() as int;
        let w = wrap_step(n, from, forward, k);
        if forward {
            vstd::arithmetic::div_mod::lemma_mod_bound(from + k, n);
        } else {
            vstd::arithmetic::div_mod::lemma_mod_bound(from - k, n);
        }
        assert(0 <= w < n);
    }
}

/// Every index is some step `1 ..= n` away from `from`, either way.
proof fn lemma_step_reaches(n: int, from: int, forward: bool, j: int) -> (k: int)
    requires
        n > 0,
        0 <= from < n,
        0 <= j < n,
    ensures
        1 <= k <= n,
        wrap_step(n, from, forward, k) == j,
{
    if forward {
        let k = if j > from { j - from } else { j - from + n };
        if j > from {
            vstd::arithmetic::div_mod::lemma_small_mod(j as nat, n as nat);
        } else {
            vstd::arithmetic::div_mod::lemma_mod_add_multiples_vanish(j, n);
            vstd::arithmetic::div_mod::lemma_small_mod(j as nat, n as nat);
        }
        assert(from + k == if j > from { j } else { j + n });
        k
    } else {
        let k = if from > j { from - j } else { from - j + n };
        if from > j {
            vstd::arithmetic::div_mod::lemma_small_mod(j as nat, n as nat);
        } else {
            vstd::arithmetic::div_mod::lemma_mod_sub_multiples_vanish(j, n);
            vstd::arithmetic::div_mod::lemma_small_mod(j as nat, n as nat);
        }
        assert(from - k == if from > j { j } else { j - n });
        k
    }
}

/// The arrows skip what cannot be chosen: on a popup with items, `Up` and
/// `Down` move to an item of the popup that is selectable, unless no item
/// is selectable at all.
pub proof fn lemma_arrows_land_on_selectable(items: Seq<PopupItem>, selected: int, key: AppKey)
    requires
        0 < items.len() <= usize::MAX,
        selected >= 0,
        key == AppKey::Up || key == AppKey::Down,
    ensures
        popup_next(items, selected, key) matches PopupKey::Move(i) && i < items.len() && (selectable(items[i as int])
            || forall|j: int| 0 <= j < items.len() ==> !#[trigger] selectable(items[j])),
{
    let n = items.len() as int;
    let sel = if selected < n - 1 { selected } else { n - 1 };
    let forward = key == AppKey::Down;
    lemma_step_from_lands(items, sel, forward, 1);
    let r = step_from(items, sel, forward, 1);
    assert(0 <= r < n);
    assert(popup_next(items, selected, key) == PopupKey::Move(r as usize));
    assert((r as usize) as int == r);
    if !(0 <= r < n && selectable(items[r])) {
        assert forall|j: int| 0 <= j < n implies !#[trigger] selectable(items[j]) by {
            let k = lemma_step_reaches(n, sel, forward, j);
            assert(!selectable(items[wrap_step(n, sel, forward, k)]));
        }
    }
}

/// Pure navigation: skips separators and disabled items, `Enter` chooses.
pub fn popup_key(items: &[PopupItem], selected: usize, code: AppKey) -> (r: PopupKey)
    ensures
        r == popup_next(items@, selected as int, code),
{
    if items.len() == 0 {
        return PopupKey::Dismiss;
    }
    let sel = if selected < items.len() - 1 { selected } else { items.len() - 1 };
    match code {
        AppKey::Up => PopupKey::Move(step(items, sel, false)),
        AppKey::Down => PopupKey::Move(step(items, sel, true)),
        AppKey::Home => {
            let mut i: usize = 0;
            while i < items.len()
                invariant
                    i <= items@.len(),
                    items@.len() > 0,
                    code == AppKey::Home,
                    sel == (if selected < items@.len() - 1 { selected as int } else { items@.len() - 1 }),
                    first_selectable(items@, 0) == first_selectable(items@, i as int),
                decreases items.len() - i,
            {
                if is_selectable(&items[i]) {
                    return PopupKey::Move(i);
                }
                i += 1;
            }
            PopupKey::Move(sel)
        },
        AppKey::End => {
            let mut i: usize = items.len();
            while i > 0
                invariant
                    i <= items@.len(),
                    items@.len() > 0,
                    code == AppKey::End,
                    sel == (if selected < items@.len() - 1 { selected as int } else { items@.len() - 1 }),
                    last_selectable(items@, items@.len() as int) == last_selectable(items@, i as int),
                decreases i,
            {
                if is_selectable(&items[i - 1]) {
                    return PopupKey::Move(i - 1);
                }
                i -= 1;
            }
            PopupKey::Move(sel)
        },
        AppKey::Enter => {
            if is_selectable(&items[sel]) {
                PopupKey::Choose(sel)
            } else {
                PopupKey::Move(step(items, sel, true))
            }
        },
        AppKey::Esc => PopupKey::Dismiss,
        AppKey::Char(c) => {
            let lc = to_ascii_lower(c);
            let mut i: usize = 0;
            while i < items.len()
                invariant
                    i <= items@.len(),
                    items@.len() > 0,
                    code == AppKey::Char(c),
                    lc == ascii_lower(c),
                    hot_match(items@, lc, 0) == hot_match(items@, lc, i as int),
                decreases items.len() - i,
            {
                if is_selectable(&items[i]) {
                    match hot_key_of(items[i].label.as_str()) {
                        Some(h) => {
                            if to_ascii_lower(h) == lc {
                                return PopupKey::Choose(i);
                            }
                        },
                        None => {},
                    }
                }
                i += 1;
            }
            PopupKey::Stay
        },
        _ => PopupKey::Stay,
    }
}

/// On a popup with items, `Down` moves to the next item and `Up` to the one
/// before (round the ends) when that item can be chosen; `Enter` chooses
/// the selected item when it can be chosen; `Esc` dismisses.
pub proof fn lemma_popup_steps(items: Seq<PopupItem>, sel: int)
    requires
        0 < items.len() <= usize::MAX,
        0 <= sel < items.len(),
    ensures
        ({
            let n = items.len() as int;
            let nx = if sel + 1 < n { sel + 1 } else { 0 };
            let pv = if sel > 0 { sel - 1 } else { n - 1 };
            &&& selectable(items[nx]) ==> popup_next(items, sel, AppKey::Down) == PopupKey::Move(nx as usize)
            &&& selectable(items[pv]) ==> popup_next(items, sel, AppKey::Up) == PopupKey::Move(pv as usize)
            &&& selectable(items[sel]) ==> popup_next(items, sel, AppKey::Enter) == PopupKey::Choose(sel as usize)
            &&& popup_next(items, sel, AppKey::Esc) == PopupKey::Dismiss
        }),
{
    let n = items.len() as int;
    crate::widgets::common::lemma_mod_wrap(sel + 1, n);
    crate::widgets::common::lemma_mod_wrap(sel - 1 + n, n);
    vstd::arithmetic::div_mod::lemma_mod_add_multiples_vanish(sel - 1, n);
    assert(wrap_step(n, sel, true, 1) == if sel + 1 < n { sel + 1 } else { 0 });
    assert(wrap_step(n, sel, false, 1) == if sel > 0 { sel - 1 } else { n - 1 });
}

} // verus!
