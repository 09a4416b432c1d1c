//! Drop-down menu (`Dropdown`): a closed line plus a popup overlay.
//!
//! * **Closed:** one line with the selected option and a `▼` arrow on the
//!   right.
//! * **Open:** a vertical overlay with the options, scrolled within
//!   `max_height` rows, the cursor (hover) row on `active_bg_color`. It
//!   takes the focus: `Up`/`Down` move, `Enter` accepts and closes, `Esc`
//!   cancels and closes, a letter jumps to the next option starting with it.

use vstd::prelude::*;

use crate::app::events::AppKey;
use crate::engine::buffer::{Buffer, Grid, paint_run, paint_seq};
use crate::engine::cell::Cell;
use crate::engine::color::{Attr, Color};
use crate::engine::rect::{Rect, max_int, min_int, sat_add, sat_sub};
use crate::engine::theme::Theme;
use crate::prim::label::{draw_text, fit_spec, fit_text, hot_clean, visible_len};
use crate::prim::shadow::{ShadowStyle, shadow, shadow_grid};
use crate::text::{chars_of, seq_width, string_from_chars};
use crate::widgets::common::{draw_ring, find_by_letter, letter_search, ring, scroll_to, scroll_to_exec, strings_view};
use crate::widgets::listbox::owned_strings;

verus! {

/// Drop-down widget (see the module documentation).
#[derive(Clone, Debug, PartialEq, Eq)]
pub struct Dropdown {
    pub options: Vec<String>,
    pub selected_index: usize,
    pub is_open: bool,
    pub label: String,
    /// Most rows of the overlay (it scrolls beyond).
    pub max_height: u16,
    pub bg_color: Color,
    pub fg_color: Color,
    /// Background of the row under the cursor (hover).
    pub active_bg_color: Color,
    pub border_color: Option<Color>,
    pub has_shadow: bool,
    /// Navigation cursor while open.
    pub cursor: usize,
    /// First option shown in the overlay (scroll).
    pub scroll_top: usize,
}

/// The navigable state of a drop-down.
pub struct DropState {
    pub selected: int,
    pub open: bool,
    pub cursor: int,
    pub top: int,
}

/// Result of a key on the drop-down.
#[derive(Clone, Copy, Debug, PartialEq, Eq, Structural)]
pub enum DropdownKey {
    Stay,
    Opened,
    Moved(usize),
    Accepted(usize),
    Cancelled,
}

/// Rows the overlay shows at most.
pub open spec fn drop_rows(max_height: u16) -> int {
    max_int(max_height as int, 1)
}

/// Opening: the cursor goes to the selection, scrolled into view.
pub open spec fn drop_open(st: DropState, n: int, h: int) -> DropState {
    let c = min_int(st.selected, n - 1);
    DropState { cursor: c, open: true, top: scroll_to(c, st.top, h), ..st }
}

/// Moving the cursor to `c`, scrolled into view.
pub open spec fn drop_move(st: DropState, c: int, h: int) -> (DropState, DropdownKey) {
    (DropState { cursor: c, top: scroll_to(c, st.top, h), ..st }, DropdownKey::Moved(c as usize))
}

/// What a key does to a drop-down of the options `opts` and `max_height`.
/// Closed: `Down`/`Enter`/space open it, a letter selects the first option
/// starting with it. Open: `Up`/`Down` move round, `Home`/`End` go to the
/// ends, `Enter` accepts the cursor, `Esc` closes keeping the selection, a
/// letter jumps to the next option starting with it. Without options every
/// key is ignored.
pub open spec fn dropdown_next(opts: Seq<Seq<char>>, max_height: u16, st: DropState, key: AppKey) -> (DropState, DropdownKey) {
    let n = opts.len() as int;
    let h = drop_rows(max_height);
    if n == 0 {
        (st, DropdownKey::Stay)
    } else if !st.open {
        match key {
            AppKey::Down | AppKey::Enter => (drop_open(st, n, h), DropdownKey::Opened),
            AppKey::Char(c) => if c == ' ' {
                (drop_open(st, n, h), DropdownKey::Opened)
            } else {
                match letter_search(opts, n - 1, c, 0) {
                    Some(i) => (DropState { selected: i, cursor: i, ..st }, DropdownKey::Moved(i as usize)),
                    None => (st, DropdownKey::Stay),
                }
            },
            _ => (st, DropdownKey::Stay),
        }
    } else {
        let s = DropState { cursor: min_int(st.cursor, n - 1), ..st };
        match key {
            AppKey::Up => drop_move(s, (s.cursor + n - 1) % n, h),
            AppKey::Down => drop_move(s, (s.cursor + 1) % n, h),
            AppKey::Home => drop_move(s, 0, h),
            AppKey::End => drop_move(s, n - 1, h),
            AppKey::Enter => (DropState { selected: s.cursor, open: false, ..s }, DropdownKey::Accepted(s.cursor as usize)),
            AppKey::Esc => (DropState { cursor: min_int(s.selected, n - 1), open: false, ..s }, DropdownKey::Cancelled),
            AppKey::Char(c) => match letter_search(opts, s.cursor, c, 0) {
                Some(i) => drop_move(s, i, h),
                None => (s, DropdownKey::Stay),
            },
            _ => (s, DropdownKey::Stay),
        }
    }
}

impl Dropdown {
    pub open spec fn state(&self) -> DropState {
        DropState {
            selected: self.selected_index as int,
            open: self.is_open,
            cursor: self.cursor as int,
            top: self.scroll_top as int,
        }
    }

    /// Everything but the navigable state is the same.
    pub open spec fn same_setup(&self, other: &Dropdown) -> bool {
        &&& self.options == other.options
        &&& self.label == other.label
        &&& self.max_height == other.max_height
        &&& self.bg_color == other.bg_color
        &&& self.fg_color == other.fg_color
        &&& self.active_bg_color == other.active_bg_color
        &&& self.border_color == other.border_color
        &&& self.has_shadow == other.has_shadow
    }

    /// A closed drop-down in the Clipper popup palette, eight rows high,
    /// with a shadow and no border, the first option selected.
    pub fn new(label: &str, options: &[&str]) -> (r: Self)
        ensures
            strings_view(r.options@) == options@.map_values(|s: &str| s@),
            r.label@ == label@,
            r.selected_index == 0,
            !r.is_open,
            r.max_height == 8,
            r.bg_color == Theme::spec_clipper().popup,
            r.fg_color == Theme::spec_clipper().popup_text,
            r.active_bg_color == Theme::spec_clipper().select_bg,
            r.border_color is None,
            r.has_shadow,
            r.cursor == 0,
            r.scroll_top == 0,
    {
        let t = Theme::clipper();
        Dropdown {
            options: owned_strings(options),
            selected_index: 0,
            is_open: false,
            label: label.to_owned(),
            max_height: 8,
            bg_color: t.popup,
            fg_color: t.popup_text,
            active_bg_color: t.select_bg,
            border_color: None,
            has_shadow: true,
            cursor: 0,
            scroll_top: 0,
        }
    }

    /// Text of the selected option (empty when there is none).
    pub fn selected(&self) -> (r: &str)
        ensures
            r@ == if self.selected_index < self.options@.len() {
                self.options@[self.selected_index as int]@
            } else {
                Seq::empty()
            },
    {
        if self.selected_index < self.options.len() {
            self.options[self.selected_index].as_str()
        } else {
            proof {
                reveal_strlit("");
            }
            ""
        }
    }

    /// Opens the overlay with the cursor on the selection.
    pub fn open(&mut self)
        requires
            old(self).scroll_top + max_int(old(self).max_height as int, 1) <= usize::MAX,
        ensures
            final(self).state() == if old(self).options@.len() == 0 {
                old(self).state()
            } else {
                drop_open(old(self).state(), old(self).options@.len() as int, drop_rows(old(self).max_height))
            },
            final(self).same_setup(old(self)),
    {
        if self.options.len() == 0 {
            return;
        }
        self.cursor = if self.selected_index < self.options.len() - 1 { self.selected_index } else { self.options.len() - 1 };
        self.is_open = true;
        self.ensure_visible();
    }

    /// Closes taking the cursor as the selection.
    pub fn accept(&mut self)
        ensures
            final(self).state() == (DropState {
                selected: if old(self).options@.len() == 0 {
                    old(self).selected_index as int
                } else {
                    min_int(old(self).cursor as int, old(self).options@.len() - 1)
                },
                open: false,
                ..old(self).state()
            }),
            final(self).same_setup(old(self)),
    {
        if self.options.len() > 0 {
            self.selected_index = if self.cursor < self.options.len() - 1 { self.cursor } else { self.options.len() - 1 };
        }
        self.is_open = false;
    }

    /// Closes discarding the cursor (it goes back to the selection).
    pub fn cancel(&mut self)
        ensures
            final(self).state() == (DropState {
                cursor: min_int(old(self).selected_index as int, sat_sub(old(self).options@.len() as int, 1)),
                open: false,
                ..old(self).state()
            }),
            final(self).same_setup(old(self)),
    {
        let last = self.options.len().saturating_sub(1);
        self.cursor = if self.selected_index < last { self.selected_index } else { last };
        self.is_open = false;
    }

    fn ensure_visible(&mut self)
        requires
            old(self).scroll_top + max_int(old(self).max_height as int, 1) <= usize::MAX,
        ensures
            final(self).state() == (DropState {
                top: scroll_to(old(self).cursor as int, old(self).scroll_top as int, drop_rows(old(self).max_height)),
                ..old(self).state()
            }),
            final(self).same_setup(old(self)),
    {
        let h: usize = if self.max_height < 1 { 1 } else { self.max_height as usize };
        self.scroll_top = scroll_to_exec(self.cursor, self.scroll_top, h);
    }
}

/// Pure navigation (testable without a terminal); see `dropdown_next`.
pub fn dropdown_key(dd: &mut Dropdown, code: AppKey) -> (r: DropdownKey)
    ensures
        (final(dd).state(), r) == dropdown_next(strings_view(old(dd).options@), old(dd).max_height, old(dd).state(), code),
        final(dd).same_setup(old(dd)),
{
    let n = dd.options.len();
    if n == 0 {
        return DropdownKey::Stay;
    }
    let h: usize = if dd.max_height < 1 { 1 } else { dd.max_height as usize };
    if !dd.is_open {
        match code {
            AppKey::Down | AppKey::Enter => {
                open_at(dd);
                DropdownKey::Opened
            },
            AppKey::Char(c) => {
                if c == ' ' {
                    open_at(dd);
                    return DropdownKey::Opened;
                }
                match find_by_letter(&dd.options, n - 1, c) {
                    Some(i) => {
                        dd.selected_index = i;
                        dd.cursor = i;
                        DropdownKey::Moved(i)
                    },
                    None => DropdownKey::Stay,
                }
            },
            _ => DropdownKey::Stay,
        }
    } else {
        if dd.cursor > n - 1 {
            dd.cursor = n - 1;
        }
        let cur = dd.cursor;
        let target: usize = match code {
            AppKey::Up => {
                proof {
                    crate::widgets::common::lemma_mod_wrap(cur + n - 1, n as int);
                }
                if cur == 0 { n - 1 } else { cur - 1 }
            },
            AppKey::Down => {
                proof {
                    crate::widgets::common::lemma_mod_wrap(cur + 1, n as int);
                }
                if cur + 1 == n { 0 } else { cur + 1 }
            },
            AppKey::Home => 0,
            AppKey::End => n - 1,
            AppKey::Enter => {
                dd.selected_index = cur;
                dd.is_open = false;
                return DropdownKey::Accepted(cur);
            },
            AppKey::Esc => {
                dd.cursor = if dd.selected_index < n - 1 { dd.selected_index } else { n - 1 };
                dd.is_open = false;
                return DropdownKey::Cancelled;
            },
            AppKey::Char(c) => match find_by_letter(&dd.options, cur, c) {
                Some(i) => i,
                None => {
                    return DropdownKey::Stay;
                },
            },
            _ => {
                return DropdownKey::Stay;
            },
        };
        dd.cursor = target;
        dd.scroll_top = scroll_to_exec(target, dd.scroll_top, h);
        DropdownKey::Moved(target)
    }
}

/// Opening from the keyboard (the scroll is computed without overflow).
fn open_at(dd: &mut Dropdown)
    requires
        old(dd).options@.len() > 0,
    ensures
        final(dd).state() == drop_open(old(dd).state(), old(dd).options@.len() as int, drop_rows(old(dd).max_height)),
        final(dd).same_setup(old(dd)),
{
    let n = dd.options.len();
    let h: usize = if dd.max_height < 1 { 1 } else { dd.max_height as usize };
    dd.cursor = if dd.selected_index < n - 1 { dd.selected_index } else { n - 1 };
    dd.is_open = true;
    dd.scroll_top = scroll_to_exec(dd.cursor, dd.scroll_top, h);
}

/// Widest option, in cells (0 without options).
pub open spec fn widest(opts: Seq<Seq<char>>) -> int
    decreases opts.len(),
{
    if opts.len() == 0 {
        0
    } else {
        max_int(widest(opts.drop_last()), seq_width(hot_clean(opts.last())))
    }
}

/// Suggested size: label, longest option, arrow and air; at least 10 wide.
pub open spec fn dropdown_size_spec(dd: Dropdown) -> (u16, u16) {
    let longest = widest(strings_view(dd.options@));
    let label_w = if dd.label@.len() == 0 { 0 } else { sat_add(seq_width(hot_clean(dd.label@)), 2) };
    (max_int(sat_add(sat_add(label_w, longest), 4), 10) as u16, 1)
}

/// Suggested size = label + longest option + arrow + air.
pub fn dropdown_size(dd: &Dropdown) -> (r: (u16, u16))
    ensures
        r == dropdown_size_spec(*dd),
{
    let mut longest: u16 = 0;
    let mut i: usize = 0;
    while i < dd.options.len()
        invariant
            i <= dd.options@.len(),
            longest == widest(strings_view(dd.options@).take(i as int)),
        decreases dd.options.len() - i,
    {
        assert(strings_view(dd.options@).take(i + 1).drop_last() =~= strings_view(dd.options@).take(i as int));
        let w = visible_len(dd.options[i].as_str());
        if w > longest {
            longest = w;
        }
        i += 1;
    }
    assert(strings_view(dd.options@).take(i as int) =~= strings_view(dd.options@));
    let label_w: u16 = if str_is_empty(dd.label.as_str()) { 0 } else { visible_len(dd.label.as_str()).saturating_add(2) };
    let w = label_w.saturating_add(longest).saturating_add(4);
    (if w < 10 { 10 } else { w }, 1)
}

fn str_is_empty(s: &str) -> (r: bool)
    ensures
        r == (s@.len() == 0),
{
    crate::text::str_len(s) == 0
}

/// Overlay rectangle under the closed line (clamped to the screen).
pub open spec fn overlay_spec(closed: Rect, dd: Dropdown, screen: Rect) -> Rect {
    let visible = min_int((dd.options@.len() as u16) as int, drop_rows(dd.max_height));
    Rect::spec_popup_at(closed.x, sat_add(closed.y as int, 1) as u16, closed.w, sat_add(visible, 2) as u16, screen)
}

/// Rectangle of the open overlay under `closed` (clamped to the screen).
pub fn dropdown_overlay_rect(closed: Rect, dd: &Dropdown, screen: Rect) -> (r: Rect)
    ensures
        r == overlay_spec(closed, *dd, screen),
{
    let n = dd.options.len() as u16;
    let mh = if dd.max_height < 1 { 1 } else { dd.max_height };
    let visible = if n < mh { n } else { mh };
    let h = visible.saturating_add(2);
    Rect::popup_at(closed.x, closed.y.saturating_add(1), closed.w, h, screen)
}

/// The text of the closed line: `label: ` (when there is a label) and the
/// selected option.
pub open spec fn closed_text(dd: Dropdown) -> Seq<char> {
    let sel = if dd.selected_index < dd.options@.len() { dd.options@[dd.selected_index as int]@ } else { Seq::empty() };
    if dd.label@.len() == 0 {
        sel
    } else {
        dd.label@ + seq![':', ' '] + sel
    }
}

/// The option rows of the overlay `ov`: for `k` rows from `scroll_top`, a
/// strip inside the overlay's edge (black on `active_bg_color` on the
/// cursor row) and the option fitted to `ov.w - 4` columns.
pub open spec fn drop_rows_grid(g: Grid, dd: Dropdown, ov: Rect, k: int) -> Grid
    decreases k,
{
    if k <= 0 {
        g
    } else {
        let prev = drop_rows_grid(g, dd, ov, k - 1);
        let idx = dd.scroll_top + k - 1;
        if idx >= dd.options@.len() {
            prev
        } else {
            let y = sat_add(sat_add(ov.y as int, 1), k - 1);
            let hover = idx == dd.cursor;
            let bg = if hover { dd.active_bg_color } else { dd.bg_color };
            let fg = if hover { Color::Black } else { dd.fg_color };
            paint_run(
                prev.fill(
                    Rect { x: sat_add(ov.x as int, 1) as u16, y: y as u16, w: sat_sub(ov.w as int, 2) as u16, h: 1 },
                    Cell::spec_new(' ', fg, bg),
                ),
                sat_add(ov.x as int, 2),
                y,
                paint_seq(fit_spec(dd.options@[idx]@, sat_sub(ov.w as int, 4)), Attr { fg, bg, bold: false, dim: false }),
                false,
            )
        }
    }
}

proof fn lemma_drop_rows_stop(g: Grid, dd: Dropdown, ov: Rect, k0: int, k: int)
    requires
        0 <= k0 <= k,
        dd.scroll_top + k0 >= dd.options@.len(),
    ensures
        drop_rows_grid(g, dd, ov, k) == drop_rows_grid(g, dd, ov, k0),
    decreases k - k0,
{
    if k > k0 {
        lemma_drop_rows_stop(g, dd, ov, k0, k - 1);
    }
}

/// The closed line: background, text one column in, arrow two columns
/// from the right edge (`▲` while open).
pub open spec fn closed_grid(g: Grid, rect: Rect, dd: Dropdown) -> Grid {
    let base = Attr { fg: dd.fg_color, bg: dd.bg_color, bold: false, dim: false };
    let arrow = if dd.is_open { '\u{25b2}' } else { '\u{25bc}' };
    paint_run(
        g.fill(Rect { x: rect.x, y: rect.y, w: rect.w, h: 1 }, Cell::spec_new(' ', dd.fg_color, dd.bg_color)),
        sat_add(rect.x as int, 1),
        rect.y as int,
        paint_seq(fit_spec(closed_text(dd), sat_sub(rect.w as int, 3)), base),
        false,
    ).set(sat_sub(sat_add(rect.x as int, rect.w as int), 2), rect.y as int, Cell::spec_with_attr(arrow, base))
}

/// The drop-down as `dropdown_draw` paints it: the closed line, then the
/// open overlay with its shadow, rows and optional border.
pub open spec fn dropdown_grid(g: Grid, rect: Rect, dd: Dropdown, theme: Theme) -> Grid {
    if rect.spec_is_empty() {
        g
    } else {
        let g1 = closed_grid(g, rect, dd);
        let ov = overlay_spec(rect, dd, Rect { x: 0, y: 0, w: g.w as u16, h: g.h as u16 });
        if !dd.is_open || dd.options@.len() == 0 || ov.spec_is_empty() {
            g1
        } else {
            let g2 = if dd.has_shadow { shadow_grid(g1, ov, 2, 1, ShadowStyle::Translucent, theme) } else { g1 };
            let g3 = g2.fill(ov, Cell::spec_new(' ', dd.fg_color, dd.bg_color));
            let g4 = drop_rows_grid(g3, dd, ov, sat_sub(ov.h as int, 2));
            match dd.border_color {
                Some(b) => ring(g4, ov, Cell::spec_new(' ', b, b)),
                None => g4,
            }
        }
    }
}

/// Draws the closed line and, when open, the overlay over it. It does not
/// touch the screen stack (the caller saves the screen).
pub fn dropdown_draw(buf: &mut Buffer, rect: Rect, dd: &Dropdown, theme: Theme)
    requires
        old(buf).wf(),
    ensures
        final(buf).wf(),
        final(buf)@ == dropdown_grid(old(buf)@, rect, *dd, theme),
{
    if rect.is_empty() {
        return;
    }
    let ghost g0 = buf@;
    draw_closed(buf, rect, dd);
    if !dd.is_open || dd.options.len() == 0 {
        return;
    }
    proof {
        buf.lemma_size();
    }
    let ov = dropdown_overlay_rect(rect, dd, buf.bounds());
    if ov.is_empty() {
        return;
    }
    if dd.has_shadow {
        shadow(buf, ov, theme);
    }
    buf.fill_rect(ov, Cell::new(' ', dd.fg_color, dd.bg_color));
    let h = ov.h.saturating_sub(2);
    let ghost g3 = buf@;
    let mut row: u16 = 0;
    while row < h
        invariant
            buf.wf(),
            row <= h,
            buf@ == drop_rows_grid(g3, *dd, ov, row as int),
        ensures
            buf.wf(),
            buf@ == drop_rows_grid(g3, *dd, ov, h as int),
        decreases h - row,
    {
        if row as usize >= dd.options.len() || dd.scroll_top >= dd.options.len() - row as usize {
            proof {
                lemma_drop_rows_stop(g3, *dd, ov, row as int, h as int);
            }
            break;
        }
        let idx = dd.scroll_top + row as usize;
        let y = ov.y.saturating_add(1).saturating_add(row);
        let hover = idx == dd.cursor;
        let bg = if hover { dd.active_bg_color } else { dd.bg_color };
        let fg = if hover { Color::Black } else { dd.fg_color };
        buf.fill_rect(Rect::new(ov.x.saturating_add(1), y, ov.w.saturating_sub(2), 1), Cell::new(' ', fg, bg));
        let fit = fit_text(dd.options[idx].as_str(), ov.w.saturating_sub(4));
        draw_text(buf, ov.x.saturating_add(2), y, fit.as_str(), Attr::new(fg, bg));
        row += 1;
    }
    match dd.border_color {
        Some(b) => draw_ring(buf, ov, Cell::new(' ', b, b)),
        None => {},
    }
}

fn draw_closed(buf: &mut Buffer, rect: Rect, dd: &Dropdown)
    requires
        old(buf).wf(),
    ensures
        final(buf).wf(),
        final(buf)@ == closed_grid(old(buf)@, rect, *dd),
        final(buf)@.w == old(buf)@.w,
        final(buf)@.h == old(buf)@.h,
{
    buf.fill_rect(Rect::new(rect.x, rect.y, rect.w, 1), Cell::new(' ', dd.fg_color, dd.bg_color));
    let arrow = if dd.is_open { '\u{25b2}' } else { '\u{25bc}' };
    let base = Attr::new(dd.fg_color, dd.bg_color);
    let inner_w = rect.w.saturating_sub(3);
    let mut line: Vec<char> = Vec::new();
    if !str_is_empty(dd.label.as_str()) {
        line = chars_of(dd.label.as_str());
        line.push(':');
        line.push(' ');
    }
    let mut sel = chars_of(dd.selected());
    line.append(&mut sel);
    assert(line@ =~= closed_text(*dd));
    let text = string_from_chars(&line);
    let fit = fit_text(text.as_str(), inner_w);
    let ghost g1 = buf@;
    draw_text(buf, rect.x.saturating_add(1), rect.y, fit.as_str(), base);
    proof {
        crate::engine::buffer::lemma_paint_run_size(g1, sat_add(rect.x as int, 1), rect.y as int, paint_seq(fit@, base), false);
    }
    buf.set(rect.x.saturating_add(rect.w).saturating_sub(2), rect.y, Cell::with_attr(arrow, base));
}

/// On an open drop-down, `Up` undoes `Down` (the cursor goes round), and
/// `Esc` never changes the selection.
pub proof fn lemma_dropdown_down_up(opts: Seq<Seq<char>>, max_height: u16, st: DropState)
    requires
        st.open,
        opts.len() > 0,
        0 <= st.cursor < opts.len(),
        st.top >= 0,
    ensures
        ({
            let s1 = dropdown_next(opts, max_height, st, AppKey::Down).0;
            let s2 = dropdown_next(opts, max_height, s1, AppKey::Up).0;
            s2.cursor == st.cursor && s2.open
        }),
        dropdown_next(opts, max_height, st, AppKey::Esc).0.selected == st.selected,
{
    let n = opts.len() as int;
    crate::widgets::common::lemma_mod_wrap(st.cursor + 1, n);
    let c1 = (st.cursor + 1) % n;
    crate::widgets::common::lemma_mod_wrap(c1 + n - 1, n);
}

/// On an open drop-down with options, `Down` moves the cursor to the next
/// option and `Up` to the one before, round the ends, `Home` and `End` to
/// the first and the last, each kept in view; `Enter` makes the cursor's
/// option the selection and closes; `Esc` closes with the selection kept
/// and the cursor back on it. On a closed one, `Down`, `Enter` and space
/// open it on the selection.
pub proof fn lemma_dropdown_keys(opts: Seq<Seq<char>>, max_height: u16, st: DropState)
    requires
        opts.len() > 0,
        0 <= st.cursor < opts.len(),
        0 <= st.selected < opts.len(),
    ensures
        ({
            let n = opts.len() as int;
            let h = drop_rows(max_height);
            let dn = dropdown_next(opts, max_height, st, AppKey::Down);
            let up = dropdown_next(opts, max_height, st, AppKey::Up);
            let home = dropdown_next(opts, max_height, st, AppKey::Home);
            let end = dropdown_next(opts, max_height, st, AppKey::End);
            let ent = dropdown_next(opts, max_height, st, AppKey::Enter);
            let esc = dropdown_next(opts, max_height, st, AppKey::Esc);
            st.open ==> {
                &&& dn.0.cursor == (if st.cursor + 1 < n { st.cursor + 1 } else { 0 })
                &&& up.0.cursor == (if st.cursor > 0 { st.cursor - 1 } else { n - 1 })
                &&& home.0.cursor == 0 && end.0.cursor == n - 1
                &&& dn.0.top <= dn.0.cursor < dn.0.top + h && up.0.top <= up.0.cursor < up.0.top + h
                &&& dn.0.selected == st.selected && up.0.selected == st.selected && dn.0.open && up.0.open
                &&& dn.1 == DropdownKey::Moved(dn.0.cursor as usize)
                &&& ent.0.selected == st.cursor && !ent.0.open && ent.1 == DropdownKey::Accepted(st.cursor as usize)
                &&& esc.0.selected == st.selected && esc.0.cursor == st.selected && !esc.0.open && esc.1
                    == DropdownKey::Cancelled
            }
        }),
        ({
            let h = drop_rows(max_height);
            !st.open ==> forall|k: AppKey|
                (k == AppKey::Down || k == AppKey::Enter || k == AppKey::Char(' ')) ==> {
                    let o = #[trigger] dropdown_next(opts, max_height, st, k);
                    &&& o.1 == DropdownKey::Opened && o.0.open
                    &&& o.0.cursor == st.selected && o.0.selected == st.selected
                    &&& o.0.top <= o.0.cursor < o.0.top + h
                }
        }),
{
    let n = opts.len() as int;
    crate::widgets::common::lemma_mod_wrap(st.cursor + 1, n);
    crate::widgets::common::lemma_mod_wrap(st.cursor + n - 1, n);
}

} // verus!
