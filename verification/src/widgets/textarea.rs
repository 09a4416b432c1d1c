//! Multi-line memo field (`TextArea`).
//!
//! Long notes or descriptions: `Enter` inserts a line break, the view
//! scrolls vertically by itself, the total number of characters is capped,
//! and the arrows (`Up Down Left Right`, `Home`/`End`, `PgUp`/`PgDn`) move
//! inside the text.

use vstd::prelude::*;

use crate::app::events::AppKey;
use crate::engine::buffer::{Buffer, Grid, paint_run, paint_seq};
use crate::engine::cell::Cell;
use crate::engine::color::{Attr, Color};
use crate::engine::rect::{Rect, max_int, min_int, sat_add, sat_sub};
use crate::engine::theme::Theme;
use crate::prim::label::{draw_text, fit_spec, fit_text};
use crate::prim::shadow::{ShadowStyle, shadow, shadow_grid};
use crate::text::{chars_of, str_concat, str_insert, str_len, str_remove, str_slice, string_from_chars};

verus! {

/// Multi-line memo. The text lives in `lines` (without the `\n`).
#[derive(Clone, Debug, PartialEq, Eq)]
pub struct TextArea {
    pub lines: Vec<String>,
    /// Cursor as (row, column in characters).
    pub cursor_row: usize,
    pub cursor_col: usize,
    /// Cap on the total number of characters (`usize::MAX` = no cap).
    pub max_chars: usize,
    /// First visible row (vertical scroll).
    pub scroll_top: usize,
    pub foreground_color: Color,
    pub background_color: Color,
    pub active_background_color: Color,
    pub border_color: Option<Color>,
    pub has_shadow: bool,
}

/// The editable part of a memo: lines, cursor and scroll.
#[verifier::ext_equal]
pub struct Memo {
    pub lines: Seq<Seq<char>>,
    pub row: int,
    pub col: int,
    pub top: int,
}

/// The characters of each line.
pub open spec fn lines_view(lines: Seq<String>) -> Seq<Seq<char>> {
    lines.map_values(|s: String| s@)
}

/// Sum of the line lengths.
pub open spec fn total_len(lines: Seq<Seq<char>>) -> int
    decreases lines.len(),
{
    if lines.len() == 0 {
        0
    } else {
        total_len(lines.drop_last()) + lines.last().len()
    }
}

/// Characters of the text, line breaks included, saturated at
/// `usize::MAX`.
pub open spec fn memo_chars(lines: Seq<Seq<char>>) -> int {
    min_int(total_len(lines) + sat_sub(lines.len() as int, 1), usize::MAX as int)
}

/// The lines of `s`, cut at every `\n` (at least one line).
pub open spec fn split_nl(s: Seq<char>) -> Seq<Seq<char>>
    decreases s.len(),
{
    if s.len() == 0 {
        seq![Seq::empty()]
    } else {
        let rest = split_nl(s.drop_last());
        if s.last() == '\n' {
            rest.push(Seq::empty())
        } else {
            rest.update(rest.len() - 1, rest.last().push(s.last()))
        }
    }
}

/// The lines joined with `\n`.
pub open spec fn join_nl(lines: Seq<Seq<char>>) -> Seq<char>
    decreases lines.len(),
{
    if lines.len() == 0 {
        Seq::empty()
    } else if lines.len() == 1 {
        lines[0]
    } else {
        join_nl(lines.drop_last()) + seq!['\n'] + lines.last()
    }
}

/// Lines present, cursor on a character or at the end of its line.
pub open spec fn memo_valid(m: Memo) -> bool {
    &&& m.lines.len() >= 1
    &&& 0 <= m.row < m.lines.len()
    &&& 0 <= m.col <= m.lines[m.row].len()
}

/// One empty line when there is none, and the cursor clamped to the text.
pub open spec fn memo_prepare(m: Memo) -> Memo {
    let lines = if m.lines.len() == 0 { seq![Seq::<char>::empty()] } else { m.lines };
    let row = min_int(m.row, lines.len() - 1);
    Memo { lines, row, col: min_int(m.col, lines[row].len() as int), top: m.top }
}

/// The cursor clamped to the text (the lines are left alone).
pub open spec fn memo_clamp(m: Memo) -> Memo {
    let row = min_int(m.row, m.lines.len() - 1);
    Memo { row, col: min_int(m.col, m.lines[row].len() as int), ..m }
}

/// Scrolls so that the cursor row is among the `max(visible, 1)` rows shown.
pub open spec fn memo_show(m: Memo, visible: int) -> Memo {
    let vis = max_int(visible, 1);
    if m.row < m.top {
        Memo { top: m.row, ..m }
    } else if m.row >= m.top + vis {
        Memo { top: m.row + 1 - vis, ..m }
    } else {
        m
    }
}

/// Result of a key in the memo.
#[derive(Clone, Copy, Debug, PartialEq, Eq, Structural)]
pub enum TextAreaKey {
    Stay,
    Moved,
    Changed,
}

/// What a key does to a memo (after `memo_prepare`): the arrows and
/// `Home`/`End`/`PgUp`/`PgDn` move, `Backspace`/`Delete` remove a character
/// or join two lines, `Enter` splits the line and a character is inserted,
/// both only below the cap of `max_chars`.
pub open spec fn memo_key(m0: Memo, max_chars: int, visible: int, key: AppKey) -> (Memo, TextAreaKey) {
    let m = memo_prepare(m0);
    let n = m.lines.len();
    let line = m.lines[m.row];
    let len = line.len() as int;
    let vis = max_int(visible, 1);
    match key {
        AppKey::Left => if m.col > 0 {
            (memo_show(Memo { col: m.col - 1, ..m }, visible), TextAreaKey::Moved)
        } else if m.row > 0 {
            (memo_show(Memo { row: m.row - 1, col: m.lines[m.row - 1].len() as int, ..m }, visible), TextAreaKey::Moved)
        } else {
            (m, TextAreaKey::Stay)
        },
        AppKey::Right => if m.col < len {
            (memo_show(Memo { col: m.col + 1, ..m }, visible), TextAreaKey::Moved)
        } else if m.row + 1 < n {
            (memo_show(Memo { row: m.row + 1, col: 0, ..m }, visible), TextAreaKey::Moved)
        } else {
            (m, TextAreaKey::Stay)
        },
        AppKey::Up => if m.row == 0 {
            (m, TextAreaKey::Stay)
        } else {
            (memo_show(memo_clamp(Memo { row: m.row - 1, ..m }), visible), TextAreaKey::Moved)
        },
        AppKey::Down => if m.row + 1 >= n {
            (m, TextAreaKey::Stay)
        } else {
            (memo_show(memo_clamp(Memo { row: m.row + 1, ..m }), visible), TextAreaKey::Moved)
        },
        AppKey::Home => (Memo { col: 0, ..m }, TextAreaKey::Moved),
        AppKey::End => (Memo { col: len, ..m }, TextAreaKey::Moved),
        AppKey::PageUp => (memo_show(memo_clamp(Memo { row: sat_sub(m.row, vis), ..m }), visible), TextAreaKey::Moved),
        AppKey::PageDown => (
            memo_show(memo_clamp(Memo { row: min_int(m.row + vis, n - 1), ..m }), visible),
            TextAreaKey::Moved,
        ),
        AppKey::Backspace => if m.col > 0 {
            (
                memo_show(Memo { lines: m.lines.update(m.row, line.remove(m.col - 1)), col: m.col - 1, ..m }, visible),
                TextAreaKey::Changed,
            )
        } else if m.row > 0 {
            let prev = m.lines[m.row - 1];
            (
                memo_show(
                    Memo {
                        lines: m.lines.remove(m.row).update(m.row - 1, prev + line),
                        row: m.row - 1,
                        col: prev.len() as int,
                        top: m.top,
                    },
                    visible,
                ),
                TextAreaKey::Changed,
            )
        } else {
            (m, TextAreaKey::Stay)
        },
        AppKey::Delete => if m.col < len {
            (Memo { lines: m.lines.update(m.row, line.remove(m.col)), ..m }, TextAreaKey::Changed)
        } else if m.row + 1 < n {
            (Memo { lines: m.lines.remove(m.row + 1).update(m.row, line + m.lines[m.row + 1]), ..m }, TextAreaKey::Changed)
        } else {
            (m, TextAreaKey::Stay)
        },
        AppKey::Enter => if memo_chars(m.lines) >= max_chars {
            (m, TextAreaKey::Stay)
        } else {
            (
                memo_show(
                    Memo {
                        lines: m.lines.update(m.row, line.take(m.col)).insert(m.row + 1, line.skip(m.col)),
                        row: m.row + 1,
                        col: 0,
                        top: m.top,
                    },
                    visible,
                ),
                TextAreaKey::Changed,
            )
        },
        AppKey::Char(c) => if memo_chars(m.lines) >= max_chars {
            (m, TextAreaKey::Stay)
        } else {
            (Memo { lines: m.lines.update(m.row, line.insert(m.col, c)), col: m.col + 1, ..m }, TextAreaKey::Changed)
        },
        _ => (m, TextAreaKey::Stay),
    }
}

impl TextArea {
    /// The editable state.
    pub open spec fn memo(&self) -> Memo {
        Memo {
            lines: lines_view(self.lines@),
            row: self.cursor_row as int,
            col: self.cursor_col as int,
            top: self.scroll_top as int,
        }
    }

    /// Everything but the editable state is the same.
    pub open spec fn same_setup(&self, other: &TextArea) -> bool {
        &&& self.max_chars == other.max_chars
        &&& self.foreground_color == other.foreground_color
        &&& self.background_color == other.background_color
        &&& self.active_background_color == other.active_background_color
        &&& self.border_color == other.border_color
        &&& self.has_shadow == other.has_shadow
    }

    /// An empty memo capped at `max_chars` characters: black on white,
    /// grey when focused, no border, no shadow.
    pub fn new(max_chars: usize) -> (r: Self)
        ensures
            r.memo() == (Memo { lines: seq![Seq::<char>::empty()], row: 0, col: 0, top: 0 }),
            r.max_chars == max_chars,
            r.foreground_color == Color::Black,
            r.background_color == Color::White,
            r.active_background_color == Color::Grey,
            r.border_color is None,
            !r.has_shadow,
    {
        let mut lines: Vec<String> = Vec::new();
        lines.push(String::new());
        let r = TextArea {
            lines,
            cursor_row: 0,
            cursor_col: 0,
            max_chars,
            scroll_top: 0,
            foreground_color: Color::Black,
            background_color: Color::White,
            active_background_color: Color::Grey,
            border_color: None,
            has_shadow: false,
        };
        assert(r.memo().lines =~= seq![Seq::<char>::empty()]);
        r
    }

    /// A memo holding `text`, one line per `\n`-separated piece.
    pub fn with_text(text: &str, max_chars: usize) -> (r: Self)
        ensures
            r.memo() == (Memo { lines: split_nl(text@), row: 0, col: 0, top: 0 }),
            r.max_chars == max_chars,
            r.foreground_color == Color::Black,
            r.background_color == Color::White,
            r.active_background_color == Color::Grey,
            r.border_color is None,
            !r.has_shadow,
    {
        let mut a = Self::new(max_chars);
        let cs = chars_of(text);
        let mut lines: Vec<String> = Vec::new();
        let mut cur: Vec<char> = Vec::new();
        let mut i: usize = 0;
        while i < cs.len()
            invariant
                i <= cs@.len(),
                cs@ == text@,
                lines_view(lines@).push(cur@) == split_nl(text@.take(i as int)),
            decreases cs.len() - i,
        {
            let c = cs[i];
            proof {
                assert(text@.take(i + 1).drop_last() =~= text@.take(i as int));
            }
            if c == '\n' {
                let s = string_from_chars(&cur);
                lines.push(s);
                cur = Vec::new();
                assert(lines_view(lines@).push(cur@) =~= split_nl(text@.take(i as int)).push(Seq::empty()));
            } else {
                let ghost before = lines_view(lines@).push(cur@);
                cur.push(c);
                assert(lines_view(lines@).push(cur@) =~= before.update(before.len() - 1, before.last().push(c)));
            }
            i += 1;
        }
        let s = string_from_chars(&cur);
        lines.push(s);
        assert(text@.take(i as int) =~= text@);
        assert(lines_view(lines@) =~= split_nl(text@));
        a.lines = lines;
        a
    }

    /// The whole text, lines joined with `\n`.
    pub fn text(&self) -> (r: String)
        ensures
            r@ == join_nl(lines_view(self.lines@)),
    {
        let mut out: Vec<char> = Vec::new();
        let mut i: usize = 0;
        while i < self.lines.len()
            invariant
                i <= self.lines@.len(),
                out@ == join_nl(lines_view(self.lines@).take(i as int)),
            decreases self.lines.len() - i,
        {
            let ghost lv = lines_view(self.lines@);
            assert(lv.take(i + 1).drop_last() =~= lv.take(i as int));
            if i > 0 {
                out.push('\n');
            }
            let cs = chars_of(self.lines[i].as_str());
            let mut tail = cs;
            out.append(&mut tail);
            i += 1;
            proof {
                if i == 1 {
                    assert(out@ =~= lv.take(1)[0]);
                } else {
                    assert(out@ =~= join_nl(lv.take(i - 1)) + seq!['\n'] + lv[i - 1]);
                }
            }
        }
        assert(lines_view(self.lines@).take(i as int) =~= lines_view(self.lines@));
        string_from_chars(&out)
    }

    /// Number of characters, line breaks included (saturated at
    /// `usize::MAX`).
    pub fn char_count(&self) -> (r: usize)
        ensures
            r == memo_chars(lines_view(self.lines@)),
    {
        let mut total: usize = 0;
        let mut i: usize = 0;
        while i < self.lines.len()
            invariant
                i <= self.lines@.len(),
                total == min_int(total_len(lines_view(self.lines@).take(i as int)), usize::MAX as int),
            decreases self.lines.len() - i,
        {
            let ghost lv = lines_view(self.lines@);
            assert(lv.take(i + 1).drop_last() =~= lv.take(i as int));
            let l = str_len(self.lines[i].as_str());
            total = total.saturating_add(l);
            i += 1;
        }
        assert(lines_view(self.lines@).take(i as int) =~= lines_view(self.lines@));
        total.saturating_add(self.lines.len().saturating_sub(1))
    }

    /// One empty line when there is none; cursor clamped to the text.
    fn prepare(&mut self)
        ensures
            final(self).memo() == memo_prepare(old(self).memo()),
            final(self).same_setup(old(self)),
            memo_valid(final(self).memo()),
    {
        if self.lines.len() == 0 {
            self.lines.push(String::new());
            assert(lines_view(self.lines@) =~= seq![Seq::<char>::empty()]);
        }
        self.clamp_cursor();
    }

    /// Cursor clamped to the text.
    fn clamp_cursor(&mut self)
        requires
            old(self).lines@.len() >= 1,
        ensures
            final(self).memo() == memo_clamp(old(self).memo()),
            final(self).same_setup(old(self)),
            memo_valid(final(self).memo()),
    {
        let last = self.lines.len() - 1;
        if self.cursor_row > last {
            self.cursor_row = last;
        }
        let len = str_len(self.lines[self.cursor_row].as_str());
        if self.cursor_col > len {
            self.cursor_col = len;
        }
    }

    /// Scrolls so that the cursor row is shown.
    fn ensure_visible(&mut self, visible: usize)
        requires
            old(self).scroll_top + max_int(visible as int, 1) <= usize::MAX,
            old(self).cursor_row + 1 <= usize::MAX,
        ensures
            final(self).memo() == memo_show(old(self).memo(), visible as int),
            final(self).same_setup(old(self)),
            final(self).lines@ == old(self).lines@,
    {
        let vis = if visible < 1 { 1 } else { visible };
        if self.cursor_row < self.scroll_top {
            self.scroll_top = self.cursor_row;
        } else if self.cursor_row >= self.scroll_top + vis {
            self.scroll_top = self.cursor_row + 1 - vis;
        }
    }
}

/// Visible text rows inside `rect`.
pub fn textarea_visible(rect: Rect, bordered: bool) -> (r: usize)
    ensures
        r == if bordered { sat_sub(rect.h as int, 2) } else { rect.h as int },
{
    (if bordered { rect.h.saturating_sub(2) } else { rect.h }) as usize
}

/// The text rows drawn by `textarea_draw`: for `k` rows from the first
/// visible line, line `top + i` fitted to `w` columns at `(x, y0 + i)`.
pub open spec fn memo_rows(g: Grid, lines: Seq<Seq<char>>, top: int, x: int, y0: int, w: int, base: Attr, k: int) -> Grid
    decreases k,
{
    if k <= 0 {
        g
    } else {
        let prev = memo_rows(g, lines, top, x, y0, w, base, k - 1);
        if top + k - 1 >= lines.len() {
            prev
        } else {
            paint_run(prev, x, sat_add(y0, k - 1), paint_seq(fit_spec(lines[top + k - 1], w), base), false)
        }
    }
}

proof fn lemma_memo_rows_stop(g: Grid, lines: Seq<Seq<char>>, top: int, x: int, y0: int, w: int, base: Attr, k0: int, k: int)
    requires
        0 <= k0 <= k,
        top + k0 >= lines.len(),
    ensures
        memo_rows(g, lines, top, x, y0, w, base, k) == memo_rows(g, lines, top, x, y0, w, base, k0),
    decreases k - k0,
{
    if k > k0 {
        lemma_memo_rows_stop(g, lines, top, x, y0, w, base, k0, k - 1);
    }
}

/// Where the cursor cell of a focused memo goes.
pub open spec fn cursor_x(rect: Rect, area: TextArea) -> int {
    let x0 = sat_add(rect.x as int, if area.border_color is Some { 1 } else { 0 });
    sat_add(sat_add(x0, 1), (area.cursor_col as u16) as int)
}

pub open spec fn cursor_y(rect: Rect, area: TextArea) -> int {
    let y0 = sat_add(rect.y as int, if area.border_color is Some { 1 } else { 0 });
    sat_add(y0, (sat_sub(area.cursor_row as int, area.scroll_top as int) as u16) as int)
}

/// The cursor cell is on screen.
pub open spec fn cursor_shown(rect: Rect, area: TextArea, focused: bool) -> bool {
    focused && cursor_x(rect, area) < rect.spec_right() && cursor_y(rect, area) < rect.spec_bottom()
}

/// The memo as `textarea_draw` paints it: shadow, body, text rows, the
/// cursor in inverse video when focused, and the solid border.
pub open spec fn textarea_grid(g: Grid, rect: Rect, area: TextArea, focused: bool) -> Grid {
    if rect.spec_is_empty() {
        g
    } else {
        let bordered = area.border_color is Some;
        let g1 = if area.has_shadow { shadow_grid(g, rect, 2, 1, ShadowStyle::Translucent, Theme::spec_clipper()) } else { g };
        let bg = if focused { area.active_background_color } else { area.background_color };
        let g2 = g1.fill(rect, Cell::spec_new(' ', area.foreground_color, bg));
        let x0 = sat_add(rect.x as int, if bordered { 1 } else { 0 });
        let y0 = sat_add(rect.y as int, if bordered { 1 } else { 0 });
        let w = sat_sub(rect.w as int, if bordered { 2 } else { 0 });
        let rows = if bordered { sat_sub(rect.h as int, 2) } else { rect.h as int };
        let base = Attr { fg: area.foreground_color, bg, bold: false, dim: false };
        let g3 = memo_rows(g2, lines_view(area.lines@), area.scroll_top as int, sat_add(x0, 1), y0, sat_sub(w, 1), base, rows);
        let g4 = if cursor_shown(rect, area, focused) {
            let line = area.lines@[area.cursor_row as int]@;
            let ch = if area.cursor_col < line.len() { line[area.cursor_col as int] } else { ' ' };
            g3.set(cursor_x(rect, area), cursor_y(rect, area), Cell::spec_new(ch, bg, area.foreground_color))
        } else {
            g3
        };
        match area.border_color {
            Some(b) => {
                let bc = Cell::spec_new(' ', b, b);
                g4.fill(Rect { x: rect.x, y: rect.y, w: rect.w, h: 1 }, bc)
                    .fill(Rect { x: rect.x, y: sat_sub(rect.spec_bottom() as int, 1) as u16, w: rect.w, h: 1 }, bc)
                    .fill(Rect { x: rect.x, y: rect.y, w: 1, h: rect.h }, bc)
                    .fill(Rect { x: sat_sub(rect.spec_right() as int, 1) as u16, y: rect.y, w: 1, h: rect.h }, bc)
            },
            None => g4,
        }
    }
}

/// Draws the memo (cursor in inverse video when focused).
pub fn textarea_draw(buf: &mut Buffer, rect: Rect, area: &TextArea, focused: bool)
    requires
        old(buf).wf(),
        cursor_shown(rect, *area, focused) ==> area.cursor_row < area.lines@.len(),
    ensures
        final(buf).wf(),
        final(buf)@ == textarea_grid(old(buf)@, rect, *area, focused),
{
    if rect.is_empty() {
        return;
    }
    let bordered = match area.border_color {
        Some(_) => true,
        None => false,
    };
    if area.has_shadow {
        shadow(buf, rect, Theme::clipper());
    }
    let bg = if focused { area.active_background_color } else { area.background_color };
    buf.fill_rect(rect, Cell::new(' ', area.foreground_color, bg));
    let x0 = rect.x.saturating_add(if bordered { 1 } else { 0 });
    let y0 = rect.y.saturating_add(if bordered { 1 } else { 0 });
    let w = rect.w.saturating_sub(if bordered { 2 } else { 0 });
    let rows = textarea_visible(rect, bordered);
    let base = Attr::new(area.foreground_color, bg);
    let ghost g2 = buf@;
    let ghost lv = lines_view(area.lines@);
    let mut row: usize = 0;
    while row < rows
        invariant
            buf.wf(),
            rows <= u16::MAX,
            row <= rows,
            lv == lines_view(area.lines@),
            buf@ == memo_rows(g2, lv, area.scroll_top as int, sat_add(x0 as int, 1), y0 as int, sat_sub(w as int, 1), base, row as int),
        ensures
            buf.wf(),
            buf@ == memo_rows(g2, lv, area.scroll_top as int, sat_add(x0 as int, 1), y0 as int, sat_sub(w as int, 1), base, rows as int),
        decreases rows - row,
    {
        if row >= area.lines.len() || area.scroll_top >= area.lines.len() - row {
            proof {
                lemma_memo_rows_stop(g2, lv, area.scroll_top as int, sat_add(x0 as int, 1), y0 as int, sat_sub(w as int, 1), base, row as int, rows as int);
            }
            break;
        }
        let idx = area.scroll_top + row;
        let fit = fit_text(area.lines[idx].as_str(), w.saturating_sub(1));
        draw_text(buf, x0.saturating_add(1), y0.saturating_add(row as u16), fit.as_str(), base);
        row += 1;
    }
    if focused {
        let cx = x0.saturating_add(1).saturating_add(area.cursor_col as u16);
        let cy = y0.saturating_add(area.cursor_row.saturating_sub(area.scroll_top) as u16);
        if cx < rect.right() && cy < rect.bottom() {
            let line = chars_of(area.lines[area.cursor_row].as_str());
            let ch = if area.cursor_col < line.len() { line[area.cursor_col] } else { ' ' };
            buf.set(cx, cy, Cell::with_attr(ch, Attr::new(bg, area.foreground_color)));
        }
    }
    match area.border_color {
        Some(b) => {
            let bc = Cell::new(' ', b, b);
            buf.fill_rect(Rect::new(rect.x, rect.y, rect.w, 1), bc);
            buf.fill_rect(Rect::new(rect.x, rect.bottom().saturating_sub(1), rect.w, 1), bc);
            buf.fill_rect(Rect::new(rect.x, rect.y, 1, rect.h), bc);
            buf.fill_rect(Rect::new(rect.right().saturating_sub(1), rect.y, 1, rect.h), bc);
        },
        None => {},
    }
}

/// The keys after which the view scrolls to the cursor.
pub open spec fn scrolls(code: AppKey) -> bool {
    code is Left || code is Right || code is Up || code is Down || code is PageUp || code is PageDown
        || code is Backspace || code is Enter
}

/// Pure multi-line editing (see `memo_key`).
pub fn textarea_key(area: &mut TextArea, visible: usize, code: AppKey) -> (r: TextAreaKey)
    requires
        scrolls(code) ==> old(area).scroll_top + max_int(visible as int, 1) <= usize::MAX,
        code is PageDown ==> old(area).lines@.len() + max_int(visible as int, 1) <= usize::MAX + 1,
    ensures
        (final(area).memo(), r) == memo_key(old(area).memo(), old(area).max_chars as int, visible as int, code),
        final(area).same_setup(old(area)),
{
    area.prepare();
    match code {
        AppKey::Left | AppKey::Right | AppKey::Up | AppKey::Down | AppKey::Home | AppKey::End | AppKey::PageUp
        | AppKey::PageDown => key_move(area, visible, code),
        AppKey::Backspace | AppKey::Delete => key_remove(area, visible, code),
        AppKey::Enter | AppKey::Char(_) => key_insert(area, visible, code),
        _ => TextAreaKey::Stay,
    }
}

fn key_move(area: &mut TextArea, visible: usize, code: AppKey) -> (r: TextAreaKey)
    requires
        memo_valid(old(area).memo()),
        scrolls(code) ==> old(area).scroll_top + max_int(visible as int, 1) <= usize::MAX,
        code is PageDown ==> old(area).lines@.len() + max_int(visible as int, 1) <= usize::MAX + 1,
        code is Left || code is Right || code is Up || code is Down || code is Home || code is End || code is PageUp || code is PageDown,
    ensures
        (final(area).memo(), r) == memo_key(old(area).memo(), old(area).max_chars as int, visible as int, code),
        final(area).same_setup(old(area)),
{
    let ghost m = area.memo();
    assert(memo_prepare(m) == m);
    let _line_count = area.lines.len();
    assert(area.lines@.len() <= usize::MAX);
    let row = area.cursor_row;
    let col = area.cursor_col;
    let len = str_len(area.lines[row].as_str());
    let vis = if visible < 1 { 1 } else { visible };
    match code {
        AppKey::Left => {
            if col > 0 {
                area.cursor_col = col - 1;
            } else if row > 0 {
                area.cursor_row = row - 1;
                area.cursor_col = str_len(area.lines[row - 1].as_str());
            } else {
                return TextAreaKey::Stay;
            }
            area.ensure_visible(visible);
            TextAreaKey::Moved
        },
        AppKey::Right => {
            if col < len {
                area.cursor_col = col + 1;
            } else if row + 1 < area.lines.len() {
                area.cursor_row = row + 1;
                area.cursor_col = 0;
            } else {
                return TextAreaKey::Stay;
            }
            area.ensure_visible(visible);
            TextAreaKey::Moved
        },
        AppKey::Up => {
            if row == 0 {
                return TextAreaKey::Stay;
            }
            area.cursor_row = row - 1;
            area.clamp_cursor();
            area.ensure_visible(visible);
            TextAreaKey::Moved
        },
        AppKey::Down => {
            if row + 1 >= area.lines.len() {
                return TextAreaKey::Stay;
            }
            area.cursor_row = row + 1;
            area.clamp_cursor();
            area.ensure_visible(visible);
            TextAreaKey::Moved
        },
        AppKey::Home => {
            area.cursor_col = 0;
            TextAreaKey::Moved
        },
        AppKey::End => {
            area.cursor_col = len;
            TextAreaKey::Moved
        },
        AppKey::PageUp => {
            area.cursor_row = row.saturating_sub(vis);
            area.clamp_cursor();
            area.ensure_visible(visible);
            TextAreaKey::Moved
        },
        AppKey::PageDown => {
            let last = area.lines.len() - 1;
            area.cursor_row = if row + vis < last { row + vis } else { last };
            area.clamp_cursor();
            area.ensure_visible(visible);
            TextAreaKey::Moved
        },
        _ => TextAreaKey::Stay,
    }
}

fn key_remove(area: &mut TextArea, visible: usize, code: AppKey) -> (r: TextAreaKey)
    requires
        memo_valid(old(area).memo()),
        scrolls(code) ==> old(area).scroll_top + max_int(visible as int, 1) <= usize::MAX,
        code is PageDown ==> old(area).lines@.len() + max_int(visible as int, 1) <= usize::MAX + 1,
        code is Backspace || code is Delete,
    ensures
        (final(area).memo(), r) == memo_key(old(area).memo(), old(area).max_chars as int, visible as int, code),
        final(area).same_setup(old(area)),
{
    let ghost m = area.memo();
    assert(memo_prepare(m) == m);
    let _line_count = area.lines.len();
    assert(area.lines@.len() <= usize::MAX);
    let row = area.cursor_row;
    let col = area.cursor_col;
    let len = str_len(area.lines[row].as_str());
    let vis = if visible < 1 { 1 } else { visible };
    match code {
        AppKey::Backspace => {
            if col > 0 {
                let s = str_remove(area.lines[row].as_str(), col - 1);
                area.lines.set(row, s);
                area.cursor_col = col - 1;
                assert(lines_view(area.lines@) =~= m.lines.update(m.row, m.lines[m.row].remove(m.col - 1)));
            } else if row > 0 {
                let cur = area.lines.remove(row);
                let joined = str_concat(area.lines[row - 1].as_str(), cur.as_str());
                let prev_len = str_len(area.lines[row - 1].as_str());
                area.lines.set(row - 1, joined);
                area.cursor_row = row - 1;
                area.cursor_col = prev_len;
                assert(lines_view(area.lines@) =~= m.lines.remove(m.row).update(
                    m.row - 1,
                    m.lines[m.row - 1] + m.lines[m.row],
                ));
            } else {
                return TextAreaKey::Stay;
            }
            area.ensure_visible(visible);
            TextAreaKey::Changed
        },
        AppKey::Delete => {
            if col < len {
                let s = str_remove(area.lines[row].as_str(), col);
                area.lines.set(row, s);
                assert(lines_view(area.lines@) =~= m.lines.update(m.row, m.lines[m.row].remove(m.col)));
            } else if row + 1 < area.lines.len() {
                let next = area.lines.remove(row + 1);
                let joined = str_concat(area.lines[row].as_str(), next.as_str());
                area.lines.set(row, joined);
                assert(lines_view(area.lines@) =~= m.lines.remove(m.row + 1).update(
                    m.row,
                    m.lines[m.row] + m.lines[m.row + 1],
                ));
            } else {
                return TextAreaKey::Stay;
            }
            TextAreaKey::Changed
        },
        _ => TextAreaKey::Stay,
    }
}

fn key_insert(area: &mut TextArea, visible: usize, code: AppKey) -> (r: TextAreaKey)
    requires
        memo_valid(old(area).memo()),
        scrolls(code) ==> old(area).scroll_top + max_int(visible as int, 1) <= usize::MAX,
        code is PageDown ==> old(area).lines@.len() + max_int(visible as int, 1) <= usize::MAX + 1,
        code is Enter || code is Char,
    ensures
        (final(area).memo(), r) == memo_key(old(area).memo(), old(area).max_chars as int, visible as int, code),
        final(area).same_setup(old(area)),
{
    let ghost m = area.memo();
    assert(memo_prepare(m) == m);
    let _line_count = area.lines.len();
    assert(area.lines@.len() <= usize::MAX);
    let row = area.cursor_row;
    let col = area.cursor_col;
    let len = str_len(area.lines[row].as_str());
    let vis = if visible < 1 { 1 } else { visible };
    match code {
        AppKey::Enter => {
            if area.char_count() >= area.max_chars {
                return TextAreaKey::Stay;
            }
            let head = str_slice(area.lines[row].as_str(), 0, col);
            let tail = str_slice(area.lines[row].as_str(), col, len);
            area.lines.set(row, head);
            area.lines.insert(row + 1, tail);
            let n2 = area.lines.len();
            assert(row + 2 <= n2);
            area.cursor_row = row + 1;
            area.cursor_col = 0;
            assert(lines_view(area.lines@) =~= m.lines.update(m.row, m.lines[m.row].take(m.col)).insert(
                m.row + 1,
                m.lines[m.row].skip(m.col),
            ));
            area.ensure_visible(visible);
            TextAreaKey::Changed
        },
        AppKey::Char(c) => {
            if area.char_count() >= area.max_chars {
                return TextAreaKey::Stay;
            }
            let s = str_insert(area.lines[row].as_str(), col, c);
            let new_len = str_len(s.as_str());
            area.lines.set(row, s);
            area.cursor_col = col + 1;
            assert(lines_view(area.lines@) =~= m.lines.update(m.row, m.lines[m.row].insert(m.col, c)));
            TextAreaKey::Changed
        },
        _ => TextAreaKey::Stay,
    }
}

/// `split_nl` always gives at least one line.
proof fn lemma_split_nl_len(s: Seq<char>)
    ensures
        split_nl(s).len() >= 1,
    decreases s.len(),
{
    if s.len() > 0 {
        lemma_split_nl_len(s.drop_last());
    }
}

/// Appending a character to the last line appends it to the joined text.
proof fn lemma_join_push_last(ls: Seq<Seq<char>>, c: char)
    requires
        ls.len() >= 1,
    ensures
        join_nl(ls.update(ls.len() - 1, ls.last().push(c))) == join_nl(ls).push(c),
{
    let u = ls.update(ls.len() - 1, ls.last().push(c));
    if ls.len() > 1 {
        assert(u.drop_last() =~= ls.drop_last());
        assert(join_nl(u) =~= join_nl(ls).push(c));
    }
}

/// Joining the lines of a text gives the text back: the text of
/// `TextArea::with_text(s, ..)` is `s`.
pub proof fn lemma_text_roundtrip(s: Seq<char>)
    ensures
        join_nl(split_nl(s)) == s,
    decreases s.len(),
{
    if s.len() > 0 {
        let rest = split_nl(s.drop_last());
        lemma_text_roundtrip(s.drop_last());
        lemma_split_nl_len(s.drop_last());
        if s.last() == '\n' {
            assert(rest.push(Seq::empty()).drop_last() =~= rest);
            assert(join_nl(rest.push(Seq::empty())) =~= s);
        } else {
            lemma_join_push_last(rest, s.last());
            assert(s.drop_last().push(s.last()) =~= s);
        }
    }
}

proof fn lemma_total_len_update(ls: Seq<Seq<char>>, i: int, x: Seq<char>)
    requires
        0 <= i < ls.len(),
    ensures
        total_len(ls.update(i, x)) == total_len(ls) - ls[i].len() + x.len(),
    decreases ls.len(),
{
    if i < ls.len() - 1 {
        assert(ls.update(i, x).drop_last() =~= ls.drop_last().update(i, x));
        lemma_total_len_update(ls.drop_last(), i, x);
    } else {
        assert(ls.update(i, x).drop_last() =~= ls.drop_last());
    }
}

proof fn lemma_total_len_remove(ls: Seq<Seq<char>>, i: int)
    requires
        0 <= i < ls.len(),
    ensures
        total_len(ls.remove(i)) == total_len(ls) - ls[i].len(),
    decreases ls.len(),
{
    if i < ls.len() - 1 {
        assert(ls.remove(i).drop_last() =~= ls.drop_last().remove(i));
        lemma_total_len_remove(ls.drop_last(), i);
    } else {
        assert(ls.remove(i) =~= ls.drop_last());
    }
}

proof fn lemma_total_len_insert(ls: Seq<Seq<char>>, i: int, x: Seq<char>)
    requires
        0 <= i <= ls.len(),
    ensures
        total_len(ls.insert(i, x)) == total_len(ls) + x.len(),
    decreases ls.len(),
{
    if i < ls.len() {
        assert(ls.insert(i, x).drop_last() =~= ls.drop_last().insert(i, x));
        lemma_total_len_insert(ls.drop_last(), i, x);
    } else {
        assert(ls.insert(i, x).drop_last() =~= ls);
    }
}

/// After any key the memo has lines and its cursor lies on the text.
pub proof fn lemma_memo_key_valid(m: Memo, max_chars: int, visible: int, key: AppKey)
    requires
        m.row >= 0,
        m.col >= 0,
    ensures
        memo_valid(memo_key(m, max_chars, visible, key).0),
{
    let p = memo_prepare(m);
    assert(memo_valid(p));
    let line = p.lines[p.row];
    let r = memo_key(m, max_chars, visible, key).0;
    match key {
        AppKey::Backspace => {
            if p.col > 0 {
                assert(r.lines[r.row] == line.remove(p.col - 1));
            } else if p.row > 0 {
                let l2 = p.lines.remove(p.row).update(p.row - 1, p.lines[p.row - 1] + line);
                assert(r.lines == l2);
                assert(l2[p.row - 1].len() == p.lines[p.row - 1].len() + line.len());
            }
        },
        AppKey::Delete => {
            if p.col < line.len() {
                assert(r.lines[r.row] == line.remove(p.col));
            } else if p.row + 1 < p.lines.len() {
                let l2 = p.lines.remove(p.row + 1).update(p.row, line + p.lines[p.row + 1]);
                assert(r.lines == l2);
                assert(l2[p.row].len() == line.len() + p.lines[p.row + 1].len());
            }
        },
        AppKey::Enter => {
            if memo_chars(p.lines) < max_chars {
                let l2 = p.lines.update(p.row, line.take(p.col)).insert(p.row + 1, line.skip(p.col));
                assert(r.lines == l2);
                assert(l2.len() == p.lines.len() + 1);
            }
        },
        AppKey::Char(c) => {
            if memo_chars(p.lines) < max_chars {
                assert(r.lines[r.row] == line.insert(p.col, c));
            }
        },
        _ => {},
    }
}

/// No key takes the text past the cap: a memo within `max_chars`
/// characters stays within it.
pub proof fn lemma_memo_key_cap(m: Memo, max_chars: int, visible: int, key: AppKey)
    requires
        m.row >= 0,
        m.col >= 0,
        memo_chars(m.lines) <= max_chars <= usize::MAX,
    ensures
        memo_chars(memo_key(m, max_chars, visible, key).0.lines) <= max_chars,
{
    let p = memo_prepare(m);
    let r = p.row;
    let line = p.lines[r];
    let n = p.lines.len();
    if m.lines.len() == 0 {
        assert(total_len(p.lines) == 0) by {
            assert(p.lines.drop_last() =~= Seq::<Seq<char>>::empty());
            assert(total_len(p.lines) == total_len(p.lines.drop_last()) + p.lines.last().len());
        }
    }
    match key {
        AppKey::Backspace => {
            if p.col > 0 {
                lemma_total_len_update(p.lines, r, line.remove(p.col - 1));
            } else if r > 0 {
                let prev = p.lines[r - 1];
                lemma_total_len_remove(p.lines, r);
                lemma_total_len_update(p.lines.remove(r), r - 1, prev + line);
            }
        },
        AppKey::Delete => {
            if p.col < line.len() {
                lemma_total_len_update(p.lines, r, line.remove(p.col));
            } else if r + 1 < n {
                lemma_total_len_remove(p.lines, r + 1);
                lemma_total_len_update(p.lines.remove(r + 1), r, line + p.lines[r + 1]);
            }
        },
        AppKey::Enter => {
            if memo_chars(p.lines) < max_chars {
                lemma_total_len_update(p.lines, r, line.take(p.col));
                lemma_total_len_insert(p.lines.update(r, line.take(p.col)), r + 1, line.skip(p.col));
            }
        },
        AppKey::Char(c) => {
            if memo_chars(p.lines) < max_chars {
                lemma_total_len_update(p.lines, r, line.insert(p.col, c));
            }
        },
        _ => {},
    }
}

/// `Enter` followed by `Backspace` gives back the text and the cursor.
pub proof fn lemma_enter_backspace_undo(m: Memo, max_chars: int, visible: int)
    requires
        memo_valid(m),
        memo_chars(m.lines) < max_chars,
    ensures
        ({
            let m1 = memo_key(m, max_chars, visible, AppKey::Enter).0;
            let m2 = memo_key(m1, max_chars, visible, AppKey::Backspace).0;
            m2.lines == m.lines && m2.row == m.row && m2.col == m.col
        }),
{
    let line = m.lines[m.row];
    let m1 = memo_key(m, max_chars, visible, AppKey::Enter).0;
    assert(memo_prepare(m) == m);
    assert(memo_valid(m1));
    assert(memo_prepare(m1) == m1);
    let l1 = m.lines.update(m.row, line.take(m.col)).insert(m.row + 1, line.skip(m.col));
    assert(m1.lines == l1);
    assert(l1.remove(m.row + 1) =~= m.lines.update(m.row, line.take(m.col)));
    assert(line.take(m.col) + line.skip(m.col) =~= line);
    assert(l1.remove(m.row + 1).update(m.row, l1[m.row] + l1[m.row + 1]) =~= m.lines);
}

/// Typing a character and then `Backspace` gives back the text and the
/// cursor.
pub proof fn lemma_char_backspace_undo(m: Memo, max_chars: int, visible: int, c: char)
    requires
        memo_valid(m),
        memo_chars(m.lines) < max_chars,
    ensures
        ({
            let m1 = memo_key(m, max_chars, visible, AppKey::Char(c)).0;
            let m2 = memo_key(m1, max_chars, visible, AppKey::Backspace).0;
            m2.lines == m.lines && m2.row == m.row && m2.col == m.col
        }),
{
    let line = m.lines[m.row];
    let m1 = memo_key(m, max_chars, visible, AppKey::Char(c)).0;
    assert(memo_prepare(m) == m);
    assert(memo_valid(m1));
    assert(memo_prepare(m1) == m1);
    assert(line.insert(m.col, c).remove(m.col) =~= line);
    assert(m.lines.update(m.row, line.insert(m.col, c)).update(m.row, line) =~= m.lines);
}

/// A key that scrolls leaves the cursor row among the rows shown.
pub proof fn lemma_show_keeps_cursor_visible(m: Memo, visible: int)
    ensures
        memo_show(m, visible).top <= memo_show(m, visible).row < memo_show(m, visible).top + max_int(visible, 1),
{
}

/// What a key's result says of the memo: `Stay` leaves it exactly as it
/// was, `Moved` keeps the text (only the cursor and scroll move), and
/// `Changed` changes the text.
pub proof fn lemma_key_outcome(m: Memo, max_chars: int, visible: int, key: AppKey)
    requires
        memo_valid(m),
    ensures
        ({
            let (m2, r) = memo_key(m, max_chars, visible, key);
            &&& r == TextAreaKey::Stay ==> m2 == m
            &&& r == TextAreaKey::Moved ==> m2.lines == m.lines
            &&& r == TextAreaKey::Changed ==> m2.lines != m.lines
        }),
{
    assert(memo_prepare(m) == m);
    let line = m.lines[m.row];
    let (m2, r) = memo_key(m, max_chars, visible, key);
    if r == TextAreaKey::Changed {
        match key {
            AppKey::Backspace => {
                if m.col > 0 {
                    assert(m2.lines[m.row].len() == line.len() - 1);
                } else {
                    assert(m2.lines.len() == m.lines.len() - 1);
                }
            },
            AppKey::Delete => {
                if m.col < line.len() {
                    assert(m2.lines[m.row].len() == line.len() - 1);
                } else {
                    assert(m2.lines.len() == m.lines.len() - 1);
                }
            },
            AppKey::Enter => {
                assert(m2.lines.len() == m.lines.len() + 1);
            },
            AppKey::Char(c) => {
                assert(m2.lines[m.row].len() == line.len() + 1);
            },
            _ => {},
        }
    }
}

/// Characters of `s` other than `\n`.
pub open spec fn count_non_nl(s: Seq<char>) -> int
    decreases s.len(),
{
    if s.len() == 0 {
        0
    } else {
        count_non_nl(s.drop_last()) + if s.last() == '\n' { 0int } else { 1int }
    }
}

/// Number of `\n` in `s`.
pub open spec fn count_nl(s: Seq<char>) -> int
    decreases s.len(),
{
    if s.len() == 0 {
        0
    } else {
        count_nl(s.drop_last()) + if s.last() == '\n' { 1int } else { 0int }
    }
}

/// A text cut into lines has one line per `\n` plus one, and its lines hold
/// all its other characters: with the line breaks, as many characters as
/// the text.
pub proof fn lemma_split_counts(s: Seq<char>)
    ensures
        split_nl(s).len() == count_nl(s) + 1,
        total_len(split_nl(s)) == count_non_nl(s),
        total_len(split_nl(s)) + (split_nl(s).len() - 1) == s.len(),
    decreases s.len(),
{
    if s.len() == 0 {
        let e = seq![Seq::<char>::empty()];
        assert(e.drop_last() =~= Seq::<Seq<char>>::empty());
        assert(total_len(Seq::<Seq<char>>::empty()) == 0);
        assert(e.last().len() == 0);
        assert(total_len(e) == total_len(e.drop_last()) + e.last().len());
    } else {
        let rest = split_nl(s.drop_last());
        lemma_split_counts(s.drop_last());
        if s.last() == '\n' {
            let p = rest.push(Seq::<char>::empty());
            assert(p.drop_last() =~= rest);
            assert(total_len(p) == total_len(rest));
        } else {
            let up = rest.update(rest.len() - 1, rest.last().push(s.last()));
            lemma_total_len_update_last(rest, rest.last().push(s.last()));
            assert(total_len(up) == total_len(rest) + 1);
        }
    }
}

/// Replacing the last line changes the total by the difference in length.
proof fn lemma_total_len_update_last(lines: Seq<Seq<char>>, l: Seq<char>)
    requires
        lines.len() >= 1,
    ensures
        total_len(lines.update(lines.len() - 1, l)) == total_len(lines) - lines.last().len() + l.len(),
{
    let up = lines.update(lines.len() - 1, l);
    assert(up.drop_last() =~= lines.drop_last());
    assert(up.last() == l);
}

/// Inside a line the arrows move the cursor one character: `Left` from a
/// column past the start of the line gives the column before it, `Right`
/// from a column before its end the column after it, both on the same row
/// with the text unchanged; `Right` then `Left` (and `Left` then `Right`)
/// put the cursor back where it was. `Home` and `End` go to the start and
/// the end of the cursor's line.
pub proof fn lemma_arrows_step_one(m: Memo, max_chars: int, visible: int)
    requires
        memo_valid(m),
    ensures
        ({
            let (l, r) = memo_key(m, max_chars, visible, AppKey::Left);
            m.col > 0 ==> l.lines == m.lines && l.row == m.row && l.col == m.col - 1 && r == TextAreaKey::Moved
        }),
        ({
            let (l, r) = memo_key(m, max_chars, visible, AppKey::Right);
            m.col < m.lines[m.row].len() ==> l.lines == m.lines && l.row == m.row && l.col == m.col + 1 && r
                == TextAreaKey::Moved
        }),
        m.col < m.lines[m.row].len() ==> ({
            let m1 = memo_key(m, max_chars, visible, AppKey::Right).0;
            let m2 = memo_key(m1, max_chars, visible, AppKey::Left).0;
            m2.lines == m.lines && m2.row == m.row && m2.col == m.col
        }),
        m.col > 0 ==> ({
            let m1 = memo_key(m, max_chars, visible, AppKey::Left).0;
            let m2 = memo_key(m1, max_chars, visible, AppKey::Right).0;
            m2.lines == m.lines && m2.row == m.row && m2.col == m.col
        }),
        ({
            let h = memo_key(m, max_chars, visible, AppKey::Home).0;
            let e = memo_key(m, max_chars, visible, AppKey::End).0;
            &&& h.lines == m.lines && h.row == m.row && h.col == 0
            &&& e.lines == m.lines && e.row == m.row && e.col == m.lines[m.row].len()
        }),
{
    assert(memo_prepare(m) == m);
    let r1 = memo_key(m, max_chars, visible, AppKey::Right).0;
    assert(memo_prepare(r1) == r1);
    let l1 = memo_key(m, max_chars, visible, AppKey::Left).0;
    assert(memo_prepare(l1) == l1);
}

/// `Up` and `Down` move the cursor to the row above and below, keeping its
/// column where that row is long enough and else going to the row's end,
/// with the text unchanged; on the first row `Up`, and on the last `Down`,
/// leave the memo as it was.
pub proof fn lemma_vertical_moves(m: Memo, max_chars: int, visible: int)
    requires
        memo_valid(m),
    ensures
        ({
            let (u, r) = memo_key(m, max_chars, visible, AppKey::Up);
            let above = m.lines[m.row - 1].len() as int;
            &&& m.row > 0 ==> u.lines == m.lines && u.row == m.row - 1 && u.col == (if m.col <= above { m.col } else { above }) && r == TextAreaKey::Moved
            &&& m.row == 0 ==> u == m && r == TextAreaKey::Stay
        }),
        ({
            let (dn, r) = memo_key(m, max_chars, visible, AppKey::Down);
            let below = m.lines[m.row + 1].len() as int;
            &&& m.row + 1 < m.lines.len() ==> dn.lines == m.lines && dn.row == m.row + 1 && dn.col == (if m.col <= below { m.col } else { below }) && r == TextAreaKey::Moved
            &&& m.row + 1 == m.lines.len() ==> dn == m && r == TextAreaKey::Stay
        }),
{
    assert(memo_prepare(m) == m);
}

/// Editing at the cursor below the cap: a character goes in at the cursor,
/// which moves past it; `Backspace` inside a line takes out the character
/// before the cursor and `Delete` the one under it; `Enter` cuts the line
/// at the cursor and puts the cursor at the start of the second part. The
/// other lines are kept.
pub proof fn lemma_line_edits(m: Memo, max_chars: int, visible: int, c: char)
    requires
        memo_valid(m),
    ensures
        ({
            let line = m.lines[m.row];
            let (e, r) = memo_key(m, max_chars, visible, AppKey::Char(c));
            memo_chars(m.lines) < max_chars ==> e.lines.len() == m.lines.len() && e.row == m.row && e.col == m.col + 1
                && e.lines[m.row] == line.take(m.col) + seq![c] + line.skip(m.col) && r == TextAreaKey::Changed
                && (forall|i: int| 0 <= i < m.lines.len() && i != m.row ==> e.lines[i] == m.lines[i])
        }),
        ({
            let line = m.lines[m.row];
            let (e, r) = memo_key(m, max_chars, visible, AppKey::Backspace);
            m.col > 0 ==> e.lines.len() == m.lines.len() && e.row == m.row && e.col == m.col - 1 && e.lines[m.row]
                == line.take(m.col - 1) + line.skip(m.col) && r == TextAreaKey::Changed && (forall|i: int|
                0 <= i < m.lines.len() && i != m.row ==> e.lines[i] == m.lines[i])
        }),
        ({
            let line = m.lines[m.row];
            let (e, r) = memo_key(m, max_chars, visible, AppKey::Delete);
            m.col < line.len() ==> e.lines.len() == m.lines.len() && e.row == m.row && e.col == m.col && e.lines[m.row]
                == line.take(m.col) + line.skip(m.col + 1) && r == TextAreaKey::Changed && (forall|i: int|
                0 <= i < m.lines.len() && i != m.row ==> e.lines[i] == m.lines[i])
        }),
        ({
            let line = m.lines[m.row];
            let (e, r) = memo_key(m, max_chars, visible, AppKey::Enter);
            memo_chars(m.lines) < max_chars ==> e.lines.len() == m.lines.len() + 1 && e.row == m.row + 1 && e.col == 0
                && e.lines[m.row] == line.take(m.col) && e.lines[m.row + 1] == line.skip(m.col) && r
                == TextAreaKey::Changed && (forall|i: int| 0 <= i < m.row ==> e.lines[i] == m.lines[i]) && (forall|
                i: int|
                m.row < i < m.lines.len() ==> e.lines[i + 1] == m.lines[i])
        }),
{
    assert(memo_prepare(m) == m);
    let line = m.lines[m.row];
    assert(line.insert(m.col, c) =~= line.take(m.col) + seq![c] + line.skip(m.col));
    if m.col > 0 {
        assert(line.remove(m.col - 1) =~= line.take(m.col - 1) + line.skip(m.col));
    }
    if m.col < line.len() {
        assert(line.remove(m.col) =~= line.take(m.col) + line.skip(m.col + 1));
    }
}

/// Joining lines: `Backspace` at the start of a line after the first
/// appends the line to the one above, the cursor going to the joint, and
/// `Delete` at the end of a line before the last appends the next line to
/// it, the cursor staying; either way there is one line less.
pub proof fn lemma_line_joins(m: Memo, max_chars: int, visible: int)
    requires
        memo_valid(m),
    ensures
        ({
            let (e, r) = memo_key(m, max_chars, visible, AppKey::Backspace);
            let prev = m.lines[m.row - 1];
            m.col == 0 && m.row > 0 ==> e.lines.len() == m.lines.len() - 1 && e.row == m.row - 1 && e.col == prev.len()
                && e.lines[m.row - 1] == prev + m.lines[m.row] && r == TextAreaKey::Changed && (forall|i: int|
                0 <= i < m.row - 1 ==> e.lines[i] == m.lines[i]) && (forall|i: int|
                m.row <= i < e.lines.len() ==> e.lines[i] == m.lines[i + 1])
        }),
        ({
            let (e, r) = memo_key(m, max_chars, visible, AppKey::Delete);
            let line = m.lines[m.row];
            m.col == line.len() && m.row + 1 < m.lines.len() ==> e.lines.len() == m.lines.len() - 1 && e.row == m.row
                && e.col == m.col && e.lines[m.row] == line + m.lines[m.row + 1] && r == TextAreaKey::Changed && (forall|
                i: int|
                0 <= i < m.row ==> e.lines[i] == m.lines[i]) && (forall|i: int|
                m.row < i < e.lines.len() ==> e.lines[i] == m.lines[i + 1])
        }),
        m.col == 0 && m.row == 0 ==> memo_key(m, max_chars, visible, AppKey::Backspace) == (m, TextAreaKey::Stay),
        m.col == m.lines[m.row].len() && m.row + 1 == m.lines.len() ==> memo_key(m, max_chars, visible, AppKey::Delete)
            == (m, TextAreaKey::Stay),
{
    assert(memo_prepare(m) == m);
}

/// The view keeps the cursor: when its row is among the rows shown, it is
/// still among them after any key.
pub proof fn lemma_cursor_stays_shown(m: Memo, max_chars: int, visible: int, key: AppKey)
    requires
        memo_valid(m),
        m.top <= m.row < m.top + max_int(visible, 1),
    ensures
        ({
            let e = memo_key(m, max_chars, visible, key).0;
            e.top <= e.row < e.top + max_int(visible, 1)
        }),
{
    assert(memo_prepare(m) == m);
}

} // verus!
