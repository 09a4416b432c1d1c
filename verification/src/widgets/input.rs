//! One-line text box (`InputField`).
//!
//! Maximum length, text colour, another background while active
//! (focus/cursor) and an optional mask character (`*` for passwords). It
//! exposes the four common parameters (`foreground_color`,
//! `background_color`, `border_color`, `has_shadow`).
//!
//! Colours are `Color` (the fixed palette of the engine), as in
//! `Dropdown`.

use vstd::prelude::*;

use crate::app::events::AppKey;
use crate::engine::buffer::{Buffer, Grid, paint_run, paint_seq};
use crate::engine::cell::Cell;
use crate::engine::color::{Attr, Color};
use crate::engine::rect::{Rect, min_int, sat_add, sat_sub};
use crate::engine::theme::Theme;
use crate::prim::label::draw_text;
use crate::prim::shadow::{ShadowStyle, shadow, shadow_grid};
use crate::text::{chars_of, str_insert, str_len, str_remove, string_from_chars};
use crate::widgets::common::{draw_ring, ring};

verus! {

/// One-line text box.
#[derive(Clone, Debug)]
pub struct InputField {
    pub value: String,
    /// Maximum length in characters (`0` keeps it empty).
    pub max_len: usize,
    /// Render mask (`Some('*')` for a password). Only visual.
    pub mask: Option<char>,
    /// Cursor position in characters (`0..=len`).
    pub cursor: usize,
    pub foreground_color: Color,
    pub background_color: Color,
    /// Background while the field has the focus.
    pub active_background_color: Color,
    pub border_color: Option<Color>,
    pub has_shadow: bool,
}

/// The text shown: the value, or as many mask characters.
pub open spec fn display_spec(f: InputField) -> Seq<char> {
    match f.mask {
        Some(m) => Seq::new(f.value@.len(), |i: int| m),
        None => f.value@,
    }
}

impl InputField {
    /// An empty field of at most `max_len` characters: black on white,
    /// grey while active, no border, no shadow.
    pub fn new(max_len: usize) -> (r: Self)
        ensures
            r.value@ == Seq::<char>::empty(),
            r.max_len == max_len,
            r.mask is None,
            r.cursor == 0,
            r.foreground_color == Color::Black,
            r.background_color == Color::White,
            r.active_background_color == Color::Grey,
            r.border_color is None,
            !r.has_shadow,
    {
        InputField {
            value: String::new(),
            max_len,
            mask: None,
            cursor: 0,
            foreground_color: Color::Black,
            background_color: Color::White,
            active_background_color: Color::Grey,
            border_color: None,
            has_shadow: false,
        }
    }

    /// Visible text (masked if there is a mask).
    pub fn display(&self) -> (r: String)
        ensures
            r@ == display_spec(*self),
    {
        match self.mask {
            Some(m) => {
                let n = str_len(self.value.as_str());
                let mut out: Vec<char> = Vec::new();
                let mut i: usize = 0;
                while i < n
                    invariant
                        i <= n,
                        n == self.value@.len(),
                        out@ == Seq::new(i as nat, |j: int| m),
                    decreases n - i,
                {
                    out.push(m);
                    i += 1;
                    assert(out@ =~= Seq::new(i as nat, |j: int| m));
                }
                string_from_chars(&out)
            },
            None => self.value.clone(),
        }
    }
}

/// The inner row: inside a border when there is one and room for it,
/// else the first row of `rect`.
pub open spec fn inner_spec(rect: Rect, bordered: bool) -> Rect {
    if bordered && rect.w >= 3 && rect.h >= 3 {
        Rect {
            x: sat_add(rect.x as int, 1) as u16,
            y: sat_add(rect.y as int, 1) as u16,
            w: sat_sub(rect.w as int, 2) as u16,
            h: 1,
        }
    } else {
        Rect { x: rect.x, y: rect.y, w: rect.w, h: 1 }
    }
}

fn inner_of(rect: Rect, bordered: bool) -> (r: Rect)
    ensures
        r == inner_spec(rect, bordered),
{
    if bordered && rect.w >= 3 && rect.h >= 3 {
        Rect::new(rect.x.saturating_add(1), rect.y.saturating_add(1), rect.w.saturating_sub(2), 1)
    } else {
        Rect::new(rect.x, rect.y, rect.w, 1)
    }
}

/// First character shown so that the cursor stays in view in `w` cells.
pub open spec fn scroll_offset(cursor: int, w: int) -> int {
    if cursor >= w {
        cursor + 1 - w
    } else {
        0
    }
}

/// The first `k` shown characters, one per cell from `inner.x`.
pub open spec fn shown_chars(g: Grid, inner: Rect, disp: Seq<char>, offset: int, a: Attr, k: int) -> Grid
    decreases k,
{
    if k <= 0 {
        g
    } else {
        paint_run(
            shown_chars(g, inner, disp, offset, a, k - 1),
            sat_add(inner.x as int, k - 1),
            inner.y as int,
            paint_seq(seq![disp[offset + k - 1]], a),
            false,
        )
    }
}

/// Shadow and border of the field.
pub open spec fn input_frame(g: Grid, rect: Rect, f: InputField) -> Grid {
    let bordered = f.border_color is Some;
    let g1 = if f.has_shadow {
        shadow_grid(
            g,
            if bordered { rect } else { Rect { x: rect.x, y: rect.y, w: rect.w, h: 1 } },
            2,
            1,
            ShadowStyle::Translucent,
            Theme::spec_clipper(),
        )
    } else {
        g
    };
    match f.border_color {
        Some(b) => ring(g1, rect, Cell::spec_new(' ', b, b)),
        None => g1,
    }
}

/// The inner row: background of its state, the text scrolled to keep the
/// cursor in view and, with the focus, the cursor cell inverted.
pub open spec fn input_body(g: Grid, inner: Rect, f: InputField, focused: bool) -> Grid {
    let bg = if focused { f.active_background_color } else { f.background_color };
    let g3 = g.fill(inner, Cell::spec_new(' ', f.foreground_color, bg));
    let disp = display_spec(f);
    let w = inner.w as int;
    let offset = scroll_offset(f.cursor as int, w);
    let k = min_int(w, if disp.len() > offset { disp.len() - offset } else { 0 });
    let base = Attr { fg: f.foreground_color, bg, bold: false, dim: false };
    let g4 = shown_chars(g3, inner, disp, offset, base, k);
    let cx = sat_add(inner.x as int, sat_sub(f.cursor as int, offset));
    if focused && cx < inner.spec_right() {
        let ch = if f.cursor < disp.len() { disp[f.cursor as int] } else { ' ' };
        g4.set(cx, inner.y as int, Cell::spec_with_attr(ch, Attr { fg: bg, bg: f.foreground_color, bold: false, dim: false }))
    } else {
        g4
    }
}

/// The field drawn over `g`: shadow, border, inner row.
pub open spec fn input_grid(g: Grid, rect: Rect, f: InputField, focused: bool) -> Grid {
    if rect.spec_is_empty() {
        g
    } else {
        let g2 = input_frame(g, rect, f);
        let inner = inner_spec(rect, f.border_color is Some);
        if inner.spec_is_empty() {
            g2
        } else {
            input_body(g2, inner, f, focused)
        }
    }
}

fn char_text(c: char) -> (r: String)
    ensures
        r@ == seq![c],
{
    let mut v: Vec<char> = Vec::new();
    v.push(c);
    string_from_chars(&v)
}

fn draw_shown(buf: &mut Buffer, inner: Rect, disp: &Vec<char>, offset: usize, base: Attr, k: usize)
    requires
        old(buf).wf(),
        k > 0 ==> offset + k <= disp@.len(),
        k <= inner.w,
    ensures
        final(buf).wf(),
        final(buf)@ == shown_chars(old(buf)@, inner, disp@, offset as int, base, k as int),
{
    let ghost g3 = buf@;
    let dl = disp.len();
    let mut i: usize = 0;
    while i < k
        invariant
            dl == disp@.len(),
            buf.wf(),
            k > 0 ==> offset + k <= disp@.len(),
            k <= inner.w,
            i <= k,
            buf@ == shown_chars(g3, inner, disp@, offset as int, base, i as int),
        decreases k - i,
    {
        let s = char_text(disp[offset + i]);
        draw_text(buf, inner.x.saturating_add(i as u16), inner.y, s.as_str(), base);
        i += 1;
    }
}

fn draw_frame(buf: &mut Buffer, rect: Rect, field: &InputField)
    requires
        old(buf).wf(),
    ensures
        final(buf).wf(),
        final(buf)@ == input_frame(old(buf)@, rect, *field),
{
    let bordered = field.border_color.is_some();
    if field.has_shadow {
        shadow(buf, if bordered { rect } else { Rect::new(rect.x, rect.y, rect.w, 1) }, Theme::clipper());
    }
    match field.border_color {
        Some(b) => {
            draw_ring(buf, rect, Cell::new(' ', b, b));
        },
        None => {},
    }
}

fn draw_body(buf: &mut Buffer, inner: Rect, field: &InputField, focused: bool)
    requires
        old(buf).wf(),
        !inner.spec_is_empty(),
    ensures
        final(buf).wf(),
        final(buf)@ == input_body(old(buf)@, inner, *field, focused),
{
    let bg = if focused { field.active_background_color } else { field.background_color };
    buf.fill_rect(inner, Cell::new(' ', field.foreground_color, bg));
    let ds = field.display();
    let disp = chars_of(ds.as_str());
    let w = inner.w as usize;
    let offset: usize = if field.cursor >= w { field.cursor - w + 1 } else { 0 };
    let base = Attr::new(field.foreground_color, bg);
    let avail = if disp.len() > offset { disp.len() - offset } else { 0 };
    let k = if w < avail { w } else { avail };
    draw_shown(buf, inner, &disp, offset, base, k);
    if focused {
        let rel = field.cursor.saturating_sub(offset);
        let cx = inner.x.saturating_add(rel as u16);
        if cx < inner.right() {
            let ch = if field.cursor < disp.len() { disp[field.cursor] } else { ' ' };
            buf.set(cx, inner.y, Cell::with_attr(ch, Attr::new(bg, field.foreground_color)));
        }
    }
}

/// Draws the field in `rect` (one row, or three or more with a border).
/// `focused` gives the active background and the inverted cursor.
pub fn input_draw(buf: &mut Buffer, rect: Rect, field: &InputField, focused: bool)
    requires
        old(buf).wf(),
    ensures
        final(buf).wf(),
        final(buf)@ == input_grid(old(buf)@, rect, *field, focused),
{
    if rect.is_empty() || rect.h < 1 {
        return;
    }
    draw_frame(buf, rect, field);
    let inner = inner_of(rect, field.border_color.is_some());
    if inner.is_empty() {
        return;
    }
    draw_body(buf, inner, field, focused);
}

/// Result of a key on the field.
#[derive(Clone, Copy, Debug, PartialEq, Eq, Structural)]
pub enum InputKey {
    Stay,
    Moved,
    Changed,
}

/// What a key does to a value and its cursor (first clamped to the
/// value): arrows move one character, `Home`/`End` go to the ends,
/// `Backspace` removes the character before the cursor, `Delete` the one
/// under it, a character is inserted at the cursor while the value is
/// shorter than `max_len`.
pub open spec fn input_next(v: Seq<char>, cursor: int, max_len: int, key: AppKey) -> (Seq<char>, int, InputKey) {
    let n = v.len() as int;
    let c = min_int(cursor, n);
    match key {
        AppKey::Left => if c > 0 { (v, c - 1, InputKey::Moved) } else { (v, c, InputKey::Stay) },
        AppKey::Right => if c < n { (v, c + 1, InputKey::Moved) } else { (v, c, InputKey::Stay) },
        AppKey::Home => (v, 0, InputKey::Moved),
        AppKey::End => (v, n, InputKey::Moved),
        AppKey::Backspace => if c == 0 { (v, c, InputKey::Stay) } else { (v.remove(c - 1), c - 1, InputKey::Changed) },
        AppKey::Delete => if c >= n { (v, c, InputKey::Stay) } else { (v.remove(c), c, InputKey::Changed) },
        AppKey::Char(ch) => if n >= max_len { (v, c, InputKey::Stay) } else { (v.insert(c, ch), c + 1, InputKey::Changed) },
        _ => (v, c, InputKey::Stay),
    }
}

/// Pure editing: insert, delete, move. Keeps to `max_len` characters.
pub fn input_key(field: &mut InputField, code: AppKey) -> (r: InputKey)
    ensures
        (final(field).value@, final(field).cursor as int, r) == input_next(
            old(field).value@,
            old(field).cursor as int,
            old(field).max_len as int,
            code,
        ),
        final(field).max_len == old(field).max_len,
        final(field).mask == old(field).mask,
        final(field).foreground_color == old(field).foreground_color,
        final(field).background_color == old(field).background_color,
        final(field).active_background_color == old(field).active_background_color,
        final(field).border_color == old(field).border_color,
        final(field).has_shadow == old(field).has_shadow,
{
    let n = str_len(field.value.as_str());
    if field.cursor > n {
        field.cursor = n;
    }
    match code {
        AppKey::Left => {
            if field.cursor > 0 {
                field.cursor = field.cursor - 1;
                InputKey::Moved
            } else {
                InputKey::Stay
            }
        },
        AppKey::Right => {
            if field.cursor < n {
                field.cursor = field.cursor + 1;
                InputKey::Moved
            } else {
                InputKey::Stay
            }
        },
        AppKey::Home => {
            field.cursor = 0;
            InputKey::Moved
        },
        AppKey::End => {
            field.cursor = n;
            InputKey::Moved
        },
        AppKey::Backspace => {
            if field.cursor == 0 {
                return InputKey::Stay;
            }
            field.value = str_remove(field.value.as_str(), field.cursor - 1);
            field.cursor = field.cursor - 1;
            InputKey::Changed
        },
        AppKey::Delete => {
            if field.cursor >= n {
                return InputKey::Stay;
            }
            field.value = str_remove(field.value.as_str(), field.cursor);
            InputKey::Changed
        },
        AppKey::Char(c) => {
            if n >= field.max_len {
                return InputKey::Stay;
            }
            field.value = str_insert(field.value.as_str(), field.cursor, c);
            field.cursor = field.cursor + 1;
            InputKey::Changed
        },
        _ => InputKey::Stay,
    }
}

/// The edit keeps its bounds: from a cursor within the value, the cursor
/// stays within the value, and a value within `max_len` stays within it.
pub proof fn lemma_input_keeps_bounds(v: Seq<char>, cursor: int, max_len: int, key: AppKey)
    requires
        0 <= cursor,
    ensures
        ({
            let (v2, c2, _) = input_next(v, cursor, max_len, key);
            &&& 0 <= c2 <= v2.len()
            &&& v.len() <= max_len ==> v2.len() <= max_len
        }),
{
}

/// Typing a character and then `Backspace` gives the value and cursor
/// back, when the character fits.
pub proof fn lemma_type_then_backspace(v: Seq<char>, cursor: int, max_len: int, ch: char)
    requires
        0 <= cursor <= v.len(),
        v.len() < max_len,
    ensures
        ({
            let (v1, c1, r1) = input_next(v, cursor, max_len, AppKey::Char(ch));
            let (v2, c2, r2) = input_next(v1, c1, max_len, AppKey::Backspace);
            &&& r1 == InputKey::Changed
            &&& r2 == InputKey::Changed
            &&& v2 == v
            &&& c2 == cursor
        }),
{
    let (v1, c1, _) = input_next(v, cursor, max_len, AppKey::Char(ch));
    assert(v1.remove(c1 - 1) =~= v);
}

/// The arrows move the cursor one character: `Right` before the end gives
/// the next position and `Left` past the start the one before, with the
/// value unchanged, so that `Right` then `Left` (and `Left` then `Right`)
/// put the cursor back; `Home` and `End` go to the two ends.
pub proof fn lemma_input_arrows(v: Seq<char>, cursor: int, max_len: int)
    requires
        0 <= cursor <= v.len(),
    ensures
        cursor < v.len() ==> input_next(v, cursor, max_len, AppKey::Right) == (v, cursor + 1, InputKey::Moved),
        cursor > 0 ==> input_next(v, cursor, max_len, AppKey::Left) == (v, cursor - 1, InputKey::Moved),
        cursor < v.len() ==> ({
            let (v1, c1, _) = input_next(v, cursor, max_len, AppKey::Right);
            input_next(v1, c1, max_len, AppKey::Left) == (v, cursor, InputKey::Moved)
        }),
        cursor > 0 ==> ({
            let (v1, c1, _) = input_next(v, cursor, max_len, AppKey::Left);
            input_next(v1, c1, max_len, AppKey::Right) == (v, cursor, InputKey::Moved)
        }),
        input_next(v, cursor, max_len, AppKey::Home) == (v, 0int, InputKey::Moved),
        input_next(v, cursor, max_len, AppKey::End) == (v, v.len() as int, InputKey::Moved),
{
}

/// Editing at the cursor: a character that fits goes in at the cursor,
/// which moves past it; `Backspace` takes out the character before the
/// cursor and `Delete` the one under it, the rest of the value kept in
/// order; at the start `Backspace`, at the end `Delete`, and on a full
/// value a character, leave the field as it was.
pub proof fn lemma_input_edits(v: Seq<char>, cursor: int, max_len: int, ch: char)
    requires
        0 <= cursor <= v.len(),
    ensures
        v.len() < max_len ==> input_next(v, cursor, max_len, AppKey::Char(ch)) == (
            v.take(cursor) + seq![ch] + v.skip(cursor),
            cursor + 1,
            InputKey::Changed,
        ),
        v.len() >= max_len ==> input_next(v, cursor, max_len, AppKey::Char(ch)) == (v, cursor, InputKey::Stay),
        cursor > 0 ==> input_next(v, cursor, max_len, AppKey::Backspace) == (
            v.take(cursor - 1) + v.skip(cursor),
            cursor - 1,
            InputKey::Changed,
        ),
        cursor == 0 ==> input_next(v, cursor, max_len, AppKey::Backspace) == (v, cursor, InputKey::Stay),
        cursor < v.len() ==> input_next(v, cursor, max_len, AppKey::Delete) == (
            v.take(cursor) + v.skip(cursor + 1),
            cursor,
            InputKey::Changed,
        ),
        cursor == v.len() ==> input_next(v, cursor, max_len, AppKey::Delete) == (v, cursor, InputKey::Stay),
{
    assert(v.insert(cursor, ch) =~= v.take(cursor) + seq![ch] + v.skip(cursor));
    if cursor > 0 {
        assert(v.remove(cursor - 1) =~= v.take(cursor - 1) + v.skip(cursor));
    }
    if cursor < v.len() {
        assert(v.remove(cursor) =~= v.take(cursor) + v.skip(cursor + 1));
    }
}

} // verus!
