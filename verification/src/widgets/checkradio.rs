//! Check boxes and radios in one glyph: `☐/☑`, `○/◉`.
//!
//! By default (modern) whole Unicode glyphs without frames are used:
//! check box `\u{2610}`/`\u{2611}`, radio `\u{25cb}`/`\u{25c9}`. They need
//! a font with those glyphs. `GlyphSet::ascii()` is the fallback
//! `[X]`/`[ ]`, `(*)`/`( )` for terminals without Unicode. `&` marks the
//! hotkey as always.

use vstd::prelude::*;

use crate::app::events::AppKey;
use crate::engine::buffer::{Buffer, Grid, lemma_paint_end_ge, paint_end, paint_run, paint_seq};
use crate::engine::cell::Cell;
use crate::engine::color::{Attr, Color};
use crate::engine::rect::{min_int, sat_add, sat_sub};
use crate::prim::label::{HotAttrs, draw_hot_label, draw_text, hot_cells, hot_clean, hot_key_of, hot_of, visible_len};
use crate::text::{ascii_lower, seq_width, string_from_chars, to_ascii_lower};

verus! {

/// A check box with its label (`&` marks the hotkey).
#[derive(Clone, Debug)]
pub struct CheckItem {
    pub label: String,
    pub checked: bool,
}

/// Glyph set: whole Unicode glyphs, or ASCII with frames. Modern
/// (default): `\u{2610}`/`\u{2611}` and `\u{25cb}`/`\u{25c9}`. ASCII:
/// `[X]`/`[ ]`, `(*)`/`( )`.
#[derive(Clone, Copy, Debug, PartialEq, Eq, Structural)]
pub struct GlyphSet {
    pub check_on: char,
    pub check_off: char,
    pub radio_on: char,
    pub radio_off: char,
    /// `true` wraps the glyph in `[ ]` / `( )`; `false` is the glyph and a
    /// space.
    pub framed: bool,
}

pub open spec fn modern_glyphs() -> GlyphSet {
    GlyphSet { check_on: '\u{2611}', check_off: '\u{2610}', radio_on: '\u{25c9}', radio_off: '\u{25cb}', framed: false }
}

pub open spec fn ascii_glyphs() -> GlyphSet {
    GlyphSet { check_on: 'X', check_off: ' ', radio_on: '*', radio_off: ' ', framed: true }
}

impl GlyphSet {
    /// Whole glyphs: `\u{2611}` / `\u{2610}`, `\u{25c9}` / `\u{25cb}`.
    pub fn modern() -> (r: Self)
        ensures
            r == modern_glyphs(),
    {
        GlyphSet { check_on: '\u{2611}', check_off: '\u{2610}', radio_on: '\u{25c9}', radio_off: '\u{25cb}', framed: false }
    }

    /// ASCII only: `[X]`/`[ ]`, `(*)`/`( )`.
    pub fn ascii() -> (r: Self)
        ensures
            r == ascii_glyphs(),
    {
        GlyphSet { check_on: 'X', check_off: ' ', radio_on: '*', radio_off: ' ', framed: true }
    }
}

impl Default for GlyphSet {
    fn default() -> (r: Self)
        ensures
            r == modern_glyphs(),
    {
        GlyphSet::modern()
    }
}

/// Full style of boxes and radios: colours, glyphs and the common
/// parameters. `border_color` tints the ASCII frames (`[ ]`/`( )`); whole
/// glyphs have no frame to paint. `has_shadow` casts a blended one-cell
/// shadow (right and below) behind the row.
#[derive(Clone, Copy, Debug)]
pub struct CheckStyle {
    pub attrs: HotAttrs,
    pub glyphs: GlyphSet,
    pub border_color: Option<Color>,
    pub has_shadow: bool,
}

impl CheckStyle {
    pub fn new(attrs: HotAttrs, glyphs: GlyphSet) -> (r: Self)
        ensures
            r.attrs == attrs,
            r.glyphs == glyphs,
            r.border_color is None,
            !r.has_shadow,
    {
        CheckStyle { attrs, glyphs, border_color: None, has_shadow: false }
    }

    /// A style from the four common parameters.
    pub fn styled(attrs: HotAttrs, glyphs: GlyphSet, border_color: Option<Color>, has_shadow: bool) -> (r: Self)
        ensures
            r.attrs == attrs,
            r.glyphs == glyphs,
            r.border_color == border_color,
            r.has_shadow == has_shadow,
    {
        CheckStyle { attrs, glyphs, border_color, has_shadow }
    }
}

impl CheckItem {
    pub fn new(label: &str, checked: bool) -> (r: Self)
        ensures
            r.label@ == label@,
            r.checked == checked,
    {
        CheckItem { label: label.to_owned(), checked }
    }
}

/// The glyph text: `[c] ` / `(c) ` when framed, `c ` otherwise.
pub open spec fn glyph_text(c: char, framed: bool, square: bool) -> Seq<char> {
    if framed {
        if square {
            seq!['[', c, ']', ' ']
        } else {
            seq!['(', c, ')', ' ']
        }
    } else {
        seq![c, ' ']
    }
}

/// One character painted at column `x`.
pub open spec fn one(g: Grid, x: int, y: int, c: char, a: Attr) -> Grid {
    paint_run(g, x, y, paint_seq(seq![c], a), false)
}

/// The glyph drawn at `(x, y)` and its width: with a frame tint, the four
/// characters one per column, the frame in the tint; otherwise the text
/// painted in `attr`.
pub open spec fn glyph_draw(g: Grid, x: int, y: int, glyph: Seq<char>, attr: Attr, framed: bool, border: Option<Color>) -> (Grid, int) {
    match border {
        Some(b) if framed => {
            let battr = Attr { fg: b, ..attr };
            let g1 = one(g, x, y, glyph[0], battr);
            let g2 = one(g1, sat_add(x, 1), y, glyph[1], attr);
            let g3 = one(g2, sat_add(x, 2), y, glyph[2], battr);
            let g4 = one(g3, sat_add(x, 3), y, ' ', attr);
            (g4, sat_sub(sat_add(x, 4), x))
        },
        _ => (paint_run(g, x, y, paint_seq(glyph, attr), false), paint_end(g.w, x, paint_seq(glyph, attr), false) - x),
    }
}

/// Blends one cell into the shadow: black background, dimmed, the
/// character and ink kept (outside the grid: nothing).
pub open spec fn blend(g: Grid, x: int, y: int) -> Grid {
    if g.in_bounds(x, y) {
        let old = (g.at)(x, y);
        g.set(x, y, Cell { ch: old.ch, fg: old.fg, bg: Color::Black, bold: false, dim: true })
    } else {
        g
    }
}

/// The first `k` cells of the row below, from `x + 1`, blended.
pub open spec fn blend_below(g: Grid, x: int, y: int, k: int) -> Grid
    decreases k,
{
    if k <= 0 {
        g
    } else {
        blend(blend_below(g, x, y, k - 1), sat_add(sat_add(x, k - 1), 1), sat_add(y, 1))
    }
}

/// The shadow of a row of controls: the cell after it, the row below
/// shifted one right, and the corner.
pub open spec fn row_shadow_grid(g: Grid, x: int, y: int, w: int) -> Grid {
    let g1 = blend(g, sat_add(x, w), y);
    let g2 = blend_below(g1, x, y, w);
    blend(g2, sat_add(x, w), sat_add(y, 1))
}

/// A control drawn: glyph, label (bold when `bold`), optional shadow;
/// gives the grid and the width taken.
pub open spec fn control_grid(g: Grid, x: int, y: int, glyph: Seq<char>, label: Seq<char>, bold: bool, style: CheckStyle) -> (Grid, int) {
    let (g1, gw) = glyph_draw(g, x, y, glyph, style.attrs.base, style.glyphs.framed, style.border_color);
    let la = Attr { bold, ..style.attrs.base };
    let ha = Attr { bold, ..style.attrs.hot };
    let cells = hot_cells(label, la, ha);
    let g2 = paint_run(g1, x + gw, y, cells, false);
    let total = paint_end(g1.w, x + gw, cells, false) - x;
    (if style.has_shadow { row_shadow_grid(g2, x, y, total) } else { g2 }, total)
}

pub(crate) fn blend_at(buf: &mut Buffer, x: u16, y: u16)
    requires
        old(buf).wf(),
    ensures
        final(buf).wf(),
        final(buf)@ == blend(old(buf)@, x as int, y as int),
{
    if !buf.in_bounds(x, y) {
        return;
    }
    let old = match buf.get(x, y) {
        Some(c) => c,
        None => Cell::blank(Color::Black),
    };
    buf.set(x, y, Cell { ch: old.ch, fg: old.fg, bg: Color::Black, bold: false, dim: true });
}

fn row_shadow(buf: &mut Buffer, x: u16, y: u16, w: u16)
    requires
        old(buf).wf(),
    ensures
        final(buf).wf(),
        final(buf)@ == row_shadow_grid(old(buf)@, x as int, y as int, w as int),
{
    blend_at(buf, x.saturating_add(w), y);
    let ghost g1 = buf@;
    let mut i: u16 = 0;
    while i < w
        invariant
            buf.wf(),
            i <= w,
            buf@ == blend_below(g1, x as int, y as int, i as int),
        decreases w - i,
    {
        blend_at(buf, x.saturating_add(i).saturating_add(1), y.saturating_add(1));
        i += 1;
    }
    blend_at(buf, x.saturating_add(w), y.saturating_add(1));
}

fn char_text(c: char) -> (r: String)
    ensures
        r@ == seq![c],
{
    let mut v: Vec<char> = Vec::new();
    v.push(c);
    string_from_chars(&v)
}

fn glyph_string(c: char, framed: bool, square: bool) -> (r: String)
    ensures
        r@ == glyph_text(c, framed, square),
{
    let mut v: Vec<char> = Vec::new();
    if framed {
        v.push(if square { '[' } else { '(' });
        v.push(c);
        v.push(if square { ']' } else { ')' });
        v.push(' ');
    } else {
        v.push(c);
        v.push(' ');
    }
    assert(v@ =~= glyph_text(c, framed, square));
    string_from_chars(&v)
}

fn draw_glyph(buf: &mut Buffer, x: u16, y: u16, c: char, square: bool, attr: Attr, framed: bool, border: Option<Color>) -> (r: u16)
    requires
        old(buf).wf(),
    ensures
        final(buf).wf(),
        (final(buf)@, r as int) == glyph_draw(old(buf)@, x as int, y as int, glyph_text(c, framed, square), attr, framed, border),
        x + r <= u16::MAX,
{
    let glyph = glyph_string(c, framed, square);
    match border {
        Some(b) => {
            if framed {
                let battr = Attr { fg: b, ..attr };
                let open = char_text(if square { '[' } else { '(' });
                let mid = char_text(c);
                let close = char_text(if square { ']' } else { ')' });
                let sp = char_text(' ');
                draw_text(buf, x, y, open.as_str(), battr);
                draw_text(buf, x.saturating_add(1), y, mid.as_str(), attr);
                draw_text(buf, x.saturating_add(2), y, close.as_str(), battr);
                draw_text(buf, x.saturating_add(3), y, sp.as_str(), attr);
                return x.saturating_add(4).saturating_sub(x);
            }
        },
        None => {},
    }
    proof {
        lemma_paint_end_ge(buf@.w, x as int, paint_seq(glyph@, attr), false);
    }
    draw_text(buf, x, y, glyph.as_str(), attr)
}

fn draw_control(buf: &mut Buffer, x: u16, y: u16, c: char, square: bool, label: &str, bold: bool, style: CheckStyle) -> (r: u16)
    requires
        old(buf).wf(),
    ensures
        final(buf).wf(),
        (final(buf)@, r as int) == control_grid(
            old(buf)@,
            x as int,
            y as int,
            glyph_text(c, style.glyphs.framed, square),
            label@,
            bold,
            style,
        ),
{
    let gw = draw_glyph(buf, x, y, c, square, style.attrs.base, style.glyphs.framed, style.border_color);
    let la = Attr { bold, ..style.attrs.base };
    let ha = Attr { bold, ..style.attrs.hot };
    proof {
        lemma_paint_end_ge(buf@.w, x + gw, hot_cells(label@, la, ha), false);
    }
    let lw = draw_hot_label(buf, x + gw, y, label, la, ha);
    let total = gw + lw;
    if style.has_shadow {
        row_shadow(buf, x, y, total);
    }
    total
}

/// Draws `☐ label` / `☑ label` (or `[X]` in ASCII, as `style` says).
/// `focused` puts the label in bold. Returns the width taken.
pub fn checkbox_draw(buf: &mut Buffer, x: u16, y: u16, item: &CheckItem, focused: bool, style: CheckStyle) -> (r: u16)
    requires
        old(buf).wf(),
    ensures
        final(buf).wf(),
        (final(buf)@, r as int) == control_grid(
            old(buf)@,
            x as int,
            y as int,
            glyph_text(
                if item.checked { style.glyphs.check_on } else { style.glyphs.check_off },
                style.glyphs.framed,
                true,
            ),
            item.label@,
            focused,
            style,
        ),
{
    let g = if item.checked { style.glyphs.check_on } else { style.glyphs.check_off };
    draw_control(buf, x, y, g, true, item.label.as_str(), focused, style)
}

/// Draws `◉ label` when `selected` (filled circle), `○` otherwise; in
/// ASCII `(*)` / `( )`. A selected or focused label is bold.
pub fn radio_draw(buf: &mut Buffer, x: u16, y: u16, label: &str, selected: bool, focused: bool, style: CheckStyle) -> (r: u16)
    requires
        old(buf).wf(),
    ensures
        final(buf).wf(),
        (final(buf)@, r as int) == control_grid(
            old(buf)@,
            x as int,
            y as int,
            glyph_text(if selected { style.glyphs.radio_on } else { style.glyphs.radio_off }, style.glyphs.framed, false),
            label@,
            focused || selected,
            style,
        ),
{
    let g = if selected { style.glyphs.radio_on } else { style.glyphs.radio_off };
    draw_control(buf, x, y, g, false, label, focused || selected, style)
}

/// Result of a key in a group of check boxes.
#[derive(Clone, Copy, Debug, PartialEq, Eq, Structural)]
pub enum CheckNav {
    Stay,
    Move(usize),
    Toggled(usize),
}

/// First item from `i` on whose hotkey is `lc` (ASCII case ignored).
pub open spec fn hot_item(items: Seq<CheckItem>, lc: char, i: int) -> Option<int>
    decreases items.len() - i,
{
    if i >= items.len() || i < 0 {
        None
    } else if (match hot_of(items[i].label@) {
        Some((_, h)) => ascii_lower(h) == lc,
        None => false,
    }) {
        Some(i)
    } else {
        hot_item(items, lc, i + 1)
    }
}

/// What a key does in a group (focus clamped to the group): arrows and
/// `Tab` move round, `Home`/`End` go to the ends, space and `Enter`
/// toggle the focused box, a letter toggles the box with that hotkey. An
/// empty group ignores every key.
pub open spec fn check_next(items: Seq<CheckItem>, focus: int, key: AppKey) -> CheckNav {
    let n = items.len() as int;
    if n == 0 {
        CheckNav::Stay
    } else {
        let f = min_int(focus, n - 1);
        match key {
            AppKey::Up | AppKey::Left => CheckNav::Move(((f + n - 1) % n) as usize),
            AppKey::Down | AppKey::Right | AppKey::Tab => CheckNav::Move(((f + 1) % n) as usize),
            AppKey::Home => CheckNav::Move(0),
            AppKey::End => CheckNav::Move((n - 1) as usize),
            AppKey::Enter => CheckNav::Toggled(f as usize),
            AppKey::Char(c) => if c == ' ' {
                CheckNav::Toggled(f as usize)
            } else {
                match hot_item(items, ascii_lower(c), 0) {
                    Some(i) => CheckNav::Toggled(i as usize),
                    None => CheckNav::Stay,
                }
            },
            _ => CheckNav::Stay,
        }
    }
}

/// ↑↓ move the focus, space/`Enter` toggle, a letter is a direct hotkey.
pub fn check_key(items: &[CheckItem], focus: usize, code: AppKey) -> (r: CheckNav)
    ensures
        r == check_next(items@, focus as int, code),
{
    let n = items.len();
    if n == 0 {
        return CheckNav::Stay;
    }
    let f = if focus < n - 1 { focus } else { n - 1 };
    match code {
        AppKey::Up | AppKey::Left => {
            proof {
                crate::widgets::common::lemma_mod_wrap(f + n - 1, n as int);
            }
            CheckNav::Move(if f == 0 { n - 1 } else { f - 1 })
        },
        AppKey::Down | AppKey::Right | AppKey::Tab => {
            proof {
                crate::widgets::common::lemma_mod_wrap(f + 1, n as int);
            }
            CheckNav::Move(if f + 1 == n { 0 } else { f + 1 })
        },
        AppKey::Home => CheckNav::Move(0),
        AppKey::End => CheckNav::Move(n - 1),
        AppKey::Enter => CheckNav::Toggled(f),
        AppKey::Char(c) => {
            if c == ' ' {
                return CheckNav::Toggled(f);
            }
            let lc = to_ascii_lower(c);
            let mut i: usize = 0;
            while i < n
                invariant
                    n == items@.len(),
                    n > 0,
                    i <= n,
                    code == AppKey::Char(c),
                    c != ' ',
                    lc == ascii_lower(c),
                    hot_item(items@, lc, 0) == hot_item(items@, lc, i as int),
                decreases n - i,
            {
                match hot_key_of(items[i].label.as_str()) {
                    Some(h) => {
                        if to_ascii_lower(h) == lc {
                            return CheckNav::Toggled(i);
                        }
                    },
                    None => {},
                }
                i += 1;
            }
            CheckNav::Stay
        },
        _ => CheckNav::Stay,
    }
}

/// Result of a key in a group of radios.
#[derive(Clone, Copy, Debug, PartialEq, Eq, Structural)]
pub enum RadioNav {
    Stay,
    Select(usize),
}

/// What a key does in a group of `n` radios: the arrows select directly
/// (the classic radio), round the group; `Home`/`End` the ends; `Enter`
/// and space confirm the current one (clamped); letters do nothing here.
pub open spec fn radio_next(n: int, selected: int, key: AppKey) -> RadioNav {
    if n == 0 {
        RadioNav::Stay
    } else {
        let s = min_int(selected, n - 1);
        match key {
            AppKey::Up | AppKey::Left => RadioNav::Select(((s + n - 1) % n) as usize),
            AppKey::Down | AppKey::Right | AppKey::Tab => RadioNav::Select(((s + 1) % n) as usize),
            AppKey::Home => RadioNav::Select(0),
            AppKey::End => RadioNav::Select((n - 1) as usize),
            AppKey::Enter => RadioNav::Select(s as usize),
            AppKey::Char(c) => if c == ' ' { RadioNav::Select(s as usize) } else { RadioNav::Stay },
            _ => RadioNav::Stay,
        }
    }
}

/// The arrows select directly (classic radio behaviour).
pub fn radio_key(n: usize, selected: usize, code: AppKey) -> (r: RadioNav)
    ensures
        r == radio_next(n as int, selected as int, code),
{
    if n == 0 {
        return RadioNav::Stay;
    }
    let s = if selected < n - 1 { selected } else { n - 1 };
    match code {
        AppKey::Up | AppKey::Left => {
            proof {
                crate::widgets::common::lemma_mod_wrap(s + n - 1, n as int);
            }
            RadioNav::Select(if s == 0 { n - 1 } else { s - 1 })
        },
        AppKey::Down | AppKey::Right | AppKey::Tab => {
            proof {
                crate::widgets::common::lemma_mod_wrap(s + 1, n as int);
            }
            RadioNav::Select(if s + 1 == n { 0 } else { s + 1 })
        },
        AppKey::Home => RadioNav::Select(0),
        AppKey::End => RadioNav::Select(n - 1),
        AppKey::Enter => RadioNav::Select(s),
        AppKey::Char(c) => if c == ' ' { RadioNav::Select(s) } else { RadioNav::Stay },
        _ => RadioNav::Stay,
    }
}

/// Visible width of a framed check row (an upper bound, for layout).
pub fn check_width(item: &CheckItem) -> (r: u16)
    requires
        seq_width(hot_clean(item.label@)) + 4 <= u16::MAX,
    ensures
        r == 4 + seq_width(hot_clean(item.label@)),
{
    4 + visible_len(item.label.as_str())
}

/// Width for a glyph set: two plus the label with whole glyphs, four
/// plus the label in ASCII.
pub fn check_width_styled(item: &CheckItem, glyphs: GlyphSet) -> (r: u16)
    requires
        seq_width(hot_clean(item.label@)) + 4 <= u16::MAX,
    ensures
        r == (if glyphs.framed { 4int } else { 2int }) + seq_width(hot_clean(item.label@)),
{
    let prefix: u16 = if glyphs.framed { 4 } else { 2 };
    prefix + visible_len(item.label.as_str())
}

/// In a group of boxes, `Down`/`Right`/`Tab` move the focus to the next
/// box and `Up`/`Left` to the one before, round the group; `Home` and `End`
/// go to the first and the last; `Enter` and space toggle the focused box
/// (the last one when the focus is past the group).
pub proof fn lemma_check_keys(items: Seq<CheckItem>, focus: int)
    requires
        items.len() > 0,
        0 <= focus <= usize::MAX,
    ensures
        ({
            let n = items.len() as int;
            let f = if focus < n { focus } else { n - 1 };
            &&& check_next(items, focus, AppKey::Down) == CheckNav::Move((if f + 1 < n { f + 1 } else { 0 }) as usize)
            &&& check_next(items, focus, AppKey::Right) == check_next(items, focus, AppKey::Down)
            &&& check_next(items, focus, AppKey::Tab) == check_next(items, focus, AppKey::Down)
            &&& check_next(items, focus, AppKey::Up) == CheckNav::Move((if f > 0 { f - 1 } else { n - 1 }) as usize)
            &&& check_next(items, focus, AppKey::Left) == check_next(items, focus, AppKey::Up)
            &&& check_next(items, focus, AppKey::Home) == CheckNav::Move(0)
            &&& check_next(items, focus, AppKey::End) == CheckNav::Move((n - 1) as usize)
            &&& check_next(items, focus, AppKey::Enter) == CheckNav::Toggled(f as usize)
            &&& check_next(items, focus, AppKey::Char(' ')) == CheckNav::Toggled(f as usize)
        }),
{
    let n = items.len() as int;
    let f = if focus < n { focus } else { n - 1 };
    crate::widgets::common::lemma_mod_wrap(f + 1, n);
    crate::widgets::common::lemma_mod_wrap(f + n - 1, n);
}

/// In a group of radios, the arrows select the next and the previous radio
/// round the group, one undoing the other; `Home` and `End` select the
/// first and the last; `Enter` and space confirm the current one (the last
/// when the selection is past the group).
pub proof fn lemma_radio_keys(n: int, selected: int)
    requires
        0 < n <= usize::MAX,
        0 <= selected <= usize::MAX,
    ensures
        ({
            let s = if selected < n { selected } else { n - 1 };
            let nx = if s + 1 < n { s + 1 } else { 0 };
            let pv = if s > 0 { s - 1 } else { n - 1 };
            &&& radio_next(n, selected, AppKey::Down) == RadioNav::Select(nx as usize)
            &&& radio_next(n, selected, AppKey::Right) == RadioNav::Select(nx as usize)
            &&& radio_next(n, selected, AppKey::Tab) == RadioNav::Select(nx as usize)
            &&& radio_next(n, selected, AppKey::Up) == RadioNav::Select(pv as usize)
            &&& radio_next(n, selected, AppKey::Left) == RadioNav::Select(pv as usize)
            &&& radio_next(n, nx, AppKey::Up) == RadioNav::Select(s as usize)
            &&& radio_next(n, pv, AppKey::Down) == RadioNav::Select(s as usize)
            &&& radio_next(n, selected, AppKey::Home) == RadioNav::Select(0)
            &&& radio_next(n, selected, AppKey::End) == RadioNav::Select((n - 1) as usize)
            &&& radio_next(n, selected, AppKey::Enter) == RadioNav::Select(s as usize)
            &&& radio_next(n, selected, AppKey::Char(' ')) == RadioNav::Select(s as usize)
        }),
{
    let s = if selected < n { selected } else { n - 1 };
    let nx = if s + 1 < n { s + 1 } else { 0 };
    let pv = if s > 0 { s - 1 } else { n - 1 };
    crate::widgets::common::lemma_mod_wrap(s + 1, n);
    crate::widgets::common::lemma_mod_wrap(s + n - 1, n);
    crate::widgets::common::lemma_mod_wrap(nx + n - 1, n);
    crate::widgets::common::lemma_mod_wrap(pv + 1, n);
}

} // verus!
