//! Text-mode shadows: translucent, stippled or solid.
//!
//! The trick of the era was not to paint an opaque black block but to
//! **darken what was already there** towards a dark neutral (never keeping
//! a tint). Painted first (below), with the body on top.

use vstd::prelude::*;

use crate::engine::buffer::{Buffer, Grid};
use crate::engine::cell::Cell;
use crate::engine::color::Color;
use crate::engine::rect::{Rect, sat_add};
use crate::engine::theme::Theme;

verus! {

/// Shadow style.
#[derive(Clone, Copy, Debug, PartialEq, Eq, Default, Structural)]
pub enum ShadowStyle {
    /// Grey ghost: keeps the glyph, darkens. Default of windows.
    #[default]
    Translucent,
    /// 50% checkerboard.
    Stipple,
    /// Opaque block (buttons).
    Solid,
}

/// Rec. 601 luminance of the VGA value of each colour, in thousandths
/// (`299 R + 587 G + 114 B`, channels 0-255).
pub open spec fn lum1000(c: Color) -> int {
    match c {
        Color::Black => 0,
        Color::Navy => 14592,
        Color::Blue => 29070,
        Color::Teal => 89728,
        Color::Cyan => 178755,
        Color::DarkGrey => 128000,
        Color::Grey => 192000,
        Color::White => 255000,
        Color::Yellow => 225930,
        Color::Mint => 198965,
        Color::Red => 76245,
        Color::Green => 75136,
    }
}

/// Darkening by a luminance scale `num/den` (never keeps a tint): the
/// scaled luminance quantised to `>= 110 -> Grey`, `>= 25 -> DarkGrey`,
/// else `Black`; black stays black.
pub open spec fn darken_spec(c: Color, num: int, den: int) -> Color {
    if c == Color::Black {
        Color::Black
    } else if lum1000(c) * num >= 110000 * den {
        Color::Grey
    } else if lum1000(c) * num >= 25000 * den {
        Color::DarkGrey
    } else {
        Color::Black
    }
}

fn lum_of(c: Color) -> (r: u32)
    ensures
        r == lum1000(c),
{
    match c {
        Color::Black => 0,
        Color::Navy => 14592,
        Color::Blue => 29070,
        Color::Teal => 89728,
        Color::Cyan => 178755,
        Color::DarkGrey => 128000,
        Color::Grey => 192000,
        Color::White => 255000,
        Color::Yellow => 225930,
        Color::Mint => 198965,
        Color::Red => 76245,
        Color::Green => 75136,
    }
}

/// Darkens `c` by the factor `num/den` (a factor in `[0, 1]`).
pub fn darken_by(c: Color, num: u32, den: u32) -> (r: Color)
    requires
        0 < den,
        num <= den,
        den <= 1000,
    ensures
        r == darken_spec(c, num as int, den as int),
        r != Color::Navy && r != Color::Blue && r != Color::Teal && r != Color::Cyan,
{
    if c == Color::Black {
        return Color::Black;
    }
    let l = lum_of(c) as u64;
    if l * num as u64 >= 110000 * den as u64 {
        Color::Grey
    } else if l * num as u64 >= 25000 * den as u64 {
        Color::DarkGrey
    } else {
        Color::Black
    }
}

/// What a shadow of `style` makes of cell `c` at `(x, y)`.
pub open spec fn shaded(style: ShadowStyle, theme: Theme, c: Cell, x: int, y: int) -> Cell {
    match style {
        ShadowStyle::Solid => Cell::spec_new(' ', theme.shadow, theme.shadow),
        ShadowStyle::Translucent => Cell {
            ch: c.ch,
            fg: darken_spec(c.fg, 1, 2),
            bg: darken_spec(c.bg, 2, 5),
            bold: false,
            dim: true,
        },
        ShadowStyle::Stipple => if (x + y) % 2 == 0 {
            Cell { ch: c.ch, fg: c.fg, bg: theme.shadow, bold: false, dim: true }
        } else {
            c
        },
    }
}

/// The shadow of `rect` cast at offset `(dx, dy)`: every cell it covers
/// (inside the grid) is transformed by `shaded`.
pub open spec fn shadow_grid(g: Grid, rect: Rect, dx: int, dy: int, style: ShadowStyle, theme: Theme) -> Grid {
    if rect.spec_is_empty() {
        g
    } else {
        let r = Rect { x: sat_add(rect.x as int, dx) as u16, y: sat_add(rect.y as int, dy) as u16, w: rect.w, h: rect.h };
        Grid {
            w: g.w,
            h: g.h,
            at: |px: int, py: int|
                if r.spec_contains(px, py) && g.in_bounds(px, py) {
                    shaded(style, theme, (g.at)(px, py), px, py)
                } else {
                    (g.at)(px, py)
                },
        }
    }
}

/// Classic shadow at offset (2, 1), translucent.
pub fn shadow(buf: &mut Buffer, rect: Rect, theme: Theme)
    requires
        old(buf).wf(),
    ensures
        final(buf).wf(),
        final(buf)@ == shadow_grid(old(buf)@, rect, 2, 1, ShadowStyle::Translucent, theme),
{
    shadow_styled(buf, rect, 2, 1, ShadowStyle::Translucent, theme);
}

/// Solid shadow (buttons).
pub fn shadow_solid(buf: &mut Buffer, rect: Rect, theme: Theme)
    requires
        old(buf).wf(),
    ensures
        final(buf).wf(),
        final(buf)@ == shadow_grid(old(buf)@, rect, 2, 1, ShadowStyle::Solid, theme),
{
    shadow_styled(buf, rect, 2, 1, ShadowStyle::Solid, theme);
}

/// Turbo-style stippled shadow.
pub fn shadow_stipple(buf: &mut Buffer, rect: Rect, theme: Theme)
    requires
        old(buf).wf(),
    ensures
        final(buf).wf(),
        final(buf)@ == shadow_grid(old(buf)@, rect, 2, 1, ShadowStyle::Stipple, theme),
{
    shadow_styled(buf, rect, 2, 1, ShadowStyle::Stipple, theme);
}

/// Translucent shadow at any offset.
pub fn shadow_offset(buf: &mut Buffer, rect: Rect, dx: u16, dy: u16, theme: Theme)
    requires
        old(buf).wf(),
    ensures
        final(buf).wf(),
        final(buf)@ == shadow_grid(old(buf)@, rect, dx as int, dy as int, ShadowStyle::Translucent, theme),
{
    shadow_styled(buf, rect, dx, dy, ShadowStyle::Translucent, theme);
}

/// Shadow with any offset and style.
pub fn shadow_styled(buf: &mut Buffer, rect: Rect, dx: u16, dy: u16, style: ShadowStyle, theme: Theme)
    requires
        old(buf).wf(),
    ensures
        final(buf).wf(),
        final(buf)@ == shadow_grid(old(buf)@, rect, dx as int, dy as int, style, theme),
{
    if rect.is_empty() {
        return;
    }
    let moved = Rect::new(rect.x.saturating_add(dx), rect.y.saturating_add(dy), rect.w, rect.h);
    let bounds = buf.bounds();
    let ghost g0 = buf@;
    proof {
        buf.lemma_size();
        assert forall|px: int, py: int| #[trigger] bounds.spec_contains(px, py) <==> g0.in_bounds(px, py) by {}
    }
    let r = match moved.intersect(bounds) {
        Some(r) => r,
        None => {
            proof {
                assert forall|px: int, py: int| #![trigger (buf@.at)(px, py)]
                    !(moved.spec_contains(px, py) && g0.in_bounds(px, py)) by {
                    crate::engine::rect::lemma_intersect_contains(moved, bounds, px, py);
                }
            }
            assert(buf@ =~= shadow_grid(g0, rect, dx as int, dy as int, style, theme));
            return;
        }
    };
    proof {
        assert forall|px: int, py: int| #![trigger r.spec_contains(px, py)]
            r.spec_contains(px, py) <==> (moved.spec_contains(px, py) && g0.in_bounds(px, py)) by {
            crate::engine::rect::lemma_intersect_contains(moved, bounds, px, py);
        }
    }
    let mut y = r.y;
    while y < r.bottom()
        invariant
            buf.wf(),
            buf@.w == g0.w,
            buf@.h == g0.h,
            forall|px: int, py: int| #[trigger] r.spec_contains(px, py) ==> g0.in_bounds(px, py),
            r.y <= y <= r.spec_bottom(),
            forall|px: int, py: int| #![trigger (buf@.at)(px, py)]
                (buf@.at)(px, py) == if r.spec_contains(px, py) && py < y {
                    shaded(style, theme, (g0.at)(px, py), px, py)
                } else {
                    (g0.at)(px, py)
                },
        decreases r.spec_bottom() - y,
    {
        let mut x = r.x;
        while x < r.right()
            invariant
                buf.wf(),
                buf@.w == g0.w,
                buf@.h == g0.h,
                forall|px: int, py: int| #[trigger] r.spec_contains(px, py) ==> g0.in_bounds(px, py),
                r.y <= y < r.spec_bottom(),
                r.x <= x <= r.spec_right(),
                forall|px: int, py: int| #![trigger (buf@.at)(px, py)]
                    (buf@.at)(px, py) == if r.spec_contains(px, py) && (py < y || (py == y && px < x)) {
                        shaded(style, theme, (g0.at)(px, py), px, py)
                    } else {
                        (g0.at)(px, py)
                    },
            decreases r.spec_right() - x,
        {
            let old_cell = match buf.get(x, y) {
                Some(c) => c,
                None => Cell::blank(theme.shadow),
            };
            match style {
                ShadowStyle::Solid => {
                    buf.set(x, y, Cell::new(' ', theme.shadow, theme.shadow));
                },
                ShadowStyle::Translucent => {
                    let c = Cell {
                        ch: old_cell.ch,
                        fg: darken_by(old_cell.fg, 1, 2),
                        bg: darken_by(old_cell.bg, 2, 5),
                        bold: false,
                        dim: true,
                    };
                    buf.set(x, y, c);
                },
                ShadowStyle::Stipple => {
                    if (x as u32 + y as u32) % 2 == 0 {
                        let c = Cell { ch: old_cell.ch, fg: old_cell.fg, bg: theme.shadow, bold: false, dim: true };
                        buf.set(x, y, c);
                    }
                },
            }
            x += 1;
        }
        y += 1;
    }
    assert(buf@ =~= shadow_grid(g0, rect, dx as int, dy as int, style, theme));
}

/// A neutral colour: black or one of the two greys.
pub open spec fn neutral(c: Color) -> bool {
    c == Color::Black || c == Color::DarkGrey || c == Color::Grey
}

/// Cell by cell, a shadow of `rect` at `(dx, dy)` leaves every cell outside
/// the moved rectangle (and everything, for an empty `rect`) as it was; a
/// covered cell becomes a solid block of the theme's shadow colour
/// (`Solid`), or keeps its glyph dimmed with a neutral foreground and
/// background (`Translucent`: no tint survives), or on every other cell in
/// a checkerboard keeps glyph and foreground on the shadow colour, dimmed
/// (`Stipple`).
pub proof fn lemma_shadow_cells(g: Grid, rect: Rect, dx: int, dy: int, style: ShadowStyle, theme: Theme, px: int, py: int)
    ensures
        ({
            let r = Rect { x: sat_add(rect.x as int, dx) as u16, y: sat_add(rect.y as int, dy) as u16, w: rect.w, h: rect.h };
            let old_c = (g.at)(px, py);
            let c = (shadow_grid(g, rect, dx, dy, style, theme).at)(px, py);
            &&& shadow_grid(g, rect, dx, dy, style, theme).w == g.w
            &&& shadow_grid(g, rect, dx, dy, style, theme).h == g.h
            &&& (rect.spec_is_empty() || !r.spec_contains(px, py) || !g.in_bounds(px, py)) ==> c == old_c
            &&& (!rect.spec_is_empty() && r.spec_contains(px, py) && g.in_bounds(px, py)) ==> match style {
                ShadowStyle::Solid => c == Cell::spec_new(' ', theme.shadow, theme.shadow),
                ShadowStyle::Translucent => c.ch == old_c.ch && neutral(c.fg) && neutral(c.bg) && c.dim && !c.bold,
                ShadowStyle::Stipple => if (px + py) % 2 == 0 {
                    c.ch == old_c.ch && c.fg == old_c.fg && c.bg == theme.shadow && c.dim && !c.bold
                } else {
                    c == old_c
                },
            }
        }),
{
}

} // verus!
