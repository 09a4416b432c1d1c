//! Teal buttons with a bottom-only shadow and a built-in pressed state.
//!
//! Solid block (one cell of air on each side) plus a one-row shadow
//! **below** (shifted one to the right). Pressed, the button moves down one
//! and right one, covering its own shadow: the classic sink.

use vstd::prelude::*;

use crate::engine::buffer::{Buffer, Grid, paint_seq};
use crate::engine::cell::Cell;
use crate::engine::rect::{Rect, sat_add, sat_sub};
use crate::engine::theme::Theme;
use crate::text::seq_width;

use super::label::{hot_clean, visible_len};

verus! {

/// Width of a button: the visible label plus two cells of air.
pub open spec fn button_w(label: Seq<char>) -> int {
    sat_add(seq_width(hot_clean(label)), 2)
}

/// The grid after drawing a button at `(x, y)`: a block ` label ` in the
/// button colours (one column per character of `label`, cut before the
/// closing air cell) and, at rest, a shadow row of half-cell blocks (`▀`
/// in the shadow colour) one below and one to the right; pressed, the block moves one down and one right and casts none.
pub open spec fn button_grid(g: Grid, x: int, y: int, label: Seq<char>, theme: Theme, pressed: bool) -> Grid {
    let w = button_w(label);
    let bx = if pressed { sat_add(x, 1) } else { x };
    let by = if pressed { sat_add(y, 1) } else { y };
    let attr = theme.spec_button_attr();
    let sp = Cell::spec_with_attr(' ', attr);
    let last = sat_sub(sat_add(bx, w), 1);
    let g1 = g.set(bx, by, sp).put_row(sat_add(bx, 1), by, paint_seq(label, attr), last).set(last, by, sp);
    if pressed {
        g1
    } else {
        g1.fill(
            Rect { x: sat_add(bx, 1) as u16, y: sat_add(by, 1) as u16, w: w as u16, h: 1 },
            Cell::spec_new('\u{2580}', theme.shadow, theme.shadow),
        )
    }
}

/// Total width `button()` takes (label plus two of air).
pub fn button_width(label: &str) -> (r: u16)
    ensures
        r == button_w(label@),
{
    visible_len(label).saturating_add(2)
}

/// Draws the button at rest at `(x, y)`; returns its width.
pub fn button(buf: &mut Buffer, x: u16, y: u16, label: &str, theme: Theme) -> (r: u16)
    requires
        old(buf).wf(),
    ensures
        final(buf).wf(),
        final(buf)@ == button_grid(old(buf)@, x as int, y as int, label@, theme, false),
        r == button_w(label@),
{
    button_draw(buf, x, y, label, theme, false)
}

/// Draws the button; `pressed` renders it sunk (moved +1,+1, no shadow).
/// Returns the width taken (the same in both states).
pub fn button_draw(buf: &mut Buffer, x: u16, y: u16, label: &str, theme: Theme, pressed: bool) -> (r: u16)
    requires
        old(buf).wf(),
    ensures
        final(buf).wf(),
        final(buf)@ == button_grid(old(buf)@, x as int, y as int, label@, theme, pressed),
        r == button_w(label@),
{
    let w = button_width(label);
    let (bx, by) = if pressed {
        (x.saturating_add(1), y.saturating_add(1))
    } else {
        (x, y)
    };
    let attr = theme.button_attr();
    let sp = Cell::with_attr(' ', attr);
    buf.set(bx, by, sp);
    let last = bx.saturating_add(w).saturating_sub(1);
    let cells = Buffer::cells_of(label, attr);
    buf.put_row(bx.saturating_add(1), by, &cells, last);
    buf.set(last, by, sp);
    if !pressed {
        buf.fill_rect(
            Rect::new(bx.saturating_add(1), by.saturating_add(1), w, 1),
            Cell::new('\u{2580}', theme.shadow, theme.shadow),
        );
    }
    w
}

} // verus!
