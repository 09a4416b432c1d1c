//! Vertical scroll bar: `▲ ░ █ ▼`.

use vstd::prelude::*;

use crate::engine::buffer::{Buffer, Grid};
use crate::engine::cell::Cell;
use crate::engine::color::Color;
use crate::engine::rect::{Rect, max_int, min_int};
use crate::engine::theme::Theme;

verus! {

/// Rows visible at once, for the thumb: `visible` kept in `1..=max(total,1)`.
pub open spec fn thumb_vis(total: int, visible: int) -> int {
    min_int(max_int(visible, 1), max_int(total, 1))
}

/// Height of the proportional thumb in a track of `track_h` rows.
pub open spec fn thumb_h(track_h: int, total: int, visible: int) -> int {
    let vis = thumb_vis(total, visible);
    if total <= vis {
        track_h
    } else {
        min_int(max_int(track_h * vis / total, 1), track_h)
    }
}

/// Offset of the thumb inside the track (follows `top`).
pub open spec fn thumb_y(track_h: int, total: int, top: int, visible: int) -> int {
    let vis = thumb_vis(total, visible);
    if total <= vis {
        0
    } else {
        (track_h - thumb_h(track_h, total, visible)) * min_int(top, total - vis) / max_int(total - vis, 1)
    }
}

/// The scroll bar drawn in column `col.x`, rows `col.y..col.y+col.h`:
/// arrows at both ends, a dotted track and a thumb proportional to the
/// visible share, placed after `top`.
pub open spec fn vscroll_grid(g: Grid, col: Rect, total: int, top: int, visible: int, theme: Theme) -> Grid {
    let tb = theme.field_bg;
    let g1 = g.set(col.x as int, col.y as int, Cell::spec_new('▲', Color::Black, tb)).set(
        col.x as int,
        col.y + col.h - 1,
        Cell::spec_new('▼', Color::Black, tb),
    );
    if col.h <= 2 {
        g1
    } else {
        let track_h = col.h - 2;
        let ty = col.y + 1;
        g1.fill(Rect { x: col.x, y: ty as u16, w: 1, h: track_h as u16 }, Cell::spec_new('░', Color::DarkGrey, tb)).fill(
            Rect {
                x: col.x,
                y: (ty + thumb_y(track_h, total, top, visible)) as u16,
                w: 1,
                h: thumb_h(track_h, total, visible) as u16,
            },
            Cell::spec_new('█', Color::Black, tb),
        )
    }
}

/// Draws the scroll bar in column `col.x` (width forced to 1). `total` =
/// items, `top` = first visible, `visible` = rows shown.
pub fn vscrollbar(buf: &mut Buffer, col: Rect, total: usize, top: usize, visible: usize, theme: Theme)
    requires
        old(buf).wf(),
        col.y + col.h <= u16::MAX,
    ensures
        final(buf).wf(),
        final(buf)@ == if col.h == 0 {
            old(buf)@
        } else {
            vscroll_grid(old(buf)@, col, total as int, top as int, visible as int, theme)
        },
{
    if col.h == 0 {
        return;
    }
    let x = col.x;
    let tb = theme.field_bg;
    buf.set(x, col.y, Cell::new('▲', Color::Black, tb));
    buf.set(x, col.y + col.h - 1, Cell::new('▼', Color::Black, tb));
    if col.h <= 2 {
        return;
    }
    let track_y = col.y + 1;
    let track_h = col.h - 2;
    buf.fill_rect(Rect::new(x, track_y, 1, track_h), Cell::new('░', Color::DarkGrey, tb));
    let t = total as u128;
    let vis0: u128 = if visible > 1 { visible as u128 } else { 1 };
    let tmax: u128 = if total > 1 { t } else { 1 };
    let vis: u128 = if vis0 < tmax { vis0 } else { tmax };
    let th = track_h as u128;
    let thumb_hh: u128 = if t <= vis {
        th
    } else {
        assert(th * vis <= 65535 * 18446744073709551615u128) by (nonlinear_arith)
            requires th <= 65535, vis <= 18446744073709551615u128;
        let q = th * vis / t;
        let q1 = if q > 1 { q } else { 1 };
        if q1 < th { q1 } else { th }
    };
    let thumb_yy: u128 = if t <= vis {
        0
    } else {
        let span = t - vis;
        let tp = top as u128;
        let m = if tp < span { tp } else { span };
        proof {
            let ghost a: int = th - thumb_hh;
            let ghost b: int = m as int;
            let ghost c: int = span as int;
            assert(a * b / c <= a) by (nonlinear_arith)
                requires 0 <= b <= c, c >= 1, a >= 0;
            assert(a * b <= 65535 * 18446744073709551615u128) by (nonlinear_arith)
                requires 0 <= b <= c, a >= 0, a <= 65535, c <= 18446744073709551615u128;
        }
        (th - thumb_hh) * m / span
    };
    buf.fill_rect(
        Rect::new(x, track_y + thumb_yy as u16, 1, thumb_hh as u16),
        Cell::new('█', Color::Black, tb),
    );
}

/// The thumb lies inside the track: it is at least one row and at most the
/// track high, starts at the top of the track when the first row is shown
/// and ends at its bottom when the last rows are shown, and moves down (never
/// up) as `top` grows.
pub proof fn lemma_thumb_in_track(track_h: int, total: int, top: int, top2: int, visible: int)
    requires
        track_h >= 1,
        0 <= top <= top2,
    ensures
        1 <= thumb_h(track_h, total, visible) <= track_h,
        0 <= thumb_y(track_h, total, top, visible),
        thumb_y(track_h, total, top, visible) + thumb_h(track_h, total, visible) <= track_h,
        top == 0 ==> thumb_y(track_h, total, top, visible) == 0,
        top >= total - thumb_vis(total, visible) ==> thumb_y(track_h, total, top, visible) == track_h - thumb_h(
            track_h,
            total,
            visible,
        ),
        thumb_y(track_h, total, top, visible) <= thumb_y(track_h, total, top2, visible),
{
    let vis = thumb_vis(total, visible);
    if total > vis {
        let h = thumb_h(track_h, total, visible);
        let span = track_h - h;
        let den = total - vis;
        let t1 = min_int(top, den);
        let t2 = min_int(top2, den);
        assert(0 <= span);
        assert(0 <= t1 <= t2 <= den);
        assert(0 <= span * t1 <= span * t2 <= span * den) by (nonlinear_arith)
            requires
                0 <= span,
                0 <= t1 <= t2 <= den,
        ;
        vstd::arithmetic::div_mod::lemma_div_is_ordered(span * t1, span * t2, den);
        vstd::arithmetic::div_mod::lemma_div_is_ordered(span * t2, span * den, den);
        vstd::arithmetic::div_mod::lemma_div_pos_is_pos(span * t1, den);
        vstd::arithmetic::div_mod::lemma_div_multiples_vanish(span, den);
        assert(span * den == den * span) by (nonlinear_arith);
        if top == 0 {
            assert(span * t1 == 0) by (nonlinear_arith) requires t1 == 0;
        }
    }
}

} // verus!
