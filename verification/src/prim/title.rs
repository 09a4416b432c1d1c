//! Top and bottom navy bars (application title, status and help).

use vstd::prelude::*;

use crate::engine::buffer::{Buffer, Grid, paint_run, paint_seq, lemma_paint_run_size};
use crate::engine::cell::Cell;
use crate::engine::color::Attr;
use crate::engine::rect::{Rect, sat_sub};
use crate::engine::theme::Theme;
use crate::text::seq_width;

use super::label::{draw_text, hot_clean, visible_len};

verus! {

/// A bar on row `y`: filled with `bg`, `left` from column 1 and, when it
/// fits, `right` ending one column before the right edge.
pub open spec fn bar_grid(g: Grid, y: int, left: Seq<char>, right: Seq<char>, fill: Cell, a: Attr) -> Grid {
    let g1 = g.fill(Rect { x: 0, y: y as u16, w: g.w as u16, h: 1 }, fill);
    let g2 = paint_run(g1, 1, y, paint_seq(left, a), false);
    let rw = seq_width(hot_clean(right));
    if rw + 2 < g.w {
        paint_run(g2, sat_sub(sat_sub(g.w, rw), 1), y, paint_seq(right, a), false)
    } else {
        g2
    }
}

/// Row 0: `left` on the left, `right` on the right, navy background.
pub fn top_bar(buf: &mut Buffer, left: &str, right: &str, theme: Theme)
    requires
        old(buf).wf(),
    ensures
        final(buf).wf(),
        final(buf)@ == if old(buf)@.h == 0 {
            old(buf)@
        } else {
            bar_grid(old(buf)@, 0, left@, right@, Cell::spec_new(' ', theme.status_fg, theme.navy), theme.spec_top_attr())
        },
{
    if buf.height() == 0 {
        return;
    }
    let w = buf.width();
    buf.fill_rect(Rect::new(0, 0, w, 1), Cell::new(' ', theme.status_fg, theme.navy));
    let a = theme.top_attr();
    draw_text(buf, 1, 0, left, a);
    let rw = visible_len(right);
    proof {
        lemma_paint_run_size(
            old(buf)@.fill(Rect { x: 0, y: 0, w: w, h: 1 }, Cell::spec_new(' ', theme.status_fg, theme.navy)),
            1, 0, paint_seq(left@, a), false);
    }
    if (rw as u32) + 2 < w as u32 {
        draw_text(buf, w.saturating_sub(rw).saturating_sub(1), 0, right, a);
    }
}

/// Last row: like the top bar (status and help).
pub fn status_bar(buf: &mut Buffer, left: &str, right: &str, theme: Theme)
    requires
        old(buf).wf(),
    ensures
        final(buf).wf(),
        final(buf)@ == if old(buf)@.h == 0 {
            old(buf)@
        } else {
            bar_grid(
                old(buf)@,
                old(buf)@.h - 1,
                left@,
                right@,
                Cell::spec_new(' ', theme.status_fg, theme.status_bg),
                theme.spec_status_attr(),
            )
        },
{
    if buf.height() == 0 {
        return;
    }
    let (w, h) = (buf.width(), buf.height());
    let y = h - 1;
    buf.fill_rect(Rect::new(0, y, w, 1), Cell::new(' ', theme.status_fg, theme.status_bg));
    let a = theme.status_attr();
    draw_text(buf, 1, y, left, a);
    let rw = visible_len(right);
    proof {
        lemma_paint_run_size(
            old(buf)@.fill(Rect { x: 0, y: y, w: w, h: 1 }, Cell::spec_new(' ', theme.status_fg, theme.status_bg)),
            1, y as int, paint_seq(left@, a), false);
    }
    if (rw as u32) + 2 < w as u32 {
        draw_text(buf, w.saturating_sub(rw).saturating_sub(1), y, right, a);
    }
}

} // verus!
