//! Stack of screens (`Savescreen()`/`Restscreen()`) plus double buffer.

use vstd::prelude::*;

use super::buffer::{Buffer, DrawOp, Grid, Snapshot, diff_spec, outside_cell, photo_of, restored, snapshot_rect};
use super::cell::Cell;
use super::rect::{Rect, min_int, max_int};
use super::theme::Theme;

verus! {

/// LIFO stack of photos. The id of a photo is its position; only the top
/// can be restored (windows close in reverse order).
#[derive(Debug, Default)]
pub struct ScreenStack {
    stack: Vec<Snapshot>,
}

impl View for ScreenStack {
    type V = Seq<Snapshot>;

    closed spec fn view(&self) -> Seq<Snapshot> {
        self.stack@
    }
}

/// `snap` is a photo of zone `rect` of `g` (clipped to `g`).
pub open spec fn is_photo(snap: Snapshot, g: Grid, rect: Rect) -> bool {
    snap.rect == snapshot_rect(g, rect) && photo_of(g, snap.rect, snap.cells@)
}

impl ScreenStack {
    pub fn new() -> (r: Self)
        ensures
            r@ == Seq::<Snapshot>::empty(),
    {
        ScreenStack { stack: Vec::new() }
    }

    pub fn depth(&self) -> (r: usize)
        ensures
            r == self@.len(),
    {
        self.stack.len()
    }

    pub fn is_empty(&self) -> (r: bool)
        ensures
            r == (self@.len() == 0),
    {
        self.stack.len() == 0
    }

    /// Photographs `rect` of `buf` and pushes it. Returns its id.
    pub fn save(&mut self, buf: &Buffer, rect: Rect) -> (id: usize)
        requires
            buf.wf(),
            old(self)@.len() < usize::MAX,
        ensures
            final(self)@.len() == old(self)@.len() + 1,
            final(self)@.drop_last() == old(self)@,
            is_photo(final(self)@.last(), buf@, rect),
            id == old(self)@.len(),
    {
        let snap = buf.snapshot(rect);
        self.stack.push(snap);
        proof {
            assert(self@.drop_last() =~= old(self)@);
        }
        self.stack.len() - 1
    }

    /// Restores photo `id` over `buf`. Only the top (`id == depth - 1`);
    /// otherwise returns `false` and touches nothing.
    pub fn restore(&mut self, buf: &mut Buffer, id: usize) -> (ok: bool)
        requires
            old(buf).wf(),
        ensures
            final(buf).wf(),
            ok == (old(self)@.len() > 0 && id == old(self)@.len() - 1),
            ok ==> final(self)@ == old(self)@.drop_last() && final(buf)@ == restored(
                old(buf)@,
                old(self)@.last().rect,
                old(self)@.last().cells@,
            ),
            !ok ==> final(self)@ == old(self)@ && final(buf)@ == old(buf)@,
    {
        let n = self.stack.len();
        if n == 0 || id != n - 1 {
            return false;
        }
        let snap = self.stack.pop().unwrap();
        buf.restore(&snap);
        proof {
            assert(self@ =~= old(self)@.drop_last());
        }
        true
    }

    /// Shortcut: restores the top.
    pub fn pop(&mut self, buf: &mut Buffer) -> (ok: bool)
        requires
            old(buf).wf(),
        ensures
            final(buf).wf(),
            ok == (old(self)@.len() > 0),
            ok ==> final(self)@ == old(self)@.drop_last() && final(buf)@ == restored(
                old(buf)@,
                old(self)@.last().rect,
                old(self)@.last().cells@,
            ),
            !ok ==> final(self)@ == old(self)@ && final(buf)@ == old(buf)@,
    {
        if self.stack.len() == 0 {
            return false;
        }
        let top = self.stack.len() - 1;
        self.restore(buf, top)
    }

    /// Empties the stack without restoring (after a resize, say).
    pub fn clear(&mut self)
        ensures
            final(self)@ == Seq::<Snapshot>::empty(),
    {
        self.stack.clear();
    }
}

/// The grid a resize leaves: `w x h`, the common top-left corner of `old`
/// kept and the rest filled with `fill`.
pub open spec fn resized(old: Grid, w: int, h: int, fill: Cell) -> Grid {
    Grid {
        w,
        h,
        at: |x: int, y: int|
            if 0 <= x < w && 0 <= y < h {
                if x < old.w && y < old.h {
                    (old.at)(x, y)
                } else {
                    fill
                }
            } else {
                outside_cell()
            },
    }
}

/// Full screen: double buffer + stack + theme.
#[derive(Debug)]
pub struct Screen {
    pub back: Buffer,
    pub front: Buffer,
    pub stack: ScreenStack,
    pub theme: Theme,
}

impl Screen {
    /// Both buffers are consistent.
    pub open spec fn wf(&self) -> bool {
        self.back.wf() && self.front.wf()
    }

    pub fn new(w: u16, h: u16, theme: Theme) -> (r: Self)
        ensures
            r.wf(),
            r.back@ == Grid::filled(
                max_int(w as int, 1),
                max_int(h as int, 1),
                Cell::spec_blank(theme.desktop),
            ),
            r.front@ == Grid::filled(0, 0, Cell::spec_blank(theme.desktop)),
            r.stack@ == Seq::<Snapshot>::empty(),
            r.theme == theme,
    {
        let bg = theme.desktop;
        let w1 = if w > 1 { w } else { 1 };
        let h1 = if h > 1 { h } else { 1 };
        Screen {
            back: Buffer::blank(w1, h1, bg),
            front: Buffer::blank(0, 0, bg),
            stack: ScreenStack::new(),
            theme,
        }
    }

    pub fn size(&self) -> (r: (u16, u16))
        requires
            self.wf(),
        ensures
            r.0 == self.back@.w && r.1 == self.back@.h,
    {
        (self.back.width(), self.back.height())
    }

    pub fn bounds(&self) -> (r: Rect)
        requires
            self.wf(),
        ensures
            r == (Rect { x: 0, y: 0, w: self.back@.w as u16, h: self.back@.h as u16 }),
    {
        self.back.bounds()
    }

    /// The back buffer, where the frame is drawn.
    pub fn frame(&mut self) -> (r: &mut Buffer)
        ensures
            *r == old(self).back,
            final(self).back == *final(r),
            final(self).front == old(self).front,
            final(self).stack == old(self).stack,
            final(self).theme == old(self).theme,
    {
        &mut self.back
    }

    /// Saves zone `rect` of the back buffer. See `ScreenStack::save`.
    pub fn savescreen(&mut self, rect: Rect) -> (id: usize)
        requires
            old(self).wf(),
            old(self).stack@.len() < usize::MAX,
        ensures
            final(self).wf(),
            final(self).back == old(self).back,
            final(self).front == old(self).front,
            final(self).theme == old(self).theme,
            final(self).stack@.len() == old(self).stack@.len() + 1,
            final(self).stack@.drop_last() == old(self).stack@,
            is_photo(final(self).stack@.last(), old(self).back@, rect),
            id == old(self).stack@.len(),
    {
        self.stack.save(&self.back, rect)
    }

    /// Restores photo `id` over the back buffer (only the top).
    pub fn restscreen(&mut self, id: usize) -> (ok: bool)
        requires
            old(self).wf(),
        ensures
            final(self).wf(),
            final(self).front == old(self).front,
            final(self).theme == old(self).theme,
            ok == (old(self).stack@.len() > 0 && id == old(self).stack@.len() - 1),
            ok ==> final(self).stack@ == old(self).stack@.drop_last() && final(self).back@ == restored(
                old(self).back@,
                old(self).stack@.last().rect,
                old(self).stack@.last().cells@,
            ),
            !ok ==> final(self).stack@ == old(self).stack@ && final(self).back@ == old(self).back@,
    {
        self.stack.restore(&mut self.back, id)
    }

    /// Diff of back against front; back is promoted to front. The result is
    /// what travels to the terminal.
    pub fn present_ops(&mut self) -> (ops: Vec<DrawOp>)
        requires
            old(self).wf(),
        ensures
            final(self).wf(),
            ops@ == diff_spec(old(self).back@, old(self).front@),
            final(self).front@ == old(self).back@,
            final(self).back == old(self).back,
            final(self).stack == old(self).stack,
            final(self).theme == old(self).theme,
    {
        let ops = self.back.diff(&self.front);
        self.front = self.back.duplicate();
        ops
    }

    /// Resize keeping the common top-left corner. Invalidates the stack (old
    /// photos no longer fit) and forces a full repaint on the next
    /// `present_ops`.
    pub fn resize(&mut self, w: u16, h: u16)
        requires
            old(self).wf(),
        ensures
            final(self).wf(),
            final(self).back@ == resized(
                old(self).back@,
                max_int(w as int, 1),
                max_int(h as int, 1),
                Cell::spec_blank(old(self).theme.desktop),
            ),
            final(self).front@ == Grid::filled(0, 0, Cell::spec_blank(old(self).theme.desktop)),
            final(self).stack@ == Seq::<Snapshot>::empty(),
            final(self).theme == old(self).theme,
    {
        let w1 = if w > 1 { w } else { 1 };
        let h1 = if h > 1 { h } else { 1 };
        let fill = Cell::blank(self.theme.desktop);
        let mut fresh = Buffer::blank(w1, h1, self.theme.desktop);
        let ghost g0 = self.back@;
        let ow = self.back.width();
        let oh = self.back.height();
        let cw = if ow < w1 { ow } else { w1 };
        let chh = if oh < h1 { oh } else { h1 };
        let mut y: u16 = 0;
        while y < chh
            invariant
                fresh.wf(),
                self.back.wf(),
                self.back@ == g0,
                fresh@.w == w1,
                fresh@.h == h1,
                cw == min_int(g0.w, w1 as int),
                chh == min_int(g0.h, h1 as int),
                y <= chh,
                forall|px: int, py: int| #![trigger (fresh@.at)(px, py)]
                    (fresh@.at)(px, py) == if 0 <= px < w1 && 0 <= py < h1 {
                        if px < cw && py < y {
                            (g0.at)(px, py)
                        } else {
                            fill
                        }
                    } else {
                        outside_cell()
                    },
            decreases chh - y,
        {
            let mut x: u16 = 0;
            while x < cw
                invariant
                    fresh.wf(),
                    self.back.wf(),
                    self.back@ == g0,
                    fresh@.w == w1,
                    fresh@.h == h1,
                    cw == min_int(g0.w, w1 as int),
                    chh == min_int(g0.h, h1 as int),
                    y < chh,
                    x <= cw,
                    forall|px: int, py: int| #![trigger (fresh@.at)(px, py)]
                        (fresh@.at)(px, py) == if 0 <= px < w1 && 0 <= py < h1 {
                            if px < cw && (py < y || (py == y && px < x)) {
                                (g0.at)(px, py)
                            } else {
                                fill
                            }
                        } else {
                            outside_cell()
                        },
                decreases cw - x,
            {
                if let Some(c) = self.back.get(x, y) {
                    fresh.set(x, y, c);
                }
                x += 1;
            }
            y += 1;
        }
        self.back = fresh;
        self.front = Buffer::blank(0, 0, self.theme.desktop);
        self.stack.clear();
        assert(self.back@ =~= resized(g0, w1 as int, h1 as int, fill));
    }
}

} // verus!
