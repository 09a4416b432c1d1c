//! Back-buffer: everything is drawn here, and only the `diff` against the
//! previous frame travels to the terminal.

use vstd::prelude::*;

use super::cell::Cell;
use super::color::Color;
use super::color::Attr;
use super::rect::{Rect, sat_add, min_int, max_int};
use crate::text::{cell_width, char_width, chars_of};

verus! {

/// The cell that stands for every position outside a grid.
pub open spec fn outside_cell() -> Cell {
    Cell::spec_blank(Color::Black)
}

/// Mathematical picture of a buffer: its size and the cell at every
/// position (positions outside the grid read as `outside_cell()`).
#[verifier::ext_equal]
pub struct Grid {
    pub w: int,
    pub h: int,
    pub at: spec_fn(int, int) -> Cell,
}

impl Grid {
    pub open spec fn in_bounds(self, x: int, y: int) -> bool {
        0 <= x < self.w && 0 <= y < self.h
    }

    /// A grid of `w x h` cells, all equal to `fill`.
    pub open spec fn filled(w: int, h: int, fill: Cell) -> Grid {
        Grid {
            w,
            h,
            at: |x: int, y: int|
                if 0 <= x < w && 0 <= y < h {
                    fill
                } else {
                    outside_cell()
                },
        }
    }

    pub open spec fn get(self, x: int, y: int) -> Option<Cell> {
        if self.in_bounds(x, y) {
            Some((self.at)(x, y))
        } else {
            None
        }
    }

    /// Writing one cell; a position outside the grid is silently ignored.
    pub open spec fn set(self, x: int, y: int, c: Cell) -> Grid {
        Grid {
            w: self.w,
            h: self.h,
            at: |px: int, py: int|
                if px == x && py == y && self.in_bounds(x, y) {
                    c
                } else {
                    (self.at)(px, py)
                },
        }
    }

    /// Every cell of `r` that lies inside the grid becomes `c`.
    pub open spec fn fill(self, r: Rect, c: Cell) -> Grid {
        Grid {
            w: self.w,
            h: self.h,
            at: |px: int, py: int|
                if r.spec_contains(px, py) && self.in_bounds(px, py) {
                    c
                } else {
                    (self.at)(px, py)
                },
        }
    }

    /// A horizontal run of `c` on row `y`, columns `min(x0,x1)..=max(x0,x1)`.
    pub open spec fn hline(self, y: int, x0: int, x1: int, c: Cell) -> Grid {
        Grid {
            w: self.w,
            h: self.h,
            at: |px: int, py: int|
                if py == y && min_int(x0, x1) <= px <= max_int(x0, x1) && self.in_bounds(px, py) {
                    c
                } else {
                    (self.at)(px, py)
                },
        }
    }

    /// `cells[i]` written at column `x0 + i` of row `y`, for every `i` with
    /// `x0 + i < limit` (clipped to the grid).
    pub open spec fn put_row(self, x0: int, y: int, cells: Seq<Cell>, limit: int) -> Grid {
        Grid {
            w: self.w,
            h: self.h,
            at: |px: int, py: int|
                if py == y && x0 <= px < limit && px - x0 < cells.len() && self.in_bounds(px, py) {
                    cells[px - x0]
                } else {
                    (self.at)(px, py)
                },
        }
    }

    /// `src` copied at offset `(dx, dy)`, clipped to this grid.
    pub open spec fn blit(self, src: Grid, dx: int, dy: int) -> Grid {
        Grid {
            w: self.w,
            h: self.h,
            at: |px: int, py: int|
                if self.in_bounds(px, py) && src.in_bounds(px - dx, py - dy) {
                    (src.at)(px - dx, py - dy)
                } else {
                    (self.at)(px, py)
                },
        }
    }

    /// Same size and same cells.
    pub open spec fn same_cells(self, other: Grid) -> bool {
        self.w == other.w && self.h == other.h && forall|x: int, y: int|
            self.in_bounds(x, y) ==> #[trigger] (self.at)(x, y) == (other.at)(x, y)
    }
}

/// One paint operation: the cell at `(x, y)` becomes `cell`.
#[derive(Clone, Copy, Debug, PartialEq, Eq, Structural)]
pub struct DrawOp {
    pub x: u16,
    pub y: u16,
    pub cell: Cell,
}

/// Rectangular photo of a zone, for save/restore (row-major cells).
#[derive(Clone, Debug, PartialEq, Eq)]
pub struct Snapshot {
    pub rect: Rect,
    pub cells: Vec<Cell>,
}

/// What `restore` does with a snapshot: every position of `snap.rect`
/// whose row-major index (rows as long as the rectangle's clipped width)
/// has a cell in `cells` gets that cell back.
pub open spec fn restored(g: Grid, rect: Rect, cells: Seq<Cell>) -> Grid {
    Grid {
        w: g.w,
        h: g.h,
        at: |px: int, py: int|
            {
                let k = restore_index(rect, px, py);
                if rect.spec_contains(px, py) && g.in_bounds(px, py) && k < cells.len() {
                    cells[k]
                } else {
                    (g.at)(px, py)
                }
            },
    }
}

/// The zone a snapshot of `rect` keeps: `rect` clipped to the grid.
pub open spec fn snapshot_rect(g: Grid, rect: Rect) -> Rect {
    match rect.spec_intersect(Rect { x: 0, y: 0, w: g.w as u16, h: g.h as u16 }) {
        Some(r) => r,
        None => Rect { x: rect.x, y: rect.y, w: 0, h: 0 },
    }
}

/// The cell a row-major photo of `r` keeps for column `i`, row `j` of `r`.
pub open spec fn photo_at(cells: Seq<Cell>, r: Rect, i: int, j: int) -> Cell {
    cells[j * r.w + i]
}

/// `cells` holds the cells of `r` in `g`, row by row.
pub open spec fn photo_of(g: Grid, r: Rect, cells: Seq<Cell>) -> bool {
    &&& cells.len() == r.w * r.h
    &&& forall|i: int, j: int|
        0 <= i < r.w && 0 <= j < r.h ==> #[trigger] photo_at(cells, r, i, j) == (g.at)(
            r.x + i,
            r.y + j,
        )
}

/// Row-major index that `restore` gives to position `(px, py)` of `rect`.
pub open spec fn restore_index(rect: Rect, px: int, py: int) -> int {
    (py - rect.y) * (rect.spec_right() - rect.x) + (px - rect.x)
}

/// Operations for row `y`, columns `0..x`, left to right: a cell of `a` is
/// listed when `all` holds or when it differs from the same cell of `b`.
pub open spec fn ops_row(a: Grid, b: Grid, all: bool, y: int, x: int) -> Seq<DrawOp>
    decreases x,
{
    if x <= 0 {
        Seq::empty()
    } else {
        let prev = ops_row(a, b, all, y, x - 1);
        if all || (a.at)(x - 1, y) != (b.at)(x - 1, y) {
            prev.push(DrawOp { x: (x - 1) as u16, y: y as u16, cell: (a.at)(x - 1, y) })
        } else {
            prev
        }
    }
}

/// Operations for rows `0..y`, row-major.
pub open spec fn ops_rows(a: Grid, b: Grid, all: bool, y: int) -> Seq<DrawOp>
    decreases y,
{
    if y <= 0 {
        Seq::empty()
    } else {
        ops_rows(a, b, all, y - 1) + ops_row(a, b, all, y - 1, a.w)
    }
}

/// The operations `diff` reports: every cell of `a` when the sizes differ
/// (a resize repaints everything), else every cell where `a` differs from
/// `b`; both in row-major order.
pub open spec fn diff_spec(a: Grid, b: Grid) -> Seq<DrawOp> {
    ops_rows(a, b, a.w != b.w || a.h != b.h, a.h)
}

/// The cells that paint `chars` in `attr`.
pub open spec fn paint_seq(chars: Seq<char>, attr: Attr) -> Seq<Cell> {
    Seq::new(chars.len(), |i: int| Cell::spec_with_attr(chars[i], attr))
}

/// A run of cells painted from column `cx` on row `y`: each cell is
/// written and the cursor advances by the display width of its character;
/// cells of width 0 are skipped; painting stops at the right edge and,
/// when `stop_nl` holds, at the first line break.
pub open spec fn paint_run(g: Grid, cx: int, y: int, cells: Seq<Cell>, stop_nl: bool) -> Grid
    decreases cells.len(),
{
    if cells.len() == 0 {
        g
    } else {
        let c = cells[0].ch;
        if stop_nl && (c == '\n' || c == '\r') {
            g
        } else if cell_width(c) == 0 {
            paint_run(g, cx, y, cells.drop_first(), stop_nl)
        } else if cx >= g.w {
            g
        } else {
            paint_run(g.set(cx, y, cells[0]), sat_add(cx, cell_width(c)), y, cells.drop_first(), stop_nl)
        }
    }
}

/// Column just past the last cell that `paint_run` painted.
pub open spec fn paint_end(w: int, cx: int, cells: Seq<Cell>, stop_nl: bool) -> int
    decreases cells.len(),
{
    if cells.len() == 0 {
        cx
    } else {
        let c = cells[0].ch;
        if stop_nl && (c == '\n' || c == '\r') {
            cx
        } else if cell_width(c) == 0 {
            paint_end(w, cx, cells.drop_first(), stop_nl)
        } else if cx >= w {
            cx
        } else {
            paint_end(w, sat_add(cx, cell_width(c)), cells.drop_first(), stop_nl)
        }
    }
}

pub proof fn lemma_paint_end_ge(w: int, cx: int, cells: Seq<Cell>, stop_nl: bool)
    requires
        0 <= cx <= u16::MAX,
    ensures
        cx <= paint_end(w, cx, cells, stop_nl) <= u16::MAX,
    decreases cells.len(),
{
    if cells.len() > 0 {
        let c = cells[0].ch;
        if !(stop_nl && (c == '\n' || c == '\r')) {
            if cell_width(c) == 0 {
                lemma_paint_end_ge(w, cx, cells.drop_first(), stop_nl);
            } else if cx < w {
                lemma_paint_end_ge(w, sat_add(cx, cell_width(c)), cells.drop_first(), stop_nl);
            }
        }
    }
}

pub proof fn lemma_paint_run_size(g: Grid, cx: int, y: int, cells: Seq<Cell>, stop_nl: bool)
    ensures
        paint_run(g, cx, y, cells, stop_nl).w == g.w,
        paint_run(g, cx, y, cells, stop_nl).h == g.h,
    decreases cells.len(),
{
    if cells.len() > 0 {
        let c = cells[0].ch;
        if !(stop_nl && (c == '\n' || c == '\r')) {
            if cell_width(c) == 0 {
                lemma_paint_run_size(g, cx, y, cells.drop_first(), stop_nl);
            } else if cx < g.w {
                lemma_paint_run_size(g.set(cx, y, cells[0]), sat_add(cx, cell_width(c)), y, cells.drop_first(), stop_nl);
            }
        }
    }
}

/// Grid of `w x h` cells.
#[derive(Debug, PartialEq, Eq)]
pub struct Buffer {
    w: u16,
    h: u16,
    cells: Vec<Cell>,
}

impl View for Buffer {
    type V = Grid;

    open spec fn view(&self) -> Grid {
        self.grid()
    }
}

pub proof fn lemma_index(w: int, h: int, x: int, y: int)
    requires
        0 <= x < w,
        0 <= y < h,
    ensures
        0 <= y * w + x < w * h,
        (y * w + x) / w == y,
        (y * w + x) % w == x,
{
    assert(0 <= y * w) by (nonlinear_arith) requires 0 <= y, 0 <= w;
    assert(y * w + x < w * h) by (nonlinear_arith) requires 0 <= x < w, 0 <= y < h;
    vstd::arithmetic::div_mod::lemma_fundamental_div_mod_converse(y * w + x, w, y, x);
}

/// The number of cells of any `u16 x u16` grid fits in `usize`.
pub proof fn lemma_area_fits(w: u16, h: u16)
    ensures
        w as int * h as int <= 4294836225,
        w as int * h as int <= usize::MAX,
{
    assert(w as int * h as int <= 65535 * 65535) by (nonlinear_arith)
        requires w <= 65535, h <= 65535, 0 <= w, 0 <= h;
}

pub proof fn lemma_index_injective(w: int, x1: int, y1: int, x2: int, y2: int)
    requires
        0 <= x1 < w,
        0 <= x2 < w,
        0 <= y1,
        0 <= y2,
        y1 * w + x1 == y2 * w + x2,
    ensures
        x1 == x2 && y1 == y2,
{
    vstd::arithmetic::div_mod::lemma_fundamental_div_mod_converse(y1 * w + x1, w, y1, x1);
    vstd::arithmetic::div_mod::lemma_fundamental_div_mod_converse(y2 * w + x2, w, y2, x2);
}

impl Buffer {
    /// Internal consistency: one cell per position.
    pub closed spec fn wf(&self) -> bool {
        self.cells@.len() == self.w as int * self.h as int
    }

    pub closed spec fn grid(&self) -> Grid {
        Grid {
            w: self.w as int,
            h: self.h as int,
            at: |x: int, y: int|
                if 0 <= x < self.w && 0 <= y < self.h {
                    self.cells@[y * self.w + x]
                } else {
                    outside_cell()
                },
        }
    }

    /// The size of every buffer fits in `u16`.
    pub proof fn lemma_size(&self)
        requires
            self.wf(),
        ensures
            0 <= self@.w <= u16::MAX,
            0 <= self@.h <= u16::MAX,
    {
    }

    pub fn new(w: u16, h: u16, fill: Cell) -> (r: Self)
        ensures
            r.wf(),
            r@ == Grid::filled(w as int, h as int, fill),
    {
        proof {
            lemma_area_fits(w, h);
        }
        let n = w as usize * h as usize;
        let mut cells: Vec<Cell> = Vec::with_capacity(n);
        let mut i: usize = 0;
        while i < n
            invariant
                i <= n,
                n == w as int * h as int,
                cells@.len() == i,
                forall|k: int| 0 <= k < i ==> cells@[k] == fill,
            decreases n - i,
        {
            cells.push(fill);
            i += 1;
        }
        let r = Buffer { w, h, cells };
        proof {
            assert forall|x: int, y: int| #![trigger (r@.at)(x, y)]
                0 <= x < w && 0 <= y < h implies (r@.at)(x, y) == fill by {
                lemma_index(w as int, h as int, x, y);
            }
        }
        assert(r@ =~= Grid::filled(w as int, h as int, fill));
        r
    }

    pub fn blank(w: u16, h: u16, bg: Color) -> (r: Self)
        ensures
            r.wf(),
            r@ == Grid::filled(w as int, h as int, Cell::spec_blank(bg)),
    {
        Self::new(w, h, Cell::blank(bg))
    }

    pub fn width(&self) -> (r: u16)
        ensures
            r == self@.w,
    {
        self.w
    }

    pub fn height(&self) -> (r: u16)
        ensures
            r == self@.h,
    {
        self.h
    }

    pub fn bounds(&self) -> (r: Rect)
        ensures
            r == (Rect { x: 0, y: 0, w: self@.w as u16, h: self@.h as u16 }),
    {
        Rect::new(0, 0, self.w, self.h)
    }

    fn idx(&self, x: u16, y: u16) -> (r: Option<usize>)
        requires
            self.wf(),
        ensures
            r is Some <==> self@.in_bounds(x as int, y as int),
            r matches Some(i) ==> i == y * self@.w + x && i < self.cells@.len(),
    {
        if x < self.w && y < self.h {
            proof {
                lemma_index(self.w as int, self.h as int, x as int, y as int);
                lemma_area_fits(self.w, self.h);
            }
            Some(y as usize * self.w as usize + x as usize)
        } else {
            None
        }
    }

    pub fn in_bounds(&self, x: u16, y: u16) -> (r: bool)
        requires
            self.wf(),
        ensures
            r == self@.in_bounds(x as int, y as int),
    {
        self.idx(x, y).is_some()
    }

    pub fn get(&self, x: u16, y: u16) -> (r: Option<Cell>)
        requires
            self.wf(),
        ensures
            r == self@.get(x as int, y as int),
    {
        match self.idx(x, y) {
            Some(i) => Some(self.cells[i]),
            None => None,
        }
    }

    /// Write with silent clipping (what lies outside is ignored).
    pub fn set(&mut self, x: u16, y: u16, cell: Cell)
        requires
            old(self).wf(),
        ensures
            final(self).wf(),
            final(self)@ == old(self)@.set(x as int, y as int, cell),
    {
        if let Some(i) = self.idx(x, y) {
            self.cells.set(i, cell);
            proof {
                assert forall|px: int, py: int| #![trigger (self@.at)(px, py)]
                    0 <= px < self.w && 0 <= py < self.h && (px != x
                    || py != y) implies (self@.at)(px, py) == (old(self)@.at)(px, py) by {
                    lemma_index(self.w as int, self.h as int, px, py);
                    if py * self.w + px == i {
                        lemma_index_injective(self.w as int, px, py, x as int, y as int);
                    }
                }
            }
        }
        assert(self@ =~= old(self)@.set(x as int, y as int, cell));
    }
    /// Fills a rectangle (clipped to this buffer).
    pub fn fill_rect(&mut self, rect: Rect, cell: Cell)
        requires
            old(self).wf(),
        ensures
            final(self).wf(),
            final(self)@ == old(self)@.fill(rect, cell),
    {
        let bounds = self.bounds();
        let r = match rect.intersect(bounds) {
            Some(r) => r,
            None => {
                proof {
                    assert forall|px: int, py: int| #![trigger (self@.at)(px, py)]
                        !(rect.spec_contains(px, py) && self@.in_bounds(px, py)) by {
                        crate::engine::rect::lemma_intersect_contains(rect, bounds, px, py);
                    }
                }
                assert(self@ =~= old(self)@.fill(rect, cell));
                return;
            }
        };
        proof {
            assert forall|px: int, py: int| #![trigger r.spec_contains(px, py)]
                r.spec_contains(px, py) <==> (rect.spec_contains(px, py) && self@.in_bounds(px, py)) by {
                crate::engine::rect::lemma_intersect_contains(rect, bounds, px, py);
            }
        }
        let ghost g0 = self@;
        let mut y = r.y;
        while y < r.bottom()
            invariant
                self.wf(),
                self@.w == g0.w,
                self@.h == g0.h,
                forall|px: int, py: int| #[trigger] r.spec_contains(px, py) ==> g0.in_bounds(px, py),
                r.y <= y <= r.spec_bottom(),
                forall|px: int, py: int| #![trigger (self@.at)(px, py)]
                    (self@.at)(px, py) == if r.spec_contains(px, py) && py < y {
                        cell
                    } else {
                        (g0.at)(px, py)
                    },
            decreases r.spec_bottom() - y,
        {
            let mut x = r.x;
            while x < r.right()
                invariant
                    self.wf(),
                    self@.w == g0.w,
                    self@.h == g0.h,
                    forall|px: int, py: int| #[trigger] r.spec_contains(px, py) ==> g0.in_bounds(px, py),
                    r.y <= y < r.spec_bottom(),
                    r.x <= x <= r.spec_right(),
                    forall|px: int, py: int| #![trigger (self@.at)(px, py)]
                        (self@.at)(px, py) == if r.spec_contains(px, py) && (py < y || (py == y && px
                            < x)) {
                            cell
                        } else {
                            (g0.at)(px, py)
                        },
                decreases r.spec_right() - x,
            {
                self.set(x, y, cell);
                x += 1;
            }
            y += 1;
        }
        assert(self@ =~= old(self)@.fill(rect, cell));
    }

    /// Copies `src` at offset `(dx, dy)`, clipped to this buffer (the VGA
    /// blit): each cell of `src` lands `dx` columns and `dy` rows further
    /// on, where that position is inside this buffer.
    pub fn blit(&mut self, src: &Buffer, dx: i32, dy: i32)
        requires
            old(self).wf(),
            src.wf(),
        ensures
            final(self).wf(),
            final(self)@ == old(self)@.blit(src@, dx as int, dy as int),
    {
        let ghost g0 = self@;
        let ghost s = src@;
        let mut y: u16 = 0;
        while y < src.h
            invariant
                self.wf(),
                src.wf(),
                s == src@,
                self@.w == g0.w,
                self@.h == g0.h,
                y <= s.h,
                forall|px: int, py: int| #![trigger (self@.at)(px, py)]
                    (self@.at)(px, py) == if g0.in_bounds(px, py) && s.in_bounds(px - dx, py - dy) && py - dy < y {
                        (s.at)(px - dx, py - dy)
                    } else {
                        (g0.at)(px, py)
                    },
            decreases s.h - y,
        {
            let mut x: u16 = 0;
            while x < src.w
                invariant
                    self.wf(),
                    src.wf(),
                    s == src@,
                    self@.w == g0.w,
                    self@.h == g0.h,
                    y < s.h,
                    x <= s.w,
                    forall|px: int, py: int| #![trigger (self@.at)(px, py)]
                        (self@.at)(px, py) == if g0.in_bounds(px, py) && s.in_bounds(px - dx, py - dy) && (py - dy < y
                            || (py - dy == y && px - dx < x)) {
                            (s.at)(px - dx, py - dy)
                        } else {
                            (g0.at)(px, py)
                        },
                decreases s.w - x,
            {
                let tx: i64 = x as i64 + dx as i64;
                let ty: i64 = y as i64 + dy as i64;
                if 0 <= tx && tx < self.w as i64 && 0 <= ty && ty < self.h as i64 {
                    match src.get(x, y) {
                        Some(c) => {
                            self.set(tx as u16, ty as u16, c);
                        },
                        None => {},
                    }
                }
                x += 1;
            }
            y += 1;
        }
        assert(self@ =~= old(self)@.blit(src@, dx as int, dy as int));
    }

    /// Paints `cells` as one line from column `x` of row `y` (see
    /// `paint_run`); returns the column just past the painted run.
    pub fn paint_cells(&mut self, x: u16, y: u16, cells: &Vec<Cell>, stop_nl: bool) -> (end: u16)
        requires
            old(self).wf(),
        ensures
            final(self).wf(),
            final(self)@ == paint_run(old(self)@, x as int, y as int, cells@, stop_nl),
            end == paint_end(old(self)@.w, x as int, cells@, stop_nl),
    {
        let ghost target = paint_run(self@, x as int, y as int, cells@, stop_nl);
        let ghost w0 = self@.w;
        let ghost tend = paint_end(self@.w, x as int, cells@, stop_nl);
        let mut cx = x;
        let mut i: usize = 0;
        assert(cells@.skip(0) =~= cells@);
        while i < cells.len()
            invariant
                self.wf(),
                i <= cells.len(),
                self@.w == w0,
                target == paint_run(self@, cx as int, y as int, cells@.skip(i as int), stop_nl),
                tend == paint_end(w0, cx as int, cells@.skip(i as int), stop_nl),
            ensures
                self.wf(),
                target == self@,
                tend == cx,
            decreases cells.len() - i,
        {
            let cell = cells[i];
            let ch = cell.ch;
            assert(cells@.skip(i as int).drop_first() =~= cells@.skip(i + 1));
            if stop_nl && (ch == '\n' || ch == '\r') {
                break;
            }
            let w = char_width(ch);
            if w == 0 {
                i += 1;
                continue;
            }
            if cx >= self.w {
                break;
            }
            self.set(cx, y, cell);
            cx = cx.saturating_add(w);
            i += 1;
        }
        cx
    }

    /// Appends the cells that paint `chars` in `attr` to `out`.
    pub fn push_painted(out: &mut Vec<Cell>, chars: &Vec<char>, attr: Attr)
        ensures
            final(out)@ == old(out)@ + paint_seq(chars@, attr),
    {
        let ghost start = out@;
        let mut i: usize = 0;
        while i < chars.len()
            invariant
                i <= chars@.len(),
                out@ == start + paint_seq(chars@, attr).subrange(0, i as int),
            decreases chars.len() - i,
        {
            out.push(Cell::with_attr(chars[i], attr));
            i += 1;
            assert(out@ =~= start + paint_seq(chars@, attr).subrange(0, i as int));
        }
        assert(paint_seq(chars@, attr).subrange(0, i as int) =~= paint_seq(chars@, attr));
    }

    /// The cells that paint `s` in `attr`.
    pub fn cells_of(s: &str, attr: Attr) -> (r: Vec<Cell>)
        ensures
            r@ == paint_seq(s@, attr),
    {
        let chars = chars_of(s);
        let mut out: Vec<Cell> = Vec::new();
        let mut i: usize = 0;
        while i < chars.len()
            invariant
                i <= chars@.len(),
                chars@ == s@,
                out@ == paint_seq(s@, attr).subrange(0, i as int),
            decreases chars.len() - i,
        {
            out.push(Cell::with_attr(chars[i], attr));
            i += 1;
            assert(out@ =~= paint_seq(s@, attr).subrange(0, i as int));
        }
        assert(out@ =~= paint_seq(s@, attr));
        out
    }

    /// Single-line text from column `x` of row `y`: clipped at the edge,
    /// stopped at a line break, control characters skipped, the cursor
    /// advancing by each character's display width.
    pub fn text(&mut self, x: u16, y: u16, s: &str, fg: Color, bg: Color)
        requires
            old(self).wf(),
        ensures
            final(self).wf(),
            final(self)@ == if y >= old(self)@.h {
                old(self)@
            } else {
                paint_run(old(self)@, x as int, y as int, paint_seq(s@, Attr { fg, bg, bold: false, dim: false }), true)
            },
    {
        if y >= self.h {
            return;
        }
        let cells = Buffer::cells_of(s, Attr::new(fg, bg));
        self.paint_cells(x, y, &cells, true);
    }

    /// Bold text (titles).
    pub fn text_bold(&mut self, x: u16, y: u16, s: &str, fg: Color, bg: Color)
        requires
            old(self).wf(),
        ensures
            final(self).wf(),
            final(self)@ == if y >= old(self)@.h {
                old(self)@
            } else {
                paint_run(old(self)@, x as int, y as int, paint_seq(s@, Attr { fg, bg, bold: true, dim: false }), true)
            },
    {
        if y >= self.h {
            return;
        }
        let cells = Buffer::cells_of(s, Attr::bold(fg, bg));
        self.paint_cells(x, y, &cells, true);
    }

    /// Writes `cells[i]` at column `x0 + i` of row `y` while the column is
    /// below `limit` (one column per cell, whatever its width).
    pub fn put_row(&mut self, x0: u16, y: u16, cells: &Vec<Cell>, limit: u16)
        requires
            old(self).wf(),
        ensures
            final(self).wf(),
            final(self)@ == old(self)@.put_row(x0 as int, y as int, cells@, limit as int),
    {
        let ghost g0 = self@;
        let mut i: usize = 0;
        let mut cx: u16 = x0;
        while i < cells.len()
            invariant
                self.wf(),
                self@.w == g0.w,
                self@.h == g0.h,
                i <= cells@.len(),
                cx == x0 + i,
                forall|px: int, py: int| #![trigger (self@.at)(px, py)]
                    (self@.at)(px, py) == if py == y && x0 <= px < limit && px - x0 < i && g0.in_bounds(px, py) {
                        cells@[px - x0]
                    } else {
                        (g0.at)(px, py)
                    },
            ensures
                self.wf(),
                self@.w == g0.w,
                self@.h == g0.h,
                forall|px: int, py: int| #![trigger (self@.at)(px, py)]
                    (self@.at)(px, py) == if py == y && x0 <= px < limit && px - x0 < cells@.len() && g0.in_bounds(px, py) {
                        cells@[px - x0]
                    } else {
                        (g0.at)(px, py)
                    },
            decreases cells.len() - i,
        {
            if cx >= limit {
                break;
            }
            self.set(cx, y, cells[i]);
            cx += 1;
            i += 1;
        }
        assert(self@ =~= g0.put_row(x0 as int, y as int, cells@, limit as int));
    }

    /// Horizontal line of one glyph (group separators).
    pub fn hline(&mut self, y: u16, x0: u16, x1: u16, ch: char, fg: Color, bg: Color)
        requires
            old(self).wf(),
        ensures
            final(self).wf(),
            final(self)@ == old(self)@.hline(y as int, x0 as int, x1 as int, Cell::spec_new(ch, fg, bg)),
    {
        let ghost g0 = self@;
        let c = Cell::new(ch, fg, bg);
        if y >= self.h {
            assert(self@ =~= g0.hline(y as int, x0 as int, x1 as int, c));
            return;
        }
        let (a, b) = if x0 <= x1 { (x0, x1) } else { (x1, x0) };
        let mut x: u32 = a as u32;
        while x <= b as u32
            invariant
                self.wf(),
                self@.w == g0.w,
                self@.h == g0.h,
                a <= x <= b as int + 1,
                a == min_int(x0 as int, x1 as int),
                b == max_int(x0 as int, x1 as int),
                forall|px: int, py: int| #![trigger (self@.at)(px, py)]
                    (self@.at)(px, py) == if py == y && a <= px < x && g0.in_bounds(px, py) {
                        c
                    } else {
                        (g0.at)(px, py)
                    },
            decreases b as int + 1 - x,
        {
            self.set(x as u16, y, c);
            x += 1;
        }
        assert(self@ =~= g0.hline(y as int, x0 as int, x1 as int, c));
    }

    /// Photo of a zone for the save/restore stack (clipped to the buffer).
    pub fn snapshot(&self, rect: Rect) -> (r: Snapshot)
        requires
            self.wf(),
        ensures
            r.rect == snapshot_rect(self@, rect),
            photo_of(self@, r.rect, r.cells@),
    {
        let r = match rect.intersect(self.bounds()) {
            Some(r) => r,
            None => Rect::new(rect.x, rect.y, 0, 0),
        };
        proof {
            lemma_area_fits(r.w, r.h);
        }
        let mut cells: Vec<Cell> = Vec::with_capacity(r.w as usize * r.h as usize);
        let mut y = r.y;
        assert(r.spec_right() == r.x + r.w && r.spec_bottom() == r.y + r.h);
        while y < r.bottom()
            invariant
                self.wf(),
                r.spec_right() == r.x + r.w,
                r.spec_bottom() == r.y + r.h,
                r.h > 0 ==> r.x + r.w <= self@.w && r.y + r.h <= self@.h,
                r.y <= y <= r.y + r.h,
                cells@.len() == (y - r.y) * r.w,
                forall|i: int, j: int|
                    0 <= i < r.w && 0 <= j < y - r.y ==> #[trigger] photo_at(cells@, r, i, j) == (
                    self@.at)(r.x + i, r.y + j),
            decreases r.y + r.h - y,
        {
            let mut x = r.x;
            while x < r.right()
                invariant
                    self.wf(),
                    r.spec_right() == r.x + r.w,
                    r.spec_bottom() == r.y + r.h,
                    r.x + r.w <= self@.w && r.y + r.h <= self@.h,
                    r.y <= y < r.y + r.h,
                    r.x <= x <= r.x + r.w,
                    cells@.len() == (y - r.y) * r.w + (x - r.x),
                    forall|i: int, j: int|
                        0 <= i < r.w && 0 <= j < y - r.y ==> #[trigger] photo_at(cells@, r, i, j) == (
                        self@.at)(r.x + i, r.y + j),
                    forall|i: int| 0 <= i < x - r.x ==> #[trigger] photo_at(cells@, r, i, y - r.y) == (
                        self@.at)(r.x + i, y as int),
                decreases r.x + r.w - x,
            {
                let c = match self.get(x, y) {
                    Some(c) => c,
                    None => Cell::blank(Color::Black),
                };
                let ghost before = cells@;
                cells.push(c);
                proof {
                    assert forall|i: int, j: int| 0 <= i < r.w && 0 <= j < y - r.y implies #[trigger] photo_at(
                        cells@, r, i, j) == (self@.at)(r.x + i, r.y + j) by {
                        assert(j * r.w + i < (y - r.y) * r.w) by (nonlinear_arith)
                            requires 0 <= i < r.w, 0 <= j < y - r.y;
                        assert(0 <= j * r.w) by (nonlinear_arith) requires 0 <= j, 0 <= r.w;
                        assert(photo_at(cells@, r, i, j) == photo_at(before, r, i, j));
                    }
                    assert forall|i: int| 0 <= i < x + 1 - r.x implies #[trigger] photo_at(cells@, r, i, y - r.y)
                        == (self@.at)(r.x + i, y as int) by {
                        assert(0 <= (y - r.y) * r.w) by (nonlinear_arith) requires 0 <= y - r.y, 0 <= r.w;
                        if i < x - r.x {
                            assert(photo_at(cells@, r, i, y - r.y) == photo_at(before, r, i, y - r.y));
                        }
                    }
                }
                x += 1;
            }
            proof {
                assert((y + 1 - r.y) * r.w == (y - r.y) * r.w + r.w) by (nonlinear_arith);
                assert forall|i: int, j: int| 0 <= i < r.w && 0 <= j < y + 1 - r.y implies #[trigger] photo_at(
                    cells@, r, i, j) == (self@.at)(r.x + i, r.y + j) by {
                    if j == y - r.y {
                        assert(photo_at(cells@, r, i, y - r.y) == (self@.at)(r.x + i, y as int));
                    }
                }
            }
            y += 1;
        }
        assert((y - r.y) * r.w == r.w * r.h) by (nonlinear_arith) requires y - r.y == r.h;
        Snapshot { rect: r, cells }
    }

    /// Puts a photo back.
    pub fn restore(&mut self, snap: &Snapshot)
        requires
            old(self).wf(),
        ensures
            final(self).wf(),
            final(self)@ == restored(old(self)@, snap.rect, snap.cells@),
    {
        let ghost g0 = self@;
        let rect = snap.rect;
        let len = snap.cells.len();
        let mut k: usize = 0;
        let mut y = rect.y;
        while y < rect.bottom()
            invariant
                self.wf(),
                self@.w == g0.w,
                self@.h == g0.h,
                len == snap.cells@.len(),
                rect == snap.rect,
                rect.y <= y <= rect.spec_bottom(),
                k == restore_index(rect, rect.x as int, y as int),
                forall|px: int, py: int| #![trigger (self@.at)(px, py)]
                    (self@.at)(px, py) == if rect.spec_contains(px, py) && py < y && g0.in_bounds(px, py)
                        && restore_index(rect, px, py) < len {
                        snap.cells@[restore_index(rect, px, py)]
                    } else {
                        (g0.at)(px, py)
                    },
            decreases rect.spec_bottom() - y,
        {
            proof {
                assert(0 <= (y - rect.y) * (rect.spec_right() - rect.x)) by (nonlinear_arith)
                    requires y >= rect.y, rect.spec_right() >= rect.x;
                assert((y - rect.y) * (rect.spec_right() - rect.x) <= 65535 * 65535) by (nonlinear_arith)
                    requires 0 <= y - rect.y <= 65535, 0 <= rect.spec_right() - rect.x <= 65535;
            }
            let mut x = rect.x;
            while x < rect.right()
                invariant
                    self.wf(),
                    self@.w == g0.w,
                    self@.h == g0.h,
                    len == snap.cells@.len(),
                    rect == snap.rect,
                    rect.y <= y < rect.spec_bottom(),
                    rect.x <= x <= rect.spec_right(),
                    k == restore_index(rect, x as int, y as int),
                    0 <= (y - rect.y) * (rect.spec_right() - rect.x) <= 65535 * 65535,
                    forall|px: int, py: int| #![trigger (self@.at)(px, py)]
                        (self@.at)(px, py) == if rect.spec_contains(px, py) && (py < y || (py == y && px < x))
                            && g0.in_bounds(px, py) && restore_index(rect, px, py) < len {
                            snap.cells@[restore_index(rect, px, py)]
                        } else {
                            (g0.at)(px, py)
                        },
                decreases rect.spec_right() - x,
            {
                if k < len {
                    self.set(x, y, snap.cells[k]);
                }
                k += 1;
                x += 1;
            }
            proof {
                assert((y + 1 - rect.y) * (rect.spec_right() - rect.x) == (y - rect.y) * (rect.spec_right()
                    - rect.x) + (rect.spec_right() - rect.x)) by (nonlinear_arith);
            }
            y += 1;
        }
        assert(self@ =~= restored(g0, snap.rect, snap.cells@));
    }

    /// Cells that differ from `other` (same size); when the sizes differ,
    /// the full frame is returned (a resize repaints everything).
    pub fn diff(&self, other: &Buffer) -> (r: Vec<DrawOp>)
        requires
            self.wf(),
            other.wf(),
        ensures
            r@ == diff_spec(self@, other@),
    {
        let all = self.w != other.w || self.h != other.h;
        let mut ops: Vec<DrawOp> = Vec::new();
        let mut y: u16 = 0;
        while y < self.h
            invariant
                self.wf(),
                other.wf(),
                all == (self@.w != other@.w || self@.h != other@.h),
                y <= self@.h,
                ops@ == ops_rows(self@, other@, all, y as int),
            decreases self@.h - y,
        {
            let mut x: u16 = 0;
            while x < self.w
                invariant
                    self.wf(),
                    other.wf(),
                    all == (self@.w != other@.w || self@.h != other@.h),
                    y < self@.h,
                    x <= self@.w,
                    ops@ == ops_rows(self@, other@, all, y as int) + ops_row(self@, other@, all, y as int, x as int),
                decreases self@.w - x,
            {
                proof {
                    lemma_index(self.w as int, self.h as int, x as int, y as int);
                    lemma_area_fits(self.w, self.h);
                }
                let i = y as usize * self.w as usize + x as usize;
                let c = self.cells[i];
                if all || c != other.cells[i] {
                    ops.push(DrawOp { x, y, cell: c });
                }
                x += 1;
            }
            y += 1;
        }
        ops
    }

    /// A copy of this buffer.
    pub fn duplicate(&self) -> (r: Buffer)
        requires
            self.wf(),
        ensures
            r.wf(),
            r@ == self@,
    {
        let mut cells: Vec<Cell> = Vec::new();
        let mut i: usize = 0;
        while i < self.cells.len()
            invariant
                i <= self.cells@.len(),
                cells@ == self.cells@.subrange(0, i as int),
            decreases self.cells@.len() - i,
        {
            cells.push(self.cells[i]);
            i += 1;
            assert(cells@ =~= self.cells@.subrange(0, i as int));
        }
        assert(cells@ =~= self.cells@);
        let r = Buffer { w: self.w, h: self.h, cells };
        assert(r@ =~= self@);
        r
    }
}

} // verus!

verus! {

/// The grid after painting `ops` in order onto `g` (what a terminal shows
/// after receiving them).
pub open spec fn apply_ops(g: Grid, ops: Seq<DrawOp>) -> Grid
    decreases ops.len(),
{
    if ops.len() == 0 {
        g
    } else {
        apply_ops(g, ops.drop_last()).set(ops.last().x as int, ops.last().y as int, ops.last().cell)
    }
}

proof fn lemma_apply_concat(g: Grid, s1: Seq<DrawOp>, s2: Seq<DrawOp>)
    ensures
        apply_ops(g, s1 + s2) == apply_ops(apply_ops(g, s1), s2),
    decreases s2.len(),
{
    if s2.len() == 0 {
        assert(s1 + s2 =~= s1);
    } else {
        assert((s1 + s2).drop_last() =~= s1 + s2.drop_last());
        lemma_apply_concat(g, s1, s2.drop_last());
    }
}

proof fn lemma_apply_row(a: Grid, b: Grid, all: bool, y: int, x: int, g: Grid)
    requires
        0 <= y < a.h <= u16::MAX,
        0 <= x <= a.w <= u16::MAX,
        g.w == a.w,
        g.h == a.h,
        forall|px: int| 0 <= px < x ==> all || #[trigger] (g.at)(px, y) == (b.at)(px, y),
    ensures
        apply_ops(g, ops_row(a, b, all, y, x)).w == g.w,
        apply_ops(g, ops_row(a, b, all, y, x)).h == g.h,
        forall|px: int, py: int| #![trigger (apply_ops(g, ops_row(a, b, all, y, x)).at)(px, py)]
            (apply_ops(g, ops_row(a, b, all, y, x)).at)(px, py) == if py == y && 0 <= px < x {
                (a.at)(px, py)
            } else {
                (g.at)(px, py)
            },
    decreases x,
{
    if x > 0 {
        lemma_apply_row(a, b, all, y, x - 1, g);
        let prev = ops_row(a, b, all, y, x - 1);
        if all || (a.at)(x - 1, y) != (b.at)(x - 1, y) {
            let op = DrawOp { x: (x - 1) as u16, y: y as u16, cell: (a.at)(x - 1, y) };
            assert(prev.push(op).drop_last() =~= prev);
        }
    }
}

proof fn lemma_apply_rows(a: Grid, b: Grid, all: bool, y: int, g: Grid)
    requires
        0 <= y <= a.h <= u16::MAX,
        0 <= a.w <= u16::MAX,
        g.w == a.w,
        g.h == a.h,
        forall|px: int, py: int| 0 <= px < a.w && 0 <= py < a.h ==> all || #[trigger] (g.at)(px, py) == (
        b.at)(px, py),
    ensures
        apply_ops(g, ops_rows(a, b, all, y)).w == g.w,
        apply_ops(g, ops_rows(a, b, all, y)).h == g.h,
        forall|px: int, py: int| #![trigger (apply_ops(g, ops_rows(a, b, all, y)).at)(px, py)]
            (apply_ops(g, ops_rows(a, b, all, y)).at)(px, py) == if 0 <= py < y && 0 <= px < a.w {
                (a.at)(px, py)
            } else {
                (g.at)(px, py)
            },
    decreases y,
{
    if y > 0 {
        lemma_apply_rows(a, b, all, y - 1, g);
        let g1 = apply_ops(g, ops_rows(a, b, all, y - 1));
        lemma_apply_concat(g, ops_rows(a, b, all, y - 1), ops_row(a, b, all, y - 1, a.w));
        lemma_apply_row(a, b, all, y - 1, a.w, g1);
    }
}

/// Read after write: a write shows at its position (inside the grid) and
/// leaves every other position as it was.
pub proof fn lemma_set_get(g: Grid, x: int, y: int, c: Cell, px: int, py: int)
    ensures
        g.set(x, y, c).get(px, py) == if px == x && py == y && g.in_bounds(x, y) {
            Some(c)
        } else {
            g.get(px, py)
        },
{
}

/// Presenting is lossless: painting the operations of `diff_spec(a, b)` over
/// a screen that shows `b` (or, when the sizes differ, over any screen of
/// `a`'s size) yields exactly the cells of `a`.
pub proof fn lemma_diff_then_apply(a: Grid, b: Grid, c: Grid)
    requires
        0 <= a.w <= u16::MAX,
        0 <= a.h <= u16::MAX,
        c.w == a.w,
        c.h == a.h,
        (a.w == b.w && a.h == b.h) ==> c == b,
    ensures
        apply_ops(c, diff_spec(a, b)).same_cells(a),
{
    let all = a.w != b.w || a.h != b.h;
    lemma_apply_rows(a, b, all, a.h, c);
}

/// `p` comes before `q` in row-major order.
pub open spec fn op_before(p: DrawOp, q: DrawOp) -> bool {
    p.y < q.y || (p.y == q.y && p.x < q.x)
}

/// The operations of one row: on that row, columns below `x`, left to
/// right, each with the cell of `a` there.
proof fn lemma_ops_row_order(a: Grid, b: Grid, all: bool, y: int, x: int)
    requires
        0 <= y <= u16::MAX,
        x <= u16::MAX + 1,
    ensures
        ({
            let s = ops_row(a, b, all, y, x);
            &&& forall|i: int| 0 <= i < s.len() ==> (#[trigger] s[i]).y == y && s[i].x < x && s[i].cell == (a.at)(
                s[i].x as int,
                y,
            ) && (all || (a.at)(s[i].x as int, y) != (b.at)(s[i].x as int, y))
            &&& forall|i: int, j: int| 0 <= i < j < s.len() ==> (#[trigger] s[i]).x < (#[trigger] s[j]).x
        }),
    decreases x,
{
    if x > 0 {
        lemma_ops_row_order(a, b, all, y, x - 1);
    }
}

/// The operations of rows below `y`, in strictly increasing row-major
/// order, each on a row below `y`.
proof fn lemma_ops_rows_order(a: Grid, b: Grid, all: bool, y: int)
    requires
        0 <= y <= u16::MAX + 1,
        0 <= a.w <= u16::MAX,
    ensures
        ({
            let s = ops_rows(a, b, all, y);
            &&& forall|i: int| 0 <= i < s.len() ==> (#[trigger] s[i]).y < y && s[i].x < a.w && s[i].cell == (a.at)(
                s[i].x as int,
                s[i].y as int,
            ) && (all || (a.at)(s[i].x as int, s[i].y as int) != (b.at)(s[i].x as int, s[i].y as int))
            &&& forall|i: int, j: int| 0 <= i < j < s.len() ==> op_before(#[trigger] s[i], #[trigger] s[j])
        }),
    decreases y,
{
    if y > 0 {
        lemma_ops_rows_order(a, b, all, y - 1);
        lemma_ops_row_order(a, b, all, y - 1, a.w);
        let p = ops_rows(a, b, all, y - 1);
        let q = ops_row(a, b, all, y - 1, a.w);
        let s = p + q;
        assert forall|i: int| 0 <= i < s.len() implies (#[trigger] s[i]).y < y && s[i].x < a.w && s[i].cell == (a.at)(
            s[i].x as int,
            s[i].y as int,
        ) && (all || (a.at)(s[i].x as int, s[i].y as int) != (b.at)(s[i].x as int, s[i].y as int)) by {
            if i >= p.len() {
                assert(s[i] == q[i - p.len()]);
            } else {
                assert(s[i] == p[i]);
            }
        }
        assert forall|i: int, j: int| 0 <= i < j < s.len() implies op_before(#[trigger] s[i], #[trigger] s[j]) by {
            if j < p.len() {
                assert(s[i] == p[i] && s[j] == p[j]);
            } else if i >= p.len() {
                assert(s[i] == q[i - p.len()] && s[j] == q[j - p.len()]);
            } else {
                assert(s[i] == p[i] && s[j] == q[j - p.len()]);
            }
        }
    }
}

/// The diff comes in strictly increasing row-major order, and each of its
/// operations puts the cell of `a` at a position of `a` where, when the
/// sizes agree, `a` and `b` differ.
pub proof fn lemma_diff_order(a: Grid, b: Grid)
    requires
        0 <= a.w <= u16::MAX,
        0 <= a.h <= u16::MAX,
    ensures
        forall|i: int, j: int| 0 <= i < j < diff_spec(a, b).len() ==> op_before(
            #[trigger] diff_spec(a, b)[i],
            #[trigger] diff_spec(a, b)[j],
        ),
        forall|i: int| 0 <= i < diff_spec(a, b).len() ==> {
            let op = #[trigger] diff_spec(a, b)[i];
            &&& a.in_bounds(op.x as int, op.y as int)
            &&& op.cell == (a.at)(op.x as int, op.y as int)
            &&& (a.w == b.w && a.h == b.h) ==> (a.at)(op.x as int, op.y as int) != (b.at)(op.x as int, op.y as int)
        },
{
    lemma_ops_rows_order(a, b, a.w != b.w || a.h != b.h, a.h);
}

/// Nothing to send when nothing changed.
pub proof fn lemma_diff_of_same_is_empty(a: Grid)
    requires
        0 <= a.w,
    ensures
        diff_spec(a, a).len() == 0,
{
    lemma_no_ops_rows(a, a.h);
}

proof fn lemma_no_ops_rows(a: Grid, y: int)
    ensures
        ops_rows(a, a, false, y).len() == 0,
    decreases y,
{
    if y > 0 {
        lemma_no_ops_rows(a, y - 1);
        lemma_no_ops_row(a, y - 1, a.w);
    }
}

proof fn lemma_no_ops_row(a: Grid, y: int, x: int)
    ensures
        ops_row(a, a, false, y, x).len() == 0,
    decreases x,
{
    if x > 0 {
        lemma_no_ops_row(a, y, x - 1);
    }
}

/// Save/restore round trip: restoring a photo of `r` taken from `g` onto any
/// grid `h` of the same size brings back `g`'s cells inside the photographed
/// zone and leaves every other position of `h` alone.
pub proof fn lemma_snapshot_restore(g: Grid, h: Grid, r: Rect, cells: Seq<Cell>)
    requires
        0 <= g.w <= u16::MAX,
        0 <= g.h <= u16::MAX,
        h.w == g.w,
        h.h == g.h,
        photo_of(g, snapshot_rect(g, r), cells),
    ensures
        forall|px: int, py: int| #![trigger (restored(h, snapshot_rect(g, r), cells).at)(px, py)]
            (restored(h, snapshot_rect(g, r), cells).at)(px, py) == if snapshot_rect(g, r).spec_contains(
                px,
                py,
            ) && g.in_bounds(px, py) {
                (g.at)(px, py)
            } else {
                (h.at)(px, py)
            },
        forall|px: int, py: int| #[trigger] r.spec_contains(px, py) && g.in_bounds(px, py)
            ==> snapshot_rect(g, r).spec_contains(px, py),
{
    let s = snapshot_rect(g, r);
    let bounds = Rect { x: 0, y: 0, w: g.w as u16, h: g.h as u16 };
    assert forall|px: int, py: int| #[trigger] r.spec_contains(px, py) && g.in_bounds(px, py)
        implies s.spec_contains(px, py) by {
        crate::engine::rect::lemma_intersect_contains(r, bounds, px, py);
    }
    assert forall|px: int, py: int| #![trigger (restored(h, s, cells).at)(px, py)]
        s.spec_contains(px, py) && g.in_bounds(px, py) implies (restored(h, s, cells).at)(px, py)
        == (g.at)(px, py) by {
        crate::engine::rect::lemma_intersect_contains(r, bounds, px, py);
        let i = px - s.x;
        let j = py - s.y;
        assert(s.spec_right() == s.x + s.w);
        assert(restore_index(s, px, py) == j * s.w + i);
        assert(j * s.w + i < s.w * s.h) by (nonlinear_arith) requires 0 <= i < s.w, 0 <= j < s.h;
        assert(photo_at(cells, s, i, j) == (g.at)(s.x + i, s.y + j));
    }
}

} // verus!
