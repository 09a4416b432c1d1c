//! Virtual braille canvas: each text cell holds a 2x4 grid of dots
//! (U+2800..U+28FF), so a `cols x rows` area gives `2*cols x 4*rows`
//! addressable pixels for lines and charts.

use vstd::prelude::*;

use crate::engine::buffer::{Buffer, Grid};
use crate::engine::cell::Cell;
use crate::engine::color::Color;
use crate::engine::rect::{Rect, sat_add};
use crate::text::char_from_u32;

verus! {

/// Pixel canvas of `width x height` dots.
pub struct VirtualCanvas {
    pub width: usize,
    pub height: usize,
    /// One flag per dot, row by row.
    pub pixels: Vec<bool>,
}

/// Largest coordinate handed to `draw_line`: a sixth of the word. The
/// walk's doubled error term lies between `-3 * |dy|` and `3 * |dx|`, so
/// up to here it stays inside a signed machine word; beyond a third of
/// the signed range it leaves it on long, nearly flat lines.
pub const LINE_COORD_MAX: usize = usize::MAX / 6;

impl VirtualCanvas {
    /// One flag per dot.
    pub open spec fn wf(&self) -> bool {
        self.pixels@.len() == self.width * self.height
    }

    /// Whether dot `(x, y)` is lit (dots outside the canvas never are).
    pub open spec fn lit(&self, x: int, y: int) -> bool {
        0 <= x < self.width && 0 <= y < self.height && self.pixels@[y * self.width + x]
    }

    /// A canvas over `cols x rows` cells: `2*cols x 4*rows` dots, all off.
    pub fn new(cols: u16, rows: u16) -> (r: Self)
        requires
            (cols as int * 2) * (rows as int * 4) <= usize::MAX,
        ensures
            r.wf(),
            r.width == cols * 2,
            r.height == rows * 4,
            forall|x: int, y: int| !#[trigger] r.lit(x, y),
    {
        let w: usize = cols as usize * 2;
        let h: usize = rows as usize * 4;
        let n: usize = w * h;
        let mut pixels: Vec<bool> = Vec::with_capacity(n);
        let mut i: usize = 0;
        while i < n
            invariant
                i <= n,
                pixels@.len() == i,
                forall|k: int| 0 <= k < i ==> !pixels@[k],
            decreases n - i,
        {
            pixels.push(false);
            i += 1;
        }
        let r = VirtualCanvas { width: w, height: h, pixels };
        assert forall|x: int, y: int| !#[trigger] r.lit(x, y) by {
            if 0 <= x < w && 0 <= y < h {
                crate::engine::buffer::lemma_index(w as int, h as int, x, y);
            }
        }
        r
    }

    /// Number of dot flags held (`width * height`).
    pub fn len(&self) -> (r: usize)
        requires
            self.wf(),
        ensures
            r == self.width * self.height,
    {
        self.pixels.len()
    }

    /// Lights dot `(x, y)`; a dot outside the canvas is ignored.
    pub fn set_pixel(&mut self, x: usize, y: usize)
        requires
            old(self).wf(),
        ensures
            final(self).wf(),
            final(self).width == old(self).width,
            final(self).height == old(self).height,
            forall|px: int, py: int|
                #[trigger] final(self).lit(px, py) == (old(self).lit(px, py) || (px == x && py == y && x < old(
                    self,
                ).width && y < old(self).height)),
    {
        if x < self.width && y < self.height {
            let n = self.pixels.len();
            proof {
                crate::engine::buffer::lemma_index(self.width as int, self.height as int, x as int, y as int);
            }
            let i = y * self.width + x;
            self.pixels.set(i, true);
            proof {
                assert forall|px: int, py: int| #[trigger] self.lit(px, py) == (old(self).lit(px, py) || (px == x && py
                    == y)) by {
                    if 0 <= px < self.width && 0 <= py < self.height {
                        crate::engine::buffer::lemma_index(self.width as int, self.height as int, px, py);
                        if py * self.width + px == i {
                            crate::engine::buffer::lemma_index_injective(self.width as int, px, py, x as int, y as int);
                        }
                    }
                }
            }
        }
    }

    /// Whether dot `(x, y)` is lit.
    fn get(&self, x: usize, y: usize) -> (r: bool)
        requires
            self.wf(),
        ensures
            r == self.lit(x as int, y as int),
    {
        if x < self.width && y < self.height {
            let n = self.pixels.len();
            proof {
                crate::engine::buffer::lemma_index(self.width as int, self.height as int, x as int, y as int);
            }
            self.pixels[y * self.width + x]
        } else {
            false
        }
    }

    /// The braille bits of the cell `(col, row)`: dots 1-2-3 of the left
    /// column are bits 0x01, 0x02, 0x04, dots 4-5-6 of the right column
    /// 0x08, 0x10, 0x20, and the bottom pair 0x40 (left), 0x80 (right).
    pub fn cell_mask(&self, col: usize, row: usize) -> (r: u8)
        requires
            self.wf(),
            col * 2 + 1 <= usize::MAX,
            row * 4 + 3 <= usize::MAX,
        ensures
            r == mask_of(self, col as int, row as int),
    {
        let px = col * 2;
        let py = row * 4;
        let mut byte: u8 = 0;
        if self.get(px, py) {
            byte = byte + 0x01;
        }
        if self.get(px, py + 1) {
            byte = byte + 0x02;
        }
        if self.get(px, py + 2) {
            byte = byte + 0x04;
        }
        if self.get(px + 1, py) {
            byte = byte + 0x08;
        }
        if self.get(px + 1, py + 1) {
            byte = byte + 0x10;
        }
        if self.get(px + 1, py + 2) {
            byte = byte + 0x20;
        }
        if self.get(px, py + 3) {
            byte = byte + 0x40;
        }
        if self.get(px + 1, py + 3) {
            byte = byte + 0x80;
        }
        byte
    }

    /// Draws the canvas into `area` of `buf`: cell `(col, row)` of the area
    /// gets the braille pattern of its dots (a space when none is lit), in
    /// `fg` on `bg`.
    pub fn render_to_buffer(&self, buf: &mut Buffer, area: Rect, fg: Color, bg: Color)
        requires
            self.wf(),
            old(buf).wf(),
        ensures
            final(buf).wf(),
            final(buf)@ == render_grid(old(buf)@, self, area, fg, bg),
    {
        let ghost g0 = buf@;
        proof {
            buf.lemma_size();
        }
        let mut row: u16 = 0;
        while row < area.h
            invariant
                self.wf(),
                buf.wf(),
                buf@.w == g0.w,
                buf@.h == g0.h,
                g0.w <= u16::MAX,
                g0.h <= u16::MAX,
                row <= area.h,
                forall|px: int, py: int| #![trigger (buf@.at)(px, py)]
                    (buf@.at)(px, py) == render_at(g0, self, area, fg, bg, px, py, row as int, 0),
            decreases area.h - row,
        {
            let mut col: u16 = 0;
            while col < area.w
                invariant
                    self.wf(),
                    buf.wf(),
                    buf@.w == g0.w,
                    buf@.h == g0.h,
                    g0.w <= u16::MAX,
                    g0.h <= u16::MAX,
                    row < area.h,
                    col <= area.w,
                    forall|px: int, py: int| #![trigger (buf@.at)(px, py)]
                        (buf@.at)(px, py) == render_at(g0, self, area, fg, bg, px, py, row as int, col as int),
                decreases area.w - col,
            {
                let byte = self.cell_mask(col as usize, row as usize);
                let ch = if byte == 0 {
                    ' '
                } else {
                    match char_from_u32(0x2800 + byte as u32) {
                        Some(c) => c,
                        None => ' ',
                    }
                };
                assert(ch == braille_of(mask_of(self, col as int, row as int)));
                let x = area.x.saturating_add(col);
                let y = area.y.saturating_add(row);
                buf.set(x, y, Cell::new(ch, fg, bg));
                col += 1;
            }
            row += 1;
        }
        assert(buf@ =~= render_grid(g0, self, area, fg, bg));
    }

    /// Draws a line from `(x0, y0)` to `(x1, y1)` with the integer
    /// Bresenham walk: every dot of the walk, from the first to the last,
    /// is lit (those outside the canvas are skipped).
    pub fn draw_line(&mut self, x0: usize, y0: usize, x1: usize, y1: usize)
        requires
            old(self).wf(),
            x0 <= LINE_COORD_MAX,
            y0 <= LINE_COORD_MAX,
            x1 <= LINE_COORD_MAX,
            y1 <= LINE_COORD_MAX,
        ensures
            final(self).wf(),
            final(self).width == old(self).width,
            final(self).height == old(self).height,
            exists|n: nat| line_reaches(x0 as int, y0 as int, x1 as int, y1 as int, n),
            forall|px: int, py: int|
                #[trigger] final(self).lit(px, py) == (old(self).lit(px, py) || (0 <= px < old(self).width && 0
                    <= py < old(self).height && on_line(x0 as int, y0 as int, x1 as int, y1 as int, px, py))),
    {
        let ghost (gx0, gy0, gx1, gy1) = (x0 as int, y0 as int, x1 as int, y1 as int);
        let mut x: i64 = x0 as i64;
        let mut y: i64 = y0 as i64;
        let tx: i64 = x1 as i64;
        let ty: i64 = y1 as i64;
        let dx: i64 = if tx >= x { tx - x } else { x - tx };
        let dy: i64 = if ty >= y { -(ty - y) } else { -(y - ty) };
        let sx: i64 = if x < tx { 1 } else { -1 };
        let sy: i64 = if y < ty { 1 } else { -1 };
        let mut err: i64 = dx + dy;
        let ghost mut k: nat = 0;
        proof {
            let d = -dy;
            assert(sx * (gx1 - gx0) == dx) by (nonlinear_arith)
                requires
                    sx == line_sx(gx0, gx1),
                    dx == line_dx(gx0, gx1),
            ;
            assert(sy * (gy1 - gy0) == d) by (nonlinear_arith)
                requires
                    sy == line_sy(gy0, gy1),
                    d == -line_dy(gy0, gy1),
            ;
            assert(d * dx == dx * d) by (nonlinear_arith);
            assert(line_at(gx0, gy0, gx1, gy1, 0) == (gx0, gy0, dx + dy));
        }
        let ghost w = self.width;
        let ghost h = self.height;
        loop
            invariant_except_break
                self.wf(),
                self.width == w,
                self.height == h,
                (x as int, y as int, err as int) == line_at(gx0, gy0, gx1, gy1, k),
                forall|j: nat| j < k ==> #[trigger] line_pos(gx0, gy0, gx1, gy1, j) != (gx1, gy1),
                forall|px: int, py: int|
                    #[trigger] self.lit(px, py) == (old(self).lit(px, py) || (0 <= px < w && 0 <= py < h && exists|
                        j: nat,
                    | j < k && #[trigger] line_pos(gx0, gy0, gx1, gy1, j) == (px, py))),
                line_bounds(gx0, gy0, gx1, gy1, x as int, y as int, err as int),
                dx == line_dx(gx0, gx1),
                dy == line_dy(gy0, gy1),
                sx == line_sx(gx0, gx1),
                sy == line_sy(gy0, gy1),
                tx == gx1,
                ty == gy1,
            ensures
                self.wf(),
                self.width == w,
                self.height == h,
                line_reaches(gx0, gy0, gx1, gy1, k),
                forall|px: int, py: int|
                    #[trigger] self.lit(px, py) == (old(self).lit(px, py) || (0 <= px < w && 0 <= py < h && exists|
                        j: nat,
                    | j <= k && #[trigger] line_pos(gx0, gy0, gx1, gy1, j) == (px, py))),
            decreases line_left(gx1, gy1, x as int, y as int),
        {
            if x >= 0 && y >= 0 {
                self.set_pixel(x as usize, y as usize);
            }
            proof {
                assert forall|px: int, py: int|
                    #[trigger] self.lit(px, py) == (old(self).lit(px, py) || (0 <= px < w && 0 <= py < h && exists|
                        j: nat,
                    | j <= k && #[trigger] line_pos(gx0, gy0, gx1, gy1, j) == (px, py))) by {
                    if px == x && py == y && 0 <= px < w && 0 <= py < h {
                        assert(line_pos(gx0, gy0, gx1, gy1, k) == (px, py));
                    }
                    if exists|j: nat| j <= k && #[trigger] line_pos(gx0, gy0, gx1, gy1, j) == (px, py) {
                        let j = choose|j: nat| j <= k && #[trigger] line_pos(gx0, gy0, gx1, gy1, j) == (px, py);
                        if j < k {
                        } else {
                            assert(line_pos(gx0, gy0, gx1, gy1, k) == (x as int, y as int));
                        }
                    }
                }
            }
            if x == tx && y == ty {
                proof {
                    assert(line_pos(gx0, gy0, gx1, gy1, k) == (gx1, gy1));
                }
                break;
            }
            proof {
                lemma_line_step(gx0, gy0, gx1, gy1, x as int, y as int, err as int);
            }
            let e2 = 2 * err;
            if e2 >= dy {
                err += dy;
                x += sx;
            }
            if e2 <= dx {
                err += dx;
                y += sy;
            }
            proof {
                assert(line_pos(gx0, gy0, gx1, gy1, k) != (gx1, gy1));
                k = k + 1;
                assert forall|px: int, py: int|
                    #[trigger] self.lit(px, py) == (old(self).lit(px, py) || (0 <= px < w && 0 <= py < h && exists|
                        j: nat,
                    | j < k && #[trigger] line_pos(gx0, gy0, gx1, gy1, j) == (px, py))) by {
                    if exists|j: nat| j <= (k - 1) as nat && #[trigger] line_pos(gx0, gy0, gx1, gy1, j) == (px, py) {
                        let j = choose|j: nat| j <= (k - 1) as nat && #[trigger] line_pos(gx0, gy0, gx1, gy1, j) == (
                        px, py);
                        assert(j < k);
                    }
                    if exists|j: nat| j < k && #[trigger] line_pos(gx0, gy0, gx1, gy1, j) == (px, py) {
                        let j = choose|j: nat| j < k && #[trigger] line_pos(gx0, gy0, gx1, gy1, j) == (px, py);
                        assert(j <= (k - 1) as nat);
                    }
                }
            }
        }
        proof {
            assert forall|px: int, py: int|
                #[trigger] self.lit(px, py) == (old(self).lit(px, py) || (0 <= px < w && 0 <= py < h && on_line(
                    gx0,
                    gy0,
                    gx1,
                    gy1,
                    px,
                    py,
                ))) by {
                if exists|j: nat| j <= k && #[trigger] line_pos(gx0, gy0, gx1, gy1, j) == (px, py) {
                    let j = choose|j: nat| j <= k && #[trigger] line_pos(gx0, gy0, gx1, gy1, j) == (px, py);
                    assert(line_reaches(gx0, gy0, gx1, gy1, k) && j <= k && line_pos(gx0, gy0, gx1, gy1, j) == (px, py));
                }
                if on_line(gx0, gy0, gx1, gy1, px, py) {
                    let (n, j) = choose|n: nat, j: nat| #![trigger line_reaches(gx0, gy0, gx1, gy1, n), line_pos(gx0, gy0, gx1, gy1, j)]
                        line_reaches(gx0, gy0, gx1, gy1, n) && j <= n && line_pos(gx0, gy0, gx1, gy1, j) == (px, py);
                    lemma_reaches_unique(gx0, gy0, gx1, gy1, n, k);
                }
            }
        }
    }
}

/// The braille bits of cell `(col, row)` of `c`.
pub open spec fn mask_of(c: &VirtualCanvas, col: int, row: int) -> int {
    let px = col * 2;
    let py = row * 4;
    (if c.lit(px, py) { 0x01int } else { 0 }) + (if c.lit(px, py + 1) { 0x02int } else { 0 }) + (if c.lit(
        px,
        py + 2,
    ) { 0x04int } else { 0 }) + (if c.lit(px + 1, py) { 0x08int } else { 0 }) + (if c.lit(px + 1, py + 1) {
        0x10int
    } else { 0 }) + (if c.lit(px + 1, py + 2) { 0x20int } else { 0 }) + (if c.lit(px, py + 3) { 0x40int } else {
        0
    }) + (if c.lit(px + 1, py + 3) { 0x80int } else { 0 })
}

/// The character that shows braille bits `m`: a space for none, else
/// U+2800 + `m`.
pub open spec fn braille_of(m: int) -> char {
    if m == 0 { ' ' } else { (0x2800 + m) as char }
}

/// What `render_to_buffer` leaves at `(px, py)` once rows `0..row` and the
/// first `col` cells of row `row` of `area` are drawn.
pub open spec fn render_at(
    g: Grid,
    c: &VirtualCanvas,
    area: Rect,
    fg: Color,
    bg: Color,
    px: int,
    py: int,
    row: int,
    col: int,
) -> Cell {
    if g.in_bounds(px, py) && area.x <= px < area.x + area.w && area.y <= py && (py < area.y + row || (py
        == area.y + row && px < area.x + col)) {
        Cell::spec_new(braille_of(mask_of(c, px - area.x, py - area.y)), fg, bg)
    } else {
        (g.at)(px, py)
    }
}

/// The whole area drawn.
pub open spec fn render_grid(g: Grid, c: &VirtualCanvas, area: Rect, fg: Color, bg: Color) -> Grid {
    Grid {
        w: g.w,
        h: g.h,
        at: |px: int, py: int|
            if g.in_bounds(px, py) && area.x <= px < area.x + area.w && area.y <= py < area.y + area.h {
                Cell::spec_new(braille_of(mask_of(c, px - area.x, py - area.y)), fg, bg)
            } else {
                (g.at)(px, py)
            },
    }
}

/// Column distance of the walk.
pub open spec fn line_dx(x0: int, x1: int) -> int {
    if x1 >= x0 { x1 - x0 } else { x0 - x1 }
}

/// Minus the row distance of the walk.
pub open spec fn line_dy(y0: int, y1: int) -> int {
    if y1 >= y0 { -(y1 - y0) } else { -(y0 - y1) }
}

pub open spec fn line_sx(x0: int, x1: int) -> int {
    if x0 < x1 { 1 } else { -1 }
}

pub open spec fn line_sy(y0: int, y1: int) -> int {
    if y0 < y1 { 1 } else { -1 }
}

/// State `(x, y, err)` of the Bresenham walk after `k` steps.
pub open spec fn line_at(x0: int, y0: int, x1: int, y1: int, k: nat) -> (int, int, int)
    decreases k,
{
    if k == 0 {
        (x0, y0, line_dx(x0, x1) + line_dy(y0, y1))
    } else {
        let (x, y, err) = line_at(x0, y0, x1, y1, (k - 1) as nat);
        let dx = line_dx(x0, x1);
        let dy = line_dy(y0, y1);
        let e2 = 2 * err;
        let (err1, nx) = if e2 >= dy { (err + dy, x + line_sx(x0, x1)) } else { (err, x) };
        let (err2, ny) = if e2 <= dx { (err1 + dx, y + line_sy(y0, y1)) } else { (err1, y) };
        (nx, ny, err2)
    }
}

/// Dot of the walk after `k` steps.
pub open spec fn line_pos(x0: int, y0: int, x1: int, y1: int, k: nat) -> (int, int) {
    let (x, y, _) = line_at(x0, y0, x1, y1, k);
    (x, y)
}

/// The walk first reaches the end after `n` steps.
pub open spec fn line_reaches(x0: int, y0: int, x1: int, y1: int, n: nat) -> bool {
    &&& line_pos(x0, y0, x1, y1, n) == (x1, y1)
    &&& forall|k: nat| k < n ==> #[trigger] line_pos(x0, y0, x1, y1, k) != (x1, y1)
}

/// `(px, py)` is a dot of the walk from its start to its end.
pub open spec fn on_line(x0: int, y0: int, x1: int, y1: int, px: int, py: int) -> bool {
    exists|n: nat, k: nat| #![trigger line_reaches(x0, y0, x1, y1, n), line_pos(x0, y0, x1, y1, k)]
        line_reaches(x0, y0, x1, y1, n) && k <= n && line_pos(x0, y0, x1, y1, k) == (px, py)
}

/// Steps still to go, measured as the distance left on both axes.
pub open spec fn line_left(x1: int, y1: int, x: int, y: int) -> int {
    (if x1 >= x { x1 - x } else { x - x1 }) + (if y1 >= y { y1 - y } else { y - y1 })
}

/// What the walk keeps: it never passes its end on either axis, and its
/// error term is `dx + dy + |dy| * ax - dx * ay` for the distances `ax`,
/// `ay` left.
pub open spec fn line_bounds(x0: int, y0: int, x1: int, y1: int, x: int, y: int, err: int) -> bool {
    let dx = line_dx(x0, x1);
    let d = -line_dy(y0, y1);
    let ax = line_sx(x0, x1) * (x1 - x);
    let ay = line_sy(y0, y1) * (y1 - y);
    &&& 0 <= ax <= dx
    &&& 0 <= ay <= d
    &&& err == dx - d + d * ax - dx * ay
    &&& -3 * d <= 2 * err <= 3 * dx
    &&& 0 <= x0 <= LINE_COORD_MAX && 0 <= y0 <= LINE_COORD_MAX
    &&& 0 <= x1 <= LINE_COORD_MAX && 0 <= y1 <= LINE_COORD_MAX
}

proof fn lemma_line_step(x0: int, y0: int, x1: int, y1: int, x: int, y: int, err: int)
    requires
        line_bounds(x0, y0, x1, y1, x, y, err),
        !(x == x1 && y == y1),
    ensures
        ({
            let dx = line_dx(x0, x1);
            let dy = line_dy(y0, y1);
            let e2 = 2 * err;
            let (err1, nx) = if e2 >= dy { (err + dy, x + line_sx(x0, x1)) } else { (err, x) };
            let (err2, ny) = if e2 <= dx { (err1 + dx, y + line_sy(y0, y1)) } else { (err1, y) };
            &&& line_bounds(x0, y0, x1, y1, nx, ny, err2)
            &&& line_left(x1, y1, nx, ny) < line_left(x1, y1, x, y)
        }),
{
    let dx = line_dx(x0, x1);
    let d = -line_dy(y0, y1);
    let sx = line_sx(x0, x1);
    let sy = line_sy(y0, y1);
    let ax = sx * (x1 - x);
    let ay = sy * (y1 - y);
    let e2 = 2 * err;
    if sx == 1 {
        assert(ax == x1 - x);
    } else {
        assert(ax == x - x1);
    }
    if sy == 1 {
        assert(ay == y1 - y);
    } else {
        assert(ay == y - y1);
    }
    if ax == 0 {
        assert(d * ax == 0) by (nonlinear_arith)
            requires
                ax == 0,
        ;
        assert(ay >= 1);
        assert(dx * ay >= dx) by (nonlinear_arith)
            requires
                ay >= 1,
                dx >= 0,
        ;
        assert(e2 < -d);
    }
    if ay == 0 {
        assert(dx * ay == 0) by (nonlinear_arith)
            requires
                ay == 0,
        ;
        assert(ax >= 1);
        assert(d * ax >= d) by (nonlinear_arith)
            requires
                ax >= 1,
                d >= 0,
        ;
        assert(e2 > dx);
    }
    if e2 >= -d {
        assert(sx * (x1 - (x + sx)) == ax - 1) by (nonlinear_arith)
            requires
                sx == 1 || sx == -1,
                ax == sx * (x1 - x),
        ;
        assert(d * (ax - 1) == d * ax - d) by (nonlinear_arith);
    }
    if e2 <= dx {
        assert(sy * (y1 - (y + sy)) == ay - 1) by (nonlinear_arith)
            requires
                sy == 1 || sy == -1,
                ay == sy * (y1 - y),
        ;
        assert(dx * (ay - 1) == dx * ay - dx) by (nonlinear_arith);
    }
}

proof fn lemma_reaches_unique(x0: int, y0: int, x1: int, y1: int, n: nat, m: nat)
    requires
        line_reaches(x0, y0, x1, y1, n),
        line_reaches(x0, y0, x1, y1, m),
    ensures
        n == m,
{
    if n < m {
        assert(line_pos(x0, y0, x1, y1, n) != (x1, y1));
    }
    if m < n {
        assert(line_pos(x0, y0, x1, y1, m) != (x1, y1));
    }
}

/// A drawn line has no gaps: each dot of the walk is next to the one before
/// it (at most one column and one row away).
pub proof fn lemma_line_continuous(x0: int, y0: int, x1: int, y1: int, k: nat)
    ensures
        -1 <= line_pos(x0, y0, x1, y1, k + 1).0 - line_pos(x0, y0, x1, y1, k).0 <= 1,
        -1 <= line_pos(x0, y0, x1, y1, k + 1).1 - line_pos(x0, y0, x1, y1, k).1 <= 1,
{
    assert(line_at(x0, y0, x1, y1, k + 1) == {
        let (x, y, err) = line_at(x0, y0, x1, y1, k);
        let dx = line_dx(x0, x1);
        let dy = line_dy(y0, y1);
        let e2 = 2 * err;
        let (err1, nx) = if e2 >= dy { (err + dy, x + line_sx(x0, x1)) } else { (err, x) };
        let (err2, ny) = if e2 <= dx { (err1 + dx, y + line_sy(y0, y1)) } else { (err1, y) };
        (nx, ny, err2)
    });
}

/// Coordinate `axis` (0 for the column, 1 for the row) of dot `k`.
pub open spec fn line_coord(x0: int, y0: int, x1: int, y1: int, k: nat, axis: int) -> int {
    if axis == 0 { line_pos(x0, y0, x1, y1, k).0 } else { line_pos(x0, y0, x1, y1, k).1 }
}

/// Every value between the coordinate at the start and at step `m` is taken
/// at some step up to `m`.
proof fn lemma_coord_between(x0: int, y0: int, x1: int, y1: int, m: nat, axis: int, v: int)
    requires
        (line_coord(x0, y0, x1, y1, 0, axis) <= v <= line_coord(x0, y0, x1, y1, m, axis)) || (line_coord(
            x0,
            y0,
            x1,
            y1,
            m,
            axis,
        ) <= v <= line_coord(x0, y0, x1, y1, 0, axis)),
    ensures
        exists|k: nat| k <= m && #[trigger] line_coord(x0, y0, x1, y1, k, axis) == v,
    decreases m,
{
    if m == 0 {
        assert(line_coord(x0, y0, x1, y1, 0, axis) == v);
    } else {
        let p = (m - 1) as nat;
        lemma_line_continuous(x0, y0, x1, y1, p);
        let a = line_coord(x0, y0, x1, y1, 0, axis);
        let c = line_coord(x0, y0, x1, y1, p, axis);
        let d = line_coord(x0, y0, x1, y1, m, axis);
        if v == d {
            assert(line_coord(x0, y0, x1, y1, m, axis) == v);
        } else {
            assert((a <= v <= c) || (c <= v <= a));
            lemma_coord_between(x0, y0, x1, y1, p, axis, v);
            let k = choose|k: nat| k <= p && #[trigger] line_coord(x0, y0, x1, y1, k, axis) == v;
            assert(k <= m && line_coord(x0, y0, x1, y1, k, axis) == v);
        }
    }
}

/// A drawn line crosses every column and every row between its ends: for
/// each row between `y0` and `y1` there is a dot of the walk on it, and
/// for each column between `x0` and `x1` too.
pub proof fn lemma_line_covers_span(x0: int, y0: int, x1: int, y1: int, n: nat, v: int, axis: int)
    requires
        line_reaches(x0, y0, x1, y1, n),
        axis == 0 ==> (x0 <= v <= x1 || x1 <= v <= x0),
        axis != 0 ==> (y0 <= v <= y1 || y1 <= v <= y0),
    ensures
        exists|k: nat| k <= n && #[trigger] line_coord(x0, y0, x1, y1, k, axis) == v,
{
    assert(line_at(x0, y0, x1, y1, 0).0 == x0 && line_at(x0, y0, x1, y1, 0).1 == y0);
    assert(line_pos(x0, y0, x1, y1, n) == (x1, y1));
    lemma_coord_between(x0, y0, x1, y1, n, axis, v);
}

} // verus!
