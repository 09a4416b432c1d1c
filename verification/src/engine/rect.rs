//! Screen rectangles and responsive layout, in cell coordinates (u16).

use vstd::prelude::*;

verus! {

/// `a + b` saturated at `u16::MAX`, as `u16::saturating_add` computes it.
pub open spec fn sat_add(a: int, b: int) -> int {
    if a + b > u16::MAX { u16::MAX as int } else { a + b }
}

/// `a - b` saturated at zero, as `u16::saturating_sub` computes it.
pub open spec fn sat_sub(a: int, b: int) -> int {
    if a - b < 0 { 0 } else { a - b }
}

pub open spec fn min_int(a: int, b: int) -> int {
    if a <= b { a } else { b }
}

pub open spec fn max_int(a: int, b: int) -> int {
    if a >= b { a } else { b }
}

/// `v` clamped into `[lo, hi]` (with `lo <= hi`).
pub open spec fn clamp_int(v: int, lo: int, hi: int) -> int {
    if v < lo { lo } else if v > hi { hi } else { v }
}

pub fn min16(a: u16, b: u16) -> (r: u16)
    ensures r == min_int(a as int, b as int),
{
    if a <= b { a } else { b }
}

pub fn max16(a: u16, b: u16) -> (r: u16)
    ensures r == max_int(a as int, b as int),
{
    if a >= b { a } else { b }
}

/// Half-open rectangle `[x, x+w) x [y, y+h)`.
#[derive(Clone, Copy, PartialEq, Eq, Debug, Structural)]
pub struct Rect {
    pub x: u16,
    pub y: u16,
    pub w: u16,
    pub h: u16,
}

impl Rect {
    pub open spec fn spec_new(x: u16, y: u16, w: u16, h: u16) -> Rect {
        Rect { x, y, w, h }
    }

    pub open spec fn spec_is_empty(self) -> bool {
        self.w == 0 || self.h == 0
    }

    pub open spec fn spec_right(self) -> u16 {
        sat_add(self.x as int, self.w as int) as u16
    }

    pub open spec fn spec_bottom(self) -> u16 {
        sat_add(self.y as int, self.h as int) as u16
    }

    pub open spec fn spec_contains(self, x: int, y: int) -> bool {
        self.x <= x < self.spec_right() && self.y <= y < self.spec_bottom()
    }

    pub open spec fn spec_intersect(self, other: Rect) -> Option<Rect> {
        let x = max_int(self.x as int, other.x as int);
        let y = max_int(self.y as int, other.y as int);
        let r = min_int(self.spec_right() as int, other.spec_right() as int);
        let b = min_int(self.spec_bottom() as int, other.spec_bottom() as int);
        if r > x && b > y {
            Some(Rect { x: x as u16, y: y as u16, w: (r - x) as u16, h: (b - y) as u16 })
        } else {
            None
        }
    }

    pub open spec fn spec_shrink(self, n: u16) -> Rect {
        let n2 = if 2 * n > u16::MAX { u16::MAX as int } else { 2 * n };
        Rect {
            x: sat_add(self.x as int, n as int) as u16,
            y: sat_add(self.y as int, n as int) as u16,
            w: sat_sub(self.w as int, n2) as u16,
            h: sat_sub(self.h as int, n2) as u16,
        }
    }

    pub open spec fn spec_clamp_in(self, bounds: Rect) -> Rect {
        if self.spec_is_empty() || bounds.spec_is_empty() {
            Rect { x: bounds.x, y: bounds.y, w: 0, h: 0 }
        } else {
            let w = min_int(self.w as int, bounds.w as int);
            let h = min_int(self.h as int, bounds.h as int);
            let max_x = sat_add(bounds.x as int, bounds.w - w);
            let max_y = sat_add(bounds.y as int, bounds.h - h);
            Rect {
                x: clamp_int(self.x as int, bounds.x as int, max_x) as u16,
                y: clamp_int(self.y as int, bounds.y as int, max_y) as u16,
                w: w as u16,
                h: h as u16,
            }
        }
    }

    pub open spec fn spec_centered_in(w: u16, h: u16, bounds: Rect) -> Rect {
        if bounds.spec_is_empty() {
            Rect { x: 0, y: 0, w: 0, h: 0 }
        } else {
            let w2 = min_int(w as int, bounds.w as int);
            let h2 = min_int(h as int, bounds.h as int);
            Rect {
                x: (bounds.x + (bounds.w - w2) / 2) as u16,
                y: (bounds.y + (bounds.h - h2) / 2) as u16,
                w: w2 as u16,
                h: h2 as u16,
            }
        }
    }

    /// The centred origin fits in `u16` (the arithmetic that computes it
    /// does not overflow).
    pub open spec fn centered_fits(w: u16, h: u16, bounds: Rect) -> bool {
        !bounds.spec_is_empty() ==> {
            &&& bounds.x + (bounds.w - min_int(w as int, bounds.w as int)) / 2 <= u16::MAX
            &&& bounds.y + (bounds.h - min_int(h as int, bounds.h as int)) / 2 <= u16::MAX
        }
    }

    pub open spec fn spec_popup_at(ax: u16, ay: u16, w: u16, h: u16, screen: Rect) -> Rect {
        Rect { x: ax, y: sat_add(ay as int, 1) as u16, w, h }.spec_clamp_in(screen)
    }

    #[verifier::when_used_as_spec(spec_new)]
    pub fn new(x: u16, y: u16, w: u16, h: u16) -> (r: Self)
        ensures
            r == Rect::spec_new(x, y, w, h),
    {
        Rect { x, y, w, h }
    }

    #[verifier::when_used_as_spec(spec_is_empty)]
    pub fn is_empty(self) -> (r: bool)
        ensures
            r == self.spec_is_empty(),
    {
        self.w == 0 || self.h == 0
    }

    /// First column past the right edge (saturating).
    #[verifier::when_used_as_spec(spec_right)]
    pub fn right(self) -> (r: u16)
        ensures
            r == self.spec_right(),
    {
        self.x.saturating_add(self.w)
    }

    /// First row past the bottom edge (saturating).
    #[verifier::when_used_as_spec(spec_bottom)]
    pub fn bottom(self) -> (r: u16)
        ensures
            r == self.spec_bottom(),
    {
        self.y.saturating_add(self.h)
    }

    pub fn contains(self, x: u16, y: u16) -> (r: bool)
        ensures
            r == self.spec_contains(x as int, y as int),
    {
        x >= self.x && x < self.right() && y >= self.y && y < self.bottom()
    }

    /// Intersection with another rectangle (for clipping); `None` when they
    /// do not overlap.
    #[verifier::when_used_as_spec(spec_intersect)]
    pub fn intersect(self, other: Rect) -> (r: Option<Rect>)
        ensures
            r == self.spec_intersect(other),
    {
        let x = max16(self.x, other.x);
        let y = max16(self.y, other.y);
        let r = min16(self.right(), other.right());
        let b = min16(self.bottom(), other.bottom());
        if r > x && b > y {
            Some(Rect { x, y, w: r - x, h: b - y })
        } else {
            None
        }
    }

    /// Shrinks by `n` cells on every side (inner frame), saturating at 0.
    #[verifier::when_used_as_spec(spec_shrink)]
    pub fn shrink(self, n: u16) -> (r: Rect)
        ensures
            r == self.spec_shrink(n),
    {
        let n2: u16 = if n > 32767 { u16::MAX } else { n * 2 };
        Rect {
            x: self.x.saturating_add(n),
            y: self.y.saturating_add(n),
            w: self.w.saturating_sub(n2),
            h: self.h.saturating_sub(n2),
        }
    }

    /// Moves and shrinks `self` so that it fits inside `bounds`; larger than
    /// `bounds`, it is cut to the size of `bounds`.
    #[verifier::when_used_as_spec(spec_clamp_in)]
    pub fn clamp_in(self, bounds: Rect) -> (r: Rect)
        ensures
            r == self.spec_clamp_in(bounds),
    {
        if self.is_empty() || bounds.is_empty() {
            return Rect::new(bounds.x, bounds.y, 0, 0);
        }
        let w = min16(self.w, bounds.w);
        let h = min16(self.h, bounds.h);
        let max_x = bounds.x.saturating_add(bounds.w - w);
        let max_y = bounds.y.saturating_add(bounds.h - h);
        let x = if self.x < bounds.x { bounds.x } else if self.x > max_x { max_x } else { self.x };
        let y = if self.y < bounds.y { bounds.y } else if self.y > max_y { max_y } else { self.y };
        Rect { x, y, w, h }
    }

    /// A `w x h` rectangle centred in `bounds` (clamped for safety).
    #[verifier::when_used_as_spec(spec_centered_in)]
    pub fn centered_in(w: u16, h: u16, bounds: Rect) -> (r: Rect)
        requires
            Rect::centered_fits(w, h, bounds),
        ensures
            r == Rect::spec_centered_in(w, h, bounds),
    {
        if bounds.is_empty() {
            return Rect::new(0, 0, 0, 0);
        }
        let w = min16(w, bounds.w);
        let h = min16(h, bounds.h);
        Rect { x: bounds.x + (bounds.w - w) / 2, y: bounds.y + (bounds.h - h) / 2, w, h }
    }

    /// Popup anchored under a point (a menubar title, say): opens down and
    /// right and is brought on screen with `clamp_in`.
    #[verifier::when_used_as_spec(spec_popup_at)]
    pub fn popup_at(ax: u16, ay: u16, w: u16, h: u16, screen: Rect) -> (r: Rect)
        ensures
            r == Rect::spec_popup_at(ax, ay, w, h, screen),
    {
        Rect::new(ax, ay.saturating_add(1), w, h).clamp_in(screen)
    }
}

/// Clipping law: a point lies in the intersection of two rectangles exactly
/// when it lies in both.
pub proof fn lemma_intersect_contains(a: Rect, b: Rect, px: int, py: int)
    ensures
        match a.spec_intersect(b) {
            Some(i) => i.spec_contains(px, py) <==> (a.spec_contains(px, py) && b.spec_contains(
                px,
                py,
            )),
            None => !(a.spec_contains(px, py) && b.spec_contains(px, py)),
        },
{
}

/// Intersection does not depend on the order of its operands.
pub proof fn lemma_intersect_commutes(a: Rect, b: Rect)
    ensures
        a.spec_intersect(b) == b.spec_intersect(a),
{
}

/// `clamp_in` keeps a non-empty rectangle inside non-empty bounds, with the
/// size cut to the bounds; a rectangle that already fits is left alone.
pub proof fn lemma_clamp_in_stays_inside(r: Rect, bounds: Rect)
    requires
        !r.spec_is_empty(),
        !bounds.spec_is_empty(),
        bounds.x + bounds.w <= u16::MAX,
        bounds.y + bounds.h <= u16::MAX,
    ensures
        ({
            let c = r.spec_clamp_in(bounds);
            &&& bounds.x <= c.x
            &&& bounds.y <= c.y
            &&& c.spec_right() <= bounds.spec_right()
            &&& c.spec_bottom() <= bounds.spec_bottom()
            &&& c.w == min_int(r.w as int, bounds.w as int)
            &&& c.h == min_int(r.h as int, bounds.h as int)
            &&& (bounds.x <= r.x && r.x + r.w <= bounds.x + bounds.w && bounds.y <= r.y && r.y + r.h
                <= bounds.y + bounds.h) ==> c == r
        }),
{
}

/// `centered_in` stays inside non-empty bounds.
pub proof fn lemma_centered_in_stays_inside(w: u16, h: u16, bounds: Rect)
    requires
        !bounds.spec_is_empty(),
        bounds.x + bounds.w <= u16::MAX,
        bounds.y + bounds.h <= u16::MAX,
    ensures
        ({
            let c = Rect::spec_centered_in(w, h, bounds);
            &&& bounds.x <= c.x
            &&& bounds.y <= c.y
            &&& c.x + c.w <= bounds.x + bounds.w
            &&& c.y + c.h <= bounds.y + bounds.h
        }),
{
}

/// `centered_in` centres: the space left of the rectangle and the space
/// right of it differ by at most one cell (the extra cell on the right), and
/// likewise above and below; the size is cut to the bounds.
pub proof fn lemma_centered_margins(w: u16, h: u16, bounds: Rect)
    requires
        !bounds.spec_is_empty(),
        bounds.x + bounds.w <= u16::MAX,
        bounds.y + bounds.h <= u16::MAX,
    ensures
        ({
            let c = Rect::spec_centered_in(w, h, bounds);
            let left = c.x - bounds.x;
            let right = (bounds.x + bounds.w) - (c.x + c.w);
            let above = c.y - bounds.y;
            let below = (bounds.y + bounds.h) - (c.y + c.h);
            &&& c.w == min_int(w as int, bounds.w as int) && c.h == min_int(h as int, bounds.h as int)
            &&& left <= right <= left + 1
            &&& above <= below <= above + 1
        }),
{
}

/// A popup opens on the row below its anchor, at the anchor's column, when
/// it fits on the screen there; it always stays on a non-empty screen.
pub proof fn lemma_popup_below_anchor(ax: u16, ay: u16, w: u16, h: u16, screen: Rect)
    requires
        w > 0 && h > 0,
        !screen.spec_is_empty(),
        screen.x + screen.w <= u16::MAX,
        screen.y + screen.h <= u16::MAX,
    ensures
        ({
            let p = Rect::spec_popup_at(ax, ay, w, h, screen);
            &&& screen.x <= ax && ax + w <= screen.x + screen.w && screen.y <= ay + 1 && ay + 1 + h <= screen.y
                + screen.h ==> p == Rect::spec_new(ax, (ay + 1) as u16, w, h)
            &&& screen.x <= p.x && p.x + p.w <= screen.x + screen.w
            &&& screen.y <= p.y && p.y + p.h <= screen.y + screen.h
        }),
{
    lemma_clamp_in_stays_inside(Rect { x: ax, y: sat_add(ay as int, 1) as u16, w, h }, screen);
}

} // verus!
