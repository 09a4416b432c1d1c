//! Shell layout: bars and working area.
//!
//! Fixed, predictable geometry on 80x25; on tiny terminals it degrades
//! without panicking (the area may be left empty, never negative).

use vstd::prelude::*;

use crate::engine::rect::{Rect, min16, min_int, sat_add, sat_sub};

verus! {

/// The zones of the classic shell.
#[derive(Clone, Copy, Debug, PartialEq, Eq, Structural)]
pub struct DesktopLayout {
    pub top: Rect,
    pub menu: Rect,
    pub work: Rect,
    pub fkeys: Rect,
    pub status: Rect,
}

/// `screen` split into top (1 row), menu (1), work (the rest), function
/// keys (1) and status (1); menu, work and function keys are inset by one
/// column on each side. Rows that do not fit are empty rectangles at the
/// screen's corner.
pub open spec fn desktop_spec(screen: Rect) -> DesktopLayout {
    let (x, y, w, h) = (screen.x as int, screen.y as int, screen.w as int, screen.h as int);
    let ix = min_int(sat_add(x, 1), sat_add(x, w));
    let iw = sat_sub(w, 2);
    let none = Rect { x: screen.x, y: screen.y, w: 0, h: 0 };
    DesktopLayout {
        top: Rect { x: screen.x, y: screen.y, w: screen.w, h: min_int(h, 1) as u16 },
        menu: if h > 1 {
            Rect { x: ix as u16, y: sat_add(y, 1) as u16, w: iw as u16, h: 1 }
        } else {
            none
        },
        work: Rect {
            x: ix as u16,
            y: min_int(sat_add(y, 2), sat_add(y, h)) as u16,
            w: iw as u16,
            h: sat_sub(h, 4) as u16,
        },
        fkeys: if h > 2 {
            Rect { x: ix as u16, y: sat_sub(sat_add(y, h), 2) as u16, w: iw as u16, h: 1 }
        } else {
            none
        },
        status: if h > 1 {
            Rect { x: screen.x, y: sat_sub(sat_add(y, h), 1) as u16, w: screen.w, h: 1 }
        } else {
            none
        },
    }
}

/// Splits `screen` into the shell's zones.
pub fn desktop(screen: Rect) -> (r: DesktopLayout)
    ensures
        r == desktop_spec(screen),
{
    let x = screen.x;
    let y = screen.y;
    let w = screen.w;
    let h = screen.h;
    let ix = min16(x.saturating_add(1), x.saturating_add(w));
    let iw = w.saturating_sub(2);
    let top = Rect::new(x, y, w, min16(h, 1));
    let menu = if h > 1 {
        Rect::new(ix, y.saturating_add(1), iw, 1)
    } else {
        Rect::new(x, y, 0, 0)
    };
    let status = if h > 1 {
        Rect::new(x, y.saturating_add(h).saturating_sub(1), w, 1)
    } else {
        Rect::new(x, y, 0, 0)
    };
    let fkeys = if h > 2 {
        Rect::new(ix, y.saturating_add(h).saturating_sub(2), iw, 1)
    } else {
        Rect::new(x, y, 0, 0)
    };
    let wy = min16(y.saturating_add(2), y.saturating_add(h));
    let work = Rect::new(ix, wy, iw, h.saturating_sub(4));
    DesktopLayout { top, menu, work, fkeys, status }
}

/// `r` lies within `screen`.
pub open spec fn inside(r: Rect, screen: Rect) -> bool {
    &&& screen.x <= r.x
    &&& screen.y <= r.y
    &&& r.x + r.w <= screen.x + screen.w
    &&& r.y + r.h <= screen.y + screen.h
}

/// No zone leaves the screen, whatever its size (a screen that does not
/// reach the edge of the coordinate space); on a screen of four rows or
/// more the rows of the zones do not overlap: top, menu, work, function
/// keys and status follow one another.
pub proof fn lemma_desktop_inside(screen: Rect)
    requires
        screen.x + screen.w <= u16::MAX,
        screen.y + screen.h <= u16::MAX,
    ensures
        ({
            let d = desktop_spec(screen);
            &&& inside(d.top, screen)
            &&& inside(d.menu, screen)
            &&& inside(d.work, screen)
            &&& inside(d.fkeys, screen)
            &&& inside(d.status, screen)
            &&& screen.h >= 4 ==> {
                &&& d.top.y + d.top.h <= d.menu.y
                &&& d.menu.y + d.menu.h <= d.work.y
                &&& d.work.y + d.work.h <= d.fkeys.y
                &&& d.fkeys.y + d.fkeys.h <= d.status.y
            }
        }),
{
}

/// A `w x h` window centred in `screen`.
pub fn centered(w: u16, h: u16, screen: Rect) -> (r: Rect)
    requires
        Rect::centered_fits(w, h, screen),
    ensures
        r == Rect::spec_centered_in(w, h, screen),
{
    Rect::centered_in(w, h, screen)
}

/// A popup anchored under `(x, y)` and kept on screen.
pub fn popup(x: u16, y: u16, w: u16, h: u16, screen: Rect) -> (r: Rect)
    ensures
        r == Rect::spec_popup_at(x, y, w, h, screen),
{
    Rect::popup_at(x, y, w, h, screen)
}

} // verus!
