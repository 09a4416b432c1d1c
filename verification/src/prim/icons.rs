//! Icons of one to four cells: folders, drives and window boxes.

use vstd::prelude::*;

use crate::engine::buffer::{Buffer, Grid};
use crate::engine::cell::Cell;
use crate::engine::color::{Attr, Color};
use crate::engine::rect::sat_add;
use crate::text::{ascii_upper, to_ascii_upper};

verus! {

/// Folder glyphs, configurable by the developer (Nerd Fonts by default).
#[derive(Clone, Copy, Debug)]
pub struct FolderGlyphs {
    pub closed: char,
    pub open: char,
}

impl FolderGlyphs {
    /// Nerd Fonts: U+F07B (closed) / U+F07C (open).
    pub fn nerd() -> (r: Self)
        ensures
            r.closed == '\u{f07b}' && r.open == '\u{f07c}',
    {
        FolderGlyphs { closed: '\u{f07b}', open: '\u{f07c}' }
    }

    /// Safe glyphs only: `►` / `▼`.
    pub fn ascii() -> (r: Self)
        ensures
            r.closed == '►' && r.open == '▼',
    {
        FolderGlyphs { closed: '►', open: '▼' }
    }
}

impl Default for FolderGlyphs {
    fn default() -> (r: Self)
        ensures
            r.closed == '\u{f07b}' && r.open == '\u{f07c}',
    {
        Self::nerd()
    }
}

/// One-cell folder (`attr` gives the background, `accent` the glyph).
/// Returns the width taken (1).
pub fn folder(
    buf: &mut Buffer,
    x: u16,
    y: u16,
    open: bool,
    attr: Attr,
    accent: Color,
    glyphs: FolderGlyphs,
) -> (r: u16)
    requires
        old(buf).wf(),
    ensures
        final(buf).wf(),
        final(buf)@ == old(buf)@.set(
            x as int,
            y as int,
            Cell::spec_new(if open { glyphs.open } else { glyphs.closed }, accent, attr.bg),
        ),
        r == 1,
{
    let g = if open { glyphs.open } else { glyphs.closed };
    buf.set(x, y, Cell::new(g, accent, attr.bg));
    1
}

/// `[`, `mid` in `accent`, `]` from column `x` (the boxes of the title bars).
pub open spec fn boxed(g: Grid, x: int, y: int, mid: char, attr: Attr, accent: Color) -> Grid {
    g.set(x, y, Cell::spec_with_attr('[', attr)).set(
        sat_add(x, 1),
        y,
        Cell::spec_with_attr(mid, Attr { fg: accent, ..attr }),
    ).set(sat_add(x, 2), y, Cell::spec_with_attr(']', attr))
}

/// Drive `[C:]` with the letter in the accent colour. Returns 4.
pub fn drive(buf: &mut Buffer, x: u16, y: u16, letter: char, attr: Attr, accent: Color) -> (r: u16)
    requires
        old(buf).wf(),
    ensures
        final(buf).wf(),
        final(buf)@ == old(buf)@.set(x as int, y as int, Cell::spec_with_attr('[', attr)).set(
            sat_add(x as int, 1),
            y as int,
            Cell::spec_with_attr(ascii_upper(letter), Attr { fg: accent, ..attr }),
        ).set(sat_add(x as int, 2), y as int, Cell::spec_with_attr(':', attr)).set(
            sat_add(x as int, 3),
            y as int,
            Cell::spec_with_attr(']', attr),
        ),
        r == 4,
{
    let up = to_ascii_upper(letter);
    buf.set(x, y, Cell::with_attr('[', attr));
    buf.set(x.saturating_add(1), y, Cell::with_attr(up, Attr { fg: accent, ..attr }));
    buf.set(x.saturating_add(2), y, Cell::with_attr(':', attr));
    buf.set(x.saturating_add(3), y, Cell::with_attr(']', attr));
    4
}

/// Close box `[■]` for title bars at `(x, y)`. Returns 3.
pub fn win_close(buf: &mut Buffer, x: u16, y: u16, attr: Attr, accent: Color) -> (r: u16)
    requires
        old(buf).wf(),
    ensures
        final(buf).wf(),
        final(buf)@ == boxed(old(buf)@, x as int, y as int, '\u{25a0}', attr, accent),
        r == 3,
{
    buf.set(x, y, Cell::with_attr('[', attr));
    buf.set(x.saturating_add(1), y, Cell::with_attr('\u{25a0}', Attr { fg: accent, ..attr }));
    buf.set(x.saturating_add(2), y, Cell::with_attr(']', attr));
    3
}

/// Minimise box `[-]` for title bars. Returns 3.
pub fn win_min(buf: &mut Buffer, x: u16, y: u16, attr: Attr) -> (r: u16)
    requires
        old(buf).wf(),
    ensures
        final(buf).wf(),
        final(buf)@ == boxed(old(buf)@, x as int, y as int, '-', attr, attr.fg),
        r == 3,
{
    buf.set(x, y, Cell::with_attr('[', attr));
    buf.set(x.saturating_add(1), y, Cell::with_attr('-', attr));
    buf.set(x.saturating_add(2), y, Cell::with_attr(']', attr));
    3
}

} // verus!
