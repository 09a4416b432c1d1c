//! Thin separators between menu groups (`─` in the popup's ink).

use vstd::prelude::*;

use crate::engine::buffer::Buffer;
use crate::engine::cell::Cell;
use crate::engine::color::Color;

verus! {

/// Thin horizontal line over `x0..=x1` on row `y` (clipped to the buffer).
pub fn hsep(buf: &mut Buffer, y: u16, x0: u16, x1: u16, fg: Color, bg: Color)
    requires
        old(buf).wf(),
    ensures
        final(buf).wf(),
        final(buf)@ == old(buf)@.hline(y as int, x0 as int, x1 as int, Cell::spec_new('─', fg, bg)),
{
    buf.hline(y, x0, x1, '─', fg, bg);
}

} // verus!
