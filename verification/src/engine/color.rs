//! VGA palette colour and cell attribute (fg/bg/bold/dim).

use vstd::prelude::*;

verus! {

/// Base palette: the sixteen-colour text mode of the era.
#[derive(Clone, Copy, PartialEq, Eq, Debug, Structural)]
pub enum Color {
    Black,
    Navy,
    Blue,
    Teal,
    Cyan,
    DarkGrey,
    Grey,
    White,
    Yellow,
    Mint,
    Red,
    Green,
}

/// Foreground/background/bold/dim, ready to paint a cell or a span.
#[derive(Clone, Copy, PartialEq, Eq, Debug, Structural)]
pub struct Attr {
    pub fg: Color,
    pub bg: Color,
    pub bold: bool,
    pub dim: bool,
}

impl Attr {
    pub fn new(fg: Color, bg: Color) -> (r: Self)
        ensures
            r == (Attr { fg, bg, bold: false, dim: false }),
    {
        Attr { fg, bg, bold: false, dim: false }
    }

    pub fn bold(fg: Color, bg: Color) -> (r: Self)
        ensures
            r == (Attr { fg, bg, bold: true, dim: false }),
    {
        Attr { fg, bg, bold: true, dim: false }
    }

    /// ANSI faint (`\x1b[2m`): ghost shadows.
    pub fn faint(fg: Color, bg: Color) -> (r: Self)
        ensures
            r == (Attr { fg, bg, bold: false, dim: true }),
    {
        Attr { fg, bg, bold: false, dim: true }
    }
}

} // verus!
