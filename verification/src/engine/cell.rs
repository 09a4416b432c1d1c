//! One cell of the virtual text screen: a character plus its attribute.

use vstd::prelude::*;

use super::color::{Attr, Color};

verus! {

/// One position of the character grid.
#[derive(Clone, Copy, PartialEq, Eq, Debug, Structural)]
pub struct Cell {
    pub ch: char,
    pub fg: Color,
    pub bg: Color,
    pub bold: bool,
    pub dim: bool,
}

impl Cell {
    pub open spec fn spec_new(ch: char, fg: Color, bg: Color) -> Cell {
        Cell { ch, fg, bg, bold: false, dim: false }
    }

    pub open spec fn spec_with_attr(ch: char, attr: Attr) -> Cell {
        Cell { ch, fg: attr.fg, bg: attr.bg, bold: attr.bold, dim: attr.dim }
    }

    pub open spec fn spec_blank(bg: Color) -> Cell {
        Cell { ch: ' ', fg: bg, bg, bold: false, dim: false }
    }

    #[verifier::when_used_as_spec(spec_new)]
    pub fn new(ch: char, fg: Color, bg: Color) -> (r: Self)
        ensures
            r == Cell::spec_new(ch, fg, bg),
    {
        Cell { ch, fg, bg, bold: false, dim: false }
    }

    pub fn bold(ch: char, fg: Color, bg: Color) -> (r: Self)
        ensures
            r == (Cell { ch, fg, bg, bold: true, dim: false }),
    {
        Cell { ch, fg, bg, bold: true, dim: false }
    }

    #[verifier::when_used_as_spec(spec_with_attr)]
    pub fn with_attr(ch: char, attr: Attr) -> (r: Self)
        ensures
            r == Cell::spec_with_attr(ch, attr),
    {
        Cell { ch, fg: attr.fg, bg: attr.bg, bold: attr.bold, dim: attr.dim }
    }

    /// Empty cell (a space in the background colour, fg = bg).
    #[verifier::when_used_as_spec(spec_blank)]
    pub fn blank(bg: Color) -> (r: Self)
        ensures
            r == Cell::spec_blank(bg),
    {
        Cell { ch: ' ', fg: bg, bg, bold: false, dim: false }
    }

    pub open spec fn spec_attr(&self) -> Attr {
        Attr { fg: self.fg, bg: self.bg, bold: self.bold, dim: self.dim }
    }

    #[verifier::when_used_as_spec(spec_attr)]
    pub fn attr(&self) -> (r: Attr)
        ensures
            r == self.spec_attr(),
    {
        Attr { fg: self.fg, bg: self.bg, bold: self.bold, dim: self.dim }
    }
}

} // verus!
