//! Clickable web link (`Hyperlink`).
//!
//! A text and a URL. In the buffer it is drawn as coloured bold text (a
//! fallback visible on any terminal); for modern terminals
//! `osc8_sequence()` builds the OSC 8 escape
//! (`\x1b]8;;URL\x1b\\TEXT\x1b]8;;\x1b\\`) that the terminal turns into a
//! clickable link.
//!
//! Two paths because the `Buffer` is a grid of cells (one character and
//! colours each) and cannot carry zero-width escapes: the OSC 8 goes out
//! on the raw output path while the buffer shows the same text styled. It
//! exposes the four common parameters (`foreground_color`,
//! `background_color`, `border_color`, `has_shadow`).

use vstd::prelude::*;

use crate::engine::buffer::{Buffer, Grid, paint_end, paint_run, paint_seq};
use crate::engine::cell::Cell;
use crate::engine::color::{Attr, Color};
use crate::engine::rect::sat_add;
use crate::prim::label::draw_text;
use crate::text::str_concat;
use crate::widgets::checkradio::{blend_at, blend_below};

verus! {

/// Link: text and URL.
#[derive(Clone, Debug)]
pub struct Hyperlink {
    pub text: String,
    pub url: String,
    pub foreground_color: Color,
    pub background_color: Color,
    pub border_color: Option<Color>,
    pub has_shadow: bool,
    /// Simulated underline in the buffer (a second pass, see the draw).
    pub underline: bool,
}

/// The OSC 8 escape for a link: `ESC ] 8 ; ; URL ESC \ TEXT ESC ] 8 ; ;
/// ESC \`.
pub open spec fn osc8_spec(url: Seq<char>, text: Seq<char>) -> Seq<char> {
    seq!['\u{1b}', ']', '8', ';', ';'] + url + seq!['\u{1b}', '\\'] + text + seq![
        '\u{1b}',
        ']',
        '8',
        ';',
        ';',
        '\u{1b}',
        '\\',
    ]
}

impl Hyperlink {
    /// A blue-on-white underlined link without border or shadow.
    pub fn new(text: &str, url: &str) -> (r: Self)
        ensures
            r.text@ == text@,
            r.url@ == url@,
            r.foreground_color == Color::Blue,
            r.background_color == Color::White,
            r.border_color is None,
            !r.has_shadow,
            r.underline,
    {
        Hyperlink {
            text: text.to_owned(),
            url: url.to_owned(),
            foreground_color: Color::Blue,
            background_color: Color::White,
            border_color: None,
            has_shadow: false,
            underline: true,
        }
    }

    /// The raw OSC 8 escape, for direct output.
    pub fn osc8_sequence(&self) -> (r: String)
        ensures
            r@ == osc8_spec(self.url@, self.text@),
    {
        let open = crate::text::string_from_chars(&vec!['\u{1b}', ']', '8', ';', ';']);
        let mid = crate::text::string_from_chars(&vec!['\u{1b}', '\\']);
        let close = crate::text::string_from_chars(&vec!['\u{1b}', ']', '8', ';', ';', '\u{1b}', '\\']);
        let a = str_concat(open.as_str(), self.url.as_str());
        let b = str_concat(a.as_str(), mid.as_str());
        let c = str_concat(b.as_str(), self.text.as_str());
        let r = str_concat(c.as_str(), close.as_str());
        assert(r@ =~= osc8_spec(self.url@, self.text@));
        r
    }
}

/// The first `k` cells from `x` on row `y` made bold (outside the grid:
/// nothing).
pub open spec fn embolden(g: Grid, x: int, y: int, k: int) -> Grid
    decreases k,
{
    if k <= 0 {
        g
    } else {
        let g1 = embolden(g, x, y, k - 1);
        let cx = sat_add(x, k - 1);
        if g1.in_bounds(cx, y) {
            let c = (g1.at)(cx, y);
            g1.set(cx, y, Cell { bold: true, ..c })
        } else {
            g1
        }
    }
}

/// The link drawn at `(x, y)` and its width: bold text in its colours,
/// the underline pass, and the shadow row below.
pub open spec fn hyperlink_grid(g: Grid, x: int, y: int, link: Hyperlink) -> (Grid, int) {
    let a = Attr { fg: link.foreground_color, bg: link.background_color, bold: true, dim: false };
    let cells = paint_seq(link.text@, a);
    let w = paint_end(g.w, x, cells, false) - x;
    let g1 = paint_run(g, x, y, cells, false);
    let g2 = if link.underline { embolden(g1, x, y, w) } else { g1 };
    (if link.has_shadow { blend_below(g2, x, y, w) } else { g2 }, w)
}

/// Draws the text in link style (colour and simulated underline);
/// returns the width taken.
pub fn hyperlink_draw(buf: &mut Buffer, x: u16, y: u16, link: &Hyperlink) -> (r: u16)
    requires
        old(buf).wf(),
    ensures
        final(buf).wf(),
        (final(buf)@, r as int) == hyperlink_grid(old(buf)@, x as int, y as int, *link),
{
    let attr = Attr { fg: link.foreground_color, bg: link.background_color, bold: true, dim: false };
    let w = draw_text(buf, x, y, link.text.as_str(), attr);
    if link.underline {
        let ghost g1 = buf@;
        let mut i: u16 = 0;
        while i < w
            invariant
                buf.wf(),
                i <= w,
                buf@ == embolden(g1, x as int, y as int, i as int),
            decreases w - i,
        {
            let cx = x.saturating_add(i);
            match buf.get(cx, y) {
                Some(c) => {
                    buf.set(cx, y, Cell { bold: true, ..c });
                },
                None => {},
            }
            i += 1;
        }
    }
    if link.has_shadow {
        let ghost g2 = buf@;
        let mut i: u16 = 0;
        while i < w
            invariant
                buf.wf(),
                i <= w,
                buf@ == blend_below(g2, x as int, y as int, i as int),
            decreases w - i,
        {
            blend_at(buf, x.saturating_add(i).saturating_add(1), y.saturating_add(1));
            i += 1;
        }
    }
    w
}

} // verus!
