//! DOS-era windows: block + title bar + shadow + CP437 frames.
//!
//! `BorderStyle::Flat` is the classic flat block (title on its own bar, no
//! box drawing). `Single`/`Double` dress the edge with a CP437 box (title
//! set into the top line) and `Bevel3D` gives the mechanical bevel of PC
//! Tools (light top/left edges, dark bottom/right). The geometry does not
//! change: the body always starts at `rect.y + 1`.

use vstd::prelude::*;

use crate::engine::buffer::{Buffer, Grid, paint_end, paint_run, paint_seq};
use crate::engine::cell::Cell;
use crate::engine::color::{Attr, Color};
use crate::engine::rect::{Rect, sat_add, sat_sub};
use crate::engine::theme::Theme;
use crate::prim::icons::boxed;
use crate::prim::icons20::{framed_close, win_close_framed};
use crate::prim::label::{draw_text, fit_spec, fit_text, hot_clean, visible_len};
use crate::prim::shadow::{ShadowStyle, shadow_grid, shadow_styled};
use crate::text::seq_width;

verus! {

/// Window border style.
#[derive(Clone, Copy, Debug, PartialEq, Eq, Default, Structural)]
pub enum BorderStyle {
    /// Classic flat block: title on its own bar, no frame.
    #[default]
    Flat,
    /// Single CP437 box (`┌─┐│└┘`).
    Single,
    /// Double Norton/Clipper box (`╔═╗║╚╝`).
    Double,
    /// PC Tools bevel: bright top/left, dark bottom/right (ignores
    /// `border_color`).
    Bevel3D,
}

/// Glyphs of a frame.
#[derive(Clone, Copy, Debug, PartialEq, Eq, Structural)]
pub struct FrameGlyphs {
    pub tl: char,
    pub tr: char,
    pub bl: char,
    pub br: char,
    pub h: char,
    pub v: char,
}

pub open spec fn single_glyphs() -> FrameGlyphs {
    FrameGlyphs { tl: '\u{250c}', tr: '\u{2510}', bl: '\u{2514}', br: '\u{2518}', h: '\u{2500}', v: '\u{2502}' }
}

pub open spec fn double_glyphs() -> FrameGlyphs {
    FrameGlyphs { tl: '\u{2554}', tr: '\u{2557}', bl: '\u{255a}', br: '\u{255d}', h: '\u{2550}', v: '\u{2551}' }
}

fn single_frame() -> (r: FrameGlyphs)
    ensures
        r == single_glyphs(),
{
    FrameGlyphs { tl: '\u{250c}', tr: '\u{2510}', bl: '\u{2514}', br: '\u{2518}', h: '\u{2500}', v: '\u{2502}' }
}

fn double_frame() -> (r: FrameGlyphs)
    ensures
        r == double_glyphs(),
{
    FrameGlyphs { tl: '\u{2554}', tr: '\u{2557}', bl: '\u{255a}', br: '\u{255d}', h: '\u{2550}', v: '\u{2551}' }
}

/// Drawing options of a window (body colours, title, shadow, border).
#[derive(Clone, Debug)]
pub struct WindowOpts {
    /// Text of the body.
    pub body_fg: Color,
    /// Background of the body.
    pub body_bg: Color,
    pub title: String,
    pub title_bg: Color,
    pub title_fg: Color,
    pub title_bold: bool,
    /// Whether the window casts a shadow.
    pub shadow: bool,
    pub shadow_style: ShadowStyle,
    /// With `BorderStyle::Flat`, paints a solid one-cell edge; with
    /// `Single`/`Double`, tints the frame glyphs (`None` = body ink).
    /// `Bevel3D` ignores it.
    pub border_color: Option<Color>,
    /// Frame style (the presets use `Single`).
    pub border_style: BorderStyle,
    /// Paints a close box set into the top frame line (`┤■├`, `╡■╞` on a
    /// double frame) at `x+3..x+5`, or the floating `[■]` on a flat window.
    pub controls: bool,
}

impl WindowOpts {
    /// The shadow flag.
    pub fn has_shadow(&self) -> (r: bool)
        ensures
            r == self.shadow,
    {
        self.shadow
    }

    /// Sets the shadow flag, builder style.
    pub fn with_shadow(self, has_shadow: bool) -> (r: Self)
        ensures
            r == (WindowOpts { shadow: has_shadow, ..self }),
    {
        let mut s = self;
        s.shadow = has_shadow;
        s
    }

    /// Grey modal with a teal title (working dialogs).
    pub fn modal(title: &str, theme: Theme) -> (r: Self)
        ensures
            r.body_bg == theme.window_bg,
            r.body_fg == Color::Black,
            r.title@ == title@,
            r.title_bg == theme.teal,
            r.title_fg == Color::White,
            r.title_bold,
            r.shadow,
            r.shadow_style == ShadowStyle::Translucent,
            r.border_color is None,
            r.border_style == BorderStyle::Single,
            !r.controls,
    {
        WindowOpts {
            body_bg: theme.window_bg,
            body_fg: Color::Black,
            title: title.to_owned(),
            title_bg: theme.teal,
            title_fg: Color::White,
            title_bold: true,
            shadow: true,
            shadow_style: ShadowStyle::Translucent,
            border_color: None,
            border_style: BorderStyle::Single,
            controls: false,
        }
    }

    /// Black card with a white title (data entry).
    pub fn form(title: &str, theme: Theme) -> (r: Self)
        ensures
            r.body_bg == theme.form_bg,
            r.body_fg == theme.form_text,
            r.title@ == title@,
            r.title_bg == theme.form_bg,
            r.title_fg == Color::White,
            r.title_bold,
            r.shadow,
            r.shadow_style == ShadowStyle::Translucent,
            r.border_color is None,
            r.border_style == BorderStyle::Single,
            !r.controls,
    {
        WindowOpts {
            body_bg: theme.form_bg,
            body_fg: theme.form_text,
            title: title.to_owned(),
            title_bg: theme.form_bg,
            title_fg: Color::White,
            title_bold: true,
            shadow: true,
            shadow_style: ShadowStyle::Translucent,
            border_color: None,
            border_style: BorderStyle::Single,
            controls: false,
        }
    }

    /// Mint dialog with a teal title (progress and notices).
    pub fn dialog(title: &str, theme: Theme) -> (r: Self)
        ensures
            r.body_bg == theme.dialog,
            r.body_fg == theme.dialog_text,
            r.title@ == title@,
            r.title_bg == theme.teal,
            r.title_fg == Color::White,
            r.title_bold,
            r.shadow,
            r.shadow_style == ShadowStyle::Translucent,
            r.border_color is None,
            r.border_style == BorderStyle::Single,
            !r.controls,
    {
        WindowOpts {
            body_bg: theme.dialog,
            body_fg: theme.dialog_text,
            title: title.to_owned(),
            title_bg: theme.teal,
            title_fg: Color::White,
            title_bold: true,
            shadow: true,
            shadow_style: ShadowStyle::Translucent,
            border_color: None,
            border_style: BorderStyle::Single,
            controls: false,
        }
    }
}

/// Attribute of the title bar (bold when `title_bold`).
pub open spec fn title_attr_of(opts: WindowOpts) -> Attr {
    Attr { fg: opts.title_fg, bg: opts.title_bg, bold: opts.title_bold, dim: false }
}

/// The title fitted to `width` columns, centred on the top row of `rect`.
pub open spec fn title_text_grid(g: Grid, rect: Rect, width: int, opts: WindowOpts, title: Seq<char>) -> Grid {
    let fit = fit_spec(title, width);
    let tw = seq_width(hot_clean(fit));
    let tx = sat_add(rect.x as int, sat_sub(rect.w as int, tw) / 2);
    paint_run(g, tx, rect.y as int, paint_seq(fit, title_attr_of(opts)), false)
}

/// A one-row strip `[a, b)` of row `y`.
pub open spec fn row_strip(y: int, a: int, b: int) -> Rect {
    Rect { x: a as u16, y: y as u16, w: sat_sub(b, a) as u16, h: 1 }
}

/// A one-column strip `[a, b)` of column `x`.
pub open spec fn col_strip(x: int, a: int, b: int) -> Rect {
    Rect { x: x as u16, y: a as u16, w: 1, h: sat_sub(b, a) as u16 }
}

/// Flat window: block, title bar, optional close box and solid edge.
pub open spec fn flat_grid(g: Grid, rect: Rect, opts: WindowOpts, title: Seq<char>) -> Grid {
    let g1 = g.fill(rect, Cell::spec_new(' ', opts.body_fg, opts.body_bg));
    let g2 = g1.fill(Rect { x: rect.x, y: rect.y, w: rect.w, h: 1 }, Cell::spec_new(' ', opts.title_fg, opts.title_bg));
    let g3 = title_text_grid(g2, rect, rect.w as int, opts, title);
    let g4 = if opts.controls && rect.w >= 8 {
        boxed(g3, sat_add(rect.x as int, 1), rect.y as int, '\u{25a0}', title_attr_of(opts), Color::Yellow)
    } else {
        g3
    };
    match opts.border_color {
        Some(border) => {
            let bc = Cell::spec_new(' ', border, border);
            g4.fill(Rect { x: rect.x, y: rect.y, w: rect.w, h: 1 }, bc)
                .fill(Rect { x: rect.x, y: sat_sub(rect.spec_bottom() as int, 1) as u16, w: rect.w, h: 1 }, bc)
                .fill(Rect { x: rect.x, y: rect.y, w: 1, h: rect.h }, bc)
                .fill(Rect { x: sat_sub(rect.spec_right() as int, 1) as u16, y: rect.y, w: 1, h: rect.h }, bc)
        },
        None => g4,
    }
}

/// Bright and dark ink of a frame.
pub open spec fn frame_inks(opts: WindowOpts) -> (Color, Color) {
    match opts.border_style {
        BorderStyle::Bevel3D => (Color::White, Color::DarkGrey),
        _ => {
            let ink = match opts.border_color {
                Some(c) => c,
                None => opts.body_fg,
            };
            (ink, ink)
        },
    }
}

/// Framed window: body, frame lines, corners, centred title, close box.
pub open spec fn framed_grid(g: Grid, rect: Rect, opts: WindowOpts, fg: FrameGlyphs, title: Seq<char>) -> Grid {
    let (bright, dark) = frame_inks(opts);
    let right = sat_sub(rect.spec_right() as int, 1);
    let bottom = sat_sub(rect.spec_bottom() as int, 1);
    let x1 = sat_add(rect.x as int, 1);
    let y1 = sat_add(rect.y as int, 1);
    let g1 = g.fill(rect, Cell::spec_new(' ', opts.body_fg, opts.body_bg));
    let g2 = g1.fill(row_strip(rect.y as int, x1, right), Cell::spec_new(fg.h, bright, opts.title_bg))
        .fill(row_strip(bottom, x1, right), Cell::spec_new(fg.h, dark, opts.body_bg));
    let g3 = g2.fill(col_strip(rect.x as int, y1, bottom), Cell::spec_new(fg.v, bright, opts.body_bg))
        .fill(col_strip(right, y1, bottom), Cell::spec_new(fg.v, dark, opts.body_bg));
    let g4 = g3.set(rect.x as int, rect.y as int, Cell::spec_new(fg.tl, bright, opts.title_bg))
        .set(right, rect.y as int, Cell::spec_new(fg.tr, bright, opts.title_bg))
        .set(rect.x as int, bottom, Cell::spec_new(fg.bl, dark, opts.body_bg))
        .set(right, bottom, Cell::spec_new(fg.br, dark, opts.body_bg));
    let g5 = title_text_grid(g4, rect, sat_sub(rect.w as int, 2), opts, title);
    if opts.controls && rect.w >= 8 {
        let (l, r) = match opts.border_style {
            BorderStyle::Double => ('\u{2561}', '\u{255e}'),
            _ => ('\u{2524}', '\u{251c}'),
        };
        framed_close(
            g5,
            sat_add(rect.x as int, 3),
            rect.y as int,
            l,
            r,
            Attr { fg: bright, bg: opts.title_bg, bold: false, dim: false },
            Color::Yellow,
        )
    } else {
        g5
    }
}

/// The whole window: shadow first (below), then the body in its style.
pub open spec fn window_grid(g: Grid, rect: Rect, opts: WindowOpts, theme: Theme) -> Grid {
    window_grid_titled(g, rect, opts, opts.title@, theme)
}

/// The window of `window_grid` with the title text given apart (the
/// `title` field of `opts` is not read).
pub open spec fn window_grid_titled(g: Grid, rect: Rect, opts: WindowOpts, title: Seq<char>, theme: Theme) -> Grid {
    if rect.spec_is_empty() {
        g
    } else {
        let g1 = if opts.shadow { shadow_grid(g, rect, 2, 1, opts.shadow_style, theme) } else { g };
        match opts.border_style {
            BorderStyle::Flat => flat_grid(g1, rect, opts, title),
            BorderStyle::Double => framed_grid(g1, rect, opts, double_glyphs(), title),
            _ => framed_grid(g1, rect, opts, single_glyphs(), title),
        }
    }
}

/// Draws the window (clipped to the buffer). It does not touch the screen
/// stack: that is the job of the widgets and `Screen::savescreen`.
pub fn window(buf: &mut Buffer, rect: Rect, opts: &WindowOpts, theme: Theme)
    requires
        old(buf).wf(),
    ensures
        final(buf).wf(),
        final(buf)@ == window_grid(old(buf)@, rect, *opts, theme),
{
    if rect.is_empty() {
        return;
    }
    if opts.shadow {
        shadow_styled(buf, rect, 2, 1, opts.shadow_style, theme);
    }
    match opts.border_style {
        BorderStyle::Flat => draw_flat(buf, rect, opts),
        BorderStyle::Single => draw_framed(buf, rect, opts, single_frame()),
        BorderStyle::Double => draw_framed(buf, rect, opts, double_frame()),
        BorderStyle::Bevel3D => draw_framed(buf, rect, opts, single_frame()),
    }
}

fn draw_flat(buf: &mut Buffer, rect: Rect, opts: &WindowOpts)
    requires
        old(buf).wf(),
    ensures
        final(buf).wf(),
        final(buf)@ == flat_grid(old(buf)@, rect, *opts, opts.title@),
{
    buf.fill_rect(rect, Cell::new(' ', opts.body_fg, opts.body_bg));
    let bar = Rect::new(rect.x, rect.y, rect.w, 1);
    buf.fill_rect(bar, Cell::new(' ', opts.title_fg, opts.title_bg));
    draw_title_text(buf, rect, rect.w, opts);
    if opts.controls && rect.w >= 8 {
        crate::prim::icons::win_close(buf, rect.x.saturating_add(1), rect.y, title_attr(opts), Color::Yellow);
    }
    match opts.border_color {
        Some(border) => {
            let bc = Cell::new(' ', border, border);
            buf.fill_rect(Rect::new(rect.x, rect.y, rect.w, 1), bc);
            buf.fill_rect(Rect::new(rect.x, rect.bottom().saturating_sub(1), rect.w, 1), bc);
            buf.fill_rect(Rect::new(rect.x, rect.y, 1, rect.h), bc);
            buf.fill_rect(Rect::new(rect.right().saturating_sub(1), rect.y, 1, rect.h), bc);
        },
        None => {},
    }
}

fn draw_framed(buf: &mut Buffer, rect: Rect, opts: &WindowOpts, g: FrameGlyphs)
    requires
        old(buf).wf(),
    ensures
        final(buf).wf(),
        final(buf)@ == framed_grid(old(buf)@, rect, *opts, g, opts.title@),
{
    buf.fill_rect(rect, Cell::new(' ', opts.body_fg, opts.body_bg));
    let (bright, dark) = match opts.border_style {
        BorderStyle::Bevel3D => (Color::White, Color::DarkGrey),
        _ => {
            let ink = match opts.border_color {
                Some(c) => c,
                None => opts.body_fg,
            };
            (ink, ink)
        },
    };
    let right = rect.right().saturating_sub(1);
    let bottom = rect.bottom().saturating_sub(1);
    let x1 = rect.x.saturating_add(1);
    let y1 = rect.y.saturating_add(1);
    buf.fill_rect(Rect::new(x1, rect.y, right.saturating_sub(x1), 1), Cell::new(g.h, bright, opts.title_bg));
    buf.fill_rect(Rect::new(x1, bottom, right.saturating_sub(x1), 1), Cell::new(g.h, dark, opts.body_bg));
    buf.fill_rect(Rect::new(rect.x, y1, 1, bottom.saturating_sub(y1)), Cell::new(g.v, bright, opts.body_bg));
    buf.fill_rect(Rect::new(right, y1, 1, bottom.saturating_sub(y1)), Cell::new(g.v, dark, opts.body_bg));
    buf.set(rect.x, rect.y, Cell::with_attr(g.tl, Attr::new(bright, opts.title_bg)));
    buf.set(right, rect.y, Cell::with_attr(g.tr, Attr::new(bright, opts.title_bg)));
    buf.set(rect.x, bottom, Cell::with_attr(g.bl, Attr::new(dark, opts.body_bg)));
    buf.set(right, bottom, Cell::with_attr(g.br, Attr::new(dark, opts.body_bg)));
    draw_title_text(buf, rect, rect.w.saturating_sub(2), opts);
    if opts.controls && rect.w >= 8 {
        let (left, rightc) = match opts.border_style {
            BorderStyle::Double => ('\u{2561}', '\u{255e}'),
            _ => ('\u{2524}', '\u{251c}'),
        };
        win_close_framed(buf, rect.x.saturating_add(3), rect.y, left, rightc, Attr::new(bright, opts.title_bg), Color::Yellow);
    }
}

/// Title centred on the top row (`title_fg`/`title_bg`).
fn draw_title_text(buf: &mut Buffer, rect: Rect, width: u16, opts: &WindowOpts)
    requires
        old(buf).wf(),
    ensures
        final(buf).wf(),
        final(buf)@ == title_text_grid(old(buf)@, rect, width as int, *opts, opts.title@),
{
    let fit = fit_text(opts.title.as_str(), width);
    let tw = visible_len(fit.as_str());
    let tx = rect.x.saturating_add(rect.w.saturating_sub(tw) / 2);
    draw_text(buf, tx, rect.y, fit.as_str(), title_attr(opts));
}

/// Attribute of the title bar.
fn title_attr(opts: &WindowOpts) -> (r: Attr)
    ensures
        r == title_attr_of(*opts),
{
    if opts.title_bold {
        Attr::bold(opts.title_fg, opts.title_bg)
    } else {
        Attr::new(opts.title_fg, opts.title_bg)
    }
}

/// `a` and `b` agree on every field but the title.
pub open spec fn same_look(a: WindowOpts, b: WindowOpts) -> bool {
    &&& a.body_fg == b.body_fg
    &&& a.body_bg == b.body_bg
    &&& a.title_bg == b.title_bg
    &&& a.title_fg == b.title_fg
    &&& a.title_bold == b.title_bold
    &&& a.shadow == b.shadow
    &&& a.shadow_style == b.shadow_style
    &&& a.border_color == b.border_color
    &&& a.border_style == b.border_style
    &&& a.controls == b.controls
}

/// A titled window depends on the options' fields but not on their
/// `title`.
pub proof fn lemma_titled_ignores_title(g: Grid, rect: Rect, a: WindowOpts, b: WindowOpts, title: Seq<char>, theme: Theme)
    requires
        same_look(a, b),
    ensures
        window_grid_titled(g, rect, a, title, theme) == window_grid_titled(g, rect, b, title, theme),
{
    assert(title_attr_of(a) == title_attr_of(b));
    assert(frame_inks(a) == frame_inks(b));
}

/// The look of `WindowOpts::dialog` (its title aside).
pub open spec fn dialog_look(theme: Theme) -> WindowOpts {
    WindowOpts {
        body_bg: theme.dialog,
        body_fg: theme.dialog_text,
        title: arbitrary(),
        title_bg: theme.teal,
        title_fg: Color::White,
        title_bold: true,
        shadow: true,
        shadow_style: ShadowStyle::Translucent,
        border_color: None,
        border_style: BorderStyle::Single,
        controls: false,
    }
}

/// The look of `WindowOpts::form` (its title aside).
pub open spec fn form_look(theme: Theme) -> WindowOpts {
    WindowOpts {
        body_bg: theme.form_bg,
        body_fg: theme.form_text,
        title: arbitrary(),
        title_bg: theme.form_bg,
        title_fg: Color::White,
        title_bold: true,
        shadow: true,
        shadow_style: ShadowStyle::Translucent,
        border_color: None,
        border_style: BorderStyle::Single,
        controls: false,
    }
}

} // verus!
