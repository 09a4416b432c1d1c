//! Icon set of the twenties: drives, function keys, window controls and
//! file badges, in two modes (CP437 retro glyphs or Nerd Font glyphs).
//!
//! Every badge is a run of cells written one column after another from
//! `(x, y)` and clipped at the buffer edge; each function returns the
//! width it takes, clipped or not.

use vstd::prelude::*;

use crate::engine::buffer::{Buffer, Grid, paint_seq};
use crate::engine::cell::Cell;
use crate::engine::color::{Attr, Color};
use crate::engine::rect::sat_add;
use crate::engine::theme::Theme;
use crate::prim::icons::boxed;
use crate::text::{ascii_lower, ascii_upper, chars_of, decimal, decimal_chars, to_ascii_lower, to_ascii_upper};

verus! {

/// Glyph family of the badges.
#[derive(Clone, Copy, Debug, PartialEq, Eq, Structural)]
pub enum IconMode {
    /// Box-drawing and CP437 blocks (`[≡]`, `[■-]`, `[+]`).
    RetroCp437,
    /// Nerd Font private-use glyphs.
    NerdFont,
}

/// Kind of drive shown by `drive_badge`.
#[derive(Clone, Copy, Debug, PartialEq, Eq, Structural)]
pub enum DriveType {
    Floppy35,
    Floppy525,
    HardDisk,
    CdRom,
}

/// The row of cells of a badge: `cells[i]` at column `x + i` of row `y`.
pub open spec fn badge(g: Grid, x: int, y: int, cells: Seq<Cell>) -> Grid {
    g.put_row(x, y, cells, u16::MAX as int)
}

/// The cells of a drive badge: `[≡] A:` (floppy 3.5), `[═] A:` (5.25),
/// `[■-] C:` with a green LED (hard disk), `[○] D:` (CD-ROM), or a Nerd
/// Font glyph, a space, the letter and `:`. An active drive is black on
/// yellow; an idle one yellow on the desktop with a grey chassis.
pub open spec fn drive_badge_cells(letter: char, drive_type: DriveType, mode: IconMode, active: bool, theme: Theme) -> Seq<Cell> {
    let up = ascii_upper(letter);
    let fg = if active { Color::Black } else { Color::Yellow };
    let bg = if active { Color::Yellow } else { theme.desktop };
    let base = Attr { fg, bg, bold: false, dim: false };
    match mode {
        IconMode::NerdFont => {
            let g = match drive_type {
                DriveType::HardDisk => '\u{f02ca}',
                DriveType::CdRom => '\u{f111}',
                _ => '\u{f0a0}',
            };
            seq![
                Cell::spec_new(g, Color::Yellow, bg),
                Cell::spec_new(' ', fg, bg),
                Cell::spec_with_attr(up, base),
                Cell::spec_with_attr(':', base),
            ]
        },
        IconMode::RetroCp437 => {
            let mid = match drive_type {
                DriveType::Floppy35 => '\u{2261}',
                DriveType::Floppy525 => '\u{2550}',
                DriveType::HardDisk => '\u{25a0}',
                DriveType::CdRom => '\u{25cb}',
            };
            let chassis = Attr { fg: if active { fg } else { Color::Grey }, bg, bold: false, dim: false };
            let head = seq![Cell::spec_with_attr('[', chassis), Cell::spec_with_attr(mid, chassis)];
            let led = if drive_type == DriveType::HardDisk {
                seq![Cell::spec_new('-', Color::Green, bg)]
            } else {
                Seq::empty()
            };
            head + led + seq![
                Cell::spec_with_attr(']', chassis),
                Cell::spec_new(' ', fg, bg),
                Cell::spec_with_attr(up, base),
                Cell::spec_with_attr(':', base),
            ]
        },
    }
}

/// Drive badge at `(x, y)`; returns its width (4 in Nerd Font mode, 6 in
/// retro mode, 7 for a retro hard disk).
pub fn drive_badge(
    buf: &mut Buffer,
    x: u16,
    y: u16,
    letter: char,
    drive_type: DriveType,
    mode: IconMode,
    active: bool,
    theme: Theme,
) -> (r: u16)
    requires
        old(buf).wf(),
    ensures
        final(buf).wf(),
        final(buf)@ == badge(old(buf)@, x as int, y as int, drive_badge_cells(letter, drive_type, mode, active, theme)),
        r == drive_badge_cells(letter, drive_type, mode, active, theme).len(),
{
    let up = to_ascii_upper(letter);
    let fg = if active { Color::Black } else { Color::Yellow };
    let bg = if active { Color::Yellow } else { theme.desktop };
    let base = Attr::new(fg, bg);
    let mut cells: Vec<Cell> = Vec::new();
    match mode {
        IconMode::NerdFont => {
            let g = match drive_type {
                DriveType::HardDisk => '\u{f02ca}',
                DriveType::CdRom => '\u{f111}',
                _ => '\u{f0a0}',
            };
            cells.push(Cell::new(g, Color::Yellow, bg));
            cells.push(Cell::new(' ', fg, bg));
            cells.push(Cell::with_attr(up, base));
            cells.push(Cell::with_attr(':', base));
        },
        IconMode::RetroCp437 => {
            let mid = match drive_type {
                DriveType::Floppy35 => '\u{2261}',
                DriveType::Floppy525 => '\u{2550}',
                DriveType::HardDisk => '\u{25a0}',
                DriveType::CdRom => '\u{25cb}',
            };
            let chassis = Attr::new(if active { fg } else { Color::Grey }, bg);
            cells.push(Cell::with_attr('[', chassis));
            cells.push(Cell::with_attr(mid, chassis));
            if drive_type == DriveType::HardDisk {
                cells.push(Cell::new('-', Color::Green, bg));
            }
            cells.push(Cell::with_attr(']', chassis));
            cells.push(Cell::new(' ', fg, bg));
            cells.push(Cell::with_attr(up, base));
            cells.push(Cell::with_attr(':', base));
        },
    }
    assert(cells@ =~= drive_badge_cells(letter, drive_type, mode, active, theme));
    buf.put_row(x, y, &cells, u16::MAX);
    cells.len() as u16
}

/// The cells of a function-key badge: `F<n>` black on yellow in bold, a
/// space, then the action in white on navy.
pub open spec fn fkey_badge_cells(key_num: u8, action: Seq<char>, theme: Theme) -> Seq<Cell> {
    paint_seq(seq!['F'] + decimal(key_num as nat), Attr { fg: Color::Black, bg: Color::Yellow, bold: true, dim: false })
        + seq![Cell::spec_new(' ', Color::White, theme.navy)]
        + paint_seq(action, Attr { fg: Color::White, bg: theme.navy, bold: false, dim: false })
}

/// Function-key badge `F1 Help`; returns the columns advanced (the badge
/// width, cut where the cursor stops at `u16::MAX`).
pub fn fkey_badge(buf: &mut Buffer, x: u16, y: u16, key_num: u8, action: &str, theme: Theme) -> (r: u16)
    requires
        old(buf).wf(),
    ensures
        final(buf).wf(),
        final(buf)@ == badge(old(buf)@, x as int, y as int, fkey_badge_cells(key_num, action@, theme)),
        r == sat_add(x as int, fkey_badge_cells(key_num, action@, theme).len() as int) - x,
{
    let key_a = Attr::bold(Color::Black, Color::Yellow);
    let act_a = Attr::new(Color::White, theme.navy);
    let mut key: Vec<char> = Vec::new();
    key.push('F');
    let digits = decimal_chars(key_num as u64);
    let mut i: usize = 0;
    while i < digits.len()
        invariant
            i <= digits@.len(),
            key@ == seq!['F'] + digits@.subrange(0, i as int),
        decreases digits.len() - i,
    {
        key.push(digits[i]);
        i += 1;
        assert(key@ =~= seq!['F'] + digits@.subrange(0, i as int));
    }
    assert(digits@.subrange(0, i as int) =~= digits@);
    let mut cells: Vec<Cell> = Vec::new();
    Buffer::push_painted(&mut cells, &key, key_a);
    cells.push(Cell::new(' ', Color::White, theme.navy));
    let act = chars_of(action);
    Buffer::push_painted(&mut cells, &act, act_a);
    assert(cells@ =~= fkey_badge_cells(key_num, action@, theme));
    buf.put_row(x, y, &cells, u16::MAX);
    let room: u16 = u16::MAX - x;
    if cells.len() > room as usize {
        room
    } else {
        cells.len() as u16
    }
}

/// Close box `[■]` (the glyph in `accent`). Returns 3.
pub fn win_close(buf: &mut Buffer, x: u16, y: u16, attr: Attr, accent: Color) -> (r: u16)
    requires
        old(buf).wf(),
    ensures
        final(buf).wf(),
        final(buf)@ == boxed(old(buf)@, x as int, y as int, '\u{25a0}', attr, accent),
        r == 3,
{
    crate::prim::icons::win_close(buf, x, y, attr, accent)
}

/// Zoom box `[▲]`. Returns 3.
pub fn win_zoom(buf: &mut Buffer, x: u16, y: u16, attr: Attr, accent: Color) -> (r: u16)
    requires
        old(buf).wf(),
    ensures
        final(buf).wf(),
        final(buf)@ == boxed(old(buf)@, x as int, y as int, '\u{25b2}', attr, accent),
        r == 3,
{
    buf.set(x, y, Cell::with_attr('[', attr));
    buf.set(x.saturating_add(1), y, Cell::with_attr('\u{25b2}', Attr { fg: accent, ..attr }));
    buf.set(x.saturating_add(2), y, Cell::with_attr(']', attr));
    3
}

/// Minimise box `[▼]`. Returns 3.
pub fn win_min(buf: &mut Buffer, x: u16, y: u16, attr: Attr, accent: Color) -> (r: u16)
    requires
        old(buf).wf(),
    ensures
        final(buf).wf(),
        final(buf)@ == boxed(old(buf)@, x as int, y as int, '\u{25bc}', attr, accent),
        r == 3,
{
    buf.set(x, y, Cell::with_attr('[', attr));
    buf.set(x.saturating_add(1), y, Cell::with_attr('\u{25bc}', Attr { fg: accent, ..attr }));
    buf.set(x.saturating_add(2), y, Cell::with_attr(']', attr));
    3
}

/// Resize grip `◢`. Returns 1.
pub fn win_resize_grip(buf: &mut Buffer, x: u16, y: u16, attr: Attr) -> (r: u16)
    requires
        old(buf).wf(),
    ensures
        final(buf).wf(),
        final(buf)@ == old(buf)@.set(x as int, y as int, Cell::spec_with_attr('\u{25e2}', attr)),
        r == 1,
{
    buf.set(x, y, Cell::with_attr('\u{25e2}', attr));
    1
}

/// The close box set into a frame line: `left`, `■` in bold `accent`,
/// `right` (`┤■├` on a single frame, `╡■╞` on a double one).
pub open spec fn framed_close(g: Grid, x: int, y: int, left: char, right: char, attr: Attr, accent: Color) -> Grid {
    g.set(x, y, Cell::spec_with_attr(left, attr)).set(
        sat_add(x, 1),
        y,
        Cell::spec_with_attr('\u{25a0}', Attr { fg: accent, bold: true, ..attr }),
    ).set(sat_add(x, 2), y, Cell::spec_with_attr(right, attr))
}

/// Close box set into the top frame line. Returns 3.
pub fn win_close_framed(
    buf: &mut Buffer,
    x: u16,
    y: u16,
    left: char,
    right: char,
    attr: Attr,
    accent: Color,
) -> (r: u16)
    requires
        old(buf).wf(),
    ensures
        final(buf).wf(),
        final(buf)@ == framed_close(old(buf)@, x as int, y as int, left, right, attr, accent),
        r == 3,
{
    buf.set(x, y, Cell::with_attr(left, attr));
    buf.set(x.saturating_add(1), y, Cell::with_attr('\u{25a0}', Attr { fg: accent, bold: true, ..attr }));
    buf.set(x.saturating_add(2), y, Cell::with_attr(right, attr));
    3
}

/// The cells of a folder badge: `[+]` / `[-]` in retro mode, one Nerd
/// Font folder otherwise; yellow on the window background.
pub open spec fn folder_badge_cells(open: bool, mode: IconMode, theme: Theme) -> Seq<Cell> {
    let a = Attr { fg: Color::Yellow, bg: theme.window_bg, bold: false, dim: false };
    match mode {
        IconMode::NerdFont => seq![Cell::spec_with_attr(if open { '\u{f07c}' } else { '\u{f07b}' }, a)],
        IconMode::RetroCp437 => seq![
            Cell::spec_with_attr('[', a),
            Cell::spec_with_attr(if open { '-' } else { '+' }, a),
            Cell::spec_with_attr(']', a),
        ],
    }
}

/// Folder badge; returns its width (3 retro, 1 Nerd Font).
pub fn folder_badge(buf: &mut Buffer, x: u16, y: u16, open: bool, mode: IconMode, theme: Theme) -> (r: u16)
    requires
        old(buf).wf(),
    ensures
        final(buf).wf(),
        final(buf)@ == badge(old(buf)@, x as int, y as int, folder_badge_cells(open, mode, theme)),
        r == folder_badge_cells(open, mode, theme).len(),
{
    let a = Attr::new(Color::Yellow, theme.window_bg);
    let mut cells: Vec<Cell> = Vec::new();
    match mode {
        IconMode::NerdFont => {
            cells.push(Cell::with_attr(if open { '\u{f07c}' } else { '\u{f07b}' }, a));
        },
        IconMode::RetroCp437 => {
            cells.push(Cell::with_attr('[', a));
            cells.push(Cell::with_attr(if open { '-' } else { '+' }, a));
            cells.push(Cell::with_attr(']', a));
        },
    }
    assert(cells@ =~= folder_badge_cells(open, mode, theme));
    buf.put_row(x, y, &cells, u16::MAX);
    cells.len() as u16
}

/// What follows the last `.` of a name (the whole name when it has none).
pub open spec fn extension(name: Seq<char>) -> Seq<char>
    decreases name.len(),
{
    if name.len() == 0 {
        name
    } else if name.last() == '.' {
        Seq::empty()
    } else {
        extension(name.drop_last()).push(name.last())
    }
}

/// File kind by extension, compared without case: 0 programs (`exe`,
/// `com`, `bat`), 1 data (`dbf`, `dat`, `ntx`), 2 text (`txt`, `doc`),
/// 3 anything else.
pub open spec fn file_kind(name: Seq<char>) -> int {
    let e = extension(name).map_values(|c: char| ascii_lower(c));
    if e == seq!['e', 'x', 'e'] || e == seq!['c', 'o', 'm'] || e == seq!['b', 'a', 't'] {
        0
    } else if e == seq!['d', 'b', 'f'] || e == seq!['d', 'a', 't'] || e == seq!['n', 't', 'x'] {
        1
    } else if e == seq!['t', 'x', 't'] || e == seq!['d', 'o', 'c'] {
        2
    } else {
        3
    }
}

/// The one cell of a file badge: `*` green (programs), `≡` cyan (data),
/// `≡` white (text), `·` grey (other), or the Nerd Font glyph of the kind,
/// on the window background.
pub open spec fn file_badge_cell(name: Seq<char>, mode: IconMode, theme: Theme) -> Cell {
    let kind = file_kind(name);
    let retro = if kind == 0 { '*' } else if kind == 1 || kind == 2 { '\u{2261}' } else { '\u{b7}' };
    let nf = if kind == 0 {
        '\u{f085}'
    } else if kind == 1 {
        '\u{f0ce}'
    } else if kind == 2 {
        '\u{f0f6}'
    } else {
        '\u{f016}'
    };
    let fg = if kind == 0 {
        Color::Green
    } else if kind == 1 {
        Color::Cyan
    } else if kind == 2 {
        Color::White
    } else {
        Color::Grey
    };
    Cell::spec_new(
        match mode {
            IconMode::NerdFont => nf,
            IconMode::RetroCp437 => retro,
        },
        fg,
        theme.window_bg,
    )
}

/// Whether `v` holds exactly the three characters `a`, `b`, `c`.
fn is_word3(v: &Vec<char>, a: char, b: char, c: char) -> (r: bool)
    ensures
        r == (v@ == seq![a, b, c]),
{
    let r = v.len() == 3 && v[0] == a && v[1] == b && v[2] == c;
    proof {
        if v@.len() == 3 && v@[0] == a && v@[1] == b && v@[2] == c {
            assert(v@ =~= seq![a, b, c]);
        }
    }
    r
}

/// The extension of `name`, in ASCII small letters.
fn lower_extension(name: &Vec<char>) -> (r: Vec<char>)
    ensures
        r@ == extension(name@).map_values(|c: char| ascii_lower(c)),
{
    let mut start: usize = name.len();
    assert(name@.subrange(0, start as int) =~= name@);
    assert(extension(name@) =~= extension(name@.subrange(0, start as int)) + name@.subrange(start as int, name@.len() as int));
    while start > 0 && name[start - 1] != '.'
        invariant
            start <= name@.len(),
            extension(name@) == extension(name@.subrange(0, start as int)) + name@.subrange(start as int, name@.len() as int),
        decreases start,
    {
        proof {
            let s = name@.subrange(0, start as int);
            assert(s.drop_last() =~= name@.subrange(0, start - 1));
            assert(name@.subrange(start - 1, name@.len() as int) =~= seq![s.last()] + name@.subrange(start as int, name@.len() as int));
            assert(extension(s) == extension(s.drop_last()).push(s.last()));
            assert(extension(s.drop_last()).push(s.last()) + name@.subrange(start as int, name@.len() as int)
                =~= extension(s.drop_last()) + name@.subrange(start - 1, name@.len() as int));
        }
        start -= 1;
    }
    proof {
        let s = name@.subrange(0, start as int);
        assert(extension(s) =~= Seq::<char>::empty());
    }
    let mut out: Vec<char> = Vec::new();
    let mut i: usize = start;
    while i < name.len()
        invariant
            start <= i <= name@.len(),
            extension(name@) =~= name@.subrange(start as int, name@.len() as int),
            out@ == name@.subrange(start as int, i as int).map_values(|c: char| ascii_lower(c)),
        decreases name.len() - i,
    {
        out.push(to_ascii_lower(name[i]));
        i += 1;
        assert(out@ =~= name@.subrange(start as int, i as int).map_values(|c: char| ascii_lower(c)));
    }
    out
}

/// File badge by extension; returns 1.
pub fn file_badge(buf: &mut Buffer, x: u16, y: u16, name: &str, mode: IconMode, theme: Theme) -> (r: u16)
    requires
        old(buf).wf(),
    ensures
        final(buf).wf(),
        final(buf)@ == old(buf)@.set(x as int, y as int, file_badge_cell(name@, mode, theme)),
        r == 1,
{
    let chars = chars_of(name);
    let ext = lower_extension(&chars);
    let kind: u8 = if is_word3(&ext, 'e', 'x', 'e') || is_word3(&ext, 'c', 'o', 'm') || is_word3(&ext, 'b', 'a', 't') {
        0
    } else if is_word3(&ext, 'd', 'b', 'f') || is_word3(&ext, 'd', 'a', 't') || is_word3(&ext, 'n', 't', 'x') {
        1
    } else if is_word3(&ext, 't', 'x', 't') || is_word3(&ext, 'd', 'o', 'c') {
        2
    } else {
        3
    };
    let (retro, nf, fg) = if kind == 0 {
        ('*', '\u{f085}', Color::Green)
    } else if kind == 1 {
        ('\u{2261}', '\u{f0ce}', Color::Cyan)
    } else if kind == 2 {
        ('\u{2261}', '\u{f0f6}', Color::White)
    } else {
        ('\u{b7}', '\u{f016}', Color::Grey)
    };
    let g = match mode {
        IconMode::NerdFont => nf,
        IconMode::RetroCp437 => retro,
    };
    buf.set(x, y, Cell::new(g, fg, theme.window_bg));
    1
}

} // verus!
