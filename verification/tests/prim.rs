use tui90::engine::buffer::Buffer;
use tui90::engine::cell::Cell;
use tui90::engine::color::{Attr, Color};
use tui90::engine::rect::Rect;
use tui90::engine::theme::Theme;
use tui90::prim::button::{button, button_draw, button_width};
use tui90::prim::canvas::VirtualCanvas;
use tui90::prim::icons::{drive, folder, FolderGlyphs};
use tui90::prim::icons20::{
    drive_badge, file_badge, fkey_badge, folder_badge, win_close, win_min, win_resize_grip, win_zoom, DriveType,
    IconMode,
};
use tui90::prim::label::{draw_hot_label, fit_text, hot_key_of, parse_hotkey, visible_len};
use tui90::prim::scrollbar::vscrollbar;
use tui90::prim::separator::hsep;
use tui90::prim::shadow::{darken_by, shadow, shadow_solid, shadow_stipple};
use tui90::prim::title::{status_bar, top_bar};
use tui90::prim::window::{window, BorderStyle, WindowOpts};

#[test]
fn width_counts_air() {
    assert_eq!(button_width("Salir"), 7);
    assert_eq!(button_width(""), 2);
}

#[test]
fn draws_teal_block_with_bottom_only_shadow() {
    let t = Theme::clipper();
    let mut b = Buffer::blank(20, 5, t.desktop);
    let w = button(&mut b, 2, 1, "Salir", t);
    assert_eq!(w, 7);
    assert_eq!(b.get(2, 1).unwrap().bg, t.button_bg);
    assert_eq!(b.get(3, 1).unwrap().ch, 'S');
    assert_eq!(b.get(3, 1).unwrap().fg, t.button_fg);
    assert_eq!(b.get(3, 2).unwrap().bg, t.shadow);
    assert_eq!(b.get(2 + 7, 1).unwrap().bg, t.desktop);
}

#[test]
fn pressed_moves_down_right_and_covers_shadow() {
    let t = Theme::clipper();
    let mut b = Buffer::blank(20, 5, t.desktop);
    button(&mut b, 2, 1, "Salir", t);
    button_draw(&mut b, 2, 1, "Salir", t, true);
    assert_eq!(b.get(4, 2).unwrap().ch, 'S');
    assert_eq!(b.get(3, 2).unwrap().bg, t.button_bg);
}

#[test]
fn dims_are_subcell() {
    let c = VirtualCanvas::new(60, 15);
    assert_eq!((c.width, c.height), (120, 60));
    assert_eq!(VirtualCanvas::new(0, 0).pixels.len(), 0);
}

#[test]
fn pixels_out_of_range_are_ignored() {
    let mut c = VirtualCanvas::new(2, 1);
    c.set_pixel(99, 99);
    c.set_pixel(0, 0);
    assert_eq!(c.cell_mask(0, 0), 0x01);
    assert_eq!(c.cell_mask(5, 5), 0);
}

#[test]
fn bit_mapping_matches_braille_standard() {
    let mut c = VirtualCanvas::new(1, 1);
    c.set_pixel(0, 0);
    c.set_pixel(1, 0);
    assert_eq!(c.cell_mask(0, 0), 0x01 | 0x08);
    let mut c = VirtualCanvas::new(1, 1);
    c.set_pixel(0, 3);
    c.set_pixel(1, 3);
    assert_eq!(c.cell_mask(0, 0), 0x40 | 0x80);
    let mut c = VirtualCanvas::new(1, 1);
    for y in 0..4 {
        c.set_pixel(0, y);
    }
    assert_eq!(c.cell_mask(0, 0), 0x01 | 0x02 | 0x04 | 0x40);
}

#[test]
fn lines_are_continuous_without_gaps() {
    let mut c = VirtualCanvas::new(10, 2);
    c.draw_line(0, 2, 19, 2);
    for col in 0..10 {
        assert_ne!(c.cell_mask(col, 0), 0, "gap at col {col}");
    }
    let mut c = VirtualCanvas::new(4, 6);
    c.draw_line(0, 23, 7, 0);
    for row in 0..6 {
        let row_lit = (0..4).any(|col| c.cell_mask(col, row) != 0);
        assert!(row_lit, "row {row} empty on the diagonal");
    }
    let mut c = VirtualCanvas::new(3, 3);
    c.draw_line(2, 5, 2, 5);
    assert_ne!(c.cell_mask(1, 1), 0);
}

#[test]
fn render_emits_braille_or_space() {
    let t = Theme::clipper();
    let mut b = Buffer::blank(8, 4, t.desktop);
    let mut one = VirtualCanvas::new(8, 4);
    one.set_pixel(0, 0);
    one.render_to_buffer(&mut b, Rect::new(0, 0, 8, 4), Color::Yellow, t.desktop);
    assert_eq!(b.get(0, 0).unwrap().ch, '\u{2801}');
    assert_eq!(b.get(0, 0).unwrap().fg, Color::Yellow);
    let mut b = Buffer::blank(8, 4, t.desktop);
    let mut c = VirtualCanvas::new(8, 4);
    c.draw_line(0, 0, 15, 15);
    c.render_to_buffer(&mut b, Rect::new(0, 0, 8, 4), Color::Yellow, t.desktop);
    let mut lit = 0;
    for y in 0..4u16 {
        for x in 0..8u16 {
            let ch = b.get(x, y).unwrap().ch;
            assert!(ch == ' ' || (0x2800..=0x28FF).contains(&(ch as u32)));
            if ch != ' ' {
                lit += 1;
            }
        }
    }
    assert!(lit > 2, "diagonal visible");
    let mut b2 = Buffer::blank(4, 2, t.desktop);
    VirtualCanvas::new(4, 2).render_to_buffer(&mut b2, Rect::new(0, 0, 4, 2), Color::Yellow, t.desktop);
    for y in 0..2u16 {
        for x in 0..4u16 {
            assert_eq!(b2.get(x, y).unwrap().ch, ' ');
        }
    }
}

fn icon_attr() -> (Attr, Theme) {
    let t = Theme::clipper();
    (t.popup_attr(), t)
}

#[test]
fn folder_uses_configurable_glyphs() {
    let (a, t) = icon_attr();
    let mut b = Buffer::blank(20, 4, t.desktop);
    assert_eq!(folder(&mut b, 1, 1, false, a, Color::Yellow, FolderGlyphs::nerd()), 1);
    assert_eq!(b.get(1, 1).unwrap().ch, '\u{f07b}');
    assert_eq!(b.get(1, 1).unwrap().fg, Color::Yellow);
    folder(&mut b, 1, 2, true, a, Color::Yellow, FolderGlyphs::nerd());
    assert_eq!(b.get(1, 2).unwrap().ch, '\u{f07c}');
    folder(&mut b, 1, 3, false, a, Color::Yellow, FolderGlyphs::ascii());
    assert_eq!(b.get(1, 3).unwrap().ch, '►');
}

#[test]
fn drive_spells_letter() {
    let (a, t) = icon_attr();
    let mut b = Buffer::blank(20, 4, t.desktop);
    assert_eq!(drive(&mut b, 1, 1, 'c', a, Color::Yellow), 4);
    assert_eq!(b.get(2, 1).unwrap().ch, 'C');
    assert_eq!(b.get(2, 1).unwrap().fg, Color::Yellow);
}

#[test]
fn window_boxes() {
    let (a, t) = icon_attr();
    let mut b = Buffer::blank(20, 4, t.desktop);
    assert_eq!(tui90::prim::icons::win_close(&mut b, 1, 1, a, Color::Yellow), 3);
    assert_eq!(tui90::prim::icons::win_min(&mut b, 5, 1, a), 3);
    assert_eq!(b.get(2, 1).unwrap().ch, '\u{25a0}');
    assert_eq!(b.get(6, 1).unwrap().ch, '-');
}

#[test]
fn drive_retro_draws_chassis_and_letter() {
    let t = Theme::clipper();
    let mut b = Buffer::blank(30, 4, t.desktop);
    let w = drive_badge(&mut b, 2, 1, 'a', DriveType::Floppy35, IconMode::RetroCp437, false, t);
    assert_eq!(w, 6);
    assert_eq!(b.get(2, 1).unwrap().ch, '[');
    assert_eq!(b.get(3, 1).unwrap().ch, '\u{2261}');
    assert_eq!(b.get(6, 1).unwrap().ch, 'A');
    assert_eq!(b.get(7, 1).unwrap().ch, ':');
    let w2 = drive_badge(&mut b, 2, 2, 'c', DriveType::HardDisk, IconMode::RetroCp437, false, t);
    assert_eq!(w2, 7);
    assert_eq!(b.get(3, 2).unwrap().ch, '\u{25a0}');
    assert_eq!(b.get(4, 2).unwrap().ch, '-');
    assert_eq!(b.get(4, 2).unwrap().fg, Color::Green);
    drive_badge(&mut b, 12, 1, 'd', DriveType::CdRom, IconMode::RetroCp437, true, t);
    assert_eq!(b.get(12, 1).unwrap().bg, Color::Yellow);
    assert_eq!(b.get(16, 1).unwrap().ch, 'D');
}

#[test]
fn drive_nerdfont_draws_glyphs() {
    let t = Theme::clipper();
    let mut b = Buffer::blank(30, 4, t.desktop);
    let w = drive_badge(&mut b, 2, 1, 'c', DriveType::HardDisk, IconMode::NerdFont, false, t);
    assert_eq!(w, 4);
    assert_eq!(b.get(2, 1).unwrap().ch, '\u{f02ca}');
    assert_eq!(b.get(4, 1).unwrap().ch, 'C');
    let w2 = drive_badge(&mut b, 8, 1, 'a', DriveType::Floppy35, IconMode::NerdFont, false, t);
    assert_eq!(w2, 4);
    assert_eq!(b.get(8, 1).unwrap().ch, '\u{f0a0}');
}

#[test]
fn fkey_badge_renders_key_block_and_action() {
    let t = Theme::clipper();
    let mut b = Buffer::blank(30, 4, t.desktop);
    let w = fkey_badge(&mut b, 2, 1, 1, "Help", t);
    assert_eq!(w, 2 + 1 + 4);
    assert_eq!(b.get(2, 1).unwrap().ch, 'F');
    assert_eq!(b.get(2, 1).unwrap().bg, Color::Yellow);
    assert_eq!(b.get(2, 1).unwrap().fg, Color::Black);
    assert!(b.get(2, 1).unwrap().bold);
    assert_eq!(b.get(5, 1).unwrap().ch, 'H');
    assert_eq!(b.get(5, 1).unwrap().bg, t.navy);
    assert_eq!(b.get(5, 1).unwrap().fg, Color::White);
}

#[test]
fn window_controls_have_fixed_width() {
    let t = Theme::clipper();
    let mut b = Buffer::blank(30, 4, t.desktop);
    let a = Attr::new(Color::White, Color::Black);
    assert_eq!(win_close(&mut b, 1, 1, a, Color::Yellow), 3);
    assert_eq!(b.get(2, 1).unwrap().ch, '\u{25a0}');
    assert_eq!(win_zoom(&mut b, 5, 1, a, Color::Yellow), 3);
    assert_eq!(b.get(6, 1).unwrap().ch, '\u{25b2}');
    assert_eq!(win_min(&mut b, 9, 1, a, Color::Yellow), 3);
    assert_eq!(b.get(10, 1).unwrap().ch, '\u{25bc}');
    assert_eq!(win_resize_grip(&mut b, 13, 1, a), 1);
    assert_eq!(b.get(13, 1).unwrap().ch, '\u{25e2}');
}

#[test]
fn folders_and_files_in_both_modes() {
    let t = Theme::clipper();
    let mut b = Buffer::blank(30, 6, t.desktop);
    assert_eq!(folder_badge(&mut b, 2, 1, false, IconMode::RetroCp437, t), 3);
    assert_eq!(b.get(3, 1).unwrap().ch, '+');
    assert_eq!(folder_badge(&mut b, 2, 2, true, IconMode::RetroCp437, t), 3);
    assert_eq!(b.get(3, 2).unwrap().ch, '-');
    assert_eq!(folder_badge(&mut b, 2, 3, false, IconMode::NerdFont, t), 1);
    assert_eq!(b.get(2, 3).unwrap().ch, '\u{f07b}');
    assert_eq!(folder_badge(&mut b, 2, 4, true, IconMode::NerdFont, t), 1);
    assert_eq!(b.get(2, 4).unwrap().ch, '\u{f07c}');
    file_badge(&mut b, 8, 1, "PARK.COM", IconMode::RetroCp437, t);
    assert_eq!(b.get(8, 1).unwrap().ch, '*');
    assert_eq!(b.get(8, 1).unwrap().fg, Color::Green);
    file_badge(&mut b, 8, 2, "APROD.DBF", IconMode::RetroCp437, t);
    assert_eq!(b.get(8, 2).unwrap().ch, '\u{2261}');
    assert_eq!(b.get(8, 2).unwrap().fg, Color::Cyan);
    file_badge(&mut b, 8, 3, "LEEME.TXT", IconMode::RetroCp437, t);
    assert_eq!(b.get(8, 3).unwrap().fg, Color::White);
    file_badge(&mut b, 8, 4, "RARO.XYZ", IconMode::RetroCp437, t);
    assert_eq!(b.get(8, 4).unwrap().fg, Color::Grey);
}

#[test]
fn icons_clip_at_buffer_edge() {
    let t = Theme::clipper();
    let mut b = Buffer::blank(10, 2, t.desktop);
    assert_eq!(drive_badge(&mut b, 9, 0, 'c', DriveType::HardDisk, IconMode::RetroCp437, false, t), 7);
    assert_eq!(fkey_badge(&mut b, 9, 0, 10, "Menu", t), 3 + 1 + 4);
    assert_eq!(folder_badge(&mut b, 9, 0, false, IconMode::RetroCp437, t), 3);
}

#[test]
fn parse_marks_hotkey() {
    let (t, h) = parse_hotkey("&Respaldo");
    assert_eq!(t, "Respaldo");
    assert_eq!(h, Some((0, 'R')));
}

#[test]
fn parse_double_amp_is_literal() {
    let (t, h) = parse_hotkey("A && B");
    assert_eq!(t, "A & B");
    assert_eq!(h, Some((0, 'A')));
}

#[test]
fn parse_auto_hotkey_first_alpha() {
    let (t, h) = parse_hotkey("Ordenar índices");
    assert_eq!(t, "Ordenar índices");
    assert_eq!(h, Some((0, 'O')));
}

#[test]
fn draw_paints_hot_yellow() {
    let t = Theme::clipper();
    let mut b = Buffer::blank(20, 3, t.popup);
    draw_hot_label(&mut b, 1, 1, "&Respaldo", t.popup_attr(), t.hot_attr());
    assert_eq!(b.get(1, 1).unwrap(), Cell::with_attr('R', t.hot_attr()));
    assert_eq!(b.get(2, 1).unwrap(), Cell::with_attr('e', t.popup_attr()));
}

#[test]
fn fit_text_truncates_with_ellipsis() {
    let f = fit_text("Proveedores importantes", 10);
    assert!(visible_len(&f) <= 10, "f={f}");
    assert!(f.ends_with('…'), "f={f}");
    assert_eq!(fit_text("Hola", 10), "Hola");
    assert_eq!(fit_text("abc", 0), "");
}

#[test]
fn arrows_thumb_and_track() {
    let t = Theme::clipper();
    let mut b = Buffer::blank(10, 10, t.desktop);
    vscrollbar(&mut b, Rect::new(8, 1, 1, 8), 20, 0, 5, t);
    assert_eq!(b.get(8, 1).unwrap().ch, '▲');
    assert_eq!(b.get(8, 8).unwrap().ch, '▼');
    assert_eq!(b.get(8, 2).unwrap().ch, '█');
    assert_eq!(b.get(8, 7).unwrap().ch, '░');
}

#[test]
fn thumb_follows_top() {
    let t = Theme::clipper();
    let mut b = Buffer::blank(10, 10, t.desktop);
    vscrollbar(&mut b, Rect::new(8, 1, 1, 8), 20, 15, 5, t);
    assert_eq!(b.get(8, 7).unwrap().ch, '█');
    assert_eq!(b.get(8, 2).unwrap().ch, '░');
}

#[test]
fn draws_between_bounds() {
    let t = Theme::clipper();
    let mut b = Buffer::blank(20, 5, t.popup);
    hsep(&mut b, 2, 3, 8, t.popup_text, t.popup);
    assert_eq!(b.get(3, 2).unwrap().ch, '─');
    assert_eq!(b.get(8, 2).unwrap().ch, '─');
    assert_eq!(b.get(2, 2).unwrap().ch, ' ');
}

#[test]
fn translucent_keeps_glyph_and_darkens() {
    let t = Theme::clipper();
    let mut b = Buffer::blank(10, 6, Color::White);
    b.text(3, 2, "AB", Color::Black, Color::White);
    shadow(&mut b, Rect::new(1, 1, 4, 2), t);
    let c = b.get(3, 2).unwrap();
    assert_eq!(c.ch, 'A');
    assert_eq!(c.bg, Color::DarkGrey);
    assert_ne!(c.bg, t.shadow);
    assert_eq!(c.fg, Color::Black);
    assert!(!c.bold);
    assert!(c.dim);
    assert_eq!(b.get(1, 1).unwrap().bg, Color::White);
    let mut b2 = Buffer::blank(10, 6, Color::Cyan);
    shadow(&mut b2, Rect::new(1, 1, 4, 2), t);
    let c2 = b2.get(3, 2).unwrap();
    assert_eq!(c2.bg, Color::DarkGrey);
    assert_ne!(c2.bg, Color::Navy);
    assert_ne!(c2.bg, t.shadow);
}

#[test]
fn darken_by_is_neutral_luminance() {
    assert_eq!(darken_by(Color::White, 1, 2), Color::Grey);
    assert_eq!(darken_by(Color::White, 2, 5), Color::DarkGrey);
    assert_eq!(darken_by(Color::Cyan, 1, 2), Color::DarkGrey);
    assert_eq!(darken_by(Color::Cyan, 2, 5), Color::DarkGrey);
    assert_eq!(darken_by(Color::Yellow, 1, 2), Color::Grey);
    assert_eq!(darken_by(Color::Red, 1, 2), Color::DarkGrey);
    assert_eq!(darken_by(Color::Green, 1, 2), Color::DarkGrey);
    assert_eq!(darken_by(Color::Grey, 1, 2), Color::DarkGrey);
    assert_eq!(darken_by(Color::Grey, 2, 5), Color::DarkGrey);
    assert_eq!(darken_by(Color::DarkGrey, 1, 2), Color::DarkGrey);
    assert_eq!(darken_by(Color::DarkGrey, 2, 5), Color::DarkGrey);
    assert_eq!(darken_by(Color::Black, 2, 5), Color::Black);
    assert_eq!(darken_by(Color::Navy, 1, 2), Color::Black);
    assert_eq!(darken_by(Color::Blue, 1, 2), Color::Black);
    for c in [
        Color::Black,
        Color::Navy,
        Color::Blue,
        Color::Teal,
        Color::Cyan,
        Color::DarkGrey,
        Color::Grey,
        Color::White,
        Color::Yellow,
        Color::Mint,
        Color::Red,
        Color::Green,
    ] {
        let out = darken_by(c, 2, 5);
        assert!(!matches!(out, Color::Navy | Color::Blue | Color::Teal | Color::Cyan), "tint on {c:?} gives {out:?}");
    }
}

#[test]
fn stipple_is_checkerboard() {
    let t = Theme::clipper();
    let mut b = Buffer::blank(10, 6, Color::White);
    b.text(0, 0, "0123456789", Color::Black, Color::White);
    shadow_stipple(&mut b, Rect::new(0, 0, 8, 1), t);
    let mut dark = 0usize;
    let mut kept = 0usize;
    for x in 2..10u16 {
        if b.get(x, 1).unwrap().bg == t.shadow {
            dark += 1;
        } else {
            kept += 1;
        }
    }
    assert!(dark > 0 && kept > 0, "must alternate");
    assert!(dark.abs_diff(kept) <= 1);
}

#[test]
fn solid_stays_opaque() {
    let t = Theme::clipper();
    let mut b = Buffer::blank(10, 6, Color::White);
    b.text(3, 2, "AB", Color::Black, Color::White);
    shadow_solid(&mut b, Rect::new(1, 1, 4, 2), t);
    assert_eq!(b.get(3, 2).unwrap(), Cell::new(' ', t.shadow, t.shadow));
}

#[test]
fn shadow_at_screen_edge_clips_silently() {
    let t = Theme::clipper();
    let mut b = Buffer::blank(10, 6, Color::White);
    shadow(&mut b, Rect::new(7, 4, 5, 5), t);
    assert_eq!(b.get(9, 5).unwrap().bg, Color::DarkGrey);
    assert_eq!(b.get(0, 0).unwrap().bg, Color::White);
}

#[test]
fn bars_paint_first_and_last_rows() {
    let t = Theme::clipper();
    let mut b = Buffer::blank(30, 10, Color::White);
    top_bar(&mut b, "EMPRESA", "FECHA", t);
    status_bar(&mut b, "v0.0.1", "Ayuda", t);
    assert_eq!(b.get(0, 0).unwrap().bg, t.navy);
    assert_eq!(b.get(1, 0).unwrap().ch, 'E');
    assert_eq!(b.get(0, 9).unwrap().bg, t.status_bg);
    assert_eq!(b.get(1, 9).unwrap().ch, 'v');
    assert_eq!(b.get(1, 5).unwrap().bg, Color::White);
    assert_eq!(b.get(30 - 1 - 5, 0).unwrap().ch, 'F');
}

#[test]
fn modal_has_teal_title_grey_body_chromatic_shadow() {
    let t = Theme::clipper();
    let mut b = Buffer::blank(40, 15, t.desktop);
    let r = Rect::new(5, 3, 30, 9);
    window(&mut b, r, &WindowOpts::modal("ORDENAR", t), t);
    assert_eq!(b.get(5, 3).unwrap().ch, '\u{250c}');
    assert_eq!(b.get(5 + 30 - 1, 3).unwrap().ch, '\u{2510}');
    assert_eq!(b.get(5, 3 + 9 - 1).unwrap().ch, '\u{2514}');
    assert_eq!(b.get(5 + 30 - 1, 3 + 9 - 1).unwrap().ch, '\u{2518}');
    assert_eq!(b.get(5, 3).unwrap().bg, t.teal);
    assert_eq!(b.get(5 + (30 - 7) / 2, 3).unwrap().ch, 'O');
    assert_eq!(b.get(6, 3).unwrap().bg, t.teal);
    assert_eq!(b.get(6, 5).unwrap().bg, Color::Grey);
    let sh = b.get(7, 3 + 9).unwrap();
    assert_eq!(sh.bg, Color::DarkGrey);
    assert_ne!(sh.bg, Color::Black);
    assert!(sh.dim);
}

#[test]
fn long_title_truncates_inside() {
    let t = Theme::clipper();
    let mut b = Buffer::blank(20, 6, t.desktop);
    let r = Rect::new(2, 1, 12, 4);
    window(&mut b, r, &WindowOpts::modal("TITULO MUY LARGO QUE NO CABE", t), t);
    assert_eq!(b.get(2 + 12 - 1, 1).unwrap().bg, t.teal);
}

#[test]
fn close_box_and_border() {
    let t = Theme::clipper();
    let mut b = Buffer::blank(40, 15, t.desktop);
    let r = Rect::new(5, 3, 30, 9);
    let mut opts = WindowOpts::modal("ORDENAR", t);
    opts.controls = true;
    window(&mut b, r, &opts, t);
    assert_eq!(b.get(6, 3).unwrap().ch, '\u{2500}');
    assert_eq!(b.get(7, 3).unwrap().ch, '\u{2500}');
    assert_eq!(b.get(8, 3).unwrap().ch, '\u{2524}');
    assert_eq!(b.get(9, 3).unwrap().ch, '\u{25a0}');
    assert_eq!(b.get(9, 3).unwrap().fg, Color::Yellow);
    assert!(b.get(9, 3).unwrap().bold);
    assert_eq!(b.get(10, 3).unwrap().ch, '\u{251c}');
    let mut dbl = WindowOpts::modal("D", t);
    dbl.border_style = BorderStyle::Double;
    dbl.controls = true;
    window(&mut b, r, &dbl, t);
    assert_eq!(b.get(8, 3).unwrap().ch, '\u{2561}');
    assert_eq!(b.get(9, 3).unwrap().ch, '\u{25a0}');
    assert_eq!(b.get(10, 3).unwrap().ch, '\u{255e}');
    let mut bordered = WindowOpts::modal("B", t);
    bordered.border_color = Some(Color::Red);
    window(&mut b, r, &bordered, t);
    assert_eq!(b.get(5, 3).unwrap().ch, '\u{250c}');
    assert_eq!(b.get(5, 3).unwrap().fg, Color::Red);
    assert_eq!(b.get(5, 3).unwrap().bg, t.teal);
    assert_eq!(b.get(5 + 30 - 1, 3 + 9 - 1).unwrap().fg, Color::Red);
    assert_eq!(b.get(5 + 30 - 1, 3 + 9 - 1).unwrap().bg, Color::Grey);
    window(&mut b, r, &WindowOpts::modal("B", t), t);
    assert_eq!(b.get(5, 3 + 9 - 1).unwrap().ch, '\u{2514}');
    assert_eq!(b.get(5, 3 + 9 - 1).unwrap().bg, Color::Grey);
}

#[test]
fn single_bevel_and_none_styles() {
    let t = Theme::clipper();
    let mut b = Buffer::blank(40, 15, t.desktop);
    let r = Rect::new(5, 3, 30, 9);
    let mut single = WindowOpts::modal("S", t);
    single.border_style = BorderStyle::Single;
    window(&mut b, r, &single, t);
    assert_eq!(b.get(5, 3).unwrap().ch, '\u{250c}');
    assert_eq!(b.get(5 + 30 - 1, 3 + 9 - 1).unwrap().ch, '\u{2518}');
    assert_eq!(b.get(6, 3).unwrap().ch, '\u{2500}');
    assert_eq!(b.get(5, 4).unwrap().ch, '\u{2502}');
    let mut bevel = WindowOpts::modal("V", t);
    bevel.border_style = BorderStyle::Bevel3D;
    window(&mut b, r, &bevel, t);
    assert_eq!(b.get(5, 3).unwrap().fg, Color::White);
    assert_eq!(b.get(5, 4).unwrap().fg, Color::White);
    assert_eq!(b.get(5, 3 + 9 - 1).unwrap().fg, Color::DarkGrey);
    assert_eq!(b.get(5 + 30 - 1, 3 + 9 - 1).unwrap().fg, Color::DarkGrey);
    let mut flat = WindowOpts::modal("F", t);
    flat.border_style = BorderStyle::Flat;
    window(&mut b, r, &flat, t);
    assert_eq!(b.get(5, 3).unwrap().ch, ' ');
    assert_eq!(b.get(5, 3).unwrap().bg, t.teal);
    assert_eq!(b.get(5, 3 + 9 - 1).unwrap().bg, Color::Grey);
}

#[test]
fn presets_default_to_single() {
    let t = Theme::clipper();
    assert_eq!(WindowOpts::modal("M", t).border_style, BorderStyle::Single);
    assert_eq!(WindowOpts::form("F", t).border_style, BorderStyle::Single);
    assert_eq!(WindowOpts::dialog("D", t).border_style, BorderStyle::Single);
    assert_eq!(BorderStyle::default(), BorderStyle::Flat);
}

#[test]
fn shell_bars_and_work_area() {
    let t = Theme::clipper();
    let mut b = Buffer::blank(80, 25, Color::White);
    top_bar(&mut b, "EMPRESA DEMO", "FECHA", t);
    status_bar(&mut b, "TUI90 Demo", "Ayuda", t);
    assert_eq!(b.get(0, 0).unwrap().bg, t.navy);
    assert_eq!(b.get(0, 24).unwrap().bg, t.navy);
    assert_eq!(b.get(1, 12).unwrap().bg, Color::White);
}

#[test]
fn steep_line_lights_every_row() {
    let mut c = VirtualCanvas::new(6, 6);
    c.draw_line(0, 0, 11, 23);
    for row in 0..24usize {
        let lit = (0..12usize).any(|x| c.pixels[row * c.width + x]);
        assert!(lit, "fila {row} vacía en diagonal");
    }
    for col in 0..12usize {
        let lit = (0..24usize).any(|y| c.pixels[y * c.width + col]);
        assert!(lit, "columna {col} vacía");
    }
    assert!(c.pixels[0]);
    assert!(c.pixels[23 * c.width + 11]);
}

#[test]
fn fit_text_cuts_with_ellipsis() {
    assert_eq!(fit_text("Hola", 10), "Hola");
    assert_eq!(fit_text("abc", 0), "");
    // Without a mark the first letter is the hotkey, and its mark is kept.
    assert_eq!(fit_text("Guardar", 4), "&Gua…");
    assert_eq!(fit_text("&Guardar", 4), "&Gua…");
    assert_eq!(fit_text("Gu&ardar", 3), "Gu…");
    assert_eq!(visible_len(&fit_text("&Guardar", 4)), 4);
}

#[test]
fn fit_text_with_literal_ampersands_keeps_width() {
    let f = fit_text("a&&&bcdef", 4);
    assert_eq!(f, "a&&b…");
    assert!(visible_len(&f) <= 4);
    let g = fit_text("&&Guardar cambios", 6);
    assert!(visible_len(&g) <= 6);
    assert!(g.ends_with('…'));
}

#[test]
fn fit_text_keeps_the_hotkey_letter() {
    let f = fit_text("Gu&ardar", 5);
    assert_eq!(f, "Gu&ar…");
    assert_eq!(hot_key_of(&f), hot_key_of("Gu&ardar"));
    let g = fit_text("Guardar", 3);
    assert_eq!(hot_key_of(&g), Some('G'));
}
