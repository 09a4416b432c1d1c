use tui90::app::events::AppKey;
use tui90::engine::buffer::Buffer;
use tui90::engine::color::Color;
use tui90::engine::rect::Rect;
use tui90::engine::theme::Theme;
use tui90::widgets::dropdown::{dropdown_draw, dropdown_key, dropdown_overlay_rect, Dropdown, DropdownKey};
use tui90::widgets::grid::{grid_column_widths, grid_draw, grid_key, GridNav, GridTable};
use tui90::widgets::listbox::{listbox_draw, listbox_key, ListBox, ListNav};
use tui90::widgets::menubar::{menubar_draw, menubar_key, MenuBarKey, MenuDef};
use tui90::widgets::progress::{bar_fill_width, progress_draw, BarInfo, ProgressInfo};
use tui90::widgets::progressbar::{progress_eighths, progress_fill, progressbar_draw, ProgressBar, SUB_BLOCKS};
use tui90::widgets::statusbar::{fkey_bar, fkey_bar_compact, fkey_bar_stacked, fkey_bar_styled, split_fkey, FKeyStyle};
use tui90::widgets::tabs::{tab_draw, tab_key, tab_viewport, TabControl, TabNav, TabPosition};
use tui90::widgets::textarea::{textarea_draw, textarea_key, TextArea, TextAreaKey};

fn dd() -> Dropdown {
    let mut d = Dropdown::new("Depto", &["Ventas", "Compras", "Gerencia"]);
    d.max_height = 8;
    d
}

#[test]
fn closed_draws_selected_and_arrow() {
    let t = Theme::clipper();
    let mut b = Buffer::blank(40, 10, t.desktop);
    let d = dd();
    let r = Rect::new(2, 1, 20, 1);
    dropdown_draw(&mut b, r, &d, t);
    assert_eq!(b.get(3, 1).unwrap().ch, 'D');
    assert_eq!(b.get(2 + 20 - 2, 1).unwrap().ch, '\u{25bc}');
    assert_eq!(b.get(3, 1).unwrap().bg, d.bg_color);
}

#[test]
fn enter_opens_and_accepts() {
    let mut d = dd();
    assert_eq!(dropdown_key(&mut d, AppKey::Enter), DropdownKey::Opened);
    assert!(d.is_open);
    assert_eq!(dropdown_key(&mut d, AppKey::Down), DropdownKey::Moved(1));
    assert_eq!(dropdown_key(&mut d, AppKey::Enter), DropdownKey::Accepted(1));
    assert!(!d.is_open);
    assert_eq!(d.selected_index, 1);
    assert_eq!(d.selected(), "Compras");
}

#[test]
fn up_moves_and_wraps_circularly() {
    let mut d = dd();
    dropdown_key(&mut d, AppKey::Enter);
    assert_eq!(dropdown_key(&mut d, AppKey::Down), DropdownKey::Moved(1));
    assert_eq!(dropdown_key(&mut d, AppKey::Up), DropdownKey::Moved(0));
    assert_eq!(dropdown_key(&mut d, AppKey::Up), DropdownKey::Moved(2));
    assert_eq!(dropdown_key(&mut d, AppKey::Up), DropdownKey::Moved(1));
    assert_eq!(dropdown_key(&mut d, AppKey::Down), DropdownKey::Moved(2));
}

#[test]
fn esc_cancels_without_changing_selection() {
    let mut d = dd();
    dropdown_key(&mut d, AppKey::Enter);
    dropdown_key(&mut d, AppKey::Down);
    assert_eq!(dropdown_key(&mut d, AppKey::Esc), DropdownKey::Cancelled);
    assert!(!d.is_open);
    assert_eq!(d.selected_index, 0);
}

#[test]
fn letter_jumps_to_match() {
    let mut d = dd();
    dropdown_key(&mut d, AppKey::Enter);
    assert_eq!(dropdown_key(&mut d, AppKey::Char('g')), DropdownKey::Moved(2));
    let mut d2 = dd();
    assert_eq!(dropdown_key(&mut d2, AppKey::Char('c')), DropdownKey::Moved(1));
    assert_eq!(d2.selected_index, 1);
}

#[test]
fn open_draws_overlay_with_hover_and_scroll() {
    let t = Theme::clipper();
    let mut b = Buffer::blank(40, 12, t.desktop);
    let mut d = Dropdown::new("", &["A", "B", "C", "D", "E"]);
    d.max_height = 2;
    d.bg_color = Color::Blue;
    d.fg_color = Color::White;
    d.active_bg_color = Color::Grey;
    dropdown_key(&mut d, AppKey::Enter);
    dropdown_key(&mut d, AppKey::Down);
    dropdown_key(&mut d, AppKey::Down);
    assert_eq!(d.scroll_top, 1);
    let r = Rect::new(2, 1, 16, 1);
    dropdown_draw(&mut b, r, &d, t);
    let ov = dropdown_overlay_rect(r, &d, Rect::new(0, 0, 40, 12));
    assert_eq!(ov.h, 4);
    assert_eq!(b.get(ov.x + 2, ov.y + 2).unwrap().bg, d.active_bg_color);
}

#[test]
fn empty_stays_quiet() {
    let mut d = Dropdown::new("X", &[]);
    assert_eq!(dropdown_key(&mut d, AppKey::Enter), DropdownKey::Stay);
    assert_eq!(dropdown_key(&mut d, AppKey::Down), DropdownKey::Stay);
    let t = Theme::clipper();
    let mut b = Buffer::blank(30, 8, t.desktop);
    dropdown_draw(&mut b, Rect::new(1, 1, 12, 1), &d, t);
    assert_eq!(b.get(11, 1).unwrap().ch, '\u{25bc}');
}

fn inv() -> GridTable {
    GridTable::new(
        &["Ref", "Descripción"],
        vec![
            vec!["A1".to_string(), "Tornillo".to_string()],
            vec!["B22".to_string(), "Tuerca larga".to_string()],
            vec!["C333".to_string(), "Arandela".to_string()],
        ],
    )
}

#[test]
fn widths_auto_from_content() {
    let g = inv();
    let w = grid_column_widths(&g, 60);
    assert_eq!(w[0], 4 + 2);
    assert_eq!(w[1], 12 + 2);
    let mut fixed = inv();
    fixed.widths = vec![10, 0];
    let w2 = grid_column_widths(&fixed, 60);
    assert_eq!(w2[0], 10);
    let w3 = grid_column_widths(&g, 10);
    assert!(w3.iter().sum::<u16>() < 10);
}

#[test]
fn nav_scrolls_with_selection() {
    let mut g = inv();
    assert_eq!(grid_key(&mut g, 2, AppKey::Down), GridNav::Move(1));
    assert_eq!(grid_key(&mut g, 2, AppKey::End), GridNav::Move(2));
    assert_eq!(g.top, 1);
    assert_eq!(grid_key(&mut g, 2, AppKey::Home), GridNav::Move(0));
    assert_eq!(g.top, 0);
    assert_eq!(grid_key(&mut g, 2, AppKey::PageDown), GridNav::Move(2));
}

#[test]
fn draws_header_and_highlight() {
    let t = Theme::clipper();
    let mut b = Buffer::blank(50, 10, t.desktop);
    let mut g = inv();
    g.selected = 1;
    grid_draw(&mut b, Rect::new(2, 1, 40, 6), &g);
    assert_eq!(b.get(2, 1).unwrap().bg, g.header_bg);
    assert_eq!(b.get(3, 1).unwrap().ch, 'R');
    assert_eq!(b.get(3, 3).unwrap().bg, g.highlight_bg);
    assert_eq!(b.get(3, 3).unwrap().ch, 'B');
}

fn lb5() -> ListBox {
    ListBox::new(&["Alpha", "Beta", "Gamma", "Delta", "Epsilon"])
}

#[test]
fn nav_moves_pages_and_jumps() {
    let mut lb = lb5();
    assert_eq!(listbox_key(&mut lb, 3, AppKey::Down), ListNav::Move(1));
    assert_eq!(listbox_key(&mut lb, 3, AppKey::PageDown), ListNav::Move(4));
    assert_eq!(listbox_key(&mut lb, 3, AppKey::PageUp), ListNav::Move(1));
    assert_eq!(listbox_key(&mut lb, 3, AppKey::End), ListNav::Move(4));
    assert_eq!(listbox_key(&mut lb, 3, AppKey::Home), ListNav::Move(0));
    assert_eq!(listbox_key(&mut lb, 3, AppKey::Char('g')), ListNav::Move(2));
    assert_eq!(listbox_key(&mut lb, 3, AppKey::Up), ListNav::Move(1));
}

#[test]
fn scroll_follows_selection() {
    let mut lb = lb5();
    listbox_key(&mut lb, 2, AppKey::End);
    assert_eq!(lb.top, 3);
    listbox_key(&mut lb, 2, AppKey::Home);
    assert_eq!(lb.top, 0);
}

#[test]
fn draws_highlight_and_scrollbar() {
    let t = Theme::clipper();
    let mut b = Buffer::blank(40, 10, t.desktop);
    let mut lb = lb5();
    lb.selected = 1;
    let r = Rect::new(2, 1, 16, 7);
    listbox_draw(&mut b, r, &lb);
    assert_eq!(b.get(3, 2).unwrap().bg, lb.highlight_bg);
    assert_eq!(b.get(3, 2).unwrap().ch, 'B');
    assert_eq!(b.get(17, 1).unwrap().ch, '\u{25b2}');
    assert_eq!(b.get(17, 7).unwrap().ch, '\u{25bc}');
    let mut blocks = 0;
    for y in 2..7u16 {
        if b.get(17, y).unwrap().ch == '\u{2588}' {
            blocks += 1;
        }
    }
    assert_eq!(blocks, 1);
}

fn menu_defs() -> Vec<MenuDef> {
    vec![MenuDef::new("Archivos", &["Proveedores", "Clientes"]), MenuDef::new("Varios", &["Finalizar"])]
}

#[test]
fn left_right_wrap() {
    let m = menu_defs();
    assert_eq!(menubar_key(&m, 0, AppKey::Left), MenuBarKey::Move(1));
    assert_eq!(menubar_key(&m, 1, AppKey::Right), MenuBarKey::Move(0));
    assert_eq!(menubar_key(&m, 0, AppKey::Down), MenuBarKey::Open(0));
    assert_eq!(menubar_key(&m, 0, AppKey::Esc), MenuBarKey::Dismiss);
}

#[test]
fn letter_jumps_to_menu() {
    let m = menu_defs();
    assert_eq!(menubar_key(&m, 0, AppKey::Char('v')), MenuBarKey::Move(1));
    assert_eq!(menubar_key(&m, 1, AppKey::Char('V')), MenuBarKey::Open(1));
    assert_eq!(menubar_key(&m, 0, AppKey::Char('z')), MenuBarKey::Stay);
}

#[test]
fn draws_active_in_black() {
    let t = Theme::clipper();
    let mut b = Buffer::blank(80, 25, t.desktop);
    let m = menu_defs();
    menubar_draw(&mut b, Rect::new(0, 1, 80, 1), &m, 1, t);
    let x = 2 + 10 + 2;
    assert_eq!(b.get(x, 1).unwrap().bg, t.menu_attr(true).bg);
    assert_eq!(b.get(2, 1).unwrap().bg, t.teal);
}

#[test]
fn progress_fill_math() {
    assert_eq!(bar_fill_width(50, 0), 0);
    assert_eq!(bar_fill_width(50, 50), 25);
    assert_eq!(bar_fill_width(50, 100), 50);
    assert_eq!(bar_fill_width(50, 200), 50);
    assert_eq!(bar_fill_width(0, 50), 0);
}

#[test]
fn draws_track_and_fill() {
    let t = Theme::clipper();
    let mut buf = Buffer::blank(80, 25, t.desktop);
    let info = ProgressInfo::new(
        "ORDENAR INDICES",
        "999848KB",
        "00:00:00",
        vec![BarInfo::new("Inventario", "APROD.DAT", 12, 60, 546)],
    );
    progress_draw(&mut buf, Rect::new(0, 0, 80, 25), &info, t);
    assert_eq!(buf.get(20, 12).unwrap().ch, '\u{2588}');
    assert_eq!(buf.get(20, 12).unwrap().fg, t.popup);
    assert_eq!(buf.get(24, 12).unwrap().ch, '\u{258a}');
    assert_eq!(buf.get(25, 12).unwrap().ch, '\u{2591}');
    let row12: String = (0..80).map(|x| buf.get(x, 12).unwrap().ch).collect();
    assert!(row12.contains("12%"), "12% not found");
    let found = (0..25).any(|y| {
        let row: String = (0..80).map(|x| buf.get(x, y).unwrap().ch).collect();
        row.contains("60/546")
    });
    assert!(found, "counter 60/546 not found");
}

#[test]
fn progressbar_fill_math() {
    assert_eq!(progress_fill(0, 10), 0);
    assert_eq!(progress_fill(50, 10), 5);
    assert_eq!(progress_fill(100, 10), 10);
    assert_eq!(progress_fill(200, 10), 10);
}

#[test]
fn draws_fill_and_track() {
    let t = Theme::clipper();
    let mut b = Buffer::blank(30, 5, t.desktop);
    let mut bar = ProgressBar::new(50);
    bar.show_pct = false;
    progressbar_draw(&mut b, Rect::new(2, 1, 10, 1), &bar);
    assert_eq!(b.get(2, 1).unwrap().ch, '\u{2588}');
    assert_eq!(b.get(6, 1).unwrap().ch, '\u{2588}');
    assert_eq!(b.get(7, 1).unwrap().ch, ' ');
    assert_eq!(b.get(8, 1).unwrap().ch, '\u{2591}');
    assert_eq!(b.get(2, 1).unwrap().fg, bar.foreground_color);
}

#[test]
fn fractional_eighths() {
    assert_eq!(SUB_BLOCKS.len(), 8);
    assert_eq!(progress_eighths(0, 10), 0);
    assert_eq!(progress_eighths(100, 10), 80);
    assert_eq!(progress_eighths(200, 10), 80);
    let t = Theme::clipper();
    let mut b = Buffer::blank(30, 5, t.desktop);
    let mut bar = ProgressBar::new(13);
    bar.show_pct = false;
    progressbar_draw(&mut b, Rect::new(2, 1, 10, 1), &bar);
    assert_eq!(b.get(2, 1).unwrap().ch, '\u{2588}');
    assert_eq!(b.get(3, 1).unwrap().ch, '\u{258e}');
    assert_eq!(b.get(4, 1).unwrap().ch, '\u{2591}');
    let mut bar2 = ProgressBar::new(5);
    bar2.show_pct = false;
    progressbar_draw(&mut b, Rect::new(2, 3, 10, 1), &bar2);
    assert_eq!(b.get(2, 3).unwrap().ch, '\u{258c}');
    assert_eq!(b.get(3, 3).unwrap().ch, '\u{2591}');
}

#[test]
fn shows_pct_when_it_fits() {
    let t = Theme::clipper();
    let mut b = Buffer::blank(40, 5, t.desktop);
    let bar = ProgressBar::new(42);
    progressbar_draw(&mut b, Rect::new(2, 1, 20, 1), &bar);
    assert_eq!(b.get(10, 1).unwrap().ch, '\u{258d}');
    assert_eq!(b.get(11, 1).unwrap().ch, '2');
    assert_eq!(b.get(12, 1).unwrap().ch, '%');
}

#[test]
fn brackets_and_box_borders() {
    let t = Theme::clipper();
    let mut b = Buffer::blank(40, 8, t.desktop);
    let mut bar = ProgressBar::new(50);
    bar.show_pct = false;
    bar.border_color = Some(Color::Black);
    progressbar_draw(&mut b, Rect::new(2, 1, 12, 1), &bar);
    assert_eq!(b.get(2, 1).unwrap().ch, '[');
    assert_eq!(b.get(13, 1).unwrap().ch, ']');
    assert_eq!(b.get(3, 1).unwrap().ch, '\u{2588}');
    progressbar_draw(&mut b, Rect::new(2, 3, 12, 3), &bar);
    assert_eq!(b.get(2, 3).unwrap().ch, '\u{250c}');
    assert_eq!(b.get(13, 3).unwrap().ch, '\u{2510}');
    assert_eq!(b.get(2, 5).unwrap().ch, '\u{2514}');
    assert_eq!(b.get(13, 5).unwrap().ch, '\u{2518}');
    assert_eq!(b.get(3, 4).unwrap().ch, '\u{2588}');
}

#[test]
fn draws_keys_in_order() {
    let t = Theme::clipper();
    let mut buf = Buffer::blank(60, 25, t.desktop);
    fkey_bar(&mut buf, 24, &[("F2", "Grabar"), ("Esc", "Salir")], t);
    assert_eq!(buf.get(1, 24).unwrap().ch, ' ');
    assert_eq!(buf.get(2, 24).unwrap().ch, 'F');
    assert_eq!(buf.get(2, 24).unwrap().bg, t.button_bg);
}

#[test]
fn styled_applies_both_colors() {
    let t = Theme::clipper();
    let mut buf = Buffer::blank(60, 25, t.desktop);
    let style = FKeyStyle::highlight(Color::Yellow, Color::White, t.desktop);
    fkey_bar_styled(&mut buf, 0, &[("F2", "Grabar")], style);
    assert_eq!(buf.get(2, 0).unwrap().fg, Color::Yellow);
    assert_eq!(buf.get(4, 0).unwrap().fg, Color::White);
}

#[test]
fn stacked_puts_f_over_number() {
    let t = Theme::clipper();
    let mut buf = Buffer::blank(60, 25, t.desktop);
    let style = FKeyStyle::highlight(Color::Yellow, Color::White, t.desktop);
    fkey_bar_stacked(&mut buf, 22, &[("F2", "Grabar"), ("F10", "Menu")], style);
    assert_eq!(buf.get(1, 22).unwrap().ch, 'F');
    assert_eq!(buf.get(1, 23).unwrap().ch, '2');
    assert_eq!(buf.get(1, 22).unwrap().fg, Color::Yellow);
    let x2 = 1 + "2 Grabar".len() as u16 + 2;
    assert_eq!(buf.get(x2, 22).unwrap().ch, 'F');
    assert_eq!(buf.get(x2, 23).unwrap().ch, '1');
    assert_eq!(buf.get(x2 + 1, 23).unwrap().ch, '0');
}

#[test]
fn compact_uses_superscripts() {
    let t = Theme::clipper();
    let mut buf = Buffer::blank(60, 25, t.desktop);
    let style = FKeyStyle::highlight(Color::Yellow, Color::White, t.desktop);
    fkey_bar_compact(&mut buf, 24, &[("F2", "Help"), ("F10", "Menu"), ("Esc", "Salir")], style);
    assert_eq!(buf.get(1, 24).unwrap().ch, '²');
    assert_eq!(buf.get(1, 24).unwrap().fg, Color::Yellow);
    assert_eq!(buf.get(2, 24).unwrap().ch, 'H');
    let x2 = 1 + 1 + 4 + 2;
    assert_eq!(buf.get(x2, 24).unwrap().ch, '¹');
    assert_eq!(buf.get(x2 + 1, 24).unwrap().ch, '⁰');
}

#[test]
fn split_fkey_cases() {
    assert_eq!(split_fkey("F2"), ("F", "2"));
    assert_eq!(split_fkey("F10"), ("F", "10"));
    assert_eq!(split_fkey("Esc"), ("Esc", ""));
    assert_eq!(split_fkey("Enter"), ("Enter", ""));
}

fn tc() -> TabControl {
    let t = Theme::clipper();
    let mut c = TabControl::new(&["General", "Inventario"], TabPosition::Top, t);
    c.add_tab("Ayuda", Color::Yellow, Color::Navy);
    c
}

#[test]
fn viewport_top_and_left() {
    let c = tc();
    let r = Rect::new(10, 5, 50, 15);
    let v = tab_viewport(r, &c);
    assert_eq!((v.x, v.y, v.w, v.h), (11, 7, 48, 12));
    let mut left = tc();
    left.position = TabPosition::Left;
    let sw = left.strip_width();
    assert_eq!(sw, 14);
    let v2 = tab_viewport(r, &left);
    assert_eq!((v2.x, v2.y, v2.w, v2.h), (10 + 14 + 1, 6, 50 - 14 - 2, 13));
}

#[test]
fn nav_respects_position_and_wraps() {
    let mut c = tc();
    assert_eq!(tab_key(&mut c, AppKey::Right), TabNav::Move(1));
    assert_eq!(tab_key(&mut c, AppKey::Up), TabNav::Stay);
    assert_eq!(tab_key(&mut c, AppKey::Left), TabNav::Move(0));
    assert_eq!(tab_key(&mut c, AppKey::Left), TabNav::Move(2));
    c.position = TabPosition::Left;
    assert_eq!(tab_key(&mut c, AppKey::Down), TabNav::Move(0));
    assert_eq!(tab_key(&mut c, AppKey::Down), TabNav::Move(1));
    assert_eq!(tab_key(&mut c, AppKey::End), TabNav::Move(2));
    assert_eq!(tab_key(&mut c, AppKey::Home), TabNav::Move(0));
}

#[test]
fn card_has_ears_frame_and_opening() {
    let t = Theme::clipper();
    let mut b = Buffer::blank(60, 10, t.desktop);
    let mut c = TabControl::new(&["Uno", "Dos"], TabPosition::Top, t);
    c.active = 1;
    let v = tab_draw(&mut b, Rect::new(2, 1, 40, 8), &c);
    assert_eq!((v.x, v.y, v.w, v.h), (3, 3, 38, 5));
    assert_eq!(b.get(3, 1).unwrap().ch, '\u{2502}');
    assert_eq!(b.get(5, 1).unwrap().ch, 'U');
    assert_eq!(b.get(5, 1).unwrap().fg, Color::Grey);
    assert_eq!(b.get(3, 1).unwrap().bg, Color::DarkGrey);
    assert_eq!(b.get(11, 1).unwrap().ch, '\u{2502}');
    assert_eq!(b.get(11, 1).unwrap().bg, Color::White);
    assert_eq!(b.get(13, 1).unwrap().ch, 'D');
    assert_eq!(b.get(13, 1).unwrap().fg, Color::Navy);
    assert!(b.get(13, 1).unwrap().bold);
    assert_eq!(b.get(2, 2).unwrap().ch, '\u{250c}');
    assert_eq!(b.get(41, 2).unwrap().ch, '\u{2510}');
    assert_eq!(b.get(2, 8).unwrap().ch, '\u{2514}');
    assert_eq!(b.get(11, 2).unwrap().ch, '\u{2502}');
    assert_eq!(b.get(17, 2).unwrap().ch, '\u{2502}');
    assert_eq!(b.get(14, 2).unwrap().ch, ' ');
    assert_eq!(b.get(3, 2).unwrap().ch, '\u{2534}');
    assert_eq!(b.get(9, 2).unwrap().ch, '\u{2534}');
    assert_eq!(b.get(2, 4).unwrap().ch, '\u{2502}');
    assert_eq!(b.get(20, 5).unwrap().bg, t.popup);
}

#[test]
fn frame_uses_border_color_as_ink() {
    let t = Theme::clipper();
    let mut b = Buffer::blank(60, 10, t.desktop);
    let mut c = TabControl::new(&["Uno"], TabPosition::Top, t);
    c.border_color = Some(Color::Red);
    tab_draw(&mut b, Rect::new(2, 1, 30, 6), &c);
    assert_eq!(b.get(2, 2).unwrap().fg, Color::Red);
    assert_eq!(b.get(2, 2).unwrap().ch, '\u{250c}');
}

#[test]
fn left_strip_opens_active_row() {
    let t = Theme::clipper();
    let mut b = Buffer::blank(60, 12, t.desktop);
    let mut c = TabControl::new(&["Uno", "Dos"], TabPosition::Left, t);
    c.active = 0;
    let sw = c.strip_width();
    assert_eq!(sw, 7);
    let v = tab_draw(&mut b, Rect::new(2, 1, 30, 8), &c);
    assert_eq!((v.x, v.y, v.w, v.h), (2 + sw + 1, 2, 30 - sw - 2, 6));
    assert_eq!(b.get(2 + sw, 2).unwrap().bg, Color::White);
    assert_eq!(b.get(2 + sw, 3).unwrap().ch, '\u{2502}');
    assert_eq!(b.get(3, 2).unwrap().fg, Color::Navy);
}

#[test]
fn enter_splits_and_backspace_joins() {
    let mut a = TextArea::new(100);
    for c in "hola".chars() {
        textarea_key(&mut a, 5, AppKey::Char(c));
    }
    textarea_key(&mut a, 5, AppKey::Enter);
    for c in "bye".chars() {
        textarea_key(&mut a, 5, AppKey::Char(c));
    }
    assert_eq!(a.text(), "hola\nbye");
    textarea_key(&mut a, 5, AppKey::Home);
    assert_eq!(textarea_key(&mut a, 5, AppKey::Backspace), TextAreaKey::Changed);
    assert_eq!(a.text(), "holabye");
}

#[test]
fn max_chars_blocks_input() {
    let mut a = TextArea::new(3);
    for c in "abcd".chars() {
        textarea_key(&mut a, 5, AppKey::Char(c));
    }
    assert_eq!(a.text(), "abc");
    assert_eq!(textarea_key(&mut a, 5, AppKey::Enter), TextAreaKey::Stay);
}

#[test]
fn arrows_move_and_scroll() {
    let mut a = TextArea::with_text("l1\nl2\nl3\nl4", 100);
    textarea_key(&mut a, 2, AppKey::End);
    textarea_key(&mut a, 2, AppKey::Down);
    textarea_key(&mut a, 2, AppKey::Down);
    textarea_key(&mut a, 2, AppKey::Down);
    assert_eq!((a.cursor_row, a.scroll_top), (3, 2));
    textarea_key(&mut a, 2, AppKey::Up);
    assert_eq!(a.cursor_row, 2);
}

#[test]
fn draws_lines_and_cursor() {
    let t = Theme::clipper();
    let mut b = Buffer::blank(30, 8, t.desktop);
    let a = TextArea::with_text("ab\ncd", 100);
    textarea_draw(&mut b, Rect::new(2, 1, 12, 4), &a, true);
    assert_eq!(b.get(3, 1).unwrap().ch, 'a');
    assert_eq!(b.get(3, 2).unwrap().ch, 'c');
}

#[test]
fn textarea_text_roundtrips_through_with_text() {
    let a = TextArea::with_text("uno\ndos\n\ntres", 100);
    assert_eq!(a.text(), "uno\ndos\n\ntres");
    assert_eq!(a.char_count(), 13);
}

#[test]
fn textarea_enter_then_backspace_undoes() {
    let mut a = TextArea::with_text("abcd", 100);
    textarea_key(&mut a, 5, AppKey::Home);
    textarea_key(&mut a, 5, AppKey::Right);
    textarea_key(&mut a, 5, AppKey::Right);
    textarea_key(&mut a, 5, AppKey::Enter);
    assert_eq!(a.text(), "ab\ncd");
    textarea_key(&mut a, 5, AppKey::Backspace);
    assert_eq!(a.text(), "abcd");
    assert_eq!((a.cursor_row, a.cursor_col), (0, 2));
}

#[test]
fn listbox_down_then_up_returns() {
    let mut lb = lb5();
    lb.selected = 2;
    listbox_key(&mut lb, 3, AppKey::Down);
    listbox_key(&mut lb, 3, AppKey::Up);
    assert_eq!(lb.selected, 2);
}

#[test]
fn tab_paging_goes_round_and_back() {
    let t = Theme::clipper();
    let mut c = TabControl::new(&["Uno", "Dos", "Tres"], TabPosition::Top, t);
    c.set_active(2);
    assert_eq!(tab_key(&mut c, AppKey::Right), TabNav::Move(0));
    assert_eq!(tab_key(&mut c, AppKey::Left), TabNav::Move(2));
    assert_eq!(c.active, 2);
    let mut l = TabControl::new(&["Uno", "Dos", "Tres"], TabPosition::Left, t);
    assert_eq!(tab_key(&mut l, AppKey::Up), TabNav::Move(2));
    assert_eq!(tab_key(&mut l, AppKey::Down), TabNav::Move(0));
    assert_eq!(tab_key(&mut l, AppKey::Right), TabNav::Stay);
}

#[test]
fn textarea_outcomes_match_changes() {
    let mut a = TextArea::with_text("uno\ndos\n\ntres", 100);
    assert_eq!(a.lines.len(), 4);
    let chars: usize = a.lines.iter().map(|l| l.chars().count()).sum::<usize>() + a.lines.len() - 1;
    assert_eq!(chars, "uno\ndos\n\ntres".chars().count());
    let before = a.lines.clone();
    assert_eq!(textarea_key(&mut a, 3, AppKey::Up), TextAreaKey::Stay);
    assert_eq!(a.lines, before);
    assert_eq!((a.cursor_row, a.cursor_col), (0, 0));
    assert_eq!(textarea_key(&mut a, 3, AppKey::Down), TextAreaKey::Moved);
    assert_eq!(a.lines, before);
    assert_eq!(textarea_key(&mut a, 3, AppKey::Char('x')), TextAreaKey::Changed);
    assert_ne!(a.lines, before);
}
