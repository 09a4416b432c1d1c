use tui90::app::events::AppKey;
use tui90::engine::buffer::Buffer;
use tui90::engine::cell::Cell;
use tui90::engine::color::{Attr, Color};
use tui90::engine::rect::Rect;
use tui90::engine::screen::Screen;
use tui90::engine::theme::Theme;
use tui90::prim::label::{visible_len, HotAttrs};
use tui90::widgets::calendar::{
    calendar_draw, calendar_key, civil_from_days, days_from_civil, days_in_month, is_leap, weekday, CalNav,
    CalendarPicker,
};
use tui90::widgets::chart::ChartKind;
use tui90::widgets::checkradio::{
    check_key, check_width, check_width_styled, checkbox_draw, radio_draw, radio_key, CheckItem, CheckNav,
    CheckStyle, GlyphSet, RadioNav,
};
use tui90::widgets::dialog::{confirm_draw, confirm_key, confirm_layout, DialogKey};
use tui90::widgets::focus::{EventCtx, FocusManager, HandleEvent};
use tui90::widgets::form::{form_draw, form_key, Field, FormKey, FormState};
use tui90::widgets::grid::{GridNav, GridTable};
use tui90::widgets::hyperlink::{hyperlink_draw, Hyperlink};
use tui90::widgets::input::{input_draw, input_key, InputField, InputKey};
use tui90::widgets::list::{list_draw, list_key};
use tui90::widgets::menubar::{menubar_draw, menubar_key, MenuBarKey, MenuDef};
use tui90::widgets::msgbox::{msgbox_draw, msgbox_key, msgbox_layout, msgbox_wrap, Buttons, MsgBoxKey};
use tui90::widgets::popup::{popup_draw, popup_key, popup_layout, popup_size, PopupItem, PopupKey};
use tui90::widgets::progress::{progress_draw, BarInfo, ProgressInfo};
use tui90::widgets::table::{table_draw, table_key, TableDef, TableState};

#[test]
fn civil_roundtrips_and_known_weekdays() {
    assert_eq!(civil_from_days(days_from_civil(2026, 9, 8)), (2026, 9, 8));
    assert_eq!(civil_from_days(0), (1970, 1, 1));
    assert_eq!(weekday(2000, 1, 1), 5);
    assert_eq!(weekday(2026, 9, 1), 1);
    assert_eq!(days_in_month(2026, 9), 30);
    assert_eq!(days_in_month(2024, 2), 29);
    assert_eq!(days_in_month(2026, 2), 28);
}

#[test]
fn arrows_roll_months() {
    let mut c = CalendarPicker::new(2026, 9, 30);
    calendar_key(&mut c, AppKey::Right);
    assert_eq!((c.year, c.month, c.day), (2026, 10, 1));
    calendar_key(&mut c, AppKey::Left);
    assert_eq!((c.year, c.month, c.day), (2026, 9, 30));
    calendar_key(&mut c, AppKey::PageDown);
    assert_eq!((c.year, c.month), (2026, 10));
    assert_eq!(c.day, 30);
    let mut f = CalendarPicker::new(2026, 1, 31);
    calendar_key(&mut f, AppKey::PageDown);
    assert_eq!((f.month, f.day), (2, 28));
}

#[test]
fn draws_grid_with_selection() {
    let t = Theme::clipper();
    let mut b = Buffer::blank(40, 14, t.desktop);
    let c = CalendarPicker::new(2026, 9, 8);
    calendar_draw(&mut b, Rect::new(2, 1, 24, 10), &c);
    assert_eq!(b.get(6, 1).unwrap().ch, 'S');
    assert_eq!(b.get(3, 3).unwrap().ch, 'L');
    assert_eq!(b.get(7, 4).unwrap().ch, '1');
    assert_eq!(b.get(7, 5).unwrap().bg, c.selected_bg);
}

#[test]
fn civil_roundtrip_over_many_days() {
    for z in [-800_000i64, -719_468, -1, 0, 1, 59, 60, 365, 10_957, 11_016, 20_000, 2_932_896] {
        let (y, m, d) = civil_from_days(z);
        assert!((1..=12).contains(&m));
        assert!(d >= 1 && d <= days_in_month(y, m));
        assert_eq!(days_from_civil(y, m, d), z);
    }
    assert_eq!(days_from_civil(2000, 3, 1) - days_from_civil(2000, 2, 28), 2);
    assert_eq!(days_from_civil(1900, 3, 1) - days_from_civil(1900, 2, 28), 1);
    assert!(is_leap(2000) && is_leap(2024) && !is_leap(1900) && !is_leap(2026) && is_leap(-4));
}

#[test]
fn calendar_keys_cover_home_end_and_enter() {
    let mut c = CalendarPicker::new(2024, 2, 10);
    assert_eq!(calendar_key(&mut c, AppKey::End), CalNav::Move(2024, 2, 29));
    assert_eq!(calendar_key(&mut c, AppKey::Home), CalNav::Move(2024, 2, 1));
    assert_eq!(calendar_key(&mut c, AppKey::Up), CalNav::Move(2024, 1, 25));
    assert_eq!(calendar_key(&mut c, AppKey::PageUp), CalNav::Move(2023, 12, 25));
    assert_eq!(calendar_key(&mut c, AppKey::Enter), CalNav::Accept(2023, 12, 25));
    assert_eq!(calendar_key(&mut c, AppKey::Tab), CalNav::Stay);
    let n = CalendarPicker::new(2026, 13, 0);
    assert_eq!((n.month, n.day), (12, 1));
}

fn hot_base() -> (Attr, Attr) {
    let t = Theme::clipper();
    (t.dialog_attr(), Attr::bold(Color::Red, t.dialog))
}

#[test]
fn draws_box_and_label() {
    let t = Theme::clipper();
    let mut b = Buffer::blank(40, 5, t.dialog);
    let (base, hot) = hot_base();
    let style = CheckStyle::new(HotAttrs { base, hot }, GlyphSet::modern());
    let w = checkbox_draw(&mut b, 2, 1, &CheckItem::new("&Compresión", true), false, style);
    assert_eq!(b.get(2, 1).unwrap().ch, '\u{2611}');
    assert_eq!(b.get(4, 1).unwrap().fg, Color::Red);
    assert!(w >= 2 + visible_len("Compresión"));
    checkbox_draw(&mut b, 2, 0, &CheckItem::new("Off", false), false, style);
    assert_eq!(b.get(2, 0).unwrap().ch, '\u{2610}');
    let w2 = radio_draw(&mut b, 2, 2, "Rápido", true, false, style);
    assert_eq!(b.get(2, 2).unwrap().ch, '\u{25c9}');
    assert!(w2 >= 2);
    radio_draw(&mut b, 2, 3, "Lento", false, false, style);
    assert_eq!(b.get(2, 3).unwrap().ch, '\u{25cb}');
    let ascii = CheckStyle::new(HotAttrs { base, hot }, GlyphSet::ascii());
    checkbox_draw(&mut b, 10, 3, &CheckItem::new("X", true), false, ascii);
    assert_eq!(b.get(10, 3).unwrap().ch, '[');
    assert_eq!(b.get(11, 3).unwrap().ch, 'X');
    radio_draw(&mut b, 10, 4, "R", true, false, ascii);
    assert_eq!(b.get(10, 4).unwrap().ch, '(');
    assert_eq!(b.get(11, 4).unwrap().ch, '*');
    assert_eq!(check_width_styled(&CheckItem::new("AB", false), GlyphSet::modern()), 2 + 2);
    assert_eq!(check_width_styled(&CheckItem::new("AB", false), GlyphSet::ascii()), 4 + 2);
}

#[test]
fn check_nav_moves_and_toggles() {
    let items = vec![CheckItem::new("A", false), CheckItem::new("B", true)];
    assert_eq!(check_key(&items, 0, AppKey::Down), CheckNav::Move(1));
    assert_eq!(check_key(&items, 1, AppKey::Down), CheckNav::Move(0));
    assert_eq!(check_key(&items, 0, AppKey::Char(' ')), CheckNav::Toggled(0));
    assert_eq!(check_key(&items, 0, AppKey::Char('b')), CheckNav::Toggled(1));
}

#[test]
fn radio_nav_selects_directly() {
    assert_eq!(radio_key(3, 1, AppKey::Up), RadioNav::Select(0));
    assert_eq!(radio_key(3, 0, AppKey::Up), RadioNav::Select(2));
    assert_eq!(radio_key(3, 2, AppKey::Down), RadioNav::Select(0));
    assert_eq!(radio_key(0, 0, AppKey::Down), RadioNav::Stay);
}

#[test]
fn border_tints_ascii_frames_and_shadow_blends() {
    let t = Theme::clipper();
    let mut b = Buffer::blank(40, 8, t.dialog);
    let (base, hot) = hot_base();
    let style = CheckStyle::styled(HotAttrs { base, hot }, GlyphSet::ascii(), Some(Color::Yellow), true);
    let w = checkbox_draw(&mut b, 2, 1, &CheckItem::new("X", true), false, style);
    assert_eq!(b.get(2, 1).unwrap().ch, '[');
    assert_eq!(b.get(2, 1).unwrap().fg, Color::Yellow);
    assert_eq!(b.get(3, 1).unwrap().ch, 'X');
    assert_eq!(b.get(4, 1).unwrap().ch, ']');
    assert_eq!(b.get(4, 1).unwrap().fg, Color::Yellow);
    assert_eq!(b.get(2 + w, 1).unwrap().bg, Color::Black);
    assert_eq!(b.get(3, 2).unwrap().bg, Color::Black);
    assert_eq!(b.get(2 + w, 2).unwrap().bg, Color::Black);
    let plain = CheckStyle::new(HotAttrs { base, hot }, GlyphSet::modern());
    let mut b2 = Buffer::blank(40, 8, t.dialog);
    let w2 = checkbox_draw(&mut b2, 2, 1, &CheckItem::new("X", true), false, plain);
    assert_eq!(b2.get(2 + w2, 1).unwrap().bg, t.dialog);
}

#[test]
fn check_width_counts_frame() {
    assert_eq!(check_width(&CheckItem::new("&Abc", false)), 4 + 3);
    assert_eq!(GlyphSet::default(), GlyphSet::modern());
}

fn btns() -> Vec<String> {
    vec!["&Si".to_string(), "&No".to_string()]
}

#[test]
fn layout_centers_and_fits() {
    let screen = Rect::new(0, 0, 80, 25);
    let (r, rects) = confirm_layout("¿ Está conforme ?", &btns(), screen);
    assert_eq!(r.x, (80 - r.w) / 2);
    assert!(r.w >= 17 + 6);
    assert_eq!(rects.len(), 2);
    assert!(rects[1].x > rects[0].x);
}

#[test]
fn dialog_keys_accept_cancel_move() {
    let b = btns();
    assert_eq!(confirm_key(&b, 0, AppKey::Right), DialogKey::Move(1));
    assert_eq!(confirm_key(&b, 1, AppKey::Right), DialogKey::Move(0));
    assert_eq!(confirm_key(&b, 0, AppKey::Enter), DialogKey::Accept(0));
    assert_eq!(confirm_key(&b, 1, AppKey::Esc), DialogKey::Cancel);
    assert_eq!(confirm_key(&b, 0, AppKey::Char('n')), DialogKey::Accept(1));
    assert_eq!(confirm_key(&b, 0, AppKey::Char('s')), DialogKey::Accept(0));
}

#[test]
fn draws_question_and_buttons() {
    let t = Theme::clipper();
    let mut buf = Buffer::blank(80, 25, t.desktop);
    let screen = Rect::new(0, 0, 80, 25);
    confirm_draw(&mut buf, screen, "AVISO", "¿ Está conforme ?", &btns(), 0, t);
    let (r, _) = confirm_layout("¿ Está conforme ?", &btns(), screen);
    assert_eq!(buf.get(r.x + 2, r.y + 2).unwrap().bg, t.dialog);
    let qx = r.x + (r.w - 17) / 2;
    assert_eq!(buf.get(qx, r.y + 2).unwrap().ch, '¿');
}

fn fm() -> FocusManager {
    let mut f = FocusManager::new();
    f.add_scope("General", &[0, 1, 2, 3]);
    f.add_scope("Inventario", &[0, 1, 3]);
    f
}

#[test]
fn cycles_only_inside_active_scope() {
    let mut f = fm();
    f.set_active("General");
    assert_eq!(f.cycle_next(), Some(1));
    f.set_active("Inventario");
    assert_eq!(f.cycle_next(), Some(3));
    assert_eq!(f.cycle_next(), Some(0));
    assert!(!f.is_focusable(2));
    assert!(f.is_focusable(3));
}

#[test]
fn snaps_to_first_when_current_is_hidden() {
    let mut f = fm();
    f.set_active("General");
    f.cycle_next();
    f.cycle_next();
    assert_eq!(f.current(), Some(2));
    f.set_active("Inventario");
    assert_eq!(f.current(), Some(0));
}

#[test]
fn empty_or_unknown_scope_is_quiet() {
    let mut f = FocusManager::new();
    assert_eq!(f.cycle_next(), None);
    f.add_scope("A", &[]);
    f.set_active("A");
    assert_eq!(f.cycle_next(), None);
    f.set_active("Inexistente");
    assert_eq!(f.current(), None);
}

#[test]
fn focus_scope_redeclared_replaces_stops_and_prev_cycles_back() {
    let mut f = fm();
    assert_eq!(f.active(), "General");
    f.add_scope("General", &[5, 6]);
    assert_eq!(f.current(), Some(5));
    assert_eq!(f.cycle_prev(), Some(6));
    assert_eq!(f.cycle_prev(), Some(5));
    assert_eq!(EventCtx::new(4).visible, 4);
}

#[test]
fn grid_handles_events_through_the_trait() {
    let mut g = GridTable::new(&["A"], vec![vec!["1".to_string()], vec!["2".to_string()]]);
    assert_eq!(g.handle_event(&EventCtx::new(5), AppKey::Down), GridNav::Move(1));
    assert_eq!(ChartKind::default(), ChartKind::Bars3D);
}

fn form_state() -> FormState {
    FormState::new(vec![Field::text("Código", "", 5), Field::number("Clase", "", 3), Field::yesno("Seriales", false)])
}

#[test]
fn typing_respects_kind_and_width() {
    let mut s = form_state();
    form_key(&mut s, AppKey::Char('A'));
    form_key(&mut s, AppKey::Char('B'));
    assert_eq!(s.fields[0].value, "AB");
    form_key(&mut s, AppKey::Tab);
    form_key(&mut s, AppKey::Char('X'));
    form_key(&mut s, AppKey::Char('5'));
    assert_eq!(s.fields[1].value, "5");
    form_key(&mut s, AppKey::Tab);
    assert_eq!(s.fields[2].value, "No");
    form_key(&mut s, AppKey::Char(' '));
    assert_eq!(s.fields[2].value, "Si");
}

#[test]
fn enter_accepts_on_last_esc_cancels() {
    let mut s = form_state();
    assert_eq!(form_key(&mut s, AppKey::Esc), FormKey::Cancel);
    assert_eq!(form_key(&mut s, AppKey::Enter), FormKey::Moved);
    assert_eq!(form_key(&mut s, AppKey::Enter), FormKey::Moved);
    assert_eq!(form_key(&mut s, AppKey::Enter), FormKey::Accept);
}

#[test]
fn draws_focused_field_grey() {
    let t = Theme::clipper();
    let mut buf = Buffer::blank(60, 12, t.desktop);
    let r = Rect::new(5, 2, 50, 8);
    let s = form_state();
    form_draw(&mut buf, r, "DEPARTAMENTOS", &s, t);
    assert_eq!(buf.get(6, 4).unwrap().bg, t.form_bg);
    let name_w = visible_len("Seriales");
    let vx = 5 + 2 + name_w + 3;
    assert_eq!(buf.get(vx, 2 + 2).unwrap().bg, t.field_bg);
}

#[test]
fn form_backspace_and_width_limit() {
    let mut s = FormState::new(vec![Field::text("N", "abc", 3)]);
    form_key(&mut s, AppKey::Char('d'));
    assert_eq!(s.fields[0].value, "abc");
    form_key(&mut s, AppKey::Backspace);
    assert_eq!(s.fields[0].value, "ab");
    assert_eq!(form_key(&mut FormState::new(vec![]), AppKey::Enter), FormKey::Cancel);
}

#[test]
fn osc8_sequence_is_exact() {
    let l = Hyperlink::new("Portal", "https://example.com/lib");
    assert_eq!(l.osc8_sequence(), "\u{1b}]8;;https://example.com/lib\u{1b}\\Portal\u{1b}]8;;\u{1b}\\");
}

#[test]
fn draws_bold_colored_text() {
    let t = Theme::clipper();
    let mut b = Buffer::blank(40, 5, t.desktop);
    let l = Hyperlink::new("Docs", "https://example.com");
    let w = hyperlink_draw(&mut b, 2, 1, &l);
    assert_eq!(w, 4);
    assert_eq!(b.get(2, 1).unwrap().ch, 'D');
    assert_eq!(b.get(2, 1).unwrap().fg, Color::Blue);
    assert!(b.get(2, 1).unwrap().bold);
}

#[test]
fn hyperlink_shadow_blends_row_below() {
    let t = Theme::clipper();
    let mut b = Buffer::blank(40, 5, t.desktop);
    let mut l = Hyperlink::new("Docs", "u");
    l.has_shadow = true;
    hyperlink_draw(&mut b, 2, 1, &l);
    assert_eq!(b.get(3, 2).unwrap().bg, Color::Black);
    assert!(b.get(6, 2).unwrap().dim);
    assert!(!b.get(2, 2).unwrap().dim);
}

#[test]
fn insert_respects_max_len() {
    let mut f = InputField::new(3);
    assert_eq!(input_key(&mut f, AppKey::Char('a')), InputKey::Changed);
    assert_eq!(input_key(&mut f, AppKey::Char('b')), InputKey::Changed);
    assert_eq!(input_key(&mut f, AppKey::Char('c')), InputKey::Changed);
    assert_eq!(input_key(&mut f, AppKey::Char('d')), InputKey::Stay);
    assert_eq!(f.value, "abc");
}

#[test]
fn backspace_delete_and_move() {
    let mut f = InputField::new(8);
    for c in "hi".chars() {
        input_key(&mut f, AppKey::Char(c));
    }
    input_key(&mut f, AppKey::Left);
    assert_eq!(input_key(&mut f, AppKey::Backspace), InputKey::Changed);
    assert_eq!(f.value, "i");
    input_key(&mut f, AppKey::End);
    input_key(&mut f, AppKey::Char('!'));
    assert_eq!(f.value, "i!");
    input_key(&mut f, AppKey::Home);
    assert_eq!(input_key(&mut f, AppKey::Delete), InputKey::Changed);
    assert_eq!(f.value, "!");
}

#[test]
fn mask_only_affects_display() {
    let mut f = InputField::new(8);
    f.mask = Some('*');
    for c in "sec".chars() {
        input_key(&mut f, AppKey::Char(c));
    }
    assert_eq!(f.display(), "***");
    assert_eq!(f.value, "sec");
}

#[test]
fn draws_value_and_focused_cursor() {
    let t = Theme::clipper();
    let mut b = Buffer::blank(30, 5, t.desktop);
    let mut f = InputField::new(12);
    f.background_color = Color::White;
    f.active_background_color = Color::Grey;
    for c in "AB".chars() {
        input_key(&mut f, AppKey::Char(c));
    }
    input_draw(&mut b, Rect::new(2, 1, 10, 1), &f, false);
    assert_eq!(b.get(2, 1).unwrap().ch, 'A');
    assert_eq!(b.get(2, 1).unwrap().bg, Color::White);
    input_draw(&mut b, Rect::new(2, 3, 10, 1), &f, true);
    assert_eq!(b.get(2, 3).unwrap().bg, Color::Grey);
    let cur = b.get(4, 3).unwrap();
    assert_eq!(cur.bg, f.foreground_color);
}

#[test]
fn input_scrolls_to_keep_cursor_visible() {
    let t = Theme::clipper();
    let mut b = Buffer::blank(30, 3, t.desktop);
    let mut f = InputField::new(20);
    for c in "abcdefgh".chars() {
        input_key(&mut f, AppKey::Char(c));
    }
    input_draw(&mut b, Rect::new(0, 0, 4, 1), &f, true);
    assert_eq!(b.get(0, 0).unwrap().ch, 'f');
    assert_eq!(b.get(2, 0).unwrap().ch, 'h');
    assert_eq!(b.get(3, 0).unwrap().ch, ' ');
    assert_eq!(b.get(3, 0).unwrap().bg, f.foreground_color);
}

#[test]
fn nav_clamps_and_pages() {
    assert_eq!(list_key(0, 6, AppKey::Up, 3), 0);
    assert_eq!(list_key(5, 6, AppKey::Down, 3), 5);
    assert_eq!(list_key(0, 6, AppKey::PageDown, 3), 3);
    assert_eq!(list_key(1, 6, AppKey::PageUp, 3), 0);
    assert_eq!(list_key(2, 6, AppKey::End, 3), 5);
    assert_eq!(list_key(2, 0, AppKey::Down, 3), 0);
}

#[test]
fn draws_blue_selection() {
    let t = Theme::clipper();
    let mut b = Buffer::blank(50, 12, t.window_bg);
    let items = vec!["Proveedores".to_string(), "Clientes".to_string()];
    list_draw(&mut b, Rect::new(5, 2, 40, 6), &items, 0, true, t);
    assert_eq!(b.get(5, 2).unwrap().bg, t.popup);
    assert_eq!(b.get(6, 3).unwrap().bg, t.window_bg);
}

#[test]
fn labels_per_variant() {
    assert_eq!(Buttons::OkOnly.labels(), vec!["Aceptar".to_string()]);
    assert_eq!(Buttons::OkCancel.labels().len(), 2);
    assert_eq!(Buttons::YesNo.labels(), vec!["Sí".to_string(), "No".to_string()]);
    assert_eq!(Buttons::default(), Buttons::OkOnly);
}

#[test]
fn layout_centers_with_wrapped_text() {
    let screen = Rect::new(0, 0, 80, 25);
    let (r, rects) = msgbox_layout("¿Abrir explorador de archivos?", &Buttons::YesNo, screen);
    assert_eq!(r.x, (80 - r.w) / 2);
    assert_eq!(rects.len(), 2);
    assert!(rects[1].x > rects[0].x);
    assert!(r.w >= 24);
}

#[test]
fn msgbox_keys_accept_cancel_move() {
    let b = Buttons::YesNo;
    assert_eq!(msgbox_key(&b, 0, AppKey::Right), MsgBoxKey::Move(1));
    assert_eq!(msgbox_key(&b, 1, AppKey::Right), MsgBoxKey::Move(0));
    assert_eq!(msgbox_key(&b, 0, AppKey::Enter), MsgBoxKey::Accept(0));
    assert_eq!(msgbox_key(&b, 0, AppKey::Esc), MsgBoxKey::Cancel);
}

#[test]
fn draws_message_and_one_row_buttons() {
    let t = Theme::clipper();
    let mut b = Buffer::blank(80, 25, t.desktop);
    let screen = Rect::new(0, 0, 80, 25);
    msgbox_draw(&mut b, screen, "AVISO", "Hola", &Buttons::OkOnly, 0, t);
    let (r, _) = msgbox_layout("Hola", &Buttons::OkOnly, screen);
    assert_eq!(b.get(r.x + 2, r.y + 2).unwrap().bg, t.dialog);
    let mut saw_button = false;
    let mut saw_shadow = false;
    for y in r.y..r.bottom() {
        for x in r.x..r.right() {
            let c = b.get(x, y).unwrap();
            if c.bg == t.button_bg {
                saw_button = true;
            }
            if c.ch == '\u{2580}' {
                saw_shadow = true;
            }
        }
    }
    assert!(saw_button && saw_shadow);
}

#[test]
fn long_message_wraps_inside() {
    let lines = msgbox_wrap("Esta es una frase deliberadamente larga para forzar el ajuste", 20);
    assert!(lines.len() > 1);
    assert!(lines.iter().all(|l| visible_len(l) <= 20));
}

#[test]
fn wrap_keeps_paragraphs_and_long_words() {
    let lines = msgbox_wrap("uno dos\nsupercalifragilistico tres", 8);
    assert_eq!(lines, vec!["uno dos", "supercalifragilistico", "tres"]);
    assert_eq!(msgbox_wrap("", 10), vec![""]);
}

fn popup_items() -> Vec<PopupItem> {
    vec![
        PopupItem::item("&Respaldo de datos"),
        PopupItem::item("Rec&uperar datos"),
        PopupItem::group("&Ordenar índices"),
        PopupItem::disabled("Cambio de &fecha"),
    ]
}

#[test]
fn size_counts_air_and_seps() {
    let (w, h) = popup_size(&popup_items());
    assert!(w >= visible_len("Recuperar datos") + 4);
    assert_eq!(h, 4 + 2 + 1);
}

#[test]
fn layout_clamps_near_edges() {
    let screen = Rect::new(0, 0, 80, 25);
    let r = popup_layout(79, 24, &popup_items(), screen);
    assert!(r.right() <= 80 && r.bottom() <= 25);
}

#[test]
fn nav_skips_sep_and_disabled() {
    let it = popup_items();
    assert_eq!(popup_key(&it, 1, AppKey::Down), PopupKey::Move(2));
    assert_eq!(popup_key(&it, 2, AppKey::Down), PopupKey::Move(0));
    assert_eq!(popup_key(&it, 0, AppKey::Up), PopupKey::Move(2));
    assert_eq!(popup_key(&it, 1, AppKey::Enter), PopupKey::Choose(1));
    assert_eq!(popup_key(&it, 1, AppKey::Esc), PopupKey::Dismiss);
}

#[test]
fn letter_chooses_by_hotkey() {
    let it = popup_items();
    assert_eq!(popup_key(&it, 0, AppKey::Char('o')), PopupKey::Choose(2));
    assert_eq!(popup_key(&it, 0, AppKey::Char('f')), PopupKey::Stay);
}

#[test]
fn popup_draws_grey_selection_and_translucent_shadow() {
    let t = Theme::clipper();
    let mut b = Buffer::blank(80, 25, t.desktop);
    let r = popup_layout(50, 2, &popup_items(), Rect::new(0, 0, 80, 25));
    popup_draw(&mut b, r, &popup_items(), 1, t);
    assert_eq!(b.get(r.x + 1, r.y + 2).unwrap().bg, t.select_bg);
    assert_eq!(b.get(r.x + 2, r.y + 1).unwrap().fg, t.hot);
    assert_eq!(b.get(r.right(), r.y + 1).unwrap().bg, Color::DarkGrey);
    assert!(b.get(r.right(), r.y + 1).unwrap().dim);
}

#[test]
fn popup_home_end_skip_disabled() {
    let it = popup_items();
    assert_eq!(popup_key(&it, 2, AppKey::Home), PopupKey::Move(0));
    assert_eq!(popup_key(&it, 0, AppKey::End), PopupKey::Move(2));
    assert_eq!(popup_key(&[], 0, AppKey::Down), PopupKey::Dismiss);
    assert_eq!(popup_key(&it, 3, AppKey::Enter), PopupKey::Move(0));
}

fn table_def() -> TableDef {
    TableDef::new(
        &[("Ref", 8), ("Costo", 10)],
        (0..20).map(|i| vec![format!("R{i:04}"), format!("{}.00", i * 10)]).collect(),
    )
}

#[test]
fn scrolls_viewport() {
    let mut s = TableState::new();
    table_key(&mut s, 20, 5, AppKey::PageDown);
    assert_eq!((s.row, s.top), (5, 1));
    table_key(&mut s, 20, 5, AppKey::End);
    assert_eq!((s.row, s.top), (19, 15));
    table_key(&mut s, 20, 5, AppKey::Home);
    assert_eq!((s.row, s.top), (0, 0));
}

#[test]
fn draws_header_and_cursor() {
    let t = Theme::clipper();
    let mut buf = Buffer::blank(60, 10, t.form_bg);
    let r = Rect::new(0, 0, 40, 8);
    let mut s = TableState::new();
    s.row = 1;
    table_draw(&mut buf, r, &table_def(), &s, "Linea: 2/20", t);
    assert_eq!(buf.get(0, 0).unwrap().bg, t.field_bg);
    assert_eq!(buf.get(0, 2).unwrap().bg, t.select_bg);
    assert_eq!(buf.get(0, 1).unwrap().bg, t.form_bg);
    assert_eq!(buf.get(1, 7).unwrap().ch, 'L');
}

#[test]
fn table_col_x_and_empty_reset() {
    let d = table_def();
    assert_eq!(d.col_x(0), 0);
    assert_eq!(d.col_x(1), 9);
    assert_eq!(d.col_x(5), 20);
    let mut s = TableState { row: 7, top: 3 };
    table_key(&mut s, 0, 5, AppKey::Down);
    assert_eq!(s, TableState::default());
}

fn menus() -> Vec<MenuDef> {
    vec![
        MenuDef::new("Archivos", &["Proveedores", "Clientes"]),
        MenuDef::new("Varios", &["&Respaldo de datos", "&Ordenar índices", "&Finalizar"]),
    ]
}

#[test]
fn popup_opens_under_active_menu() {
    let t = Theme::clipper();
    let mut buf = Buffer::blank(80, 25, t.desktop);
    let m = menus();
    menubar_draw(&mut buf, Rect::new(0, 1, 80, 1), &m, 1, t);
    let items: Vec<PopupItem> = m[1].items.iter().map(|i| PopupItem::item(&i.label)).collect();
    let r = popup_layout(14, 1, &items, Rect::new(0, 0, 80, 25));
    popup_draw(&mut buf, r, &items, 1, t);
    assert_eq!(buf.get(r.x + 2, r.y + 1).unwrap().bg, t.popup);
    assert_eq!(buf.get(r.x + 2, r.y + 1).unwrap().fg, t.hot);
    assert_eq!(buf.get(r.x + 1, r.y + 2).unwrap().bg, t.select_bg);
    assert_eq!(buf.get(r.right(), r.y + 1).unwrap().bg, Color::DarkGrey);
}

#[test]
fn stacked_dialogs_save_and_restore() {
    let t = Theme::clipper();
    let mut s = Screen::new(80, 25, t);
    let bounds = s.bounds();
    s.frame().fill_rect(bounds, Cell::blank(t.desktop));
    let base = s.frame().get(10, 10).unwrap();
    let id1 = s.savescreen(Rect::new(40, 2, 30, 10));
    s.frame().fill_rect(Rect::new(40, 2, 30, 10), Cell::new(' ', t.popup_text, t.popup));
    let id2 = s.savescreen(Rect::new(20, 10, 40, 7));
    confirm_draw(s.frame(), bounds, "AVISO", "¿ Está conforme ?", &["&Si".to_string(), "&No".to_string()], 0, t);
    assert!(s.restscreen(id2));
    assert!(s.restscreen(id1));
    assert_eq!(s.frame().get(10, 10).unwrap(), base);
}

#[test]
fn full_key_flows() {
    let m = menus();
    assert_eq!(menubar_key(&m, 0, AppKey::Char('v')), MenuBarKey::Move(1));
    let items: Vec<PopupItem> = m[1].items.iter().map(|i| PopupItem::item(&i.label)).collect();
    assert_eq!(popup_key(&items, 0, AppKey::Char('o')), PopupKey::Choose(1));
    assert_eq!(confirm_key(&["&Si".to_string(), "&No".to_string()], 0, AppKey::Char('n')), DialogKey::Accept(1));
}

#[test]
fn progress_over_modal() {
    let t = Theme::clipper();
    let mut s = Screen::new(80, 25, t);
    let bounds = s.bounds();
    s.frame().fill_rect(bounds, Cell::blank(t.work));
    let id = s.savescreen(bounds);
    progress_draw(
        s.frame(),
        bounds,
        &ProgressInfo::new(
            "ORDENAR INDICES",
            "999848KB",
            "00:00:00",
            vec![BarInfo::new("Inventario", "APROD.DAT", 12, 60, 546)],
        ),
        t,
    );
    let mut found_dialog = false;
    for x in 0..80 {
        for y in 0..25 {
            if s.frame().get(x, y).unwrap().bg == t.dialog {
                found_dialog = true;
            }
        }
    }
    assert!(found_dialog);
    assert!(s.restscreen(id));
    assert!(s.frame().get(40, 12).unwrap().bg == t.work);
}

#[test]
fn arrows_stay_when_nothing_can_be_chosen() {
    let it = vec![PopupItem::disabled("Uno"), PopupItem::disabled("Dos")];
    assert_eq!(popup_key(&it, 1, AppKey::Down), PopupKey::Move(1));
    assert_eq!(popup_key(&it, 0, AppKey::Up), PopupKey::Move(0));
    assert_eq!(popup_key(&it, 9, AppKey::Up), PopupKey::Move(1));
}

#[test]
fn wrapped_lines_fit_or_stand_alone() {
    let lines = msgbox_wrap("a superlargo b c d", 5);
    assert_eq!(lines, vec!["a".to_string(), "superlargo".to_string(), "b c d".to_string()]);
    for l in &lines {
        assert!(visible_len(l) <= 5 || !l.contains(' '));
    }
}

#[test]
fn previous_stop_undoes_next() {
    let mut f = fm();
    f.set_active("General");
    let start = f.current();
    let next = f.cycle_next();
    assert_ne!(next, start);
    assert_eq!(f.cycle_prev(), start);
    assert_eq!(f.current(), start);
    f.cycle_prev();
    assert_eq!(f.cycle_next(), start);
}

#[test]
fn next_day_crosses_months_and_years() {
    let mut c = CalendarPicker::new(2024, 2, 28);
    calendar_key(&mut c, AppKey::Right);
    assert_eq!((c.year, c.month, c.day), (2024, 2, 29));
    calendar_key(&mut c, AppKey::Right);
    assert_eq!((c.year, c.month, c.day), (2024, 3, 1));
    let mut d = CalendarPicker::new(2023, 12, 31);
    calendar_key(&mut d, AppKey::Right);
    assert_eq!((d.year, d.month, d.day), (2024, 1, 1));
    assert_eq!(days_from_civil(2024, 3, 1), days_from_civil(2024, 2, 29) + 1);
    assert_eq!(days_from_civil(2100, 3, 1), days_from_civil(2100, 2, 28) + 1);
}
