use tui90::app::app::{menu_title_x, test_app, ShellContent};
use tui90::app::events::{key_event, press_event, AppEvent, AppKey};
use tui90::app::fkeys::{draw_fkeys, match_fkey, FKeyBar, FKeyDef, FKeyError};
use tui90::app::focus::{Focus, Layer};
use tui90::app::layout::{centered, desktop, popup, DesktopLayout};
use tui90::engine::buffer::Buffer;
use tui90::engine::color::Color;
use tui90::engine::rect::Rect;
use tui90::engine::theme::Theme;
use tui90::engine::color::Attr;
use tui90::prim::canvas::VirtualCanvas;
use tui90::prim::icons::drive;
use tui90::text::{char_width, sort_strings};
use tui90::widgets::filedialog::{DirEntry, FileDialog};
use tui90::widgets::menubar::{menubar_draw, MenuDef};

#[test]
fn title_x_matches_draw_walk() {
    let m = vec![MenuDef::new("Archivos", &[]), MenuDef::new("Varios", &[])];
    assert_eq!(menu_title_x(&m, 0), 2);
    assert_eq!(menu_title_x(&m, 1), 2 + 10 + 2);
}

#[test]
fn title_x_skips_hotkey_marks() {
    let m = vec![MenuDef::new("&Ab", &[]), MenuDef::new("&Varios", &[])];
    assert_eq!(menu_title_x(&m, 1), 8);
    assert_eq!(menu_title_x(&m, 2), 8 + 8 + 2);
    assert_eq!(menu_title_x(&m, 9), 18);
    let t = Theme::clipper();
    let mut b = Buffer::blank(80, 1, t.desktop);
    menubar_draw(&mut b, Rect::new(0, 0, 80, 1), &m, 0, t);
    // Titles start where `menu_title_x` says: ` &Ab ` at 2, ` &Varios ` at 8.
    assert_eq!(b.get(3, 0).unwrap().ch, '&');
    assert_eq!(b.get(4, 0).unwrap().ch, 'A');
    assert_eq!(b.get(9, 0).unwrap().ch, '&');
    assert_eq!(b.get(10, 0).unwrap().ch, 'V');
}

#[test]
fn shell_paints_and_presents() {
    let mut app = test_app();
    let menus = vec![MenuDef::new("Archivos", &["X"]), MenuDef::new("Varios", &["Y"])];
    let fkeys = vec![FKeyDef::new("Esc", "Salir")];
    app.paint_shell(&ShellContent {
        company: "EMPRESA",
        date: "FECHA",
        status: "v0.0.1",
        help: "Ayuda",
        menus: &menus,
        active: 1,
        fkeys: &fkeys,
    });
    app.present().unwrap();
    let ops = app.backend.take();
    assert!(!ops.is_empty());
    app.present().unwrap();
    assert!(app.backend.take().is_empty());
    assert!(!app.should_quit());
    app.quit();
    assert!(app.should_quit());
}

#[test]
fn resize_keeps_app_alive() {
    let mut app = test_app();
    app.resize(40, 10);
    assert_eq!(app.screen.size(), (40, 10));
    let d = app.layout();
    assert_eq!(d.status.bottom(), 10);
}

fn fkey_defs() -> Vec<FKeyDef> {
    vec![FKeyDef::new("F2", "Grabar"), FKeyDef::new("Esc", "Salir")]
}

#[test]
fn matches_f_and_esc_case_insensitive() {
    let d = fkey_defs();
    assert_eq!(match_fkey(&d, AppKey::F(2)), Some(0));
    assert_eq!(match_fkey(&d, AppKey::F(9)), None);
    assert_eq!(match_fkey(&d, AppKey::Esc), Some(1));
    assert_eq!(match_fkey(&d, AppKey::Enter), None);
    assert_eq!(match_fkey(&d, AppKey::Char('x')), None);
}

#[test]
fn draws_row() {
    let t = Theme::clipper();
    let mut buf = Buffer::blank(60, 25, t.desktop);
    draw_fkeys(&mut buf, 23, &fkey_defs(), t);
    assert_eq!(buf.get(2, 23).unwrap().ch, 'F');
    assert_eq!(buf.get(2, 23).unwrap().bg, t.button_bg);
}

#[test]
fn bar_overflow_is_an_error() {
    let mut bar = FKeyBar::new(3);
    bar.load(1, "Help").unwrap();
    bar.load(2, "Qview").unwrap();
    bar.load(3, "Exit").unwrap();
    assert_eq!(bar.load(4, "Graphs"), Err(FKeyError::Overflow { cant_funcs: 3, tried: 4 }));
    assert_eq!(bar.len(), 3);
    let mut bar2 = FKeyBar::new(2);
    assert_eq!(bar2.load_many(&[(1, "A"), (2, "B"), (3, "C")]), Err(FKeyError::Overflow { cant_funcs: 2, tried: 3 }));
    assert!(bar2.is_empty());
    assert!(FKeyError::Overflow { cant_funcs: 3, tried: 4 }.message().contains('3'));
}

#[test]
fn bar_loads_in_order_and_draws_badges() {
    let t = Theme::clipper();
    let mut bar = FKeyBar::new(3);
    assert!(bar.is_empty());
    assert!(!bar.is_full());
    bar.load(1, "Help").unwrap();
    bar.load_many(&[(2, "Qview"), (3, "Exit")]).unwrap();
    assert_eq!(bar.len(), 3);
    assert!(bar.is_full());
    assert_eq!(bar.funcs_loads[0].action, "Help");
    assert_eq!(bar.funcs_loads[2].num, 3);
    let mut buf = Buffer::blank(60, 25, t.desktop);
    assert_eq!(bar.draw(&mut buf, 24, t), 7 + 8 + 7);
    assert_eq!(buf.get(1, 24).unwrap().ch, 'F');
    assert_eq!(buf.get(1, 24).unwrap().bg, Color::Yellow);
    assert_eq!(buf.get(2, 24).unwrap().ch, '1');
    assert_eq!(buf.get(4, 24).unwrap().ch, 'H');
    assert_eq!(
        FKeyError::Overflow { cant_funcs: 3, tried: 4 }.message(),
        "FKeyBar: 4 funciones no caben en 3 teclas declaradas"
    );
}

#[test]
fn push_pop_restores_previous() {
    let mut f = Focus::new();
    assert_eq!(f.top(), Layer::Desktop);
    f.push(Layer::MenuBar);
    f.push(Layer::Popup);
    assert!(f.is_modal());
    assert_eq!(f.pop(), Layer::Popup);
    assert_eq!(f.top(), Layer::MenuBar);
    assert!(!f.is_modal());
    f.pop();
    f.pop();
    assert_eq!(f.top(), Layer::Desktop);
    assert_eq!(f.depth(), 1);
}

#[test]
fn geometry_80x25() {
    let d = desktop(Rect::new(0, 0, 80, 25));
    assert_eq!(d.top, Rect::new(0, 0, 80, 1));
    assert_eq!(d.menu, Rect::new(1, 1, 78, 1));
    assert_eq!(d.work, Rect::new(1, 2, 78, 21));
    assert_eq!(d.fkeys, Rect::new(1, 23, 78, 1));
    assert_eq!(d.status, Rect::new(0, 24, 80, 1));
}

#[test]
fn tiny_screens_dont_panic_or_overlap() {
    for (w, h) in [(40, 10), (20, 5), (10, 3), (5, 2), (1, 1)] {
        let d = desktop(Rect::new(0, 0, w, h));
        for r in [d.top, d.menu, d.work, d.fkeys, d.status] {
            assert!(r.right() <= w, "w={w} h={h} r={r:?}");
            assert!(r.bottom() <= h, "w={w} h={h} r={r:?}");
        }
    }
}

#[test]
fn layout_shortcuts_center_and_anchor() {
    let screen = Rect::new(0, 0, 80, 25);
    assert_eq!(centered(20, 10, screen), Rect::new(30, 7, 20, 10));
    let p = popup(70, 23, 30, 10, screen);
    assert!(p.right() <= 80 && p.bottom() <= 25);
}

#[test]
fn focus_layers_route() {
    let mut f = Focus::new();
    f.push(Layer::MenuBar);
    f.push(Layer::Popup);
    assert_eq!(f.top(), Layer::Popup);
    f.pop();
    assert_eq!(f.top(), Layer::MenuBar);
}

#[test]
fn shell_geometry_and_menu_anchor() {
    let d: DesktopLayout = desktop(Rect::new(0, 0, 80, 25));
    assert_eq!(d.work, Rect::new(1, 2, 78, 21));
    let menus = vec![MenuDef::new("Archivos", &[]), MenuDef::new("Varios", &[])];
    assert_eq!(menu_title_x(&menus, 1), 2 + 10 + 2);
    let _ = Theme::clipper();
}

#[test]
fn app_shell_flow_with_fkeys() {
    let mut app = test_app();
    let menus = vec![MenuDef::new("Archivos", &["A"]), MenuDef::new("Varios", &["B"])];
    let fkeys = vec![FKeyDef::new("F2", "Grabar"), FKeyDef::new("Esc", "Salir")];
    app.paint_shell(&ShellContent { company: "E", date: "D", status: "S", help: "H", menus: &menus, active: 0, fkeys: &fkeys });
    app.present().unwrap();
    assert!(!app.backend.take().is_empty());
    assert_eq!(match_fkey(&fkeys, AppKey::F(2)), Some(0));
    assert_eq!(match_fkey(&fkeys, AppKey::Esc), Some(1));
}

#[test]
fn app_event_helpers() {
    assert_eq!(AppEvent::key(AppKey::Up), AppEvent::Key { key: AppKey::Up, alt: false, ctrl: false });
    assert!(AppEvent::key(AppKey::Esc).is_esc());
    assert!(AppEvent::Key { key: AppKey::Esc, alt: true, ctrl: false }.is_esc());
    assert!(!AppEvent::Resize(10, 10).is_esc());
}

#[test]
fn text_wrappers_answer_as_std() {
    assert_eq!(char_width('A'), 1);
    assert_eq!(char_width('漢'), 2);
    assert_eq!(char_width('\u{0301}'), 0);
    // The braille cell of one dot (code point U+2801) and an upper-cased
    // drive letter go through the character conversions.
    let mut canvas = VirtualCanvas::new(1, 1);
    canvas.set_pixel(0, 0);
    let mut b = Buffer::blank(4, 1, Color::Black);
    canvas.render_to_buffer(&mut b, Rect::new(0, 0, 1, 1), Color::White, Color::Black);
    assert_eq!(b.get(0, 0).unwrap().ch, '\u{2801}');
    drive(&mut b, 0, 0, 'q', Attr::new(Color::White, Color::Black), Color::Yellow);
    assert_eq!(b.get(1, 0).unwrap().ch, 'Q');
    let sorted = sort_strings(vec!["pera".to_string(), "Zeta".to_string(), "banana".to_string()]);
    assert_eq!(sorted, vec!["Zeta".to_string(), "banana".to_string(), "pera".to_string()]);
}

#[test]
fn file_dialog_joins_paths_for_the_selection() {
    let listing = vec![
        DirEntry { name: "docs".to_string(), is_dir: true },
        DirEntry { name: "a.txt".to_string(), is_dir: false },
    ];
    let fd = FileDialog::new("/tmp/base", Ok(listing));
    assert_eq!(fd.current, "/tmp/base");
    assert_eq!(fd.selected_path(), Some("/tmp/base/a.txt".to_string()));
    let bad = FileDialog::new("/nope", Err("sin acceso".to_string()));
    assert_eq!(bad.error, Some("sin acceso".to_string()));
    assert_eq!(bad.selected_path(), None);
}

#[test]
fn modifiers_make_alt_and_ctrl() {
    assert_eq!(key_event(AppKey::Char('a'), false, false, false, false), AppEvent::key(AppKey::Char('a')));
    assert_eq!(
        key_event(AppKey::Char('x'), true, false, false, false),
        AppEvent::Key { key: AppKey::Char('x'), alt: true, ctrl: false }
    );
    assert_eq!(
        key_event(AppKey::Char('s'), false, false, true, false),
        AppEvent::Key { key: AppKey::Char('s'), alt: false, ctrl: true }
    );
    assert_eq!(
        key_event(AppKey::Up, false, false, false, true),
        AppEvent::Key { key: AppKey::Up, alt: false, ctrl: true }
    );
    assert!(key_event(AppKey::Esc, false, false, false, false).is_esc());
}

#[test]
fn release_gives_no_event() {
    assert_eq!(press_event(AppKey::Down, false, false, false, false, false), Some(AppEvent::key(AppKey::Down)));
    assert_eq!(press_event(AppKey::Down, false, false, false, false, true), None);
    assert_eq!(press_event(AppKey::Esc, false, true, false, false, true), None);
}
