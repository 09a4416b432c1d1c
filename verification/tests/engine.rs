use tui90::engine::backend::{Backend, TestBackend};
use tui90::engine::buffer::Buffer;
use tui90::engine::cell::Cell;
use tui90::engine::color::{Attr, Color};
use tui90::engine::rect::Rect;
use tui90::engine::screen::{Screen, ScreenStack};
use tui90::engine::style::WidgetStyle;
use tui90::engine::theme::Theme;

#[test]
fn test_backend_records_ops() {
    let mut be = TestBackend::new(80, 25);
    assert_eq!(be.size().unwrap(), (80, 25));
    let back = Buffer::blank(80, 25, Color::Black);
    let front = Buffer::blank(80, 25, Color::Cyan);
    let ops = back.diff(&front);
    be.present(&ops).unwrap();
    assert_eq!(be.take().len(), 80 * 25);
    assert!(be.take().is_empty());
}

#[test]
fn set_clips_silently() {
    let mut b = Buffer::blank(5, 3, Color::Black);
    b.set(99, 99, Cell::new('X', Color::White, Color::Black));
    assert!(b.get(99, 99).is_none());
    b.set(1, 1, Cell::new('X', Color::White, Color::Black));
    assert_eq!(b.get(1, 1).unwrap().ch, 'X');
}

#[test]
fn text_clips_at_edge() {
    let mut b = Buffer::blank(5, 1, Color::Black);
    b.text(3, 0, "abcdef", Color::White, Color::Black);
    assert_eq!(b.get(3, 0).unwrap().ch, 'a');
    assert_eq!(b.get(4, 0).unwrap().ch, 'b');
}

#[test]
fn fill_rect_respects_bounds() {
    let mut b = Buffer::blank(4, 4, Color::Black);
    b.fill_rect(Rect::new(2, 2, 10, 10), Cell::new('F', Color::White, Color::Blue));
    assert_eq!(b.get(3, 3).unwrap().bg, Color::Blue);
    assert_eq!(b.get(0, 0).unwrap().bg, Color::Black);
}

#[test]
fn diff_detects_only_changes() {
    let a = Buffer::blank(10, 5, Color::Black);
    let mut b = a.duplicate();
    b.set(2, 1, Cell::new('X', Color::White, Color::Black));
    b.set(7, 3, Cell::new('Y', Color::White, Color::Black));
    let d = b.diff(&a);
    assert_eq!(d.len(), 2);
    assert_eq!((d[0].x, d[0].y), (2, 1));
    assert_eq!((d[1].x, d[1].y), (7, 3));
}

#[test]
fn diff_on_resize_returns_full_frame() {
    let a = Buffer::blank(4, 4, Color::Black);
    let b = Buffer::blank(5, 5, Color::Black);
    assert_eq!(b.diff(&a).len(), 25);
}

#[test]
fn snapshot_restore_roundtrip() {
    let mut b = Buffer::blank(10, 5, Color::White);
    b.text(1, 1, "SAINT", Color::Black, Color::White);
    let snap = b.snapshot(Rect::new(0, 0, 10, 5));
    b.fill_rect(Rect::new(0, 0, 10, 5), Cell::new(' ', Color::White, Color::Blue));
    b.restore(&snap);
    assert_eq!(b.get(1, 1).unwrap().ch, 'S');
    assert_eq!(b.get(1, 1).unwrap().bg, Color::White);
}

#[test]
fn blank_uses_bg_as_fg() {
    let c = Cell::blank(Color::Cyan);
    assert_eq!(c.ch, ' ');
    assert_eq!(c.fg, Color::Cyan);
    assert_eq!(c.bg, Color::Cyan);
}

#[test]
fn with_attr_roundtrip() {
    let a = Attr::bold(Color::Yellow, Color::Blue);
    let c = Cell::with_attr('R', a);
    assert_eq!(c.attr(), a);
}

#[test]
fn attr_constructors() {
    let a = Attr::new(Color::White, Color::Blue);
    assert!(!a.bold);
    let b = Attr::bold(Color::Yellow, Color::Blue);
    assert!(b.bold);
    assert_ne!(a, b);
}

#[test]
fn intersect_clips() {
    let a = Rect::new(0, 0, 10, 10);
    let b = Rect::new(5, 5, 10, 10);
    assert_eq!(a.intersect(b), Some(Rect::new(5, 5, 5, 5)));
    assert_eq!(a.intersect(Rect::new(20, 20, 2, 2)), None);
}

#[test]
fn centered_in_math() {
    let screen = Rect::new(0, 0, 80, 25);
    let r = Rect::centered_in(20, 10, screen);
    assert_eq!(r, Rect::new(30, 7, 20, 10));
}

#[test]
fn clamp_keeps_popup_on_screen() {
    let screen = Rect::new(0, 0, 80, 25);
    let p = Rect::popup_at(70, 23, 30, 10, screen);
    assert!(p.right() <= 80 && p.bottom() <= 25);
    assert_eq!((p.w, p.h), (30, 10));
}

#[test]
fn oversize_popup_shrinks_to_screen() {
    let screen = Rect::new(0, 0, 80, 25);
    let p = Rect::new(0, 0, 200, 60).clamp_in(screen);
    assert_eq!(p, Rect::new(0, 0, 80, 25));
}

#[test]
fn save_restore_roundtrip_over_back() {
    let mut s = Screen::new(20, 10, Theme::clipper());
    s.frame().text(2, 2, "FONDO", Color::Black, Color::White);
    let id = s.savescreen(Rect::new(0, 0, 20, 10));
    assert_eq!(id, 0);
    s.frame().fill_rect(Rect::new(0, 0, 20, 10), Cell::new('X', Color::White, Color::Blue));
    assert!(s.restscreen(id));
    assert_eq!(s.frame().get(2, 2).unwrap().ch, 'F');
}

#[test]
fn restore_is_strict_lifo() {
    let mut s = Screen::new(20, 10, Theme::clipper());
    let a = s.savescreen(Rect::new(0, 0, 5, 5));
    let _b = s.savescreen(Rect::new(5, 5, 5, 5));
    assert!(!s.restscreen(a));
    assert!(s.stack.pop(&mut s.back));
    assert!(s.restscreen(a));
}

#[test]
fn present_ops_then_noop() {
    let mut s = Screen::new(10, 5, Theme::clipper());
    let ops = s.present_ops();
    assert_eq!(ops.len(), 10 * 5);
    let ops2 = s.present_ops();
    assert!(ops2.is_empty());
}

#[test]
fn resize_keeps_top_left_and_clears_stack() {
    let mut s = Screen::new(10, 5, Theme::clipper());
    s.frame().text(0, 0, "AB", Color::Black, Color::White);
    s.savescreen(Rect::new(0, 0, 4, 4));
    s.resize(20, 10);
    assert_eq!(s.frame().get(0, 0).unwrap().ch, 'A');
    assert_eq!(s.size(), (20, 10));
    assert!(s.stack.is_empty());
}

#[test]
fn defaults_carry_shadow() {
    let s = WidgetStyle::default();
    assert!(s.has_shadow);
    assert!(!WidgetStyle::flat(Color::Black, Color::White).has_shadow);
}

#[test]
fn clipper_default_is_pastel_not_high_contrast() {
    let s = Theme::clipper();
    assert_eq!(s.desktop, Color::Cyan);
    assert_eq!(s.work, Color::White);
    assert_eq!((s.select_bg, s.select_fg), (Color::Grey, Color::Black));
}

#[test]
fn turbo_differs_from_clipper() {
    assert_ne!(Theme::clipper(), Theme::turbo());
}

#[test]
fn menu_active_is_black_bar() {
    let t = Theme::clipper();
    let a = t.menu_attr(true);
    assert_eq!((a.fg, a.bg), (Color::White, Color::Black));
}

#[test]
fn skeleton_version_is_set() {
    assert!(!tui90::VERSION.is_empty());
}

#[test]
fn core_is_reexported() {
    let t = tui90::Theme::clipper();
    let s = tui90::Screen::new(80, 25, t);
    assert_eq!(s.size(), (80, 25));
}

#[test]
fn rect_clip_keeps_popup_inside_80x25() {
    let screen = Rect::new(0, 0, 80, 25);
    let p = Rect::popup_at(70, 23, 30, 10, screen);
    assert!(p.right() <= 80, "off the right: {p:?}");
    assert!(p.bottom() <= 25, "off the bottom: {p:?}");
    assert_eq!((p.w, p.h), (30, 10));
}

#[test]
fn buffer_diff_reports_only_changed_cells() {
    let mut back = Buffer::blank(80, 25, Color::Black);
    let front = Buffer::blank(80, 25, Color::Black);
    back.set(10, 5, Cell::new('X', Color::White, Color::Black));
    back.set(11, 5, Cell::new('Y', Color::White, Color::Black));
    let ops = back.diff(&front);
    assert_eq!(ops.len(), 2);
}

#[test]
fn screenstack_save_restore_is_lifo() {
    let theme = Theme::clipper();
    let mut s = Screen::new(40, 12, theme);
    s.frame().text(1, 1, "BASE", Color::Black, Color::White);
    let id_base = s.savescreen(Rect::new(0, 0, 40, 12));
    s.frame().fill_rect(Rect::new(5, 2, 20, 6), Cell::new(' ', Color::White, Color::Blue));
    let id_top = s.savescreen(Rect::new(5, 2, 20, 6));
    assert!(!s.restscreen(id_base));
    assert!(s.restscreen(id_top));
    assert!(s.restscreen(id_base));
    assert!(s.stack.is_empty());
    assert_eq!(s.frame().get(1, 1).unwrap().ch, 'B');
}

#[test]
fn stack_standalone_push_pop() {
    let mut buf = Buffer::blank(10, 10, Color::White);
    let mut st = ScreenStack::new();
    let id = st.save(&buf, Rect::new(2, 2, 4, 4));
    buf.fill_rect(Rect::new(0, 0, 10, 10), Cell::new('Z', Color::White, Color::Black));
    assert_eq!(st.depth(), 1);
    assert!(st.restore(&mut buf, id));
    assert!(st.is_empty());
    assert_eq!(buf.get(2, 2).unwrap().ch, ' ');
    assert_eq!(buf.get(0, 0).unwrap().ch, 'Z');
}

#[test]
fn full_frame_flow_into_test_backend() {
    let theme = Theme::clipper();
    let mut s = Screen::new(80, 25, theme);
    let bounds = s.bounds();
    s.frame().fill_rect(bounds, Cell::blank(theme.desktop));
    let work = Rect::new(2, 3, 76, 18);
    s.frame().fill_rect(work, Cell::blank(theme.work));
    s.frame().text(4, 4, "EMPRESA DEMO", Color::White, theme.navy);
    let mut be = TestBackend::new(80, 25);
    let ops = s.present_ops();
    be.present(&ops).unwrap();
    assert!(!be.take().is_empty());
    let ops2 = s.present_ops();
    assert!(ops2.is_empty());
}

#[test]
fn intersection_law_on_concrete_rects() {
    let a = Rect::new(2, 2, 6, 4);
    let b = Rect::new(5, 1, 10, 3);
    let i = a.intersect(b).unwrap();
    for x in 0..20u16 {
        for y in 0..10u16 {
            assert_eq!(i.contains(x, y), a.contains(x, y) && b.contains(x, y));
        }
    }
    assert_eq!(a.intersect(b), b.intersect(a));
}

#[test]
fn snapshot_of_partial_zone_restores_only_it() {
    let mut b = Buffer::blank(6, 4, Color::White);
    let snap = b.snapshot(Rect::new(1, 1, 2, 2));
    b.fill_rect(Rect::new(0, 0, 6, 4), Cell::new('Q', Color::Red, Color::Red));
    b.restore(&snap);
    assert_eq!(b.get(1, 1).unwrap().ch, ' ');
    assert_eq!(b.get(2, 2).unwrap().bg, Color::White);
    assert_eq!(b.get(3, 3).unwrap().ch, 'Q');
}

#[test]
fn blit_copies_with_offset_and_clips() {
    let mut dst = Buffer::blank(5, 4, Color::Black);
    let mut src = Buffer::blank(2, 2, Color::Red);
    src.set(1, 1, Cell::new('x', Color::White, Color::Red));
    dst.blit(&src, 3, 2);
    assert_eq!(dst.get(3, 2).unwrap().bg, Color::Red);
    assert_eq!(dst.get(4, 3).unwrap().ch, 'x');
    assert_eq!(dst.get(2, 2).unwrap().bg, Color::Black);
    // Partly off the top-left corner: only the in-range part lands.
    let mut d2 = Buffer::blank(5, 4, Color::Black);
    d2.blit(&src, -1, -1);
    assert_eq!(d2.get(0, 0).unwrap().ch, 'x');
    assert_eq!(d2.get(1, 0).unwrap().bg, Color::Black);
    // Entirely outside: unchanged.
    let mut d3 = Buffer::blank(5, 4, Color::Black);
    d3.blit(&src, 70000, 0);
    assert_eq!(d3, Buffer::blank(5, 4, Color::Black));
}

#[test]
fn diff_ops_come_in_row_major_order() {
    let mut a = Buffer::blank(4, 3, Color::Black);
    let b = Buffer::blank(4, 3, Color::Black);
    a.set(3, 0, Cell::new('c', Color::White, Color::Black));
    a.set(0, 2, Cell::new('a', Color::White, Color::Black));
    a.set(1, 1, Cell::new('b', Color::White, Color::Black));
    let ops = a.diff(&b);
    let pos: Vec<(u16, u16)> = ops.iter().map(|o| (o.y, o.x)).collect();
    assert_eq!(pos, vec![(0, 3), (1, 1), (2, 0)]);
    assert_eq!(ops[1].cell.ch, 'b');
}
