use tui90::engine::buffer::Buffer;
use tui90::engine::color::Color;
use tui90::engine::rect::Rect;
use tui90::widgets::calendar::CalendarPicker;
use tui90::engine::theme::Theme;
use tui90::widgets::chart::{
    bars_draw, candles_draw, chart_frame, chart_shell, curve_color, line_area_of, line_axes_draw, pie_draw, point_col,
    CandleRows,
};

#[test]
fn picker_from_day_numbers() {
    let c = CalendarPicker::from_days(0);
    assert_eq!((c.year, c.month, c.day), (1970, 1, 1));
    let c = CalendarPicker::from_days(20_000);
    assert_eq!((c.year, c.month, c.day), (2024, 10, 4));
    let c = CalendarPicker::from_days(-1);
    assert_eq!((c.year, c.month, c.day), (1969, 12, 31));
    assert_eq!(c.selected_bg, Color::Navy);
}

#[test]
fn picker_on_today_is_a_real_date() {
    let c = CalendarPicker::current();
    assert!(c.year >= 2024);
    assert!((1..=12).contains(&c.month));
    assert!(c.day >= 1 && c.day <= 31);
}

#[test]
fn frame_paints_title_and_gives_plot() {
    let mut b = Buffer::blank(30, 12, Color::Cyan);
    let plot = chart_frame(&mut b, Rect::new(0, 0, 20, 10), "Ventas", Color::Navy, Color::White, None, false);
    assert_eq!(plot, Rect::new(1, 2, 18, 8));
    // "Ventas" centred on 20 columns: (20 - 6) / 2 = 7.
    assert_eq!(b.get(7, 0).unwrap().ch, 'V');
    assert!(b.get(7, 0).unwrap().bold);
    assert_eq!(b.get(0, 5).unwrap().bg, Color::White);
    assert_eq!(b.get(25, 5).unwrap().bg, Color::Cyan);

    let mut b = Buffer::blank(30, 12, Color::Cyan);
    let plot = chart_frame(&mut b, Rect::new(0, 0, 20, 10), "", Color::Navy, Color::White, Some(Color::Red), true);
    assert_eq!(plot, Rect::new(2, 2, 16, 6));
    assert_eq!(b.get(0, 0).unwrap().bg, Color::Red);
    assert_eq!(b.get(19, 9).unwrap().bg, Color::Red);
    assert_eq!(b.get(5, 5).unwrap().bg, Color::White);
    // The shadow falls two columns right and one row down.
    assert_ne!(b.get(21, 5).unwrap().bg, Color::Cyan);
}

#[test]
fn point_columns_spread_evenly() {
    assert_eq!(point_col(0, 1, 10), 0);
    assert_eq!(point_col(0, 4, 10), 0);
    assert_eq!(point_col(1, 4, 10), 3);
    assert_eq!(point_col(3, 4, 10), 9);
}

#[test]
fn curve_keeps_contrast() {
    assert_eq!(curve_color(Color::White, Color::Red), Color::Navy);
    assert_eq!(curve_color(Color::Black, Color::Yellow), Color::Navy);
    assert_eq!(curve_color(Color::Black, Color::Red), Color::Red);
}

#[test]
fn bars_plot_is_solid_with_axis_and_labels() {
    let t = Theme::clipper();
    let mut b = Buffer::blank(40, 14, t.desktop);
    let plot = chart_shell(&mut b, Rect::new(1, 1, 30, 12), "Vtas", Color::Navy, Color::White, None, false, true);
    let plot = plot.unwrap();
    assert_eq!(plot, Rect::new(2, 3, 28, 10));
    // Ene 10, Feb 30, Mar 20 on nine rows.
    let labels = vec!["Ene".to_string(), "Feb".to_string(), "Mar".to_string()];
    bars_draw(&mut b, plot, " 30.0", " 15.0", &[3, 9, 6], &labels, Color::Navy, Color::White);
    let mut body = 0;
    for y in 0..14u16 {
        for x in 0..40u16 {
            match b.get(x, y).unwrap().ch {
                '\u{2588}' => body += 1,
                '\u{2592}' => panic!("trama 3D en ({x}, {y})"),
                _ => {}
            }
        }
    }
    assert_eq!(body, 3 * (3 + 9 + 6));
    assert_eq!(b.get(2, 3).unwrap().ch, ' ');
    assert_eq!(b.get(3, 3).unwrap().ch, '3');
    assert_eq!(b.get(8, 3).unwrap().ch, '\u{2524}');
    assert_eq!(b.get(8, 7).unwrap().ch, '\u{2524}');
    assert_eq!(b.get(8, 5).unwrap().ch, '\u{2502}');
    assert_eq!(b.get(8, 12).unwrap().ch, '\u{253c}');
    assert_eq!(b.get(6, 12).unwrap().ch, '0');
    assert_eq!(b.get(9, 12).unwrap().ch, 'E');
    assert_eq!(b.get(10, 12).unwrap().ch, 'n');
    // The tallest bar (Feb) fills nine rows above the labels.
    assert_eq!(b.get(13, 3).unwrap().ch, '\u{2588}');
    assert_eq!(b.get(13, 11).unwrap().ch, '\u{2588}');
    assert_eq!(b.get(9, 9).unwrap().ch, '\u{2588}');
    assert_eq!(b.get(9, 9).unwrap().fg, Color::Navy);
    assert_ne!(b.get(9, 8).unwrap().ch, '\u{2588}');
}

#[test]
fn line_axes_have_ticks_under_points() {
    let t = Theme::clipper();
    let mut b = Buffer::blank(40, 12, t.desktop);
    let plot = chart_shell(&mut b, Rect::new(1, 1, 30, 10), "Tendencia", Color::Navy, Color::White, None, false, true)
        .unwrap();
    assert_eq!(plot, Rect::new(2, 3, 28, 8));
    assert_eq!(line_area_of(plot), Rect::new(9, 3, 21, 7));
    line_axes_draw(&mut b, plot, "  5.0", "  3.0", "  1.0", 3, Color::Navy, Color::White);
    assert_eq!(b.get(8, 3).unwrap().ch, '\u{2524}');
    assert_eq!(b.get(8, 6).unwrap().ch, '\u{2524}');
    assert_eq!(b.get(8, 4).unwrap().ch, '\u{2502}');
    assert_eq!(b.get(8, 10).unwrap().ch, '\u{253c}');
    assert_eq!(b.get(4, 10).unwrap().ch, '1');
    assert_eq!(b.get(9, 10).unwrap().ch, '\u{2534}');
    assert_eq!(b.get(10, 10).unwrap().ch, '\u{2500}');
    assert_eq!(b.get(19, 10).unwrap().ch, '\u{2534}');
    assert_eq!(b.get(29, 10).unwrap().ch, '\u{2534}');
    assert_eq!(b.get(28, 10).unwrap().ch, '\u{2500}');
    // Too small for axes: nothing drawn, the curve takes the plot.
    let small = Rect::new(2, 3, 9, 8);
    assert_eq!(line_area_of(small), small);
    let before = b.duplicate();
    line_axes_draw(&mut b, small, "a", "b", "c", 3, Color::Navy, Color::White);
    assert_eq!(b, before);
}

#[test]
fn pie_plot_is_stacked_bar_with_legend() {
    let t = Theme::clipper();
    let mut b = Buffer::blank(40, 16, t.desktop);
    let plot = chart_shell(&mut b, Rect::new(1, 1, 24, 14), "Cuota", Color::Navy, Color::White, None, false, true)
        .unwrap();
    assert_eq!(plot, Rect::new(2, 3, 22, 12));
    let entries = vec!["A (50%)".to_string(), "B (30%)".to_string(), "C (20%)".to_string()];
    pie_draw(&mut b, plot, &[11, 7, 4], &entries, Color::Navy, Color::White);
    let mut blue = 0;
    let mut red = 0;
    for y in 3..5u16 {
        for x in 2..24u16 {
            let c = b.get(x, y).unwrap();
            if c.bg == Color::Blue {
                blue += 1;
            }
            if c.bg == Color::Red {
                red += 1;
            }
            assert!(!matches!(c.ch, '\u{2591}' | '\u{2592}' | '\u{2593}'), "sin tramas");
        }
    }
    assert_eq!(blue, 2 * 11, "A ocupa la mitad sólida");
    assert_eq!(red, 2 * 7);
    assert_eq!(b.get(23, 3).unwrap().bg, Color::Green);
    let mut squares = 0;
    for y in 0..16u16 {
        for x in 0..40u16 {
            if b.get(x, y).unwrap().ch == '\u{25a0}' {
                squares += 1;
            }
        }
    }
    assert_eq!(squares, 3);
    // "A (50%)" is 9 wide with its square: B goes 12 further on, C wraps.
    assert_eq!(b.get(2, 6).unwrap().ch, '\u{25a0}');
    assert_eq!(b.get(2, 6).unwrap().fg, Color::Blue);
    assert_eq!(b.get(4, 6).unwrap().ch, 'A');
    assert_eq!(b.get(14, 6).unwrap().ch, '\u{25a0}');
    assert_eq!(b.get(14, 6).unwrap().fg, Color::Red);
    assert_eq!(b.get(2, 7).unwrap().ch, '\u{25a0}');
    assert_eq!(b.get(2, 7).unwrap().fg, Color::Green);
}

#[test]
fn candle_columns_use_wick_body_and_trend_color() {
    let t = Theme::clipper();
    let mut b = Buffer::blank(20, 10, t.desktop);
    let cs = vec![
        CandleRows { high: 1, low: 7, open: 4, close: 1, up: true },
        CandleRows { high: 0, low: 5, open: 1, close: 4, up: false },
    ];
    candles_draw(&mut b, Rect::new(2, 1, 6, 8), &cs, t.desktop);
    // Green: wick on rows 2..=8, body on rows 2..=5.
    assert_eq!(b.get(2, 1).unwrap().ch, ' ');
    assert_eq!(b.get(2, 2).unwrap().ch, '\u{2588}');
    assert_eq!(b.get(2, 2).unwrap().fg, Color::Green);
    assert_eq!(b.get(2, 5).unwrap().ch, '\u{2588}');
    assert_eq!(b.get(2, 6).unwrap().ch, '\u{2502}');
    assert_eq!(b.get(2, 8).unwrap().ch, '\u{2502}');
    // Red: wick on rows 1..=6, body on rows 2..=5.
    assert_eq!(b.get(3, 1).unwrap().ch, '\u{2502}');
    assert_eq!(b.get(3, 1).unwrap().fg, Color::Red);
    assert_eq!(b.get(3, 3).unwrap().ch, '\u{2588}');
    assert_eq!(b.get(3, 6).unwrap().ch, '\u{2502}');
    assert_eq!(b.get(3, 7).unwrap().ch, ' ');
    // Rows past the area are cut to its last row.
    let mut c = Buffer::blank(20, 10, t.desktop);
    candles_draw(&mut c, Rect::new(0, 0, 3, 4), &[CandleRows { high: 2, low: 50, open: 9, close: 9, up: true }], t.desktop);
    assert_eq!(c.get(0, 3).unwrap().ch, '\u{2588}');
    assert_eq!(c.get(0, 2).unwrap().ch, '\u{2502}');
    assert_eq!(c.get(0, 4).unwrap().ch, ' ');
    // Nothing to draw: unchanged.
    let before = b.duplicate();
    candles_draw(&mut b, Rect::new(2, 1, 6, 8), &[], t.desktop);
    assert_eq!(b, before);
}

#[test]
fn empty_chart_shows_placeholder() {
    let t = Theme::clipper();
    let mut b = Buffer::blank(30, 8, t.desktop);
    let plot = chart_shell(&mut b, Rect::new(1, 1, 20, 6), "V", Color::Navy, Color::White, None, false, false);
    assert_eq!(plot, None);
    assert_eq!(b.get(2, 3).unwrap().ch, '(');
    assert_eq!(b.get(3, 3).unwrap().ch, 's');
    let mut tiny = Buffer::blank(30, 8, t.desktop);
    assert_eq!(chart_shell(&mut tiny, Rect::new(1, 1, 5, 6), "V", Color::Navy, Color::White, None, false, true), None);
    assert_eq!(tiny, Buffer::blank(30, 8, t.desktop));
}
