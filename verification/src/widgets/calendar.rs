//! Date micro-dialog (`CalendarPicker`).
//!
//! The classic seven-column grid (L M M J V S D) of the month, quick
//! selection with the arrows. Own civil arithmetic (Hinnant's algorithm),
//! no dependency: day numbers to and from the calendar, leap years. It
//! exposes the four common parameters (`foreground_color`,
//! `background_color`, `border_color`, `has_shadow`).

use vstd::prelude::*;

use crate::app::events::AppKey;
use crate::engine::buffer::{Buffer, Grid, paint_run, paint_seq};
use crate::engine::cell::Cell;
use crate::engine::color::{Attr, Color};
use crate::engine::rect::{Rect, sat_add, sat_sub};
use crate::engine::theme::Theme;
use crate::prim::label::{draw_text, fit_spec, fit_text, hot_clean, visible_len};
use crate::prim::shadow::{ShadowStyle, shadow, shadow_grid};
use crate::text::{decimal, decimal_chars, digit_char, digit_of, seq_width, string_from_chars};
use crate::widgets::common::{draw_ring, ring};

verus! {

/// Division rounding toward zero (what `/` does on signed machine
/// integers), for a positive divisor.
pub open spec fn tdiv(a: int, b: int) -> int {
    if a >= 0 {
        a / b
    } else {
        -((-a) / b)
    }
}

/// Days from 1970-01-01 to `y-m-d` (negative before it), by Hinnant's
/// formula: the year is counted from March, in 400-year eras of 146097
/// days.
pub open spec fn days_spec(y: int, m: int, d: int) -> int {
    let y2 = if m <= 2 { y - 1 } else { y };
    let era = y2 / 400;
    let yoe = y2 - era * 400;
    let mp = (m + 9) % 12;
    let doy = (153 * mp + 2) / 5 + d - 1;
    let doe = yoe * 365 + yoe / 4 - yoe / 100 + doy;
    era * 146097 + doe - 719468
}

/// The date of day `z` counted from 1970-01-01, by the inverse formula:
/// year (before it is narrowed to `i32`), month and day.
pub open spec fn civil_spec(z: int) -> (int, int, int) {
    let z2 = z + 719468;
    let era = z2 / 146097;
    let doe = z2 - era * 146097;
    let yoe = (doe - doe / 1460 + doe / 36524 - doe / 146096) / 365;
    let y = yoe + era * 400;
    let doy = doe - (365 * yoe + yoe / 4 - yoe / 100);
    let mp = tdiv(5 * doy + 2, 153);
    let d = doy - tdiv(153 * mp + 2, 5) + 1;
    let m = if mp < 10 { mp + 3 } else { mp - 9 };
    (if m <= 2 { y + 1 } else { y }, m, d)
}

proof fn lemma_floor_neg(y: int, d: int)
    requires
        d > 0,
        y < 0,
    ensures
        y / d == -((-y + d - 1) / d),
{
    let q = (-y + d - 1) / d;
    let r = (-y + d - 1) % d;
    vstd::arithmetic::div_mod::lemma_fundamental_div_mod(-y + d - 1, d);
    assert(-y + d - 1 == d * q + r);
    assert(y == d * (-q) + (d - 1 - r)) by (nonlinear_arith)
        requires
            -y + d - 1 == d * q + r,
    ;
    vstd::arithmetic::div_mod::lemma_fundamental_div_mod_converse(y, d, -q, d - 1 - r);
}

/// Days from 1970-01-01 (may be negative).
pub fn days_from_civil(y: i32, m: u8, d: u8) -> (r: i64)
    ensures
        r == days_spec(y as int, m as int, d as int),
{
    let mut yy = y as i64;
    if m <= 2 {
        yy = yy - 1;
    }
    let era: i64 = if yy >= 0 {
        yy / 400
    } else {
        proof {
            lemma_floor_neg(yy as int, 400);
        }
        -((-yy + 399) / 400)
    };
    assert(era == (yy as int) / 400);
    proof {
        vstd::arithmetic::div_mod::lemma_fundamental_div_mod(yy as int, 400);
    }
    let yoe = yy - era * 400;
    assert(0 <= yoe < 400);
    let mp = (m as i64 + 9) % 12;
    let doy = (153 * mp + 2) / 5 + d as i64 - 1;
    let doe = yoe * 365 + yoe / 4 - yoe / 100 + doy;
    assert(-6_000_000 <= era <= 6_000_000);
    assert(-876_582_000_000 <= era * 146097 <= 876_582_000_000) by (nonlinear_arith)
        requires
            -6_000_000 <= era <= 6_000_000,
    ;
    era * 146097 + doe - 719468
}

/// The day numbers of every `i32` date are far from the ends of `i64`.
proof fn lemma_days_small(y: int, m: int, d: int)
    requires
        i32::MIN <= y <= i32::MAX,
        0 <= m <= 255,
        0 <= d <= 255,
    ensures
        -900_000_000_000 <= days_spec(y, m, d) <= 900_000_000_000,
{
    let y2 = if m <= 2 { y - 1 } else { y };
    let era = y2 / 400;
    vstd::arithmetic::div_mod::lemma_fundamental_div_mod(y2, 400);
    assert(-6_000_000 <= era <= 6_000_000);
    assert(-876_582_000_000 <= era * 146097 <= 876_582_000_000) by (nonlinear_arith)
        requires
            -6_000_000 <= era <= 6_000_000,
    ;
}

/// Inverse of `days_from_civil`.
pub fn civil_from_days(z: i64) -> (r: (i32, u8, u8))
    requires
        z <= i64::MAX - 719468,
    ensures
        r == ((civil_spec(z as int).0 as i32, civil_spec(z as int).1 as u8, civil_spec(z as int).2 as u8)),
{
    let z2 = z + 719468;
    let era: i64 = if z2 >= 0 {
        z2 / 146097
    } else {
        proof {
            lemma_floor_neg(z2 as int, 146097);
        }
        -((-(z2 + 1) + 146097) / 146097)
    };
    assert(era == (z2 as int) / 146097);
    proof {
        vstd::arithmetic::div_mod::lemma_fundamental_div_mod(z2 as int, 146097);
    }
    let doe = z2 - era * 146097;
    assert(0 <= doe < 146097);
    let yoe = (doe - doe / 1460 + doe / 36524 - doe / 146096) / 365;
    assert(0 <= yoe <= 400);
    assert(-63_200_000_000_000_000 <= era * 400 <= 63_200_000_000_000_000) by (nonlinear_arith)
        requires
            era == (z2 as int) / 146097,
            i64::MIN + 719468 <= z2 <= i64::MAX,
    {
        vstd::arithmetic::div_mod::lemma_fundamental_div_mod(z2 as int, 146097);
    }
    let y = yoe + era * 400;
    let doy = doe - (365 * yoe + yoe / 4 - yoe / 100);
    let mp = (5 * doy + 2) / 153;
    let d = doy - (153 * mp + 2) / 5 + 1;
    let m = if mp < 10 { mp + 3 } else { mp - 9 };
    let yr = if m <= 2 { y + 1 } else { y };
    (yr as i32, m as u8, d as u8)
}

/// Weekday of `y-m-d`, Monday `0` to Sunday `6`.
pub open spec fn weekday_spec(y: int, m: int, d: int) -> int {
    (days_spec(y, m, d) + 3) % 7
}

/// Day of the week, Monday `0` to Sunday `6`.
#[verifier::spinoff_prover]
pub fn weekday(y: i32, m: u8, d: u8) -> (r: u8)
    ensures
        r == weekday_spec(y as int, m as int, d as int),
        r < 7,
{
    proof {
        lemma_days_small(y as int, m as int, d as int);
    }
    let s = days_from_civil(y, m, d) + 3;
    let q = s % 7;
    let r = if q < 0 { q + 7 } else { q };
    assert(r == (s as int) % 7) by {
        vstd::arithmetic::div_mod::lemma_fundamental_div_mod(s as int, 7);
    }
    r as u8
}

/// Leap year of the Gregorian calendar.
pub open spec fn leap(y: int) -> bool {
    y % 4 == 0 && (y % 100 != 0 || y % 400 == 0)
}

pub fn is_leap(y: i32) -> (r: bool)
    ensures
        r == leap(y as int),
{
    let a = y as i64;
    proof {
        vstd::arithmetic::div_mod::lemma_fundamental_div_mod(a as int, 4);
        vstd::arithmetic::div_mod::lemma_fundamental_div_mod(a as int, 100);
        vstd::arithmetic::div_mod::lemma_fundamental_div_mod(a as int, 400);
    }
    let r4 = a % 4 == 0;
    let r100 = a % 100 == 0;
    let r400 = a % 400 == 0;
    assert(r4 == ((a as int) % 4 == 0));
    assert(r100 == ((a as int) % 100 == 0));
    assert(r400 == ((a as int) % 400 == 0));
    r4 && (!r100 || r400)
}

/// Days of month `m` of year `y` (30 for a month out of range).
pub open spec fn month_days(y: int, m: int) -> int {
    if m == 1 || m == 3 || m == 5 || m == 7 || m == 8 || m == 10 || m == 12 {
        31
    } else if m == 4 || m == 6 || m == 9 || m == 11 {
        30
    } else if m == 2 {
        if leap(y) { 29 } else { 28 }
    } else {
        30
    }
}

pub fn days_in_month(y: i32, m: u8) -> (r: u8)
    ensures
        r == month_days(y as int, m as int),
{
    match m {
        1 | 3 | 5 | 7 | 8 | 10 | 12 => 31,
        4 | 6 | 9 | 11 => 30,
        2 => if is_leap(y) { 29 } else { 28 },
        _ => 30,
    }
}

/// A valid date: a month of the year and a day of that month.
pub open spec fn valid_date(y: int, m: int, d: int) -> bool {
    1 <= m <= 12 && 1 <= d <= month_days(y, m)
}

/// Date micro-dialog.
#[derive(Clone, Debug, PartialEq, Eq, Structural)]
pub struct CalendarPicker {
    pub year: i32,
    pub month: u8,
    pub day: u8,
    pub foreground_color: Color,
    pub background_color: Color,
    pub header_fg: Color,
    pub selected_fg: Color,
    pub selected_bg: Color,
    pub border_color: Option<Color>,
    pub has_shadow: bool,
}

/// The most whole days a `u64` count of seconds holds.
pub const MAX_CLOCK_DAYS: i64 = 213_503_982_334_601;

/// Reads the system clock: the seconds from `std::time::UNIX_EPOCH` to
/// `std::time::SystemTime::now()`, or 0 where the clock stands before
/// the epoch. The value depends on the clock, so nothing is stated of it
/// beyond its type.
#[verifier::external_body]
fn unix_seconds_now() -> (r: u64) {
    match std::time::SystemTime::now().duration_since(std::time::UNIX_EPOCH) {
        Ok(d) => d.as_secs(),
        Err(_) => 0,
    }
}

impl CalendarPicker {
    /// The month clamped to `1..=12` and the day to the month; black on
    /// white, navy selection, shadow, no border.
    pub fn new(year: i32, month: u8, day: u8) -> (r: Self)
        ensures
            r.year == year,
            r.month == (if month < 1 { 1 } else if month > 12 { 12 } else { month }),
            r.day == (if day < 1 { 1int } else if day > month_days(year as int, r.month as int) { month_days(
                year as int,
                r.month as int,
            ) } else { day as int }),
            r.foreground_color == Color::Black,
            r.background_color == Color::White,
            r.header_fg == Color::White,
            r.selected_fg == Color::White,
            r.selected_bg == Color::Navy,
            r.border_color is None,
            r.has_shadow,
    {
        let month = if month < 1 { 1 } else if month > 12 { 12 } else { month };
        let day = if day < 1 { 1 } else { day };
        let dim = days_in_month(year, month);
        let day = if day > dim { dim } else { day };
        CalendarPicker {
            year,
            month,
            day,
            foreground_color: Color::Black,
            background_color: Color::White,
            header_fg: Color::White,
            selected_fg: Color::White,
            selected_bg: Color::Navy,
            border_color: None,
            has_shadow: true,
        }
    }

    /// The picker that `new` makes of `year`, `month` and `day`.
    pub open spec fn spec_new(year: i32, month: u8, day: u8) -> CalendarPicker {
        let m: u8 = if month < 1 { 1 } else if month > 12 { 12 } else { month };
        let d: int = if day < 1 { 1int } else if day > month_days(year as int, m as int) { month_days(
            year as int,
            m as int,
        ) } else { day as int };
        CalendarPicker {
            year,
            month: m,
            day: d as u8,
            foreground_color: Color::Black,
            background_color: Color::White,
            header_fg: Color::White,
            selected_fg: Color::White,
            selected_bg: Color::Navy,
            border_color: None,
            has_shadow: true,
        }
    }

    /// The picker on the date `days` days after 1970-01-01.
    pub fn from_days(days: i64) -> (r: Self)
        requires
            days <= i64::MAX - 719468,
        ensures
            r == Self::spec_new(
                civil_spec(days as int).0 as i32,
                civil_spec(days as int).1 as u8,
                civil_spec(days as int).2 as u8,
            ),
    {
        let (y, m, d) = civil_from_days(days);
        Self::new(y, m, d)
    }

    /// The picker on today's date by the system clock (whole days since
    /// 1970-01-01; a clock before that counts as that day).
    pub fn current() -> (r: Self)
        ensures
            exists|days: int| 0 <= days <= MAX_CLOCK_DAYS && r == Self::spec_new(
                civil_spec(days).0 as i32,
                civil_spec(days).1 as u8,
                civil_spec(days).2 as u8,
            ),
    {
        let secs = unix_seconds_now();
        let days = (secs / 86400) as i64;
        let r = Self::from_days(days);
        assert(0 <= days as int <= MAX_CLOCK_DAYS);
        r
    }
}

/// The date `delta` days after `y-m-d`.
pub open spec fn shift_days(y: int, m: int, d: int, delta: int) -> (int, int, int) {
    let c = civil_spec(days_spec(y, m, d) + delta);
    ((c.0 as i32) as int, (c.1 as u8) as int, (c.2 as u8) as int)
}

/// The date `delta` months after `y-m-d`, the day cut to the new month.
pub open spec fn shift_months(y: int, m: int, d: int, delta: int) -> (int, int, int) {
    let total = y * 12 + m - 1 + delta;
    let ny = total / 12;
    let nm = total % 12 + 1;
    (ny, nm, if d > month_days(ny, nm) { month_days(ny, nm) } else { d })
}

/// Navigation result.
#[derive(Clone, Copy, Debug, PartialEq, Eq, Structural)]
pub enum CalNav {
    Stay,
    Move(i32, u8, u8),
    Accept(i32, u8, u8),
}

/// What a key does to the date: arrows move a day or a week (crossing
/// months), `PgUp`/`PgDn` a month, `Home`/`End` the first and last day of
/// the month, `Enter` accepts; `Esc` is handled outside (it cancels the
/// dialog).
pub open spec fn cal_next(y: int, m: int, d: int, key: AppKey) -> (int, int, int) {
    match key {
        AppKey::Left => shift_days(y, m, d, -1),
        AppKey::Right => shift_days(y, m, d, 1),
        AppKey::Up => shift_days(y, m, d, -7),
        AppKey::Down => shift_days(y, m, d, 7),
        AppKey::PageUp => shift_months(y, m, d, -1),
        AppKey::PageDown => shift_months(y, m, d, 1),
        AppKey::Home => (y, m, 1),
        AppKey::End => (y, m, month_days(y, m)),
        _ => (y, m, d),
    }
}

fn add_days(cal: &mut CalendarPicker, delta: i64)
    requires
        -7 <= delta <= 7,
    ensures
        (final(cal).year as int, final(cal).month as int, final(cal).day as int) == shift_days(
            old(cal).year as int,
            old(cal).month as int,
            old(cal).day as int,
            delta as int,
        ),
        final(cal).foreground_color == old(cal).foreground_color,
        final(cal).background_color == old(cal).background_color,
        final(cal).header_fg == old(cal).header_fg,
        final(cal).selected_fg == old(cal).selected_fg,
        final(cal).selected_bg == old(cal).selected_bg,
        final(cal).border_color == old(cal).border_color,
        final(cal).has_shadow == old(cal).has_shadow,
{
    proof {
        lemma_days_small(cal.year as int, cal.month as int, cal.day as int);
    }
    let (y, m, d) = civil_from_days(days_from_civil(cal.year, cal.month, cal.day) + delta);
    cal.year = y;
    cal.month = m;
    cal.day = d;
}

/// The month arithmetic of `shift_months` stays within `i32`.
pub open spec fn months_fit(y: int, m: int) -> bool {
    i32::MIN + 2 <= y * 12 && y * 12 + m + 1 <= i32::MAX
}

fn add_months(cal: &mut CalendarPicker, delta: i32)
    requires
        delta == 1 || delta == -1,
        months_fit(old(cal).year as int, old(cal).month as int),
    ensures
        (final(cal).year as int, final(cal).month as int, final(cal).day as int) == shift_months(
            old(cal).year as int,
            old(cal).month as int,
            old(cal).day as int,
            delta as int,
        ),
        final(cal).foreground_color == old(cal).foreground_color,
        final(cal).background_color == old(cal).background_color,
        final(cal).header_fg == old(cal).header_fg,
        final(cal).selected_fg == old(cal).selected_fg,
        final(cal).selected_bg == old(cal).selected_bg,
        final(cal).border_color == old(cal).border_color,
        final(cal).has_shadow == old(cal).has_shadow,
{
    let total = cal.year * 12 + cal.month as i32 - 1 + delta;
    let t64 = total as i64;
    let ny64: i64 = if t64 >= 0 {
        t64 / 12
    } else {
        proof {
            lemma_floor_neg(t64 as int, 12);
        }
        -((-t64 + 11) / 12)
    };
    let ny = ny64 as i32;
    assert(ny == (total as int) / 12);
    proof {
        vstd::arithmetic::div_mod::lemma_fundamental_div_mod(total as int, 12);
    }
    let rem = (t64 - ny64 * 12) as i32;
    assert(rem == (total as int) % 12);
    cal.year = ny;
    cal.month = (rem + 1) as u8;
    let dim = days_in_month(cal.year, cal.month);
    if cal.day > dim {
        cal.day = dim;
    }
}

/// Pure navigation.
pub fn calendar_key(cal: &mut CalendarPicker, code: AppKey) -> (r: CalNav)
    requires
        (code is PageUp || code is PageDown) ==> months_fit(old(cal).year as int, old(cal).month as int),
    ensures
        (final(cal).year as int, final(cal).month as int, final(cal).day as int) == cal_next(
            old(cal).year as int,
            old(cal).month as int,
            old(cal).day as int,
            code,
        ),
        r == match code {
            AppKey::Enter => CalNav::Accept(final(cal).year, final(cal).month, final(cal).day),
            AppKey::Left | AppKey::Right | AppKey::Up | AppKey::Down | AppKey::PageUp | AppKey::PageDown
            | AppKey::Home | AppKey::End => CalNav::Move(final(cal).year, final(cal).month, final(cal).day),
            _ => CalNav::Stay,
        },
        final(cal).foreground_color == old(cal).foreground_color,
        final(cal).background_color == old(cal).background_color,
        final(cal).header_fg == old(cal).header_fg,
        final(cal).selected_fg == old(cal).selected_fg,
        final(cal).selected_bg == old(cal).selected_bg,
        final(cal).border_color == old(cal).border_color,
        final(cal).has_shadow == old(cal).has_shadow,
{
    match code {
        AppKey::Left => {
            add_days(cal, -1);
            CalNav::Move(cal.year, cal.month, cal.day)
        },
        AppKey::Right => {
            add_days(cal, 1);
            CalNav::Move(cal.year, cal.month, cal.day)
        },
        AppKey::Up => {
            add_days(cal, -7);
            CalNav::Move(cal.year, cal.month, cal.day)
        },
        AppKey::Down => {
            add_days(cal, 7);
            CalNav::Move(cal.year, cal.month, cal.day)
        },
        AppKey::PageUp => {
            add_months(cal, -1);
            CalNav::Move(cal.year, cal.month, cal.day)
        },
        AppKey::PageDown => {
            add_months(cal, 1);
            CalNav::Move(cal.year, cal.month, cal.day)
        },
        AppKey::Home => {
            cal.day = 1;
            CalNav::Move(cal.year, cal.month, cal.day)
        },
        AppKey::End => {
            cal.day = days_in_month(cal.year, cal.month);
            CalNav::Move(cal.year, cal.month, cal.day)
        },
        AppKey::Enter => CalNav::Accept(cal.year, cal.month, cal.day),
        _ => CalNav::Stay,
    }
}

/// Spanish name of month `m` (`1..=12`).
pub open spec fn month_name_spec(m: int) -> Seq<char> {
    if m == 1 {
        "Enero"@
    } else if m == 2 {
        "Febrero"@
    } else if m == 3 {
        "Marzo"@
    } else if m == 4 {
        "Abril"@
    } else if m == 5 {
        "Mayo"@
    } else if m == 6 {
        "Junio"@
    } else if m == 7 {
        "Julio"@
    } else if m == 8 {
        "Agosto"@
    } else if m == 9 {
        "Septiembre"@
    } else if m == 10 {
        "Octubre"@
    } else if m == 11 {
        "Noviembre"@
    } else {
        "Diciembre"@
    }
}

fn month_name(m: u8) -> (r: &'static str)
    ensures
        r@ == month_name_spec(m as int),
{
    if m == 1 {
        "Enero"
    } else if m == 2 {
        "Febrero"
    } else if m == 3 {
        "Marzo"
    } else if m == 4 {
        "Abril"
    } else if m == 5 {
        "Mayo"
    } else if m == 6 {
        "Junio"
    } else if m == 7 {
        "Julio"
    } else if m == 8 {
        "Agosto"
    } else if m == 9 {
        "Septiembre"
    } else if m == 10 {
        "Octubre"
    } else if m == 11 {
        "Noviembre"
    } else {
        "Diciembre"
    }
}

/// Initial of weekday `i` (Monday first): `L M M J V S D`.
pub open spec fn weekday_letter(i: int) -> char {
    if i == 0 {
        'L'
    } else if i == 1 || i == 2 {
        'M'
    } else if i == 3 {
        'J'
    } else if i == 4 {
        'V'
    } else if i == 5 {
        'S'
    } else {
        'D'
    }
}

fn weekday_char(i: u16) -> (r: char)
    ensures
        r == weekday_letter(i as int),
{
    if i == 0 {
        'L'
    } else if i == 1 || i == 2 {
        'M'
    } else if i == 3 {
        'J'
    } else if i == 4 {
        'V'
    } else if i == 5 {
        'S'
    } else {
        'D'
    }
}

/// A signed number in decimal.
pub open spec fn int_text(n: int) -> Seq<char> {
    if n < 0 {
        seq!['-'] + decimal((-n) as nat)
    } else {
        decimal(n as nat)
    }
}

/// A day number right-aligned in two cells.
pub open spec fn day_label(d: int) -> Seq<char> {
    if d < 10 {
        seq![' ', digit_char(d)]
    } else {
        decimal(d as nat)
    }
}

/// The title: month name and year.
pub open spec fn cal_title(cal: CalendarPicker) -> Seq<char> {
    month_name_spec(cal.month as int) + seq![' '] + int_text(cal.year as int)
}

/// The seven weekday initials on row `y0`, three cells apart.
pub open spec fn weekdays_grid(g: Grid, x0: int, y0: int, a: Attr, k: int) -> Grid
    decreases k,
{
    if k <= 0 {
        g
    } else {
        paint_run(
            weekdays_grid(g, x0, y0, a, k - 1),
            sat_add(sat_add(x0, 1), (k - 1) * 3),
            y0,
            paint_seq(seq![weekday_letter(k - 1)], a),
            false,
        )
    }
}

/// The first `k` days of the month, each in its column (by weekday) and
/// row (by week), the selected day in the selection colours.
pub open spec fn days_grid(g: Grid, cal: CalendarPicker, x0: int, y0: int, first: int, k: int) -> Grid
    decreases k,
{
    if k <= 0 {
        g
    } else {
        let g1 = days_grid(g, cal, x0, y0, first, k - 1);
        let day = k;
        let pos = first + day - 1;
        let x = sat_add(sat_add(x0, 1), (pos % 7) * 3);
        let y = sat_add(sat_add(y0, 1), pos / 7);
        let sel = day == cal.day;
        let fg = if sel { cal.selected_fg } else { cal.foreground_color };
        let bg = if sel { cal.selected_bg } else { cal.background_color };
        paint_run(
            g1.fill(Rect { x: x as u16, y: y as u16, w: 2, h: 1 }, Cell::spec_new(' ', fg, bg)),
            x,
            y,
            paint_seq(day_label(day), Attr { fg, bg, bold: false, dim: false }),
            false,
        )
    }
}

/// The picker drawn in `rect` (at least 22 x 9, else nothing): shadow,
/// body, centred title, weekday initials, the days of the month, border.
pub open spec fn calendar_grid(g: Grid, rect: Rect, cal: CalendarPicker) -> Grid {
    if rect.w < 22 || rect.h < 9 {
        g
    } else {
        let b: int = if cal.border_color is Some { 1 } else { 0 };
        let g1 = if cal.has_shadow {
            shadow_grid(g, rect, 2, 1, ShadowStyle::Translucent, Theme::spec_clipper())
        } else {
            g
        };
        let g2 = g1.fill(rect, Cell::spec_new(' ', cal.foreground_color, cal.background_color));
        let title = cal_title(cal);
        let g3 = paint_run(
            g2,
            sat_add(rect.x as int, sat_sub(rect.w as int, seq_width(hot_clean(title))) / 2),
            sat_add(rect.y as int, b),
            paint_seq(
                fit_spec(title, sat_sub(rect.w as int, 2)),
                Attr { fg: cal.foreground_color, bg: cal.background_color, bold: true, dim: false },
            ),
            false,
        );
        let x0 = sat_add(rect.x as int, b);
        let y0 = sat_add(sat_add(rect.y as int, 2), b);
        let g4 = weekdays_grid(g3, x0, y0, Attr { fg: cal.header_fg, bg: cal.background_color, bold: true, dim: false }, 7);
        let first = weekday_spec(cal.year as int, cal.month as int, 1);
        let g5 = days_grid(g4, cal, x0, y0, first, month_days(cal.year as int, cal.month as int));
        match cal.border_color {
            Some(c) => ring(g5, rect, Cell::spec_new(' ', c, c)),
            None => g5,
        }
    }
}

fn text_of(v: &Vec<char>) -> (r: String)
    ensures
        r@ == v@,
{
    string_from_chars(v)
}

fn title_of(cal: &CalendarPicker) -> (r: String)
    requires
        1 <= cal.month <= 12,
    ensures
        r@ == cal_title(*cal),
{
    let name = month_name(cal.month);
    let mut v: Vec<char> = crate::text::chars_of(name);
    v.push(' ');
    let y = cal.year as i64;
    if y < 0 {
        v.push('-');
        let mut ds = decimal_chars((-y) as u64);
        v.append(&mut ds);
    } else {
        let mut ds = decimal_chars(y as u64);
        v.append(&mut ds);
    }
    assert(v@ =~= cal_title(*cal));
    text_of(&v)
}

fn day_text(d: u8) -> (r: String)
    ensures
        r@ == day_label(d as int),
{
    let mut v: Vec<char> = Vec::new();
    if d < 10 {
        v.push(' ');
        v.push(digit_of(d as u64));
        assert(v@ =~= day_label(d as int));
    } else {
        v = decimal_chars(d as u64);
    }
    text_of(&v)
}

/// Draws title, week and days (the selected one inverted).
pub fn calendar_draw(buf: &mut Buffer, rect: Rect, cal: &CalendarPicker)
    requires
        old(buf).wf(),
        rect.w >= 22 && rect.h >= 9 ==> 1 <= cal.month <= 12,
    ensures
        final(buf).wf(),
        final(buf)@ == calendar_grid(old(buf)@, rect, *cal),
{
    if rect.w < 22 || rect.h < 9 {
        return;
    }
    let bordered = cal.border_color.is_some();
    let b: u16 = if bordered { 1 } else { 0 };
    if cal.has_shadow {
        shadow(buf, rect, Theme::clipper());
    }
    buf.fill_rect(rect, Cell::new(' ', cal.foreground_color, cal.background_color));
    let title = title_of(cal);
    let fitted = fit_text(title.as_str(), rect.w.saturating_sub(2));
    draw_text(
        buf,
        rect.x.saturating_add(rect.w.saturating_sub(visible_len(title.as_str())) / 2),
        rect.y.saturating_add(b),
        fitted.as_str(),
        Attr::bold(cal.foreground_color, cal.background_color),
    );
    let x0 = rect.x.saturating_add(b);
    let y0 = rect.y.saturating_add(2).saturating_add(b);
    let ha = Attr::bold(cal.header_fg, cal.background_color);
    let ghost g3 = buf@;
    let mut i: u16 = 0;
    while i < 7
        invariant
            buf.wf(),
            i <= 7,
            ha == (Attr { fg: cal.header_fg, bg: cal.background_color, bold: true, dim: false }),
            buf@ == weekdays_grid(g3, x0 as int, y0 as int, ha, i as int),
        decreases 7 - i,
    {
        let s = text_of(&vec![weekday_char(i)]);
        assert(s@ =~= seq![weekday_letter(i as int)]);
        draw_text(buf, x0.saturating_add(1).saturating_add(i * 3), y0, s.as_str(), ha);
        i += 1;
    }
    let first = weekday(cal.year, cal.month, 1);
    let ndays = days_in_month(cal.year, cal.month);
    let ghost g4 = buf@;
    let mut day: u8 = 1;
    while day <= ndays
        invariant
            buf.wf(),
            1 <= day <= ndays + 1,
            ndays <= 31,
            first < 7,
            first == weekday_spec(cal.year as int, cal.month as int, 1),
            buf@ == days_grid(g4, *cal, x0 as int, y0 as int, first as int, (day - 1) as int),
        decreases ndays + 1 - day,
    {
        let pos = first as u16 + (day as u16 - 1);
        let col = pos % 7;
        let row = pos / 7;
        let x = x0.saturating_add(1).saturating_add(col * 3);
        let y = y0.saturating_add(1).saturating_add(row);
        let sel = day == cal.day;
        let fg = if sel { cal.selected_fg } else { cal.foreground_color };
        let bg = if sel { cal.selected_bg } else { cal.background_color };
        buf.fill_rect(Rect::new(x, y, 2, 1), Cell::new(' ', fg, bg));
        let t = day_text(day);
        draw_text(buf, x, y, t.as_str(), Attr::new(fg, bg));
        day += 1;
    }
    match cal.border_color {
        Some(c) => {
            draw_ring(buf, rect, Cell::new(' ', c, c));
        },
        None => {},
    }
}

/// Whether March-based year `yoe` of an era (it holds the following
/// February) has 366 days.
pub open spec fn era_leap(yoe: int) -> bool {
    yoe % 4 == 3 && (yoe % 100 != 99 || yoe == 399)
}

/// Days of month `mp` counted from March (`0` is March, `11` February,
/// given 29 days).
pub open spec fn mlen(mp: int) -> int {
    if mp == 11 {
        29
    } else if mp == 1 || mp == 3 || mp == 6 || mp == 8 {
        30
    } else {
        31
    }
}

proof fn lemma_year_of_era(yoe: u32, doy: u32)
    by (bit_vector)
    requires
        yoe < 400,
        doy <= 364 + (if yoe % 4 == 3 && (yoe % 100 != 99 || yoe == 399) { 1u32 } else { 0u32 }),
    ensures
        (((365 * yoe + yoe / 4 - yoe / 100 + doy) - (365 * yoe + yoe / 4 - yoe / 100 + doy) / 1460 + (365 * yoe
            + yoe / 4 - yoe / 100 + doy) / 36524 - (365 * yoe + yoe / 4 - yoe / 100 + doy) / 146096) / 365) == yoe,
        365 * yoe + yoe / 4 - yoe / 100 + doy <= 146096,
{
}

proof fn lemma_month_of_year(mp: u32, d: u32)
    by (bit_vector)
    requires
        mp < 12,
        1 <= d,
        d <= (if mp == 11 { 29u32 } else if mp == 1 || mp == 3 || mp == 6 || mp == 8 { 30u32 } else { 31u32 }),
    ensures
        (5 * ((153 * mp + 2) / 5 + d - 1) + 2) / 153 == mp,
        mp < 11 ==> (153 * mp + 2) / 5 + d - 1 <= 336,
        mp == 11 ==> (153 * mp + 2) / 5 + d - 1 == 336 + d,
{
}

proof fn lemma_era_split(doe: u32)
    by (bit_vector)
    requires
        doe <= 146096,
    ensures
        ({
            let yoe = (doe - doe / 1460 + doe / 36524 - doe / 146096) / 365;
            &&& yoe < 400
            &&& 365 * yoe + yoe / 4 - yoe / 100 <= doe
            &&& doe - (365 * yoe + yoe / 4 - yoe / 100) <= 364 + (if yoe % 4 == 3 && (yoe % 100 != 99 || yoe == 399) {
                1u32
            } else {
                0u32
            })
        }),
{
}

proof fn lemma_month_split(doy: u32)
    by (bit_vector)
    requires
        doy <= 365,
    ensures
        ({
            let mp = (5 * doy + 2) / 153;
            &&& mp < 12
            &&& (153 * mp + 2) / 5 <= doy
            &&& 1 <= doy - (153 * mp + 2) / 5 + 1
            &&& doy - (153 * mp + 2) / 5 + 1 <= (if mp == 11 { 29u32 } else if mp == 1 || mp == 3 || mp == 6 || mp == 8 {
                30u32
            } else {
                31u32
            })
            &&& mp == 11 ==> doy == 336 + (doy - (153 * mp + 2) / 5 + 1)
        }),
{
}

/// A civil year `400 * era + yoe + 1` is leap exactly when the era's
/// March-based year `yoe` holds a February 29.
proof fn lemma_leap_of_era(era: int, yoe: int)
    requires
        0 <= yoe < 400,
    ensures
        leap(era * 400 + yoe + 1) == era_leap(yoe),
{
    let y = era * 400 + yoe + 1;
    vstd::arithmetic::div_mod::lemma_mod_multiples_vanish(era * 100, yoe + 1, 4);
    vstd::arithmetic::div_mod::lemma_mod_multiples_vanish(era * 4, yoe + 1, 100);
    vstd::arithmetic::div_mod::lemma_mod_multiples_vanish(era, yoe + 1, 400);
    assert(4 * (era * 100) == era * 400) by (nonlinear_arith);
    assert(100 * (era * 4) == era * 400) by (nonlinear_arith);
    assert(400 * era == era * 400) by (nonlinear_arith);
    assert(y % 4 == (yoe + 1) % 4);
    assert(y % 100 == (yoe + 1) % 100);
    assert(y % 400 == (yoe + 1) % 400);
    assert(((yoe + 1) % 4 == 0) == (yoe % 4 == 3));
    assert(((yoe + 1) % 100 == 0) == (yoe % 100 == 99));
    assert(((yoe + 1) % 400 == 0) == (yoe == 399));
}

/// `civil_from_days` undoes `days_from_civil`: a valid date goes to its
/// day number and back to itself.
pub proof fn lemma_civil_roundtrip(y: int, m: int, d: int)
    requires
        valid_date(y, m, d),
    ensures
        civil_spec(days_spec(y, m, d)) == (y, m, d),
{
    let y2 = if m <= 2 { y - 1 } else { y };
    let era = y2 / 400;
    let yoe = y2 - era * 400;
    vstd::arithmetic::div_mod::lemma_fundamental_div_mod(y2, 400);
    assert(0 <= yoe < 400);
    let mp = (m + 9) % 12;
    assert(mp == if m <= 2 { m + 9 } else { m - 3 });
    assert(d <= mlen(mp) && (mp == 11 ==> d <= 28 + if era_leap(yoe) { 1int } else { 0 })) by {
        if m <= 2 {
            assert(y == era * 400 + yoe + 1);
            lemma_leap_of_era(era, yoe);
        }
    }
    lemma_month_of_year(mp as u32, d as u32);
    let doy = (153 * mp + 2) / 5 + d - 1;
    lemma_year_of_era(yoe as u32, doy as u32);
    let doe = yoe * 365 + yoe / 4 - yoe / 100 + doy;
    let z2 = era * 146097 + doe;
    vstd::arithmetic::div_mod::lemma_fundamental_div_mod_converse(z2, 146097, era, doe);
    assert(days_spec(y, m, d) + 719468 == z2);
}

/// `days_from_civil` undoes `civil_from_days`: every day number is the day
/// number of the valid date it is taken to.
pub proof fn lemma_days_roundtrip(z: int)
    ensures
        valid_date(civil_spec(z).0, civil_spec(z).1, civil_spec(z).2),
        days_spec(civil_spec(z).0, civil_spec(z).1, civil_spec(z).2) == z,
{
    let z2 = z + 719468;
    let era = z2 / 146097;
    vstd::arithmetic::div_mod::lemma_fundamental_div_mod(z2, 146097);
    let doe = z2 - era * 146097;
    assert(0 <= doe <= 146096);
    lemma_era_split(doe as u32);
    let yoe = (doe - doe / 1460 + doe / 36524 - doe / 146096) / 365;
    let doy = doe - (365 * yoe + yoe / 4 - yoe / 100);
    assert(0 <= doy <= 365);
    lemma_month_split(doy as u32);
    let mp = (5 * doy + 2) / 153;
    let d = doy - (153 * mp + 2) / 5 + 1;
    let m = if mp < 10 { mp + 3 } else { mp - 9 };
    let y = if m <= 2 { yoe + era * 400 + 1 } else { yoe + era * 400 };
    assert(civil_spec(z) == (y, m, d));
    assert((m + 9) % 12 == mp);
    let y2 = if m <= 2 { y - 1 } else { y };
    assert(y2 == era * 400 + yoe);
    vstd::arithmetic::div_mod::lemma_fundamental_div_mod_converse(y2, 400, era, yoe);
    if m <= 2 {
        lemma_leap_of_era(era, yoe);
    }
}

/// The calendar's next day: the next day of the month, else the first of
/// the next month, else New Year's Day.
pub open spec fn next_date(y: int, m: int, d: int) -> (int, int, int) {
    if d < month_days(y, m) {
        (y, m, d + 1)
    } else if m < 12 {
        (y, m + 1, 1)
    } else {
        (y + 1, 1, 1)
    }
}

/// Across the end of February: the March-based year `yy` ends `365` or
/// `366` days (the latter when the February it holds is of a leap year)
/// before the next one starts.
proof fn lemma_march_year_step(yy: int)
    ensures
        ({
            let era = yy / 400;
            let yoe = yy - era * 400;
            let era2 = (yy + 1) / 400;
            let yoe2 = (yy + 1) - era2 * 400;
            era * 146097 + yoe * 365 + yoe / 4 - yoe / 100 + 365 + (if leap(yy + 1) { 1int } else { 0 }) == era2
                * 146097 + yoe2 * 365 + yoe2 / 4 - yoe2 / 100
        }),
{
    let era = yy / 400;
    let yoe = yy - era * 400;
    vstd::arithmetic::div_mod::lemma_fundamental_div_mod(yy, 400);
    assert(0 <= yoe < 400);
    if yoe < 399 {
        vstd::arithmetic::div_mod::lemma_fundamental_div_mod_converse(yy + 1, 400, era, yoe + 1);
        let k = yoe + 1;
        vstd::arithmetic::div_mod::lemma_mod_multiples_vanish(100 * era, k, 4);
        vstd::arithmetic::div_mod::lemma_mod_multiples_vanish(4 * era, k, 100);
        vstd::arithmetic::div_mod::lemma_mod_multiples_vanish(era, k, 400);
        assert(yy + 1 == 4 * (100 * era) + k);
        assert(yy + 1 == 100 * (4 * era) + k);
        assert(yy + 1 == 400 * era + k);
        let k32 = k as u32;
        assert(1 <= k32 <= 399);
        assert(k32 / 4 - (k32 - 1) / 4 == (if k32 % 4 == 0 { 1u32 } else { 0u32 })
            && k32 / 100 - (k32 - 1) / 100 == (if k32 % 100 == 0 { 1u32 } else { 0u32 })
            && (k32 % 100 == 0 ==> k32 % 4 == 0)
            && k32 % 400 != 0) by (bit_vector)
            requires
                1 <= k32 <= 399,
        ;
    } else {
        vstd::arithmetic::div_mod::lemma_fundamental_div_mod_converse(yy + 1, 400, era + 1, 0);
        vstd::arithmetic::div_mod::lemma_mod_multiples_vanish(era + 1, 0, 400);
        vstd::arithmetic::div_mod::lemma_mod_multiples_vanish(100 * (era + 1), 0, 4);
        assert(yy + 1 == 400 * (era + 1));
        assert(yy + 1 == 4 * (100 * (era + 1)));
        vstd::arithmetic::div_mod::lemma_small_mod(0, 4);
        vstd::arithmetic::div_mod::lemma_small_mod(0, 400);
    }
}

/// The day number of the calendar's next day is one more.
#[verifier::spinoff_prover]
proof fn lemma_next_day_number(y: int, m: int, d: int)
    requires
        valid_date(y, m, d),
    ensures
        days_spec(next_date(y, m, d).0, next_date(y, m, d).1, next_date(y, m, d).2) == days_spec(y, m, d) + 1,
{
    if d < month_days(y, m) {
    } else if m == 2 {
        lemma_march_year_step(y - 1);
        assert((153 * 11 + 2) / 5 == 337);
        assert((3 + 9) % 12 == 0);
        assert((2 + 9) % 12 == 11);
    } else if m < 12 {
        lemma_next_month_offset(y, m);
    } else {
        assert((12 + 9) % 12 == 9);
        assert((1 + 9) % 12 == 10);
    }
}

/// Within a March-based year, the next month starts the month's length of
/// days later.
#[verifier::spinoff_prover]
proof fn lemma_next_month_offset(y: int, m: int)
    requires
        1 <= m < 12,
        m != 2,
    ensures
        (153 * ((m + 1 + 9) % 12) + 2) / 5 == (153 * ((m + 9) % 12) + 2) / 5 + month_days(y, m),
        (m <= 2) == (m + 1 <= 2),
{
    assert((m + 9) % 12 == if m == 1 { 10 } else { m - 3 });
    assert((m + 1 + 9) % 12 == if m == 1 { 11 } else { m - 2 });
}

/// The day after a valid date is the calendar's next day: it is valid,
/// its day number is one more, and `civil_from_days` of that number gives
/// it back.
pub proof fn lemma_next_day(y: int, m: int, d: int)
    requires
        valid_date(y, m, d),
    ensures
        valid_date(next_date(y, m, d).0, next_date(y, m, d).1, next_date(y, m, d).2),
        days_spec(next_date(y, m, d).0, next_date(y, m, d).1, next_date(y, m, d).2) == days_spec(y, m, d) + 1,
        civil_spec(days_spec(y, m, d) + 1) == next_date(y, m, d),
{
    let (ny, nm, nd) = next_date(y, m, d);
    assert(valid_date(ny, nm, nd));
    lemma_next_day_number(y, m, d);
    lemma_civil_roundtrip(ny, nm, nd);
}

/// The date `k` days after `y-m-d`, counted one calendar day at a time.
pub open spec fn date_after(y: int, m: int, d: int, k: nat) -> (int, int, int)
    decreases k,
{
    if k == 0 {
        (y, m, d)
    } else {
        let p = date_after(y, m, d, (k - 1) as nat);
        next_date(p.0, p.1, p.2)
    }
}

/// Counting `k` days on from a valid date lands on a valid date whose day
/// number is `k` more, the one that `civil_from_days` gives for it; within
/// a month of days it is still in the same year or in January of the next.
pub proof fn lemma_date_after(y: int, m: int, d: int, k: nat)
    requires
        valid_date(y, m, d),
        k <= 30,
    ensures
        ({
            let a = date_after(y, m, d, k);
            &&& valid_date(a.0, a.1, a.2)
            &&& days_spec(a.0, a.1, a.2) == days_spec(y, m, d) + k
            &&& civil_spec(days_spec(y, m, d) + k) == a
            &&& a.0 == y || (a.0 == y + 1 && a.1 == 1 && a.2 <= k)
        }),
    decreases k,
{
    if k > 0 {
        lemma_date_after(y, m, d, (k - 1) as nat);
        let p = date_after(y, m, d, (k - 1) as nat);
        lemma_next_day(p.0, p.1, p.2);
    }
    let a = date_after(y, m, d, k);
    lemma_civil_roundtrip(a.0, a.1, a.2);
}

/// Moving a valid date by up to a month of days either way gives the valid
/// date with that day number, in the year before, the same year or the
/// year after.
proof fn lemma_shift_small(y: int, m: int, d: int, delta: int)
    requires
        valid_date(y, m, d),
        -30 <= delta <= 30,
    ensures
        ({
            let c = civil_spec(days_spec(y, m, d) + delta);
            &&& valid_date(c.0, c.1, c.2)
            &&& days_spec(c.0, c.1, c.2) == days_spec(y, m, d) + delta
            &&& y - 1 <= c.0 <= y + 1
        }),
{
    let z = days_spec(y, m, d);
    if delta >= 0 {
        lemma_date_after(y, m, d, delta as nat);
    } else {
        lemma_days_roundtrip(z + delta);
        let c = civil_spec(z + delta);
        lemma_date_after(c.0, c.1, c.2, (-delta) as nat);
        lemma_civil_roundtrip(y, m, d);
        assert(z + delta + (-delta) == z);
    }
}

/// The arrows move a valid date by whole days: `Right` and `Left` one day
/// forward and back, `Down` and `Up` one week forward and back. Each gives
/// a valid date whose day number is that many days later or earlier, and
/// `Down` then `Up`, `Up` then `Down`, `Right` then `Left` and `Left` then
/// `Right` come back to the same date (for years off the ends of `i32`).
#[verifier::spinoff_prover]
pub proof fn lemma_calendar_arrows(y: int, m: int, d: int)
    requires
        valid_date(y, m, d),
        i32::MIN < y < i32::MAX,
    ensures
        ({
            let z = days_spec(y, m, d);
            let r = cal_next(y, m, d, AppKey::Right);
            let l = cal_next(y, m, d, AppKey::Left);
            let dn = cal_next(y, m, d, AppKey::Down);
            let up = cal_next(y, m, d, AppKey::Up);
            &&& valid_date(r.0, r.1, r.2) && days_spec(r.0, r.1, r.2) == z + 1
            &&& valid_date(l.0, l.1, l.2) && days_spec(l.0, l.1, l.2) == z - 1
            &&& valid_date(dn.0, dn.1, dn.2) && days_spec(dn.0, dn.1, dn.2) == z + 7
            &&& valid_date(up.0, up.1, up.2) && days_spec(up.0, up.1, up.2) == z - 7
            &&& cal_next(dn.0, dn.1, dn.2, AppKey::Up) == (y, m, d)
            &&& cal_next(up.0, up.1, up.2, AppKey::Down) == (y, m, d)
            &&& cal_next(r.0, r.1, r.2, AppKey::Left) == (y, m, d)
            &&& cal_next(l.0, l.1, l.2, AppKey::Right) == (y, m, d)
        }),
{
    lemma_shift_exact(y, m, d, 1);
    lemma_shift_exact(y, m, d, -1);
    lemma_shift_exact(y, m, d, 7);
    lemma_shift_exact(y, m, d, -7);
    let r = cal_next(y, m, d, AppKey::Right);
    let l = cal_next(y, m, d, AppKey::Left);
    let dn = cal_next(y, m, d, AppKey::Down);
    let up = cal_next(y, m, d, AppKey::Up);
    lemma_civil_roundtrip(y, m, d);
    lemma_back_home(y, m, d, r, -1);
    lemma_back_home(y, m, d, l, 1);
    lemma_back_home(y, m, d, dn, -7);
    lemma_back_home(y, m, d, up, 7);
}

/// `shift_days` by a small step from a date of a year off the ends of
/// `i32` is the date of the shifted day number, with nothing cut by the
/// narrowing to machine integers.
proof fn lemma_shift_exact(y: int, m: int, d: int, delta: int)
    requires
        valid_date(y, m, d),
        i32::MIN < y < i32::MAX,
        -30 <= delta <= 30,
    ensures
        ({
            let s = shift_days(y, m, d, delta);
            &&& s == civil_spec(days_spec(y, m, d) + delta)
            &&& valid_date(s.0, s.1, s.2)
            &&& days_spec(s.0, s.1, s.2) == days_spec(y, m, d) + delta
        }),
{
    lemma_shift_small(y, m, d, delta);
    let c = civil_spec(days_spec(y, m, d) + delta);
    assert(1 <= c.1 <= 12 && 1 <= c.2 <= 31);
    assert(i32::MIN <= c.0 <= i32::MAX);
}

/// From a date `s` whose day number is `-delta` from that of `y-m-d`,
/// shifting by `delta` comes back to `y-m-d`.
proof fn lemma_back_home(y: int, m: int, d: int, s: (int, int, int), delta: int)
    requires
        valid_date(y, m, d),
        i32::MIN < y < i32::MAX,
        civil_spec(days_spec(y, m, d)) == (y, m, d),
        days_spec(s.0, s.1, s.2) == days_spec(y, m, d) - delta,
    ensures
        shift_days(s.0, s.1, s.2, delta) == (y, m, d),
{
    assert(days_spec(s.0, s.1, s.2) + delta == days_spec(y, m, d));
}

/// `PgDn` goes to the same day of the next month and `PgUp` to that of the
/// previous one (crossing into the next or previous year from December or
/// January), the day cut to the length of the month it lands in; a day
/// that both months hold comes back by `PgDn` then `PgUp`. `Home` and `End`
/// go to the first and the last day of the month.
pub proof fn lemma_calendar_pages(y: int, m: int, d: int)
    requires
        valid_date(y, m, d),
    ensures
        ({
            let (ny, nm) = if m < 12 { (y, m + 1) } else { (y + 1, 1) };
            cal_next(y, m, d, AppKey::PageDown) == (ny, nm, if d <= month_days(ny, nm) { d } else { month_days(ny, nm) })
        }),
        ({
            let (py, pm) = if m > 1 { (y, m - 1) } else { (y - 1, 12) };
            cal_next(y, m, d, AppKey::PageUp) == (py, pm, if d <= month_days(py, pm) { d } else { month_days(py, pm) })
        }),
        ({
            let (ny, nm) = if m < 12 { (y, m + 1) } else { (y + 1, 1) };
            let n = cal_next(y, m, d, AppKey::PageDown);
            d <= month_days(ny, nm) ==> cal_next(n.0, n.1, n.2, AppKey::PageUp) == (y, m, d)
        }),
        cal_next(y, m, d, AppKey::Home) == (y, m, 1int),
        cal_next(y, m, d, AppKey::End) == (y, m, month_days(y, m)),
        valid_date(y, m, 1) && valid_date(y, m, month_days(y, m)),
{
    if m < 12 {
        vstd::arithmetic::div_mod::lemma_fundamental_div_mod_converse(y * 12 + m, 12, y, m);
        vstd::arithmetic::div_mod::lemma_fundamental_div_mod_converse(y * 12 + m - 1, 12, y, m - 1);
    } else {
        vstd::arithmetic::div_mod::lemma_fundamental_div_mod_converse(y * 12 + m, 12, y + 1, 0);
        vstd::arithmetic::div_mod::lemma_fundamental_div_mod_converse((y + 1) * 12 + 1 - 1 - 1, 12, y, 11);
    }
    if m > 1 {
        vstd::arithmetic::div_mod::lemma_fundamental_div_mod_converse(y * 12 + m - 2, 12, y, m - 2);
    } else {
        vstd::arithmetic::div_mod::lemma_fundamental_div_mod_converse(y * 12 + m - 2, 12, y - 1, 11);
    }
}

/// The weekdays run in order: the day after a valid date falls on the next
/// weekday (Sunday followed by Monday), and 1970-01-01 was a Thursday.
pub proof fn lemma_weekday_next(y: int, m: int, d: int)
    requires
        valid_date(y, m, d),
    ensures
        ({
            let n = next_date(y, m, d);
            weekday_spec(n.0, n.1, n.2) == (weekday_spec(y, m, d) + 1) % 7
        }),
        weekday_spec(1970, 1, 1) == 3,
{
    lemma_next_day(y, m, d);
    let z = days_spec(y, m, d);
    vstd::arithmetic::div_mod::lemma_add_mod_noop(z + 3, 1, 7);
    vstd::arithmetic::div_mod::lemma_small_mod(1, 7);
    vstd::arithmetic::div_mod::lemma_mod_twice(z + 3, 7);
    assert(days_spec(1970, 1, 1) == 0);
}

/// A year has 365 days, 366 in a leap year: New Year's Day of the next
/// year comes that many days later.
pub proof fn lemma_year_length(y: int)
    ensures
        days_spec(y + 1, 1, 1) - days_spec(y, 1, 1) == 365 + if leap(y) { 1int } else { 0 },
{
    lemma_march_year_step(y - 1);
    assert((1 + 9) % 12 == 10);
    assert((153 * 10 + 2) / 5 == 306);
}

} // verus!
