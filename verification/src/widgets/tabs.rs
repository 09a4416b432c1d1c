//! Filing-cabinet tab container (`TabControl`).
//!
//! Each tab is a folder ear on the top strip (or down the side in `Left`
//! mode); the active page opens onto a card framed with a single CP437 box
//! (`┌─┐│└┘`). The active tab (navy on white, high contrast) stays joined
//! to the inside: the top line of the frame opens under it, while the idle
//! ones (`│ label │`, dimmed) sit on the frame with `┴`.
//!
//! Each page exposes a viewport in local coordinates: `tab_viewport()`
//! gives the usable inside of the frame, in `Top` mode exactly
//! `(x+1, y+2, w-2, h-3)`.

use vstd::prelude::*;

use crate::app::events::AppKey;
use crate::engine::buffer::{Buffer, Grid, paint_run, paint_seq};
use crate::engine::cell::Cell;
use crate::engine::color::{Attr, Color};
use crate::engine::rect::{Rect, max_int, min_int, sat_add, sat_sub};
use crate::engine::theme::Theme;
use crate::prim::label::{draw_text, fit_spec, fit_text, hot_clean, visible_len};
use crate::prim::shadow::{ShadowStyle, shadow, shadow_grid};
use crate::prim::window::{col_strip, row_strip};
use crate::text::{chars_of, seq_width, string_from_chars};

verus! {

/// Where the tab strip goes.
#[derive(Clone, Copy, Debug, PartialEq, Eq, Default, Structural)]
pub enum TabPosition {
    /// Across the top.
    #[default]
    Top,
    /// Down the left side.
    Left,
}

/// One tab: label and colours of its own (kept; the drawing uses a fixed
/// palette: dimmed idle ears, navy on white for the active one).
#[derive(Clone, Debug, PartialEq, Eq)]
pub struct Tab {
    pub label: String,
    pub fg: Color,
    pub bg: Color,
}

impl Tab {
    pub fn new(label: &str, fg: Color, bg: Color) -> (r: Self)
        ensures
            r.label@ == label@,
            r.fg == fg,
            r.bg == bg,
    {
        Tab { label: label.to_owned(), fg, bg }
    }
}

/// Tab container.
#[derive(Clone, Debug, PartialEq, Eq)]
pub struct TabControl {
    pub tabs: Vec<Tab>,
    pub active: usize,
    pub position: TabPosition,
    pub foreground_color: Color,
    pub background_color: Color,
    pub border_color: Option<Color>,
    pub has_shadow: bool,
}

/// The labels of the tabs.
pub open spec fn tab_labels(tabs: Seq<Tab>) -> Seq<Seq<char>> {
    tabs.map_values(|t: Tab| t.label@)
}

/// Widest label, in cells (0 without tabs).
pub open spec fn widest_label(tabs: Seq<Tab>) -> int
    decreases tabs.len(),
{
    if tabs.len() == 0 {
        0
    } else {
        max_int(widest_label(tabs.drop_last()), seq_width(hot_clean(tabs.last().label@)))
    }
}

impl TabControl {
    /// One tab per label in the popup colours of `theme`, the first one
    /// active, no border, no shadow.
    pub fn new(labels: &[&str], position: TabPosition, theme: Theme) -> (r: Self)
        ensures
            tab_labels(r.tabs@) == labels@.map_values(|s: &str| s@),
            forall|i: int| #![trigger r.tabs@[i]] 0 <= i < r.tabs@.len() ==> r.tabs@[i].fg == theme.popup_text && r.tabs@[i].bg == theme.popup,
            r.active == 0,
            r.position == position,
            r.foreground_color == theme.popup_text,
            r.background_color == theme.popup,
            r.border_color is None,
            !r.has_shadow,
    {
        let mut tabs: Vec<Tab> = Vec::new();
        let mut i: usize = 0;
        while i < labels.len()
            invariant
                i <= labels@.len(),
                tabs@.len() == i,
                forall|j: int| #![trigger tabs@[j]] 0 <= j < i ==> tabs@[j].label@ == labels@[j]@ && tabs@[j].fg == theme.popup_text
                    && tabs@[j].bg == theme.popup,
            decreases labels.len() - i,
        {
            tabs.push(Tab::new(labels[i], theme.popup_text, theme.popup));
            i += 1;
        }
        assert(tab_labels(tabs@) =~= labels@.map_values(|s: &str| s@));
        TabControl {
            tabs,
            active: 0,
            position,
            foreground_color: theme.popup_text,
            background_color: theme.popup,
            border_color: None,
            has_shadow: false,
        }
    }

    /// Adds a tab at the end; returns its index.
    pub fn add_tab(&mut self, label: &str, fg: Color, bg: Color) -> (r: usize)
        ensures
            final(self).tabs@.len() == old(self).tabs@.len() + 1,
            final(self).tabs@.drop_last() == old(self).tabs@,
            final(self).tabs@.last().label@ == label@,
            final(self).tabs@.last().fg == fg,
            final(self).tabs@.last().bg == bg,
            r == old(self).tabs@.len(),
            final(self).active == old(self).active,
            final(self).position == old(self).position,
    {
        self.tabs.push(Tab::new(label, fg, bg));
        assert(self.tabs@.drop_last() =~= old(self).tabs@);
        self.tabs.len() - 1
    }

    /// Makes tab `idx` active (clamped to the last one); no tabs, no change.
    pub fn set_active(&mut self, idx: usize)
        ensures
            final(self).active == if old(self).tabs@.len() == 0 {
                old(self).active as int
            } else {
                min_int(idx as int, old(self).tabs@.len() - 1)
            },
            final(self).tabs == old(self).tabs,
            final(self).position == old(self).position,
    {
        if self.tabs.len() > 0 {
            self.active = if idx < self.tabs.len() - 1 { idx } else { self.tabs.len() - 1 };
        }
    }

    /// Label of the active page (the name of its focus scope); empty when
    /// `active` is past the tabs.
    pub fn active_scope(&self) -> (r: &str)
        ensures
            r@ == if self.active < self.tabs@.len() { self.tabs@[self.active as int].label@ } else { Seq::empty() },
    {
        if self.active < self.tabs.len() {
            self.tabs[self.active].label.as_str()
        } else {
            proof {
                reveal_strlit("");
            }
            ""
        }
    }

    /// Width of the tab column in `Left` mode: widest label plus four.
    pub fn strip_width(&self) -> (r: u16)
        ensures
            r == sat_add(widest_label(self.tabs@), 4),
    {
        let mut w: u16 = 0;
        let mut i: usize = 0;
        while i < self.tabs.len()
            invariant
                i <= self.tabs@.len(),
                w == widest_label(self.tabs@.take(i as int)),
            decreases self.tabs.len() - i,
        {
            assert(self.tabs@.take(i + 1).drop_last() =~= self.tabs@.take(i as int));
            let l = visible_len(self.tabs[i].label.as_str());
            if l > w {
                w = l;
            }
            i += 1;
        }
        assert(self.tabs@.take(i as int) =~= self.tabs@);
        w.saturating_add(4)
    }
}

/// The usable inside of the card (its local viewport).
pub open spec fn viewport_spec(container: Rect, tabs: TabControl) -> Rect {
    match tabs.position {
        TabPosition::Top => Rect {
            x: sat_add(container.x as int, 1) as u16,
            y: sat_add(container.y as int, 2) as u16,
            w: sat_sub(container.w as int, 2) as u16,
            h: sat_sub(container.h as int, 3) as u16,
        },
        TabPosition::Left => {
            let sw = min_int(sat_add(widest_label(tabs.tabs@), 4), container.w as int);
            Rect {
                x: sat_add(sat_add(container.x as int, sw), 1) as u16,
                y: sat_add(container.y as int, 1) as u16,
                w: sat_sub(sat_sub(container.w as int, sw), 2) as u16,
                h: sat_sub(container.h as int, 2) as u16,
            }
        },
    }
}

/// Usable inside of the card for the widgets of the active page. In `Top`
/// mode it is exactly `(x+1, y+2, w-2, h-3)`: below the strip (row 0) and
/// the frame's top line (row 1), between the walls, above the bottom line.
pub fn tab_viewport(container: Rect, tabs: &TabControl) -> (r: Rect)
    ensures
        r == viewport_spec(container, *tabs),
{
    match tabs.position {
        TabPosition::Top => Rect::new(
            container.x.saturating_add(1),
            container.y.saturating_add(2),
            container.w.saturating_sub(2),
            container.h.saturating_sub(3),
        ),
        TabPosition::Left => {
            let sw0 = tabs.strip_width();
            let sw = if sw0 < container.w { sw0 } else { container.w };
            Rect::new(
                container.x.saturating_add(sw).saturating_add(1),
                container.y.saturating_add(1),
                container.w.saturating_sub(sw).saturating_sub(2),
                container.h.saturating_sub(2),
            )
        },
    }
}

/// Result of a key on the tabs.
#[derive(Clone, Copy, Debug, PartialEq, Eq, Structural)]
pub enum TabNav {
    Stay,
    Move(usize),
}

/// `Left`/`Right` (top strip) or `Up`/`Down` (left strip) change page
/// round the ends; `Home`/`End` go to the ends; `Tab` moves forward.
/// The active index is first clamped to the tabs; no tabs, no change.
pub open spec fn tab_next(n: int, active0: int, position: TabPosition, key: AppKey) -> (int, TabNav) {
    if n == 0 {
        (active0, TabNav::Stay)
    } else {
        let a = min_int(active0, n - 1);
        let fwd = (a + 1) % n;
        let back = (a + n - 1) % n;
        match key {
            AppKey::Home => (0, TabNav::Move(0)),
            AppKey::End => (n - 1, TabNav::Move((n - 1) as usize)),
            AppKey::Tab => (fwd, TabNav::Move(fwd as usize)),
            AppKey::Left => if position == TabPosition::Top { (back, TabNav::Move(back as usize)) } else { (a, TabNav::Stay) },
            AppKey::Right => if position == TabPosition::Top { (fwd, TabNav::Move(fwd as usize)) } else { (a, TabNav::Stay) },
            AppKey::Up => if position == TabPosition::Left { (back, TabNav::Move(back as usize)) } else { (a, TabNav::Stay) },
            AppKey::Down => if position == TabPosition::Left { (fwd, TabNav::Move(fwd as usize)) } else { (a, TabNav::Stay) },
            _ => (a, TabNav::Stay),
        }
    }
}

/// Paging is round: whatever the key, the active index stays among the
/// tabs; on a top strip `Right` then `Left`, and on a left strip `Down`
/// then `Up`, come back to the page one started from (and so does `Left`
/// then `Right`, `Up` then `Down`).
pub proof fn lemma_tab_paging_round(n: int, a: int, position: TabPosition, key: AppKey)
    requires
        n > 0,
        0 <= a < n,
    ensures
        0 <= tab_next(n, a, position, key).0 < n,
        position == TabPosition::Top ==> tab_next(n, tab_next(n, a, position, AppKey::Right).0, position, AppKey::Left).0 == a,
        position == TabPosition::Top ==> tab_next(n, tab_next(n, a, position, AppKey::Left).0, position, AppKey::Right).0 == a,
        position == TabPosition::Left ==> tab_next(n, tab_next(n, a, position, AppKey::Down).0, position, AppKey::Up).0 == a,
        position == TabPosition::Left ==> tab_next(n, tab_next(n, a, position, AppKey::Up).0, position, AppKey::Down).0 == a,
{
    let fwd = (a + 1) % n;
    let back = (a + n - 1) % n;
    if a + 1 < n {
        vstd::arithmetic::div_mod::lemma_small_mod((a + 1) as nat, n as nat);
    } else {
        vstd::arithmetic::div_mod::lemma_mod_self_0(n);
    }
    if a >= 1 {
        vstd::arithmetic::div_mod::lemma_mod_add_multiples_vanish(a - 1, n);
        vstd::arithmetic::div_mod::lemma_small_mod((a - 1) as nat, n as nat);
    } else {
        vstd::arithmetic::div_mod::lemma_small_mod((n - 1) as nat, n as nat);
    }
    assert(0 <= fwd < n && 0 <= back < n);
    // Back from the next page.
    if fwd >= 1 {
        vstd::arithmetic::div_mod::lemma_mod_add_multiples_vanish(fwd - 1, n);
        vstd::arithmetic::div_mod::lemma_small_mod((fwd - 1) as nat, n as nat);
    } else {
        vstd::arithmetic::div_mod::lemma_small_mod((n - 1) as nat, n as nat);
    }
    assert((fwd + n - 1) % n == a);
    // Forward from the previous page.
    if back + 1 < n {
        vstd::arithmetic::div_mod::lemma_small_mod((back + 1) as nat, n as nat);
    } else {
        vstd::arithmetic::div_mod::lemma_mod_self_0(n);
    }
    assert((back + 1) % n == a);
}

/// Pure navigation; see `tab_next`.
pub fn tab_key(tabs: &mut TabControl, code: AppKey) -> (r: TabNav)
    ensures
        (final(tabs).active as int, r) == tab_next(old(tabs).tabs@.len() as int, old(tabs).active as int, old(tabs).position, code),
        final(tabs).tabs == old(tabs).tabs,
        final(tabs).position == old(tabs).position,
        final(tabs).foreground_color == old(tabs).foreground_color,
        final(tabs).background_color == old(tabs).background_color,
        final(tabs).border_color == old(tabs).border_color,
        final(tabs).has_shadow == old(tabs).has_shadow,
{
    let n = tabs.tabs.len();
    if n == 0 {
        return TabNav::Stay;
    }
    if tabs.active > n - 1 {
        tabs.active = n - 1;
    }
    let a = tabs.active;
    proof {
        crate::widgets::common::lemma_mod_wrap(a + 1, n as int);
        crate::widgets::common::lemma_mod_wrap(a + n - 1, n as int);
    }
    let fwd = if a + 1 == n { 0 } else { a + 1 };
    let back = if a == 0 { n - 1 } else { a - 1 };
    let top = match tabs.position {
        TabPosition::Top => true,
        TabPosition::Left => false,
    };
    let target = match code {
        AppKey::Home => 0,
        AppKey::End => n - 1,
        AppKey::Tab => fwd,
        AppKey::Left => if top { back } else { return TabNav::Stay; },
        AppKey::Right => if top { fwd } else { return TabNav::Stay; },
        AppKey::Up => if !top { back } else { return TabNav::Stay; },
        AppKey::Down => if !top { fwd } else { return TabNav::Stay; },
        _ => {
            return TabNav::Stay;
        },
    };
    tabs.active = target;
    TabNav::Move(target)
}

/// The ear text: the label with a space on each side.
pub open spec fn ear_text(label: Seq<char>) -> Seq<char> {
    seq![' '] + label + seq![' ']
}

/// Width of an ear: its text plus the two walls.
pub open spec fn ear_width(label: Seq<char>) -> int {
    sat_add(seq_width(hot_clean(ear_text(label))), 2)
}

/// Walk of the ears across the top strip: from `x0` each ear is drawn if
/// it fits before `limit`; the walk stops at the first one that does not.
/// Gives the grid, the next column, whether it stopped, where the active
/// ear is (column and width) and the columns of the idle ears' walls.
pub open spec fn ears(g: Grid, tabs: Seq<Tab>, active: int, y: int, x0: int, limit: int, k: int) -> (Grid, int, bool, Option<(int, int)>, Seq<int>)
    decreases k,
{
    if k <= 0 {
        (g, x0, false, None, Seq::empty())
    } else {
        let (g1, cx, stopped, span, idle) = ears(g, tabs, active, y, x0, limit, k - 1);
        let i = k - 1;
        let w = ear_width(tabs[i].label@);
        if stopped || sat_add(cx, w) > limit {
            (g1, cx, true, span, idle)
        } else {
            let a = if i == active {
                Attr { fg: Color::Navy, bg: Color::White, bold: true, dim: false }
            } else {
                Attr { fg: Color::Grey, bg: Color::DarkGrey, bold: false, dim: false }
            };
            let right_wall = sat_sub(sat_add(cx, w), 1);
            let g2 = paint_run(
                g1.set(cx, y, Cell::spec_with_attr('\u{2502}', a)),
                sat_add(cx, 1),
                y,
                paint_seq(fit_spec(ear_text(tabs[i].label@), sat_sub(w, 2)), a),
                false,
            ).set(right_wall, y, Cell::spec_with_attr('\u{2502}', a));
            let span2 = if i == active { Some((cx, w)) } else { span };
            let idle2 = if i == active { idle } else { idle.push(cx).push(right_wall) };
            (g2, sat_add(sat_add(cx, w), 1), false, span2, idle2)
        }
    }
}

/// Glyph of the top frame line at column `x` (`None`: left open).
pub open spec fn top_line_glyph(span: Option<(int, int)>, idle: Seq<int>, x: int) -> Option<char> {
    match span {
        Some((ax, aw)) => {
            let end = sat_sub(sat_add(ax, aw), 1);
            if x == ax || x == end {
                Some('\u{2502}')
            } else if ax < x < end {
                None
            } else if idle.contains(x) {
                Some('\u{2534}')
            } else {
                Some('\u{2500}')
            }
        },
        None => if idle.contains(x) {
            Some('\u{2534}')
        } else {
            Some('\u{2500}')
        },
    }
}

/// The top frame line between the corners (`[x1, x2)` of row `by`).
pub open spec fn top_line(g: Grid, by: int, x1: int, x2: int, span: Option<(int, int)>, idle: Seq<int>, ink: Attr) -> Grid {
    Grid {
        w: g.w,
        h: g.h,
        at: |px: int, py: int|
            if py == by && x1 <= px < x2 && g.in_bounds(px, py) && top_line_glyph(span, idle, px) is Some {
                Cell::spec_with_attr(top_line_glyph(span, idle, px)->0, ink)
            } else {
                (g.at)(px, py)
            },
    }
}

/// Walls and bottom of a `Top` card under its top line `top_row`.
pub open spec fn card_body(g: Grid, rect: Rect, top_row: int, ink: Attr) -> Grid {
    let bottom = sat_sub(rect.spec_bottom() as int, 1);
    let right = sat_sub(rect.spec_right() as int, 1);
    let v = Cell::spec_with_attr('\u{2502}', ink);
    let g1 = g.fill(col_strip(rect.x as int, sat_add(top_row, 1), bottom), v).fill(col_strip(right, sat_add(top_row, 1), bottom), v);
    if bottom > top_row {
        g1.set(rect.x as int, bottom, Cell::spec_with_attr('\u{2514}', ink))
            .set(right, bottom, Cell::spec_with_attr('\u{2518}', ink))
            .fill(row_strip(bottom, sat_add(rect.x as int, 1), right), Cell::spec_with_attr('\u{2500}', ink))
    } else {
        g1
    }
}

/// The `Top` layout: ears, then the frame with the opening under the
/// active ear and `┴` under the idle ones.
pub open spec fn top_grid(g: Grid, rect: Rect, tabs: TabControl, active: int, ink: Attr) -> Grid {
    let g1 = g.fill(rect, Cell::spec_new(' ', tabs.foreground_color, tabs.background_color));
    let right = sat_sub(rect.spec_right() as int, 1);
    let (g2, _, _, span, idle) = ears(g1, tabs.tabs@, active, rect.y as int, sat_add(rect.x as int, 1), right, tabs.tabs@.len() as int);
    if rect.h < 2 {
        g2
    } else {
        let by = sat_add(rect.y as int, 1);
        let g3 = g2.set(rect.x as int, by, Cell::spec_with_attr('\u{250c}', ink)).set(right, by, Cell::spec_with_attr('\u{2510}', ink));
        let g4 = top_line(g3, by, sat_add(rect.x as int, 1), right, span, idle, ink);
        card_body(g4, rect, by, ink)
    }
}

/// The tab rows of the `Left` strip, `k` tabs down from `y + 1`, stopping
/// at the row above the bottom. Gives the grid, the next row, whether it
/// stopped and the row of the active tab.
pub open spec fn left_rows(g: Grid, rect: Rect, tabs: Seq<Tab>, active: int, sw: int, k: int) -> (Grid, int, bool, Option<int>)
    decreases k,
{
    if k <= 0 {
        (g, sat_add(rect.y as int, 1), false, None)
    } else {
        let (g1, cy, stopped, ay) = left_rows(g, rect, tabs, active, sw, k - 1);
        let i = k - 1;
        if stopped || cy >= sat_sub(rect.spec_bottom() as int, 1) {
            (g1, cy, true, ay)
        } else {
            let text = paint_seq(
                fit_spec(tabs[i].label@, sat_sub(sw, 3)),
                if i == active {
                    Attr { fg: Color::Navy, bg: Color::White, bold: true, dim: false }
                } else {
                    Attr { fg: Color::Grey, bg: Color::DarkGrey, bold: false, dim: false }
                },
            );
            let g2 = if i == active {
                paint_run(
                    g1.fill(
                        Rect { x: rect.x, y: cy as u16, w: min_int(sat_add(sw, 1), rect.w as int) as u16, h: 1 },
                        Cell::spec_new(' ', Color::Navy, Color::White),
                    ),
                    sat_add(rect.x as int, 2),
                    cy,
                    text,
                    false,
                )
            } else {
                paint_run(g1, sat_add(rect.x as int, 2), cy, text, false)
            };
            (g2, sat_add(cy, 1), false, if i == active { Some(cy) } else { ay })
        }
    }
}

/// The two walls of the `Left` card on rows `[y1, y2)`, except the row
/// `open` where the active tab enters the card.
pub open spec fn side_walls(g: Grid, fx: int, right: int, y1: int, y2: int, open: Option<int>, c: Cell) -> Grid {
    Grid {
        w: g.w,
        h: g.h,
        at: |px: int, py: int|
            if (px == fx || px == right) && y1 <= py < y2 && open != Some(py) && g.in_bounds(px, py) {
                c
            } else {
                (g.at)(px, py)
            },
    }
}

/// The `Left` layout: dimmed strip, card, tab rows, frame with the opening
/// on the active row.
pub open spec fn left_grid(g: Grid, rect: Rect, tabs: TabControl, active: int, ink: Attr) -> Grid {
    let sw = min_int(sat_add(widest_label(tabs.tabs@), 4), rect.w as int);
    let g1 = g.fill(Rect { x: rect.x, y: rect.y, w: sw as u16, h: rect.h }, Cell::spec_new(' ', Color::Grey, Color::DarkGrey));
    let g2 = if sw < rect.w {
        g1.fill(
            Rect { x: sat_add(rect.x as int, sw) as u16, y: rect.y, w: sat_sub(rect.w as int, sw) as u16, h: rect.h },
            Cell::spec_new(' ', tabs.foreground_color, tabs.background_color),
        )
    } else {
        g1
    };
    let (g3, _, _, ay) = left_rows(g2, rect, tabs.tabs@, active, sw, tabs.tabs@.len() as int);
    let fx = sat_add(rect.x as int, sw);
    if sat_sub(rect.w as int, sw) < 2 || rect.h < 2 {
        g3
    } else {
        let right = sat_sub(rect.spec_right() as int, 1);
        let bottom = sat_sub(rect.spec_bottom() as int, 1);
        let h = Cell::spec_with_attr('\u{2500}', ink);
        let g4 = g3.set(fx, rect.y as int, Cell::spec_with_attr('\u{250c}', ink))
            .set(right, rect.y as int, Cell::spec_with_attr('\u{2510}', ink))
            .fill(row_strip(rect.y as int, sat_add(fx, 1), right), h);
        side_walls(g4, fx, right, sat_add(rect.y as int, 1), bottom, ay, Cell::spec_with_attr('\u{2502}', ink))
            .set(fx, bottom, Cell::spec_with_attr('\u{2514}', ink))
            .set(right, bottom, Cell::spec_with_attr('\u{2518}', ink))
            .fill(row_strip(bottom, sat_add(fx, 1), right), h)
    }
}

/// The tabs as `tab_draw` paints them.
pub open spec fn tabs_grid(g: Grid, rect: Rect, tabs: TabControl) -> Grid {
    if rect.spec_is_empty() || tabs.tabs@.len() == 0 {
        g
    } else {
        let g1 = if tabs.has_shadow { shadow_grid(g, rect, 2, 1, ShadowStyle::Translucent, Theme::spec_clipper()) } else { g };
        let ink = Attr {
            fg: match tabs.border_color {
                Some(c) => c,
                None => tabs.foreground_color,
            },
            bg: tabs.background_color,
            bold: false,
            dim: false,
        };
        let active = min_int(tabs.active as int, tabs.tabs@.len() - 1);
        match tabs.position {
            TabPosition::Top => top_grid(g1, rect, tabs, active, ink),
            TabPosition::Left => left_grid(g1, rect, tabs, active, ink),
        }
    }
}

proof fn lemma_ears_stopped(g: Grid, tabs: Seq<Tab>, active: int, y: int, x0: int, limit: int, k0: int, k: int)
    requires
        1 <= k0 <= k,
        ears(g, tabs, active, y, x0, limit, k0).2,
    ensures
        ears(g, tabs, active, y, x0, limit, k) == ears(g, tabs, active, y, x0, limit, k0),
    decreases k - k0,
{
    if k > k0 {
        lemma_ears_stopped(g, tabs, active, y, x0, limit, k0, k - 1);
    }
}

proof fn lemma_left_rows_stopped(g: Grid, rect: Rect, tabs: Seq<Tab>, active: int, sw: int, k0: int, k: int)
    requires
        1 <= k0 <= k,
        left_rows(g, rect, tabs, active, sw, k0).2,
    ensures
        left_rows(g, rect, tabs, active, sw, k) == left_rows(g, rect, tabs, active, sw, k0),
    decreases k - k0,
{
    if k > k0 {
        lemma_left_rows_stopped(g, rect, tabs, active, sw, k0, k - 1);
    }
}

/// The ear text of a label.
fn ear_string(label: &str) -> (r: String)
    ensures
        r@ == ear_text(label@),
{
    let mut cs: Vec<char> = Vec::new();
    cs.push(' ');
    let mut l = chars_of(label);
    cs.append(&mut l);
    cs.push(' ');
    assert(cs@ =~= ear_text(label@));
    string_from_chars(&cs)
}

/// The values of `v` as integers.
pub open spec fn ints16(v: Seq<u16>) -> Seq<int> {
    Seq::new(v.len(), |i: int| v[i] as int)
}

/// Whether `x` is one of `v`.
fn contains16(v: &Vec<u16>, x: u16) -> (r: bool)
    ensures
        r == ints16(v@).contains(x as int),
{
    let mut i: usize = 0;
    while i < v.len()
        invariant
            i <= v@.len(),
            forall|j: int| 0 <= j < i ==> v@[j] != x,
        decreases v.len() - i,
    {
        if v[i] == x {
            assert(ints16(v@)[i as int] == x as int);
            return true;
        }
        i += 1;
    }
    assert(!ints16(v@).contains(x as int)) by {
        if ints16(v@).contains(x as int) {
            let j = choose|j: int| 0 <= j < v@.len() && #[trigger] ints16(v@)[j] == x as int;
            assert(v@[j] == x);
        }
    }
    false
}

/// Draws the strip and the card (the caller paints the widgets in the
/// viewport); returns the viewport. The frame is always a single-line
/// CP437 box.
pub fn tab_draw(buf: &mut Buffer, rect: Rect, tabs: &TabControl) -> (r: Rect)
    requires
        old(buf).wf(),
    ensures
        final(buf).wf(),
        final(buf)@ == tabs_grid(old(buf)@, rect, *tabs),
        r == if rect.spec_is_empty() || tabs.tabs@.len() == 0 {
            Rect { x: rect.x, y: rect.y, w: 0, h: 0 }
        } else {
            viewport_spec(rect, *tabs)
        },
{
    if rect.is_empty() || tabs.tabs.len() == 0 {
        return Rect::new(rect.x, rect.y, 0, 0);
    }
    if tabs.has_shadow {
        shadow(buf, rect, Theme::clipper());
    }
    let ink_fg = match tabs.border_color {
        Some(c) => c,
        None => tabs.foreground_color,
    };
    let ink = Attr::new(ink_fg, tabs.background_color);
    let active = if tabs.active < tabs.tabs.len() - 1 { tabs.active } else { tabs.tabs.len() - 1 };
    match tabs.position {
        TabPosition::Top => draw_top(buf, rect, tabs, active, ink),
        TabPosition::Left => draw_left(buf, rect, tabs, active, ink),
    }
    tab_viewport(rect, tabs)
}

fn draw_top(buf: &mut Buffer, rect: Rect, tabs: &TabControl, active: usize, ink: Attr)
    requires
        old(buf).wf(),
    ensures
        final(buf).wf(),
        final(buf)@ == top_grid(old(buf)@, rect, *tabs, active as int, ink),
{
    buf.fill_rect(rect, Cell::new(' ', tabs.foreground_color, tabs.background_color));
    let right = rect.right().saturating_sub(1);
    let x1 = rect.x.saturating_add(1);
    let ghost g1 = buf@;
    let mut cx = x1;
    let mut span: Option<(u16, u16)> = None;
    let mut idle: Vec<u16> = Vec::new();
    let mut i: usize = 0;
    while i < tabs.tabs.len()
        invariant
            buf.wf(),
            i <= tabs.tabs@.len(),
            ears(g1, tabs.tabs@, active as int, rect.y as int, x1 as int, right as int, i as int) == (
                buf@,
                cx as int,
                false,
                match span {
                    Some((a, b)) => Some((a as int, b as int)),
                    None => None,
                },
                ints16(idle@),
            ),
        ensures
            buf.wf(),
            ears(g1, tabs.tabs@, active as int, rect.y as int, x1 as int, right as int, tabs.tabs@.len() as int) == (
                buf@,
                cx as int,
                ears(g1, tabs.tabs@, active as int, rect.y as int, x1 as int, right as int, tabs.tabs@.len() as int).2,
                match span {
                    Some((a, b)) => Some((a as int, b as int)),
                    None => None,
                },
                ints16(idle@),
            ),
        decreases tabs.tabs.len() - i,
    {
        let inner = ear_string(tabs.tabs[i].label.as_str());
        let w = visible_len(inner.as_str()).saturating_add(2);
        if cx.saturating_add(w) > right {
            proof {
                lemma_ears_stopped(g1, tabs.tabs@, active as int, rect.y as int, x1 as int, right as int, i + 1, tabs.tabs@.len() as int);
            }
            break;
        }
        let a = if i == active { Attr::bold(Color::Navy, Color::White) } else { Attr::new(Color::Grey, Color::DarkGrey) };
        let ghost before = idle@;
        if i == active {
            span = Some((cx, w));
        } else {
            idle.push(cx);
            idle.push(cx.saturating_add(w).saturating_sub(1));
            assert(ints16(idle@) =~= ints16(before).push(cx as int).push(
                sat_sub(sat_add(cx as int, w as int), 1),
            ));
        }
        buf.set(cx, rect.y, Cell::with_attr('\u{2502}', a));
        let fit = fit_text(inner.as_str(), w.saturating_sub(2));
        draw_text(buf, cx.saturating_add(1), rect.y, fit.as_str(), a);
        buf.set(cx.saturating_add(w).saturating_sub(1), rect.y, Cell::with_attr('\u{2502}', a));
        cx = cx.saturating_add(w).saturating_add(1);
        i += 1;
    }
    if rect.h < 2 {
        return;
    }
    let by = rect.y.saturating_add(1);
    buf.set(rect.x, by, Cell::with_attr('\u{250c}', ink));
    buf.set(right, by, Cell::with_attr('\u{2510}', ink));
    let ghost g3 = buf@;
    let ghost sv = match span {
        Some((a, b)) => Some((a as int, b as int)),
        None => None,
    };
    let ghost iv = ints16(idle@);
    let mut x = x1;
    while x < right
        invariant
            buf.wf(),
            x1 <= x,
            x <= right || x == x1,
            sv == match span {
                Some((a, b)) => Some((a as int, b as int)),
                None => None,
            },
            iv == ints16(idle@),
            buf@ == top_line(g3, by as int, x1 as int, x as int, sv, iv, ink),
        decreases right - x,
    {
        let on_idle = contains16(&idle, x);
        let g: Option<char> = match span {
            Some((ax, aw)) => {
                let end = ax.saturating_add(aw).saturating_sub(1);
                if x == ax || x == end {
                    Some('\u{2502}')
                } else if ax < x && x < end {
                    None
                } else if on_idle {
                    Some('\u{2534}')
                } else {
                    Some('\u{2500}')
                }
            },
            None => if on_idle {
                Some('\u{2534}')
            } else {
                Some('\u{2500}')
            },
        };
        assert(g == top_line_glyph(sv, iv, x as int));
        let ghost prev = buf@;
        match g {
            Some(c) => {
                buf.set(x, by, Cell::with_attr(c, ink));
            },
            None => {},
        }
        assert(buf@ =~= top_line(g3, by as int, x1 as int, x + 1, sv, iv, ink));
        x += 1;
    }
    assert(buf@ =~= top_line(g3, by as int, x1 as int, right as int, sv, iv, ink));
    draw_card_body(buf, rect, by, ink);
}

fn draw_card_body(buf: &mut Buffer, rect: Rect, top_row: u16, ink: Attr)
    requires
        old(buf).wf(),
    ensures
        final(buf).wf(),
        final(buf)@ == card_body(old(buf)@, rect, top_row as int, ink),
{
    let bottom = rect.bottom().saturating_sub(1);
    let right = rect.right().saturating_sub(1);
    let y1 = top_row.saturating_add(1);
    let v = Cell::with_attr('\u{2502}', ink);
    buf.fill_rect(Rect::new(rect.x, y1, 1, bottom.saturating_sub(y1)), v);
    buf.fill_rect(Rect::new(right, y1, 1, bottom.saturating_sub(y1)), v);
    if bottom > top_row {
        buf.set(rect.x, bottom, Cell::with_attr('\u{2514}', ink));
        buf.set(right, bottom, Cell::with_attr('\u{2518}', ink));
        let x1 = rect.x.saturating_add(1);
        buf.fill_rect(Rect::new(x1, bottom, right.saturating_sub(x1), 1), Cell::with_attr('\u{2500}', ink));
    }
}

fn draw_left(buf: &mut Buffer, rect: Rect, tabs: &TabControl, active: usize, ink: Attr)
    requires
        old(buf).wf(),
    ensures
        final(buf).wf(),
        final(buf)@ == left_grid(old(buf)@, rect, *tabs, active as int, ink),
{
    let sw0 = tabs.strip_width();
    let sw = if sw0 < rect.w { sw0 } else { rect.w };
    buf.fill_rect(Rect::new(rect.x, rect.y, sw, rect.h), Cell::new(' ', Color::Grey, Color::DarkGrey));
    if sw < rect.w {
        buf.fill_rect(
            Rect::new(rect.x.saturating_add(sw), rect.y, rect.w.saturating_sub(sw), rect.h),
            Cell::new(' ', tabs.foreground_color, tabs.background_color),
        );
    }
    let ghost g2 = buf@;
    let stop_row = rect.bottom().saturating_sub(1);
    let mut ay: Option<u16> = None;
    let mut cy = rect.y.saturating_add(1);
    let mut i: usize = 0;
    while i < tabs.tabs.len()
        invariant
            buf.wf(),
            i <= tabs.tabs@.len(),
            stop_row == sat_sub(rect.spec_bottom() as int, 1),
            left_rows(g2, rect, tabs.tabs@, active as int, sw as int, i as int) == (
                buf@,
                cy as int,
                false,
                match ay {
                    Some(a) => Some(a as int),
                    None => None,
                },
            ),
        ensures
            buf.wf(),
            left_rows(g2, rect, tabs.tabs@, active as int, sw as int, tabs.tabs@.len() as int) == (
                buf@,
                cy as int,
                left_rows(g2, rect, tabs.tabs@, active as int, sw as int, tabs.tabs@.len() as int).2,
                match ay {
                    Some(a) => Some(a as int),
                    None => None,
                },
            ),
        decreases tabs.tabs.len() - i,
    {
        if cy >= stop_row {
            proof {
                lemma_left_rows_stopped(g2, rect, tabs.tabs@, active as int, sw as int, i + 1, tabs.tabs@.len() as int);
            }
            break;
        }
        let fit = fit_text(tabs.tabs[i].label.as_str(), sw.saturating_sub(3));
        if i == active {
            ay = Some(cy);
            let sw1 = sw.saturating_add(1);
            buf.fill_rect(Rect::new(rect.x, cy, if sw1 < rect.w { sw1 } else { rect.w }, 1), Cell::new(' ', Color::Navy, Color::White));
            draw_text(buf, rect.x.saturating_add(2), cy, fit.as_str(), Attr::bold(Color::Navy, Color::White));
        } else {
            draw_text(buf, rect.x.saturating_add(2), cy, fit.as_str(), Attr::new(Color::Grey, Color::DarkGrey));
        }
        cy = cy.saturating_add(1);
        i += 1;
    }
    let fx = rect.x.saturating_add(sw);
    if rect.w.saturating_sub(sw) < 2 || rect.h < 2 {
        return;
    }
    let right = rect.right().saturating_sub(1);
    let bottom = rect.bottom().saturating_sub(1);
    let h = Cell::with_attr('\u{2500}', ink);
    buf.set(fx, rect.y, Cell::with_attr('\u{250c}', ink));
    buf.set(right, rect.y, Cell::with_attr('\u{2510}', ink));
    let fx1 = fx.saturating_add(1);
    buf.fill_rect(Rect::new(fx1, rect.y, right.saturating_sub(fx1), 1), h);
    let ghost gw = buf@;
    let ghost av = match ay {
        Some(a) => Some(a as int),
        None => None,
    };
    let v = Cell::with_attr('\u{2502}', ink);
    let y1 = rect.y.saturating_add(1);
    let mut y = y1;
    while y < bottom
        invariant
            buf.wf(),
            y1 <= y,
            y <= bottom || y == y1,
            av == match ay {
                Some(a) => Some(a as int),
                None => None,
            },
            buf@ == side_walls(gw, fx as int, right as int, y1 as int, y as int, av, v),
        decreases bottom - y,
    {
        let skip = match ay {
            Some(a) => a == y,
            None => false,
        };
        if !skip {
            buf.set(fx, y, v);
            buf.set(right, y, v);
        }
        assert(buf@ =~= side_walls(gw, fx as int, right as int, y1 as int, y + 1, av, v));
        y += 1;
    }
    assert(buf@ =~= side_walls(gw, fx as int, right as int, y1 as int, bottom as int, av, v));
    buf.set(fx, bottom, Cell::with_attr('\u{2514}', ink));
    buf.set(right, bottom, Cell::with_attr('\u{2518}', ink));
    buf.fill_rect(Rect::new(fx1, bottom, right.saturating_sub(fx1), 1), h);
}

/// On a strip of tabs, the arrows along the strip (`Right`/`Left` on top,
/// `Down`/`Up` on the left) and `Tab` move to the next and the previous
/// page, round the ends; the arrows across the strip do nothing; `Home` and
/// `End` go to the first and the last page.
pub proof fn lemma_tab_steps(n: int, a: int, position: TabPosition)
    requires
        0 <= a < n,
    ensures
        ({
            let nx = if a + 1 < n { a + 1 } else { 0 };
            let pv = if a > 0 { a - 1 } else { n - 1 };
            let (fwd_key, back_key, across1, across2) = if position == TabPosition::Top {
                (AppKey::Right, AppKey::Left, AppKey::Down, AppKey::Up)
            } else {
                (AppKey::Down, AppKey::Up, AppKey::Right, AppKey::Left)
            };
            &&& tab_next(n, a, position, fwd_key) == (nx, TabNav::Move(nx as usize))
            &&& tab_next(n, a, position, back_key) == (pv, TabNav::Move(pv as usize))
            &&& tab_next(n, a, position, AppKey::Tab) == (nx, TabNav::Move(nx as usize))
            &&& tab_next(n, a, position, across1) == (a, TabNav::Stay)
            &&& tab_next(n, a, position, across2) == (a, TabNav::Stay)
            &&& tab_next(n, a, position, AppKey::Home) == (0int, TabNav::Move(0))
            &&& tab_next(n, a, position, AppKey::End) == (n - 1, TabNav::Move((n - 1) as usize))
        }),
{
    crate::widgets::common::lemma_mod_wrap(a + 1, n);
    crate::widgets::common::lemma_mod_wrap(a + n - 1, n);
}

} // verus!
