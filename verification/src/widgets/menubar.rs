//! Horizontal menu bar: teal strip, the active title in black.

use vstd::prelude::*;

use crate::app::events::AppKey;
use crate::engine::buffer::{Buffer, Grid, paint_run, paint_seq};
use crate::engine::cell::Cell;
use crate::engine::rect::{Rect, min_int, sat_add};
use crate::engine::theme::Theme;
use crate::prim::label::{draw_text, hot_clean, hot_key_of, hot_of, visible_len};
use crate::text::{ascii_lower, chars_of, seq_width, string_from_chars, to_ascii_lower};

verus! {

/// One option of a menu.
#[derive(Clone, Debug, PartialEq, Eq)]
pub struct MenuItem {
    pub label: String,
}

impl MenuItem {
    pub fn new(label: &str) -> (r: Self)
        ensures
            r.label@ == label@,
    {
        MenuItem { label: label.to_owned() }
    }
}

/// A menu: its title on the bar and its options.
#[derive(Clone, Debug)]
pub struct MenuDef {
    pub title: String,
    pub items: Vec<MenuItem>,
}

impl MenuDef {
    pub fn new(title: &str, items: &[&str]) -> (r: Self)
        ensures
            r.title@ == title@,
            r.items@.len() == items@.len(),
            forall|i: int| 0 <= i < items@.len() ==> #[trigger] r.items@[i].label@ == items@[i]@,
    {
        let mut v: Vec<MenuItem> = Vec::new();
        let mut i: usize = 0;
        while i < items.len()
            invariant
                i <= items@.len(),
                v@.len() == i,
                forall|j: int| 0 <= j < i ==> #[trigger] v@[j].label@ == items@[j]@,
            decreases items.len() - i,
        {
            v.push(MenuItem::new(items[i]));
            i += 1;
        }
        MenuDef { title: title.to_owned(), items: v }
    }
}

/// The title as shown on the bar: ` title `.
pub open spec fn menu_label(title: Seq<char>) -> Seq<char> {
    seq![' '] + title + seq![' ']
}

/// Walk of the titles across the bar: from `cx` each ` title ` is drawn if
/// it fits before `right`, two cells apart; the walk stops at the first one
/// that does not. Gives the grid, the next column and whether it stopped.
pub open spec fn menu_titles(g: Grid, menus: Seq<MenuDef>, y: int, x0: int, right: int, active: int, theme: Theme, k: int) -> (Grid, int, bool)
    decreases k,
{
    if k <= 0 {
        (g, x0, false)
    } else {
        let (g1, cx, stopped) = menu_titles(g, menus, y, x0, right, active, theme, k - 1);
        let label = menu_label(menus[k - 1].title@);
        let w = seq_width(hot_clean(label));
        if stopped || sat_add(cx, w) > right {
            (g1, cx, true)
        } else {
            (
                paint_run(g1, cx, y, paint_seq(label, theme.spec_menu_attr(k - 1 == active)), false),
                sat_add(sat_add(cx, w), 2),
                false,
            )
        }
    }
}

/// The bar as `menubar_draw` paints it.
pub open spec fn menubar_grid(g: Grid, bar: Rect, menus: Seq<MenuDef>, active: int, theme: Theme) -> Grid {
    if bar.spec_is_empty() {
        g
    } else {
        menu_titles(
            g.fill(bar, Cell::spec_new(' ', theme.status_fg, theme.teal)),
            menus,
            bar.y as int,
            sat_add(bar.x as int, 2),
            bar.spec_right() as int,
            active,
            theme,
            menus.len() as int,
        ).0
    }
}

proof fn lemma_titles_stopped(g: Grid, menus: Seq<MenuDef>, y: int, x0: int, right: int, active: int, theme: Theme, k0: int, k: int)
    requires
        1 <= k0 <= k,
        menu_titles(g, menus, y, x0, right, active, theme, k0).2,
    ensures
        menu_titles(g, menus, y, x0, right, active, theme, k) == menu_titles(g, menus, y, x0, right, active, theme, k0),
    decreases k - k0,
{
    if k > k0 {
        lemma_titles_stopped(g, menus, y, x0, right, active, theme, k0, k - 1);
    }
}

/// ` title ` as text.
pub fn padded(title: &str) -> (r: String)
    ensures
        r@ == menu_label(title@),
{
    let mut cs: Vec<char> = Vec::new();
    cs.push(' ');
    let mut t = chars_of(title);
    cs.append(&mut t);
    cs.push(' ');
    assert(cs@ =~= menu_label(title@));
    string_from_chars(&cs)
}

/// Draws the bar: teal strip, titles from two columns in, the active one
/// in black.
pub fn menubar_draw(buf: &mut Buffer, bar: Rect, menus: &[MenuDef], active: usize, theme: Theme)
    requires
        old(buf).wf(),
    ensures
        final(buf).wf(),
        final(buf)@ == menubar_grid(old(buf)@, bar, menus@, active as int, theme),
{
    if bar.is_empty() {
        return;
    }
    buf.fill_rect(bar, Cell::new(' ', theme.status_fg, theme.teal));
    let ghost g1 = buf@;
    let right = bar.right();
    let x0 = bar.x.saturating_add(2);
    let mut cx = x0;
    let mut i: usize = 0;
    while i < menus.len()
        invariant
            buf.wf(),
            i <= menus@.len(),
            menu_titles(g1, menus@, bar.y as int, x0 as int, right as int, active as int, theme, i as int) == (
                buf@,
                cx as int,
                false,
            ),
        ensures
            buf.wf(),
            menu_titles(g1, menus@, bar.y as int, x0 as int, right as int, active as int, theme, menus@.len() as int).0
                == buf@,
        decreases menus.len() - i,
    {
        let label = padded(menus[i].title.as_str());
        let w = visible_len(label.as_str());
        if cx.saturating_add(w) > right {
            proof {
                lemma_titles_stopped(g1, menus@, bar.y as int, x0 as int, right as int, active as int, theme, i + 1, menus@.len() as int);
            }
            break;
        }
        draw_text(buf, cx, bar.y, label.as_str(), theme.menu_attr(i == active));
        cx = cx.saturating_add(w).saturating_add(2);
        i += 1;
    }
}

/// Result of a key on the bar.
#[derive(Clone, Copy, Debug, PartialEq, Eq, Structural)]
pub enum MenuBarKey {
    Stay,
    Move(usize),
    Open(usize),
    Dismiss,
}

/// The first menu from `i` whose hotkey is `lc` (without ASCII case).
pub open spec fn menu_with_hot(menus: Seq<MenuDef>, lc: char, i: int) -> Option<int>
    decreases menus.len() - i,
{
    if i < 0 || i >= menus.len() {
        None
    } else if (match hot_of(menus[i].title@) {
        Some((_, h)) => ascii_lower(h) == lc,
        None => false,
    }) {
        Some(i)
    } else {
        menu_with_hot(menus, lc, i + 1)
    }
}

/// What a key does on the bar (the active title first clamped to the
/// menus): `Left`/`Right` move round, `Home`/`End` go to the ends,
/// `Down`/`Enter` open the active menu, `Esc` dismisses, a letter goes to
/// the menu with that hotkey (opening it when it is already active).
pub open spec fn menubar_next(menus: Seq<MenuDef>, active0: int, code: AppKey) -> MenuBarKey {
    let n = menus.len() as int;
    if n == 0 {
        MenuBarKey::Stay
    } else {
        let active = min_int(active0, n - 1);
        match code {
            AppKey::Left => MenuBarKey::Move(((active + n - 1) % n) as usize),
            AppKey::Right => MenuBarKey::Move(((active + 1) % n) as usize),
            AppKey::Home => MenuBarKey::Move(0),
            AppKey::End => MenuBarKey::Move((n - 1) as usize),
            AppKey::Down | AppKey::Enter => MenuBarKey::Open(active as usize),
            AppKey::Esc => MenuBarKey::Dismiss,
            AppKey::Char(c) => match menu_with_hot(menus, ascii_lower(c), 0) {
                Some(i) => if i == active { MenuBarKey::Open(i as usize) } else { MenuBarKey::Move(i as usize) },
                None => MenuBarKey::Stay,
            },
            _ => MenuBarKey::Stay,
        }
    }
}

proof fn lemma_menu_with_hot_range(menus: Seq<MenuDef>, lc: char, i: int)
    ensures
        menu_with_hot(menus, lc, i) matches Some(k) ==> i <= k < menus.len(),
    decreases menus.len() - i,
{
    if 0 <= i < menus.len() {
        lemma_menu_with_hot_range(menus, lc, i + 1);
    }
}

/// Pure navigation of the bar; see `menubar_next`.
pub fn menubar_key(menus: &[MenuDef], active: usize, code: AppKey) -> (r: MenuBarKey)
    ensures
        r == menubar_next(menus@, active as int, code),
{
    let n = menus.len();
    if n == 0 {
        return MenuBarKey::Stay;
    }
    let act = if active < n - 1 { active } else { n - 1 };
    match code {
        AppKey::Left => {
            proof {
                crate::widgets::common::lemma_mod_wrap(act + n - 1, n as int);
            }
            MenuBarKey::Move(if act == 0 { n - 1 } else { act - 1 })
        },
        AppKey::Right => {
            proof {
                crate::widgets::common::lemma_mod_wrap(act + 1, n as int);
            }
            MenuBarKey::Move(if act + 1 == n { 0 } else { act + 1 })
        },
        AppKey::Home => MenuBarKey::Move(0),
        AppKey::End => MenuBarKey::Move(n - 1),
        AppKey::Down | AppKey::Enter => MenuBarKey::Open(act),
        AppKey::Esc => MenuBarKey::Dismiss,
        AppKey::Char(c) => {
            let lc = to_ascii_lower(c);
            let mut i: usize = 0;
            while i < n
                invariant
                    n == menus@.len(),
                    i <= n,
                    lc == ascii_lower(c),
                    code == AppKey::Char(c),
                    act == min_int(active as int, n - 1),
                    n > 0,
                    menu_with_hot(menus@, lc, 0) == menu_with_hot(menus@, lc, i as int),
                decreases n - i,
            {
                let hit = match hot_key_of(menus[i].title.as_str()) {
                    Some(h) => to_ascii_lower(h) == lc,
                    None => false,
                };
                if hit {
                    assert(menu_with_hot(menus@, lc, i as int) == Some(i as int));
                    return if i == act { MenuBarKey::Open(i) } else { MenuBarKey::Move(i) };
                }
                i += 1;
            }
            MenuBarKey::Stay
        },
        _ => MenuBarKey::Stay,
    }
}

/// On a bar with menus, `Right` makes the next title active and `Left` the
/// one before, round the ends, one undoing the other; `Home` and `End` go
/// to the first and the last title; `Down` and `Enter` open the active menu
/// (the last one when the active index is past the bar); `Esc` dismisses.
pub proof fn lemma_menubar_keys(menus: Seq<MenuDef>, active: int)
    requires
        0 < menus.len() <= usize::MAX,
        0 <= active <= usize::MAX,
    ensures
        ({
            let n = menus.len() as int;
            let a = if active < n { active } else { n - 1 };
            let nx = if a + 1 < n { a + 1 } else { 0 };
            let pv = if a > 0 { a - 1 } else { n - 1 };
            &&& menubar_next(menus, active, AppKey::Right) == MenuBarKey::Move(nx as usize)
            &&& menubar_next(menus, active, AppKey::Left) == MenuBarKey::Move(pv as usize)
            &&& menubar_next(menus, nx, AppKey::Left) == MenuBarKey::Move(a as usize)
            &&& menubar_next(menus, pv, AppKey::Right) == MenuBarKey::Move(a as usize)
            &&& menubar_next(menus, active, AppKey::Home) == MenuBarKey::Move(0)
            &&& menubar_next(menus, active, AppKey::End) == MenuBarKey::Move((n - 1) as usize)
            &&& menubar_next(menus, active, AppKey::Down) == MenuBarKey::Open(a as usize)
            &&& menubar_next(menus, active, AppKey::Enter) == MenuBarKey::Open(a as usize)
            &&& menubar_next(menus, active, AppKey::Esc) == MenuBarKey::Dismiss
        }),
{
    let n = menus.len() as int;
    let a = if active < n { active } else { n - 1 };
    let nx = if a + 1 < n { a + 1 } else { 0 };
    let pv = if a > 0 { a - 1 } else { n - 1 };
    crate::widgets::common::lemma_mod_wrap(a + 1, n);
    crate::widgets::common::lemma_mod_wrap(a + n - 1, n);
    crate::widgets::common::lemma_mod_wrap(nx + n - 1, n);
    crate::widgets::common::lemma_mod_wrap(pv + 1, n);
}

} // verus!
