//! `App`: the minimal shell (screen, backend, focus and the quit flag).
//!
//! Generic over `Backend` so that it can be tested without a TTY
//! (`TestBackend`). Each widget's state is kept by the application; here
//! lives only what is shared: painting the shell and presenting diffs.

use vstd::prelude::*;

use crate::app::fkeys::{FKeyDef, defs_view, draw_fkeys};
use crate::app::focus::{Focus, Layer};
use crate::app::layout::{DesktopLayout, desktop, desktop_spec};
use crate::engine::backend::{Backend, TestBackend};
use crate::engine::buffer::{DrawOp, Grid, Snapshot, diff_spec};
use crate::engine::cell::Cell;
use crate::engine::rect::{Rect, max_int, min_int, sat_add};
use crate::engine::screen::{Screen, resized};
use crate::engine::theme::Theme;
use crate::prim::title::{bar_grid, status_bar, top_bar};
use crate::widgets::menubar::{MenuDef, menu_label, menu_titles, menubar_draw, menubar_grid, padded};
use crate::prim::label::{hot_clean, hot_scan, lemma_strip_width_concat, total_width, visible_len};
use crate::text::{cell_width, char_width, seq_width};
use crate::widgets::statusbar::{FKeyStyle, flat_walk};

verus! {

/// Column where title `i` of the menubar starts, as `menubar_draw` places
/// it on a bar starting at column 0: from column 2, each earlier title
/// takes the visible width of ` title ` (hotkey marks not counted), and
/// two more cells of air. Used to anchor popups.
pub open spec fn title_x(menus: Seq<MenuDef>, i: int) -> int
    decreases i,
{
    if i <= 0 || menus.len() == 0 {
        2
    } else if i > menus.len() {
        title_x(menus, menus.len() as int)
    } else {
        sat_add(sat_add(title_x(menus, i - 1), seq_width(hot_clean(menu_label(menus[i - 1].title@)))), 2)
    }
}

/// Sum over the first `i` titles of their visible width plus four (the two
/// padding spaces and the two cells of air).
pub open spec fn title_widths(menus: Seq<MenuDef>, i: int) -> int
    decreases i,
{
    if i <= 0 || i > menus.len() {
        0
    } else {
        title_widths(menus, i - 1) + seq_width(hot_clean(menus[i - 1].title@)) + 4
    }
}

/// The saturating width is the exact width, cut at `u16::MAX`.
proof fn lemma_seq_width_min(s: Seq<char>)
    ensures
        seq_width(s) == min_int(total_width(s), u16::MAX as int),
        total_width(s) >= 0,
    decreases s.len(),
{
    if s.len() > 0 {
        lemma_seq_width_min(s.drop_last());
        assert(cell_width(s.last()) >= 0);
    }
}

/// A leading space goes straight into the clean text and leaves a pending
/// mark as it was.
proof fn lemma_scan_after_space(t: Seq<char>)
    ensures
        hot_scan(seq![' '] + t).clean == seq![' '] + hot_scan(t).clean,
        hot_scan(seq![' '] + t).marked == hot_scan(t).marked,
    decreases t.len(),
{
    if t.len() == 0 {
        assert(seq![' '] + t =~= seq![' ']);
        assert(seq![' '].drop_last() =~= Seq::<char>::empty());
        assert(seq![' '].last() == ' ');
        assert(hot_scan(Seq::<char>::empty()).clean == Seq::<char>::empty());
        assert(hot_scan(seq![' ']).clean =~= seq![' ']);
        assert(seq![' '] + hot_scan(t).clean =~= seq![' ']);
    } else {
        lemma_scan_after_space(t.drop_last());
        assert((seq![' '] + t).drop_last() =~= seq![' '] + t.drop_last());
        assert((seq![' '] + t).last() == t.last());
        let c0 = hot_scan(t.drop_last()).clean;
        assert((seq![' '] + c0).push('&') =~= seq![' '] + c0.push('&'));
        assert((seq![' '] + c0).push(t.last()) =~= seq![' '] + c0.push(t.last()));
    }
}

/// The padded title ` title ` is two columns wider than the title, when the
/// title does not end in a lone `&` (which the closing space would spend).
proof fn lemma_label_width(t: Seq<char>)
    requires
        cell_width(' ') == 1,
        !hot_scan(t).marked,
        total_width(hot_scan(t).clean) + 2 <= u16::MAX,
    ensures
        seq_width(hot_clean(menu_label(t))) == seq_width(hot_clean(t)) + 2,
{
    let c = hot_scan(t).clean;
    lemma_scan_after_space(t);
    let l = menu_label(t);
    assert(l == (seq![' '] + t).push(' '));
    assert(l.drop_last() =~= seq![' '] + t);
    assert(hot_scan(l).clean == (seq![' '] + c).push(' '));
    lemma_seq_width_min(hot_clean(l));
    lemma_seq_width_min(hot_clean(t));
    lemma_strip_width_concat(seq![' '], c);
    assert(seq![' '].drop_last() =~= Seq::<char>::empty());
    assert(total_width(Seq::<char>::empty()) == 0);
    assert(total_width(seq![' ']) == total_width(Seq::<char>::empty()) + cell_width(' '));
    assert(((seq![' '] + c).push(' ')).drop_last() =~= seq![' '] + c);
}

/// Title positions as a sum: while nothing saturates and no title ends in
/// a lone `&`, title `i` starts at column `2 + Σ (visible width + 4)` of the
/// titles before it.
proof fn lemma_title_x_sum(menus: Seq<MenuDef>, i: int)
    requires
        cell_width(' ') == 1,
        0 <= i <= menus.len(),
        2 + title_widths(menus, i) <= u16::MAX,
        forall|j: int| 0 <= j < i ==> !hot_scan(#[trigger] menus[j].title@).marked,
    ensures
        title_x(menus, i) == 2 + title_widths(menus, i),
    decreases i,
{
    if i > 0 {
        let t = menus[i - 1].title@;
        lemma_seq_width_min(hot_scan(t).clean);
        lemma_seq_width_min(hot_clean(t));
        lemma_title_widths_nonneg(menus, i - 1);
        lemma_title_x_sum(menus, i - 1);
        lemma_label_width(t);
    }
}

proof fn lemma_title_widths_nonneg(menus: Seq<MenuDef>, i: int)
    ensures
        title_widths(menus, i) >= 0,
    decreases i,
{
    if i > 0 && i <= menus.len() {
        lemma_title_widths_nonneg(menus, i - 1);
        lemma_seq_width_min(hot_clean(menus[i - 1].title@));
    }
}

/// See `title_x`.
pub fn menu_title_x(menus: &[MenuDef], i: usize) -> (r: u16)
    ensures
        r == title_x(menus@, i as int),
        i <= menus@.len() && 2 + title_widths(menus@, i as int) <= u16::MAX && (forall|j: int|
            0 <= j < i ==> !hot_scan(#[trigger] menus@[j].title@).marked) ==> r == 2 + title_widths(menus@, i as int),
{
    // A space is one column; the sum form below rests on it.
    let _space_w = char_width(' ');
    proof {
        if i <= menus@.len() && 2 + title_widths(menus@, i as int) <= u16::MAX && (forall|j: int|
            0 <= j < i ==> !hot_scan(#[trigger] menus@[j].title@).marked) {
            lemma_title_x_sum(menus@, i as int);
        }
    }
    let mut cx: u16 = 2;
    let mut k: usize = 0;
    let n = if i < menus.len() { i } else { menus.len() };
    while k < n
        invariant
            n <= menus@.len(),
            n == if i < menus@.len() { i as int } else { menus@.len() as int },
            k <= n,
            cx == title_x(menus@, k as int),
        decreases n - k,
    {
        let label = padded(menus[k].title.as_str());
        let lw = visible_len(label.as_str());
        cx = cx.saturating_add(lw).saturating_add(2);
        k += 1;
    }
    cx
}

/// A title's column is where the menubar draws it: on a bar starting at
/// column 0, while the first `k` titles fit, the walk of `menubar_draw`
/// stands at `title_x(menus, k)`.
pub proof fn lemma_title_x_matches_bar(
    g: Grid,
    menus: Seq<MenuDef>,
    y: int,
    right: int,
    active: int,
    theme: Theme,
    k: int,
)
    requires
        0 <= k <= menus.len(),
        !menu_titles(g, menus, y, 2, right, active, theme, k).2,
    ensures
        menu_titles(g, menus, y, 2, right, active, theme, k).1 == title_x(menus, k),
    decreases k,
{
    if k > 0 {
        lemma_title_x_matches_bar(g, menus, y, right, active, theme, k - 1);
    }
}

/// The application shell.
pub struct App<B: Backend> {
    pub screen: Screen,
    pub backend: B,
    pub focus: Focus,
    /// Cleared by `quit`.
    pub running: bool,
}

/// What the shell shows (one struct rather than eight loose parameters).
pub struct ShellContent<'a> {
    pub company: &'a str,
    pub date: &'a str,
    pub status: &'a str,
    pub help: &'a str,
    pub menus: &'a [MenuDef],
    pub active: usize,
    pub fkeys: &'a [FKeyDef],
}

/// The shell painted over `g`: desktop background, working area, top bar,
/// menubar, function keys and status bar, in that order, on the zones of
/// `desktop`.
pub open spec fn shell_grid(g: Grid, c: &ShellContent, t: Theme) -> Grid {
    let b = Rect { x: 0, y: 0, w: g.w as u16, h: g.h as u16 };
    let d = desktop_spec(b);
    let g1 = g.fill(b, Cell::spec_blank(t.desktop)).fill(d.work, Cell::spec_blank(t.work));
    let g2 = if g1.h == 0 {
        g1
    } else {
        bar_grid(g1, 0, c.company@, c.date@, Cell::spec_new(' ', t.status_fg, t.navy), t.spec_top_attr())
    };
    let g3 = menubar_grid(g2, d.menu, c.menus@, c.active as int, t);
    let g4 = if d.fkeys.y >= g3.h {
        g3
    } else {
        flat_walk(
            g3,
            d.fkeys.y as int,
            defs_view(c.fkeys@),
            FKeyStyle { key_fg: t.button_fg, key_bg: t.button_bg, label_fg: t.button_fg, label_bg: t.button_bg },
            g3.w,
            c.fkeys@.len() as int,
        ).0
    };
    if g4.h == 0 {
        g4
    } else {
        bar_grid(g4, g4.h - 1, c.status@, c.help@, Cell::spec_new(' ', t.status_fg, t.status_bg), t.spec_status_attr())
    }
}

impl<B: Backend> App<B> {
    /// An application over `backend` with a `w x h` screen, the focus on
    /// the desktop, running.
    pub fn with_backend(backend: B, w: u16, h: u16, theme: Theme) -> (r: Self)
        ensures
            r.screen.wf(),
            r.screen.back@ == Grid::filled(max_int(w as int, 1), max_int(h as int, 1), Cell::spec_blank(theme.desktop)),
            r.screen.front@ == Grid::filled(0, 0, Cell::spec_blank(theme.desktop)),
            r.screen.stack@ == Seq::<Snapshot>::empty(),
            r.screen.theme == theme,
            r.backend == backend,
            r.focus@ == seq![Layer::Desktop],
            r.running,
    {
        App { screen: Screen::new(w, h, theme), backend, focus: Focus::new(), running: true }
    }

    /// The shell's zones on the current screen.
    pub fn layout(&self) -> (r: DesktopLayout)
        requires
            self.screen.wf(),
        ensures
            r == desktop_spec(Rect { x: 0, y: 0, w: self.screen.back@.w as u16, h: self.screen.back@.h as u16 }),
    {
        desktop(self.screen.bounds())
    }

    pub fn should_quit(&self) -> (r: bool)
        ensures
            r == !self.running,
    {
        !self.running
    }

    pub fn quit(&mut self)
        ensures
            !final(self).running,
            final(self).screen == old(self).screen,
            final(self).backend == old(self).backend,
            final(self).focus == old(self).focus,
    {
        self.running = false;
    }

    /// Paints the whole shell: bars, menubar and function keys.
    pub fn paint_shell(&mut self, c: &ShellContent)
        requires
            old(self).screen.wf(),
        ensures
            final(self).screen.wf(),
            final(self).screen.back@ == shell_grid(old(self).screen.back@, c, old(self).screen.theme),
            final(self).screen.front == old(self).screen.front,
            final(self).screen.stack == old(self).screen.stack,
            final(self).screen.theme == old(self).screen.theme,
            final(self).backend == old(self).backend,
            final(self).focus == old(self).focus,
            final(self).running == old(self).running,
    {
        let t = self.screen.theme;
        let bounds = self.screen.bounds();
        let d = desktop(bounds);
        let buf = &mut self.screen.back;
        buf.fill_rect(bounds, Cell::blank(t.desktop));
        buf.fill_rect(d.work, Cell::blank(t.work));
        top_bar(buf, c.company, c.date, t);
        menubar_draw(buf, d.menu, c.menus, c.active, t);
        draw_fkeys(buf, d.fkeys.y, c.fkeys, t);
        status_bar(buf, c.status, c.help, t);
    }

    /// Sends the diff to the backend; the screen then counts as shown.
    pub fn present(&mut self) -> (r: std::io::Result<()>)
        requires
            old(self).screen.wf(),
        ensures
            final(self).screen.wf(),
            final(self).screen.front@ == old(self).screen.back@,
            final(self).screen.back == old(self).screen.back,
            final(self).screen.stack == old(self).screen.stack,
            final(self).screen.theme == old(self).screen.theme,
            final(self).focus == old(self).focus,
            final(self).running == old(self).running,
    {
        let ops = self.screen.present_ops();
        self.backend.present(ops.as_slice())
    }

    /// Resize; the application repaints afterwards.
    pub fn resize(&mut self, w: u16, h: u16)
        requires
            old(self).screen.wf(),
        ensures
            final(self).screen.wf(),
            final(self).screen.back@ == resized(
                old(self).screen.back@,
                max_int(w as int, 1),
                max_int(h as int, 1),
                Cell::spec_blank(old(self).screen.theme.desktop),
            ),
            final(self).screen.front@ == Grid::filled(0, 0, Cell::spec_blank(old(self).screen.theme.desktop)),
            final(self).screen.stack@ == Seq::<Snapshot>::empty(),
            final(self).screen.theme == old(self).screen.theme,
            final(self).backend == old(self).backend,
            final(self).focus == old(self).focus,
            final(self).running == old(self).running,
    {
        self.screen.resize(w, h);
    }
}

/// Test shortcut: an application over an 80x25 `TestBackend`.
pub fn test_app() -> (r: App<TestBackend>)
    ensures
        r.screen.wf(),
        r.screen.back@ == Grid::filled(80, 25, Cell::spec_blank(Theme::spec_clipper().desktop)),
        r.screen.front@ == Grid::filled(0, 0, Cell::spec_blank(Theme::spec_clipper().desktop)),
        r.screen.theme == Theme::spec_clipper(),
        r.backend.w == 80 && r.backend.h == 25 && r.backend.seen@.len() == 0,
        r.focus@ == seq![Layer::Desktop],
        r.running,
{
    App::with_backend(TestBackend::new(80, 25), 80, 25, Theme::clipper())
}

} // verus!
