//! Confirmation dialogs: mint window, question and teal buttons.
//!
//! The classic `¿ Está conforme ? [Si][No]`. Hotkeys by letter (S/N).

use vstd::prelude::*;

use crate::app::events::AppKey;
use crate::engine::buffer::{Buffer, Grid, paint_run, paint_seq};
use crate::engine::rect::{Rect, clamp_int, max_int, min_int, sat_add, sat_sub};
use crate::engine::theme::Theme;
use crate::prim::button::{button_draw, button_grid, button_w, button_width};
use crate::prim::label::{draw_text, hot_clean, hot_key_of, hot_of, visible_len};
use crate::prim::window::{WindowOpts, dialog_look, lemma_titled_ignores_title, window, window_grid_titled};
use crate::text::{ascii_lower, lemma_seq_width_bounds, seq_width, to_ascii_lower};
use crate::widgets::common::strings_view;

verus! {

/// Sum of the widths of the first `k` buttons.
pub open spec fn btn_sum(labels: Seq<Seq<char>>, k: int) -> int
    decreases k,
{
    if k <= 0 {
        0
    } else {
        btn_sum(labels, k - 1) + button_w(labels[k - 1])
    }
}

proof fn lemma_btn_sum_mono(labels: Seq<Seq<char>>, j: int, k: int)
    requires
        0 <= j <= k,
    ensures
        btn_sum(labels, j) <= btn_sum(labels, k),
        btn_sum(labels, j) >= 0,
    decreases k,
{
    if k > 0 {
        lemma_seq_width_bounds(hot_clean(labels[k - 1]));
        if j < k {
            lemma_btn_sum_mono(labels, j, k - 1);
        } else {
            lemma_btn_sum_mono(labels, j - 1, k - 1);
        }
    }
}

/// Width of a row of buttons two cells apart.
pub open spec fn row_w(labels: Seq<Seq<char>>) -> int {
    btn_sum(labels, labels.len() as int) + if labels.len() > 0 { 2 * (labels.len() - 1) } else { 0 }
}

/// The row of buttons fits in a `u16` with room to spare.
pub open spec fn row_fits(labels: Seq<Seq<char>>) -> bool {
    row_w(labels) + 6 <= u16::MAX
}

/// Width of the row of buttons.
pub fn row_width(labels: &[String]) -> (r: u16)
    requires
        row_fits(strings_view(labels@)),
    ensures
        r == row_w(strings_view(labels@)),
{
    let ghost ls = strings_view(labels@);
    let mut sum: u16 = 0;
    let mut i: usize = 0;
    while i < labels.len()
        invariant
            ls == strings_view(labels@),
            row_fits(ls),
            i <= labels@.len(),
            sum == btn_sum(ls, i as int),
        decreases labels.len() - i,
    {
        proof {
            lemma_btn_sum_mono(ls, i + 1, ls.len() as int);
        }
        sum = sum + button_width(labels[i].as_str());
        i += 1;
    }
    proof {
        lemma_btn_sum_mono(ls, 0, ls.len() as int);
    }
    let n = labels.len();
    if n == 0 {
        sum
    } else {
        sum + 2 * ((n - 1) as u16)
    }
}

/// Column where button `k` of a row starting at `x0` begins.
pub open spec fn btn_x(x0: int, labels: Seq<Seq<char>>, k: int) -> int
    decreases k,
{
    if k <= 0 {
        x0
    } else {
        sat_add(sat_add(btn_x(x0, labels, k - 1), button_w(labels[k - 1])), 2)
    }
}

/// The rectangles of a row of buttons from `(x0, y)`, two cells apart.
pub open spec fn button_row(x0: int, y: int, labels: Seq<Seq<char>>) -> Seq<Rect> {
    Seq::new(
        labels.len(),
        |i: int| Rect { x: btn_x(x0, labels, i) as u16, y: y as u16, w: button_w(labels[i]) as u16, h: 1 },
    )
}

/// Places a row of buttons.
pub fn place_buttons(x0: u16, y: u16, labels: &[String]) -> (r: Vec<Rect>)
    ensures
        r@ == button_row(x0 as int, y as int, strings_view(labels@)),
{
    let ghost ls = strings_view(labels@);
    let mut rects: Vec<Rect> = Vec::new();
    let mut bx = x0;
    let mut i: usize = 0;
    while i < labels.len()
        invariant
            ls == strings_view(labels@),
            i <= labels@.len(),
            bx == btn_x(x0 as int, ls, i as int),
            rects@ == button_row(x0 as int, y as int, ls).take(i as int),
        decreases labels.len() - i,
    {
        let bw = button_width(labels[i].as_str());
        rects.push(Rect::new(bx, y, bw, 1));
        bx = bx.saturating_add(bw).saturating_add(2);
        i += 1;
        assert(rects@ =~= button_row(x0 as int, y as int, ls).take(i as int));
    }
    assert(rects@ =~= button_row(x0 as int, y as int, ls));
    rects
}

/// Width of the dialog: question or buttons plus six of air, between 20
/// and the screen's width less two (at least 20).
pub open spec fn confirm_w(q: Seq<char>, labels: Seq<Seq<char>>, screen: Rect) -> int {
    clamp_int(
        max_int(seq_width(hot_clean(q)), row_w(labels)) + 6,
        20,
        max_int(sat_sub(screen.w as int, 2), 20),
    )
}

/// Height of the dialog: seven rows, cut to the screen.
pub open spec fn confirm_h(screen: Rect) -> int {
    min_int(7, max_int(screen.h as int, 1))
}

/// The dialog's rectangle, centred on the screen.
pub open spec fn confirm_rect(q: Seq<char>, labels: Seq<Seq<char>>, screen: Rect) -> Rect {
    Rect::spec_centered_in(confirm_w(q, labels, screen) as u16, confirm_h(screen) as u16, screen)
}

/// The buttons' row: centred, on the dialog's last row but one.
pub open spec fn confirm_buttons(r: Rect, labels: Seq<Seq<char>>) -> Seq<Rect> {
    button_row(
        sat_add(r.x as int, sat_sub(r.w as int, row_w(labels)) / 2),
        sat_sub(sat_add(r.y as int, r.h as int), 2),
        labels,
    )
}

/// The sizes can be computed: question and buttons fit a `u16` with six
/// cells of air, and the dialog's centred origin fits too.
pub open spec fn confirm_fits(q: Seq<char>, labels: Seq<Seq<char>>, screen: Rect) -> bool {
    &&& row_fits(labels)
    &&& seq_width(hot_clean(q)) + 6 <= u16::MAX
    &&& Rect::centered_fits(confirm_w(q, labels, screen) as u16, confirm_h(screen) as u16, screen)
}

/// The dialog's rectangle and each button's rectangle (for a future
/// mouse). Labels may carry `&` (`"&Si"`, `"&No"`).
pub fn confirm_layout(question: &str, buttons: &[String], screen: Rect) -> (r: (Rect, Vec<Rect>))
    requires
        confirm_fits(question@, strings_view(buttons@), screen),
    ensures
        r.0 == confirm_rect(question@, strings_view(buttons@), screen),
        r.1@ == confirm_buttons(r.0, strings_view(buttons@)),
{
    let qlen = visible_len(question);
    let btns_w = row_width(buttons);
    let m = if qlen > btns_w { qlen } else { btns_w };
    let hi = {
        let s2 = screen.w.saturating_sub(2);
        if s2 > 20 { s2 } else { 20 }
    };
    let raw = m + 6;
    let w = if raw < 20 { 20 } else if raw > hi { hi } else { raw };
    let h = {
        let sh = if screen.h > 1 { screen.h } else { 1 };
        if sh < 7 { sh } else { 7 }
    };
    let r = Rect::centered_in(w, h, screen);
    let bx = r.x.saturating_add(r.w.saturating_sub(btns_w) / 2);
    let by = r.y.saturating_add(r.h).saturating_sub(2);
    let rects = place_buttons(bx, by, buttons);
    (r, rects)
}

/// The buttons drawn over `g`, the selected one pressed.
pub open spec fn buttons_grid(g: Grid, labels: Seq<Seq<char>>, rects: Seq<Rect>, sel: int, t: Theme, k: int) -> Grid
    decreases k,
{
    if k <= 0 {
        g
    } else {
        button_grid(
            buttons_grid(g, labels, rects, sel, t, k - 1),
            rects[k - 1].x as int,
            rects[k - 1].y as int,
            labels[k - 1],
            t,
            k - 1 == sel,
        )
    }
}

/// The whole dialog: the window, the question centred on its third row
/// and the buttons, the selected one (clamped to the row) pressed.
pub open spec fn confirm_grid(
    g: Grid,
    screen: Rect,
    title: Seq<char>,
    q: Seq<char>,
    labels: Seq<Seq<char>>,
    selected: int,
    t: Theme,
) -> Grid {
    let r = confirm_rect(q, labels, screen);
    if r.spec_is_empty() {
        g
    } else {
        let g1 = window_grid_titled(g, r, dialog_look(t), title, t);
        let qx = sat_add(r.x as int, sat_sub(r.w as int, seq_width(hot_clean(q))) / 2);
        let g2 = paint_run(g1, qx, r.y + 2, paint_seq(q, t.spec_dialog_attr()), false);
        let sel = min_int(selected, sat_sub(labels.len() as int, 1));
        let rects = confirm_buttons(r, labels);
        buttons_grid(g2, labels, rects, sel, t, labels.len() as int)
    }
}

/// Draws a row of buttons, the one at `sel` pressed.
pub fn draw_buttons(buf: &mut Buffer, labels: &[String], rects: &Vec<Rect>, sel: usize, theme: Theme)
    requires
        old(buf).wf(),
        rects@.len() == labels@.len(),
    ensures
        final(buf).wf(),
        final(buf)@ == buttons_grid(old(buf)@, strings_view(labels@), rects@, sel as int, theme, labels@.len() as int),
{
    let ghost g0 = buf@;
    let ghost ls = strings_view(labels@);
    let mut i: usize = 0;
    while i < labels.len()
        invariant
            buf.wf(),
            ls == strings_view(labels@),
            rects@.len() == labels@.len(),
            i <= labels@.len(),
            buf@ == buttons_grid(g0, ls, rects@, sel as int, theme, i as int),
        decreases labels.len() - i,
    {
        let br = rects[i];
        button_draw(buf, br.x, br.y, labels[i].as_str(), theme, i == sel);
        i += 1;
    }
}

/// Draws the question and the buttons, the selected one pressed.
pub fn confirm_draw(
    buf: &mut Buffer,
    screen: Rect,
    title: &str,
    question: &str,
    buttons: &[String],
    selected: usize,
    theme: Theme,
)
    requires
        old(buf).wf(),
        confirm_fits(question@, strings_view(buttons@), screen),
        confirm_rect(question@, strings_view(buttons@), screen).y + 2 <= u16::MAX,
    ensures
        final(buf).wf(),
        final(buf)@ == confirm_grid(
            old(buf)@,
            screen,
            title@,
            question@,
            strings_view(buttons@),
            selected as int,
            theme,
        ),
{
    let (r, rects) = confirm_layout(question, buttons, screen);
    if r.is_empty() {
        return;
    }
    let opts = WindowOpts::dialog(title, theme);
    proof {
        lemma_titled_ignores_title(buf@, r, opts, dialog_look(theme), title@, theme);
    }
    window(buf, r, &opts, theme);
    let qx = r.x.saturating_add(r.w.saturating_sub(visible_len(question)) / 2);
    draw_text(buf, qx, r.y + 2, question, theme.dialog_attr());
    let n = buttons.len();
    let last = if n > 0 { n - 1 } else { 0 };
    let sel = if selected < last { selected } else { last };
    draw_buttons(buf, buttons, &rects, sel, theme);
}

/// Result of a key in the dialog.
#[derive(Clone, Copy, Debug, PartialEq, Eq, Structural)]
pub enum DialogKey {
    Stay,
    Move(usize),
    Accept(usize),
    Cancel,
}

/// First button from `i` on whose hotkey is `lc` (ASCII case ignored).
pub open spec fn hot_button(labels: Seq<Seq<char>>, lc: char, i: int) -> Option<int>
    decreases labels.len() - i,
{
    if i >= labels.len() || i < 0 {
        None
    } else if (match hot_of(labels[i]) {
        Some((_, h)) => ascii_lower(h) == lc,
        None => false,
    }) {
        Some(i)
    } else {
        hot_button(labels, lc, i + 1)
    }
}

/// What a key does: arrows and `Tab` move round the row, `Home`/`End` go
/// to its ends, `Enter` accepts the selection (clamped to the row), `Esc`
/// cancels, a letter accepts the button with that hotkey. With no button
/// every key cancels.
pub open spec fn confirm_next(labels: Seq<Seq<char>>, selected: int, key: AppKey) -> DialogKey {
    let n = labels.len() as int;
    if n == 0 {
        DialogKey::Cancel
    } else {
        let sel = min_int(selected, n - 1);
        match key {
            AppKey::Left | AppKey::Up => DialogKey::Move(((sel + n - 1) % n) as usize),
            AppKey::Right | AppKey::Down | AppKey::Tab => DialogKey::Move(((sel + 1) % n) as usize),
            AppKey::Home => DialogKey::Move(0),
            AppKey::End => DialogKey::Move((n - 1) as usize),
            AppKey::Enter => DialogKey::Accept(sel as usize),
            AppKey::Esc => DialogKey::Cancel,
            AppKey::Char(c) => match hot_button(labels, ascii_lower(c), 0) {
                Some(i) => DialogKey::Accept(i as usize),
                None => DialogKey::Stay,
            },
            _ => DialogKey::Stay,
        }
    }
}

/// ←→ and `Tab` move, `Enter` accepts, `Esc` cancels, a letter is a
/// direct hotkey.
pub fn confirm_key(buttons: &[String], selected: usize, code: AppKey) -> (r: DialogKey)
    ensures
        r == confirm_next(strings_view(buttons@), selected as int, code),
{
    let ghost ls = strings_view(buttons@);
    let n = buttons.len();
    if n == 0 {
        return DialogKey::Cancel;
    }
    let sel = if selected < n - 1 { selected } else { n - 1 };
    match code {
        AppKey::Left | AppKey::Up => {
            proof {
                crate::widgets::common::lemma_mod_wrap(sel + n - 1, n as int);
            }
            DialogKey::Move(if sel == 0 { n - 1 } else { sel - 1 })
        },
        AppKey::Right | AppKey::Down | AppKey::Tab => {
            proof {
                crate::widgets::common::lemma_mod_wrap(sel + 1, n as int);
            }
            DialogKey::Move(if sel + 1 == n { 0 } else { sel + 1 })
        },
        AppKey::Home => DialogKey::Move(0),
        AppKey::End => DialogKey::Move(n - 1),
        AppKey::Enter => DialogKey::Accept(sel),
        AppKey::Esc => DialogKey::Cancel,
        AppKey::Char(c) => {
            let lc = to_ascii_lower(c);
            let mut i: usize = 0;
            while i < n
                invariant
                    n == buttons@.len(),
                    n > 0,
                    ls == strings_view(buttons@),
                    i <= n,
                    code == AppKey::Char(c),
                    lc == ascii_lower(c),
                    hot_button(ls, lc, 0) == hot_button(ls, lc, i as int),
                decreases n - i,
            {
                match hot_key_of(buttons[i].as_str()) {
                    Some(h) => {
                        if to_ascii_lower(h) == lc {
                            return DialogKey::Accept(i);
                        }
                    },
                    None => {},
                }
                i += 1;
            }
            DialogKey::Stay
        },
        _ => DialogKey::Stay,
    }
}

/// On a row of buttons, `Enter` accepts the selected button (the last one
/// when the selection is past the row), `Esc` cancels, and `Right` and
/// `Left` move to the next and the previous button round the row, so that
/// one undoes the other.
pub proof fn lemma_confirm_keys(labels: Seq<Seq<char>>, selected: int)
    requires
        labels.len() > 0,
        0 <= selected <= usize::MAX,
    ensures
        confirm_next(labels, selected, AppKey::Enter) == DialogKey::Accept(
            (if selected < labels.len() { selected } else { labels.len() - 1 }) as usize,
        ),
        confirm_next(labels, selected, AppKey::Esc) == DialogKey::Cancel,
        0 <= selected < labels.len() ==> confirm_next(labels, selected, AppKey::Right) == DialogKey::Move(
            (if selected == labels.len() - 1 { 0 } else { selected + 1 }) as usize,
        ),
        0 <= selected < labels.len() ==> confirm_next(labels, selected, AppKey::Left) == DialogKey::Move(
            (if selected == 0 { labels.len() - 1 } else { selected - 1 }) as usize,
        ),
        0 <= selected < labels.len() ==> ({
            let next = if selected == labels.len() - 1 { 0 } else { selected + 1 };
            confirm_next(labels, next, AppKey::Left) == DialogKey::Move(selected as usize)
        }),
{
    let n = labels.len() as int;
    if 0 <= selected < n {
        crate::widgets::common::lemma_mod_wrap(selected + n - 1, n);
        crate::widgets::common::lemma_mod_wrap(selected + 1, n);
        let next = if selected == n - 1 { 0 } else { selected + 1 };
        crate::widgets::common::lemma_mod_wrap(next + n - 1, n);
    }
}

/// The hotkey of `label` is `c`, ASCII case ignored.
pub open spec fn has_hotkey(label: Seq<char>, c: char) -> bool {
    match hot_of(label) {
        Some((_, h)) => ascii_lower(h) == ascii_lower(c),
        None => false,
    }
}

/// The search from `i` finds the first button at or after `i` with the
/// hotkey, and nothing where no such button is.
proof fn lemma_hot_button_first(labels: Seq<Seq<char>>, c: char, i: int)
    requires
        0 <= i,
    ensures
        match hot_button(labels, ascii_lower(c), i) {
            Some(j) => i <= j < labels.len() && has_hotkey(labels[j], c) && forall|k: int|
                i <= k < j ==> !has_hotkey(#[trigger] labels[k], c),
            None => forall|k: int| i <= k < labels.len() ==> !has_hotkey(#[trigger] labels[k], c),
        },
    decreases labels.len() - i,
{
    if i < labels.len() {
        lemma_hot_button_first(labels, c, i + 1);
    }
}

/// The other keys of the button row: `Tab` moves on like `Right`, `Home`
/// and `End` go to the first and the last button, and a letter accepts
/// the first button whose hotkey it is (ASCII case ignored), or does
/// nothing where no button has it.
pub proof fn lemma_confirm_other_keys(labels: Seq<Seq<char>>, selected: int, c: char)
    requires
        labels.len() > 0,
        0 <= selected <= usize::MAX,
    ensures
        confirm_next(labels, selected, AppKey::Tab) == confirm_next(labels, selected, AppKey::Right),
        confirm_next(labels, selected, AppKey::Home) == DialogKey::Move(0),
        confirm_next(labels, selected, AppKey::End) == DialogKey::Move((labels.len() - 1) as usize),
        (exists|k: int| 0 <= k < labels.len() && has_hotkey(#[trigger] labels[k], c)) ==> exists|j: int|
            0 <= j < labels.len() && confirm_next(labels, selected, AppKey::Char(c)) == DialogKey::Accept(j as usize)
                && has_hotkey(labels[j], c) && forall|k: int| 0 <= k < j ==> !has_hotkey(#[trigger] labels[k], c),
        (forall|k: int| 0 <= k < labels.len() ==> !has_hotkey(#[trigger] labels[k], c)) ==> confirm_next(
            labels,
            selected,
            AppKey::Char(c),
        ) == DialogKey::Stay,
{
    lemma_hot_button_first(labels, c, 0);
}

} // verus!
