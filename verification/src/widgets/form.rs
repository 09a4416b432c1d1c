//! `@...GET` forms: black cards with editable fields.
//!
//! `FormState` keeps the values and the focus. `form_key` edits without a
//! terminal: letters, `Backspace`, `Tab`/↑↓ to move, `Enter` accepts,
//! `Esc` cancels.

use vstd::prelude::*;

use crate::app::events::AppKey;
use crate::engine::buffer::{Buffer, Grid, paint_run, paint_seq};
use crate::engine::cell::Cell;
use crate::engine::color::Attr;
use crate::engine::rect::{Rect, max_int, min_int, sat_add, sat_sub};
use crate::engine::theme::Theme;
use crate::prim::label::{draw_text, hot_clean, visible_len};
use crate::prim::window::{WindowOpts, form_look, lemma_titled_ignores_title, window, window_grid_titled};
use crate::text::{char_is_control, chars_of, is_control_char, is_ascii_digit, lemma_seq_width_bounds, seq_width, str_len, string_from_chars};

verus! {

/// Kind of field (checks what is typed).
#[derive(Clone, Copy, Debug, PartialEq, Eq, Structural)]
pub enum FieldKind {
    Text,
    Number,
    YesNo,
}

/// A field `Name : value`.
#[derive(Clone, Debug)]
pub struct Field {
    pub name: String,
    pub value: String,
    pub width: u16,
    pub kind: FieldKind,
}

impl Field {
    pub fn text(name: &str, value: &str, width: u16) -> (r: Self)
        ensures
            r.name@ == name@,
            r.value@ == value@,
            r.width == width,
            r.kind == FieldKind::Text,
    {
        Field { name: name.to_owned(), value: value.to_owned(), width, kind: FieldKind::Text }
    }

    pub fn number(name: &str, value: &str, width: u16) -> (r: Self)
        ensures
            r.name@ == name@,
            r.value@ == value@,
            r.width == width,
            r.kind == FieldKind::Number,
    {
        Field { name: name.to_owned(), value: value.to_owned(), width, kind: FieldKind::Number }
    }

    /// A yes/no field, `Si` or `No`, two wide.
    pub fn yesno(name: &str, value: bool) -> (r: Self)
        ensures
            r.name@ == name@,
            r.value@ == (if value { "Si"@ } else { "No"@ }),
            r.width == 2,
            r.kind == FieldKind::YesNo,
    {
        Field {
            name: name.to_owned(),
            value: if value { "Si".to_owned() } else { "No".to_owned() },
            width: 2,
            kind: FieldKind::YesNo,
        }
    }
}

/// Whether a field of kind `k` takes the typed character `c`: text takes
/// any non-control character, a number only ASCII digits, yes/no none
/// (it changes with the space bar).
pub open spec fn accepts(k: FieldKind, c: char) -> bool {
    match k {
        FieldKind::Text => !is_control_char(c),
        FieldKind::Number => '0' <= c && c <= '9',
        FieldKind::YesNo => false,
    }
}

fn field_accepts(k: FieldKind, c: char) -> (r: bool)
    ensures
        r == accepts(k, c),
{
    match k {
        FieldKind::Text => !char_is_control(c),
        FieldKind::Number => is_ascii_digit(c),
        FieldKind::YesNo => false,
    }
}

/// Form state.
#[derive(Clone, Debug)]
pub struct FormState {
    pub fields: Vec<Field>,
    pub focus: usize,
}

impl FormState {
    pub fn new(fields: Vec<Field>) -> (r: Self)
        ensures
            r.fields == fields,
            r.focus == 0,
    {
        FormState { fields, focus: 0 }
    }
}

/// Widest field name among the first `k`.
pub open spec fn name_w(fields: Seq<Field>, k: int) -> int
    decreases k,
{
    if k <= 0 {
        0
    } else {
        max_int(name_w(fields, k - 1), seq_width(hot_clean(fields[k - 1].name@)))
    }
}

/// The padding cells of a field, `pad` of them from column `x`.
pub open spec fn pad_cells(g: Grid, x: int, y: int, a: Attr, pad: int) -> Grid
    decreases pad,
{
    if pad <= 0 {
        g
    } else {
        pad_cells(g, x, y, a, pad - 1).set(sat_add(x, pad - 1), y, Cell::spec_with_attr(' ', a))
    }
}

/// One row `Name : value`: the value cut to the field's width and padded
/// to it, grey bold when focused, grey otherwise.
pub open spec fn field_row(g: Grid, rect: Rect, f: Field, focused: bool, nw: int, y: int, t: Theme) -> Grid {
    let nx = sat_add(rect.x as int, 2);
    let g1 = paint_run(g, nx, y, paint_seq(f.name@, t.spec_form_attr()), false);
    let g2 = paint_run(g1, sat_add(sat_add(nx, nw), 1), y, paint_seq(seq![':'], t.spec_form_attr()), false);
    let vx = sat_add(sat_add(nx, nw), 3);
    let shown = f.value@.take(min_int(f.width as int, f.value@.len() as int));
    let sw = seq_width(hot_clean(shown));
    let a = if focused { t.spec_field_attr() } else { Attr { fg: t.form_text, bg: t.field_bg, bold: false, dim: false } };
    let g3 = paint_run(g2, vx, y, paint_seq(shown, a), false);
    pad_cells(g3, sat_add(vx, sw), y, a, sat_sub(f.width as int, sw))
}

/// The rows from `rect.y + 2`, one per field, until the last row of the
/// card.
pub open spec fn form_rows(g: Grid, rect: Rect, fields: Seq<Field>, focus: int, nw: int, t: Theme, k: int) -> (Grid, int, bool)
    decreases k,
{
    if k <= 0 {
        (g, sat_add(rect.y as int, 2), false)
    } else {
        let (g1, y, stopped) = form_rows(g, rect, fields, focus, nw, t, k - 1);
        if stopped || y >= sat_sub(rect.spec_bottom() as int, 1) {
            (g1, y, true)
        } else {
            (field_row(g1, rect, fields[k - 1], k - 1 == focus, nw, y, t), sat_add(y, 1), false)
        }
    }
}

proof fn lemma_rows_stopped(g: Grid, rect: Rect, fields: Seq<Field>, focus: int, nw: int, t: Theme, k0: int, k: int)
    requires
        1 <= k0 <= k,
        form_rows(g, rect, fields, focus, nw, t, k0).2,
    ensures
        form_rows(g, rect, fields, focus, nw, t, k) == form_rows(g, rect, fields, focus, nw, t, k0),
    decreases k - k0,
{
    if k > k0 {
        lemma_rows_stopped(g, rect, fields, focus, nw, t, k0, k - 1);
    }
}

/// The card: the form window, then the rows.
pub open spec fn form_grid(g: Grid, rect: Rect, title: Seq<char>, state: FormState, t: Theme) -> Grid {
    if rect.spec_is_empty() {
        g
    } else {
        let g1 = window_grid_titled(g, rect, form_look(t), title, t);
        let fs = state.fields@;
        form_rows(g1, rect, fs, state.focus as int, name_w(fs, fs.len() as int), t, fs.len() as int).0
    }
}

proof fn lemma_name_w_bounds(fields: Seq<Field>, j: int, k: int)
    requires
        0 <= j <= k,
    ensures
        0 <= name_w(fields, j) <= name_w(fields, k) <= u16::MAX,
    decreases k,
{
    if k > 0 {
        lemma_seq_width_bounds(hot_clean(fields[k - 1].name@));
        if j < k {
            lemma_name_w_bounds(fields, j, k - 1);
        } else {
            lemma_name_w_bounds(fields, j - 1, k - 1);
        }
    }
}

fn draw_field(buf: &mut Buffer, rect: Rect, f: &Field, focused: bool, nw: u16, y: u16, theme: Theme)
    requires
        old(buf).wf(),
    ensures
        final(buf).wf(),
        final(buf)@ == field_row(old(buf)@, rect, *f, focused, nw as int, y as int, theme),
{
    let nx = rect.x.saturating_add(2);
    draw_text(buf, nx, y, f.name.as_str(), theme.form_attr());
    let colon = string_from_chars(&vec![':']);
    assert(colon@ =~= seq![':']);
    draw_text(buf, nx.saturating_add(nw).saturating_add(1), y, colon.as_str(), theme.form_attr());
    let vx = nx.saturating_add(nw).saturating_add(3);
    let vc = chars_of(f.value.as_str());
    let take = if (f.width as usize) < vc.len() { f.width as usize } else { vc.len() };
    let mut sv: Vec<char> = Vec::new();
    let mut i: usize = 0;
    while i < take
        invariant
            take <= vc@.len(),
            vc@ == f.value@,
            i <= take,
            sv@ == vc@.take(i as int),
        decreases take - i,
    {
        sv.push(vc[i]);
        i += 1;
        assert(sv@ =~= vc@.take(i as int));
    }
    let shown = string_from_chars(&sv);
    let sw = visible_len(shown.as_str());
    let pad = f.width.saturating_sub(sw);
    let a = if focused { theme.field_attr() } else { Attr::new(theme.form_text, theme.field_bg) };
    draw_text(buf, vx, y, shown.as_str(), a);
    let ghost g3 = buf@;
    let mut p: u16 = 0;
    while p < pad
        invariant
            buf.wf(),
            p <= pad,
            buf@ == pad_cells(g3, sat_add(vx as int, sw as int), y as int, a, p as int),
        decreases pad - p,
    {
        buf.set(vx.saturating_add(sw).saturating_add(p), y, Cell::with_attr(' ', a));
        p += 1;
    }
}

/// Draws the card (title and rows `Name : value`). The focused field has
/// a grey background, like the entry cursor of the time.
pub fn form_draw(buf: &mut Buffer, rect: Rect, title: &str, state: &FormState, theme: Theme)
    requires
        old(buf).wf(),
    ensures
        final(buf).wf(),
        final(buf)@ == form_grid(old(buf)@, rect, title@, *state, theme),
{
    if rect.is_empty() {
        return;
    }
    let opts = WindowOpts::form(title, theme);
    proof {
        lemma_titled_ignores_title(buf@, rect, opts, form_look(theme), title@, theme);
    }
    window(buf, rect, &opts, theme);
    let ghost fs = state.fields@;
    let mut nw: u16 = 0;
    let mut i: usize = 0;
    while i < state.fields.len()
        invariant
            fs == state.fields@,
            i <= fs.len(),
            nw == name_w(fs, i as int),
        decreases state.fields.len() - i,
    {
        proof {
            lemma_name_w_bounds(fs, i + 1, i + 1);
        }
        let vl = visible_len(state.fields[i].name.as_str());
        if vl > nw {
            nw = vl;
        }
        i += 1;
    }
    let ghost g1 = buf@;
    let bot = rect.bottom().saturating_sub(1);
    let mut y = rect.y.saturating_add(2);
    let mut k: usize = 0;
    while k < state.fields.len()
        invariant_except_break
            form_rows(g1, rect, fs, state.focus as int, nw as int, theme, k as int) == (buf@, y as int, false),
        invariant
            buf.wf(),
            fs == state.fields@,
            k <= fs.len(),
            bot == sat_sub(rect.spec_bottom() as int, 1),
        ensures
            buf.wf(),
            form_rows(g1, rect, fs, state.focus as int, nw as int, theme, fs.len() as int).0 == buf@,
        decreases state.fields.len() - k,
    {
        if y >= bot {
            proof {
                lemma_rows_stopped(g1, rect, fs, state.focus as int, nw as int, theme, k + 1, fs.len() as int);
            }
            break;
        }
        draw_field(buf, rect, &state.fields[k], k == state.focus, nw, y, theme);
        y = y.saturating_add(1);
        k += 1;
    }
}

/// Result of a key in the form.
#[derive(Clone, Copy, Debug, PartialEq, Eq, Structural)]
pub enum FormKey {
    Stay,
    Moved,
    Accept,
    Cancel,
}

/// What a key does to the value of the focused field: `Backspace`
/// removes the last character, space flips a yes/no field between `Si`
/// and `No`, a character the field accepts is appended while the value is
/// narrower than the field.
pub open spec fn edit_value(v: Seq<char>, kind: FieldKind, width: int, key: AppKey) -> Seq<char> {
    match key {
        AppKey::Backspace => if v.len() > 0 { v.drop_last() } else { v },
        AppKey::Char(c) => if c == ' ' && kind == FieldKind::YesNo {
            if v == "Si"@ { "No"@ } else { "Si"@ }
        } else if accepts(kind, c) && seq_width(hot_clean(v)) < width {
            v.push(c)
        } else {
            v
        },
        _ => v,
    }
}

/// Where a key takes the focus (first clamped to the fields) and what it
/// answers: `Esc` cancels, `Tab`/`Down` and `Up` move round, `Enter` moves
/// on or, on the last field, accepts; editing keys stay. With no field
/// every key cancels.
pub open spec fn form_next(n: int, focus: int, key: AppKey) -> (int, FormKey) {
    if n == 0 {
        (focus, FormKey::Cancel)
    } else {
        let f = min_int(focus, n - 1);
        match key {
            AppKey::Esc => (f, FormKey::Cancel),
            AppKey::Tab | AppKey::Down => ((f + 1) % n, FormKey::Moved),
            AppKey::Up => ((f + n - 1) % n, FormKey::Moved),
            AppKey::Enter => if f + 1 >= n { (f, FormKey::Accept) } else { (f + 1, FormKey::Moved) },
            _ => (f, FormKey::Stay),
        }
    }
}

/// Whether the key edits the focused value.
pub open spec fn is_edit(key: AppKey) -> bool {
    key is Backspace || key is Char
}

fn edited(v: &String, kind: FieldKind, width: u16, code: AppKey) -> (r: String)
    ensures
        r@ == edit_value(v@, kind, width as int, code),
{
    match code {
        AppKey::Backspace => {
            let n = str_len(v.as_str());
            if n > 0 {
                crate::text::str_slice(v.as_str(), 0, n - 1)
            } else {
                v.clone()
            }
        },
        AppKey::Char(c) => {
            if c == ' ' && kind == FieldKind::YesNo {
                let si = "Si";
                let is_si = {
                    let cs = chars_of(v.as_str());
                    proof {
                        reveal_strlit("Si");
                    }
                    cs.len() == 2 && cs[0] == 'S' && cs[1] == 'i'
                };
                proof {
                    reveal_strlit("Si");
                    if is_si {
                        assert(v@ =~= "Si"@);
                    }
                }
                if is_si {
                    "No".to_owned()
                } else {
                    si.to_owned()
                }
            } else if field_accepts(kind, c) && visible_len(v.as_str()) < width {
                let mut cs = chars_of(v.as_str());
                cs.push(c);
                string_from_chars(&cs)
            } else {
                v.clone()
            }
        },
        _ => v.clone(),
    }
}

/// Edits the state. `Enter` on the last field accepts; `Esc` cancels.
pub fn form_key(state: &mut FormState, code: AppKey) -> (r: FormKey)
    ensures
        (final(state).focus as int, r) == form_next(old(state).fields@.len() as int, old(state).focus as int, code),
        final(state).fields@.len() == old(state).fields@.len(),
        forall|j: int|
            0 <= j < old(state).fields@.len() && !(j == final(state).focus && is_edit(code)) ==> #[trigger] final(state).fields@[j]
                == old(state).fields@[j],
        old(state).fields@.len() > 0 && is_edit(code) ==> {
            let f = final(state).focus as int;
            let o = old(state).fields@[f];
            let nf = final(state).fields@[f];
            &&& nf.name == o.name
            &&& nf.width == o.width
            &&& nf.kind == o.kind
            &&& nf.value@ == edit_value(o.value@, o.kind, o.width as int, code)
        },
{
    let n = state.fields.len();
    if n == 0 {
        return FormKey::Cancel;
    }
    let focus = if state.focus < n - 1 { state.focus } else { n - 1 };
    state.focus = focus;
    match code {
        AppKey::Esc => FormKey::Cancel,
        AppKey::Tab | AppKey::Down => {
            proof {
                crate::widgets::common::lemma_mod_wrap(focus + 1, n as int);
            }
            state.focus = if focus + 1 == n { 0 } else { focus + 1 };
            FormKey::Moved
        },
        AppKey::Up => {
            proof {
                crate::widgets::common::lemma_mod_wrap(focus + n - 1, n as int);
            }
            state.focus = if focus == 0 { n - 1 } else { focus - 1 };
            FormKey::Moved
        },
        AppKey::Enter => {
            if focus + 1 >= n {
                FormKey::Accept
            } else {
                state.focus = focus + 1;
                FormKey::Moved
            }
        },
        AppKey::Backspace | AppKey::Char(_) => {
            let old_f = &state.fields[focus];
            let nv = edited(&old_f.value, old_f.kind, old_f.width, code);
            let nf = Field { name: old_f.name.clone(), value: nv, width: old_f.width, kind: old_f.kind };
            state.fields.set(focus, nf);
            FormKey::Stay
        },
        _ => FormKey::Stay,
    }
}

/// In a form with fields, `Tab` and `Down` move the focus to the next field
/// and `Up` to the one before, round the form, one undoing the other;
/// `Enter` moves on, and on the last field accepts; `Esc` cancels; every
/// key leaves the focus on a field.
pub proof fn lemma_form_moves(n: int, focus: int, key: AppKey)
    requires
        0 <= focus < n,
    ensures
        form_next(n, focus, AppKey::Tab) == ((if focus + 1 < n { focus + 1 } else { 0 }), FormKey::Moved),
        form_next(n, focus, AppKey::Down) == form_next(n, focus, AppKey::Tab),
        form_next(n, focus, AppKey::Up) == ((if focus > 0 { focus - 1 } else { n - 1 }), FormKey::Moved),
        form_next(n, form_next(n, focus, AppKey::Tab).0, AppKey::Up).0 == focus,
        form_next(n, form_next(n, focus, AppKey::Up).0, AppKey::Tab).0 == focus,
        form_next(n, focus, AppKey::Enter) == (if focus + 1 < n { (focus + 1, FormKey::Moved) } else { (focus, FormKey::Accept) }),
        form_next(n, focus, AppKey::Esc) == (focus, FormKey::Cancel),
        0 <= form_next(n, focus, key).0 < n,
{
    crate::widgets::common::lemma_mod_wrap(focus + 1, n);
    crate::widgets::common::lemma_mod_wrap(focus + n - 1, n);
    let nx = if focus + 1 < n { focus + 1 } else { 0 };
    let pv = if focus > 0 { focus - 1 } else { n - 1 };
    crate::widgets::common::lemma_mod_wrap(nx + n - 1, n);
    crate::widgets::common::lemma_mod_wrap(pv + 1, n);
}

/// Field values keep their kind: a number field that holds only digits
/// still does after any key, a yes/no field that holds `Si` or `No` still
/// does (space flips it), in the other fields a typed character is
/// appended only while the value is narrower than the field, and `Backspace` takes off the last
/// character.
pub proof fn lemma_edit_keeps_kind(v: Seq<char>, kind: FieldKind, width: int, key: AppKey)
    ensures
        kind == FieldKind::Number && (forall|i: int| 0 <= i < v.len() ==> '0' <= #[trigger] v[i] <= '9') ==> (forall|
            i: int|
            0 <= i < edit_value(v, kind, width, key).len() ==> '0' <= #[trigger] edit_value(v, kind, width, key)[i]
                <= '9'),
        kind == FieldKind::YesNo && (v == "Si"@ || v == "No"@) && !(key is Backspace) ==> (edit_value(
            v,
            kind,
            width,
            key,
        ) == "Si"@ || edit_value(v, kind, width, key) == "No"@),
        kind == FieldKind::YesNo && key == AppKey::Char(' ') ==> edit_value(v, kind, width, key) == (if v == "Si"@ {
            "No"@
        } else {
            "Si"@
        }),
        kind != FieldKind::YesNo && edit_value(v, kind, width, key).len() > v.len() ==> seq_width(hot_clean(v)) < width && edit_value(
            v,
            kind,
            width,
            key,
        ).drop_last() == v,
        key == AppKey::Backspace && v.len() > 0 ==> edit_value(v, kind, width, key) == v.drop_last(),
{
    let e = edit_value(v, kind, width, key);
    if kind == FieldKind::Number && (forall|i: int| 0 <= i < v.len() ==> '0' <= #[trigger] v[i] <= '9') {
        assert forall|i: int| 0 <= i < e.len() implies '0' <= #[trigger] e[i] <= '9' by {
            if i < v.len() {
                assert(e[i] == v[i]);
            }
        }
    }
    if kind != FieldKind::YesNo && e.len() > v.len() {
        assert(e.drop_last() =~= v);
    }
}

} // verus!
