//! Quick modal dialog (`MsgBox`).
//!
//! An alert centred by itself: message and a set of buttons
//! (`Buttons::OkOnly`, `Buttons::OkCancel`, `Buttons::YesNo`). It uses the
//! one-row button with the half-cell shadow below (`prim::button`).

use vstd::prelude::*;

use crate::app::events::AppKey;
use crate::engine::buffer::{Buffer, Grid, paint_run, paint_seq};
use crate::engine::cell::Cell;
use crate::engine::color::Color;
use crate::engine::rect::{Rect, clamp_int, max_int, min_int, sat_add, sat_sub};
use crate::engine::theme::Theme;
use crate::prim::button::{button, button_grid};
use crate::prim::label::{draw_text, hot_clean, visible_len};
use crate::prim::window::{WindowOpts, dialog_look, lemma_titled_ignores_title, window, window_grid_titled};
use crate::text::{chars_of, lemma_seq_width_bounds, seq_width, string_from_chars};
use crate::widgets::common::strings_view;
use crate::widgets::dialog::{DialogKey, confirm_key, confirm_next, place_buttons, row_fits, row_w, row_width};

verus! {

/// The buttons of the modal.
#[derive(Clone, Copy, Debug, PartialEq, Eq, Structural)]
pub enum Buttons {
    OkOnly,
    OkCancel,
    YesNo,
}

impl Default for Buttons {
    /// `OkOnly`.
    fn default() -> (r: Self)
        ensures
            r == Buttons::OkOnly,
    {
        Buttons::OkOnly
    }
}

/// The labels of each set, in Spanish like the rest of the library.
pub open spec fn labels_of(b: Buttons) -> Seq<Seq<char>> {
    match b {
        Buttons::OkOnly => seq!["Aceptar"@],
        Buttons::OkCancel => seq!["Aceptar"@, "Cancelar"@],
        Buttons::YesNo => seq!["Sí"@, "No"@],
    }
}

impl Buttons {
    pub fn labels(&self) -> (r: Vec<String>)
        ensures
            strings_view(r@) == labels_of(*self),
    {
        let mut v: Vec<String> = Vec::new();
        match self {
            Buttons::OkOnly => {
                v.push("Aceptar".to_owned());
            },
            Buttons::OkCancel => {
                v.push("Aceptar".to_owned());
                v.push("Cancelar".to_owned());
            },
            Buttons::YesNo => {
                v.push("Sí".to_owned());
                v.push("No".to_owned());
            },
        }
        assert(strings_view(v@) =~= labels_of(*self));
        v
    }
}

/// `s` cut at each `sep` (an empty text gives one empty piece).
pub open spec fn split_on(s: Seq<char>, sep: char) -> Seq<Seq<char>>
    decreases s.len(),
{
    if s.len() == 0 {
        seq![Seq::<char>::empty()]
    } else {
        let acc = split_on(s.drop_last(), sep);
        if s.last() == sep {
            acc.push(Seq::<char>::empty())
        } else {
            acc.update(acc.len() - 1, acc.last().push(s.last()))
        }
    }
}

proof fn lemma_split_nonempty(s: Seq<char>, sep: char)
    ensures
        split_on(s, sep).len() >= 1,
    decreases s.len(),
{
    if s.len() > 0 {
        lemma_split_nonempty(s.drop_last(), sep);
    }
}

/// The texts held by a list of character vectors.
pub open spec fn vecs_view(v: Seq<Vec<char>>) -> Seq<Seq<char>> {
    v.map_values(|x: Vec<char>| x@)
}

fn split_chars(s: &Vec<char>, sep: char) -> (r: Vec<Vec<char>>)
    ensures
        vecs_view(r@) == split_on(s@, sep),
{
    let mut parts: Vec<Vec<char>> = Vec::new();
    let mut cur: Vec<char> = Vec::new();
    let mut i: usize = 0;
    while i < s.len()
        invariant
            i <= s@.len(),
            vecs_view(parts@).push(cur@) == split_on(s@.take(i as int), sep),
        decreases s.len() - i,
    {
        let c = s[i];
        proof {
            lemma_split_nonempty(s@.take(i as int), sep);
            assert(s@.take(i + 1).drop_last() =~= s@.take(i as int));
        }
        if c == sep {
            let done = cur;
            parts.push(done);
            cur = Vec::new();
            assert(vecs_view(parts@).push(cur@) =~= split_on(s@.take(i + 1), sep));
        } else {
            cur.push(c);
            assert(vecs_view(parts@).push(cur@) =~= split_on(s@.take(i + 1), sep));
        }
        i += 1;
    }
    assert(s@.take(i as int) =~= s@);
    parts.push(cur);
    parts
}

/// One word offered to the line being built: it starts an empty line,
/// joins the line after a space if the whole still fits `w`, or else the
/// line is closed and the word starts the next.
pub open spec fn wrap_step(lines: Seq<Seq<char>>, cur: Seq<char>, word: Seq<char>, w: int) -> (Seq<Seq<char>>, Seq<char>) {
    if cur.len() == 0 {
        (lines, word)
    } else if seq_width(hot_clean(cur + seq![' '] + word)) <= w {
        (lines, cur + seq![' '] + word)
    } else {
        (lines.push(cur), word)
    }
}

/// The first `k` words offered in turn.
pub open spec fn wrap_words(lines: Seq<Seq<char>>, words: Seq<Seq<char>>, w: int, k: int) -> (Seq<Seq<char>>, Seq<char>)
    decreases k,
{
    if k <= 0 {
        (lines, Seq::<char>::empty())
    } else {
        let (l, c) = wrap_words(lines, words, w, k - 1);
        wrap_step(l, c, words[k - 1], w)
    }
}

/// The lines of the first `k` paragraphs, each wrapped on its own.
pub open spec fn wrap_parts(parts: Seq<Seq<char>>, w: int, k: int) -> Seq<Seq<char>>
    decreases k,
{
    if k <= 0 {
        Seq::empty()
    } else {
        let words = split_on(parts[k - 1], ' ');
        let (l, c) = wrap_words(wrap_parts(parts, w, k - 1), words, w, words.len() as int);
        l.push(c)
    }
}

/// The message in lines of at most `w` cells: each paragraph (cut at
/// `\n`) is filled word by word (cut at spaces); a word wider than `w`
/// stands alone on its line.
pub open spec fn wrap_spec(message: Seq<char>, w: int) -> Seq<Seq<char>> {
    let parts = split_on(message, '\n');
    let l = wrap_parts(parts, w, parts.len() as int);
    if l.len() == 0 {
        seq![Seq::<char>::empty()]
    } else {
        l
    }
}

/// A wrapped line keeps to the width, or is one word (it holds no space).
pub open spec fn line_fits(line: Seq<char>, w: int) -> bool {
    seq_width(hot_clean(line)) <= w || !line.contains(' ')
}

/// No piece of a cut text holds the separator.
proof fn lemma_split_no_sep(s: Seq<char>, sep: char)
    ensures
        forall|i: int| 0 <= i < split_on(s, sep).len() ==> !(#[trigger] split_on(s, sep)[i]).contains(sep),
    decreases s.len(),
{
    if s.len() > 0 {
        lemma_split_no_sep(s.drop_last(), sep);
        lemma_split_nonempty(s.drop_last(), sep);
        let acc = split_on(s.drop_last(), sep);
        if s.last() != sep {
            let last = acc.last().push(s.last());
            assert forall|j: int| 0 <= j < last.len() implies last[j] != sep by {
                if j < acc.last().len() {
                    assert(last[j] == acc.last()[j]);
                    assert(!acc[acc.len() - 1].contains(sep));
                }
            }
            assert(!last.contains(sep));
        }
    }
}

/// Wrapping words without spaces over lines that keep to the width gives
/// lines, and a line in progress, that keep to it.
proof fn lemma_words_fit(lines: Seq<Seq<char>>, words: Seq<Seq<char>>, w: int, k: int)
    requires
        0 <= k <= words.len(),
        forall|i: int| 0 <= i < lines.len() ==> line_fits(#[trigger] lines[i], w),
        forall|i: int| 0 <= i < words.len() ==> !(#[trigger] words[i]).contains(' '),
    ensures
        forall|i: int|
            0 <= i < wrap_words(lines, words, w, k).0.len() ==> line_fits(#[trigger] wrap_words(lines, words, w, k).0[i], w),
        line_fits(wrap_words(lines, words, w, k).1, w),
    decreases k,
{
    if k > 0 {
        lemma_words_fit(lines, words, w, k - 1);
        let (l, c) = wrap_words(lines, words, w, k - 1);
        let word = words[k - 1];
        assert(!word.contains(' '));
        if c.len() != 0 && seq_width(hot_clean(c + seq![' '] + word)) > w {
            assert forall|i: int| 0 <= i < l.push(c).len() implies line_fits(#[trigger] l.push(c)[i], w) by {
                if i < l.len() {
                    assert(l.push(c)[i] == l[i]);
                }
            }
        }
    } else {
        assert(!Seq::<char>::empty().contains(' '));
    }
}

/// Every paragraph wrapped keeps to the width.
proof fn lemma_parts_fit(parts: Seq<Seq<char>>, w: int, k: int)
    requires
        0 <= k <= parts.len(),
    ensures
        forall|i: int| 0 <= i < wrap_parts(parts, w, k).len() ==> line_fits(#[trigger] wrap_parts(parts, w, k)[i], w),
    decreases k,
{
    if k > 0 {
        lemma_parts_fit(parts, w, k - 1);
        let words = split_on(parts[k - 1], ' ');
        lemma_split_no_sep(parts[k - 1], ' ');
        let prev = wrap_parts(parts, w, k - 1);
        lemma_words_fit(prev, words, w, words.len() as int);
        let (l, c) = wrap_words(prev, words, w, words.len() as int);
        assert forall|i: int| 0 <= i < l.push(c).len() implies line_fits(#[trigger] l.push(c)[i], w) by {
            if i < l.len() {
                assert(l.push(c)[i] == l[i]);
            }
        }
    }
}

/// Each line of a wrapped message keeps to the width `w`, except a line
/// that is a single word too wide for it.
pub proof fn lemma_wrap_lines_fit(message: Seq<char>, w: int)
    ensures
        forall|i: int|
            0 <= i < wrap_spec(message, w).len() ==> line_fits(#[trigger] wrap_spec(message, w)[i], w),
{
    let parts = split_on(message, '\n');
    lemma_parts_fit(parts, w, parts.len() as int);
    let l = wrap_parts(parts, w, parts.len() as int);
    if l.len() == 0 {
        assert(!Seq::<char>::empty().contains(' '));
        assert(line_fits(seq![Seq::<char>::empty()][0], w));
    }
}

/// The characters of `s` other than spaces and line breaks, in order.
pub open spec fn ink(s: Seq<char>) -> Seq<char>
    decreases s.len(),
{
    if s.len() == 0 {
        Seq::empty()
    } else if s.last() == ' ' || s.last() == '\n' {
        ink(s.drop_last())
    } else {
        ink(s.drop_last()).push(s.last())
    }
}

/// The characters of the lines `ls` other than spaces and line breaks, one
/// line after the other.
pub open spec fn lines_ink(ls: Seq<Seq<char>>) -> Seq<char>
    decreases ls.len(),
{
    if ls.len() == 0 {
        Seq::empty()
    } else {
        lines_ink(ls.drop_last()) + ink(ls.last())
    }
}

proof fn lemma_ink_concat(a: Seq<char>, b: Seq<char>)
    ensures
        ink(a + b) == ink(a) + ink(b),
    decreases b.len(),
{
    if b.len() == 0 {
        assert(a + b =~= a);
        assert(ink(a) + ink(b) =~= ink(a));
    } else {
        lemma_ink_concat(a, b.drop_last());
        assert((a + b).drop_last() =~= a + b.drop_last());
        assert((a + b).last() == b.last());
        if !(b.last() == ' ' || b.last() == '\n') {
            assert(ink(a) + ink(b.drop_last()).push(b.last()) =~= (ink(a) + ink(b.drop_last())).push(b.last()));
        }
    }
}

proof fn lemma_lines_ink_push(ls: Seq<Seq<char>>, x: Seq<char>)
    ensures
        lines_ink(ls.push(x)) == lines_ink(ls) + ink(x),
{
    assert(ls.push(x).drop_last() =~= ls);
}

proof fn lemma_split_ink(s: Seq<char>, sep: char)
    requires
        sep == ' ' || sep == '\n',
    ensures
        lines_ink(split_on(s, sep)) == ink(s),
    decreases s.len(),
{
    if s.len() == 0 {
        let e = seq![Seq::<char>::empty()];
        assert(e.drop_last() =~= Seq::<Seq<char>>::empty());
        assert(lines_ink(Seq::<Seq<char>>::empty()) == Seq::<char>::empty());
        assert(ink(e.last()) == Seq::<char>::empty());
        assert(lines_ink(e) == lines_ink(e.drop_last()) + ink(e.last()));
        assert(lines_ink(e) =~= Seq::<char>::empty());
    } else {
        lemma_split_ink(s.drop_last(), sep);
        lemma_split_nonempty(s.drop_last(), sep);
        let acc = split_on(s.drop_last(), sep);
        if s.last() == sep {
            lemma_lines_ink_push(acc, Seq::<char>::empty());
            assert(lines_ink(acc) + ink(Seq::<char>::empty()) =~= lines_ink(acc));
        } else {
            let x = acc.last().push(s.last());
            let up = acc.update(acc.len() - 1, x);
            assert(up.drop_last() =~= acc.drop_last());
            assert(x.drop_last() =~= acc.last());
            if s.last() == ' ' || s.last() == '\n' {
                assert(lines_ink(acc.drop_last()) + ink(acc.last()) =~= lines_ink(acc));
            } else {
                assert(lines_ink(acc.drop_last()) + ink(acc.last()).push(s.last()) =~= lines_ink(acc).push(s.last()));
            }
        }
    }
}

proof fn lemma_wrap_words_ink(lines: Seq<Seq<char>>, words: Seq<Seq<char>>, w: int, k: int)
    requires
        0 <= k <= words.len(),
    ensures
        ({
            let (l, c) = wrap_words(lines, words, w, k);
            lines_ink(l) + ink(c) == lines_ink(lines) + lines_ink(words.take(k))
        }),
    decreases k,
{
    if k == 0 {
        assert(words.take(0) =~= Seq::<Seq<char>>::empty());
        assert(lines_ink(lines) + ink(Seq::<char>::empty()) =~= lines_ink(lines) + lines_ink(words.take(0)));
    } else {
        lemma_wrap_words_ink(lines, words, w, k - 1);
        let (l, c) = wrap_words(lines, words, w, k - 1);
        let word = words[k - 1];
        assert(words.take(k).drop_last() =~= words.take(k - 1));
        assert(words.take(k).last() == word);
        let base = lines_ink(lines) + lines_ink(words.take(k - 1));
        assert(lines_ink(lines) + lines_ink(words.take(k)) =~= base + ink(word));
        if c.len() == 0 {
            assert(ink(c) =~= Seq::<char>::empty());
            assert(lines_ink(l) =~= base);
        } else if seq_width(hot_clean(c + seq![' '] + word)) <= w {
            lemma_ink_concat(c, seq![' ']);
            lemma_ink_concat(c + seq![' '], word);
            assert(seq![' '].drop_last() =~= Seq::<char>::empty());
            assert(seq![' '].last() == ' ');
            assert(ink(Seq::<char>::empty()) == Seq::<char>::empty());
            assert(ink(seq![' ']) == ink(seq![' '].drop_last()));
            assert(ink(seq![' ']) =~= Seq::<char>::empty());
            assert(lines_ink(l) + (ink(c) + ink(seq![' ']) + ink(word)) =~= lines_ink(l) + ink(c) + ink(word));
        } else {
            lemma_lines_ink_push(l, c);
            assert(lines_ink(l) + ink(c) + ink(word) =~= (lines_ink(l) + ink(c)) + ink(word));
        }
    }
}

proof fn lemma_wrap_parts_ink(parts: Seq<Seq<char>>, w: int, k: int)
    requires
        0 <= k <= parts.len(),
    ensures
        lines_ink(wrap_parts(parts, w, k)) == lines_ink(parts.take(k)),
    decreases k,
{
    if k == 0 {
        assert(parts.take(0) =~= Seq::<Seq<char>>::empty());
    } else {
        lemma_wrap_parts_ink(parts, w, k - 1);
        let words = split_on(parts[k - 1], ' ');
        let prev = wrap_parts(parts, w, k - 1);
        lemma_wrap_words_ink(prev, words, w, words.len() as int);
        assert(words.take(words.len() as int) =~= words);
        lemma_split_ink(parts[k - 1], ' ');
        let (l, c) = wrap_words(prev, words, w, words.len() as int);
        lemma_lines_ink_push(l, c);
        assert(parts.take(k).drop_last() =~= parts.take(k - 1));
        assert(parts.take(k).last() == parts[k - 1]);
    }
}

/// Wrapping loses and reorders nothing: the characters of the message other
/// than spaces and line breaks come, in the same order, from the wrapped
/// lines read one after the other.
pub proof fn lemma_wrap_keeps_words(message: Seq<char>, w: int)
    ensures
        lines_ink(wrap_spec(message, w)) == ink(message),
{
    let parts = split_on(message, '\n');
    lemma_split_ink(message, '\n');
    lemma_wrap_parts_ink(parts, w, parts.len() as int);
    assert(parts.take(parts.len() as int) =~= parts);
    let l = wrap_parts(parts, w, parts.len() as int);
    if l.len() == 0 {
        let e = seq![Seq::<char>::empty()];
        assert(e.drop_last() =~= Seq::<Seq<char>>::empty());
        assert(lines_ink(Seq::<Seq<char>>::empty()) == Seq::<char>::empty());
        assert(ink(e.last()) == Seq::<char>::empty());
        assert(lines_ink(e) == lines_ink(e.drop_last()) + ink(e.last()));
        assert(lines_ink(e) =~= Seq::<char>::empty());
    }
}

fn join_space(cur: &Vec<char>, word: &Vec<char>) -> (r: Vec<char>)
    ensures
        r@ == cur@ + seq![' '] + word@,
{
    let mut out = cur.clone();
    out.push(' ');
    let mut i: usize = 0;
    while i < word.len()
        invariant
            i <= word@.len(),
            out@ == cur@ + seq![' '] + word@.take(i as int),
        decreases word.len() - i,
    {
        out.push(word[i]);
        i += 1;
        assert(out@ =~= cur@ + seq![' '] + word@.take(i as int));
    }
    assert(word@.take(i as int) =~= word@);
    out
}

/// Splits the message into lines that fit `w`.
pub fn msgbox_wrap(message: &str, w: u16) -> (r: Vec<String>)
    ensures
        strings_view(r@) == wrap_spec(message@, w as int),
{
    let msg = chars_of(message);
    let parts = split_chars(&msg, '\n');
    let ghost pv = vecs_view(parts@);
    let mut lines: Vec<Vec<char>> = Vec::new();
    let mut p: usize = 0;
    while p < parts.len()
        invariant
            pv == vecs_view(parts@),
            pv == split_on(message@, '\n'),
            p <= parts@.len(),
            vecs_view(lines@) == wrap_parts(pv, w as int, p as int),
        decreases parts.len() - p,
    {
        let words = split_chars(&parts[p], ' ');
        let ghost wv = vecs_view(words@);
        let ghost base = vecs_view(lines@);
        let mut cur: Vec<char> = Vec::new();
        let mut k: usize = 0;
        while k < words.len()
            invariant
                wv == vecs_view(words@),
                k <= words@.len(),
                (vecs_view(lines@), cur@) == wrap_words(base, wv, w as int, k as int),
            decreases words.len() - k,
        {
            let word = words[k].clone();
            assert(word@ == wv[k as int]);
            if cur.len() == 0 {
                cur = word;
            } else {
                let cand = join_space(&cur, &word);
                let cs = string_from_chars(&cand);
                if visible_len(cs.as_str()) <= w {
                    cur = cand;
                } else {
                    let done = cur;
                    let ghost before = lines@;
                    lines.push(done);
                    assert(vecs_view(lines@) =~= vecs_view(before).push(done@));
                    cur = word;
                }
            }
            k += 1;
        }
        let ghost before = lines@;
        lines.push(cur);
        assert(vecs_view(lines@) =~= vecs_view(before).push(cur@));
        p += 1;
    }
    if lines.len() == 0 {
        lines.push(Vec::new());
        assert(vecs_view(lines@) =~= seq![Seq::<char>::empty()]);
    }
    let mut out: Vec<String> = Vec::new();
    let mut i: usize = 0;
    while i < lines.len()
        invariant
            i <= lines@.len(),
            strings_view(out@) == vecs_view(lines@).take(i as int),
        decreases lines.len() - i,
    {
        let s = string_from_chars(&lines[i]);
        assert(s@ == vecs_view(lines@)[i as int]);
        let ghost prev = out@;
        out.push(s);
        assert(strings_view(out@) =~= strings_view(prev).push(s@));
        assert(vecs_view(lines@).take(i + 1) =~= vecs_view(lines@).take(i as int).push(s@));
        i += 1;
        assert(strings_view(out@) =~= vecs_view(lines@).take(i as int));
    }
    assert(vecs_view(lines@).take(i as int) =~= vecs_view(lines@));
    out
}

/// Widest line among the first `k`.
pub open spec fn widest_line(lines: Seq<Seq<char>>, k: int) -> int
    decreases k,
{
    if k <= 0 {
        0
    } else {
        max_int(widest_line(lines, k - 1), seq_width(hot_clean(lines[k - 1])))
    }
}

/// Width the message is wrapped to in the layout: the screen less eight,
/// between 20 and 60, less four.
pub open spec fn layout_wrap_w(screen: Rect) -> int {
    sat_sub(clamp_int(sat_sub(screen.w as int, 8), 20, 60), 4)
}

/// Width of the modal: text or buttons plus six, between 24 and the
/// screen's width less two (at least 24).
pub open spec fn msgbox_w(message: Seq<char>, b: Buttons, screen: Rect) -> int {
    let lines = wrap_spec(message, layout_wrap_w(screen));
    clamp_int(
        max_int(widest_line(lines, lines.len() as int), row_w(labels_of(b))) + 6,
        24,
        max_int(sat_sub(screen.w as int, 2), 24),
    )
}

/// Height of the modal: the lines plus five, cut to the screen.
pub open spec fn msgbox_h(message: Seq<char>, screen: Rect) -> int {
    min_int(wrap_spec(message, layout_wrap_w(screen)).len() as int + 5, max_int(screen.h as int, 1))
}

/// The modal's rectangle, centred on the screen.
pub open spec fn msgbox_rect(message: Seq<char>, b: Buttons, screen: Rect) -> Rect {
    Rect::spec_centered_in(msgbox_w(message, b, screen) as u16, msgbox_h(message, screen) as u16, screen)
}

/// The sizes can be computed in `u16`.
pub open spec fn msgbox_fits(message: Seq<char>, b: Buttons, screen: Rect) -> bool {
    let lines = wrap_spec(message, layout_wrap_w(screen));
    &&& row_fits(labels_of(b))
    &&& widest_line(lines, lines.len() as int) + 6 <= u16::MAX
    &&& lines.len() + 5 <= u16::MAX
    &&& Rect::centered_fits(msgbox_w(message, b, screen) as u16, msgbox_h(message, screen) as u16, screen)
}

proof fn lemma_widest_bounds(lines: Seq<Seq<char>>, j: int, k: int)
    requires
        0 <= j <= k,
    ensures
        0 <= widest_line(lines, j) <= widest_line(lines, k),
    decreases k,
{
    if k > 0 {
        lemma_seq_width_bounds(hot_clean(lines[k - 1]));
        if j < k {
            lemma_widest_bounds(lines, j, k - 1);
        } else {
            lemma_widest_bounds(lines, j - 1, k - 1);
        }
    }
}

/// The modal's rectangle, centred from the message and the buttons, and
/// the rectangles of the buttons.
pub fn msgbox_layout(message: &str, buttons: &Buttons, screen: Rect) -> (r: (Rect, Vec<Rect>))
    requires
        msgbox_fits(message@, *buttons, screen),
    ensures
        r.0 == msgbox_rect(message@, *buttons, screen),
        r.1@ == crate::widgets::dialog::button_row(
            sat_add(r.0.x as int, sat_sub(r.0.w as int, row_w(labels_of(*buttons))) / 2),
            sat_sub(sat_add(r.0.y as int, r.0.h as int), 2),
            labels_of(*buttons),
        ),
{
    let labels = buttons.labels();
    let btns_w = row_width(&labels);
    let sw8 = screen.w.saturating_sub(8);
    let inner = if sw8 < 20 { 20 } else if sw8 > 60 { 60 } else { sw8 };
    let wrapped = msgbox_wrap(message, inner.saturating_sub(4));
    let ghost lv = strings_view(wrapped@);
    let mut text_w: u16 = 0;
    let mut i: usize = 0;
    while i < wrapped.len()
        invariant
            lv == strings_view(wrapped@),
            lv == wrap_spec(message@, layout_wrap_w(screen)),
            widest_line(lv, lv.len() as int) + 6 <= u16::MAX,
            i <= wrapped@.len(),
            text_w == widest_line(lv, i as int),
        decreases wrapped.len() - i,
    {
        proof {
            lemma_widest_bounds(lv, i + 1, lv.len() as int);
        }
        let vl = visible_len(wrapped[i].as_str());
        if vl > text_w {
            text_w = vl;
        }
        i += 1;
    }
    let m = if text_w > btns_w { text_w } else { btns_w };
    let s2 = screen.w.saturating_sub(2);
    let hi = if s2 > 24 { s2 } else { 24 };
    let raw = m + 6;
    let w = if raw < 24 { 24 } else if raw > hi { hi } else { raw };
    let sh = if screen.h > 1 { screen.h } else { 1 };
    let hh = (wrapped.len() as u16) + 5;
    let h = if hh < sh { hh } else { sh };
    let r = Rect::centered_in(w, h, screen);
    let bx = r.x.saturating_add(r.w.saturating_sub(btns_w) / 2);
    let by = r.y.saturating_add(r.h).saturating_sub(2);
    let rects = place_buttons(bx, by, &labels);
    (r, rects)
}

/// The message's lines centred from row `y`, one per row, until the last
/// row of the modal.
pub open spec fn msg_lines(g: Grid, r: Rect, lines: Seq<Seq<char>>, t: Theme, k: int) -> (Grid, int, bool)
    decreases k,
{
    if k <= 0 {
        (g, sat_add(r.y as int, 2), false)
    } else {
        let (g1, y, stopped) = msg_lines(g, r, lines, t, k - 1);
        if stopped || y >= sat_sub(r.spec_bottom() as int, 1) {
            (g1, y, true)
        } else {
            let qx = sat_add(r.x as int, sat_sub(r.w as int, seq_width(hot_clean(lines[k - 1]))) / 2);
            (paint_run(g1, qx, y, paint_seq(lines[k - 1], t.spec_dialog_attr()), false), sat_add(y, 1), false)
        }
    }
}

proof fn lemma_lines_stopped(g: Grid, r: Rect, lines: Seq<Seq<char>>, t: Theme, k0: int, k: int)
    requires
        1 <= k0 <= k,
        msg_lines(g, r, lines, t, k0).2,
    ensures
        msg_lines(g, r, lines, t, k) == msg_lines(g, r, lines, t, k0),
    decreases k - k0,
{
    if k > k0 {
        lemma_lines_stopped(g, r, lines, t, k0, k - 1);
    }
}

/// The buttons at rest, the selected one marked by a black first cell.
pub open spec fn msg_buttons(g: Grid, labels: Seq<Seq<char>>, rects: Seq<Rect>, sel: int, t: Theme, k: int) -> Grid
    decreases k,
{
    if k <= 0 {
        g
    } else {
        let g1 = button_grid(
            msg_buttons(g, labels, rects, sel, t, k - 1),
            rects[k - 1].x as int,
            rects[k - 1].y as int,
            labels[k - 1],
            t,
            false,
        );
        if k - 1 == sel {
            g1.fill(Rect { x: rects[k - 1].x, y: rects[k - 1].y, w: 1, h: 1 }, Cell::spec_new(' ', Color::White, Color::Black))
        } else {
            g1
        }
    }
}

/// The whole modal: the window, the message wrapped to its inner width
/// and the buttons.
pub open spec fn msgbox_grid(g: Grid, screen: Rect, title: Seq<char>, message: Seq<char>, b: Buttons, selected: int, t: Theme) -> Grid {
    let r = msgbox_rect(message, b, screen);
    if r.spec_is_empty() {
        g
    } else {
        let labels = labels_of(b);
        let g1 = window_grid_titled(g, r, dialog_look(t), title, t);
        let lines = wrap_spec(message, sat_sub(r.w as int, 4));
        let g2 = msg_lines(g1, r, lines, t, lines.len() as int).0;
        let rects = crate::widgets::dialog::button_row(
            sat_add(r.x as int, sat_sub(r.w as int, row_w(labels)) / 2),
            sat_sub(sat_add(r.y as int, r.h as int), 2),
            labels,
        );
        msg_buttons(g2, labels, rects, min_int(selected, sat_sub(labels.len() as int, 1)), t, labels.len() as int)
    }
}

/// Draws the modal (leaves the screen stack alone; the caller saves).
pub fn msgbox_draw(
    buf: &mut Buffer,
    screen: Rect,
    title: &str,
    message: &str,
    buttons: &Buttons,
    selected: usize,
    theme: Theme,
)
    requires
        old(buf).wf(),
        msgbox_fits(message@, *buttons, screen),
    ensures
        final(buf).wf(),
        final(buf)@ == msgbox_grid(old(buf)@, screen, title@, message@, *buttons, selected as int, theme),
{
    let labels = buttons.labels();
    let (r, rects) = msgbox_layout(message, buttons, screen);
    if r.is_empty() {
        return;
    }
    let opts = WindowOpts::dialog(title, theme);
    proof {
        lemma_titled_ignores_title(buf@, r, opts, dialog_look(theme), title@, theme);
    }
    window(buf, r, &opts, theme);
    let wrapped = msgbox_wrap(message, r.w.saturating_sub(4));
    let ghost lv = strings_view(wrapped@);
    let ghost g0 = buf@;
    let bot = r.bottom().saturating_sub(1);
    let mut y = r.y.saturating_add(2);
    let mut i: usize = 0;
    while i < wrapped.len()
        invariant_except_break
            msg_lines(g0, r, lv, theme, i as int) == (buf@, y as int, false),
        invariant
            buf.wf(),
            lv == strings_view(wrapped@),
            i <= wrapped@.len(),
            bot == sat_sub(r.spec_bottom() as int, 1),
        ensures
            buf.wf(),
            msg_lines(g0, r, lv, theme, lv.len() as int).0 == buf@,
        decreases wrapped.len() - i,
    {
        if y >= bot {
            proof {
                lemma_lines_stopped(g0, r, lv, theme, i + 1, lv.len() as int);
            }
            break;
        }
        let line = wrapped[i].as_str();
        let qx = r.x.saturating_add(r.w.saturating_sub(visible_len(line)) / 2);
        draw_text(buf, qx, y, line, theme.dialog_attr());
        y = y.saturating_add(1);
        i += 1;
    }
    let n = labels.len();
    let last = if n > 0 { n - 1 } else { 0 };
    let sel = if selected < last { selected } else { last };
    let ghost g2 = buf@;
    let ghost ls = strings_view(labels@);
    let mut j: usize = 0;
    while j < n
        invariant
            buf.wf(),
            n == labels@.len(),
            ls == strings_view(labels@),
            rects@.len() == n,
            j <= n,
            buf@ == msg_buttons(g2, ls, rects@, sel as int, theme, j as int),
        decreases n - j,
    {
        let br = rects[j];
        button(buf, br.x, br.y, labels[j].as_str(), theme);
        if j == sel {
            buf.fill_rect(Rect::new(br.x, br.y, 1, 1), Cell::new(' ', Color::White, Color::Black));
        }
        j += 1;
    }
}

/// Result of a key in the modal.
#[derive(Clone, Copy, Debug, PartialEq, Eq, Structural)]
pub enum MsgBoxKey {
    Stay,
    Move(usize),
    Accept(usize),
    Cancel,
}

/// The modal answers a key as a confirmation dialog with its labels.
pub open spec fn msgbox_next(b: Buttons, selected: int, key: AppKey) -> MsgBoxKey {
    match confirm_next(labels_of(b), selected, key) {
        DialogKey::Stay => MsgBoxKey::Stay,
        DialogKey::Move(i) => MsgBoxKey::Move(i),
        DialogKey::Accept(i) => MsgBoxKey::Accept(i),
        DialogKey::Cancel => MsgBoxKey::Cancel,
    }
}

/// `←→` move, `Enter` accepts, `Esc` cancels.
pub fn msgbox_key(buttons: &Buttons, selected: usize, code: AppKey) -> (r: MsgBoxKey)
    ensures
        r == msgbox_next(*buttons, selected as int, code),
{
    let labels = buttons.labels();
    match confirm_key(&labels, selected, code) {
        DialogKey::Stay => MsgBoxKey::Stay,
        DialogKey::Move(i) => MsgBoxKey::Move(i),
        DialogKey::Accept(i) => MsgBoxKey::Accept(i),
        DialogKey::Cancel => MsgBoxKey::Cancel,
    }
}

/// The modal's keys: `Enter` accepts the selected button (the last one when
/// the selection is past the row), `Esc` cancels, `Right` and `Left` move
/// to the next and the previous button round the row.
pub proof fn lemma_msgbox_keys(b: Buttons, selected: int)
    requires
        0 <= selected <= usize::MAX,
    ensures
        ({
            let n = labels_of(b).len() as int;
            let s = if selected < n { selected } else { n - 1 };
            &&& msgbox_next(b, selected, AppKey::Enter) == MsgBoxKey::Accept(s as usize)
            &&& msgbox_next(b, selected, AppKey::Esc) == MsgBoxKey::Cancel
            &&& msgbox_next(b, selected, AppKey::Right) == MsgBoxKey::Move((if s + 1 < n { s + 1 } else { 0 }) as usize)
            &&& msgbox_next(b, selected, AppKey::Left) == MsgBoxKey::Move((if s > 0 { s - 1 } else { n - 1 }) as usize)
        }),
{
    let n = labels_of(b).len() as int;
    let s = if selected < n { selected } else { n - 1 };
    crate::widgets::dialog::lemma_confirm_keys(labels_of(b), selected);
    crate::widgets::dialog::lemma_confirm_keys(labels_of(b), s);
}

} // verus!
