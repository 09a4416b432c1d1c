//! Function-key bar: flat, styled, or stacked in the PC Tools way.
//!
//! * `fkey_bar`: one row, ` F2 Grabar ` in teal (the classic of the crate).
//! * `fkey_bar_styled`: one row in colours of one's choice (`FKeyStyle`).
//! * `fkey_bar_stacked`: two rows with the **F above the number**,
//!   aligned: `F  F   F` / `1 Help  2 Qview  10 Menu`.
//! * `fkey_bar_compact`: superscript number glued to its label.
//!
//! What each key does is the application's choice (`match_fkey` maps
//! `F(n)`/`Esc` to an index); the bar only paints.

use vstd::prelude::*;

use crate::engine::buffer::{Buffer, Grid, paint_run, paint_seq};
use crate::engine::color::{Attr, Color};
use crate::engine::rect::{max_int, sat_add};
use crate::engine::theme::Theme;
use crate::prim::label::{draw_text, hot_clean, visible_len};
use crate::text::{chars_of, seq_width, str_len, string_from_chars};

verus! {

/// Colours of the bar: the key (`key_*`) and its label (`label_*`).
#[derive(Clone, Copy, Debug, PartialEq, Eq, Structural)]
pub struct FKeyStyle {
    pub key_fg: Color,
    pub key_bg: Color,
    pub label_fg: Color,
    pub label_bg: Color,
}

impl FKeyStyle {
    /// The classic style: teal block, white text.
    pub fn classic(theme: Theme) -> (r: Self)
        ensures
            r == (FKeyStyle { key_fg: theme.button_fg, key_bg: theme.button_bg, label_fg: theme.button_fg, label_bg: theme.button_bg }),
    {
        FKeyStyle { key_fg: theme.button_fg, key_bg: theme.button_bg, label_fg: theme.button_fg, label_bg: theme.button_bg }
    }

    /// Key in `fx`, label in `label`, both on `bg`.
    pub fn highlight(fx: Color, label: Color, bg: Color) -> (r: Self)
        ensures
            r == (FKeyStyle { key_fg: fx, key_bg: bg, label_fg: label, label_bg: bg }),
    {
        FKeyStyle { key_fg: fx, key_bg: bg, label_fg: label, label_bg: bg }
    }
}

pub open spec fn key_attr(s: FKeyStyle) -> Attr {
    Attr { fg: s.key_fg, bg: s.key_bg, bold: true, dim: false }
}

pub open spec fn label_attr(s: FKeyStyle) -> Attr {
    Attr { fg: s.label_fg, bg: s.label_bg, bold: false, dim: false }
}

fn style_key(s: FKeyStyle) -> (r: Attr)
    ensures
        r == key_attr(s),
{
    Attr::bold(s.key_fg, s.key_bg)
}

fn style_label(s: FKeyStyle) -> (r: Attr)
    ensures
        r == label_attr(s),
{
    Attr::new(s.label_fg, s.label_bg)
}

/// The `(key, label)` pairs as texts.
pub open spec fn pairs_view(keys: Seq<(&str, &str)>) -> Seq<(Seq<char>, Seq<char>)> {
    keys.map_values(|p: (&str, &str)| (p.0@, p.1@))
}

/// Width in cells of a text (marks aside).
pub open spec fn vw(s: Seq<char>) -> int {
    seq_width(hot_clean(s))
}

/// Text at `(x, y)`.
pub open spec fn txt(g: Grid, x: int, y: int, s: Seq<char>, a: Attr) -> Grid {
    paint_run(g, x, y, paint_seq(s, a), false)
}

/// The flat walk: ` key label ` pairs from `cx`, two cells apart; the key
/// part ` key` in the key colours, the label part ` label ` in the label
/// colours; stops at the first pair passing the width `w`.
pub open spec fn flat_walk(g: Grid, y: int, keys: Seq<(Seq<char>, Seq<char>)>, style: FKeyStyle, w: int, k: int) -> (Grid, int, bool)
    decreases k,
{
    if k <= 0 {
        (g, 1, false)
    } else {
        let (g1, cx, stopped) = flat_walk(g, y, keys, style, w, k - 1);
        let (key, label) = keys[k - 1];
        let s = seq![' '] + key + seq![' '] + label + seq![' '];
        let sw = vw(s);
        if stopped || sat_add(cx, sw) > w {
            (g1, cx, true)
        } else {
            let g2 = txt(g1, cx, y, seq![' '] + key, key_attr(style));
            let g3 = txt(g2, sat_add(sat_add(cx, vw(key)), 1), y, seq![' '] + label + seq![' '], label_attr(style));
            (g3, sat_add(sat_add(cx, sw), 2), false)
        }
    }
}

proof fn lemma_flat_stopped(g: Grid, y: int, keys: Seq<(Seq<char>, Seq<char>)>, style: FKeyStyle, w: int, k0: int, k: int)
    requires
        1 <= k0 <= k,
        flat_walk(g, y, keys, style, w, k0).2,
    ensures
        flat_walk(g, y, keys, style, w, k) == flat_walk(g, y, keys, style, w, k0),
    decreases k - k0,
{
    if k > k0 {
        lemma_flat_stopped(g, y, keys, style, w, k0, k - 1);
    }
}

fn cat(parts: &Vec<char>) -> (r: String)
    ensures
        r@ == parts@,
{
    string_from_chars(parts)
}

/// Draws `(key, action)` pairs two cells apart from column 1 in the
/// classic colours; returns the column after the last pair.
pub fn fkey_bar(buf: &mut Buffer, y: u16, keys: &[(&str, &str)], theme: Theme) -> (r: u16)
    requires
        old(buf).wf(),
    ensures
        final(buf).wf(),
        (final(buf)@, r as int) == if y >= old(buf)@.h {
            (old(buf)@, 0int)
        } else {
            let (g, cx, _) = flat_walk(
                old(buf)@,
                y as int,
                pairs_view(keys@),
                FKeyStyle { key_fg: theme.button_fg, key_bg: theme.button_bg, label_fg: theme.button_fg, label_bg: theme.button_bg },
                old(buf)@.w,
                keys@.len() as int,
            );
            (g, cx)
        },
{
    fkey_bar_styled(buf, y, keys, FKeyStyle::classic(theme))
}

/// One row in a style of one's own.
pub fn fkey_bar_styled(buf: &mut Buffer, y: u16, keys: &[(&str, &str)], style: FKeyStyle) -> (r: u16)
    requires
        old(buf).wf(),
    ensures
        final(buf).wf(),
        (final(buf)@, r as int) == if y >= old(buf)@.h {
            (old(buf)@, 0int)
        } else {
            let (g, cx, _) = flat_walk(old(buf)@, y as int, pairs_view(keys@), style, old(buf)@.w, keys@.len() as int);
            (g, cx)
        },
{
    if y >= buf.height() {
        return 0;
    }
    let ghost g0 = buf@;
    let width = buf.width();
    let ka = style_key(style);
    let la = style_label(style);
    let mut cx: u16 = 1;
    let mut i: usize = 0;
    while i < keys.len()
        invariant
            buf.wf(),
            i <= keys@.len(),
            width == g0.w,
            ka == key_attr(style),
            la == label_attr(style),
            flat_walk(g0, y as int, pairs_view(keys@), style, g0.w, i as int) == (buf@, cx as int, false),
        ensures
            buf.wf(),
            flat_walk(g0, y as int, pairs_view(keys@), style, g0.w, keys@.len() as int).0 == buf@,
            flat_walk(g0, y as int, pairs_view(keys@), style, g0.w, keys@.len() as int).1 == cx,
        decreases keys.len() - i,
    {
        let (k, label) = keys[i];
        assert(pairs_view(keys@)[i as int] == (k@, label@));
        let kc = chars_of(k);
        let lc = chars_of(label);
        let mut s: Vec<char> = Vec::new();
        s.push(' ');
        let mut a = kc.clone();
        s.append(&mut a);
        s.push(' ');
        let mut b = lc.clone();
        s.append(&mut b);
        s.push(' ');
        let mut kp: Vec<char> = Vec::new();
        kp.push(' ');
        let mut a2 = kc.clone();
        kp.append(&mut a2);
        let mut lp: Vec<char> = Vec::new();
        lp.push(' ');
        let mut b2 = lc.clone();
        lp.append(&mut b2);
        lp.push(' ');
        assert(s@ =~= seq![' '] + k@ + seq![' '] + label@ + seq![' ']);
        assert(kp@ =~= seq![' '] + k@);
        assert(lp@ =~= seq![' '] + label@ + seq![' ']);
        let ss = cat(&s);
        let w = visible_len(ss.as_str());
        if cx.saturating_add(w) > width {
            proof {
                lemma_flat_stopped(g0, y as int, pairs_view(keys@), style, g0.w, i + 1, keys@.len() as int);
            }
            break;
        }
        let ks = cat(&kp);
        draw_text(buf, cx, y, ks.as_str(), ka);
        let ls = cat(&lp);
        draw_text(buf, cx.saturating_add(visible_len(k)).saturating_add(1), y, ls.as_str(), la);
        cx = cx.saturating_add(w).saturating_add(2);
        i += 1;
    }
    cx
}

/// A function-key name split into its letter and its number: `F10` gives
/// `F` and `10`; a name that is not `F`/`f` and one or two digits is kept
/// whole (`Esc` gives `Esc` and nothing).
pub open spec fn split_spec(k: Seq<char>) -> (Seq<char>, Seq<char>) {
    if (k.len() == 2 || k.len() == 3) && (k[0] == 'F' || k[0] == 'f') && (forall|i: int|
        1 <= i < k.len() ==> '0' <= #[trigger] k[i] <= '9') {
        (k.take(1), k.skip(1))
    } else {
        (k, Seq::empty())
    }
}

/// `"F10"` gives `("F", "10")`; `"Esc"` gives `("Esc", "")`.
pub fn split_fkey(k: &str) -> (r: (&str, &str))
    ensures
        (r.0@, r.1@) == split_spec(k@),
{
    let n = str_len(k);
    let cs = chars_of(k);
    let mut ok = (n == 2 || n == 3) && (cs[0] == 'F' || cs[0] == 'f');
    if ok {
        let mut i: usize = 1;
        while i < n
            invariant
                cs@ == k@,
                n == k@.len(),
                1 <= i <= n,
                ok == forall|j: int| 1 <= j < i ==> '0' <= #[trigger] k@[j] <= '9',
            decreases n - i,
        {
            ok = ok && cs[i] >= '0' && cs[i] <= '9';
            i += 1;
        }
    }
    if ok {
        assert(k@.subrange(0, 1) =~= k@.take(1));
        assert(k@.subrange(1, n as int) =~= k@.skip(1));
        (k.substring_char(0, 1), k.substring_char(1, n))
    } else {
        proof {
            reveal_strlit("");
        }
        assert(k@.subrange(0, n as int) =~= k@);
        (k.substring_char(0, n), "")
    }
}

/// The stacked walk: the key's letter on row `y`, its number and the label
/// on row `y + 1`, each pair as wide as its wider row, two cells apart.
pub open spec fn stacked_walk(g: Grid, y: int, keys: Seq<(Seq<char>, Seq<char>)>, style: FKeyStyle, w: int, k: int) -> (Grid, int, bool)
    decreases k,
{
    if k <= 0 {
        (g, 1, false)
    } else {
        let (g1, cx, stopped) = stacked_walk(g, y, keys, style, w, k - 1);
        let (key, label) = keys[k - 1];
        let (top, num) = split_spec(key);
        let pw = max_int(vw(top), sat_add(sat_add(vw(num), vw(label)), 1));
        if stopped || sat_add(cx, pw) > w {
            (g1, cx, true)
        } else {
            let y1 = sat_add(y, 1);
            let g2 = txt(txt(g1, cx, y, top, key_attr(style)), cx, y1, num, key_attr(style));
            let g3 = txt(g2, sat_add(cx, vw(num)), y1, seq![' '] + label, label_attr(style));
            (g3, sat_add(sat_add(cx, pw), 2), false)
        }
    }
}

proof fn lemma_stacked_stopped(g: Grid, y: int, keys: Seq<(Seq<char>, Seq<char>)>, style: FKeyStyle, w: int, k0: int, k: int)
    requires
        1 <= k0 <= k,
        stacked_walk(g, y, keys, style, w, k0).2,
    ensures
        stacked_walk(g, y, keys, style, w, k) == stacked_walk(g, y, keys, style, w, k0),
    decreases k - k0,
{
    if k > k0 {
        lemma_stacked_stopped(g, y, keys, style, w, k0, k - 1);
    }
}

/// Two rows in the reference style: the F above the number, aligned.
/// Takes rows `y` (letters) and `y+1` (number + label).
pub fn fkey_bar_stacked(buf: &mut Buffer, y: u16, keys: &[(&str, &str)], style: FKeyStyle) -> (r: u16)
    requires
        old(buf).wf(),
    ensures
        final(buf).wf(),
        (final(buf)@, r as int) == if sat_add(y as int, 1) >= old(buf)@.h {
            (old(buf)@, 0int)
        } else {
            let (g, cx, _) = stacked_walk(old(buf)@, y as int, pairs_view(keys@), style, old(buf)@.w, keys@.len() as int);
            (g, cx)
        },
{
    if y.saturating_add(1) >= buf.height() {
        return 0;
    }
    let ghost g0 = buf@;
    let width = buf.width();
    let ka = style_key(style);
    let la = style_label(style);
    let mut cx: u16 = 1;
    let mut i: usize = 0;
    while i < keys.len()
        invariant
            buf.wf(),
            i <= keys@.len(),
            width == g0.w,
            ka == key_attr(style),
            la == label_attr(style),
            stacked_walk(g0, y as int, pairs_view(keys@), style, g0.w, i as int) == (buf@, cx as int, false),
        ensures
            buf.wf(),
            stacked_walk(g0, y as int, pairs_view(keys@), style, g0.w, keys@.len() as int).0 == buf@,
            stacked_walk(g0, y as int, pairs_view(keys@), style, g0.w, keys@.len() as int).1 == cx,
        decreases keys.len() - i,
    {
        let (k, label) = keys[i];
        assert(pairs_view(keys@)[i as int] == (k@, label@));
        let (top, num) = split_fkey(k);
        let tw = visible_len(top);
        let bw = visible_len(num).saturating_add(visible_len(label)).saturating_add(1);
        let pw = if tw > bw { tw } else { bw };
        if cx.saturating_add(pw) > width {
            proof {
                lemma_stacked_stopped(g0, y as int, pairs_view(keys@), style, g0.w, i + 1, keys@.len() as int);
            }
            break;
        }
        draw_text(buf, cx, y, top, ka);
        draw_text(buf, cx, y.saturating_add(1), num, ka);
        let mut lp: Vec<char> = Vec::new();
        lp.push(' ');
        let mut lc = chars_of(label);
        lp.append(&mut lc);
        assert(lp@ =~= seq![' '] + label@);
        let ls = cat(&lp);
        draw_text(buf, cx.saturating_add(visible_len(num)), y.saturating_add(1), ls.as_str(), la);
        cx = cx.saturating_add(pw).saturating_add(2);
        i += 1;
    }
    cx
}

/// The superscript of a digit (other characters unchanged).
pub open spec fn superscript(c: char) -> char {
    if c == '0' {
        '\u{2070}'
    } else if c == '1' {
        '\u{b9}'
    } else if c == '2' {
        '\u{b2}'
    } else if c == '3' {
        '\u{b3}'
    } else if c == '4' {
        '\u{2074}'
    } else if c == '5' {
        '\u{2075}'
    } else if c == '6' {
        '\u{2076}'
    } else if c == '7' {
        '\u{2077}'
    } else if c == '8' {
        '\u{2078}'
    } else if c == '9' {
        '\u{2079}'
    } else {
        c
    }
}

fn superscript_of(c: char) -> (r: char)
    ensures
        r == superscript(c),
{
    if c == '0' {
        '\u{2070}'
    } else if c == '1' {
        '\u{b9}'
    } else if c == '2' {
        '\u{b2}'
    } else if c == '3' {
        '\u{b3}'
    } else if c == '4' {
        '\u{2074}'
    } else if c == '5' {
        '\u{2075}'
    } else if c == '6' {
        '\u{2076}'
    } else if c == '7' {
        '\u{2077}'
    } else if c == '8' {
        '\u{2078}'
    } else if c == '9' {
        '\u{2079}'
    } else {
        c
    }
}

/// `F2` gives `²`, `F10` gives `¹⁰`; anything else is kept.
pub open spec fn compact_spec(k: Seq<char>) -> Seq<char> {
    if k.len() >= 2 && (k[0] == 'F' || k[0] == 'f') && (forall|i: int| 1 <= i < k.len() ==> '0' <= #[trigger] k[i] <= '9') {
        k.skip(1).map_values(|c: char| superscript(c))
    } else {
        k
    }
}

fn compact_num(k: &str) -> (r: Vec<char>)
    ensures
        r@ == compact_spec(k@),
{
    let cs = chars_of(k);
    let n = cs.len();
    let mut ok = n >= 2 && (cs[0] == 'F' || cs[0] == 'f');
    if ok {
        let mut i: usize = 1;
        while i < n
            invariant
                cs@ == k@,
                n == k@.len(),
                1 <= i <= n,
                ok == forall|j: int| 1 <= j < i ==> '0' <= #[trigger] k@[j] <= '9',
            decreases n - i,
        {
            ok = ok && cs[i] >= '0' && cs[i] <= '9';
            i += 1;
        }
    }
    if !ok {
        return cs;
    }
    let mut out: Vec<char> = Vec::new();
    let mut i: usize = 1;
    while i < n
        invariant
            cs@ == k@,
            n == k@.len(),
            1 <= i <= n,
            out@ == k@.subrange(1, i as int).map_values(|c: char| superscript(c)),
        decreases n - i,
    {
        out.push(superscript_of(cs[i]));
        i += 1;
        assert(out@ =~= k@.subrange(1, i as int).map_values(|c: char| superscript(c)));
    }
    assert(k@.subrange(1, n as int) =~= k@.skip(1));
    out
}

/// The compact walk: superscript number in the key colours glued to its
/// label, two cells apart.
pub open spec fn compact_walk(g: Grid, y: int, keys: Seq<(Seq<char>, Seq<char>)>, style: FKeyStyle, w: int, k: int) -> (Grid, int, bool)
    decreases k,
{
    if k <= 0 {
        (g, 1, false)
    } else {
        let (g1, cx, stopped) = compact_walk(g, y, keys, style, w, k - 1);
        let (key, label) = keys[k - 1];
        let num = compact_spec(key);
        let pw = sat_add(vw(num), vw(label));
        if stopped || sat_add(cx, pw) > w {
            (g1, cx, true)
        } else {
            let g2 = txt(g1, cx, y, num, key_attr(style));
            let g3 = txt(g2, sat_add(cx, vw(num)), y, label, label_attr(style));
            (g3, sat_add(sat_add(cx, pw), 2), false)
        }
    }
}

proof fn lemma_compact_stopped(g: Grid, y: int, keys: Seq<(Seq<char>, Seq<char>)>, style: FKeyStyle, w: int, k0: int, k: int)
    requires
        1 <= k0 <= k,
        compact_walk(g, y, keys, style, w, k0).2,
    ensures
        compact_walk(g, y, keys, style, w, k) == compact_walk(g, y, keys, style, w, k0),
    decreases k - k0,
{
    if k > k0 {
        lemma_compact_stopped(g, y, keys, style, w, k0, k - 1);
    }
}

/// Compact row: superscript number + label (`F1 Help` gives `¹Help`,
/// `F10 Menu` gives `¹⁰Menu`, `Esc Salir` is kept as it is).
pub fn fkey_bar_compact(buf: &mut Buffer, y: u16, keys: &[(&str, &str)], style: FKeyStyle) -> (r: u16)
    requires
        old(buf).wf(),
    ensures
        final(buf).wf(),
        (final(buf)@, r as int) == if y >= old(buf)@.h {
            (old(buf)@, 0int)
        } else {
            let (g, cx, _) = compact_walk(old(buf)@, y as int, pairs_view(keys@), style, old(buf)@.w, keys@.len() as int);
            (g, cx)
        },
{
    if y >= buf.height() {
        return 0;
    }
    let ghost g0 = buf@;
    let width = buf.width();
    let ka = style_key(style);
    let la = style_label(style);
    let mut cx: u16 = 1;
    let mut i: usize = 0;
    while i < keys.len()
        invariant
            buf.wf(),
            i <= keys@.len(),
            width == g0.w,
            ka == key_attr(style),
            la == label_attr(style),
            compact_walk(g0, y as int, pairs_view(keys@), style, g0.w, i as int) == (buf@, cx as int, false),
        ensures
            buf.wf(),
            compact_walk(g0, y as int, pairs_view(keys@), style, g0.w, keys@.len() as int).0 == buf@,
            compact_walk(g0, y as int, pairs_view(keys@), style, g0.w, keys@.len() as int).1 == cx,
        decreases keys.len() - i,
    {
        let (k, label) = keys[i];
        assert(pairs_view(keys@)[i as int] == (k@, label@));
        let numv = compact_num(k);
        let num = cat(&numv);
        let nw = visible_len(num.as_str());
        let pw = nw.saturating_add(visible_len(label));
        if cx.saturating_add(pw) > width {
            proof {
                lemma_compact_stopped(g0, y as int, pairs_view(keys@), style, g0.w, i + 1, keys@.len() as int);
            }
            break;
        }
        draw_text(buf, cx, y, num.as_str(), ka);
        draw_text(buf, cx.saturating_add(nw), y, label, la);
        cx = cx.saturating_add(pw).saturating_add(2);
        i += 1;
    }
    cx
}

/// Splitting a key name loses nothing: the two parts, put back together,
/// give the name; a split name's first part is its one letter and its
/// second part all digits.
pub proof fn lemma_split_rejoins(k: Seq<char>)
    ensures
        split_spec(k).0 + split_spec(k).1 == k,
        split_spec(k).1.len() > 0 ==> split_spec(k).0.len() == 1 && (forall|i: int|
            0 <= i < split_spec(k).1.len() ==> '0' <= #[trigger] split_spec(k).1[i] <= '9'),
{
    let (a, b) = split_spec(k);
    if b.len() > 0 {
        assert(a + b =~= k);
        assert forall|i: int| 0 <= i < b.len() implies '0' <= #[trigger] b[i] <= '9' by {
            assert(b[i] == k[i + 1]);
        }
    } else {
        assert(a + b =~= k);
    }
}

} // verus!
