//! Text labels, yellow hotkeys and clipping with an ellipsis.
//!
//! Convention of the menus of the era: `&` before a letter marks it as the
//! hotkey (`"&Respaldo"`: **R**espaldo, the R in yellow); `&&` paints a
//! literal `&`. Without a mark the hotkey is the first alphabetic letter.

use vstd::prelude::*;

use crate::engine::buffer::{Buffer, paint_end, paint_run, paint_seq, lemma_paint_end_ge};
use crate::engine::cell::Cell;
use crate::engine::color::{Attr, Color};
use crate::text::{
    alphabetic, cell_width, char_is_alphabetic, char_is_whitespace, char_width, chars_of,
    is_white_space, seq_width, string_push,
};

verus! {

/// State of the hotkey scan: text without marks so far, the hotkey found
/// (index in the clean text, letter) and whether a `&` is pending.
pub struct HotScan {
    pub clean: Seq<char>,
    pub hot: Option<(int, char)>,
    pub marked: bool,
}

/// One character of the scan.
pub open spec fn hot_step(st: HotScan, ch: char) -> HotScan {
    if ch == '&' {
        if st.marked {
            HotScan { clean: st.clean.push('&'), hot: st.hot, marked: false }
        } else {
            HotScan { clean: st.clean, hot: st.hot, marked: true }
        }
    } else {
        let hot = if st.marked && st.hot is None && !is_white_space(ch) {
            Some((st.clean.len() as int, ch))
        } else {
            st.hot
        };
        HotScan { clean: st.clean.push(ch), hot, marked: false }
    }
}

/// The scan of a whole text, character by character.
pub open spec fn hot_scan(s: Seq<char>) -> HotScan
    decreases s.len(),
{
    if s.len() == 0 {
        HotScan { clean: Seq::empty(), hot: None, marked: false }
    } else {
        hot_step(hot_scan(s.drop_last()), s.last())
    }
}

/// First alphabetic character of `s` at index `i` or later.
pub open spec fn first_alpha_from(s: Seq<char>, i: int) -> Option<(int, char)>
    decreases s.len() - i,
{
    if i < 0 || i >= s.len() {
        None
    } else if alphabetic(s[i]) {
        Some((i, s[i]))
    } else {
        first_alpha_from(s, i + 1)
    }
}

/// Text without marks (a trailing lone `&` is literal).
pub open spec fn hot_clean(s: Seq<char>) -> Seq<char> {
    let st = hot_scan(s);
    if st.marked { st.clean.push('&') } else { st.clean }
}

/// The hotkey of `s`: the first marked letter that is not white space, or
/// else the first alphabetic letter of the clean text.
pub open spec fn hot_of(s: Seq<char>) -> Option<(int, char)> {
    let st = hot_scan(s);
    if st.hot is Some { st.hot } else { first_alpha_from(hot_clean(s), 0) }
}

/// `a` (with `usize` index) names the same hotkey as `b`.
pub open spec fn same_hot(a: Option<(usize, char)>, b: Option<(int, char)>) -> bool {
    match (a, b) {
        (Some((i, c)), Some((j, d))) => i == j && c == d,
        (None, None) => true,
        _ => false,
    }
}

proof fn lemma_scan_bounds(s: Seq<char>)
    ensures
        hot_scan(s).clean.len() <= s.len(),
        hot_scan(s).hot matches Some((i, _)) ==> 0 <= i < hot_scan(s).clean.len(),
    decreases s.len(),
{
    if s.len() > 0 {
        lemma_scan_bounds(s.drop_last());
    }
}

proof fn lemma_first_alpha_bounds(s: Seq<char>, i: int)
    requires
        0 <= i,
    ensures
        first_alpha_from(s, i) matches Some((j, c)) ==> i <= j < s.len() && s[j] == c,
    decreases s.len() - i,
{
    if i < s.len() && !alphabetic(s[i]) {
        lemma_first_alpha_bounds(s, i + 1);
    }
}

/// Splits clean text and hotkey: `(text without marks, Some((char index,
/// letter)))`.
pub fn parse_hotkey(s: &str) -> (r: (String, Option<(usize, char)>))
    ensures
        r.0@ == hot_clean(s@),
        same_hot(r.1, hot_of(s@)),
{
    let chars = chars_of(s);
    let mut clean: Vec<char> = Vec::new();
    let mut hot: Option<(usize, char)> = None;
    let mut marked = false;
    let mut i: usize = 0;
    while i < chars.len()
        invariant
            i <= chars@.len(),
            chars@ == s@,
            clean@ == hot_scan(chars@.take(i as int)).clean,
            same_hot(hot, hot_scan(chars@.take(i as int)).hot),
            marked == hot_scan(chars@.take(i as int)).marked,
            clean@.len() <= i,
        decreases chars.len() - i,
    {
        let ch = chars[i];
        assert(chars@.take(i + 1).drop_last() =~= chars@.take(i as int));
        if ch == '&' {
            if marked {
                clean.push('&');
                marked = false;
            } else {
                marked = true;
            }
        } else {
            if marked {
                marked = false;
                if hot.is_none() && !char_is_whitespace(ch) {
                    hot = Some((clean.len(), ch));
                }
            }
            clean.push(ch);
        }
        i += 1;
    }
    assert(chars@.take(chars@.len() as int) =~= chars@);
    if marked {
        clean.push('&');
    }
    if hot.is_none() {
        let mut k: usize = 0;
        while k < clean.len()
            invariant_except_break
                hot is None,
            invariant
                k <= clean@.len(),
                clean@ == hot_clean(s@),
                first_alpha_from(clean@, 0) == first_alpha_from(clean@, k as int),
            ensures
                same_hot(hot, first_alpha_from(clean@, 0)),
            decreases clean.len() - k,
        {
            if char_is_alphabetic(clean[k]) {
                hot = Some((k, clean[k]));
                break;
            }
            k += 1;
        }
    }
    (crate::text::string_from_chars(&clean), hot)
}

/// Only the hotkey letter, if any.
pub fn hot_key_of(s: &str) -> (r: Option<char>)
    ensures
        r == match hot_of(s@) {
            Some((_, c)) => Some(c),
            None => None,
        },
{
    let (_, hot) = parse_hotkey(s);
    match hot {
        Some((_, c)) => Some(c),
        None => None,
    }
}

/// Visible width in cells (without the `&` marks), saturated at `u16::MAX`.
pub fn visible_len(s: &str) -> (r: u16)
    ensures
        r == seq_width(hot_clean(s@)),
{
    let (clean, _) = parse_hotkey(s);
    let cs = chars_of(clean.as_str());
    let mut w: u16 = 0;
    let mut i: usize = 0;
    while i < cs.len()
        invariant
            i <= cs@.len(),
            cs@ == hot_clean(s@),
            w == seq_width(cs@.take(i as int)),
        decreases cs.len() - i,
    {
        assert(cs@.take(i + 1).drop_last() =~= cs@.take(i as int));
        w = w.saturating_add(char_width(cs[i]));
        i += 1;
    }
    assert(cs@.take(cs@.len() as int) =~= cs@);
    w
}

/// Exact total display width of `s`.
pub open spec fn total_width(s: Seq<char>) -> int
    decreases s.len(),
{
    if s.len() == 0 {
        0
    } else {
        total_width(s.drop_last()) + cell_width(s.last())
    }
}

/// The characters that fit in `budget` columns from index `i` on (the
/// columns used so far being `w`), with the `&` mark kept before the
/// hotkey letter at index `hot`.
pub open spec fn fit_chars(clean: Seq<char>, hot: Option<int>, budget: int, i: int, w: int) -> Seq<char>
    decreases clean.len() - i,
{
    if i < 0 || i >= clean.len() {
        Seq::empty()
    } else {
        let ch = clean[i];
        let cw = cell_width(ch);
        if cw == 0 {
            fit_chars(clean, hot, budget, i + 1, w)
        } else if w + cw > budget {
            Seq::empty()
        } else {
            (if hot == Some(i) { seq!['&', ch] } else { seq![ch] }) + fit_chars(clean, hot, budget, i + 1, w + cw)
        }
    }
}

/// `s` cut to `max_w` cells, ending in `…` when cut; the `&` mark of the
/// hotkey is kept when its letter survives.
pub open spec fn fit_spec(s: Seq<char>, max_w: int) -> Seq<char> {
    if max_w == 0 {
        Seq::empty()
    } else if total_width(hot_clean(s)) <= max_w {
        s
    } else {
        let hot = match hot_of(s) {
            Some((i, _)) => Some(i),
            None => None,
        };
        fit_chars(hot_clean(s), hot, max_w - 1, 0, 0).push('…')
    }
}

pub fn fit_text(s: &str, max_w: u16) -> (r: String)
    ensures
        r@ == fit_spec(s@, max_w as int),
        seq_width(hot_clean(r@)) <= max_w,
{
    if max_w == 0 {
        proof {
            let e = Seq::<char>::empty();
            assert(hot_scan(e).clean =~= e);
        }
        return String::new();
    }
    // `&` and `…` are one column each; the width bound rests on it.
    let _amp_w = char_width('&');
    let _dots_w = char_width('…');
    proof {
        lemma_fit_width(s@, max_w as int);
    }
    let (clean, hot) = parse_hotkey(s);
    let cs = chars_of(clean.as_str());
    let mut total: u64 = 0;
    let mut i: usize = 0;
    while i < cs.len()
        invariant
            i <= cs@.len(),
            cs@ == hot_clean(s@),
            total == if total_width(cs@.take(i as int)) > u64::MAX {
                u64::MAX as int
            } else {
                total_width(cs@.take(i as int))
            },
        decreases cs.len() - i,
    {
        assert(cs@.take(i + 1).drop_last() =~= cs@.take(i as int));
        total = total.saturating_add(char_width(cs[i]) as u64);
        i += 1;
    }
    assert(cs@.take(cs@.len() as int) =~= cs@);
    if total <= max_w as u64 {
        return String::from_str(s);
    }
    let budget = max_w - 1;
    let hot_idx: Option<usize> = match hot {
        Some((j, _)) => Some(j),
        None => None,
    };
    let ghost hspec = match hot_of(s@) {
        Some((j, _)) => Some(j),
        None => None,
    };
    let mut out = String::new();
    let mut w: u16 = 0;
    let mut i: usize = 0;
    let ghost full = fit_chars(cs@, hspec, budget as int, 0, 0);
    while i < cs.len()
        invariant
            i <= cs@.len(),
            cs@ == hot_clean(s@),
            w <= budget,
            budget == max_w - 1,
            match (hot_idx, hspec) {
                (Some(a), Some(b)) => a == b,
                (None, None) => true,
                _ => false,
            },
            full == out@ + fit_chars(cs@, hspec, budget as int, i as int, w as int),
        ensures
            full == out@,
        decreases cs.len() - i,
    {
        let ch = cs[i];
        let cw = char_width(ch);
        if cw == 0 {
            i += 1;
            continue;
        }
        if w as u32 + cw as u32 > budget as u32 {
            break;
        }
        let ghost before = out@;
        if hot_idx == Some(i) {
            string_push(&mut out, '&');
        }
        string_push(&mut out, ch);
        w = w + cw;
        i += 1;
        proof {
            if hspec == Some((i - 1) as int) {
                assert(out@ =~= before + seq!['&', ch]);
            } else {
                assert(out@ =~= before + seq![ch]);
            }
        }
    }
    string_push(&mut out, '…');
    out
}

/// The cells that paint the clean text of a label, the hotkey letter in
/// `hot` and the rest in `base`.
pub open spec fn hot_cells(s: Seq<char>, base: Attr, hot: Attr) -> Seq<Cell> {
    let clean = hot_clean(s);
    Seq::new(
        clean.len(),
        |i: int|
            Cell::spec_with_attr(
                clean[i],
                if (match hot_of(s) {
                    Some((j, _)) => j == i,
                    None => false,
                }) {
                    hot
                } else {
                    base
                },
            ),
    )
}

/// Draws plain text in `attr`; returns the painted width.
pub fn draw_text(buf: &mut Buffer, x: u16, y: u16, s: &str, attr: Attr) -> (r: u16)
    requires
        old(buf).wf(),
    ensures
        final(buf).wf(),
        final(buf)@ == paint_run(old(buf)@, x as int, y as int, paint_seq(s@, attr), false),
        r == paint_end(old(buf)@.w, x as int, paint_seq(s@, attr), false) - x,
{
    let cells = Buffer::cells_of(s, attr);
    proof {
        lemma_paint_end_ge(buf@.w, x as int, cells@, false);
    }
    let end = buf.paint_cells(x, y, &cells, false);
    end - x
}

/// Draws a label with its hotkey (`base` normal, `hot` the yellow letter);
/// returns the painted width.
pub fn draw_hot_label(buf: &mut Buffer, x: u16, y: u16, s: &str, base: Attr, hot: Attr) -> (r: u16)
    requires
        old(buf).wf(),
    ensures
        final(buf).wf(),
        final(buf)@ == paint_run(old(buf)@, x as int, y as int, hot_cells(s@, base, hot), false),
        r == paint_end(old(buf)@.w, x as int, hot_cells(s@, base, hot), false) - x,
{
    let (clean, hot_idx) = parse_hotkey(s);
    let cs = chars_of(clean.as_str());
    let mut cells: Vec<Cell> = Vec::new();
    let mut i: usize = 0;
    while i < cs.len()
        invariant
            i <= cs@.len(),
            cs@ == hot_clean(s@),
            same_hot(hot_idx, hot_of(s@)),
            cells@ == hot_cells(s@, base, hot).subrange(0, i as int),
        decreases cs.len() - i,
    {
        let is_hot = match hot_idx {
            Some((j, _)) => j == i,
            None => false,
        };
        let a = if is_hot { hot } else { base };
        cells.push(Cell::with_attr(cs[i], a));
        i += 1;
        assert(cells@ =~= hot_cells(s@, base, hot).subrange(0, i as int));
    }
    assert(cells@ =~= hot_cells(s@, base, hot));
    proof {
        lemma_paint_end_ge(buf@.w, x as int, cells@, false);
    }
    let end = buf.paint_cells(x, y, &cells, false);
    end - x
}

/// Base + hotkey pair for labels.
#[derive(Clone, Copy, Debug)]
pub struct HotAttrs {
    pub base: Attr,
    pub hot: Attr,
}

/// Base attribute over a given background (plain white text).
pub fn base_on(bg: Color) -> (r: Attr)
    ensures
        r == (Attr { fg: Color::White, bg, bold: false, dim: false }),
{
    Attr::new(Color::White, bg)
}

/// `x` without its `&` characters.
pub open spec fn strip_amp(x: Seq<char>) -> Seq<char>
    decreases x.len(),
{
    if x.len() == 0 {
        Seq::empty()
    } else if x.last() == '&' {
        strip_amp(x.drop_last())
    } else {
        strip_amp(x.drop_last()).push(x.last())
    }
}

/// No two `&` stand side by side in `x`.
pub open spec fn no_amp_pair(x: Seq<char>) -> bool {
    forall|i: int| 0 <= i < x.len() - 1 ==> !(#[trigger] x[i] == '&' && x[i + 1] == '&')
}

/// Without `&&`, every `&` is a mark: the scan's clean text is the text
/// without its `&`, and a mark is pending exactly when the text ends in `&`.
proof fn lemma_scan_strips(x: Seq<char>)
    requires
        no_amp_pair(x),
    ensures
        hot_scan(x).clean == strip_amp(x),
        hot_scan(x).marked == (x.len() > 0 && x.last() == '&'),
    decreases x.len(),
{
    if x.len() > 0 {
        let p = x.drop_last();
        assert(no_amp_pair(p)) by {
            assert forall|i: int| 0 <= i < p.len() - 1 implies !(#[trigger] p[i] == '&' && p[i + 1] == '&') by {
                assert(p[i] == x[i] && p[i + 1] == x[i + 1]);
            }
        }
        lemma_scan_strips(p);
        if x.last() == '&' && p.len() > 0 {
            assert(x[x.len() - 2] == p.last());
        }
    }
}

/// Stripping and total width both add up over a concatenation.
pub proof fn lemma_strip_width_concat(a: Seq<char>, b: Seq<char>)
    ensures
        strip_amp(a + b) == strip_amp(a) + strip_amp(b),
        total_width(a + b) == total_width(a) + total_width(b),
    decreases b.len(),
{
    if b.len() == 0 {
        assert(a + b =~= a);
        assert(strip_amp(a) + Seq::<char>::empty() =~= strip_amp(a));
    } else {
        lemma_strip_width_concat(a, b.drop_last());
        assert((a + b).drop_last() =~= a + b.drop_last());
        assert((a + b).last() == b.last());
        if b.last() != '&' {
            assert(strip_amp(a) + strip_amp(b.drop_last()).push(b.last()) =~= (strip_amp(a) + strip_amp(
                b.drop_last(),
            )).push(b.last()));
        }
    }
}

/// Characters `fit_chars` keeps of a clean text without `&`: with the mark
/// before the hotkey letter, the text has no `&&`, does not end in `&`,
/// reads (marks dropped) as the characters kept without a hotkey, and
/// those fit in the columns left.
proof fn lemma_fit_chars_shape(clean: Seq<char>, hot: Option<int>, budget: int, i: int, w: int)
    requires
        forall|k: int| 0 <= k < clean.len() ==> #[trigger] clean[k] != '&',
        0 <= i,
        0 <= w <= budget,
    ensures
        ({
            let k = fit_chars(clean, hot, budget, i, w);
            let kept = fit_chars(clean, None, budget, i, w);
            &&& no_amp_pair(k)
            &&& (k.len() > 0 ==> k.last() != '&')
            &&& strip_amp(k) == kept
            &&& total_width(kept) <= budget - w
        }),
    decreases clean.len() - i,
{
    if i < clean.len() {
        let ch = clean[i];
        let cw = cell_width(ch);
        lemma_cell_width_nonneg(ch);
        if cw == 0 {
            lemma_fit_chars_shape(clean, hot, budget, i + 1, w);
        } else if w + cw > budget {
        } else {
            lemma_fit_chars_shape(clean, hot, budget, i + 1, w + cw);
            let rest = fit_chars(clean, hot, budget, i + 1, w + cw);
            let rest0 = fit_chars(clean, None, budget, i + 1, w + cw);
            let pre = if hot == Some(i) { seq!['&', ch] } else { seq![ch] };
            let k = pre + rest;
            assert(k == fit_chars(clean, hot, budget, i, w));
            assert(fit_chars(clean, None, budget, i, w) == seq![ch] + rest0);
            lemma_strip_width_concat(pre, rest);
            lemma_strip_width_concat(seq![ch], rest0);
            assert(seq![ch].drop_last() =~= Seq::<char>::empty());
            assert(seq![ch].last() == ch);
            assert(strip_amp(Seq::<char>::empty()) == Seq::<char>::empty());
            assert(total_width(Seq::<char>::empty()) == 0);
            assert(strip_amp(seq![ch]) == strip_amp(Seq::<char>::empty()).push(ch));
            assert(strip_amp(seq![ch]) =~= seq![ch]);
            assert(total_width(seq![ch]) == total_width(Seq::<char>::empty()) + cell_width(ch));
            if hot == Some(i) {
                assert(seq!['&', ch].drop_last() =~= seq!['&']);
                assert(seq!['&'].drop_last() =~= Seq::<char>::empty());
                assert(seq!['&', ch].last() == ch);
                assert(seq!['&'].last() == '&');
                assert(strip_amp(seq!['&']) == strip_amp(Seq::<char>::empty()));
                assert(strip_amp(seq!['&', ch]) == strip_amp(seq!['&']).push(ch));
                assert(strip_amp(seq!['&', ch]) =~= seq![ch]);
            }
            assert forall|j: int| 0 <= j < k.len() - 1 implies !(#[trigger] k[j] == '&' && k[j + 1] == '&') by {
                if j >= pre.len() {
                    assert(k[j] == rest[j - pre.len()] && k[j + 1] == rest[j + 1 - pre.len()]);
                } else if j == pre.len() - 1 {
                    assert(k[j] == ch);
                } else {
                    assert(k[j + 1] == ch);
                }
            }
            if rest.len() > 0 {
                assert(k.last() == rest.last());
            } else {
                assert(k.last() == ch);
            }
        }
    }
}

/// A character's width is never negative.
proof fn lemma_cell_width_nonneg(c: char)
    ensures
        cell_width(c) >= 0,
{
}

/// How a text is cut to `max_w` columns: nothing for no columns, the text
/// itself when its characters (marks aside) fit; otherwise the kept
/// characters (those that fit in `max_w - 1` columns, left to right) and
/// `…` last: read without marks, the result is those characters and the
/// ellipsis. Stated for texts whose clean form holds no literal `&`.
pub proof fn lemma_fit_text_shape(s: Seq<char>, max_w: int)
    requires
        max_w >= 0,
        forall|k: int| 0 <= k < hot_clean(s).len() ==> #[trigger] hot_clean(s)[k] != '&',
    ensures
        max_w == 0 ==> fit_spec(s, max_w) == Seq::<char>::empty(),
        max_w > 0 && total_width(hot_clean(s)) <= max_w ==> fit_spec(s, max_w) == s,
        max_w > 0 && total_width(hot_clean(s)) > max_w ==> {
            let kept = fit_chars(hot_clean(s), None, max_w - 1, 0, 0);
            &&& fit_spec(s, max_w).last() == '…'
            &&& hot_clean(fit_spec(s, max_w)) == kept.push('…')
            &&& total_width(kept) <= max_w - 1
        },
{
    if max_w > 0 && total_width(hot_clean(s)) > max_w {
        let clean = hot_clean(s);
        let hot = match hot_of(s) {
            Some((i, _)) => Some(i),
            None => None,
        };
        lemma_fit_chars_shape(clean, hot, max_w - 1, 0, 0);
        let k = fit_chars(clean, hot, max_w - 1, 0, 0);
        let f = k.push('…');
        assert(f == fit_spec(s, max_w));
        assert forall|j: int| 0 <= j < f.len() - 1 implies !(#[trigger] f[j] == '&' && f[j + 1] == '&') by {
            if j < k.len() - 1 {
                assert(f[j] == k[j] && f[j + 1] == k[j + 1]);
            } else {
                assert(f[j + 1] == '…');
            }
        }
        lemma_scan_strips(f);
        assert(f.drop_last() =~= k);
    }
}

/// Marks spent by the scan of `y`: each `&` that marks a letter, and one of
/// each `&&` pair, takes no column of the clean text.
pub open spec fn marks_spent(y: Seq<char>) -> int
    decreases y.len(),
{
    if y.len() == 0 {
        0
    } else {
        marks_spent(y.drop_last()) + if hot_scan(y.drop_last()).marked { 1int } else { 0int }
    }
}

/// Column accounting of the scan: the clean text, a pending mark and the
/// spent marks take the columns of the text (with `&` one column wide).
proof fn lemma_scan_columns(y: Seq<char>)
    requires
        cell_width('&') == 1,
    ensures
        total_width(hot_scan(y).clean) + (if hot_scan(y).marked { 1int } else { 0int }) + marks_spent(y) == total_width(y),
        marks_spent(y) >= 0,
    decreases y.len(),
{
    if y.len() > 0 {
        lemma_scan_columns(y.drop_last());
        let st = hot_scan(y.drop_last());
        assert(st.clean.push('&').drop_last() =~= st.clean);
        assert(st.clean.push(y.last()).drop_last() =~= st.clean);
    }
}

/// A text ending in `&` with no mark pending has spent a mark.
proof fn lemma_spent_after_pair(p: Seq<char>)
    requires
        p.len() > 0,
        p.last() == '&',
        !hot_scan(p).marked,
    ensures
        marks_spent(p) >= 1,
{
    lemma_spent_nonneg(p.drop_last());
}

proof fn lemma_spent_nonneg(y: Seq<char>)
    ensures
        marks_spent(y) >= 0,
    decreases y.len(),
{
    if y.len() > 0 {
        lemma_spent_nonneg(y.drop_last());
    }
}

/// An `&` followed by anything spends a mark.
proof fn lemma_amp_spends(y: Seq<char>, i: int)
    requires
        0 <= i < y.len() - 1,
        y[i] == '&',
    ensures
        marks_spent(y) >= 1,
    decreases y.len(),
{
    let p = y.drop_last();
    lemma_spent_nonneg(p);
    if i < p.len() - 1 {
        lemma_amp_spends(p, i);
    } else {
        assert(p.last() == '&');
        if !hot_scan(p).marked {
            lemma_spent_after_pair(p);
        }
    }
}

/// A text holds an `&`.
pub open spec fn has_amp(x: Seq<char>) -> bool {
    exists|i: int| 0 <= i < x.len() && x[i] == '&'
}

/// Past the hotkey's index no mark is added.
proof fn lemma_fit_past_hot(clean: Seq<char>, h: int, budget: int, i: int, w: int)
    requires
        h < i,
    ensures
        fit_chars(clean, Some(h), budget, i, w) == fit_chars(clean, None, budget, i, w),
    decreases clean.len() - i,
{
    if 0 <= i < clean.len() {
        let cw = cell_width(clean[i]);
        lemma_fit_past_hot(clean, h, budget, i + 1, w);
        lemma_fit_past_hot(clean, h, budget, i + 1, w + cw);
    }
}

/// The kept characters fit the columns left; with the hotkey's mark the
/// text is at most one column more, and then holds an `&`.
proof fn lemma_fit_columns(clean: Seq<char>, hot: Option<int>, budget: int, i: int, w: int)
    requires
        cell_width('&') == 1,
        0 <= i,
        0 <= w <= budget,
    ensures
        ({
            let k = fit_chars(clean, hot, budget, i, w);
            let k0 = fit_chars(clean, None, budget, i, w);
            &&& total_width(k0) <= budget - w
            &&& total_width(k0) <= total_width(k) <= total_width(k0) + 1
            &&& total_width(k) == total_width(k0) + 1 ==> has_amp(k)
        }),
    decreases clean.len() - i,
{
    if i < clean.len() {
        let ch = clean[i];
        let cw = cell_width(ch);
        lemma_cell_width_nonneg(ch);
        if cw == 0 {
            lemma_fit_columns(clean, hot, budget, i + 1, w);
        } else if w + cw > budget {
            assert(total_width(Seq::<char>::empty()) == 0);
        } else {
            lemma_fit_columns(clean, hot, budget, i + 1, w + cw);
            let rest = fit_chars(clean, hot, budget, i + 1, w + cw);
            let rest0 = fit_chars(clean, None, budget, i + 1, w + cw);
            let pre = if hot == Some(i) { seq!['&', ch] } else { seq![ch] };
            assert(fit_chars(clean, hot, budget, i, w) == pre + rest);
            assert(fit_chars(clean, None, budget, i, w) == seq![ch] + rest0);
            lemma_strip_width_concat(pre, rest);
            lemma_strip_width_concat(seq![ch], rest0);
            assert(seq![ch].drop_last() =~= Seq::<char>::empty());
            assert(seq![ch].last() == ch);
            assert(total_width(Seq::<char>::empty()) == 0);
            assert(total_width(seq![ch]) == total_width(Seq::<char>::empty()) + cell_width(ch));
            let k = pre + rest;
            if hot == Some(i) {
                lemma_fit_past_hot(clean, i, budget, i + 1, w + cw);
                assert(seq!['&', ch].drop_last() =~= seq!['&']);
                assert(seq!['&'].drop_last() =~= Seq::<char>::empty());
                assert(seq!['&', ch].last() == ch);
                assert(seq!['&'].last() == '&');
                assert(total_width(seq!['&']) == total_width(Seq::<char>::empty()) + cell_width('&'));
                assert(total_width(seq!['&', ch]) == total_width(seq!['&']) + cell_width(ch));
                assert(k[0] == '&');
            } else {
                if total_width(k) == total_width(fit_chars(clean, None, budget, i, w)) + 1 {
                    assert(has_amp(rest));
                    let j = choose|j: int| 0 <= j < rest.len() && rest[j] == '&';
                    assert(k[j + 1] == rest[j]);
                }
            }
        }
    }
}

/// The display width never exceeds the exact total.
proof fn lemma_seq_width_le_total(s: Seq<char>)
    ensures
        seq_width(s) <= total_width(s),
    decreases s.len(),
{
    if s.len() > 0 {
        lemma_seq_width_le_total(s.drop_last());
        lemma_cell_width_nonneg(s.last());
    }
}

/// A cut text keeps to the width it was cut to: read without marks (the
/// hotkey's mark, and one `&` of each `&&`), it is at most `max_w`
/// columns wide, given that `&` and `…` are one column each.
proof fn lemma_fit_width(s: Seq<char>, max_w: int)
    requires
        max_w > 0,
        cell_width('&') == 1,
        cell_width('…') == 1,
    ensures
        seq_width(hot_clean(fit_spec(s, max_w))) <= max_w,
{
    let f = fit_spec(s, max_w);
    if total_width(hot_clean(s)) <= max_w {
        lemma_seq_width_le_total(hot_clean(s));
    } else {
        let clean = hot_clean(s);
        let hot = match hot_of(s) {
            Some((i, _)) => Some(i),
            None => None,
        };
        lemma_fit_columns(clean, hot, max_w - 1, 0, 0);
        let k = fit_chars(clean, hot, max_w - 1, 0, 0);
        assert(f == k.push('…'));
        assert(f.drop_last() =~= k);
        lemma_scan_columns(f);
        lemma_spent_nonneg(f);
        assert(total_width(f) == total_width(k) + 1);
        assert(!hot_scan(f).marked);
        assert(hot_clean(f) == hot_scan(f).clean);
        if has_amp(k) {
            let j = choose|j: int| 0 <= j < k.len() && k[j] == '&';
            assert(f[j] == '&');
            lemma_amp_spends(f, j);
        }
        lemma_seq_width_le_total(hot_clean(f));
    }
}

/// A hotkey the scan finds stands at its index in the clean text and is
/// not white space.
proof fn lemma_scan_hot(s: Seq<char>)
    ensures
        hot_scan(s).hot matches Some((i, c)) ==> 0 <= i < hot_scan(s).clean.len() && hot_scan(s).clean[i] == c
            && !is_white_space(c),
    decreases s.len(),
{
    if s.len() > 0 {
        lemma_scan_hot(s.drop_last());
        lemma_scan_bounds(s.drop_last());
    }
}

/// Without a hotkey, the kept characters of a clean text without `&` hold
/// no `&`.
proof fn lemma_fit_no_amp(clean: Seq<char>, budget: int, i: int, w: int)
    requires
        forall|k: int| 0 <= k < clean.len() ==> #[trigger] clean[k] != '&',
        0 <= i,
    ensures
        !has_amp(fit_chars(clean, None, budget, i, w)),
    decreases clean.len() - i,
{
    if i < clean.len() {
        let cw = cell_width(clean[i]);
        lemma_fit_no_amp(clean, budget, i + 1, w);
        lemma_fit_no_amp(clean, budget, i + 1, w + cw);
        let k = fit_chars(clean, None, budget, i, w);
        if cw != 0 && w + cw <= budget {
            let rest = fit_chars(clean, None, budget, i + 1, w + cw);
            assert(k == seq![clean[i]] + rest);
            assert forall|j: int| 0 <= j < k.len() implies k[j] != '&' by {
                if j > 0 {
                    assert(k[j] == rest[j - 1]);
                }
            }
        }
    }
}

/// The only `&` of `k` stands at `p`, right before the letter `l`.
pub open spec fn only_mark_at(k: Seq<char>, p: int, l: char) -> bool {
    &&& 0 <= p < k.len() - 1
    &&& k[p] == '&'
    &&& k[p + 1] == l
    &&& forall|q: int| 0 <= q < k.len() && q != p ==> #[trigger] k[q] != '&'
}

/// The only `&` of a cut clean text without `&` is the hotkey's mark, right
/// before the hotkey letter.
proof fn lemma_fit_mark(clean: Seq<char>, h: int, budget: int, i: int, w: int)
    requires
        forall|k: int| 0 <= k < clean.len() ==> #[trigger] clean[k] != '&',
        0 <= i,
        0 <= h < clean.len(),
    ensures
        ({
            let k = fit_chars(clean, Some(h), budget, i, w);
            has_amp(k) ==> exists|p: int| #[trigger] only_mark_at(k, p, clean[h])
        }),
    decreases clean.len() - i,
{
    let k = fit_chars(clean, Some(h), budget, i, w);
    if i > h {
        lemma_fit_past_hot(clean, h, budget, i, w);
        lemma_fit_no_amp(clean, budget, i, w);
    } else if i < clean.len() {
        let ch = clean[i];
        let cw = cell_width(ch);
        if cw == 0 {
            lemma_fit_mark(clean, h, budget, i + 1, w);
        } else if w + cw > budget {
        } else {
            let rest = fit_chars(clean, Some(h), budget, i + 1, w + cw);
            if i == h {
                lemma_fit_past_hot(clean, h, budget, i + 1, w + cw);
                lemma_fit_no_amp(clean, budget, i + 1, w + cw);
                assert(k == seq!['&', ch] + rest);
                assert(k[0] == '&' && k[1] == ch);
                assert forall|q: int| 0 <= q < k.len() && q != 0 implies #[trigger] k[q] != '&' by {
                    if q >= 2 {
                        assert(k[q] == rest[q - 2]);
                    }
                }
                assert(only_mark_at(k, 0, clean[h]));
            } else {
                lemma_fit_mark(clean, h, budget, i + 1, w + cw);
                assert(k == seq![ch] + rest);
                if has_amp(k) {
                    let j = choose|j: int| 0 <= j < k.len() && k[j] == '&';
                    assert(j > 0);
                    assert(rest[j - 1] == '&');
                    let p = choose|p: int| #[trigger] only_mark_at(rest, p, clean[h]);
                    assert(k[p + 1] == '&' && k[p + 2] == clean[h]);
                    assert forall|q: int| 0 <= q < k.len() && q != p + 1 implies #[trigger] k[q] != '&' by {
                        if q > 0 {
                            assert(k[q] == rest[q - 1]);
                        }
                    }
                    assert(only_mark_at(k, p + 1, clean[h]));
                }
            }
        }
    }
}

/// Scanning a text whose only `&` stands at `p`, before the letter `c`:
/// after the first `n` characters, the hotkey is `c` at index `p` once `c`
/// is read (if it is not white space), and none before.
proof fn lemma_scan_one_mark(f: Seq<char>, p: int, n: int)
    requires
        0 <= p < f.len() - 1,
        f[p] == '&',
        forall|q: int| 0 <= q < f.len() && q != p ==> #[trigger] f[q] != '&',
        0 <= n <= f.len(),
    ensures
        ({
            let st = hot_scan(f.take(n));
            &&& n <= p ==> st.hot is None && !st.marked && st.clean.len() == n
            &&& n == p + 1 ==> st.hot is None && st.marked && st.clean.len() == p
            &&& n >= p + 2 ==> !st.marked && st.hot == (if !is_white_space(f[p + 1]) {
                Some((p, f[p + 1]))
            } else {
                None
            })
        }),
    decreases n,
{
    if n > 0 {
        lemma_scan_one_mark(f, p, n - 1);
        assert(f.take(n).drop_last() =~= f.take(n - 1));
        assert(f.take(n).last() == f[n - 1]);
    } else {
        assert(f.take(0) =~= Seq::<char>::empty());
    }
}

/// The cut keeps the hotkey: when the hotkey's mark survives the cut (the
/// cut text holds an `&`), the cut text's hotkey is the same letter.
/// Stated for texts whose clean form holds no literal `&`, and whose
/// hotkey letter is not white space (always so for a marked one).
pub proof fn lemma_fit_keeps_hotkey(s: Seq<char>, max_w: int)
    requires
        max_w > 0,
        total_width(hot_clean(s)) > max_w,
        forall|k: int| 0 <= k < hot_clean(s).len() ==> #[trigger] hot_clean(s)[k] != '&',
        hot_of(s) matches Some((_, c)) && !is_white_space(c),
    ensures
        has_amp(fit_spec(s, max_w)) ==> (hot_of(fit_spec(s, max_w)) matches Some((_, c2)) && hot_of(s) matches Some((
            _,
            c,
        )) && c2 == c),
{
    let clean = hot_clean(s);
    let (h, c) = hot_of(s).unwrap();
    let st = hot_scan(s);
    lemma_scan_hot(s);
    lemma_first_alpha_bounds(clean, 0);
    if st.hot is None {
        assert(0 <= h < clean.len() && clean[h] == c);
    } else {
        assert(clean == st.clean || clean == st.clean.push('&'));
        assert(0 <= h < clean.len() && clean[h] == c);
    }
    let f = fit_spec(s, max_w);
    let k = fit_chars(clean, Some(h), max_w - 1, 0, 0);
    assert(f == k.push('…'));
    if has_amp(f) {
        let j = choose|j: int| 0 <= j < f.len() && f[j] == '&';
        assert(j < k.len());
        assert(k[j] == '&');
        lemma_fit_mark(clean, h, max_w - 1, 0, 0);
        let p = choose|p: int| #[trigger] only_mark_at(k, p, clean[h]);
        assert forall|q: int| 0 <= q < f.len() && q != p implies #[trigger] f[q] != '&' by {
            if q < k.len() {
                assert(f[q] == k[q]);
            }
        }
        assert(f[p] == '&' && f[p + 1] == c);
        lemma_scan_one_mark(f, p, f.len() as int);
        assert(f.take(f.len() as int) =~= f);
    }
}

} // verus!
