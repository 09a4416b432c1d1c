//! Function-key bar as a model: `F2 Grabar`, `Esc Salir`.
//!
//! Joins drawing (`widgets::statusbar::fkey_bar`) and firing
//! (`match_fkey`): the application declares its keys once and the same
//! model paints and answers. `FKeyBar` is the declarative variant with a
//! quota: `cant_funcs` reserves the slots and `funcs_loads` takes the
//! actions in order.

use vstd::prelude::*;

use crate::app::events::AppKey;
use crate::engine::buffer::{Buffer, Grid};
use crate::engine::rect::sat_add;
use crate::engine::theme::Theme;
use crate::prim::icons20::{badge, fkey_badge, fkey_badge_cells};
use crate::text::{ascii_lower, chars_of, decimal, decimal_chars, str_concat, string_from_chars, to_ascii_lower};
use crate::widgets::statusbar::{FKeyStyle, fkey_bar, flat_walk, pairs_view};

verus! {

/// One key of the bar.
#[derive(Clone, Debug)]
pub struct FKeyDef {
    pub key: String,
    pub label: String,
}

impl FKeyDef {
    pub fn new(key: &str, label: &str) -> (r: Self)
        ensures
            r.key@ == key@,
            r.label@ == label@,
    {
        FKeyDef { key: key.to_owned(), label: label.to_owned() }
    }
}

/// The `(key, label)` texts of the definitions.
pub open spec fn defs_view(defs: Seq<FKeyDef>) -> Seq<(Seq<char>, Seq<char>)> {
    defs.map_values(|d: FKeyDef| (d.key@, d.label@))
}

/// Draws the bar on row `y` in the classic colours (see `fkey_bar`).
pub fn draw_fkeys(buf: &mut Buffer, y: u16, defs: &[FKeyDef], theme: Theme) -> (r: u16)
    requires
        old(buf).wf(),
    ensures
        final(buf).wf(),
        (final(buf)@, r as int) == if y >= old(buf)@.h {
            (old(buf)@, 0int)
        } else {
            let (g, cx, _) = flat_walk(
                old(buf)@,
                y as int,
                defs_view(defs@),
                FKeyStyle { key_fg: theme.button_fg, key_bg: theme.button_bg, label_fg: theme.button_fg, label_bg: theme.button_bg },
                old(buf)@.w,
                defs@.len() as int,
            );
            (g, cx)
        },
{
    let mut refs: Vec<(&str, &str)> = Vec::new();
    let mut i: usize = 0;
    while i < defs.len()
        invariant
            i <= defs@.len(),
            refs@.len() == i,
            forall|j: int| 0 <= j < i ==> #[trigger] refs@[j].0@ == defs@[j].key@ && refs@[j].1@ == defs@[j].label@,
        decreases defs.len() - i,
    {
        refs.push((defs[i].key.as_str(), defs[i].label.as_str()));
        i += 1;
    }
    assert(pairs_view(refs@) =~= defs_view(defs@));
    fkey_bar(buf, y, refs.as_slice(), theme)
}

/// `a` and `b` are equal when ASCII letters are compared without case.
pub open spec fn ascii_eq_ci(a: Seq<char>, b: Seq<char>) -> bool {
    a.len() == b.len() && forall|i: int| 0 <= i < a.len() ==> ascii_lower(#[trigger] a[i]) == ascii_lower(b[i])
}

/// The key name a key answers to: `F(n)` to `Fn`, `Esc` to `Esc`, `Enter`
/// to `Enter`; other keys answer to none.
pub open spec fn key_name(key: AppKey) -> Option<Seq<char>> {
    match key {
        AppKey::F(n) => Some(seq!['F'] + decimal(n as nat)),
        AppKey::Esc => Some(seq!['E', 's', 'c']),
        AppKey::Enter => Some(seq!['E', 'n', 't', 'e', 'r']),
        _ => None,
    }
}

/// The index of the first definition whose key names `key` (case
/// ignored), if any.
pub open spec fn fkey_match(defs: Seq<FKeyDef>, key: AppKey) -> Option<usize> {
    match key_name(key) {
        None => None,
        Some(want) => if exists|i: int| 0 <= i < defs.len() && ascii_eq_ci(#[trigger] defs[i].key@, want) {
            Some(
                (choose|i: int|
                    0 <= i < defs.len() && ascii_eq_ci(#[trigger] defs[i].key@, want) && forall|j: int|
                        0 <= j < i ==> !ascii_eq_ci(#[trigger] defs[j].key@, want)) as usize,
            )
        } else {
            None
        },
    }
}

fn eq_ci(a: &Vec<char>, b: &Vec<char>) -> (r: bool)
    ensures
        r == ascii_eq_ci(a@, b@),
{
    if a.len() != b.len() {
        return false;
    }
    let mut i: usize = 0;
    while i < a.len()
        invariant
            a@.len() == b@.len(),
            i <= a@.len(),
            forall|j: int| 0 <= j < i ==> ascii_lower(#[trigger] a@[j]) == ascii_lower(b@[j]),
        decreases a.len() - i,
    {
        if to_ascii_lower(a[i]) != to_ascii_lower(b[i]) {
            return false;
        }
        i += 1;
    }
    true
}

fn name_of(key: AppKey) -> (r: Option<Vec<char>>)
    ensures
        match (r, key_name(key)) {
            (Some(v), Some(w)) => v@ == w,
            (None, None) => true,
            _ => false,
        },
{
    match key {
        AppKey::F(n) => {
            let mut v: Vec<char> = Vec::new();
            v.push('F');
            let mut d = decimal_chars(n as u64);
            v.append(&mut d);
            Some(v)
        },
        AppKey::Esc => {
            let mut v: Vec<char> = Vec::new();
            v.push('E');
            v.push('s');
            v.push('c');
            assert(v@ =~= seq!['E', 's', 'c']);
            Some(v)
        },
        AppKey::Enter => {
            let mut v: Vec<char> = Vec::new();
            v.push('E');
            v.push('n');
            v.push('t');
            v.push('e');
            v.push('r');
            assert(v@ =~= seq!['E', 'n', 't', 'e', 'r']);
            Some(v)
        },
        _ => None,
    }
}

/// Which definition does this key fire? `F(n)` matches `"Fn"`, `Esc`
/// matches `"Esc"`, `Enter` matches `"Enter"`, case ignored; the index of
/// the first match in `defs`.
pub fn match_fkey(defs: &[FKeyDef], key: AppKey) -> (r: Option<usize>)
    ensures
        r == fkey_match(defs@, key),
{
    let want = match name_of(key) {
        Some(w) => w,
        None => {
            return None;
        },
    };
    let ghost wv = want@;
    let mut i: usize = 0;
    while i < defs.len()
        invariant
            i <= defs@.len(),
            key_name(key) == Some(wv),
            want@ == wv,
            forall|j: int| 0 <= j < i ==> !ascii_eq_ci(#[trigger] defs@[j].key@, wv),
        decreases defs.len() - i,
    {
        let kc = chars_of(defs[i].key.as_str());
        if eq_ci(&kc, &want) {
            assert(ascii_eq_ci(defs@[i as int].key@, wv));
            let ghost c = choose|k: int|
                0 <= k < defs@.len() && ascii_eq_ci(#[trigger] defs@[k].key@, wv) && forall|j: int|
                    0 <= j < k ==> !ascii_eq_ci(#[trigger] defs@[j].key@, wv);
            assert(c == i as int) by {
                if c < i {
                } else if c > i {
                    assert(!ascii_eq_ci(defs@[i as int].key@, wv));
                }
            }
            return Some(i);
        }
        i += 1;
    }
    None
}

/// A loaded slot: function number and action (`1` and `"Help"`, say). The
/// number is explicit so that gaps (`F9`, `F10`) are possible.
#[derive(Clone, Debug)]
pub struct FKeySlot {
    pub num: u8,
    pub action: String,
}

/// Loading error of `FKeyBar`: more functions than declared keys.
#[derive(Clone, Copy, Debug, PartialEq, Eq, Structural)]
pub enum FKeyError {
    /// `cant_funcs` is the declared quota, `tried` the total one tried to
    /// load.
    Overflow { cant_funcs: usize, tried: usize },
}

impl FKeyError {
    /// The error in words, naming both numbers.
    pub fn message(&self) -> (r: String)
        ensures
            r@ == "FKeyBar: "@ + decimal(self->tried as nat) + " funciones no caben en "@ + decimal(
                self->cant_funcs as nat,
            ) + " teclas declaradas"@,
    {
        match self {
            FKeyError::Overflow { cant_funcs, tried } => {
                let t = string_from_chars(&decimal_chars(*tried as u64));
                let c = string_from_chars(&decimal_chars(*cant_funcs as u64));
                let s1 = str_concat("FKeyBar: ", t.as_str());
                let s2 = str_concat(s1.as_str(), " funciones no caben en ");
                let s3 = str_concat(s2.as_str(), c.as_str());
                str_concat(s3.as_str(), " teclas declaradas")
            },
        }
    }
}

/// Declarative bar with a quota: `cant_funcs` is how many function keys
/// the programmer declares, and `funcs_loads` takes the actions in order
/// through `load`/`load_many`. Loading too many is `FKeyError::Overflow`
/// (four functions on three declared keys, say). Painted with
/// `icons20::fkey_badge`.
#[derive(Clone, Debug)]
pub struct FKeyBar {
    pub cant_funcs: usize,
    pub funcs_loads: Vec<FKeySlot>,
}

/// The `(number, action)` of each loaded slot.
pub open spec fn slots_view(s: Seq<FKeySlot>) -> Seq<(u8, Seq<char>)> {
    s.map_values(|x: FKeySlot| (x.num, x.action@))
}

/// The slots a `(number, action)` list stands for.
pub open spec fn pairs_of(s: Seq<(u8, &str)>) -> Seq<(u8, Seq<char>)> {
    s.map_values(|p: (u8, &str)| (p.0, p.1@))
}

/// The bar's walk: each slot's badge from `cx`, the cursor and the
/// running width growing by the badge's width; it stops after the badge
/// that takes the cursor to the buffer's width.
pub open spec fn bar_walk(g: Grid, y: int, slots: Seq<(u8, Seq<char>)>, theme: Theme, width: int, k: int) -> (Grid, int, int, bool)
    decreases k,
{
    if k <= 0 {
        (g, 1, 0, false)
    } else {
        let (g1, cx, w, stopped) = bar_walk(g, y, slots, theme, width, k - 1);
        if stopped {
            (g1, cx, w, true)
        } else {
            let cells = fkey_badge_cells(slots[k - 1].0, slots[k - 1].1, theme);
            let bw = sat_add(cx, cells.len() as int) - cx;
            let cx2 = sat_add(cx, bw);
            (badge(g1, cx, y, cells), cx2, sat_add(w, bw), cx2 >= width)
        }
    }
}

proof fn lemma_bar_stopped(g: Grid, y: int, slots: Seq<(u8, Seq<char>)>, theme: Theme, width: int, k0: int, k: int)
    requires
        1 <= k0 <= k,
        bar_walk(g, y, slots, theme, width, k0).3,
    ensures
        bar_walk(g, y, slots, theme, width, k) == bar_walk(g, y, slots, theme, width, k0),
    decreases k - k0,
{
    if k > k0 {
        lemma_bar_stopped(g, y, slots, theme, width, k0, k - 1);
    }
}

/// What `load` does to the slots `s` of a bar with quota `cant`: appends
/// `(num, action)`, or, when the bar is full, refuses with the quota and
/// the count it would have reached.
pub open spec fn load_next(cant: usize, s: Seq<(u8, Seq<char>)>, num: u8, action: Seq<char>) -> (Seq<(u8, Seq<char>)>, Result<(), FKeyError>) {
    if s.len() >= cant {
        (s, Err(FKeyError::Overflow { cant_funcs: cant, tried: (s.len() + 1) as usize }))
    } else {
        (s.push((num, action)), Ok(()))
    }
}

/// What `load_many` does: appends all `items` in order, or, when they do
/// not all fit, refuses with the quota and the count it would have reached
/// and appends none.
pub open spec fn load_many_next(cant: usize, s: Seq<(u8, Seq<char>)>, items: Seq<(u8, Seq<char>)>) -> (Seq<(u8, Seq<char>)>, Result<(), FKeyError>) {
    if s.len() + items.len() > cant {
        (s, Err(FKeyError::Overflow { cant_funcs: cant, tried: (s.len() + items.len()) as usize }))
    } else {
        (s + items, Ok(()))
    }
}

impl FKeyBar {
    /// Reserves the quota (`cant_funcs` keys, no action yet).
    pub fn new(cant_funcs: usize) -> (r: Self)
        ensures
            r.cant_funcs == cant_funcs,
            r.funcs_loads@.len() == 0,
    {
        FKeyBar { cant_funcs, funcs_loads: Vec::new() }
    }

    /// Adds an action in the next slot; fails, adding nothing, when the
    /// quota is full.
    pub fn load(&mut self, num: u8, action: &str) -> (r: Result<(), FKeyError>)
        requires
            old(self).funcs_loads@.len() < usize::MAX,
        ensures
            final(self).cant_funcs == old(self).cant_funcs,
            (slots_view(final(self).funcs_loads@), r) == load_next(
                old(self).cant_funcs,
                slots_view(old(self).funcs_loads@),
                num,
                action@,
            ),
            r is Err ==> final(self).funcs_loads@ == old(self).funcs_loads@,
    {
        if self.funcs_loads.len() >= self.cant_funcs {
            return Err(FKeyError::Overflow { cant_funcs: self.cant_funcs, tried: self.funcs_loads.len() + 1 });
        }
        self.funcs_loads.push(FKeySlot { num, action: action.to_owned() });
        assert(slots_view(self.funcs_loads@) =~= slots_view(old(self).funcs_loads@).push((num, action@)));
        Ok(())
    }

    /// Adds several in order; if they do not all fit, none is loaded.
    pub fn load_many(&mut self, slots: &[(u8, &str)]) -> (r: Result<(), FKeyError>)
        requires
            old(self).funcs_loads@.len() + slots@.len() <= usize::MAX,
        ensures
            final(self).cant_funcs == old(self).cant_funcs,
            (slots_view(final(self).funcs_loads@), r) == load_many_next(
                old(self).cant_funcs,
                slots_view(old(self).funcs_loads@),
                pairs_of(slots@),
            ),
            r is Err ==> final(self).funcs_loads@ == old(self).funcs_loads@,
    {
        if self.funcs_loads.len() + slots.len() > self.cant_funcs {
            return Err(
                FKeyError::Overflow { cant_funcs: self.cant_funcs, tried: self.funcs_loads.len() + slots.len() },
            );
        }
        let ghost before = slots_view(self.funcs_loads@);
        let mut i: usize = 0;
        while i < slots.len()
            invariant
                i <= slots@.len(),
                self.cant_funcs == old(self).cant_funcs,
                slots_view(self.funcs_loads@) == before + pairs_of(slots@).take(i as int),
            decreases slots.len() - i,
        {
            let (num, action) = slots[i];
            assert(pairs_of(slots@)[i as int] == (num, action@));
            let slot = FKeySlot { num, action: action.to_owned() };
            let ghost prev = self.funcs_loads@;
            self.funcs_loads.push(slot);
            assert(slots_view(self.funcs_loads@) =~= slots_view(prev).push((num, action@)));
            assert(pairs_of(slots@).take(i + 1) =~= pairs_of(slots@).take(i as int).push((num, action@)));
            i += 1;
            assert(slots_view(self.funcs_loads@) =~= before + pairs_of(slots@).take(i as int));
        }
        assert(pairs_of(slots@).take(i as int) =~= pairs_of(slots@));
        Ok(())
    }

    /// Actions loaded so far.
    pub fn len(&self) -> (r: usize)
        ensures
            r == self.funcs_loads@.len(),
    {
        self.funcs_loads.len()
    }

    /// No action loaded.
    pub fn is_empty(&self) -> (r: bool)
        ensures
            r == (self.funcs_loads@.len() == 0),
    {
        self.funcs_loads.len() == 0
    }

    /// The quota is full (the next `load` would fail).
    pub fn is_full(&self) -> (r: bool)
        ensures
            r == (self.funcs_loads@.len() >= self.cant_funcs),
    {
        self.funcs_loads.len() >= self.cant_funcs
    }

    /// Paints the slots in order from column 1 on row `y`; returns the
    /// cells the badges take (the sum of their widths).
    pub fn draw(&self, buf: &mut Buffer, y: u16, theme: Theme) -> (r: u16)
        requires
            old(buf).wf(),
        ensures
            final(buf).wf(),
            ({
                let (g, _, w, _) = bar_walk(
                    old(buf)@,
                    y as int,
                    slots_view(self.funcs_loads@),
                    theme,
                    old(buf)@.w,
                    self.funcs_loads@.len() as int,
                );
                final(buf)@ == g && r == w
            }),
    {
        let ghost g0 = buf@;
        let ghost sv = slots_view(self.funcs_loads@);
        let width = buf.width();
        let mut cx: u16 = 1;
        let mut w: u16 = 0;
        let mut i: usize = 0;
        while i < self.funcs_loads.len()
            invariant_except_break
                bar_walk(g0, y as int, sv, theme, g0.w, i as int) == (buf@, cx as int, w as int, false),
            invariant
                buf.wf(),
                i <= self.funcs_loads@.len(),
                width == g0.w,
                sv == slots_view(self.funcs_loads@),
            ensures
                buf.wf(),
                bar_walk(g0, y as int, sv, theme, g0.w, self.funcs_loads@.len() as int).0 == buf@,
                bar_walk(g0, y as int, sv, theme, g0.w, self.funcs_loads@.len() as int).2 == w,
            decreases self.funcs_loads.len() - i,
        {
            let slot = &self.funcs_loads[i];
            assert(sv[i as int] == (slot.num, slot.action@));
            let bw = fkey_badge(buf, cx, y, slot.num, slot.action.as_str(), theme);
            cx = cx.saturating_add(bw);
            w = w.saturating_add(bw);
            i += 1;
            if cx >= width {
                proof {
                    lemma_bar_stopped(g0, y as int, sv, theme, g0.w, i as int, self.funcs_loads@.len() as int);
                }
                break;
            }
        }
        w
    }
}

/// Loading `n` slots one by one into `s`: each `load` in turn, stopping
/// at the first refusal.
pub open spec fn loads(cant: usize, s: Seq<(u8, Seq<char>)>, items: Seq<(u8, Seq<char>)>) -> (Seq<(u8, Seq<char>)>, Result<(), FKeyError>)
    decreases items.len(),
{
    if items.len() == 0 {
        (s, Ok(()))
    } else {
        let (s1, r1) = load_next(cant, s, items[0].0, items[0].1);
        if r1 is Err {
            (s1, r1)
        } else {
            loads(cant, s1, items.drop_first())
        }
    }
}

/// The quota holds: a bar within its quota stays within it after a `load`
/// or a `load_many`, whatever was asked.
pub proof fn lemma_quota_kept(cant: usize, s: Seq<(u8, Seq<char>)>, num: u8, action: Seq<char>, items: Seq<(u8, Seq<char>)>)
    requires
        s.len() <= cant,
        s.len() + items.len() <= usize::MAX,
    ensures
        load_next(cant, s, num, action).0.len() <= cant,
        load_many_next(cant, s, items).0.len() <= cant,
{
}

/// `load_many` is all or nothing: it either appends every item, in order,
/// or refuses and leaves the bar as it was; and when the items fit it does
/// what loading them one by one does.
pub proof fn lemma_load_many_all_or_nothing(cant: usize, s: Seq<(u8, Seq<char>)>, items: Seq<(u8, Seq<char>)>)
    requires
        s.len() + items.len() <= usize::MAX,
    ensures
        load_many_next(cant, s, items).0 == s + items || load_many_next(cant, s, items).0 == s,
        (load_many_next(cant, s, items).1 is Ok) <==> s.len() + items.len() <= cant,
        s.len() + items.len() <= cant ==> loads(cant, s, items) == load_many_next(cant, s, items),
    decreases items.len(),
{
    if s.len() + items.len() <= cant && items.len() > 0 {
        let s1 = s.push(items[0]);
        lemma_load_many_all_or_nothing(cant, s1, items.drop_first());
        assert(s1 + items.drop_first() =~= s + items);
    }
}

} // verus!
