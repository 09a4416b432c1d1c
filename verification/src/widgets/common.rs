//! Pieces shared by the controls: the solid one-cell border, the scroll
//! that keeps a selected row in view, and the first-letter search.

use vstd::prelude::*;

use crate::engine::buffer::{Buffer, Grid};
use crate::engine::cell::Cell;
use crate::engine::rect::{Rect, sat_sub};
use crate::text::ascii_lower;

verus! {

/// The solid one-cell edge of `rect` painted with `c` (top and bottom rows,
/// left and right columns).
pub open spec fn ring(g: Grid, rect: Rect, c: Cell) -> Grid {
    g.fill(Rect { x: rect.x, y: rect.y, w: rect.w, h: 1 }, c)
        .fill(Rect { x: rect.x, y: sat_sub(rect.spec_bottom() as int, 1) as u16, w: rect.w, h: 1 }, c)
        .fill(Rect { x: rect.x, y: rect.y, w: 1, h: rect.h }, c)
        .fill(Rect { x: sat_sub(rect.spec_right() as int, 1) as u16, y: rect.y, w: 1, h: rect.h }, c)
}

/// Paints the solid edge of `rect`.
pub fn draw_ring(buf: &mut Buffer, rect: Rect, c: Cell)
    requires
        old(buf).wf(),
    ensures
        final(buf).wf(),
        final(buf)@ == ring(old(buf)@, rect, c),
{
    buf.fill_rect(Rect::new(rect.x, rect.y, rect.w, 1), c);
    buf.fill_rect(Rect::new(rect.x, rect.bottom().saturating_sub(1), rect.w, 1), c);
    buf.fill_rect(Rect::new(rect.x, rect.y, 1, rect.h), c);
    buf.fill_rect(Rect::new(rect.right().saturating_sub(1), rect.y, 1, rect.h), c);
}

/// First row shown so that row `sel` is among the `vis` rows shown from
/// `top` (scrolling as little as possible).
pub open spec fn scroll_to(sel: int, top: int, vis: int) -> int {
    if sel < top {
        sel
    } else if sel >= top + vis {
        sel + 1 - vis
    } else {
        top
    }
}

/// Computes `scroll_to`.
pub fn scroll_to_exec(sel: usize, top: usize, vis: usize) -> (r: usize)
    requires
        vis >= 1,
    ensures
        r == scroll_to(sel as int, top as int, vis as int),
{
    if sel < top {
        sel
    } else if sel - top >= vis {
        sel - (vis - 1)
    } else {
        top
    }
}

/// Whether `item` starts with `c`, compared without ASCII case.
pub open spec fn starts_with_ci(item: Seq<char>, c: char) -> bool {
    item.len() > 0 && ascii_lower(item[0]) == ascii_lower(c)
}

/// The item found by a first-letter search: the first one, going round
/// from just after `sel`, whose first letter is `c`; `None` when no item
/// matches. `k` counts the items already looked at.
pub open spec fn letter_search(items: Seq<Seq<char>>, sel: int, c: char, k: int) -> Option<int>
    decreases items.len() - k,
{
    if k >= items.len() || k < 0 {
        None
    } else {
        let i = (sel + 1 + k) % (items.len() as int);
        if starts_with_ci(items[i], c) {
            Some(i)
        } else {
            letter_search(items, sel, c, k + 1)
        }
    }
}

/// `j % n` for `0 <= j < 2n`.
pub proof fn lemma_mod_wrap(j: int, n: int)
    requires
        0 <= j < 2 * n,
    ensures
        j % n == if j < n { j } else { j - n },
{
    if j < n {
        vstd::arithmetic::div_mod::lemma_fundamental_div_mod_converse(j, n, 0, j);
    } else {
        vstd::arithmetic::div_mod::lemma_fundamental_div_mod_converse(j, n, 1, j - n);
    }
}

/// The characters of each string.
pub open spec fn strings_view(v: Seq<String>) -> Seq<Seq<char>> {
    v.map_values(|s: String| s@)
}

/// A first-letter search finds an index of the list.
pub proof fn lemma_letter_search_range(items: Seq<Seq<char>>, sel: int, c: char, k: int)
    requires
        sel >= 0,
    ensures
        letter_search(items, sel, c, k) matches Some(i) ==> 0 <= i < items.len(),
    decreases items.len() - k,
{
    if 0 <= k < items.len() {
        lemma_letter_search_range(items, sel, c, k + 1);
    }
}

/// Runs the first-letter search over `items`.
pub fn find_by_letter(items: &Vec<String>, sel: usize, c: char) -> (r: Option<usize>)
    requires
        sel < items@.len(),
    ensures
        r == (match letter_search(strings_view(items@), sel as int, c, 0) {
            Some(i) => Some(i as usize),
            None => None,
        }),
        r matches Some(i) ==> i < items@.len() && letter_search(strings_view(items@), sel as int, c, 0) == Some(i as int),
{
    proof {
        lemma_letter_search_range(strings_view(items@), sel as int, c, 0);
    }
    let n = items.len();
    let lc = crate::text::to_ascii_lower(c);
    let mut k: usize = 0;
    let mut i: usize = if sel + 1 >= n { 0 } else { sel + 1 };
    while k < n
        invariant
            n == items@.len(),
            sel < n,
            k <= n,
            i < n,
            k < n ==> i == if sel + 1 + k < n { sel + 1 + k } else { sel + 1 + k - n },
            lc == ascii_lower(c),
            letter_search(strings_view(items@), sel as int, c, 0) == letter_search(strings_view(items@), sel as int, c, k as int),
        decreases n - k,
    {
        let chars = crate::text::chars_of(items[i].as_str());
        let hit = chars.len() > 0 && crate::text::to_ascii_lower(chars[0]) == lc;
        assert(strings_view(items@)[i as int] == items@[i as int]@);
        proof {
            lemma_mod_wrap(sel + 1 + k, n as int);
        }
        if hit {
            return Some(i);
        }
        k += 1;
        i = if i + 1 >= n { 0 } else { i + 1 };
    }
    None
}

} // verus!
