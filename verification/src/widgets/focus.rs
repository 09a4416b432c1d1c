//! Focus management by scopes (`FocusManager`) and the event trait.
//!
//! * `FocusManager`: the `TabControl` is the main container. Each page
//!   declares its scope with the widgets it holds; the `Tab` cycle visits
//!   only the widgets of the ACTIVE scope. Widgets of hidden pages are out
//!   of the keyboard's reach and skipped by the cycle. By convention the
//!   scope's name is the tab's label (`TabControl::active_scope`).
//! * `HandleEvent`: an object-style entry point for key events (the pure
//!   `*_key` functions stay). The context (`EventCtx`) carries what the
//!   widget needs (visible rows for scrolling, and so on).

use vstd::prelude::*;

use crate::app::events::AppKey;
use crate::text::chars_of;

verus! {

/// Context of a key event for `HandleEvent`.
#[derive(Clone, Copy, Debug, PartialEq, Eq, Structural)]
pub struct EventCtx {
    /// Visible rows (for widgets that scroll: lists, tables, memos).
    pub visible: usize,
}

impl EventCtx {
    pub fn new(visible: usize) -> (r: Self)
        ensures
            r.visible == visible,
    {
        EventCtx { visible }
    }
}

/// Object-style entry point of events. Widgets implement it by calling
/// their pure function (`grid_key`, ...).
pub trait HandleEvent {
    /// The widget's own navigation result.
    type Out;

    fn handle_event(&mut self, ctx: &EventCtx, code: AppKey) -> Self::Out;
}

/// Scopes as texts: each name with its stops in visual order.
pub type ScopesView = Seq<(Seq<char>, Seq<usize>)>;

/// Index of the first scope named `name`, from `i` on.
pub open spec fn key_index(sc: ScopesView, name: Seq<char>, i: int) -> Option<int>
    decreases sc.len() - i,
{
    if i < 0 || i >= sc.len() {
        None
    } else if sc[i].0 == name {
        Some(i)
    } else {
        key_index(sc, name, i + 1)
    }
}

/// The stops of scope `name` (none for an unknown scope).
pub open spec fn stops_of(sc: ScopesView, name: Seq<char>) -> Seq<usize> {
    match key_index(sc, name, 0) {
        Some(i) => sc[i].1,
        None => Seq::empty(),
    }
}

/// The scopes after declaring `name` with `stops`: a scope of that name
/// is replaced, else the scope is added.
pub open spec fn insert_scope(sc: ScopesView, name: Seq<char>, stops: Seq<usize>) -> ScopesView {
    match key_index(sc, name, 0) {
        Some(i) => sc.update(i, (name, stops)),
        None => sc.push((name, stops)),
    }
}

/// First index of `c` in `list` from `i` on.
pub open spec fn first_pos(list: Seq<usize>, c: usize, i: int) -> Option<int>
    decreases list.len() - i,
{
    if i < 0 || i >= list.len() {
        None
    } else if list[i] == c {
        Some(i)
    } else {
        first_pos(list, c, i + 1)
    }
}

/// The stop at `pos`, if any.
pub open spec fn stop_at(list: Seq<usize>, pos: int) -> Option<usize> {
    if 0 <= pos < list.len() {
        Some(list[pos])
    } else {
        None
    }
}

/// Where the cursor goes in `list` when it is re-placed for stop `cur`:
/// the position of `cur` in the list, else the first, kept in the list.
pub open spec fn replace_pos(list: Seq<usize>, cur: Option<usize>) -> int {
    let p = match cur {
        Some(c) => match first_pos(list, c, 0) {
            Some(p) => p,
            None => 0,
        },
        None => 0,
    };
    if p < list.len() - 1 { p } else if list.len() > 0 { list.len() - 1 } else { 0 }
}

/// The cycle step in `list` from the stop at `pos`: the next (or the
/// previous) stop round the list, or the first when the current stop is
/// not in it. `None` for an empty list.
pub open spec fn cycle_spec(list: Seq<usize>, pos: int, forward: bool) -> Option<int> {
    let n = list.len() as int;
    if n == 0 {
        None
    } else {
        Some(
            match stop_at(list, pos) {
                Some(c) => match first_pos(list, c, 0) {
                    Some(p) => if forward { (p + 1) % n } else { (p + n - 1) % n },
                    None => 0,
                },
                None => 0,
            },
        )
    }
}

/// Scope-based focus manager. `Tab` moves only inside the active scope.
#[derive(Clone, Debug)]
pub struct FocusManager {
    /// Scope and its stops in visual order; names are distinct.
    scopes: Vec<(String, Vec<usize>)>,
    active: String,
    /// Index inside the active scope.
    pos: usize,
}

impl FocusManager {
    /// The scopes as texts.
    pub closed spec fn scopes_view(&self) -> ScopesView {
        self.scopes@.map_values(|e: (String, Vec<usize>)| (e.0@, e.1@))
    }

    /// The active scope's name.
    pub closed spec fn active_view(&self) -> Seq<char> {
        self.active@
    }

    /// The cursor inside the active scope.
    pub closed spec fn pos_view(&self) -> int {
        self.pos as int
    }

    /// The stops of the active scope.
    pub open spec fn list_view(&self) -> Seq<usize> {
        stops_of(self.scopes_view(), self.active_view())
    }
}

impl Default for FocusManager {
    fn default() -> (r: Self)
        ensures
            r.scopes_view() == Seq::<(Seq<char>, Seq<usize>)>::empty(),
            r.active_view() == Seq::<char>::empty(),
            r.pos_view() == 0,
    {
        let r = FocusManager { scopes: Vec::new(), active: String::new(), pos: 0 };
        assert(r.scopes_view() =~= Seq::<(Seq<char>, Seq<usize>)>::empty());
        r
    }
}

fn same_text(a: &str, b: &str) -> (r: bool)
    ensures
        r == (a@ == b@),
{
    let ac = chars_of(a);
    let bc = chars_of(b);
    if ac.len() != bc.len() {
        return false;
    }
    let mut i: usize = 0;
    while i < ac.len()
        invariant
            ac@ == a@,
            bc@ == b@,
            ac@.len() == bc@.len(),
            i <= ac@.len(),
            forall|j: int| 0 <= j < i ==> ac@[j] == bc@[j],
        decreases ac.len() - i,
    {
        if ac[i] != bc[i] {
            return false;
        }
        i += 1;
    }
    assert(a@ =~= b@);
    true
}

fn copy_stops(v: &Vec<usize>) -> (r: Vec<usize>)
    ensures
        r@ == v@,
{
    let mut out: Vec<usize> = Vec::new();
    let mut i: usize = 0;
    while i < v.len()
        invariant
            i <= v@.len(),
            out@ == v@.take(i as int),
        decreases v.len() - i,
    {
        out.push(v[i]);
        i += 1;
        assert(out@ =~= v@.take(i as int));
    }
    assert(v@.take(i as int) =~= v@);
    out
}

impl FocusManager {
    pub fn new() -> (r: Self)
        ensures
            r.scopes_view() == Seq::<(Seq<char>, Seq<usize>)>::empty(),
            r.active_view() == Seq::<char>::empty(),
            r.pos_view() == 0,
    {
        FocusManager::default()
    }

    fn find(&self, name: &str) -> (r: Option<usize>)
        ensures
            match r {
                Some(i) => key_index(self.scopes_view(), name@, 0) == Some(i as int) && i < self.scopes@.len(),
                None => key_index(self.scopes_view(), name@, 0) is None,
            },
    {
        let ghost sv = self.scopes_view();
        let mut i: usize = 0;
        while i < self.scopes.len()
            invariant
                sv == self.scopes_view(),
                i <= self.scopes@.len(),
                key_index(sv, name@, 0) == key_index(sv, name@, i as int),
            decreases self.scopes.len() - i,
        {
            assert(sv[i as int].0 == self.scopes@[i as int].0@);
            if same_text(self.scopes[i].0.as_str(), name) {
                return Some(i);
            }
            i += 1;
        }
        None
    }

    /// The stops of the active scope, copied.
    fn list(&self) -> (r: Vec<usize>)
        ensures
            r@ == self.list_view(),
    {
        match self.find(self.active.as_str()) {
            Some(i) => copy_stops(&self.scopes[i].1),
            None => Vec::new(),
        }
    }

    /// Declares a scope (`"General"`, `"Inventario"`, ...) with its stops;
    /// the first scope declared becomes the active one.
    pub fn add_scope(&mut self, name: &str, stops: &[usize])
        ensures
            final(self).scopes_view() == insert_scope(old(self).scopes_view(), name@, stops@),
            final(self).active_view() == if old(self).active_view().len() == 0 {
                name@
            } else {
                old(self).active_view()
            },
            final(self).pos_view() == old(self).pos_view(),
    {
        let mut sv: Vec<usize> = Vec::new();
        let mut k: usize = 0;
        while k < stops.len()
            invariant
                k <= stops@.len(),
                sv@ == stops@.take(k as int),
            decreases stops.len() - k,
        {
            sv.push(stops[k]);
            k += 1;
            assert(sv@ =~= stops@.take(k as int));
        }
        assert(stops@.take(k as int) =~= stops@);
        let ghost before = self.scopes_view();
        match self.find(name) {
            Some(i) => {
                self.scopes.set(i, (name.to_owned(), sv));
                assert(self.scopes_view() =~= before.update(i as int, (name@, stops@)));
            },
            None => {
                self.scopes.push((name.to_owned(), sv));
                assert(self.scopes_view() =~= before.push((name@, stops@)));
            },
        }
        if self.active.as_str().unicode_len() == 0 {
            self.active = name.to_owned();
        }
    }

    /// Activates a scope (typically `tabs.active_scope()`) and re-places
    /// the cursor: on the current stop if the scope has it, else on its
    /// first stop (never left on an invisible widget).
    pub fn set_active(&mut self, name: &str)
        ensures
            final(self).scopes_view() == old(self).scopes_view(),
            final(self).active_view() == name@,
            final(self).pos_view() == if key_index(old(self).scopes_view(), name@, 0) is Some {
                replace_pos(
                    stops_of(old(self).scopes_view(), name@),
                    stop_at(old(self).list_view(), old(self).pos_view()),
                )
            } else {
                0
            },
    {
        let cur = self.current();
        self.active = name.to_owned();
        match self.find(name) {
            Some(i) => {
                let list = copy_stops(&self.scopes[i].1);
                let mut p: usize = 0;
                match cur {
                    Some(c) => {
                        let mut j: usize = 0;
                        while j < list.len() && list[j] != c
                            invariant
                                j <= list@.len(),
                                first_pos(list@, c, 0) == first_pos(list@, c, j as int),
                            decreases list.len() - j,
                        {
                            j += 1;
                        }
                        if j < list.len() {
                            p = j;
                        }
                    },
                    None => {},
                }
                let n = list.len();
                self.pos = if n == 0 { 0 } else if p < n - 1 { p } else { n - 1 };
            },
            None => {
                self.pos = 0;
            },
        }
    }

    /// The active scope's name.
    pub fn active(&self) -> (r: &str)
        ensures
            r@ == self.active_view(),
    {
        self.active.as_str()
    }

    /// The current stop (if the scope is not empty).
    pub fn current(&self) -> (r: Option<usize>)
        ensures
            r == stop_at(self.list_view(), self.pos_view()),
    {
        let list = self.list();
        if self.pos < list.len() {
            Some(list[self.pos])
        } else {
            None
        }
    }

    /// Does `stop` belong to the active scope? (routing guard)
    pub fn is_focusable(&self, stop: usize) -> (r: bool)
        ensures
            r == self.list_view().contains(stop),
    {
        let list = self.list();
        let mut i: usize = 0;
        while i < list.len()
            invariant
                i <= list@.len(),
                list@ == self.list_view(),
                forall|j: int| 0 <= j < i ==> list@[j] != stop,
            decreases list.len() - i,
        {
            if list[i] == stop {
                assert(list@[i as int] == stop);
                return true;
            }
            i += 1;
        }
        false
    }

    fn cycle(&mut self, forward: bool) -> (r: Option<usize>)
        ensures
            final(self).scopes_view() == old(self).scopes_view(),
            final(self).active_view() == old(self).active_view(),
            match cycle_spec(old(self).list_view(), old(self).pos_view(), forward) {
                Some(i) => final(self).pos_view() == i && r == Some(old(self).list_view()[i]),
                None => final(self).pos_view() == old(self).pos_view() && r is None,
            },
    {
        let list = self.list();
        let n = list.len();
        if n == 0 {
            return None;
        }
        let cur = self.current();
        let mut i: usize = 0;
        match cur {
            Some(c) => {
                let mut j: usize = 0;
                while j < n && list[j] != c
                    invariant
                        n == list@.len(),
                        j <= n,
                        first_pos(list@, c, 0) == first_pos(list@, c, j as int),
                    decreases n - j,
                {
                    j += 1;
                }
                if j < n {
                    proof {
                        crate::widgets::common::lemma_mod_wrap(j + 1, n as int);
                        crate::widgets::common::lemma_mod_wrap(j + n - 1, n as int);
                    }
                    i = if forward {
                        if j + 1 == n { 0 } else { j + 1 }
                    } else {
                        if j == 0 { n - 1 } else { j - 1 }
                    };
                }
            },
            None => {},
        }
        self.pos = i;
        Some(list[i])
    }

    /// Moves on (`Tab`): only inside the active scope, round. When the
    /// current stop is not in it, goes to the first.
    pub fn cycle_next(&mut self) -> (r: Option<usize>)
        ensures
            final(self).scopes_view() == old(self).scopes_view(),
            final(self).active_view() == old(self).active_view(),
            match cycle_spec(old(self).list_view(), old(self).pos_view(), true) {
                Some(i) => final(self).pos_view() == i && r == Some(old(self).list_view()[i]),
                None => final(self).pos_view() == old(self).pos_view() && r is None,
            },
    {
        self.cycle(true)
    }

    /// Moves back: round inside the active scope.
    pub fn cycle_prev(&mut self) -> (r: Option<usize>)
        ensures
            final(self).scopes_view() == old(self).scopes_view(),
            final(self).active_view() == old(self).active_view(),
            match cycle_spec(old(self).list_view(), old(self).pos_view(), false) {
                Some(i) => final(self).pos_view() == i && r == Some(old(self).list_view()[i]),
                None => final(self).pos_view() == old(self).pos_view() && r is None,
            },
    {
        self.cycle(false)
    }
}

proof fn lemma_first_pos_found(list: Seq<usize>, c: usize, i: int)
    requires
        0 <= i,
    ensures
        match first_pos(list, c, i) {
            Some(p) => i <= p < list.len() && list[p] == c,
            None => true,
        },
    decreases list.len() - i,
{
    if i < list.len() && list[i] != c {
        lemma_first_pos_found(list, c, i + 1);
    }
}

/// The cycle never leaves the scope: the stop it lands on is a stop of
/// the list it cycles in.
pub proof fn lemma_cycle_stays_in_scope(list: Seq<usize>, pos: int, forward: bool)
    ensures
        match cycle_spec(list, pos, forward) {
            Some(i) => 0 <= i < list.len() && list.contains(list[i]),
            None => list.len() == 0,
        },
{
    if list.len() > 0 {
        let n = list.len() as int;
        match stop_at(list, pos) {
            Some(c) => {
                lemma_first_pos_found(list, c, 0);
                match first_pos(list, c, 0) {
                    Some(p) => {
                        crate::widgets::common::lemma_mod_wrap(p + 1, n);
                        crate::widgets::common::lemma_mod_wrap(p + n - 1, n);
                    },
                    None => {},
                }
            },
            None => {},
        }
        let i = cycle_spec(list, pos, forward).unwrap();
        assert(list[i] == list[i]);
    }
}

/// Switching scope never leaves the cursor on an invisible widget: in a
/// declared scope with stops, the re-placed cursor is one of its stops.
pub proof fn lemma_switch_lands_in_scope(list: Seq<usize>, cur: Option<usize>)
    requires
        list.len() > 0,
    ensures
        0 <= replace_pos(list, cur) < list.len(),
{
    match cur {
        Some(c) => {
            lemma_first_pos_found(list, c, 0);
        },
        None => {},
    }
}

/// In a list without repeats, a stop is found at its own position.
proof fn lemma_first_pos_distinct(list: Seq<usize>, p: int, i: int)
    requires
        0 <= i <= p < list.len(),
        forall|a: int, b: int| 0 <= a < b < list.len() ==> #[trigger] list[a] != #[trigger] list[b],
    ensures
        first_pos(list, list[p], i) == Some(p),
    decreases p - i,
{
    if i < p {
        assert(list[i] != list[p]);
        lemma_first_pos_distinct(list, p, i + 1);
    }
}

/// `(p + 1) % n` and `(q + n - 1) % n` undo each other on positions.
proof fn lemma_step_back(p: int, n: int)
    requires
        0 <= p < n,
    ensures
        0 <= (p + 1) % n < n,
        0 <= (p + n - 1) % n < n,
        ((p + 1) % n + n - 1) % n == p,
        ((p + n - 1) % n + 1) % n == p,
{
    crate::widgets::common::lemma_mod_wrap(p + 1, n);
    crate::widgets::common::lemma_mod_wrap(p + n - 1, n);
    let q = (p + 1) % n;
    let b = (p + n - 1) % n;
    crate::widgets::common::lemma_mod_wrap(q + n - 1, n);
    crate::widgets::common::lemma_mod_wrap(b + 1, n);
}

/// In a scope whose stops are distinct, the previous stop undoes the next
/// one and the next undoes the previous: from a cursor on a stop,
/// `cycle_next` then `cycle_prev` (or the other way round) comes back to
/// the same position.
pub proof fn lemma_cycle_back_and_forth(list: Seq<usize>, pos: int)
    requires
        0 <= pos < list.len(),
        forall|a: int, b: int| 0 <= a < b < list.len() ==> #[trigger] list[a] != #[trigger] list[b],
    ensures
        cycle_spec(list, cycle_spec(list, pos, true).unwrap(), false) == Some(pos),
        cycle_spec(list, cycle_spec(list, pos, false).unwrap(), true) == Some(pos),
{
    let n = list.len() as int;
    lemma_first_pos_distinct(list, pos, 0);
    lemma_step_back(pos, n);
    let q = (pos + 1) % n;
    let b = (pos + n - 1) % n;
    lemma_first_pos_distinct(list, q, 0);
    lemma_first_pos_distinct(list, b, 0);
}

} // verus!
