//! Focus stack: who gets the keys when layers are stacked.
//!
//! Menubar, then popup, then dialog, then form: the top rules. Closing a
//! layer is a `pop`, and the focus goes back to the one below by itself.

use vstd::prelude::*;

verus! {

/// A layer of the interface that can hold the focus.
#[derive(Clone, Copy, Debug, PartialEq, Eq, Structural)]
pub enum Layer {
    Desktop,
    MenuBar,
    Popup,
    Dialog,
    Form,
    Table,
}

/// LIFO stack of layers (the top is the focus).
#[derive(Clone, Debug)]
pub struct Focus {
    stack: Vec<Layer>,
}

impl View for Focus {
    type V = Seq<Layer>;

    closed spec fn view(&self) -> Seq<Layer> {
        self.stack@
    }
}

/// The layer on top (`Desktop` for an empty stack).
pub open spec fn top_of(s: Seq<Layer>) -> Layer {
    if s.len() == 0 {
        Layer::Desktop
    } else {
        s.last()
    }
}

/// A modal layer is open: the top is neither the desktop nor the menubar.
pub open spec fn modal(s: Seq<Layer>) -> bool {
    !(top_of(s) is Desktop || top_of(s) is MenuBar)
}

/// What `pop` leaves: the top removed, but never the last layer.
pub open spec fn popped(s: Seq<Layer>) -> Seq<Layer> {
    if s.len() > 1 {
        s.drop_last()
    } else {
        s
    }
}

/// What `pop` returns: the removed top, or `Desktop` when nothing was
/// removed.
pub open spec fn pop_result(s: Seq<Layer>) -> Layer {
    if s.len() > 1 {
        s.last()
    } else {
        Layer::Desktop
    }
}

impl Default for Focus {
    /// An empty stack (its top reads as `Desktop`).
    fn default() -> (r: Self)
        ensures
            r@ == Seq::<Layer>::empty(),
    {
        Focus { stack: Vec::new() }
    }
}

impl Focus {
    /// A stack holding only the desktop.
    pub fn new() -> (r: Self)
        ensures
            r@ == seq![Layer::Desktop],
    {
        let mut stack: Vec<Layer> = Vec::new();
        stack.push(Layer::Desktop);
        Focus { stack }
    }

    /// The layer that has the focus.
    pub fn top(&self) -> (r: Layer)
        ensures
            r == top_of(self@),
    {
        let n = self.stack.len();
        if n == 0 {
            Layer::Desktop
        } else {
            self.stack[n - 1]
        }
    }

    /// Number of stacked layers.
    pub fn depth(&self) -> (r: usize)
        ensures
            r == self@.len(),
    {
        self.stack.len()
    }

    /// Puts `layer` on top.
    pub fn push(&mut self, layer: Layer)
        ensures
            final(self)@ == old(self)@.push(layer),
    {
        self.stack.push(layer);
    }

    /// Removes the top. Never empties the stack: with one layer left it
    /// stays, and `Desktop` is returned.
    pub fn pop(&mut self) -> (r: Layer)
        ensures
            final(self)@ == popped(old(self)@),
            r == pop_result(old(self)@),
    {
        if self.stack.len() > 1 {
            match self.stack.pop() {
                Some(l) => l,
                None => Layer::Desktop,
            }
        } else {
            Layer::Desktop
        }
    }

    /// Is a modal layer open over the desktop?
    pub fn is_modal(&self) -> (r: bool)
        ensures
            r == modal(self@),
    {
        match self.top() {
            Layer::Desktop | Layer::MenuBar => false,
            _ => true,
        }
    }
}

/// Closing what was opened gives the focus back: on a stack with at least
/// one layer, a `push` followed by a `pop` returns the pushed layer and
/// leaves the stack as it was.
pub proof fn lemma_push_pop_restores(s: Seq<Layer>, l: Layer)
    requires
        s.len() >= 1,
    ensures
        pop_result(s.push(l)) == l,
        popped(s.push(l)) == s,
{
    assert(s.push(l).drop_last() =~= s);
}

/// `pop` never takes the stack below one layer: a stack with a layer keeps
/// at least one, and the depth drops by one exactly when more than one was
/// there.
pub proof fn lemma_pop_keeps_a_layer(s: Seq<Layer>)
    ensures
        s.len() >= 1 ==> popped(s).len() >= 1,
        popped(s).len() == if s.len() > 1 { s.len() - 1 } else { s.len() as int },
        popped(s).len() <= 1 ==> top_of(popped(popped(s))) == top_of(popped(s)),
{
}

} // verus!
