//! The stack of scopes that makes a span or a logger current: entering a scope
//! pushes its item, leaving it pops the item again, and the current item is
//! the one of the innermost scope.

use vstd::prelude::*;

verus! {

/// A stack of scope items, innermost last.
pub struct ScopeStack<T> {
    items: Vec<T>,
}

impl<T> View for ScopeStack<T> {
    type V = Seq<T>;

    closed spec fn view(&self) -> Seq<T> {
        self.items@
    }
}

impl<T> ScopeStack<T> {
    /// An empty stack: no scope is entered.
    pub fn new() -> (r: Self)
        ensures
            r@ == Seq::<T>::empty(),
    {
        ScopeStack { items: Vec::new() }
    }

    /// The item of the innermost scope, if any scope is entered.
    pub fn current(&self) -> (r: Option<&T>)
        ensures
            self@.len() == 0 ==> r is None,
            self@.len() > 0 ==> r == Some(&self@.last()),
    {
        let n = self.items.len();
        if n == 0 {
            None
        } else {
            Some(&self.items[n - 1])
        }
    }

    /// Enters a scope with `item`, which becomes the current item.
    pub fn enter(&mut self, item: T)
        ensures
            final(self)@ == old(self)@.push(item),
    {
        self.items.push(item);
    }

    /// Leaves the innermost scope; its item is handed back. Nothing changes
    /// when no scope is entered.
    pub fn leave(&mut self) -> (r: Option<T>)
        ensures
            old(self)@.len() == 0 ==> r is None && final(self)@ == old(self)@,
            old(self)@.len() > 0 ==> r == Some(old(self)@.last()) && final(self)@ == old(
                self,
            )@.drop_last(),
    {
        self.items.pop()
    }
}

/// Entering a scope makes its item current, and leaving it again restores
/// the stack, and with it the item that was current before.
pub proof fn lemma_leave_undoes_enter<T>(before: Seq<T>, item: T)
    ensures
        before.push(item).last() == item,
        before.push(item).drop_last() == before,
{
    assert(before.push(item).drop_last() =~= before);
}

} // verus!
