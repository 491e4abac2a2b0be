//! A last-in, first-out container.

use std::collections::VecDeque;
use vstd::prelude::*;

verus! {

/// A stack of items. All storage is delegated to a double-ended queue whose
/// front is the top of the stack.
pub struct Stack<T> {
    content: VecDeque<T>,
}

impl<T> View for Stack<T> {
    type V = Seq<T>;

    /// The items of the stack, the top one first.
    closed spec fn view(&self) -> Seq<T> {
        self.content@
    }
}

impl<T> Stack<T> {
    /// An empty stack.
    pub fn new() -> (s: Stack<T>)
        ensures
            s@ == Seq::<T>::empty(),
    {
        Stack { content: VecDeque::new() }
    }

    /// Return whether stack is empty.
    pub fn is_empty(&self) -> (b: bool)
        ensures
            b == (self@.len() == 0),
    {
        self.content.len() == 0
    }

    /// Return number of items contained in stack.
    pub fn size(&self) -> (n: usize)
        ensures
            n == self@.len(),
    {
        self.content.len()
    }

    /// Push a new item onto the stack.
    pub fn push(&mut self, item: T)
        ensures
            final(self)@ == seq![item] + old(self)@,
    {
        self.content.push_front(item);
    }

    /// Return the item on top of the stack (if any) without removing it.
    pub fn peek(&self) -> (top: Option<&T>)
        ensures
            (match top {
                Some(item) => self@.len() > 0 && *item == self@[0],
                None => self@.len() == 0,
            }),
    {
        if self.content.len() == 0 {
            None
        } else {
            Some(&self.content[0])
        }
    }

    /// Remove and return the item on top of the stack.
    pub fn pop(&mut self) -> (top: Option<T>)
        ensures
            (match top {
                Some(item) => {
                    &&& old(self)@.len() > 0
                    &&& item == old(self)@[0]
                    &&& final(self)@ == old(self)@.skip(1)
                },
                None => old(self)@.len() == 0 && final(self)@ == old(self)@,
            }),
    {
        let top = self.content.pop_front();
        proof {
            if old(self)@.len() > 0 {
                assert(self@ =~= old(self)@.skip(1));
            }
        }
        top
    }
}

/// Popping right after a push hands the pushed item back and leaves the
/// stack as it was before the push.
pub proof fn lemma_pop_undoes_push<T>(before: Seq<T>, item: T)
    ensures
        (seq![item] + before)[0] == item,
        (seq![item] + before).skip(1) == before,
{
    assert((seq![item] + before).skip(1) =~= before);
}

} // verus!
