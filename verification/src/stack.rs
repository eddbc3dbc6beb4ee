//! The interpreter's value stack.
//!
//! The evaluation stack of a postfix tape. It grows on demand, so a tape of
//! any depth evaluates without a capacity invariant; a well-formed tape (see
//! the interpreter) keeps it as shallow as the tree is deep.

use vstd::prelude::*;

verus! {

pub struct Stack<T> {
    pub buf: Vec<T>,
}

impl<T> View for Stack<T> {
    type V = Seq<T>;

    open spec fn view(&self) -> Seq<T> {
        self.buf@
    }
}

impl<T: Copy> Stack<T> {
    pub fn new() -> (r: Stack<T>)
        ensures
            r@ == Seq::<T>::empty(),
    {
        Stack { buf: Vec::new() }
    }

    pub fn len(&self) -> (r: usize)
        ensures
            r == self@.len(),
    {
        self.buf.len()
    }

    pub fn push(&mut self, x: T)
        ensures
            final(self)@ == old(self)@.push(x),
    {
        self.buf.push(x);
    }

    pub fn pop(&mut self) -> (r: T)
        requires
            old(self)@.len() > 0,
        ensures
            r == old(self)@.last(),
            final(self)@ == old(self)@.drop_last(),
    {
        let r = self.buf.pop();
        match r {
            Some(x) => x,
            None => unreached(),
        }
    }

    pub fn peek(&self) -> (r: T)
        requires
            self@.len() > 0,
        ensures
            r == self@.last(),
    {
        self.buf[self.buf.len() - 1]
    }
}

} // verus!
