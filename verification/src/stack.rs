use crate::error::{Error, Fault};
use crate::variable::{Value, Variable};
use vstd::prelude::*;

verus! {

/// A last-in, first-out stack of values.
#[derive(Debug)]
pub struct Stack {
    val: Vec<Variable>,
}

/// The values of `items` from the last to the first.
pub open spec fn top_down(items: Seq<Variable>) -> Seq<Value> {
    Seq::new(items.len(), |i: int| items[items.len() - 1 - i]@)
}

impl View for Stack {
    type V = Seq<Value>;

    /// The values on the stack, the top of the stack at index 0.
    closed spec fn view(&self) -> Seq<Value> {
        top_down(self.val@)
    }
}

impl Stack {
    /// An empty stack.
    pub fn new() -> (r: Stack)
        ensures
            r@ == Seq::<Value>::empty(),
    {
        let r = Stack { val: Vec::new() };
        assert(r@ =~= Seq::<Value>::empty());
        r
    }

    /// Puts `value` on top.
    pub fn push(&mut self, value: Variable)
        ensures
            final(self)@ == seq![value@] + old(self)@,
    {
        self.val.push(value);
        assert(self@ =~= seq![value@] + old(self)@);
    }

    /// Takes the top value off, or fails with `Stack` on an empty stack.
    pub fn pop(&mut self) -> (r: Result<Variable, Error>)
        ensures
            match r {
                Ok(v) => {
                    &&& old(self)@.len() > 0
                    &&& v@ == old(self)@[0]
                    &&& final(self)@ == old(self)@.drop_first()
                },
                Err(e) => {
                    &&& old(self)@.len() == 0
                    &&& e@ == Fault::Stack
                    &&& final(self)@ == old(self)@
                },
            },
    {
        match self.val.pop() {
            Some(v) => {
                assert(self@ =~= old(self)@.drop_first());
                Ok(v)
            },
            None => Err(Error::Stack),
        }
    }

    /// The value `pos` places below the top, or `Stack` if there is none.
    pub fn at(&self, pos: usize) -> (r: Result<&Variable, Error>)
        ensures
            match r {
                Ok(v) => pos < self@.len() && v@ == self@[pos as int],
                Err(e) => pos >= self@.len() && e@ == Fault::Stack,
            },
    {
        let n = self.val.len();
        if pos < n {
            Ok(&self.val[n - 1 - pos])
        } else {
            Err(Error::Stack)
        }
    }

    /// The value `pos` places below the top, to be changed in place, or
    /// `Stack` if there is none.
    pub fn at_mut(&mut self, pos: usize) -> (r: Result<&mut Variable, Error>)
        ensures
            match r {
                Ok(v) => pos < old(self)@.len() && (*v)@ == old(self)@[pos as int] && final(self)@
                    == old(self)@.update(pos as int, (*final(v))@),
                Err(e) => {
                    &&& pos >= old(self)@.len()
                    &&& e@ == Fault::Stack
                    &&& final(self)@ == old(self)@
                },
            },
    {
        let n = self.val.len();
        if pos < n {
            Ok(&mut self.val[n - 1 - pos])
        } else {
            Err(Error::Stack)
        }
    }

    /// The number of values on the stack.
    pub fn len(&self) -> (n: usize)
        ensures
            n == self@.len(),
    {
        self.val.len()
    }

    /// Walks the stack from the bottom to the top.
    pub fn iter(&self) -> (r: StackIterator<'_>)
        ensures
            r.source() == self@,
            r.position() == 0,
    {
        StackIterator { stack: self, index: 0 }
    }
}

/// A walk over a stack, from the bottom to the top.
pub struct StackIterator<'a> {
    stack: &'a Stack,
    index: usize,
}

impl<'a> StackIterator<'a> {
    /// The stack that is walked, the top at index 0.
    pub closed spec fn source(&self) -> Seq<Value> {
        self.stack@
    }

    /// The value that comes next, once there is one: the walk starts at the
    /// bottom of the stack.
    pub open spec fn upcoming(&self) -> Value {
        self.source()[self.source().len() - 1 - self.position()]
    }

    /// How many values the walk has handed out.
    pub closed spec fn position(&self) -> nat {
        self.index as nat
    }

    /// The next value from the bottom, or `None` once the top was handed out.
    pub fn next(&mut self) -> (r: Option<&'a Variable>)
        ensures
            final(self).source() == old(self).source(),
            match r {
                Some(v) => {
                    &&& old(self).position() < old(self).source().len()
                    &&& v@ == old(self).upcoming()
                    &&& final(self).position() == old(self).position() + 1
                },
                None => {
                    &&& old(self).position() >= old(self).source().len()
                    &&& final(self).position() == old(self).position()
                },
            },
    {
        if self.index < self.stack.val.len() {
            let value = &self.stack.val[self.index];
            self.index = self.index + 1;
            Some(value)
        } else {
            None
        }
    }
}

} // verus!
