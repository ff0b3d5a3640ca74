//! The bounded LIFO of words. The last element of the view is the top.

use vstd::prelude::*;
use crate::error::VmError;
use crate::word::Word;

verus! {

/// The hard cap on stack depth.
pub const EVM_STACK_MAX_SIZE: usize = 1024;

/// A stack of words with a hard size cap.
#[derive(Clone)]
pub struct Stack {
    data: Vec<Word>,
    pub max_size: usize,
}

impl View for Stack {
    type V = Seq<Word>;

    closed spec fn view(&self) -> Seq<Word> {
        self.data@
    }
}

/// Pushing any word onto any stack and then popping restores the stack, and
/// the pop returns the pushed word: sizes return to their pre-push value.
pub proof fn lemma_push_then_pop(s: Seq<Word>, w: Word)
    ensures
        s.push(w).drop_last() == s,
        s.push(w).last() == w,
        s.push(w).len() == s.len() + 1,
{
    assert(s.push(w).drop_last() =~= s);
}

impl Stack {
    /// The size cap this stack was created with.
    pub closed spec fn cap(&self) -> nat {
        self.max_size as nat
    }

    /// An empty stack capped at `max_size` words.
    pub fn new(max_size: usize) -> (r: Stack)
        ensures
            r@ == Seq::<Word>::empty(),
            r.cap() == max_size,
    {
        Stack { data: Vec::new(), max_size }
    }

    /// Pushes a word on top, or reports overflow on a full stack.
    pub fn push(&mut self, value: Word) -> (r: Result<(), VmError>)
        ensures
            final(self).cap() == old(self).cap(),
            match r {
                Ok(()) => old(self)@.len() < old(self).cap() && final(self)@ == old(
                    self,
                )@.push(value),
                Err(e) => e == VmError::StackOverflow && old(self)@.len() >= old(self).cap()
                    && final(self)@ == old(self)@,
            },
    {
        if self.data.len() < self.max_size {
            self.data.push(value);
            Ok(())
        } else {
            Err(VmError::StackOverflow)
        }
    }

    /// Removes and returns the top word, or reports underflow when empty.
    pub fn pop(&mut self) -> (r: Result<Word, VmError>)
        ensures
            final(self).cap() == old(self).cap(),
            match r {
                Ok(w) => old(self)@.len() > 0 && w == old(self)@.last() && final(self)@ == old(
                    self,
                )@.drop_last(),
                Err(e) => e == VmError::StackUnderflow && old(self)@.len() == 0 && final(self)@
                    == old(self)@,
            },
    {
        match self.data.pop() {
            Some(x) => Ok(x),
            None => Err(VmError::StackUnderflow),
        }
    }

    /// Returns the word at depth `n` (0 is the top), or reports underflow.
    pub fn peek(&mut self, n: usize) -> (r: Result<Word, VmError>)
        ensures
            final(self)@ == old(self)@,
            final(self).cap() == old(self).cap(),
            match r {
                Ok(w) => n < old(self)@.len() && w == old(self)@[old(self)@.len() - 1 - n],
                Err(e) => e == VmError::StackUnderflow && n >= old(self)@.len(),
            },
    {
        let len = self.data.len();
        if n < len {
            Ok(self.data[len - 1 - n])
        } else {
            Err(VmError::StackUnderflow)
        }
    }

    /// Exchanges the words at depths `a` and `b` (0 is the top), or reports
    /// underflow when either depth is out of range.
    pub fn swap(&mut self, a: usize, b: usize) -> (r: Result<(), VmError>)
        ensures
            final(self).cap() == old(self).cap(),
            match r {
                Ok(()) => {
                    let len = old(self)@.len();
                    &&& a < len
                    &&& b < len
                    &&& final(self)@ == old(self)@.update(len - 1 - a, old(self)@[len - 1 - b])
                        .update(len - 1 - b, old(self)@[len - 1 - a])
                },
                Err(e) => e == VmError::StackUnderflow && (old(self)@.len() == 0 || a >= old(
                    self,
                )@.len() || b >= old(self)@.len()) && final(self)@ == old(self)@,
            },
    {
        let len = self.data.len();
        if len == 0 || a >= len || b >= len {
            return Err(VmError::StackUnderflow);
        }
        let i = len - 1 - a;
        let j = len - 1 - b;
        let vi = self.data[i];
        let vj = self.data[j];
        self.data[i] = vj;
        self.data[j] = vi;
        Ok(())
    }

    /// The number of words held.
    pub fn size(&self) -> (r: usize)
        ensures
            r == self@.len(),
    {
        self.data.len()
    }
}

impl Default for Stack {
    /// An empty stack capped at the standard 1024 words.
    fn default() -> (r: Stack)
        ensures
            r@ == Seq::<Word>::empty(),
            r.cap() == EVM_STACK_MAX_SIZE,
    {
        Stack::new(EVM_STACK_MAX_SIZE)
    }
}

} // verus!
