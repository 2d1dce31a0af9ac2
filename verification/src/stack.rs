//! The interpreter's operand stack: an ordered sequence of words, the
//! last-pushed word on top.
//!
//! Popping an empty stack is a defined failure (`None`), never corruption.
//! [`Stack::empty`] builds the designated empty stack; every freshly
//! constructed empty stack compares equal to it.
use crate::word::Word;
use vstd::prelude::*;

verus! {

/// A last-in-first-out sequence of [`Word`]s.  The view is the sequence of
/// words from bottom to top: the last element of the view is the top.
#[derive(Debug)]
pub struct Stack {
    words: Vec<Word>,
}

impl View for Stack {
    type V = Seq<Word>;

    closed spec fn view(&self) -> Seq<Word> {
        self.words@
    }
}

impl Stack {
    /// The empty stack.
    pub fn empty() -> (s: Stack)
        ensures
            s@ == Seq::<Word>::empty(),
    {
        Stack { words: Vec::new() }
    }

    /// How many words the stack holds.
    pub fn len(&self) -> (n: usize)
        ensures
            n == self@.len(),
    {
        self.words.len()
    }

    /// The word at position `i`, counted from the bottom.
    pub fn get(&self, i: usize) -> (w: Word)
        requires
            i < self@.len(),
        ensures
            w == self@[i as int],
    {
        self.words[i]
    }

    /// The stack with `w` pushed on top.
    pub fn push(self, w: Word) -> (r: Stack)
        ensures
            r@ == self@.push(w),
    {
        let mut words = self.words;
        words.push(w);
        Stack { words }
    }

    /// The top word (if any) and the stack below it.  An empty stack stays
    /// empty and yields `None`.
    pub fn pop(self) -> (r: (Option<Word>, Stack))
        ensures
            self@.len() == 0 ==> r.0 is None && r.1@ == self@,
            self@.len() > 0 ==> r.0 == Some(self@.last()) && r.1@ == self@.drop_last(),
    {
        let mut words = self.words;
        let top = words.pop();
        (top, Stack { words })
    }
}

impl PartialEq for Stack {
    /// Two stacks are equal iff they hold the same words in the same order.
    fn eq(&self, other: &Stack) -> (r: bool) {
        if self.words.len() != other.words.len() {
            return false;
        }
        let n = self.words.len();
        let mut i: usize = 0;
        while i < n
            invariant
                i <= n,
                n == self@.len(),
                n == other@.len(),
                forall|j: int| 0 <= j < i ==> self@[j] == other@[j],
            decreases n - i,
        {
            if self.words[i] != other.words[i] {
                return false;
            }
            i += 1;
        }
        proof {
            assert(self@ =~= other@);
        }
        true
    }
}

impl Eq for Stack {

}

impl vstd::std_specs::cmp::PartialEqSpecImpl for Stack {
    open spec fn obeys_eq_spec() -> bool {
        true
    }

    open spec fn eq_spec(&self, other: &Stack) -> bool {
        self@ == other@
    }
}

} // verus!
