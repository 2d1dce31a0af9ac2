//! Persistent key/value storage: a mapping from words to words.
//!
//! Any key never written reads as `Word` 0.  There is no deletion, only
//! overwrite; the map lives for a single execution run.
use crate::word::Word;
use vstd::prelude::*;

verus! {

/// The map denoted by a journal of writes, later writes shadowing earlier
/// ones.
pub open spec fn entries_map(s: Seq<(Word, Word)>) -> Map<Word, Word>
    decreases s.len(),
{
    if s.len() == 0 {
        Map::empty()
    } else {
        entries_map(s.drop_last()).insert(s.last().0, s.last().1)
    }
}

/// What a lookup in `m` yields: the stored value, or `Word` 0 for a key
/// never written.
pub open spec fn lookup(m: Map<Word, Word>, k: Word) -> Word {
    if m.dom().contains(k) {
        m[k]
    } else {
        Word { limb0: 0, limb1: 0, limb2: 0, limb3: 0 }
    }
}

/// Word-to-word storage with a zero default.  The view is the map of all
/// keys ever written to their most recent value.
#[derive(Debug)]
pub struct Storage {
    entries: Vec<(Word, Word)>,
}

impl View for Storage {
    type V = Map<Word, Word>;

    closed spec fn view(&self) -> Map<Word, Word> {
        entries_map(self.entries@)
    }
}

impl Storage {
    /// Storage with nothing written: every key reads as `Word` 0.
    pub fn new() -> (s: Storage)
        ensures
            s@ == Map::<Word, Word>::empty(),
    {
        Storage { entries: Vec::new() }
    }

    /// Write `value` under `key`, overwriting any earlier write.
    pub fn set(&mut self, key: Word, value: Word)
        ensures
            final(self)@ == old(self)@.insert(key, value),
    {
        self.entries.push((key, value));
        proof {
            assert(self.entries@.drop_last() =~= old(self).entries@);
        }
    }

    /// Read the value under `key`: the most recently written value, or
    /// `Word` 0 if `key` was never written.
    pub fn get(&self, key: Word) -> (r: Word)
        ensures
            r == lookup(self@, key),
    {
        let n = self.entries.len();
        proof {
            assert(self.entries@.take(n as int) =~= self.entries@);
        }
        let mut i: usize = n;
        while i > 0
            invariant
                i <= n,
                n == self.entries@.len(),
                lookup(entries_map(self.entries@.take(i as int)), key) == lookup(self@, key),
            decreases i,
        {
            let (k, v) = self.entries[i - 1];
            proof {
                assert(self.entries@.take(i as int).drop_last() =~= self.entries@.take(i - 1));
                assert(self.entries@.take(i as int).last() == self.entries@[i - 1]);
            }
            if k == key {
                return v;
            }
            i -= 1;
        }
        proof {
            assert(self.entries@.take(0) =~= Seq::<(Word, Word)>::empty());
        }
        Word::from_u64(0)
    }
}

} // verus!
