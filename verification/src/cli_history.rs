//! The in-memory prompt history of the interactive command line: the
//! last utterances, newest first, capped at a fixed depth.

use std::collections::VecDeque;
use vstd::prelude::*;

verus! {

/// A bounded, newest-first store of the user's past prompt-line
/// entries.
pub struct InMemoryHistory {
    max: usize,
    history: VecDeque<String>,
}

impl InMemoryHistory {
    /// The stored entries, newest first.
    pub closed spec fn entries(&self) -> Seq<Seq<char>> {
        self.history@.map_values(|s: String| s@)
    }

    /// How many entries the history keeps at most.
    pub closed spec fn capacity(&self) -> nat {
        self.max as nat
    }

    /// The entry at the given position, newest first; `None` past the
    /// end.
    pub fn read(&self, pos: usize) -> (r: Option<String>)
        ensures
            pos < self.entries().len() ==> (r matches Some(s) && s@ == self.entries()[pos as int]),
            pos >= self.entries().len() ==> r is None,
    {
        if pos < self.history.len() {
            Some(self.history[pos].clone())
        } else {
            None
        }
    }

    /// Puts a new entry in front; at capacity, the oldest entry falls
    /// out, so a history within its capacity stays within it.
    pub fn write(&mut self, val: String)
        ensures
            final(self).capacity() == old(self).capacity(),
            final(self).entries() == seq![val@] + (if old(self).entries().len() == old(
                self,
            ).capacity() && old(self).entries().len() > 0 {
                old(self).entries().drop_last()
            } else {
                old(self).entries()
            }),
            (old(self).entries().len() <= old(self).capacity() && old(self).capacity() > 0)
                ==> final(self).entries().len() <= final(self).capacity(),
    {
        let ghost before = self.entries();
        if self.history.len() == self.max {
            let _ = self.history.pop_back();
            proof {
                if before.len() > 0 {
                    assert(self.history@.map_values(|s: String| s@) =~= before.drop_last());
                }
            }
        }
        let ghost kept = self.entries();
        self.history.push_front(val);
        proof {
            assert(self.entries() =~= seq![val@] + kept);
        }
    }
}

impl Default for InMemoryHistory {
    /// An empty history that keeps the last twenty entries.
    fn default() -> (h: InMemoryHistory)
        ensures
            h.capacity() == 20,
            h.entries() == Seq::<Seq<char>>::empty(),
    {
        let h = InMemoryHistory { max: 20, history: VecDeque::new() };
        proof {
            assert(h.entries() =~= Seq::<Seq<char>>::empty());
        }
        h
    }
}

} // verus!
