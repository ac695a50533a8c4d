//! The history store: an ordered, append-only log of submitted lines, with
//! 1-based lookup and a clear operation. Duplicates are allowed and
//! insertion order is preserved; a line is recorded whether or not it
//! parsed.

use vstd::prelude::*;

verus! {

/// The log of past submissions, oldest first.
pub struct HistoryStore {
    entries: Vec<String>,
}

impl View for HistoryStore {
    type V = Seq<Seq<char>>;

    closed spec fn view(&self) -> Seq<Seq<char>> {
        self.entries.deep_view()
    }
}

impl HistoryStore {
    /// A session starts with an empty history.
    pub fn new() -> (h: HistoryStore)
        ensures
            h@ == Seq::<Seq<char>>::empty(),
    {
        let h = HistoryStore { entries: Vec::new() };
        proof {
            assert(h@ =~= Seq::<Seq<char>>::empty());
        }
        h
    }

    /// Appends unconditionally: no length cap, no deduplication.
    pub fn push(&mut self, entry: String)
        ensures
            final(self)@ == old(self)@.push(entry@),
    {
        self.entries.push(entry);
        proof {
            assert(final(self)@ =~= old(self)@.push(entry@));
        }
    }

    pub fn len(&self) -> (n: usize)
        ensures
            n == self@.len(),
    {
        self.entries.len()
    }

    /// All entries, oldest first.
    pub fn all(&self) -> (r: &Vec<String>)
        ensures
            r.deep_view() == self@,
    {
        &self.entries
    }

    /// The entry at a 1-based position; absent when the position is 0 or
    /// past the end. Out of range is not an error, only an empty answer.
    pub fn at(&self, index: usize) -> (r: Option<&String>)
        ensures
            1 <= index <= self@.len() ==> r is Some && r->0@ == self@[index - 1],
            !(1 <= index <= self@.len()) ==> r is None,
    {
        if 1 <= index && index <= self.entries.len() {
            Some(&self.entries[index - 1])
        } else {
            None
        }
    }

    /// Empties the log; `all` and `at` observe the emptiness immediately.
    pub fn clear(&mut self)
        ensures
            final(self)@ == Seq::<Seq<char>>::empty(),
    {
        self.entries.clear();
        proof {
            assert(final(self)@ =~= Seq::<Seq<char>>::empty());
        }
    }
}

} // verus!
