//! The dictionary of valid words, loaded once at startup and immutable
//! afterwards: the game engine only asks it for membership.

use vstd::prelude::*;

verus! {

/// The set of valid words. Its view is the set of the words' character
/// sequences; membership is all the engine ever asks of it.
#[derive(Debug)]
pub struct WordSet {
    words: Vec<String>,
}

impl WordSet {
    pub closed spec fn view(&self) -> Set<Seq<char>> {
        Set::new(|w: Seq<char>| exists|i: int| 0 <= i < self.words@.len() && self.words@[i]@ == w)
    }

    /// Builds the dictionary from the word list handed in at startup.
    pub fn new(words: Vec<String>) -> (r: WordSet)
        ensures
            r@ == Set::new(|w: Seq<char>| exists|i: int| 0 <= i < words@.len() && words@[i]@ == w),
    {
        WordSet { words }
    }

    /// Membership lookup: exactly the words handed to `new`.
    pub fn contains(&self, w: &String) -> (r: bool)
        ensures
            r == self@.contains(w@),
    {
        let n = self.words.len();
        let mut i: usize = 0;
        while i < n
            invariant
                n == self.words@.len(),
                0 <= i <= n,
                forall|j: int| 0 <= j < i ==> self.words@[j]@ != w@,
            decreases n - i,
        {
            if self.words[i] == *w {
                assert(self@.contains(w@));
                return true;
            }
            i = i + 1;
        }
        assert(!self@.contains(w@));
        false
    }
}

} // verus!
