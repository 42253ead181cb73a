//! The set of known words that candidate plaintexts are scored against.
use vstd::prelude::*;

use crate::text::views;

verus! {

/// A read-only list of known (lowercase) words.
pub struct Dictionary {
    words: Vec<String>,
}

impl View for Dictionary {
    type V = Seq<Seq<char>>;

    closed spec fn view(&self) -> Seq<Seq<char>> {
        views(self.words@)
    }
}

/// The number of words of `ws` that `dict` holds.
pub open spec fn known_count(ws: Seq<Seq<char>>, dict: Seq<Seq<char>>) -> nat
    decreases ws.len(),
{
    if ws.len() == 0 {
        0
    } else {
        known_count(ws.drop_last(), dict) + if dict.contains(ws.last()) {
            1nat
        } else {
            0nat
        }
    }
}

impl Dictionary {
    /// A dictionary of the given words.
    pub fn new(words: Vec<String>) -> (r: Dictionary)
        ensures
            r@ == views(words@),
    {
        Dictionary { words }
    }

    /// Whether `word` is one of the dictionary's words.
    pub fn contains(&self, word: &String) -> (r: bool)
        ensures
            r == self@.contains(word@),
    {
        for i in 0..self.words.len()
            invariant
                forall|j: int| 0 <= j < i ==> self.words@[j]@ != word@,
        {
            if self.words[i] == *word {
                assert(self@[i as int] == word@);
                return true;
            }
        }
        proof {
            if self@.contains(word@) {
                let j = choose|j: int| 0 <= j < self@.len() && self@[j] == word@;
                assert(self.words@[j]@ == word@);
            }
        }
        false
    }

    /// How many of `words` the dictionary holds, counting repeats.
    pub fn count_known_words(&self, words: &Vec<String>) -> (r: usize)
        ensures
            r == known_count(views(words@), self@),
    {
        let mut count: usize = 0;
        for i in 0..words.len()
            invariant
                count == known_count(views(words@.take(i as int)), self@),
                count <= i,
        {
            proof {
                assert(views(words@.take(i + 1)).drop_last() =~= views(words@.take(i as int)));
            }
            if self.contains(&words[i]) {
                count = count + 1;
            }
        }
        assert(words@.take(words@.len() as int) == words@);
        count
    }
}

} // verus!
