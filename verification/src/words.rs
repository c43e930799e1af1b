//! A set of words which is quick to look words up in.

use crate::text::{chars_of, is_among, views};
use vstd::prelude::*;

verus! {

/// A number which stands for a word, though not for that word alone.
pub open spec fn code(word: Seq<char>) -> nat
    decreases word.len(),
{
    if word.len() == 0 {
        0
    } else {
        ((code(word.drop_last()) * 31 + word.last() as u32) % 0x1_0000_0000) as nat
    }
}

/// A number which stands for a word, though not for that word alone.
fn code_of(word: &str) -> (number: u64)
    ensures
        number == code(word@),
{
    let chars = chars_of(word);
    let mut number: u64 = 0;
    assert(word@.take(0) == Seq::<char>::empty());
    for i in 0..chars.len()
        invariant
            chars@ == word@,
            number == code(word@.take(i as int)),
            number < 0x1_0000_0000,
    {
        assert(word@.take(i + 1).drop_last() == word@.take(i as int));
        let c: u32 = chars[i] as u32;
        number = (number * 31 + c as u64) % 0x1_0000_0000;
    }
    assert(word@.take(chars.len() as int) == word@);
    number
}

/// A set of words, spread over shelves by the number each stands for.
pub struct WordSet {
    shelves: Vec<Vec<String>>,
}

impl View for WordSet {
    type V = Set<Seq<char>>;

    closed spec fn view(&self) -> Set<Seq<char>> {
        Set::new(|word: Seq<char>| views(self.shelf(word)).contains(word))
    }
}

impl WordSet {
    /// The shelf a word belongs on.
    spec fn shelf(&self, word: Seq<char>) -> Seq<String> {
        self.shelves@[(code(word) % self.shelves@.len()) as int]@
    }

    /// There is a shelf.
    pub closed spec fn wf(&self) -> bool {
        self.shelves@.len() > 0
    }

    /// An empty set, with room for some words to stand apart.
    pub fn with_room(words: usize) -> (set: WordSet)
        ensures
            set.wf(),
            set@ == Set::<Seq<char>>::empty(),
    {
        let mut shelves: Vec<Vec<String>> = Vec::new();
        shelves.push(Vec::new());
        for i in 0..words
            invariant
                shelves@.len() == i + 1,
                forall|j: int| 0 <= j <= i ==> (#[trigger] shelves@[j])@.len() == 0,
        {
            shelves.push(Vec::new());
        }
        let set = WordSet { shelves };
        assert(set@ =~= Set::<Seq<char>>::empty());
        set
    }

    /// Adds a word, and says whether it is new.
    pub fn insert(&mut self, word: &str) -> (new: bool)
        requires
            old(self).wf(),
        ensures
            final(self).wf(),
            final(self)@ == old(self)@.insert(word@),
            new == !old(self)@.contains(word@),
    {
        let number: u64 = code_of(word);
        let at: usize = (number % self.shelves.len() as u64) as usize;
        if is_among(self.shelves[at].as_slice(), word) {
            assert(self@.insert(word@) =~= self@);
            return false;
        }
        let ghost before = self.shelves@[at as int]@;
        self.shelves[at].push(word.to_owned());
        let ghost after = self.shelves@[at as int]@;
        assert(views(after) == views(before).push(word@));
        assert(final(self)@ =~= old(self)@.insert(word@)) by {
            assert forall|other: Seq<char>|
                views(after).contains(other) == (views(before).contains(other) || other
                    == word@) by {
                if views(before).contains(other) {
                    let i = choose|i: int| 0 <= i < before.len() && views(before)[i] == other;
                    assert(views(after)[i] == other);
                }
                assert(views(after)[before.len() as int] == word@);
            }
        }
        true
    }
}

} // verus!
