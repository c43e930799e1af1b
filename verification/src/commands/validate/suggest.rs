//! What to say instead of a word the speech model has never heard of: spelling
//! fixes, compound splits, and the nearest words it does know.

use crate::ranking::{
    best, best_of, everything_is_picked_where_there_is_room, keys, nothing_better_is_left_out,
    the_best_are_few, the_best_come_first, Rank, Ranked,
};
use crate::recognition::Vocabulary;
use crate::text::{
    alphabetic, apart, apart_of, byte_len, byte_len_of, chars_of, comes_before, edit_distance,
    edit_distance_of, is_alphabetic, lower_case, lower_case_of, same_text, sorts_before,
    text_between, text_order_is_transitive, texts_are_ordered, views,
};
use crate::words::WordSet;
use vstd::prelude::*;

verus! {

/// The largest edit distance we will still call a plausible mis-hearing.
pub const MAX_SUGGESTION_DISTANCE: usize = 2;

/// How many nearest-word suggestions to offer for an unknown word.
pub const MAX_NEAREST_SUGGESTIONS: usize = 3;

/// How many compound decompositions to offer for an unknown word.
pub const MAX_SPLIT_SUGGESTIONS: usize = 2;

// --- Spelling ----------------------------------------------------------------
/// Punctuation which people paste into grammars and which the recognizer never
/// sees.
pub open spec fn punctuation(c: char) -> bool {
    c == '.' || c == ',' || c == '!' || c == '?' || c == '\'' || c == '"'
}

/// Characters without the punctuation among them.
pub open spec fn unpunctuated(chars: Seq<char>) -> Seq<char>
    decreases chars.len(),
{
    if chars.len() == 0 {
        chars
    } else if punctuation(chars.last()) {
        unpunctuated(chars.drop_last())
    } else {
        unpunctuated(chars.drop_last()).push(chars.last())
    }
}

/// How a word reaches the recognizer: in lowercase, and without punctuation.
pub open spec fn normalized(word: Seq<char>) -> Seq<char> {
    unpunctuated(lower_case(word))
}

/// How a word reaches the recognizer.
pub fn normalize(word: &str) -> (text: String)
    ensures
        text@ == normalized(word@),
{
    let chars = chars_of(lower_case_of(word).as_str());
    let mut text = String::new();
    assert(chars@.take(0) == Seq::<char>::empty());
    for i in 0..chars.len()
        invariant
            text@ == unpunctuated(chars@.take(i as int)),
    {
        assert(chars@.take(i + 1).drop_last() == chars@.take(i as int));
        let c = chars[i];
        if !(c == '.' || c == ',' || c == '!' || c == '?' || c == '\'' || c == '"') {
            text.push(c);
        }
    }
    assert(chars@.take(chars.len() as int) == chars@);
    text
}

// --- Compound splits -----------------------------------------------------------
/// A way of splitting a word in two.
#[derive(Debug, Clone, Copy, PartialEq, Eq, Structural)]
pub struct Split {
    /// How many bytes longer one half is than the other.
    pub gap: usize,
    /// How many characters the left half has.
    pub at: usize,
}

/// A [`Split`]'s rank: the most balanced first, and of two which are as
/// balanced the one with the shorter left half, whose left half is then the
/// first in the order of texts.
pub struct SplitRank {
    pub gap: nat,
    pub at: nat,
}

impl Rank for SplitRank {
    open spec fn before(self, other: SplitRank) -> bool {
        self.gap < other.gap || (self.gap == other.gap && self.at < other.at)
    }

    proof fn one_way(self, other: SplitRank) {
    }

    proof fn chained(self, middle: SplitRank, other: SplitRank) {
    }
}

impl Ranked for Split {
    type Key = SplitRank;

    open spec fn key(&self) -> SplitRank {
        SplitRank { gap: self.gap as nat, at: self.at as nat }
    }

    fn ranks_before(&self, other: &Split) -> (before: bool) {
        self.gap < other.gap || (self.gap == other.gap && self.at < other.at)
    }
}

/// How a word ranks when it is split.
pub open spec fn split_rank(word: Seq<char>, at: int) -> SplitRank {
    SplitRank {
        gap: apart(byte_len(word.take(at)), byte_len(word.skip(at))),
        at: at as nat,
    }
}

/// The ways of splitting a word, with left halves of fewer than `end`
/// characters, into two words a model knows.
pub open spec fn known_splits<V: Vocabulary>(word: Seq<char>, vocabulary: V, end: int) -> Seq<
    SplitRank,
>
    decreases end,
{
    if end <= 1 {
        Seq::empty()
    } else {
        let fewer = known_splits(word, vocabulary, end - 1);
        if vocabulary.knows(word.take(end - 1)) && vocabulary.knows(word.skip(end - 1)) {
            fewer.push(split_rank(word, end - 1))
        } else {
            fewer
        }
    }
}

/// The splits of a word worth offering, the most balanced first.
pub open spec fn offered_splits<V: Vocabulary>(word: Seq<char>, vocabulary: V) -> Seq<SplitRank> {
    best(known_splits(word, vocabulary, word.len() as int), MAX_SPLIT_SUGGESTIONS as nat)
}

/// The two halves of a word.
pub open spec fn halves(word: Seq<char>, split: SplitRank) -> (Seq<char>, Seq<char>) {
    (word.take(split.at as int), word.skip(split.at as int))
}

/// Whether a split is of its word, into two halves which are not empty and
/// which a model knows.
pub open spec fn is_known_split<V: Vocabulary>(
    word: Seq<char>,
    vocabulary: V,
    split: SplitRank,
) -> bool {
    &&& 0 < split.at < word.len()
    &&& vocabulary.knows(halves(word, split).0)
    &&& vocabulary.knows(halves(word, split).1)
}

/// Every known split is one.
proof fn lemma_splits_are_known<V: Vocabulary>(word: Seq<char>, vocabulary: V, end: int)
    requires
        end <= word.len(),
    ensures
        forall|i: int|
            0 <= i < known_splits(word, vocabulary, end).len() ==> is_known_split(
                word,
                vocabulary,
                #[trigger] known_splits(word, vocabulary, end)[i],
            ),
    decreases end,
{
    if end > 1 {
        lemma_splits_are_known(word, vocabulary, end - 1);
        let fewer = known_splits(word, vocabulary, end - 1);
        assert forall|i: int|
            0 <= i < known_splits(word, vocabulary, end).len() implies is_known_split(
            word,
            vocabulary,
            #[trigger] known_splits(word, vocabulary, end)[i],
        ) by {
            if i < fewer.len() {
                assert(known_splits(word, vocabulary, end)[i] == fewer[i]);
            }
        }
    }
}

/// Both halves of every offered split are words the model knows, and no more
/// than two splits are offered.
pub proof fn offered_splits_are_known<V: Vocabulary>(word: Seq<char>, vocabulary: V)
    ensures
        offered_splits(word, vocabulary).len() <= 2,
        forall|i: int|
            0 <= i < offered_splits(word, vocabulary).len() ==> vocabulary.knows(
                halves(word, #[trigger] offered_splits(word, vocabulary)[i]).0,
            ) && vocabulary.knows(halves(word, offered_splits(word, vocabulary)[i]).1),
{
    let all = known_splits(word, vocabulary, word.len() as int);
    the_best_are_few(all, MAX_SPLIT_SUGGESTIONS as nat);
    lemma_splits_are_known(word, vocabulary, word.len() as int);
    assert forall|i: int| 0 <= i < offered_splits(word, vocabulary).len() implies vocabulary.knows(
        halves(word, #[trigger] offered_splits(word, vocabulary)[i]).0,
    ) && vocabulary.knows(halves(word, offered_splits(word, vocabulary)[i]).1) by {
        assert(all.contains(offered_splits(word, vocabulary)[i]));
    }
}

/// The halves of the splits of a word.
pub open spec fn all_halves(word: Seq<char>, splits: Seq<SplitRank>) -> Seq<
    (Seq<char>, Seq<char>),
> {
    splits.map_values(|split: SplitRank| halves(word, split))
}

/// The characters of some pairs of texts.
pub open spec fn pair_views(pairs: Seq<(String, String)>) -> Seq<(Seq<char>, Seq<char>)> {
    pairs.map_values(|pair: (String, String)| (pair.0@, pair.1@))
}

/// Every way of splitting a word into two words the model knows, most balanced
/// first, as far as they are offered.
pub fn compound_splits<V: Vocabulary>(word: &str, vocabulary: &V) -> (splits: Vec<
    (String, String),
>)
    ensures
        pair_views(splits@) == all_halves(word@, offered_splits(word@, *vocabulary)),
{
    let chars = chars_of(word);
    let mut found: Vec<Split> = Vec::new();
    assert(keys(found@) == Seq::<SplitRank>::empty());
    if chars.len() > 1 {
        for at in 1..chars.len()
            invariant
                chars@ == word@,
                keys(found@) == known_splits(word@, *vocabulary, at as int),
        {
            let left = text_between(&chars, 0, at);
            let right = text_between(&chars, at, chars.len());
            assert(left@ == word@.take(at as int));
            assert(right@ == word@.skip(at as int));
            if vocabulary.contains(left.as_str()) && vocabulary.contains(right.as_str()) {
                let ghost before = found@;
                let gap: usize = apart_of(
                    byte_len_of(left.as_str()),
                    byte_len_of(right.as_str()),
                );
                let split = Split { gap, at };
                found.push(split);
                assert(keys(found@) == keys(before).push(split.key()));
                assert(split.key() == split_rank(word@, at as int));
            }
        }
    }
    let ghost all = known_splits(word@, *vocabulary, word@.len() as int);
    assert(keys(found@) == all);
    let picked = best_of(found, MAX_SPLIT_SUGGESTIONS);
    let ghost offered = offered_splits(word@, *vocabulary);
    proof {
        the_best_are_few(all, MAX_SPLIT_SUGGESTIONS as nat);
        lemma_splits_are_known(word@, *vocabulary, word@.len() as int);
    }
    let mut splits: Vec<(String, String)> = Vec::new();
    assert(pair_views(splits@) == all_halves(word@, offered.take(0)));
    for i in 0..picked.len()
        invariant
            chars@ == word@,
            keys(picked@) == offered,
            forall|j: int| 0 <= j < offered.len() ==> all.contains(#[trigger] offered[j]),
            forall|j: int|
                0 <= j < all.len() ==> is_known_split(word@, *vocabulary, #[trigger] all[j]),
            pair_views(splits@) == all_halves(word@, offered.take(i as int)),
    {
        assert(offered[i as int] == picked@[i as int].key());
        assert(all.contains(offered[i as int]));
        let at: usize = picked[i].at;
        let left = text_between(&chars, 0, at);
        let right = text_between(&chars, at, chars.len());
        assert(left@ == word@.take(at as int));
        assert(right@ == word@.skip(at as int));
        let ghost before = splits@;
        let pair = (left, right);
        splits.push(pair);
        assert(pair_views(splits@) == pair_views(before).push((left@, right@)));
        assert(offered.take(i + 1) == offered.take(i as int).push(offered[i as int]));
        assert(all_halves(word@, offered.take(i + 1)) == all_halves(
            word@,
            offered.take(i as int),
        ).push(halves(word@, offered[i as int])));
    }
    assert(offered.take(picked.len() as int) == offered);
    splits
}

// --- The nearest words -------------------------------------------------------------
/// Whether a person could say a symbol of a model: a word made of letters, and
/// of apostrophes and hyphens between them.
pub open spec fn sayable(symbol: Seq<char>) -> bool {
    let lowered = lower_case(symbol);
    &&& forall|i: int|
        0 <= i < symbol.len() ==> (#[trigger] symbol[i]) != '<' && symbol[i] != '>' && symbol[i]
            != '#'
    &&& forall|i: int|
        0 <= i < lowered.len() ==> alphabetic(#[trigger] lowered[i]) || lowered[i] == '\''
            || lowered[i] == '-'
    &&& exists|i: int| 0 <= i < lowered.len() && alphabetic(#[trigger] lowered[i])
}

/// Whether a person could say a symbol of a model; `lowered` is the symbol in
/// lowercase.
fn is_sayable(symbol: &str, lowered: &str) -> (is: bool)
    requires
        lowered@ == lower_case(symbol@),
    ensures
        is == sayable(symbol@),
{
    let raw = chars_of(symbol);
    for i in 0..raw.len()
        invariant
            raw@ == symbol@,
            forall|j: int|
                0 <= j < i ==> (#[trigger] symbol@[j]) != '<' && symbol@[j] != '>' && symbol@[j]
                    != '#',
    {
        if raw[i] == '<' || raw[i] == '>' || raw[i] == '#' {
            assert(symbol@[i as int] == raw@[i as int]);
            return false;
        }
    }
    let chars = chars_of(lowered);
    let mut letters: bool = false;
    for i in 0..chars.len()
        invariant
            chars@ == lowered@,
            lowered@ == lower_case(symbol@),
            forall|j: int|
                0 <= j < i ==> alphabetic(#[trigger] lowered@[j]) || lowered@[j] == '\''
                    || lowered@[j] == '-',
            letters == (exists|j: int| 0 <= j < i && alphabetic(#[trigger] lowered@[j])),
    {
        assert(lowered@[i as int] == chars@[i as int]);
        if is_alphabetic(chars[i]) {
            letters = true;
        } else if chars[i] != '\'' && chars[i] != '-' {
            return false;
        }
    }
    letters
}

/// The words of a model a person could say, in lowercase, each once and in the
/// model's order.
pub open spec fn sayable_words(symbols: Seq<Seq<char>>) -> Seq<Seq<char>>
    decreases symbols.len(),
{
    if symbols.len() == 0 {
        symbols
    } else {
        let earlier = sayable_words(symbols.drop_last());
        let lowered = lower_case(symbols.last());
        if sayable(symbols.last()) && !earlier.contains(lowered) {
            earlier.push(lowered)
        } else {
            earlier
        }
    }
}

/// Filters a model's raw symbol table down to things a person could say.
///
/// The table carries `<eps>`, `<unk>`, `#0` and other machinery alongside real
/// words; suggesting those would be worse than suggesting nothing.
pub fn nearest_candidates(words: &[String]) -> (candidates: Vec<String>)
    ensures
        views(candidates@) == sayable_words(views(words@)),
{
    let mut candidates: Vec<String> = Vec::new();
    let mut seen = WordSet::with_room(words.len());
    let ghost all = views(words@);
    assert(all.take(0) == Seq::<Seq<char>>::empty());
    assert(views(candidates@) == Seq::<Seq<char>>::empty());
    for i in 0..words.len()
        invariant
            all == views(words@),
            views(candidates@) == sayable_words(all.take(i as int)),
            seen.wf(),
            forall|word: Seq<char>| #[trigger]
                seen@.contains(word) == views(candidates@).contains(word),
    {
        assert(all.take(i + 1).drop_last() == all.take(i as int));
        assert(all.take(i + 1).last() == words@[i as int]@);
        let lowered = lower_case_of(words[i].as_str());
        if is_sayable(words[i].as_str(), lowered.as_str()) && seen.insert(lowered.as_str()) {
            let ghost before = candidates@;
            candidates.push(lowered);
            assert(views(candidates@) == views(before).push(lowered@));
            assert forall|word: Seq<char>| #[trigger]
                seen@.contains(word) == views(candidates@).contains(word) by {
                if views(before).contains(word) {
                    let k = choose|k: int| 0 <= k < before.len() && views(before)[k] == word;
                    assert(views(candidates@)[k] == word);
                }
                assert(views(candidates@)[before.len() as int] == lowered@);
            }
        }
    }
    assert(all.take(words.len() as int) == all);
    candidates
}

/// A word a model knows, and how near it is to another.
#[derive(Debug, Clone, PartialEq, Eq)]
pub struct Candidate {
    /// The edit distance between the two.
    pub distance: usize,
    /// Whether the two start with different letters.
    pub strays: bool,
    /// How many bytes longer one is than the other.
    pub gap: usize,
    /// The word itself.
    pub word: String,
}

/// A [`Candidate`]'s rank: the nearest first, then those which share the first
/// letter, then those of about the same length, then in the order of texts.
#[verifier::ext_equal]
pub struct CandidateRank {
    pub distance: nat,
    pub strays: bool,
    pub gap: nat,
    pub word: Seq<char>,
}

impl Rank for CandidateRank {
    open spec fn before(self, other: CandidateRank) -> bool {
        if self.distance != other.distance {
            self.distance < other.distance
        } else if self.strays != other.strays {
            !self.strays
        } else if self.gap != other.gap {
            self.gap < other.gap
        } else {
            sorts_before(self.word, other.word)
        }
    }

    proof fn one_way(self, other: CandidateRank) {
        texts_are_ordered(self.word, other.word);
    }

    proof fn chained(self, middle: CandidateRank, other: CandidateRank) {
        texts_are_ordered(self.word, middle.word);
        texts_are_ordered(middle.word, other.word);
        texts_are_ordered(self.word, other.word);
        if other.before(self) {
            if sorts_before(self.word, middle.word) && sorts_before(middle.word, other.word) {
                text_order_is_transitive(self.word, middle.word, other.word);
            }
        }
    }
}

impl Ranked for Candidate {
    type Key = CandidateRank;

    open spec fn key(&self) -> CandidateRank {
        CandidateRank {
            distance: self.distance as nat,
            strays: self.strays,
            gap: self.gap as nat,
            word: self.word@,
        }
    }

    fn ranks_before(&self, other: &Candidate) -> (before: bool) {
        if self.distance != other.distance {
            self.distance < other.distance
        } else if self.strays != other.strays {
            !self.strays
        } else if self.gap != other.gap {
            self.gap < other.gap
        } else {
            comes_before(self.word.as_str(), other.word.as_str())
        }
    }
}

/// The first letter of a word, where it has one.
pub open spec fn first_letter(word: Seq<char>) -> Option<char> {
    if word.len() == 0 {
        None
    } else {
        Some(word[0])
    }
}

/// How a candidate ranks for a word.
pub open spec fn candidate_rank(word: Seq<char>, candidate: Seq<char>) -> CandidateRank {
    CandidateRank {
        distance: edit_distance(word, candidate),
        strays: first_letter(candidate) != first_letter(word),
        gap: apart(byte_len(candidate), byte_len(word)),
        word: candidate,
    }
}

/// The candidates near enough to be what was meant by a word.
pub open spec fn near(word: Seq<char>, candidates: Seq<Seq<char>>) -> Seq<CandidateRank>
    decreases candidates.len(),
{
    if candidates.len() == 0 {
        Seq::empty()
    } else {
        let earlier = near(word, candidates.drop_last());
        let candidate = candidates.last();
        if candidate != word && edit_distance(word, candidate) <= MAX_SUGGESTION_DISTANCE {
            earlier.push(candidate_rank(word, candidate))
        } else {
            earlier
        }
    }
}

/// The words of some ranks.
pub open spec fn ranked_words(ranks: Seq<CandidateRank>) -> Seq<Seq<char>> {
    ranks.map_values(|rank: CandidateRank| rank.word)
}

/// The closest known words to a word, the nearest first.
pub open spec fn nearest_words(word: Seq<char>, candidates: Seq<Seq<char>>) -> Seq<Seq<char>> {
    ranked_words(best(near(word, candidates), MAX_NEAREST_SUGGESTIONS as nat))
}

/// The closest known words to a word by Levenshtein distance, preferring a
/// shared first letter, and no more than are offered.
pub fn nearest(word: &str, candidates: &[String]) -> (words: Vec<String>)
    ensures
        views(words@) == nearest_words(word@, views(candidates@)),
{
    let letters = chars_of(word);
    let mut found: Vec<Candidate> = Vec::new();
    let ghost all = views(candidates@);
    assert(all.take(0) == Seq::<Seq<char>>::empty());
    assert(keys(found@) == Seq::<CandidateRank>::empty());
    for i in 0..candidates.len()
        invariant
            letters@ == word@,
            all == views(candidates@),
            keys(found@) == near(word@, all.take(i as int)),
    {
        assert(all.take(i + 1).drop_last() == all.take(i as int));
        assert(all.take(i + 1).last() == candidates@[i as int]@);
        let candidate = candidates[i].as_str();
        if !same_text(candidate, word) {
            let distance: usize = edit_distance_of(word, candidate);
            if distance <= MAX_SUGGESTION_DISTANCE {
                let others = chars_of(candidate);
                let strays = if others.len() == 0 || letters.len() == 0 {
                    others.len() != letters.len()
                } else {
                    others[0] != letters[0]
                };
                if others.len() == 0 || letters.len() == 0 {
                    assert(strays == (first_letter(candidate@) != first_letter(word@)));
                }
                let gap: usize = apart_of(byte_len_of(candidate), byte_len_of(word));
                let ghost before = found@;
                let ranked = Candidate { distance, strays, gap, word: candidate.to_owned() };
                assert(ranked.key() =~= candidate_rank(word@, candidate@));
                found.push(ranked);
                assert(keys(found@) == keys(before).push(ranked.key()));
            }
        }
    }
    assert(all.take(candidates.len() as int) == all);
    let picked = best_of(found, MAX_NEAREST_SUGGESTIONS);
    let ghost offered = best(near(word@, all), MAX_NEAREST_SUGGESTIONS as nat);
    let mut words: Vec<String> = Vec::new();
    assert(views(words@) == ranked_words(offered.take(0)));
    for i in 0..picked.len()
        invariant
            keys(picked@) == offered,
            views(words@) == ranked_words(offered.take(i as int)),
    {
        let ghost before = words@;
        words.push(picked[i].word.clone());
        assert(offered[i as int] == picked@[i as int].key());
        assert(views(words@) == views(before).push(picked@[i as int].word@));
        assert(offered.take(i + 1) == offered.take(i as int).push(offered[i as int]));
        assert(ranked_words(offered.take(i + 1)) == ranked_words(offered.take(i as int)).push(
            offered[i as int].word,
        ));
    }
    assert(offered.take(picked.len() as int) == offered);
    words
}

/// What is near a word is a candidate, is not the word itself, and is no
/// further away than a plausible mis-hearing.
proof fn lemma_near_is_near(word: Seq<char>, candidates: Seq<Seq<char>>)
    ensures
        forall|i: int|
            0 <= i < near(word, candidates).len() ==> candidates.contains(
                (#[trigger] near(word, candidates)[i]).word,
            ) && near(word, candidates)[i].word != word && edit_distance(
                word,
                near(word, candidates)[i].word,
            ) <= 2,
    decreases candidates.len(),
{
    if candidates.len() > 0 {
        let earlier = candidates.drop_last();
        lemma_near_is_near(word, earlier);
        assert forall|i: int| 0 <= i < near(word, candidates).len() implies candidates.contains(
            (#[trigger] near(word, candidates)[i]).word,
        ) && near(word, candidates)[i].word != word && edit_distance(
            word,
            near(word, candidates)[i].word,
        ) <= 2 by {
            if i < near(word, earlier).len() {
                assert(near(word, candidates)[i] == near(word, earlier)[i]);
                let j = choose|j: int|
                    0 <= j < earlier.len() && earlier[j] == near(word, earlier)[i].word;
                assert(candidates[j] == earlier[j]);
            } else {
                assert(candidates[candidates.len() - 1] == candidates.last());
            }
        }
    }
}

/// At most three words are suggested; each of them is a candidate, is not the
/// word itself, and is within two edits of it.
pub proof fn suggested_words_are_near(word: Seq<char>, candidates: Seq<Seq<char>>)
    ensures
        nearest_words(word, candidates).len() <= 3,
        forall|i: int|
            0 <= i < nearest_words(word, candidates).len() ==> candidates.contains(
                #[trigger] nearest_words(word, candidates)[i],
            ) && nearest_words(word, candidates)[i] != word && edit_distance(
                word,
                nearest_words(word, candidates)[i],
            ) <= 2,
{
    let all = near(word, candidates);
    lemma_near_is_near(word, candidates);
    the_best_are_few(all, MAX_NEAREST_SUGGESTIONS as nat);
    assert forall|i: int| 0 <= i < nearest_words(word, candidates).len() implies candidates.contains(
        #[trigger] nearest_words(word, candidates)[i],
    ) && nearest_words(word, candidates)[i] != word && edit_distance(
        word,
        nearest_words(word, candidates)[i],
    ) <= 2 by {
        assert(all.contains(best(all, MAX_NEAREST_SUGGESTIONS as nat)[i]));
    }
}

/// A candidate which is near enough has its rank among those which are.
proof fn lemma_near_has(word: Seq<char>, candidates: Seq<Seq<char>>, i: int)
    requires
        0 <= i < candidates.len(),
        candidates[i] != word,
        edit_distance(word, candidates[i]) <= 2,
    ensures
        near(word, candidates).contains(candidate_rank(word, candidates[i])),
    decreases candidates.len(),
{
    let found = near(word, candidates);
    let rank = candidate_rank(word, candidates[i]);
    if i == candidates.len() - 1 {
        assert(found.last() == rank);
        assert(found[found.len() - 1] == rank);
    } else {
        let earlier = candidates.drop_last();
        assert(earlier[i] == candidates[i]);
        lemma_near_has(word, earlier, i);
        let k = choose|k: int| 0 <= k < near(word, earlier).len() && near(word, earlier)[k] == rank;
        assert(found[k] == rank);
    }
}

/// What ranks near a word ranks as its own word does.
proof fn lemma_near_ranks(word: Seq<char>, candidates: Seq<Seq<char>>, i: int)
    requires
        0 <= i < near(word, candidates).len(),
    ensures
        near(word, candidates)[i] == candidate_rank(word, near(word, candidates)[i].word),
    decreases candidates.len(),
{
    let earlier = candidates.drop_last();
    if i < near(word, earlier).len() {
        lemma_near_ranks(word, earlier, i);
        assert(near(word, candidates)[i] == near(word, earlier)[i]);
    }
}

/// Nothing nearer is passed over: a candidate within two edits of a word is
/// suggested, or else there is no room for it, and no suggestion is further away
/// than it is, nor, where one is as near, strays from the word's first letter
/// where it does not.
pub proof fn nothing_nearer_is_passed_over(
    word: Seq<char>,
    candidates: Seq<Seq<char>>,
    i: int,
    j: int,
)
    requires
        0 <= i < candidates.len(),
        candidates[i] != word,
        edit_distance(word, candidates[i]) <= 2,
        !nearest_words(word, candidates).contains(candidates[i]),
    ensures
        nearest_words(word, candidates).len() == 3,
        0 <= j < 3 ==> {
            let suggested = nearest_words(word, candidates)[j];
            let passed = candidates[i];
            &&& edit_distance(word, suggested) <= edit_distance(word, passed)
            &&& edit_distance(word, suggested) == edit_distance(word, passed) && first_letter(
                passed,
            ) == first_letter(word) ==> first_letter(suggested) == first_letter(word)
        },
{
    let all = near(word, candidates);
    let picked = best(all, MAX_NEAREST_SUGGESTIONS as nat);
    let rank = candidate_rank(word, candidates[i]);
    lemma_near_has(word, candidates, i);
    the_best_are_few(all, MAX_NEAREST_SUGGESTIONS as nat);
    let at = choose|at: int| 0 <= at < all.len() && all[at] == rank;
    if picked.contains(rank) {
        let k = choose|k: int| 0 <= k < picked.len() && picked[k] == rank;
        assert(nearest_words(word, candidates)[k] == candidates[i]);
    }
    if picked.len() < 3 {
        everything_is_picked_where_there_is_room(all, MAX_NEAREST_SUGGESTIONS as nat, at);
    }
    if 0 <= j < 3 {
        nothing_better_is_left_out(all, MAX_NEAREST_SUGGESTIONS as nat, at, j);
        assert(all.contains(picked[j]));
        let k = choose|k: int| 0 <= k < all.len() && all[k] == picked[j];
        lemma_near_ranks(word, candidates, k);
    }
}

/// Suggestions come in the order of their distance, the nearest first.
pub proof fn the_nearest_word_comes_first(
    word: Seq<char>,
    candidates: Seq<Seq<char>>,
    i: int,
    j: int,
)
    requires
        0 <= i < j < nearest_words(word, candidates).len(),
    ensures
        edit_distance(word, nearest_words(word, candidates)[i]) <= edit_distance(
            word,
            nearest_words(word, candidates)[j],
        ),
{
    let all = near(word, candidates);
    let picked = best(all, MAX_NEAREST_SUGGESTIONS as nat);
    the_best_are_few(all, MAX_NEAREST_SUGGESTIONS as nat);
    the_best_come_first(all, MAX_NEAREST_SUGGESTIONS as nat, i, j);
    assert(all.contains(picked[i]) && all.contains(picked[j]));
    let a = choose|a: int| 0 <= a < all.len() && all[a] == picked[i];
    let b = choose|b: int| 0 <= b < all.len() && all[b] == picked[j];
    lemma_near_ranks(word, candidates, a);
    lemma_near_ranks(word, candidates, b);
}

/// A split into two known words is among the known splits.
proof fn lemma_splits_have<V: Vocabulary>(word: Seq<char>, vocabulary: V, end: int, at: int)
    requires
        0 < at < end,
        vocabulary.knows(word.take(at)),
        vocabulary.knows(word.skip(at)),
    ensures
        known_splits(word, vocabulary, end).contains(split_rank(word, at)),
    decreases end,
{
    let found = known_splits(word, vocabulary, end);
    if at == end - 1 {
        assert(found[found.len() - 1] == split_rank(word, at));
    } else {
        lemma_splits_have(word, vocabulary, end - 1, at);
        let fewer = known_splits(word, vocabulary, end - 1);
        let k = choose|k: int| 0 <= k < fewer.len() && fewer[k] == split_rank(word, at);
        assert(found[k] == fewer[k]);
    }
}

/// A known split ranks by its own halves.
proof fn lemma_split_ranks<V: Vocabulary>(word: Seq<char>, vocabulary: V, end: int, i: int)
    requires
        0 <= i < known_splits(word, vocabulary, end).len(),
    ensures
        known_splits(word, vocabulary, end)[i] == split_rank(
            word,
            known_splits(word, vocabulary, end)[i].at as int,
        ),
    decreases end,
{
    let fewer = known_splits(word, vocabulary, end - 1);
    if i < fewer.len() {
        lemma_split_ranks(word, vocabulary, end - 1, i);
        assert(known_splits(word, vocabulary, end)[i] == fewer[i]);
    }
}

/// A word which is two known words run together is taken apart: that split is
/// offered, or else there is no room for it, and no offered one is less
/// balanced.
pub proof fn a_compound_is_taken_apart<V: Vocabulary>(
    word: Seq<char>,
    vocabulary: V,
    at: int,
    j: int,
)
    requires
        0 < at < word.len(),
        vocabulary.knows(word.take(at)),
        vocabulary.knows(word.skip(at)),
    ensures
        ({
            let offered = all_halves(word, offered_splits(word, vocabulary));
            offered.contains((word.take(at), word.skip(at))) || {
                &&& offered.len() == 2
                &&& 0 <= j < 2 ==> apart(byte_len(offered[j].0), byte_len(offered[j].1)) <= apart(
                    byte_len(word.take(at)),
                    byte_len(word.skip(at)),
                )
            }
        }),
        forall|k: int|
            0 <= k < offered_splits(word, vocabulary).len() ==> {
                let pair = #[trigger] all_halves(word, offered_splits(word, vocabulary))[k];
                pair.0 + pair.1 == word && pair.0.len() > 0 && pair.1.len() > 0
            },
{
    let all = known_splits(word, vocabulary, word.len() as int);
    let room = MAX_SPLIT_SUGGESTIONS as nat;
    let picked = best(all, room);
    let offered = all_halves(word, picked);
    let rank = split_rank(word, at);
    lemma_splits_have(word, vocabulary, word.len() as int, at);
    lemma_splits_are_known(word, vocabulary, word.len() as int);
    the_best_are_few(all, room);
    let here = choose|here: int| 0 <= here < all.len() && all[here] == rank;
    if picked.contains(rank) {
        let k = choose|k: int| 0 <= k < picked.len() && picked[k] == rank;
        assert(offered[k] == (word.take(at), word.skip(at)));
    } else {
        if all.len() <= room {
            everything_is_picked_where_there_is_room(all, room, here);
        }
        if 0 <= j < 2 {
            nothing_better_is_left_out(all, room, here, j);
            assert(all.contains(picked[j]));
            let k = choose|k: int| 0 <= k < all.len() && all[k] == picked[j];
            lemma_split_ranks(word, vocabulary, word.len() as int, k);
        }
    }
    assert forall|k: int| 0 <= k < picked.len() implies {
        let pair = #[trigger] offered[k];
        pair.0 + pair.1 == word && pair.0.len() > 0 && pair.1.len() > 0
    } by {
        assert(all.contains(picked[k]));
        let n = choose|n: int| 0 <= n < all.len() && all[n] == picked[k];
        assert(is_known_split(word, vocabulary, all[n]));
        assert(offered[k].0 + offered[k].1 =~= word);
    }
}

/// A word loses its punctuation on the way to the recognizer, and nothing else.
pub proof fn only_punctuation_is_lost(chars: Seq<char>)
    ensures
        unpunctuated(chars) == chars.filter(
            |c: char| !(c == '.' || c == ',' || c == '!' || c == '?' || c == '\'' || c == '"'),
        ),
    decreases chars.len(),
{
    reveal(Seq::filter);
    if chars.len() > 0 {
        only_punctuation_is_lost(chars.drop_last());
    }
}

/// The words which may be suggested are exactly those a model lists which a
/// person could say, in lowercase, and each of them once.
pub proof fn every_sayable_word_is_a_candidate(symbols: Seq<Seq<char>>, i: int, j: int)
    ensures
        0 <= i < symbols.len() && sayable(symbols[i]) ==> sayable_words(symbols).contains(
            lower_case(symbols[i]),
        ),
        0 <= j < sayable_words(symbols).len() ==> exists|k: int|
            0 <= k < symbols.len() && sayable(#[trigger] symbols[k]) && sayable_words(symbols)[j]
                == lower_case(symbols[k]),
        sayable_words(symbols).no_duplicates(),
    decreases symbols.len(),
{
    if symbols.len() > 0 {
        let earlier = symbols.drop_last();
        let words = sayable_words(symbols);
        let fewer = sayable_words(earlier);
        every_sayable_word_is_a_candidate(earlier, i, j);
        assert(fewer.is_prefix_of(words));
        if 0 <= i < symbols.len() && sayable(symbols[i]) {
            let lowered = lower_case(symbols[i]);
            if fewer.contains(lowered) {
                let k = choose|k: int| 0 <= k < fewer.len() && fewer[k] == lowered;
                assert(words[k] == lowered);
            } else if i < earlier.len() {
                assert(earlier[i] == symbols[i]);
            } else {
                assert(words[words.len() - 1] == lowered);
            }
        }
        if 0 <= j < words.len() {
            if j < fewer.len() {
                let k = choose|k: int|
                    0 <= k < earlier.len() && sayable(#[trigger] earlier[k]) && fewer[j]
                        == lower_case(earlier[k]);
                assert(symbols[k] == earlier[k]);
            } else {
                assert(sayable(symbols[symbols.len() - 1]));
            }
        }
        assert forall|a: int, b: int| 0 <= a < words.len() && 0 <= b < words.len() && a
            != b implies words[a] != words[b] by {
            if a < fewer.len() && b < fewer.len() {
                assert(fewer[a] != fewer[b]);
            } else if a < fewer.len() {
                assert(fewer.contains(fewer[a]));
            } else if b < fewer.len() {
                assert(fewer.contains(fewer[b]));
            }
        }
    }
}

} // verus!
