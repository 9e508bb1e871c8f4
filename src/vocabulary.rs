//! The fixed list of words that phrases are drawn from.
use vstd::hash_set::StringHashSet;
use vstd::prelude::*;

use crate::text::{white_space, whitespace_words, words_of};

verus! {

/// What `char::is_alphabetic` answers: the Unicode `Alphabetic` property.
pub uninterp spec fn alphabetic(c: char) -> bool;

/// Relies on `char::is_alphabetic`, whose answer depends on the character alone.
#[verifier::external_body]
fn is_alphabetic(c: char) -> (r: bool)
    ensures
        r == alphabetic(c),
{
    c.is_alphabetic()
}

/// Every character of `w` is alphabetic.
pub open spec fn all_alphabetic(w: Seq<char>) -> bool {
    forall|j: int| 0 <= j < w.len() ==> alphabetic(#[trigger] w[j])
}

/// Whether every character of `w` is alphabetic.
pub fn is_alphabetic_word(w: &str) -> (r: bool)
    ensures
        r == all_alphabetic(w@),
{
    let cs = crate::text::chars_of(w);
    let mut i: usize = 0;
    while i < cs.len()
        invariant
            cs@ == w@,
            i <= cs.len(),
            forall|j: int| 0 <= j < i ==> alphabetic(#[trigger] w@[j]),
        decreases cs.len() - i,
    {
        if !is_alphabetic(cs[i]) {
            return false;
        }
        i = i + 1;
    }
    true
}

/// A word fit for the vocabulary: non-empty, alphabetic, free of whitespace.
pub open spec fn vocabulary_word(w: Seq<char>) -> bool {
    &&& w.len() > 0
    &&& all_alphabetic(w)
    &&& forall|j: int| 0 <= j < w.len() ==> !white_space(#[trigger] w[j])
}

/// An ordered, immutable list of words with a lookup set built once.
pub struct Vocabulary {
    words: Vec<String>,
    index: StringHashSet,
}

impl View for Vocabulary {
    type V = Seq<Seq<char>>;

    closed spec fn view(&self) -> Seq<Seq<char>> {
        self.words.deep_view()
    }
}

impl Vocabulary {
    /// The words as a set, as the lookup index holds them.
    pub closed spec fn word_set(&self) -> Set<Seq<char>> {
        self.index@
    }

    pub open spec fn wf(&self) -> bool {
        &&& self@.len() > 0
        &&& forall|i: int| 0 <= i < self@.len() ==> vocabulary_word(#[trigger] self@[i])
        &&& self.word_set() == self@.to_set()
    }

    /// Reads a word list: the whitespace-separated tokens of `text`, in order.
    /// There is no vocabulary when `text` holds no token, or a token that is not
    /// alphabetic throughout.
    pub fn from_text(text: &str) -> (r: Option<Vocabulary>)
        ensures
            r is Some <==> whitespace_words(text@).len() > 0 && forall|i: int|
                0 <= i < whitespace_words(text@).len() ==> all_alphabetic(
                    #[trigger] whitespace_words(text@)[i],
                ),
            r matches Some(v) ==> v.wf() && v@ == whitespace_words(text@),
    {
        let words = words_of(text);
        if words.len() == 0 {
            return None;
        }
        let mut index = StringHashSet::new();
        let mut i: usize = 0;
        while i < words.len()
            invariant
                words.deep_view() == whitespace_words(text@),
                i <= words.len(),
                index@ == words.deep_view().take(i as int).to_set(),
                forall|k: int| 0 <= k < words.len() ==> words@[k]@.len() > 0,
                forall|k: int, j: int|
                    0 <= k < words.len() && 0 <= j < words@[k]@.len() ==> !white_space(
                        #[trigger] words@[k]@[j],
                    ),
                forall|k: int| 0 <= k < i ==> all_alphabetic(#[trigger] words@[k]@),
            decreases words.len() - i,
        {
            assert(words.deep_view()[i as int] == words@[i as int]@);
            if !is_alphabetic_word(words[i].as_str()) {
                return None;
            }
            let w = words[i].clone();
            assert(w@ == words@[i as int]@);
            index.insert(w);
            assert(words.deep_view().take(i + 1) =~= words.deep_view().take(i as int) + seq![
                words@[i as int]@,
            ]);
            proof {
                Seq::lemma_to_set_insert_commutes(words.deep_view().take(i as int), words@[i as int]@);
            }
            i = i + 1;
        }
        assert(words.deep_view().take(words.len() as int) =~= words.deep_view());
        let v = Vocabulary { words, index };
        assert forall|k: int| 0 <= k < v@.len() implies vocabulary_word(#[trigger] v@[k]) by {
            assert(v@[k] == v.words@[k]@);
        }
        Some(v)
    }

    /// The words, in their order.
    pub fn words(&self) -> (r: &Vec<String>)
        ensures
            r.deep_view() == self@,
    {
        &self.words
    }

    /// The number of words.
    pub fn len(&self) -> (r: usize)
        ensures
            r == self@.len(),
    {
        self.words.len()
    }

    /// The word at position `i`.
    pub fn word(&self, i: usize) -> (r: &String)
        requires
            i < self@.len(),
        ensures
            r@ == self@[i as int],
    {
        &self.words[i]
    }

    /// Whether `word` is one of the words; the test is case-sensitive.
    pub fn contains(&self, word: &str) -> (r: bool)
        requires
            self.wf(),
        ensures
            r == self@.contains(word@),
    {
        self.index.contains(word)
    }
}

} // verus!
