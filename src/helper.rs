//! Recognising and generating phrases of vocabulary words.
use rand::distributions::{Distribution, Uniform};
use rand::thread_rng;
use vstd::prelude::*;

use crate::text::{
    join_words, lemma_join_ends, lemma_split_join, lemma_trim_unchanged, split_on_spaces,
    split_spaces, trim,
};
use crate::vocabulary::{all_alphabetic, is_alphabetic_word, vocabulary_word, Vocabulary};

verus! {

/// The number of words in a phrase.
pub const NUM_WORDS: usize = 4;

/// `s` splits on single spaces into exactly `NUM_WORDS` tokens, each alphabetic
/// and a member of `words`.
pub open spec fn is_phrase(words: Set<Seq<char>>, s: Seq<char>) -> bool {
    let t = split_spaces(s);
    &&& t.len() == NUM_WORDS
    &&& forall|i: int|
        0 <= i < t.len() ==> all_alphabetic(#[trigger] t[i]) && words.contains(t[i])
}

/// `s` is `NUM_WORDS` words of `vocab`, joined with single spaces.
pub open spec fn joins_vocabulary_words(vocab: Seq<Seq<char>>, s: Seq<char>) -> bool {
    exists|ws: Seq<Seq<char>>|
        {
            &&& ws.len() == NUM_WORDS
            &&& forall|i: int| 0 <= i < ws.len() ==> vocab.contains(#[trigger] ws[i])
            &&& s == join_words(ws)
        }
}

/// Whether `input` has the shape of a phrase of `vocab`.
pub fn is_words(vocab: &Vocabulary, input: &str) -> (r: bool)
    requires
        vocab.wf(),
    ensures
        r == is_phrase(vocab.word_set(), input@),
{
    let tokens = split_on_spaces(input);
    if tokens.len() != NUM_WORDS {
        return false;
    }
    let mut i: usize = 0;
    while i < tokens.len()
        invariant
            vocab.wf(),
            tokens.deep_view() == split_spaces(input@),
            tokens.len() == NUM_WORDS,
            i <= tokens.len(),
            forall|k: int|
                0 <= k < i ==> all_alphabetic(#[trigger] split_spaces(input@)[k])
                    && vocab.word_set().contains(split_spaces(input@)[k]),
        decreases tokens.len() - i,
    {
        assert(tokens.deep_view()[i as int] == tokens@[i as int]@);
        if !is_alphabetic_word(tokens[i].as_str()) || !vocab.contains(tokens[i].as_str()) {
            return false;
        }
        i = i + 1;
    }
    true
}

/// Relies on rand's `Uniform::from(0..n)` sampled with `thread_rng()`: the
/// sample lies in `0..n`. `Uniform::new` panics on an empty range, so `n > 0`.
#[verifier::external_body]
fn random_index(n: usize) -> (r: usize)
    requires
        n > 0,
    ensures
        r < n,
{
    Uniform::from(0..n).sample(&mut thread_rng())
}

/// The words of `vocab` at the positions `picks`, joined with single spaces.
pub fn phrase_from_picks(vocab: &Vocabulary, picks: &Vec<usize>) -> (r: String)
    requires
        picks.len() >= 1,
        forall|k: int| 0 <= k < picks.len() ==> picks@[k] < vocab@.len(),
    ensures
        r@ == join_words(picks@.map_values(|i: usize| vocab@[i as int])),
{
    let ghost chosen = picks@.map_values(|i: usize| vocab@[i as int]);
    let mut r = vocab.word(picks[0]).clone();
    let mut k: usize = 1;
    assert(chosen.take(1) =~= seq![chosen[0]]);
    while k < picks.len()
        invariant
            1 <= k <= picks.len(),
            forall|j: int| 0 <= j < picks.len() ==> picks@[j] < vocab@.len(),
            chosen == picks@.map_values(|i: usize| vocab@[i as int]),
            r@ == join_words(chosen.take(k as int)),
        decreases picks.len() - k,
    {
        let ghost before = r@;
        r.append(" ");
        let w = vocab.word(picks[k]);
        r.append(w.as_str());
        proof {
            reveal_strlit(" ");
        }
        assert(" "@ =~= seq![' ']);
        assert(w@ == chosen[k as int]);
        assert(chosen.take(k + 1).drop_last() =~= chosen.take(k as int));
        assert(chosen.take(k + 1).last() == chosen[k as int]);
        assert(r@ == before + seq![' '] + chosen[k as int]);
        assert(r@ =~= join_words(chosen.take(k + 1)));
        k = k + 1;
    }
    assert(chosen.take(picks.len() as int) =~= chosen);
    r
}

/// Draws `NUM_WORDS` words of `vocab` uniformly at random, with replacement,
/// and joins them with single spaces.
pub fn get_words(vocab: &Vocabulary) -> (r: String)
    requires
        vocab.wf(),
    ensures
        joins_vocabulary_words(vocab@, r@),
        is_phrase(vocab.word_set(), r@),
        trim(r@) == r@,
{
    let mut picks: Vec<usize> = Vec::new();
    let mut k: usize = 0;
    while k < NUM_WORDS
        invariant
            vocab.wf(),
            k <= NUM_WORDS,
            picks.len() == k,
            forall|j: int| 0 <= j < picks.len() ==> picks@[j] < vocab@.len(),
        decreases NUM_WORDS - k,
    {
        picks.push(random_index(vocab.len()));
        k = k + 1;
    }
    let r = phrase_from_picks(vocab, &picks);
    let ghost ws = picks@.map_values(|i: usize| vocab@[i as int]);
    assert forall|i: int| 0 <= i < ws.len() implies vocab@.contains(#[trigger] ws[i]) by {
        assert(vocab@[picks@[i] as int] == ws[i]);
    }
    proof {
        lemma_generated_phrase(vocab, ws);
    }
    r
}

/// Words of a well-formed vocabulary joined with single spaces form a phrase,
/// one that trimming leaves as it is.
pub proof fn lemma_generated_phrase(vocab: &Vocabulary, ws: Seq<Seq<char>>)
    requires
        vocab.wf(),
        ws.len() == NUM_WORDS,
        forall|i: int| 0 <= i < ws.len() ==> vocab@.contains(#[trigger] ws[i]),
    ensures
        is_phrase(vocab.word_set(), join_words(ws)),
        trim(join_words(ws)) == join_words(ws),
{
    assert forall|i: int| 0 <= i < ws.len() implies vocabulary_word(#[trigger] ws[i]) by {
        let k = choose|k: int| 0 <= k < vocab@.len() && vocab@[k] == ws[i];
        assert(vocabulary_word(vocab@[k]));
    }
    assert forall|i: int, j: int| 0 <= i < ws.len() && 0 <= j < ws[i].len() implies ws[i][j]
        != ' ' by {
        assert(vocabulary_word(ws[i]));
    }
    lemma_split_join(ws);
    lemma_join_ends(ws);
    assert(vocabulary_word(ws[0]));
    assert(vocabulary_word(ws.last()));
    lemma_trim_unchanged(join_words(ws));
}

} // verus!
