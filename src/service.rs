//! Resolution of a query: a phrase is looked up, anything else is registered
//! under a freshly drawn phrase.
use vstd::prelude::*;
use vstd::string::*;

use crate::db::{
    latest_row, lookup_result, result_view, rows_view, MemoryStore, ResolveError, WordMap,
};
use crate::helper::{get_words, is_phrase, is_words, joins_vocabulary_words, lemma_generated_phrase};
use crate::text::{join_words, trim, trim_str};
use crate::vocabulary::Vocabulary;

verus! {

/// What a query asks for.
pub enum Query {
    /// The trimmed query has the shape of a phrase: look it up.
    PhraseLookup(String),
    /// Anything else: register the trimmed query as a link.
    NewLink(String),
}

/// Classifies `input` once trimmed. An empty query is a `Validation` error;
/// one of `NUM_WORDS` alphabetic vocabulary words separated by single spaces is
/// a phrase lookup; anything else is a new link, spaces and all.
pub fn classify(vocab: &Vocabulary, input: &str) -> (r: Result<Query, ResolveError>)
    requires
        vocab.wf(),
    ensures
        match r {
            Ok(Query::PhraseLookup(p)) => {
                &&& trim(input@).len() > 0
                &&& is_phrase(vocab.word_set(), trim(input@))
                &&& p@ == trim(input@)
            },
            Ok(Query::NewLink(v)) => {
                &&& trim(input@).len() > 0
                &&& !is_phrase(vocab.word_set(), trim(input@))
                &&& v@ == trim(input@)
            },
            Err(e) => e == ResolveError::Validation && trim(input@).len() == 0,
        },
{
    let query = trim_str(input);
    if query.unicode_len() == 0 {
        return Err(ResolveError::Validation);
    }
    if is_words(vocab, query) {
        Ok(Query::PhraseLookup(String::from_str(query)))
    } else {
        Ok(Query::NewLink(String::from_str(query)))
    }
}

/// The store operation that a query needs.
pub enum StoreRequest {
    /// Fetch the rows stored under this phrase.
    Lookup(String),
    /// Write this mapping as a new row.
    Insert(WordMap),
}

/// What the store answered: the rows it returned, or that it failed.
pub enum StoreOutcome {
    Rows(Vec<WordMap>),
    Unavailable,
}

/// Decides the store operation for `input`: a lookup of a phrase, or the
/// insertion of the trimmed input under a phrase drawn from `vocab`.
pub fn plan(vocab: &Vocabulary, input: &str) -> (r: Result<StoreRequest, ResolveError>)
    requires
        vocab.wf(),
    ensures
        match r {
            Ok(StoreRequest::Lookup(p)) => {
                &&& trim(input@).len() > 0
                &&& is_phrase(vocab.word_set(), trim(input@))
                &&& p@ == trim(input@)
            },
            Ok(StoreRequest::Insert(m)) => {
                &&& trim(input@).len() > 0
                &&& !is_phrase(vocab.word_set(), trim(input@))
                &&& m.link@ == trim(input@)
                &&& joins_vocabulary_words(vocab@, m.words@)
                &&& is_phrase(vocab.word_set(), m.words@)
            },
            Err(e) => e == ResolveError::Validation && trim(input@).len() == 0,
        },
{
    match classify(vocab, input) {
        Err(e) => Err(e),
        Ok(Query::PhraseLookup(p)) => Ok(StoreRequest::Lookup(p)),
        Ok(Query::NewLink(v)) => {
            let words = get_words(vocab);
            Ok(StoreRequest::Insert(WordMap { words, link: v }))
        },
    }
}

/// The answer to a request, given what the store returned. A lookup answers
/// the most recent returned row with the phrase, or `NotFound`; an insertion
/// answers the row as the store returned it, not the local copy; a store that
/// failed, or an insertion that returned no row, gives `Store`.
pub fn finish(request: &StoreRequest, outcome: &StoreOutcome) -> (r: Result<WordMap, ResolveError>)
    ensures
        match (request, outcome) {
            (_, StoreOutcome::Unavailable) => r == Err::<WordMap, ResolveError>(
                ResolveError::Store,
            ),
            (StoreRequest::Lookup(p), StoreOutcome::Rows(rows)) => result_view(r)
                == lookup_result(rows_view(rows@), p@),
            (StoreRequest::Insert(_), StoreOutcome::Rows(rows)) => if rows.len() == 0 {
                r == Err::<WordMap, ResolveError>(ResolveError::Store)
            } else {
                result_view(r) == Ok::<(Seq<char>, Seq<char>), ResolveError>(rows@.last()@)
            },
        },
{
    match outcome {
        StoreOutcome::Unavailable => Err(ResolveError::Store),
        StoreOutcome::Rows(rows) => match request {
            StoreRequest::Lookup(p) => latest_row(rows, p.as_str()),
            StoreRequest::Insert(_) => {
                if rows.len() == 0 {
                    Err(ResolveError::Store)
                } else {
                    Ok(rows[rows.len() - 1].duplicate())
                }
            },
        },
    }
}

/// What one resolution of `input` may do to a store holding `before`, leaving
/// `after` and answering `r`, with a vocabulary of words `vocab` (as a set,
/// `words`).
pub open spec fn resolves(
    words: Set<Seq<char>>,
    vocab: Seq<Seq<char>>,
    before: Seq<(Seq<char>, Seq<char>)>,
    input: Seq<char>,
    r: Result<(Seq<char>, Seq<char>), ResolveError>,
    after: Seq<(Seq<char>, Seq<char>)>,
) -> bool {
    let t = trim(input);
    if t.len() == 0 {
        r == Err::<(Seq<char>, Seq<char>), ResolveError>(ResolveError::Validation) && after == before
    } else if is_phrase(words, t) {
        after == before && r == lookup_result(before, t)
    } else {
        &&& r is Ok
        &&& r->Ok_0.1 == t
        &&& joins_vocabulary_words(vocab, r->Ok_0.0)
        &&& is_phrase(words, r->Ok_0.0)
        &&& after == before.push(r->Ok_0)
    }
}

impl MemoryStore {
    /// Resolves `input` against this store: a phrase is looked up and leaves
    /// the store as it is; anything else non-empty is stored under a new
    /// phrase and the stored mapping is returned. A link registered twice gets
    /// a phrase each time: earlier registrations are not searched.
    pub fn resolve(&mut self, vocab: &Vocabulary, input: &str) -> (r: Result<
        WordMap,
        ResolveError,
    >)
        requires
            vocab.wf(),
        ensures
            resolves(vocab.word_set(), vocab@, old(self)@, input@, result_view(r), final(self)@),
    {
        match plan(vocab, input) {
            Err(e) => Err(e),
            Ok(StoreRequest::Lookup(p)) => self.lookup(p.as_str()),
            Ok(StoreRequest::Insert(m)) => Ok(self.insert(&m)),
        }
    }
}

/// Round trip: once `link` has been registered (it is no phrase) and answered
/// with a mapping, resolving that mapping's phrase answers the same mapping,
/// whose link is `link` trimmed, and leaves the store as it is.
pub proof fn lemma_round_trip(
    vocab: &Vocabulary,
    rows0: Seq<(Seq<char>, Seq<char>)>,
    link: Seq<char>,
    r1: Result<(Seq<char>, Seq<char>), ResolveError>,
    rows1: Seq<(Seq<char>, Seq<char>)>,
    r2: Result<(Seq<char>, Seq<char>), ResolveError>,
    rows2: Seq<(Seq<char>, Seq<char>)>,
)
    requires
        vocab.wf(),
        trim(link).len() > 0,
        !is_phrase(vocab.word_set(), trim(link)),
        resolves(vocab.word_set(), vocab@, rows0, link, r1, rows1),
        r1 is Ok,
        resolves(vocab.word_set(), vocab@, rows1, r1->Ok_0.0, r2, rows2),
    ensures
        r2 == r1,
        r2 is Ok && r2->Ok_0.1 == trim(link),
        rows2 == rows1,
{
    let words = r1->Ok_0.0;
    let ws = choose|ws: Seq<Seq<char>>|
        {
            &&& ws.len() == crate::helper::NUM_WORDS
            &&& forall|i: int| 0 <= i < ws.len() ==> vocab@.contains(#[trigger] ws[i])
            &&& words == join_words(ws)
        };
    lemma_generated_phrase(vocab, ws);
    crate::text::lemma_join_ends(ws);
    assert(rows1.drop_last() =~= rows0);
}

/// Repeated lookups agree: resolving the same phrase twice, with nothing in
/// between, answers equal results and leaves the store as it was.
pub proof fn lemma_lookup_repeatable(
    vocab: &Vocabulary,
    rows0: Seq<(Seq<char>, Seq<char>)>,
    input: Seq<char>,
    r1: Result<(Seq<char>, Seq<char>), ResolveError>,
    rows1: Seq<(Seq<char>, Seq<char>)>,
    r2: Result<(Seq<char>, Seq<char>), ResolveError>,
    rows2: Seq<(Seq<char>, Seq<char>)>,
)
    requires
        trim(input).len() > 0,
        is_phrase(vocab.word_set(), trim(input)),
        resolves(vocab.word_set(), vocab@, rows0, input, r1, rows1),
        resolves(vocab.word_set(), vocab@, rows1, input, r2, rows2),
    ensures
        r1 == r2,
        rows2 == rows0,
{
}

} // verus!
