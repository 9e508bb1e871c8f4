//! The phrase-to-link mapping and the rows that hold it.
use vstd::prelude::*;
use vstd::string::*;

verus! {

/// A stored association of a phrase with the link it stands for.
#[derive(Debug)]
pub struct WordMap {
    pub words: String,
    pub link: String,
}

impl View for WordMap {
    type V = (Seq<char>, Seq<char>);

    open spec fn view(&self) -> (Seq<char>, Seq<char>) {
        (self.words@, self.link@)
    }
}

impl WordMap {
    /// A mapping of `words` to `link`.
    pub fn new(words: &str, link: &str) -> (r: WordMap)
        ensures
            r@ == (words@, link@),
    {
        WordMap { words: String::from_str(words), link: String::from_str(link) }
    }

    /// A copy with the same phrase and link.
    pub fn duplicate(&self) -> (r: WordMap)
        ensures
            r@ == self@,
    {
        WordMap { words: self.words.clone(), link: self.link.clone() }
    }
}

/// The ways a resolution can fail.
#[derive(PartialEq, Eq, Structural, Clone, Copy, Debug)]
pub enum ResolveError {
    /// The input is empty once trimmed.
    Validation,
    /// No stored mapping has the phrase.
    NotFound,
    /// The store could not be reached or did not commit.
    Store,
}

pub open spec fn rows_view(rows: Seq<WordMap>) -> Seq<(Seq<char>, Seq<char>)> {
    rows.map_values(|m: WordMap| m@)
}

pub open spec fn result_view(r: Result<WordMap, ResolveError>) -> Result<
    (Seq<char>, Seq<char>),
    ResolveError,
> {
    match r {
        Ok(m) => Ok(m@),
        Err(e) => Err(e),
    }
}

/// The most recently stored row with the phrase `words`, if any: where rows
/// share a phrase, the last one written wins.
pub open spec fn latest(rows: Seq<(Seq<char>, Seq<char>)>, words: Seq<char>) -> Option<
    (Seq<char>, Seq<char>),
>
    decreases rows.len(),
{
    if rows.len() == 0 {
        None
    } else if rows.last().0 == words {
        Some(rows.last())
    } else {
        latest(rows.drop_last(), words)
    }
}

/// What a lookup of `words` among `rows` answers.
pub open spec fn lookup_result(rows: Seq<(Seq<char>, Seq<char>)>, words: Seq<char>) -> Result<
    (Seq<char>, Seq<char>),
    ResolveError,
> {
    match latest(rows, words) {
        Some(m) => Ok(m),
        None => Err(ResolveError::NotFound),
    }
}

/// Picks, among `rows` in the order they were stored, the last one whose
/// phrase is `words`; `NotFound` when there is none.
pub fn latest_row(rows: &Vec<WordMap>, words: &str) -> (r: Result<WordMap, ResolveError>)
    ensures
        result_view(r) == lookup_result(rows_view(rows@), words@),
{
    let key = String::from_str(words);
    let mut i: usize = rows.len();
    assert(rows_view(rows@).take(i as int) =~= rows_view(rows@));
    while i > 0
        invariant
            i <= rows.len(),
            key@ == words@,
            latest(rows_view(rows@), words@) == latest(rows_view(rows@).take(i as int), words@),
        decreases i,
    {
        let ghost rv = rows_view(rows@).take(i as int);
        assert(rv.drop_last() =~= rows_view(rows@).take(i - 1));
        assert(rv.last() == rows@[i - 1]@);
        if rows[i - 1].words == key {
            return Ok(rows[i - 1].duplicate());
        }
        i = i - 1;
    }
    Err(ResolveError::NotFound)
}

/// A store of mappings held in memory, rows kept in the order written.
pub struct MemoryStore {
    rows: Vec<WordMap>,
}

impl View for MemoryStore {
    type V = Seq<(Seq<char>, Seq<char>)>;

    closed spec fn view(&self) -> Seq<(Seq<char>, Seq<char>)> {
        rows_view(self.rows@)
    }
}

impl MemoryStore {
    /// A store with no rows.
    pub fn new() -> (r: MemoryStore)
        ensures
            r@ == Seq::<(Seq<char>, Seq<char>)>::empty(),
    {
        let r = MemoryStore { rows: Vec::new() };
        assert(r@ =~= Seq::<(Seq<char>, Seq<char>)>::empty());
        r
    }

    /// The rows, in the order they were written.
    pub fn rows(&self) -> (r: &Vec<WordMap>)
        ensures
            rows_view(r@) == self@,
    {
        &self.rows
    }

    /// Stores `map` as a new row and returns the row as stored. A phrase that
    /// is already stored is not rejected: the newer row wins on lookup.
    pub fn insert(&mut self, map: &WordMap) -> (r: WordMap)
        ensures
            final(self)@ == old(self)@.push(map@),
            r@ == map@,
    {
        let ghost before = self@;
        self.rows.push(map.duplicate());
        assert(self@ =~= before.push(map@));
        map.duplicate()
    }

    /// The mapping stored for the phrase `words`.
    pub fn lookup(&self, words: &str) -> (r: Result<WordMap, ResolveError>)
        ensures
            result_view(r) == lookup_result(self@, words@),
    {
        latest_row(&self.rows, words)
    }
}

} // verus!
