//! The values that the submission form carries and that the pages show.
use vstd::prelude::*;

use crate::db::WordMap;

verus! {

/// The submitted form: the raw query.
pub struct MainForm {
    pub query: String,
}

/// The page shown when a phrase was looked up.
pub struct QueryTemplate {
    pub link: String,
    pub words: String,
}

/// The page shown when a new link was registered.
pub struct InsertTemplate {
    pub words: String,
    pub link: String,
}

impl QueryTemplate {
    /// The page for a mapping that a lookup found.
    pub fn from_map(map: WordMap) -> (r: QueryTemplate)
        ensures
            r.link@ == map.link@,
            r.words@ == map.words@,
    {
        QueryTemplate { link: map.link, words: map.words }
    }
}

impl InsertTemplate {
    /// The page for a mapping that was just stored.
    pub fn from_map(map: WordMap) -> (r: InsertTemplate)
        ensures
            r.words@ == map.words@,
            r.link@ == map.link@,
    {
        InsertTemplate { words: map.words, link: map.link }
    }
}

} // verus!
