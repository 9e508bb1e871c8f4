//! Memorable word phrases for arbitrary text values: a phrase of dictionary
//! words is issued for each registered value, and resolves back to it.
pub mod db;
pub mod helper;
pub mod model;
pub mod service;
pub mod text;
pub mod vocabulary;

pub use db::{MemoryStore, ResolveError, WordMap};
pub use helper::{get_words, is_words, NUM_WORDS};
pub use model::{InsertTemplate, MainForm, QueryTemplate};
pub use service::{classify, finish, plan, Query, StoreOutcome, StoreRequest};
pub use vocabulary::Vocabulary;
