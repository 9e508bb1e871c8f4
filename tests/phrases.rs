use wordlink::db::latest_row;
use wordlink::helper::phrase_from_picks;
use wordlink::text::{is_white_space, split_on_spaces, trim_str, words_of};
use wordlink::vocabulary::is_alphabetic_word;
use wordlink::{
    classify, finish, get_words, is_words, plan, InsertTemplate, MemoryStore, Query,
    QueryTemplate, ResolveError, StoreOutcome, StoreRequest, Vocabulary, WordMap, NUM_WORDS,
};

fn fruit() -> Vocabulary {
    Vocabulary::from_text("apple banana cherry date").unwrap()
}

fn assert_phrase_of(vocab: &Vocabulary, phrase: &str) {
    let tokens: Vec<&str> = phrase.split(' ').collect();
    assert_eq!(tokens.len(), NUM_WORDS);
    for t in tokens {
        assert!(vocab.contains(t), "{} is not a vocabulary word", t);
    }
}

#[test]
fn classifier_boundary() {
    let v = fruit();
    assert!(matches!(
        classify(&v, "apple banana cherry date"),
        Ok(Query::PhraseLookup(p)) if p == "apple banana cherry date"
    ));
    assert!(matches!(
        classify(&v, "apple banana cherry"),
        Ok(Query::NewLink(l)) if l == "apple banana cherry"
    ));
    assert!(matches!(
        classify(&v, "apple banana cherry xylophone"),
        Ok(Query::NewLink(l)) if l == "apple banana cherry xylophone"
    ));
}

#[test]
fn classify_trims_and_rejects_empty() {
    let v = fruit();
    assert!(matches!(classify(&v, ""), Err(ResolveError::Validation)));
    assert!(matches!(classify(&v, " \t\n "), Err(ResolveError::Validation)));
    assert!(matches!(
        classify(&v, "  apple banana cherry date\n"),
        Ok(Query::PhraseLookup(p)) if p == "apple banana cherry date"
    ));
    assert!(matches!(
        classify(&v, "  https://example.com/a b  "),
        Ok(Query::NewLink(l)) if l == "https://example.com/a b"
    ));
}

#[test]
fn is_words_cases() {
    let v = fruit();
    assert!(is_words(&v, "apple banana cherry date"));
    assert!(is_words(&v, "date date date date"));
    assert!(!is_words(&v, "apple banana cherry"));
    assert!(!is_words(&v, "apple banana cherry date apple"));
    assert!(!is_words(&v, "apple  banana cherry date"));
    assert!(!is_words(&v, "Apple banana cherry date"));
    assert!(!is_words(&v, "apple banana cherry dat3"));
    assert!(!is_words(&v, "apple\tbanana cherry date"));
    assert!(!is_words(&v, ""));
}

#[test]
fn generated_phrase_shape() {
    let v = fruit();
    for _ in 0..50 {
        let p = get_words(&v);
        assert_phrase_of(&v, &p);
        assert!(is_words(&v, &p));
    }
}

#[test]
fn generated_phrase_from_single_word() {
    let v = Vocabulary::from_text("zebra").unwrap();
    assert_eq!(get_words(&v), "zebra zebra zebra zebra");
}

#[test]
fn phrase_from_picks_joins_in_order() {
    let v = fruit();
    assert_eq!(phrase_from_picks(&v, &vec![0, 1, 2, 3]), "apple banana cherry date");
    assert_eq!(phrase_from_picks(&v, &vec![3, 3, 0, 1]), "date date apple banana");
    assert_eq!(phrase_from_picks(&v, &vec![2]), "cherry");
}

#[test]
fn round_trip() {
    let v = fruit();
    let mut store = MemoryStore::new();
    let stored = store.resolve(&v, "  some value with spaces ").unwrap();
    assert_eq!(stored.link, "some value with spaces");
    assert_phrase_of(&v, &stored.words);
    let found = store.resolve(&v, &stored.words).unwrap();
    assert_eq!(found.words, stored.words);
    assert_eq!(found.link, "some value with spaces");
    assert_eq!(store.rows().len(), 1);
}

#[test]
fn lookup_is_repeatable() {
    let v = fruit();
    let mut store = MemoryStore::new();
    store.insert(&WordMap::new("apple apple apple apple", "x"));
    let a = store.lookup("apple apple apple apple").unwrap();
    let b = store.lookup("apple apple apple apple").unwrap();
    assert_eq!((a.words.as_str(), a.link.as_str()), (b.words.as_str(), b.link.as_str()));
    let c = store.resolve(&v, "apple apple apple apple").unwrap();
    let d = store.resolve(&v, "apple apple apple apple").unwrap();
    assert_eq!(c.link, "x");
    assert_eq!(d.link, "x");
    assert_eq!(store.rows().len(), 1);
}

#[test]
fn lookup_miss_is_not_found() {
    let v = fruit();
    let mut store = MemoryStore::new();
    assert!(matches!(store.lookup("apple banana cherry date"), Err(ResolveError::NotFound)));
    assert!(matches!(
        store.resolve(&v, "apple banana cherry date"),
        Err(ResolveError::NotFound)
    ));
    assert_eq!(store.rows().len(), 0);
}

#[test]
fn end_to_end_example_com() {
    let v = fruit();
    let mut store = MemoryStore::new();
    let m = store.resolve(&v, "https://example.com").unwrap();
    assert_eq!(m.link, "https://example.com");
    assert_phrase_of(&v, &m.words);
    let again = store.resolve(&v, &m.words).unwrap();
    assert_eq!(again.words, m.words);
    assert_eq!(again.link, "https://example.com");
    let other = ["apple", "banana", "cherry", "date"]
        .iter()
        .flat_map(|a| ["apple", "banana", "cherry", "date"].iter().map(move |b| (a, b)))
        .map(|(a, b)| format!("{} {} {} {}", a, b, a, b))
        .find(|p| *p != m.words)
        .unwrap();
    assert!(matches!(store.resolve(&v, &other), Err(ResolveError::NotFound)));
}

#[test]
fn last_writer_wins_on_collision() {
    let mut store = MemoryStore::new();
    store.insert(&WordMap::new("apple banana cherry date", "first"));
    store.insert(&WordMap::new("date date date date", "other"));
    store.insert(&WordMap::new("apple banana cherry date", "second"));
    assert_eq!(store.lookup("apple banana cherry date").unwrap().link, "second");
    assert_eq!(store.lookup("date date date date").unwrap().link, "other");
}

#[test]
fn insert_returns_stored_row() {
    let mut store = MemoryStore::new();
    let r = store.insert(&WordMap::new("apple banana cherry date", "v"));
    assert_eq!(r.words, "apple banana cherry date");
    assert_eq!(r.link, "v");
    assert_eq!(store.rows().len(), 1);
}

#[test]
fn latest_row_picks_last_match() {
    let rows = vec![
        WordMap::new("a b c d", "1"),
        WordMap::new("a b c e", "2"),
        WordMap::new("a b c d", "3"),
        WordMap::new("a b c e", "4"),
    ];
    assert_eq!(latest_row(&rows, "a b c d").unwrap().link, "3");
    assert_eq!(latest_row(&rows, "a b c e").unwrap().link, "4");
    assert!(matches!(latest_row(&rows, "a b c f"), Err(ResolveError::NotFound)));
    assert!(matches!(latest_row(&Vec::new(), "a b c d"), Err(ResolveError::NotFound)));
}

#[test]
fn plan_decides_request() {
    let v = fruit();
    assert!(matches!(
        plan(&v, " cherry cherry apple date "),
        Ok(StoreRequest::Lookup(p)) if p == "cherry cherry apple date"
    ));
    match plan(&v, " https://example.com ") {
        Ok(StoreRequest::Insert(m)) => {
            assert_eq!(m.link, "https://example.com");
            assert_phrase_of(&v, &m.words);
        }
        _ => panic!("expected an insertion"),
    }
    assert!(matches!(plan(&v, "   "), Err(ResolveError::Validation)));
}

#[test]
fn finish_answers_outcomes() {
    let lookup = StoreRequest::Lookup("apple banana cherry date".to_string());
    let insert = StoreRequest::Insert(WordMap::new("date date date date", "local"));
    assert!(matches!(finish(&lookup, &StoreOutcome::Unavailable), Err(ResolveError::Store)));
    assert!(matches!(finish(&insert, &StoreOutcome::Unavailable), Err(ResolveError::Store)));
    assert!(matches!(
        finish(&lookup, &StoreOutcome::Rows(Vec::new())),
        Err(ResolveError::NotFound)
    ));
    assert!(matches!(
        finish(&insert, &StoreOutcome::Rows(Vec::new())),
        Err(ResolveError::Store)
    ));
    let stored = finish(
        &insert,
        &StoreOutcome::Rows(vec![WordMap::new("date date date date", "stored")]),
    )
    .unwrap();
    assert_eq!(stored.link, "stored");
    let found = finish(
        &lookup,
        &StoreOutcome::Rows(vec![
            WordMap::new("apple banana cherry date", "old"),
            WordMap::new("apple banana cherry date", "new"),
        ]),
    )
    .unwrap();
    assert_eq!(found.link, "new");
}

#[test]
fn vocabulary_from_text() {
    let v = Vocabulary::from_text("\n  apple\tbanana\r\ncherry  date \n").unwrap();
    assert_eq!(v.len(), 4);
    let words: Vec<&str> = v.words().iter().map(|w| w.as_str()).collect();
    assert_eq!(words, vec!["apple", "banana", "cherry", "date"]);
    assert_eq!(v.word(2), "cherry");
    assert!(v.contains("date"));
    assert!(!v.contains("Date"));
    assert!(!v.contains("dat"));
    assert!(!v.contains(""));
}

#[test]
fn vocabulary_rejects_empty_and_non_alphabetic() {
    assert!(Vocabulary::from_text("").is_none());
    assert!(Vocabulary::from_text(" \n\t ").is_none());
    assert!(Vocabulary::from_text("apple b4nana").is_none());
    assert!(Vocabulary::from_text("apple ban-ana").is_none());
    assert!(Vocabulary::from_text("caf\u{e9} na\u{ef}ve").is_some());
}

#[test]
fn text_helpers() {
    assert_eq!(trim_str("  a b \t"), "a b");
    assert_eq!(trim_str("\u{3000}x\u{a0}"), "x");
    assert_eq!(trim_str("   "), "");
    let parts: Vec<String> = split_on_spaces(" a  b ");
    assert_eq!(parts, vec!["", "a", "", "b", ""]);
    assert_eq!(split_on_spaces(""), vec![""]);
    assert_eq!(words_of(" a\u{2003}bc\n d "), vec!["a", "bc", "d"]);
    assert!(is_white_space(' '));
    assert!(is_white_space('\u{85}'));
    assert!(!is_white_space('x'));
    assert!(!is_white_space('\u{200b}'));
    for c in ['\t', '\n', ' ', '\u{a0}', '\u{2028}', '\u{3000}', 'a', '\u{200b}', '_'] {
        assert_eq!(is_white_space(c), c.is_whitespace());
    }
}

#[test]
fn alphabetic_words() {
    assert!(is_alphabetic_word("apple"));
    assert!(is_alphabetic_word("\u{e9}t\u{e9}"));
    assert!(is_alphabetic_word(""));
    assert!(!is_alphabetic_word("ab1"));
    assert!(!is_alphabetic_word("a b"));
}

#[test]
fn templates_from_map() {
    let q = QueryTemplate::from_map(WordMap::new("apple banana cherry date", "l"));
    assert_eq!((q.words.as_str(), q.link.as_str()), ("apple banana cherry date", "l"));
    let i = InsertTemplate::from_map(WordMap::new("date date date date", "k"));
    assert_eq!((i.words.as_str(), i.link.as_str()), ("date date date date", "k"));
}

#[test]
fn white_space_agrees_with_std_on_every_char() {
    for u in 0..=0x10ffffu32 {
        if let Some(c) = char::from_u32(u) {
            assert_eq!(is_white_space(c), c.is_whitespace(), "U+{:04X}", u);
        }
    }
}

#[test]
fn tokenizers_agree_with_std() {
    let samples = [
        "",
        " ",
        "one",
        "  two words ",
        "a\u{a0}b\u{2009}c\u{3000}d",
        "x\u{200b}y z",
        "tab\tand\nnewline\r\n",
        "a  b   c",
    ];
    for s in samples {
        let expected: Vec<&str> = s.split_whitespace().collect();
        assert_eq!(words_of(s), expected, "{:?}", s);
        let pieces: Vec<&str> = s.split(' ').collect();
        assert_eq!(split_on_spaces(s), pieces, "{:?}", s);
        assert_eq!(trim_str(s), s.trim(), "{:?}", s);
    }
}
