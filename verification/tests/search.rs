use tecindo::error::AppError;
use tecindo::metadata::{create_document, delete_document, MetadataStore};
use tecindo::models::CreateDocumentRequest;
use tecindo::search::{index_document, search_documents, tokenize, SearchIndex};

fn add(store: &mut MetadataStore, id: &str, title: &str, user: &str) {
    let req = CreateDocumentRequest { title: Some(title.to_string()), folder_id: None };
    create_document(store, id, &req, format!("{}.md", id), id.to_string(), user, 1).unwrap();
}

fn found(index: &SearchIndex, store: &MetadataStore, user: &str, query: &str) -> Vec<String> {
    search_documents(index, store, user, query).unwrap().into_iter().map(|d| d.id).collect()
}

#[test]
fn tokenize_gives_the_words() {
    assert_eq!(tokenize("hello old"), vec!["hello", "old"]);
    assert_eq!(tokenize("  a\tb\n\nc  "), vec!["a", "b", "c"]);
    assert_eq!(tokenize("one"), vec!["one"]);
    assert!(tokenize("").is_empty());
    assert!(tokenize(" \n ").is_empty());
    assert_eq!(tokenize("x\u{3000}y"), vec!["x", "y"]);
    assert_eq!(tokenize("don't stop, now."), vec!["don't", "stop,", "now."]);
}

#[test]
fn tokenize_agrees_with_split_whitespace() {
    let samples = ["", "a", " a b ", "가 나\u{a0}다", "tabs\tnew\nlines", "  \u{2003} "];
    for s in samples {
        let expected: Vec<String> = s.split_whitespace().map(|w| w.to_string()).collect();
        assert_eq!(tokenize(s), expected);
    }
}

#[test]
fn an_indexed_document_is_found_by_its_words() {
    let mut store = MetadataStore::new();
    let mut index = SearchIndex::new();
    add(&mut store, "x", "Greeting", "u");
    index_document(&mut index, &store, "x", "Greeting", "hello old", None, None);
    assert_eq!(index.len(), 3);
    assert!(index.has_posting("hello", 1));
    assert!(index.has_posting("Greeting", 1));
    assert!(!index.has_posting("hello", 2));
    assert_eq!(found(&index, &store, "u", "old"), vec!["x"]);
    assert_eq!(found(&index, &store, "u", "hello old"), vec!["x"]);
    assert_eq!(found(&index, &store, "u", "Greeting"), vec!["x"]);
    assert!(found(&index, &store, "u", "new").is_empty());
    assert!(found(&index, &store, "u", "old new").is_empty());
    assert!(found(&index, &store, "v", "old").is_empty());
}

#[test]
fn reindexing_retracts_the_prior_content() {
    let mut store = MetadataStore::new();
    let mut index = SearchIndex::new();
    add(&mut store, "x", "Greeting", "u");
    index_document(&mut index, &store, "x", "Greeting", "hello old", None, None);
    index_document(&mut index, &store, "x", "Greeting", "hello new", Some("Greeting"), Some("hello old"));
    assert!(found(&index, &store, "u", "old").is_empty());
    assert_eq!(found(&index, &store, "u", "new"), vec!["x"]);
    assert_eq!(found(&index, &store, "u", "hello"), vec!["x"]);
    assert_eq!(index.len(), 3);
    assert!(!index.has_posting("old", 1));
}

#[test]
fn without_prior_content_nothing_is_retracted() {
    let mut store = MetadataStore::new();
    let mut index = SearchIndex::new();
    add(&mut store, "x", "T", "u");
    index_document(&mut index, &store, "x", "T", "first", None, None);
    index_document(&mut index, &store, "x", "T", "second", Some("T"), None);
    assert_eq!(index.len(), 4);
    assert_eq!(found(&index, &store, "u", "first"), vec!["x"]);
    assert_eq!(found(&index, &store, "u", "second"), vec!["x"]);
    index_document(&mut index, &store, "x", "T", "third", None, Some("first"));
    assert_eq!(index.len(), 6);
}

#[test]
fn a_wrong_prior_content_leaves_stale_postings() {
    let mut store = MetadataStore::new();
    let mut index = SearchIndex::new();
    add(&mut store, "x", "T", "u");
    index_document(&mut index, &store, "x", "T", "alpha beta", None, None);
    index_document(&mut index, &store, "x", "T", "gamma", Some("T"), Some("alpha"));
    assert_eq!(found(&index, &store, "u", "beta"), vec!["x"]);
    assert!(found(&index, &store, "u", "alpha").is_empty());
}

#[test]
fn indexing_an_unknown_document_does_nothing() {
    let store = MetadataStore::new();
    let mut index = SearchIndex::new();
    index_document(&mut index, &store, "ghost", "T", "text", None, None);
    assert_eq!(index.len(), 0);
}

#[test]
fn repeated_words_are_retracted_one_by_one() {
    let mut store = MetadataStore::new();
    let mut index = SearchIndex::new();
    add(&mut store, "x", "T", "u");
    index_document(&mut index, &store, "x", "T", "a a a b", None, None);
    assert_eq!(index.score_of(1, &tokenize("a")), 3);
    index_document(&mut index, &store, "x", "T", "a", Some("T"), Some("a a a b"));
    assert_eq!(index.score_of(1, &tokenize("a")), 1);
    assert!(!index.has_posting("b", 1));
    assert_eq!(index.len(), 2);
}

#[test]
fn the_best_match_comes_first() {
    let mut store = MetadataStore::new();
    let mut index = SearchIndex::new();
    add(&mut store, "once", "A", "u");
    add(&mut store, "thrice", "B", "u");
    add(&mut store, "twice", "C", "u");
    add(&mut store, "never", "D", "u");
    index_document(&mut index, &store, "once", "A", "rust is fine", None, None);
    index_document(&mut index, &store, "thrice", "B", "rust rust rust", None, None);
    index_document(&mut index, &store, "twice", "C", "rust and rust", None, None);
    index_document(&mut index, &store, "never", "D", "nothing here", None, None);
    assert_eq!(found(&index, &store, "u", "rust"), vec!["thrice", "twice", "once"]);
    assert_eq!(found(&index, &store, "u", "rust and"), vec!["twice"]);
    assert!(index.holds_all(3, &tokenize("rust and")));
    assert!(!index.holds_all(1, &tokenize("rust and")));
}

#[test]
fn a_search_returns_at_most_50_documents() {
    let mut store = MetadataStore::new();
    let mut index = SearchIndex::new();
    for n in 0..60 {
        let id = format!("d{}", n);
        add(&mut store, &id, "T", "u");
        let content = if n == 59 { "word word" } else { "word" };
        index_document(&mut index, &store, &id, "T", content, None, None);
    }
    let ids = found(&index, &store, "u", "word");
    assert_eq!(ids.len(), 50);
    assert_eq!(ids[0], "d59");
    assert_eq!(ids[1], "d0");
    assert_eq!(ids[49], "d48");
}

#[test]
fn a_query_without_words_is_refused() {
    let store = MetadataStore::new();
    let index = SearchIndex::new();
    assert!(matches!(search_documents(&index, &store, "u", ""), Err(AppError::BadRequest(_))));
    assert!(matches!(search_documents(&index, &store, "u", " \t "), Err(AppError::BadRequest(_))));
    assert!(search_documents(&index, &store, "u", "x").unwrap().is_empty());
}

#[test]
fn a_deleted_document_is_found_no_more() {
    let mut store = MetadataStore::new();
    let mut index = SearchIndex::new();
    add(&mut store, "x", "T", "u");
    index_document(&mut index, &store, "x", "T", "text", None, None);
    delete_document(&mut store, "x", "u");
    assert!(found(&index, &store, "u", "text").is_empty());
    add(&mut store, "y", "T", "u");
    assert!(found(&index, &store, "u", "text").is_empty());
}
