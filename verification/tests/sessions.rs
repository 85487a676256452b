use tecindo::error::AppError;
use tecindo::sessions::{
    create_session, create_writing_session, end_session, get_session, list_sessions_for_document,
    load_session, CreateSessionRequest, SessionStore, WritingSession,
};

#[test]
fn a_session_starts_open() {
    let mut store = SessionStore::new();
    let s = create_session(&mut store, "s1", "doc", Some("laptop"), 120, 1_000).unwrap();
    assert_eq!(s.id, "s1");
    assert_eq!(s.document_id, "doc");
    assert_eq!(s.device_name, Some("laptop".to_string()));
    assert_eq!(s.started_at, 1_000);
    assert_eq!(s.ended_at, None);
    assert_eq!(s.word_count_start, 120);
    assert_eq!(s.word_count_end, None);
    assert!(matches!(create_session(&mut store, "s1", "doc", None, 0, 2_000), Err(AppError::Database(_))));
    assert_eq!(get_session(&store, "s1").unwrap().started_at, 1_000);
    assert!(get_session(&store, "s2").is_none());
}

#[test]
fn a_request_without_words_starts_at_zero() {
    let mut store = SessionStore::new();
    let none = CreateSessionRequest { device_name: None, word_count_start: None };
    let s = create_writing_session(&mut store, "s1", "doc", &none, 5).unwrap();
    assert_eq!((s.word_count_start, s.device_name.clone(), s.started_at), (0, None, 5));
    let some = CreateSessionRequest { device_name: Some("phone".to_string()), word_count_start: Some(42) };
    let s = create_writing_session(&mut store, "s2", "doc", &some, 6).unwrap();
    assert_eq!((s.word_count_start, s.device_name.clone()), (42, Some("phone".to_string())));
}

#[test]
fn a_session_ends_with_a_count() {
    let mut store = SessionStore::new();
    create_session(&mut store, "s1", "doc", Some("laptop"), 120, 1_000).unwrap();
    let s = end_session(&mut store, "s1", Some(300), 9_000).unwrap();
    assert_eq!((s.ended_at, s.word_count_end), (Some(9_000), Some(300)));
    assert_eq!((s.started_at, s.word_count_start, s.device_name.clone()), (1_000, 120, Some("laptop".to_string())));
    let s = end_session(&mut store, "s1", None, 9_500).unwrap();
    assert_eq!((s.ended_at, s.word_count_end), (Some(9_500), None));
    assert!(end_session(&mut store, "nope", Some(1), 1).is_none());
    assert_eq!(get_session(&store, "s1").unwrap().ended_at, Some(9_500));
}

#[test]
fn sessions_are_listed_latest_first() {
    let mut store = SessionStore::new();
    create_session(&mut store, "a", "doc", None, 0, 10).unwrap();
    create_session(&mut store, "b", "doc", None, 0, 30).unwrap();
    create_session(&mut store, "c", "other", None, 0, 40).unwrap();
    create_session(&mut store, "d", "doc", None, 0, 20).unwrap();
    let ids: Vec<String> = list_sessions_for_document(&store, "doc").into_iter().map(|s| s.id).collect();
    assert_eq!(ids, vec!["b", "d", "a"]);
    assert!(list_sessions_for_document(&store, "none").is_empty());
    assert_eq!(store.all_sessions().len(), 4);
}

#[test]
fn kept_sessions_are_taken_in_as_they_are() {
    let mut store = SessionStore::new();
    let kept = WritingSession {
        id: "s1".to_string(),
        document_id: "doc".to_string(),
        device_name: None,
        started_at: 5,
        ended_at: Some(9),
        word_count_start: 1,
        word_count_end: Some(2),
    };
    load_session(&mut store, kept.clone()).unwrap();
    assert!(matches!(load_session(&mut store, kept), Err(AppError::Database(_))));
    let s = get_session(&store, "s1").unwrap();
    assert_eq!((s.started_at, s.ended_at, s.word_count_start, s.word_count_end), (5, Some(9), 1, Some(2)));
}
