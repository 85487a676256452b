use tecindo::engine::{
    create_document, create_folder, create_version_snapshot, delete_document, delete_folder,
    get_document, get_document_content, get_version_content, list_document_versions,
    list_documents, list_folders, read_markdown, search, update_document, update_document_content,
    update_folder, write_markdown, Engine,
};
use tecindo::error::{AppError, IoErrorKind};
use tecindo::models::{
    AuthUser, CreateDocumentRequest, CreateFolderRequest, DocumentContent, SearchQuery,
    UpdateDocumentRequest, UpdateFolderRequest,
};

const MINUTE: i64 = 60_000;

fn user(id: &str) -> AuthUser {
    AuthUser { user_id: id.to_string() }
}

fn engine() -> Engine {
    Engine::new(20, 5)
}

fn new_doc(engine: &mut Engine, who: &AuthUser, id: &str, title: Option<&str>, folder: Option<&str>) -> String {
    let req = CreateDocumentRequest {
        title: title.map(|t| t.to_string()),
        folder_id: folder.map(|f| f.to_string()),
    };
    create_document(engine, who, &req, id, 1_000).unwrap().title
}

fn put(engine: &mut Engine, who: &AuthUser, id: &str, text: &str, version_id: &str, now: i64) -> Result<(), AppError> {
    update_document_content(engine, who, id, &DocumentContent { content: text.to_string() }, version_id, now)
}

fn hits(engine: &Engine, who: &AuthUser, q: &str) -> Vec<String> {
    search(engine, who, &SearchQuery { q: q.to_string() }).unwrap().into_iter().map(|d| d.id).collect()
}

#[test]
fn a_new_engine_is_empty() {
    let e = engine();
    assert_eq!(e.max_document_versions, 20);
    assert_eq!(e.version_interval_minutes, 5);
    assert_eq!(e.versions.len(), 0);
    assert_eq!(e.index.len(), 0);
}

#[test]
fn what_is_written_is_what_is_read() {
    let mut e = engine();
    for content in ["", "hello", "여러 줄\n두 번째 줄\n", "  spaces  ", "😀"] {
        write_markdown(&mut e, "a/b.md", content).unwrap();
        assert_eq!(read_markdown(&e, "a/b.md").unwrap(), content);
    }
    write_markdown(&mut e, "other.md", "x").unwrap();
    assert_eq!(read_markdown(&e, "a/b.md").unwrap(), "😀");
    assert!(matches!(read_markdown(&e, "missing.md"), Err(AppError::Io(IoErrorKind::NotFound))));
}

#[test]
fn a_failing_content_store_reports_its_kind() {
    let mut e = engine();
    write_markdown(&mut e, "a.md", "kept").unwrap();
    e.faults.content_write = Some(IoErrorKind::PermissionDenied);
    assert!(matches!(
        write_markdown(&mut e, "a.md", "lost"),
        Err(AppError::Io(IoErrorKind::PermissionDenied))
    ));
    assert_eq!(read_markdown(&e, "a.md").unwrap(), "kept");
    e.faults.content_read = Some(IoErrorKind::Other);
    assert!(matches!(read_markdown(&e, "a.md"), Err(AppError::Io(IoErrorKind::Other))));
}

#[test]
fn a_created_document_has_an_empty_content_and_a_path() {
    let mut e = engine();
    let ann = user("ann");
    let req = CreateDocumentRequest { title: Some("Hello World!".to_string()), folder_id: None };
    let d = create_document(&mut e, &ann, &req, "d1", 5).unwrap();
    assert_eq!(d.title, "Hello World!");
    assert_eq!(d.slug, "hello-world");
    assert_eq!(d.file_path, "hello-world.md");
    assert_eq!(d.created_at, 5);
    assert_eq!(get_document_content(&e, &ann, "d1").unwrap().content, "");
    assert_eq!(get_document(&e, &ann, "d1").unwrap().file_path, "hello-world.md");
}

#[test]
fn a_document_in_a_folder_is_stored_under_the_folders_slug() {
    let mut e = engine();
    let ann = user("ann");
    let f = create_folder(
        &mut e,
        &ann,
        CreateFolderRequest { name: "My Notes".to_string(), parent_id: None },
        "f1",
        1,
    )
    .unwrap();
    assert_eq!(f.slug, "my-notes");
    let req = CreateDocumentRequest { title: Some("First".to_string()), folder_id: Some("f1".to_string()) };
    let d = create_document(&mut e, &ann, &req, "d1", 5).unwrap();
    assert_eq!(d.file_path, "my-notes/first.md");
    assert_eq!(d.folder_id, Some("f1".to_string()));
    let req = CreateDocumentRequest { title: Some("Second".to_string()), folder_id: Some("ghost".to_string()) };
    let d = create_document(&mut e, &user("bob"), &req, "d2", 5).unwrap();
    assert_eq!(d.file_path, "second.md");
}

#[test]
fn untitled_documents_are_numbered() {
    let mut e = engine();
    let ann = user("ann");
    create_folder(&mut e, &ann, CreateFolderRequest { name: "F".to_string(), parent_id: None }, "f", 1).unwrap();
    assert_eq!(new_doc(&mut e, &ann, "a", Some("Untitled"), Some("f")), "Untitled");
    assert_eq!(new_doc(&mut e, &ann, "b", Some("Untitled_2"), Some("f")), "Untitled_2");
    assert_eq!(new_doc(&mut e, &ann, "c", None, Some("f")), "Untitled_3");
    assert_eq!(new_doc(&mut e, &ann, "d", None, Some("f")), "Untitled_4");
    assert_eq!(new_doc(&mut e, &ann, "e", None, None), "Untitled");
    assert_eq!(new_doc(&mut e, &ann, "g", None, None), "Untitled_2");
    assert_eq!(get_document(&e, &ann, "c").unwrap().file_path, "f/untitled-3.md");
}

#[test]
fn a_taken_path_is_refused_before_anything_is_written() {
    let mut e = engine();
    let ann = user("ann");
    new_doc(&mut e, &ann, "d1", Some("Same"), None);
    put(&mut e, &ann, "d1", "precious", "v1", 2_000).unwrap();
    let req = CreateDocumentRequest { title: Some("Same".to_string()), folder_id: None };
    assert!(matches!(create_document(&mut e, &user("bob"), &req, "d2", 3_000), Err(AppError::Database(_))));
    assert_eq!(get_document_content(&e, &ann, "d1").unwrap().content, "precious");
    assert!(matches!(create_document(&mut e, &ann, &req, "d1", 3_000), Err(AppError::Database(_))));
}

#[test]
fn a_content_update_records_counts_and_excerpt() {
    let mut e = engine();
    let ann = user("ann");
    new_doc(&mut e, &ann, "d1", Some("Doc"), None);
    put(&mut e, &ann, "d1", "hello new world", "v1", 9_000).unwrap();
    let d = get_document(&e, &ann, "d1").unwrap();
    assert_eq!(d.word_count, 3);
    assert_eq!(d.char_count, 15);
    assert_eq!(d.excerpt, Some("hello new world".to_string()));
    assert_eq!(d.updated_at, 9_000);
    assert_eq!(d.created_at, 1_000);
    assert_eq!(get_document_content(&e, &ann, "d1").unwrap().content, "hello new world");
    put(&mut e, &ann, "d1", "", "v2", 9_500).unwrap();
    let d = get_document(&e, &ann, "d1").unwrap();
    assert_eq!((d.word_count, d.char_count, d.excerpt), (0, 0, None));
}

#[test]
fn search_follows_the_content() {
    let mut e = engine();
    let ann = user("ann");
    new_doc(&mut e, &ann, "x", Some("Doc"), None);
    put(&mut e, &ann, "x", "hello old", "v1", 2_000).unwrap();
    assert_eq!(hits(&e, &ann, "old"), vec!["x"]);
    put(&mut e, &ann, "x", "hello new", "v2", 3_000).unwrap();
    assert!(hits(&e, &ann, "old").is_empty());
    assert_eq!(hits(&e, &ann, "new"), vec!["x"]);
    assert_eq!(hits(&e, &ann, "hello"), vec!["x"]);
    assert!(hits(&e, &user("bob"), "new").is_empty());
}

#[test]
fn an_empty_query_is_a_bad_request() {
    let mut e = engine();
    let ann = user("ann");
    for q in ["", "   ", "\n\t"] {
        match search(&e, &ann, &SearchQuery { q: q.to_string() }) {
            Err(AppError::BadRequest(m)) => assert_eq!(m, "Search query cannot be empty"),
            _ => panic!("empty query accepted"),
        }
    }
    e.faults.search = true;
    assert!(matches!(search(&e, &ann, &SearchQuery { q: "".to_string() }), Err(AppError::BadRequest(_))));
    assert!(matches!(search(&e, &ann, &SearchQuery { q: "x".to_string() }), Err(AppError::Database(_))));
}

#[test]
fn updating_an_unknown_document_touches_nothing() {
    let mut e = engine();
    let ann = user("ann");
    new_doc(&mut e, &ann, "d1", Some("Doc"), None);
    assert!(matches!(put(&mut e, &ann, "nope", "text", "v1", 2_000), Err(AppError::NotFound)));
    assert!(matches!(put(&mut e, &user("bob"), "d1", "text", "v1", 2_000), Err(AppError::NotFound)));
    assert_eq!(get_document_content(&e, &ann, "d1").unwrap().content, "");
    assert_eq!(e.versions.len(), 0);
    assert_eq!(e.index.len(), 0);
    assert_eq!(get_document(&e, &ann, "d1").unwrap().updated_at, 1_000);
}

#[test]
fn a_failed_write_aborts_before_the_metadata() {
    let mut e = engine();
    let ann = user("ann");
    new_doc(&mut e, &ann, "d1", Some("Doc"), None);
    put(&mut e, &ann, "d1", "first", "v1", 2_000).unwrap();
    e.faults.content_write = Some(IoErrorKind::Other);
    assert!(matches!(put(&mut e, &ann, "d1", "second text", "v2", 900_000), Err(AppError::Io(IoErrorKind::Other))));
    e.faults.content_write = None;
    let d = get_document(&e, &ann, "d1").unwrap();
    assert_eq!((d.word_count, d.updated_at), (1, 2_000));
    assert_eq!(get_document_content(&e, &ann, "d1").unwrap().content, "first");
    assert_eq!(e.versions.len(), 1);
    assert_eq!(hits(&e, &ann, "first"), vec!["d1"]);
    assert!(hits(&e, &ann, "second").is_empty());
}

#[test]
fn a_failed_metadata_update_leaves_the_content_ahead() {
    let mut e = engine();
    let ann = user("ann");
    new_doc(&mut e, &ann, "d1", Some("Doc"), None);
    put(&mut e, &ann, "d1", "first", "v1", 2_000).unwrap();
    e.faults.metadata_write = true;
    assert!(matches!(put(&mut e, &ann, "d1", "second text", "v2", 900_000), Err(AppError::Database(_))));
    e.faults.metadata_write = false;
    assert_eq!(get_document_content(&e, &ann, "d1").unwrap().content, "second text");
    let d = get_document(&e, &ann, "d1").unwrap();
    assert_eq!((d.word_count, d.updated_at), (1, 2_000));
    assert_eq!(e.versions.len(), 1);
    assert!(hits(&e, &ann, "second").is_empty());
    put(&mut e, &ann, "d1", "second text", "v2", 900_000).unwrap();
    assert_eq!(get_document(&e, &ann, "d1").unwrap().word_count, 2);
    assert_eq!(e.versions.len(), 2);
}

#[test]
fn a_failed_read_of_the_prior_content_skips_the_retraction() {
    let mut e = engine();
    let ann = user("ann");
    new_doc(&mut e, &ann, "d1", Some("Doc"), None);
    put(&mut e, &ann, "d1", "alpha", "v1", 2_000).unwrap();
    e.faults.content_read = Some(IoErrorKind::PermissionDenied);
    put(&mut e, &ann, "d1", "beta", "v2", 3_000).unwrap();
    e.faults.content_read = None;
    assert_eq!(get_document_content(&e, &ann, "d1").unwrap().content, "beta");
    assert_eq!(hits(&e, &ann, "beta"), vec!["d1"]);
    assert_eq!(hits(&e, &ann, "alpha"), vec!["d1"]);
}

#[test]
fn failing_versions_and_search_do_not_fail_the_update() {
    let mut e = engine();
    let ann = user("ann");
    new_doc(&mut e, &ann, "d1", Some("Doc"), None);
    e.faults.versions = true;
    e.faults.search = true;
    put(&mut e, &ann, "d1", "some text", "v1", 2_000).unwrap();
    e.faults.versions = false;
    e.faults.search = false;
    assert_eq!(get_document(&e, &ann, "d1").unwrap().word_count, 2);
    assert_eq!(get_document_content(&e, &ann, "d1").unwrap().content, "some text");
    assert_eq!(e.versions.len(), 0);
    assert!(hits(&e, &ann, "text").is_empty());
}

#[test]
fn a_taken_version_id_does_not_fail_the_update() {
    let mut e = engine();
    let ann = user("ann");
    new_doc(&mut e, &ann, "d1", Some("Doc"), None);
    new_doc(&mut e, &ann, "d2", Some("Other"), None);
    put(&mut e, &ann, "d1", "one", "v1", 2_000).unwrap();
    put(&mut e, &ann, "d2", "two", "v1", 2_000).unwrap();
    assert_eq!(e.versions.len(), 1);
    assert_eq!(get_document(&e, &ann, "d2").unwrap().word_count, 1);
    assert_eq!(hits(&e, &ann, "two"), vec!["d2"]);
}

#[test]
fn snapshots_are_throttled() {
    let mut e = engine();
    let ann = user("ann");
    new_doc(&mut e, &ann, "d1", Some("Doc"), None);
    let t = 10 * MINUTE;
    put(&mut e, &ann, "d1", "one", "v1", t).unwrap();
    put(&mut e, &ann, "d1", "two", "v2", t + MINUTE).unwrap();
    put(&mut e, &ann, "d1", "three", "v3", t + 5 * MINUTE - 1).unwrap();
    assert_eq!(list_document_versions(&e, &ann, "d1").unwrap().len(), 1);
    put(&mut e, &ann, "d1", "four", "v4", t + 5 * MINUTE).unwrap();
    let list = list_document_versions(&e, &ann, "d1").unwrap();
    assert_eq!(list.len(), 2);
    assert_eq!((list[0].id.as_str(), list[0].version_number), ("v4", 2));
    assert_eq!((list[1].id.as_str(), list[1].version_number), ("v1", 1));
    assert_eq!(get_version_content(&e, &ann, "v4").unwrap().content, "four");
    assert_eq!(get_version_content(&e, &ann, "v1").unwrap().content, "one");
    assert!(matches!(get_version_content(&e, &ann, "v2"), Err(AppError::NotFound)));
    assert!(matches!(get_version_content(&e, &user("bob"), "v1"), Err(AppError::NotFound)));
    assert!(matches!(list_document_versions(&e, &user("bob"), "d1"), Err(AppError::NotFound)));
}

#[test]
fn snapshots_are_pruned_to_the_newest() {
    let mut e = Engine::new(3, 5);
    let ann = user("ann");
    new_doc(&mut e, &ann, "d1", Some("Doc"), None);
    for n in 1..=6 {
        put(&mut e, &ann, "d1", &format!("text {}", n), &format!("v{}", n), n * 5 * MINUTE).unwrap();
    }
    let list = list_document_versions(&e, &ann, "d1").unwrap();
    let numbers: Vec<i64> = list.iter().map(|v| v.version_number).collect();
    assert_eq!(numbers, vec![6, 5, 4]);
    assert_eq!(get_version_content(&e, &ann, "v6").unwrap().content, "text 6");
}

#[test]
fn a_snapshot_on_request_needs_a_change() {
    let mut e = engine();
    let ann = user("ann");
    new_doc(&mut e, &ann, "d1", Some("Doc"), None);
    assert_eq!(create_version_snapshot(&mut e, &ann, "d1", "s1", 1_500).unwrap(), true);
    assert_eq!(create_version_snapshot(&mut e, &ann, "d1", "s2", 1_600).unwrap(), false);
    put(&mut e, &ann, "d1", "changed", "v1", 2_000).unwrap();
    assert_eq!(e.versions.len(), 1);
    assert_eq!(create_version_snapshot(&mut e, &ann, "d1", "s3", 2_500).unwrap(), true);
    let v = get_version_content(&e, &ann, "s3").unwrap();
    assert_eq!((v.version_number, v.content.as_str(), v.word_count, v.char_count), (2, "changed", 1, 7));
    assert!(matches!(create_version_snapshot(&mut e, &ann, "nope", "s4", 3_000), Err(AppError::NotFound)));
    put(&mut e, &ann, "d1", "again", "v2", 200_000).unwrap();
    assert_eq!(e.versions.len(), 2);
    assert!(matches!(create_version_snapshot(&mut e, &ann, "d1", "s1", 250_000), Err(AppError::Database(_))));
    assert_eq!(e.versions.len(), 2);
    e.faults.versions = true;
    assert!(matches!(create_version_snapshot(&mut e, &ann, "d1", "s5", 500_000), Err(AppError::Database(_))));
}

#[test]
fn a_document_update_checks_the_folder() {
    let mut e = engine();
    let ann = user("ann");
    new_doc(&mut e, &ann, "d1", Some("Doc"), None);
    create_folder(&mut e, &ann, CreateFolderRequest { name: "F".to_string(), parent_id: None }, "f1", 1).unwrap();
    create_folder(&mut e, &user("bob"), CreateFolderRequest { name: "G".to_string(), parent_id: None }, "f2", 1)
        .unwrap();
    let mut req = UpdateDocumentRequest { title: None, folder_id: Some(Some("f1".to_string())), is_pinned: None, is_archived: None };
    assert_eq!(update_document(&mut e, &ann, "d1", &req, 7).unwrap().folder_id, Some("f1".to_string()));
    req.folder_id = Some(Some("f2".to_string()));
    assert!(matches!(update_document(&mut e, &ann, "d1", &req, 8), Err(AppError::NotFound)));
    req.folder_id = Some(Some("ghost".to_string()));
    assert!(matches!(update_document(&mut e, &ann, "d1", &req, 8), Err(AppError::NotFound)));
    req.folder_id = Some(None);
    assert_eq!(update_document(&mut e, &ann, "d1", &req, 9).unwrap().folder_id, None);
    assert!(matches!(update_document(&mut e, &ann, "d9", &req, 9), Err(AppError::NotFound)));
    e.faults.metadata_write = true;
    assert!(matches!(update_document(&mut e, &ann, "d1", &req, 10), Err(AppError::Database(_))));
    assert_eq!(get_document(&e, &ann, "d1").unwrap().updated_at, 9);
}

#[test]
fn deleting_a_document_removes_its_content() {
    let mut e = engine();
    let ann = user("ann");
    new_doc(&mut e, &ann, "d1", Some("Doc"), None);
    put(&mut e, &ann, "d1", "text", "v1", 2_000).unwrap();
    assert!(matches!(delete_document(&mut e, &user("bob"), "d1"), Err(AppError::NotFound)));
    delete_document(&mut e, &ann, "d1").unwrap();
    assert!(matches!(get_document(&e, &ann, "d1"), Err(AppError::NotFound)));
    assert!(matches!(read_markdown(&e, "doc.md"), Err(AppError::Io(IoErrorKind::NotFound))));
    assert!(matches!(delete_document(&mut e, &ann, "d1"), Err(AppError::NotFound)));
    assert!(hits(&e, &ann, "text").is_empty());
    let req = CreateDocumentRequest { title: Some("Doc".to_string()), folder_id: None };
    assert!(matches!(create_document(&mut e, &ann, &req, "d2", 3_000), Err(AppError::Database(_))));
}

#[test]
fn a_failing_content_store_does_not_fail_a_deletion() {
    let mut e = engine();
    let ann = user("ann");
    new_doc(&mut e, &ann, "d1", Some("Doc"), None);
    e.faults.content_write = Some(IoErrorKind::PermissionDenied);
    delete_document(&mut e, &ann, "d1").unwrap();
    assert!(matches!(get_document(&e, &ann, "d1"), Err(AppError::NotFound)));
    assert_eq!(read_markdown(&e, "doc.md").unwrap(), "");
}

#[test]
fn deleting_a_folder_keeps_its_documents() {
    let mut e = engine();
    let ann = user("ann");
    create_folder(&mut e, &ann, CreateFolderRequest { name: "Top".to_string(), parent_id: None }, "f1", 1).unwrap();
    create_folder(&mut e, &ann, CreateFolderRequest { name: "Sub".to_string(), parent_id: Some("f1".to_string()) }, "f2", 1)
        .unwrap();
    new_doc(&mut e, &ann, "d1", Some("Inside"), Some("f1"));
    put(&mut e, &ann, "d1", "still here", "v1", 2_000).unwrap();
    assert!(matches!(delete_folder(&mut e, &user("bob"), "f1"), Err(AppError::NotFound)));
    delete_folder(&mut e, &ann, "f1").unwrap();
    let d = get_document(&e, &ann, "d1").unwrap();
    assert_eq!(d.folder_id, None);
    assert_eq!(d.file_path, "top/inside.md");
    assert_eq!(d.word_count, 2);
    assert_eq!(get_document_content(&e, &ann, "d1").unwrap().content, "still here");
    let folders = list_folders(&e, &ann).unwrap();
    assert_eq!(folders.len(), 1);
    assert_eq!((folders[0].id.as_str(), folders[0].parent_id.clone()), ("f2", None));
    assert_eq!(hits(&e, &ann, "still"), vec!["d1"]);
}

#[test]
fn folders_are_updated_through_the_engine() {
    let mut e = engine();
    let ann = user("ann");
    create_folder(&mut e, &ann, CreateFolderRequest { name: "A".to_string(), parent_id: None }, "f1", 1).unwrap();
    let req = UpdateFolderRequest { name: Some("B".to_string()), parent_id: None, sort_order: Some(4) };
    let f = update_folder(&mut e, &ann, "f1", &req, 9).unwrap();
    assert_eq!((f.name.as_str(), f.sort_order, f.updated_at, f.slug.as_str()), ("B", 4, 9, "a"));
    assert!(matches!(update_folder(&mut e, &user("bob"), "f1", &req, 9), Err(AppError::NotFound)));
    let dup = create_folder(&mut e, &ann, CreateFolderRequest { name: "C".to_string(), parent_id: None }, "f1", 2);
    assert!(matches!(dup, Err(AppError::Database(_))));
    e.faults.metadata_read = true;
    assert!(matches!(list_folders(&e, &ann), Err(AppError::Database(_))));
    assert!(matches!(list_documents(&e, &ann), Err(AppError::Database(_))));
    assert!(matches!(get_document(&e, &ann, "d"), Err(AppError::Database(_))));
}

#[test]
fn listing_through_the_engine_is_scoped_and_ordered() {
    let mut e = engine();
    let ann = user("ann");
    new_doc(&mut e, &ann, "a", Some("A"), None);
    new_doc(&mut e, &ann, "b", Some("B"), None);
    new_doc(&mut e, &user("bob"), "c", Some("C"), None);
    put(&mut e, &ann, "a", "later", "v1", 5_000).unwrap();
    let ids: Vec<String> = list_documents(&e, &ann).unwrap().into_iter().map(|d| d.id).collect();
    assert_eq!(ids, vec!["a", "b"]);
    let pin = UpdateDocumentRequest { title: None, folder_id: None, is_pinned: Some(true), is_archived: None };
    update_document(&mut e, &ann, "b", &pin, 1_001).unwrap();
    let ids: Vec<String> = list_documents(&e, &ann).unwrap().into_iter().map(|d| d.id).collect();
    assert_eq!(ids, vec!["b", "a"]);
}
