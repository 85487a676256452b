use tecindo::error::AppError;
use tecindo::metadata::{
    create_document, create_folder, delete_document, delete_folder, get_document, get_folder,
    list_documents, list_folders, list_untitled_titles, load_document, load_folder,
    update_document, update_document_stats, update_folder, DocumentRecord, FolderRecord,
    MetadataStore,
};
use tecindo::models::{
    CreateDocumentRequest, Document, Folder, UpdateDocumentRequest, UpdateFolderRequest,
};

fn add(store: &mut MetadataStore, id: &str, title: Option<&str>, folder: Option<&str>, user: &str, now: i64) {
    let req = CreateDocumentRequest {
        title: title.map(|t| t.to_string()),
        folder_id: folder.map(|f| f.to_string()),
    };
    create_document(store, id, &req, format!("{}.md", id), format!("slug-{}", id), user, now).unwrap();
}

fn no_change() -> UpdateDocumentRequest {
    UpdateDocumentRequest { title: None, folder_id: None, is_pinned: None, is_archived: None }
}

fn ids(store: &MetadataStore, user: &str) -> Vec<String> {
    list_documents(store, user).into_iter().map(|d| d.id).collect()
}

#[test]
fn a_created_document_has_the_defaults() {
    let mut store = MetadataStore::new();
    let req = CreateDocumentRequest { title: Some("Plan".to_string()), folder_id: Some("f".to_string()) };
    let d = create_document(&mut store, "d1", &req, "f/plan.md".to_string(), "plan".to_string(), "u", 42)
        .unwrap();
    assert_eq!(d.id, "d1");
    assert_eq!(d.title, "Plan");
    assert_eq!(d.folder_id, Some("f".to_string()));
    assert_eq!(d.slug, "plan");
    assert_eq!(d.file_path, "f/plan.md");
    assert_eq!(d.word_count, 0);
    assert_eq!(d.char_count, 0);
    assert_eq!(d.excerpt, None);
    assert_eq!(d.is_pinned, 0);
    assert_eq!(d.is_archived, 0);
    assert_eq!(d.created_at, 42);
    assert_eq!(d.updated_at, 42);
    assert_eq!(store.document_rowid("d1"), Some(1));
    let again = get_document(&store, "d1", "u").unwrap();
    assert_eq!(again.title, "Plan");
}

#[test]
fn a_document_without_title_is_untitled() {
    let mut store = MetadataStore::new();
    add(&mut store, "d1", None, None, "u", 1);
    assert_eq!(get_document(&store, "d1", "u").unwrap().title, "Untitled");
}

#[test]
fn another_users_document_is_not_found() {
    let mut store = MetadataStore::new();
    add(&mut store, "d1", Some("mine"), None, "alice", 1);
    assert!(get_document(&store, "d1", "bob").is_none());
    assert!(update_document(&mut store, "d1", &no_change(), "bob", 2).is_none());
    assert!(!update_document_stats(&mut store, "d1", "bob", 1, 1, None, 2));
    assert!(!delete_document(&mut store, "d1", "bob"));
    assert!(list_documents(&store, "bob").is_empty());
    assert_eq!(get_document(&store, "d1", "alice").unwrap().updated_at, 1);
}

#[test]
fn ids_and_paths_are_unique() {
    let mut store = MetadataStore::new();
    add(&mut store, "d1", Some("a"), None, "u", 1);
    let req = CreateDocumentRequest { title: None, folder_id: None };
    let same_id = create_document(&mut store, "d1", &req, "x.md".to_string(), "x".to_string(), "v", 2);
    assert!(matches!(same_id, Err(AppError::Database(_))));
    let same_path = create_document(&mut store, "d2", &req, "d1.md".to_string(), "x".to_string(), "v", 2);
    assert!(matches!(same_path, Err(AppError::Database(_))));
    assert_eq!(store.records().len(), 1);
    assert_eq!(store.document_rowid("d2"), None);
}

#[test]
fn the_path_of_a_deleted_document_is_not_given_out_again() {
    let mut store = MetadataStore::new();
    add(&mut store, "d1", Some("a"), None, "u", 1);
    assert!(delete_document(&mut store, "d1", "u"));
    assert!(get_document(&store, "d1", "u").is_none());
    assert!(!delete_document(&mut store, "d1", "u"));
    let req = CreateDocumentRequest { title: None, folder_id: None };
    let reused = create_document(&mut store, "d2", &req, "d1.md".to_string(), "a".to_string(), "u", 2);
    assert!(matches!(reused, Err(AppError::Database(_))));
    let fresh = create_document(&mut store, "d1", &req, "other.md".to_string(), "a".to_string(), "u", 3);
    assert!(fresh.is_ok());
    assert_eq!(store.document_rowid("d1"), Some(2));
}

#[test]
fn listing_is_pinned_first_then_latest_first() {
    let mut store = MetadataStore::new();
    add(&mut store, "old", Some("a"), None, "u", 10);
    add(&mut store, "new", Some("b"), None, "u", 30);
    add(&mut store, "mid", Some("c"), None, "u", 20);
    add(&mut store, "pin", Some("d"), None, "u", 5);
    add(&mut store, "not-mine", Some("e"), None, "v", 99);
    assert_eq!(ids(&store, "u"), vec!["new", "mid", "old", "pin"]);
    let mut req = no_change();
    req.is_pinned = Some(true);
    let d = update_document(&mut store, "pin", &req, "u", 6).unwrap();
    assert_eq!(d.is_pinned, 1);
    assert_eq!(ids(&store, "u"), vec!["pin", "new", "mid", "old"]);
    update_document(&mut store, "old", &req, "u", 40).unwrap();
    assert_eq!(ids(&store, "u"), vec!["old", "pin", "new", "mid"]);
    assert_eq!(ids(&store, "v"), vec!["not-mine"]);
}

#[test]
fn an_update_changes_only_what_it_holds() {
    let mut store = MetadataStore::new();
    add(&mut store, "d1", Some("Title"), Some("f1"), "u", 1);
    update_document_stats(&mut store, "d1", "u", 3, 14, Some("one two three".to_string()), 2);
    let mut req = no_change();
    req.title = Some("Renamed".to_string());
    let d = update_document(&mut store, "d1", &req, "u", 50).unwrap();
    assert_eq!(d.title, "Renamed");
    assert_eq!(d.folder_id, Some("f1".to_string()));
    assert_eq!(d.slug, "slug-d1");
    assert_eq!(d.file_path, "d1.md");
    assert_eq!(d.word_count, 3);
    assert_eq!(d.char_count, 14);
    assert_eq!(d.excerpt, Some("one two three".to_string()));
    assert_eq!(d.is_pinned, 0);
    assert_eq!(d.is_archived, 0);
    assert_eq!(d.created_at, 1);
    assert_eq!(d.updated_at, 50);
    let mut req = no_change();
    req.is_archived = Some(true);
    let d = update_document(&mut store, "d1", &req, "u", 60).unwrap();
    assert_eq!(d.title, "Renamed");
    assert_eq!(d.is_archived, 1);
    req.is_archived = Some(false);
    assert_eq!(update_document(&mut store, "d1", &req, "u", 61).unwrap().is_archived, 0);
}

#[test]
fn the_folder_of_an_update_has_three_states() {
    let mut store = MetadataStore::new();
    add(&mut store, "d1", Some("Title"), Some("f1"), "u", 1);
    let d = update_document(&mut store, "d1", &no_change(), "u", 2).unwrap();
    assert_eq!(d.folder_id, Some("f1".to_string()));
    assert_eq!(d.updated_at, 2);
    let mut req = no_change();
    req.folder_id = Some(Some("f2".to_string()));
    assert_eq!(update_document(&mut store, "d1", &req, "u", 3).unwrap().folder_id, Some("f2".to_string()));
    req.folder_id = Some(None);
    assert_eq!(update_document(&mut store, "d1", &req, "u", 4).unwrap().folder_id, None);
    assert_eq!(get_document(&store, "d1", "u").unwrap().folder_id, None);
}

#[test]
fn stats_are_recorded() {
    let mut store = MetadataStore::new();
    add(&mut store, "d1", Some("Title"), None, "u", 1);
    assert!(update_document_stats(&mut store, "d1", "u", 2, 9, Some("hello new".to_string()), 7));
    let d = get_document(&store, "d1", "u").unwrap();
    assert_eq!(d.word_count, 2);
    assert_eq!(d.char_count, 9);
    assert_eq!(d.excerpt, Some("hello new".to_string()));
    assert_eq!(d.updated_at, 7);
    assert_eq!(d.created_at, 1);
    assert_eq!(d.title, "Title");
    assert!(!update_document_stats(&mut store, "none", "u", 0, 0, None, 8));
}

#[test]
fn untitled_titles_of_one_folder_and_owner() {
    let mut store = MetadataStore::new();
    add(&mut store, "a", Some("Untitled"), None, "u", 1);
    add(&mut store, "b", Some("Untitled_2"), None, "u", 2);
    add(&mut store, "c", Some("Untitled_9"), Some("f"), "u", 3);
    add(&mut store, "d", Some("Untitled_7"), None, "v", 4);
    add(&mut store, "e", Some("Notes"), None, "u", 5);
    add(&mut store, "g", Some("Untitledish"), None, "u", 6);
    add(&mut store, "h", Some("untitled"), None, "u", 7);
    assert_eq!(list_untitled_titles(&store, None, "u"), vec!["Untitled", "Untitled_2", "Untitledish"]);
    assert_eq!(list_untitled_titles(&store, Some("f"), "u"), vec!["Untitled_9"]);
    assert_eq!(list_untitled_titles(&store, None, "v"), vec!["Untitled_7"]);
    assert!(list_untitled_titles(&store, Some("g"), "u").is_empty());
}

#[test]
fn folders_are_created_found_and_listed() {
    let mut store = MetadataStore::new();
    let f = create_folder(&mut store, "f1", "Zeta".to_string(), None, "zeta".to_string(), "u", 5).unwrap();
    assert_eq!(f.id, "f1");
    assert_eq!(f.name, "Zeta");
    assert_eq!(f.slug, "zeta");
    assert_eq!(f.parent_id, None);
    assert_eq!(f.sort_order, 0);
    assert_eq!(f.created_at, 5);
    assert_eq!(f.updated_at, 5);
    create_folder(&mut store, "f2", "Alpha".to_string(), Some("f1".to_string()), "alpha".to_string(), "u", 6)
        .unwrap();
    create_folder(&mut store, "f3", "Alp".to_string(), None, "alp".to_string(), "u", 7).unwrap();
    create_folder(&mut store, "f4", "Other".to_string(), None, "other".to_string(), "v", 8).unwrap();
    let again = create_folder(&mut store, "f1", "Dup".to_string(), None, "dup".to_string(), "v", 9);
    assert!(matches!(again, Err(AppError::Database(_))));
    let names: Vec<String> = list_folders(&store, "u").into_iter().map(|f| f.name).collect();
    assert_eq!(names, vec!["Alp", "Alpha", "Zeta"]);
    let req = UpdateFolderRequest { name: None, parent_id: None, sort_order: Some(-1) };
    update_folder(&mut store, "f1", &req, "u", 10).unwrap();
    let names: Vec<String> = list_folders(&store, "u").into_iter().map(|f| f.name).collect();
    assert_eq!(names, vec!["Zeta", "Alp", "Alpha"]);
    assert!(get_folder(&store, "f1", "v").is_none());
    assert_eq!(get_folder(&store, "f2", "u").unwrap().parent_id, Some("f1".to_string()));
}

#[test]
fn a_folder_update_changes_only_what_it_holds() {
    let mut store = MetadataStore::new();
    create_folder(&mut store, "f1", "Name".to_string(), None, "name".to_string(), "u", 5).unwrap();
    let none = UpdateFolderRequest { name: None, parent_id: None, sort_order: None };
    let f = update_folder(&mut store, "f1", &none, "u", 9).unwrap();
    assert_eq!(f.updated_at, 5);
    let req = UpdateFolderRequest { name: Some("New".to_string()), parent_id: Some("p".to_string()), sort_order: None };
    let f = update_folder(&mut store, "f1", &req, "u", 10).unwrap();
    assert_eq!(f.name, "New");
    assert_eq!(f.parent_id, Some("p".to_string()));
    assert_eq!(f.slug, "name");
    assert_eq!(f.sort_order, 0);
    assert_eq!(f.created_at, 5);
    assert_eq!(f.updated_at, 10);
    assert!(update_folder(&mut store, "f1", &req, "v", 11).is_none());
    assert!(update_folder(&mut store, "f9", &req, "u", 11).is_none());
}

#[test]
fn deleting_a_folder_detaches_what_was_in_it() {
    let mut store = MetadataStore::new();
    create_folder(&mut store, "f1", "Top".to_string(), None, "top".to_string(), "u", 1).unwrap();
    create_folder(&mut store, "f2", "Child".to_string(), Some("f1".to_string()), "child".to_string(), "u", 2)
        .unwrap();
    create_folder(&mut store, "f3", "Grandchild".to_string(), Some("f2".to_string()), "gc".to_string(), "u", 3)
        .unwrap();
    add(&mut store, "in", Some("inside"), Some("f1"), "u", 4);
    add(&mut store, "deep", Some("deeper"), Some("f2"), "u", 5);
    add(&mut store, "root", Some("at root"), None, "u", 6);
    update_document_stats(&mut store, "in", "u", 2, 5, Some("a b c".to_string()), 7);
    assert!(!delete_folder(&mut store, "f1", "v"));
    assert!(delete_folder(&mut store, "f1", "u"));
    assert!(!delete_folder(&mut store, "f1", "u"));
    assert!(get_folder(&store, "f1", "u").is_none());
    let inside = get_document(&store, "in", "u").unwrap();
    assert_eq!(inside.folder_id, None);
    assert_eq!(inside.title, "inside");
    assert_eq!(inside.file_path, "in.md");
    assert_eq!(inside.word_count, 2);
    assert_eq!(inside.excerpt, Some("a b c".to_string()));
    assert_eq!(inside.updated_at, 7);
    assert_eq!(get_document(&store, "deep", "u").unwrap().folder_id, Some("f2".to_string()));
    assert_eq!(get_document(&store, "root", "u").unwrap().folder_id, None);
    assert_eq!(get_folder(&store, "f2", "u").unwrap().parent_id, None);
    assert_eq!(get_folder(&store, "f2", "u").unwrap().updated_at, 2);
    assert_eq!(get_folder(&store, "f3", "u").unwrap().parent_id, Some("f2".to_string()));
    assert_eq!(list_documents(&store, "u").len(), 3);
    assert_eq!(list_folders(&store, "u").len(), 2);
}

fn record(id: &str, rowid: i64, path: &str, user: &str) -> DocumentRecord {
    DocumentRecord {
        rowid,
        user_id: user.to_string(),
        document: Document {
            id: id.to_string(),
            folder_id: Some("f".to_string()),
            title: "Kept".to_string(),
            slug: "kept".to_string(),
            file_path: path.to_string(),
            word_count: 4,
            char_count: 20,
            excerpt: Some("kept text".to_string()),
            is_pinned: 1,
            is_archived: 0,
            created_at: 10,
            updated_at: 20,
        },
    }
}

#[test]
fn kept_documents_are_taken_in_as_they_are() {
    let mut store = MetadataStore::new();
    load_document(&mut store, record("d7", 7, "kept.md", "u")).unwrap();
    let d = get_document(&store, "d7", "u").unwrap();
    assert_eq!(d.title, "Kept");
    assert_eq!(d.folder_id, Some("f".to_string()));
    assert_eq!(d.word_count, 4);
    assert_eq!(d.excerpt, Some("kept text".to_string()));
    assert_eq!((d.is_pinned, d.created_at, d.updated_at), (1, 10, 20));
    assert_eq!(store.document_rowid("d7"), Some(7));
    load_document(&mut store, record("d3", 3, "older.md", "u")).unwrap();
    add(&mut store, "new", Some("n"), None, "u", 30);
    assert_eq!(store.document_rowid("new"), Some(8));
    assert_eq!(store.records().len(), 3);
}

#[test]
fn kept_documents_that_collide_are_refused() {
    let mut store = MetadataStore::new();
    load_document(&mut store, record("d1", 1, "a.md", "u")).unwrap();
    assert!(matches!(load_document(&mut store, record("d1", 2, "b.md", "u")), Err(AppError::Database(_))));
    assert!(matches!(load_document(&mut store, record("d2", 2, "a.md", "u")), Err(AppError::Database(_))));
    assert!(matches!(load_document(&mut store, record("d2", 1, "b.md", "u")), Err(AppError::Database(_))));
    assert!(matches!(load_document(&mut store, record("d2", 0, "b.md", "u")), Err(AppError::Database(_))));
    assert!(matches!(load_document(&mut store, record("d2", -4, "b.md", "u")), Err(AppError::Database(_))));
    assert!(matches!(
        load_document(&mut store, record("d2", i64::MAX, "b.md", "u")),
        Err(AppError::Database(_))
    ));
    assert_eq!(store.records().len(), 1);
    delete_document(&mut store, "d1", "u");
    assert!(matches!(load_document(&mut store, record("d3", 3, "a.md", "u")), Err(AppError::Database(_))));
    load_document(&mut store, record("d3", 3, "c.md", "u")).unwrap();
}

#[test]
fn kept_folders_are_taken_in_as_they_are() {
    let mut store = MetadataStore::new();
    let folder = Folder {
        id: "f1".to_string(),
        parent_id: Some("p".to_string()),
        name: "Kept".to_string(),
        slug: "kept".to_string(),
        sort_order: 3,
        created_at: 1,
        updated_at: 2,
    };
    load_folder(&mut store, FolderRecord { user_id: "u".to_string(), folder: folder.clone() }).unwrap();
    let again = load_folder(&mut store, FolderRecord { user_id: "v".to_string(), folder });
    assert!(matches!(again, Err(AppError::Database(_))));
    assert_eq!(store.folder_records().len(), 1);
    let f = get_folder(&store, "f1", "u").unwrap();
    assert_eq!((f.name.as_str(), f.sort_order, f.created_at, f.updated_at), ("Kept", 3, 1, 2));
    assert_eq!(f.parent_id, Some("p".to_string()));
}
