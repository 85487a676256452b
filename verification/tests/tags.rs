use tecindo::error::AppError;
use tecindo::metadata::{create_document, update_document, MetadataStore};
use tecindo::models::{CreateDocumentRequest, UpdateDocumentRequest};
use tecindo::tags::{
    add_tag_to_document, create_tag, delete_tag, documents_with_tag, get_document_tags, get_tag,
    list_documents_by_tag, list_tags, remove_tag_from_document, update_tag, CreateTagRequest,
    TagStore, UpdateTagRequest,
};

fn tag(store: &mut TagStore, id: &str, name: &str, color: Option<&str>) {
    let req = CreateTagRequest { name: name.to_string(), color: color.map(|c| c.to_string()) };
    create_tag(store, id, &req).unwrap();
}

fn names(tags: Vec<tecindo::tags::Tag>) -> Vec<String> {
    tags.into_iter().map(|t| t.name).collect()
}

#[test]
fn tags_are_created_and_found() {
    let mut store = TagStore::new();
    let req = CreateTagRequest { name: "work".to_string(), color: Some("#f00".to_string()) };
    let t = create_tag(&mut store, "t1", &req).unwrap();
    assert_eq!((t.id.as_str(), t.name.as_str(), t.color.clone()), ("t1", "work", Some("#f00".to_string())));
    assert!(matches!(create_tag(&mut store, "t1", &req), Err(AppError::Database(_))));
    assert_eq!(get_tag(&store, "t1").unwrap().name, "work");
    assert!(get_tag(&store, "t2").is_none());
    assert_eq!(store.all_tags().len(), 1);
}

#[test]
fn tags_are_listed_by_name() {
    let mut store = TagStore::new();
    tag(&mut store, "1", "work", None);
    tag(&mut store, "2", "home", None);
    tag(&mut store, "3", "Work", None);
    tag(&mut store, "4", "ho", None);
    tag(&mut store, "5", "", None);
    assert_eq!(names(list_tags(&store)), vec!["", "Work", "ho", "home", "work"]);
}

#[test]
fn a_tag_update_changes_only_what_it_holds() {
    let mut store = TagStore::new();
    tag(&mut store, "1", "work", Some("red"));
    let t = update_tag(&mut store, "1", &UpdateTagRequest { name: None, color: None }).unwrap();
    assert_eq!((t.name.as_str(), t.color.clone()), ("work", Some("red".to_string())));
    let t = update_tag(&mut store, "1", &UpdateTagRequest { name: Some("job".to_string()), color: None })
        .unwrap();
    assert_eq!((t.name.as_str(), t.color.clone()), ("job", Some("red".to_string())));
    let t = update_tag(&mut store, "1", &UpdateTagRequest { name: None, color: Some("blue".to_string()) })
        .unwrap();
    assert_eq!((t.id.as_str(), t.name.as_str(), t.color.clone()), ("1", "job", Some("blue".to_string())));
    assert!(update_tag(&mut store, "2", &UpdateTagRequest { name: None, color: None }).is_none());
    assert_eq!(get_tag(&store, "1").unwrap().color, Some("blue".to_string()));
}

#[test]
fn a_tag_is_deleted_once() {
    let mut store = TagStore::new();
    tag(&mut store, "1", "a", None);
    tag(&mut store, "2", "b", None);
    assert!(delete_tag(&mut store, "1"));
    assert!(!delete_tag(&mut store, "1"));
    assert!(get_tag(&store, "1").is_none());
    assert_eq!(names(list_tags(&store)), vec!["b"]);
}

#[test]
fn a_document_carries_a_tag_once() {
    let mut store = TagStore::new();
    tag(&mut store, "1", "b", None);
    tag(&mut store, "2", "a", None);
    tag(&mut store, "3", "c", None);
    add_tag_to_document(&mut store, "doc", "1");
    add_tag_to_document(&mut store, "doc", "1");
    add_tag_to_document(&mut store, "doc", "2");
    add_tag_to_document(&mut store, "other", "3");
    assert_eq!(store.all_links().len(), 3);
    assert_eq!(names(get_document_tags(&store, "doc")), vec!["a", "b"]);
    assert_eq!(names(get_document_tags(&store, "other")), vec!["c"]);
    assert!(get_document_tags(&store, "none").is_empty());
    assert!(remove_tag_from_document(&mut store, "doc", "1"));
    assert!(!remove_tag_from_document(&mut store, "doc", "1"));
    assert!(!remove_tag_from_document(&mut store, "doc", "3"));
    assert_eq!(names(get_document_tags(&store, "doc")), vec!["a"]);
}

#[test]
fn a_deleted_tag_shows_on_no_document() {
    let mut store = TagStore::new();
    tag(&mut store, "1", "a", None);
    add_tag_to_document(&mut store, "doc", "1");
    delete_tag(&mut store, "1");
    assert!(get_document_tags(&store, "doc").is_empty());
}

#[test]
fn documents_are_listed_by_tag() {
    let mut docs = MetadataStore::new();
    let mut tags = TagStore::new();
    for (id, user, now) in [("a", "u", 10), ("b", "u", 30), ("c", "u", 20), ("d", "v", 40)] {
        let req = CreateDocumentRequest { title: Some(id.to_string()), folder_id: None };
        create_document(&mut docs, id, &req, format!("{}.md", id), id.to_string(), user, now).unwrap();
    }
    tag(&mut tags, "t", "tag", None);
    for id in ["a", "c", "d"] {
        add_tag_to_document(&mut tags, id, "t");
    }
    let ids = |docs: &MetadataStore, tags: &TagStore, user: &str| -> Vec<String> {
        list_documents_by_tag(docs, tags, "t", user).into_iter().map(|d| d.id).collect()
    };
    assert_eq!(ids(&docs, &tags, "u"), vec!["c", "a"]);
    assert_eq!(ids(&docs, &tags, "v"), vec!["d"]);
    let pin = UpdateDocumentRequest { title: None, folder_id: None, is_pinned: Some(true), is_archived: None };
    update_document(&mut docs, "a", &pin, "u", 11).unwrap();
    assert_eq!(ids(&docs, &tags, "u"), vec!["a", "c"]);
    assert!(list_documents_by_tag(&docs, &tags, "none", "u").is_empty());
    assert_eq!(documents_with_tag(&tags, "t"), vec!["a", "c", "d"]);
    assert!(documents_with_tag(&tags, "x").is_empty());
}
