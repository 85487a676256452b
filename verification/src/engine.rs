//! The engine: the content store, the metadata store, the version manager
//! and the search index, and the operations that keep them in step.
//!
//! The four stores fail independently and no transaction spans them. Each
//! operation therefore runs as a fixed sequence of steps, and for each step
//! it is fixed whether its failure aborts the operation or is passed over.
//! `Faults` tells the engine which stores are failing: a caller that keeps
//! the stores on disk reports their failures through it, and every path of
//! an operation can be exercised by setting it.

use vstd::prelude::*;
use crate::content::ContentStore;
use crate::error::{AppError, IoErrorKind};
use crate::metadata::{
    detached_documents, detached_folders, document_place, folder_place, folders_sorted,
    has_document, has_document_id, has_file_path, has_folder, has_folder_id, is_retired,
    lemma_document_place_unique, list_untitled_titles, listing_sorted, new_document_view,
    new_folder_view, owned_documents, owned_folders, restated_document_view, untitled_titles,
    update_document_stats, updated_document_view, updated_folder_view, DocumentRecord,
    FolderRecord, MetadataStore, MetadataView,
};
use crate::models::{
    stored_count, to_stored_count, AuthUser, CreateDocumentRequest, CreateFolderRequest, Document,
    DocumentContent, DocumentVersion, DocumentVersionSummary, Folder, SearchQuery,
    UpdateDocumentRequest, UpdateFolderRequest,
};
use crate::naming::{generate_untitled_name, untitled_name};
use crate::paths::{file_path_for, file_path_of, slug_of, slugify};
use crate::pipeline::{completes, lemma_completes, StepOutcomes};
use crate::search::{
    index_document, is_ranking, reindexed, search_documents, top_documents, words_of, PostingView,
    SearchIndex,
};
use crate::strings::{clone_opt_string, opt_view};
use crate::text::{count_chars, count_words, derive_excerpt, excerpt_of, word_count};
use crate::versions::{
    create_version, has_id, is_unsaved, latest_version, needs_version_snapshot, newest_first,
    prune_result, prune_versions, should_create_version, snapshot_due, VersionStore,
};

verus! {

/// The stores that are failing.
pub struct Faults {
    /// Reads of the content store fail with this kind.
    pub content_read: Option<IoErrorKind>,
    /// Writes to the content store fail with this kind.
    pub content_write: Option<IoErrorKind>,
    /// Reads of the metadata store fail.
    pub metadata_read: bool,
    /// Writes to the metadata store fail.
    pub metadata_write: bool,
    /// The version manager fails.
    pub versions: bool,
    /// The search index fails.
    pub search: bool,
}

/// The faults under which no store fails.
pub open spec fn no_faults() -> Faults {
    Faults {
        content_read: None,
        content_write: None,
        metadata_read: false,
        metadata_write: false,
        versions: false,
        search: false,
    }
}

impl Faults {
    /// No store fails.
    pub fn none() -> (f: Self)
        ensures
            f == no_faults(),
    {
        Faults {
            content_read: None,
            content_write: None,
            metadata_read: false,
            metadata_write: false,
            versions: false,
            search: false,
        }
    }
}

/// The four stores and the settings that the operations run with.
pub struct Engine {
    pub content: ContentStore,
    pub metadata: MetadataStore,
    pub versions: VersionStore,
    pub index: SearchIndex,
    pub faults: Faults,
    /// How many snapshots are kept per document.
    pub max_document_versions: u32,
    /// Minimum time between two automatic snapshots of a document, in minutes.
    pub version_interval_minutes: u32,
}

/// Tells whether two engines hold the same: store by store, and the same
/// faults and settings.
pub open spec fn same_state(old: Engine, new: Engine) -> bool {
    &&& new.content@ == old.content@
    &&& new.metadata@ == old.metadata@
    &&& new.versions@ == old.versions@
    &&& new.index@ == old.index@
    &&& new.faults == old.faults
    &&& new.max_document_versions == old.max_document_versions
    &&& new.version_interval_minutes == old.version_interval_minutes
}

/// What reading `path` from the content store gives.
pub open spec fn read_outcome(
    blobs: Map<Seq<char>, Seq<char>>,
    fault: Option<IoErrorKind>,
    path: Seq<char>,
) -> Result<Seq<char>, IoErrorKind> {
    match fault {
        Some(kind) => Err(kind),
        None => if blobs.dom().contains(path) {
            Ok(blobs[path])
        } else {
            Err(IoErrorKind::NotFound)
        },
    }
}

/// The prior content that an update works with: what a read gives, or
/// nothing when the read fails.
pub open spec fn prior_content(
    blobs: Map<Seq<char>, Seq<char>>,
    fault: Option<IoErrorKind>,
    path: Seq<char>,
) -> Option<Seq<char>> {
    match read_outcome(blobs, fault, path) {
        Ok(text) => Some(text),
        Err(_) => None,
    }
}

/// Tells whether `new` is `old` with the counts and the excerpt of
/// `content` recorded for the document `id`, updated at `now`.
pub open spec fn stats_recorded(
    old: MetadataView,
    new: MetadataView,
    id: Seq<char>,
    content: Seq<char>,
    now: i64,
) -> bool {
    let i = document_place(old.documents, id);
    &&& new.documents.len() == old.documents.len()
    &&& new.documents[i].document@ == restated_document_view(
        old.documents[i].document@,
        stored_count(word_count(content)),
        stored_count(content.len()),
        excerpt_of(content),
        now,
    )
    &&& new == (MetadataView {
        documents: old.documents.update(
            i,
            DocumentRecord { document: new.documents[i].document, ..old.documents[i] },
        ),
        ..old
    })
}

/// Tells whether `new` is `old` with one more snapshot, of `content`, for
/// the document `doc`, under its next version number.
pub open spec fn snapshot_taken(
    old: Seq<DocumentVersion>,
    new: Seq<DocumentVersion>,
    version_id: Seq<char>,
    doc: Seq<char>,
    content: Seq<char>,
    now: i64,
) -> bool {
    &&& new.len() == old.len() + 1
    &&& new.drop_last() == old
    &&& new.last().id@ == version_id
    &&& new.last().document_id@ == doc
    &&& new.last().version_number == latest_version(old, doc) + 1
    &&& new.last().content@ == content
    &&& new.last().word_count == stored_count(word_count(content))
    &&& new.last().char_count == stored_count(content.len())
    &&& new.last().created_at == now
}

/// Tells whether a snapshot can be recorded: its id is free and the
/// document's version numbers are not used up.
pub open spec fn snapshot_possible(old: Seq<DocumentVersion>, version_id: Seq<char>, doc: Seq<char>) -> bool {
    !has_id(old, version_id) && latest_version(old, doc) < i64::MAX
}

/// What the version manager holds after the snapshot step of an update: as
/// before when it fails or no snapshot is due; else one more snapshot, if it
/// can be recorded, and the document pruned to `max` snapshots.
pub open spec fn versions_after_update(
    old: Seq<DocumentVersion>,
    new: Seq<DocumentVersion>,
    fault: bool,
    version_id: Seq<char>,
    doc: Seq<char>,
    content: Seq<char>,
    now: i64,
    interval_minutes: u32,
    max: u32,
) -> bool {
    if fault || !snapshot_due(old, doc, now as int, interval_minutes as int) {
        new == old
    } else if snapshot_possible(old, version_id, doc) {
        exists|mid: Seq<DocumentVersion>| #[trigger]
            snapshot_taken(old, mid, version_id, doc, content, now) && new == prune_result(
                mid,
                doc,
                max as int,
            )
    } else {
        new == prune_result(old, doc, max as int)
    }
}

/// What the search index holds after the last step of an update: as before
/// when it fails; else the document indexed anew, its prior postings taken
/// out first when the prior content is known.
pub open spec fn index_after_update(
    old: Seq<PostingView>,
    fault: bool,
    rowid: i64,
    title: Seq<char>,
    content: Seq<char>,
    prior: Option<Seq<char>>,
) -> Seq<PostingView> {
    if fault {
        old
    } else {
        reindexed(old, rowid, title, content, Some(title), prior)
    }
}

impl Engine {
    /// The engine's invariant: that of each store.
    pub open spec fn wf(&self) -> bool {
        &&& self.content.wf()
        &&& self.metadata.wf()
        &&& self.versions.wf()
    }

    /// An engine with empty stores, in which nothing fails.
    pub fn new(max_document_versions: u32, version_interval_minutes: u32) -> (e: Self)
        ensures
            e.wf(),
            e.content@ == Map::<Seq<char>, Seq<char>>::empty(),
            e.metadata@.documents.len() == 0,
            e.metadata@.folders.len() == 0,
            e.metadata@.retired_paths.len() == 0,
            e.metadata@.next_rowid == 1,
            e.versions@.len() == 0,
            e.index@.len() == 0,
            e.faults == no_faults(),
            e.max_document_versions == max_document_versions,
            e.version_interval_minutes == version_interval_minutes,
    {
        Engine {
            content: ContentStore::new(),
            metadata: MetadataStore::new(),
            versions: VersionStore::new(),
            index: SearchIndex::new(),
            faults: Faults::none(),
            max_document_versions,
            version_interval_minutes,
        }
    }
}

/// Reads the content stored under `file_path`.
pub fn read_markdown(engine: &Engine, file_path: &str) -> (r: Result<String, AppError>)
    requires
        engine.wf(),
    ensures
        match read_outcome(engine.content@, engine.faults.content_read, file_path@) {
            Ok(text) => r matches Ok(s) && s@ == text,
            Err(kind) => r matches Err(e) && e == AppError::Io(kind),
        },
{
    match engine.faults.content_read {
        Some(kind) => Err(AppError::Io(kind)),
        None => match engine.content.get(file_path) {
            Some(text) => Ok(text),
            None => Err(AppError::Io(IoErrorKind::NotFound)),
        },
    }
}

/// Stores `content` under `file_path`, in place of what was there. When the
/// write fails, nothing is changed.
pub fn write_markdown(engine: &mut Engine, file_path: &str, content: &str) -> (r: Result<(), AppError>)
    requires
        old(engine).wf(),
    ensures
        final(engine).wf(),
        match old(engine).faults.content_write {
            Some(kind) => r == Err::<(), AppError>(AppError::Io(kind)) && same_state(*old(engine), *final(engine)),
            None => r is Ok && *final(engine) == (Engine {
                content: final(engine).content,
                ..*old(engine)
            }) && final(engine).content@ == old(engine).content@.insert(file_path@, content@),
        },
{
    match engine.faults.content_write {
        Some(kind) => Err(AppError::Io(kind)),
        None => {
            engine.content.put(file_path, content);
            Ok(())
        },
    }
}

/// Round trip: a content that was written is what a read of the same path
/// returns, as long as nothing else is written there and reads do not fail.
pub proof fn lemma_write_then_read(
    blobs: Map<Seq<char>, Seq<char>>,
    path: Seq<char>,
    content: Seq<char>,
)
    ensures
        read_outcome(blobs.insert(path, content), None, path) == Ok::<Seq<char>, IoErrorKind>(content),
{
}

/// What a content update leaves behind and returns, step by step.
///
/// The document is looked up first: a failing lookup and a document that
/// the user does not own end the update before anything is touched. The
/// prior content is read next; a failing read only means that there is none.
/// A failing write ends the update with nothing changed. A failing metadata
/// update ends it with the content written and nothing else changed. From
/// there on the update succeeds, whatever the version manager and the
/// search index do.
pub open spec fn update_outcome(
    old: Engine,
    new: Engine,
    user: Seq<char>,
    id: Seq<char>,
    content: Seq<char>,
    version_id: Seq<char>,
    now: i64,
    r: Result<(), AppError>,
) -> bool {
    let docs = old.metadata@.documents;
    if old.faults.metadata_read {
        r matches Err(e) && e is Database && same_state(old, new)
    } else if !has_document(docs, id, user) {
        r matches Err(e) && e is NotFound && same_state(old, new)
    } else {
        let rec = docs[document_place(docs, id)];
        let path = rec.document.file_path@;
        match old.faults.content_write {
            Some(kind) => r == Err::<(), AppError>(AppError::Io(kind)) && same_state(old, new),
            None => {
                &&& new.content@ == old.content@.insert(path, content)
                &&& new.faults == old.faults
                &&& new.max_document_versions == old.max_document_versions
                &&& new.version_interval_minutes == old.version_interval_minutes
                &&& if old.faults.metadata_write {
                    &&& r matches Err(e) && e is Database
                    &&& new.metadata@ == old.metadata@
                    &&& new.versions@ == old.versions@
                    &&& new.index@ == old.index@
                } else {
                    &&& r is Ok
                    &&& stats_recorded(old.metadata@, new.metadata@, id, content, now)
                    &&& versions_after_update(
                        old.versions@,
                        new.versions@,
                        old.faults.versions,
                        version_id,
                        id,
                        content,
                        now,
                        old.version_interval_minutes,
                        old.max_document_versions,
                    )
                    &&& new.index@ == index_after_update(
                        old.index@,
                        old.faults.search,
                        rec.rowid,
                        rec.document.title@,
                        content,
                        prior_content(old.content@, old.faults.content_read, path),
                    )
                }
            },
        }
    }
}

/// How the steps of an update of the document `id`, whose content is stored
/// under `path`, turn out in the engine `e`.
pub open spec fn step_outcomes(
    e: Engine,
    path: Seq<char>,
    id: Seq<char>,
    version_id: Seq<char>,
    now: i64,
) -> StepOutcomes {
    StepOutcomes {
        read_prior: read_outcome(e.content@, e.faults.content_read, path) is Ok,
        write: e.faults.content_write is None,
        metadata: !e.faults.metadata_write,
        snapshot_due: e.faults.versions || snapshot_due(
            e.versions@,
            id,
            now as int,
            e.version_interval_minutes as int,
        ),
        snapshot: !e.faults.versions && snapshot_possible(e.versions@, version_id, id),
        prune: !e.faults.versions,
        reindex: !e.faults.search,
    }
}

/// An update of a document that the user owns is reported successful
/// exactly when its steps run to their end: when the content is written
/// and the metadata updated.
pub proof fn lemma_update_follows_the_steps(
    old: Engine,
    new: Engine,
    user: Seq<char>,
    id: Seq<char>,
    content: Seq<char>,
    version_id: Seq<char>,
    now: i64,
    r: Result<(), AppError>,
)
    requires
        update_outcome(old, new, user, id, content, version_id, now, r),
        !old.faults.metadata_read,
        has_document(old.metadata@.documents, id, user),
    ensures
        ({
            let docs = old.metadata@.documents;
            let path = docs[document_place(docs, id)].document.file_path@;
            r is Ok <==> completes(step_outcomes(old, path, id, version_id, now))
        }),
{
    let docs = old.metadata@.documents;
    let path = docs[document_place(docs, id)].document.file_path@;
    lemma_completes(step_outcomes(old, path, id, version_id, now));
}

/// Replaces the content of a document of the user.
///
/// The steps run in this order: read the prior content, write the new one,
/// record its counts and excerpt, take a snapshot if one is due and prune
/// the document's snapshots, index the document anew. `version_id` is the
/// id that a new snapshot receives.
pub fn update_document_content(
    engine: &mut Engine,
    auth_user: &AuthUser,
    id: &str,
    req: &DocumentContent,
    version_id: &str,
    now: i64,
) -> (r: Result<(), AppError>)
    requires
        old(engine).wf(),
    ensures
        final(engine).wf(),
        update_outcome(
            *old(engine),
            *final(engine),
            auth_user.user_id@,
            id@,
            req.content@,
            version_id@,
            now,
            r,
        ),
{
    let user_id: &str = auth_user.user_id.as_str();
    let content: &str = req.content.as_str();
    if engine.faults.metadata_read {
        return Err(AppError::Database("metadata store unavailable".to_owned()));
    }
    let document: Document = match crate::metadata::get_document(&engine.metadata, id, user_id) {
        Some(d) => d,
        None => {
            return Err(AppError::NotFound);
        },
    };
    let ghost before = engine.metadata@;
    let ghost place = document_place(before.documents, id@);
    let path: &str = document.file_path.as_str();
    let prior: Option<String> = match read_markdown(engine, path) {
        Ok(text) => Some(text),
        Err(_) => None,
    };
    match write_markdown(engine, path, content) {
        Err(e) => {
            return Err(e);
        },
        Ok(()) => {},
    }
    if engine.faults.metadata_write {
        return Err(AppError::Database("metadata store unavailable".to_owned()));
    }
    let word_count: i64 = to_stored_count(count_words(content));
    let char_count: i64 = to_stored_count(count_chars(content));
    let excerpt: Option<String> = derive_excerpt(content);
    update_document_stats(
        &mut engine.metadata,
        id,
        user_id,
        word_count,
        char_count,
        excerpt,
        now,
    );
    if !engine.faults.versions {
        if should_create_version(&engine.versions, id, now, engine.version_interval_minutes) {
            let ghost start = engine.versions@;
            let created = create_version(
                &mut engine.versions,
                version_id,
                id,
                content,
                word_count,
                char_count,
                now,
            );
            let ghost mid = engine.versions@;
            prune_versions(&mut engine.versions, id, engine.max_document_versions);
            proof {
                if created is Ok {
                    assert(snapshot_taken(start, mid, version_id@, id@, content@, now));
                }
            }
        }
    }
    if !engine.faults.search {
        proof {
            lemma_document_place_unique(engine.metadata@, id@, place);
        }
        let prior_text: Option<&str> = match &prior {
            Some(p) => Some(p.as_str()),
            None => None,
        };
        index_document(
            &mut engine.index,
            &engine.metadata,
            id,
            document.title.as_str(),
            content,
            Some(document.title.as_str()),
            prior_text,
        );
    }
    Ok(())
}

/// The title that a new document receives: the one asked for, or the first
/// default title that is free among the user's documents in the folder.
pub open spec fn title_for(v: MetadataView, req: CreateDocumentRequest, user: Seq<char>) -> Seq<char> {
    match req.title {
        Some(t) => t@,
        None => untitled_name(
            untitled_titles(v.documents, opt_view(req.folder_id), user, v.documents.len() as int),
        ),
    }
}

/// The slug of the folder that a new document is created in, when the
/// request names a folder that the user owns.
pub open spec fn folder_slug_for(v: MetadataView, req: CreateDocumentRequest, user: Seq<char>) -> Option<
    Seq<char>,
> {
    match req.folder_id {
        Some(f) => if has_folder(v.folders, f@, user) {
            Some(v.folders[folder_place(v.folders, f@)].folder.slug@)
        } else {
            None
        },
        None => None,
    }
}

/// The path under which the content of a new document is stored.
pub open spec fn path_for(v: MetadataView, req: CreateDocumentRequest, user: Seq<char>) -> Seq<char> {
    file_path_of(slug_of(title_for(v, req, user)), folder_slug_for(v, req, user))
}

/// Tells whether a document with this id and path can be recorded.
pub open spec fn can_record(v: MetadataView, id: Seq<char>, path: Seq<char>) -> bool {
    &&& !has_document_id(v.documents, id)
    &&& !has_file_path(v.documents, path)
    &&& !is_retired(v.retired_paths, path)
    &&& v.next_rowid < i64::MAX
}

/// What creating a document leaves behind and returns.
///
/// Nothing is touched when the metadata store cannot be read, when the id
/// or the path is taken, or when the empty content cannot be written. When
/// the record cannot be written, the empty content stays behind.
pub open spec fn create_outcome(
    old: Engine,
    new: Engine,
    user: Seq<char>,
    req: CreateDocumentRequest,
    id: Seq<char>,
    now: i64,
    r: Result<Document, AppError>,
) -> bool {
    let v = old.metadata@;
    let title = title_for(v, req, user);
    let path = path_for(v, req, user);
    if old.faults.metadata_read {
        r matches Err(e) && e is Database && same_state(old, new)
    } else if !can_record(v, id, path) {
        r matches Err(e) && e is Database && same_state(old, new)
    } else {
        match old.faults.content_write {
            Some(kind) => r matches Err(e) && e == AppError::Io(kind) && same_state(old, new),
            None => {
                &&& new.content@ == old.content@.insert(path, Seq::<char>::empty())
                &&& new.versions@ == old.versions@
                &&& new.index@ == old.index@
                &&& new.faults == old.faults
                &&& new.max_document_versions == old.max_document_versions
                &&& new.version_interval_minutes == old.version_interval_minutes
                &&& if old.faults.metadata_write {
                    r matches Err(e) && e is Database && new.metadata@ == v
                } else {
                    &&& r matches Ok(d)
                    &&& d@ == new_document_view(id, req, path, slug_of(title), now).with_title(title)
                    &&& new.metadata@.documents.len() == v.documents.len() + 1
                    &&& new.metadata@.documents.drop_last() == v.documents
                    &&& new.metadata@.documents.last().document == d
                    &&& new.metadata@.documents.last().user_id@ == user
                    &&& new.metadata@.documents.last().rowid == v.next_rowid
                    &&& new.metadata@.folders == v.folders
                    &&& new.metadata@.retired_paths == v.retired_paths
                    &&& new.metadata@.next_rowid == v.next_rowid + 1
                }
            },
        }
    }
}

/// Creates a document for the user, with an empty content.
///
/// Without a title in the request the document receives the first default
/// title that is free in its folder. Its content is stored under a path
/// made of the slug of its folder and the slug of its title.
pub fn create_document(
    engine: &mut Engine,
    auth_user: &AuthUser,
    req: &CreateDocumentRequest,
    id: &str,
    now: i64,
) -> (r: Result<Document, AppError>)
    requires
        old(engine).wf(),
    ensures
        final(engine).wf(),
        create_outcome(*old(engine), *final(engine), auth_user.user_id@, *req, id@, now, r),
{
    let user_id: &str = auth_user.user_id.as_str();
    if engine.faults.metadata_read {
        return Err(AppError::Database("metadata store unavailable".to_owned()));
    }
    let folder_id: Option<&str> = match &req.folder_id {
        Some(f) => Some(f.as_str()),
        None => None,
    };
    let title: String = match &req.title {
        Some(t) => t.clone(),
        None => {
            let existing = list_untitled_titles(&engine.metadata, folder_id, user_id);
            generate_untitled_name(existing.as_slice())
        },
    };
    let folder_slug: Option<String> = match folder_id {
        Some(f) => match crate::metadata::get_folder(&engine.metadata, f, user_id) {
            Some(folder) => Some(folder.slug),
            None => None,
        },
        None => None,
    };
    let slug: String = slugify(title.as_str());
    let file_path: String = file_path_for(
        slug.as_str(),
        match &folder_slug {
            Some(s) => Some(s.as_str()),
            None => None,
        },
    );
    if !engine.metadata.can_record(id, file_path.as_str()) {
        return Err(AppError::Database("document id or file path already used".to_owned()));
    }
    match write_markdown(engine, file_path.as_str(), "") {
        Err(e) => {
            return Err(e);
        },
        Ok(()) => {
            proof {
                reveal_strlit("");
                assert(""@ =~= Seq::<char>::empty());
            }
        },
    }
    if engine.faults.metadata_write {
        return Err(AppError::Database("metadata store unavailable".to_owned()));
    }
    let titled = CreateDocumentRequest {
        title: Some(title),
        folder_id: clone_opt_string(&req.folder_id),
    };
    crate::metadata::create_document(
        &mut engine.metadata,
        id,
        &titled,
        file_path,
        slug,
        user_id,
        now,
    )
}

/// What a partial update of a document leaves behind and returns.
pub open spec fn document_update_outcome(
    old: Engine,
    new: Engine,
    user: Seq<char>,
    id: Seq<char>,
    req: UpdateDocumentRequest,
    now: i64,
    r: Result<Document, AppError>,
) -> bool {
    let v = old.metadata@;
    if old.faults.metadata_read {
        r matches Err(e) && e is Database && same_state(old, new)
    } else if (req.folder_id matches Some(Some(f)) && !has_folder(v.folders, f@, user)) || !has_document(
        v.documents,
        id,
        user,
    ) {
        r matches Err(e) && e is NotFound && same_state(old, new)
    } else if old.faults.metadata_write {
        r matches Err(e) && e is Database && same_state(old, new)
    } else {
        let i = document_place(v.documents, id);
        &&& r matches Ok(d)
        &&& d@ == updated_document_view(v.documents[i].document@, req, now)
        &&& new.metadata@ == (MetadataView {
            documents: v.documents.update(i, DocumentRecord { document: d, ..v.documents[i] }),
            ..v
        })
        &&& new == (Engine { metadata: new.metadata, ..old })
    }
}

/// Applies a partial update to a document of the user. A folder that the
/// request moves the document into has to be one of the user's.
pub fn update_document(
    engine: &mut Engine,
    auth_user: &AuthUser,
    id: &str,
    req: &UpdateDocumentRequest,
    now: i64,
) -> (r: Result<Document, AppError>)
    requires
        old(engine).wf(),
    ensures
        final(engine).wf(),
        document_update_outcome(*old(engine), *final(engine), auth_user.user_id@, id@, *req, now, r),
{
    let user_id: &str = auth_user.user_id.as_str();
    if engine.faults.metadata_read {
        return Err(AppError::Database("metadata store unavailable".to_owned()));
    }
    match &req.folder_id {
        Some(Some(f)) => {
            if crate::metadata::get_folder(&engine.metadata, f.as_str(), user_id).is_none() {
                return Err(AppError::NotFound);
            }
        },
        _ => {},
    }
    if crate::metadata::get_document(&engine.metadata, id, user_id).is_none() {
        return Err(AppError::NotFound);
    }
    if engine.faults.metadata_write {
        return Err(AppError::Database("metadata store unavailable".to_owned()));
    }
    match crate::metadata::update_document(&mut engine.metadata, id, req, user_id, now) {
        Some(d) => Ok(d),
        None => Err(AppError::NotFound),
    }
}

/// What deleting a document leaves behind and returns: its record is gone
/// and its path retired; its content is removed too, unless the content
/// store fails, which is passed over.
pub open spec fn delete_outcome(
    old: Engine,
    new: Engine,
    user: Seq<char>,
    id: Seq<char>,
    r: Result<(), AppError>,
) -> bool {
    let v = old.metadata@;
    if old.faults.metadata_read || old.faults.metadata_write {
        r matches Err(e) && e is Database && same_state(old, new)
    } else if !has_document(v.documents, id, user) {
        r matches Err(e) && e is NotFound && same_state(old, new)
    } else {
        let i = document_place(v.documents, id);
        let path = v.documents[i].document.file_path@;
        &&& r is Ok
        &&& new.metadata@.documents == v.documents.remove(i)
        &&& new.metadata@.retired_paths.len() == v.retired_paths.len() + 1
        &&& new.metadata@.retired_paths.drop_last() == v.retired_paths
        &&& new.metadata@.retired_paths.last()@ == path
        &&& new.metadata@.folders == v.folders
        &&& new.metadata@.next_rowid == v.next_rowid
        &&& new.content@ == if old.faults.content_write is Some {
            old.content@
        } else {
            old.content@.remove(path)
        }
        &&& new.versions@ == old.versions@
        &&& new.index@ == old.index@
        &&& new.faults == old.faults
        &&& new.max_document_versions == old.max_document_versions
        &&& new.version_interval_minutes == old.version_interval_minutes
    }
}

/// Deletes a document of the user, and its content with it.
pub fn delete_document(engine: &mut Engine, auth_user: &AuthUser, id: &str) -> (r: Result<(), AppError>)
    requires
        old(engine).wf(),
    ensures
        final(engine).wf(),
        delete_outcome(*old(engine), *final(engine), auth_user.user_id@, id@, r),
{
    let user_id: &str = auth_user.user_id.as_str();
    if engine.faults.metadata_read || engine.faults.metadata_write {
        return Err(AppError::Database("metadata store unavailable".to_owned()));
    }
    let document: Document = match crate::metadata::get_document(&engine.metadata, id, user_id) {
        Some(d) => d,
        None => {
            return Err(AppError::NotFound);
        },
    };
    let deleted = crate::metadata::delete_document(&mut engine.metadata, id, user_id);
    if !deleted {
        return Err(AppError::NotFound);
    }
    if engine.faults.content_write.is_none() {
        engine.content.remove(document.file_path.as_str());
    }
    Ok(())
}

/// Lists the documents of the user: pinned ones first, then the most
/// recently updated first.
pub fn list_documents(engine: &Engine, auth_user: &AuthUser) -> (r: Result<Vec<Document>, AppError>)
    ensures
        r is Err <==> engine.faults.metadata_read,
        r matches Err(e) ==> e is Database,
        r matches Ok(docs) ==> listing_sorted(docs@) && docs@.to_multiset() == owned_documents(
            engine.metadata@.documents,
            auth_user.user_id@,
            engine.metadata@.documents.len() as int,
        ).to_multiset(),
{
    if engine.faults.metadata_read {
        return Err(AppError::Database("metadata store unavailable".to_owned()));
    }
    Ok(crate::metadata::list_documents(&engine.metadata, auth_user.user_id.as_str()))
}

/// Finds a document of the user. A document of another user is reported
/// like one that does not exist.
pub fn get_document(engine: &Engine, auth_user: &AuthUser, id: &str) -> (r: Result<Document, AppError>)
    requires
        engine.wf(),
    ensures
        r matches Ok(d) ==> !engine.faults.metadata_read && has_document(
            engine.metadata@.documents,
            id@,
            auth_user.user_id@,
        ) && d == engine.metadata@.documents[document_place(engine.metadata@.documents, id@)].document,
        r matches Err(e) ==> if engine.faults.metadata_read {
            e is Database
        } else {
            e is NotFound && !has_document(engine.metadata@.documents, id@, auth_user.user_id@)
        },
{
    if engine.faults.metadata_read {
        return Err(AppError::Database("metadata store unavailable".to_owned()));
    }
    match crate::metadata::get_document(&engine.metadata, id, auth_user.user_id.as_str()) {
        Some(d) => Ok(d),
        None => Err(AppError::NotFound),
    }
}

/// Reads the content of a document of the user.
pub fn get_document_content(engine: &Engine, auth_user: &AuthUser, id: &str) -> (r: Result<
    DocumentContent,
    AppError,
>)
    requires
        engine.wf(),
    ensures
        if engine.faults.metadata_read {
            r matches Err(e) && e is Database
        } else if !has_document(engine.metadata@.documents, id@, auth_user.user_id@) {
            r matches Err(e) && e is NotFound
        } else {
            let docs = engine.metadata@.documents;
            match read_outcome(
                engine.content@,
                engine.faults.content_read,
                docs[document_place(docs, id@)].document.file_path@,
            ) {
                Ok(text) => r matches Ok(c) && c.content@ == text,
                Err(kind) => r matches Err(e) && e == AppError::Io(kind),
            }
        },
{
    let document = match get_document(engine, auth_user, id) {
        Ok(d) => d,
        Err(e) => {
            return Err(e);
        },
    };
    match read_markdown(engine, document.file_path.as_str()) {
        Ok(content) => Ok(DocumentContent { content }),
        Err(e) => Err(e),
    }
}

/// Searches the documents of the user for those that hold every word of the
/// query, best match first. A query without a word is refused as a bad
/// request, before any store is asked.
pub fn search(engine: &Engine, auth_user: &AuthUser, query: &SearchQuery) -> (r: Result<
    Vec<Document>,
    AppError,
>)
    ensures
        if words_of(query.q@).len() == 0 {
            r matches Err(AppError::BadRequest(msg)) && msg@ == "Search query cannot be empty"@
        } else if engine.faults.search || engine.faults.metadata_read {
            r matches Err(e) && e is Database
        } else {
            r matches Ok(found) && exists|full: Seq<DocumentRecord>|
                is_ranking(
                    full,
                    engine.metadata@.documents,
                    engine.index@,
                    auth_user.user_id@,
                    words_of(query.q@),
                ) && found@ == top_documents(full)
        },
{
    if crate::search::tokenize(query.q.as_str()).len() == 0 {
        return Err(AppError::BadRequest("Search query cannot be empty".to_owned()));
    }
    if engine.faults.search || engine.faults.metadata_read {
        return Err(AppError::Database("search index unavailable".to_owned()));
    }
    search_documents(&engine.index, &engine.metadata, auth_user.user_id.as_str(), query.q.as_str())
}

/// Lists the snapshots of a document of the user, newest first.
pub fn list_document_versions(engine: &Engine, auth_user: &AuthUser, id: &str) -> (r: Result<
    Vec<DocumentVersionSummary>,
    AppError,
>)
    requires
        engine.wf(),
    ensures
        if engine.faults.metadata_read {
            r matches Err(e) && e is Database
        } else if !has_document(engine.metadata@.documents, id@, auth_user.user_id@) {
            r matches Err(e) && e is NotFound
        } else if engine.faults.versions {
            r matches Err(e) && e is Database
        } else {
            r matches Ok(list) && list@ == newest_first(engine.versions@, id@)
        },
{
    match get_document(engine, auth_user, id) {
        Ok(_) => {},
        Err(e) => {
            return Err(e);
        },
    }
    if engine.faults.versions {
        return Err(AppError::Database("version store unavailable".to_owned()));
    }
    Ok(crate::versions::list_versions(&engine.versions, id))
}

/// Reads a snapshot, content included, if it is one of a document of the
/// user. A snapshot of another user's document is reported like one that
/// does not exist.
pub fn get_version_content(engine: &Engine, auth_user: &AuthUser, version_id: &str) -> (r: Result<
    DocumentVersion,
    AppError,
>)
    requires
        engine.wf(),
    ensures
        engine.faults.versions || engine.faults.metadata_read ==> (r matches Err(e) && e is Database),
        !engine.faults.versions && !engine.faults.metadata_read ==> {
            &&& r matches Err(e) ==> e is NotFound
            &&& r is Ok <==> exists|i: int|
                0 <= i < engine.versions@.len() && (#[trigger] engine.versions@[i]).id@
                    == version_id@ && has_document(
                    engine.metadata@.documents,
                    engine.versions@[i].document_id@,
                    auth_user.user_id@,
                )
            &&& r matches Ok(v) ==> v.id@ == version_id@ && engine.versions@.contains(v)
        },
{
    if engine.faults.versions || engine.faults.metadata_read {
        return Err(AppError::Database("version store unavailable".to_owned()));
    }
    let version = match crate::versions::get_version(&engine.versions, version_id) {
        Some(v) => v,
        None => {
            return Err(AppError::NotFound);
        },
    };
    proof {
        let vs = engine.versions@;
        let k = choose|k: int| 0 <= k < vs.len() && vs[k] == version;
        assert forall|i: int| 0 <= i < vs.len() && (#[trigger] vs[i]).id@ == version_id@ implies i == k by {
            if i < k {
                assert(vs[i].id@ != vs[k].id@);
            } else if k < i {
                assert(vs[k].id@ != vs[i].id@);
            }
        }
    }
    match crate::metadata::get_document(
        &engine.metadata,
        version.document_id.as_str(),
        auth_user.user_id.as_str(),
    ) {
        Some(_) => Ok(version),
        None => Err(AppError::NotFound),
    }
}

/// What a requested snapshot leaves behind and returns: `Ok(true)` with a
/// snapshot of the document's current content taken and its snapshots
/// pruned, `Ok(false)` with nothing changed when the document did not change
/// since its latest snapshot. Here every failure is reported.
pub open spec fn snapshot_outcome(
    old: Engine,
    new: Engine,
    user: Seq<char>,
    id: Seq<char>,
    version_id: Seq<char>,
    now: i64,
    r: Result<bool, AppError>,
) -> bool {
    let docs = old.metadata@.documents;
    if old.faults.metadata_read {
        r matches Err(e) && e is Database && same_state(old, new)
    } else if !has_document(docs, id, user) {
        r matches Err(e) && e is NotFound && same_state(old, new)
    } else if old.faults.versions {
        r matches Err(e) && e is Database && same_state(old, new)
    } else {
        let doc = docs[document_place(docs, id)].document;
        if !is_unsaved(old.versions@, id, doc.updated_at as int) {
            r == Ok::<bool, AppError>(false) && same_state(old, new)
        } else {
            match read_outcome(old.content@, old.faults.content_read, doc.file_path@) {
                Err(kind) => r matches Err(e) && e == AppError::Io(kind) && same_state(old, new),
                Ok(text) => if !snapshot_possible(old.versions@, version_id, id) {
                    r matches Err(e) && e is Database && same_state(old, new)
                } else {
                    &&& r == Ok::<bool, AppError>(true)
                    &&& exists|mid: Seq<DocumentVersion>| #[trigger]
                        snapshot_taken(old.versions@, mid, version_id, id, text, now)
                            && new.versions@ == prune_result(mid, id, old.max_document_versions as int)
                    &&& new == (Engine { versions: new.versions, ..old })
                },
            }
        }
    }
}

/// Takes a snapshot of a document of the user on request, whatever the time
/// since the last one, if the document changed since then.
pub fn create_version_snapshot(
    engine: &mut Engine,
    auth_user: &AuthUser,
    id: &str,
    version_id: &str,
    now: i64,
) -> (r: Result<bool, AppError>)
    requires
        old(engine).wf(),
    ensures
        final(engine).wf(),
        snapshot_outcome(*old(engine), *final(engine), auth_user.user_id@, id@, version_id@, now, r),
{
    let document = match get_document(engine, auth_user, id) {
        Ok(d) => d,
        Err(e) => {
            return Err(e);
        },
    };
    if engine.faults.versions {
        return Err(AppError::Database("version store unavailable".to_owned()));
    }
    if !needs_version_snapshot(&engine.versions, &document) {
        return Ok(false);
    }
    let content: String = match read_markdown(engine, document.file_path.as_str()) {
        Ok(text) => text,
        Err(e) => {
            return Err(e);
        },
    };
    let word_count: i64 = to_stored_count(count_words(content.as_str()));
    let char_count: i64 = to_stored_count(count_chars(content.as_str()));
    let ghost start = engine.versions@;
    match create_version(
        &mut engine.versions,
        version_id,
        id,
        content.as_str(),
        word_count,
        char_count,
        now,
    ) {
        Ok(_) => {},
        Err(e) => {
            return Err(e);
        },
    }
    let ghost mid = engine.versions@;
    prune_versions(&mut engine.versions, id, engine.max_document_versions);
    proof {
        assert(snapshot_taken(start, mid, version_id@, id@, content@, now));
    }
    Ok(true)
}

/// Lists the folders of the user by `sort_order`, then by name.
pub fn list_folders(engine: &Engine, auth_user: &AuthUser) -> (r: Result<Vec<Folder>, AppError>)
    ensures
        r is Err <==> engine.faults.metadata_read,
        r matches Err(e) ==> e is Database,
        r matches Ok(list) ==> folders_sorted(list@) && list@.to_multiset() == owned_folders(
            engine.metadata@.folders,
            auth_user.user_id@,
            engine.metadata@.folders.len() as int,
        ).to_multiset(),
{
    if engine.faults.metadata_read {
        return Err(AppError::Database("metadata store unavailable".to_owned()));
    }
    Ok(crate::metadata::list_folders(&engine.metadata, auth_user.user_id.as_str()))
}

/// Creates a folder for the user; its slug is derived from its name.
pub fn create_folder(
    engine: &mut Engine,
    auth_user: &AuthUser,
    req: CreateFolderRequest,
    id: &str,
    now: i64,
) -> (r: Result<Folder, AppError>)
    requires
        old(engine).wf(),
    ensures
        final(engine).wf(),
        r is Ok <==> !old(engine).faults.metadata_write && !has_folder_id(
            old(engine).metadata@.folders,
            id@,
        ),
        r matches Err(e) ==> e is Database && same_state(*old(engine), *final(engine)),
        r matches Ok(f) ==> {
            let v = old(engine).metadata@;
            &&& f@ == new_folder_view(id@, req.name@, opt_view(req.parent_id), slug_of(req.name@), now)
            &&& final(engine).metadata@.folders.len() == v.folders.len() + 1
            &&& final(engine).metadata@.folders.drop_last() == v.folders
            &&& final(engine).metadata@.folders.last().folder == f
            &&& final(engine).metadata@.folders.last().user_id@ == auth_user.user_id@
            &&& final(engine).metadata@.documents == v.documents
            &&& final(engine).metadata@.retired_paths == v.retired_paths
            &&& final(engine).metadata@.next_rowid == v.next_rowid
            &&& *final(engine) == (Engine { metadata: final(engine).metadata, ..*old(engine) })
        },
{
    if engine.faults.metadata_write {
        return Err(AppError::Database("metadata store unavailable".to_owned()));
    }
    let slug: String = slugify(req.name.as_str());
    crate::metadata::create_folder(
        &mut engine.metadata,
        id,
        req.name,
        req.parent_id,
        slug,
        auth_user.user_id.as_str(),
        now,
    )
}

/// Applies a partial update to a folder of the user.
pub fn update_folder(
    engine: &mut Engine,
    auth_user: &AuthUser,
    id: &str,
    req: &UpdateFolderRequest,
    now: i64,
) -> (r: Result<Folder, AppError>)
    requires
        old(engine).wf(),
    ensures
        final(engine).wf(),
        ({
            let v = old(engine).metadata@;
            if old(engine).faults.metadata_write {
                r matches Err(e) && e is Database && same_state(*old(engine), *final(engine))
            } else if !has_folder(v.folders, id@, auth_user.user_id@) {
                r matches Err(e) && e is NotFound && same_state(*old(engine), *final(engine))
            } else {
                let i = folder_place(v.folders, id@);
                &&& r matches Ok(f)
                &&& f@ == updated_folder_view(v.folders[i].folder@, *req, now)
                &&& final(engine).metadata@ == (MetadataView {
                    folders: v.folders.update(i, FolderRecord { folder: f, ..v.folders[i] }),
                    ..v
                })
                &&& *final(engine) == (Engine { metadata: final(engine).metadata, ..*old(engine) })
            }
        }),
{
    if engine.faults.metadata_write {
        return Err(AppError::Database("metadata store unavailable".to_owned()));
    }
    match crate::metadata::update_folder(
        &mut engine.metadata,
        id,
        req,
        auth_user.user_id.as_str(),
        now,
    ) {
        Some(f) => Ok(f),
        None => Err(AppError::NotFound),
    }
}

/// Deletes a folder of the user. Its documents and the folders below it are
/// not deleted: they move to the root.
pub fn delete_folder(engine: &mut Engine, auth_user: &AuthUser, id: &str) -> (r: Result<(), AppError>)
    requires
        old(engine).wf(),
    ensures
        final(engine).wf(),
        ({
            let v = old(engine).metadata@;
            if old(engine).faults.metadata_write {
                r matches Err(e) && e is Database && same_state(*old(engine), *final(engine))
            } else if !has_folder(v.folders, id@, auth_user.user_id@) {
                r matches Err(e) && e is NotFound && same_state(*old(engine), *final(engine))
            } else {
                &&& r is Ok
                &&& final(engine).metadata@ == (MetadataView {
                    documents: detached_documents(v.documents, id@),
                    folders: detached_folders(v.folders.remove(folder_place(v.folders, id@)), id@),
                    ..v
                })
                &&& *final(engine) == (Engine { metadata: final(engine).metadata, ..*old(engine) })
            }
        }),
{
    if engine.faults.metadata_write {
        return Err(AppError::Database("metadata store unavailable".to_owned()));
    }
    if crate::metadata::delete_folder(&mut engine.metadata, id, auth_user.user_id.as_str()) {
        Ok(())
    } else {
        Err(AppError::NotFound)
    }
}

} // verus!
