//! The metadata store: the records of documents and folders, each owned by
//! one user and seen by no other.

use vstd::prelude::*;
use vstd::seq_lib::*;
use crate::error::AppError;
use crate::models::{
    CreateDocumentRequest, Document, DocumentView, Folder, FolderView, UpdateDocumentRequest,
    UpdateFolderRequest,
};
use crate::strings::{
    chars_of, clone_opt_string, lemma_lex_le_total, lemma_lex_le_transitive, lex_le,
    opt_str_view, opt_string_eq_str, opt_view, starts_with_chars, str_le, views,
};

verus! {

/// A document's record: its metadata, its owner, and the row number under
/// which the search index knows it.
pub struct DocumentRecord {
    pub rowid: i64,
    pub user_id: String,
    pub document: Document,
}

/// A folder's record: the folder and its owner.
pub struct FolderRecord {
    pub user_id: String,
    pub folder: Folder,
}

/// What the store holds, as plain sequences in the order of creation.
pub struct MetadataView {
    pub documents: Seq<DocumentRecord>,
    pub folders: Seq<FolderRecord>,
    /// The paths of deleted documents: none is given out again.
    pub retired_paths: Seq<String>,
    /// The row number that the next document receives.
    pub next_rowid: i64,
}

/// Tells whether a document with the id `id` exists, whoever owns it.
pub open spec fn has_document_id(docs: Seq<DocumentRecord>, id: Seq<char>) -> bool {
    exists|i: int| 0 <= i < docs.len() && (#[trigger] docs[i]).document.id@ == id
}

/// The place of the document with the id `id`.
pub open spec fn document_place(docs: Seq<DocumentRecord>, id: Seq<char>) -> int {
    choose|i: int| 0 <= i < docs.len() && (#[trigger] docs[i]).document.id@ == id
}

/// Tells whether `user` owns a document with the id `id`.
pub open spec fn has_document(docs: Seq<DocumentRecord>, id: Seq<char>, user: Seq<char>) -> bool {
    has_document_id(docs, id) && docs[document_place(docs, id)].user_id@ == user
}

/// Tells whether a document is stored under `path`.
pub open spec fn has_file_path(docs: Seq<DocumentRecord>, path: Seq<char>) -> bool {
    exists|i: int| 0 <= i < docs.len() && (#[trigger] docs[i]).document.file_path@ == path
}

/// Tells whether `path` belonged to a document that was deleted.
pub open spec fn is_retired(retired: Seq<String>, path: Seq<char>) -> bool {
    exists|i: int| 0 <= i < retired.len() && (#[trigger] retired[i])@ == path
}

/// Tells whether a folder with the id `id` exists, whoever owns it.
pub open spec fn has_folder_id(folders: Seq<FolderRecord>, id: Seq<char>) -> bool {
    exists|i: int| 0 <= i < folders.len() && (#[trigger] folders[i]).folder.id@ == id
}

/// The place of the folder with the id `id`.
pub open spec fn folder_place(folders: Seq<FolderRecord>, id: Seq<char>) -> int {
    choose|i: int| 0 <= i < folders.len() && (#[trigger] folders[i]).folder.id@ == id
}

/// Tells whether `user` owns a folder with the id `id`.
pub open spec fn has_folder(folders: Seq<FolderRecord>, id: Seq<char>, user: Seq<char>) -> bool {
    has_folder_id(folders, id) && folders[folder_place(folders, id)].user_id@ == user
}

/// What every metadata store satisfies: ids, paths and row numbers name one
/// record each, row numbers are below the next one to give out, and no
/// document is stored under the path of a deleted one.
pub open spec fn well_formed(v: MetadataView) -> bool {
    &&& forall|i: int, j: int|
        0 <= i < j < v.documents.len() ==> (#[trigger] v.documents[i]).document.id@ != (
        #[trigger] v.documents[j]).document.id@
    &&& forall|i: int, j: int|
        0 <= i < j < v.documents.len() ==> (#[trigger] v.documents[i]).document.file_path@ != (
        #[trigger] v.documents[j]).document.file_path@
    &&& forall|i: int, j: int|
        0 <= i < j < v.documents.len() ==> (#[trigger] v.documents[i]).rowid != (
        #[trigger] v.documents[j]).rowid
    &&& forall|i: int| 0 <= i < v.documents.len() ==> 1 <= (#[trigger] v.documents[i]).rowid < v.next_rowid
    &&& forall|i: int, k: int|
        0 <= i < v.documents.len() && 0 <= k < v.retired_paths.len() ==> (
        #[trigger] v.documents[i]).document.file_path@ != (#[trigger] v.retired_paths[k])@
    &&& forall|i: int, j: int|
        0 <= i < j < v.folders.len() ==> (#[trigger] v.folders[i]).folder.id@ != (
        #[trigger] v.folders[j]).folder.id@
    &&& 1 <= v.next_rowid
}

/// The order of a listing: pinned documents first, then the most recently
/// updated first.
pub open spec fn listed_before(a: Document, b: Document) -> bool {
    a.is_pinned > b.is_pinned || (a.is_pinned == b.is_pinned && a.updated_at >= b.updated_at)
}

/// Tells whether `docs` stands in the order of a listing.
pub open spec fn listing_sorted(docs: Seq<Document>) -> bool {
    forall|i: int, j: int| 0 <= i < j < docs.len() ==> listed_before(#[trigger] docs[i], #[trigger] docs[j])
}

/// The documents that `user` owns among the first `n` records.
pub open spec fn owned_documents(docs: Seq<DocumentRecord>, user: Seq<char>, n: int) -> Seq<Document>
    decreases n,
{
    if n <= 0 {
        Seq::empty()
    } else if docs[n - 1].user_id@ == user {
        owned_documents(docs, user, n - 1).push(docs[n - 1].document)
    } else {
        owned_documents(docs, user, n - 1)
    }
}

/// The prefix that marks a default title.
pub open spec fn untitled_prefix() -> Seq<char> {
    "Untitled"@
}

/// Tells whether a record counts when a default title is chosen for `user`
/// in `folder`: it is theirs, lies in that folder, and its title begins like
/// a default one.
pub open spec fn is_untitled_in(rec: DocumentRecord, folder: Option<Seq<char>>, user: Seq<char>) -> bool {
    &&& rec.user_id@ == user
    &&& opt_view(rec.document.folder_id) == folder
    &&& untitled_prefix().is_prefix_of(rec.document.title@)
}

/// The default-like titles in use among the first `n` records.
pub open spec fn untitled_titles(
    docs: Seq<DocumentRecord>,
    folder: Option<Seq<char>>,
    user: Seq<char>,
    n: int,
) -> Seq<Seq<char>>
    decreases n,
{
    if n <= 0 {
        Seq::empty()
    } else if is_untitled_in(docs[n - 1], folder, user) {
        untitled_titles(docs, folder, user, n - 1).push(docs[n - 1].document.title@)
    } else {
        untitled_titles(docs, folder, user, n - 1)
    }
}

/// The records of all documents and folders.
pub struct MetadataStore {
    documents: Vec<DocumentRecord>,
    folders: Vec<FolderRecord>,
    retired_paths: Vec<String>,
    next_rowid: i64,
}

impl View for MetadataStore {
    type V = MetadataView;

    closed spec fn view(&self) -> MetadataView {
        MetadataView {
            documents: self.documents@,
            folders: self.folders@,
            retired_paths: self.retired_paths@,
            next_rowid: self.next_rowid,
        }
    }
}

impl MetadataStore {
    /// The store's invariant.
    pub open spec fn wf(&self) -> bool {
        well_formed(self@)
    }

    /// An empty store, whose first document receives the row number 1.
    pub fn new() -> (s: Self)
        ensures
            s.wf(),
            s@.documents.len() == 0,
            s@.folders.len() == 0,
            s@.retired_paths.len() == 0,
            s@.next_rowid == 1,
    {
        MetadataStore {
            documents: Vec::new(),
            folders: Vec::new(),
            retired_paths: Vec::new(),
            next_rowid: 1,
        }
    }

    /// Where the document with this id stands, whoever owns it.
    fn find_document_id(&self, id: &str) -> (r: Option<usize>)
        requires
            self.wf(),
        ensures
            r is Some <==> has_document_id(self@.documents, id@),
            r matches Some(i) ==> i < self@.documents.len() && self@.documents[i as int].document.id@
                == id@ && document_place(self@.documents, id@) == i,
    {
        let mut i: usize = 0;
        while i < self.documents.len()
            invariant
                i <= self.documents.len(),
                well_formed(self@),
                forall|j: int| 0 <= j < i ==> (#[trigger] self.documents@[j]).document.id@ != id@,
            decreases self.documents.len() - i,
        {
            if self.documents[i].document.id.as_str().eq(id) {
                proof {
                    let docs = self@.documents;
                    let k = document_place(docs, id@);
                    assert(docs[i as int].document.id@ == id@);
                    if k < i {
                        assert(docs[k].document.id@ != docs[i as int].document.id@);
                    } else if i < k {
                        assert(docs[i as int].document.id@ != docs[k].document.id@);
                    }
                }
                return Some(i);
            }
            i = i + 1;
        }
        None
    }

    /// Where the document with this id stands, if `user_id` owns it.
    fn find_document(&self, id: &str, user_id: &str) -> (r: Option<usize>)
        requires
            self.wf(),
        ensures
            r is Some <==> has_document(self@.documents, id@, user_id@),
            r matches Some(i) ==> i < self@.documents.len() && document_place(self@.documents, id@)
                == i && self@.documents[i as int].document.id@ == id@
                && self@.documents[i as int].user_id@ == user_id@,
    {
        match self.find_document_id(id) {
            Some(i) => {
                if self.documents[i].user_id.as_str().eq(user_id) {
                    Some(i)
                } else {
                    None
                }
            },
            None => None,
        }
    }

    /// Tells whether a document is stored under `path`.
    fn file_path_in_use(&self, path: &str) -> (r: bool)
        ensures
            r == has_file_path(self@.documents, path@),
    {
        let mut i: usize = 0;
        while i < self.documents.len()
            invariant
                i <= self.documents.len(),
                forall|j: int| 0 <= j < i ==> (#[trigger] self.documents@[j]).document.file_path@ != path@,
            decreases self.documents.len() - i,
        {
            if self.documents[i].document.file_path.as_str().eq(path) {
                return true;
            }
            i = i + 1;
        }
        false
    }

    /// Tells whether `path` belonged to a deleted document.
    fn file_path_retired(&self, path: &str) -> (r: bool)
        ensures
            r == is_retired(self@.retired_paths, path@),
    {
        let mut i: usize = 0;
        while i < self.retired_paths.len()
            invariant
                i <= self.retired_paths.len(),
                forall|j: int| 0 <= j < i ==> (#[trigger] self.retired_paths@[j])@ != path@,
            decreases self.retired_paths.len() - i,
        {
            if self.retired_paths[i].as_str().eq(path) {
                return true;
            }
            i = i + 1;
        }
        false
    }

    /// Tells whether a document with this id and path can be recorded: both
    /// are free, the path was never that of a deleted document, and a row
    /// number is left.
    pub fn can_record(&self, id: &str, file_path: &str) -> (r: bool)
        requires
            self.wf(),
        ensures
            r == {
                &&& !has_document_id(self@.documents, id@)
                &&& !has_file_path(self@.documents, file_path@)
                &&& !is_retired(self@.retired_paths, file_path@)
                &&& self@.next_rowid < i64::MAX
            },
    {
        self.find_document_id(id).is_none() && !self.file_path_in_use(file_path)
            && !self.file_path_retired(file_path) && self.next_rowid < i64::MAX
    }

    /// The records of all documents, in the order of their creation.
    pub fn records(&self) -> (r: &Vec<DocumentRecord>)
        ensures
            r@ == self@.documents,
    {
        &self.documents
    }

    /// The records of all folders, in the order of their creation.
    pub fn folder_records(&self) -> (r: &Vec<FolderRecord>)
        ensures
            r@ == self@.folders,
    {
        &self.folders
    }

    /// The row number of a document, under which the search index knows it.
    pub fn document_rowid(&self, id: &str) -> (r: Option<i64>)
        requires
            self.wf(),
        ensures
            r is Some <==> has_document_id(self@.documents, id@),
            r matches Some(n) ==> n == self@.documents[document_place(self@.documents, id@)].rowid,
    {
        match self.find_document_id(id) {
            Some(i) => Some(self.documents[i].rowid),
            None => None,
        }
    }
}

/// Puts `d` into `out`, which stands in the order of a listing, at its
/// place: behind the documents that are listed before it.
pub fn insert_listed(out: &mut Vec<Document>, d: Document)
    requires
        listing_sorted(old(out)@),
    ensures
        listing_sorted(final(out)@),
        final(out)@.to_multiset() == old(out)@.to_multiset().insert(d),
{
    let mut pos: usize = out.len();
    while pos > 0 && !(out[pos - 1].is_pinned > d.is_pinned || (out[pos - 1].is_pinned == d.is_pinned
        && out[pos - 1].updated_at >= d.updated_at))
        invariant
            pos <= out.len(),
            forall|k: int| pos <= k < out.len() ==> !listed_before(#[trigger] out@[k], d),
        decreases pos,
    {
        pos = pos - 1;
    }
    let ghost prev = out@;
    out.insert(pos, d);
    proof {
        to_multiset_insert(prev, pos as int, d);
        assert(out@ == prev.insert(pos as int, d));
        assert forall|a: int, b: int| 0 <= a < b < out@.len() implies listed_before(
            #[trigger] out@[a],
            #[trigger] out@[b],
        ) by {
            if b < pos {
                assert(listed_before(prev[a], prev[b]));
            } else if b == pos {
                if pos > 0 {
                    assert(listed_before(prev[pos - 1], d));
                    if a < pos - 1 {
                        assert(listed_before(prev[a], prev[pos - 1]));
                    }
                }
            } else if a == pos {
                assert(!listed_before(prev[b - 1], d));
            } else if a > pos {
                assert(listed_before(prev[a - 1], prev[b - 1]));
            } else {
                assert(listed_before(prev[a], prev[b - 1]));
            }
        }
    }
}

/// Lists the documents of a user: pinned ones first, then the most recently
/// updated first.
pub fn list_documents(store: &MetadataStore, user_id: &str) -> (r: Vec<Document>)
    ensures
        listing_sorted(r@),
        r@.to_multiset() == owned_documents(
            store@.documents,
            user_id@,
            store@.documents.len() as int,
        ).to_multiset(),
{
    let mut out: Vec<Document> = Vec::new();
    let mut i: usize = 0;
    while i < store.documents.len()
        invariant
            i <= store.documents.len(),
            listing_sorted(out@),
            out@.to_multiset() == owned_documents(store.documents@, user_id@, i as int).to_multiset(),
        decreases store.documents.len() - i,
    {
        let rec = &store.documents[i];
        if rec.user_id.as_str().eq(user_id) {
            let d = rec.document.clone();
            proof {
                to_multiset_build(owned_documents(store.documents@, user_id@, i as int), d);
            }
            insert_listed(&mut out, d);
        }
        i = i + 1;
    }
    out
}

/// Finds a document of a user by its id. A document of another user is not
/// found.
pub fn get_document(store: &MetadataStore, id: &str, user_id: &str) -> (r: Option<Document>)
    requires
        store.wf(),
    ensures
        r is Some <==> has_document(store@.documents, id@, user_id@),
        r matches Some(d) ==> d == store@.documents[document_place(store@.documents, id@)].document,
{
    match store.find_document(id, user_id) {
        Some(i) => Some(store.documents[i].document.clone()),
        None => None,
    }
}

/// Lists the titles that begin like a default title, among the documents of
/// a user in one folder (`None`: at the root).
pub fn list_untitled_titles(store: &MetadataStore, folder_id: Option<&str>, user_id: &str) -> (r:
    Vec<String>)
    ensures
        views(r@) == untitled_titles(
            store@.documents,
            opt_str_view(folder_id),
            user_id@,
            store@.documents.len() as int,
        ),
{
    let prefix: Vec<char> = chars_of("Untitled");
    let mut out: Vec<String> = Vec::new();
    let mut i: usize = 0;
    assert(views(out@) =~= Seq::<Seq<char>>::empty());
    while i < store.documents.len()
        invariant
            i <= store.documents.len(),
            prefix@ == untitled_prefix(),
            views(out@) == untitled_titles(
                store.documents@,
                opt_str_view(folder_id),
                user_id@,
                i as int,
            ),
        decreases store.documents.len() - i,
    {
        let rec = &store.documents[i];
        if rec.user_id.as_str().eq(user_id) && opt_string_eq_str(&rec.document.folder_id, folder_id) {
            let title: Vec<char> = chars_of(rec.document.title.as_str());
            if starts_with_chars(&title, &prefix) {
                let ghost prev = out@;
                out.push(rec.document.title.clone());
                assert(views(out@) =~= views(prev).push(
                    rec.document.title@,
                ));
            }
        }
        i = i + 1;
    }
    out
}

/// The metadata of a document that was just created: the title that was
/// asked for, or the default one; no content yet; both timestamps at `now`.
pub open spec fn new_document_view(
    id: Seq<char>,
    req: CreateDocumentRequest,
    file_path: Seq<char>,
    slug: Seq<char>,
    now: i64,
) -> DocumentView {
    DocumentView {
        id,
        folder_id: opt_view(req.folder_id),
        title: match req.title {
            Some(t) => t@,
            None => untitled_prefix(),
        },
        slug,
        file_path,
        word_count: 0,
        char_count: 0,
        excerpt: None,
        is_pinned: 0,
        is_archived: 0,
        created_at: now,
        updated_at: now,
    }
}

/// A flag as the records hold it.
pub open spec fn flag_value(b: bool) -> i64 {
    if b { 1 } else { 0 }
}

/// A document after a partial update: the fields that the request holds
/// replace the old ones, the others stay, and `updated_at` becomes `now`.
pub open spec fn updated_document_view(old: DocumentView, req: UpdateDocumentRequest, now: i64) -> DocumentView {
    DocumentView {
        title: match req.title {
            Some(t) => t@,
            None => old.title,
        },
        folder_id: match req.folder_id {
            Some(f) => opt_view(f),
            None => old.folder_id,
        },
        is_pinned: match req.is_pinned {
            Some(b) => flag_value(b),
            None => old.is_pinned,
        },
        is_archived: match req.is_archived {
            Some(b) => flag_value(b),
            None => old.is_archived,
        },
        updated_at: now,
        ..old
    }
}

/// A document after its content changed: new counts and excerpt, and
/// `updated_at` at `now`.
pub open spec fn restated_document_view(
    old: DocumentView,
    word_count: i64,
    char_count: i64,
    excerpt: Option<Seq<char>>,
    now: i64,
) -> DocumentView {
    DocumentView { word_count, char_count, excerpt, updated_at: now, ..old }
}

impl MetadataStore {
    /// Puts `document` in the place of the document at `i`, whose id and path it keeps.
    fn replace_document(&mut self, i: usize, document: Document)
        requires
            old(self).wf(),
            i < old(self)@.documents.len(),
            document.id@ == old(self)@.documents[i as int].document.id@,
            document.file_path@ == old(self)@.documents[i as int].document.file_path@,
        ensures
            final(self).wf(),
            final(self)@ == (MetadataView {
                documents: old(self)@.documents.update(
                    i as int,
                    DocumentRecord { document, ..old(self)@.documents[i as int] },
                ),
                ..old(self)@
            }),
    {
        let ghost before = self@;
        let record = DocumentRecord {
            rowid: self.documents[i].rowid,
            user_id: self.documents[i].user_id.clone(),
            document,
        };
        self.documents.set(i, record);
        proof {
            let after = self@;
            assert(after.documents =~= before.documents.update(i as int, record));
            assert forall|a: int, b: int| 0 <= a < b < after.documents.len() implies (
            #[trigger] after.documents[a]).document.id@ != (#[trigger] after.documents[b]).document.id@ by {
                assert(before.documents[a].document.id@ != before.documents[b].document.id@);
            }
            assert forall|a: int, b: int| 0 <= a < b < after.documents.len() implies (
            #[trigger] after.documents[a]).document.file_path@ != (
            #[trigger] after.documents[b]).document.file_path@ by {
                assert(before.documents[a].document.file_path@
                    != before.documents[b].document.file_path@);
            }
            assert forall|a: int, b: int| 0 <= a < b < after.documents.len() implies (
            #[trigger] after.documents[a]).rowid != (#[trigger] after.documents[b]).rowid by {
                assert(before.documents[a].rowid != before.documents[b].rowid);
            }
            assert forall|a: int| 0 <= a < after.documents.len() implies 1 <= (
            #[trigger] after.documents[a]).rowid < after.next_rowid by {
                assert(1 <= before.documents[a].rowid < before.next_rowid);
            }
            assert forall|a: int, k: int|
                0 <= a < after.documents.len() && 0 <= k < after.retired_paths.len() implies (
            #[trigger] after.documents[a]).document.file_path@ != (
            #[trigger] after.retired_paths[k])@ by {
                assert(before.documents[a].document.file_path@ != before.retired_paths[k]@);
            }
        }
    }
}

/// Creates a document for a user: without content, unpinned, not archived,
/// created and updated at `now`, titled as asked or with the default title.
///
/// Fails, and leaves the store as it was, when the id is taken, when the
/// path is in use or was the path of a deleted document, or when the row
/// numbers are used up.
pub fn create_document(
    store: &mut MetadataStore,
    id: &str,
    req: &CreateDocumentRequest,
    file_path: String,
    slug: String,
    user_id: &str,
    now: i64,
) -> (r: Result<Document, AppError>)
    requires
        old(store).wf(),
    ensures
        final(store).wf(),
        r is Ok <==> {
            &&& !has_document_id(old(store)@.documents, id@)
            &&& !has_file_path(old(store)@.documents, file_path@)
            &&& !is_retired(old(store)@.retired_paths, file_path@)
            &&& old(store)@.next_rowid < i64::MAX
        },
        r matches Err(e) ==> final(store)@ == old(store)@ && e is Database,
        r matches Ok(d) ==> {
            &&& d@ == new_document_view(id@, *req, file_path@, slug@, now)
            &&& final(store)@.documents.len() == old(store)@.documents.len() + 1
            &&& final(store)@.documents.drop_last() == old(store)@.documents
            &&& final(store)@.documents.last().document == d
            &&& final(store)@.documents.last().user_id@ == user_id@
            &&& final(store)@.documents.last().rowid == old(store)@.next_rowid
            &&& final(store)@.folders == old(store)@.folders
            &&& final(store)@.retired_paths == old(store)@.retired_paths
            &&& final(store)@.next_rowid == old(store)@.next_rowid + 1
        },
{
    if store.find_document_id(id).is_some() {
        return Err(AppError::Database("document id already exists".to_owned()));
    }
    if store.file_path_in_use(file_path.as_str()) || store.file_path_retired(file_path.as_str()) {
        return Err(AppError::Database("file path already used".to_owned()));
    }
    if store.next_rowid == i64::MAX {
        return Err(AppError::Database("row numbers exhausted".to_owned()));
    }
    let ghost before = store@;
    let title: String = match &req.title {
        Some(t) => t.clone(),
        None => "Untitled".to_owned(),
    };
    let document = Document {
        id: id.to_owned(),
        folder_id: clone_opt_string(&req.folder_id),
        title,
        slug,
        file_path,
        word_count: 0,
        char_count: 0,
        excerpt: None,
        is_pinned: 0,
        is_archived: 0,
        created_at: now,
        updated_at: now,
    };
    let created = document.clone();
    let record = DocumentRecord { rowid: store.next_rowid, user_id: user_id.to_owned(), document };
    store.documents.push(record);
    store.next_rowid = store.next_rowid + 1;
    proof {
        let after = store@;
        let n = before.documents.len() as int;
        assert(after.documents.drop_last() =~= before.documents);
        assert forall|a: int, b: int| 0 <= a < b < after.documents.len() implies (
        #[trigger] after.documents[a]).document.id@ != (#[trigger] after.documents[b]).document.id@ by {
            if b < n {
                assert(before.documents[a].document.id@ != before.documents[b].document.id@);
            } else {
                assert(before.documents[a].document.id@ != id@);
            }
        }
        assert forall|a: int, b: int| 0 <= a < b < after.documents.len() implies (
        #[trigger] after.documents[a]).document.file_path@ != (
        #[trigger] after.documents[b]).document.file_path@ by {
            if b < n {
                assert(before.documents[a].document.file_path@
                    != before.documents[b].document.file_path@);
            } else {
                assert(before.documents[a].document.file_path@ != file_path@);
            }
        }
        assert forall|a: int, b: int| 0 <= a < b < after.documents.len() implies (
        #[trigger] after.documents[a]).rowid != (#[trigger] after.documents[b]).rowid by {
            if b < n {
                assert(before.documents[a].rowid != before.documents[b].rowid);
            } else {
                assert(before.documents[a].rowid < before.next_rowid);
            }
        }
        assert forall|a: int| 0 <= a < after.documents.len() implies 1 <= (
        #[trigger] after.documents[a]).rowid < after.next_rowid by {
            if a < n {
                assert(1 <= before.documents[a].rowid < before.next_rowid);
            }
        }
        assert forall|a: int, k: int|
            0 <= a < after.documents.len() && 0 <= k < after.retired_paths.len() implies (
        #[trigger] after.documents[a]).document.file_path@ != (#[trigger] after.retired_paths[k])@ by {
            if a < n {
                assert(before.documents[a].document.file_path@ != before.retired_paths[k]@);
            } else {
                assert(before.retired_paths[k]@ != file_path@);
            }
        }
    }
    Ok(created)
}

/// Applies a partial update to a document of a user and returns the updated
/// document. Only the fields that the request holds change; `updated_at`
/// becomes `now`. Nothing changes when the user has no such document.
pub fn update_document(
    store: &mut MetadataStore,
    id: &str,
    req: &UpdateDocumentRequest,
    user_id: &str,
    now: i64,
) -> (r: Option<Document>)
    requires
        old(store).wf(),
    ensures
        final(store).wf(),
        r is Some <==> has_document(old(store)@.documents, id@, user_id@),
        r is None ==> final(store)@ == old(store)@,
        r matches Some(d) ==> {
            let i = document_place(old(store)@.documents, id@);
            &&& d@ == updated_document_view(old(store)@.documents[i].document@, *req, now)
            &&& final(store)@ == (MetadataView {
                documents: old(store)@.documents.update(
                    i,
                    DocumentRecord { document: d, ..old(store)@.documents[i] },
                ),
                ..old(store)@
            })
        },
{
    let i: usize = match store.find_document(id, user_id) {
        Some(i) => i,
        None => {
            return None;
        },
    };
    let current = &store.documents[i].document;
    let updated = Document {
        id: current.id.clone(),
        folder_id: match &req.folder_id {
            Some(f) => clone_opt_string(f),
            None => clone_opt_string(&current.folder_id),
        },
        title: match &req.title {
            Some(t) => t.clone(),
            None => current.title.clone(),
        },
        slug: current.slug.clone(),
        file_path: current.file_path.clone(),
        word_count: current.word_count,
        char_count: current.char_count,
        excerpt: clone_opt_string(&current.excerpt),
        is_pinned: match req.is_pinned {
            Some(b) => if b { 1 } else { 0 },
            None => current.is_pinned,
        },
        is_archived: match req.is_archived {
            Some(b) => if b { 1 } else { 0 },
            None => current.is_archived,
        },
        created_at: current.created_at,
        updated_at: now,
    };
    let result = updated.clone();
    store.replace_document(i, updated);
    Some(result)
}

/// Records what a content change made of a document's counts and excerpt,
/// and sets `updated_at` to `now`. Tells whether the user has such a document;
/// nothing changes when not.
pub fn update_document_stats(
    store: &mut MetadataStore,
    id: &str,
    user_id: &str,
    word_count: i64,
    char_count: i64,
    excerpt: Option<String>,
    now: i64,
) -> (found: bool)
    requires
        old(store).wf(),
    ensures
        final(store).wf(),
        found == has_document(old(store)@.documents, id@, user_id@),
        !found ==> final(store)@ == old(store)@,
        found ==> {
            let i = document_place(old(store)@.documents, id@);
            &&& final(store)@.documents.len() == old(store)@.documents.len()
            &&& final(store)@.documents[i].document@ == restated_document_view(
                old(store)@.documents[i].document@,
                word_count,
                char_count,
                opt_view(excerpt),
                now,
            )
            &&& final(store)@ == (MetadataView {
                documents: old(store)@.documents.update(
                    i,
                    DocumentRecord {
                        document: final(store)@.documents[i].document,
                        ..old(store)@.documents[i]
                    },
                ),
                ..old(store)@
            })
        },
{
    let i: usize = match store.find_document(id, user_id) {
        Some(i) => i,
        None => {
            return false;
        },
    };
    let current = &store.documents[i].document;
    let updated = Document {
        id: current.id.clone(),
        folder_id: clone_opt_string(&current.folder_id),
        title: current.title.clone(),
        slug: current.slug.clone(),
        file_path: current.file_path.clone(),
        word_count,
        char_count,
        excerpt,
        is_pinned: current.is_pinned,
        is_archived: current.is_archived,
        created_at: current.created_at,
        updated_at: now,
    };
    store.replace_document(i, updated);
    true
}

/// Deletes a document of a user and tells whether there was one. The path of
/// a deleted document is retired: no later document is stored under it.
pub fn delete_document(store: &mut MetadataStore, id: &str, user_id: &str) -> (deleted: bool)
    requires
        old(store).wf(),
    ensures
        final(store).wf(),
        deleted == has_document(old(store)@.documents, id@, user_id@),
        !deleted ==> final(store)@ == old(store)@,
        deleted ==> {
            let i = document_place(old(store)@.documents, id@);
            &&& final(store)@.documents == old(store)@.documents.remove(i)
            &&& final(store)@.retired_paths.len() == old(store)@.retired_paths.len() + 1
            &&& final(store)@.retired_paths.drop_last() == old(store)@.retired_paths
            &&& final(store)@.retired_paths.last()@ == old(store)@.documents[i].document.file_path@
            &&& final(store)@.folders == old(store)@.folders
            &&& final(store)@.next_rowid == old(store)@.next_rowid
        },
{
    let i: usize = match store.find_document(id, user_id) {
        Some(i) => i,
        None => {
            return false;
        },
    };
    let ghost before = store@;
    let record = store.documents.remove(i);
    store.retired_paths.push(record.document.file_path);
    proof {
        let after = store@;
        let m = before.retired_paths.len() as int;
        assert(after.retired_paths.drop_last() =~= before.retired_paths);
        assert forall|a: int, b: int| 0 <= a < b < after.documents.len() implies (
        #[trigger] after.documents[a]).document.id@ != (#[trigger] after.documents[b]).document.id@ by {
            let a0 = if a < i { a } else { a + 1 };
            let b0 = if b < i { b } else { b + 1 };
            assert(before.documents[a0].document.id@ != before.documents[b0].document.id@);
        }
        assert forall|a: int, b: int| 0 <= a < b < after.documents.len() implies (
        #[trigger] after.documents[a]).document.file_path@ != (
        #[trigger] after.documents[b]).document.file_path@ by {
            let a0 = if a < i { a } else { a + 1 };
            let b0 = if b < i { b } else { b + 1 };
            assert(before.documents[a0].document.file_path@
                != before.documents[b0].document.file_path@);
        }
        assert forall|a: int, b: int| 0 <= a < b < after.documents.len() implies (
        #[trigger] after.documents[a]).rowid != (#[trigger] after.documents[b]).rowid by {
            let a0 = if a < i { a } else { a + 1 };
            let b0 = if b < i { b } else { b + 1 };
            assert(before.documents[a0].rowid != before.documents[b0].rowid);
        }
        assert forall|a: int| 0 <= a < after.documents.len() implies 1 <= (
        #[trigger] after.documents[a]).rowid < after.next_rowid by {
            let a0 = if a < i { a } else { a + 1 };
            assert(1 <= before.documents[a0].rowid < before.next_rowid);
        }
        assert forall|a: int, k: int|
            0 <= a < after.documents.len() && 0 <= k < after.retired_paths.len() implies (
        #[trigger] after.documents[a]).document.file_path@ != (#[trigger] after.retired_paths[k])@ by {
            let a0 = if a < i { a } else { a + 1 };
            if k < m {
                assert(before.documents[a0].document.file_path@ != before.retired_paths[k]@);
            } else {
                if a0 < i {
                    assert(before.documents[a0].document.file_path@
                        != before.documents[i as int].document.file_path@);
                } else {
                    assert(before.documents[i as int].document.file_path@
                        != before.documents[a0].document.file_path@);
                }
            }
        }
    }
    true
}

/// The order in which folders are listed: by `sort_order`, then by name.
pub open spec fn folder_before(a: Folder, b: Folder) -> bool {
    a.sort_order < b.sort_order || (a.sort_order == b.sort_order && lex_le(a.name@, b.name@))
}

/// Tells whether `folders` stands in the order of a listing.
pub open spec fn folders_sorted(folders: Seq<Folder>) -> bool {
    forall|i: int, j: int|
        0 <= i < j < folders.len() ==> folder_before(#[trigger] folders[i], #[trigger] folders[j])
}

/// The folders that `user` owns among the first `n` records.
pub open spec fn owned_folders(folders: Seq<FolderRecord>, user: Seq<char>, n: int) -> Seq<Folder>
    decreases n,
{
    if n <= 0 {
        Seq::empty()
    } else if folders[n - 1].user_id@ == user {
        owned_folders(folders, user, n - 1).push(folders[n - 1].folder)
    } else {
        owned_folders(folders, user, n - 1)
    }
}

/// A folder that was just created: first in its sort order, both timestamps
/// at `now`.
pub open spec fn new_folder_view(
    id: Seq<char>,
    name: Seq<char>,
    parent_id: Option<Seq<char>>,
    slug: Seq<char>,
    now: i64,
) -> FolderView {
    FolderView { id, parent_id, name, slug, sort_order: 0, created_at: now, updated_at: now }
}

/// Tells whether a request changes anything of a folder.
pub open spec fn changes_folder(req: UpdateFolderRequest) -> bool {
    req.name is Some || req.parent_id is Some || req.sort_order is Some
}

/// A folder after a partial update: the fields that the request holds
/// replace the old ones, and `updated_at` becomes `now` when it holds any.
pub open spec fn updated_folder_view(old: FolderView, req: UpdateFolderRequest, now: i64) -> FolderView {
    FolderView {
        name: match req.name {
            Some(n) => n@,
            None => old.name,
        },
        parent_id: match req.parent_id {
            Some(p) => Some(p@),
            None => old.parent_id,
        },
        sort_order: match req.sort_order {
            Some(k) => k,
            None => old.sort_order,
        },
        updated_at: if changes_folder(req) { now } else { old.updated_at },
        ..old
    }
}

/// A document's record once the folder `folder` is gone: a document that
/// was in it is at the root, any other is as it was.
pub open spec fn detached_document(rec: DocumentRecord, folder: Seq<char>) -> DocumentRecord {
    if opt_view(rec.document.folder_id) == Some(folder) {
        DocumentRecord { document: Document { folder_id: None, ..rec.document }, ..rec }
    } else {
        rec
    }
}

/// A folder's record once the folder `folder` is gone: a child of it is at
/// the root, any other is as it was.
pub open spec fn detached_folder(rec: FolderRecord, folder: Seq<char>) -> FolderRecord {
    if opt_view(rec.folder.parent_id) == Some(folder) {
        FolderRecord { folder: Folder { parent_id: None, ..rec.folder }, ..rec }
    } else {
        rec
    }
}

/// All documents once the folder `folder` is gone.
pub open spec fn detached_documents(docs: Seq<DocumentRecord>, folder: Seq<char>) -> Seq<DocumentRecord> {
    Seq::new(docs.len(), |i: int| detached_document(docs[i], folder))
}

/// All folders once the folder `folder` is gone.
pub open spec fn detached_folders(folders: Seq<FolderRecord>, folder: Seq<char>) -> Seq<FolderRecord> {
    Seq::new(folders.len(), |i: int| detached_folder(folders[i], folder))
}

impl MetadataStore {
    /// Where the folder with this id stands, if `user_id` owns it.
    fn find_folder(&self, id: &str, user_id: &str) -> (r: Option<usize>)
        requires
            self.wf(),
        ensures
            r is Some <==> has_folder(self@.folders, id@, user_id@),
            r matches Some(i) ==> i < self@.folders.len() && folder_place(self@.folders, id@) == i
                && self@.folders[i as int].folder.id@ == id@ && self@.folders[i as int].user_id@
                == user_id@,
            r is None && has_folder_id(self@.folders, id@) ==> self@.folders[folder_place(
                self@.folders,
                id@,
            )].user_id@ != user_id@,
    {
        let mut i: usize = 0;
        while i < self.folders.len()
            invariant
                i <= self.folders.len(),
                well_formed(self@),
                forall|j: int| 0 <= j < i ==> (#[trigger] self.folders@[j]).folder.id@ != id@,
            decreases self.folders.len() - i,
        {
            if self.folders[i].folder.id.as_str().eq(id) {
                proof {
                    let fs = self@.folders;
                    let k = folder_place(fs, id@);
                    assert(fs[i as int].folder.id@ == id@);
                    if k < i {
                        assert(fs[k].folder.id@ != fs[i as int].folder.id@);
                    } else if i < k {
                        assert(fs[i as int].folder.id@ != fs[k].folder.id@);
                    }
                }
                if self.folders[i].user_id.as_str().eq(user_id) {
                    return Some(i);
                } else {
                    return None;
                }
            }
            i = i + 1;
        }
        None
    }
}

/// Lists the folders of a user by `sort_order`, folders of one `sort_order`
/// by name.
pub fn list_folders(store: &MetadataStore, user_id: &str) -> (r: Vec<Folder>)
    ensures
        folders_sorted(r@),
        r@.to_multiset() == owned_folders(store@.folders, user_id@, store@.folders.len() as int).to_multiset(),
{
    let mut out: Vec<Folder> = Vec::new();
    let mut i: usize = 0;
    while i < store.folders.len()
        invariant
            i <= store.folders.len(),
            folders_sorted(out@),
            out@.to_multiset() == owned_folders(store.folders@, user_id@, i as int).to_multiset(),
        decreases store.folders.len() - i,
    {
        let rec = &store.folders[i];
        if rec.user_id.as_str().eq(user_id) {
            let f = rec.folder.clone();
            let mut pos: usize = out.len();
            while pos > 0 && !(out[pos - 1].sort_order < f.sort_order || (out[pos - 1].sort_order
                == f.sort_order && str_le(out[pos - 1].name.as_str(), f.name.as_str())))
                invariant
                    pos <= out.len(),
                    forall|k: int| pos <= k < out.len() ==> !folder_before(#[trigger] out@[k], f),
                decreases pos,
            {
                pos = pos - 1;
            }
            let ghost prev = out@;
            out.insert(pos, f);
            proof {
                to_multiset_insert(prev, pos as int, f);
                to_multiset_build(owned_folders(store.folders@, user_id@, i as int), f);
                assert(out@ == prev.insert(pos as int, f));
                assert forall|a: int, b: int| 0 <= a < b < out@.len() implies folder_before(
                    #[trigger] out@[a],
                    #[trigger] out@[b],
                ) by {
                    if b < pos {
                        assert(folder_before(prev[a], prev[b]));
                    } else if b == pos {
                        assert(folder_before(prev[pos - 1], f));
                        if a < pos - 1 {
                            assert(folder_before(prev[a], prev[pos - 1]));
                            if prev[a].sort_order == f.sort_order {
                                lemma_lex_le_transitive(prev[a].name@, prev[pos - 1].name@, f.name@);
                            }
                        }
                    } else if a == pos {
                        assert(!folder_before(prev[b - 1], f));
                        lemma_lex_le_total(f.name@, prev[b - 1].name@);
                    } else if a > pos {
                        assert(folder_before(prev[a - 1], prev[b - 1]));
                    } else {
                        assert(folder_before(prev[a], prev[b - 1]));
                    }
                }
            }
        }
        i = i + 1;
    }
    out
}

/// Finds a folder of a user by its id. A folder of another user is not found.
pub fn get_folder(store: &MetadataStore, id: &str, user_id: &str) -> (r: Option<Folder>)
    requires
        store.wf(),
    ensures
        r is Some <==> has_folder(store@.folders, id@, user_id@),
        r matches Some(f) ==> f == store@.folders[folder_place(store@.folders, id@)].folder,
{
    match store.find_folder(id, user_id) {
        Some(i) => Some(store.folders[i].folder.clone()),
        None => None,
    }
}

/// Creates a folder for a user, first in its sort order, created and
/// updated at `now`. Fails, and leaves the store as it was, when the id is
/// taken.
pub fn create_folder(
    store: &mut MetadataStore,
    id: &str,
    name: String,
    parent_id: Option<String>,
    slug: String,
    user_id: &str,
    now: i64,
) -> (r: Result<Folder, AppError>)
    requires
        old(store).wf(),
    ensures
        final(store).wf(),
        r is Ok <==> !has_folder_id(old(store)@.folders, id@),
        r matches Err(e) ==> final(store)@ == old(store)@ && e is Database,
        r matches Ok(f) ==> {
            &&& f@ == new_folder_view(id@, name@, opt_view(parent_id), slug@, now)
            &&& final(store)@.folders.len() == old(store)@.folders.len() + 1
            &&& final(store)@.folders.drop_last() == old(store)@.folders
            &&& final(store)@.folders.last().folder == f
            &&& final(store)@.folders.last().user_id@ == user_id@
            &&& final(store)@.documents == old(store)@.documents
            &&& final(store)@.retired_paths == old(store)@.retired_paths
            &&& final(store)@.next_rowid == old(store)@.next_rowid
        },
{
    let mut i: usize = 0;
    while i < store.folders.len()
        invariant
            i <= store.folders.len(),
            *store == *old(store),
            store.wf(),
            forall|j: int| 0 <= j < i ==> (#[trigger] store.folders@[j]).folder.id@ != id@,
        decreases store.folders.len() - i,
    {
        if store.folders[i].folder.id.as_str().eq(id) {
            return Err(AppError::Database("folder id already exists".to_owned()));
        }
        i = i + 1;
    }
    let ghost before = store@;
    let folder = Folder {
        id: id.to_owned(),
        parent_id,
        name,
        slug,
        sort_order: 0,
        created_at: now,
        updated_at: now,
    };
    let created = folder.clone();
    store.folders.push(FolderRecord { user_id: user_id.to_owned(), folder });
    proof {
        let after = store@;
        let n = before.folders.len() as int;
        assert(after.folders.drop_last() =~= before.folders);
        assert forall|a: int, b: int| 0 <= a < b < after.folders.len() implies (
        #[trigger] after.folders[a]).folder.id@ != (#[trigger] after.folders[b]).folder.id@ by {
            if b < n {
                assert(before.folders[a].folder.id@ != before.folders[b].folder.id@);
            } else {
                assert(before.folders[a].folder.id@ != id@);
            }
        }
        assert forall|a: int, k: int|
            0 <= a < after.documents.len() && 0 <= k < after.retired_paths.len() implies (
        #[trigger] after.documents[a]).document.file_path@ != (#[trigger] after.retired_paths[k])@ by {
            assert(before.documents[a].document.file_path@ != before.retired_paths[k]@);
        }
    }
    Ok(created)
}

/// Applies a partial update to a folder of a user and returns the updated
/// folder. Only the fields that the request holds change; `updated_at`
/// becomes `now` when it holds any. Nothing changes when the user has no
/// such folder.
pub fn update_folder(
    store: &mut MetadataStore,
    id: &str,
    req: &UpdateFolderRequest,
    user_id: &str,
    now: i64,
) -> (r: Option<Folder>)
    requires
        old(store).wf(),
    ensures
        final(store).wf(),
        r is Some <==> has_folder(old(store)@.folders, id@, user_id@),
        r is None ==> final(store)@ == old(store)@,
        r matches Some(f) ==> {
            let i = folder_place(old(store)@.folders, id@);
            &&& f@ == updated_folder_view(old(store)@.folders[i].folder@, *req, now)
            &&& final(store)@ == (MetadataView {
                folders: old(store)@.folders.update(
                    i,
                    FolderRecord { folder: f, ..old(store)@.folders[i] },
                ),
                ..old(store)@
            })
        },
{
    let i: usize = match store.find_folder(id, user_id) {
        Some(i) => i,
        None => {
            return None;
        },
    };
    let ghost before = store@;
    let current = &store.folders[i].folder;
    let touched: bool = req.name.is_some() || req.parent_id.is_some() || req.sort_order.is_some();
    let updated = Folder {
        id: current.id.clone(),
        parent_id: match &req.parent_id {
            Some(p) => Some(p.clone()),
            None => clone_opt_string(&current.parent_id),
        },
        name: match &req.name {
            Some(n) => n.clone(),
            None => current.name.clone(),
        },
        slug: current.slug.clone(),
        sort_order: match req.sort_order {
            Some(k) => k,
            None => current.sort_order,
        },
        created_at: current.created_at,
        updated_at: if touched { now } else { current.updated_at },
    };
    let result = updated.clone();
    let record = FolderRecord { user_id: store.folders[i].user_id.clone(), folder: updated };
    store.folders.set(i, record);
    proof {
        let after = store@;
        assert(after.folders =~= before.folders.update(i as int, record));
        assert forall|a: int, b: int| 0 <= a < b < after.folders.len() implies (
        #[trigger] after.folders[a]).folder.id@ != (#[trigger] after.folders[b]).folder.id@ by {
            assert(before.folders[a].folder.id@ != before.folders[b].folder.id@);
        }
    }
    Some(result)
}

/// Deletes a folder of a user and tells whether there was one. Nothing else
/// is deleted with it: the documents that were in the folder, and the
/// folders whose parent it was, stay and move to the root.
pub fn delete_folder(store: &mut MetadataStore, id: &str, user_id: &str) -> (deleted: bool)
    requires
        old(store).wf(),
    ensures
        final(store).wf(),
        deleted == has_folder(old(store)@.folders, id@, user_id@),
        !deleted ==> final(store)@ == old(store)@,
        deleted ==> final(store)@ == (MetadataView {
            documents: detached_documents(old(store)@.documents, id@),
            folders: detached_folders(
                old(store)@.folders.remove(folder_place(old(store)@.folders, id@)),
                id@,
            ),
            ..old(store)@
        }),
{
    let i: usize = match store.find_folder(id, user_id) {
        Some(i) => i,
        None => {
            return false;
        },
    };
    let ghost before = store@;
    store.folders.remove(i);
    let ghost removed = store.folders@;
    let mut k: usize = 0;
    while k < store.folders.len()
        invariant
            k <= store.folders.len(),
            store.folders@.len() == removed.len(),
            store.documents@ == before.documents,
            store.retired_paths@ == before.retired_paths,
            store.next_rowid == before.next_rowid,
            forall|j: int| 0 <= j < k ==> (#[trigger] store.folders@[j]) == detached_folder(removed[j], id@),
            forall|j: int| k <= j < removed.len() ==> (#[trigger] store.folders@[j]) == removed[j],
        decreases store.folders.len() - k,
    {
        if opt_string_eq_str(&store.folders[k].folder.parent_id, Some(id)) {
            let current = &store.folders[k];
            let record = FolderRecord {
                user_id: current.user_id.clone(),
                folder: Folder {
                    id: current.folder.id.clone(),
                    parent_id: None,
                    name: current.folder.name.clone(),
                    slug: current.folder.slug.clone(),
                    sort_order: current.folder.sort_order,
                    created_at: current.folder.created_at,
                    updated_at: current.folder.updated_at,
                },
            };
            store.folders.set(k, record);
        }
        k = k + 1;
    }
    let mut d: usize = 0;
    while d < store.documents.len()
        invariant
            d <= store.documents.len(),
            store.documents@.len() == before.documents.len(),
            store.folders@ == detached_folders(removed, id@),
            store.retired_paths@ == before.retired_paths,
            store.next_rowid == before.next_rowid,
            forall|j: int|
                0 <= j < d ==> (#[trigger] store.documents@[j]) == detached_document(
                    before.documents[j],
                    id@,
                ),
            forall|j: int| d <= j < before.documents.len() ==> (#[trigger] store.documents@[j])
                == before.documents[j],
        decreases store.documents.len() - d,
    {
        if opt_string_eq_str(&store.documents[d].document.folder_id, Some(id)) {
            let current = &store.documents[d];
            let record = DocumentRecord {
                rowid: current.rowid,
                user_id: current.user_id.clone(),
                document: Document {
                    id: current.document.id.clone(),
                    folder_id: None,
                    title: current.document.title.clone(),
                    slug: current.document.slug.clone(),
                    file_path: current.document.file_path.clone(),
                    word_count: current.document.word_count,
                    char_count: current.document.char_count,
                    excerpt: clone_opt_string(&current.document.excerpt),
                    is_pinned: current.document.is_pinned,
                    is_archived: current.document.is_archived,
                    created_at: current.document.created_at,
                    updated_at: current.document.updated_at,
                },
            };
            store.documents.set(d, record);
        }
        d = d + 1;
    }
    proof {
        let after = store@;
        assert(after.documents =~= detached_documents(before.documents, id@));
        lemma_detached_well_formed(before, id@, i as int);
    }
    true
}

/// Detaching keeps the store's invariant.
proof fn lemma_detached_well_formed(v: MetadataView, folder: Seq<char>, i: int)
    requires
        well_formed(v),
        0 <= i < v.folders.len(),
    ensures
        well_formed(
            MetadataView {
                documents: detached_documents(v.documents, folder),
                folders: detached_folders(v.folders.remove(i), folder),
                ..v
            },
        ),
{
    let docs = detached_documents(v.documents, folder);
    let folders = detached_folders(v.folders.remove(i), folder);
    assert forall|a: int, b: int| 0 <= a < b < docs.len() implies (#[trigger] docs[a]).document.id@ != (
    #[trigger] docs[b]).document.id@ by {
        assert(v.documents[a].document.id@ != v.documents[b].document.id@);
    }
    assert forall|a: int, b: int| 0 <= a < b < docs.len() implies (
    #[trigger] docs[a]).document.file_path@ != (#[trigger] docs[b]).document.file_path@ by {
        assert(v.documents[a].document.file_path@ != v.documents[b].document.file_path@);
    }
    assert forall|a: int, b: int| 0 <= a < b < docs.len() implies (#[trigger] docs[a]).rowid != (
    #[trigger] docs[b]).rowid by {
        assert(v.documents[a].rowid != v.documents[b].rowid);
    }
    assert forall|a: int| 0 <= a < docs.len() implies 1 <= (#[trigger] docs[a]).rowid < v.next_rowid by {
        assert(1 <= v.documents[a].rowid < v.next_rowid);
    }
    assert forall|a: int, k: int| 0 <= a < docs.len() && 0 <= k < v.retired_paths.len() implies (
    #[trigger] docs[a]).document.file_path@ != (#[trigger] v.retired_paths[k])@ by {
        assert(v.documents[a].document.file_path@ != v.retired_paths[k]@);
    }
    assert forall|a: int, b: int| 0 <= a < b < folders.len() implies (#[trigger] folders[a]).folder.id@
        != (#[trigger] folders[b]).folder.id@ by {
        let a0 = if a < i { a } else { a + 1 };
        let b0 = if b < i { b } else { b + 1 };
        assert(v.folders[a0].folder.id@ != v.folders[b0].folder.id@);
    }
}

/// Deleting a folder deletes nothing else: every document is still there,
/// with all that it held but its place in the deleted folder, and so is
/// every other folder; none of them refers to the deleted folder any more.
pub proof fn lemma_delete_folder_detaches(v: MetadataView, folder: Seq<char>, i: int)
    requires
        well_formed(v),
        0 <= i < v.folders.len(),
        v.folders[i].folder.id@ == folder,
    ensures
        ({
            let docs = detached_documents(v.documents, folder);
            let folders = detached_folders(v.folders.remove(i), folder);
            &&& docs.len() == v.documents.len()
            &&& forall|k: int|
                0 <= k < docs.len() ==> {
                    &&& (#[trigger] docs[k]).rowid == v.documents[k].rowid
                    &&& docs[k].user_id == v.documents[k].user_id
                    &&& docs[k].document@.folder_id != Some(folder)
                    &&& docs[k].document@ == (DocumentView {
                        folder_id: if v.documents[k].document@.folder_id == Some(folder) {
                            None
                        } else {
                            v.documents[k].document@.folder_id
                        },
                        ..v.documents[k].document@
                    })
                }
            &&& folders.len() == v.folders.len() - 1
            &&& forall|k: int|
                0 <= k < v.folders.len() && k != i ==> has_folder_id(
                    folders,
                    (#[trigger] v.folders[k]).folder.id@,
                )
            &&& !has_folder_id(folders, folder)
            &&& forall|k: int| 0 <= k < folders.len() ==> (#[trigger] folders[k]).folder@.parent_id != Some(folder)
        }),
{
    let folders = detached_folders(v.folders.remove(i), folder);
    assert forall|k: int| 0 <= k < v.folders.len() && k != i implies has_folder_id(
        folders,
        (#[trigger] v.folders[k]).folder.id@,
    ) by {
        let k1 = if k < i { k } else { k - 1 };
        assert(folders[k1].folder.id@ == v.folders[k].folder.id@);
    }
    if has_folder_id(folders, folder) {
        let k = folder_place(folders, folder);
        let k0 = if k < i { k } else { k + 1 };
        assert(v.folders[k0].folder.id@ == folder);
        if k0 < i {
            assert(v.folders[k0].folder.id@ != v.folders[i].folder.id@);
        } else {
            assert(v.folders[i].folder.id@ != v.folders[k0].folder.id@);
        }
    }
}

/// In a well-formed store an id names one place.
pub proof fn lemma_document_place_unique(v: MetadataView, id: Seq<char>, i: int)
    requires
        well_formed(v),
        0 <= i < v.documents.len(),
        v.documents[i].document.id@ == id,
    ensures
        has_document_id(v.documents, id),
        document_place(v.documents, id) == i,
{
    let k = document_place(v.documents, id);
    if k < i {
        assert(v.documents[k].document.id@ != v.documents[i].document.id@);
    } else if i < k {
        assert(v.documents[i].document.id@ != v.documents[k].document.id@);
    }
}

/// Tells whether a document has the row number `rowid`.
pub open spec fn has_rowid(docs: Seq<DocumentRecord>, rowid: i64) -> bool {
    exists|i: int| 0 <= i < docs.len() && (#[trigger] docs[i]).rowid == rowid
}

/// Tells whether a record that was kept elsewhere can be taken in: its id,
/// path and row number are free, and the row number can be one.
pub open spec fn can_load(v: MetadataView, rec: DocumentRecord) -> bool {
    &&& !has_document_id(v.documents, rec.document.id@)
    &&& !has_file_path(v.documents, rec.document.file_path@)
    &&& !is_retired(v.retired_paths, rec.document.file_path@)
    &&& !has_rowid(v.documents, rec.rowid)
    &&& 1 <= rec.rowid < i64::MAX
}

/// Takes in the record of a document that was kept elsewhere, as it is.
/// Row numbers that are given out later lie above its row number.
///
/// Fails, and leaves the store as it was, when the id, the path or the row
/// number is taken, or the row number is none.
pub fn load_document(store: &mut MetadataStore, record: DocumentRecord) -> (r: Result<(), AppError>)
    requires
        old(store).wf(),
    ensures
        final(store).wf(),
        r is Ok <==> can_load(old(store)@, record),
        r matches Err(e) ==> final(store)@ == old(store)@ && e is Database,
        r is Ok ==> final(store)@ == (MetadataView {
            documents: old(store)@.documents.push(record),
            next_rowid: if old(store)@.next_rowid > record.rowid {
                old(store)@.next_rowid
            } else {
                (record.rowid + 1) as i64
            },
            ..old(store)@
        }),
{
    if record.rowid < 1 || record.rowid == i64::MAX {
        return Err(AppError::Database("row number out of range".to_owned()));
    }
    if store.find_document_id(record.document.id.as_str()).is_some() {
        return Err(AppError::Database("document id already exists".to_owned()));
    }
    if store.file_path_in_use(record.document.file_path.as_str()) || store.file_path_retired(
        record.document.file_path.as_str(),
    ) {
        return Err(AppError::Database("file path already used".to_owned()));
    }
    let mut i: usize = 0;
    while i < store.documents.len()
        invariant
            i <= store.documents.len(),
            *store == *old(store),
            store.wf(),
            forall|j: int| 0 <= j < i ==> (#[trigger] store.documents@[j]).rowid != record.rowid,
        decreases store.documents.len() - i,
    {
        if store.documents[i].rowid == record.rowid {
            return Err(AppError::Database("row number already exists".to_owned()));
        }
        i = i + 1;
    }
    let ghost before = store@;
    if store.next_rowid <= record.rowid {
        store.next_rowid = record.rowid + 1;
    }
    store.documents.push(record);
    proof {
        let after = store@;
        let n = before.documents.len() as int;
        assert(after.documents =~= before.documents.push(record));
        assert forall|a: int, b: int| 0 <= a < b < after.documents.len() implies (
        #[trigger] after.documents[a]).document.id@ != (#[trigger] after.documents[b]).document.id@ by {
            if b < n {
                assert(before.documents[a].document.id@ != before.documents[b].document.id@);
            } else {
                assert(before.documents[a].document.id@ != record.document.id@);
            }
        }
        assert forall|a: int, b: int| 0 <= a < b < after.documents.len() implies (
        #[trigger] after.documents[a]).document.file_path@ != (
        #[trigger] after.documents[b]).document.file_path@ by {
            if b < n {
                assert(before.documents[a].document.file_path@
                    != before.documents[b].document.file_path@);
            } else {
                assert(before.documents[a].document.file_path@ != record.document.file_path@);
            }
        }
        assert forall|a: int, b: int| 0 <= a < b < after.documents.len() implies (
        #[trigger] after.documents[a]).rowid != (#[trigger] after.documents[b]).rowid by {
            if b < n {
                assert(before.documents[a].rowid != before.documents[b].rowid);
            } else {
                assert(before.documents[a].rowid != record.rowid);
            }
        }
        assert forall|a: int| 0 <= a < after.documents.len() implies 1 <= (
        #[trigger] after.documents[a]).rowid < after.next_rowid by {
            if a < n {
                assert(1 <= before.documents[a].rowid < before.next_rowid);
            }
        }
        assert forall|a: int, k: int|
            0 <= a < after.documents.len() && 0 <= k < after.retired_paths.len() implies (
        #[trigger] after.documents[a]).document.file_path@ != (#[trigger] after.retired_paths[k])@ by {
            if a < n {
                assert(before.documents[a].document.file_path@ != before.retired_paths[k]@);
            } else {
                assert(before.retired_paths[k]@ != record.document.file_path@);
            }
        }
    }
    Ok(())
}

/// Takes in the record of a folder that was kept elsewhere, as it is. Fails,
/// and leaves the store as it was, when the id is taken.
pub fn load_folder(store: &mut MetadataStore, record: FolderRecord) -> (r: Result<(), AppError>)
    requires
        old(store).wf(),
    ensures
        final(store).wf(),
        r is Ok <==> !has_folder_id(old(store)@.folders, record.folder.id@),
        r matches Err(e) ==> final(store)@ == old(store)@ && e is Database,
        r is Ok ==> final(store)@ == (MetadataView {
            folders: old(store)@.folders.push(record),
            ..old(store)@
        }),
{
    let mut i: usize = 0;
    while i < store.folders.len()
        invariant
            i <= store.folders.len(),
            *store == *old(store),
            store.wf(),
            forall|j: int| 0 <= j < i ==> (#[trigger] store.folders@[j]).folder.id@ != record.folder.id@,
        decreases store.folders.len() - i,
    {
        if store.folders[i].folder.id.as_str().eq(record.folder.id.as_str()) {
            return Err(AppError::Database("folder id already exists".to_owned()));
        }
        i = i + 1;
    }
    let ghost before = store@;
    store.folders.push(record);
    proof {
        let after = store@;
        let n = before.folders.len() as int;
        assert(after.folders =~= before.folders.push(record));
        assert forall|a: int, b: int| 0 <= a < b < after.folders.len() implies (
        #[trigger] after.folders[a]).folder.id@ != (#[trigger] after.folders[b]).folder.id@ by {
            if b < n {
                assert(before.folders[a].folder.id@ != before.folders[b].folder.id@);
            } else {
                assert(before.folders[a].folder.id@ != record.folder.id@);
            }
        }
        assert forall|a: int, k: int|
            0 <= a < after.documents.len() && 0 <= k < after.retired_paths.len() implies (
        #[trigger] after.documents[a]).document.file_path@ != (#[trigger] after.retired_paths[k])@ by {
            assert(before.documents[a].document.file_path@ != before.retired_paths[k]@);
        }
    }
    Ok(())
}

} // verus!
