//! The records that the stores keep and the requests that change them.
//!
//! Timestamps are milliseconds since the Unix epoch, UTC.

use vstd::prelude::*;
use crate::strings::{clone_opt_string, opt_view};

verus! {


/// A text document's metadata. The content itself lives in the content store,
/// under `file_path`.
#[derive(Debug)]
pub struct Document {
    pub id: String,
    pub folder_id: Option<String>,
    pub title: String,
    pub slug: String,
    pub file_path: String,
    pub word_count: i64,
    pub char_count: i64,
    pub excerpt: Option<String>,
    pub is_pinned: i64,
    pub is_archived: i64,
    pub created_at: i64,
    pub updated_at: i64,
}

/// A document's metadata as plain values.
pub struct DocumentView {
    pub id: Seq<char>,
    pub folder_id: Option<Seq<char>>,
    pub title: Seq<char>,
    pub slug: Seq<char>,
    pub file_path: Seq<char>,
    pub word_count: i64,
    pub char_count: i64,
    pub excerpt: Option<Seq<char>>,
    pub is_pinned: i64,
    pub is_archived: i64,
    pub created_at: i64,
    pub updated_at: i64,
}

impl View for Document {
    type V = DocumentView;

    open spec fn view(&self) -> DocumentView {
        DocumentView {
            id: self.id@,
            folder_id: opt_view(self.folder_id),
            title: self.title@,
            slug: self.slug@,
            file_path: self.file_path@,
            word_count: self.word_count,
            char_count: self.char_count,
            excerpt: opt_view(self.excerpt),
            is_pinned: self.is_pinned,
            is_archived: self.is_archived,
            created_at: self.created_at,
            updated_at: self.updated_at,
        }
    }
}

impl DocumentView {
    /// The same document under another title.
    pub open spec fn with_title(self, title: Seq<char>) -> DocumentView {
        DocumentView { title, ..self }
    }
}

impl Clone for Document {
    fn clone(&self) -> (r: Self)
        ensures
            r == *self,
    {
        Document {
            id: self.id.clone(),
            folder_id: clone_opt_string(&self.folder_id),
            title: self.title.clone(),
            slug: self.slug.clone(),
            file_path: self.file_path.clone(),
            word_count: self.word_count,
            char_count: self.char_count,
            excerpt: clone_opt_string(&self.excerpt),
            is_pinned: self.is_pinned,
            is_archived: self.is_archived,
            created_at: self.created_at,
            updated_at: self.updated_at,
        }
    }
}

/// A folder of documents; folders form a tree through `parent_id`.
#[derive(Debug)]
pub struct Folder {
    pub id: String,
    pub parent_id: Option<String>,
    pub name: String,
    pub slug: String,
    pub sort_order: i64,
    pub created_at: i64,
    pub updated_at: i64,
}

/// A folder as plain values.
pub struct FolderView {
    pub id: Seq<char>,
    pub parent_id: Option<Seq<char>>,
    pub name: Seq<char>,
    pub slug: Seq<char>,
    pub sort_order: i64,
    pub created_at: i64,
    pub updated_at: i64,
}

impl View for Folder {
    type V = FolderView;

    open spec fn view(&self) -> FolderView {
        FolderView {
            id: self.id@,
            parent_id: opt_view(self.parent_id),
            name: self.name@,
            slug: self.slug@,
            sort_order: self.sort_order,
            created_at: self.created_at,
            updated_at: self.updated_at,
        }
    }
}

impl Clone for Folder {
    fn clone(&self) -> (r: Self)
        ensures
            r == *self,
    {
        Folder {
            id: self.id.clone(),
            parent_id: clone_opt_string(&self.parent_id),
            name: self.name.clone(),
            slug: self.slug.clone(),
            sort_order: self.sort_order,
            created_at: self.created_at,
            updated_at: self.updated_at,
        }
    }
}

/// What a caller supplies to create a document.
#[derive(Debug)]
pub struct CreateDocumentRequest {
    /// The title; a default one is chosen when absent.
    pub title: Option<String>,
    pub folder_id: Option<String>,
}

/// A partial update of a document: only the fields that are present change.
#[derive(Debug)]
pub struct UpdateDocumentRequest {
    pub title: Option<String>,
    /// `None` leaves the folder as it is, `Some(None)` moves the document to
    /// the root, `Some(Some(id))` moves it into that folder.
    pub folder_id: Option<Option<String>>,
    pub is_pinned: Option<bool>,
    pub is_archived: Option<bool>,
}

/// A document's text.
#[derive(Debug)]
pub struct DocumentContent {
    pub content: String,
}

/// What a caller supplies to create a folder.
#[derive(Debug)]
pub struct CreateFolderRequest {
    pub name: String,
    pub parent_id: Option<String>,
}

/// A partial update of a folder: only the fields that are present change.
#[derive(Debug)]
pub struct UpdateFolderRequest {
    pub name: Option<String>,
    pub parent_id: Option<String>,
    pub sort_order: Option<i64>,
}

/// An immutable snapshot of a document's content.
#[derive(Debug)]
pub struct DocumentVersion {
    pub id: String,
    pub document_id: String,
    pub version_number: i64,
    pub content: String,
    pub word_count: i64,
    pub char_count: i64,
    pub created_at: i64,
}

impl Clone for DocumentVersion {
    fn clone(&self) -> (r: Self)
        ensures
            r == *self,
    {
        DocumentVersion {
            id: self.id.clone(),
            document_id: self.document_id.clone(),
            version_number: self.version_number,
            content: self.content.clone(),
            word_count: self.word_count,
            char_count: self.char_count,
            created_at: self.created_at,
        }
    }
}

/// A snapshot without its content, as listings show it.
#[derive(Debug)]
pub struct DocumentVersionSummary {
    pub id: String,
    pub document_id: String,
    pub version_number: i64,
    pub word_count: i64,
    pub char_count: i64,
    pub created_at: i64,
}

impl DocumentVersion {
    /// What a listing shows of this snapshot.
    pub open spec fn summary_spec(self) -> DocumentVersionSummary {
        DocumentVersionSummary {
            id: self.id,
            document_id: self.document_id,
            version_number: self.version_number,
            word_count: self.word_count,
            char_count: self.char_count,
            created_at: self.created_at,
        }
    }

    /// Drops the content from a snapshot.
    pub fn summary(&self) -> (r: DocumentVersionSummary)
        ensures
            r == self.summary_spec(),
    {
        DocumentVersionSummary {
            id: self.id.clone(),
            document_id: self.document_id.clone(),
            version_number: self.version_number,
            word_count: self.word_count,
            char_count: self.char_count,
            created_at: self.created_at,
        }
    }
}

/// A search request.
#[derive(Debug)]
pub struct SearchQuery {
    pub q: String,
}

/// The verified identity on whose behalf an operation runs.
#[derive(Debug)]
pub struct AuthUser {
    pub user_id: String,
}

/// A count as the records hold it; counts beyond `i64` saturate.
pub open spec fn stored_count(n: nat) -> i64 {
    if n > i64::MAX { i64::MAX } else { n as i64 }
}

/// Converts a count to the width that the records hold.
pub fn to_stored_count(n: usize) -> (r: i64)
    ensures
        r == stored_count(n as nat),
{
    if n as u64 > 0x7fff_ffff_ffff_ffff {
        0x7fff_ffff_ffff_ffff
    } else {
        n as i64
    }
}

} // verus!
