//! Tags and the documents that carry them.

use vstd::prelude::*;
use vstd::seq_lib::*;
use crate::error::AppError;
use crate::metadata::{insert_listed, listing_sorted, DocumentRecord, MetadataStore};
use crate::models::Document;
use crate::strings::{
    clone_opt_string, lemma_lex_le_total, lemma_lex_le_transitive, lex_le, opt_view, str_le,
    views,
};

verus! {

/// A label that documents can carry.
#[derive(Debug)]
pub struct Tag {
    pub id: String,
    pub name: String,
    pub color: Option<String>,
}

/// A tag as plain values.
pub struct TagView {
    pub id: Seq<char>,
    pub name: Seq<char>,
    pub color: Option<Seq<char>>,
}

impl View for Tag {
    type V = TagView;

    open spec fn view(&self) -> TagView {
        TagView { id: self.id@, name: self.name@, color: opt_view(self.color) }
    }
}

impl Clone for Tag {
    fn clone(&self) -> (r: Self)
        ensures
            r == *self,
    {
        Tag { id: self.id.clone(), name: self.name.clone(), color: clone_opt_string(&self.color) }
    }
}

/// What a caller supplies to create a tag.
#[derive(Debug)]
pub struct CreateTagRequest {
    pub name: String,
    pub color: Option<String>,
}

/// A partial update of a tag: only the fields that are present change.
#[derive(Debug)]
pub struct UpdateTagRequest {
    pub name: Option<String>,
    pub color: Option<String>,
}

/// A request to put a tag on a document.
#[derive(Debug)]
pub struct AddTagToDocumentRequest {
    pub tag_id: String,
}

/// A tag on a document.
pub struct TagLink {
    pub document_id: String,
    pub tag_id: String,
}

/// What the store holds, in the order of creation.
pub struct TagsView {
    pub tags: Seq<Tag>,
    pub links: Seq<TagLink>,
}

/// Tells whether a tag with the id `id` exists.
pub open spec fn has_tag(tags: Seq<Tag>, id: Seq<char>) -> bool {
    exists|i: int| 0 <= i < tags.len() && (#[trigger] tags[i]).id@ == id
}

/// The place of the tag with the id `id`.
pub open spec fn tag_place(tags: Seq<Tag>, id: Seq<char>) -> int {
    choose|i: int| 0 <= i < tags.len() && (#[trigger] tags[i]).id@ == id
}

/// Tells whether a link joins the document and the tag.
pub open spec fn joins(link: TagLink, document_id: Seq<char>, tag_id: Seq<char>) -> bool {
    link.document_id@ == document_id && link.tag_id@ == tag_id
}

/// Tells whether the document carries the tag.
pub open spec fn is_linked(links: Seq<TagLink>, document_id: Seq<char>, tag_id: Seq<char>) -> bool {
    exists|i: int| 0 <= i < links.len() && joins(#[trigger] links[i], document_id, tag_id)
}

/// The place of the link that joins the document and the tag.
pub open spec fn link_place(links: Seq<TagLink>, document_id: Seq<char>, tag_id: Seq<char>) -> int {
    choose|i: int| 0 <= i < links.len() && joins(#[trigger] links[i], document_id, tag_id)
}

/// What every tag store satisfies: an id names one tag, and a document
/// carries a tag once at most.
pub open spec fn well_formed(v: TagsView) -> bool {
    &&& forall|i: int, j: int|
        0 <= i < j < v.tags.len() ==> (#[trigger] v.tags[i]).id@ != (#[trigger] v.tags[j]).id@
    &&& forall|i: int, j: int|
        0 <= i < j < v.links.len() ==> !joins(
            #[trigger] v.links[i],
            (#[trigger] v.links[j]).document_id@,
            v.links[j].tag_id@,
        )
}

/// The order in which tags are listed: by name.
pub open spec fn tags_sorted(tags: Seq<Tag>) -> bool {
    forall|i: int, j: int|
        0 <= i < j < tags.len() ==> lex_le((#[trigger] tags[i]).name@, (#[trigger] tags[j]).name@)
}

/// The tags among the first `n` that the document carries.
pub open spec fn tags_of(tags: Seq<Tag>, links: Seq<TagLink>, document_id: Seq<char>, n: int) -> Seq<
    Tag,
>
    decreases n,
{
    if n <= 0 {
        Seq::empty()
    } else if is_linked(links, document_id, tags[n - 1].id@) {
        tags_of(tags, links, document_id, n - 1).push(tags[n - 1])
    } else {
        tags_of(tags, links, document_id, n - 1)
    }
}

/// The documents that carry the tag, among the first `n` links.
pub open spec fn documents_of(links: Seq<TagLink>, tag_id: Seq<char>, n: int) -> Seq<Seq<char>>
    decreases n,
{
    if n <= 0 {
        Seq::empty()
    } else if links[n - 1].tag_id@ == tag_id {
        documents_of(links, tag_id, n - 1).push(links[n - 1].document_id@)
    } else {
        documents_of(links, tag_id, n - 1)
    }
}

/// A tag after a partial update.
pub open spec fn updated_tag_view(old: TagView, req: UpdateTagRequest) -> TagView {
    TagView {
        name: match req.name {
            Some(n) => n@,
            None => old.name,
        },
        color: match req.color {
            Some(c) => Some(c@),
            None => old.color,
        },
        ..old
    }
}

/// The tags and the documents that carry them.
pub struct TagStore {
    tags: Vec<Tag>,
    links: Vec<TagLink>,
}

impl View for TagStore {
    type V = TagsView;

    closed spec fn view(&self) -> TagsView {
        TagsView { tags: self.tags@, links: self.links@ }
    }
}

impl TagStore {
    /// The store's invariant.
    pub open spec fn wf(&self) -> bool {
        well_formed(self@)
    }

    /// An empty store.
    pub fn new() -> (s: Self)
        ensures
            s.wf(),
            s@.tags.len() == 0,
            s@.links.len() == 0,
    {
        TagStore { tags: Vec::new(), links: Vec::new() }
    }

    /// All tags, in the order of their creation.
    pub fn all_tags(&self) -> (r: &Vec<Tag>)
        ensures
            r@ == self@.tags,
    {
        &self.tags
    }

    /// All links, in the order of their creation.
    pub fn all_links(&self) -> (r: &Vec<TagLink>)
        ensures
            r@ == self@.links,
    {
        &self.links
    }

    /// Where the tag with this id stands.
    fn find_tag(&self, id: &str) -> (r: Option<usize>)
        requires
            self.wf(),
        ensures
            r is Some <==> has_tag(self@.tags, id@),
            r matches Some(i) ==> i < self@.tags.len() && self@.tags[i as int].id@ == id@
                && tag_place(self@.tags, id@) == i,
    {
        let mut i: usize = 0;
        while i < self.tags.len()
            invariant
                i <= self.tags.len(),
                well_formed(self@),
                forall|j: int| 0 <= j < i ==> (#[trigger] self.tags@[j]).id@ != id@,
            decreases self.tags.len() - i,
        {
            if self.tags[i].id.as_str().eq(id) {
                proof {
                    let tags = self@.tags;
                    let k = tag_place(tags, id@);
                    assert(tags[i as int].id@ == id@);
                    if k < i {
                        assert(tags[k].id@ != tags[i as int].id@);
                    } else if i < k {
                        assert(tags[i as int].id@ != tags[k].id@);
                    }
                }
                return Some(i);
            }
            i = i + 1;
        }
        None
    }

    /// Where the link of the document and the tag stands.
    fn find_link(&self, document_id: &str, tag_id: &str) -> (r: Option<usize>)
        requires
            self.wf(),
        ensures
            r is Some <==> is_linked(self@.links, document_id@, tag_id@),
            r matches Some(i) ==> i < self@.links.len() && joins(
                self@.links[i as int],
                document_id@,
                tag_id@,
            ) && link_place(self@.links, document_id@, tag_id@) == i,
    {
        let mut i: usize = 0;
        while i < self.links.len()
            invariant
                i <= self.links.len(),
                well_formed(self@),
                forall|j: int| 0 <= j < i ==> !joins(#[trigger] self.links@[j], document_id@, tag_id@),
            decreases self.links.len() - i,
        {
            if self.links[i].document_id.as_str().eq(document_id) && self.links[i].tag_id.as_str().eq(
                tag_id,
            ) {
                proof {
                    let links = self@.links;
                    let k = link_place(links, document_id@, tag_id@);
                    assert(joins(links[i as int], document_id@, tag_id@));
                    if k < i {
                        assert(!joins(links[k], links[i as int].document_id@, links[i as int].tag_id@));
                    } else if i < k {
                        assert(!joins(links[i as int], links[k].document_id@, links[k].tag_id@));
                    }
                }
                return Some(i);
            }
            i = i + 1;
        }
        None
    }
}

/// Puts `tag` into `out`, which stands in the order of names, at its place.
fn insert_by_name(out: &mut Vec<Tag>, tag: Tag)
    requires
        tags_sorted(old(out)@),
    ensures
        tags_sorted(final(out)@),
        final(out)@.to_multiset() == old(out)@.to_multiset().insert(tag),
{
    let mut pos: usize = out.len();
    while pos > 0 && !str_le(out[pos - 1].name.as_str(), tag.name.as_str())
        invariant
            pos <= out.len(),
            forall|k: int| pos <= k < out.len() ==> !lex_le((#[trigger] out@[k]).name@, tag.name@),
        decreases pos,
    {
        pos = pos - 1;
    }
    let ghost prev = out@;
    out.insert(pos, tag);
    proof {
        to_multiset_insert(prev, pos as int, tag);
        assert(out@ == prev.insert(pos as int, tag));
        assert forall|a: int, b: int| 0 <= a < b < out@.len() implies lex_le(
            (#[trigger] out@[a]).name@,
            (#[trigger] out@[b]).name@,
        ) by {
            if b < pos {
                assert(lex_le(prev[a].name@, prev[b].name@));
            } else if b == pos {
                assert(lex_le(prev[pos - 1].name@, tag.name@));
                if a < pos - 1 {
                    assert(lex_le(prev[a].name@, prev[pos - 1].name@));
                    lemma_lex_le_transitive(prev[a].name@, prev[pos - 1].name@, tag.name@);
                }
            } else if a == pos {
                assert(!lex_le(prev[b - 1].name@, tag.name@));
                lemma_lex_le_total(tag.name@, prev[b - 1].name@);
            } else if a > pos {
                assert(lex_le(prev[a - 1].name@, prev[b - 1].name@));
            } else {
                assert(lex_le(prev[a].name@, prev[b - 1].name@));
            }
        }
    }
}

/// Lists all tags by name.
pub fn list_tags(store: &TagStore) -> (r: Vec<Tag>)
    ensures
        tags_sorted(r@),
        r@.to_multiset() == store@.tags.to_multiset(),
{
    let mut out: Vec<Tag> = Vec::new();
    let mut i: usize = 0;
    assert(store.tags@.take(0) =~= Seq::<Tag>::empty());
    while i < store.tags.len()
        invariant
            i <= store.tags.len(),
            tags_sorted(out@),
            out@.to_multiset() == store.tags@.take(i as int).to_multiset(),
        decreases store.tags.len() - i,
    {
        let tag = store.tags[i].clone();
        proof {
            to_multiset_build(store.tags@.take(i as int), tag);
            assert(store.tags@.take(i + 1) =~= store.tags@.take(i as int).push(tag));
        }
        insert_by_name(&mut out, tag);
        i = i + 1;
    }
    assert(store.tags@.take(store.tags@.len() as int) =~= store.tags@);
    out
}

/// Finds a tag by its id.
pub fn get_tag(store: &TagStore, id: &str) -> (r: Option<Tag>)
    requires
        store.wf(),
    ensures
        r is Some <==> has_tag(store@.tags, id@),
        r matches Some(t) ==> t == store@.tags[tag_place(store@.tags, id@)],
{
    match store.find_tag(id) {
        Some(i) => Some(store.tags[i].clone()),
        None => None,
    }
}

/// Creates a tag. Fails, and leaves the store as it was, when the id is taken.
pub fn create_tag(store: &mut TagStore, id: &str, req: &CreateTagRequest) -> (r: Result<Tag, AppError>)
    requires
        old(store).wf(),
    ensures
        final(store).wf(),
        r is Ok <==> !has_tag(old(store)@.tags, id@),
        r matches Err(e) ==> e is Database && final(store)@ == old(store)@,
        r matches Ok(t) ==> {
            &&& t@ == (TagView { id: id@, name: req.name@, color: opt_view(req.color) })
            &&& final(store)@ == (TagsView { tags: old(store)@.tags.push(t), ..old(store)@ })
        },
{
    if store.find_tag(id).is_some() {
        return Err(AppError::Database("tag id already exists".to_owned()));
    }
    let ghost before = store@;
    let tag = Tag { id: id.to_owned(), name: req.name.clone(), color: clone_opt_string(&req.color) };
    let created = tag.clone();
    store.tags.push(tag);
    proof {
        let after = store@;
        let n = before.tags.len() as int;
        assert forall|a: int, b: int| 0 <= a < b < after.tags.len() implies (
        #[trigger] after.tags[a]).id@ != (#[trigger] after.tags[b]).id@ by {
            if b < n {
                assert(before.tags[a].id@ != before.tags[b].id@);
            } else {
                assert(before.tags[a].id@ != id@);
            }
        }
    }
    Ok(created)
}

/// Applies a partial update to a tag and returns the updated tag. Nothing
/// changes when there is no such tag.
pub fn update_tag(store: &mut TagStore, id: &str, req: &UpdateTagRequest) -> (r: Option<Tag>)
    requires
        old(store).wf(),
    ensures
        final(store).wf(),
        r is Some <==> has_tag(old(store)@.tags, id@),
        r is None ==> final(store)@ == old(store)@,
        r matches Some(t) ==> {
            let i = tag_place(old(store)@.tags, id@);
            &&& t@ == updated_tag_view(old(store)@.tags[i]@, *req)
            &&& final(store)@ == (TagsView { tags: old(store)@.tags.update(i, t), ..old(store)@ })
        },
{
    let i: usize = match store.find_tag(id) {
        Some(i) => i,
        None => {
            return None;
        },
    };
    let ghost before = store@;
    let current = &store.tags[i];
    let updated = Tag {
        id: current.id.clone(),
        name: match &req.name {
            Some(n) => n.clone(),
            None => current.name.clone(),
        },
        color: match &req.color {
            Some(c) => Some(c.clone()),
            None => clone_opt_string(&current.color),
        },
    };
    let result = updated.clone();
    store.tags.set(i, updated);
    proof {
        let after = store@;
        assert(after.tags =~= before.tags.update(i as int, result));
        assert forall|a: int, b: int| 0 <= a < b < after.tags.len() implies (
        #[trigger] after.tags[a]).id@ != (#[trigger] after.tags[b]).id@ by {
            assert(before.tags[a].id@ != before.tags[b].id@);
        }
    }
    Some(result)
}

/// Deletes a tag and tells whether there was one. What joined it to
/// documents is kept and shows in no listing, since listings hold tags that
/// exist.
pub fn delete_tag(store: &mut TagStore, id: &str) -> (deleted: bool)
    requires
        old(store).wf(),
    ensures
        final(store).wf(),
        deleted == has_tag(old(store)@.tags, id@),
        !deleted ==> final(store)@ == old(store)@,
        deleted ==> final(store)@ == (TagsView {
            tags: old(store)@.tags.remove(tag_place(old(store)@.tags, id@)),
            ..old(store)@
        }),
{
    let i: usize = match store.find_tag(id) {
        Some(i) => i,
        None => {
            return false;
        },
    };
    let ghost before = store@;
    store.tags.remove(i);
    proof {
        let after = store@;
        assert forall|a: int, b: int| 0 <= a < b < after.tags.len() implies (
        #[trigger] after.tags[a]).id@ != (#[trigger] after.tags[b]).id@ by {
            let a0 = if a < i { a } else { a + 1 };
            let b0 = if b < i { b } else { b + 1 };
            assert(before.tags[a0].id@ != before.tags[b0].id@);
        }
    }
    true
}

/// Puts a tag on a document; nothing changes when the document carries it.
pub fn add_tag_to_document(store: &mut TagStore, document_id: &str, tag_id: &str)
    requires
        old(store).wf(),
    ensures
        final(store).wf(),
        final(store)@.tags == old(store)@.tags,
        is_linked(old(store)@.links, document_id@, tag_id@) ==> final(store)@ == old(store)@,
        !is_linked(old(store)@.links, document_id@, tag_id@) ==> {
            &&& final(store)@.links.len() == old(store)@.links.len() + 1
            &&& final(store)@.links.drop_last() == old(store)@.links
            &&& joins(final(store)@.links.last(), document_id@, tag_id@)
        },
{
    if store.find_link(document_id, tag_id).is_some() {
        return ;
    }
    let ghost before = store@;
    store.links.push(TagLink { document_id: document_id.to_owned(), tag_id: tag_id.to_owned() });
    proof {
        let after = store@;
        let n = before.links.len() as int;
        assert(after.links.drop_last() =~= before.links);
        assert forall|a: int, b: int| 0 <= a < b < after.links.len() implies !joins(
            #[trigger] after.links[a],
            (#[trigger] after.links[b]).document_id@,
            after.links[b].tag_id@,
        ) by {
            if b < n {
                assert(!joins(before.links[a], before.links[b].document_id@, before.links[b].tag_id@));
            } else {
                assert(!joins(before.links[a], document_id@, tag_id@));
            }
        }
        assert forall|a: int, b: int| 0 <= a < b < after.tags.len() implies (
        #[trigger] after.tags[a]).id@ != (#[trigger] after.tags[b]).id@ by {
            assert(before.tags[a].id@ != before.tags[b].id@);
        }
    }
}

/// Takes a tag off a document and tells whether the document carried it.
pub fn remove_tag_from_document(store: &mut TagStore, document_id: &str, tag_id: &str) -> (removed:
    bool)
    requires
        old(store).wf(),
    ensures
        final(store).wf(),
        removed == is_linked(old(store)@.links, document_id@, tag_id@),
        !removed ==> final(store)@ == old(store)@,
        removed ==> final(store)@ == (TagsView {
            links: old(store)@.links.remove(link_place(old(store)@.links, document_id@, tag_id@)),
            ..old(store)@
        }),
{
    let i: usize = match store.find_link(document_id, tag_id) {
        Some(i) => i,
        None => {
            return false;
        },
    };
    let ghost before = store@;
    store.links.remove(i);
    proof {
        let after = store@;
        assert forall|a: int, b: int| 0 <= a < b < after.links.len() implies !joins(
            #[trigger] after.links[a],
            (#[trigger] after.links[b]).document_id@,
            after.links[b].tag_id@,
        ) by {
            let a0 = if a < i { a } else { a + 1 };
            let b0 = if b < i { b } else { b + 1 };
            assert(!joins(before.links[a0], before.links[b0].document_id@, before.links[b0].tag_id@));
        }
        assert forall|a: int, b: int| 0 <= a < b < after.tags.len() implies (
        #[trigger] after.tags[a]).id@ != (#[trigger] after.tags[b]).id@ by {
            assert(before.tags[a].id@ != before.tags[b].id@);
        }
    }
    true
}

/// Lists the tags that a document carries, by name.
pub fn get_document_tags(store: &TagStore, document_id: &str) -> (r: Vec<Tag>)
    requires
        store.wf(),
    ensures
        tags_sorted(r@),
        r@.to_multiset() == tags_of(
            store@.tags,
            store@.links,
            document_id@,
            store@.tags.len() as int,
        ).to_multiset(),
{
    let mut out: Vec<Tag> = Vec::new();
    let mut i: usize = 0;
    while i < store.tags.len()
        invariant
            i <= store.tags.len(),
            store.wf(),
            tags_sorted(out@),
            out@.to_multiset() == tags_of(store.tags@, store.links@, document_id@, i as int).to_multiset(),
        decreases store.tags.len() - i,
    {
        if store.find_link(document_id, store.tags[i].id.as_str()).is_some() {
            let tag = store.tags[i].clone();
            proof {
                to_multiset_build(tags_of(store.tags@, store.links@, document_id@, i as int), tag);
            }
            insert_by_name(&mut out, tag);
        }
        i = i + 1;
    }
    out
}

/// Lists the ids of the documents that carry a tag, in the order in which
/// they received it.
pub fn documents_with_tag(store: &TagStore, tag_id: &str) -> (r: Vec<String>)
    ensures
        views(r@) == documents_of(store@.links, tag_id@, store@.links.len() as int),
{
    let mut out: Vec<String> = Vec::new();
    let mut i: usize = 0;
    assert(views(out@) =~= Seq::<Seq<char>>::empty());
    while i < store.links.len()
        invariant
            i <= store.links.len(),
            views(out@) == documents_of(store.links@, tag_id@, i as int),
        decreases store.links.len() - i,
    {
        if store.links[i].tag_id.as_str().eq(tag_id) {
            let ghost prev = out@;
            out.push(store.links[i].document_id.clone());
            assert(views(out@) =~= views(prev).push(
                store.links[i as int].document_id@,
            ));
        }
        i = i + 1;
    }
    out
}

/// What narrows a listing of documents.
#[derive(Debug)]
pub struct ListDocumentsQuery {
    /// Lists only the documents that carry this tag.
    pub tag_id: Option<String>,
}

/// The documents of `user` that carry the tag, among the first `n` records.
pub open spec fn tagged_documents(
    docs: Seq<DocumentRecord>,
    links: Seq<TagLink>,
    tag_id: Seq<char>,
    user: Seq<char>,
    n: int,
) -> Seq<Document>
    decreases n,
{
    if n <= 0 {
        Seq::empty()
    } else if docs[n - 1].user_id@ == user && is_linked(links, docs[n - 1].document.id@, tag_id) {
        tagged_documents(docs, links, tag_id, user, n - 1).push(docs[n - 1].document)
    } else {
        tagged_documents(docs, links, tag_id, user, n - 1)
    }
}

/// Lists the documents of a user that carry a tag: pinned ones first, then
/// the most recently updated first.
pub fn list_documents_by_tag(store: &MetadataStore, tags: &TagStore, tag_id: &str, user_id: &str) -> (r:
    Vec<Document>)
    requires
        tags.wf(),
    ensures
        listing_sorted(r@),
        r@.to_multiset() == tagged_documents(
            store@.documents,
            tags@.links,
            tag_id@,
            user_id@,
            store@.documents.len() as int,
        ).to_multiset(),
{
    let records = store.records();
    let mut out: Vec<Document> = Vec::new();
    let mut i: usize = 0;
    while i < records.len()
        invariant
            i <= records.len(),
            records@ == store@.documents,
            tags.wf(),
            listing_sorted(out@),
            out@.to_multiset() == tagged_documents(
                records@,
                tags@.links,
                tag_id@,
                user_id@,
                i as int,
            ).to_multiset(),
        decreases records.len() - i,
    {
        let rec = &records[i];
        if rec.user_id.as_str().eq(user_id) && tags.find_link(rec.document.id.as_str(), tag_id).is_some() {
            let d = rec.document.clone();
            proof {
                to_multiset_build(
                    tagged_documents(records@, tags@.links, tag_id@, user_id@, i as int),
                    d,
                );
            }
            insert_listed(&mut out, d);
        }
        i = i + 1;
    }
    out
}

} // verus!
