//! The search index: an external-content inverted index. It holds one
//! posting for each occurrence of a word in the title or the content of a
//! document, under the document's row number, and not the text itself: to
//! take a document's postings out again, the text that put them in has to
//! be supplied once more.
//!
//! A word is a maximal run of characters other than whitespace, taken as
//! it is written. A document is found by a query when it holds every word
//! of the query; its relevance is the number of its postings that are words
//! of the query.

use vstd::prelude::*;
use vstd::seq_lib::*;
use crate::error::AppError;
use crate::metadata::{document_place, has_document_id, DocumentRecord, MetadataStore};
use crate::models::Document;
use crate::strings::{chars_of, opt_str_view, string_of, views};
use crate::text::{char_is_whitespace, is_whitespace, word_starts_at};

verus! {

/// The most documents that one search returns.
pub const SEARCH_LIMIT: usize = 50;

/// Where the word that holds `s[i]` ends: the first place from `i` on that
/// holds whitespace, or the end of `s`.
pub open spec fn word_end(s: Seq<char>, i: int) -> int
    decreases s.len() - i,
{
    if i >= s.len() || is_whitespace(s[i]) {
        i
    } else {
        word_end(s, i + 1)
    }
}

/// The words of `s` that start at `i` or later, in their order.
pub open spec fn words_from(s: Seq<char>, i: int) -> Seq<Seq<char>>
    decreases s.len() - i,
{
    if i >= s.len() || i < 0 {
        Seq::empty()
    } else if word_starts_at(s, i) {
        seq![s.subrange(i, word_end(s, i))] + words_from(s, i + 1)
    } else {
        words_from(s, i + 1)
    }
}

/// The words of `s`: its maximal runs of characters other than whitespace.
pub open spec fn words_of(s: Seq<char>) -> Seq<Seq<char>> {
    words_from(s, 0)
}

/// No word starts inside a word.
pub proof fn lemma_words_skip(s: Seq<char>, i: int, j: int)
    requires
        0 <= i < j <= s.len(),
        forall|k: int| i <= k < j ==> !is_whitespace(#[trigger] s[k]),
    ensures
        words_from(s, i + 1) == words_from(s, j),
    decreases j - i,
{
    if i + 1 < j {
        assert(!is_whitespace(s[i]));
        assert(!word_starts_at(s, i + 1));
        lemma_words_skip(s, i + 1, j);
    }
}

/// Splits a text into its words.
pub fn tokenize(text: &str) -> (words: Vec<String>)
    ensures
        views(words@) == words_of(text@),
{
    let s: Vec<char> = chars_of(text);
    let mut words: Vec<String> = Vec::new();
    let mut i: usize = 0;
    assert(views(words@) =~= Seq::<Seq<char>>::empty());
    while i < s.len()
        invariant
            i <= s.len(),
            s@ == text@,
            views(words@) + words_from(s@, i as int) == words_of(s@),
            i == 0 || i == s.len() || is_whitespace(s@[i - 1]) || is_whitespace(s@[i as int]),
        decreases s.len() - i,
    {
        if char_is_whitespace(s[i]) {
            i = i + 1;
        } else {
            assert(word_starts_at(s@, i as int));
            let mut j: usize = i + 1;
            let mut word: Vec<char> = Vec::new();
            word.push(s[i]);
            while j < s.len() && !char_is_whitespace(s[j])
                invariant
                    i < j <= s.len(),
                    word@ == s@.subrange(i as int, j as int),
                    forall|k: int| i <= k < j ==> !is_whitespace(#[trigger] s@[k]),
                    word_end(s@, i as int) == word_end(s@, j as int),
                decreases s.len() - j,
            {
                word.push(s[j]);
                assert(s@.subrange(i as int, j + 1) =~= s@.subrange(i as int, j as int).push(
                    s@[j as int],
                ));
                j = j + 1;
            }
            proof {
                assert(word_end(s@, j as int) == j);
                lemma_words_skip(s@, i as int, j as int);
            }
            let ghost prev = words@;
            words.push(string_of(&word));
            assert(views(words@) =~= views(prev).push(word@));
            assert(views(words@) + words_from(s@, j as int) =~= views(prev) + words_from(
                s@,
                i as int,
            ));
            i = j;
        }
    }
    assert(views(words@) + Seq::<Seq<char>>::empty() =~= views(words@));
    words
}

/// One occurrence of a word in a document.
pub struct Posting {
    pub token: String,
    pub rowid: i64,
}

/// A posting as plain values.
pub struct PostingView {
    pub token: Seq<char>,
    pub rowid: i64,
}

impl View for Posting {
    type V = PostingView;

    open spec fn view(&self) -> PostingView {
        PostingView { token: self.token@, rowid: self.rowid }
    }
}

/// The postings of the words `words` under the row number `rowid`.
pub open spec fn postings_for(rowid: i64, words: Seq<Seq<char>>) -> Seq<PostingView> {
    Seq::new(words.len(), |i: int| PostingView { token: words[i], rowid })
}

/// How often `ps` holds the posting `e`.
pub open spec fn occurrences(ps: Seq<PostingView>, e: PostingView) -> nat
    decreases ps.len(),
{
    if ps.len() == 0 {
        0
    } else {
        (if ps[0] == e { 1nat } else { 0nat }) + occurrences(ps.drop_first(), e)
    }
}

/// `ps` without the first posting equal to `e`; `ps` itself when it holds none.
pub open spec fn without_first(ps: Seq<PostingView>, e: PostingView) -> Seq<PostingView>
    decreases ps.len(),
{
    if ps.len() == 0 {
        ps
    } else if ps[0] == e {
        ps.drop_first()
    } else {
        seq![ps[0]] + without_first(ps.drop_first(), e)
    }
}

/// `ps` after one posting was taken out for each of the first `n` words of
/// `words`, as far as `ps` held one.
pub open spec fn retracted(ps: Seq<PostingView>, rowid: i64, words: Seq<Seq<char>>, n: int) -> Seq<
    PostingView,
>
    decreases n,
{
    if n <= 0 {
        ps
    } else {
        without_first(retracted(ps, rowid, words, n - 1), PostingView { token: words[n - 1], rowid })
    }
}

/// `ps` after the postings of a title and a content were taken out.
pub open spec fn retracted_text(ps: Seq<PostingView>, rowid: i64, title: Seq<char>, content: Seq<char>) -> Seq<
    PostingView,
> {
    let after_title = retracted(ps, rowid, words_of(title), words_of(title).len() as int);
    retracted(after_title, rowid, words_of(content), words_of(content).len() as int)
}

/// `ps` after the postings of a title and a content were put in.
pub open spec fn inserted_text(ps: Seq<PostingView>, rowid: i64, title: Seq<char>, content: Seq<char>) -> Seq<
    PostingView,
> {
    ps + postings_for(rowid, words_of(title)) + postings_for(rowid, words_of(content))
}

/// The index after a document was indexed anew: when both its prior title
/// and its prior content are supplied, their postings are taken out first;
/// then the postings of the new title and content are put in.
pub open spec fn reindexed(
    ps: Seq<PostingView>,
    rowid: i64,
    title: Seq<char>,
    content: Seq<char>,
    old_title: Option<Seq<char>>,
    old_content: Option<Seq<char>>,
) -> Seq<PostingView> {
    let base = match (old_title, old_content) {
        (Some(t), Some(c)) => retracted_text(ps, rowid, t, c),
        _ => ps,
    };
    inserted_text(base, rowid, title, content)
}

/// The views of a sequence of postings.
pub open spec fn posting_views(ps: Seq<Posting>) -> Seq<PostingView> {
    ps.map_values(|p: Posting| p@)
}

/// The search index.
pub struct SearchIndex {
    postings: Vec<Posting>,
}

impl View for SearchIndex {
    type V = Seq<PostingView>;

    closed spec fn view(&self) -> Seq<PostingView> {
        posting_views(self.postings@)
    }
}

proof fn lemma_without_first_at(ps: Seq<PostingView>, e: PostingView, i: int)
    requires
        0 <= i < ps.len(),
        ps[i] == e,
        forall|j: int| 0 <= j < i ==> ps[j] != e,
    ensures
        without_first(ps, e) == ps.remove(i),
    decreases i,
{
    if i == 0 {
        assert(ps.remove(0) =~= ps.drop_first());
    } else {
        lemma_without_first_at(ps.drop_first(), e, i - 1);
        assert(seq![ps[0]] + ps.drop_first().remove(i - 1) =~= ps.remove(i));
    }
}

proof fn lemma_without_first_absent(ps: Seq<PostingView>, e: PostingView)
    requires
        forall|j: int| 0 <= j < ps.len() ==> ps[j] != e,
    ensures
        without_first(ps, e) == ps,
    decreases ps.len(),
{
    if ps.len() > 0 {
        lemma_without_first_absent(ps.drop_first(), e);
        assert(seq![ps[0]] + ps.drop_first() =~= ps);
    }
}

impl SearchIndex {
    /// An empty index.
    pub fn new() -> (s: Self)
        ensures
            s@ == Seq::<PostingView>::empty(),
    {
        let s = SearchIndex { postings: Vec::new() };
        assert(s@ =~= Seq::<PostingView>::empty());
        s
    }

    /// Number of postings held.
    pub fn len(&self) -> (n: usize)
        ensures
            n == self@.len(),
    {
        self.postings.len()
    }

    /// Puts in one posting for each word.
    fn insert_words(&mut self, rowid: i64, words: &Vec<String>)
        ensures
            final(self)@ == old(self)@ + postings_for(rowid, views(words@)),
    {
        let ghost before = self@;
        let mut i: usize = 0;
        assert(self@ =~= before + postings_for(rowid, views(words@).take(0)));
        while i < words.len()
            invariant
                i <= words.len(),
                self@ == before + postings_for(rowid, views(words@).take(i as int)),
            decreases words.len() - i,
        {
            let ghost prev = self.postings@;
            let posting = Posting { token: words[i].clone(), rowid };
            self.postings.push(posting);
            proof {
                assert(posting_views(self.postings@) =~= posting_views(prev).push(posting@));
                assert(before + postings_for(rowid, views(words@).take(i + 1)) =~= (before
                    + postings_for(rowid, views(words@).take(i as int))).push(posting@));
            }
            i = i + 1;
        }
        assert(views(words@).take(words@.len() as int) =~= views(words@));
    }

    /// Takes out one posting for each word, as far as there is one.
    fn retract_words(&mut self, rowid: i64, words: &Vec<String>)
        ensures
            final(self)@ == retracted(old(self)@, rowid, views(words@), words@.len() as int),
    {
        let ghost before = self@;
        let mut i: usize = 0;
        while i < words.len()
            invariant
                i <= words.len(),
                self@ == retracted(before, rowid, views(words@), i as int),
            decreases words.len() - i,
        {
            let ghost e = PostingView { token: words@[i as int]@, rowid };
            assert(views(words@)[i as int] == words@[i as int]@);
            let ghost prev = self.postings@;
            let mut k: usize = 0;
            let mut found: bool = false;
            while k < self.postings.len() && !found
                invariant
                    k <= self.postings.len(),
                    self.postings@ == prev,
                    i < words.len(),
                    e == (PostingView { token: words@[i as int]@, rowid }),
                    !found ==> forall|j: int| 0 <= j < k ==> (#[trigger] prev[j])@ != e,
                    found ==> k < prev.len() && prev[k as int]@ == e && forall|j: int|
                        0 <= j < k ==> (#[trigger] prev[j])@ != e,
                decreases self.postings.len() - k + if found { 0int } else { 1int },
            {
                if self.postings[k].rowid == rowid && self.postings[k].token.as_str().eq(
                    words[i].as_str(),
                ) {
                    found = true;
                } else {
                    k = k + 1;
                }
            }
            if found {
                self.postings.remove(k);
                proof {
                    assert(posting_views(self.postings@) =~= posting_views(prev).remove(k as int));
                    lemma_without_first_at(posting_views(prev), e, k as int);
                }
            } else {
                proof {
                    lemma_without_first_absent(posting_views(prev), e);
                }
            }
            i = i + 1;
        }
    }

    /// Tells whether the index holds a posting of `token` under `rowid`.
    pub fn has_posting(&self, token: &str, rowid: i64) -> (r: bool)
        ensures
            r == self@.contains(PostingView { token: token@, rowid }),
    {
        let ghost e = PostingView { token: token@, rowid };
        let mut k: usize = 0;
        while k < self.postings.len()
            invariant
                k <= self.postings.len(),
                e == (PostingView { token: token@, rowid }),
                forall|j: int| 0 <= j < k ==> (#[trigger] self.postings@[j])@ != e,
            decreases self.postings.len() - k,
        {
            if self.postings[k].rowid == rowid && self.postings[k].token.as_str().eq(token) {
                assert(self@[k as int] == e);
                return true;
            }
            k = k + 1;
        }
        assert forall|j: int| 0 <= j < self@.len() implies self@[j] != e by {
            assert(self.postings@[j]@ != e);
        }
        false
    }
}

/// Indexes a document anew under its row number. When both its prior title
/// and its prior content are given, their postings are taken out first, word
/// by word; then the postings of the new title and content are put in.
/// Nothing happens when no document has the id.
pub fn index_document(
    index: &mut SearchIndex,
    store: &MetadataStore,
    id: &str,
    title: &str,
    content: &str,
    old_title: Option<&str>,
    old_content: Option<&str>,
)
    requires
        store.wf(),
    ensures
        final(index)@ == if has_document_id(store@.documents, id@) {
            reindexed(
                old(index)@,
                store@.documents[document_place(store@.documents, id@)].rowid,
                title@,
                content@,
                opt_str_view(old_title),
                opt_str_view(old_content),
            )
        } else {
            old(index)@
        },
{
    let rowid: i64 = match store.document_rowid(id) {
        Some(n) => n,
        None => {
            return ;
        },
    };
    match (old_title, old_content) {
        (Some(t), Some(c)) => {
            let title_words = tokenize(t);
            index.retract_words(rowid, &title_words);
            let content_words = tokenize(c);
            index.retract_words(rowid, &content_words);
        },
        _ => {},
    }
    let title_words = tokenize(title);
    index.insert_words(rowid, &title_words);
    let content_words = tokenize(content);
    index.insert_words(rowid, &content_words);
}

/// Tells whether the document under `rowid` holds every word of `words`.
pub open spec fn matches_all(ps: Seq<PostingView>, rowid: i64, words: Seq<Seq<char>>) -> bool {
    forall|k: int|
        0 <= k < words.len() ==> ps.contains(PostingView { token: #[trigger] words[k], rowid })
}

/// How many of the first `n` postings are occurrences, in the document
/// under `rowid`, of a word of `words`.
pub open spec fn relevance(ps: Seq<PostingView>, rowid: i64, words: Seq<Seq<char>>, n: int) -> nat
    decreases n,
{
    if n <= 0 {
        0
    } else {
        relevance(ps, rowid, words, n - 1) + if ps[n - 1].rowid == rowid && words.contains(
            ps[n - 1].token,
        ) {
            1nat
        } else {
            0nat
        }
    }
}

/// The relevance of a document to a query: how often the query's words
/// occur in its title and content.
pub open spec fn score(ps: Seq<PostingView>, rowid: i64, words: Seq<Seq<char>>) -> nat {
    relevance(ps, rowid, words, ps.len() as int)
}

/// Tells whether a record is found by `user` searching for `words`.
pub open spec fn is_hit(rec: DocumentRecord, ps: Seq<PostingView>, user: Seq<char>, words: Seq<Seq<char>>) -> bool {
    rec.user_id@ == user && matches_all(ps, rec.rowid, words)
}

/// The records among the first `n` that `user` finds searching for `words`.
pub open spec fn hits(
    docs: Seq<DocumentRecord>,
    ps: Seq<PostingView>,
    user: Seq<char>,
    words: Seq<Seq<char>>,
    n: int,
) -> Seq<DocumentRecord>
    decreases n,
{
    if n <= 0 {
        Seq::empty()
    } else if is_hit(docs[n - 1], ps, user, words) {
        hits(docs, ps, user, words, n - 1).push(docs[n - 1])
    } else {
        hits(docs, ps, user, words, n - 1)
    }
}

/// Tells whether `recs` stands in the order of descending relevance.
pub open spec fn ranked(recs: Seq<DocumentRecord>, ps: Seq<PostingView>, words: Seq<Seq<char>>) -> bool {
    forall|i: int, j: int|
        0 <= i < j < recs.len() ==> score(ps, (#[trigger] recs[i]).rowid, words) >= score(
            ps,
            (#[trigger] recs[j]).rowid,
            words,
        )
}

/// Tells whether `full` is all that `user` finds searching for `words`,
/// best match first.
pub open spec fn is_ranking(
    full: Seq<DocumentRecord>,
    docs: Seq<DocumentRecord>,
    ps: Seq<PostingView>,
    user: Seq<char>,
    words: Seq<Seq<char>>,
) -> bool {
    &&& ranked(full, ps, words)
    &&& full.to_multiset() == hits(docs, ps, user, words, docs.len() as int).to_multiset()
}

/// The documents of the first `SEARCH_LIMIT` records of `full`.
pub open spec fn top_documents(full: Seq<DocumentRecord>) -> Seq<Document> {
    let n = if full.len() > SEARCH_LIMIT { SEARCH_LIMIT as int } else { full.len() as int };
    Seq::new(n as nat, |i: int| full[i].document)
}

/// Tells whether `token` is one of `words`.
fn is_query_word(words: &Vec<String>, token: &str) -> (r: bool)
    ensures
        r == views(words@).contains(token@),
{
    let mut k: usize = 0;
    while k < words.len()
        invariant
            k <= words.len(),
            forall|j: int| 0 <= j < k ==> (#[trigger] views(words@)[j]) != token@,
        decreases words.len() - k,
    {
        assert(views(words@)[k as int] == words@[k as int]@);
        if words[k].as_str().eq(token) {
            return true;
        }
        k = k + 1;
    }
    false
}

impl SearchIndex {
    /// Tells whether the document under `rowid` holds every word.
    pub fn holds_all(&self, rowid: i64, words: &Vec<String>) -> (r: bool)
        ensures
            r == matches_all(self@, rowid, views(words@)),
    {
        let mut k: usize = 0;
        while k < words.len()
            invariant
                k <= words.len(),
                forall|j: int|
                    0 <= j < k ==> self@.contains(
                        PostingView { token: #[trigger] views(words@)[j], rowid },
                    ),
            decreases words.len() - k,
        {
            assert(views(words@)[k as int] == words@[k as int]@);
            if !self.has_posting(words[k].as_str(), rowid) {
                return false;
            }
            k = k + 1;
        }
        true
    }

    /// The relevance of the document under `rowid` to the query `words`.
    pub fn score_of(&self, rowid: i64, words: &Vec<String>) -> (r: usize)
        ensures
            r == score(self@, rowid, views(words@)),
    {
        let mut n: usize = 0;
        let mut k: usize = 0;
        while k < self.postings.len()
            invariant
                k <= self.postings.len(),
                n <= k,
                n == relevance(self@, rowid, views(words@), k as int),
            decreases self.postings.len() - k,
        {
            assert(self@[k as int] == self.postings@[k as int]@);
            if self.postings[k].rowid == rowid && is_query_word(
                words,
                self.postings[k].token.as_str(),
            ) {
                n = n + 1;
            }
            k = k + 1;
        }
        n
    }
}

/// Searches the documents of a user for those that hold every word of the
/// query, and returns the `SEARCH_LIMIT` most relevant, best match first.
/// A query without a word is refused.
pub fn search_documents(index: &SearchIndex, store: &MetadataStore, user_id: &str, query: &str) -> (r:
    Result<Vec<Document>, AppError>)
    ensures
        r is Err <==> words_of(query@).len() == 0,
        r matches Err(e) ==> e matches AppError::BadRequest(msg) && msg@ == "Search query holds no word"@,
        r matches Ok(found) ==> exists|full: Seq<DocumentRecord>|
            is_ranking(full, store@.documents, index@, user_id@, words_of(query@)) && found@
                == top_documents(full),
{
    let words = tokenize(query);
    if words.len() == 0 {
        return Err(AppError::BadRequest("Search query holds no word".to_owned()));
    }
    let recs = store.records();
    let ghost ws = words_of(query@);
    let ghost ps = index@;
    let mut scores: Vec<usize> = Vec::new();
    let mut docs: Vec<Document> = Vec::new();
    let ghost mut full: Seq<DocumentRecord> = Seq::empty();
    let mut i: usize = 0;
    while i < recs.len()
        invariant
            i <= recs.len(),
            recs@ == store@.documents,
            ws == views(words@),
            ps == index@,
            scores@.len() == full.len(),
            docs@.len() == full.len(),
            forall|k: int| 0 <= k < full.len() ==> (#[trigger] scores@[k]) == score(ps, full[k].rowid, ws),
            forall|k: int| 0 <= k < full.len() ==> (#[trigger] docs@[k]) == full[k].document,
            ranked(full, ps, ws),
            full.to_multiset() == hits(recs@, ps, user_id@, ws, i as int).to_multiset(),
        decreases recs.len() - i,
    {
        let rec = &recs[i];
        if rec.user_id.as_str().eq(user_id) && index.holds_all(rec.rowid, &words) {
            let sc: usize = index.score_of(rec.rowid, &words);
            let mut pos: usize = scores.len();
            while pos > 0 && scores[pos - 1] < sc
                invariant
                    pos <= scores.len(),
                    forall|k: int| pos <= k < scores@.len() ==> (#[trigger] scores@[k]) < sc,
                decreases pos,
            {
                pos = pos - 1;
            }
            let ghost prev = full;
            let ghost prev_scores = scores@;
            let ghost prev_docs = docs@;
            scores.insert(pos, sc);
            docs.insert(pos, rec.document.clone());
            proof {
                full = prev.insert(pos as int, *rec);
                to_multiset_insert(prev, pos as int, *rec);
                to_multiset_build(hits(recs@, ps, user_id@, ws, i as int), *rec);
                assert forall|k: int| 0 <= k < full.len() implies (#[trigger] scores@[k]) == score(
                    ps,
                    full[k].rowid,
                    ws,
                ) by {
                    if k < pos {
                        assert(scores@[k] == prev_scores[k]);
                    } else if k > pos {
                        assert(scores@[k] == prev_scores[k - 1]);
                    }
                }
                assert forall|k: int| 0 <= k < full.len() implies (#[trigger] docs@[k])
                    == full[k].document by {
                    if k < pos {
                        assert(docs@[k] == prev_docs[k]);
                    } else if k > pos {
                        assert(docs@[k] == prev_docs[k - 1]);
                    }
                }
                assert forall|a: int, b: int| 0 <= a < b < full.len() implies score(
                    ps,
                    (#[trigger] full[a]).rowid,
                    ws,
                ) >= score(ps, (#[trigger] full[b]).rowid, ws) by {
                    assert(scores@[a] == score(ps, full[a].rowid, ws));
                    assert(scores@[b] == score(ps, full[b].rowid, ws));
                    if b < pos {
                        assert(score(ps, prev[a].rowid, ws) >= score(ps, prev[b].rowid, ws));
                    } else if b == pos {
                        assert(prev_scores[pos - 1] >= sc);
                        if a < pos - 1 {
                            assert(score(ps, prev[a].rowid, ws) >= score(ps, prev[pos - 1].rowid, ws));
                            assert(prev_scores[pos - 1] == score(ps, prev[pos - 1].rowid, ws));
                        }
                    } else if a == pos {
                        assert(prev_scores[b - 1] < sc);
                    } else if a > pos {
                        assert(score(ps, prev[a - 1].rowid, ws) >= score(ps, prev[b - 1].rowid, ws));
                    } else {
                        assert(score(ps, prev[a].rowid, ws) >= score(ps, prev[b - 1].rowid, ws));
                    }
                }
            }
        }
        i = i + 1;
    }
    docs.truncate(SEARCH_LIMIT);
    proof {
        assert(docs@ =~= top_documents(full));
        assert(is_ranking(full, store@.documents, index@, user_id@, words_of(query@)));
    }
    Ok(docs)
}

/// The occurrences in two sequences add up in the two put together.
pub proof fn lemma_occurrences_concat(a: Seq<PostingView>, b: Seq<PostingView>, e: PostingView)
    ensures
        occurrences(a + b, e) == occurrences(a, e) + occurrences(b, e),
    decreases a.len(),
{
    if a.len() == 0 {
        assert(a + b =~= b);
    } else {
        lemma_occurrences_concat(a.drop_first(), b, e);
        assert((a + b).drop_first() =~= a.drop_first() + b);
    }
}

/// One posting holds itself once and no other.
pub proof fn lemma_occurrences_single(x: PostingView, e: PostingView)
    ensures
        occurrences(seq![x], e) == if x == e { 1nat } else { 0nat },
{
    let s = seq![x];
    assert(s.len() == 1 && s[0] == x);
    assert(s.drop_first() =~= Seq::<PostingView>::empty());
    assert(occurrences(s.drop_first(), e) == 0);
}

/// A sequence holds a posting exactly when it holds it at least once.
pub proof fn lemma_occurrences_contains(ps: Seq<PostingView>, e: PostingView)
    ensures
        ps.contains(e) <==> occurrences(ps, e) > 0,
    decreases ps.len(),
{
    if ps.len() > 0 {
        lemma_occurrences_contains(ps.drop_first(), e);
        if ps.contains(e) && ps[0] != e {
            let i = choose|i: int| 0 <= i < ps.len() && ps[i] == e;
            assert(ps.drop_first()[i - 1] == e);
        }
        if ps.drop_first().contains(e) {
            let i = choose|i: int| 0 <= i < ps.drop_first().len() && ps.drop_first()[i] == e;
            assert(ps[i + 1] == e);
        }
    }
}

/// Taking out the first posting equal to `x` lowers the occurrences of `x`
/// by one, if there was one, and those of no other.
pub proof fn lemma_occurrences_without_first(ps: Seq<PostingView>, x: PostingView, e: PostingView)
    ensures
        occurrences(without_first(ps, x), e) == if e == x && occurrences(ps, e) > 0 {
            occurrences(ps, e) - 1
        } else {
            occurrences(ps, e) as int
        },
    decreases ps.len(),
{
    if ps.len() > 0 && ps[0] != x {
        lemma_occurrences_without_first(ps.drop_first(), x, e);
        lemma_occurrences_concat(seq![ps[0]], without_first(ps.drop_first(), x), e);
        lemma_occurrences_single(ps[0], e);
    }
}

/// The postings of one document hold none of another.
pub proof fn lemma_postings_for_other_row(rowid: i64, words: Seq<Seq<char>>, e: PostingView)
    requires
        e.rowid != rowid,
    ensures
        occurrences(postings_for(rowid, words), e) == 0,
{
    lemma_occurrences_contains(postings_for(rowid, words), e);
}

/// The postings of words hold a word exactly when the words do.
pub proof fn lemma_postings_for_contains(rowid: i64, words: Seq<Seq<char>>, token: Seq<char>)
    ensures
        words.contains(token) <==> postings_for(rowid, words).contains(PostingView { token, rowid }),
{
    let ps = postings_for(rowid, words);
    let e = PostingView { token, rowid };
    if words.contains(token) {
        let i = choose|i: int| 0 <= i < words.len() && words[i] == token;
        assert(ps[i] == e);
    }
    if ps.contains(e) {
        let i = choose|i: int| 0 <= i < ps.len() && ps[i] == e;
        assert(words[i] == token);
    }
}

/// Taking out the postings of words lowers the occurrences of each posting
/// by how often the words hold it, down to none.
pub proof fn lemma_occurrences_retracted(
    ps: Seq<PostingView>,
    rowid: i64,
    words: Seq<Seq<char>>,
    n: int,
    e: PostingView,
)
    requires
        0 <= n <= words.len(),
    ensures
        occurrences(retracted(ps, rowid, words, n), e) == {
            let gone = occurrences(postings_for(rowid, words.take(n)), e);
            if occurrences(ps, e) >= gone {
                occurrences(ps, e) - gone
            } else {
                0
            }
        },
    decreases n,
{
    if n == 0 {
        assert(postings_for(rowid, words.take(0)) =~= Seq::<PostingView>::empty());
    } else {
        lemma_occurrences_retracted(ps, rowid, words, n - 1, e);
        let x = PostingView { token: words[n - 1], rowid };
        lemma_occurrences_without_first(retracted(ps, rowid, words, n - 1), x, e);
        assert(postings_for(rowid, words.take(n)) =~= postings_for(rowid, words.take(n - 1)) + seq![x]);
        lemma_occurrences_concat(postings_for(rowid, words.take(n - 1)), seq![x], e);
        lemma_occurrences_single(x, e);
    }
}

/// A document that is indexed without its prior title or without its prior
/// content has nothing taken out of the index: its new postings are put in
/// and that is all.
pub proof fn lemma_no_prior_no_retraction(
    ps: Seq<PostingView>,
    rowid: i64,
    title: Seq<char>,
    content: Seq<char>,
    old_title: Option<Seq<char>>,
    old_content: Option<Seq<char>>,
)
    requires
        old_title is None || old_content is None,
    ensures
        reindexed(ps, rowid, title, content, old_title, old_content) == inserted_text(
            ps,
            rowid,
            title,
            content,
        ),
        forall|i: int| 0 <= i < ps.len() ==> reindexed(ps, rowid, title, content, old_title, old_content)[i]
            == ps[i],
{
}

/// Taking out the postings of a document of which the index holds none
/// changes nothing.
pub proof fn lemma_retract_nothing(ps: Seq<PostingView>, rowid: i64, words: Seq<Seq<char>>, n: int)
    requires
        forall|i: int| 0 <= i < ps.len() ==> (#[trigger] ps[i]).rowid != rowid,
        0 <= n <= words.len(),
    ensures
        retracted(ps, rowid, words, n) == ps,
    decreases n,
{
    if n > 0 {
        lemma_retract_nothing(ps, rowid, words, n - 1);
        lemma_without_first_absent(ps, PostingView { token: words[n - 1], rowid });
    }
}

/// A document that was never indexed is only put in, whatever prior text is
/// supplied with it: there is nothing of it to take out.
pub proof fn lemma_first_indexing_only_inserts(
    base: Seq<PostingView>,
    rowid: i64,
    title: Seq<char>,
    content: Seq<char>,
    old_title: Option<Seq<char>>,
    old_content: Option<Seq<char>>,
)
    requires
        forall|i: int| 0 <= i < base.len() ==> (#[trigger] base[i]).rowid != rowid,
    ensures
        reindexed(base, rowid, title, content, old_title, old_content) == inserted_text(
            base,
            rowid,
            title,
            content,
        ),
{
    match (old_title, old_content) {
        (Some(t), Some(c)) => {
            lemma_retract_nothing(base, rowid, words_of(t), words_of(t).len() as int);
            lemma_retract_nothing(base, rowid, words_of(c), words_of(c).len() as int);
        },
        _ => {},
    }
}

/// Indexing a document anew with the exact text that was indexed before
/// leaves, under its row number, the postings of the new text and no other:
/// a word is found in the document exactly when the new title or the new
/// content holds it. A word that only the prior content held is found no
/// more. The postings of other documents are untouched.
pub proof fn lemma_reindex_replaces(
    base: Seq<PostingView>,
    rowid: i64,
    title: Seq<char>,
    prior: Seq<char>,
    content: Seq<char>,
    term: Seq<char>,
    other: PostingView,
)
    requires
        forall|i: int| 0 <= i < base.len() ==> (#[trigger] base[i]).rowid != rowid,
        other.rowid != rowid,
    ensures
        ({
            let first = reindexed(base, rowid, title, prior, None, None);
            let second = reindexed(first, rowid, title, content, Some(title), Some(prior));
            &&& second.contains(PostingView { token: term, rowid }) <==> words_of(title).contains(term)
                || words_of(content).contains(term)
            &&& occurrences(second, other) == occurrences(base, other)
        }),
{
    let wt = words_of(title);
    let wp = words_of(prior);
    let wc = words_of(content);
    let first = reindexed(base, rowid, title, prior, None, None);
    let mid1 = retracted(first, rowid, wt, wt.len() as int);
    let mid2 = retracted(mid1, rowid, wp, wp.len() as int);
    let second = reindexed(first, rowid, title, content, Some(title), Some(prior));
    assert(second == mid2 + postings_for(rowid, wt) + postings_for(rowid, wc));
    assert(wt.take(wt.len() as int) =~= wt);
    assert(wp.take(wp.len() as int) =~= wp);
    let e = PostingView { token: term, rowid };
    // what the first indexing put in
    lemma_occurrences_concat(base + postings_for(rowid, wt), postings_for(rowid, wp), e);
    lemma_occurrences_concat(base, postings_for(rowid, wt), e);
    lemma_occurrences_contains(base, e);
    // what the second indexing took out
    lemma_occurrences_retracted(first, rowid, wt, wt.len() as int, e);
    lemma_occurrences_retracted(mid1, rowid, wp, wp.len() as int, e);
    assert(occurrences(mid2, e) == 0);
    // and put in
    lemma_occurrences_concat(mid2 + postings_for(rowid, wt), postings_for(rowid, wc), e);
    lemma_occurrences_concat(mid2, postings_for(rowid, wt), e);
    lemma_occurrences_contains(second, e);
    lemma_occurrences_contains(postings_for(rowid, wt), e);
    lemma_occurrences_contains(postings_for(rowid, wc), e);
    lemma_postings_for_contains(rowid, wt, term);
    lemma_postings_for_contains(rowid, wc, term);
    // other documents
    lemma_occurrences_concat(base + postings_for(rowid, wt), postings_for(rowid, wp), other);
    lemma_occurrences_concat(base, postings_for(rowid, wt), other);
    lemma_postings_for_other_row(rowid, wt, other);
    lemma_postings_for_other_row(rowid, wp, other);
    lemma_postings_for_other_row(rowid, wc, other);
    lemma_occurrences_retracted(first, rowid, wt, wt.len() as int, other);
    lemma_occurrences_retracted(mid1, rowid, wp, wp.len() as int, other);
    lemma_occurrences_concat(mid2 + postings_for(rowid, wt), postings_for(rowid, wc), other);
    lemma_occurrences_concat(mid2, postings_for(rowid, wt), other);
}

/// What a search finds among the first `n` records are those of them that
/// are hits.
pub proof fn lemma_hits_contains(
    docs: Seq<DocumentRecord>,
    ps: Seq<PostingView>,
    user: Seq<char>,
    words: Seq<Seq<char>>,
    n: int,
    rec: DocumentRecord,
)
    requires
        0 <= n <= docs.len(),
    ensures
        hits(docs, ps, user, words, n).contains(rec) <==> is_hit(rec, ps, user, words) && exists|i: int|
            0 <= i < n && docs[i] == rec,
    decreases n,
{
    if n > 0 {
        lemma_hits_contains(docs, ps, user, words, n - 1, rec);
        let prev = hits(docs, ps, user, words, n - 1);
        let now = hits(docs, ps, user, words, n);
        if is_hit(docs[n - 1], ps, user, words) {
            assert(now == prev.push(docs[n - 1]));
            if prev.contains(rec) {
                let k = choose|k: int| 0 <= k < prev.len() && prev[k] == rec;
                assert(now[k] == rec);
            }
            if docs[n - 1] == rec {
                assert(now[prev.len() as int] == rec);
            }
            if now.contains(rec) {
                let k = choose|k: int| 0 <= k < now.len() && now[k] == rec;
                if k < prev.len() {
                    assert(prev[k] == rec);
                }
            }
        }
    }
}

/// A ranking holds the documents that the search finds and no other: a
/// document of the user stands in it exactly when it holds every word of
/// the query.
pub proof fn lemma_ranking_holds_the_hits(
    full: Seq<DocumentRecord>,
    docs: Seq<DocumentRecord>,
    ps: Seq<PostingView>,
    user: Seq<char>,
    words: Seq<Seq<char>>,
    rec: DocumentRecord,
)
    requires
        is_ranking(full, docs, ps, user, words),
    ensures
        full.contains(rec) <==> docs.contains(rec) && rec.user_id@ == user && matches_all(
            ps,
            rec.rowid,
            words,
        ),
{
    let found = hits(docs, ps, user, words, docs.len() as int);
    to_multiset_contains(full, rec);
    to_multiset_contains(found, rec);
    lemma_hits_contains(docs, ps, user, words, docs.len() as int, rec);
}

} // verus!
