//! The version manager: immutable, numbered snapshots of a document's
//! content, created at most once per interval and pruned to a fixed number.

use vstd::prelude::*;
use crate::error::AppError;
use crate::models::{Document, DocumentVersion, DocumentVersionSummary};

verus! {

/// Milliseconds in a minute.
pub const MILLIS_PER_MINUTE: i64 = 60_000;

/// Tells whether `v` is a snapshot of the document `doc`.
pub open spec fn same_doc(v: DocumentVersion, doc: Seq<char>) -> bool {
    v.document_id@ == doc
}

/// Number of snapshots of `doc` among the first `n` of `vs`.
pub open spec fn count_for(vs: Seq<DocumentVersion>, doc: Seq<char>, n: int) -> nat
    decreases n,
{
    if n <= 0 {
        0
    } else {
        count_for(vs, doc, n - 1) + if same_doc(vs[n - 1], doc) { 1nat } else { 0nat }
    }
}

/// The highest version number of `doc` among the first `n` of `vs`, 0 when it
/// has no snapshot there.
pub open spec fn max_version(vs: Seq<DocumentVersion>, doc: Seq<char>, n: int) -> int
    decreases n,
{
    if n <= 0 {
        0
    } else {
        let rest = max_version(vs, doc, n - 1);
        if same_doc(vs[n - 1], doc) && vs[n - 1].version_number > rest {
            vs[n - 1].version_number as int
        } else {
            rest
        }
    }
}

/// The highest version number that `doc` has in `vs`, 0 when it has none.
pub open spec fn latest_version(vs: Seq<DocumentVersion>, doc: Seq<char>) -> int {
    max_version(vs, doc, vs.len() as int)
}

/// Tells whether some snapshot in `vs` has the id `id`.
pub open spec fn has_id(vs: Seq<DocumentVersion>, id: Seq<char>) -> bool {
    exists|i: int| 0 <= i < vs.len() && (#[trigger] vs[i]).id@ == id
}

/// What every version store satisfies: ids are unique, version numbers start
/// at 1, and the snapshots of one document carry, in the order of their
/// creation, strictly increasing numbers without a gap: between two of them
/// the number rises by one with each snapshot of the document.
pub open spec fn well_formed(vs: Seq<DocumentVersion>) -> bool {
    &&& forall|i: int, j: int|
        0 <= i < j < vs.len() ==> (#[trigger] vs[i]).id@ != (#[trigger] vs[j]).id@
    &&& forall|i: int| 0 <= i < vs.len() ==> (#[trigger] vs[i]).version_number >= 1
    &&& forall|i: int, j: int|
        0 <= i < j < vs.len() && (#[trigger] vs[i]).document_id@ == (#[trigger] vs[j]).document_id@
            ==> vs[i].version_number < vs[j].version_number
    &&& forall|i: int, j: int|
        0 <= i < j < vs.len() && (#[trigger] vs[i]).document_id@ == (#[trigger] vs[j]).document_id@
            ==> vs[j].version_number - vs[i].version_number == count_for(vs, vs[i].document_id@, j)
            - count_for(vs, vs[i].document_id@, i)
}

/// The snapshots of `doc` in `vs`, newest first, without their content.
pub open spec fn newest_first(vs: Seq<DocumentVersion>, doc: Seq<char>) -> Seq<
    DocumentVersionSummary,
>
    decreases vs.len(),
{
    if vs.len() == 0 {
        Seq::empty()
    } else {
        let rest = newest_first(vs.drop_last(), doc);
        if same_doc(vs.last(), doc) {
            seq![vs.last().summary_spec()] + rest
        } else {
            rest
        }
    }
}

/// Tells whether `vs` holds a snapshot of `doc` that was created after `cutoff`.
pub open spec fn has_recent(vs: Seq<DocumentVersion>, doc: Seq<char>, cutoff: int) -> bool {
    exists|i: int| 0 <= i < vs.len() && same_doc(#[trigger] vs[i], doc) && vs[i].created_at > cutoff
}

/// Tells whether a snapshot of `doc` is due at `now`: none was created within
/// the last `interval_minutes`.
pub open spec fn snapshot_due(
    vs: Seq<DocumentVersion>,
    doc: Seq<char>,
    now: int,
    interval_minutes: int,
) -> bool {
    !has_recent(vs, doc, now - interval_minutes * MILLIS_PER_MINUTE)
}

/// Tells whether `doc` changed after its latest snapshot: every snapshot of
/// it is older than `updated_at`.
pub open spec fn is_unsaved(vs: Seq<DocumentVersion>, doc: Seq<char>, updated_at: int) -> bool {
    forall|i: int| 0 <= i < vs.len() && same_doc(#[trigger] vs[i], doc) ==> vs[i].created_at < updated_at
}

/// Tells whether pruning `doc` to `max` snapshots keeps `vs[i]`: a snapshot
/// of another document always stays, one of `doc` stays when fewer than `max`
/// snapshots of `doc` were created after it.
pub open spec fn keeps(vs: Seq<DocumentVersion>, doc: Seq<char>, max: int, i: int) -> bool {
    !same_doc(vs[i], doc) || count_for(vs, doc, vs.len() as int) - count_for(vs, doc, i + 1) < max
}

/// What is left of the first `n` snapshots of `vs` after pruning `doc` to `max`.
pub open spec fn pruned(vs: Seq<DocumentVersion>, doc: Seq<char>, max: int, n: int) -> Seq<
    DocumentVersion,
>
    decreases n,
{
    if n <= 0 {
        Seq::empty()
    } else if keeps(vs, doc, max, n - 1) {
        pruned(vs, doc, max, n - 1).push(vs[n - 1])
    } else {
        pruned(vs, doc, max, n - 1)
    }
}

/// What is left of `vs` after pruning `doc` to its `max` newest snapshots.
pub open spec fn prune_result(vs: Seq<DocumentVersion>, doc: Seq<char>, max: int) -> Seq<
    DocumentVersion,
> {
    pruned(vs, doc, max, vs.len() as int)
}

/// The snapshots of all documents, in the order of their creation.
pub struct VersionStore {
    versions: Vec<DocumentVersion>,
}

impl View for VersionStore {
    type V = Seq<DocumentVersion>;

    closed spec fn view(&self) -> Seq<DocumentVersion> {
        self.versions@
    }
}

impl VersionStore {
    /// The store's invariant.
    pub open spec fn wf(&self) -> bool {
        well_formed(self@)
    }

    /// An empty store.
    pub fn new() -> (s: Self)
        ensures
            s@ == Seq::<DocumentVersion>::empty(),
            s.wf(),
    {
        VersionStore { versions: Vec::new() }
    }

    /// All snapshots, in the order of their creation.
    pub fn snapshots(&self) -> (r: &Vec<DocumentVersion>)
        ensures
            r@ == self@,
    {
        &self.versions
    }

    /// Number of snapshots held, of all documents.
    pub fn len(&self) -> (n: usize)
        ensures
            n == self@.len(),
    {
        self.versions.len()
    }

    /// The highest version number of a document, 0 when it has no snapshot.
    pub fn latest_version_number(&self, document_id: &str) -> (n: i64)
        ensures
            n == latest_version(self@, document_id@),
    {
        let mut best: i64 = 0;
        let mut i: usize = 0;
        while i < self.versions.len()
            invariant
                i <= self.versions.len(),
                best == max_version(self.versions@, document_id@, i as int),
            decreases self.versions.len() - i,
        {
            let v = &self.versions[i];
            if v.document_id.as_str().eq(document_id) && v.version_number > best {
                best = v.version_number;
            }
            i = i + 1;
        }
        best
    }

    /// Tells whether a snapshot with this id exists.
    pub fn contains_id(&self, id: &str) -> (r: bool)
        ensures
            r == has_id(self@, id@),
    {
        let mut i: usize = 0;
        while i < self.versions.len()
            invariant
                i <= self.versions.len(),
                forall|j: int| 0 <= j < i ==> (#[trigger] self.versions@[j]).id@ != id@,
            decreases self.versions.len() - i,
        {
            if self.versions[i].id.as_str().eq(id) {
                return true;
            }
            i = i + 1;
        }
        false
    }

    /// Number of snapshots that a document has.
    pub fn count_versions(&self, document_id: &str) -> (n: usize)
        ensures
            n == count_for(self@, document_id@, self@.len() as int),
    {
        let mut n: usize = 0;
        let mut i: usize = 0;
        while i < self.versions.len()
            invariant
                i <= self.versions.len(),
                n == count_for(self.versions@, document_id@, i as int),
                n <= i,
            decreases self.versions.len() - i,
        {
            if self.versions[i].document_id.as_str().eq(document_id) {
                n = n + 1;
            }
            i = i + 1;
        }
        n
    }
}

/// The highest version number of a document is that of one of its
/// snapshots, or 0, and none of its snapshots lies above it.
pub proof fn lemma_max_version_bounds(vs: Seq<DocumentVersion>, doc: Seq<char>, n: int)
    requires
        0 <= n <= vs.len(),
    ensures
        0 <= max_version(vs, doc, n) <= i64::MAX,
        forall|i: int|
            0 <= i < n && same_doc(#[trigger] vs[i], doc) ==> vs[i].version_number <= max_version(
                vs,
                doc,
                n,
            ),
        max_version(vs, doc, n) > 0 ==> exists|i: int|
            0 <= i < n && same_doc(#[trigger] vs[i], doc) && vs[i].version_number == max_version(
                vs,
                doc,
                n,
            ),
    decreases n,
{
    if n > 0 {
        lemma_max_version_bounds(vs, doc, n - 1);
        let rest = max_version(vs, doc, n - 1);
        if rest > 0 && !(same_doc(vs[n - 1], doc) && vs[n - 1].version_number > rest) {
            let i = choose|i: int|
                0 <= i < n - 1 && same_doc(#[trigger] vs[i], doc) && vs[i].version_number == rest;
            assert(same_doc(vs[i], doc) && vs[i].version_number == max_version(vs, doc, n));
        }
    }
}

/// A snapshot that is appended changes nothing of what stands before it.
pub proof fn lemma_max_version_push(vs: Seq<DocumentVersion>, v: DocumentVersion, doc: Seq<char>, n: int)
    requires
        0 <= n <= vs.len(),
    ensures
        max_version(vs.push(v), doc, n) == max_version(vs, doc, n),
    decreases n,
{
    if n > 0 {
        lemma_max_version_push(vs, v, doc, n - 1);
    }
}

/// A snapshot that is appended changes no count of what stands before it.
pub proof fn lemma_count_for_push(vs: Seq<DocumentVersion>, v: DocumentVersion, doc: Seq<char>, n: int)
    requires
        0 <= n <= vs.len(),
    ensures
        count_for(vs.push(v), doc, n) == count_for(vs, doc, n),
    decreases n,
{
    if n > 0 {
        lemma_count_for_push(vs, v, doc, n - 1);
    }
}

/// Where no snapshot of the document stands, the count does not rise.
pub proof fn lemma_count_for_none(vs: Seq<DocumentVersion>, doc: Seq<char>, a: int, b: int)
    requires
        0 <= a <= b <= vs.len(),
        forall|k: int| a <= k < b ==> !same_doc(#[trigger] vs[k], doc),
    ensures
        count_for(vs, doc, b) == count_for(vs, doc, a),
    decreases b - a,
{
    if a < b {
        lemma_count_for_none(vs, doc, a, b - 1);
    }
}

/// The snapshot with the highest number of a document is its last: from it
/// to the end the count rises by one.
pub proof fn lemma_latest_is_last(vs: Seq<DocumentVersion>, doc: Seq<char>, k: int)
    requires
        well_formed(vs),
        0 <= k < vs.len(),
        same_doc(vs[k], doc),
        vs[k].version_number == latest_version(vs, doc),
    ensures
        count_for(vs, doc, vs.len() as int) == count_for(vs, doc, k) + 1,
{
    lemma_max_version_bounds(vs, doc, vs.len() as int);
    assert forall|j: int| k + 1 <= j < vs.len() implies !same_doc(#[trigger] vs[j], doc) by {
        if same_doc(vs[j], doc) {
            assert(vs[k].version_number < vs[j].version_number);
        }
    }
    lemma_count_for_none(vs, doc, k + 1, vs.len() as int);
}

/// Appending a snapshot under the next number of its document keeps the
/// numbers of the document without a gap.
proof fn lemma_push_keeps_gapless(before: Seq<DocumentVersion>, version: DocumentVersion)
    requires
        well_formed(before),
        version.version_number >= 1,
        latest_version(before, version.document_id@) == 0 || version.version_number
            == latest_version(before, version.document_id@) + 1,
    ensures
        ({
            let after = before.push(version);
            forall|i: int, j: int|
                0 <= i < j < after.len() && (#[trigger] after[i]).document_id@ == (
                #[trigger] after[j]).document_id@ ==> after[i].version_number
                    < after[j].version_number && after[j].version_number - after[i].version_number
                    == count_for(after, after[i].document_id@, j) - count_for(
                    after,
                    after[i].document_id@,
                    i,
                )
        }),
{
    let after = before.push(version);
    let n = before.len() as int;
    let doc = version.document_id@;
    lemma_max_version_bounds(before, doc, n);
    assert forall|i: int, j: int|
        0 <= i < j < after.len() && (#[trigger] after[i]).document_id@ == (
        #[trigger] after[j]).document_id@ implies after[i].version_number < after[j].version_number
        && after[j].version_number - after[i].version_number == count_for(
        after,
        after[i].document_id@,
        j,
    ) - count_for(after, after[i].document_id@, i) by {
        let d = after[i].document_id@;
        lemma_count_for_push(before, version, d, i);
        lemma_count_for_push(before, version, d, j);
        if j < n {
            assert(before[i].version_number < before[j].version_number);
        } else {
            assert(same_doc(before[i], doc));
            let k = choose|k: int|
                0 <= k < n && same_doc(#[trigger] before[k], doc) && before[k].version_number
                    == latest_version(before, doc);
            lemma_latest_is_last(before, doc, k);
            if i < k {
                assert(before[i].version_number < before[k].version_number);
            } else if k < i {
                assert(before[k].version_number < before[i].version_number);
            }
        }
    }
}

/// Records a snapshot of a document under the next version number of that
/// document: one more than its highest so far, 1 for its first.
///
/// Fails, and leaves the store as it was, when the id is already taken or the
/// version numbers of the document are used up.
pub fn create_version(
    store: &mut VersionStore,
    id: &str,
    document_id: &str,
    content: &str,
    word_count: i64,
    char_count: i64,
    now: i64,
) -> (r: Result<i64, AppError>)
    requires
        old(store).wf(),
    ensures
        final(store).wf(),
        r is Ok <==> !has_id(old(store)@, id@) && latest_version(old(store)@, document_id@)
            < i64::MAX,
        r is Err ==> final(store)@ == old(store)@ && r->Err_0 is Database,
        r matches Ok(n) ==> {
            &&& n == latest_version(old(store)@, document_id@) + 1
            &&& final(store)@.len() == old(store)@.len() + 1
            &&& final(store)@.drop_last() == old(store)@
            &&& final(store)@.last().id@ == id@
            &&& final(store)@.last().document_id@ == document_id@
            &&& final(store)@.last().version_number == n
            &&& final(store)@.last().content@ == content@
            &&& final(store)@.last().word_count == word_count
            &&& final(store)@.last().char_count == char_count
            &&& final(store)@.last().created_at == now
            &&& latest_version(final(store)@, document_id@) == n
        },
{
    if store.contains_id(id) {
        return Err(AppError::Database("version id already exists".to_owned()));
    }
    let latest: i64 = store.latest_version_number(document_id);
    if latest == i64::MAX {
        return Err(AppError::Database("version numbers exhausted".to_owned()));
    }
    let ghost before = store.versions@;
    proof {
        lemma_max_version_bounds(before, document_id@, before.len() as int);
    }
    let version = DocumentVersion {
        id: id.to_owned(),
        document_id: document_id.to_owned(),
        version_number: latest + 1,
        content: content.to_owned(),
        word_count,
        char_count,
        created_at: now,
    };
    store.versions.push(version);
    proof {
        let after = store.versions@;
        assert(after.drop_last() =~= before);
        lemma_max_version_push(before, version, document_id@, before.len() as int);
        assert forall|i: int, j: int| 0 <= i < j < after.len() implies (#[trigger] after[i]).id@ != (
        #[trigger] after[j]).id@ by {
            if j == before.len() {
                assert(before[i].id@ != id@);
            } else {
                assert(before[i].id@ != before[j].id@);
            }
        }
        lemma_push_keeps_gapless(before, version);
    }
    Ok(latest + 1)
}

/// Lists the snapshots of a document, newest first, without their content.
pub fn list_versions(store: &VersionStore, document_id: &str) -> (r: Vec<DocumentVersionSummary>)
    ensures
        r@ == newest_first(store@, document_id@),
{
    let mut out: Vec<DocumentVersionSummary> = Vec::new();
    let mut i: usize = store.versions.len();
    assert(store.versions@.take(i as int) =~= store.versions@);
    while i > 0
        invariant
            i <= store.versions.len(),
            out@ + newest_first(store.versions@.take(i as int), document_id@) == newest_first(
                store.versions@,
                document_id@,
            ),
        decreases i,
    {
        i = i - 1;
        let v = &store.versions[i];
        assert(store.versions@.take(i + 1).drop_last() =~= store.versions@.take(i as int));
        assert(store.versions@.take(i + 1).last() == *v);
        let ghost prev = out@;
        if v.document_id.as_str().eq(document_id) {
            out.push(v.summary());
            assert(out@ + newest_first(store.versions@.take(i as int), document_id@) =~= prev
                + newest_first(store.versions@.take(i + 1), document_id@));
        }
    }
    assert(out@ + Seq::<DocumentVersionSummary>::empty() =~= out@);
    out
}

/// Finds a snapshot by its id.
pub fn get_version(store: &VersionStore, version_id: &str) -> (r: Option<DocumentVersion>)
    ensures
        r is Some <==> has_id(store@, version_id@),
        r matches Some(v) ==> v.id@ == version_id@ && store@.contains(v),
{
    let mut i: usize = 0;
    while i < store.versions.len()
        invariant
            i <= store.versions.len(),
            forall|j: int| 0 <= j < i ==> (#[trigger] store.versions@[j]).id@ != version_id@,
        decreases store.versions.len() - i,
    {
        if store.versions[i].id.as_str().eq(version_id) {
            let v = store.versions[i].clone();
            assert(store.versions@[i as int] == v);
            return Some(v);
        }
        i = i + 1;
    }
    None
}

/// Decides whether an automatic snapshot of a document is due at `now`: it
/// is, unless a snapshot of the document was created within the last
/// `interval_minutes`. A document without snapshots is always due.
pub fn should_create_version(
    store: &VersionStore,
    document_id: &str,
    now: i64,
    interval_minutes: u32,
) -> (due: bool)
    ensures
        due == snapshot_due(store@, document_id@, now as int, interval_minutes as int),
{
    let cutoff: i128 = now as i128 - (interval_minutes as i128) * (MILLIS_PER_MINUTE as i128);
    let mut i: usize = 0;
    while i < store.versions.len()
        invariant
            i <= store.versions.len(),
            cutoff == now - interval_minutes * MILLIS_PER_MINUTE,
            forall|j: int|
                0 <= j < i && same_doc(#[trigger] store.versions@[j], document_id@)
                    ==> store.versions@[j].created_at <= cutoff,
        decreases store.versions.len() - i,
    {
        let v = &store.versions[i];
        if v.document_id.as_str().eq(document_id) && v.created_at as i128 > cutoff {
            return false;
        }
        i = i + 1;
    }
    true
}

/// Decides whether a document changed since its latest snapshot: its
/// `updated_at` is later than the creation of every snapshot it has.
pub fn needs_version_snapshot(store: &VersionStore, document: &Document) -> (r: bool)
    ensures
        r == is_unsaved(store@, document.id@, document.updated_at as int),
{
    let mut i: usize = 0;
    while i < store.versions.len()
        invariant
            i <= store.versions.len(),
            forall|j: int|
                0 <= j < i && same_doc(#[trigger] store.versions@[j], document.id@)
                    ==> store.versions@[j].created_at < document.updated_at,
        decreases store.versions.len() - i,
    {
        let v = &store.versions[i];
        if v.document_id.as_str().eq(document.id.as_str()) && v.created_at >= document.updated_at {
            return false;
        }
        i = i + 1;
    }
    true
}

/// A count rises with the snapshots that it counts among, by one for each
/// at most.
pub proof fn lemma_count_for_bounds(vs: Seq<DocumentVersion>, doc: Seq<char>, i: int, n: int)
    requires
        0 <= i <= n,
    ensures
        count_for(vs, doc, i) <= count_for(vs, doc, n),
        count_for(vs, doc, n) - count_for(vs, doc, i) <= n - i,
    decreases n - i,
{
    if i < n {
        lemma_count_for_bounds(vs, doc, i, n - 1);
    }
}

/// Pruning keeps a subsequence: each of the first `k` survivors stands in
/// `vs` at a place of its own where it is kept, and they stand in `vs` in the
/// order in which they survive.
pub open spec fn embeds(
    p: Seq<DocumentVersion>,
    vs: Seq<DocumentVersion>,
    doc: Seq<char>,
    max: int,
    n: int,
    at: Seq<int>,
) -> bool {
    &&& at.len() == p.len()
    &&& forall|k: int|
        0 <= k < p.len() ==> 0 <= (#[trigger] at[k]) < n && p[k] == vs[at[k]] && keeps(
            vs,
            doc,
            max,
            at[k],
        )
    &&& forall|k1: int, k2: int| 0 <= k1 < k2 < p.len() ==> (#[trigger] at[k1]) < (#[trigger] at[k2])
    &&& forall|k: int| 0 <= k < p.len() ==> pruned(vs, doc, max, #[trigger] at[k]).len() == k
}

/// Gives, for each snapshot that pruning leaves, its place in `vs`.
pub proof fn lemma_pruned_embeds(vs: Seq<DocumentVersion>, doc: Seq<char>, max: int, n: int) -> (at:
    Seq<int>)
    requires
        0 <= n <= vs.len(),
    ensures
        embeds(pruned(vs, doc, max, n), vs, doc, max, n, at),
    decreases n,
{
    if n == 0 {
        Seq::empty()
    } else {
        let prev = lemma_pruned_embeds(vs, doc, max, n - 1);
        if keeps(vs, doc, max, n - 1) {
            let at = prev.push(n - 1);
            let p = pruned(vs, doc, max, n);
            assert forall|k: int| 0 <= k < p.len() implies 0 <= (#[trigger] at[k]) < n && p[k]
                == vs[at[k]] && keeps(vs, doc, max, at[k]) by {
                if k < prev.len() {
                    assert(at[k] == prev[k]);
                }
            }
            assert forall|k1: int, k2: int| 0 <= k1 < k2 < p.len() implies (#[trigger] at[k1]) < (
            #[trigger] at[k2]) by {
                assert(at[k1] == prev[k1]);
                if k2 < prev.len() {
                    assert(at[k2] == prev[k2]);
                }
            }
            assert forall|k: int| 0 <= k < p.len() implies pruned(vs, doc, max, #[trigger] at[k]).len()
                == k by {
                if k < prev.len() {
                    assert(at[k] == prev[k]);
                }
            }
            at
        } else {
            prev
        }
    }
}

/// What pruning leaves of the first `n` snapshots stands first in what it
/// leaves of more.
pub proof fn lemma_pruned_prefix(vs: Seq<DocumentVersion>, doc: Seq<char>, max: int, n: int, m: int)
    requires
        0 <= n <= m <= vs.len(),
    ensures
        pruned(vs, doc, max, n).len() <= pruned(vs, doc, max, m).len(),
        forall|k: int|
            0 <= k < pruned(vs, doc, max, n).len() ==> (#[trigger] pruned(vs, doc, max, m)[k])
                == pruned(vs, doc, max, n)[k],
    decreases m - n,
{
    if n < m {
        lemma_pruned_prefix(vs, doc, max, n, m - 1);
    }
}

/// A count looks at the snapshots that it counts among, and at no other.
pub proof fn lemma_count_for_agree(a: Seq<DocumentVersion>, b: Seq<DocumentVersion>, doc: Seq<char>, n: int)
    requires
        0 <= n <= a.len(),
        n <= b.len(),
        forall|k: int| 0 <= k < n ==> a[k] == b[k],
    ensures
        count_for(a, doc, n) == count_for(b, doc, n),
    decreases n,
{
    if n > 0 {
        lemma_count_for_agree(a, b, doc, n - 1);
    }
}

/// Pruning one document leaves the snapshots of every other one.
pub proof fn lemma_prune_count_other(
    vs: Seq<DocumentVersion>,
    doc: Seq<char>,
    max: int,
    other: Seq<char>,
    n: int,
)
    requires
        0 <= n <= vs.len(),
        other != doc,
    ensures
        count_for(pruned(vs, doc, max, n), other, pruned(vs, doc, max, n).len() as int) == count_for(
            vs,
            other,
            n,
        ),
    decreases n,
{
    if n > 0 {
        lemma_prune_count_other(vs, doc, max, other, n - 1);
        let prev = pruned(vs, doc, max, n - 1);
        if keeps(vs, doc, max, n - 1) {
            lemma_count_for_push(prev, vs[n - 1], other, prev.len() as int);
        }
    }
}

/// Pruning preserves the store's invariant.
pub proof fn lemma_pruned_well_formed(vs: Seq<DocumentVersion>, doc: Seq<char>, max: int)
    requires
        well_formed(vs),
        0 <= max,
    ensures
        well_formed(prune_result(vs, doc, max)),
{
    let total = vs.len() as int;
    let p = prune_result(vs, doc, max);
    let at = lemma_pruned_embeds(vs, doc, max, total);
    assert forall|i: int, j: int| 0 <= i < j < p.len() implies (#[trigger] p[i]).id@ != (
    #[trigger] p[j]).id@ by {
        assert(at[i] < at[j]);
        assert(vs[at[i]].id@ != vs[at[j]].id@);
    }
    assert forall|i: int| 0 <= i < p.len() implies (#[trigger] p[i]).version_number >= 1 by {
        assert(vs[at[i]].version_number >= 1);
    }
    assert forall|i: int, j: int|
        0 <= i < j < p.len() && (#[trigger] p[i]).document_id@ == (#[trigger] p[j]).document_id@
        implies p[i].version_number < p[j].version_number by {
        assert(at[i] < at[j]);
        assert(vs[at[i]].version_number < vs[at[j]].version_number);
    }
    assert forall|i: int, j: int|
        0 <= i < j < p.len() && (#[trigger] p[i]).document_id@ == (#[trigger] p[j]).document_id@
        implies p[j].version_number - p[i].version_number == count_for(p, p[i].document_id@, j)
        - count_for(p, p[i].document_id@, i) by {
        let d = p[i].document_id@;
        let a = at[i];
        let b = at[j];
        assert(a < b);
        assert(vs[a].document_id@ == vs[b].document_id@);
        assert(vs[b].version_number - vs[a].version_number == count_for(vs, d, b) - count_for(
            vs,
            d,
            a,
        ));
        // what stands before the two in the pruned store is what pruning left
        // of what stood before them
        let pa = pruned(vs, doc, max, a);
        let pb = pruned(vs, doc, max, b);
        assert(pa.len() == i && pb.len() == j);
        lemma_pruned_prefix(vs, doc, max, a, total);
        lemma_pruned_prefix(vs, doc, max, b, total);
        lemma_count_for_agree(p, pa, d, i);
        lemma_count_for_agree(p, pb, d, j);
        if d == doc {
            lemma_prune_count(vs, doc, max, a);
            lemma_prune_count(vs, doc, max, b);
            assert(keeps(vs, doc, max, a) && keeps(vs, doc, max, b));
            lemma_count_for_bounds(vs, doc, a, total);
            lemma_count_for_bounds(vs, doc, b, total);
        } else {
            lemma_prune_count_other(vs, doc, max, d, a);
            lemma_prune_count_other(vs, doc, max, d, b);
        }
    }
}

/// Deletes all snapshots of a document but its `max_versions` newest. The
/// snapshots of other documents stay.
pub fn prune_versions(store: &mut VersionStore, document_id: &str, max_versions: u32)
    requires
        old(store).wf(),
    ensures
        final(store).wf(),
        final(store)@ == prune_result(old(store)@, document_id@, max_versions as int),
{
    let ghost before = store.versions@;
    let ghost doc = document_id@;
    let ghost max = max_versions as int;
    let total: usize = store.count_versions(document_id);
    let mut excess: usize = if total > max_versions as usize {
        total - max_versions as usize
    } else {
        0
    };
    let mut kept: Vec<DocumentVersion> = Vec::new();
    let mut i: usize = 0;
    while i < store.versions.len()
        invariant
            i <= store.versions.len(),
            store.versions@ == before,
            total == count_for(before, doc, before.len() as int),
            doc == document_id@,
            max == max_versions as int,
            kept@ == pruned(before, doc, max, i as int),
            excess as int == if total - max - count_for(before, doc, i as int) > 0 {
                total - max - count_for(before, doc, i as int)
            } else {
                0
            },
        decreases store.versions.len() - i,
    {
        let v = &store.versions[i];
        if excess > 0 && v.document_id.as_str().eq(document_id) {
            excess = excess - 1;
        } else {
            kept.push(v.clone());
        }
        i = i + 1;
    }
    store.versions = kept;
    proof {
        lemma_pruned_well_formed(before, doc, max);
    }
}

/// Pruning leaves the document as many snapshots as it had, or `max` when
/// it had more.
pub proof fn lemma_prune_count(vs: Seq<DocumentVersion>, doc: Seq<char>, max: int, n: int)
    requires
        0 <= max,
        0 <= n <= vs.len(),
    ensures
        pruned(vs, doc, max, n).len() <= n,
        count_for(pruned(vs, doc, max, n), doc, pruned(vs, doc, max, n).len() as int) == {
            let gone = count_for(vs, doc, vs.len() as int) - max;
            let seen = count_for(vs, doc, n);
            if gone <= 0 {
                seen as int
            } else if seen <= gone {
                0
            } else {
                seen - gone
            }
        },
    decreases n,
{
    if n > 0 {
        lemma_prune_count(vs, doc, max, n - 1);
        let prev = pruned(vs, doc, max, n - 1);
        if keeps(vs, doc, max, n - 1) {
            let p = prev.push(vs[n - 1]);
            lemma_count_for_push(prev, vs[n - 1], doc, prev.len() as int);
        }
    }
}

/// Retention: a document with more than `max` snapshots has exactly `max`
/// after pruning, one with fewer keeps them all; every snapshot that pruning
/// removes is one of that document and carries a lower version number than
/// each of its snapshots that stay.
pub proof fn lemma_prune_keeps_newest(vs: Seq<DocumentVersion>, doc: Seq<char>, max: int)
    requires
        well_formed(vs),
        0 <= max,
    ensures
        ({
            let p = prune_result(vs, doc, max);
            let had = count_for(vs, doc, vs.len() as int);
            &&& count_for(p, doc, p.len() as int) == if had > max { max } else { had as int }
            &&& forall|i: int, j: int|
                0 <= i < vs.len() && 0 <= j < vs.len() && !keeps(vs, doc, max, i) && same_doc(
                    vs[j],
                    doc,
                ) && keeps(vs, doc, max, j) ==> (#[trigger] vs[i]).version_number < (
                #[trigger] vs[j]).version_number
            &&& forall|i: int| 0 <= i < vs.len() && !keeps(vs, doc, max, i) ==> same_doc(#[trigger] vs[i], doc)
        }),
{
    lemma_prune_count(vs, doc, max, vs.len() as int);
    assert forall|i: int, j: int|
        0 <= i < vs.len() && 0 <= j < vs.len() && !keeps(vs, doc, max, i) && same_doc(vs[j], doc)
            && keeps(vs, doc, max, j) implies (#[trigger] vs[i]).version_number < (
    #[trigger] vs[j]).version_number by {
        if j <= i {
            lemma_count_for_bounds(vs, doc, j + 1, i + 1);
        }
    }
}

/// Version numbers are assigned without gaps: whatever the store holds, two
/// snapshots of one document taken one after the other receive consecutive
/// numbers, and the first snapshot of a document receives 1. Snapshots of
/// other documents in between change nothing of this.
pub proof fn lemma_version_numbers_gapless(
    before: Seq<DocumentVersion>,
    first: DocumentVersion,
    between: Seq<DocumentVersion>,
    doc: Seq<char>,
)
    requires
        same_doc(first, doc),
        first.version_number == latest_version(before, doc) + 1,
        forall|i: int| 0 <= i < between.len() ==> !same_doc(#[trigger] between[i], doc),
    ensures
        latest_version(before.push(first) + between, doc) + 1 == first.version_number + 1,
        latest_version(Seq::<DocumentVersion>::empty(), doc) + 1 == 1,
    decreases between.len(),
{
    lemma_max_version_bounds(before, doc, before.len() as int);
    if between.len() == 0 {
        assert(before.push(first) + between =~= before.push(first));
        lemma_max_version_push(before, first, doc, before.len() as int);
    } else {
        lemma_version_numbers_gapless(before, first, between.drop_last(), doc);
        let all = before.push(first) + between;
        let shorter = before.push(first) + between.drop_last();
        assert(all =~= shorter.push(between.last()));
        lemma_max_version_push(shorter, between.last(), doc, shorter.len() as int);
    }
}

/// Pruning to at least one snapshot does not change a document's highest
/// version number, so numbering goes on where it was.
pub proof fn lemma_prune_keeps_latest(vs: Seq<DocumentVersion>, doc: Seq<char>, other: Seq<char>, max: int)
    requires
        well_formed(vs),
        max >= 1,
    ensures
        latest_version(prune_result(vs, doc, max), other) == latest_version(vs, other),
{
    lemma_prune_latest_upto(vs, doc, other, max, vs.len() as int);
}

proof fn lemma_prune_latest_upto(vs: Seq<DocumentVersion>, doc: Seq<char>, other: Seq<char>, max: int, n: int)
    requires
        well_formed(vs),
        max >= 1,
        0 <= n <= vs.len(),
    ensures
        ({
            let p = pruned(vs, doc, max, n);
            let m = max_version(p, other, p.len() as int);
            if doc == other && count_for(vs, doc, vs.len() as int) - count_for(vs, doc, n) >= max {
                m == 0 || m <= max_version(vs, other, n)
            } else {
                m == max_version(vs, other, n)
            }
        }),
    decreases n,
{
    if n > 0 {
        lemma_prune_latest_upto(vs, doc, other, max, n - 1);
        lemma_max_version_bounds(vs, other, n - 1);
        lemma_max_version_bounds(vs, other, n);
        let prev = pruned(vs, doc, max, n - 1);
        let p = pruned(vs, doc, max, n);
        lemma_max_version_bounds(prev, other, prev.len() as int);
        if keeps(vs, doc, max, n - 1) {
            lemma_max_version_push(prev, vs[n - 1], other, prev.len() as int);
            assert(p.drop_last() =~= prev);
            if same_doc(vs[n - 1], other) {
                assert forall|i: int| 0 <= i < n - 1 && same_doc(#[trigger] vs[i], other) implies vs[i].version_number
                    < vs[n - 1].version_number by {}
                if max_version(vs, other, n - 1) > 0 {
                    let i = choose|i: int|
                        0 <= i < n - 1 && same_doc(#[trigger] vs[i], other) && vs[i].version_number
                            == max_version(vs, other, n - 1);
                    assert(vs[i].version_number < vs[n - 1].version_number);
                }
            }
        }
    }
}

/// Throttling: once a snapshot of a document was created at `taken`, none is
/// due while less than the interval has passed since; when the interval has
/// passed, and the document has no later snapshot, one is due again.
pub proof fn lemma_snapshot_throttle(
    vs: Seq<DocumentVersion>,
    doc: Seq<char>,
    taken: int,
    now: int,
    interval_minutes: int,
)
    requires
        exists|i: int| 0 <= i < vs.len() && same_doc(#[trigger] vs[i], doc) && vs[i].created_at == taken,
        forall|i: int| 0 <= i < vs.len() && same_doc(#[trigger] vs[i], doc) ==> vs[i].created_at <= taken,
    ensures
        now - taken < interval_minutes * MILLIS_PER_MINUTE ==> !snapshot_due(
            vs,
            doc,
            now,
            interval_minutes,
        ),
        now - taken >= interval_minutes * MILLIS_PER_MINUTE ==> snapshot_due(
            vs,
            doc,
            now,
            interval_minutes,
        ),
{
}

/// A document that has no snapshot is always due for one.
pub proof fn lemma_first_snapshot_due(vs: Seq<DocumentVersion>, doc: Seq<char>, now: int, interval_minutes: int)
    requires
        count_for(vs, doc, vs.len() as int) == 0,
    ensures
        snapshot_due(vs, doc, now, interval_minutes),
        is_unsaved(vs, doc, now),
{
    assert forall|i: int| 0 <= i < vs.len() implies !same_doc(#[trigger] vs[i], doc) by {
        if same_doc(vs[i], doc) {
            lemma_count_for_bounds(vs, doc, i + 1, vs.len() as int);
        }
    }
}

/// Tells whether a snapshot that was kept elsewhere can be taken in: its id
/// is free, and its version number is the next of its document, or any from
/// 1 on when the document has no snapshot yet.
pub open spec fn can_load(vs: Seq<DocumentVersion>, version: DocumentVersion) -> bool {
    &&& !has_id(vs, version.id@)
    &&& version.version_number >= 1
    &&& latest_version(vs, version.document_id@) == 0 || version.version_number == latest_version(
        vs,
        version.document_id@,
    ) + 1
}

/// Takes in a snapshot that was kept elsewhere, as it is. The snapshots of a
/// document are taken in by ascending version number, without a gap.
///
/// Fails, and leaves the store as it was, when the id is taken or the
/// version number is not the next of the document.
pub fn load_version(store: &mut VersionStore, version: DocumentVersion) -> (r: Result<(), AppError>)
    requires
        old(store).wf(),
    ensures
        final(store).wf(),
        r is Ok <==> can_load(old(store)@, version),
        r matches Err(e) ==> final(store)@ == old(store)@ && e is Database,
        r is Ok ==> final(store)@ == old(store)@.push(version),
{
    if version.version_number < 1 || store.contains_id(version.id.as_str()) {
        return Err(AppError::Database("version cannot be loaded".to_owned()));
    }
    let latest: i64 = store.latest_version_number(version.document_id.as_str());
    if latest != 0 && (latest == i64::MAX || version.version_number != latest + 1) {
        return Err(AppError::Database("version number out of order".to_owned()));
    }
    let ghost before = store.versions@;
    proof {
        lemma_max_version_bounds(before, version.document_id@, before.len() as int);
    }
    store.versions.push(version);
    proof {
        let after = store.versions@;
        assert forall|i: int, j: int| 0 <= i < j < after.len() implies (#[trigger] after[i]).id@ != (
        #[trigger] after[j]).id@ by {
            if j == before.len() {
                assert(before[i].id@ != version.id@);
            } else {
                assert(before[i].id@ != before[j].id@);
            }
        }
        lemma_push_keeps_gapless(before, version);
    }
    Ok(())
}

} // verus!
