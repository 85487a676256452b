//! The content store: one blob of text per document, keyed by a relative path.

use vstd::prelude::*;

verus! {

/// A blob and the path that it is stored under.
pub struct StoredFile {
    pub path: String,
    pub content: String,
}

/// Tells whether some file of `files` is stored under `path`.
pub open spec fn has_path(files: Seq<StoredFile>, path: Seq<char>) -> bool {
    exists|i: int| 0 <= i < files.len() && (#[trigger] files[i]).path@ == path
}

/// The place of the file stored under `path`.
pub open spec fn place_of(files: Seq<StoredFile>, path: Seq<char>) -> int {
    choose|i: int| 0 <= i < files.len() && (#[trigger] files[i]).path@ == path
}

/// No two files share a path.
pub open spec fn distinct_paths(files: Seq<StoredFile>) -> bool {
    forall|i: int, j: int|
        0 <= i < j < files.len() ==> (#[trigger] files[i]).path@ != (#[trigger] files[j]).path@
}

/// The blobs as a map from path to text.
pub open spec fn blobs_of(files: Seq<StoredFile>) -> Map<Seq<char>, Seq<char>> {
    Map::new(|p: Seq<char>| has_path(files, p), |p: Seq<char>| files[place_of(files, p)].content@)
}

/// The text blobs of all documents.
pub struct ContentStore {
    files: Vec<StoredFile>,
}

impl View for ContentStore {
    type V = Map<Seq<char>, Seq<char>>;

    closed spec fn view(&self) -> Map<Seq<char>, Seq<char>> {
        blobs_of(self.files@)
    }
}

impl ContentStore {
    /// The store's invariant: a path names at most one blob.
    pub closed spec fn wf(&self) -> bool {
        distinct_paths(self.files@)
    }

    /// An empty store.
    pub fn new() -> (s: Self)
        ensures
            s.wf(),
            s@ == Map::<Seq<char>, Seq<char>>::empty(),
    {
        let s = ContentStore { files: Vec::new() };
        assert(s@ =~= Map::<Seq<char>, Seq<char>>::empty());
        s
    }

    /// Where the blob stored under `path` stands, if there is one.
    fn find(&self, path: &str) -> (r: Option<usize>)
        requires
            self.wf(),
        ensures
            r is Some <==> has_path(self.files@, path@),
            r matches Some(i) ==> i < self.files@.len() && self.files@[i as int].path@ == path@
                && place_of(self.files@, path@) == i,
    {
        let mut i: usize = 0;
        while i < self.files.len()
            invariant
                i <= self.files.len(),
                distinct_paths(self.files@),
                forall|j: int| 0 <= j < i ==> (#[trigger] self.files@[j]).path@ != path@,
            decreases self.files.len() - i,
        {
            if self.files[i].path.as_str().eq(path) {
                proof {
                    let k = place_of(self.files@, path@);
                    assert(self.files@[i as int].path@ == path@);
                    if k < i {
                        assert(self.files@[k].path@ != self.files@[i as int].path@);
                    } else if i < k {
                        assert(self.files@[i as int].path@ != self.files@[k].path@);
                    }
                }
                return Some(i);
            }
            i = i + 1;
        }
        None
    }

    /// Tells whether a blob is stored under `path`.
    pub fn contains(&self, path: &str) -> (r: bool)
        requires
            self.wf(),
        ensures
            r == self@.dom().contains(path@),
    {
        self.find(path).is_some()
    }

    /// Reads the blob stored under `path`.
    pub fn get(&self, path: &str) -> (r: Option<String>)
        requires
            self.wf(),
        ensures
            r is Some == self@.dom().contains(path@),
            r matches Some(text) ==> text@ == self@[path@],
    {
        match self.find(path) {
            Some(i) => Some(self.files[i].content.clone()),
            None => None,
        }
    }

    /// Stores `content` under `path`, in place of what was there.
    pub fn put(&mut self, path: &str, content: &str)
        requires
            old(self).wf(),
        ensures
            final(self).wf(),
            final(self)@ == old(self)@.insert(path@, content@),
    {
        let ghost before = self.files@;
        let file = StoredFile { path: path.to_owned(), content: content.to_owned() };
        match self.find(path) {
            Some(i) => {
                self.files.set(i, file);
                proof {
                    let after = self.files@;
                    assert forall|q: Seq<char>| has_path(after, q) == has_path(before, q) by {
                        if has_path(before, q) {
                            let k = place_of(before, q);
                            assert(after[k].path@ == q);
                        }
                        if has_path(after, q) {
                            let k = place_of(after, q);
                            assert(before[k].path@ == q);
                        }
                    }
                    assert forall|q: Seq<char>| has_path(after, q) implies #[trigger] blobs_of(after)[q]
                        == blobs_of(before).insert(path@, content@)[q] by {
                        let k = place_of(after, q);
                        if q != path@ {
                            assert(before[k].path@ == q);
                            let k0 = place_of(before, q);
                            assert(k0 == k) by {
                                if k0 < k {
                                    assert(before[k0].path@ != before[k].path@);
                                } else if k < k0 {
                                    assert(before[k].path@ != before[k0].path@);
                                }
                            }
                        } else {
                            assert(k == i) by {
                                if k < i {
                                    assert(after[k].path@ != after[i as int].path@);
                                } else if i < k {
                                    assert(after[i as int].path@ != after[k].path@);
                                }
                            }
                        }
                    }
                    assert(blobs_of(after) =~= blobs_of(before).insert(path@, content@));
                }
            },
            None => {
                self.files.push(file);
                proof {
                    let after = self.files@;
                    let n = before.len() as int;
                    assert(after[n].path@ == path@);
                    assert forall|q: Seq<char>| has_path(after, q) == (has_path(before, q) || q == path@) by {
                        if has_path(before, q) {
                            let k = place_of(before, q);
                            assert(after[k].path@ == q);
                        }
                        if has_path(after, q) {
                            let k = place_of(after, q);
                            if k < n {
                                assert(before[k].path@ == q);
                            }
                        }
                    }
                    assert forall|q: Seq<char>| has_path(after, q) implies #[trigger] blobs_of(after)[q]
                        == blobs_of(before).insert(path@, content@)[q] by {
                        let k = place_of(after, q);
                        if q != path@ {
                            assert(before[k].path@ == q);
                            let k0 = place_of(before, q);
                            assert(k0 == k) by {
                                if k0 < k {
                                    assert(before[k0].path@ != before[k].path@);
                                } else if k < k0 {
                                    assert(before[k].path@ != before[k0].path@);
                                }
                            }
                        } else {
                            if k < n {
                                assert(before[k].path@ == path@);
                            }
                        }
                    }
                    assert(blobs_of(after) =~= blobs_of(before).insert(path@, content@));
                }
            },
        }
    }

    /// Removes the blob stored under `path`, and tells whether there was one.
    pub fn remove(&mut self, path: &str) -> (removed: bool)
        requires
            old(self).wf(),
        ensures
            final(self).wf(),
            removed == old(self)@.dom().contains(path@),
            final(self)@ == old(self)@.remove(path@),
    {
        let ghost before = self.files@;
        match self.find(path) {
            Some(i) => {
                self.files.remove(i);
                proof {
                    let after = self.files@;
                    assert forall|q: Seq<char>| has_path(after, q) == (has_path(before, q) && q != path@) by {
                        if has_path(before, q) && q != path@ {
                            let k = place_of(before, q);
                            if k < i {
                                assert(after[k].path@ == q);
                            } else {
                                assert(after[k - 1].path@ == q);
                            }
                        }
                        if has_path(after, q) {
                            let k = place_of(after, q);
                            if k < i {
                                assert(before[k].path@ == q);
                                assert(before[k].path@ != before[i as int].path@);
                            } else {
                                assert(before[k + 1].path@ == q);
                                assert(before[i as int].path@ != before[k + 1].path@);
                            }
                        }
                    }
                    assert forall|q: Seq<char>| has_path(after, q) implies #[trigger] blobs_of(after)[q]
                        == blobs_of(before)[q] by {
                        let k = place_of(after, q);
                        let k1 = if k < i { k } else { k + 1 };
                        assert(before[k1].path@ == q);
                        let k0 = place_of(before, q);
                        assert(k0 == k1) by {
                            if k0 < k1 {
                                assert(before[k0].path@ != before[k1].path@);
                            } else if k1 < k0 {
                                assert(before[k1].path@ != before[k0].path@);
                            }
                        }
                    }
                    assert(blobs_of(after) =~= blobs_of(before).remove(path@));
                }
                true
            },
            None => {
                assert(blobs_of(before) =~= blobs_of(before).remove(path@));
                false
            },
        }
    }
}

/// Round trip: what was last written under a path is what is read there, and
/// writing under one path changes no other.
pub proof fn lemma_read_after_write(
    blobs: Map<Seq<char>, Seq<char>>,
    path: Seq<char>,
    content: Seq<char>,
    other: Seq<char>,
)
    ensures
        blobs.insert(path, content).dom().contains(path),
        blobs.insert(path, content)[path] == content,
        other != path ==> blobs.insert(path, content).dom().contains(other) == blobs.dom().contains(
            other,
        ),
        other != path && blobs.dom().contains(other) ==> blobs.insert(path, content)[other]
            == blobs[other],
{
}

/// Writing the same content under the same path again changes nothing: a
/// write can be repeated safely.
pub proof fn lemma_write_is_idempotent(blobs: Map<Seq<char>, Seq<char>>, path: Seq<char>, content: Seq<char>)
    ensures
        blobs.insert(path, content).insert(path, content) == blobs.insert(path, content),
{
    assert(blobs.insert(path, content).insert(path, content) =~= blobs.insert(path, content));
}

} // verus!
