//! An in-memory snapshot of the project's source files.
//!
//! The build pipeline reads sources exclusively through this snapshot, so the
//! whole build is a pure function of its contents. Front-ends fill one from
//! disk (or from anywhere else) before a build starts.

use vstd::prelude::*;

verus! {

use crate::strutil::{chars_start_with, is_prefix_of, str_eq, str_to_chars};

/// A snapshot of files: canonical path → textual content, paths unique.
#[derive(Debug, Clone)]
pub struct FsSnapshot {
    /// The files, as path → content pairs.
    pub entries: Vec<(String, String)>,
}

impl FsSnapshot {
    /// Well-formedness: paths are unique.
    pub open spec fn wf(self) -> bool {
        forall|i: int, j: int|
            0 <= i < j < self.entries.len() ==> self.entries[i].0@ != self.entries[j].0@
    }

    /// Whether a file with this exact path is present.
    pub open spec fn contains_file(self, p: Seq<char>) -> bool {
        exists|i: int| 0 <= i < self.entries.len() && self.entries[i].0@ == p
    }

    /// The position of the file with this path (unique when well-formed).
    pub open spec fn index_of(self, p: Seq<char>) -> int {
        choose|i: int| 0 <= i < self.entries.len() && self.entries[i].0@ == p
    }

    /// The content of the file with this path.
    pub open spec fn content_of(self, p: Seq<char>) -> Seq<char> {
        self.entries[self.index_of(p)].1@
    }

    /// Whether some file lies strictly under this path, making it a directory.
    pub open spec fn contains_dir(self, p: Seq<char>) -> bool {
        exists|i: int| 0 <= i < self.entries.len() && is_prefix_of(p + seq!['/'], self.entries[i].0@)
    }

    proof fn lemma_index_unique(self, p: Seq<char>, i: int)
        requires
            self.wf(),
            0 <= i < self.entries.len(),
            self.entries[i].0@ == p,
        ensures
            self.index_of(p) == i,
    {
        let j = self.index_of(p);
        assert(0 <= j < self.entries.len() && self.entries[j].0@ == p);
        if j != i {
            if i < j {
                assert(self.entries[i].0@ != self.entries[j].0@);
            } else {
                assert(self.entries[j].0@ != self.entries[i].0@);
            }
        }
    }

    /// An empty snapshot.
    pub fn new() -> (r: Self)
        ensures
            r.wf(),
            r.entries@.len() == 0,
            forall|p: Seq<char>| !r.contains_file(p),
    {
        FsSnapshot { entries: Vec::new() }
    }

    /// Record a file, replacing any previous content under the same path.
    pub fn insert(&mut self, path: String, content: String)
        requires
            old(self).wf(),
        ensures
            final(self).wf(),
            final(self).contains_file(path@),
            final(self).content_of(path@) == content@,
            forall|q: Seq<char>|
                q != path@ ==> (final(self).contains_file(q) <==> old(self).contains_file(q)),
            forall|q: Seq<char>|
                q != path@ && old(self).contains_file(q) ==> final(self).content_of(q) == old(
                    self,
                ).content_of(q),
    {
        let ghost pv = path@;
        let ghost cv = content@;
        let mut i: usize = 0;
        while i < self.entries.len()
            invariant
                old(self).wf(),
                *self == *old(self),
                pv == path@,
                cv == content@,
                i <= self.entries.len(),
                forall|k: int| 0 <= k < i ==> self.entries[k].0@ != pv,
            decreases self.entries.len() - i,
        {
            if str_eq(self.entries[i].0.as_str(), path.as_str()) {
                let _old_entry = self.entries.remove(i);
                self.entries.insert(i, (path, content));
                proof {
                    assert(self.entries@ =~= old(self).entries@.update(
                        i as int,
                        self.entries@[i as int],
                    ));
                    assert(self.entries@[i as int].0@ == pv);
                    assert(self.entries@[i as int].1@ == cv);
                    assert forall|a: int, b: int|
                        0 <= a < b < self.entries.len() implies self.entries[a].0@
                        != self.entries[b].0@ by {
                        assert(old(self).entries[a].0@ != old(self).entries[b].0@);
                        assert(a == i as int || self.entries[a].0@ == old(self).entries[a].0@);
                        assert(b == i as int || self.entries[b].0@ == old(self).entries[b].0@);
                        assert(old(self).entries[i as int].0@ == pv);
                    }
                    self.lemma_index_unique(pv, i as int);
                    assert forall|q: Seq<char>|
                        q != pv && old(self).contains_file(q) implies self.contains_file(q)
                        && self.content_of(q) == old(self).content_of(q) by {
                        let k = old(self).index_of(q);
                        old(self).lemma_index_unique(q, k);
                        assert(k != i as int);
                        assert(self.entries@[k].0@ == q);
                        self.lemma_index_unique(q, k);
                    }
                    assert forall|q: Seq<char>|
                        q != pv && self.contains_file(q) implies old(self).contains_file(
                        q,
                    ) by {
                        let k = choose|k: int|
                            0 <= k < self.entries@.len() && self.entries@[k].0@ == q;
                        assert(k != i as int);
                        assert(old(self).entries@[k].0@ == q);
                    }
                }
                return ;
            }
            i = i + 1;
        }
        assert(!self.contains_file(pv));
        self.entries.push((path, content));
        proof {
            let n = old(self).entries@.len() as int;
            assert(self.entries@[n].0@ == pv);
            assert(self.entries@[n].1@ == cv);
            assert forall|a: int, b: int|
                0 <= a < b < self.entries.len() implies self.entries[a].0@ != self.entries[b].0@ by {
                assert(self.entries[a].0@ == old(self).entries[a].0@);
                if b < n {
                    assert(old(self).entries[a].0@ != old(self).entries[b].0@);
                } else {
                    assert(self.entries[b].0@ == pv);
                    assert(old(self).entries[a].0@ != pv);
                }
            }
            self.lemma_index_unique(pv, n);
            assert forall|q: Seq<char>|
                q != pv && old(self).contains_file(q) implies self.contains_file(q)
                && self.content_of(q) == old(self).content_of(q) by {
                let k = old(self).index_of(q);
                old(self).lemma_index_unique(q, k);
                assert(self.entries@[k].0@ == q);
                self.lemma_index_unique(q, k);
            }
            assert forall|q: Seq<char>|
                q != pv && self.contains_file(q) implies old(self).contains_file(q) by {
                let k = choose|k: int| 0 <= k < self.entries@.len() && self.entries@[k].0@ == q;
                assert(k != n);
                assert(old(self).entries@[k].0@ == q);
            }
        }
    }

    /// Whether a file with this path is in the snapshot.
    pub fn is_file(&self, p: &str) -> (r: bool)
        ensures
            r == self.contains_file(p@),
    {
        let mut i: usize = 0;
        while i < self.entries.len()
            invariant
                i <= self.entries.len(),
                forall|k: int| 0 <= k < i ==> self.entries[k].0@ != p@,
            decreases self.entries.len() - i,
        {
            if str_eq(self.entries[i].0.as_str(), p) {
                return true;
            }
            i = i + 1;
        }
        false
    }

    /// The content of the file with this path, if present.
    pub fn read(&self, p: &str) -> (r: Option<String>)
        requires
            self.wf(),
        ensures
            match r {
                Some(c) => self.contains_file(p@) && c@ == self.content_of(p@),
                None => !self.contains_file(p@),
            },
    {
        let mut i: usize = 0;
        while i < self.entries.len()
            invariant
                self.wf(),
                i <= self.entries.len(),
                forall|k: int| 0 <= k < i ==> self.entries[k].0@ != p@,
            decreases self.entries.len() - i,
        {
            if str_eq(self.entries[i].0.as_str(), p) {
                proof {
                    self.lemma_index_unique(p@, i as int);
                }
                return Some(self.entries[i].1.clone());
            }
            i = i + 1;
        }
        None
    }

    /// Whether this path is a directory: some file lies strictly under it.
    pub fn is_dir(&self, p: &str) -> (r: bool)
        ensures
            r == self.contains_dir(p@),
    {
        let mut prefix = str_to_chars(p);
        prefix.push('/');
        assert(prefix@ =~= p@ + seq!['/']);
        let mut i: usize = 0;
        while i < self.entries.len()
            invariant
                prefix@ == p@ + seq!['/'],
                i <= self.entries.len(),
                forall|k: int| 0 <= k < i ==> !is_prefix_of(p@ + seq!['/'], self.entries[k].0@),
            decreases self.entries.len() - i,
        {
            let entry_path = str_to_chars(self.entries[i].0.as_str());
            if chars_start_with(&entry_path, &prefix) {
                return true;
            }
            i = i + 1;
        }
        false
    }
}

} // verus!
