use vstd::prelude::*;
use vstd::string::*;
use crate::error::StoreError;
use crate::strutil::str_eq;

verus! {

/// One file of the content store: a path and the text stored at it.
pub struct ContentEntry {
    pub path: String,
    pub data: String,
}

/// The filesystem as the storage logic sees it: a finite map from full
/// path to file content. The directory tree only ever changes through
/// the write / remove / rename primitives below, so every disposal
/// decision of the library is proved against this map.
pub struct ContentStore {
    entries: Vec<ContentEntry>,
}

/// True when some entry of `s` carries the path `p`.
pub open spec fn has_path(s: Seq<ContentEntry>, p: Seq<char>) -> bool {
    exists|i: int| 0 <= i < s.len() && s[i].path@ == p
}

/// The index of the entry of `s` carrying path `p`.
pub open spec fn idx_of(s: Seq<ContentEntry>, p: Seq<char>) -> int {
    choose|i: int| 0 <= i < s.len() && s[i].path@ == p
}

/// No two entries of `s` share a path.
pub open spec fn unique_paths(s: Seq<ContentEntry>) -> bool {
    forall|i: int, j: int| 0 <= i < j < s.len() ==> s[i].path@ != s[j].path@
}

/// The map held by a sequence of entries with pairwise distinct paths.
pub open spec fn entries_as_map(s: Seq<ContentEntry>) -> Map<Seq<char>, Seq<char>> {
    Map::new(|p: Seq<char>| has_path(s, p), |p: Seq<char>| s[idx_of(s, p)].data@)
}

/// With distinct paths, each entry is the one and only witness for its
/// own path, so the map reads back exactly that entry's data.
proof fn lemma_entry_lookup(s: Seq<ContentEntry>, i: int)
    requires
        unique_paths(s),
        0 <= i < s.len(),
    ensures
        has_path(s, s[i].path@),
        idx_of(s, s[i].path@) == i,
        entries_as_map(s).contains_key(s[i].path@),
        entries_as_map(s)[s[i].path@] == s[i].data@,
{
    assert(has_path(s, s[i].path@));
    let j = idx_of(s, s[i].path@);
    if i < j {
        assert(s[i].path@ != s[j].path@);
    } else if j < i {
        assert(s[j].path@ != s[i].path@);
    }
}

/// Removing the entry at `i` removes exactly its path from the map.
proof fn lemma_remove_entry(s: Seq<ContentEntry>, i: int)
    requires
        unique_paths(s),
        0 <= i < s.len(),
    ensures
        unique_paths(s.remove(i)),
        !has_path(s.remove(i), s[i].path@),
        entries_as_map(s.remove(i)) == entries_as_map(s).remove(s[i].path@),
{
    let t = s.remove(i);
    let p = s[i].path@;
    assert forall|k: int| 0 <= k < t.len() implies t[k] == (if k < i {
        s[k]
    } else {
        s[k + 1]
    }) by {}
    assert forall|q: Seq<char>| has_path(t, q) implies has_path(s, q) && q != p by {
        let k = choose|k: int| 0 <= k < t.len() && t[k].path@ == q;
        if k < i {
            assert(s[k].path@ == q);
        } else {
            assert(s[k + 1].path@ == q);
        }
    }
    assert forall|q: Seq<char>| has_path(s, q) && q != p implies has_path(t, q) by {
        let m = choose|m: int| 0 <= m < s.len() && s[m].path@ == q;
        if m < i {
            assert(t[m].path@ == q);
        } else {
            assert(m > i);
            assert(t[m - 1].path@ == q);
        }
    }
    assert forall|q: Seq<char>| #![auto] has_path(t, q) implies entries_as_map(t)[q]
        == entries_as_map(s)[q] by {
        let k = idx_of(t, q);
        lemma_entry_lookup(t, k);
        if k < i {
            lemma_entry_lookup(s, k);
        } else {
            lemma_entry_lookup(s, k + 1);
        }
    }
    assert(entries_as_map(t) =~= entries_as_map(s).remove(p));
}

/// Appending an entry with a fresh path inserts exactly that binding.
proof fn lemma_push_entry(s: Seq<ContentEntry>, e: ContentEntry)
    requires
        unique_paths(s),
        !has_path(s, e.path@),
    ensures
        unique_paths(s.push(e)),
        entries_as_map(s.push(e)) == entries_as_map(s).insert(e.path@, e.data@),
{
    let t = s.push(e);
    assert forall|i: int, j: int| 0 <= i < j < t.len() implies t[i].path@ != t[j].path@ by {
        if j < t.len() - 1 {
            assert(t[i] == s[i] && t[j] == s[j]);
        } else {
            assert(t[i] == s[i]);
            assert(t[j] == e);
        }
    }
    assert forall|q: Seq<char>| has_path(t, q) && q != e.path@ implies has_path(s, q) by {
        let k = choose|k: int| 0 <= k < t.len() && t[k].path@ == q;
        assert(k < t.len() - 1);
        assert(s[k].path@ == q);
    }
    assert forall|q: Seq<char>| has_path(s, q) implies has_path(t, q) by {
        let k = choose|k: int| 0 <= k < s.len() && s[k].path@ == q;
        assert(t[k].path@ == q);
    }
    assert(t[t.len() - 1] == e);
    assert(has_path(t, e.path@));
    assert forall|q: Seq<char>| #![auto] has_path(t, q) implies entries_as_map(t)[q]
        == entries_as_map(s).insert(e.path@, e.data@)[q] by {
        let k = idx_of(t, q);
        lemma_entry_lookup(t, k);
        if q == e.path@ {
            lemma_entry_lookup(t, t.len() - 1);
        } else {
            assert(k < t.len() - 1);
            assert(t[k] == s[k]);
            lemma_entry_lookup(s, k);
        }
    }
    assert(entries_as_map(t) =~= entries_as_map(s).insert(e.path@, e.data@));
}

impl View for ContentStore {
    type V = Map<Seq<char>, Seq<char>>;

    closed spec fn view(&self) -> Map<Seq<char>, Seq<char>> {
        entries_as_map(self.entries@)
    }
}

impl ContentStore {
    /// No two entries share a path, so the map view is faithful.
    pub closed spec fn wf(&self) -> bool {
        unique_paths(self.entries@)
    }

    /// An empty content store.
    pub fn new() -> (r: ContentStore)
        ensures
            r.wf(),
            r@ == Map::<Seq<char>, Seq<char>>::empty(),
    {
        let r = ContentStore { entries: Vec::new() };
        proof {
            assert(r@ =~= Map::<Seq<char>, Seq<char>>::empty());
        }
        r
    }

    /// The index of the entry holding `path`, if one does.
    fn find(&self, path: &str) -> (r: Option<usize>)
        ensures
            match r {
                Some(i) => i < self.entries@.len() && self.entries@[i as int].path@ == path@,
                None => !has_path(self.entries@, path@),
            },
    {
        let mut i: usize = 0;
        while i < self.entries.len()
            invariant
                i <= self.entries@.len(),
                forall|j: int| 0 <= j < i ==> self.entries@[j].path@ != path@,
            decreases self.entries@.len() - i,
        {
            if str_eq(self.entries[i].path.as_str(), path) {
                return Some(i);
            }
            i += 1;
        }
        None
    }

    /// Whether a file is present at `path`.
    pub fn contains(&self, path: &str) -> (r: bool)
        requires
            self.wf(),
        ensures
            r == self@.contains_key(path@),
    {
        match self.find(path) {
            Some(i) => {
                proof {
                    lemma_entry_lookup(self.entries@, i as int);
                }
                true
            },
            None => false,
        }
    }

    /// Reads the content stored at `path`; fails with `NotFound` exactly
    /// when no file is there.
    pub fn read(&self, path: &str) -> (r: Result<String, StoreError>)
        requires
            self.wf(),
        ensures
            match r {
                Ok(d) => self@.contains_key(path@) && d@ == self@[path@],
                Err(e) => e == StoreError::NotFound && !self@.contains_key(path@),
            },
    {
        match self.find(path) {
            Some(i) => {
                proof {
                    lemma_entry_lookup(self.entries@, i as int);
                }
                Ok(self.entries[i].data.clone())
            },
            None => Err(StoreError::NotFound),
        }
    }

    /// Writes `data` at `path`, creating the file or overwriting what was
    /// there. Parent directories are considered part of the path, so the
    /// model needs no separate directory bookkeeping.
    pub fn write(&mut self, path: &str, data: &str)
        requires
            old(self).wf(),
        ensures
            final(self).wf(),
            final(self)@ == old(self)@.insert(path@, data@),
    {
        let ghost s0 = self.entries@;
        match self.find(path) {
            Some(i) => {
                proof {
                    lemma_entry_lookup(s0, i as int);
                    lemma_remove_entry(s0, i as int);
                }
                self.entries.remove(i);
            },
            None => {
                proof {
                    assert(old(self)@.remove(path@) =~= old(self)@);
                }
            },
        }
        let ghost s1 = self.entries@;
        assert(unique_paths(s1) && !has_path(s1, path@));
        assert(entries_as_map(s1) == old(self)@.remove(path@));
        let e = ContentEntry { path: String::from_str(path), data: String::from_str(data) };
        proof {
            lemma_push_entry(s1, e);
            assert(old(self)@.remove(path@).insert(path@, data@) =~= old(self)@.insert(
                path@,
                data@,
            ));
        }
        self.entries.push(e);
    }

    /// Removes the file at `path`. Disposal is idempotent by design: a
    /// path that is already absent is treated as success, so the call
    /// never fails.
    pub fn remove(&mut self, path: &str) -> (r: Result<(), StoreError>)
        requires
            old(self).wf(),
        ensures
            final(self).wf(),
            r is Ok,
            final(self)@ == old(self)@.remove(path@),
    {
        match self.find(path) {
            Some(i) => {
                proof {
                    lemma_entry_lookup(self.entries@, i as int);
                    lemma_remove_entry(self.entries@, i as int);
                }
                self.entries.remove(i);
            },
            None => {
                proof {
                    assert(old(self)@.remove(path@) =~= old(self)@);
                }
            },
        }
        Ok(())
    }

    /// Renames the file at `from` to the full path `to`. Refuses with
    /// `IoFailure` when a different file already sits at `to`, rather
    /// than silently overwriting it.
    pub fn rename(&mut self, from: &str, to: &str) -> (r: Result<(), StoreError>)
        requires
            old(self).wf(),
            old(self)@.contains_key(from@),
        ensures
            final(self).wf(),
            match r {
                Ok(_) => !(old(self)@.contains_key(to@) && to@ != from@) && final(self)@ == old(
                    self,
                )@.remove(from@).insert(to@, old(self)@[from@]),
                Err(e) => e == StoreError::IoFailure && old(self)@.contains_key(to@) && to@
                    != from@ && final(self)@ == old(self)@,
            },
    {
        if self.contains(to) && !str_eq(from, to) {
            return Err(StoreError::IoFailure);
        }
        let ghost s0 = self.entries@;
        match self.find(from) {
            Some(i) => {
                proof {
                    lemma_entry_lookup(s0, i as int);
                    lemma_remove_entry(s0, i as int);
                }
                let e = self.entries.remove(i);
                let ghost s1 = self.entries@;
                proof {
                    assert(!has_path(s1, to@)) by {
                        if to@ != from@ {
                            if has_path(s1, to@) {
                                let k = choose|k: int| 0 <= k < s1.len() && s1[k].path@ == to@;
                                assert(entries_as_map(s1).contains_key(to@)) by {
                                    lemma_entry_lookup(s1, k);
                                }
                            }
                        }
                    }
                }
                let e2 = ContentEntry { path: String::from_str(to), data: e.data };
                proof {
                    lemma_push_entry(s1, e2);
                }
                self.entries.push(e2);
                Ok(())
            },
            None => {
                proof {
                    let k = idx_of(s0, from@);
                    lemma_entry_lookup(s0, k);
                    assert(false);
                }
                Err(StoreError::Internal)
            },
        }
    }
}

/// The base name of a path: the characters after the last separator,
/// the whole path when it has none, and empty for a path that ends in
/// a separator.
pub open spec fn basename(p: Seq<char>) -> Seq<char>
    decreases p.len(),
{
    if p.len() == 0 {
        p
    } else if p.last() == '/' {
        Seq::empty()
    } else {
        basename(p.drop_last()).push(p.last())
    }
}

/// A suffix that starts right after a separator (or at the start of a
/// path without one) and holds no separator is the base name.
proof fn lemma_basename_suffix(p: Seq<char>, c: int)
    requires
        0 <= c <= p.len(),
        c > 0 ==> p[c - 1] == '/',
        forall|j: int| c <= j < p.len() ==> p[j] != '/',
    ensures
        basename(p) == p.subrange(c, p.len() as int),
    decreases p.len(),
{
    if p.len() == c {
        if c == 0 {
            assert(basename(p) =~= p.subrange(c, p.len() as int));
        } else {
            assert(p.last() == '/');
            assert(basename(p) =~= p.subrange(c, p.len() as int));
        }
    } else {
        assert(p[p.len() - 1] != '/');
        lemma_basename_suffix(p.drop_last(), c);
        assert(p.drop_last().subrange(c, p.len() - 1) =~= p.subrange(c, p.len() - 1));
        assert(basename(p) =~= p.subrange(c, p.len() as int));
    }
}

/// The base name of a path, for archiving a file under the trash root
/// without losing what it was called.
pub fn base_name(p: &str) -> (r: String)
    ensures
        r@ == basename(p@),
{
    let n = p.unicode_len();
    let mut cut: usize = 0;
    let mut k: usize = 0;
    while k < n
        invariant
            k <= n,
            cut <= k,
            n == p@.len(),
            cut > 0 ==> p@[cut - 1] == '/',
            forall|j: int| cut <= j < k ==> p@[j] != '/',
        decreases n - k,
    {
        if p.get_char(k) == '/' {
            cut = k + 1;
        }
        k += 1;
    }
    let tail = p.substring_char(cut, n);
    proof {
        lemma_basename_suffix(p@, cut as int);
    }
    String::from_str(tail)
}

/// Disposal is idempotent: removing a path leaves a map from which
/// removing the same path again changes nothing.
pub proof fn lemma_remove_idempotent(m: Map<Seq<char>, Seq<char>>, p: Seq<char>)
    ensures
        m.remove(p).remove(p) == m.remove(p),
{
    assert(m.remove(p).remove(p) =~= m.remove(p));
}

} // verus!
