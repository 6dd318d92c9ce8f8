use vstd::prelude::*;
use vstd::multiset::Multiset;
use crate::error::StoreError;
use crate::schema::{Note, NoteView, note_views};
use crate::search::{contains_ci, contains_substring_ci};
use crate::strutil::str_eq;

verus! {

broadcast use vstd::seq_lib::group_to_multiset_ensures, vstd::multiset::group_multiset_axioms;

/// One row of the notes table: the record together with its soft-delete
/// flag. The flag sits in the schema for future soft-delete support;
/// the current delete path removes rows outright.
pub struct NoteRow {
    pub note: Note,
    pub is_deleted: bool,
}

/// The mathematical value of a [`NoteRow`].
pub ghost struct NoteRowView {
    pub note: NoteView,
    pub is_deleted: bool,
}

impl View for NoteRow {
    type V = NoteRowView;

    open spec fn view(&self) -> NoteRowView {
        NoteRowView { note: self.note@, is_deleted: self.is_deleted }
    }
}

/// The element-wise mathematical value of a sequence of rows.
pub open spec fn row_views(s: Seq<NoteRow>) -> Seq<NoteRowView> {
    s.map_values(|r: NoteRow| r@)
}

/// True when some row of `s` carries the id `id`.
pub open spec fn has_id(s: Seq<NoteRowView>, id: Seq<char>) -> bool {
    exists|i: int| 0 <= i < s.len() && s[i].note.id == id
}

/// True when some row of `s` carries the id `id` and is not soft-deleted.
pub open spec fn has_active(s: Seq<NoteRowView>, id: Seq<char>) -> bool {
    exists|i: int| 0 <= i < s.len() && s[i].note.id == id && !s[i].is_deleted
}

/// The index of the row of `s` carrying id `id`.
pub open spec fn row_idx(s: Seq<NoteRowView>, id: Seq<char>) -> int {
    choose|i: int| 0 <= i < s.len() && s[i].note.id == id
}

/// No two rows of `s` share an id.
pub open spec fn unique_ids(s: Seq<NoteRowView>) -> bool {
    forall|i: int, j: int| 0 <= i < j < s.len() ==> s[i].note.id != s[j].note.id
}

/// The records of the rows that are not soft-deleted, in table order.
pub open spec fn active_notes(s: Seq<NoteRowView>) -> Seq<NoteView> {
    s.filter(|r: NoteRowView| !r.is_deleted).map_values(|r: NoteRowView| r.note)
}

/// Whether `n` matches the search pattern `q`: its title or its body
/// contains `q` as a substring, ignoring ASCII case.
pub open spec fn note_matches(n: NoteView, q: Seq<char>) -> bool {
    contains_ci(n.title, q) || contains_ci(n.body, q)
}

/// The records of the active rows whose title or body matches `q`, in
/// table order.
pub open spec fn matching_notes(s: Seq<NoteRowView>, q: Seq<char>) -> Seq<NoteView> {
    s.filter(|r: NoteRowView| !r.is_deleted && note_matches(r.note, q)).map_values(
        |r: NoteRowView| r.note,
    )
}

/// The row `r` after an update from the record `n`: title, body and
/// `updated_at` are taken from `n`, while the id matches, `created_at`,
/// `file_path` and the delete flag stay what the row held.
pub open spec fn updated_row(r: NoteRowView, n: NoteView) -> NoteRowView {
    NoteRowView {
        note: NoteView {
            id: n.id,
            title: n.title,
            body: n.body,
            created_at: r.note.created_at,
            updated_at: n.updated_at,
            file_path: r.note.file_path,
        },
        is_deleted: r.is_deleted,
    }
}

/// Sorted by `updated_at`, most recently touched first.
pub open spec fn sorted_desc(s: Seq<NoteView>) -> bool {
    forall|i: int, j: int| 0 <= i <= j < s.len() ==> s[i].updated_at >= s[j].updated_at
}

/// Update preserves identity: an updated row keeps the `created_at`
/// and `file_path` of the record it replaces; and whenever the new
/// timestamp is later than the stored one, `updated_at` strictly
/// increases. (A clock reading at or before the stored timestamp is
/// written as it is, so only the conditional strict increase holds.)
pub proof fn lemma_update_preserves_identity(r: NoteRowView, n: NoteView)
    ensures
        updated_row(r, n).note.created_at == r.note.created_at,
        updated_row(r, n).note.file_path == r.note.file_path,
        updated_row(r, n).note.id == n.id,
        n.updated_at > r.note.updated_at ==> updated_row(r, n).note.updated_at
            > r.note.updated_at,
{
}

/// With unique ids, each row is the one and only witness for its own id.
pub proof fn lemma_row_lookup(s: Seq<NoteRowView>, i: int)
    requires
        unique_ids(s),
        0 <= i < s.len(),
    ensures
        has_id(s, s[i].note.id),
        row_idx(s, s[i].note.id) == i,
{
    assert(has_id(s, s[i].note.id));
    let j = row_idx(s, s[i].note.id);
    if i < j {
        assert(s[i].note.id != s[j].note.id);
    } else if j < i {
        assert(s[j].note.id != s[i].note.id);
    }
}

/// With unique ids, an active id resolves to one row, and that row is
/// not soft-deleted.
pub proof fn lemma_active_row(s: Seq<NoteRowView>, id: Seq<char>)
    requires
        unique_ids(s),
        has_active(s, id),
    ensures
        0 <= row_idx(s, id) < s.len(),
        s[row_idx(s, id)].note.id == id,
        !s[row_idx(s, id)].is_deleted,
{
    let j = choose|j: int| 0 <= j < s.len() && s[j].note.id == id && !s[j].is_deleted;
    lemma_row_lookup(s, j);
}

/// The element-wise view of a pushed sequence is the view pushed.
proof fn lemma_views_push(s: Seq<Note>, x: Note)
    ensures
        note_views(s.push(x)) == note_views(s).push(x@),
{
    assert(note_views(s.push(x)) =~= note_views(s).push(x@));
}

/// The element-wise view of a sequence with one element removed is the
/// view with the same element removed.
proof fn lemma_views_remove(s: Seq<Note>, i: int)
    requires
        0 <= i < s.len(),
    ensures
        note_views(s.remove(i)) == note_views(s).remove(i),
{
    assert(note_views(s.remove(i)) =~= note_views(s).remove(i));
}

/// Appending a row appends its record to the active projection when the
/// row is live, and leaves the projection alone when it is soft-deleted.
proof fn lemma_active_push(s: Seq<NoteRowView>, r: NoteRowView)
    ensures
        active_notes(s.push(r)) == if !r.is_deleted {
            active_notes(s).push(r.note)
        } else {
            active_notes(s)
        },
{
    reveal(Seq::filter);
    assert(s.push(r).drop_last() =~= s);
    assert(s.push(r).last() == r);
    let pred = |x: NoteRowView| !x.is_deleted;
    if !r.is_deleted {
        assert(s.push(r).filter(pred) == s.filter(pred).push(r));
        assert(s.filter(pred).push(r).map_values(|x: NoteRowView| x.note) =~= s.filter(
            pred,
        ).map_values(|x: NoteRowView| x.note).push(r.note));
    }
}

/// Appending a row appends its record to the search projection exactly
/// when the row is live and matches the pattern.
proof fn lemma_matching_push(s: Seq<NoteRowView>, r: NoteRowView, q: Seq<char>)
    ensures
        matching_notes(s.push(r), q) == if !r.is_deleted && note_matches(r.note, q) {
            matching_notes(s, q).push(r.note)
        } else {
            matching_notes(s, q)
        },
{
    reveal(Seq::filter);
    assert(s.push(r).drop_last() =~= s);
    assert(s.push(r).last() == r);
    let pred = |x: NoteRowView| !x.is_deleted && note_matches(x.note, q);
    if pred(r) {
        assert(s.push(r).filter(pred) == s.filter(pred).push(r));
        assert(s.filter(pred).push(r).map_values(|x: NoteRowView| x.note) =~= s.filter(
            pred,
        ).map_values(|x: NoteRowView| x.note).push(r.note));
    }
}

/// Sorts the collected records by `updated_at`, most recently touched
/// first, keeping exactly the records it was given.
fn sort_notes_desc(v: Vec<Note>) -> (r: Vec<Note>)
    ensures
        sorted_desc(note_views(r@)),
        note_views(r@).to_multiset() == note_views(v@).to_multiset(),
{
    let ghost orig = v@;
    let mut src = v;
    let mut out: Vec<Note> = Vec::new();
    proof {
        assert(note_views(out@) =~= Seq::<NoteView>::empty());
        let mo = note_views(out@).to_multiset();
        assert(mo =~= Multiset::<NoteView>::empty()) by {
            assert forall|e: NoteView| mo.count(e) == 0 by {
                assert(!note_views(out@).contains(e));
            }
        }
        assert(mo.add(note_views(src@).to_multiset()) =~= note_views(src@).to_multiset());
    }
    while src.len() > 0
        invariant
            note_views(out@).to_multiset().add(note_views(src@).to_multiset()) == note_views(
                orig,
            ).to_multiset(),
            sorted_desc(note_views(out@)),
            forall|a: int, b: int|
                0 <= a < out@.len() && 0 <= b < src@.len() ==> note_views(out@)[a].updated_at
                    >= note_views(src@)[b].updated_at,
        decreases src@.len(),
    {
        let mut mi: usize = 0;
        let mut k: usize = 1;
        while k < src.len()
            invariant
                src@.len() > 0,
                mi < k,
                k <= src@.len(),
                forall|j: int|
                    0 <= j < k ==> src@[mi as int]@.updated_at >= src@[j]@.updated_at,
            decreases src@.len() - k,
        {
            if src[k].updated_at > src[mi].updated_at {
                mi = k;
            }
            k += 1;
        }
        let ghost s0 = src@;
        let ghost out0 = out@;
        let n = src.remove(mi);
        proof {
            lemma_views_remove(s0, mi as int);
            lemma_views_push(out0, n);
        }
        out.push(n);
        proof {
            let x = n@;
            let ms0 = note_views(s0).to_multiset();
            let ms1 = note_views(src@).to_multiset();
            let mo0 = note_views(out0).to_multiset();
            let mo1 = note_views(out@).to_multiset();
            assert(note_views(s0)[mi as int] == x);
            assert(ms1 == ms0.remove(x));
            assert(mo1 == mo0.insert(x));
            assert(note_views(s0).contains(x));
            assert(ms0.count(x) > 0);
            assert(mo1.add(ms1) =~= mo0.add(ms0));
            assert forall|a: int, b: int|
                0 <= a < out@.len() && 0 <= b < src@.len() implies note_views(
                out@,
            )[a].updated_at >= note_views(src@)[b].updated_at by {
                assert(note_views(src@)[b] == if b < mi {
                    note_views(s0)[b]
                } else {
                    note_views(s0)[b + 1]
                });
                if a < out@.len() - 1 {
                    assert(note_views(out@)[a] == note_views(out0)[a]);
                } else {
                    assert(note_views(out@)[a] == x);
                }
            }
            assert(sorted_desc(note_views(out@))) by {
                assert forall|a: int, b: int|
                    0 <= a <= b < out@.len() implies note_views(out@)[a].updated_at
                    >= note_views(out@)[b].updated_at by {
                    if b < out@.len() - 1 {
                        assert(note_views(out@)[a] == note_views(out0)[a]);
                        assert(note_views(out@)[b] == note_views(out0)[b]);
                    } else if a < out@.len() - 1 {
                        assert(note_views(out@)[a] == note_views(out0)[a]);
                        assert(note_views(out@)[b] == x);
                        assert(note_views(s0)[mi as int] == x);
                    }
                }
            }
        }
    }
    proof {
        assert(note_views(src@) =~= Seq::<NoteView>::empty());
        let ms = note_views(src@).to_multiset();
        assert(ms =~= Multiset::<NoteView>::empty()) by {
            assert forall|e: NoteView| ms.count(e) == 0 by {
                assert(!note_views(src@).contains(e));
            }
        }
        assert(note_views(out@).to_multiset().add(ms) =~= note_views(out@).to_multiset());
        assert(orig == v@);
    }
    out
}

/// Handles CRUD and search over the notes table only.
pub struct NoteStorage {
    rows: Vec<NoteRow>,
}

impl View for NoteStorage {
    type V = Seq<NoteRowView>;

    closed spec fn view(&self) -> Seq<NoteRowView> {
        row_views(self.rows@)
    }
}

impl NoteStorage {
    /// No two rows share an id, so lookups by id are unambiguous.
    pub open spec fn wf(&self) -> bool {
        unique_ids(self@)
    }

    /// An empty notes table.
    pub fn new() -> (r: NoteStorage)
        ensures
            r.wf(),
            r@ == Seq::<NoteRowView>::empty(),
    {
        let r = NoteStorage { rows: Vec::new() };
        proof {
            assert(r@ =~= Seq::<NoteRowView>::empty());
        }
        r
    }

    /// The index of the row carrying `id`, if one does.
    fn find_idx(&self, id: &str) -> (r: Option<usize>)
        ensures
            match r {
                Some(i) => i < self@.len() && self@[i as int].note.id == id@,
                None => !has_id(self@, id@),
            },
    {
        let mut i: usize = 0;
        while i < self.rows.len()
            invariant
                i <= self@.len(),
                self@.len() == self.rows@.len(),
                forall|j: int| 0 <= j < i ==> self@[j].note.id != id@,
            decreases self.rows@.len() - i,
        {
            if str_eq(self.rows[i].note.id.as_str(), id) {
                return Some(i);
            }
            i += 1;
        }
        None
    }

    /// Inserts a new note row; fails with `Conflict` exactly when a row
    /// with the same id already exists. On success the new row is
    /// appended, not soft-deleted, and the note is handed back unchanged.
    pub fn create(&mut self, note: Note) -> (r: Result<Note, StoreError>)
        requires
            old(self).wf(),
        ensures
            final(self).wf(),
            match r {
                Ok(n) => !has_id(old(self)@, note@.id) && n@ == note@ && final(self)@ == old(
                    self,
                )@.push(NoteRowView { note: note@, is_deleted: false }),
                Err(e) => e == StoreError::Conflict && has_id(old(self)@, note@.id) && final(self)@
                    == old(self)@,
            },
    {
        match self.find_idx(note.id.as_str()) {
            Some(_) => Err(StoreError::Conflict),
            None => {
                let n = note.clone();
                let ghost s0 = self@;
                let ghost rv = NoteRowView { note: note@, is_deleted: false };
                self.rows.push(NoteRow { note, is_deleted: false });
                proof {
                    assert(self@ =~= s0.push(rv));
                    assert forall|i: int, j: int| 0 <= i < j < self@.len() implies self@[i].note.id
                        != self@[j].note.id by {
                        if j < self@.len() - 1 {
                            assert(self@[i] == s0[i] && self@[j] == s0[j]);
                        } else {
                            assert(self@[i] == s0[i]);
                            assert(has_id(s0, s0[i].note.id));
                        }
                    }
                }
                Ok(n)
            },
        }
    }

    /// Fetches the single active note with id `id`; fails with
    /// `NotFound` exactly when no row carries `id` or the row carrying
    /// it is soft-deleted.
    pub fn get(&self, id: &str) -> (r: Result<Note, StoreError>)
        requires
            self.wf(),
        ensures
            match r {
                Ok(n) => has_active(self@, id@) && n@ == self@[row_idx(self@, id@)].note,
                Err(e) => e == StoreError::NotFound && !has_active(self@, id@),
            },
    {
        match self.find_idx(id) {
            Some(i) => {
                proof {
                    lemma_row_lookup(self@, i as int);
                }
                if self.rows[i].is_deleted {
                    proof {
                        assert(!has_active(self@, id@)) by {
                            if has_active(self@, id@) {
                                let j = choose|j: int|
                                    0 <= j < self@.len() && self@[j].note.id == id@
                                        && !self@[j].is_deleted;
                                lemma_row_lookup(self@, j);
                            }
                        }
                    }
                    Err(StoreError::NotFound)
                } else {
                    Ok(self.rows[i].note.clone())
                }
            },
            None => Err(StoreError::NotFound),
        }
    }

    /// Lists all active notes, most recently touched first: the result
    /// holds exactly the records of the rows that are not soft-deleted,
    /// sorted by `updated_at` descending.
    pub fn list(&self) -> (r: Result<Vec<Note>, StoreError>)
        requires
            self.wf(),
        ensures
            match r {
                Ok(v) => sorted_desc(note_views(v@)) && note_views(v@).to_multiset()
                    == active_notes(self@).to_multiset(),
                Err(_) => false,
            },
    {
        let mut acc: Vec<Note> = Vec::new();
        let mut i: usize = 0;
        proof {
            assert(self@.take(0) =~= Seq::<NoteRowView>::empty());
            reveal(Seq::filter);
            assert(note_views(acc@) =~= active_notes(self@.take(0)));
        }
        while i < self.rows.len()
            invariant
                i <= self.rows@.len(),
                self@.len() == self.rows@.len(),
                note_views(acc@) == active_notes(self@.take(i as int)),
            decreases self.rows@.len() - i,
        {
            let ghost pre = self@.take(i as int);
            let ghost acc0 = acc@;
            proof {
                assert(self@.take(i + 1) =~= pre.push(self@[i as int]));
                lemma_active_push(pre, self@[i as int]);
            }
            if !self.rows[i].is_deleted {
                let n = self.rows[i].note.clone();
                proof {
                    lemma_views_push(acc0, n);
                    assert(self@[i as int].note == n@);
                }
                acc.push(n);
            }
            i += 1;
        }
        proof {
            assert(self@.take(self.rows@.len() as int) =~= self@);
        }
        Ok(sort_notes_desc(acc))
    }

    /// Searches the active notes for `query`: the result holds exactly
    /// the records of the rows that are not soft-deleted and whose title
    /// or body contains `query` as a substring (ignoring ASCII case),
    /// sorted by `updated_at` descending as `list` sorts.
    pub fn search(&self, query: &str) -> (r: Result<Vec<Note>, StoreError>)
        requires
            self.wf(),
        ensures
            match r {
                Ok(v) => sorted_desc(note_views(v@)) && note_views(v@).to_multiset()
                    == matching_notes(self@, query@).to_multiset(),
                Err(_) => false,
            },
    {
        let mut acc: Vec<Note> = Vec::new();
        let mut i: usize = 0;
        proof {
            assert(self@.take(0) =~= Seq::<NoteRowView>::empty());
            reveal(Seq::filter);
            assert(note_views(acc@) =~= matching_notes(self@.take(0), query@));
        }
        while i < self.rows.len()
            invariant
                i <= self.rows@.len(),
                self@.len() == self.rows@.len(),
                note_views(acc@) == matching_notes(self@.take(i as int), query@),
            decreases self.rows@.len() - i,
        {
            let ghost pre = self@.take(i as int);
            let ghost acc0 = acc@;
            proof {
                assert(self@.take(i + 1) =~= pre.push(self@[i as int]));
                lemma_matching_push(pre, self@[i as int], query@);
            }
            if !self.rows[i].is_deleted && (contains_substring_ci(
                self.rows[i].note.title.as_str(),
                query,
            ) || contains_substring_ci(self.rows[i].note.body.as_str(), query)) {
                let n = self.rows[i].note.clone();
                proof {
                    lemma_views_push(acc0, n);
                    assert(self@[i as int].note == n@);
                }
                acc.push(n);
            }
            i += 1;
        }
        proof {
            assert(self@.take(self.rows@.len() as int) =~= self@);
        }
        Ok(sort_notes_desc(acc))
    }

    /// Updates the title, body and `updated_at` of the row carrying the
    /// note's id, preserving its `created_at`, `file_path` and delete
    /// flag; a table without such a row is left unchanged, as the
    /// underlying `UPDATE ... WHERE id` would leave it. The note is
    /// handed back unchanged either way.
    pub fn update(&mut self, note: Note) -> (r: Result<Note, StoreError>)
        requires
            old(self).wf(),
        ensures
            final(self).wf(),
            match r {
                Ok(n) => n@ == note@ && if has_id(old(self)@, note@.id) {
                    final(self)@ == old(self)@.update(
                        row_idx(old(self)@, note@.id),
                        updated_row(old(self)@[row_idx(old(self)@, note@.id)], note@),
                    )
                } else {
                    final(self)@ == old(self)@
                },
                Err(_) => false,
            },
    {
        match self.find_idx(note.id.as_str()) {
            Some(i) => {
                proof {
                    lemma_row_lookup(self@, i as int);
                }
                let created = self.rows[i].note.created_at;
                let fp = self.rows[i].note.file_path.clone();
                let del = self.rows[i].is_deleted;
                let stored = Note {
                    id: note.id.clone(),
                    title: note.title.clone(),
                    body: note.body.clone(),
                    created_at: created,
                    updated_at: note.updated_at,
                    file_path: fp,
                };
                let ghost s0 = self@;
                let ghost rv = updated_row(s0[i as int], note@);
                self.rows.remove(i);
                self.rows.insert(i, NoteRow { note: stored, is_deleted: del });
                proof {
                    assert forall|k: int| 0 <= k < self@.len() implies self@[k] == (if k == i {
                        rv
                    } else {
                        s0[k]
                    }) by {
                        if k < i {
                            assert(self.rows@[k] == self.rows@.subrange(0, i as int)[k]);
                        }
                    }
                    assert(self@ =~= s0.update(i as int, rv));
                    assert forall|a: int, b: int| 0 <= a < b < self@.len() implies self@[a].note.id
                        != self@[b].note.id by {
                        assert(self@[a].note.id == s0[a].note.id);
                        assert(self@[b].note.id == s0[b].note.id);
                    }
                }
                Ok(note)
            },
            None => Ok(note),
        }
    }

    /// Hard-deletes the row carrying `id`, soft-deleted or not; a table
    /// without such a row is left unchanged, and either way the call
    /// succeeds, as the underlying `DELETE ... WHERE id` would.
    pub fn delete(&mut self, id: &str) -> (r: Result<(), StoreError>)
        requires
            old(self).wf(),
        ensures
            final(self).wf(),
            r is Ok,
            if has_id(old(self)@, id@) {
                final(self)@ == old(self)@.remove(row_idx(old(self)@, id@))
            } else {
                final(self)@ == old(self)@
            },
    {
        match self.find_idx(id) {
            Some(i) => {
                proof {
                    lemma_row_lookup(self@, i as int);
                }
                let ghost s0 = self@;
                self.rows.remove(i);
                proof {
                    assert(self@ =~= s0.remove(i as int));
                    assert forall|a: int, b: int| 0 <= a < b < self@.len() implies self@[a].note.id
                        != self@[b].note.id by {
                        let t = s0.remove(i as int);
                        assert(self@[a] == t[a] && self@[b] == t[b]);
                        assert(t[a] == if a < i {
                            s0[a]
                        } else {
                            s0[a + 1]
                        });
                        assert(t[b] == if b < i {
                            s0[b]
                        } else {
                            s0[b + 1]
                        });
                    }
                }
                Ok(())
            },
            None => Ok(()),
        }
    }
}

} // verus!
