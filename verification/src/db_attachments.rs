use vstd::prelude::*;
use crate::error::StoreError;
use crate::schema::{Attachment, AttachmentView, att_views};
use crate::strutil::str_eq;

verus! {

/// True when some attachment of `s` carries the id `id`.
pub open spec fn att_has_id(s: Seq<AttachmentView>, id: Seq<char>) -> bool {
    exists|i: int| 0 <= i < s.len() && s[i].id == id
}

/// No two attachments of `s` share an id.
pub open spec fn unique_att_ids(s: Seq<AttachmentView>) -> bool {
    forall|i: int, j: int| 0 <= i < j < s.len() ==> s[i].id != s[j].id
}

/// The attachments of `s` owned by the note `note_id`, in table order.
pub open spec fn atts_for(s: Seq<AttachmentView>, note_id: Seq<char>) -> Seq<AttachmentView> {
    s.filter(|a: AttachmentView| a.note_id == note_id)
}

/// The attachments of `s` not owned by the note `note_id`, in table order.
pub open spec fn atts_without(s: Seq<AttachmentView>, note_id: Seq<char>) -> Seq<AttachmentView> {
    s.filter(|a: AttachmentView| a.note_id != note_id)
}

/// Appending an attachment appends it to the per-note projection exactly
/// when it is owned by that note.
proof fn lemma_atts_for_push(s: Seq<AttachmentView>, a: AttachmentView, note_id: Seq<char>)
    ensures
        atts_for(s.push(a), note_id) == if a.note_id == note_id {
            atts_for(s, note_id).push(a)
        } else {
            atts_for(s, note_id)
        },
{
    reveal(Seq::filter);
    assert(s.push(a).drop_last() =~= s);
    assert(s.push(a).last() == a);
}

/// Appending an attachment appends it to the complement projection
/// exactly when it is owned by another note.
proof fn lemma_atts_without_push(s: Seq<AttachmentView>, a: AttachmentView, note_id: Seq<char>)
    ensures
        atts_without(s.push(a), note_id) == if a.note_id != note_id {
            atts_without(s, note_id).push(a)
        } else {
            atts_without(s, note_id)
        },
{
    reveal(Seq::filter);
    assert(s.push(a).drop_last() =~= s);
    assert(s.push(a).last() == a);
}

/// The element-wise view of a pushed sequence is the view pushed.
proof fn lemma_att_views_push(s: Seq<Attachment>, x: Attachment)
    ensures
        att_views(s.push(x)) == att_views(s).push(x@),
{
    assert(att_views(s.push(x)) =~= att_views(s).push(x@));
}

/// Manages attachment records only; each record points back at its
/// owning note through `note_id`.
pub struct AttachmentStorage {
    rows: Vec<Attachment>,
}

impl View for AttachmentStorage {
    type V = Seq<AttachmentView>;

    closed spec fn view(&self) -> Seq<AttachmentView> {
        att_views(self.rows@)
    }
}

impl AttachmentStorage {
    /// No two records share an id.
    pub open spec fn wf(&self) -> bool {
        unique_att_ids(self@)
    }

    /// An empty attachments table.
    pub fn new() -> (r: AttachmentStorage)
        ensures
            r.wf(),
            r@ == Seq::<AttachmentView>::empty(),
    {
        let r = AttachmentStorage { rows: Vec::new() };
        proof {
            assert(r@ =~= Seq::<AttachmentView>::empty());
        }
        r
    }

    /// Inserts a new attachment record; fails with `Conflict` exactly
    /// when a record with the same id already exists. The caller saves
    /// the blob to the content store itself.
    pub fn create(&mut self, attachment: Attachment) -> (r: Result<(), StoreError>)
        requires
            old(self).wf(),
        ensures
            final(self).wf(),
            match r {
                Ok(_) => !att_has_id(old(self)@, attachment@.id) && final(self)@ == old(
                    self,
                )@.push(attachment@),
                Err(e) => e == StoreError::Conflict && att_has_id(old(self)@, attachment@.id)
                    && final(self)@ == old(self)@,
            },
    {
        let mut i: usize = 0;
        while i < self.rows.len()
            invariant
                i <= self@.len(),
                *self == *old(self),
                old(self).wf(),
                self@.len() == self.rows@.len(),
                forall|j: int| 0 <= j < i ==> self@[j].id != attachment@.id,
            decreases self.rows@.len() - i,
        {
            if str_eq(self.rows[i].id.as_str(), attachment.id.as_str()) {
                proof {
                    assert(self@[i as int].id == attachment@.id);
                    assert(att_has_id(self@, attachment@.id));
                }
                return Err(StoreError::Conflict);
            }
            i += 1;
        }
        let ghost s0 = self@;
        proof {
            lemma_att_views_push(self.rows@, attachment);
        }
        self.rows.push(attachment);
        proof {
            assert forall|a: int, b: int| 0 <= a < b < self@.len() implies self@[a].id
                != self@[b].id by {
                if b < self@.len() - 1 {
                    assert(self@[a] == s0[a] && self@[b] == s0[b]);
                } else {
                    assert(self@[a] == s0[a]);
                }
            }
        }
        Ok(())
    }

    /// Lists all attachments owned by `note_id`, in table order.
    pub fn list_for_note(&self, note_id: &str) -> (r: Result<Vec<Attachment>, StoreError>)
        requires
            self.wf(),
        ensures
            match r {
                Ok(v) => att_views(v@) == atts_for(self@, note_id@),
                Err(_) => false,
            },
    {
        let mut acc: Vec<Attachment> = Vec::new();
        let mut i: usize = 0;
        proof {
            assert(self@.take(0) =~= Seq::<AttachmentView>::empty());
            reveal(Seq::filter);
            assert(att_views(acc@) =~= atts_for(self@.take(0), note_id@));
        }
        while i < self.rows.len()
            invariant
                i <= self@.len(),
                self@.len() == self.rows@.len(),
                att_views(acc@) == atts_for(self@.take(i as int), note_id@),
            decreases self.rows@.len() - i,
        {
            let ghost pre = self@.take(i as int);
            let ghost acc0 = acc@;
            proof {
                assert(self@.take(i + 1) =~= pre.push(self@[i as int]));
                lemma_atts_for_push(pre, self@[i as int], note_id@);
            }
            if str_eq(self.rows[i].note_id.as_str(), note_id) {
                let a = self.rows[i].clone();
                proof {
                    lemma_att_views_push(acc0, a);
                    assert(self@[i as int] == a@);
                }
                acc.push(a);
            }
            i += 1;
        }
        proof {
            assert(self@.take(self.rows@.len() as int) =~= self@);
        }
        Ok(acc)
    }

    /// Deletes every attachment record owned by `note_id`; records of
    /// other notes are kept in table order, and the call succeeds
    /// whether or not any record was owned by `note_id`. Invoked before
    /// the owning note's own delete, so no record is ever left pointing
    /// at a note that is gone.
    pub fn delete_for_note(&mut self, note_id: &str) -> (r: Result<(), StoreError>)
        requires
            old(self).wf(),
        ensures
            final(self).wf(),
            r is Ok,
            final(self)@ == atts_without(old(self)@, note_id@),
    {
        let ghost s0 = self@;
        let mut kept: Vec<Attachment> = Vec::new();
        let mut i: usize = 0;
        proof {
            assert(s0.take(0) =~= Seq::<AttachmentView>::empty());
            reveal(Seq::filter);
            assert(att_views(kept@) =~= atts_without(s0.take(0), note_id@));
        }
        while i < self.rows.len()
            invariant
                i <= self@.len(),
                self@ == s0,
                unique_att_ids(s0),
                self@.len() == self.rows@.len(),
                att_views(kept@) == atts_without(s0.take(i as int), note_id@),
            decreases self.rows@.len() - i,
        {
            let ghost pre = s0.take(i as int);
            let ghost kept0 = kept@;
            proof {
                assert(s0.take(i + 1) =~= pre.push(s0[i as int]));
                lemma_atts_without_push(pre, s0[i as int], note_id@);
            }
            if !str_eq(self.rows[i].note_id.as_str(), note_id) {
                let a = self.rows[i].clone();
                proof {
                    lemma_att_views_push(kept0, a);
                    assert(s0[i as int] == a@);
                }
                kept.push(a);
            }
            i += 1;
        }
        proof {
            assert(s0.take(self.rows@.len() as int) =~= s0);
        }
        let ghost kv = att_views(kept@);
        proof {
            assert forall|a: int, b: int| 0 <= a < b < kv.len() implies kv[a].id != kv[b].id by {
                lemma_atts_without_id_bound(s0, note_id@, a);
                lemma_atts_without_id_bound(s0, note_id@, b);
                let ja = choose|j: int| 0 <= j < s0.len() && s0[j] == kv[a];
                let jb = choose|j: int| 0 <= j < s0.len() && s0[j] == kv[b];
                if ja == jb {
                    assert(kv[a] == kv[b]);
                    lemma_atts_without_distinct(s0, note_id@, a, b);
                } else if ja < jb {
                    assert(s0[ja].id != s0[jb].id);
                } else {
                    assert(s0[jb].id != s0[ja].id);
                }
            }
        }
        self.rows = kept;
        Ok(())
    }
}

/// Cascade invariant: after a delete's cascade over the attachments
/// table, no record left in it references the deleted note's id.
pub proof fn lemma_cascade_no_reference(s: Seq<AttachmentView>, note_id: Seq<char>)
    ensures
        forall|i: int|
            0 <= i < atts_without(s, note_id).len() ==> atts_without(s, note_id)[i].note_id
                != note_id,
{
    broadcast use vstd::seq_lib::group_filter_ensures;

}

/// Two positions of the complement projection never hold the very same
/// record of the table when all table ids are distinct.
proof fn lemma_atts_without_distinct(
    s: Seq<AttachmentView>,
    note_id: Seq<char>,
    a: int,
    b: int,
)
    requires
        unique_att_ids(s),
        0 <= a < b < atts_without(s, note_id).len(),
    ensures
        atts_without(s, note_id)[a] != atts_without(s, note_id)[b],
    decreases s.len(),
{
    reveal(Seq::filter);
    if s.len() > 0 {
        let t = s.drop_last();
        let f = atts_without(s, note_id);
        let ft = atts_without(t, note_id);
        assert(unique_att_ids(t));
        if s.last().note_id != note_id {
            assert(f == ft.push(s.last()));
            if b < f.len() - 1 {
                lemma_atts_without_distinct(t, note_id, a, b);
            } else {
                assert(f[b] == s.last());
                lemma_atts_without_id_bound(t, note_id, a);
            }
        } else {
            assert(f == ft);
            lemma_atts_without_distinct(t, note_id, a, b);
        }
    }
}

/// Every record of the complement projection carries the id of some
/// table record.
proof fn lemma_atts_without_id_bound(s: Seq<AttachmentView>, note_id: Seq<char>, k: int)
    requires
        0 <= k < atts_without(s, note_id).len(),
    ensures
        exists|j: int| 0 <= j < s.len() && s[j] == atts_without(s, note_id)[k],
    decreases s.len(),
{
    reveal(Seq::filter);
    if s.len() > 0 {
        let t = s.drop_last();
        let f = atts_without(s, note_id);
        let ft = atts_without(t, note_id);
        if s.last().note_id != note_id && k == f.len() - 1 {
            assert(s[s.len() - 1] == f[k]);
        } else {
            lemma_atts_without_id_bound(t, note_id, k);
            let j = choose|j: int| 0 <= j < t.len() && t[j] == ft[k];
            assert(s[j] == f[k]);
        }
    }
}

} // verus!
