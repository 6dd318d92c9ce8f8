use vstd::prelude::*;
use crate::db_attachments::{atts_for, atts_without, AttachmentStorage};
use crate::db_notes::{
    active_notes, has_active, has_id, matching_notes, row_idx, sorted_desc, updated_row,
    NoteStorage,
};
use crate::error::StoreError;
use crate::schema::{att_views, note_views, Note, NoteWithAttachments};
use crate::strutil::str_concat;

verus! {

/// The facade over the two metadata tables: it joins note and
/// attachment records for compound reads and performs the explicit
/// cascade on delete, so that no attachment record ever outlives its
/// note.
pub struct DbStorage {
    /// The notes table.
    pub notes: NoteStorage,
    /// The attachments table.
    pub attachments: AttachmentStorage,
    /// The directory that holds the per-note attachment folders.
    pub attachments_dir: String,
}

impl DbStorage {
    /// Both tables are well-formed.
    pub open spec fn wf(&self) -> bool {
        self.notes.wf() && self.attachments.wf()
    }

    /// A fresh store rooted at `app_data_dir`; attachment blobs live
    /// under its `attachments` subdirectory.
    pub fn new(app_data_dir: String) -> (r: DbStorage)
        ensures
            r.wf(),
            r.notes@ == Seq::<crate::db_notes::NoteRowView>::empty(),
            r.attachments@ == Seq::<crate::schema::AttachmentView>::empty(),
            r.attachments_dir@ == app_data_dir@ + "/attachments"@,
    {
        let attachments_dir = str_concat(app_data_dir.as_str(), "/attachments");
        DbStorage { notes: NoteStorage::new(), attachments: AttachmentStorage::new(), attachments_dir }
    }

    /// Inserts a note row; fails with `Conflict` exactly when the id is
    /// already taken. Attachments are untouched.
    pub fn create_note(&mut self, note: Note) -> (r: Result<Note, StoreError>)
        requires
            old(self).wf(),
        ensures
            final(self).wf(),
            final(self).attachments@ == old(self).attachments@,
            final(self).attachments_dir@ == old(self).attachments_dir@,
            match r {
                Ok(n) => !has_id(old(self).notes@, note@.id) && n@ == note@ && final(self).notes@
                    == old(self).notes@.push(
                    crate::db_notes::NoteRowView { note: note@, is_deleted: false },
                ),
                Err(e) => e == StoreError::Conflict && has_id(old(self).notes@, note@.id)
                    && final(self).notes@ == old(self).notes@,
            },
    {
        self.notes.create(note)
    }

    /// Fetches the active note carrying `id` together with all of its
    /// attachments; fails with `NotFound` exactly when no active note
    /// carries `id`.
    pub fn get_note(&self, id: &str) -> (r: Result<NoteWithAttachments, StoreError>)
        requires
            self.wf(),
        ensures
            match r {
                Ok(nwa) => has_active(self.notes@, id@) && nwa.note@ == self.notes@[row_idx(
                    self.notes@,
                    id@,
                )].note && att_views(nwa.attachments@) == atts_for(self.attachments@, id@),
                Err(e) => e == StoreError::NotFound && !has_active(self.notes@, id@),
            },
    {
        let note = match self.notes.get(id) {
            Ok(n) => n,
            Err(e) => {
                return Err(e);
            },
        };
        let attachments = match self.attachments.list_for_note(id) {
            Ok(v) => v,
            Err(e) => {
                return Err(e);
            },
        };
        Ok(NoteWithAttachments { note, attachments })
    }

    /// Lists all active notes, most recently touched first.
    pub fn list_notes(&self) -> (r: Result<Vec<Note>, StoreError>)
        requires
            self.wf(),
        ensures
            match r {
                Ok(v) => sorted_desc(note_views(v@)) && note_views(v@).to_multiset()
                    == active_notes(self.notes@).to_multiset(),
                Err(_) => false,
            },
    {
        self.notes.list()
    }

    /// Updates title, body and `updated_at` of the row carrying the
    /// note's id, preserving `created_at`, `file_path` and the delete
    /// flag; a store without that id is left unchanged.
    pub fn update_note(&mut self, note: Note) -> (r: Result<Note, StoreError>)
        requires
            old(self).wf(),
        ensures
            final(self).wf(),
            final(self).attachments@ == old(self).attachments@,
            final(self).attachments_dir@ == old(self).attachments_dir@,
            match r {
                Ok(n) => n@ == note@ && if has_id(old(self).notes@, note@.id) {
                    final(self).notes@ == old(self).notes@.update(
                        row_idx(old(self).notes@, note@.id),
                        updated_row(old(self).notes@[row_idx(old(self).notes@, note@.id)], note@),
                    )
                } else {
                    final(self).notes@ == old(self).notes@
                },
                Err(_) => false,
            },
    {
        self.notes.update(note)
    }

    /// Hard-deletes the note row carrying `id` and, first, every
    /// attachment record it owns: the cascade is explicit here, over and
    /// above any cascade the underlying schema would perform. The
    /// caller is responsible for having disposed of the content files.
    pub fn delete_note(&mut self, id: &str) -> (r: Result<(), StoreError>)
        requires
            old(self).wf(),
        ensures
            final(self).wf(),
            r is Ok,
            final(self).attachments_dir@ == old(self).attachments_dir@,
            final(self).attachments@ == atts_without(old(self).attachments@, id@),
            if has_id(old(self).notes@, id@) {
                final(self).notes@ == old(self).notes@.remove(row_idx(old(self).notes@, id@))
            } else {
                final(self).notes@ == old(self).notes@
            },
    {
        let _ = self.attachments.delete_for_note(id);
        self.notes.delete(id)
    }

    /// Searches the active notes for `query` in title or body,
    /// case-insensitively, most recently touched first.
    pub fn search_notes(&self, query: &str) -> (r: Result<Vec<Note>, StoreError>)
        requires
            self.wf(),
        ensures
            match r {
                Ok(v) => sorted_desc(note_views(v@)) && note_views(v@).to_multiset()
                    == matching_notes(self.notes@, query@).to_multiset(),
                Err(_) => false,
            },
    {
        self.notes.search(query)
    }
}

} // verus!
