use vstd::prelude::*;
use crate::content::ContentStore;
use crate::db_attachments::{atts_for, atts_without};
use crate::db_notes::{
    active_notes, has_active, has_id, matching_notes, row_idx, sorted_desc, unique_ids,
    NoteRowView,
};
use crate::db_storage::DbStorage;
use crate::delete_service::DeleteService;
use crate::error::StoreError;
use crate::note_files::{note_path_spec, NoteFileStore};
use crate::permanent_delete::remove_paths;
use crate::schema::{note_views, AttachmentView, Note, NoteView, NoteWithAttachments,
    NoteWithAttachmentsView};
use crate::settings::{DeleteBehavior, Settings};
use crate::time::{now_timestamp, today, DateStamp};
use crate::trash_manager::{all_paths, trash_dir_spec, trash_fold};

verus! {

/// A character of a generated note id: a lower-case hexadecimal digit
/// or a hyphen.
pub open spec fn is_id_char(c: char) -> bool {
    c == '-' || (48 <= c as u32 && c as u32 <= 57) || (97 <= c as u32 && c as u32 <= 102)
}

/// Relies on `uuid::Uuid::new_v4` and its `Display` impl: a fresh
/// random identity rendered in the hyphenated form, 36 characters of
/// lower-case hexadecimal digits and hyphens. The value is random;
/// nothing else is promised of it.
#[verifier::external_body]
fn new_note_id() -> (r: String)
    ensures
        r@.len() == 36,
        forall|i: int| 0 <= i < r@.len() ==> is_id_char(#[trigger] r@[i]),
{
    uuid::Uuid::new_v4().to_string()
}

/// The timestamp an update writes: the clock reading, raised to the
/// record's `created_at` where a regressed clock would undercut it, so
/// a stored record always satisfies `updated_at >= created_at`.
pub open spec fn update_stamp(now: int, created: int) -> int {
    if now >= created {
        now
    } else {
        created
    }
}

/// The note-with-attachments view that a fetch of `id` assembles from
/// the two tables.
pub open spec fn fetched_view(
    notes: Seq<NoteRowView>,
    atts: Seq<AttachmentView>,
    id: Seq<char>,
) -> NoteWithAttachmentsView {
    NoteWithAttachmentsView {
        note: notes[row_idx(notes, id)].note,
        attachments: atts_for(atts, id),
    }
}

/// High-level note operations: the single entry point external callers
/// use. Each operation runs the metadata store and the content store in
/// the order that biases partial failure toward recoverable states —
/// metadata first on create, content disposal first on delete.
pub struct NoteService {
    /// The joined metadata store.
    pub storage: DbStorage,
    /// The configuration the operations run under.
    pub settings: Settings,
}

impl NoteService {
    /// The underlying tables are well-formed.
    pub open spec fn wf(&self) -> bool {
        self.storage.wf()
    }

    /// A coordinator over the given store and settings.
    pub fn new(storage: DbStorage, settings: Settings) -> (r: NoteService)
        ensures
            r.storage == storage,
            r.settings == settings,
    {
        NoteService { storage, settings }
    }

    /// Creates a note from the given identity and timestamp: the
    /// metadata row is inserted first (so a concurrent read never sees
    /// a file without a record), then the body is written at the note's
    /// path. Fails with `Conflict` exactly when the id is taken, and
    /// then touches nothing.
    pub fn create_with(
        &mut self,
        id: String,
        now: i64,
        title: String,
        body: String,
        content: &mut ContentStore,
    ) -> (r: Result<Note, StoreError>)
        requires
            old(self).wf(),
            old(content).wf(),
        ensures
            final(self).wf(),
            final(content).wf(),
            final(self).settings == old(self).settings,
            final(self).storage.attachments@ == old(self).storage.attachments@,
            match r {
                Ok(n) => {
                    &&& !has_id(old(self).storage.notes@, id@)
                    &&& n@ == (NoteView {
                        id: id@,
                        title: title@,
                        body: body@,
                        created_at: now as int,
                        updated_at: now as int,
                        file_path: note_path_spec(old(self).settings.notes_folder@, id@),
                    })
                    &&& final(self).storage.notes@ == old(self).storage.notes@.push(
                        NoteRowView { note: n@, is_deleted: false },
                    )
                    &&& final(content)@ == old(content)@.insert(n@.file_path, body@)
                },
                Err(e) => {
                    &&& e == StoreError::Conflict
                    &&& has_id(old(self).storage.notes@, id@)
                    &&& final(self).storage.notes@ == old(self).storage.notes@
                    &&& final(content)@ == old(content)@
                },
            },
    {
        let file_store = NoteFileStore::new(self.settings.notes_folder.clone());
        let file_path = file_store.path_for_id(id.as_str());
        let note = Note {
            id,
            title,
            body: body.clone(),
            created_at: now,
            updated_at: now,
            file_path,
        };
        match self.storage.create_note(note) {
            Ok(created) => {
                file_store.write_note_file(created.file_path.as_str(), body.as_str(), content);
                Ok(created)
            },
            Err(e) => Err(e),
        }
    }

    /// Creates a new note with a fresh random identity and the clock's
    /// timestamp. Whatever the identity source hands back, the new
    /// note's id was not in the store before, its title and body are
    /// the given ones, its two timestamps agree, and its file holds the
    /// body. `Conflict` can only mean the random identity collided, so
    /// it is owed a witness: some stored id already has the generated
    /// 36-character shape — on a store without one, the empty store
    /// above all, creation always succeeds.
    pub fn create(&mut self, title: String, body: String, content: &mut ContentStore) -> (r:
        Result<Note, StoreError>)
        requires
            old(self).wf(),
            old(content).wf(),
        ensures
            final(self).wf(),
            final(content).wf(),
            final(self).settings == old(self).settings,
            final(self).storage.attachments@ == old(self).storage.attachments@,
            match r {
                Ok(n) => {
                    &&& n@.title == title@
                    &&& n@.body == body@
                    &&& n@.created_at == n@.updated_at
                    &&& n@.id.len() == 36
                    &&& n@.file_path == note_path_spec(old(self).settings.notes_folder@, n@.id)
                    &&& !has_id(old(self).storage.notes@, n@.id)
                    &&& final(self).storage.notes@ == old(self).storage.notes@.push(
                        NoteRowView { note: n@, is_deleted: false },
                    )
                    &&& final(content)@ == old(content)@.insert(n@.file_path, body@)
                },
                Err(e) => {
                    &&& e == StoreError::Conflict
                    &&& exists|i: int|
                        0 <= i < old(self).storage.notes@.len() && (#[trigger] old(
                            self,
                        ).storage.notes@[i]).note.id.len() == 36
                    &&& final(self).storage.notes@ == old(self).storage.notes@
                    &&& final(content)@ == old(content)@
                },
            },
    {
        let id = new_note_id();
        let ghost gid = id@;
        let now = now_timestamp();
        let r = self.create_with(id, now, title, body, content);
        proof {
            if r is Err {
                let i = choose|i: int|
                    0 <= i < old(self).storage.notes@.len() && old(self).storage.notes@[i].note.id
                        == gid;
                assert(old(self).storage.notes@[i].note.id.len() == 36);
            }
        }
        r
    }

    /// Updates an existing note from the given timestamp: the record is
    /// fetched (failing with `NotFound` exactly when no active note
    /// carries `id`), title, body and `updated_at` are replaced while
    /// `id`, `created_at` and `file_path` are preserved, the row is
    /// written back, and the body overwrites the content file at the
    /// unchanged path. The written timestamp is `update_stamp` of the
    /// reading, so the record keeps `updated_at >= created_at` even
    /// under a regressed clock.
    pub fn update_with(
        &mut self,
        id: String,
        now: i64,
        title: String,
        body: String,
        content: &mut ContentStore,
    ) -> (r: Result<Note, StoreError>)
        requires
            old(self).wf(),
            old(content).wf(),
        ensures
            final(self).wf(),
            final(content).wf(),
            final(self).settings == old(self).settings,
            final(self).storage.attachments@ == old(self).storage.attachments@,
            match r {
                Ok(n) => {
                    &&& has_active(old(self).storage.notes@, id@)
                    &&& n@ == (NoteView {
                        id: id@,
                        title: title@,
                        body: body@,
                        created_at: old(self).storage.notes@[row_idx(
                            old(self).storage.notes@,
                            id@,
                        )].note.created_at,
                        updated_at: update_stamp(
                            now as int,
                            old(self).storage.notes@[row_idx(
                                old(self).storage.notes@,
                                id@,
                            )].note.created_at,
                        ),
                        file_path: old(self).storage.notes@[row_idx(
                            old(self).storage.notes@,
                            id@,
                        )].note.file_path,
                    })
                    &&& n@.updated_at >= n@.created_at
                    &&& final(self).storage.notes@ == old(self).storage.notes@.update(
                        row_idx(old(self).storage.notes@, id@),
                        NoteRowView { note: n@, is_deleted: false },
                    )
                    &&& final(content)@ == old(content)@.insert(n@.file_path, body@)
                },
                Err(e) => {
                    &&& e == StoreError::NotFound
                    &&& !has_active(old(self).storage.notes@, id@)
                    &&& final(self).storage.notes@ == old(self).storage.notes@
                    &&& final(content)@ == old(content)@
                },
            },
    {
        let existing = match self.storage.get_note(id.as_str()) {
            Ok(nwa) => nwa.note,
            Err(e) => {
                return Err(e);
            },
        };
        proof {
            crate::db_notes::lemma_active_row(self.storage.notes@, id@);
        }
        let ts = if now < existing.created_at {
            existing.created_at
        } else {
            now
        };
        let note_arg = Note {
            id: existing.id,
            title,
            body: body.clone(),
            created_at: existing.created_at,
            updated_at: ts,
            file_path: existing.file_path,
        };
        let updated = match self.storage.update_note(note_arg) {
            Ok(n) => n,
            Err(_) => {
                return Err(StoreError::Internal);
            },
        };
        content.write(updated.file_path.as_str(), body.as_str());
        Ok(updated)
    }

    /// Updates an existing note at the clock's timestamp: `id`,
    /// `created_at` and `file_path` are preserved from the stored
    /// record whatever the clock says, the written `updated_at` never
    /// falls below `created_at`, and the content file at the unchanged
    /// path holds the new body.
    pub fn update(&mut self, id: String, title: String, body: String, content: &mut ContentStore)
        -> (r: Result<Note, StoreError>)
        requires
            old(self).wf(),
            old(content).wf(),
        ensures
            final(self).wf(),
            final(content).wf(),
            final(self).settings == old(self).settings,
            final(self).storage.attachments@ == old(self).storage.attachments@,
            match r {
                Ok(n) => {
                    &&& has_active(old(self).storage.notes@, id@)
                    &&& n@.id == id@
                    &&& n@.title == title@
                    &&& n@.body == body@
                    &&& n@.updated_at >= n@.created_at
                    &&& n@.created_at == old(self).storage.notes@[row_idx(
                        old(self).storage.notes@,
                        id@,
                    )].note.created_at
                    &&& n@.file_path == old(self).storage.notes@[row_idx(
                        old(self).storage.notes@,
                        id@,
                    )].note.file_path
                    &&& final(self).storage.notes@ == old(self).storage.notes@.update(
                        row_idx(old(self).storage.notes@, id@),
                        NoteRowView { note: n@, is_deleted: false },
                    )
                    &&& final(content)@ == old(content)@.insert(n@.file_path, body@)
                },
                Err(e) => {
                    &&& e == StoreError::NotFound
                    &&& !has_active(old(self).storage.notes@, id@)
                    &&& final(self).storage.notes@ == old(self).storage.notes@
                    &&& final(content)@ == old(content)@
                },
            },
    {
        let now = now_timestamp();
        self.update_with(id, now, title, body, content)
    }

    /// Fetches a note together with its attachments.
    pub fn get(&self, id: String) -> (r: Result<NoteWithAttachments, StoreError>)
        requires
            self.wf(),
        ensures
            match r {
                Ok(nwa) => has_active(self.storage.notes@, id@) && nwa@ == fetched_view(
                    self.storage.notes@,
                    self.storage.attachments@,
                    id@,
                ),
                Err(e) => e == StoreError::NotFound && !has_active(self.storage.notes@, id@),
            },
    {
        self.storage.get_note(id.as_str())
    }

    /// Lists all notes, most recently touched first.
    pub fn list(&self) -> (r: Result<Vec<Note>, StoreError>)
        requires
            self.wf(),
        ensures
            match r {
                Ok(v) => sorted_desc(note_views(v@)) && note_views(v@).to_multiset()
                    == active_notes(self.storage.notes@).to_multiset(),
                Err(_) => false,
            },
    {
        self.storage.list_notes()
    }

    /// Searches notes by title or body, case-insensitively.
    pub fn search(&self, query: String) -> (r: Result<Vec<Note>, StoreError>)
        requires
            self.wf(),
        ensures
            match r {
                Ok(v) => sorted_desc(note_views(v@)) && note_views(v@).to_multiset()
                    == matching_notes(self.storage.notes@, query@).to_multiset(),
                Err(_) => false,
            },
    {
        self.storage.search_notes(query.as_str())
    }

    /// Deletes a note on the given day: the note and its attachments
    /// are fetched (failing with `NotFound` exactly when no active note
    /// carries `id`), their content is disposed of per the configured
    /// behavior, and only then are the attachment records and the note
    /// row removed — content first, so a failed disposal leaves the
    /// metadata, and with it the path to retry, in place.
    pub fn delete_with(&mut self, id: &str, date: &DateStamp, content: &mut ContentStore) -> (r:
        Result<(), StoreError>)
        requires
            old(self).wf(),
            old(content).wf(),
            date.wf(),
        ensures
            final(self).wf(),
            final(content).wf(),
            final(self).settings == old(self).settings,
            match r {
                Ok(_) => {
                    &&& has_active(old(self).storage.notes@, id@)
                    &&& final(self).storage.notes@ == old(self).storage.notes@.remove(
                        row_idx(old(self).storage.notes@, id@),
                    )
                    &&& final(self).storage.attachments@ == atts_without(
                        old(self).storage.attachments@,
                        id@,
                    )
                    &&& match old(self).settings.delete_behavior {
                        DeleteBehavior::MoveToTrash => trash_fold(
                            old(content)@,
                            all_paths(
                                fetched_view(
                                    old(self).storage.notes@,
                                    old(self).storage.attachments@,
                                    id@,
                                ),
                            ),
                            trash_dir_spec(old(self).settings.notes_folder@, *date),
                        ) == Some(final(content)@),
                        DeleteBehavior::Permanent => final(content)@ == remove_paths(
                            old(content)@,
                            all_paths(
                                fetched_view(
                                    old(self).storage.notes@,
                                    old(self).storage.attachments@,
                                    id@,
                                ),
                            ),
                        ),
                    }
                },
                Err(e) => {
                    &&& final(self).storage.notes@ == old(self).storage.notes@
                    &&& final(self).storage.attachments@ == old(self).storage.attachments@
                    &&& (e == StoreError::NotFound ==> !has_active(old(self).storage.notes@, id@)
                        && final(content)@ == old(content)@)
                    &&& (e == StoreError::IoFailure ==> has_active(old(self).storage.notes@, id@)
                        && old(self).settings.delete_behavior == DeleteBehavior::MoveToTrash
                        && trash_fold(
                        old(content)@,
                        all_paths(
                            fetched_view(
                                old(self).storage.notes@,
                                old(self).storage.attachments@,
                                id@,
                            ),
                        ),
                        trash_dir_spec(old(self).settings.notes_folder@, *date),
                    ) is None)
                    &&& (e == StoreError::NotFound || e == StoreError::IoFailure)
                },
            },
    {
        let nwa = match self.storage.get_note(id) {
            Ok(nwa) => nwa,
            Err(e) => {
                return Err(e);
            },
        };
        match DeleteService::delete_note(
            self.settings.notes_folder.as_str(),
            &nwa,
            &self.settings,
            date,
            content,
        ) {
            Ok(_) => {},
            Err(e) => {
                return Err(e);
            },
        }
        let _ = self.storage.delete_note(id);
        Ok(())
    }

    /// Deletes a note, archiving or purging its content per the
    /// configured behavior; the trash folder is stamped with the local
    /// calendar day of the deletion.
    pub fn delete(&mut self, id: &str, content: &mut ContentStore) -> (r: Result<(), StoreError>)
        requires
            old(self).wf(),
            old(content).wf(),
        ensures
            final(self).wf(),
            final(content).wf(),
            final(self).settings == old(self).settings,
            match r {
                Ok(_) => {
                    &&& has_active(old(self).storage.notes@, id@)
                    &&& final(self).storage.notes@ == old(self).storage.notes@.remove(
                        row_idx(old(self).storage.notes@, id@),
                    )
                    &&& final(self).storage.attachments@ == atts_without(
                        old(self).storage.attachments@,
                        id@,
                    )
                    &&& match old(self).settings.delete_behavior {
                        DeleteBehavior::MoveToTrash => exists|d: DateStamp|
                            d.wf() && trash_fold(
                                old(content)@,
                                all_paths(
                                    fetched_view(
                                        old(self).storage.notes@,
                                        old(self).storage.attachments@,
                                        id@,
                                    ),
                                ),
                                trash_dir_spec(old(self).settings.notes_folder@, d),
                            ) == Some(final(content)@),
                        DeleteBehavior::Permanent => final(content)@ == remove_paths(
                            old(content)@,
                            all_paths(
                                fetched_view(
                                    old(self).storage.notes@,
                                    old(self).storage.attachments@,
                                    id@,
                                ),
                            ),
                        ),
                    }
                },
                Err(e) => {
                    &&& final(self).storage.notes@ == old(self).storage.notes@
                    &&& final(self).storage.attachments@ == old(self).storage.attachments@
                    &&& (e == StoreError::NotFound ==> !has_active(old(self).storage.notes@, id@)
                        && final(content)@ == old(content)@)
                    &&& (e == StoreError::IoFailure ==> has_active(old(self).storage.notes@, id@)
                        && old(self).settings.delete_behavior == DeleteBehavior::MoveToTrash
                        && exists|d: DateStamp|
                        d.wf() && trash_fold(
                            old(content)@,
                            all_paths(
                                fetched_view(
                                    old(self).storage.notes@,
                                    old(self).storage.attachments@,
                                    id@,
                                ),
                            ),
                            trash_dir_spec(old(self).settings.notes_folder@, d),
                        ) is None)
                    &&& (e == StoreError::NotFound || e == StoreError::IoFailure)
                },
            },
    {
        let date = today();
        let r = self.delete_with(id, &date, content);
        proof {
            match r {
                Err(e) => {
                    if e == StoreError::IoFailure {
                        assert(date.wf() && trash_fold(
                            old(content)@,
                            all_paths(
                                fetched_view(
                                    old(self).storage.notes@,
                                    old(self).storage.attachments@,
                                    id@,
                                ),
                            ),
                            trash_dir_spec(old(self).settings.notes_folder@, date),
                        ) is None);
                    }
                },
                Ok(_) => {},
            }
        }
        r
    }
}

/// Create/read round trip: a successful create appends the new row, so
/// the id is active in the new table and reads back exactly the note
/// that was created — in particular its body — and the content file at
/// the note's path holds the body, byte for byte.
pub proof fn lemma_create_round_trip(
    pre: Seq<NoteRowView>,
    n: NoteView,
    m: Map<Seq<char>, Seq<char>>,
    body: Seq<char>,
)
    requires
        unique_ids(pre),
        !has_id(pre, n.id),
    ensures
        unique_ids(pre.push(NoteRowView { note: n, is_deleted: false })),
        has_active(pre.push(NoteRowView { note: n, is_deleted: false }), n.id),
        pre.push(NoteRowView { note: n, is_deleted: false })[row_idx(
            pre.push(NoteRowView { note: n, is_deleted: false }),
            n.id,
        )].note == n,
        m.insert(n.file_path, body).contains_key(n.file_path),
        m.insert(n.file_path, body)[n.file_path] == body,
{
    let post = pre.push(NoteRowView { note: n, is_deleted: false });
    assert forall|i: int, j: int| 0 <= i < j < post.len() implies post[i].note.id
        != post[j].note.id by {
        if j < post.len() - 1 {
            assert(post[i] == pre[i] && post[j] == pre[j]);
        } else {
            assert(post[i] == pre[i]);
            assert(has_id(pre, pre[i].note.id));
        }
    }
    assert(post[post.len() - 1].note.id == n.id && !post[post.len() - 1].is_deleted);
    crate::db_notes::lemma_row_lookup(post, post.len() - 1);
}

} // verus!
