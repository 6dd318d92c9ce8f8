use vstd::prelude::*;
use crate::content::ContentStore;
use crate::error::StoreError;
use crate::permanent_delete::{remove_paths, PermanentDelete};
use crate::schema::NoteWithAttachments;
use crate::settings::{DeleteBehavior, Settings};
use crate::time::DateStamp;
use crate::trash_manager::{all_paths, step_trash, trash_dir_spec, trash_fold, TrashManager};

verus! {

/// The deletion policy engine: a state-free strategy selection over the
/// configured delete behavior. It operates on content only; the caller
/// performs the metadata delete as its own step afterwards.
pub struct DeleteService;

impl DeleteService {
    /// Disposes of the note's content per the configured behavior:
    /// archival under `{notes_folder}/trash/{date}` for `MoveToTrash`
    /// (failing with `IoFailure` exactly when the archival walk
    /// refuses), outright removal for `Permanent` (never failing).
    pub fn delete_note(
        notes_folder: &str,
        note: &NoteWithAttachments,
        settings: &Settings,
        date: &DateStamp,
        content: &mut ContentStore,
    ) -> (r: Result<(), StoreError>)
        requires
            old(content).wf(),
            date.wf(),
        ensures
            final(content).wf(),
            match settings.delete_behavior {
                DeleteBehavior::MoveToTrash => match r {
                    Ok(_) => trash_fold(
                        old(content)@,
                        all_paths(note@),
                        trash_dir_spec(notes_folder@, *date),
                    ) == Some(final(content)@),
                    Err(e) => e == StoreError::IoFailure && trash_fold(
                        old(content)@,
                        all_paths(note@),
                        trash_dir_spec(notes_folder@, *date),
                    ) is None,
                },
                DeleteBehavior::Permanent => r is Ok && final(content)@ == remove_paths(
                    old(content)@,
                    all_paths(note@),
                ),
            },
    {
        match settings.delete_behavior {
            DeleteBehavior::MoveToTrash => TrashManager::move_to_trash(
                notes_folder,
                note,
                date,
                content,
            ),
            DeleteBehavior::Permanent => PermanentDelete::delete(note, content),
        }
    }
}

} // verus!
