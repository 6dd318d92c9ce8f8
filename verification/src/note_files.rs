use vstd::prelude::*;
use vstd::string::*;
use crate::content::ContentStore;

verus! {

/// The path of a note's rendered file: `{notes_folder}/{id}.html`.
pub open spec fn note_path_spec(folder: Seq<char>, id: Seq<char>) -> Seq<char> {
    folder + "/"@ + id + ".html"@
}

/// Handles the placement of note files under the configured root.
pub struct NoteFileStore {
    /// Root directory of the content store.
    pub notes_folder: String,
}

impl NoteFileStore {
    /// A file store rooted at `notes_folder`.
    pub fn new(notes_folder: String) -> (r: NoteFileStore)
        ensures
            r.notes_folder@ == notes_folder@,
    {
        NoteFileStore { notes_folder }
    }

    /// The deterministic file path for a note id; a pure computation,
    /// no file is touched.
    pub fn path_for_id(&self, id: &str) -> (r: String)
        ensures
            r@ == note_path_spec(self.notes_folder@, id@),
    {
        let mut s = String::from_str(self.notes_folder.as_str());
        s.append("/");
        s.append(id);
        s.append(".html");
        s
    }

    /// Writes a note body at `file_path`, creating the file or
    /// overwriting what was there.
    pub fn write_note_file(&self, file_path: &str, body: &str, content: &mut ContentStore)
        requires
            old(content).wf(),
        ensures
            final(content).wf(),
            final(content)@ == old(content)@.insert(file_path@, body@),
    {
        content.write(file_path, body);
    }
}

} // verus!
