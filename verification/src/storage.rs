use vstd::prelude::*;
use vstd::string::*;
use crate::strutil::str_concat;

verus! {

/// Places markdown notes under a per-note folder:
/// `{notes_dir}/{id}/note.md`. The byte-level reads and writes sit at
/// the filesystem edge; the path computations here are what that edge
/// rests on.
pub struct StorageService {
    /// The `notes` folder under the application data directory.
    pub notes_dir: String,
}

impl StorageService {
    /// A service rooted at the `notes` folder of `app_data_dir`.
    pub fn new(app_data_dir: String) -> (r: StorageService)
        ensures
            r.notes_dir@ == app_data_dir@ + "/notes"@,
    {
        StorageService { notes_dir: str_concat(app_data_dir.as_str(), "/notes") }
    }

    /// The directory holding one note and its future attachments.
    pub fn note_dir(&self, id: &str) -> (r: String)
        ensures
            r@ == self.notes_dir@ + "/"@ + id@,
    {
        let mut s = String::from_str(self.notes_dir.as_str());
        s.append("/");
        s.append(id);
        s
    }

    /// The markdown file of one note.
    pub fn note_file_path(&self, id: &str) -> (r: String)
        ensures
            r@ == self.notes_dir@ + "/"@ + id@ + "/note.md"@,
    {
        let mut s = self.note_dir(id);
        s.append("/note.md");
        s
    }
}

} // verus!
