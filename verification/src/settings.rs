use vstd::prelude::*;
use vstd::string::*;
use crate::strutil::str_concat;

verus! {

/// What happens to content files when a note is deleted.
#[derive(Clone, Copy, Debug, PartialEq, Eq, Structural)]
pub enum DeleteBehavior {
    /// Move the files into a dated folder under the trash root.
    MoveToTrash,
    /// Remove the files outright; nothing can bring them back.
    Permanent,
}

/// Process-wide configuration: loaded once at startup, held as one
/// shared value, written back on every mutation.
#[derive(Debug)]
pub struct Settings {
    /// Schema version of the configuration file.
    pub version: u32,
    /// Root directory of the content store.
    pub notes_folder: String,
    /// How often the editor autosaves, in seconds.
    pub auto_save_interval_secs: u64,
    /// The active deletion policy.
    pub delete_behavior: DeleteBehavior,
    /// Whether the first-run tour has been completed.
    pub onboarding_completed: bool,
}

impl Clone for Settings {
    fn clone(&self) -> (r: Settings)
        ensures
            r.version == self.version,
            r.notes_folder@ == self.notes_folder@,
            r.auto_save_interval_secs == self.auto_save_interval_secs,
            r.delete_behavior == self.delete_behavior,
            r.onboarding_completed == self.onboarding_completed,
    {
        Settings {
            version: self.version,
            notes_folder: self.notes_folder.clone(),
            auto_save_interval_secs: self.auto_save_interval_secs,
            delete_behavior: self.delete_behavior,
            onboarding_completed: self.onboarding_completed,
        }
    }
}

impl Default for Settings {
    /// The documented first-run defaults, written out when no
    /// configuration file exists yet.
    fn default() -> (r: Settings)
        ensures
            r.version == 1,
            r.notes_folder@ == "./notes"@,
            r.auto_save_interval_secs == 30,
            r.delete_behavior == DeleteBehavior::MoveToTrash,
            !r.onboarding_completed,
    {
        Settings {
            version: 1,
            notes_folder: String::from_str("./notes"),
            auto_save_interval_secs: 30,
            delete_behavior: DeleteBehavior::MoveToTrash,
            onboarding_completed: false,
        }
    }
}

impl Settings {
    /// The configuration file sits directly under the application's
    /// configuration directory.
    pub fn config_path(app_config_dir: String) -> (r: String)
        ensures
            r@ == app_config_dir@ + "/settings.toml"@,
    {
        str_concat(app_config_dir.as_str(), "/settings.toml")
    }

    /// Marks the first-run tour as completed; reports whether anything
    /// changed, so the caller writes the file back only when it did.
    pub fn complete_onboarding(&mut self) -> (changed: bool)
        ensures
            final(self).onboarding_completed,
            changed == !old(self).onboarding_completed,
            final(self).version == old(self).version,
            final(self).notes_folder@ == old(self).notes_folder@,
            final(self).auto_save_interval_secs == old(self).auto_save_interval_secs,
            final(self).delete_behavior == old(self).delete_behavior,
    {
        if self.onboarding_completed {
            false
        } else {
            self.onboarding_completed = true;
            true
        }
    }

    /// The forward-compatible migration stub applied after every load:
    /// a version of zero is raised to one; everything else is kept.
    pub fn normalize(&mut self)
        ensures
            final(self).version == if old(self).version == 0 {
                1u32
            } else {
                old(self).version
            },
            final(self).notes_folder@ == old(self).notes_folder@,
            final(self).auto_save_interval_secs == old(self).auto_save_interval_secs,
            final(self).delete_behavior == old(self).delete_behavior,
            final(self).onboarding_completed == old(self).onboarding_completed,
    {
        if self.version == 0 {
            self.version = 1;
        }
    }
}

} // verus!
