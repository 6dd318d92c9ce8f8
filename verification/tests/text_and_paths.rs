use rusty_notes::content::ContentStore;
use rusty_notes::models::Note;
use rusty_notes::note_files::NoteFileStore;
use rusty_notes::settings::{DeleteBehavior, Settings};
use rusty_notes::storage::StorageService;
use rusty_notes::time::{format_ymd, DateStamp};

#[test]
fn markdown_renders_title_heading_and_body() {
    let n = Note {
        id: String::from("i"),
        title: String::from("My Note"),
        body: String::from("Content"),
    };
    assert_eq!(n.to_markdown(), "# My Note\n\nContent");
}

#[test]
fn markdown_parses_back_title_and_body() {
    let n = Note::from_markdown(String::from("i"), "# My Note\n\nContent");
    assert_eq!(n.id, "i");
    assert_eq!(n.title, "My Note");
    assert_eq!(n.body, "Content");
}

#[test]
fn markdown_round_trip_keeps_multiline_bodies() {
    let orig = Note {
        id: String::from("i"),
        title: String::from("T"),
        body: String::from("line one\nline two\n"),
    };
    let back = Note::from_markdown(String::from("i"), &orig.to_markdown());
    assert_eq!(back.title, "T");
    assert_eq!(back.body, "line one\nline two\n");
}

#[test]
fn markdown_parse_strips_repeated_heading_markers() {
    let n = Note::from_markdown(String::from("i"), "# # Twice\n\nbody");
    assert_eq!(n.title, "Twice");
}

#[test]
fn markdown_parse_of_empty_content() {
    let n = Note::from_markdown(String::from("i"), "");
    assert_eq!(n.title, "");
    assert_eq!(n.body, "");
}

#[test]
fn markdown_parse_without_separator_has_empty_body() {
    let n = Note::from_markdown(String::from("i"), "# Only a title");
    assert_eq!(n.title, "Only a title");
    assert_eq!(n.body, "");
}

#[test]
fn note_file_store_builds_html_path() {
    let fs = NoteFileStore::new(String::from("/data/notes"));
    assert_eq!(fs.path_for_id("abc-123"), "/data/notes/abc-123.html");
}

#[test]
fn storage_service_builds_markdown_paths() {
    let s = StorageService::new(String::from("/app"));
    assert_eq!(s.notes_dir, "/app/notes");
    assert_eq!(s.note_dir("abc"), "/app/notes/abc");
    assert_eq!(s.note_file_path("abc"), "/app/notes/abc/note.md");
}

#[test]
fn settings_defaults_match_first_run_values() {
    let s = Settings::default();
    assert_eq!(s.version, 1);
    assert_eq!(s.notes_folder, "./notes");
    assert_eq!(s.auto_save_interval_secs, 30);
    assert_eq!(s.delete_behavior, DeleteBehavior::MoveToTrash);
    assert!(!s.onboarding_completed);
}

#[test]
fn settings_normalize_raises_version_zero() {
    let mut s = Settings::default();
    s.version = 0;
    s.normalize();
    assert_eq!(s.version, 1);
    s.version = 7;
    s.normalize();
    assert_eq!(s.version, 7);
}

#[test]
fn settings_config_path_is_under_config_dir() {
    assert_eq!(
        Settings::config_path(String::from("/home/u/.config/app")),
        "/home/u/.config/app/settings.toml"
    );
}

#[test]
fn date_formats_zero_padded() {
    assert_eq!(format_ymd(&DateStamp { year: 2024, month: 5, day: 6 }), "2024-05-06");
    assert_eq!(format_ymd(&DateStamp { year: 99, month: 12, day: 31 }), "0099-12-31");
    assert_eq!(format_ymd(&DateStamp { year: 0, month: 1, day: 1 }), "0000-01-01");
    assert_eq!(format_ymd(&DateStamp { year: 12345, month: 10, day: 9 }), "12345-10-09");
    assert_eq!(format_ymd(&DateStamp { year: -44, month: 3, day: 15 }), "-0044-03-15");
}

#[test]
fn content_store_write_read_overwrite() {
    let mut c = ContentStore::new();
    assert!(!c.contains("a/b.txt"));
    c.write("a/b.txt", "one");
    assert_eq!(c.read("a/b.txt").unwrap(), "one");
    c.write("a/b.txt", "two");
    assert_eq!(c.read("a/b.txt").unwrap(), "two");
}

#[test]
fn content_store_removal_is_idempotent() {
    let mut c = ContentStore::new();
    c.write("a/b.txt", "one");
    assert!(c.remove("a/b.txt").is_ok());
    assert!(!c.contains("a/b.txt"));
    // removing the same path again is not an error
    assert!(c.remove("a/b.txt").is_ok());
    assert!(!c.contains("a/b.txt"));
}

#[test]
fn content_store_rename_moves_and_refuses_collisions() {
    let mut c = ContentStore::new();
    c.write("src.txt", "data");
    c.write("other.txt", "keep");
    assert!(c.rename("src.txt", "dst.txt").is_ok());
    assert!(!c.contains("src.txt"));
    assert_eq!(c.read("dst.txt").unwrap(), "data");
    assert!(c.rename("dst.txt", "other.txt").is_err());
    assert_eq!(c.read("other.txt").unwrap(), "keep");
    assert_eq!(c.read("dst.txt").unwrap(), "data");
}

#[test]
fn settings_onboarding_completes_once() {
    let mut s = Settings::default();
    assert!(!s.onboarding_completed);
    assert!(s.complete_onboarding());
    assert!(s.onboarding_completed);
    // a second call changes nothing and reports so
    assert!(!s.complete_onboarding());
    assert!(s.onboarding_completed);
}
