use rusty_notes::content::ContentStore;
use rusty_notes::db_storage::DbStorage;
use rusty_notes::error::StoreError;
use rusty_notes::note_service::NoteService;
use rusty_notes::schema::Attachment;
use rusty_notes::settings::{DeleteBehavior, Settings};
use rusty_notes::time::DateStamp;

fn service(behavior: DeleteBehavior) -> NoteService {
    let mut settings = Settings::default();
    settings.notes_folder = String::from("notes");
    settings.delete_behavior = behavior;
    NoteService::new(DbStorage::new(String::from("data")), settings)
}

fn attachment(id: &str, note_id: &str, path: &str) -> Attachment {
    Attachment {
        id: String::from(id),
        note_id: String::from(note_id),
        attachment_type: String::from("image"),
        file_name: String::from("pic.png"),
        file_path: String::from(path),
        mime_type: Some(String::from("image/png")),
        size_bytes: Some(4),
        created_at: 7,
    }
}

#[test]
fn create_then_get_round_trip() {
    let mut svc = service(DeleteBehavior::MoveToTrash);
    let mut content = ContentStore::new();
    let n = svc
        .create_with(
            String::from("id-1"),
            100,
            String::from("Title"),
            String::from("the body"),
            &mut content,
        )
        .unwrap();
    assert_eq!(n.id, "id-1");
    assert_eq!(n.file_path, "notes/id-1.html");
    let fetched = svc.get(String::from("id-1")).unwrap();
    assert_eq!(fetched.note.body, "the body");
    assert_eq!(fetched.note.title, "Title");
    assert!(fetched.attachments.is_empty());
    let on_disk = content.read("notes/id-1.html").unwrap();
    assert_eq!(on_disk, "the body");
}

#[test]
fn create_generates_a_36_character_id() {
    let mut svc = service(DeleteBehavior::MoveToTrash);
    let mut content = ContentStore::new();
    let n = svc
        .create(String::from("t"), String::from("b"), &mut content)
        .unwrap();
    assert_eq!(n.id.len(), 36);
    assert_eq!(n.created_at, n.updated_at);
    assert_eq!(n.file_path, format!("notes/{}.html", n.id));
}

#[test]
fn create_conflict_on_duplicate_id() {
    let mut svc = service(DeleteBehavior::MoveToTrash);
    let mut content = ContentStore::new();
    svc.create_with(
        String::from("dup"),
        1,
        String::from("a"),
        String::from("x"),
        &mut content,
    )
    .unwrap();
    let err = svc
        .create_with(
            String::from("dup"),
            2,
            String::from("b"),
            String::from("y"),
            &mut content,
        )
        .unwrap_err();
    assert_eq!(err, StoreError::Conflict);
}

#[test]
fn update_preserves_identity_and_advances_timestamp() {
    let mut svc = service(DeleteBehavior::MoveToTrash);
    let mut content = ContentStore::new();
    let created = svc
        .create_with(
            String::from("u1"),
            100,
            String::from("Old"),
            String::from("old body"),
            &mut content,
        )
        .unwrap();
    let updated = svc
        .update_with(
            String::from("u1"),
            200,
            String::from("New"),
            String::from("new body"),
            &mut content,
        )
        .unwrap();
    assert_eq!(updated.file_path, created.file_path);
    assert_eq!(updated.created_at, created.created_at);
    assert!(updated.updated_at > created.updated_at);
    assert_eq!(updated.title, "New");
    assert_eq!(updated.body, "new body");
    let on_disk = content.read("notes/u1.html").unwrap();
    assert_eq!(on_disk, "new body");
}

#[test]
fn update_missing_note_is_not_found() {
    let mut svc = service(DeleteBehavior::MoveToTrash);
    let mut content = ContentStore::new();
    let err = svc
        .update_with(
            String::from("ghost-id"),
            5,
            String::from("t"),
            String::from("b"),
            &mut content,
        )
        .unwrap_err();
    assert_eq!(err, StoreError::NotFound);
}

#[test]
fn get_missing_note_is_not_found() {
    let svc = service(DeleteBehavior::MoveToTrash);
    let err = svc.get(String::from("absent")).unwrap_err();
    assert_eq!(err, StoreError::NotFound);
}

#[test]
fn list_orders_by_updated_at_descending() {
    let mut svc = service(DeleteBehavior::MoveToTrash);
    let mut content = ContentStore::new();
    for (id, ts) in [("a", 10i64), ("b", 30), ("c", 20)] {
        svc.create_with(
            String::from(id),
            ts,
            String::from(id),
            String::from("body"),
            &mut content,
        )
        .unwrap();
    }
    let listed = svc.list().unwrap();
    let ids: Vec<&str> = listed.iter().map(|n| n.id.as_str()).collect();
    assert_eq!(ids, vec!["b", "c", "a"]);
}

#[test]
fn list_reflects_updates_in_order() {
    let mut svc = service(DeleteBehavior::MoveToTrash);
    let mut content = ContentStore::new();
    for (id, ts) in [("a", 10i64), ("b", 20)] {
        svc.create_with(
            String::from(id),
            ts,
            String::from(id),
            String::from("body"),
            &mut content,
        )
        .unwrap();
    }
    svc.update_with(
        String::from("a"),
        30,
        String::from("a"),
        String::from("later"),
        &mut content,
    )
    .unwrap();
    let listed = svc.list().unwrap();
    let ids: Vec<&str> = listed.iter().map(|n| n.id.as_str()).collect();
    assert_eq!(ids, vec!["a", "b"]);
}

#[test]
fn search_finds_substring_case_insensitively() {
    let mut svc = service(DeleteBehavior::MoveToTrash);
    let mut content = ContentStore::new();
    let entries = [
        ("one", "Grocery List", "buy APPLES and pears", 10i64),
        ("two", "Meeting notes", "discuss apple budget", 20),
        ("three", "Diary", "nothing fruity here", 30),
    ];
    for (id, title, body, ts) in entries {
        svc.create_with(
            String::from(id),
            ts,
            String::from(title),
            String::from(body),
            &mut content,
        )
        .unwrap();
    }
    let hits = svc.search(String::from("apple")).unwrap();
    let ids: Vec<&str> = hits.iter().map(|n| n.id.as_str()).collect();
    assert_eq!(ids, vec!["two", "one"]);
    let none = svc.search(String::from("zebra")).unwrap();
    assert!(none.is_empty());
    let all = svc.search(String::from("")).unwrap();
    assert_eq!(all.len(), 3);
}

#[test]
fn delete_move_to_trash_archives_the_file() {
    let mut svc = service(DeleteBehavior::MoveToTrash);
    let mut content = ContentStore::new();
    svc.create_with(
        String::from("n1"),
        100,
        String::from("T"),
        String::from("body"),
        &mut content,
    )
    .unwrap();
    let date = DateStamp { year: 2024, month: 5, day: 6 };
    svc.delete_with("n1", &date, &mut content).unwrap();
    assert_eq!(svc.get(String::from("n1")).unwrap_err(), StoreError::NotFound);
    assert!(!content.contains("notes/n1.html"));
    let archived = content.read("notes/trash/2024-05-06/n1.html").unwrap();
    assert_eq!(archived, "body");
}

#[test]
fn delete_move_to_trash_refuses_a_name_collision() {
    let mut svc = service(DeleteBehavior::MoveToTrash);
    let mut content = ContentStore::new();
    svc.create_with(
        String::from("n1"),
        100,
        String::from("T"),
        String::from("first"),
        &mut content,
    )
    .unwrap();
    let date = DateStamp { year: 2024, month: 5, day: 6 };
    content.write("notes/trash/2024-05-06/n1.html", "already archived");
    let err = svc.delete_with("n1", &date, &mut content).unwrap_err();
    assert_eq!(err, StoreError::IoFailure);
    // the metadata row is still there, so the delete can be retried
    assert!(svc.get(String::from("n1")).is_ok());
    // and the archived file was not overwritten
    let archived = content.read("notes/trash/2024-05-06/n1.html").unwrap();
    assert_eq!(archived, "already archived");
}

#[test]
fn delete_permanent_leaves_no_file_and_no_trash() {
    let mut svc = service(DeleteBehavior::Permanent);
    let mut content = ContentStore::new();
    svc.create_with(
        String::from("n2"),
        100,
        String::from("T"),
        String::from("body"),
        &mut content,
    )
    .unwrap();
    let date = DateStamp { year: 2024, month: 5, day: 6 };
    svc.delete_with("n2", &date, &mut content).unwrap();
    assert_eq!(svc.get(String::from("n2")).unwrap_err(), StoreError::NotFound);
    assert!(!content.contains("notes/n2.html"));
    assert!(!content.contains("notes/trash/2024-05-06/n2.html"));
}

#[test]
fn delete_cascades_attachment_rows_and_files() {
    let mut svc = service(DeleteBehavior::Permanent);
    let mut content = ContentStore::new();
    svc.create_with(
        String::from("n3"),
        100,
        String::from("T"),
        String::from("body"),
        &mut content,
    )
    .unwrap();
    content.write("blobs/a1.png", "PNG");
    content.write("blobs/a2.png", "PNG2");
    svc.storage
        .attachments
        .create(attachment("a1", "n3", "blobs/a1.png"))
        .unwrap();
    svc.storage
        .attachments
        .create(attachment("a2", "n3", "blobs/a2.png"))
        .unwrap();
    svc.storage
        .attachments
        .create(attachment("a3", "other", "blobs/a3.png"))
        .unwrap();
    let fetched = svc.get(String::from("n3")).unwrap();
    assert_eq!(fetched.attachments.len(), 2);
    let date = DateStamp { year: 2024, month: 5, day: 6 };
    svc.delete_with("n3", &date, &mut content).unwrap();
    let rows = svc.storage.attachments.list_for_note("n3").unwrap();
    assert!(rows.is_empty());
    let kept = svc.storage.attachments.list_for_note("other").unwrap();
    assert_eq!(kept.len(), 1);
    assert!(!content.contains("blobs/a1.png"));
    assert!(!content.contains("blobs/a2.png"));
}

#[test]
fn attachment_create_conflict_on_duplicate_id() {
    let mut svc = service(DeleteBehavior::Permanent);
    svc.storage
        .attachments
        .create(attachment("a1", "n", "p1"))
        .unwrap();
    let err = svc
        .storage
        .attachments
        .create(attachment("a1", "n", "p2"))
        .unwrap_err();
    assert_eq!(err, StoreError::Conflict);
}

#[test]
fn full_scenario_create_update_delete() {
    let mut svc = service(DeleteBehavior::Permanent);
    let mut content = ContentStore::new();
    let x = svc
        .create_with(
            String::from("x"),
            1,
            String::from("A"),
            String::from("hello"),
            &mut content,
        )
        .unwrap();
    assert_eq!(svc.get(x.id.clone()).unwrap().note.body, "hello");
    svc.update_with(
        x.id.clone(),
        2,
        String::from("A2"),
        String::from("world"),
        &mut content,
    )
    .unwrap();
    let after = svc.get(x.id.clone()).unwrap();
    assert_eq!(after.note.title, "A2");
    assert_eq!(after.note.body, "world");
    let date = DateStamp { year: 2024, month: 1, day: 2 };
    svc.delete_with("x", &date, &mut content).unwrap();
    assert_eq!(svc.get(String::from("x")).unwrap_err(), StoreError::NotFound);
}

#[test]
fn update_with_regressed_clock_keeps_invariant() {
    let mut svc = service(DeleteBehavior::MoveToTrash);
    let mut content = ContentStore::new();
    let created = svc
        .create_with(
            String::from("u2"),
            100,
            String::from("Old"),
            String::from("old body"),
            &mut content,
        )
        .unwrap();
    // a clock reading before the note's creation is raised to created_at
    let updated = svc
        .update_with(
            String::from("u2"),
            50,
            String::from("New"),
            String::from("new body"),
            &mut content,
        )
        .unwrap();
    assert_eq!(updated.created_at, created.created_at);
    assert_eq!(updated.updated_at, created.created_at);
    assert!(updated.updated_at >= updated.created_at);
}
