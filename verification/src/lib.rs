//! A note-keeping storage core that coordinates two backends: an in-memory
//! relational table pair holding note and attachment records, and a content
//! map standing for the files on disk (note bodies, attachment blobs, and the
//! trash archive). The coordinator keeps the two consistent across multi-step
//! operations, and a pluggable deletion policy decides whether content is
//! archived under a dated trash directory or removed outright.

pub mod content;
pub mod db_attachments;
pub mod db_notes;
pub mod db_storage;
pub mod delete_service;
pub mod error;
pub mod models;
pub mod note_files;
pub mod note_service;
pub mod permanent_delete;
pub mod schema;
pub mod search;
pub mod settings;
pub mod storage;
pub mod strutil;
pub mod time;
pub mod trash_manager;
