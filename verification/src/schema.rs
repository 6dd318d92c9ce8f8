use vstd::prelude::*;

verus! {

/// Core note metadata held in the notes table.
///
/// The text content lives in `body` (for search and display);
/// `file_path` is the full path of the rendered note file held by the
/// content store, so that disposal logic never has to guess where the
/// bytes are.
#[derive(Debug)]
pub struct Note {
    /// Stable unique id for the note.
    pub id: String,
    /// User-facing title of the note.
    pub title: String,
    /// Main text content of the note, the canonical body.
    pub body: String,
    /// Unix timestamp (seconds) when the note was created.
    pub created_at: i64,
    /// Unix timestamp (seconds) when the note was last updated.
    pub updated_at: i64,
    /// Full path of the note's rendered file in the content store.
    pub file_path: String,
}

/// The mathematical value of a [`Note`].
pub ghost struct NoteView {
    pub id: Seq<char>,
    pub title: Seq<char>,
    pub body: Seq<char>,
    pub created_at: int,
    pub updated_at: int,
    pub file_path: Seq<char>,
}

impl View for Note {
    type V = NoteView;

    open spec fn view(&self) -> NoteView {
        NoteView {
            id: self.id@,
            title: self.title@,
            body: self.body@,
            created_at: self.created_at as int,
            updated_at: self.updated_at as int,
            file_path: self.file_path@,
        }
    }
}

impl Clone for Note {
    fn clone(&self) -> (r: Note)
        ensures
            r@ == self@,
    {
        Note {
            id: self.id.clone(),
            title: self.title.clone(),
            body: self.body.clone(),
            created_at: self.created_at,
            updated_at: self.updated_at,
            file_path: self.file_path.clone(),
        }
    }
}

/// A file attached to a note; each attachment is a separate record
/// pointing back to its owner through `note_id`.
#[derive(Debug)]
pub struct Attachment {
    /// Stable unique id for the attachment.
    pub id: String,
    /// Foreign key to the owning note.
    pub note_id: String,
    /// Logical category of the attachment (image, pdf, audio, ...).
    pub attachment_type: String,
    /// Human-readable file name; useful for display, not required unique.
    pub file_name: String,
    /// Full path of the attachment blob in the content store.
    pub file_path: String,
    /// Optional MIME type.
    pub mime_type: Option<String>,
    /// Optional size in bytes, captured at save time.
    pub size_bytes: Option<i64>,
    /// Unix timestamp (seconds) when the attachment was added.
    pub created_at: i64,
}

/// The mathematical value of an [`Attachment`].
pub ghost struct AttachmentView {
    pub id: Seq<char>,
    pub note_id: Seq<char>,
    pub attachment_type: Seq<char>,
    pub file_name: Seq<char>,
    pub file_path: Seq<char>,
    pub mime_type: Option<Seq<char>>,
    pub size_bytes: Option<int>,
    pub created_at: int,
}

impl View for Attachment {
    type V = AttachmentView;

    open spec fn view(&self) -> AttachmentView {
        AttachmentView {
            id: self.id@,
            note_id: self.note_id@,
            attachment_type: self.attachment_type@,
            file_name: self.file_name@,
            file_path: self.file_path@,
            mime_type: match self.mime_type {
                Some(m) => Some(m@),
                None => None,
            },
            size_bytes: match self.size_bytes {
                Some(n) => Some(n as int),
                None => None,
            },
            created_at: self.created_at as int,
        }
    }
}

impl Clone for Attachment {
    fn clone(&self) -> (r: Attachment)
        ensures
            r@ == self@,
    {
        Attachment {
            id: self.id.clone(),
            note_id: self.note_id.clone(),
            attachment_type: self.attachment_type.clone(),
            file_name: self.file_name.clone(),
            file_path: self.file_path.clone(),
            mime_type: match &self.mime_type {
                Some(m) => Some(m.clone()),
                None => None,
            },
            size_bytes: self.size_bytes,
            created_at: self.created_at,
        }
    }
}

/// A read-time projection: one note together with all of its attachments,
/// assembled by a join and never persisted as its own record.
#[derive(Debug)]
pub struct NoteWithAttachments {
    /// The note itself.
    pub note: Note,
    /// All attachments linked to this note, in table order.
    pub attachments: Vec<Attachment>,
}

/// The mathematical value of a [`NoteWithAttachments`].
pub ghost struct NoteWithAttachmentsView {
    pub note: NoteView,
    pub attachments: Seq<AttachmentView>,
}

impl View for NoteWithAttachments {
    type V = NoteWithAttachmentsView;

    open spec fn view(&self) -> NoteWithAttachmentsView {
        NoteWithAttachmentsView { note: self.note@, attachments: att_views(self.attachments@) }
    }
}

/// The element-wise mathematical value of a sequence of notes.
pub open spec fn note_views(s: Seq<Note>) -> Seq<NoteView> {
    s.map_values(|n: Note| n@)
}

/// The element-wise mathematical value of a sequence of attachments.
pub open spec fn att_views(s: Seq<Attachment>) -> Seq<AttachmentView> {
    s.map_values(|a: Attachment| a@)
}

} // verus!
