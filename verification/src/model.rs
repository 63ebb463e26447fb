//! The records of the note library: a note, its index entry, a save
//! request and the index file, each with its mathematical view.
use vstd::prelude::*;
use crate::clock::Timestamp;
use crate::notetext::{build_preview, preview_text};

verus! {

/// The index entry of a note (everything but its content).
#[derive(Debug)]
pub struct NoteMetadata {
    pub id: String,
    pub title: String,
    pub file_name: String,
    pub category: String,
    pub created_at: Timestamp,
    pub updated_at: Timestamp,
    pub word_count: usize,
    pub preview: String,
}

/// A note with its Markdown content.
#[derive(Debug)]
pub struct Note {
    pub id: String,
    pub title: String,
    pub file_name: String,
    pub category: String,
    pub created_at: Timestamp,
    pub updated_at: Timestamp,
    pub word_count: usize,
    pub content: String,
}

/// What the editor asks to save.
#[derive(Debug)]
pub struct SaveNoteRequest {
    pub title: String,
    pub content: String,
    pub category: String,
}

/// The index of the library: its notes, newest first once listed, and
/// the categories created by hand.
#[derive(Debug)]
pub struct MetadataFile {
    pub notes: Vec<NoteMetadata>,
    pub categories: Vec<String>,
}

/// The view of an index entry.
pub struct MetaView {
    pub id: Seq<char>,
    pub title: Seq<char>,
    pub file_name: Seq<char>,
    pub category: Seq<char>,
    pub created_at: Timestamp,
    pub updated_at: Timestamp,
    pub word_count: nat,
    pub preview: Seq<char>,
}

/// The view of a note.
pub struct NoteView {
    pub id: Seq<char>,
    pub title: Seq<char>,
    pub file_name: Seq<char>,
    pub category: Seq<char>,
    pub created_at: Timestamp,
    pub updated_at: Timestamp,
    pub word_count: nat,
    pub content: Seq<char>,
}

/// The view of a save request.
pub struct RequestView {
    pub title: Seq<char>,
    pub content: Seq<char>,
    pub category: Seq<char>,
}

/// The view of the index.
pub struct IndexView {
    pub notes: Seq<MetaView>,
    pub categories: Seq<Seq<char>>,
}

impl View for NoteMetadata {
    type V = MetaView;

    open spec fn view(&self) -> MetaView {
        MetaView {
            id: self.id@,
            title: self.title@,
            file_name: self.file_name@,
            category: self.category@,
            created_at: self.created_at,
            updated_at: self.updated_at,
            word_count: self.word_count as nat,
            preview: self.preview@,
        }
    }
}

impl View for Note {
    type V = NoteView;

    open spec fn view(&self) -> NoteView {
        NoteView {
            id: self.id@,
            title: self.title@,
            file_name: self.file_name@,
            category: self.category@,
            created_at: self.created_at,
            updated_at: self.updated_at,
            word_count: self.word_count as nat,
            content: self.content@,
        }
    }
}

impl View for SaveNoteRequest {
    type V = RequestView;

    open spec fn view(&self) -> RequestView {
        RequestView { title: self.title@, content: self.content@, category: self.category@ }
    }
}

pub open spec fn meta_views(notes: Seq<NoteMetadata>) -> Seq<MetaView> {
    notes.map_values(|m: NoteMetadata| m@)
}

pub open spec fn string_views(v: Seq<String>) -> Seq<Seq<char>> {
    v.map_values(|s: String| s@)
}

impl View for MetadataFile {
    type V = IndexView;

    open spec fn view(&self) -> IndexView {
        IndexView { notes: meta_views(self.notes@), categories: string_views(self.categories@) }
    }
}

/// The index entry of a note: its fields, and the preview of its content.
pub open spec fn meta_of_note(n: NoteView) -> MetaView {
    MetaView {
        id: n.id,
        title: n.title,
        file_name: n.file_name,
        category: n.category,
        created_at: n.created_at,
        updated_at: n.updated_at,
        word_count: n.word_count,
        preview: preview_text(n.content),
    }
}

/// A note made of an index entry and the content read for it.
pub open spec fn note_of_meta(m: MetaView, content: Seq<char>) -> NoteView {
    NoteView {
        id: m.id,
        title: m.title,
        file_name: m.file_name,
        category: m.category,
        created_at: m.created_at,
        updated_at: m.updated_at,
        word_count: m.word_count,
        content,
    }
}

impl Clone for NoteMetadata {
    fn clone(&self) -> (r: Self)
        ensures
            r == *self,
    {
        NoteMetadata {
            id: self.id.clone(),
            title: self.title.clone(),
            file_name: self.file_name.clone(),
            category: self.category.clone(),
            created_at: self.created_at,
            updated_at: self.updated_at,
            word_count: self.word_count,
            preview: self.preview.clone(),
        }
    }
}

impl Clone for Note {
    fn clone(&self) -> (r: Self)
        ensures
            r == *self,
    {
        Note {
            id: self.id.clone(),
            title: self.title.clone(),
            file_name: self.file_name.clone(),
            category: self.category.clone(),
            created_at: self.created_at,
            updated_at: self.updated_at,
            word_count: self.word_count,
            content: self.content.clone(),
        }
    }
}

impl Clone for SaveNoteRequest {
    fn clone(&self) -> (r: Self)
        ensures
            r == *self,
    {
        SaveNoteRequest {
            title: self.title.clone(),
            content: self.content.clone(),
            category: self.category.clone(),
        }
    }
}

impl MetadataFile {
    /// An index with no notes and no categories.
    pub fn empty() -> (r: MetadataFile)
        ensures
            r@.notes.len() == 0,
            r@.categories.len() == 0,
    {
        MetadataFile { notes: Vec::new(), categories: Vec::new() }
    }
}

/// The index entry of a note: its fields and the preview of its content.
pub fn metadata_from_note(note: &Note) -> (m: NoteMetadata)
    ensures
        m@ == meta_of_note(note@),
{
    NoteMetadata {
        id: note.id.clone(),
        title: note.title.clone(),
        file_name: note.file_name.clone(),
        category: note.category.clone(),
        created_at: note.created_at,
        updated_at: note.updated_at,
        word_count: note.word_count,
        preview: build_preview(note.content.as_str()),
    }
}

/// The note made of an index entry and the content read from its file.
pub fn note_from_metadata(meta: &NoteMetadata, content: String) -> (n: Note)
    ensures
        n@ == note_of_meta(meta@, content@),
{
    Note {
        id: meta.id.clone(),
        title: meta.title.clone(),
        file_name: meta.file_name.clone(),
        category: meta.category.clone(),
        created_at: meta.created_at,
        updated_at: meta.updated_at,
        word_count: meta.word_count,
        content,
    }
}

/// Reading back an entry's note and deriving its entry gives the entry
/// again, when the entry's preview is the preview of that content.
pub proof fn lemma_meta_note_roundtrip(m: MetaView, content: Seq<char>)
    requires
        m.preview == preview_text(content),
    ensures
        meta_of_note(note_of_meta(m, content)) == m,
{
}

} // verus!
