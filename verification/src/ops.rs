//! Changes to the in-memory note index: saving, deleting and finding
//! notes, and keeping the category list.
use vstd::prelude::*;
use crate::clock::Timestamp;
use crate::error::StoreError;
use crate::index::{
    created_meta, index_after_create, index_after_delete, index_after_update, lemma_position_of,
    position_of, updated_meta, with_category,
};
use crate::model::{
    meta_views, note_of_meta, string_views, IndexView, MetadataFile, Note, NoteMetadata,
    SaveNoteRequest,
};
use crate::notetext::{build_preview, count_note_chars, normalize_note_title, unique_note_file_name};
use crate::order::{same_text, trim_string};

verus! {

broadcast use vstd::seq_lib::group_seq_properties;

impl MetadataFile {
    /// The position of the first entry with this id.
    pub fn find_note(&self, id: &str) -> (r: Option<usize>)
        ensures
            match r {
                Some(i) => i < self@.notes.len() && position_of(self@.notes, id@) == Some(i as int),
                None => position_of(self@.notes, id@) is None,
            },
    {
        let mut i: usize = 0;
        while i < self.notes.len()
            invariant
                i <= self.notes@.len(),
                forall|j: int| 0 <= j < i ==> (#[trigger] self@.notes[j]).id != id@,
            decreases self.notes@.len() - i,
        {
            if same_text(self.notes[i].id.as_str(), id) {
                proof {
                    lemma_position_of(self@.notes, id@, i as int);
                }
                return Some(i);
            }
            i = i + 1;
        }
        proof {
            lemma_position_of(self@.notes, id@, i as int);
        }
        None
    }

    /// Whether the category list holds this name.
    pub fn has_category(&self, name: &str) -> (r: bool)
        ensures
            r == self@.categories.contains(name@),
    {
        let mut i: usize = 0;
        while i < self.categories.len()
            invariant
                i <= self.categories@.len(),
                forall|j: int| 0 <= j < i ==> self@.categories[j] != name@,
            decreases self.categories@.len() - i,
        {
            if same_text(self.categories[i].as_str(), name) {
                assert(self@.categories[i as int] == name@);
                return true;
            }
            i = i + 1;
        }
        false
    }

    /// Adds the category of a saved note to the list (see `with_category`).
    fn note_category(&mut self, category: &String)
        ensures
            final(self)@.notes == old(self)@.notes,
            final(self)@.categories == with_category(old(self)@.categories, category@),
    {
        if !category.as_str().is_empty() && !self.has_category(category.as_str()) {
            self.categories.push(category.clone());
            assert(string_views(self.categories@) =~= string_views(old(self).categories@).push(
                category@,
            ));
        }
    }

    /// Records a new note with the given id and time at the front of the
    /// index, and returns it.
    pub fn insert_new_note(&mut self, request: SaveNoteRequest, id: String, now: Timestamp) -> (note:
        Note)
        ensures
            note@ == note_of_meta(created_meta(request@, id@, now), request@.content),
            final(self)@ == index_after_create(old(self)@, created_meta(request@, id@, now)),
    {
        let title = normalize_note_title(request.title.as_str(), request.content.as_str());
        let file_name = unique_note_file_name(title.as_str(), id.as_str());
        let category = trim_string(request.category.as_str());
        let word_count = count_note_chars(request.content.as_str());
        let meta = NoteMetadata {
            id: id.clone(),
            title: title.clone(),
            file_name: file_name.clone(),
            category: category.clone(),
            created_at: now,
            updated_at: now,
            word_count,
            preview: build_preview(request.content.as_str()),
        };
        self.note_category(&category);
        let ghost mid = self@;
        self.notes.insert(0, meta);
        assert(meta_views(self.notes@) =~= seq![created_meta(request@, id@, now)] + mid.notes);
        Note {
            id,
            title,
            file_name,
            category,
            created_at: now,
            updated_at: now,
            word_count,
            content: request.content,
        }
    }

    /// Saves a note over the entry with this id: the entry before the save
    /// and the saved note, or the error when no entry has the id.
    pub fn save_note(&mut self, id: &str, request: SaveNoteRequest, now: Timestamp) -> (r: Result<
        (NoteMetadata, Note),
        StoreError,
    >)
        ensures
            match position_of(old(self)@.notes, id@) {
                None => {
                    &&& r matches Err(StoreError::NoteNotFound { id: e })
                    &&& e@ == id@
                    &&& final(self)@ == old(self)@
                },
                Some(i) => {
                    &&& r matches Ok((prev, note))
                    &&& prev@ == old(self)@.notes[i]
                    &&& note@ == note_of_meta(
                        updated_meta(old(self)@.notes[i], request@, now),
                        request@.content,
                    )
                    &&& final(self)@ == index_after_update(
                        old(self)@,
                        i,
                        updated_meta(old(self)@.notes[i], request@, now),
                    )
                },
            },
    {
        let index = match self.find_note(id) {
            Some(i) => i,
            None => {
                return Err(StoreError::NoteNotFound { id: String::from_str(id) });
            },
        };
        proof {
            crate::index::lemma_position_of_found(self@.notes, id@);
        }
        let prev = self.notes[index].clone();
        let category = trim_string(request.category.as_str());
        let title = normalize_note_title(request.title.as_str(), request.content.as_str());
        let word_count = count_note_chars(request.content.as_str());
        let meta = NoteMetadata {
            id: prev.id.clone(),
            title: title.clone(),
            file_name: prev.file_name.clone(),
            category: category.clone(),
            created_at: prev.created_at,
            updated_at: now,
            word_count,
            preview: build_preview(request.content.as_str()),
        };
        let ghost m = updated_meta(old(self)@.notes[index as int], request@, now);
        assert(meta@ == m);
        self.notes.set(index, meta);
        self.note_category(&category);
        assert(final(self)@.notes =~= old(self)@.notes.update(index as int, m));
        let note = Note {
            id: prev.id.clone(),
            title,
            file_name: prev.file_name.clone(),
            category,
            created_at: prev.created_at,
            updated_at: now,
            word_count,
            content: request.content,
        };
        Ok((prev, note))
    }

    /// Removes the first entry with this id and returns it.
    pub fn remove_note(&mut self, id: &str) -> (r: Result<NoteMetadata, StoreError>)
        ensures
            match position_of(old(self)@.notes, id@) {
                None => {
                    &&& r matches Err(StoreError::NoteNotFound { id: e })
                    &&& e@ == id@
                    &&& final(self)@ == old(self)@
                },
                Some(i) => {
                    &&& r matches Ok(m)
                    &&& m@ == old(self)@.notes[i]
                    &&& final(self)@ == index_after_delete(old(self)@, i)
                },
            },
    {
        let index = match self.find_note(id) {
            Some(i) => i,
            None => {
                return Err(StoreError::NoteNotFound { id: String::from_str(id) });
            },
        };
        proof {
            crate::index::lemma_position_of_found(self@.notes, id@);
        }
        let m = self.notes.remove(index);
        assert(meta_views(self.notes@) =~= old(self)@.notes.remove(index as int));
        Ok(m)
    }
}

} // verus!
