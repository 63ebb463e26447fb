use floral_notepad::clock::Timestamp;
use floral_notepad::error::StoreError;
use floral_notepad::model::{metadata_from_note, note_from_metadata, MetadataFile, NoteMetadata, SaveNoteRequest};
use floral_notepad::store::{default_base_dir, default_store, seed_notes, CategoryRename, NoteStore};

fn request(title: &str, content: &str, category: &str) -> SaveNoteRequest {
    SaveNoteRequest {
        title: title.to_string(),
        content: content.to_string(),
        category: category.to_string(),
    }
}

fn entry(id: &str, category: &str, secs: i64) -> NoteMetadata {
    NoteMetadata {
        id: id.to_string(),
        title: format!("title {id}"),
        file_name: format!("{id}.md"),
        category: category.to_string(),
        created_at: Timestamp { secs, nanos: 0 },
        updated_at: Timestamp { secs, nanos: 0 },
        word_count: 1,
        preview: String::new(),
    }
}

fn store() -> NoteStore {
    NoteStore::new("/data".to_string())
}

#[test]
fn store_folders() {
    let s = store();
    assert_eq!(s.base_dir(), "/data");
    assert_eq!(s.notes_dir(), "/data/notes");
    assert_eq!(s.metadata_path(), "/data/metadata.json");
    assert_eq!(s.category_dir("  Work "), "/data/notes/Work");
    assert_eq!(s.category_dir("   "), "/data/notes");
    assert_eq!(s.note_path_for("a.md", ""), "/data/notes/a.md");
    assert_eq!(s.note_path_for("a.md", "Work"), "/data/notes/Work/a.md");
}

#[test]
fn default_folder_from_variable() {
    assert_eq!(
        default_base_dir(Some("  /x/y  ".to_string()), Some("/docs".to_string()), None, None),
        "/x/y"
    );
}

#[test]
fn default_folder_when_variable_blank() {
    assert_eq!(
        default_base_dir(Some("   ".to_string()), Some("/docs".to_string()), Some("/data".to_string()), None),
        "/docs/花笺"
    );
    assert_eq!(default_base_dir(None, None, Some("/data".to_string()), None), "/data/花笺");
    assert_eq!(default_base_dir(None, None, None, Some("/cwd".to_string())), "/cwd/花笺");
    assert_eq!(default_base_dir(None, None, None, None), "./花笺");
    let s = default_store(None, Some("/docs".to_string()), None, None);
    assert_eq!(s.base_dir(), "/docs/花笺");
    assert_eq!(s.notes_dir(), "/docs/花笺/notes");
}

#[test]
fn create_note_records_new_entry_first() {
    let s = store();
    let mut md = MetadataFile::empty();
    let first = s.create_note(&mut md, request("", "# First\nbody", "  Work  "));
    let second = s.create_note(&mut md, request("Second", "a b c", ""));
    assert_eq!(first.id.len(), 36);
    assert_ne!(first.id, second.id);
    assert_eq!(first.title, "First");
    assert_eq!(first.category, "Work");
    assert_eq!(first.word_count, 10);
    assert_eq!(first.created_at, first.updated_at);
    assert_eq!(first.file_name, format!("First-{}.md", &first.id[..8]));
    assert_eq!(md.notes.len(), 2);
    assert_eq!(md.notes[0].id, second.id);
    assert_eq!(md.notes[1].id, first.id);
    assert_eq!(md.notes[1].preview, "# First body");
    assert_eq!(md.categories, vec!["Work".to_string()]);
}

#[test]
fn read_after_create_gives_the_note() {
    let s = store();
    let mut md = MetadataFile::empty();
    let note = s.create_note(&mut md, request("T", "hello world", "Notes"));
    let (meta, path) = s.read_note(&md, &note.id).unwrap();
    assert_eq!(path, format!("/data/notes/Notes/{}", note.file_name));
    let read = note_from_metadata(&meta, "hello world".to_string());
    assert_eq!(read.id, note.id);
    assert_eq!(read.title, note.title);
    assert_eq!(read.category, note.category);
    assert_eq!(read.created_at, note.created_at);
    assert_eq!(read.content, note.content);
    let back = metadata_from_note(&read);
    assert_eq!(back.preview, meta.preview);
    assert_eq!(back.word_count, meta.word_count);
}

#[test]
fn read_missing_note_is_refused() {
    let s = store();
    let md = MetadataFile::empty();
    match s.read_note(&md, "nope") {
        Err(StoreError::NoteNotFound { id }) => assert_eq!(id, "nope"),
        _ => panic!("expected NoteNotFound"),
    }
    assert!(matches!(s.export_markdown_file(&md, "nope"), Err(StoreError::NoteNotFound { .. })));
}

#[test]
fn export_copies_the_note_file() {
    let s = store();
    let mut md = MetadataFile::empty();
    let note = s.create_note(&mut md, request("T", "x", ""));
    assert_eq!(
        s.export_markdown_file(&md, &note.id).unwrap(),
        format!("/data/notes/{}", note.file_name)
    );
}

#[test]
fn update_note_keeps_identity_and_moves_file() {
    let s = store();
    let mut md = MetadataFile::empty();
    let note = s.create_note(&mut md, request("Old", "one", ""));
    let u = s.update_note(&mut md, &note.id, request("", "# New title\ntwo three", " Work ")).unwrap();
    assert_eq!(u.note.id, note.id);
    assert_eq!(u.note.file_name, note.file_name);
    assert_eq!(u.note.created_at, note.created_at);
    assert_eq!(u.note.title, "New title");
    assert_eq!(u.note.category, "Work");
    assert_eq!(u.note.word_count, 17);
    assert_eq!(u.old_path, format!("/data/notes/{}", note.file_name));
    assert_eq!(u.new_path, format!("/data/notes/Work/{}", note.file_name));
    assert!(u.relocate);
    assert_eq!(md.notes.len(), 1);
    assert_eq!(md.notes[0].title, "New title");
    assert_eq!(md.notes[0].preview, "# New title two three");
    assert_eq!(md.categories, vec!["Work".to_string()]);
}

#[test]
fn update_in_same_category_does_not_move() {
    let s = store();
    let mut md = MetadataFile::empty();
    let note = s.create_note(&mut md, request("A", "one", "Work"));
    let u = s.update_note(&mut md, &note.id, request("A", "two", "Work")).unwrap();
    assert!(!u.relocate);
    assert_eq!(u.old_path, u.new_path);
}

#[test]
fn update_missing_note_is_refused() {
    let s = store();
    let mut md = MetadataFile::empty();
    s.create_note(&mut md, request("A", "one", ""));
    let before = md.notes[0].title.clone();
    match s.update_note(&mut md, "missing", request("B", "two", "")) {
        Err(StoreError::NoteNotFound { id }) => assert_eq!(id, "missing"),
        _ => panic!("expected NoteNotFound"),
    }
    assert_eq!(md.notes[0].title, before);
}

#[test]
fn delete_note_removes_it() {
    let s = store();
    let mut md = MetadataFile::empty();
    let a = s.create_note(&mut md, request("A", "one", "Work"));
    let b = s.create_note(&mut md, request("B", "two", ""));
    let path = s.delete_note(&mut md, &a.id).unwrap();
    assert_eq!(path, format!("/data/notes/Work/{}", a.file_name));
    assert_eq!(md.notes.len(), 1);
    assert_eq!(md.notes[0].id, b.id);
    assert_eq!(md.categories, vec!["Work".to_string()]);
    assert!(matches!(s.read_note(&md, &a.id), Err(StoreError::NoteNotFound { .. })));
    assert!(matches!(s.delete_note(&mut md, &a.id), Err(StoreError::NoteNotFound { .. })));
}

#[test]
fn move_note_to_category_saves_it_there() {
    let s = store();
    let mut md = MetadataFile::empty();
    let note = s.create_note(&mut md, request("A", "# A\nbody", ""));
    let (u, meta) = s.move_note_to_category(&mut md, &note.id, note.clone(), "  Done ").unwrap();
    assert_eq!(u.note.category, "Done");
    assert_eq!(u.note.title, "A");
    assert_eq!(u.note.content, "# A\nbody");
    assert_eq!(meta.category, "Done");
    assert_eq!(meta.preview, "# A body");
    assert!(u.relocate);
    assert_eq!(md.notes[0].category, "Done");
    assert!(md.categories.contains(&"Done".to_string()));
}

#[test]
fn categories_are_listed_sorted_once() {
    let s = store();
    let mut md = MetadataFile::empty();
    md.categories = vec!["  b ".to_string(), "".to_string(), "a".to_string(), "b".to_string()];
    md.notes = vec![entry("1", "c", 1), entry("2", "", 2), entry("3", "a", 3)];
    assert_eq!(s.list_categories(&md), vec!["a".to_string(), "b".to_string(), "c".to_string()]);
}

#[test]
fn create_category_adds_sorted() {
    let s = store();
    let mut md = MetadataFile::empty();
    assert_eq!(s.create_category(&mut md, " b ").unwrap(), "/data/notes/b");
    assert_eq!(s.create_category(&mut md, "a").unwrap(), "/data/notes/a");
    s.create_category(&mut md, "b").unwrap();
    assert_eq!(md.categories, vec!["a".to_string(), "b".to_string()]);
    assert_eq!(s.list_categories(&md), vec!["a".to_string(), "b".to_string()]);
}

#[test]
fn create_category_refuses_bad_names() {
    let s = store();
    let mut md = MetadataFile::empty();
    assert!(matches!(s.create_category(&mut md, "  "), Err(StoreError::EmptyCategoryName)));
    assert!(matches!(s.create_category(&mut md, "x:y"), Err(StoreError::InvalidCategoryName)));
    assert!(md.categories.is_empty());
}

#[test]
fn rename_category_moves_its_notes() {
    let s = store();
    let mut md = MetadataFile::empty();
    md.categories = vec!["old".to_string(), "m".to_string()];
    md.notes = vec![entry("1", "old", 1), entry("2", "other", 2), entry("3", "old", 3)];
    match s.rename_category(&mut md, " old ", " z ").unwrap() {
        CategoryRename::Renamed { from_dir, to_dir, relocate } => {
            assert_eq!(from_dir, "/data/notes/old");
            assert_eq!(to_dir, "/data/notes/z");
            assert!(relocate);
        }
        CategoryRename::Unchanged => panic!("expected a rename"),
    }
    assert_eq!(md.categories, vec!["m".to_string(), "z".to_string()]);
    assert_eq!(md.notes[0].category, "z");
    assert_eq!(md.notes[1].category, "other");
    assert_eq!(md.notes[2].category, "z");
    assert_eq!(s.list_categories(&md), vec!["m".to_string(), "other".to_string(), "z".to_string()]);
}

#[test]
fn rename_category_to_same_name_changes_nothing() {
    let s = store();
    let mut md = MetadataFile::empty();
    md.categories = vec!["b".to_string(), "a".to_string()];
    assert!(matches!(s.rename_category(&mut md, "a", " a "), Ok(CategoryRename::Unchanged)));
    assert_eq!(md.categories, vec!["b".to_string(), "a".to_string()]);
}

#[test]
fn rename_category_errors() {
    let s = store();
    let mut md = MetadataFile::empty();
    md.categories = vec!["a".to_string()];
    assert!(matches!(s.rename_category(&mut md, "  ", "b"), Err(StoreError::RenameUncategorized)));
    assert!(matches!(s.rename_category(&mut md, "a", " "), Err(StoreError::EmptyCategoryName)));
    assert!(matches!(s.rename_category(&mut md, "a", "b|c"), Err(StoreError::InvalidCategoryName)));
    assert_eq!(md.categories, vec!["a".to_string()]);
}

#[test]
fn delete_category_uncategorizes_its_notes() {
    let s = store();
    let mut md = MetadataFile::empty();
    md.categories = vec!["a".to_string(), "b".to_string(), "a".to_string()];
    md.notes = vec![entry("1", "a", 1), entry("2", "b", 2)];
    assert_eq!(s.delete_category(&mut md, " a ").unwrap(), Some("/data/notes/a".to_string()));
    assert_eq!(md.categories, vec!["b".to_string()]);
    assert_eq!(md.notes[0].category, "");
    assert_eq!(md.notes[1].category, "b");
    assert_eq!(s.list_categories(&md), vec!["b".to_string()]);
    assert!(matches!(s.delete_category(&mut md, "   "), Err(StoreError::DeleteUncategorized)));
}

#[test]
fn list_notes_keeps_present_newest_first() {
    let s = store();
    let mut md = MetadataFile::empty();
    md.notes = vec![entry("1", "", 10), entry("2", "", 30), entry("3", "", 20), entry("4", "", 30)];
    let listed = s.list_notes(&mut md, &vec![true, true, false, true]);
    let ids: Vec<&str> = listed.iter().map(|m| m.id.as_str()).collect();
    assert_eq!(ids, vec!["2", "4", "1"]);
    let stored: Vec<&str> = md.notes.iter().map(|m| m.id.as_str()).collect();
    assert_eq!(stored, ids);
}

#[test]
fn list_notes_twice_is_the_same() {
    let s = store();
    let mut md = MetadataFile::empty();
    md.notes = vec![entry("1", "", 5), entry("2", "", 7), entry("3", "", 5)];
    let once: Vec<String> = s.list_notes(&mut md, &vec![true, true, true]).iter().map(|m| m.id.clone()).collect();
    let twice: Vec<String> = s.list_notes(&mut md, &vec![true, true, true]).iter().map(|m| m.id.clone()).collect();
    assert_eq!(once, twice);
    assert_eq!(once, vec!["2".to_string(), "1".to_string(), "3".to_string()]);
}

#[test]
fn import_refuses_other_files() {
    let s = store();
    let mut md = MetadataFile::empty();
    assert!(matches!(
        s.import_markdown_file(&mut md, "/x/report.doc", "text".to_string(), ""),
        Err(StoreError::UnsupportedImport)
    ));
    assert!(md.notes.is_empty());
}

#[test]
fn import_titles_note_after_file() {
    let s = store();
    let mut md = MetadataFile::empty();
    let note = s.import_markdown_file(&mut md, "/x/My Plan.MD", "# Heading\nx".to_string(), "Work").unwrap();
    assert_eq!(note.title, "My Plan");
    assert_eq!(note.category, "Work");
    assert_eq!(note.content, "# Heading\nx");
    assert_eq!(md.notes.len(), 1);
}

#[test]
fn seeds_fill_only_an_empty_library() {
    let s = store();
    let mut md = MetadataFile::empty();
    let made = s.seed_notes_if_empty(&mut md, &Vec::new(), seed_notes());
    assert_eq!(made.len(), 5);
    assert_eq!(made[0].title, "README");
    assert_eq!(made[3].category, "开发");
    assert_eq!(md.notes.len(), 5);
    assert_eq!(md.notes[0].id, made[4].id);
    assert_eq!(md.categories, vec!["开发".to_string(), "素材".to_string()]);
    let listed = md.notes.clone();
    let more = s.seed_notes_if_empty(&mut md, &listed, seed_notes());
    assert!(more.is_empty());
    assert_eq!(md.notes.len(), 5);
}

#[test]
fn rename_onto_an_existing_category_merges() {
    let s = store();
    let mut md = MetadataFile::empty();
    md.categories = vec!["a".to_string(), "b".to_string()];
    md.notes = vec![entry("1", "a", 1), entry("2", "b", 2)];
    s.rename_category(&mut md, "a", "b").unwrap();
    assert_eq!(md.categories, vec!["b".to_string(), "b".to_string()]);
    assert_eq!(md.notes[0].category, "b");
    assert_eq!(s.list_categories(&md), vec!["b".to_string()]);
}

#[test]
fn renamed_notes_live_in_the_new_folder_by_name() {
    let s = store();
    let mut md = MetadataFile::empty();
    md.notes = vec![entry("1", "old", 1), entry("2", "keep", 2)];
    let before: Vec<String> = md.notes.iter().map(|n| s.note_path(n)).collect();
    let renamed = s.rename_category(&mut md, "old", "new").unwrap();
    let (from_dir, to_dir) = match renamed {
        CategoryRename::Renamed { from_dir, to_dir, .. } => (from_dir, to_dir),
        CategoryRename::Unchanged => panic!("expected a rename"),
    };
    assert_eq!(before[0], format!("{from_dir}/1.md"));
    assert_eq!(s.note_path(&md.notes[0]), format!("{to_dir}/1.md"));
    assert_eq!(s.note_path(&md.notes[1]), before[1]);
    assert_eq!(md.notes[0].title, "title 1");
    assert_eq!(md.notes[0].file_name, "1.md");
}

#[test]
fn rename_with_an_empty_listed_name() {
    let s = store();
    let mut md = MetadataFile::empty();
    md.categories = vec!["".to_string(), "old".to_string(), "keep".to_string()];
    md.notes = vec![entry("1", "old", 1), entry("2", "", 2), entry("3", "note-only", 3)];
    s.rename_category(&mut md, "old", "new").unwrap();
    assert_eq!(
        s.list_categories(&md),
        vec!["keep".to_string(), "new".to_string(), "note-only".to_string()]
    );
}
