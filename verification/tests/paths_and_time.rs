use floral_notepad::clock::{
    format_full_time, format_short_date, format_time, full_time_text, is_later, short_date_text,
    time_text, LocalClock, Timestamp,
};
use floral_notepad::model::{MetadataFile, SaveNoteRequest};
use floral_notepad::paths::{display_name, import_title, is_importable, normalize_markdown_extension};
use floral_notepad::store::NoteStore;

#[test]
fn display_name_is_last_component() {
    assert_eq!(display_name("/tmp/notes/a.md"), "a.md");
    assert_eq!(display_name("b.txt"), "b.txt");
}

#[test]
fn display_name_without_file_name() {
    assert_eq!(display_name("/"), "untitled.md");
    assert_eq!(display_name(""), "untitled.md");
    assert_eq!(display_name("/a/.."), "untitled.md");
}

#[test]
fn markdown_extension_added_when_missing() {
    assert_eq!(normalize_markdown_extension("/tmp/x"), "/tmp/x.md");
    assert_eq!(normalize_markdown_extension("/tmp/x.txt"), "/tmp/x.txt");
    assert_eq!(normalize_markdown_extension("/tmp/x.markdown"), "/tmp/x.markdown");
}

#[test]
fn importable_extensions() {
    assert!(is_importable("a.md"));
    assert!(is_importable("/p/a.MD"));
    assert!(is_importable("a.Markdown"));
    assert!(is_importable("a.TXT"));
    assert!(!is_importable("a.doc"));
    assert!(!is_importable("noext"));
    assert!(!is_importable("a.mdx"));
}

#[test]
fn import_title_is_file_stem() {
    assert_eq!(import_title("/x/My Note.md"), "My Note");
    assert_eq!(import_title("/x/archive.tar.md"), "archive.tar");
    assert_eq!(import_title("/"), "");
}

#[test]
fn store_paths_are_joined() {
    let s = NoteStore::new("/base/".to_string());
    assert_eq!(s.notes_dir(), "/base/notes");
    assert_eq!(s.note_path_for("a.md", "x"), "/base/notes/x/a.md");
}

#[test]
fn moving_between_equal_folders_is_no_move() {
    let s = NoteStore::new("/a".to_string());
    let mut md = MetadataFile::empty();
    let req = |c: &str| SaveNoteRequest { title: "t".to_string(), content: "c".to_string(), category: c.to_string() };
    let note = s.create_note(&mut md, req("x"));
    assert!(!s.update_note(&mut md, &note.id, req(" x ")).unwrap().relocate);
    assert!(s.update_note(&mut md, &note.id, req("y")).unwrap().relocate);
    assert!(s.update_note(&mut md, &note.id, req("")).unwrap().relocate);
}

#[test]
fn clock_texts() {
    let c = LocalClock { month: 3, day: 7, hour: 9, minute: 5 };
    assert_eq!(short_date_text(c), "03-07");
    assert_eq!(time_text(c), "09:05");
    assert_eq!(full_time_text(c), "03-07 09:05");
    let d = LocalClock { month: 12, day: 31, hour: 23, minute: 59 };
    assert_eq!(full_time_text(d), "12-31 23:59");
}

#[test]
fn formatted_times_have_their_shape() {
    let t = Timestamp { secs: 1_700_000_000, nanos: 0 };
    let date = format_short_date(t).unwrap();
    let time = format_time(t).unwrap();
    let full = format_full_time(t).unwrap();
    assert_eq!(date.len(), 5);
    assert_eq!(&date[2..3], "-");
    assert_eq!(time.len(), 5);
    assert_eq!(&time[2..3], ":");
    assert_eq!(full, format!("{date} {time}"));
}

#[test]
fn unrepresentable_time_is_not_formatted() {
    let t = Timestamp { secs: i64::MAX, nanos: 0 };
    assert_eq!(format_short_date(t), None);
    assert_eq!(format_full_time(t), None);
}

#[test]
fn later_compares_seconds_then_nanos() {
    let a = Timestamp { secs: 10, nanos: 5 };
    let b = Timestamp { secs: 10, nanos: 4 };
    let c = Timestamp { secs: 9, nanos: 999 };
    assert!(is_later(a, b));
    assert!(!is_later(b, a));
    assert!(is_later(b, c));
    assert!(!is_later(a, a));
}

#[test]
fn new_notes_are_stamped_now() {
    let s = NoteStore::new("/a".to_string());
    let mut md = MetadataFile::empty();
    let req = SaveNoteRequest { title: "t".to_string(), content: "c".to_string(), category: String::new() };
    let note = s.create_note(&mut md, req);
    assert!(note.created_at.secs > 1_577_836_800);
    assert!(note.created_at.nanos < 2_000_000_000);
}

#[test]
fn new_ids_have_uuid_shape() {
    let s = NoteStore::new("/a".to_string());
    let mut md = MetadataFile::empty();
    let req = SaveNoteRequest { title: "t".to_string(), content: "c".to_string(), category: String::new() };
    let id = s.create_note(&mut md, req).id;
    assert_eq!(id.len(), 36);
    for (i, c) in id.chars().enumerate() {
        if i == 8 || i == 13 || i == 18 || i == 23 {
            assert_eq!(c, '-');
        } else {
            assert!(c.is_ascii_digit() || ('a'..='f').contains(&c));
        }
    }
}

#[test]
fn formatted_date_is_that_of_the_time_within_a_day() {
    let t = Timestamp { secs: 1_700_000_000, nanos: 0 };
    let date = format_short_date(t).unwrap();
    assert!(["11-13", "11-14", "11-15"].contains(&date.as_str()));
    let epoch = format_short_date(Timestamp { secs: 0, nanos: 0 }).unwrap();
    assert!(["12-31", "01-01", "01-02"].contains(&epoch.as_str()));
}
