use floral_notepad::clock::Timestamp;
use floral_notepad::labels::{
    card_meta_label, decimal_text, group_starts, line_count_label, note_count_label,
    save_mode_label, save_state_label, word_count_label,
};
use floral_notepad::model::NoteMetadata;
use floral_notepad::order::{same_text, text_less};
use floral_notepad::search::{
    category_label_text, contains_text, matches_search, note_matches_query, search_hits,
    search_query, sidebar_notes,
};

fn note(id: &str, title: &str, category: &str, secs: i64) -> NoteMetadata {
    NoteMetadata {
        id: id.to_string(),
        title: title.to_string(),
        file_name: format!("{id}.md"),
        category: category.to_string(),
        created_at: Timestamp { secs, nanos: 0 },
        updated_at: Timestamp { secs, nanos: 0 },
        word_count: 3,
        preview: format!("preview of {title}"),
    }
}

#[test]
fn query_is_trimmed_lower_case() {
    assert_eq!(search_query("  HeLLo Wörld "), "hello wörld");
    assert_eq!(search_query("   "), "");
}

#[test]
fn substring_search() {
    assert!(contains_text("hello world", "lo w"));
    assert!(contains_text("hello", ""));
    assert!(contains_text("墨のち雨", "のち"));
    assert!(!contains_text("hello", "hellos"));
    assert!(!contains_text("", "a"));
}

#[test]
fn search_matches_any_field_in_lower_case() {
    assert!(matches_search("abc", &["xx", "zABCd"]));
    assert!(matches_search("", &[]));
    assert!(!matches_search("zz", &["a", "b"]));
}

#[test]
fn uncategorized_notes_match_their_label() {
    let n = note("1", "T", "", 1);
    assert!(note_matches_query("未分类", &n));
    assert!(note_matches_query("preview", &n));
    assert!(!note_matches_query("work", &n));
    assert_eq!(category_label_text(""), "未分类");
    assert_eq!(category_label_text("Work"), "Work");
}

#[test]
fn hits_count_matching_notes() {
    let notes = vec![note("1", "Apple", "", 1), note("2", "Banana", "Fruit", 2), note("3", "Cherry", "", 3)];
    assert_eq!(search_hits("", &notes), 0);
    assert_eq!(search_hits("an", &notes), 1);
    assert_eq!(search_hits("fruit", &notes), 1);
    assert_eq!(search_hits("未分类", &notes), 2);
    assert_eq!(search_hits("e", &notes), 3);
}

#[test]
fn sidebar_order() {
    let notes = vec![
        note("u1", "u1", "", 5),
        note("b1", "b1", "b", 1),
        note("a1", "a1", "a", 1),
        note("b2", "b2", "b", 9),
        note("u2", "u2", "", 7),
        note("a2", "a2", "a", 1),
    ];
    let shown = sidebar_notes("", &notes);
    let ids: Vec<&str> = shown.iter().map(|n| n.id.as_str()).collect();
    assert_eq!(ids, vec!["a1", "a2", "b2", "b1", "u2", "u1"]);
}

#[test]
fn sidebar_filters_by_query() {
    let notes = vec![note("1", "Apple", "", 1), note("2", "Banana", "x", 2)];
    let shown = sidebar_notes("app", &notes);
    assert_eq!(shown.len(), 1);
    assert_eq!(shown[0].id, "1");
}

#[test]
fn text_order() {
    assert!(text_less("a", "b"));
    assert!(!text_less("b", "a"));
    assert!(text_less("ab", "abc"));
    assert!(!text_less("abc", "abc"));
    assert!(text_less("Z", "a"));
    assert!(same_text("花笺", "花笺"));
    assert!(!same_text("a", "b"));
}

#[test]
fn decimal_numbers() {
    assert_eq!(decimal_text(0), "0");
    assert_eq!(decimal_text(7), "7");
    assert_eq!(decimal_text(10), "10");
    assert_eq!(decimal_text(1234567), "1234567");
    assert_eq!(decimal_text(usize::MAX), usize::MAX.to_string());
}

#[test]
fn count_labels() {
    assert_eq!(word_count_label(42), "42 字");
    assert_eq!(line_count_label(3), "3 行");
    assert_eq!(note_count_label(2, 10, 2), "2 / 10 篇笔记");
    assert_eq!(note_count_label(0, 10, 10), "10 篇笔记");
    assert_eq!(card_meta_label("09:05", 12), "09:05 · 12 字");
}

#[test]
fn state_labels() {
    assert_eq!(save_state_label(true), "未保存");
    assert_eq!(save_state_label(false), "已保存");
    assert_eq!(save_mode_label(true), "Auto");
    assert_eq!(save_mode_label(false), "Manual");
}

#[test]
fn groups_start_where_label_changes() {
    let notes = vec![note("1", "a", "x", 1), note("2", "b", "x", 1), note("3", "c", "", 1), note("4", "d", "", 1)];
    assert_eq!(group_starts(&notes), vec![true, false, true, false]);
    assert!(group_starts(&Vec::new()).is_empty());
}

#[test]
fn hits_equal_notes_shown() {
    let notes = vec![note("1", "Apple", "", 1), note("2", "Banana", "Fruit", 2), note("3", "Cherry", "", 3)];
    for q in ["a", "an", "fruit", "未分类", "zzz"] {
        let shown = sidebar_notes(q, &notes);
        assert_eq!(search_hits(q, &notes), shown.len());
        assert!(shown.iter().all(|n| note_matches_query(q, n)));
    }
}
