use floral_notepad::clock::Timestamp;
use floral_notepad::editor::{
    ExportStep, first_note_id, status_line_count, toast_visible, EditReaction, EditorMode, EditorState,
    Layout, MoveStep, SidePanelMode, DEFAULT_NOTE, DRAFT_TEXT,
};
use floral_notepad::hotkey::{consume_hotkey_flag, HotkeyFlag};
use floral_notepad::model::{Note, NoteMetadata};
use floral_notepad::notetext::count_note_chars;

fn saved(id: &str, category: &str) -> Note {
    Note {
        id: id.to_string(),
        title: "T".to_string(),
        file_name: format!("{id}.md"),
        category: category.to_string(),
        created_at: Timestamp { secs: 1, nanos: 0 },
        updated_at: Timestamp { secs: 2, nanos: 0 },
        word_count: 9,
        content: "content".to_string(),
    }
}

fn meta(id: &str) -> NoteMetadata {
    NoteMetadata {
        id: id.to_string(),
        title: id.to_string(),
        file_name: format!("{id}.md"),
        category: String::new(),
        created_at: Timestamp { secs: 1, nanos: 0 },
        updated_at: Timestamp { secs: 1_700_000_000, nanos: 0 },
        word_count: 1,
        preview: String::new(),
    }
}

#[test]
fn new_window_state() {
    let s = EditorState::new();
    assert!(s.current_note_id.is_none());
    assert_eq!(s.current_category, "");
    assert!(!s.dirty);
    assert_eq!(s.mode, EditorMode::Split);
    assert_eq!(s.word_count, count_note_chars(DEFAULT_NOTE));
    assert!(s.sidebar_visible && !s.pinned && !s.line_numbers && s.auto_save);
    assert_eq!(s.side_panel, None);
    assert_eq!(s.tab_size, 2);
    assert_eq!(s.layout(), Layout::Main { sidebar: true, panel: None });
    assert_eq!(DRAFT_TEXT, "# 未命名笔记\n\n");
}

#[test]
fn edit_of_a_draft_marks_it_modified() {
    let mut s = EditorState::new();
    s.delete_pending = true;
    assert_eq!(s.editor_changed("a b c"), EditReaction::Modified);
    assert!(s.dirty);
    assert!(!s.delete_pending);
    assert_eq!(s.word_count, 3);
}

#[test]
fn edit_of_a_stored_note_saves_with_auto_save() {
    let mut s = EditorState::new();
    s.note_opened(&saved("n1", "Work"));
    assert_eq!(s.editor_changed("xy"), EditReaction::SaveNow);
    s.toggle_auto_save();
    assert_eq!(s.editor_changed("xyz"), EditReaction::Modified);
    assert_eq!(s.word_count, 3);
}

#[test]
fn edits_while_replacing_are_ignored() {
    let mut s = EditorState::new();
    s.begin_replace();
    assert_eq!(s.editor_changed("whatever"), EditReaction::Ignored);
    assert!(!s.dirty);
    s.end_replace("one two");
    assert!(!s.suppress_editor_change);
    assert_eq!(s.word_count, 6);
}

#[test]
fn saving_makes_the_note_current() {
    let mut s = EditorState::new();
    s.editor_changed("x");
    s.note_saved(&saved("n1", "Work"));
    assert_eq!(s.current_note_id.as_deref(), Some("n1"));
    assert_eq!(s.current_category, "Work");
    assert_eq!(s.word_count, 9);
    assert!(!s.dirty);
    assert!(s.is_current("n1"));
    assert!(!s.is_current("n2"));
}

#[test]
fn save_before_switch_only_when_modified_with_auto_save() {
    let mut s = EditorState::new();
    assert!(!s.needs_save_before_switch());
    s.editor_changed("x");
    assert!(s.needs_save_before_switch());
    s.toggle_auto_save();
    assert!(!s.needs_save_before_switch());
}

#[test]
fn markdown_insert_marks_modified() {
    let mut s = EditorState::new();
    assert!(!s.markdown_inserted("**b**"));
    assert!(s.dirty);
    s.note_saved(&saved("n1", ""));
    assert!(s.markdown_inserted("x"));
}

#[test]
fn draft_resets_current_note() {
    let mut s = EditorState::new();
    s.note_saved(&saved("n1", "Work"));
    s.editor_changed("x");
    s.draft_started();
    assert!(s.current_note_id.is_none());
    assert_eq!(s.current_category, "");
    assert!(!s.dirty);
    assert_eq!(s.current_category_label(), "未分类");
}

#[test]
fn import_keeps_count() {
    let mut s = EditorState::new();
    let before = s.word_count;
    s.note_imported(&saved("n9", "X"));
    assert_eq!(s.current_note_id.as_deref(), Some("n9"));
    assert_eq!(s.word_count, before);
}

#[test]
fn delete_flow() {
    let mut s = EditorState::new();
    s.request_delete();
    assert!(s.delete_confirm_id.is_none());
    s.note_saved(&saved("n1", ""));
    s.request_delete();
    assert_eq!(s.delete_confirm_id.as_deref(), Some("n1"));
    assert_eq!(s.confirm_delete().as_deref(), Some("n1"));
    assert!(s.delete_confirm_id.is_none());
    assert!(s.note_deleted("n1"));
    assert!(s.current_note_id.is_none());
    assert!(!s.note_deleted("n1"));
}

#[test]
fn delete_cancelled_or_empty() {
    let mut s = EditorState::new();
    s.note_saved(&saved("n1", ""));
    s.request_delete();
    s.cancel_delete();
    assert!(s.delete_confirm_id.is_none());
    assert_eq!(s.confirm_delete(), None);
    s.delete_confirm_id = Some(String::new());
    assert_eq!(s.confirm_delete(), None);
}

#[test]
fn current_note_position() {
    let mut s = EditorState::new();
    let notes = vec![meta("a"), meta("b")];
    assert_eq!(s.current_note(&notes), None);
    assert_eq!(s.current_updated_at(&notes), "草稿");
    s.note_saved(&saved("b", ""));
    assert_eq!(s.current_note(&notes), Some(1));
    assert_eq!(s.current_updated_at(&notes).len(), 11);
    assert_eq!(first_note_id(&notes).as_deref(), Some("a"));
    assert_eq!(first_note_id(&Vec::new()), None);
}

#[test]
fn toggles_undo_themselves() {
    let mut s = EditorState::new();
    s.toggle_sidebar();
    assert!(!s.sidebar_visible);
    s.toggle_sidebar();
    assert!(s.sidebar_visible);
    assert!(s.toggle_line_numbers());
    assert!(!s.toggle_line_numbers());
    assert!(s.toggle_theme());
    assert!(!s.toggle_theme());
    s.toggle_side_panel(SidePanelMode::Settings);
    assert_eq!(s.side_panel, Some(SidePanelMode::Settings));
    s.toggle_side_panel(SidePanelMode::Settings);
    assert_eq!(s.side_panel, None);
    s.toggle_side_panel(SidePanelMode::About);
    s.toggle_side_panel(SidePanelMode::Settings);
    assert_eq!(s.side_panel, Some(SidePanelMode::Settings));
    s.close_side_panel();
    assert_eq!(s.side_panel, None);
}

#[test]
fn pin_shows_tile_and_unpin_restores() {
    let mut s = EditorState::new();
    s.toggle_side_panel(SidePanelMode::About);
    assert!(s.toggle_pin());
    assert_eq!(s.layout(), Layout::Tile);
    assert!(!s.sidebar_visible);
    assert_eq!(s.side_panel, None);
    assert!(!s.toggle_pin());
    assert!(s.sidebar_visible);
    assert_eq!(s.layout(), Layout::Main { sidebar: true, panel: None });
}

#[test]
fn hotkey_toggles_floating_note() {
    let mut s = EditorState::new();
    s.hotkey_pressed();
    assert_eq!(s.layout(), Layout::Floating);
    s.hotkey_pressed();
    assert_eq!(s.side_panel, None);
    s.open_floating_window();
    assert_eq!(s.side_panel, Some(SidePanelMode::Floating));
}

#[test]
fn auto_save_turned_on_saves_modified_note() {
    let mut s = EditorState::new();
    s.toggle_auto_save();
    s.editor_changed("x");
    assert!(s.toggle_auto_save());
    assert!(!s.toggle_auto_save());
}

#[test]
fn mode_labels() {
    let mut s = EditorState::new();
    assert_eq!(s.mode_label(), "分栏");
    s.set_mode(EditorMode::Edit);
    assert_eq!(s.mode_label(), "编辑");
    s.set_mode(EditorMode::Preview);
    assert_eq!(s.mode_label(), "预览");
}

#[test]
fn category_events() {
    let mut s = EditorState::new();
    s.category_created("Work".to_string());
    assert_eq!(s.current_category_label(), "Work");
    assert!(s.is_current_category("Work"));
    s.start_rename("Work".to_string());
    assert_eq!(s.renaming_category.as_deref(), Some("Work"));
    s.category_renamed("Work", "Job".to_string());
    assert_eq!(s.current_category, "Job");
    assert!(s.renaming_category.is_none());
    s.category_renamed("Other", "X".to_string());
    assert_eq!(s.current_category, "Job");
    s.start_rename("Job".to_string());
    s.cancel_rename();
    assert!(s.renaming_category.is_none());
    s.category_deleted("Job");
    assert_eq!(s.current_category, "");
}

#[test]
fn moving_draft_or_stored_note() {
    let mut s = EditorState::new();
    assert!(matches!(s.move_to_category("A".to_string()), MoveStep::Draft));
    assert_eq!(s.current_category, "A");
    s.note_saved(&saved("n1", "A"));
    s.editor_changed("x");
    match s.move_to_category("B".to_string()) {
        MoveStep::Move { id, save_first } => {
            assert_eq!(id, "n1");
            assert!(save_first);
        }
        MoveStep::Draft => panic!("expected a move"),
    }
}

#[test]
fn search_counts_hits() {
    let mut s = EditorState::new();
    let notes = vec![meta("apple"), meta("banana")];
    assert_eq!(s.search_changed("  APP ", &notes), "app");
    assert_eq!(s.search_hits, 1);
    assert_eq!(s.search_changed("   ", &notes), "");
    assert_eq!(s.search_hits, 0);
}

#[test]
fn tab_size_stays_in_range() {
    let mut s = EditorState::new();
    s.decrease_tab_size();
    assert_eq!(s.tab_size, 1);
    s.decrease_tab_size();
    assert_eq!(s.tab_size, 1);
    for _ in 0..10 {
        s.increase_tab_size();
    }
    assert_eq!(s.tab_size, 8);
}

#[test]
fn line_counts() {
    assert_eq!(status_line_count(""), 1);
    assert_eq!(status_line_count("a"), 1);
    assert_eq!(status_line_count("a\nb"), 2);
    assert_eq!(status_line_count("a\nb\n"), 2);
    assert_eq!(status_line_count("a\n\nb"), 3);
    assert_eq!(status_line_count("\n"), 1);
    assert_eq!(status_line_count(DEFAULT_NOTE), DEFAULT_NOTE.lines().count());
}

#[test]
fn toasts_last_three_seconds() {
    assert!(toast_visible(0));
    assert!(toast_visible(2));
    assert!(!toast_visible(3));
}

#[test]
fn save_request_takes_title_from_text() {
    let mut s = EditorState::new();
    s.category_created("Work".to_string());
    let r = s.note_request("\n# 花笺\nbody".to_string());
    assert_eq!(r.title, "花笺");
    assert_eq!(r.content, "\n# 花笺\nbody");
    assert_eq!(r.category, "Work");
    let d = s.note_request("   ".to_string());
    assert_eq!(d.title, "未命名笔记");
}

#[test]
fn hotkey_press_is_seen_once() {
    let mut f = HotkeyFlag::new();
    assert!(!consume_hotkey_flag(&mut f));
    f.raise();
    f.raise();
    assert!(consume_hotkey_flag(&mut f));
    assert!(!consume_hotkey_flag(&mut f));
    f.raise();
    assert!(consume_hotkey_flag(&mut f));
}

#[test]
fn save_goes_over_current_note_or_new() {
    let mut s = EditorState::new();
    assert_eq!(s.save_target(), None);
    s.note_saved(&saved("n1", ""));
    assert_eq!(s.save_target().as_deref(), Some("n1"));
}

#[test]
fn export_plans() {
    let mut s = EditorState::new();
    assert!(matches!(s.export_plan(), ExportStep::EditorText));
    s.note_saved(&saved("n1", ""));
    match s.export_plan() {
        ExportStep::FromStore { id, save_first } => {
            assert_eq!(id, "n1");
            assert!(!save_first);
        }
        ExportStep::EditorText => panic!("expected the stored note"),
    }
    s.editor_changed("x");
    assert!(matches!(s.export_plan(), ExportStep::FromStore { save_first: true, .. }));
}
