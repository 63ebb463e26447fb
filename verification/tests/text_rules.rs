use floral_notepad::error::StoreError;
use floral_notepad::notetext::{
    build_preview, count_note_chars, export_file_name, normalize_category, normalize_note_title,
    safe_file_stem, unique_note_file_name,
};

#[test]
fn title_is_trimmed_title() {
    assert_eq!(normalize_note_title("  Hello  ", "# Other"), "Hello");
}

#[test]
fn title_from_first_heading_line() {
    assert_eq!(normalize_note_title("", "\n\n##  Heading  \nbody"), "Heading");
    assert_eq!(normalize_note_title("   ", "plain first line\n# later"), "plain first line");
}

#[test]
fn title_skips_lines_that_are_only_marks() {
    assert_eq!(normalize_note_title("", "   \n###\n  # Real\n"), "Real");
}

#[test]
fn title_with_crlf_lines() {
    assert_eq!(normalize_note_title("", "\r\n# T\r\nx"), "T");
}

#[test]
fn title_default_when_nothing_to_use() {
    assert_eq!(normalize_note_title("  ", "  \n#\n\t\n"), "未命名笔记");
    assert_eq!(normalize_note_title("", ""), "未命名笔记");
}

#[test]
fn title_is_cut_to_eighty_chars() {
    let long = "字".repeat(100);
    let t = normalize_note_title(&long, "");
    assert_eq!(t.chars().count(), 80);
    assert_eq!(t, "字".repeat(80));
    let heading = format!("# {}", "b".repeat(90));
    assert_eq!(normalize_note_title("", &heading), "b".repeat(80));
}

#[test]
fn title_of_the_default_note() {
    assert_eq!(normalize_note_title("", "# 墨のち雨\n\n伞を差して"), "墨のち雨");
}

#[test]
fn preview_joins_words() {
    assert_eq!(build_preview("  Hello   world\n\nfoo\t"), "Hello world foo");
    assert_eq!(build_preview(""), "");
    assert_eq!(build_preview(" \n\t "), "");
}

#[test]
fn preview_is_cut_to_eighty_chars() {
    let text = "ab ".repeat(40);
    let p = build_preview(&text);
    assert_eq!(p.chars().count(), 80);
    assert_eq!(p, "ab ".repeat(27)[..80].to_string());
}

#[test]
fn count_skips_whitespace() {
    assert_eq!(count_note_chars("a b\n c"), 3);
    assert_eq!(count_note_chars("墨 の\u{3000}雨"), 3);
    assert_eq!(count_note_chars(""), 0);
    assert_eq!(count_note_chars(" \t\r\n"), 0);
}

#[test]
fn count_adds_up_over_concatenation() {
    let a = "ab c\n";
    let b = " 花 笺";
    let ab = format!("{a}{b}");
    assert_eq!(count_note_chars(&ab), count_note_chars(a) + count_note_chars(b));
}

#[test]
fn safe_stem_replaces_reserved_characters() {
    assert_eq!(safe_file_stem("  a/b:c  "), Some("a_b_c".to_string()));
    assert_eq!(safe_file_stem("Hello World"), Some("Hello_World".to_string()));
    assert_eq!(safe_file_stem("a   b"), Some("a_b".to_string()));
    assert_eq!(safe_file_stem("_a_"), Some("a".to_string()));
    assert_eq!(safe_file_stem("<x>"), Some("x".to_string()));
}

#[test]
fn safe_stem_none_when_nothing_left() {
    assert_eq!(safe_file_stem("   "), None);
    assert_eq!(safe_file_stem("___"), None);
    assert_eq!(safe_file_stem("? * |"), None);
}

#[test]
fn safe_stem_is_cut_to_eighty_chars() {
    let s = safe_file_stem(&"x".repeat(120)).unwrap();
    assert_eq!(s.chars().count(), 80);
}

#[test]
fn safe_stem_has_no_unsafe_characters() {
    let s = safe_file_stem(" a\u{7}b \"c\" d\\e ").unwrap();
    assert_eq!(s, "a_b__c__d_e");
    assert!(!s.chars().any(|c| c.is_whitespace() || c.is_control()));
    assert!(!s.starts_with('_'));
}

#[test]
fn file_name_from_title_and_id() {
    assert_eq!(unique_note_file_name("My Note", "12345678-abcd"), "My_Note-12345678.md");
    assert_eq!(unique_note_file_name("", "abc"), "untitled-abc.md");
    assert_eq!(unique_note_file_name("***", "abcdefghij"), "untitled-abcdefgh.md");
}

#[test]
fn export_file_name_from_title() {
    assert_eq!(export_file_name("a b"), "a_b.md");
    assert_eq!(export_file_name(""), "untitled.md");
}

#[test]
fn category_name_is_trimmed() {
    assert_eq!(normalize_category("  Work  ").unwrap(), "Work");
}

#[test]
fn category_name_empty_is_refused() {
    assert!(matches!(normalize_category("   "), Err(StoreError::EmptyCategoryName)));
}

#[test]
fn category_name_with_reserved_char_is_refused() {
    assert!(matches!(normalize_category("a/b"), Err(StoreError::InvalidCategoryName)));
    assert!(matches!(normalize_category("a\u{1}"), Err(StoreError::InvalidCategoryName)));
}

#[test]
fn category_name_normalizes_once() {
    let once = normalize_category("  学习  ").unwrap();
    let twice = normalize_category(&once).unwrap();
    assert_eq!(once, twice);
}

#[test]
fn error_messages() {
    assert_eq!(StoreError::NoteNotFound { id: "x".to_string() }.message(), "找不到笔记: x");
    assert_eq!(StoreError::UnsupportedImport.message(), "只支持导入 Markdown 文件");
    assert_eq!(StoreError::RenameUncategorized.message(), "不能重命名「未分类」");
    assert_eq!(StoreError::DeleteUncategorized.message(), "不能删除「未分类」");
    assert_eq!(StoreError::EmptyCategoryName.message(), "分类名不能为空");
    assert_eq!(StoreError::InvalidCategoryName.message(), "分类名不能包含特殊字符");
}
