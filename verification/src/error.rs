//! The ways a note-library request can be refused.
use vstd::prelude::*;

verus! {

/// A refused request, with the message the user sees for it.
#[derive(Debug)]
pub enum StoreError {
    /// No note in the index has this id.
    NoteNotFound { id: String },
    /// Only `.md`, `.markdown` and `.txt` files can be imported.
    UnsupportedImport,
    /// The uncategorized group cannot be renamed.
    RenameUncategorized,
    /// The uncategorized group cannot be deleted.
    DeleteUncategorized,
    /// A category name is empty once trimmed.
    EmptyCategoryName,
    /// A category name holds a reserved or control character.
    InvalidCategoryName,
}

impl StoreError {
    /// The message shown to the user for this error.
    pub fn message(&self) -> (m: String)
        ensures
            m@ == match self {
                StoreError::NoteNotFound { id } => "找不到笔记: "@ + id@,
                StoreError::UnsupportedImport => "只支持导入 Markdown 文件"@,
                StoreError::RenameUncategorized => "不能重命名「未分类」"@,
                StoreError::DeleteUncategorized => "不能删除「未分类」"@,
                StoreError::EmptyCategoryName => "分类名不能为空"@,
                StoreError::InvalidCategoryName => "分类名不能包含特殊字符"@,
            },
    {
        match self {
            StoreError::NoteNotFound { id } => {
                let mut m = String::from_str("找不到笔记: ");
                m.append(id.as_str());
                m
            },
            StoreError::UnsupportedImport => String::from_str("只支持导入 Markdown 文件"),
            StoreError::RenameUncategorized => String::from_str("不能重命名「未分类」"),
            StoreError::DeleteUncategorized => String::from_str("不能删除「未分类」"),
            StoreError::EmptyCategoryName => String::from_str("分类名不能为空"),
            StoreError::InvalidCategoryName => String::from_str("分类名不能包含特殊字符"),
        }
    }
}

} // verus!
