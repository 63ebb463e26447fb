//! The note store: where notes and the index live on disk, and what
//! each store request does to the index and which files it touches.
//! Reading and writing the files is left to the caller; the store
//! decides what to read, write, move and remove.
use vstd::prelude::*;
use crate::clock::now;
use crate::error::StoreError;
use crate::index::{
    created_meta, index_after_create, index_after_delete, index_after_update, not_text,
    position_of, recategorized, updated_meta,
};
use crate::model::{
    meta_views, note_of_meta, string_views, IndexView, MetaView, MetadataFile, Note, NoteMetadata,
    NoteView, RequestView, SaveNoteRequest,
};
use crate::notetext::{has_forbidden, normalize_category};
use crate::order::{insert_name, same_text, sort_names, sorted, strictly_sorted, trim_string};
use crate::paths::{
    import_title, import_title_of, importable, is_importable, join_path, path_join, paths_equal,
    same_path,
};
use crate::strings::trim;

verus! {

broadcast use vstd::seq_lib::group_seq_properties;

/// Where the notes of a library are kept: the base folder (holding the
/// index file) and the notes folder inside it.
#[derive(Debug)]
pub struct NoteStore {
    base_dir: String,
    notes_dir: String,
}

impl Clone for NoteStore {
    fn clone(&self) -> (r: Self)
        ensures
            r == *self,
    {
        NoteStore { base_dir: self.base_dir.clone(), notes_dir: self.notes_dir.clone() }
    }
}

/// The folder of a category: the notes folder itself for the
/// uncategorized group, else a folder named after the trimmed category.
pub open spec fn category_dir_of(notes_dir: Seq<char>, category: Seq<char>) -> Seq<char> {
    if trim(category).len() == 0 {
        notes_dir
    } else {
        path_join(notes_dir, trim(category))
    }
}

/// The file of a note: its file name in its category's folder.
pub open spec fn note_path_of(notes_dir: Seq<char>, file_name: Seq<char>, category: Seq<char>) -> Seq<
    char,
> {
    path_join(category_dir_of(notes_dir, category), file_name)
}

/// The folder the library lives in: the trimmed value of the
/// `FLORAL_NOTEPAPER_DATA_DIR` variable when it is set and not blank,
/// else `花笺` in the documents folder, the data folder, the working
/// folder or `.`, the first of them that is known.
pub open spec fn default_base(
    env_dir: Option<Seq<char>>,
    document_dir: Option<Seq<char>>,
    data_dir: Option<Seq<char>>,
    current_dir: Option<Seq<char>>,
) -> Seq<char> {
    if env_dir matches Some(e) && trim(e).len() > 0 {
        trim(env_dir->0)
    } else {
        let root = match document_dir {
            Some(d) => d,
            None => match data_dir {
                Some(d) => d,
                None => match current_dir {
                    Some(c) => c,
                    None => "."@,
                },
            },
        };
        path_join(root, "花笺"@)
    }
}

pub open spec fn opt_view(o: Option<String>) -> Option<Seq<char>> {
    match o {
        Some(s) => Some(s@),
        None => None,
    }
}

/// The folder the library lives in (see `default_base`), from the value
/// of the variable and the known folders, each when there is one.
pub fn default_base_dir(
    env_dir: Option<String>,
    document_dir: Option<String>,
    data_dir: Option<String>,
    current_dir: Option<String>,
) -> (r: String)
    ensures
        r@ == default_base(
            opt_view(env_dir),
            opt_view(document_dir),
            opt_view(data_dir),
            opt_view(current_dir),
        ),
{
    if let Some(e) = &env_dir {
        let t = trim_string(e.as_str());
        if !t.as_str().is_empty() {
            return t;
        }
    }
    let root = match document_dir {
        Some(d) => d,
        None => match data_dir {
            Some(d) => d,
            None => match current_dir {
                Some(c) => c,
                None => String::from_str("."),
            },
        },
    };
    join_path(root.as_str(), "花笺")
}

/// The store at the default folder (see `default_base_dir`).
pub fn default_store(
    env_dir: Option<String>,
    document_dir: Option<String>,
    data_dir: Option<String>,
    current_dir: Option<String>,
) -> (s: NoteStore)
    ensures
        s.base_path() == default_base(
            opt_view(env_dir),
            opt_view(document_dir),
            opt_view(data_dir),
            opt_view(current_dir),
        ),
        s.notes_path() == path_join(s.base_path(), "notes"@),
{
    NoteStore::new(default_base_dir(env_dir, document_dir, data_dir, current_dir))
}

/// An id as `Uuid`'s `Display` writes it: 36 characters, hyphens at
/// positions 8, 13, 18 and 23 and lower-case hexadecimal digits elsewhere.
pub open spec fn uuid_shaped(id: Seq<char>) -> bool {
    &&& id.len() == 36
    &&& forall|i: int|
        0 <= i < 36 ==> if i == 8 || i == 13 || i == 18 || i == 23 {
            #[trigger] id[i] == '-'
        } else {
            ('0' <= id[i] <= '9') || ('a' <= id[i] <= 'f')
        }
}

/// `uuid::Uuid::new_v4().to_string()`: a random id in the shape that
/// `Display` gives (lower-case hyphenated). Which digits come out is
/// random, so only the shape is promised.
#[verifier::external_body]
fn new_note_id() -> (id: String)
    ensures
        uuid_shaped(id@),
{
    uuid::Uuid::new_v4().to_string()
}

/// What saving over an existing note did, and which file moves: the
/// note's file before and after the save, and whether they differ.
#[derive(Debug)]
pub struct NoteUpdate {
    pub note: Note,
    pub old_path: String,
    pub new_path: String,
    pub relocate: bool,
}

/// What renaming a category asks of the files.
#[derive(Debug)]
pub enum CategoryRename {
    /// The new name is the old one: nothing changes.
    Unchanged,
    /// The index was changed; the files of `from_dir` belong in `to_dir`,
    /// which is another folder when `relocate` holds.
    Renamed { from_dir: String, to_dir: String, relocate: bool },
}

/// The position of the first occurrence of a name in a list.
pub open spec fn name_position(s: Seq<Seq<char>>, x: Seq<char>) -> Option<int>
    decreases s.len(),
{
    if s.len() == 0 {
        None
    } else if s[0] == x {
        Some(0)
    } else {
        match name_position(s.drop_first(), x) {
            Some(i) => Some(i + 1),
            None => None,
        }
    }
}

/// The list with the first occurrence of `from` replaced by `to`.
pub open spec fn replace_first(s: Seq<Seq<char>>, from: Seq<char>, to: Seq<char>) -> Seq<Seq<char>> {
    match name_position(s, from) {
        Some(i) => s.update(i, to),
        None => s,
    }
}

/// The names a library's categories go by: every trimmed, non-empty
/// name in the category list or on a note.
pub open spec fn category_names(ix: IndexView) -> Set<Seq<char>> {
    Set::new(
        |t: Seq<char>|
            t.len() > 0 && ((exists|i: int|
                0 <= i < ix.categories.len() && trim(#[trigger] ix.categories[i]) == t) || (exists|
                j: int,
            | 0 <= j < ix.notes.len() && trim((#[trigger] ix.notes[j]).category) == t)),
    )
}

/// `after` is the index once category `o` is renamed to `n`: the notes
/// of `o` are in `n`, and the category list, with the first `o` replaced
/// by `n`, is sorted.
pub open spec fn renamed_index(before: IndexView, after: IndexView, o: Seq<char>, n: Seq<char>) -> bool {
    &&& after.notes == recategorized(before.notes, o, n)
    &&& sorted(after.categories)
    &&& after.categories.to_multiset() == replace_first(before.categories, o, n).to_multiset()
}

/// `after` is the index once category `name` is deleted: the name leaves
/// the list and its notes are uncategorized.
pub open spec fn index_without_category(before: IndexView, name: Seq<char>) -> IndexView {
    IndexView {
        notes: recategorized(before.notes, name, Seq::empty()),
        categories: before.categories.filter(not_text(name)),
    }
}

/// `after` is the index once category `name` is added by hand: unchanged
/// when listed, else the list with it added, sorted.
pub open spec fn index_with_category(before: IndexView, after: IndexView, name: Seq<char>) -> bool {
    &&& after.notes == before.notes
    &&& if before.categories.contains(name) {
        after.categories == before.categories
    } else {
        &&& sorted(after.categories)
        &&& after.categories.to_multiset() == before.categories.push(name).to_multiset()
    }
}

/// The index once the entries `ms` are created one after another.
pub open spec fn index_after_creates(ix: IndexView, ms: Seq<MetaView>) -> IndexView
    decreases ms.len(),
{
    if ms.len() == 0 {
        ix
    } else {
        index_after_create(index_after_creates(ix, ms.drop_last()), ms.last())
    }
}

/// The notes a new library starts with.
pub open spec fn seed_note_views() -> Seq<RequestView> {
    seq![
        RequestView {
            title: "README"@,
            category: Seq::empty(),
            content: "# README\n\n# 花笺 一款 Windows 上轻量、优雅的本地便签工具。\n\n- 原生 GPUI 界面\n- 本地 Markdown 文件\n- 轻量编辑与实时预览\n"@,
        },
        RequestView {
            title: "花记"@,
            category: Seq::empty(),
            content: "# 花记\n\n此时相望不相闻，愿逐月华流照君\n"@,
        },
        RequestView {
            title: "关于花笺"@,
            category: Seq::empty(),
            content: "# 关于花笺\n\n- 设计主窗口 / 便签 / 磁贴三类窗口的统一生命周期。\n- 引入 Markdown 编辑和预览。\n- 保持启动快、界面轻、操作直接。\n"@,
        },
        RequestView {
            title: "花笺开发记录"@,
            category: "开发"@,
            content: "# 花笺开发记录\n\n点击上面那个图钉按钮，会将笔记转为磁贴。\n\n> 现在先做本地编辑器，后续再接磁贴窗口。\n"@,
        },
        RequestView {
            title: "大黑塔（线稿）"@,
            category: "素材"@,
            content: "# 大黑塔（线稿）\n\nthe_herta_\\(honkai_star_rail\\), purple eyes, brown hair\n\n- 线稿\n- 冷色阴影\n- 低饱和背景\n"@,
        },
    ]
}

/// The notes a new library starts with (see `seed_note_views`).
pub fn seed_notes() -> (r: Vec<SaveNoteRequest>)
    ensures
        r@.map_values(|q: SaveNoteRequest| q@) == seed_note_views(),
{
    let mut r: Vec<SaveNoteRequest> = Vec::new();
    r.push(SaveNoteRequest {
        title: String::from_str("README"),
        category: String::new(),
        content: String::from_str("# README\n\n# 花笺 一款 Windows 上轻量、优雅的本地便签工具。\n\n- 原生 GPUI 界面\n- 本地 Markdown 文件\n- 轻量编辑与实时预览\n"),
    });
    r.push(SaveNoteRequest {
        title: String::from_str("花记"),
        category: String::new(),
        content: String::from_str("# 花记\n\n此时相望不相闻，愿逐月华流照君\n"),
    });
    r.push(SaveNoteRequest {
        title: String::from_str("关于花笺"),
        category: String::new(),
        content: String::from_str("# 关于花笺\n\n- 设计主窗口 / 便签 / 磁贴三类窗口的统一生命周期。\n- 引入 Markdown 编辑和预览。\n- 保持启动快、界面轻、操作直接。\n"),
    });
    r.push(SaveNoteRequest {
        title: String::from_str("花笺开发记录"),
        category: String::from_str("开发"),
        content: String::from_str("# 花笺开发记录\n\n点击上面那个图钉按钮，会将笔记转为磁贴。\n\n> 现在先做本地编辑器，后续再接磁贴窗口。\n"),
    });
    r.push(SaveNoteRequest {
        title: String::from_str("大黑塔（线稿）"),
        category: String::from_str("素材"),
        content: String::from_str("# 大黑塔（线稿）\n\nthe_herta_\\(honkai_star_rail\\), purple eyes, brown hair\n\n- 线稿\n- 冷色阴影\n- 低饱和背景\n"),
    });
    assert(r@.map_values(|q: SaveNoteRequest| q@) =~= seed_note_views());
    r
}

proof fn lemma_name_position(s: Seq<Seq<char>>, x: Seq<char>, i: int)
    requires
        0 <= i <= s.len(),
        forall|j: int| 0 <= j < i ==> #[trigger] s[j] != x,
        i == s.len() || s[i] == x,
    ensures
        name_position(s, x) == if i == s.len() {
            None::<int>
        } else {
            Some(i)
        },
    decreases i,
{
    if i > 0 {
        let t = s.drop_first();
        assert(s[0] != x);
        assert forall|j: int| 0 <= j < i - 1 implies #[trigger] t[j] != x by {
            assert(t[j] == s[j + 1]);
        }
        if i < s.len() {
            assert(t[i - 1] == s[i]);
        }
        lemma_name_position(t, x, i - 1);
    }
}

impl MetadataFile {
    /// Moves every entry of category `from` to category `to`.
    fn recategorize(&mut self, from: &String, to: &String)
        ensures
            final(self)@.notes == recategorized(old(self)@.notes, from@, to@),
            final(self)@.categories == old(self)@.categories,
    {
        let ghost src = self@.notes;
        let mut i: usize = 0;
        while i < self.notes.len()
            invariant
                i <= self.notes@.len(),
                self@.notes.len() == src.len(),
                self@.categories == old(self)@.categories,
                forall|j: int| i <= j < src.len() ==> #[trigger] self@.notes[j] == src[j],
                forall|j: int|
                    0 <= j < i ==> #[trigger] self@.notes[j] == recategorized(src, from@, to@)[j],
            decreases self.notes@.len() - i,
        {
            assert(self@.notes[i as int] == self.notes@[i as int]@);
            assert(self@.notes[i as int] == src[i as int]);
            if same_text(self.notes[i].category.as_str(), from.as_str()) {
                let mut m = self.notes[i].clone();
                m.category = to.clone();
                let ghost before = self@.notes;
                self.notes.set(i, m);
                assert(self@.notes =~= before.update(i as int, m@));
                assert(recategorized(src, from@, to@)[i as int] == MetaView {
                    category: to@,
                    ..src[i as int]
                });
            } else {
                assert(recategorized(src, from@, to@)[i as int] == src[i as int]);
            }
            i = i + 1;
        }
        assert(self@.notes =~= recategorized(src, from@, to@));
    }

    /// Replaces the first occurrence of a name in the category list.
    fn replace_category(&mut self, from: &String, to: &String)
        ensures
            final(self)@.notes == old(self)@.notes,
            final(self)@.categories == replace_first(old(self)@.categories, from@, to@),
    {
        let mut i: usize = 0;
        while i < self.categories.len()
            invariant
                i <= self.categories@.len(),
                self@ == old(self)@,
                forall|j: int| 0 <= j < i ==> #[trigger] self@.categories[j] != from@,
            decreases self.categories@.len() - i,
        {
            if same_text(self.categories[i].as_str(), from.as_str()) {
                proof {
                    lemma_name_position(self@.categories, from@, i as int);
                }
                self.categories.set(i, to.clone());
                assert(string_views(self.categories@) =~= old(self)@.categories.update(
                    i as int,
                    to@,
                ));
                return;
            }
            i = i + 1;
        }
        proof {
            lemma_name_position(self@.categories, from@, i as int);
        }
    }

    /// Removes every occurrence of a name from the category list.
    fn drop_category(&mut self, name: &String)
        ensures
            final(self)@.notes == old(self)@.notes,
            final(self)@.categories == old(self)@.categories.filter(not_text(name@)),
    {
        let ghost src = self@.categories;
        let mut kept: Vec<String> = Vec::new();
        let mut i: usize = 0;
        while i < self.categories.len()
            invariant
                i <= self.categories@.len(),
                self@ == old(self)@,
                src == self@.categories,
                string_views(kept@) == src.take(i as int).filter(not_text(name@)),
            decreases self.categories@.len() - i,
        {
            assert(src.take(i + 1) =~= src.take(i as int).push(src[i as int]));
            proof {
                src.take(i as int).lemma_filter_push(src[i as int], not_text(name@));
            }
            if !same_text(self.categories[i].as_str(), name.as_str()) {
                kept.push(self.categories[i].clone());
                assert(string_views(kept@) =~= src.take(i as int).filter(not_text(name@)).push(
                    src[i as int],
                ));
            }
            i = i + 1;
        }
        assert(src.take(i as int) =~= src);
        self.categories = kept;
    }
}

impl NoteStore {
    /// The base folder.
    pub closed spec fn base_path(&self) -> Seq<char> {
        self.base_dir@
    }

    /// The notes folder.
    pub closed spec fn notes_path(&self) -> Seq<char> {
        self.notes_dir@
    }

    /// A store at `base_dir`, with its notes in the `notes` folder inside.
    pub fn new(base_dir: String) -> (s: NoteStore)
        ensures
            s.base_path() == base_dir@,
            s.notes_path() == path_join(base_dir@, "notes"@),
    {
        let notes_dir = join_path(base_dir.as_str(), "notes");
        NoteStore { base_dir, notes_dir }
    }

    pub fn base_dir(&self) -> (r: &str)
        ensures
            r@ == self.base_path(),
    {
        self.base_dir.as_str()
    }

    pub fn notes_dir(&self) -> (r: &str)
        ensures
            r@ == self.notes_path(),
    {
        self.notes_dir.as_str()
    }

    /// The index file, `metadata.json` in the base folder.
    pub fn metadata_path(&self) -> (r: String)
        ensures
            r@ == path_join(self.base_path(), "metadata.json"@),
    {
        join_path(self.base_dir.as_str(), "metadata.json")
    }

    /// The folder of a category (see `category_dir_of`).
    pub fn category_dir(&self, category: &str) -> (r: String)
        ensures
            r@ == category_dir_of(self.notes_path(), category@),
    {
        let t = trim_string(category);
        if t.as_str().is_empty() {
            self.notes_dir.clone()
        } else {
            join_path(self.notes_dir.as_str(), t.as_str())
        }
    }

    /// The file a note with this file name and category is kept in.
    pub fn note_path_for(&self, file_name: &str, category: &str) -> (r: String)
        ensures
            r@ == note_path_of(self.notes_path(), file_name@, category@),
    {
        let dir = self.category_dir(category);
        join_path(dir.as_str(), file_name)
    }

    /// The file an indexed note is kept in.
    pub fn note_path(&self, meta: &NoteMetadata) -> (r: String)
        ensures
            r@ == note_path_of(self.notes_path(), meta@.file_name, meta@.category),
    {
        self.note_path_for(meta.file_name.as_str(), meta.category.as_str())
    }

    /// Finds the note to read: its index entry and the file its content is
    /// in (the note is `note_from_metadata` of them), or the error when no
    /// entry has the id.
    pub fn read_note(&self, metadata: &MetadataFile, id: &str) -> (r: Result<
        (NoteMetadata, String),
        StoreError,
    >)
        ensures
            match position_of(metadata@.notes, id@) {
                None => r matches Err(StoreError::NoteNotFound { id: e }) && e@ == id@,
                Some(i) => {
                    &&& r matches Ok((m, path))
                    &&& m@ == metadata@.notes[i]
                    &&& path@ == note_path_of(
                        self.notes_path(),
                        metadata@.notes[i].file_name,
                        metadata@.notes[i].category,
                    )
                },
            },
    {
        match metadata.find_note(id) {
            Some(i) => {
                let m = metadata.notes[i].clone();
                let path = self.note_path(&m);
                Ok((m, path))
            },
            None => Err(StoreError::NoteNotFound { id: String::from_str(id) }),
        }
    }

    /// The file whose content an export of this note copies, or the
    /// error when no entry has the id.
    pub fn export_markdown_file(&self, metadata: &MetadataFile, id: &str) -> (r: Result<
        String,
        StoreError,
    >)
        ensures
            match position_of(metadata@.notes, id@) {
                None => r matches Err(StoreError::NoteNotFound { id: e }) && e@ == id@,
                Some(i) => r matches Ok(path) && path@ == note_path_of(
                    self.notes_path(),
                    metadata@.notes[i].file_name,
                    metadata@.notes[i].category,
                ),
            },
    {
        match self.read_note(metadata, id) {
            Ok((_, path)) => Ok(path),
            Err(e) => Err(e),
        }
    }

    /// Records a new note under a fresh random id, created now, and
    /// returns it; its content belongs in `note_path_for(file_name,
    /// category)`. Whatever id and time came back, the index and the note
    /// are those of `insert_new_note` with them.
    pub fn create_note(&self, metadata: &mut MetadataFile, request: SaveNoteRequest) -> (note: Note)
        ensures
            uuid_shaped(note@.id),
            note@ == note_of_meta(
                created_meta(request@, note@.id, note@.created_at),
                request@.content,
            ),
            final(metadata)@ == index_after_create(
                old(metadata)@,
                created_meta(request@, note@.id, note@.created_at),
            ),
    {
        let id = new_note_id();
        let t = now();
        metadata.insert_new_note(request, id, t)
    }

    /// Imports the Markdown file at `path`, read as `content`: a new note
    /// titled after the file's stem, in this category (see `create_note`);
    /// or the error of a file whose extension is not `md`, `markdown` or
    /// `txt` (the index unchanged).
    pub fn import_markdown_file(
        &self,
        metadata: &mut MetadataFile,
        path: &str,
        content: String,
        category: &str,
    ) -> (r: Result<Note, StoreError>)
        ensures
            !importable(path@) ==> (r matches Err(StoreError::UnsupportedImport) && final(metadata)@
                == old(metadata)@),
            importable(path@) ==> (r matches Ok(note) && {
                let req = RequestView {
                    title: import_title_of(path@),
                    content: content@,
                    category: category@,
                };
                &&& uuid_shaped(note@.id)
                &&& note@ == note_of_meta(
                    created_meta(req, note@.id, note@.created_at),
                    content@,
                )
                &&& final(metadata)@ == index_after_create(
                    old(metadata)@,
                    created_meta(req, note@.id, note@.created_at),
                )
            }),
    {
        if !is_importable(path) {
            return Err(StoreError::UnsupportedImport);
        }
        let request = SaveNoteRequest {
            title: import_title(path),
            content,
            category: String::from_str(category),
        };
        Ok(self.create_note(metadata, request))
    }

    /// Fills an empty library: when no note is listed, each of `seeds` is
    /// created in turn (see `create_note`) and the new notes are returned
    /// in that order; otherwise nothing changes and none is returned.
    pub fn seed_notes_if_empty(
        &self,
        metadata: &mut MetadataFile,
        listed: &Vec<NoteMetadata>,
        seeds: Vec<SaveNoteRequest>,
    ) -> (r: Vec<Note>)
        ensures
            listed@.len() > 0 ==> r@.len() == 0 && final(metadata)@ == old(metadata)@,
            listed@.len() == 0 ==> {
                &&& r@.len() == seeds@.len()
                &&& forall|k: int|
                    0 <= k < r@.len() ==> (#[trigger] r@[k])@ == note_of_meta(
                        created_meta(seeds@[k]@, r@[k]@.id, r@[k]@.created_at),
                        seeds@[k]@.content,
                    )
                &&& final(metadata)@ == index_after_creates(
                    old(metadata)@,
                    Seq::new(
                        r@.len(),
                        |k: int| created_meta(seeds@[k]@, r@[k]@.id, r@[k]@.created_at),
                    ),
                )
            },
    {
        let mut out: Vec<Note> = Vec::new();
        if listed.len() > 0 {
            return out;
        }
        let ghost start = metadata@;
        let ghost src = seeds@;
        let mut rest = seeds;
        while rest.len() > 0
            invariant
                out@.len() + rest@.len() == src.len(),
                rest@ == src.skip(out@.len() as int),
                forall|k: int|
                    0 <= k < out@.len() ==> (#[trigger] out@[k])@ == note_of_meta(
                        created_meta(src[k]@, out@[k]@.id, out@[k]@.created_at),
                        src[k]@.content,
                    ),
                metadata@ == index_after_creates(
                    start,
                    Seq::new(
                        out@.len(),
                        |k: int| created_meta(src[k]@, out@[k]@.id, out@[k]@.created_at),
                    ),
                ),
            decreases rest@.len(),
        {
            let ghost n = out@.len();
            let request = rest.remove(0);
            assert(request == src[n as int]);
            assert(rest@ =~= src.skip(n + 1int));
            let ghost before = Seq::new(
                out@.len(),
                |k: int| created_meta(src[k]@, out@[k]@.id, out@[k]@.created_at),
            );
            let note = self.create_note(metadata, request);
            out.push(note);
            let ghost after = Seq::new(
                out@.len(),
                |k: int| created_meta(src[k]@, out@[k]@.id, out@[k]@.created_at),
            );
            assert(after.drop_last() =~= before);
        }
        out
    }

    /// Saves a note over the entry with this id, updated now: the saved
    /// note, and its file before and after (it moves when the category
    /// changes the folder). The error when no entry has the id.
    pub fn update_note(&self, metadata: &mut MetadataFile, id: &str, request: SaveNoteRequest) -> (r:
        Result<NoteUpdate, StoreError>)
        ensures
            match position_of(old(metadata)@.notes, id@) {
                None => {
                    &&& r matches Err(StoreError::NoteNotFound { id: e })
                    &&& e@ == id@
                    &&& final(metadata)@ == old(metadata)@
                },
                Some(i) => {
                    &&& r matches Ok(u)
                    &&& u.note@ == note_of_meta(
                        updated_meta(old(metadata)@.notes[i], request@, u.note@.updated_at),
                        request@.content,
                    )
                    &&& final(metadata)@ == index_after_update(
                        old(metadata)@,
                        i,
                        updated_meta(old(metadata)@.notes[i], request@, u.note@.updated_at),
                    )
                    &&& u.old_path@ == note_path_of(
                        self.notes_path(),
                        old(metadata)@.notes[i].file_name,
                        old(metadata)@.notes[i].category,
                    )
                    &&& u.new_path@ == note_path_of(
                        self.notes_path(),
                        old(metadata)@.notes[i].file_name,
                        trim(request@.category),
                    )
                    &&& u.relocate == !paths_equal(u.old_path@, u.new_path@)
                },
            },
    {
        let t = now();
        let category = trim_string(request.category.as_str());
        match metadata.save_note(id, request, t) {
            Ok((prev, note)) => {
                let old_path = self.note_path(&prev);
                let new_path = self.note_path_for(prev.file_name.as_str(), category.as_str());
                let relocate = !same_path(old_path.as_str(), new_path.as_str());
                Ok(NoteUpdate { note, old_path, new_path, relocate })
            },
            Err(e) => Err(e),
        }
    }

    /// Removes the entry with this id from the index and returns the file
    /// to delete, or the error when no entry has the id.
    pub fn delete_note(&self, metadata: &mut MetadataFile, id: &str) -> (r: Result<
        String,
        StoreError,
    >)
        ensures
            match position_of(old(metadata)@.notes, id@) {
                None => {
                    &&& r matches Err(StoreError::NoteNotFound { id: e })
                    &&& e@ == id@
                    &&& final(metadata)@ == old(metadata)@
                },
                Some(i) => {
                    &&& r matches Ok(path)
                    &&& path@ == note_path_of(
                        self.notes_path(),
                        old(metadata)@.notes[i].file_name,
                        old(metadata)@.notes[i].category,
                    )
                    &&& final(metadata)@ == index_after_delete(old(metadata)@, i)
                },
            },
    {
        match metadata.remove_note(id) {
            Ok(m) => Ok(self.note_path(&m)),
            Err(e) => Err(e),
        }
    }

    /// Moves a note, read as `current`, to another category: it is saved
    /// again with its title and content under the trimmed category. The
    /// update and the note's new index entry.
    pub fn move_note_to_category(
        &self,
        metadata: &mut MetadataFile,
        id: &str,
        current: Note,
        category: &str,
    ) -> (r: Result<(NoteUpdate, NoteMetadata), StoreError>)
        ensures
            ({
                let req = RequestView {
                    title: current@.title,
                    content: current@.content,
                    category: trim(category@),
                };
                match position_of(old(metadata)@.notes, id@) {
                    None => {
                        &&& r matches Err(StoreError::NoteNotFound { id: e })
                        &&& e@ == id@
                        &&& final(metadata)@ == old(metadata)@
                    },
                    Some(i) => {
                        &&& r matches Ok((u, m))
                        &&& u.note@ == note_of_meta(
                            updated_meta(old(metadata)@.notes[i], req, u.note@.updated_at),
                            req.content,
                        )
                        &&& final(metadata)@ == index_after_update(
                            old(metadata)@,
                            i,
                            updated_meta(old(metadata)@.notes[i], req, u.note@.updated_at),
                        )
                        &&& m@ == crate::model::meta_of_note(u.note@)
                        &&& u.old_path@ == note_path_of(
                            self.notes_path(),
                            old(metadata)@.notes[i].file_name,
                            old(metadata)@.notes[i].category,
                        )
                        &&& u.new_path@ == note_path_of(
                            self.notes_path(),
                            old(metadata)@.notes[i].file_name,
                            trim(trim(category@)),
                        )
                        &&& u.relocate == !paths_equal(u.old_path@, u.new_path@)
                    },
                }
            }),
    {
        let request = SaveNoteRequest {
            title: current.title,
            content: current.content,
            category: trim_string(category),
        };
        match self.update_note(metadata, id, request) {
            Ok(u) => {
                let m = crate::model::metadata_from_note(&u.note);
                Ok((u, m))
            },
            Err(e) => Err(e),
        }
    }

    /// The names of the library's categories (see `category_names`), in
    /// order and each once.
    pub fn list_categories(&self, metadata: &MetadataFile) -> (r: Vec<String>)
        ensures
            strictly_sorted(string_views(r@)),
            string_views(r@).to_set() == category_names(metadata@),
    {
        let ghost ix = metadata@;
        let mut names: Vec<String> = Vec::new();
        let mut i: usize = 0;
        while i < metadata.categories.len()
            invariant
                ix == metadata@,
                i <= metadata.categories@.len(),
                strictly_sorted(string_views(names@)),
                string_views(names@).to_set() == Set::new(
                    |t: Seq<char>|
                        t.len() > 0 && exists|k: int|
                            0 <= k < i && trim(#[trigger] ix.categories[k]) == t,
                ),
            decreases metadata.categories@.len() - i,
        {
            let t = trim_string(metadata.categories[i].as_str());
            let ghost before = string_views(names@).to_set();
            if !t.as_str().is_empty() {
                insert_name(&mut names, t);
            }
            assert(string_views(names@).to_set() =~= Set::new(
                |u: Seq<char>|
                    u.len() > 0 && exists|k: int|
                        0 <= k < i + 1 && trim(#[trigger] ix.categories[k]) == u,
            )) by {
                assert forall|u: Seq<char>|
                    #![trigger string_views(names@).to_set().contains(u)]
                    string_views(names@).to_set().contains(u) implies u.len() > 0 && exists|k: int|
                    0 <= k < i + 1 && trim(#[trigger] ix.categories[k]) == u by {
                    if before.contains(u) {
                        let k = choose|k: int| 0 <= k < i && trim(#[trigger] ix.categories[k]) == u;
                        assert(0 <= k < i + 1 && trim(ix.categories[k]) == u);
                    } else {
                        assert(trim(ix.categories[i as int]) == u);
                    }
                }
                assert forall|u: Seq<char>|
                    u.len() > 0 && (exists|k: int|
                        0 <= k < i + 1 && trim(#[trigger] ix.categories[k]) == u) implies string_views(
                    names@,
                ).to_set().contains(u) by {
                    let k = choose|k: int| 0 <= k < i + 1 && trim(#[trigger] ix.categories[k]) == u;
                    if k < i {
                        assert(before.contains(u));
                    }
                }
            }
            i = i + 1;
        }
        let mut j: usize = 0;
        while j < metadata.notes.len()
            invariant
                ix == metadata@,
                j <= metadata.notes@.len(),
                strictly_sorted(string_views(names@)),
                string_views(names@).to_set() == Set::new(
                    |t: Seq<char>|
                        t.len() > 0 && ((exists|k: int|
                            0 <= k < ix.categories.len() && trim(#[trigger] ix.categories[k])
                                == t) || (exists|k: int|
                            0 <= k < j && trim((#[trigger] ix.notes[k]).category) == t)),
                ),
            decreases metadata.notes@.len() - j,
        {
            let t = trim_string(metadata.notes[j].category.as_str());
            let ghost before = string_views(names@).to_set();
            if !t.as_str().is_empty() {
                insert_name(&mut names, t);
            }
            assert(string_views(names@).to_set() =~= Set::new(
                |u: Seq<char>|
                    u.len() > 0 && ((exists|k: int|
                        0 <= k < ix.categories.len() && trim(#[trigger] ix.categories[k]) == u)
                        || (exists|k: int|
                        0 <= k < j + 1 && trim((#[trigger] ix.notes[k]).category) == u)),
            )) by {
                assert forall|u: Seq<char>|
                    #![trigger string_views(names@).to_set().contains(u)]
                    string_views(names@).to_set().contains(u) implies u.len() > 0 && ((exists|
                        k: int,
                    | 0 <= k < ix.categories.len() && trim(#[trigger] ix.categories[k]) == u)
                        || (exists|k: int|
                        0 <= k < j + 1 && trim((#[trigger] ix.notes[k]).category) == u)) by {
                    if before.contains(u) {
                        if !(exists|k: int|
                            0 <= k < ix.categories.len() && trim(#[trigger] ix.categories[k])
                                == u) {
                            let k = choose|k: int|
                                0 <= k < j && trim((#[trigger] ix.notes[k]).category) == u;
                            assert(0 <= k < j + 1 && trim(ix.notes[k].category) == u);
                        }
                    } else {
                        assert(trim(ix.notes[j as int].category) == u);
                    }
                }
                assert forall|u: Seq<char>|
                    u.len() > 0 && ((exists|k: int|
                        0 <= k < ix.categories.len() && trim(#[trigger] ix.categories[k]) == u)
                        || (exists|k: int|
                        0 <= k < j + 1 && trim(
                            (#[trigger] ix.notes[k]).category,
                        ) == u)) implies string_views(names@).to_set().contains(u) by {
                    if !(exists|k: int|
                        0 <= k < ix.categories.len() && trim(#[trigger] ix.categories[k]) == u) {
                        let k = choose|k: int|
                            0 <= k < j + 1 && trim((#[trigger] ix.notes[k]).category) == u;
                        if k < j {
                            assert(before.contains(u));
                        }
                    } else {
                        assert(before.contains(u));
                    }
                }
            }
            j = j + 1;
        }
        assert(string_views(names@).to_set() =~= category_names(ix));
        names
    }

    /// Adds a category by hand: its normalized name joins the list, which
    /// is then sorted, unless it is already there. The folder to create,
    /// or the error of an empty or invalid name (the index unchanged).
    pub fn create_category(&self, metadata: &mut MetadataFile, name: &str) -> (r: Result<
        String,
        StoreError,
    >)
        ensures
            trim(name@).len() == 0 ==> r == Err::<String, StoreError>(StoreError::EmptyCategoryName)
                && final(metadata)@ == old(metadata)@,
            trim(name@).len() > 0 && has_forbidden(trim(name@)) ==> r == Err::<String, StoreError>(
                StoreError::InvalidCategoryName,
            ) && final(metadata)@ == old(metadata)@,
            trim(name@).len() > 0 && !has_forbidden(trim(name@)) ==> {
                &&& r matches Ok(dir)
                &&& dir@ == category_dir_of(self.notes_path(), trim(name@))
                &&& index_with_category(old(metadata)@, final(metadata)@, trim(name@))
            },
    {
        let n = match normalize_category(name) {
            Ok(n) => n,
            Err(e) => {
                return Err(e);
            },
        };
        if !metadata.has_category(n.as_str()) {
            metadata.categories.push(n.clone());
            assert(string_views(metadata.categories@) =~= old(metadata)@.categories.push(n@));
            sort_names(&mut metadata.categories);
        }
        Ok(self.category_dir(n.as_str()))
    }

    /// Renames a category: the old name is trimmed, the new one
    /// normalized; when they differ, the first listing of the old name is
    /// replaced, the list sorted, and its notes moved to the new name.
    /// The folders whose files move, or the error (the index unchanged).
    pub fn rename_category(&self, metadata: &mut MetadataFile, old_name: &str, new_name: &str) -> (r:
        Result<CategoryRename, StoreError>)
        ensures
            ({
                let o = trim(old_name@);
                let n = trim(new_name@);
                if o.len() == 0 {
                    r matches Err(StoreError::RenameUncategorized) && final(metadata)@ == old(metadata)@
                } else if n.len() == 0 {
                    r matches Err(StoreError::EmptyCategoryName) && final(metadata)@ == old(metadata)@
                } else if has_forbidden(n) {
                    r matches Err(StoreError::InvalidCategoryName) && final(metadata)@ == old(metadata)@
                } else if n == o {
                    r matches Ok(CategoryRename::Unchanged) && final(metadata)@ == old(metadata)@
                } else {
                    &&& r matches Ok(CategoryRename::Renamed { from_dir, to_dir, relocate })
                    &&& from_dir@ == category_dir_of(self.notes_path(), o)
                    &&& to_dir@ == category_dir_of(self.notes_path(), n)
                    &&& relocate == !paths_equal(from_dir@, to_dir@)
                    &&& renamed_index(old(metadata)@, final(metadata)@, o, n)
                }
            }),
    {
        let o = trim_string(old_name);
        if o.as_str().is_empty() {
            return Err(StoreError::RenameUncategorized);
        }
        let n = match normalize_category(new_name) {
            Ok(n) => n,
            Err(e) => {
                return Err(e);
            },
        };
        if same_text(n.as_str(), o.as_str()) {
            return Ok(CategoryRename::Unchanged);
        }
        metadata.replace_category(&o, &n);
        let ghost replaced = metadata@.categories;
        sort_names(&mut metadata.categories);
        metadata.recategorize(&o, &n);
        let from_dir = self.category_dir(o.as_str());
        let to_dir = self.category_dir(n.as_str());
        let relocate = !same_path(from_dir.as_str(), to_dir.as_str());
        Ok(CategoryRename::Renamed { from_dir, to_dir, relocate })
    }

    /// Deletes a category: its name (trimmed) leaves the list and its
    /// notes become uncategorized. The folder to remove, unless it is the
    /// notes folder itself; or the error for a blank name (the index
    /// unchanged).
    pub fn delete_category(&self, metadata: &mut MetadataFile, name: &str) -> (r: Result<
        Option<String>,
        StoreError,
    >)
        ensures
            trim(name@).len() == 0 ==> (r matches Err(StoreError::DeleteUncategorized) && final(metadata)@ == old(metadata)@),
            trim(name@).len() > 0 ==> {
                &&& r matches Ok(dir)
                &&& final(metadata)@ == index_without_category(old(metadata)@, trim(name@))
                &&& match dir {
                    Some(d) => d@ == category_dir_of(self.notes_path(), trim(name@)) && !paths_equal(
                        d@,
                        self.notes_path(),
                    ),
                    None => paths_equal(
                        category_dir_of(self.notes_path(), trim(name@)),
                        self.notes_path(),
                    ),
                }
            },
    {
        let n = trim_string(name);
        if n.as_str().is_empty() {
            return Err(StoreError::DeleteUncategorized);
        }
        metadata.drop_category(&n);
        let empty = String::new();
        metadata.recategorize(&n, &empty);
        let dir = self.category_dir(n.as_str());
        if same_path(dir.as_str(), self.notes_dir.as_str()) {
            Ok(None)
        } else {
            Ok(Some(dir))
        }
    }
}

} // verus!
