//! The state of the editor window and the decisions it makes on each
//! user action; drawing the window and talking to the store are the
//! caller's part.
use vstd::prelude::*;
use crate::clock::{civil_clock, format_full_time, full_time_of, in_clock_range, local_offset};
use crate::index::{lemma_position_of, position_of};
use crate::model::{meta_views, MetaView, Note, NoteMetadata, RequestView, SaveNoteRequest};
use crate::notetext::{count_note_chars, non_ws_count, normalize_note_title, note_title};
use crate::order::{same_text, trim_string};
use crate::search::{matching, query_of, search_hits, search_query};
use crate::strings::trim;

verus! {

/// The note shown when the editor opens.
pub const DEFAULT_NOTE: &'static str = "# 墨のち雨\n\n伞を差して食み出した分だけ\n> 撑起的伞 而没能遮住的部分\n\n寄せかかったに また離れてく肩\n> 渐渐靠近的肩 却又马上分开\n\n押し合う手が真ん中で止まるように\n> 紧紧相握的手 仿佛在我们间静止\n\n押し返す強さを間違わないように\n> 为了不搞错力气 而变得小心翼翼\n\n降りかかった雨に冷やされないよう\n> 为了这份温暖不被将要落下的雨冷却\n";

/// The text of a new draft.
pub const DRAFT_TEXT: &'static str = "# 未命名笔记\n\n";

/// How the note is shown.
#[derive(Clone, Copy, Debug, PartialEq, Eq, Structural)]
pub enum EditorMode {
    Edit,
    Preview,
    Split,
}

/// The panel open beside the note, if any.
#[derive(Clone, Copy, Debug, PartialEq, Eq, Structural)]
pub enum SidePanelMode {
    Settings,
    About,
    Floating,
}

/// What an edit of the text asks for.
#[derive(Clone, Copy, Debug, PartialEq, Eq, Structural)]
pub enum EditReaction {
    /// The change came from the editor itself setting its text.
    Ignored,
    /// Auto-save is on and the note is stored: save it now.
    SaveNow,
    /// The draft or the note is modified and waits for a save.
    Modified,
}

/// What moving the current note to a category asks for.
#[derive(Debug)]
pub enum MoveStep {
    /// There is no stored note: only the draft's category changes.
    Draft,
    /// Move the stored note with this id, saving it first when `save_first`.
    Move { id: String, save_first: bool },
}

/// What exporting the shown note asks for.
#[derive(Debug)]
pub enum ExportStep {
    /// No stored note is shown: write the editor's text.
    EditorText,
    /// Copy the stored note with this id, saving it first when `save_first`.
    FromStore { id: String, save_first: bool },
}

/// What the window shows.
#[derive(Debug, PartialEq, Eq, Structural)]
pub enum Layout {
    /// The pinned tile.
    Tile,
    /// The floating note.
    Floating,
    /// The main window: the sidebar when shown, the note, and a side
    /// panel (settings or about) when one is open.
    Main { sidebar: bool, panel: Option<SidePanelMode> },
}

/// The state of the editor window that its decisions read and change.
#[derive(Debug)]
pub struct EditorState {
    pub current_note_id: Option<String>,
    pub current_category: String,
    pub dirty: bool,
    pub mode: EditorMode,
    pub word_count: usize,
    pub sidebar_visible: bool,
    pub pinned: bool,
    pub line_numbers: bool,
    pub auto_save: bool,
    pub side_panel: Option<SidePanelMode>,
    pub suppress_editor_change: bool,
    pub delete_pending: bool,
    pub delete_confirm_id: Option<String>,
    pub search_hits: usize,
    pub dark_mode: bool,
    pub renaming_category: Option<String>,
    pub tab_size: usize,
}

/// The smallest and largest tab width offered.
pub const MIN_TAB_SIZE: usize = 1;
pub const MAX_TAB_SIZE: usize = 8;

pub open spec fn opt_text(o: Option<String>) -> Option<Seq<char>> {
    match o {
        Some(s) => Some(s@),
        None => None,
    }
}

/// Number of line feeds in a text.
pub open spec fn newline_count(s: Seq<char>) -> nat
    decreases s.len(),
{
    if s.len() == 0 {
        0
    } else {
        newline_count(s.drop_last()) + if s.last() == '\n' {
            1nat
        } else {
            0nat
        }
    }
}

/// Number of lines of a text as `str::lines` counts them: one per line
/// feed, and one more for text after the last line feed.
pub open spec fn line_total(s: Seq<char>) -> nat {
    newline_count(s) + if s.len() > 0 && s.last() != '\n' {
        1nat
    } else {
        0nat
    }
}

/// Lines shown in the status bar: the line count, at least one.
pub fn status_line_count(text: &str) -> (r: usize)
    ensures
        r == if line_total(text@) == 0 { 1 } else { line_total(text@) },
{
    let v = crate::chars::chars_of(text);
    let mut count: usize = 0;
    let mut i: usize = 0;
    while i < v.len()
        invariant
            i <= v@.len(),
            v@ == text@,
            count == newline_count(v@.take(i as int)),
            count <= i,
            i > 0 && v@[i - 1] != '\n' ==> count < i,
        decreases v@.len() - i,
    {
        assert(v@.take(i + 1).drop_last() =~= v@.take(i as int));
        if v[i] == '\n' {
            count = count + 1;
        }
        i = i + 1;
    }
    assert(v@.take(i as int) =~= v@);
    if v.len() > 0 && v[v.len() - 1] != '\n' {
        count = count + 1;
    }
    if count == 0 {
        1
    } else {
        count
    }
}

/// The label of an editor mode.
pub open spec fn mode_text(mode: EditorMode) -> Seq<char> {
    match mode {
        EditorMode::Edit => "编辑"@,
        EditorMode::Split => "分栏"@,
        EditorMode::Preview => "预览"@,
    }
}

/// What the window shows (see `Layout`): the tile when pinned, else the
/// floating note when its panel is open, else the main window.
pub open spec fn layout_of(s: EditorState) -> Layout {
    if s.pinned {
        Layout::Tile
    } else if s.side_panel == Some(SidePanelMode::Floating) {
        Layout::Floating
    } else {
        Layout::Main { sidebar: s.sidebar_visible, panel: s.side_panel }
    }
}

/// The state with the sidebar shown or hidden.
pub open spec fn sidebar_toggled(s: EditorState) -> EditorState {
    EditorState { sidebar_visible: !s.sidebar_visible, ..s }
}

/// The state pinned as a tile (sidebar hidden, side panel closed), or
/// unpinned (sidebar shown).
pub open spec fn pin_toggled(s: EditorState) -> EditorState {
    if s.pinned {
        EditorState { pinned: false, sidebar_visible: true, ..s }
    } else {
        EditorState { pinned: true, sidebar_visible: false, side_panel: None, ..s }
    }
}

pub open spec fn line_numbers_toggled(s: EditorState) -> EditorState {
    EditorState { line_numbers: !s.line_numbers, ..s }
}

pub open spec fn auto_save_toggled(s: EditorState) -> EditorState {
    EditorState { auto_save: !s.auto_save, ..s }
}

pub open spec fn theme_toggled(s: EditorState) -> EditorState {
    EditorState { dark_mode: !s.dark_mode, ..s }
}

/// The state with side panel `mode` open, or closed when it was the one open.
pub open spec fn side_panel_toggled(s: EditorState, mode: SidePanelMode) -> EditorState {
    EditorState { side_panel: if s.side_panel == Some(mode) { None } else { Some(mode) }, ..s }
}

/// The position of the current note in a list: the first entry with its id.
pub open spec fn current_position(s: EditorState, notes: Seq<MetaView>) -> Option<int> {
    match s.current_note_id {
        Some(id) => position_of(notes, id@),
        None => None,
    }
}

/// The id of the note shown first: the first one listed, if any.
pub fn first_note_id(notes: &Vec<NoteMetadata>) -> (r: Option<String>)
    ensures
        match r {
            Some(id) => notes@.len() > 0 && id@ == notes@[0].id@,
            None => notes@.len() == 0,
        },
{
    if notes.len() == 0 {
        None
    } else {
        Some(notes[0].id.clone())
    }
}

/// Whether a notice shown `elapsed_secs` whole seconds ago is still shown.
pub fn toast_visible(elapsed_secs: u64) -> (r: bool)
    ensures
        r == (elapsed_secs < 3),
{
    elapsed_secs < 3
}

impl EditorState {
    /// The state of a window just opened, showing `DEFAULT_NOTE`.
    pub fn new() -> (s: EditorState)
        ensures
            s.current_note_id is None,
            s.current_category@ == Seq::<char>::empty(),
            !s.dirty,
            s.mode == EditorMode::Split,
            s.word_count == non_ws_count(DEFAULT_NOTE@),
            s.sidebar_visible,
            !s.pinned,
            !s.line_numbers,
            s.auto_save,
            s.side_panel is None,
            !s.suppress_editor_change,
            !s.delete_pending,
            s.delete_confirm_id is None,
            s.search_hits == 0,
            !s.dark_mode,
            s.renaming_category is None,
            s.tab_size == 2,
    {
        EditorState {
            current_note_id: None,
            current_category: String::new(),
            dirty: false,
            mode: EditorMode::Split,
            word_count: count_note_chars(DEFAULT_NOTE),
            sidebar_visible: true,
            pinned: false,
            line_numbers: false,
            auto_save: true,
            side_panel: None,
            suppress_editor_change: false,
            delete_pending: false,
            delete_confirm_id: None,
            search_hits: 0,
            dark_mode: false,
            renaming_category: None,
            tab_size: 2,
        }
    }

    /// The text of the editor changed. Unless the editor itself set it,
    /// the delete prompt is dropped, the count follows the text and the
    /// note is modified; it is saved now when auto-save is on and the
    /// note is stored.
    pub fn editor_changed(&mut self, value: &str) -> (r: EditReaction)
        ensures
            old(self).suppress_editor_change ==> r == EditReaction::Ignored && *final(self) == *old(
                self,
            ),
            !old(self).suppress_editor_change ==> {
                &&& *final(self) == (EditorState {
                    delete_pending: false,
                    word_count: non_ws_count(value@) as usize,
                    dirty: true,
                    ..*old(self)
                })
                &&& r == if old(self).auto_save && old(self).current_note_id is Some {
                    EditReaction::SaveNow
                } else {
                    EditReaction::Modified
                }
            },
    {
        if self.suppress_editor_change {
            return EditReaction::Ignored;
        }
        self.delete_pending = false;
        self.word_count = count_note_chars(value);
        self.dirty = true;
        if self.auto_save && self.current_note_id.is_some() {
            EditReaction::SaveNow
        } else {
            EditReaction::Modified
        }
    }

    /// Markdown was inserted into the text: the count follows the text and
    /// the note is modified. True when it is to be saved now (auto-save on
    /// and the note stored).
    pub fn markdown_inserted(&mut self, value: &str) -> (save_now: bool)
        ensures
            *final(self) == (EditorState {
                word_count: non_ws_count(value@) as usize,
                dirty: true,
                ..*old(self)
            }),
            save_now == (old(self).auto_save && old(self).current_note_id is Some),
    {
        self.word_count = count_note_chars(value);
        self.dirty = true;
        self.auto_save && self.current_note_id.is_some()
    }

    /// What saving the shown text asks for: the title of its first
    /// heading line (see `note_title`), the text, and the current category.
    pub fn note_request(&self, content: String) -> (r: SaveNoteRequest)
        ensures
            r@ == (RequestView {
                title: note_title(Seq::empty(), content@),
                content: content@,
                category: self.current_category@,
            }),
    {
        proof {
            reveal_strlit("");
        }
        let title = normalize_note_title("", content.as_str());
        SaveNoteRequest { title, content, category: self.current_category.clone() }
    }

    /// Where saving the shown text goes: over the current note (its id),
    /// or into a new note when none is current.
    pub fn save_target(&self) -> (r: Option<String>)
        ensures
            opt_text(r) == opt_text(self.current_note_id),
    {
        match &self.current_note_id {
            Some(id) => Some(id.clone()),
            None => None,
        }
    }

    /// What exporting asks for: the stored note, saved first when it has
    /// changes, or the editor's text for a draft.
    pub fn export_plan(&self) -> (r: ExportStep)
        ensures
            match self.current_note_id {
                None => r is EditorText,
                Some(id) => r matches ExportStep::FromStore { id: i, save_first } && i == id
                    && save_first == self.dirty,
            },
    {
        match &self.current_note_id {
            None => ExportStep::EditorText,
            Some(id) => ExportStep::FromStore { id: id.clone(), save_first: self.dirty },
        }
    }

    /// Whether the modified note is saved before another note is shown.
    pub fn needs_save_before_switch(&self) -> (r: bool)
        ensures
            r == (self.dirty && self.auto_save),
    {
        self.dirty && self.auto_save
    }

    /// The editor is about to set its own text: changes are ignored.
    pub fn begin_replace(&mut self)
        ensures
            *final(self) == (EditorState { suppress_editor_change: true, ..*old(self) }),
    {
        self.suppress_editor_change = true;
    }

    /// The editor has set its own text to `value`: changes count again,
    /// and the count follows the text.
    pub fn end_replace(&mut self, value: &str)
        ensures
            *final(self) == (EditorState {
                suppress_editor_change: false,
                word_count: non_ws_count(value@) as usize,
                ..*old(self)
            }),
    {
        self.suppress_editor_change = false;
        self.word_count = count_note_chars(value);
    }

    /// A save succeeded: the saved note is the current one, unmodified.
    pub fn note_saved(&mut self, note: &Note)
        ensures
            *final(self) == (EditorState {
                current_note_id: Some(note.id),
                current_category: note.category,
                word_count: note.word_count,
                dirty: false,
                ..*old(self)
            }),
    {
        self.current_note_id = Some(note.id.clone());
        self.current_category = note.category.clone();
        self.word_count = note.word_count;
        self.dirty = false;
    }

    /// A note was read and shown: it is the current one, unmodified.
    pub fn note_opened(&mut self, note: &Note)
        ensures
            *final(self) == (EditorState {
                current_note_id: Some(note.id),
                current_category: note.category,
                word_count: note.word_count,
                dirty: false,
                ..*old(self)
            }),
    {
        self.note_saved(note);
    }

    /// A note was imported and shown: it is the current one, unmodified.
    pub fn note_imported(&mut self, note: &Note)
        ensures
            *final(self) == (EditorState {
                current_note_id: Some(note.id),
                current_category: note.category,
                dirty: false,
                ..*old(self)
            }),
    {
        self.current_note_id = Some(note.id.clone());
        self.current_category = note.category.clone();
        self.dirty = false;
    }

    /// A new draft replaces the note: nothing stored is current, the
    /// category is the uncategorized group and nothing is modified.
    pub fn draft_started(&mut self)
        ensures
            *final(self) == (EditorState {
                current_note_id: None,
                current_category: final(self).current_category,
                dirty: false,
                ..*old(self)
            }),
            final(self).current_category@ == Seq::<char>::empty(),
    {
        self.current_note_id = None;
        self.current_category = String::new();
        self.dirty = false;
    }

    /// Whether the note with this id is the one shown.
    pub fn is_current(&self, id: &str) -> (r: bool)
        ensures
            r == (opt_text(self.current_note_id) == Some(id@)),
    {
        match &self.current_note_id {
            Some(c) => same_text(c.as_str(), id),
            None => false,
        }
    }

    /// The position of the current note in a list, if it is there.
    pub fn current_note(&self, notes: &Vec<NoteMetadata>) -> (r: Option<usize>)
        ensures
            match r {
                Some(i) => i < notes@.len() && current_position(*self, meta_views(notes@)) == Some(
                    i as int,
                ),
                None => current_position(*self, meta_views(notes@)) is None,
            },
    {
        let id = match &self.current_note_id {
            Some(id) => id,
            None => {
                return None;
            },
        };
        let ghost ms = meta_views(notes@);
        let mut i: usize = 0;
        while i < notes.len()
            invariant
                i <= notes@.len(),
                ms == meta_views(notes@),
                self.current_note_id == Some(*id),
                forall|j: int| 0 <= j < i ==> (#[trigger] ms[j]).id != id@,
            decreases notes@.len() - i,
        {
            assert(ms[i as int] == notes@[i as int]@);
            if same_text(notes[i].id.as_str(), id.as_str()) {
                proof {
                    lemma_position_of(ms, id@, i as int);
                }
                return Some(i);
            }
            i = i + 1;
        }
        proof {
            lemma_position_of(ms, id@, i as int);
        }
        None
    }

    /// When the current note was last saved, as `MM-DD HH:MM` on the local
    /// clock, or `草稿` when no listed note is current. Empty when the time
    /// cannot be shown (see `in_clock_range`).
    pub fn current_updated_at(&self, notes: &Vec<NoteMetadata>) -> (r: String)
        ensures
            current_position(*self, meta_views(notes@)) is None ==> r@ == "草稿"@,
            current_position(*self, meta_views(notes@)) matches Some(i) ==> (r@.len() == 0 || exists|
                o: int,
            | local_offset(o) && r@ == full_time_of(
                civil_clock(meta_views(notes@)[i].updated_at.secs + o),
            )),
            current_position(*self, meta_views(notes@)) matches Some(i) && in_clock_range(
                meta_views(notes@)[i].updated_at,
            ) ==> r@.len() > 0,
    {
        match self.current_note(notes) {
            None => String::from_str("草稿"),
            Some(i) => match format_full_time(notes[i].updated_at) {
                Some(t) => t,
                None => String::new(),
            },
        }
    }

    /// Whether the button of `category` shows as the current category.
    pub fn is_current_category(&self, category: &str) -> (r: bool)
        ensures
            r == (self.current_category@ == category@),
    {
        same_text(self.current_category.as_str(), category)
    }

    /// Closes the side panel.
    pub fn close_side_panel(&mut self)
        ensures
            *final(self) == (EditorState { side_panel: None, ..*old(self) }),
    {
        self.side_panel = None;
    }

    /// The delete button was pressed: the current note, if any, waits
    /// for confirmation.
    pub fn request_delete(&mut self)
        ensures
            old(self).current_note_id is None ==> *final(self) == *old(self),
            old(self).current_note_id is Some ==> *final(self) == (EditorState {
                delete_confirm_id: old(self).current_note_id,
                ..*old(self)
            }),
    {
        if self.current_note_id.is_none() {
            return;
        }
        self.delete_confirm_id = self.current_note_id.clone();
    }

    /// The deletion was confirmed: the id to delete, if one waited and is
    /// not empty; the prompt is closed either way.
    pub fn confirm_delete(&mut self) -> (r: Option<String>)
        ensures
            match old(self).delete_confirm_id {
                Some(id) if id@.len() > 0 => {
                    &&& r == Some(id)
                    &&& *final(self) == (EditorState {
                        delete_confirm_id: None,
                        delete_pending: false,
                        ..*old(self)
                    })
                },
                _ => r is None && *final(self) == (EditorState {
                    delete_confirm_id: None,
                    ..*old(self)
                }),
            },
    {
        let id = self.delete_confirm_id.take();
        match id {
            Some(id) => {
                if id.as_str().is_empty() {
                    None
                } else {
                    self.delete_pending = false;
                    Some(id)
                }
            },
            None => None,
        }
    }

    /// The deletion was cancelled.
    pub fn cancel_delete(&mut self)
        ensures
            *final(self) == (EditorState { delete_confirm_id: None, ..*old(self) }),
    {
        self.delete_confirm_id = None;
    }

    /// A note was deleted: nothing stored is current and nothing is
    /// modified. True when the deleted note was the current one.
    pub fn note_deleted(&mut self, id: &str) -> (was_current: bool)
        ensures
            was_current == (opt_text(old(self).current_note_id) == Some(id@)),
            *final(self) == (EditorState { current_note_id: None, dirty: false, ..*old(self) }),
    {
        let was_current = self.is_current(id);
        self.current_note_id = None;
        self.dirty = false;
        was_current
    }

    pub fn toggle_sidebar(&mut self)
        ensures
            *final(self) == sidebar_toggled(*old(self)),
    {
        self.sidebar_visible = !self.sidebar_visible;
    }

    /// Pins the note as a tile (hiding the sidebar and closing the side
    /// panel) or unpins it (showing the sidebar). True when now pinned.
    pub fn toggle_pin(&mut self) -> (pinned: bool)
        ensures
            pinned == !old(self).pinned,
            *final(self) == pin_toggled(*old(self)),
    {
        self.pinned = !self.pinned;
        if self.pinned {
            self.sidebar_visible = false;
            self.side_panel = None;
        } else {
            self.sidebar_visible = true;
        }
        self.pinned
    }

    /// Shows or hides line numbers; true when now shown.
    pub fn toggle_line_numbers(&mut self) -> (shown: bool)
        ensures
            shown == !old(self).line_numbers,
            *final(self) == line_numbers_toggled(*old(self)),
    {
        self.line_numbers = !self.line_numbers;
        self.line_numbers
    }

    /// Turns auto-save on or off; true when the note is to be saved now
    /// (auto-save turned on with the note modified).
    pub fn toggle_auto_save(&mut self) -> (save_now: bool)
        ensures
            *final(self) == auto_save_toggled(*old(self)),
            save_now == (!old(self).auto_save && old(self).dirty),
    {
        self.auto_save = !self.auto_save;
        self.auto_save && self.dirty
    }

    /// Opens a side panel, or closes it when it is the one open.
    pub fn toggle_side_panel(&mut self, mode: SidePanelMode)
        ensures
            *final(self) == side_panel_toggled(*old(self), mode),
    {
        self.side_panel = if self.side_panel == Some(mode) {
            None
        } else {
            Some(mode)
        };
    }

    pub fn open_floating_window(&mut self)
        ensures
            *final(self) == (EditorState { side_panel: Some(SidePanelMode::Floating), ..*old(self) }),
    {
        self.side_panel = Some(SidePanelMode::Floating);
    }

    /// The global hot key shows the floating note, or hides it when shown.
    pub fn hotkey_pressed(&mut self)
        ensures
            *final(self) == side_panel_toggled(*old(self), SidePanelMode::Floating),
    {
        if self.side_panel != Some(SidePanelMode::Floating) {
            self.side_panel = Some(SidePanelMode::Floating);
        } else {
            self.side_panel = None;
        }
    }

    /// Switches between the light and the dark theme; true when now dark.
    pub fn toggle_theme(&mut self) -> (dark: bool)
        ensures
            dark == !old(self).dark_mode,
            *final(self) == theme_toggled(*old(self)),
    {
        self.dark_mode = !self.dark_mode;
        self.dark_mode
    }

    pub fn set_mode(&mut self, mode: EditorMode)
        ensures
            *final(self) == (EditorState { mode, ..*old(self) }),
    {
        self.mode = mode;
    }

    /// The label of the current mode.
    pub fn mode_label(&self) -> (r: &'static str)
        ensures
            r@ == mode_text(self.mode),
    {
        match self.mode {
            EditorMode::Edit => "编辑",
            EditorMode::Split => "分栏",
            EditorMode::Preview => "预览",
        }
    }

    /// The label of the current category: `未分类` when blank.
    pub fn current_category_label(&self) -> (r: String)
        ensures
            r@ == if trim(self.current_category@).len() == 0 {
                "未分类"@
            } else {
                self.current_category@
            },
    {
        let t = trim_string(self.current_category.as_str());
        if t.as_str().is_empty() {
            String::from_str("未分类")
        } else {
            self.current_category.clone()
        }
    }

    /// A category was created from the input: it becomes the current one.
    pub fn category_created(&mut self, name: String)
        ensures
            *final(self) == (EditorState { current_category: name, ..*old(self) }),
    {
        self.current_category = name;
    }

    /// The rename input is shown for a category.
    pub fn start_rename(&mut self, name: String)
        ensures
            *final(self) == (EditorState { renaming_category: Some(name), ..*old(self) }),
    {
        self.renaming_category = Some(name);
    }

    pub fn cancel_rename(&mut self)
        ensures
            *final(self) == (EditorState { renaming_category: None, ..*old(self) }),
    {
        self.renaming_category = None;
    }

    /// A category was renamed: the current category follows it, and the
    /// rename input closes.
    pub fn category_renamed(&mut self, old_name: &str, new_name: String)
        ensures
            final(self).current_category@ == if old(self).current_category@ == old_name@ {
                new_name@
            } else {
                old(self).current_category@
            },
            *final(self) == (EditorState {
                current_category: final(self).current_category,
                renaming_category: None,
                ..*old(self)
            }),
    {
        if same_text(self.current_category.as_str(), old_name) {
            self.current_category = new_name;
        }
        self.renaming_category = None;
    }

    /// A category was deleted: a current category of that name becomes
    /// the uncategorized group.
    pub fn category_deleted(&mut self, name: &str)
        ensures
            final(self).current_category@ == if old(self).current_category@ == name@ {
                Seq::<char>::empty()
            } else {
                old(self).current_category@
            },
            *final(self) == (EditorState {
                current_category: final(self).current_category,
                ..*old(self)
            }),
    {
        if same_text(self.current_category.as_str(), name) {
            self.current_category = String::new();
        }
    }

    /// The note is moved to a category: it becomes the current category;
    /// a stored note is then moved, saved first when modified.
    pub fn move_to_category(&mut self, category: String) -> (r: MoveStep)
        ensures
            *final(self) == (EditorState { current_category: category, ..*old(self) }),
            match old(self).current_note_id {
                None => r is Draft,
                Some(id) => r matches MoveStep::Move { id: i, save_first } && i == id
                    && save_first == old(self).dirty,
            },
    {
        self.current_category = category;
        match &self.current_note_id {
            None => MoveStep::Draft,
            Some(id) => MoveStep::Move { id: id.clone(), save_first: self.dirty },
        }
    }

    /// The search text changed: the number of notes it finds, none when
    /// the query is empty. Returns the query.
    pub fn search_changed(&mut self, raw: &str, notes: &Vec<NoteMetadata>) -> (query: String)
        ensures
            query@ == query_of(raw@),
            *final(self) == (EditorState {
                search_hits: if query@.len() == 0 {
                    0
                } else {
                    meta_views(notes@).filter(matching(query@)).len() as usize
                },
                ..*old(self)
            }),
    {
        let q = search_query(raw);
        self.search_hits = search_hits(q.as_str(), notes);
        q
    }

    /// One step narrower tabs, never below `MIN_TAB_SIZE`.
    pub fn decrease_tab_size(&mut self)
        ensures
            *final(self) == (EditorState {
                tab_size: if old(self).tab_size <= 2 { 1 } else { (old(self).tab_size - 1) as usize },
                ..*old(self)
            }),
    {
        let t = if self.tab_size == 0 { 0 } else { self.tab_size - 1 };
        self.tab_size = if t < MIN_TAB_SIZE { MIN_TAB_SIZE } else { t };
    }

    /// One step wider tabs, never above `MAX_TAB_SIZE`.
    pub fn increase_tab_size(&mut self)
        requires
            old(self).tab_size < usize::MAX,
        ensures
            *final(self) == (EditorState {
                tab_size: if old(self).tab_size >= 7 { 8 } else { (old(self).tab_size + 1) as usize },
                ..*old(self)
            }),
    {
        let t = self.tab_size + 1;
        self.tab_size = if t > MAX_TAB_SIZE { MAX_TAB_SIZE } else { t };
    }

    /// What the window shows (see `layout_of`).
    pub fn layout(&self) -> (r: Layout)
        ensures
            r == layout_of(*self),
    {
        if self.pinned {
            Layout::Tile
        } else if self.side_panel == Some(SidePanelMode::Floating) {
            Layout::Floating
        } else {
            Layout::Main { sidebar: self.sidebar_visible, panel: self.side_panel }
        }
    }
}

/// Each toggle undoes itself: pressing it twice gives back the state,
/// for the sidebar, line numbers, auto-save and the theme always; for a
/// side panel (and the hot key's floating note) when no other panel was
/// open; for the pin when no panel was open and the sidebar was shown
/// exactly when unpinned (as pinning and unpinning leave it).
pub proof fn lemma_toggles_undo(s: EditorState, mode: SidePanelMode)
    ensures
        sidebar_toggled(sidebar_toggled(s)) == s,
        line_numbers_toggled(line_numbers_toggled(s)) == s,
        auto_save_toggled(auto_save_toggled(s)) == s,
        theme_toggled(theme_toggled(s)) == s,
        s.side_panel is None || s.side_panel == Some(mode) ==> side_panel_toggled(
            side_panel_toggled(s, mode),
            mode,
        ) == s,
        s.sidebar_visible == !s.pinned && s.side_panel is None ==> pin_toggled(pin_toggled(s))
            == s,
        !s.pinned ==> layout_of(pin_toggled(s)) == Layout::Tile,
{
}

/// Tab widths stay between `MIN_TAB_SIZE` and `MAX_TAB_SIZE` whatever
/// steps are taken, once they start there.
pub proof fn lemma_tab_size_bounded(t: usize)
    requires
        1 <= t <= 8,
    ensures
        1 <= (if t <= 2 { 1 } else { (t - 1) as usize }) <= 8,
        1 <= (if t >= 7 { 8 } else { (t + 1) as usize }) <= 8,
{
}

} // verus!
