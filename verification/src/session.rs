//! The terminal editor's key handling: what each key press does to the
//! editor's state, and which work it asks of the program around it (saving,
//! opening a document, editing a comment, passing the key to the text
//! area). The program performs the work and reports back through the
//! methods that take its outcome.
use vstd::prelude::*;
use vstd::string::StringExecFns;

use crate::models::Comment;
use crate::project::metadata::opt_text;
use crate::text::{owned, push_decimal, trim_ws};
use crate::tui::{
    BinderItem, Focus, KeyCode, Mode, PromptOutcome, RowView, ViewMode, clamp_comment_selection, clamp_selection,
    clamped_selection, count_words, next_view, prompt_next, prompt_step, prose_words, rows_view, selected_folder_id,
};

verus! {

/// A key press: the key, and whether Control was held.
#[derive(Clone, Copy, PartialEq, Eq, Structural, Debug)]
pub struct KeyPress {
    pub code: KeyCode,
    pub ctrl: bool,
}

/// What the terminal editor keeps between key presses, beside the project,
/// the text being edited and the binder listing.
pub struct Session {
    pub focus: Focus,
    pub mode: Mode,
    pub binder_selected: usize,
    /// Ids of the folders shown open in the binder.
    pub expanded: Vec<String>,
    pub active_doc_id: Option<String>,
    /// Whether the text being edited differs from the saved document.
    pub dirty: bool,
    pub view_mode: ViewMode,
    pub wrap: bool,
    pub status: String,
    pub prompt_input: String,
    pub should_quit: bool,
    /// The folder a new document or folder goes into.
    pub new_item_parent_id: Option<String>,
    pub comments_selected: usize,
    /// The comment being written: its id, or empty for a new one.
    pub comment_edit_id: Option<String>,
    /// The selection a new comment will be anchored to:
    /// (start row, start column, end row, end column).
    pub pending_selection: Option<(usize, usize, usize, usize)>,
}

/// The session as plain values.
#[verifier::ext_equal]
pub struct SessionView {
    pub focus: Focus,
    pub mode: Mode,
    pub binder_selected: nat,
    pub expanded: Seq<Seq<char>>,
    pub active_doc: Option<Seq<char>>,
    pub dirty: bool,
    pub view_mode: ViewMode,
    pub wrap: bool,
    pub status: Seq<char>,
    pub prompt: Seq<char>,
    pub should_quit: bool,
    pub new_item_parent: Option<Seq<char>>,
    pub comments_selected: nat,
    pub comment_edit: Option<Seq<char>>,
    pub pending: Option<(usize, usize, usize, usize)>,
}

impl Session {
    /// The session as plain values.
    pub open spec fn model(self) -> SessionView {
        SessionView {
            focus: self.focus,
            mode: self.mode,
            binder_selected: self.binder_selected as nat,
            expanded: self.expanded@.map_values(|x: String| x@),
            active_doc: opt_text(self.active_doc_id),
            dirty: self.dirty,
            view_mode: self.view_mode,
            wrap: self.wrap,
            status: self.status@,
            prompt: self.prompt_input@,
            should_quit: self.should_quit,
            new_item_parent: opt_text(self.new_item_parent_id),
            comments_selected: self.comments_selected as nat,
            comment_edit: opt_text(self.comment_edit_id),
            pending: self.pending_selection,
        }
    }
}

/// Work a key press asks of the program around the editor.
pub enum Action {
    Nothing,
    /// Save the document being edited.
    SaveDocument,
    /// Apply the wrap setting to the text area.
    ApplyWrap,
    /// Rebuild the binder listing (a folder was opened or closed).
    RebuildBinder,
    /// Open this document in the editor.
    OpenDocument(String),
    /// Hand the key to the text area.
    EditorInput,
    /// Save a revision with this message.
    SaveRevision(String),
    /// Create a document with this name under this folder.
    CreateDocument(String, Option<String>),
    /// Create a folder with this name under this folder.
    CreateFolder(String, Option<String>),
    ToggleResolve(String),
    DeleteComment(String),
    /// Reword comment `.0` to `.1`.
    UpdateComment(String, String),
    /// Add a comment with this body, anchored to this selection.
    AddAnchoredComment(String, (usize, usize, usize, usize)),
    /// Add a comment with this body to the document, without an anchor.
    AddOrphanComment(String),
}

/// An action as plain values.
#[verifier::ext_equal]
pub enum ActionView {
    Nothing,
    SaveDocument,
    ApplyWrap,
    RebuildBinder,
    OpenDocument(Seq<char>),
    EditorInput,
    SaveRevision(Seq<char>),
    CreateDocument(Seq<char>, Option<Seq<char>>),
    CreateFolder(Seq<char>, Option<Seq<char>>),
    ToggleResolve(Seq<char>),
    DeleteComment(Seq<char>),
    UpdateComment(Seq<char>, Seq<char>),
    AddAnchoredComment(Seq<char>, (usize, usize, usize, usize)),
    AddOrphanComment(Seq<char>),
}

impl Action {
    /// The action as plain values.
    pub open spec fn model(self) -> ActionView {
        match self {
            Action::Nothing => ActionView::Nothing,
            Action::SaveDocument => ActionView::SaveDocument,
            Action::ApplyWrap => ActionView::ApplyWrap,
            Action::RebuildBinder => ActionView::RebuildBinder,
            Action::OpenDocument(id) => ActionView::OpenDocument(id@),
            Action::EditorInput => ActionView::EditorInput,
            Action::SaveRevision(m) => ActionView::SaveRevision(m@),
            Action::CreateDocument(n, p) => ActionView::CreateDocument(n@, opt_text(p)),
            Action::CreateFolder(n, p) => ActionView::CreateFolder(n@, opt_text(p)),
            Action::ToggleResolve(id) => ActionView::ToggleResolve(id@),
            Action::DeleteComment(id) => ActionView::DeleteComment(id@),
            Action::UpdateComment(id, b) => ActionView::UpdateComment(id@, b@),
            Action::AddAnchoredComment(b, sel) => ActionView::AddAnchoredComment(b@, sel),
            Action::AddOrphanComment(b) => ActionView::AddOrphanComment(b@),
        }
    }
}

/// The status line a new session shows.
pub open spec fn ready_status() -> Seq<char> {
    "Ready. ?=help  Tab=switch pane  q=quit"@
}

/// The binder's key help.
pub open spec fn binder_help() -> Seq<char> {
    "Keys: ↑↓=nav Enter=open Tab=editor n=new doc N=new folder Ctrl+S=save Ctrl+R=rev Ctrl+T=view Ctrl+W=wrap F2=comments q=quit"@
}

/// The name of a view mode in the status line.
pub open spec fn view_label(m: ViewMode) -> Seq<char> {
    match m {
        ViewMode::Edit => "edit"@,
        ViewMode::Preview => "preview"@,
    }
}

/// The other pane.
pub open spec fn other_focus(f: Focus) -> Focus {
    match f {
        Focus::Binder => Focus::Editor,
        Focus::Editor => Focus::Binder,
    }
}

/// The open folders after opening or closing folder `id`.
pub open spec fn toggled(expanded: Seq<Seq<char>>, id: Seq<char>) -> Seq<Seq<char>> {
    if expanded.contains(id) {
        expanded.filter(|x: Seq<char>| x != id)
    } else {
        expanded.push(id)
    }
}

/// Asking to quit: with unsaved changes, the question; else quitting.
pub open spec fn quit_step(v: SessionView) -> SessionView {
    if v.dirty {
        SessionView { mode: Mode::Confirm, status: "Unsaved changes. Quit anyway? (y/N)"@, ..v }
    } else {
        SessionView { should_quit: true, ..v }
    }
}

/// A key in the revision-name prompt: Enter saves a revision under the
/// trimmed name unless it is blank.
pub open spec fn revision_prompt_step(v: SessionView, key: KeyCode) -> (SessionView, ActionView) {
    if key == KeyCode::Esc {
        (SessionView { mode: Mode::Normal, prompt: Seq::empty(), ..v }, ActionView::Nothing)
    } else if key == KeyCode::Enter {
        let msg = trim_ws(v.prompt);
        (
            SessionView { mode: Mode::Normal, prompt: Seq::empty(), ..v },
            if msg.len() > 0 { ActionView::SaveRevision(msg) } else { ActionView::Nothing },
        )
    } else {
        (SessionView { prompt: prompt_next(v.prompt, key), ..v }, ActionView::Nothing)
    }
}

/// A key in the new-document or new-folder prompt: Enter creates the item
/// under the trimmed name unless it is blank.
pub open spec fn new_item_step(v: SessionView, key: KeyCode) -> (SessionView, ActionView) {
    if key == KeyCode::Esc {
        (SessionView { mode: Mode::Normal, prompt: Seq::empty(), new_item_parent: None, ..v }, ActionView::Nothing)
    } else if key == KeyCode::Enter {
        let name = trim_ws(v.prompt);
        if name.len() > 0 {
            (
                SessionView { mode: Mode::Normal, prompt: Seq::empty(), new_item_parent: None, ..v },
                if v.mode == Mode::NewDocPrompt {
                    ActionView::CreateDocument(name, v.new_item_parent)
                } else {
                    ActionView::CreateFolder(name, v.new_item_parent)
                },
            )
        } else {
            (SessionView { mode: Mode::Normal, prompt: Seq::empty(), ..v }, ActionView::Nothing)
        }
    } else {
        (SessionView { prompt: prompt_next(v.prompt, key), ..v }, ActionView::Nothing)
    }
}

/// A key answering the quit question.
pub open spec fn confirm_step(v: SessionView, key: KeyCode) -> SessionView {
    if key == KeyCode::Char('y') || key == KeyCode::Char('Y') {
        SessionView { mode: Mode::Normal, should_quit: true, ..v }
    } else {
        SessionView { mode: Mode::Normal, status: "Canceled quit"@, ..v }
    }
}

/// Starting to write a new comment.
pub open spec fn new_comment_edit(v: SessionView) -> SessionView {
    SessionView { comment_edit: Some(Seq::empty()), prompt: Seq::empty(), mode: Mode::CommentEdit, ..v }
}

/// A key in the comment list.
pub open spec fn comments_step(v: SessionView, key: KeyCode, cs: Seq<Comment>) -> (SessionView, ActionView) {
    let n = cs.len();
    let sel = v.comments_selected;
    if key == KeyCode::Esc || key == KeyCode::Char('q') {
        (SessionView { mode: Mode::Normal, ..v }, ActionView::Nothing)
    } else if key == KeyCode::Down || key == KeyCode::Char('j') {
        (if n > 0 && sel + 1 < n { SessionView { comments_selected: sel + 1, ..v } } else { v }, ActionView::Nothing)
    } else if key == KeyCode::Up || key == KeyCode::Char('k') {
        (if sel > 0 { SessionView { comments_selected: (sel - 1) as nat, ..v } } else { v }, ActionView::Nothing)
    } else if key == KeyCode::Char('n') || key == KeyCode::Char('a') {
        (if v.active_doc is Some { new_comment_edit(v) } else { v }, ActionView::Nothing)
    } else if key == KeyCode::Char('r') {
        (v, if sel < n { ActionView::ToggleResolve(cs[sel as int].id@) } else { ActionView::Nothing })
    } else if key == KeyCode::Char('d') {
        (v, if sel < n { ActionView::DeleteComment(cs[sel as int].id@) } else { ActionView::Nothing })
    } else if key == KeyCode::Char('e') || key == KeyCode::Enter {
        (
            if sel < n {
                SessionView {
                    comment_edit: Some(cs[sel as int].id@),
                    prompt: cs[sel as int].body@,
                    mode: Mode::CommentEdit,
                    ..v
                }
            } else if n == 0 && v.active_doc is Some {
                new_comment_edit(v)
            } else {
                v
            },
            ActionView::Nothing,
        )
    } else {
        (v, ActionView::Nothing)
    }
}

/// A key while writing a comment: Enter adds the new comment (anchored to
/// the pending selection when there is one) or rewords the one being
/// edited, then returns to the editor when it has the keyboard, else to
/// the comment list.
pub open spec fn comment_edit_step(v: SessionView, key: KeyCode) -> (SessionView, ActionView) {
    if key == KeyCode::Esc {
        (SessionView { mode: Mode::Comments, prompt: Seq::empty(), comment_edit: None, ..v }, ActionView::Nothing)
    } else if key == KeyCode::Enter {
        let back = if v.focus == Focus::Editor { Mode::Normal } else { Mode::Comments };
        match v.comment_edit {
            Some(id) => if id.len() == 0 {
                match v.pending {
                    Some(sel) => (
                        SessionView { comment_edit: None, pending: None, prompt: Seq::empty(), mode: back, ..v },
                        ActionView::AddAnchoredComment(v.prompt, sel),
                    ),
                    None => (
                        SessionView { comment_edit: None, prompt: Seq::empty(), mode: back, ..v },
                        ActionView::AddOrphanComment(v.prompt),
                    ),
                }
            } else {
                (
                    SessionView { comment_edit: None, prompt: Seq::empty(), mode: back, ..v },
                    ActionView::UpdateComment(id, v.prompt),
                )
            },
            None => (SessionView { prompt: Seq::empty(), mode: back, ..v }, ActionView::Nothing),
        }
    } else {
        (SessionView { prompt: prompt_next(v.prompt, key), ..v }, ActionView::Nothing)
    }
}

/// The folder id of the selected row, when it is a folder.
pub open spec fn folder_at(items: Seq<RowView>, sel: nat) -> Option<Seq<char>> {
    if sel < items.len() && items[sel as int].3 { Some(items[sel as int].1) } else { None }
}

/// A key in the binder.
pub open spec fn binder_step(v: SessionView, key: KeyCode, items: Seq<RowView>) -> (SessionView, ActionView) {
    let sel = v.binder_selected;
    let len = items.len();
    if key == KeyCode::Char('q') || key == KeyCode::Esc {
        (quit_step(v), ActionView::Nothing)
    } else if key == KeyCode::Char('?') {
        (SessionView { status: binder_help(), ..v }, ActionView::Nothing)
    } else if key == KeyCode::Char('n') {
        (
            SessionView { new_item_parent: folder_at(items, sel), prompt: Seq::empty(), mode: Mode::NewDocPrompt, ..v },
            ActionView::Nothing,
        )
    } else if key == KeyCode::Char('N') {
        (
            SessionView {
                new_item_parent: folder_at(items, sel),
                prompt: Seq::empty(),
                mode: Mode::NewFolderPrompt,
                ..v
            },
            ActionView::Nothing,
        )
    } else if key == KeyCode::Down || key == KeyCode::Char('j') {
        (if sel + 1 < len { SessionView { binder_selected: sel + 1, ..v } } else { v }, ActionView::Nothing)
    } else if key == KeyCode::Up || key == KeyCode::Char('k') {
        (if sel > 0 { SessionView { binder_selected: (sel - 1) as nat, ..v } } else { v }, ActionView::Nothing)
    } else if key == KeyCode::Enter {
        if sel < len {
            let item = items[sel as int];
            if item.3 {
                (SessionView { expanded: toggled(v.expanded, item.1), ..v }, ActionView::RebuildBinder)
            } else {
                (SessionView { focus: Focus::Editor, ..v }, ActionView::OpenDocument(item.1))
            }
        } else {
            (v, ActionView::Nothing)
        }
    } else if key == KeyCode::Char(' ') {
        if sel < len && items[sel as int].3 {
            (SessionView { expanded: toggled(v.expanded, items[sel as int].1), ..v }, ActionView::RebuildBinder)
        } else {
            (v, ActionView::Nothing)
        }
    } else {
        (v, ActionView::Nothing)
    }
}

/// A key in the editor pane: Esc goes back to the binder; with a document
/// open in edit view, every other key goes to the text area.
pub open spec fn editor_step(v: SessionView, key: KeyCode) -> (SessionView, ActionView) {
    if key == KeyCode::Esc {
        (SessionView { focus: Focus::Binder, ..v }, ActionView::Nothing)
    } else if v.active_doc is None || v.view_mode == ViewMode::Preview {
        (v, ActionView::Nothing)
    } else {
        (v, ActionView::EditorInput)
    }
}

/// A key in normal mode: F2 opens the comment list, F3 starts a comment on
/// the editor's selection, the Control shortcuts save, name a revision,
/// switch the view, toggle wrapping, open the comment list and quit, Tab
/// switches panes, and other keys go to the pane with the keyboard.
pub open spec fn normal_step(
    v: SessionView,
    key: KeyPress,
    items: Seq<RowView>,
    selection: Option<(usize, usize, usize, usize)>,
    revision_name: Seq<char>,
) -> (SessionView, ActionView) {
    let c = key.code;
    if c == KeyCode::F(2) {
        (
            if v.active_doc is Some {
                SessionView { mode: Mode::Comments, comments_selected: 0, ..v }
            } else {
                SessionView { status: "Open a document first to see comments"@, ..v }
            },
            ActionView::Nothing,
        )
    } else if c == KeyCode::F(3) {
        (
            if v.active_doc is Some && v.focus == Focus::Editor {
                match selection {
                    Some(sel) => SessionView { pending: Some(sel), ..new_comment_edit(v) },
                    None => SessionView {
                        status: "Select text first (Shift+arrows), then F3 to anchor a comment"@,
                        ..v
                    },
                }
            } else {
                SessionView { status: "Focus the editor and select text first"@, ..v }
            },
            ActionView::Nothing,
        )
    } else if key.ctrl && c == KeyCode::Char('s') {
        (v, ActionView::SaveDocument)
    } else if key.ctrl && c == KeyCode::Char('r') {
        (SessionView { prompt: revision_name, mode: Mode::RevisionPrompt, ..v }, ActionView::Nothing)
    } else if key.ctrl && c == KeyCode::Char('t') {
        let m = next_view(v.view_mode);
        (SessionView { view_mode: m, status: "View: "@ + view_label(m), ..v }, ActionView::Nothing)
    } else if key.ctrl && c == KeyCode::Char('w') {
        (
            SessionView { wrap: !v.wrap, status: if !v.wrap { "Wrap on"@ } else { "Wrap off"@ }, ..v },
            ActionView::ApplyWrap,
        )
    } else if key.ctrl && c == KeyCode::Char(';') {
        (
            if v.active_doc is Some { SessionView { mode: Mode::Comments, comments_selected: 0, ..v } } else { v },
            ActionView::Nothing,
        )
    } else if key.ctrl && c == KeyCode::Char('q') {
        (quit_step(v), ActionView::Nothing)
    } else if c == KeyCode::Tab {
        (SessionView { focus: other_focus(v.focus), ..v }, ActionView::Nothing)
    } else if v.focus == Focus::Binder {
        binder_step(v, c, items)
    } else {
        editor_step(v, c)
    }
}

/// What a key press does, by the mode the keys are in.
pub open spec fn session_step(
    v: SessionView,
    key: KeyPress,
    items: Seq<RowView>,
    comments: Seq<Comment>,
    selection: Option<(usize, usize, usize, usize)>,
    revision_name: Seq<char>,
) -> (SessionView, ActionView) {
    match v.mode {
        Mode::RevisionPrompt => revision_prompt_step(v, key.code),
        Mode::NewDocPrompt | Mode::NewFolderPrompt => new_item_step(v, key.code),
        Mode::Confirm => (confirm_step(v, key.code), ActionView::Nothing),
        Mode::Normal => normal_step(v, key, items, selection, revision_name),
        Mode::Comments => comments_step(v, key.code, comments),
        Mode::CommentEdit => comment_edit_step(v, key.code),
    }
}

fn copy_opt(o: &Option<String>) -> (r: Option<String>)
    ensures
        opt_text(r) == opt_text(*o),
{
    match o {
        Some(s) => Some(s.clone()),
        None => None,
    }
}

/// Opens folder `id` in the binder, or closes it when it is open.
fn toggle_expanded(expanded: &mut Vec<String>, id: &str)
    ensures
        final(expanded)@.map_values(|x: String| x@) == toggled(old(expanded)@.map_values(|x: String| x@), id@),
{
    let ghost before = expanded@.map_values(|x: String| x@);
    let mut found = false;
    let mut i: usize = 0;
    while i < expanded.len()
        invariant
            i <= expanded@.len(),
            before == expanded@.map_values(|x: String| x@),
            found == (exists|j: int| 0 <= j < i && #[trigger] before[j] == id@),
        decreases expanded.len() - i,
    {
        if crate::text::str_eq(expanded[i].as_str(), id) {
            found = true;
        }
        assert(before[i as int] == expanded@[i as int]@);
        i = i + 1;
    }
    if !found {
        proof {
            assert(!before.contains(id@));
        }
        expanded.push(owned(id));
        proof {
            assert(expanded@.map_values(|x: String| x@) =~= before.push(id@));
        }
        return;
    }
    proof {
        assert(before.contains(id@));
    }
    let mut kept: Vec<String> = Vec::new();
    let mut k: usize = 0;
    proof {
        reveal(Seq::filter);
        assert(before.take(0) =~= Seq::<Seq<char>>::empty());
        assert(kept@.map_values(|x: String| x@) =~= Seq::<Seq<char>>::empty());
    }
    while k < expanded.len()
        invariant
            k <= expanded@.len(),
            before == expanded@.map_values(|x: String| x@),
            kept@.map_values(|x: String| x@) == before.take(k as int).filter(|x: Seq<char>| x != id@),
        decreases expanded.len() - k,
    {
        proof {
            reveal(Seq::filter);
            assert(before.take(k + 1).drop_last() =~= before.take(k as int));
            assert(before[k as int] == expanded@[k as int]@);
        }
        if !crate::text::str_eq(expanded[k].as_str(), id) {
            let ghost prev = kept@;
            kept.push(expanded[k].clone());
            proof {
                assert(kept@.map_values(|x: String| x@) =~= prev.map_values(|x: String| x@).push(before[k as int]));
            }
        }
        k = k + 1;
    }
    proof {
        assert(before.take(before.len() as int) =~= before);
    }
    *expanded = kept;
}

fn quit(s: &mut Session)
    ensures
        final(s).model() == quit_step(old(s).model()),
{
    if s.dirty {
        s.mode = Mode::Confirm;
        s.status = owned("Unsaved changes. Quit anyway? (y/N)");
    } else {
        s.should_quit = true;
    }
}

fn start_new_comment(s: &mut Session)
    ensures
        final(s).model() == new_comment_edit(old(s).model()),
{
    s.comment_edit_id = Some(String::new());
    s.prompt_input = String::new();
    s.mode = Mode::CommentEdit;
}

fn revision_prompt_key(s: &mut Session, key: KeyCode) -> (r: Action)
    ensures
        final(s).model() == revision_prompt_step(old(s).model(), key).0,
        r.model() == revision_prompt_step(old(s).model(), key).1,
{
    match prompt_step(&mut s.prompt_input, key) {
        PromptOutcome::Cancelled => {
            s.mode = Mode::Normal;
            Action::Nothing
        },
        PromptOutcome::Submitted(msg) => {
            s.mode = Mode::Normal;
            if msg.as_str().is_empty() { Action::Nothing } else { Action::SaveRevision(msg) }
        },
        PromptOutcome::Editing => Action::Nothing,
    }
}

fn new_item_key(s: &mut Session, key: KeyCode) -> (r: Action)
    ensures
        final(s).model() == new_item_step(old(s).model(), key).0,
        r.model() == new_item_step(old(s).model(), key).1,
{
    let is_doc = s.mode == Mode::NewDocPrompt;
    match prompt_step(&mut s.prompt_input, key) {
        PromptOutcome::Cancelled => {
            s.mode = Mode::Normal;
            s.new_item_parent_id = None;
            Action::Nothing
        },
        PromptOutcome::Submitted(name) => {
            s.mode = Mode::Normal;
            if name.as_str().is_empty() {
                Action::Nothing
            } else {
                let parent = s.new_item_parent_id.take();
                if is_doc { Action::CreateDocument(name, parent) } else { Action::CreateFolder(name, parent) }
            }
        },
        PromptOutcome::Editing => Action::Nothing,
    }
}

fn confirm_key(s: &mut Session, key: KeyCode)
    ensures
        final(s).model() == confirm_step(old(s).model(), key),
{
    s.mode = Mode::Normal;
    if crate::tui::confirm_quit(key) {
        s.should_quit = true;
    } else {
        s.status = owned("Canceled quit");
    }
}

fn comments_key(s: &mut Session, key: KeyCode, comments: &Vec<Comment>) -> (r: Action)
    ensures
        final(s).model() == comments_step(old(s).model(), key, comments@).0,
        r.model() == comments_step(old(s).model(), key, comments@).1,
{
    let n = comments.len();
    let sel = s.comments_selected;
    if key == KeyCode::Esc || key == KeyCode::Char('q') {
        s.mode = Mode::Normal;
        Action::Nothing
    } else if key == KeyCode::Down || key == KeyCode::Char('j') {
        if n > 0 && sel < n - 1 {
            s.comments_selected = sel + 1;
        }
        Action::Nothing
    } else if key == KeyCode::Up || key == KeyCode::Char('k') {
        if sel > 0 {
            s.comments_selected = sel - 1;
        }
        Action::Nothing
    } else if key == KeyCode::Char('n') || key == KeyCode::Char('a') {
        if s.active_doc_id.is_some() {
            start_new_comment(s);
        }
        Action::Nothing
    } else if key == KeyCode::Char('r') {
        if sel < n { Action::ToggleResolve(comments[sel].id.clone()) } else { Action::Nothing }
    } else if key == KeyCode::Char('d') {
        if sel < n { Action::DeleteComment(comments[sel].id.clone()) } else { Action::Nothing }
    } else if key == KeyCode::Char('e') || key == KeyCode::Enter {
        if sel < n {
            s.comment_edit_id = Some(comments[sel].id.clone());
            s.prompt_input = comments[sel].body.clone();
            s.mode = Mode::CommentEdit;
        } else if n == 0 && s.active_doc_id.is_some() {
            start_new_comment(s);
        }
        Action::Nothing
    } else {
        Action::Nothing
    }
}

fn comment_edit_key(s: &mut Session, key: KeyCode) -> (r: Action)
    ensures
        final(s).model() == comment_edit_step(old(s).model(), key).0,
        r.model() == comment_edit_step(old(s).model(), key).1,
{
    if key == KeyCode::Esc {
        s.mode = Mode::Comments;
        s.prompt_input = String::new();
        s.comment_edit_id = None;
        return Action::Nothing;
    }
    if key != KeyCode::Enter {
        let _ = prompt_step(&mut s.prompt_input, key);
        return Action::Nothing;
    }
    let back = if s.focus == Focus::Editor { Mode::Normal } else { Mode::Comments };
    let body = s.prompt_input.clone();
    let action = match s.comment_edit_id.take() {
        Some(id) => {
            if id.as_str().is_empty() {
                match s.pending_selection.take() {
                    Some(sel) => Action::AddAnchoredComment(body, sel),
                    None => Action::AddOrphanComment(body),
                }
            } else {
                Action::UpdateComment(id, body)
            }
        },
        None => Action::Nothing,
    };
    s.prompt_input = String::new();
    s.mode = back;
    action
}

fn binder_key(s: &mut Session, key: KeyCode, items: &Vec<BinderItem>) -> (r: Action)
    ensures
        final(s).model() == binder_step(old(s).model(), key, rows_view(items@)).0,
        r.model() == binder_step(old(s).model(), key, rows_view(items@)).1,
{
    let sel = s.binder_selected;
    let len = items.len();
    proof {
        assert(rows_view(items@).len() == items@.len());
        if sel < len {
            assert(rows_view(items@)[sel as int] == (items@[sel as int].depth as nat, items@[sel as int].id@,
                items@[sel as int].name@, items@[sel as int].is_folder));
        }
    }
    if key == KeyCode::Char('q') || key == KeyCode::Esc {
        quit(s);
        Action::Nothing
    } else if key == KeyCode::Char('?') {
        s.status = owned(
            "Keys: ↑↓=nav Enter=open Tab=editor n=new doc N=new folder Ctrl+S=save Ctrl+R=rev Ctrl+T=view Ctrl+W=wrap F2=comments q=quit",
        );
        Action::Nothing
    } else if key == KeyCode::Char('n') || key == KeyCode::Char('N') {
        s.new_item_parent_id = selected_folder_id(items, sel);
        s.prompt_input = String::new();
        s.mode = if key == KeyCode::Char('n') { Mode::NewDocPrompt } else { Mode::NewFolderPrompt };
        Action::Nothing
    } else if key == KeyCode::Down || key == KeyCode::Char('j') {
        if len > 0 && sel < len - 1 {
            s.binder_selected = sel + 1;
        }
        Action::Nothing
    } else if key == KeyCode::Up || key == KeyCode::Char('k') {
        if sel > 0 {
            s.binder_selected = sel - 1;
        }
        Action::Nothing
    } else if key == KeyCode::Enter {
        if sel < len {
            if items[sel].is_folder {
                toggle_expanded(&mut s.expanded, items[sel].id.as_str());
                Action::RebuildBinder
            } else {
                s.focus = Focus::Editor;
                Action::OpenDocument(items[sel].id.clone())
            }
        } else {
            Action::Nothing
        }
    } else if key == KeyCode::Char(' ') {
        if sel < len && items[sel].is_folder {
            toggle_expanded(&mut s.expanded, items[sel].id.as_str());
            Action::RebuildBinder
        } else {
            Action::Nothing
        }
    } else {
        Action::Nothing
    }
}

fn editor_key(s: &mut Session, key: KeyCode) -> (r: Action)
    ensures
        final(s).model() == editor_step(old(s).model(), key).0,
        r.model() == editor_step(old(s).model(), key).1,
{
    if key == KeyCode::Esc {
        s.focus = Focus::Binder;
        Action::Nothing
    } else if s.active_doc_id.is_none() || s.view_mode == ViewMode::Preview {
        Action::Nothing
    } else {
        Action::EditorInput
    }
}

fn normal_key(
    s: &mut Session,
    key: KeyPress,
    items: &Vec<BinderItem>,
    selection: Option<(usize, usize, usize, usize)>,
    revision_name: &str,
) -> (r: Action)
    ensures
        final(s).model() == normal_step(old(s).model(), key, rows_view(items@), selection, revision_name@).0,
        r.model() == normal_step(old(s).model(), key, rows_view(items@), selection, revision_name@).1,
{
    let c = key.code;
    if c == KeyCode::F(2) {
        if s.active_doc_id.is_some() {
            s.mode = Mode::Comments;
            s.comments_selected = 0;
        } else {
            s.status = owned("Open a document first to see comments");
        }
        Action::Nothing
    } else if c == KeyCode::F(3) {
        if s.active_doc_id.is_some() && s.focus == Focus::Editor {
            match selection {
                Some(sel) => {
                    s.pending_selection = Some(sel);
                    start_new_comment(s);
                },
                None => {
                    s.status = owned("Select text first (Shift+arrows), then F3 to anchor a comment");
                },
            }
        } else {
            s.status = owned("Focus the editor and select text first");
        }
        Action::Nothing
    } else if key.ctrl && c == KeyCode::Char('s') {
        Action::SaveDocument
    } else if key.ctrl && c == KeyCode::Char('r') {
        s.prompt_input = owned(revision_name);
        s.mode = Mode::RevisionPrompt;
        Action::Nothing
    } else if key.ctrl && c == KeyCode::Char('t') {
        let m = s.view_mode.next();
        s.view_mode = m;
        let mut st = owned("View: ");
        st.append(m.label());
        s.status = st;
        Action::Nothing
    } else if key.ctrl && c == KeyCode::Char('w') {
        s.wrap = !s.wrap;
        s.status = if s.wrap { owned("Wrap on") } else { owned("Wrap off") };
        Action::ApplyWrap
    } else if key.ctrl && c == KeyCode::Char(';') {
        if s.active_doc_id.is_some() {
            s.mode = Mode::Comments;
            s.comments_selected = 0;
        }
        Action::Nothing
    } else if key.ctrl && c == KeyCode::Char('q') {
        quit(s);
        Action::Nothing
    } else if c == KeyCode::Tab {
        s.focus = crate::tui::toggled_focus(s.focus);
        Action::Nothing
    } else if s.focus == Focus::Binder {
        binder_key(s, c, items)
    } else {
        editor_key(s, c)
    }
}

impl Session {
    /// A new session: the binder has the keyboard, nothing is open.
    pub fn new() -> (s: Session)
        ensures
            s.model() == (SessionView {
                focus: Focus::Binder,
                mode: Mode::Normal,
                binder_selected: 0,
                expanded: Seq::empty(),
                active_doc: None,
                dirty: false,
                view_mode: ViewMode::Edit,
                wrap: true,
                status: ready_status(),
                prompt: Seq::empty(),
                should_quit: false,
                new_item_parent: None,
                comments_selected: 0,
                comment_edit: None,
                pending: None,
            }),
    {
        let s = Session {
            focus: Focus::Binder,
            mode: Mode::Normal,
            binder_selected: 0,
            expanded: Vec::new(),
            active_doc_id: None,
            dirty: false,
            view_mode: ViewMode::Edit,
            wrap: true,
            status: owned("Ready. ?=help  Tab=switch pane  q=quit"),
            prompt_input: String::new(),
            should_quit: false,
            new_item_parent_id: None,
            comments_selected: 0,
            comment_edit_id: None,
            pending_selection: None,
        };
        proof {
            assert(s.expanded@.map_values(|x: String| x@) =~= Seq::<Seq<char>>::empty());
        }
        s
    }

    /// Takes one key press: `items` is the binder listing, `comments` the
    /// open document's comments, `selection` the text area's selection and
    /// `revision_name` the name a new revision is offered under.
    pub fn handle_key(
        &mut self,
        key: KeyPress,
        items: &Vec<BinderItem>,
        comments: &Vec<Comment>,
        selection: Option<(usize, usize, usize, usize)>,
        revision_name: &str,
    ) -> (r: Action)
        ensures
            final(self).model() == session_step(old(self).model(), key, rows_view(items@), comments@, selection,
                revision_name@).0,
            r.model() == session_step(old(self).model(), key, rows_view(items@), comments@, selection,
                revision_name@).1,
    {
        match self.mode {
            Mode::RevisionPrompt => revision_prompt_key(self, key.code),
            Mode::NewDocPrompt | Mode::NewFolderPrompt => new_item_key(self, key.code),
            Mode::Confirm => {
                confirm_key(self, key.code);
                Action::Nothing
            },
            Mode::Normal => normal_key(self, key, items, selection, revision_name),
            Mode::Comments => comments_key(self, key.code, comments),
            Mode::CommentEdit => comment_edit_key(self, key.code),
        }
    }

    /// The word count shown for the open document, whose text is `text`:
    /// its words beyond markup punctuation, or none when nothing is open.
    pub fn word_count(&self, text: &str) -> (r: usize)
        ensures
            r == (if self.active_doc_id is None { 0 } else { prose_words(text@).len() }),
    {
        if self.active_doc_id.is_none() {
            return 0;
        }
        count_words(text)
    }

    /// A document was opened: it becomes the active one, with nothing
    /// unsaved.
    pub fn document_opened(&mut self, doc_id: &str, name: &str)
        ensures
            final(self).model() == (SessionView {
                active_doc: Some(doc_id@),
                dirty: false,
                status: "Opened: "@ + name@,
                ..old(self).model()
            }),
    {
        self.active_doc_id = Some(owned(doc_id));
        self.dirty = false;
        let mut st = owned("Opened: ");
        st.append(name);
        self.status = st;
    }

    /// The text area took a key; a change leaves unsaved edits.
    pub fn editor_input_taken(&mut self, changed: bool)
        ensures
            final(self).model() == (SessionView { dirty: old(self).dirty || changed, ..old(self).model() }),
    {
        if changed {
            self.dirty = true;
        }
    }

    /// The binder listing was rebuilt with `len` rows; the selection stays
    /// on a row.
    pub fn binder_rebuilt(&mut self, len: usize)
        ensures
            final(self).model() == (SessionView {
                binder_selected: clamped_selection(old(self).binder_selected as nat, len as nat),
                ..old(self).model()
            }),
    {
        self.binder_selected = clamp_selection(self.binder_selected, len);
    }

    /// The active document was saved; it holds `words` words.
    pub fn document_saved(&mut self, words: usize)
        ensures
            final(self).model() == (SessionView {
                dirty: false,
                status: "Saved. "@ + crate::text::decimal(words as nat) + " words."@,
                ..old(self).model()
            }),
    {
        self.dirty = false;
        let mut st = owned("Saved. ");
        push_decimal(&mut st, words);
        st.append(" words.");
        self.status = st;
    }

    /// A comment was resolved (`true`) or reopened.
    pub fn comment_toggled(&mut self, resolved: bool)
        ensures
            final(self).model() == (SessionView {
                status: if resolved { "Comment resolved"@ } else { "Comment reopened"@ },
                ..old(self).model()
            }),
    {
        self.status = if resolved { owned("Comment resolved") } else { owned("Comment reopened") };
    }

    /// A comment was reworded.
    pub fn comment_updated(&mut self)
        ensures
            final(self).model() == (SessionView { status: "Comment updated"@, ..old(self).model() }),
    {
        self.status = owned("Comment updated");
    }

    /// A comment was deleted; `remaining` comments are left, and the
    /// selection stays on one of them.
    pub fn comment_deleted(&mut self, remaining: usize)
        ensures
            final(self).model() == (SessionView {
                comments_selected: if remaining > 0 && old(self).comments_selected >= remaining {
                    (remaining - 1) as nat
                } else {
                    old(self).comments_selected as nat
                },
                status: "Comment deleted"@,
                ..old(self).model()
            }),
    {
        self.comments_selected = clamp_comment_selection(self.comments_selected, remaining);
        self.status = owned("Comment deleted");
    }

    /// A comment without an anchor was added; the document now has `count`
    /// comments and the new, last one is selected.
    pub fn orphan_comment_added(&mut self, count: usize)
        ensures
            final(self).model() == (SessionView {
                comments_selected: if count > 0 { (count - 1) as nat } else { 0 },
                status: "Comment added"@,
                ..old(self).model()
            }),
    {
        self.comments_selected = if count > 0 { count - 1 } else { 0 };
        self.status = owned("Comment added");
    }

    /// A comment anchored to the selection was added and saved.
    pub fn comment_anchored(&mut self)
        ensures
            final(self).model() == (SessionView {
                dirty: false,
                status: "Comment anchored to selection"@,
                ..old(self).model()
            }),
    {
        self.dirty = false;
        self.status = owned("Comment anchored to selection");
    }

    /// A new comment's body was blank; nothing was added.
    pub fn comment_body_empty(&mut self)
        ensures
            final(self).model() == (SessionView { status: "Empty body; comment not added"@, ..old(self).model() }),
    {
        self.status = owned("Empty body; comment not added");
    }

    /// The selection to anchor a comment to was empty; nothing was added.
    pub fn anchor_selection_empty(&mut self)
        ensures
            final(self).model() == (SessionView {
                status: "Empty selection; nothing to anchor"@,
                ..old(self).model()
            }),
    {
        self.status = owned("Empty selection; nothing to anchor");
    }
}

} // verus!
