use chickenscratch_core::models::Comment;
use chickenscratch_core::session::{Action, KeyPress, Session};
use chickenscratch_core::tui::{BinderItem, Focus, KeyCode, Mode, ViewMode};

fn key(code: KeyCode) -> KeyPress {
    KeyPress { code, ctrl: false }
}

fn ctrl(c: char) -> KeyPress {
    KeyPress { code: KeyCode::Char(c), ctrl: true }
}

fn items() -> Vec<BinderItem> {
    vec![
        BinderItem { depth: 0, id: "f".to_string(), name: "Manuscript".to_string(), is_folder: true },
        BinderItem { depth: 1, id: "d".to_string(), name: "Chapter".to_string(), is_folder: false },
    ]
}

fn comment(id: &str, body: &str) -> Comment {
    Comment {
        id: id.to_string(),
        body: body.to_string(),
        resolved: false,
        created: String::new(),
        modified: String::new(),
    }
}

fn press(s: &mut Session, k: KeyPress) -> Action {
    s.handle_key(k, &items(), &Vec::new(), None, "Revision 2024-01-01 10:00")
}

#[test]
fn a_new_session_starts_in_the_binder() {
    let s = Session::new();
    assert_eq!(s.focus, Focus::Binder);
    assert_eq!(s.mode, Mode::Normal);
    assert_eq!(s.view_mode, ViewMode::Edit);
    assert!(s.wrap);
    assert_eq!(s.status, "Ready. ?=help  Tab=switch pane  q=quit");
}

#[test]
fn tab_switches_panes() {
    let mut s = Session::new();
    assert!(matches!(press(&mut s, key(KeyCode::Tab)), Action::Nothing));
    assert_eq!(s.focus, Focus::Editor);
    press(&mut s, key(KeyCode::Tab));
    assert_eq!(s.focus, Focus::Binder);
}

#[test]
fn comments_need_an_open_document() {
    let mut s = Session::new();
    press(&mut s, key(KeyCode::F(2)));
    assert_eq!(s.mode, Mode::Normal);
    assert_eq!(s.status, "Open a document first to see comments");
}

#[test]
fn binder_navigation_stays_in_range() {
    let mut s = Session::new();
    press(&mut s, key(KeyCode::Down));
    assert_eq!(s.binder_selected, 1);
    press(&mut s, key(KeyCode::Char('j')));
    assert_eq!(s.binder_selected, 1);
    press(&mut s, key(KeyCode::Up));
    press(&mut s, key(KeyCode::Char('k')));
    assert_eq!(s.binder_selected, 0);
}

#[test]
fn enter_opens_and_closes_folders() {
    let mut s = Session::new();
    assert!(matches!(press(&mut s, key(KeyCode::Enter)), Action::RebuildBinder));
    assert_eq!(s.expanded, vec!["f".to_string()]);
    assert!(matches!(press(&mut s, key(KeyCode::Char(' '))), Action::RebuildBinder));
    assert!(s.expanded.is_empty());
}

#[test]
fn enter_on_a_document_opens_it() {
    let mut s = Session::new();
    press(&mut s, key(KeyCode::Down));
    match press(&mut s, key(KeyCode::Enter)) {
        Action::OpenDocument(id) => assert_eq!(id, "d"),
        _ => panic!("expected OpenDocument"),
    }
    assert_eq!(s.focus, Focus::Editor);
    s.document_opened("d", "Chapter");
    assert_eq!(s.active_doc_id, Some("d".to_string()));
    assert_eq!(s.status, "Opened: Chapter");
    assert!(matches!(press(&mut s, key(KeyCode::Char('x'))), Action::EditorInput));
    s.editor_input_taken(true);
    assert!(s.dirty);
}

#[test]
fn new_document_prompt_creates_under_the_selected_folder() {
    let mut s = Session::new();
    press(&mut s, key(KeyCode::Char('n')));
    assert_eq!(s.mode, Mode::NewDocPrompt);
    assert_eq!(s.new_item_parent_id, Some("f".to_string()));
    for c in " Scene ".chars() {
        press(&mut s, key(KeyCode::Char(c)));
    }
    press(&mut s, key(KeyCode::Backspace));
    match press(&mut s, key(KeyCode::Enter)) {
        Action::CreateDocument(name, parent) => {
            assert_eq!(name, "Scene");
            assert_eq!(parent, Some("f".to_string()));
        }
        _ => panic!("expected CreateDocument"),
    }
    assert_eq!(s.mode, Mode::Normal);
    assert_eq!(s.prompt_input, "");
    assert_eq!(s.new_item_parent_id, None);
}

#[test]
fn new_folder_prompt_with_a_blank_name_does_nothing() {
    let mut s = Session::new();
    press(&mut s, key(KeyCode::Down));
    press(&mut s, key(KeyCode::Char('N')));
    assert_eq!(s.mode, Mode::NewFolderPrompt);
    assert_eq!(s.new_item_parent_id, None);
    press(&mut s, key(KeyCode::Char(' ')));
    assert!(matches!(press(&mut s, key(KeyCode::Enter)), Action::Nothing));
    assert_eq!(s.mode, Mode::Normal);
}

#[test]
fn revision_prompt_offers_a_name() {
    let mut s = Session::new();
    press(&mut s, ctrl('r'));
    assert_eq!(s.mode, Mode::RevisionPrompt);
    assert_eq!(s.prompt_input, "Revision 2024-01-01 10:00");
    match press(&mut s, key(KeyCode::Enter)) {
        Action::SaveRevision(m) => assert_eq!(m, "Revision 2024-01-01 10:00"),
        _ => panic!("expected SaveRevision"),
    }
    assert_eq!(s.mode, Mode::Normal);
}

#[test]
fn quitting_with_unsaved_changes_asks_first() {
    let mut s = Session::new();
    s.dirty = true;
    press(&mut s, key(KeyCode::Char('q')));
    assert_eq!(s.mode, Mode::Confirm);
    assert_eq!(s.status, "Unsaved changes. Quit anyway? (y/N)");
    press(&mut s, key(KeyCode::Char('n')));
    assert_eq!(s.mode, Mode::Normal);
    assert_eq!(s.status, "Canceled quit");
    assert!(!s.should_quit);
    press(&mut s, ctrl('q'));
    press(&mut s, key(KeyCode::Char('Y')));
    assert!(s.should_quit);
}

#[test]
fn quitting_without_changes_is_immediate() {
    let mut s = Session::new();
    press(&mut s, key(KeyCode::Esc));
    assert!(s.should_quit);
}

#[test]
fn view_and_wrap_shortcuts() {
    let mut s = Session::new();
    press(&mut s, ctrl('t'));
    assert_eq!(s.view_mode, ViewMode::Preview);
    assert_eq!(s.status, "View: preview");
    assert!(matches!(press(&mut s, ctrl('w')), Action::ApplyWrap));
    assert!(!s.wrap);
    assert_eq!(s.status, "Wrap off");
    assert!(matches!(press(&mut s, ctrl('s')), Action::SaveDocument));
}

#[test]
fn editing_a_comment_from_the_list() {
    let mut s = Session::new();
    s.document_opened("d", "Chapter");
    let cs = vec![comment("c1", "first"), comment("c2", "second")];
    s.handle_key(key(KeyCode::F(2)), &items(), &cs, None, "");
    assert_eq!(s.mode, Mode::Comments);
    s.handle_key(key(KeyCode::Down), &items(), &cs, None, "");
    assert_eq!(s.comments_selected, 1);
    s.handle_key(key(KeyCode::Char('e')), &items(), &cs, None, "");
    assert_eq!(s.mode, Mode::CommentEdit);
    assert_eq!(s.prompt_input, "second");
    s.handle_key(key(KeyCode::Char('!')), &items(), &cs, None, "");
    match s.handle_key(key(KeyCode::Enter), &items(), &cs, None, "") {
        Action::UpdateComment(id, body) => {
            assert_eq!(id, "c2");
            assert_eq!(body, "second!");
        }
        _ => panic!("expected UpdateComment"),
    }
    assert_eq!(s.mode, Mode::Comments);
    match s.handle_key(key(KeyCode::Char('d')), &items(), &cs, None, "") {
        Action::DeleteComment(id) => assert_eq!(id, "c2"),
        _ => panic!("expected DeleteComment"),
    }
    s.comment_deleted(1);
    assert_eq!(s.comments_selected, 0);
    assert_eq!(s.status, "Comment deleted");
}

#[test]
fn anchoring_a_comment_to_the_selection() {
    let mut s = Session::new();
    s.document_opened("d", "Chapter");
    press(&mut s, key(KeyCode::Tab));
    press(&mut s, key(KeyCode::F(3)));
    assert_eq!(s.status, "Select text first (Shift+arrows), then F3 to anchor a comment");
    s.handle_key(key(KeyCode::F(3)), &items(), &Vec::new(), Some((0, 1, 0, 4)), "");
    assert_eq!(s.mode, Mode::CommentEdit);
    assert_eq!(s.pending_selection, Some((0, 1, 0, 4)));
    press(&mut s, key(KeyCode::Char('o')));
    press(&mut s, key(KeyCode::Char('k')));
    match press(&mut s, key(KeyCode::Enter)) {
        Action::AddAnchoredComment(body, sel) => {
            assert_eq!(body, "ok");
            assert_eq!(sel, (0, 1, 0, 4));
        }
        _ => panic!("expected AddAnchoredComment"),
    }
    assert_eq!(s.mode, Mode::Normal);
    assert_eq!(s.pending_selection, None);
    s.comment_anchored();
    assert_eq!(s.status, "Comment anchored to selection");
}

#[test]
fn a_new_comment_from_an_empty_list_has_no_anchor() {
    let mut s = Session::new();
    s.document_opened("d", "Chapter");
    press(&mut s, key(KeyCode::F(2)));
    press(&mut s, key(KeyCode::Enter));
    assert_eq!(s.mode, Mode::CommentEdit);
    assert_eq!(s.comment_edit_id, Some(String::new()));
    press(&mut s, key(KeyCode::Char('x')));
    match press(&mut s, key(KeyCode::Enter)) {
        Action::AddOrphanComment(body) => assert_eq!(body, "x"),
        _ => panic!("expected AddOrphanComment"),
    }
    assert_eq!(s.mode, Mode::Comments);
    s.orphan_comment_added(3);
    assert_eq!(s.comments_selected, 2);
    assert_eq!(s.status, "Comment added");
}

#[test]
fn saving_reports_the_word_count() {
    let mut s = Session::new();
    s.dirty = true;
    s.document_saved(1205);
    assert!(!s.dirty);
    assert_eq!(s.status, "Saved. 1205 words.");
    s.binder_rebuilt(0);
    assert_eq!(s.binder_selected, 0);
    s.binder_selected = 5;
    s.binder_rebuilt(2);
    assert_eq!(s.binder_selected, 1);
}

#[test]
fn word_count_skips_markup_tokens() {
    let mut s = Session::new();
    assert_eq!(s.word_count("# Title\n\n* one - two"), 0);
    s.document_opened("d", "Chapter");
    assert_eq!(s.word_count("# Title\n\n* one - two ***"), 3);
}
