use chickenscratch_core::models::TreeNode;
use chickenscratch_core::tui::{
    binder_items, clamp_selection, comment_anchor_text, find_first_document, normalize_selection, selected_folder_id,
    strip_comment_span, strip_tags_inline, wrap_selection_in_lines, ViewMode,
};

fn doc(id: &str, name: &str) -> TreeNode {
    TreeNode::Document { id: id.to_string(), name: name.to_string(), path: format!("manuscript/{}.md", id) }
}

fn sample() -> Vec<TreeNode> {
    vec![
        TreeNode::Folder { id: "f1".to_string(), name: "Part".to_string(), children: vec![doc("d1", "Ch1")] },
        doc("d2", "Ch2"),
    ]
}

fn rows(h: &[TreeNode], expanded: &[&str]) -> Vec<(usize, String, String, bool)> {
    let ex: Vec<String> = expanded.iter().map(|s| s.to_string()).collect();
    binder_items(h, &ex).into_iter().map(|r| (r.depth, r.id, r.name, r.is_folder)).collect()
}

#[test]
fn binder_lists_expanded_folders_children() {
    assert_eq!(
        rows(&sample(), &["f1"]),
        vec![
            (0, "f1".to_string(), "Part".to_string(), true),
            (1, "d1".to_string(), "Ch1".to_string(), false),
            (0, "d2".to_string(), "Ch2".to_string(), false),
        ]
    );
    assert_eq!(
        rows(&sample(), &[]),
        vec![(0, "f1".to_string(), "Part".to_string(), true), (0, "d2".to_string(), "Ch2".to_string(), false)]
    );
}

#[test]
fn selection_is_clamped_to_listing() {
    assert_eq!(clamp_selection(5, 3), 2);
    assert_eq!(clamp_selection(1, 3), 1);
    assert_eq!(clamp_selection(4, 0), 4);
}

#[test]
fn selected_folder_only_for_folders() {
    let items = binder_items(&sample(), &vec!["f1".to_string()]);
    assert_eq!(selected_folder_id(&items, 0), Some("f1".to_string()));
    assert_eq!(selected_folder_id(&items, 1), None);
    assert_eq!(selected_folder_id(&items, 9), None);
}

#[test]
fn view_mode_cycles() {
    assert_eq!(ViewMode::Edit.next(), ViewMode::Preview);
    assert_eq!(ViewMode::Preview.next(), ViewMode::Edit);
    assert_eq!(ViewMode::Edit.label(), "edit");
    assert_eq!(ViewMode::Preview.label(), "preview");
}

#[test]
fn selection_is_normalized() {
    assert_eq!(normalize_selection((2, 4, 1, 0)), (1, 0, 2, 4));
    assert_eq!(normalize_selection((1, 5, 1, 2)), (1, 2, 1, 5));
    assert_eq!(normalize_selection((0, 1, 3, 0)), (0, 1, 3, 0));
}

fn lines(ls: &[&str]) -> Vec<String> {
    ls.iter().map(|s| s.to_string()).collect()
}

#[test]
fn wrap_single_line_selection() {
    let mut l = lines(&["hello world"]);
    assert!(wrap_selection_in_lines(&mut l, 0, 0, 0, 5, "<s>", "</s>"));
    assert_eq!(l, lines(&["<s>hello</s> world"]));
    let mut e = lines(&["abc"]);
    assert!(!wrap_selection_in_lines(&mut e, 0, 2, 0, 2, "<s>", "</s>"));
    assert!(!wrap_selection_in_lines(&mut e, 0, 3, 0, 1, "<s>", "</s>"));
    assert!(!wrap_selection_in_lines(&mut e, 4, 0, 4, 1, "<s>", "</s>"));
    assert_eq!(e, lines(&["abc"]));
}

#[test]
fn wrap_multi_line_selection() {
    let mut l = lines(&["ab", "cd", "ef"]);
    assert!(wrap_selection_in_lines(&mut l, 0, 1, 2, 1, "<s>", "</s>"));
    assert_eq!(l, lines(&["a<s>b", "cd", "e</s>f"]));
    let mut m = lines(&["ab", "cd"]);
    assert!(wrap_selection_in_lines(&mut m, 0, 10, 7, 1, "<s>", "</s>"));
    assert_eq!(m, lines(&["ab<s>", "c</s>d"]));
}

#[test]
fn strip_tags_keeps_text() {
    assert_eq!(strip_tags_inline("  <b>Hi</b> there "), "Hi there");
    assert_eq!(strip_tags_inline(""), "");
}

const HTML: &str = "Intro <span class=\"comment\" data-comment-id=\"c1\">anchored <em>text</em></span> end";

#[test]
fn anchor_text_of_comment() {
    assert_eq!(comment_anchor_text(HTML, "c1"), "anchored text");
    assert_eq!(comment_anchor_text(HTML, "c2"), "");
}

#[test]
fn strip_comment_span_keeps_inner_text() {
    assert_eq!(strip_comment_span(HTML, "c1"), "Intro anchored <em>text</em> end");
    assert_eq!(strip_comment_span(HTML, "c2"), HTML);
}

#[test]
fn first_document_is_depth_first() {
    let h = vec![
        TreeNode::Folder { id: "e".to_string(), name: "Empty".to_string(), children: vec![] },
        TreeNode::Folder { id: "f".to_string(), name: "F".to_string(), children: vec![doc("x", "X")] },
        doc("y", "Y"),
    ];
    assert_eq!(find_first_document(&h), Some("x".to_string()));
    assert_eq!(find_first_document(&[]), None);
}

use chickenscratch_core::tui::{
    clamp_comment_selection, confirm_quit, mode_after_comment_edit, move_selection, prompt_step, toggled_focus, Focus,
    KeyCode, Mode, PromptOutcome,
};

#[test]
fn prompt_keys_edit_and_submit() {
    let mut input = String::from("  Draft 2");
    assert!(matches!(prompt_step(&mut input, KeyCode::Char('!')), PromptOutcome::Editing));
    assert_eq!(input, "  Draft 2!");
    assert!(matches!(prompt_step(&mut input, KeyCode::Backspace), PromptOutcome::Editing));
    assert_eq!(input, "  Draft 2");
    match prompt_step(&mut input, KeyCode::Enter) {
        PromptOutcome::Submitted(t) => assert_eq!(t, "Draft 2"),
        _ => panic!("expected submit"),
    }
    assert_eq!(input, "");
    let mut other = String::from("x");
    assert!(matches!(prompt_step(&mut other, KeyCode::Esc), PromptOutcome::Cancelled));
    assert_eq!(other, "");
    let mut empty = String::new();
    assert!(matches!(prompt_step(&mut empty, KeyCode::Backspace), PromptOutcome::Editing));
    assert_eq!(empty, "");
}

#[test]
fn quit_confirmation_and_navigation() {
    assert!(confirm_quit(KeyCode::Char('y')));
    assert!(confirm_quit(KeyCode::Char('Y')));
    assert!(!confirm_quit(KeyCode::Char('n')));
    assert!(!confirm_quit(KeyCode::Enter));
    assert_eq!(move_selection(0, 3, KeyCode::Down), 1);
    assert_eq!(move_selection(2, 3, KeyCode::Char('j')), 2);
    assert_eq!(move_selection(2, 3, KeyCode::Up), 1);
    assert_eq!(move_selection(0, 3, KeyCode::Char('k')), 0);
    assert_eq!(move_selection(0, 0, KeyCode::Down), 0);
    assert_eq!(move_selection(1, 3, KeyCode::Enter), 1);
    assert_eq!(toggled_focus(Focus::Binder), Focus::Editor);
    assert_eq!(toggled_focus(Focus::Editor), Focus::Binder);
    assert_eq!(mode_after_comment_edit(Focus::Editor), Mode::Normal);
    assert_eq!(mode_after_comment_edit(Focus::Binder), Mode::Comments);
    assert_eq!(clamp_comment_selection(4, 2), 1);
    assert_eq!(clamp_comment_selection(1, 2), 1);
    assert_eq!(clamp_comment_selection(3, 0), 3);
}

#[test]
fn markdown_word_count_ignores_punctuation_tokens() {
    assert_eq!(chickenscratch_core::tui::count_words("## Heading | --- | `x` > quote"), 3);
    assert_eq!(chickenscratch_core::tui::count_words("  "), 0);
}

#[test]
fn strip_tags_inline_drops_tags_and_entities() {
    let r = chickenscratch_core::tui::strip_tags_inline("<b>Tom &amp; Jerry</b>");
    assert!(!r.contains('<'));
    assert!(!r.contains("&amp;"));
    assert!(r.starts_with("Tom"));
    assert!(r.ends_with("Jerry"));
    assert_eq!(chickenscratch_core::tui::strip_tags_inline(" a &#38; b & c; &x "), "a  b & c; &x");
}
