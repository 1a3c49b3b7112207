use chickenscratch_core::editing::{
    add_comment, add_new_document, add_new_folder, anchored_content, create_document_in_project,
    create_folder_in_project, delete_comment, find_comment, new_comment_id, toggle_resolve_comment,
    update_comment_body,
};
use chickenscratch_core::error::ChiknError;
use chickenscratch_core::models::{Comment, Document, Project, ProjectMeta, TreeNode};

fn comment(id: &str, body: &str) -> Comment {
    Comment {
        id: id.to_string(),
        body: body.to_string(),
        resolved: false,
        created: "t0".to_string(),
        modified: "t0".to_string(),
    }
}

fn doc_with_comments() -> Document {
    let mut d = Document::default();
    d.id = "d1".to_string();
    d.name = "Chapter".to_string();
    d.path = "manuscript/chapter.md".to_string();
    d.content = "Hello <span class=\"comment\" data-comment-id=\"c_2\">brave</span> world".to_string();
    d.comments = vec![comment("c_1", "first"), comment("c_2", "second"), comment("c_3", "third")];
    d
}

fn project(documents: Vec<Document>, hierarchy: Vec<TreeNode>) -> Project {
    Project {
        id: "p".to_string(),
        name: "Novel".to_string(),
        path: "/tmp/Novel.chikn".to_string(),
        hierarchy,
        documents,
        created: "c".to_string(),
        modified: "m".to_string(),
        metadata: ProjectMeta::default(),
    }
}

fn is_hex_lower(c: char) -> bool {
    c.is_ascii_digit() || ('a'..='f').contains(&c)
}

#[test]
fn find_comment_gives_first_match() {
    let d = doc_with_comments();
    assert_eq!(find_comment(&d.comments, "c_2"), Some(1));
    assert_eq!(find_comment(&d.comments, "c_9"), None);
}

#[test]
fn toggling_a_comment_twice_restores_it() {
    let mut d = doc_with_comments();
    assert_eq!(toggle_resolve_comment(&mut d, "c_2", "t1"), Some(true));
    assert!(d.comments[1].resolved);
    assert_eq!(d.comments[1].modified, "t1");
    assert_eq!(d.modified, "t1");
    assert!(!d.comments[0].resolved);
    assert_eq!(toggle_resolve_comment(&mut d, "c_2", "t2"), Some(false));
    assert!(!d.comments[1].resolved);
    assert_eq!(d.comments[1].body, "second");
}

#[test]
fn toggling_a_missing_comment_changes_nothing() {
    let mut d = doc_with_comments();
    assert_eq!(toggle_resolve_comment(&mut d, "nope", "t1"), None);
    assert_eq!(d.modified, "");
    assert_eq!(d.comments.len(), 3);
}

#[test]
fn rewording_a_comment() {
    let mut d = doc_with_comments();
    assert!(update_comment_body(&mut d, "c_3", "changed", "t5"));
    assert_eq!(d.comments[2].body, "changed");
    assert_eq!(d.comments[2].modified, "t5");
    assert_eq!(d.comments[2].created, "t0");
    assert!(!update_comment_body(&mut d, "c_4", "x", "t6"));
    assert_eq!(d.modified, "t5");
}

#[test]
fn deleting_a_comment_drops_it_and_its_anchor() {
    let mut d = doc_with_comments();
    delete_comment(&mut d, "c_2", "t9");
    let ids: Vec<&str> = d.comments.iter().map(|c| c.id.as_str()).collect();
    assert_eq!(ids, vec!["c_1", "c_3"]);
    assert_eq!(d.content, "Hello brave world");
    assert_eq!(d.modified, "t9");
}

#[test]
fn blank_comments_are_not_added() {
    let mut d = doc_with_comments();
    assert!(!add_comment(&mut d, "c_new".to_string(), "   \n\t", "t1"));
    assert_eq!(d.comments.len(), 3);
    assert_eq!(d.modified, "");
}

#[test]
fn adding_a_comment_appends_it() {
    let mut d = doc_with_comments();
    assert!(add_comment(&mut d, "c_new".to_string(), "  note ", "t1"));
    assert_eq!(d.comments.len(), 4);
    let c = &d.comments[3];
    assert_eq!(c.id, "c_new");
    assert_eq!(c.body, "  note ");
    assert!(!c.resolved);
    assert_eq!(c.created, "t1");
    assert_eq!(c.modified, "t1");
    assert_eq!(d.modified, "t1");
}

#[test]
fn comment_ids_are_prefixed_simple_uuids() {
    let a = new_comment_id();
    let b = new_comment_id();
    assert_eq!(a.len(), 34);
    assert!(a.starts_with("c_"));
    assert!(a[2..].chars().all(is_hex_lower));
    assert_ne!(a, b);
}

#[test]
fn anchoring_a_selection_on_one_line() {
    let lines = vec!["Hello brave world".to_string(), "second".to_string()];
    let r = anchored_content(lines, (0, 6, 0, 11), "c_1");
    assert_eq!(
        r,
        Some("Hello <span class=\"comment\" data-comment-id=\"c_1\">brave</span> world\nsecond".to_string())
    );
}

#[test]
fn anchoring_orders_the_selection_ends() {
    let lines = vec!["abc".to_string(), "def".to_string()];
    let r = anchored_content(lines, (1, 2, 0, 1), "x");
    assert_eq!(r, Some("a<span class=\"comment\" data-comment-id=\"x\">bc\nde</span>f".to_string()));
}

#[test]
fn anchoring_an_empty_selection_gives_nothing() {
    let lines = vec!["abc".to_string()];
    assert_eq!(anchored_content(lines, (0, 1, 0, 1), "x"), None);
}

#[test]
fn new_document_at_the_root() {
    let mut existing = Document::default();
    existing.id = "old".to_string();
    existing.path = "manuscript/chapter-one.html".to_string();
    let mut p = project(vec![existing], vec![]);
    let r = add_new_document(&mut p, "n1".to_string(), "Chapter One", None, "t1");
    assert!(r.is_ok());
    assert_eq!(p.documents.len(), 2);
    let d = &p.documents[1];
    assert_eq!(d.id, "n1");
    assert_eq!(d.name, "Chapter One");
    assert_eq!(d.path, "manuscript/chapter-one-1.md");
    assert_eq!(d.content, "");
    assert_eq!(d.parent_id, None);
    assert_eq!(d.created, "t1");
    assert_eq!(d.modified, "t1");
    assert!(d.include_in_compile);
    assert_eq!(p.hierarchy.len(), 1);
    match &p.hierarchy[0] {
        TreeNode::Document { id, name, path } => {
            assert_eq!(id, "n1");
            assert_eq!(name, "Chapter One");
            assert_eq!(path, "manuscript/chapter-one-1.md");
        }
        _ => panic!("expected a document"),
    }
}

#[test]
fn new_document_under_a_missing_folder_is_kept_but_reported() {
    let mut p = project(vec![], vec![]);
    let r = add_new_document(&mut p, "n1".to_string(), "Scene", Some("nowhere".to_string()), "t1");
    match r {
        Err(ChiknError::NotFound(m)) => assert_eq!(m, "Parent folder not found: nowhere"),
        _ => panic!("expected NotFound"),
    }
    assert_eq!(p.documents.len(), 1);
    assert_eq!(p.documents[0].parent_id, Some("nowhere".to_string()));
    assert!(p.hierarchy.is_empty());
}

#[test]
fn new_folder_inside_a_folder() {
    let folder = TreeNode::Folder { id: "f".to_string(), name: "Part".to_string(), children: vec![] };
    let mut p = project(vec![], vec![folder]);
    assert!(add_new_folder(&mut p, "g".to_string(), "Sub", Some("f".to_string())).is_ok());
    match &p.hierarchy[0] {
        TreeNode::Folder { children, .. } => {
            assert_eq!(children.len(), 1);
            match &children[0] {
                TreeNode::Folder { id, name, children } => {
                    assert_eq!(id, "g");
                    assert_eq!(name, "Sub");
                    assert!(children.is_empty());
                }
                _ => panic!("expected a folder"),
            }
        }
        _ => panic!("expected a folder"),
    }
    assert!(p.documents.is_empty());
}

#[test]
fn new_folder_under_a_document_fails() {
    let d = TreeNode::Document { id: "d".to_string(), name: "D".to_string(), path: "manuscript/d.md".to_string() };
    let mut p = project(vec![], vec![d]);
    match add_new_folder(&mut p, "g".to_string(), "Sub", Some("d".to_string())) {
        Err(ChiknError::InvalidFormat(m)) => {
            assert_eq!(m, "Cannot add child to a document (only folders can have children)")
        }
        _ => panic!("expected InvalidFormat"),
    }
    assert_eq!(p.hierarchy.len(), 1);
}

#[test]
fn created_items_get_fresh_uuids() {
    let mut p = project(vec![], vec![]);
    assert!(create_document_in_project(&mut p, "Opening", None).is_ok());
    let id = p.documents[0].id.clone();
    assert_eq!(id.len(), 36);
    assert_eq!(p.documents[0].path, "manuscript/opening.md");
    let folder_id = create_folder_in_project(&mut p, "Act One", None).expect("folder");
    assert_eq!(folder_id.len(), 36);
    assert_ne!(folder_id, id);
    assert_eq!(p.hierarchy.len(), 2);
}
