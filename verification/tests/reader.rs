use chickenscratch_core::error::ChiknError;
use chickenscratch_core::models::{Document, Project, ProjectMeta, TreeNode};
use chickenscratch_core::project::reader::{
    collect_hierarchy_document_identities, hierarchy_documents, repair_project, validate_hierarchy_document_paths,
    validate_hierarchy_documents_match_loaded_documents, DocEntry,
};

fn node(id: &str, path: &str) -> TreeNode {
    TreeNode::Document { id: id.to_string(), name: format!("Name {}", id), path: path.to_string() }
}

fn doc(id: &str, path: &str) -> Document {
    let mut d = Document::default();
    d.id = id.to_string();
    d.name = id.to_string();
    d.path = path.to_string();
    d
}

fn folder(id: &str, name: &str, children: Vec<TreeNode>) -> TreeNode {
    TreeNode::Folder { id: id.to_string(), name: name.to_string(), children }
}

#[test]
fn hierarchy_documents_are_listed_depth_first() {
    let h = vec![folder("f", "F", vec![node("a", "manuscript/a.md")]), node("b", "manuscript/b.md")];
    let mut out: Vec<DocEntry> = Vec::new();
    hierarchy_documents(&h, &mut out);
    let ids: Vec<&str> = out.iter().map(|e| e.id.as_str()).collect();
    assert_eq!(ids, vec!["a", "b"]);
    assert_eq!(out[0].name, "Name a");
    assert_eq!(out[1].path, "manuscript/b.md");
}

#[test]
fn hierarchy_paths_are_checked() {
    assert!(validate_hierarchy_document_paths(&[node("a", "manuscript/a.md")]).is_ok());
    let bad = vec![folder("f", "F", vec![node("a", "../a.md")])];
    assert!(matches!(validate_hierarchy_document_paths(&bad), Err(ChiknError::InvalidFormat(_))));
}

#[test]
fn identities_are_keyed_by_normalized_path() {
    let h = vec![node("a", "manuscript\\a.md"), node("b", "manuscript/b.md")];
    let ids = collect_hierarchy_document_identities(&h).unwrap();
    assert_eq!(ids.len(), 2);
    assert_eq!(ids[0].0, "manuscript/a.md");
    assert_eq!(ids[0].1.id, "a");
    assert_eq!(ids[0].1.name, "Name a");
    match collect_hierarchy_document_identities(&[node("a", "manuscript/a.md"), node("a", "manuscript/x.md")]) {
        Err(ChiknError::InvalidFormat(m)) => assert_eq!(m, "Duplicate hierarchy document id: a"),
        _ => panic!("expected duplicate id"),
    }
    match collect_hierarchy_document_identities(&[node("a", "manuscript/a.md"), node("b", "manuscript//a.md")]) {
        Err(ChiknError::InvalidFormat(m)) => assert_eq!(m, "Duplicate hierarchy document path: manuscript//a.md"),
        _ => panic!("expected duplicate path"),
    }
}

#[test]
fn hierarchy_must_match_loaded_documents() {
    let h = vec![node("a", "manuscript/a.md")];
    assert!(validate_hierarchy_documents_match_loaded_documents(&h, &vec![doc("a", "manuscript/a.md")]).is_ok());
    match validate_hierarchy_documents_match_loaded_documents(&h, &vec![doc("a", "manuscript/moved.md")]) {
        Err(ChiknError::InvalidFormat(m)) => assert_eq!(
            m,
            "Hierarchy document a points at manuscript/a.md, but loaded document path is manuscript/moved.md"
        ),
        _ => panic!("expected moved"),
    }
    match validate_hierarchy_documents_match_loaded_documents(&h, &vec![doc("z", "manuscript/a.md")]) {
        Err(ChiknError::InvalidFormat(m)) => assert_eq!(
            m,
            "Hierarchy document a points at manuscript/a.md, but that path loaded as document z"
        ),
        _ => panic!("expected taken"),
    }
}

#[test]
fn repair_adds_orphans_and_missing_folders() {
    let mut p = Project {
        id: "p".to_string(),
        name: "P".to_string(),
        path: "/tmp/p.chikn".to_string(),
        hierarchy: vec![folder("m", "manuscript", vec![node("a", "manuscript/a.md")])],
        documents: vec![doc("a", "manuscript/a.md"), doc("o", "manuscript/orphan.md"), doc("c", "characters/hero.md")],
        created: String::new(),
        modified: String::new(),
        metadata: ProjectMeta::default(),
    };
    assert!(repair_project(&mut p, false));
    let names: Vec<&str> = p.hierarchy.iter().map(|n| n.name()).collect();
    assert_eq!(names, vec!["manuscript", "o", "Research", "Trash"]);
    let mut again = p;
    assert!(!repair_project(&mut again, false));
    assert!(repair_project(&mut again, true));
}
