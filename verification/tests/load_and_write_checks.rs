use chickenscratch_core::error::ChiknError;
use chickenscratch_core::models::Document;
use chickenscratch_core::project::targets::{check_all_document_targets, check_document_target, Seen, TargetProbe};
use chickenscratch_core::project::walk::{check_walk, WalkEntry};

fn doc(id: &str, path: &str) -> WalkEntry {
    WalkEntry::Document { id: id.to_string(), path: path.to_string() }
}

fn message(r: Result<(), ChiknError>) -> String {
    match r {
        Err(ChiknError::InvalidFormat(m)) => m,
        Err(_) => panic!("unexpected error kind"),
        Ok(()) => panic!("expected an error"),
    }
}

#[test]
fn a_clean_walk_is_accepted() {
    assert!(check_walk(&[doc("a", "manuscript/a.md"), doc("b", "manuscript/b.md")]).is_ok());
    assert!(check_walk(&[]).is_ok());
}

#[test]
fn a_symlink_in_the_walk_is_refused() {
    let r = check_walk(&[doc("a", "manuscript/a.md"), WalkEntry::Symlink("/p/manuscript/link.md".to_string())]);
    assert_eq!(message(r), "Project document path is a symlink: /p/manuscript/link.md");
}

#[test]
fn documents_at_one_normalized_path_are_refused() {
    let r = check_walk(&[doc("a", "manuscript/a.md"), doc("b", "manuscript//a.md")]);
    assert_eq!(message(r), "Duplicate document path: manuscript//a.md");
}

#[test]
fn documents_with_one_id_are_refused() {
    let r = check_walk(&[doc("a", "manuscript/a.md"), doc("a", "research/a.md")]);
    assert_eq!(message(r), "Duplicate document id: a");
}

#[test]
fn the_first_refusal_of_a_walk_wins() {
    let r = check_walk(&[
        doc("a", "manuscript/a.md"),
        doc("b", "../b.md"),
        WalkEntry::Symlink("/p/x".to_string()),
    ]);
    assert_eq!(
        message(r),
        "Document path must be relative and within project (parent-directory components are not allowed): ../b.md"
    );
}

fn clear_probe() -> TargetProbe {
    TargetProbe {
        ancestors: vec![("/p/manuscript".to_string(), Seen::Present { is_symlink: false, is_dir: true, inside_root: true })],
        content_display: "/p/manuscript/a.md".to_string(),
        content: Seen::Present { is_symlink: false, is_dir: false, inside_root: true },
        meta_display: "/p/manuscript/a.meta".to_string(),
        meta: Seen::Missing,
        meta_parse_error: None,
    }
}

#[test]
fn a_clear_target_is_accepted() {
    assert!(check_document_target("manuscript/a.md", &clear_probe()).is_ok());
}

#[test]
fn a_linked_directory_on_the_way_is_refused() {
    let mut p = clear_probe();
    p.ancestors[0].1 = Seen::Present { is_symlink: true, is_dir: false, inside_root: true };
    assert_eq!(
        message(check_document_target("manuscript/a.md", &p)),
        "Document path traverses a symlink: manuscript/a.md (/p/manuscript)"
    );
}

#[test]
fn a_file_where_a_directory_belongs_is_refused() {
    let mut p = clear_probe();
    p.ancestors[0].1 = Seen::Present { is_symlink: false, is_dir: false, inside_root: true };
    assert_eq!(
        message(check_document_target("manuscript/a.md", &p)),
        "Document path parent is not a directory: manuscript/a.md (/p/manuscript)"
    );
}

#[test]
fn a_missing_directory_ends_the_walk() {
    let mut p = clear_probe();
    p.ancestors = vec![
        ("/p/manuscript".to_string(), Seen::Missing),
        ("/p/manuscript/x".to_string(), Seen::Present { is_symlink: true, is_dir: false, inside_root: false }),
    ];
    assert!(check_document_target("manuscript/a.md", &p).is_ok());
}

#[test]
fn linked_or_escaping_files_are_refused() {
    let mut p = clear_probe();
    p.content = Seen::Present { is_symlink: true, is_dir: false, inside_root: true };
    assert_eq!(
        message(check_document_target("manuscript/a.md", &p)),
        "Document document file is a symlink: manuscript/a.md (/p/manuscript/a.md)"
    );
    let mut q = clear_probe();
    q.meta = Seen::Present { is_symlink: false, is_dir: false, inside_root: false };
    assert_eq!(
        message(check_document_target("manuscript/a.md", &q)),
        "Document path escapes project root: manuscript/a.md (/p/manuscript/a.meta)"
    );
}

#[test]
fn a_corrupt_sidecar_is_refused() {
    let mut p = clear_probe();
    p.meta = Seen::Present { is_symlink: false, is_dir: false, inside_root: true };
    p.meta_parse_error = Some("bad yaml".to_string());
    assert_eq!(
        message(check_document_target("manuscript/a.md", &p)),
        "Failed to parse document metadata at /p/manuscript/a.meta: bad yaml"
    );
}

#[test]
fn every_document_is_checked_in_order() {
    let mut a = Document::default();
    a.id = "a".to_string();
    a.path = "manuscript/a.md".to_string();
    let mut b = Document::default();
    b.id = "b".to_string();
    b.path = "/etc/passwd".to_string();
    let mut a2 = Document::default();
    a2.id = "a".to_string();
    a2.path = "manuscript/a.md".to_string();
    assert_eq!(
        message(check_all_document_targets(&[a, b], &[clear_probe(), clear_probe()])),
        "Document path must be relative and within project (absolute paths are not allowed): /etc/passwd"
    );
    assert!(check_all_document_targets(&[a2], &[clear_probe()]).is_ok());
}
