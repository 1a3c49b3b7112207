use chickenscratch_core::error::ChiknError;
use chickenscratch_core::hierarchy::find_node;
use chickenscratch_core::models::{Comment, Document, Project, ProjectMeta, TreeNode};
use chickenscratch_core::process::{handle_stream_event, BoundedProcessError, StreamEvent, StreamKind};
use chickenscratch_core::project::deletion::{delete_node, plan_node_deletion};
use chickenscratch_core::project::doc_paths::{normalized_relative_document_path, validate_relative_document_path};
use chickenscratch_core::project::metadata::{compile_flag_text, default_document_metadata, document_from_metadata, metadata_for_write};
use chickenscratch_core::project::reader::HierarchyDocumentIdentity;
use chickenscratch_core::project::safe_path::{check_subdir_kind, check_subdir_within_root, subdir_parts};
use chickenscratch_core::project::writer::initial_project;
use chickenscratch_core::scrivener::direction::{format_of_extension, Format};
use chickenscratch_core::snapshots::{get_snapshots_size, is_skipped_in_snapshot, snapshot_filename};

fn doc(id: &str, path: &str) -> Document {
    let mut d = Document::default();
    d.id = id.to_string();
    d.name = id.to_string();
    d.path = path.to_string();
    d
}

fn project(hierarchy: Vec<TreeNode>, documents: Vec<Document>) -> Project {
    Project {
        id: "p".to_string(),
        name: "Delete Folder".to_string(),
        path: "/tmp/DeleteFolder.chikn".to_string(),
        hierarchy,
        documents,
        created: String::new(),
        modified: String::new(),
        metadata: ProjectMeta::default(),
    }
}

#[test]
fn delete_folder_removes_descendant_files_and_prevents_repair_resurrection() {
    let mut p = project(
        vec![TreeNode::Folder {
            id: "folder".to_string(),
            name: "Folder".to_string(),
            children: vec![TreeNode::Document {
                id: "nested-doc".to_string(),
                name: "Nested".to_string(),
                path: "manuscript/folder/nested.md".to_string(),
            }],
        }],
        vec![doc("nested-doc", "manuscript/folder/nested.md"), doc("other", "manuscript/other.md")],
    );
    let plan = plan_node_deletion(&p, "folder").unwrap();
    assert_eq!(plan, vec![("nested-doc".to_string(), "manuscript/folder/nested.md".to_string())]);
    let deleted_ids = delete_node(&mut p, "folder", &plan).unwrap();
    assert_eq!(deleted_ids, vec!["nested-doc".to_string()]);
    assert!(p.documents.iter().all(|d| d.id != "nested-doc"));
    assert_eq!(p.documents.len(), 1);
    assert!(find_node(&p.hierarchy, "folder").is_none());
}

#[test]
fn deletion_uses_loaded_document_path_and_reports_missing_node() {
    let p = project(
        vec![TreeNode::Document { id: "d".to_string(), name: "D".to_string(), path: "manuscript/stale.md".to_string() }],
        vec![doc("d", "manuscript/moved.md")],
    );
    assert_eq!(plan_node_deletion(&p, "d").unwrap(), vec![("d".to_string(), "manuscript/moved.md".to_string())]);
    match plan_node_deletion(&p, "nope") {
        Err(ChiknError::NotFound(m)) => assert_eq!(m, "Node not found: nope"),
        _ => panic!("expected NotFound"),
    }
    let mut q = project(vec![], vec![doc("d", "manuscript/d.md")]);
    assert!(matches!(delete_node(&mut q, "nope", &vec![]), Err(ChiknError::NotFound(_))));
    assert_eq!(q.documents.len(), 1);
}

#[test]
fn test_write_document_rejects_absolute_path() {
    assert!(matches!(validate_relative_document_path("/etc/passwd"), Err(ChiknError::InvalidFormat(_))));
}

#[test]
fn test_write_document_rejects_parent_traversal() {
    assert!(matches!(validate_relative_document_path("../../../etc/passwd"), Err(ChiknError::InvalidFormat(_))));
}

#[test]
fn test_write_document_allows_dotdot_inside_component() {
    assert!(validate_relative_document_path("manuscript/chapter..01.md").is_ok());
}

#[test]
fn document_paths_are_normalized() {
    assert_eq!(normalized_relative_document_path("manuscript\\a.md").unwrap(), "manuscript/a.md");
    assert_eq!(normalized_relative_document_path("manuscript//b.md").unwrap(), "manuscript/b.md");
    match validate_relative_document_path("./x.md") {
        Err(ChiknError::InvalidFormat(m)) => assert_eq!(
            m,
            "Document path must be relative and within project (current-directory components are not allowed): ./x.md"
        ),
        _ => panic!("expected InvalidFormat"),
    }
}

#[test]
fn rejects_parent_dir_component() {
    let (parts, err) = subdir_parts("../escape");
    assert!(parts.is_empty());
    assert!(matches!(err, Some(ChiknError::InvalidFormat(_))));
}

#[test]
fn rejects_absolute_path() {
    let (_, err) = subdir_parts("/tmp/escape");
    match err {
        Some(ChiknError::InvalidFormat(m)) => assert_eq!(
            m,
            "Project subdirectory path must be relative and within project (only normal relative path components are allowed): /tmp/escape"
        ),
        _ => panic!("expected InvalidFormat"),
    }
}

#[test]
fn creates_missing_nested_safe_subdir() {
    let (parts, err) = subdir_parts("characters/group");
    assert_eq!(parts, vec!["characters".to_string(), "group".to_string()]);
    assert!(err.is_none());
    let (parts, err) = subdir_parts("a/../b");
    assert_eq!(parts, vec!["a".to_string()]);
    assert!(err.is_some());
    let (_, err) = subdir_parts("");
    match err {
        Some(ChiknError::InvalidFormat(m)) => {
            assert_eq!(m, "Project subdirectory path must be relative and within project (path must contain at least one component): ")
        }
        _ => panic!("expected InvalidFormat"),
    }
}

#[test]
fn subdir_checks_links_and_escapes() {
    assert!(check_subdir_kind("c", "/p/c", false, true).is_ok());
    match check_subdir_kind("c", "/p/c", true, true) {
        Err(ChiknError::InvalidFormat(m)) => assert_eq!(m, "Project subdirectory is a symlink: c (/p/c)"),
        _ => panic!("expected InvalidFormat"),
    }
    assert!(matches!(check_subdir_kind("c", "/p/c", false, false), Err(ChiknError::InvalidFormat(_))));
    assert!(check_subdir_within_root("c", "/p/c", "/p/c", "/p").is_ok());
    assert!(check_subdir_within_root("c", "/p/c", "/pp/c", "/p").is_err());
    match check_subdir_within_root("c", "/p/c", "/elsewhere", "/p") {
        Err(ChiknError::InvalidFormat(m)) => assert_eq!(m, "Project subdirectory escapes project root: c (/p/c)"),
        _ => panic!("expected InvalidFormat"),
    }
}

#[test]
fn test_create_project() {
    let p = initial_project("/tmp/NewProject.chikn", "New Project");
    assert_eq!(p.name, "New Project");
    assert_eq!(p.path, "/tmp/NewProject.chikn");
    let names: Vec<&str> = p.hierarchy.iter().map(|n| n.name()).collect();
    assert_eq!(names, vec!["Manuscript", "Research", "Trash"]);
    assert!(p.documents.is_empty());
    assert_eq!(p.created, p.modified);
    assert_eq!(p.id.len(), 36);
    assert_ne!(p.hierarchy[0].id(), p.hierarchy[1].id());
}

#[test]
fn test_include_in_compile_accepts_bool_or_string() {
    assert_eq!(compile_flag_text(true), "Yes");
    assert_eq!(compile_flag_text(false), "No");
    let mut meta = default_document_metadata(None);
    meta.include_in_compile = Some("No".to_string());
    let d = document_from_metadata(meta, "stem", "manuscript/stem.md".to_string(), String::new());
    assert!(!d.include_in_compile);
    let mut meta = default_document_metadata(None);
    meta.include_in_compile = Some("Yes".to_string());
    assert!(document_from_metadata(meta, "stem", String::new(), String::new()).include_in_compile);
    let meta = default_document_metadata(None);
    assert!(meta.include_in_compile.is_none());
    assert!(document_from_metadata(meta, "stem", String::new(), String::new()).include_in_compile);
}

#[test]
fn whole_document_survives_round_trip() {
    let mut d = doc("doc-1", "manuscript/one.md");
    d.name = "One".to_string();
    d.content = "Body text".to_string();
    d.synopsis = Some("Short".to_string());
    d.keywords = Some(vec!["k1".to_string(), "k2".to_string()]);
    d.include_in_compile = false;
    d.word_count_target = 500;
    d.compile_order = 3;
    d.comments = vec![Comment {
        id: "c1".to_string(),
        body: "Note".to_string(),
        resolved: true,
        created: "t1".to_string(),
        modified: "t2".to_string(),
    }];
    let meta = metadata_for_write(&d, None);
    assert_eq!(meta.include_in_compile.as_deref(), Some("No"));
    let back = document_from_metadata(meta, "one", d.path.clone(), d.content.clone());
    assert_eq!(back.id, d.id);
    assert_eq!(back.name, "One");
    assert_eq!(back.content, "Body text");
    assert_eq!(back.synopsis, d.synopsis);
    assert_eq!(back.keywords, d.keywords);
    assert!(!back.include_in_compile);
    assert_eq!(back.word_count_target, 500);
    assert_eq!(back.compile_order, 3);
    assert_eq!(back.comments.len(), 1);
    assert_eq!(back.comments[0].body, "Note");
    assert!(back.comments[0].resolved);
}

#[test]
fn default_metadata_takes_hierarchy_identity() {
    let id = HierarchyDocumentIdentity { id: "h-id".to_string(), name: "From Binder".to_string() };
    let meta = default_document_metadata(Some(&id));
    assert_eq!(meta.id, "h-id");
    let d = document_from_metadata(meta, "file", "manuscript/file.md".to_string(), String::new());
    assert_eq!(d.name, "From Binder");
    let fresh = default_document_metadata(None);
    assert_eq!(fresh.id.len(), 36);
    assert_eq!(document_from_metadata(fresh, "file", String::new(), String::new()).name, "file");
}

#[test]
fn stream_events_update_captured_output() {
    let (mut od, mut ed) = (false, false);
    let (mut out, mut err): (Option<Vec<u8>>, Option<Vec<u8>>) = (None, None);
    let r = handle_stream_event(StreamEvent::Finished(StreamKind::Stdout, Ok(b"hi".to_vec())), &mut od, &mut ed, &mut out, &mut err);
    assert!(matches!(r, Ok(None)));
    assert!(od && !ed);
    assert_eq!(out, Some(b"hi".to_vec()));
    let r = handle_stream_event(StreamEvent::Capped(StreamKind::Stderr, b"xx".to_vec()), &mut od, &mut ed, &mut out, &mut err);
    assert!(matches!(r, Ok(Some("stderr"))));
    assert!(ed);
    assert_eq!(err, Some(b"xx".to_vec()));
    let (mut od2, mut ed2) = (false, false);
    let (mut o2, mut e2): (Option<Vec<u8>>, Option<Vec<u8>>) = (None, None);
    let failure = std::io::Error::new(std::io::ErrorKind::Other, "boom");
    let r = handle_stream_event(StreamEvent::Finished(StreamKind::Stdout, Err(failure)), &mut od2, &mut ed2, &mut o2, &mut e2);
    assert!(matches!(r, Err(BoundedProcessError::Io(_))));
    assert!(!od2 && o2.is_none());
}

#[test]
fn process_errors_have_messages() {
    let e = BoundedProcessError::OutputLimitExceeded { stream: "stdout", limit: 1024 };
    assert_eq!(e.to_text(), "combined output exceeded 1024 byte limit while reading stdout");
    let t = BoundedProcessError::TimedOut { timeout: std::time::Duration::from_secs(60) };
    assert_eq!(t.to_text(), "process timed out after 60 seconds");
}

#[test]
fn test_get_snapshots_size() {
    assert_eq!(get_snapshots_size(&[]), 0);
    assert_eq!(get_snapshots_size(&[10, 20, 5]), 35);
    assert_eq!(snapshot_filename("20251004-143022"), "snapshot-20251004-143022.tar.gz");
    assert!(is_skipped_in_snapshot("revs"));
    assert!(is_skipped_in_snapshot(".git"));
    assert!(!is_skipped_in_snapshot("manuscript"));
}

#[test]
fn conversion_direction_by_extension() {
    assert_eq!(format_of_extension(Some("scriv")), Some(Format::Scriv));
    assert_eq!(format_of_extension(Some("scrivx")), Some(Format::Scriv));
    assert_eq!(format_of_extension(Some("chikn")), Some(Format::Chikn));
    assert_eq!(format_of_extension(Some("txt")), None);
    assert_eq!(format_of_extension(None), None);
    assert_eq!(chickenscratch_core::scrivener::direction::detect_format("/x/Book.scriv"), Some(Format::Scriv));
    assert_eq!(chickenscratch_core::scrivener::direction::detect_format("/x/Book"), None);
}

#[test]
fn normalizing_a_normalized_path_changes_nothing() {
    let once = normalized_relative_document_path("manuscript\\\\.//part one\\ch1.md").unwrap();
    assert_eq!(once, "manuscript/part one/ch1.md");
    let twice = normalized_relative_document_path(&once).unwrap();
    assert_eq!(twice, once);
}
