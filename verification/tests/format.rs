use chickenscratch_core::project::format::{
    get_document_content_path, get_document_meta_path, get_manuscript_path, get_project_file_path,
    is_chikn_project, validate_project_structure, PathState, StructureFacts,
};
use chickenscratch_core::error::ChiknError;
use std::path::{Path, PathBuf};

#[test]
fn test_is_chikn_project() {
    assert!(is_chikn_project("MyProject.chikn"));
    assert!(!is_chikn_project("MyProject.txt"));
}

#[test]
fn test_get_project_file_path() {
    let project_path = Path::new("MyProject.chikn");
    let result = get_project_file_path("MyProject.chikn");
    assert_eq!(PathBuf::from(result), project_path.join("project.yaml"));
}

#[test]
fn test_get_document_paths() {
    let folder = Path::new("manuscript");
    let content_path = get_document_content_path("manuscript", "chapter-01");
    assert_eq!(PathBuf::from(content_path), folder.join("chapter-01.md"));
    let meta_path = get_document_meta_path("manuscript", "chapter-01");
    assert_eq!(PathBuf::from(meta_path), folder.join("chapter-01.meta"));
}

#[test]
fn manuscript_path_is_joined() {
    assert_eq!(PathBuf::from(get_manuscript_path("P.chikn")), Path::new("P.chikn").join("manuscript"));
}

#[test]
fn directory_without_extension_is_not_a_project() {
    assert!(!is_chikn_project("MyProject"));
    assert!(!is_chikn_project(".chikn"));
    assert!(is_chikn_project("dir/My.Project.chikn"));
}

fn all_present() -> StructureFacts {
    let ok = PathState { exists: true, is_dir: true };
    StructureFacts { root: ok, project_file_exists: true, folders: vec![ok, ok, ok, ok] }
}

#[test]
fn complete_layout_is_valid() {
    assert!(validate_project_structure("P.chikn", &all_present()).is_ok());
}

#[test]
fn missing_root_is_not_found() {
    let mut facts = all_present();
    facts.root = PathState { exists: false, is_dir: false };
    match validate_project_structure("P.chikn", &facts) {
        Err(ChiknError::NotFound(m)) => assert_eq!(m, "Project path does not exist: P.chikn"),
        _ => panic!("expected NotFound"),
    }
}

#[test]
fn root_file_is_invalid() {
    let mut facts = all_present();
    facts.root = PathState { exists: true, is_dir: false };
    match validate_project_structure("P.chikn", &facts) {
        Err(ChiknError::InvalidFormat(m)) => assert_eq!(m, "Project path is not a directory: P.chikn"),
        _ => panic!("expected InvalidFormat"),
    }
}

#[test]
fn missing_project_file_is_reported() {
    let mut facts = all_present();
    facts.project_file_exists = false;
    match validate_project_structure("P.chikn", &facts) {
        Err(ChiknError::InvalidFormat(m)) => assert_eq!(m, "Missing required file: project.yaml"),
        _ => panic!("expected InvalidFormat"),
    }
}

#[test]
fn first_missing_folder_is_reported() {
    let mut facts = all_present();
    facts.folders[1] = PathState { exists: false, is_dir: false };
    facts.folders[2] = PathState { exists: true, is_dir: false };
    match validate_project_structure("P.chikn", &facts) {
        Err(ChiknError::InvalidFormat(m)) => assert_eq!(m, "Missing required folder: research"),
        _ => panic!("expected InvalidFormat"),
    }
}

#[test]
fn folder_that_is_a_file_is_reported() {
    let mut facts = all_present();
    facts.folders[3] = PathState { exists: true, is_dir: false };
    match validate_project_structure("P.chikn", &facts) {
        Err(ChiknError::InvalidFormat(m)) => assert_eq!(m, "Expected folder but found file: settings"),
        _ => panic!("expected InvalidFormat"),
    }
}
