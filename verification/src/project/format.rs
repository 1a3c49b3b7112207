//! Layout of a `.chikn` project folder: its fixed file and folder names, the
//! paths inside it, and the check that a folder has that layout.
use vstd::prelude::*;

use crate::error::ChiknError;
use crate::paths::{join_path, path_join, extension_of, path_extension};
use crate::text::{concat, str_eq};

verus! {

/// Extension of a project folder.
pub const PROJECT_EXTENSION: &'static str = "chikn";
/// Name of the project metadata file.
pub const PROJECT_FILE: &'static str = "project.yaml";
/// Folder holding the manuscript documents.
pub const MANUSCRIPT_FOLDER: &'static str = "manuscript";
/// Folder holding research material.
pub const RESEARCH_FOLDER: &'static str = "research";
/// Folder holding templates.
pub const TEMPLATES_FOLDER: &'static str = "templates";
/// Folder holding settings.
pub const SETTINGS_FOLDER: &'static str = "settings";
/// Folder holding character entity documents.
pub const CHARACTERS_FOLDER: &'static str = "characters";
/// Folder holding location entity documents.
pub const LOCATIONS_FOLDER: &'static str = "locations";
/// On-disk format version this engine writes.
pub const FORMAT_VERSION: &'static str = "1.2";
/// Extension of document content files.
pub const DOCUMENT_EXTENSION: &'static str = "md";
/// Extension of document metadata files.
pub const METADATA_EXTENSION: &'static str = "meta";

/// The required folders, in the order they are checked.
pub open spec fn required_folders() -> Seq<Seq<char>> {
    seq!["manuscript"@, "research"@, "templates"@, "settings"@]
}

/// The required folders, in the order they are checked.
pub fn required_folder_names() -> (r: Vec<&'static str>)
    ensures
        r@.len() == 4,
        forall|i: int| 0 <= i < 4 ==> #[trigger] r@[i]@ == required_folders()[i],
{
    vec![MANUSCRIPT_FOLDER, RESEARCH_FOLDER, TEMPLATES_FOLDER, SETTINGS_FOLDER]
}

/// What the file system showed of one path.
#[derive(Clone, Copy, PartialEq, Eq, Structural)]
pub struct PathState {
    pub exists: bool,
    pub is_dir: bool,
}

/// What the file system showed of a candidate project folder: the folder
/// itself, its project file, and each required folder in the order of
/// `required_folders()`.
pub struct StructureFacts {
    pub root: PathState,
    pub project_file_exists: bool,
    pub folders: Vec<PathState>,
}

/// The outcome of the structure check, given what the file system showed.
pub open spec fn structure_error(path: Seq<char>, facts: StructureFacts, e: ChiknError) -> bool {
    if !facts.root.exists {
        e matches ChiknError::NotFound(m) && m@ == "Project path does not exist: "@ + path
    } else if !facts.root.is_dir {
        e matches ChiknError::InvalidFormat(m) && m@ == "Project path is not a directory: "@ + path
    } else if !facts.project_file_exists {
        e matches ChiknError::InvalidFormat(m) && m@ == "Missing required file: "@ + "project.yaml"@
    } else {
        exists|i: int| 0 <= i < 4 && folder_fails(facts.folders@, i) && first_failure(facts.folders@, i)
            && #[trigger] folder_error(required_folders()[i], facts.folders@[i], e)
    }
}

/// Whether the `i`-th required folder fails the check.
pub open spec fn folder_fails(folders: Seq<PathState>, i: int) -> bool {
    !folders[i].exists || !folders[i].is_dir
}

/// Whether no required folder before the `i`-th fails.
pub open spec fn first_failure(folders: Seq<PathState>, i: int) -> bool {
    forall|j: int| 0 <= j < i ==> !#[trigger] folder_fails(folders, j)
}

/// The error for a required folder that fails.
pub open spec fn folder_error(name: Seq<char>, st: PathState, e: ChiknError) -> bool {
    if !st.exists {
        e matches ChiknError::InvalidFormat(m) && m@ == "Missing required folder: "@ + name
    } else {
        e matches ChiknError::InvalidFormat(m) && m@ == "Expected folder but found file: "@ + name
    }
}

/// Whether the file system facts show a complete project layout.
pub open spec fn structure_ok(facts: StructureFacts) -> bool {
    &&& facts.root.exists && facts.root.is_dir && facts.project_file_exists
    &&& forall|i: int| 0 <= i < 4 ==> !#[trigger] folder_fails(facts.folders@, i)
}

/// Checks that a folder has the project layout: it exists and is a folder,
/// it holds the project file, and each required folder exists as a folder.
/// `facts` is what the file system showed of `path`; the first failure is
/// reported.
pub fn validate_project_structure(path: &str, facts: &StructureFacts) -> (r: Result<(), ChiknError>)
    requires
        facts.folders@.len() == 4,
    ensures
        structure_ok(*facts) ==> r is Ok,
        !structure_ok(*facts) ==> (r matches Err(e) && structure_error(path@, *facts, e)),
{
    if !facts.root.exists {
        return Err(ChiknError::NotFound(concat("Project path does not exist: ", path)));
    }
    if !facts.root.is_dir {
        return Err(ChiknError::InvalidFormat(concat("Project path is not a directory: ", path)));
    }
    if !facts.project_file_exists {
        return Err(ChiknError::InvalidFormat(concat("Missing required file: ", PROJECT_FILE)));
    }
    let names = required_folder_names();
    let mut i: usize = 0;
    while i < 4
        invariant
            i <= 4,
            facts.folders@.len() == 4,
            facts.root.exists && facts.root.is_dir && facts.project_file_exists,
            names@.len() == 4,
            forall|k: int| 0 <= k < 4 ==> #[trigger] names@[k]@ == required_folders()[k],
            first_failure(facts.folders@, i as int),
        decreases 4 - i,
    {
        let st = facts.folders[i];
        if !st.exists {
            let e = ChiknError::InvalidFormat(concat("Missing required folder: ", names[i]));
            assert(folder_fails(facts.folders@, i as int));
            assert(folder_error(required_folders()[i as int], facts.folders@[i as int], e));
            return Err(e);
        }
        if !st.is_dir {
            let e = ChiknError::InvalidFormat(concat("Expected folder but found file: ", names[i]));
            assert(folder_fails(facts.folders@, i as int));
            assert(folder_error(required_folders()[i as int], facts.folders@[i as int], e));
            return Err(e);
        }
        i = i + 1;
    }
    Ok(())
}

/// Path of the project metadata file.
pub fn get_project_file_path(project_path: &str) -> (r: String)
    ensures
        r@ == path_join(project_path@, "project.yaml"@),
{
    join_path(project_path, PROJECT_FILE)
}

/// Path of the manuscript folder.
pub fn get_manuscript_path(project_path: &str) -> (r: String)
    ensures
        r@ == path_join(project_path@, "manuscript"@),
{
    join_path(project_path, MANUSCRIPT_FOLDER)
}

/// Path of the research folder.
pub fn get_research_path(project_path: &str) -> (r: String)
    ensures
        r@ == path_join(project_path@, "research"@),
{
    join_path(project_path, RESEARCH_FOLDER)
}

/// Path of the templates folder.
pub fn get_templates_path(project_path: &str) -> (r: String)
    ensures
        r@ == path_join(project_path@, "templates"@),
{
    join_path(project_path, TEMPLATES_FOLDER)
}

/// Path of the settings folder.
pub fn get_settings_path(project_path: &str) -> (r: String)
    ensures
        r@ == path_join(project_path@, "settings"@),
{
    join_path(project_path, SETTINGS_FOLDER)
}

/// Path of a document's content file: `<doc_name>.md` in `folder_path`.
pub fn get_document_content_path(folder_path: &str, doc_name: &str) -> (r: String)
    ensures
        r@ == path_join(folder_path@, doc_name@ + ".md"@),
{
    let file = concat(doc_name, ".md");
    join_path(folder_path, file.as_str())
}

/// Path of a document's metadata file: `<doc_name>.meta` in `folder_path`.
pub fn get_document_meta_path(folder_path: &str, doc_name: &str) -> (r: String)
    ensures
        r@ == path_join(folder_path@, doc_name@ + ".meta"@),
{
    let file = concat(doc_name, ".meta");
    join_path(folder_path, file.as_str())
}

/// Whether a path names a project folder: its extension is `chikn`.
pub fn is_chikn_project(path: &str) -> (r: bool)
    ensures
        r == (path_extension(path@) == Some("chikn"@)),
{
    match extension_of(path) {
        Some(ext) => str_eq(ext.as_str(), PROJECT_EXTENSION),
        None => false,
    }
}

/// The outcome of the check that a folder can be read as a project at
/// all: it exists, it is a folder, and it holds a project file that is not
/// a link. Missing subfolders are left to repair.
pub open spec fn root_check(path: Seq<char>, root: PathState, project_file: Seq<char>, file_exists: bool,
    file_is_link: bool, r: Result<(), ChiknError>) -> bool {
    if !root.exists {
        r matches Err(ChiknError::NotFound(m)) && m@ == "Project path does not exist: "@ + path
    } else if !root.is_dir {
        r matches Err(ChiknError::InvalidFormat(m)) && m@ == "Project path is not a directory: "@ + path
    } else if !file_exists {
        r matches Err(ChiknError::InvalidFormat(m)) && m@ == "Missing required file: "@ + "project.yaml"@
    } else if file_is_link {
        r matches Err(ChiknError::InvalidFormat(m)) && m@ == "Project metadata is a symlink: "@ + project_file
    } else {
        r is Ok
    }
}

/// Checks that a folder can be read as a project, given what the file
/// system showed of it and of its project file (at `project_file`).
pub fn validate_project_root(path: &str, root: PathState, project_file: &str, file_exists: bool, file_is_link: bool)
    -> (r: Result<(), ChiknError>)
    ensures
        root_check(path@, root, project_file@, file_exists, file_is_link, r),
{
    if !root.exists {
        return Err(ChiknError::NotFound(concat("Project path does not exist: ", path)));
    }
    if !root.is_dir {
        return Err(ChiknError::InvalidFormat(concat("Project path is not a directory: ", path)));
    }
    if !file_exists {
        return Err(ChiknError::InvalidFormat(concat("Missing required file: ", PROJECT_FILE)));
    }
    if file_is_link {
        return Err(ChiknError::InvalidFormat(concat("Project metadata is a symlink: ", project_file)));
    }
    Ok(())
}

} // verus!
