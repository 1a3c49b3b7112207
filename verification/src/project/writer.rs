//! A new project as it is first created, before anything is written.
use vstd::prelude::*;

use crate::ids::{new_uuid, now_rfc3339};
use crate::models::{NodeView, Project, ProjectMeta, TreeNode, nodes_view, unique_ids};
use crate::scrivener::scrivx::is_hyphenated_uuid;
use crate::text::owned;

verus! {

/// The text of the ignore file a new project gets.
pub const GITIGNORE_TEXT: &'static str = "# Automatic snapshots (use git history instead)\nrevs/\n\n# OS files\n.DS_Store\nThumbs.db\n\n# Editor temp files\n*.tmp\n*.swp\n*~\n";

/// Whether a node is an empty folder with a fresh id and the given name.
pub open spec fn fresh_folder(n: NodeView, name: Seq<char>) -> bool {
    n matches NodeView::Folder { id, name: nm, children } && is_hyphenated_uuid(id) && nm == name
        && children.len() == 0
}

fn empty_folder(name: &str) -> (r: TreeNode)
    ensures
        fresh_folder(r.node_view(), name@),
{
    let children: Vec<TreeNode> = Vec::new();
    let r = TreeNode::Folder { id: new_uuid(), name: owned(name), children };
    proof {
        assert(nodes_view(Seq::<TreeNode>::empty()) =~= Seq::<NodeView>::empty());
    }
    r
}

/// A new project named `name` at `path`: a fresh id, the three top
/// folders Manuscript, Research and Trash (empty, with fresh ids), no
/// documents, no metadata, and one timestamp for creation and change.
pub fn initial_project(path: &str, name: &str) -> (p: Project)
    ensures
        is_hyphenated_uuid(p.id@),
        p.name@ == name@,
        p.path@ == path@,
        p.hierarchy@.len() == 3,
        fresh_folder(p.hierarchy@[0].node_view(), "Manuscript"@),
        fresh_folder(p.hierarchy@[1].node_view(), "Research"@),
        fresh_folder(p.hierarchy@[2].node_view(), "Trash"@),
        p.documents@.len() == 0,
        unique_ids(p.documents@),
        p.created@ == p.modified@,
        p.metadata.title is None && p.metadata.author is None && p.metadata.project_type is None,
        p.metadata.genre is None && p.metadata.theme is None && p.metadata.summary is None,
{
    let id = new_uuid();
    let mut hierarchy: Vec<TreeNode> = Vec::new();
    hierarchy.push(empty_folder("Manuscript"));
    hierarchy.push(empty_folder("Research"));
    hierarchy.push(empty_folder("Trash"));
    let now = now_rfc3339();
    let modified = now.clone();
    Project {
        id,
        name: owned(name),
        path: owned(path),
        hierarchy,
        documents: Vec::new(),
        created: now,
        modified,
        metadata: ProjectMeta::default(),
    }
}

} // verus!
