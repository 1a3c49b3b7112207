use vstd::prelude::*;

verus! {

/// A node of the binder tree: either a folder holding child nodes or a
/// reference to one document file.
pub enum TreeNode {
    Folder { id: String, name: String, children: Vec<TreeNode> },
    Document { id: String, name: String, path: String },
}

/// Mathematical model of a binder node: the same shape with text as `Seq<char>`.
pub enum NodeView {
    Folder { id: Seq<char>, name: Seq<char>, children: Seq<NodeView> },
    Document { id: Seq<char>, name: Seq<char>, path: Seq<char> },
}

impl NodeView {
    pub open spec fn id(self) -> Seq<char> {
        match self {
            NodeView::Folder { id, .. } => id,
            NodeView::Document { id, .. } => id,
        }
    }

    pub open spec fn name(self) -> Seq<char> {
        match self {
            NodeView::Folder { name, .. } => name,
            NodeView::Document { name, .. } => name,
        }
    }
}

impl TreeNode {
    pub open spec fn node_view(self) -> NodeView
        decreases self,
    {
        match self {
            TreeNode::Folder { id, name, children } => NodeView::Folder {
                id: id@,
                name: name@,
                children: nodes_view(children@),
            },
            TreeNode::Document { id, name, path } => NodeView::Document {
                id: id@,
                name: name@,
                path: path@,
            },
        }
    }

    /// The node's identifier.
    pub fn id(&self) -> (r: &str)
        ensures
            r@ == self.node_view().id(),
    {
        match self {
            TreeNode::Folder { id, .. } => id.as_str(),
            TreeNode::Document { id, .. } => id.as_str(),
        }
    }

    /// The node's display name.
    pub fn name(&self) -> (r: &str)
        ensures
            r@ == self.node_view().name(),
    {
        match self {
            TreeNode::Folder { name, .. } => name.as_str(),
            TreeNode::Document { name, .. } => name.as_str(),
        }
    }
}

/// Model of a sequence of binder nodes.
pub open spec fn nodes_view(nodes: Seq<TreeNode>) -> Seq<NodeView>
    decreases nodes,
{
    if nodes.len() == 0 {
        Seq::empty()
    } else {
        seq![nodes[0].node_view()] + nodes_view(nodes.subrange(1, nodes.len() as int))
    }
}

/// The model of a node sequence is taken element by element.
pub proof fn lemma_nodes_view(nodes: Seq<TreeNode>)
    ensures
        nodes_view(nodes).len() == nodes.len(),
        forall|k: int| 0 <= k < nodes.len() ==> #[trigger] nodes_view(nodes)[k] == nodes[k].node_view(),
    decreases nodes.len(),
{
    if nodes.len() > 0 {
        let rest = nodes.subrange(1, nodes.len() as int);
        lemma_nodes_view(rest);
        assert forall|k: int| 0 <= k < nodes.len() implies #[trigger] nodes_view(nodes)[k] == nodes[k].node_view() by {
            if k > 0 {
                assert(nodes_view(nodes)[k] == nodes_view(rest)[k - 1]);
                assert(rest[k - 1] == nodes[k]);
            }
        }
    }
}

/// Removing, replacing, inserting and appending commute with the model.
pub proof fn lemma_nodes_view_edits(s: Seq<TreeNode>)
    ensures
        forall|k: int| 0 <= k < s.len() ==> #[trigger] nodes_view(s.remove(k)) == nodes_view(s).remove(k),
        forall|k: int, x: TreeNode| 0 <= k < s.len() ==> #[trigger] nodes_view(s.update(k, x)) == nodes_view(s).update(k, x.node_view()),
        forall|k: int, x: TreeNode| 0 <= k <= s.len() ==> #[trigger] nodes_view(s.insert(k, x)) == nodes_view(s).insert(k, x.node_view()),
        forall|x: TreeNode| #[trigger] nodes_view(s.push(x)) == nodes_view(s).push(x.node_view()),
{
    lemma_nodes_view(s);
    assert forall|k: int| 0 <= k < s.len() implies #[trigger] nodes_view(s.remove(k)) == nodes_view(s).remove(k) by {
        lemma_nodes_view(s.remove(k));
        assert(nodes_view(s.remove(k)) =~= nodes_view(s).remove(k));
    }
    assert forall|k: int, x: TreeNode| 0 <= k < s.len() implies #[trigger] nodes_view(s.update(k, x)) == nodes_view(s).update(k, x.node_view()) by {
        lemma_nodes_view(s.update(k, x));
        assert(nodes_view(s.update(k, x)) =~= nodes_view(s).update(k, x.node_view()));
    }
    assert forall|k: int, x: TreeNode| 0 <= k <= s.len() implies #[trigger] nodes_view(s.insert(k, x)) == nodes_view(s).insert(k, x.node_view()) by {
        lemma_nodes_view(s.insert(k, x));
        assert(nodes_view(s.insert(k, x)) =~= nodes_view(s).insert(k, x.node_view()));
    }
    assert forall|x: TreeNode| #[trigger] nodes_view(s.push(x)) == nodes_view(s).push(x.node_view()) by {
        lemma_nodes_view(s.push(x));
        assert(nodes_view(s.push(x)) =~= nodes_view(s).push(x.node_view()));
    }
}

/// No two documents share an id: the documents are a map keyed by id.
pub open spec fn unique_ids(docs: Seq<Document>) -> bool {
    forall|i: int, j: int| 0 <= i < j < docs.len() ==> #[trigger] docs[i].id@ != #[trigger] docs[j].id@
}

/// Whether some document has the id.
pub open spec fn has_id(docs: Seq<Document>, id: Seq<char>) -> bool {
    exists|i: int| 0 <= i < docs.len() && #[trigger] docs[i].id@ == id
}

/// A single document of a project.
pub struct Document {
    /// Unique document id.
    pub id: String,
    /// Display name.
    pub name: String,
    /// File path relative to the project folder.
    pub path: String,
    /// HTML content.
    pub content: String,
    /// Id of the parent folder, if any.
    pub parent_id: Option<String>,
    /// Creation timestamp.
    pub created: String,
    /// Last modified timestamp.
    pub modified: String,
    /// Short summary.
    pub synopsis: Option<String>,
    /// Label (e.g. "Scene", "Chapter", POV character).
    pub label: Option<String>,
    /// Status (e.g. "Draft", "Revised", "Final").
    pub status: Option<String>,
    /// Tags for searching and grouping.
    pub keywords: Option<Vec<String>>,
    /// Ids of related documents.
    pub links: Option<Vec<String>>,
    /// Whether the document goes into compiled output.
    pub include_in_compile: bool,
    /// Word count target (0 = no target).
    pub word_count_target: u32,
    /// Custom compile order (0 = binder order, higher = later).
    pub compile_order: i32,
    /// Comments anchored to spans of the content.
    pub comments: Vec<Comment>,
}

/// A comment anchored to a span in a document's content.
pub struct Comment {
    /// Unique comment id (matches the anchor's `data-comment-id`).
    pub id: String,
    /// Plain-text body.
    pub body: String,
    /// Whether the comment is resolved.
    pub resolved: bool,
    /// Creation timestamp (RFC 3339).
    pub created: String,
    /// Last modified timestamp (RFC 3339).
    pub modified: String,
}

impl Default for Document {
    /// An empty document that is included in compiled output.
    fn default() -> (d: Document)
        ensures
            d.id@.len() == 0 && d.name@.len() == 0 && d.path@.len() == 0 && d.content@.len() == 0,
            d.created@.len() == 0 && d.modified@.len() == 0,
            d.parent_id is None && d.synopsis is None && d.label is None && d.status is None,
            d.keywords is None && d.links is None,
            d.include_in_compile,
            d.word_count_target == 0 && d.compile_order == 0,
            d.comments@.len() == 0,
    {
        Document {
            id: String::new(),
            name: String::new(),
            path: String::new(),
            content: String::new(),
            parent_id: None,
            created: String::new(),
            modified: String::new(),
            synopsis: None,
            label: None,
            status: None,
            keywords: None,
            links: None,
            include_in_compile: true,
            word_count_target: 0,
            compile_order: 0,
            comments: Vec::new(),
        }
    }
}

/// Project-level metadata.
pub struct ProjectMeta {
    pub title: Option<String>,
    pub author: Option<String>,
    /// "Novel", "Short Story", "Screenplay", ...
    pub project_type: Option<String>,
    pub genre: Option<String>,
    pub theme: Option<String>,
    pub summary: Option<String>,
}

impl Default for ProjectMeta {
    /// Metadata with every field unset.
    fn default() -> (m: ProjectMeta)
        ensures
            m.title is None && m.author is None && m.project_type is None,
            m.genre is None && m.theme is None && m.summary is None,
    {
        ProjectMeta { title: None, author: None, project_type: None, genre: None, theme: None, summary: None }
    }
}

/// A loaded project. The documents are held in a vector; each document's
/// `id` is its key, and no two documents share one.
pub struct Project {
    /// Project unique id.
    pub id: String,
    /// Project name.
    pub name: String,
    /// File system path of the project folder.
    pub path: String,
    /// Document hierarchy (root nodes).
    pub hierarchy: Vec<TreeNode>,
    /// All documents.
    pub documents: Vec<Document>,
    /// Creation timestamp.
    pub created: String,
    /// Last modified timestamp.
    pub modified: String,
    /// Project-level metadata.
    pub metadata: ProjectMeta,
}

} // verus!
