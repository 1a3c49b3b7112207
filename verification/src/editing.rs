//! Edits the editors make to a loaded project: documents and folders
//! created from the binder, and comments added, anchored, resolved,
//! reworded and deleted.
use vstd::prelude::*;
use vstd::string::StringExecFns;

use crate::error::ChiknError;
use crate::hierarchy::{add_child_in, add_child_to_folder, add_document_to_hierarchy, add_failure_error};
use crate::ids::{new_simple_uuid, new_uuid};
use crate::models::{Comment, Document, NodeView, Project, TreeNode, has_id, nodes_view, unique_ids};
use crate::scrivener::scrivx::is_hyphenated_uuid;
use crate::slug::{unique_slug, unique_slug_text};
use crate::text::{chars_of, owned, trim_chars, trim_ws};
use crate::tui::{normalize_selection, wrap_selection_in_lines, wrapped_lines, without_comment_span, strip_comment_span};

verus! {

/// The first comment with this id.
pub open spec fn first_comment(cs: Seq<Comment>, id: Seq<char>) -> Option<int>
    decreases cs.len(),
{
    if cs.len() == 0 {
        None
    } else if cs[0].id@ == id {
        Some(0)
    } else {
        match first_comment(cs.drop_first(), id) {
            Some(k) => Some(k + 1),
            None => None,
        }
    }
}

proof fn lemma_first_comment(cs: Seq<Comment>, id: Seq<char>, k: int)
    requires
        0 <= k <= cs.len(),
        forall|j: int| 0 <= j < k ==> #[trigger] cs[j].id@ != id,
    ensures
        k < cs.len() && cs[k].id@ == id ==> first_comment(cs, id) == Some(k),
        k == cs.len() ==> first_comment(cs, id) is None,
    decreases k,
{
    if k > 0 {
        lemma_first_comment(cs.drop_first(), id, k - 1);
    } else if cs.len() > 0 {
        if cs.len() > 0 && cs[0].id@ != id {
        }
    }
}

/// Where a new node lands in the binder: at the end of the root level when
/// no parent is given, else as the last child of the folder `parent` (see
/// `add_child_in`); a failure leaves the binder as it was.
pub open spec fn node_added(
    before: Seq<NodeView>,
    after: Seq<NodeView>,
    parent: Option<String>,
    node: NodeView,
    r: Result<(), ChiknError>,
) -> bool {
    match parent {
        None => r is Ok && after == before.push(node),
        Some(p) => match add_child_in(before, p@, node) {
            Ok(s) => r is Ok && after == s,
            Err(f) => r matches Err(e) && add_failure_error(f, p@, e) && after == before,
        },
    }
}

/// The path a new document named `name` gets: `manuscript/`, the name's
/// slug made unique among the documents, and `.md`.
pub open spec fn new_document_path(name: Seq<char>, docs: Seq<Document>) -> Seq<char> {
    "manuscript/"@ + unique_slug_text(name, "manuscript/"@, docs) + ".md"@
}

/// A document just created: empty, with the given identity and times, and
/// every other field at its default.
pub open spec fn fresh_document(
    d: Document,
    id: Seq<char>,
    name: Seq<char>,
    path: Seq<char>,
    parent: Option<String>,
    now: Seq<char>,
) -> bool {
    &&& d.id@ == id && d.name@ == name && d.path@ == path && d.content@.len() == 0
    &&& d.parent_id == parent && d.created@ == now && d.modified@ == now
    &&& d.synopsis is None && d.label is None && d.status is None && d.keywords is None && d.links is None
    &&& d.include_in_compile && d.word_count_target == 0 && d.compile_order == 0
    &&& d.comments@.len() == 0
}

/// The project's own fields, those outside its binder and documents, agree.
pub open spec fn same_project_fields(a: Project, b: Project) -> bool {
    &&& a.id == b.id && a.name == b.name && a.path == b.path
    &&& a.created == b.created && a.modified == b.modified && a.metadata == b.metadata
}

/// `after` is `before` with a new document `id` named `name` appended to
/// the documents and placed in the binder, `r` reporting the placement.
/// The document stays among the documents when the placement fails.
pub open spec fn document_created(
    before: Project,
    after: Project,
    id: Seq<char>,
    name: Seq<char>,
    parent: Option<String>,
    now: Seq<char>,
    r: Result<(), ChiknError>,
) -> bool {
    let path = new_document_path(name, before.documents@);
    &&& same_project_fields(after, before)
    &&& after.documents@.len() == before.documents@.len() + 1
    &&& after.documents@.drop_last() == before.documents@
    &&& fresh_document(after.documents@.last(), id, name, path, parent, now)
    &&& node_added(nodes_view(before.hierarchy@), nodes_view(after.hierarchy@), parent,
        NodeView::Document { id, name, path }, r)
}

/// `after` is `before` with a new, empty folder `id` named `name` placed in
/// the binder, `r` reporting the placement.
pub open spec fn folder_created(
    before: Project,
    after: Project,
    id: Seq<char>,
    name: Seq<char>,
    parent: Option<String>,
    r: Result<(), ChiknError>,
) -> bool {
    &&& same_project_fields(after, before)
    &&& after.documents == before.documents
    &&& node_added(nodes_view(before.hierarchy@), nodes_view(after.hierarchy@), parent,
        NodeView::Folder { id, name, children: Seq::empty() }, r)
}

fn copy_opt(o: &Option<String>) -> (r: Option<String>)
    ensures
        r == *o,
{
    match o {
        Some(s) => Some(s.clone()),
        None => None,
    }
}

fn place_node(hierarchy: &mut Vec<TreeNode>, parent_id: Option<String>, node: TreeNode) -> (r: Result<(), ChiknError>)
    ensures
        node_added(nodes_view(old(hierarchy)@), nodes_view(final(hierarchy)@), parent_id, node.node_view(), r),
{
    match parent_id {
        Some(pid) => add_child_to_folder(hierarchy, pid.as_str(), node),
        None => {
            add_document_to_hierarchy(hierarchy, node);
            Ok(())
        },
    }
}

/// Adds a new document with the given id and time: its path is
/// `manuscript/` and the name's slug made unique among the documents, then
/// `.md`; it goes to the end of the documents and into the binder under
/// `parent_id`, or at the root when there is none.
pub fn add_new_document(project: &mut Project, doc_id: String, name: &str, parent_id: Option<String>, now: &str)
    -> (r: Result<(), ChiknError>)
    ensures
        document_created(*old(project), *final(project), doc_id@, name@, parent_id, now@, r),
        unique_ids(old(project).documents@) && !has_id(old(project).documents@, doc_id@) ==> unique_ids(
            final(project).documents@,
        ),
{
    let s = unique_slug(name, "manuscript/", project.documents.as_slice());
    let mut path = owned("manuscript/");
    path.append(s.as_str());
    path.append(".md");
    let document = Document {
        id: doc_id.clone(),
        name: owned(name),
        path: path.clone(),
        content: String::new(),
        parent_id: copy_opt(&parent_id),
        created: owned(now),
        modified: owned(now),
        synopsis: None,
        label: None,
        status: None,
        keywords: None,
        links: None,
        include_in_compile: true,
        word_count_target: 0,
        compile_order: 0,
        comments: Vec::new(),
    };
    let ghost before = project.documents@;
    project.documents.push(document);
    proof {
        assert(project.documents@.drop_last() =~= before);
        if unique_ids(before) && !has_id(before, doc_id@) {
            assert forall|i: int, j: int| 0 <= i < j < project.documents@.len() implies #[trigger] project.documents@[i].id@
                != #[trigger] project.documents@[j].id@ by {
                if j == before.len() {
                    assert(project.documents@[i] == before[i]);
                } else {
                    assert(project.documents@[i] == before[i]);
                    assert(project.documents@[j] == before[j]);
                }
            }
        }
    }
    let node = TreeNode::Document { id: doc_id, name: owned(name), path };
    place_node(&mut project.hierarchy, parent_id, node)
}

/// Adds a new, empty folder with the given id to the binder under
/// `parent_id`, or at the root when there is none.
pub fn add_new_folder(project: &mut Project, folder_id: String, name: &str, parent_id: Option<String>)
    -> (r: Result<(), ChiknError>)
    ensures
        folder_created(*old(project), *final(project), folder_id@, name@, parent_id, r),
{
    let node = TreeNode::Folder { id: folder_id, name: owned(name), children: Vec::new() };
    proof {
        assert(nodes_view(node->children@) =~= Seq::<NodeView>::empty());
    }
    place_node(&mut project.hierarchy, parent_id, node)
}

/// Creates a document named `name` under `parent_id` with a fresh UUID and
/// the current time (see `add_new_document`).
pub fn create_document_in_project(project: &mut Project, name: &str, parent_id: Option<String>)
    -> (r: Result<(), ChiknError>)
    ensures
        exists|id: Seq<char>, now: Seq<char>|
            is_hyphenated_uuid(id) && #[trigger] document_created(*old(project), *final(project), id, name@, parent_id, now, r),
{
    let now = crate::ids::now_rfc3339();
    let doc_id = new_uuid();
    let ghost id = doc_id@;
    let r = add_new_document(project, doc_id, name, parent_id, now.as_str());
    proof {
        assert(document_created(*old(project), *project, id, name@, parent_id, now@, r));
    }
    r
}

/// What a creation that hands back a new id reports of the placement.
pub open spec fn placement(r: Result<String, ChiknError>) -> Result<(), ChiknError> {
    match r {
        Ok(_) => Ok(()),
        Err(e) => Err(e),
    }
}

/// Creates an empty folder named `name` under `parent_id` with a fresh
/// UUID; its id on success, so that the binder can show it open.
pub fn create_folder_in_project(project: &mut Project, name: &str, parent_id: Option<String>)
    -> (r: Result<String, ChiknError>)
    ensures
        exists|id: Seq<char>| is_hyphenated_uuid(id) && #[trigger] folder_created(*old(project), *final(project), id, name@, parent_id,
            placement(r)),
        r matches Ok(id) ==> is_hyphenated_uuid(id@) && folder_created(*old(project), *final(project), id@, name@, parent_id, Ok(())),
{
    let folder_id = new_uuid();
    let ghost id = folder_id@;
    let keep = folder_id.clone();
    match add_new_folder(project, folder_id, name, parent_id) {
        Ok(()) => {
            proof {
                assert(folder_created(*old(project), *project, id, name@, parent_id, Ok(())));
            }
            Ok(keep)
        },
        Err(e) => {
            proof {
                assert(folder_created(*old(project), *project, id, name@, parent_id, Err(e)));
            }
            Err(e)
        },
    }
}

/// Finds the first comment with this id.
pub fn find_comment(comments: &Vec<Comment>, id: &str) -> (r: Option<usize>)
    ensures
        first_comment(comments@, id@) is None <==> r is None,
        r matches Some(i) ==> i < comments@.len() && first_comment(comments@, id@) == Some(i as int),
{
    let mut i: usize = 0;
    while i < comments.len()
        invariant
            i <= comments@.len(),
            forall|j: int| 0 <= j < i ==> #[trigger] comments@[j].id@ != id@,
        decreases comments.len() - i,
    {
        if crate::text::str_eq(comments[i].id.as_str(), id) {
            proof {
                lemma_first_comment(comments@, id@, i as int);
            }
            return Some(i);
        }
        i = i + 1;
    }
    proof {
        lemma_first_comment(comments@, id@, i as int);
    }
    None
}

/// Whether two documents agree on every field but their comments and
/// modification time.
pub open spec fn same_but_comments(a: Document, b: Document) -> bool {
    &&& a.id == b.id && a.name == b.name && a.path == b.path && a.content == b.content
    &&& a.parent_id == b.parent_id && a.created == b.created && a.synopsis == b.synopsis
    &&& a.label == b.label && a.status == b.status && a.keywords == b.keywords && a.links == b.links
    &&& a.include_in_compile == b.include_in_compile && a.word_count_target == b.word_count_target
    &&& a.compile_order == b.compile_order
}

/// Flips whether the first comment with this id is resolved, stamping it
/// and the document with `now`; the comment's new state, or nothing (and
/// no change) when the document has no such comment.
pub fn toggle_resolve_comment(doc: &mut Document, comment_id: &str, now: &str) -> (r: Option<bool>)
    ensures
        match first_comment(old(doc).comments@, comment_id@) {
            None => r is None && *final(doc) == *old(doc),
            Some(k) => {
                let c = old(doc).comments@[k];
                &&& r == Some(!c.resolved)
                &&& same_but_comments(*final(doc), *old(doc))
                &&& final(doc).modified@ == now@
                &&& final(doc).comments@.len() == old(doc).comments@.len()
                &&& forall|j: int| 0 <= j < final(doc).comments@.len() && j != k ==> #[trigger] final(doc).comments@[j]
                    == old(doc).comments@[j]
                &&& final(doc).comments@[k].id == c.id && final(doc).comments@[k].body == c.body
                &&& final(doc).comments@[k].created == c.created
                &&& final(doc).comments@[k].resolved == !c.resolved && final(doc).comments@[k].modified@ == now@
            },
        },
{
    match find_comment(&doc.comments, comment_id) {
        None => None,
        Some(k) => {
            let c = &doc.comments[k];
            let flipped = Comment {
                id: c.id.clone(),
                body: c.body.clone(),
                resolved: !c.resolved,
                created: c.created.clone(),
                modified: owned(now),
            };
            let state = flipped.resolved;
            doc.comments.set(k, flipped);
            doc.modified = owned(now);
            Some(state)
        },
    }
}

/// Rewords the first comment with this id, stamping it and the document
/// with `now`; false, and no change, when there is no such comment.
pub fn update_comment_body(doc: &mut Document, comment_id: &str, body: &str, now: &str) -> (r: bool)
    ensures
        match first_comment(old(doc).comments@, comment_id@) {
            None => !r && *final(doc) == *old(doc),
            Some(k) => {
                let c = old(doc).comments@[k];
                &&& r
                &&& same_but_comments(*final(doc), *old(doc))
                &&& final(doc).modified@ == now@
                &&& final(doc).comments@.len() == old(doc).comments@.len()
                &&& forall|j: int| 0 <= j < final(doc).comments@.len() && j != k ==> #[trigger] final(doc).comments@[j]
                    == old(doc).comments@[j]
                &&& final(doc).comments@[k].id == c.id && final(doc).comments@[k].created == c.created
                &&& final(doc).comments@[k].resolved == c.resolved
                &&& final(doc).comments@[k].body@ == body@ && final(doc).comments@[k].modified@ == now@
            },
        },
{
    match find_comment(&doc.comments, comment_id) {
        None => false,
        Some(k) => {
            let c = &doc.comments[k];
            let edited = Comment {
                id: c.id.clone(),
                body: owned(body),
                resolved: c.resolved,
                created: c.created.clone(),
                modified: owned(now),
            };
            doc.comments.set(k, edited);
            doc.modified = owned(now);
            true
        },
    }
}

/// The comments left once those with this id are dropped.
pub open spec fn without_comment(cs: Seq<Comment>, id: Seq<char>) -> Seq<Comment> {
    cs.filter(|c: Comment| c.id@ != id)
}

/// Deletes every comment with this id and the span that anchors it (its
/// text kept), stamping the document with `now`.
pub fn delete_comment(doc: &mut Document, comment_id: &str, now: &str)
    ensures
        final(doc).comments@ == without_comment(old(doc).comments@, comment_id@),
        final(doc).content@ == without_comment_span(old(doc).content@, comment_id@),
        final(doc).modified@ == now@,
        final(doc).id == old(doc).id && final(doc).name == old(doc).name && final(doc).path == old(doc).path,
{
    let ghost orig = doc.comments@;
    let mut kept: Vec<Comment> = Vec::new();
    let mut i: usize = 0;
    proof {
        reveal(Seq::filter);
        assert(orig.take(0) =~= Seq::<Comment>::empty());
    }
    while i < doc.comments.len()
        invariant
            i <= doc.comments@.len(),
            doc.comments@ == orig,
            kept@ == orig.take(i as int).filter(|c: Comment| c.id@ != comment_id@),
        decreases doc.comments.len() - i,
    {
        proof {
            reveal(Seq::filter);
            assert(orig.take(i + 1).drop_last() =~= orig.take(i as int));
        }
        let c = &doc.comments[i];
        if !crate::text::str_eq(c.id.as_str(), comment_id) {
            kept.push(Comment {
                id: c.id.clone(),
                body: c.body.clone(),
                resolved: c.resolved,
                created: c.created.clone(),
                modified: c.modified.clone(),
            });
        }
        i = i + 1;
    }
    proof {
        assert(orig.take(orig.len() as int) =~= orig);
    }
    doc.comments = kept;
    doc.content = strip_comment_span(doc.content.as_str(), comment_id);
    doc.modified = owned(now);
}

/// Adds a comment to a document unless its body is blank, stamping the
/// comment and the document with `now`; whether it was added.
pub fn add_comment(doc: &mut Document, comment_id: String, body: &str, now: &str) -> (r: bool)
    ensures
        r == (trim_ws(body@).len() > 0),
        !r ==> *final(doc) == *old(doc),
        r ==> {
            &&& same_but_comments(*final(doc), *old(doc))
            &&& final(doc).modified@ == now@
            &&& final(doc).comments@.len() == old(doc).comments@.len() + 1
            &&& final(doc).comments@.drop_last() == old(doc).comments@
            &&& final(doc).comments@.last().id@ == comment_id@
            &&& final(doc).comments@.last().body@ == body@
            &&& !final(doc).comments@.last().resolved
            &&& final(doc).comments@.last().created@ == now@ && final(doc).comments@.last().modified@ == now@
        },
{
    if trim_chars(&chars_of(body)).len() == 0 {
        return false;
    }
    let ghost before = doc.comments@;
    doc.comments.push(Comment { id: comment_id, body: owned(body), resolved: false, created: owned(now), modified: owned(now) });
    doc.modified = owned(now);
    proof {
        assert(doc.comments@.drop_last() =~= before);
    }
    true
}

/// A fresh comment id: `c_` and the simple form of a fresh UUID, its 32
/// lowercase hexadecimal digits.
pub fn new_comment_id() -> (r: String)
    ensures
        r@.len() == 34 && r@[0] == 'c' && r@[1] == '_',
        forall|k: int| 2 <= k < 34 ==> ('0' <= #[trigger] r@[k] <= '9' || 'a' <= r@[k] <= 'f'),
{
    let mut out = owned("c_");
    let u = new_simple_uuid();
    out.append(u.as_str());
    proof {
        reveal_strlit("c_");
        assert forall|k: int| 2 <= k < 34 implies ('0' <= #[trigger] out@[k] <= '9' || 'a' <= out@[k] <= 'f') by {
            assert(out@[k] == u@[k - 2]);
        }
    }
    out
}

/// The opening tag of a comment's anchor span.
pub open spec fn anchor_open_tag(id: Seq<char>) -> Seq<char> {
    "<span class=\"comment\" data-comment-id=\""@ + id + "\">"@
}

/// Lines joined by newlines.
pub open spec fn lines_joined(ls: Seq<Seq<char>>) -> Seq<char>
    decreases ls.len(),
{
    if ls.len() == 0 {
        Seq::empty()
    } else if ls.len() == 1 {
        ls[0]
    } else {
        lines_joined(ls.drop_last()) + seq!['\n'] + ls.last()
    }
}

/// The editor's text with a selection wrapped in a comment's anchor span,
/// the selection's ends put in order first; nothing when the selection
/// is empty.
pub fn anchored_content(lines: Vec<String>, selection: (usize, usize, usize, usize), comment_id: &str)
    -> (r: Option<String>)
    ensures
        ({
            let (sr, sc, er, ec) = if crate::tui::pos_le((selection.0, selection.1), (selection.2, selection.3)) {
                selection
            } else {
                (selection.2, selection.3, selection.0, selection.1)
            };
            match wrapped_lines(lines@.map_values(|l: String| l@), sr as nat, sc as nat, er as nat, ec as nat,
                anchor_open_tag(comment_id@), "</span>"@) {
                Some(after) => r matches Some(t) && t@ == lines_joined(after),
                None => r is None,
            }
        }),
{
    let (sr, sc, er, ec) = normalize_selection(selection);
    let mut open = owned("<span class=\"comment\" data-comment-id=\"");
    open.append(comment_id);
    open.append("\">");
    let mut lines = lines;
    if !wrap_selection_in_lines(&mut lines, sr, sc, er, ec, open.as_str(), "</span>") {
        return None;
    }
    let ghost lv = lines@.map_values(|l: String| l@);
    let mut out = String::new();
    let mut k: usize = 0;
    proof {
        assert(lv.take(0) =~= Seq::<Seq<char>>::empty());
    }
    while k < lines.len()
        invariant
            k <= lines@.len(),
            lv == lines@.map_values(|l: String| l@),
            out@ == lines_joined(lv.take(k as int)),
        decreases lines.len() - k,
    {
        if k > 0 {
            crate::text::push_char(&mut out, '\n');
        }
        out.append(lines[k].as_str());
        proof {
            assert(lv[k as int] == lines@[k as int]@);
            assert(lv.take(k + 1).drop_last() =~= lv.take(k as int));
            if k == 0 {
                assert(out@ =~= lines_joined(lv.take(1)));
            } else {
                assert(out@ =~= lines_joined(lv.take(k + 1)));
            }
        }
        k = k + 1;
    }
    proof {
        assert(lv.take(lines@.len() as int) =~= lv);
    }
    Some(out)
}

} // verus!
