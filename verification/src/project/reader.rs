//! The checks and repairs that loading a project applies to what was read
//! from disk: document paths in the hierarchy, the identities the hierarchy
//! gives its documents, agreement between the hierarchy and the loaded
//! documents, and the in-memory repair of the hierarchy.
use vstd::prelude::*;
use vstd::string::StringExecFns;

use crate::error::ChiknError;
use crate::models::{Document, NodeView, Project, TreeNode, nodes_view, lemma_nodes_view};
use crate::project::doc_paths::{
    validate_relative_document_path, normalized_relative_document_path, path_refusal, normalized_refusal,
    normalized_path, invalid_path_message,
};
use crate::scrivener::exporter::first_doc;
use crate::scrivener::exporter::find_document;
use crate::text::{owned, str_eq, replaced, chars_of, lowercase, to_lowercase};
use crate::scrivener::exporter::lookup_last;
use crate::ids::new_uuid;

verus! {

/// A document node of the hierarchy: id, name and path.
pub struct DocEntry {
    pub id: String,
    pub name: String,
    pub path: String,
}

/// A document node's id, name and path as texts.
pub open spec fn entry_view(e: DocEntry) -> (Seq<char>, Seq<char>, Seq<char>) {
    (e.id@, e.name@, e.path@)
}

/// The document nodes of a hierarchy, depth first, as (id, name, path).
pub open spec fn doc_entries(ns: Seq<NodeView>) -> Seq<(Seq<char>, Seq<char>, Seq<char>)>
    decreases ns, 0int,
{
    if ns.len() == 0 {
        Seq::empty()
    } else {
        doc_entries(ns.drop_last()) + node_entries(ns.last())
    }
}

/// The document nodes of a subtree, depth first.
pub open spec fn node_entries(n: NodeView) -> Seq<(Seq<char>, Seq<char>, Seq<char>)>
    decreases n, 1int,
{
    match n {
        NodeView::Document { id, name, path } => seq![(id, name, path)],
        NodeView::Folder { children, .. } => doc_entries(children),
    }
}

/// Collects the document nodes of a hierarchy, depth first.
pub fn hierarchy_documents(nodes: &[TreeNode], out: &mut Vec<DocEntry>)
    ensures
        final(out)@.map_values(|e: DocEntry| entry_view(e)) == old(out)@.map_values(|e: DocEntry| entry_view(e))
            + doc_entries(nodes_view(nodes@)),
    decreases nodes_view(nodes@),
{
    let ghost v = nodes_view(nodes@);
    let ghost start = out@.map_values(|e: DocEntry| entry_view(e));
    proof {
        lemma_nodes_view(nodes@);
        assert(v.take(0) =~= Seq::<NodeView>::empty());
        assert(start + Seq::empty() =~= start);
    }
    let mut i: usize = 0;
    while i < nodes.len()
        invariant
            i <= nodes@.len(),
            v == nodes_view(nodes@),
            v.len() == nodes@.len(),
            forall|q: int| 0 <= q < nodes@.len() ==> #[trigger] v[q] == nodes@[q].node_view(),
            out@.map_values(|e: DocEntry| entry_view(e)) == start + doc_entries(v.take(i as int)),
        decreases nodes.len() - i,
    {
        let ghost before = out@.map_values(|e: DocEntry| entry_view(e));
        proof {
            assert(v.take(i + 1).drop_last() =~= v.take(i as int));
            assert(v.take(i + 1).last() == v[i as int]);
        }
        let node = &nodes[i];
        match node {
            TreeNode::Document { id, name, path } => {
                out.push(DocEntry { id: id.clone(), name: name.clone(), path: path.clone() });
                proof {
                    assert(v[i as int] == node.node_view());
                    assert(node_entries(v[i as int]) == seq![(id@, name@, path@)]);
                    assert(out@.map_values(|e: DocEntry| entry_view(e)) =~= before + node_entries(v[i as int]));
                }
            },
            TreeNode::Folder { children, .. } => {
                proof {
                    assert(v[i as int] == node.node_view());
                    assert(decreases_to!(v => v[i as int]));
                    assert(v[i as int]->Folder_children == nodes_view(children@));
                    assert(decreases_to!(v[i as int] => v[i as int]->Folder_children));
                }
                let kids = children.as_slice();
                hierarchy_documents(kids, out);
                proof {
                    assert(node_entries(v[i as int]) == doc_entries(nodes_view(children@)));
                }
            },
        }
        proof {
            assert(doc_entries(v.take(i + 1)) == doc_entries(v.take(i as int)) + node_entries(v[i as int]));
            assert(out@.map_values(|e: DocEntry| entry_view(e)) =~= start + doc_entries(v.take(i + 1)));
        }
        i = i + 1;
    }
    proof {
        assert(v.take(v.len() as int) =~= v);
    }
}

/// The first document path of the entries that is refused, with its reason.
pub open spec fn first_bad_path(es: Seq<(Seq<char>, Seq<char>, Seq<char>)>) -> Option<(Seq<char>, Seq<char>)>
    decreases es.len(),
{
    if es.len() == 0 {
        None
    } else {
        match first_bad_path(es.drop_last()) {
            Some(x) => Some(x),
            None => match path_refusal(es.last().2) {
                Some(r) => Some((es.last().2, r)),
                None => None,
            },
        }
    }
}

/// Checks every document path of the hierarchy, depth first; the first
/// refused one is reported.
pub fn validate_hierarchy_document_paths(hierarchy: &[TreeNode]) -> (r: Result<(), ChiknError>)
    ensures
        match first_bad_path(doc_entries(nodes_view(hierarchy@))) {
            None => r is Ok,
            Some((p, reason)) => r matches Err(ChiknError::InvalidFormat(m)) && m@ == invalid_path_message(p, reason),
        },
{
    let mut entries: Vec<DocEntry> = Vec::new();
    hierarchy_documents(hierarchy, &mut entries);
    let ghost es = entries@.map_values(|e: DocEntry| entry_view(e));
    proof {
        assert(es =~= doc_entries(nodes_view(hierarchy@)));
        assert(es.take(0) =~= Seq::<(Seq<char>, Seq<char>, Seq<char>)>::empty());
    }
    let mut i: usize = 0;
    while i < entries.len()
        invariant
            i <= entries@.len(),
            es == entries@.map_values(|e: DocEntry| entry_view(e)),
            es == doc_entries(nodes_view(hierarchy@)),
            es.len() == entries@.len(),
            first_bad_path(es.take(i as int)) is None,
        decreases entries.len() - i,
    {
        proof {
            assert(es.take(i + 1).drop_last() =~= es.take(i as int));
            assert(es.take(i + 1).last() == entry_view(entries@[i as int]));
        }
        match validate_relative_document_path(entries[i].path.as_str()) {
            Ok(()) => {},
            Err(e) => {
                proof {
                    lemma_first_bad_split(es, i as int);
                }
                return Err(e);
            },
        }
        i = i + 1;
    }
    proof {
        assert(es.take(es.len() as int) =~= es);
    }
    Ok(())
}

proof fn lemma_first_bad_split(es: Seq<(Seq<char>, Seq<char>, Seq<char>)>, i: int)
    requires
        0 <= i < es.len(),
        first_bad_path(es.take(i)) is None,
        path_refusal(es[i].2) is Some,
    ensures
        first_bad_path(es) == Some((es[i].2, path_refusal(es[i].2)->0)),
    decreases es.len(),
{
    if i == es.len() - 1 {
        assert(es.drop_last() =~= es.take(i));
    } else {
        assert(es.drop_last().take(i) =~= es.take(i));
        lemma_first_bad_split(es.drop_last(), i);
    }
}

/// The id and name the hierarchy gives the document at a normalized path.
pub struct HierarchyDocumentIdentity {
    pub id: String,
    pub name: String,
}

/// Why the hierarchy's document identities cannot be collected.
pub enum IdentityFailure {
    /// Two document nodes share this id.
    DuplicateId(Seq<char>),
    /// This document path is refused, for this reason (after backslashes
    /// are read as separators).
    BadPath(Seq<char>, Seq<char>),
    /// Two document nodes share a normalized path; this is the later raw
    /// path.
    DuplicatePath(Seq<char>),
}

/// The identities of the entries, keyed by normalized path, or the first
/// failure: for each entry in turn, a repeated id, then a refused path,
/// then a repeated normalized path.
pub open spec fn identities_of(es: Seq<(Seq<char>, Seq<char>, Seq<char>)>)
    -> Result<Seq<(Seq<char>, Seq<char>, Seq<char>)>, IdentityFailure>
    decreases es.len(),
{
    if es.len() == 0 {
        Ok(Seq::empty())
    } else {
        match identities_of(es.drop_last()) {
            Err(f) => Err(f),
            Ok(acc) => {
                let (id, name, path) = es.last();
                if exists|k: int| 0 <= k < acc.len() && #[trigger] acc[k].1 == id {
                    Err(IdentityFailure::DuplicateId(id))
                } else {
                    match normalized_refusal(path) {
                        Some(reason) => Err(IdentityFailure::BadPath(path, reason)),
                        None => if exists|k: int| 0 <= k < acc.len() && #[trigger] acc[k].0 == normalized_path(path) {
                            Err(IdentityFailure::DuplicatePath(path))
                        } else {
                            Ok(acc.push((normalized_path(path), id, name)))
                        },
                    }
                }
            },
        }
    }
}

/// The error reported for an identity failure.
pub open spec fn identity_error(f: IdentityFailure, e: ChiknError) -> bool {
    match f {
        IdentityFailure::DuplicateId(id) => e matches ChiknError::InvalidFormat(m)
            && m@ == "Duplicate hierarchy document id: "@ + id,
        IdentityFailure::BadPath(path, reason) => e matches ChiknError::InvalidFormat(m)
            && m@ == invalid_path_message(replaced(path, seq!['\\'], seq!['/']), reason),
        IdentityFailure::DuplicatePath(path) => e matches ChiknError::InvalidFormat(m)
            && m@ == "Duplicate hierarchy document path: "@ + path,
    }
}

/// A collected identity as texts: normalized path, id, name.
pub open spec fn identity_view(x: (String, HierarchyDocumentIdentity)) -> (Seq<char>, Seq<char>, Seq<char>) {
    (x.0@, x.1.id@, x.1.name@)
}

/// Collects the id and name the hierarchy gives each document path
/// (normalized). No two document nodes may share an id or a normalized
/// path, and every path must be acceptable.
#[verifier::loop_isolation(false)]
pub fn collect_hierarchy_document_identities(hierarchy: &[TreeNode])
    -> (r: Result<Vec<(String, HierarchyDocumentIdentity)>, ChiknError>)
    ensures
        match identities_of(doc_entries(nodes_view(hierarchy@))) {
            Ok(ids) => r matches Ok(v) && v@.map_values(|x: (String, HierarchyDocumentIdentity)| identity_view(x)) == ids,
            Err(f) => r matches Err(e) && identity_error(f, e),
        },
{
    let mut entries: Vec<DocEntry> = Vec::new();
    hierarchy_documents(hierarchy, &mut entries);
    let ghost es = entries@.map_values(|e: DocEntry| entry_view(e));
    proof {
        assert(es =~= doc_entries(nodes_view(hierarchy@)));
        assert(es.take(0) =~= Seq::<(Seq<char>, Seq<char>, Seq<char>)>::empty());
    }
    let mut out: Vec<(String, HierarchyDocumentIdentity)> = Vec::new();
    proof {
        assert(out@.map_values(|x: (String, HierarchyDocumentIdentity)| identity_view(x))
            =~= Seq::<(Seq<char>, Seq<char>, Seq<char>)>::empty());
    }
    let mut i: usize = 0;
    while i < entries.len()
        invariant
            i <= entries@.len(),
            es == entries@.map_values(|e: DocEntry| entry_view(e)),
            es == doc_entries(nodes_view(hierarchy@)),
            es.len() == entries@.len(),
            identities_of(es.take(i as int)) == Ok::<Seq<(Seq<char>, Seq<char>, Seq<char>)>, IdentityFailure>(
                out@.map_values(|x: (String, HierarchyDocumentIdentity)| identity_view(x))),
        decreases entries.len() - i,
    {
        let ghost acc = out@.map_values(|x: (String, HierarchyDocumentIdentity)| identity_view(x));
        proof {
            assert(es.take(i + 1).drop_last() =~= es.take(i as int));
            assert(es.take(i + 1).last() == entry_view(entries@[i as int]));
        }
        let entry = &entries[i];
        let mut k: usize = 0;
        while k < out.len()
            invariant
                k <= out@.len(),
                acc == out@.map_values(|x: (String, HierarchyDocumentIdentity)| identity_view(x)),
                forall|j: int| 0 <= j < k ==> #[trigger] acc[j].1 != entry.id@,
            decreases out.len() - k,
        {
            if str_eq(out[k].1.id.as_str(), entry.id.as_str()) {
                let mut m = owned("Duplicate hierarchy document id: ");
                m.append(entry.id.as_str());
                proof {
                    assert(acc[k as int].1 == entry.id@);
                    lemma_identities_fail(es, i as int);
                }
                return Err(ChiknError::InvalidFormat(m));
            }
            k = k + 1;
        }
        let normalized = match normalized_relative_document_path(entry.path.as_str()) {
            Ok(p) => p,
            Err(e) => {
                proof {
                    lemma_identities_fail(es, i as int);
                }
                return Err(e);
            },
        };
        let mut k2: usize = 0;
        while k2 < out.len()
            invariant
                k2 <= out@.len(),
                acc == out@.map_values(|x: (String, HierarchyDocumentIdentity)| identity_view(x)),
                forall|j: int| 0 <= j < k2 ==> #[trigger] acc[j].0 != normalized@,
            decreases out.len() - k2,
        {
            if str_eq(out[k2].0.as_str(), normalized.as_str()) {
                let mut m = owned("Duplicate hierarchy document path: ");
                m.append(entry.path.as_str());
                proof {
                    assert(acc[k2 as int].0 == normalized@);
                    lemma_identities_fail(es, i as int);
                }
                return Err(ChiknError::InvalidFormat(m));
            }
            k2 = k2 + 1;
        }
        out.push((normalized, HierarchyDocumentIdentity { id: entry.id.clone(), name: entry.name.clone() }));
        proof {
            assert(out@.map_values(|x: (String, HierarchyDocumentIdentity)| identity_view(x))
                =~= acc.push((normalized_path(entry.path@), entry.id@, entry.name@)));
        }
        i = i + 1;
    }
    proof {
        assert(es.take(es.len() as int) =~= es);
    }
    Ok(out)
}

proof fn lemma_identities_fail(es: Seq<(Seq<char>, Seq<char>, Seq<char>)>, i: int)
    requires
        0 <= i < es.len(),
        identities_of(es.take(i)) is Ok,
        identities_of(es.take(i + 1)) is Err,
    ensures
        identities_of(es) == identities_of(es.take(i + 1)),
    decreases es.len(),
{
    if i == es.len() - 1 {
        assert(es.take(i + 1) =~= es);
    } else {
        assert(es.drop_last().take(i) =~= es.take(i));
        assert(es.drop_last().take(i + 1) =~= es.take(i + 1));
        lemma_identities_fail(es.drop_last(), i);
    }
}

/// Why the hierarchy and the loaded documents disagree.
pub enum MatchFailure {
    /// A path (of a loaded document, or of a hierarchy node) is refused,
    /// for this reason.
    BadPath(Seq<char>, Seq<char>),
    /// The hierarchy node `id` points at `path`, but the document with that
    /// id was loaded from `loaded`.
    Moved(Seq<char>, Seq<char>, Seq<char>),
    /// The hierarchy node `id` points at `path`, which loaded as the
    /// document `actual`.
    Taken(Seq<char>, Seq<char>, Seq<char>),
}

/// The first loaded document, in order, whose path is refused.
pub open spec fn docs_path_failure(docs: Seq<Document>) -> Option<(Seq<char>, Seq<char>)>
    decreases docs.len(),
{
    if docs.len() == 0 {
        None
    } else {
        match docs_path_failure(docs.drop_last()) {
            Some(x) => Some(x),
            None => match normalized_refusal(docs.last().path@) {
                Some(r) => Some((docs.last().path@, r)),
                None => None,
            },
        }
    }
}

/// The loaded documents by normalized path: (path, id) in order, a later
/// entry taking precedence.
pub open spec fn docs_by_path(docs: Seq<Document>) -> Seq<(Seq<char>, Seq<char>)> {
    docs.map_values(|d: Document| (normalized_path(d.path@), d.id@))
}

/// How a hierarchy document node disagrees with the loaded documents.
pub open spec fn entry_failure(e: (Seq<char>, Seq<char>, Seq<char>), docs: Seq<Document>) -> Option<MatchFailure> {
    let (id, _name, path) = e;
    match normalized_refusal(path) {
        Some(r) => Some(MatchFailure::BadPath(path, r)),
        None => match first_doc(docs, id) {
            Some(j) => if normalized_path(docs[j].path@) != normalized_path(path) {
                Some(MatchFailure::Moved(id, path, docs[j].path@))
            } else {
                None
            },
            None => match lookup_last(docs_by_path(docs), normalized_path(path)) {
                Some(actual) => Some(MatchFailure::Taken(id, path, actual)),
                None => None,
            },
        },
    }
}

/// The first hierarchy document node, depth first, that disagrees.
pub open spec fn entries_failure(es: Seq<(Seq<char>, Seq<char>, Seq<char>)>, docs: Seq<Document>) -> Option<MatchFailure>
    decreases es.len(),
{
    if es.len() == 0 {
        None
    } else {
        match entries_failure(es.drop_last(), docs) {
            Some(x) => Some(x),
            None => entry_failure(es.last(), docs),
        }
    }
}

/// How the hierarchy and the loaded documents disagree, if they do: first
/// any loaded document path that is refused, then the first hierarchy
/// document node that points at a path other than its document's, or at a
/// path that loaded as another document.
pub open spec fn match_failure(ns: Seq<NodeView>, docs: Seq<Document>) -> Option<MatchFailure> {
    match docs_path_failure(docs) {
        Some((p, r)) => Some(MatchFailure::BadPath(p, r)),
        None => entries_failure(doc_entries(ns), docs),
    }
}

/// The error reported for a disagreement.
pub open spec fn match_error(f: MatchFailure, e: ChiknError) -> bool {
    match f {
        MatchFailure::BadPath(path, reason) => e matches ChiknError::InvalidFormat(m)
            && m@ == invalid_path_message(replaced(path, seq!['\\'], seq!['/']), reason),
        MatchFailure::Moved(id, path, loaded) => e matches ChiknError::InvalidFormat(m)
            && m@ == "Hierarchy document "@ + id + " points at "@ + path + ", but loaded document path is "@ + loaded,
        MatchFailure::Taken(id, path, actual) => e matches ChiknError::InvalidFormat(m)
            && m@ == "Hierarchy document "@ + id + " points at "@ + path + ", but that path loaded as document "@ + actual,
    }
}

proof fn lemma_docs_failure_split(docs: Seq<Document>, i: int)
    requires
        0 <= i < docs.len(),
        docs_path_failure(docs.take(i)) is None,
        normalized_refusal(docs[i].path@) is Some,
    ensures
        docs_path_failure(docs) == Some((docs[i].path@, normalized_refusal(docs[i].path@)->0)),
    decreases docs.len(),
{
    if i == docs.len() - 1 {
        assert(docs.drop_last() =~= docs.take(i));
    } else {
        assert(docs.drop_last().take(i) =~= docs.take(i));
        lemma_docs_failure_split(docs.drop_last(), i);
    }
}

proof fn lemma_entries_failure_split(es: Seq<(Seq<char>, Seq<char>, Seq<char>)>, docs: Seq<Document>, i: int)
    requires
        0 <= i < es.len(),
        entries_failure(es.take(i), docs) is None,
        entry_failure(es[i], docs) is Some,
    ensures
        entries_failure(es, docs) == entry_failure(es[i], docs),
    decreases es.len(),
{
    if i == es.len() - 1 {
        assert(es.drop_last() =~= es.take(i));
    } else {
        assert(es.drop_last().take(i) =~= es.take(i));
        lemma_entries_failure_split(es.drop_last(), docs, i);
    }
}

fn hierarchy_message(id: &str, path: &str, tail: &str, other: &str) -> (m: String)
    ensures
        m@ == "Hierarchy document "@ + id@ + " points at "@ + path@ + tail@ + other@,
{
    let mut m = owned("Hierarchy document ");
    m.append(id);
    m.append(" points at ");
    m.append(path);
    m.append(tail);
    m.append(other);
    m
}

proof fn lemma_docs_ok(docs: Seq<Document>, j: int)
    requires
        docs_path_failure(docs) is None,
        0 <= j < docs.len(),
    ensures
        normalized_refusal(docs[j].path@) is None,
    decreases docs.len(),
{
    if j < docs.len() - 1 {
        lemma_docs_ok(docs.drop_last(), j);
    }
}

/// The loaded documents by normalized path, or the first refused path.
fn loaded_paths(documents: &Vec<Document>) -> (r: Result<Vec<(String, String)>, ChiknError>)
    ensures
        match docs_path_failure(documents@) {
            None => r matches Ok(v) && crate::scrivener::exporter::pairs_view(v@) == docs_by_path(documents@),
            Some((p, reason)) => r matches Err(e) && match_error(MatchFailure::BadPath(p, reason), e),
        },
{
    let ghost docs = documents@;
    let mut by_path: Vec<(String, String)> = Vec::new();
    let mut i: usize = 0;
    proof {
        assert(docs.take(0) =~= Seq::<Document>::empty());
        assert(crate::scrivener::exporter::pairs_view(by_path@) =~= docs_by_path(docs.take(0)));
    }
    while i < documents.len()
        invariant
            i <= docs.len(),
            docs == documents@,
            docs_path_failure(docs.take(i as int)) is None,
            crate::scrivener::exporter::pairs_view(by_path@) == docs_by_path(docs.take(i as int)),
        decreases documents.len() - i,
    {
        proof {
            assert(docs.take(i + 1).drop_last() =~= docs.take(i as int));
            assert(docs.take(i + 1).last() == docs[i as int]);
        }
        let np = match normalized_relative_document_path(documents[i].path.as_str()) {
            Ok(p) => p,
            Err(e) => {
                proof {
                    lemma_docs_failure_split(docs, i as int);
                }
                return Err(e);
            },
        };
        let id = documents[i].id.clone();
        let ghost before = crate::scrivener::exporter::pairs_view(by_path@);
        by_path.push((np, id));
        proof {
            assert(np@ == normalized_path(docs[i as int].path@));
            assert(id@ == docs[i as int].id@);
            assert(crate::scrivener::exporter::pairs_view(by_path@) =~= before.push((np@, id@)));
            assert(docs_by_path(docs.take(i + 1)) =~= docs_by_path(docs.take(i as int)).push((np@, id@)));
        }
        i = i + 1;
    }
    proof {
        assert(docs.take(docs.len() as int) =~= docs);
    }
    Ok(by_path)
}

/// Checks one hierarchy document node against the loaded documents.
fn check_entry(entry: &DocEntry, documents: &Vec<Document>, by_path: &Vec<(String, String)>) -> (r: Result<(), ChiknError>)
    requires
        docs_path_failure(documents@) is None,
        crate::scrivener::exporter::pairs_view(by_path@) == docs_by_path(documents@),
    ensures
        match entry_failure(entry_view(*entry), documents@) {
            None => r is Ok,
            Some(f) => r matches Err(e) && match_error(f, e),
        },
{
    let np = match normalized_relative_document_path(entry.path.as_str()) {
        Ok(p) => p,
        Err(e) => {
            return Err(e);
        },
    };
    match find_document(documents, entry.id.as_str()) {
        Some(j) => {
            proof {
                lemma_docs_ok(documents@, j as int);
            }
            let loaded = match normalized_relative_document_path(documents[j].path.as_str()) {
                Ok(p) => p,
                Err(e) => {
                    return Err(e);
                },
            };
            if !str_eq(loaded.as_str(), np.as_str()) {
                let m = hierarchy_message(entry.id.as_str(), entry.path.as_str(), ", but loaded document path is ",
                    documents[j].path.as_str());
                return Err(ChiknError::InvalidFormat(m));
            }
            Ok(())
        },
        None => {
            match crate::scrivener::exporter::lookup_uuid(by_path, np.as_str()) {
                Some(q) => {
                    let m = hierarchy_message(entry.id.as_str(), entry.path.as_str(),
                        ", but that path loaded as document ", by_path[q].1.as_str());
                    Err(ChiknError::InvalidFormat(m))
                },
                None => Ok(()),
            }
        },
    }
}

/// Checks that the hierarchy agrees with the documents loaded from disk:
/// every loaded path is acceptable, and every hierarchy document node
/// points at the path its document was loaded from, or, when no document
/// has its id, at a path that no other document was loaded from.
pub fn validate_hierarchy_documents_match_loaded_documents(hierarchy: &[TreeNode], documents: &Vec<Document>)
    -> (r: Result<(), ChiknError>)
    ensures
        match match_failure(nodes_view(hierarchy@), documents@) {
            None => r is Ok,
            Some(f) => r matches Err(e) && match_error(f, e),
        },
{
    let by_path = match loaded_paths(documents) {
        Ok(b) => b,
        Err(e) => {
            return Err(e);
        },
    };
    let mut entries: Vec<DocEntry> = Vec::new();
    hierarchy_documents(hierarchy, &mut entries);
    let ghost es = entries@.map_values(|e: DocEntry| entry_view(e));
    proof {
        assert(es =~= doc_entries(nodes_view(hierarchy@)));
        assert(es.take(0) =~= Seq::<(Seq<char>, Seq<char>, Seq<char>)>::empty());
    }
    let mut k: usize = 0;
    while k < entries.len()
        invariant
            k <= entries@.len(),
            es == entries@.map_values(|e: DocEntry| entry_view(e)),
            es == doc_entries(nodes_view(hierarchy@)),
            es.len() == entries@.len(),
            docs_path_failure(documents@) is None,
            crate::scrivener::exporter::pairs_view(by_path@) == docs_by_path(documents@),
            entries_failure(es.take(k as int), documents@) is None,
        decreases entries.len() - k,
    {
        proof {
            assert(es.take(k + 1).drop_last() =~= es.take(k as int));
            assert(es.take(k + 1).last() == entry_view(entries@[k as int]));
            assert(es[k as int] == entry_view(entries@[k as int]));
        }
        match check_entry(&entries[k], documents, &by_path) {
            Ok(()) => {},
            Err(e) => {
                proof {
                    lemma_entries_failure_split(es, documents@, k as int);
                }
                return Err(e);
            },
        }
        k = k + 1;
    }
    proof {
        assert(es.take(es.len() as int) =~= es);
    }
    Ok(())
}

/// Whether `s` begins with `p`.
pub open spec fn starts_with(s: Seq<char>, p: Seq<char>) -> bool {
    s.len() >= p.len() && s.take(p.len() as int) == p
}

/// Whether a document path lies under `characters/` or `locations/`, whose
/// documents live outside the hierarchy by design.
pub open spec fn entity_path(p: Seq<char>) -> bool {
    starts_with(p, "characters/"@) || starts_with(p, "locations/"@)
}

/// The paths the hierarchy's document nodes point at.
pub open spec fn referenced_paths(ns: Seq<NodeView>) -> Seq<Seq<char>> {
    doc_entries(ns).map_values(|e: (Seq<char>, Seq<char>, Seq<char>)| e.2)
}

/// The nodes for the loaded documents that no hierarchy node points at, in
/// the order of the documents (entity documents excepted).
pub open spec fn orphan_nodes(docs: Seq<Document>, refs: Seq<Seq<char>>) -> Seq<NodeView>
    decreases docs.len(),
{
    if docs.len() == 0 {
        Seq::empty()
    } else {
        let d = docs.last();
        orphan_nodes(docs.drop_last(), refs) + if !entity_path(d.path@) && !refs.contains(d.path@) {
            seq![NodeView::Document { id: d.id@, name: d.name@, path: d.path@ }]
        } else {
            Seq::empty()
        }
    }
}

/// Whether a top-level folder's name matches `name` when both are
/// lowercased.
pub open spec fn has_binder_folder(ns: Seq<NodeView>, name: Seq<char>) -> bool {
    exists|k: int| 0 <= k < ns.len() && #[trigger] ns[k] is Folder && lowercase(ns[k]->Folder_name) == lowercase(name)
}

/// One step of making the binder folders: when no top-level folder has the
/// name, an empty folder with that name (and a fresh id) is appended.
pub open spec fn folder_step(h: Seq<NodeView>, name: Seq<char>, next: Seq<NodeView>) -> bool {
    if has_binder_folder(h, name) {
        next == h
    } else {
        &&& next.len() == h.len() + 1 && next.drop_last() == h
        &&& next.last() matches NodeView::Folder { name: n, children: c, .. } && n == name && c.len() == 0
    }
}

/// Length after a folder step.
pub open spec fn step_len(h: Seq<NodeView>, name: Seq<char>) -> nat {
    if has_binder_folder(h, name) { h.len() } else { h.len() + 1 }
}

pub fn starts_with_text(s: &Vec<char>, p: &str) -> (r: bool)
    ensures
        r == starts_with(s@, p@),
{
    let ps = chars_of(p);
    if ps.len() > s.len() {
        return false;
    }
    let mut k: usize = 0;
    while k < ps.len()
        invariant
            k <= ps@.len(),
            ps@.len() <= s@.len(),
            ps@ == p@,
            forall|j: int| 0 <= j < k ==> s@[j] == #[trigger] ps@[j],
        decreases ps.len() - k,
    {
        if s[k] != ps[k] {
            assert(s@.take(ps@.len() as int)[k as int] != p@[k as int]);
            return false;
        }
        k = k + 1;
    }
    assert(s@.take(ps@.len() as int) =~= p@);
    true
}

fn contains_path(refs: &Vec<DocEntry>, path: &str) -> (r: bool)
    ensures
        r == refs@.map_values(|e: DocEntry| entry_view(e)).map_values(|e: (Seq<char>, Seq<char>, Seq<char>)| e.2).contains(path@),
{
    let ghost rs = refs@.map_values(|e: DocEntry| entry_view(e)).map_values(|e: (Seq<char>, Seq<char>, Seq<char>)| e.2);
    let mut i: usize = 0;
    while i < refs.len()
        invariant
            i <= refs@.len(),
            rs == refs@.map_values(|e: DocEntry| entry_view(e)).map_values(|e: (Seq<char>, Seq<char>, Seq<char>)| e.2),
            rs.len() == refs@.len(),
            forall|j: int| 0 <= j < i ==> #[trigger] rs[j] != path@,
        decreases refs.len() - i,
    {
        assert(rs[i as int] == refs@[i as int].path@);
        if str_eq(refs[i].path.as_str(), path) {
            return true;
        }
        i = i + 1;
    }
    false
}

fn has_folder_named(h: &Vec<TreeNode>, name: &str) -> (r: bool)
    ensures
        r == has_binder_folder(nodes_view(h@), name@),
{
    let want = to_lowercase(name);
    let ghost v = nodes_view(h@);
    proof {
        lemma_nodes_view(h@);
    }
    let mut i: usize = 0;
    while i < h.len()
        invariant
            i <= h@.len(),
            v == nodes_view(h@),
            v.len() == h@.len(),
            forall|q: int| 0 <= q < h@.len() ==> #[trigger] v[q] == h@[q].node_view(),
            want@ == lowercase(name@),
            forall|j: int| 0 <= j < i ==> !(#[trigger] v[j] is Folder && lowercase(v[j]->Folder_name) == lowercase(name@)),
        decreases h.len() - i,
    {
        match &h[i] {
            TreeNode::Folder { name: n, .. } => {
                let lower = to_lowercase(n.as_str());
                if str_eq(lower.as_str(), want.as_str()) {
                    assert(v[i as int] is Folder && lowercase(v[i as int]->Folder_name) == lowercase(name@));
                    return true;
                }
            },
            TreeNode::Document { .. } => {},
        }
        i = i + 1;
    }
    false
}

fn ensure_binder_folder(h: &mut Vec<TreeNode>, name: &str) -> (added: bool)
    ensures
        folder_step(nodes_view(old(h)@), name@, nodes_view(final(h)@)),
        added == !has_binder_folder(nodes_view(old(h)@), name@),
{
    if has_folder_named(h, name) {
        return false;
    }
    proof {
        crate::models::lemma_nodes_view_edits(h@);
    }
    let node = TreeNode::Folder { id: new_uuid(), name: owned(name), children: Vec::new() };
    let ghost nv = node.node_view();
    proof {
        assert(nodes_view(Seq::<TreeNode>::empty()) =~= Seq::<NodeView>::empty());
        assert(nv matches NodeView::Folder { name: n, children: c, .. } && n == name@ && c.len() == 0);
        assert(nodes_view(h@.push(node)) == nodes_view(h@).push(nv));
    }
    h.push(node);
    proof {
        assert(nodes_view(h@).drop_last() =~= nodes_view(old(h)@));
    }
    true
}

/// Repairs the loaded hierarchy in memory: documents that no hierarchy node
/// points at (other than entity documents under `characters/` and
/// `locations/`) are appended as root document nodes, in the order of the
/// documents; then an empty Manuscript, Research and Trash folder is
/// appended for each of these names that no top-level folder has
/// (compared lowercased). Nothing is ever removed. Returns whether anything
/// was repaired, counting `folders_created`, the report of the disk repair
/// the caller made.
pub fn repair_project(project: &mut Project, folders_created: bool) -> (repaired: bool)
    ensures
        final(project).documents == old(project).documents,
        final(project).id == old(project).id && final(project).name == old(project).name,
        final(project).path == old(project).path && final(project).created == old(project).created,
        final(project).modified == old(project).modified && final(project).metadata == old(project).metadata,
        ({
            let h0 = nodes_view(old(project).hierarchy@);
            let h1 = h0 + orphan_nodes(old(project).documents@, referenced_paths(h0));
            let fin = nodes_view(final(project).hierarchy@);
            let lm = step_len(h1, "Manuscript"@);
            let lr = step_len(fin.take(lm as int), "Research"@);
            &&& folder_step(h1, "Manuscript"@, fin.take(lm as int))
            &&& folder_step(fin.take(lm as int), "Research"@, fin.take(lr as int))
            &&& folder_step(fin.take(lr as int), "Trash"@, fin)
            &&& repaired == (h1.len() > h0.len() || fin.len() > h1.len() || folders_created)
        }),
{
    let ghost h0 = nodes_view(project.hierarchy@);
    let mut refs: Vec<DocEntry> = Vec::new();
    hierarchy_documents(project.hierarchy.as_slice(), &mut refs);
    proof {
        assert(refs@.map_values(|e: DocEntry| entry_view(e)) =~= doc_entries(h0));
    }
    let ghost rs = referenced_paths(h0);
    let mut orphans: Vec<TreeNode> = Vec::new();
    let ghost docs = project.documents@;
    let mut i: usize = 0;
    proof {
        assert(docs.take(0) =~= Seq::<Document>::empty());
        assert(nodes_view(orphans@) =~= Seq::<NodeView>::empty());
    }
    while i < project.documents.len()
        invariant
            i <= docs.len(),
            docs == project.documents@,
            rs == refs@.map_values(|e: DocEntry| entry_view(e)).map_values(|e: (Seq<char>, Seq<char>, Seq<char>)| e.2),
            nodes_view(orphans@) == orphan_nodes(docs.take(i as int), rs),
        decreases project.documents.len() - i,
    {
        let d = &project.documents[i];
        proof {
            assert(docs.take(i + 1).drop_last() =~= docs.take(i as int));
            assert(docs.take(i + 1).last() == docs[i as int]);
        }
        let cs = chars_of(d.path.as_str());
        let entity = starts_with_text(&cs, "characters/") || starts_with_text(&cs, "locations/");
        let ghost before = orphans@;
        if !entity && !contains_path(&refs, d.path.as_str()) {
            proof {
                crate::models::lemma_nodes_view_edits(orphans@);
            }
            orphans.push(TreeNode::Document { id: d.id.clone(), name: d.name.clone(), path: d.path.clone() });
        }
        i = i + 1;
    }
    proof {
        assert(docs.take(docs.len() as int) =~= docs);
    }
    let ghost ov = nodes_view(orphans@);
    let ghost os = orphans@;
    let any_orphans = orphans.len() > 0;
    let ghost hbefore = project.hierarchy@;
    project.hierarchy.append(&mut orphans);
    proof {
        crate::models::lemma_nodes_view(hbefore);
        crate::models::lemma_nodes_view(project.hierarchy@);
        crate::models::lemma_nodes_view(os);
        assert(project.hierarchy@ == hbefore + os);
        assert(nodes_view(project.hierarchy@) =~= h0 + ov);
    }
    let ghost h1 = nodes_view(project.hierarchy@);
    let a = ensure_binder_folder(&mut project.hierarchy, "Manuscript");
    let ghost hm = nodes_view(project.hierarchy@);
    let b = ensure_binder_folder(&mut project.hierarchy, "Research");
    let ghost hr = nodes_view(project.hierarchy@);
    let c = ensure_binder_folder(&mut project.hierarchy, "Trash");
    proof {
        let fin = nodes_view(project.hierarchy@);
        assert(hm.len() == step_len(h1, "Manuscript"@));
        assert(hr.len() == step_len(hm, "Research"@));
        assert(fin.len() == step_len(hr, "Trash"@));
        assert(hr.take(hm.len() as int) =~= hm) by {
            if hr != hm {
                assert(hr.drop_last() == hm);
            }
        }
        assert(fin.take(hr.len() as int) =~= hr) by {
            if fin != hr {
                assert(fin.drop_last() == hr);
            }
        }
        assert(fin.take(hm.len() as int) =~= hm);
    }
    any_orphans || a || b || c || folders_created
}

/// Repair adds a node only for a loaded document that no hierarchy node
/// points at and whose path lies under neither `characters/` nor
/// `locations/`: each added node is a document node with the id, name and
/// path of such a document. Every such document gets a node.
pub proof fn law_repair_leaves_entities_out(docs: Seq<Document>, refs: Seq<Seq<char>>)
    ensures
        forall|i: int| 0 <= i < orphan_nodes(docs, refs).len() ==> exists|j: int| {
            let n = #[trigger] orphan_nodes(docs, refs)[i];
            let d = #[trigger] docs[j];
            &&& 0 <= j < docs.len()
            &&& n == NodeView::Document { id: d.id@, name: d.name@, path: d.path@ }
            &&& !refs.contains(d.path@)
            &&& !(d.path@.len() >= 11 && d.path@.take(11) == "characters/"@)
            &&& !(d.path@.len() >= 10 && d.path@.take(10) == "locations/"@)
        },
        forall|j: int| 0 <= j < docs.len() && !refs.contains((#[trigger] docs[j]).path@)
            && !(docs[j].path@.len() >= 11 && docs[j].path@.take(11) == "characters/"@)
            && !(docs[j].path@.len() >= 10 && docs[j].path@.take(10) == "locations/"@)
            ==> orphan_nodes(docs, refs).contains(
                NodeView::Document { id: docs[j].id@, name: docs[j].name@, path: docs[j].path@ },
            ),
    decreases docs.len(),
{
    reveal_strlit("characters/");
    reveal_strlit("locations/");
    assert("characters/"@.len() == 11 && "locations/"@.len() == 10);
    if docs.len() > 0 {
        let dl = docs.drop_last();
        law_repair_leaves_entities_out(dl, refs);
        let d = docs.last();
        let n = docs.len() - 1;
        let a = orphan_nodes(dl, refs);
        let all = orphan_nodes(docs, refs);
        let dn = NodeView::Document { id: d.id@, name: d.name@, path: d.path@ };
        assert(docs[n] == d);
        assert forall|i: int| 0 <= i < all.len() implies exists|j: int| {
            let nd = #[trigger] all[i];
            let e = #[trigger] docs[j];
            &&& 0 <= j < docs.len()
            &&& nd == NodeView::Document { id: e.id@, name: e.name@, path: e.path@ }
            &&& !refs.contains(e.path@)
            &&& !(e.path@.len() >= 11 && e.path@.take(11) == "characters/"@)
            &&& !(e.path@.len() >= 10 && e.path@.take(10) == "locations/"@)
        } by {
            if i < a.len() {
                assert(all[i] == a[i]);
                let j = choose|j: int| {
                    let nd = #[trigger] a[i];
                    let e = #[trigger] dl[j];
                    &&& 0 <= j < dl.len()
                    &&& nd == NodeView::Document { id: e.id@, name: e.name@, path: e.path@ }
                    &&& !refs.contains(e.path@)
                    &&& !(e.path@.len() >= 11 && e.path@.take(11) == "characters/"@)
                    &&& !(e.path@.len() >= 10 && e.path@.take(10) == "locations/"@)
                };
                assert(docs[j] == dl[j]);
            } else {
                assert(all[i] == dn);
            }
        }
        assert forall|j: int| 0 <= j < docs.len() && !refs.contains((#[trigger] docs[j]).path@)
            && !(docs[j].path@.len() >= 11 && docs[j].path@.take(11) == "characters/"@)
            && !(docs[j].path@.len() >= 10 && docs[j].path@.take(10) == "locations/"@)
            implies all.contains(NodeView::Document { id: docs[j].id@, name: docs[j].name@, path: docs[j].path@ }) by {
            let t = NodeView::Document { id: docs[j].id@, name: docs[j].name@, path: docs[j].path@ };
            if j < n {
                assert(docs[j] == dl[j]);
                let q = choose|q: int| 0 <= q < a.len() && a[q] == t;
                assert(all[q] == t);
            } else {
                assert(!entity_path(d.path@));
                assert(all[a.len() as int] == t);
            }
        }
    }
}

} // verus!
