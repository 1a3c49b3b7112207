//! Permanent deletion of a binder node: which document files go with it,
//! and the in-memory removal once they are gone.
use vstd::prelude::*;

use crate::error::ChiknError;
use crate::hierarchy_laws::law_remove_takes_out_a_present_node;
use crate::hierarchy::{find_in, find_node, remove_in, remove_node};
use crate::models::{Document, NodeView, Project, TreeNode, nodes_view, unique_ids};
use crate::project::reader::{DocEntry, entry_view, hierarchy_documents, node_entries};
use crate::scrivener::exporter::{find_document, first_doc, pairs_view};
use crate::text::{owned, str_eq};

verus! {

/// The file to delete for a document node: its id, and the path of the
/// loaded document with that id, or the node's own path when none has it.
pub open spec fn deletion_of(e: (Seq<char>, Seq<char>, Seq<char>), docs: Seq<Document>) -> (Seq<char>, Seq<char>) {
    match first_doc(docs, e.0) {
        Some(j) => (e.0, docs[j].path@),
        None => (e.0, e.2),
    }
}

/// The files to delete for a subtree, depth first.
pub open spec fn deletions_of(n: NodeView, docs: Seq<Document>) -> Seq<(Seq<char>, Seq<char>)> {
    node_entries(n).map_values(|e: (Seq<char>, Seq<char>, Seq<char>)| deletion_of(e, docs))
}

/// The document files a subtree holds, as (id, path) pairs, depth first.
pub fn collect_document_deletions(node: &TreeNode, project: &Project) -> (r: Vec<(String, String)>)
    ensures
        pairs_view(r@) == deletions_of(node.node_view(), project.documents@),
{
    let mut entries: Vec<DocEntry> = Vec::new();
    match node {
        TreeNode::Document { id, name, path } => {
            entries.push(DocEntry { id: id.clone(), name: name.clone(), path: path.clone() });
        },
        TreeNode::Folder { children, .. } => {
            hierarchy_documents(children.as_slice(), &mut entries);
        },
    }
    let ghost es = node_entries(node.node_view());
    proof {
        assert(entries@.map_values(|e: DocEntry| entry_view(e)) =~= es);
    }
    let docs = &project.documents;
    let mut out: Vec<(String, String)> = Vec::new();
    let mut k: usize = 0;
    while k < entries.len()
        invariant
            k <= entries@.len(),
            entries@.map_values(|e: DocEntry| entry_view(e)) == es,
            docs@ == project.documents@,
            out@.len() == k,
            pairs_view(out@) == es.take(k as int).map_values(
                |e: (Seq<char>, Seq<char>, Seq<char>)| deletion_of(e, docs@),
            ),
        decreases entries.len() - k,
    {
        let e = &entries[k];
        proof {
            assert(es[k as int] == entry_view(entries@[k as int]));
        }
        let path = match find_document(docs, e.id.as_str()) {
            Some(j) => docs[j].path.clone(),
            None => e.path.clone(),
        };
        let ghost before = pairs_view(out@);
        out.push((e.id.clone(), path));
        proof {
            assert(pairs_view(out@)[k as int] == deletion_of(es[k as int], docs@));
            assert(pairs_view(out@) =~= before.push(deletion_of(es[k as int], docs@)));
            assert(es.take(k + 1) =~= es.take(k as int).push(es[k as int]));
            assert(pairs_view(out@) =~= es.take(k + 1).map_values(
                |e: (Seq<char>, Seq<char>, Seq<char>)| deletion_of(e, docs@),
            ));
        }
        k = k + 1;
    }
    proof {
        assert(es.take(entries@.len() as int) =~= es);
    }
    out
}

/// The message of the error for a node id that is not in the hierarchy.
pub open spec fn node_not_found(node_id: Seq<char>) -> Seq<char> {
    "Node not found: "@ + node_id
}

/// The files a permanent deletion of the node `node_id` removes, found
/// before anything is touched; an error when no node has that id.
pub fn plan_node_deletion(project: &Project, node_id: &str) -> (r: Result<Vec<(String, String)>, ChiknError>)
    ensures
        match find_in(nodes_view(project.hierarchy@), node_id@) {
            Some(n) => r matches Ok(v) && pairs_view(v@) == deletions_of(n, project.documents@),
            None => r matches Err(ChiknError::NotFound(m)) && m@ == node_not_found(node_id@),
        },
{
    match find_node(project.hierarchy.as_slice(), node_id) {
        Some(n) => Ok(collect_document_deletions(n, project)),
        None => {
            let mut m = owned("Node not found: ");
            m.append(node_id);
            Err(ChiknError::NotFound(m))
        },
    }
}

/// The ids of a deletion list.
pub open spec fn deleted_ids(d: Seq<(Seq<char>, Seq<char>)>) -> Seq<Seq<char>> {
    d.map_values(|p: (Seq<char>, Seq<char>)| p.0)
}

/// The documents that are left once those with a deleted id are dropped.
pub open spec fn kept_documents(docs: Seq<Document>, ids: Seq<Seq<char>>) -> Seq<Document> {
    docs.filter(|d: Document| !ids.contains(d.id@))
}

fn contains_id(deletions: &Vec<(String, String)>, id: &str) -> (r: bool)
    ensures
        r == deleted_ids(pairs_view(deletions@)).contains(id@),
{
    let ghost ids = deleted_ids(pairs_view(deletions@));
    let mut k: usize = 0;
    while k < deletions.len()
        invariant
            k <= deletions@.len(),
            ids == deleted_ids(pairs_view(deletions@)),
            ids.len() == deletions@.len(),
            forall|j: int| 0 <= j < k ==> #[trigger] ids[j] != id@,
        decreases deletions.len() - k,
    {
        proof {
            assert(ids[k as int] == deletions@[k as int].0@);
        }
        if str_eq(deletions[k].0.as_str(), id) {
            return true;
        }
        k = k + 1;
    }
    false
}

proof fn lemma_skip_step(a: Seq<Document>, b: Seq<Document>, i: int, k: int)
    requires
        0 <= i < a.len(),
        0 <= k < b.len(),
        a.skip(i) == b.skip(k),
    ensures
        a.skip(i + 1) == b.skip(k + 1),
        a[i] == b[k],
{
    assert(a.skip(i)[0] == b.skip(k)[0]);
    assert(a.skip(i)[0] == a[i]);
    assert(b.skip(k)[0] == b[k]);
    assert(a.skip(i).len() == a.len() - i);
    assert(b.skip(k).len() == b.len() - k);
    assert(a.skip(i).len() == b.skip(k).len());
    assert forall|t: int| 0 <= t < a.skip(i + 1).len() implies #[trigger] a.skip(i + 1)[t] == b.skip(k + 1)[t] by {
        assert(a.skip(i)[t + 1] == b.skip(k)[t + 1]);
        assert(a.skip(i + 1)[t] == a[i + 1 + t]);
        assert(a.skip(i)[t + 1] == a[i + t + 1]);
        assert(b.skip(k + 1)[t] == b[k + 1 + t]);
        assert(b.skip(k)[t + 1] == b[k + t + 1]);
    }
    assert(a.skip(i + 1) =~= b.skip(k + 1));
}

/// Drops from `documents` every document whose id is deleted.
fn drop_deleted_documents(documents: &mut Vec<Document>, deletions: &Vec<(String, String)>)
    ensures
        final(documents)@ == kept_documents(old(documents)@, deleted_ids(pairs_view(deletions@))),
{
    let ghost orig = documents@;
    let ghost ids = deleted_ids(pairs_view(deletions@));
    let mut i: usize = 0;
    let ghost mut k: int = 0;
    proof {
        reveal(Seq::filter);
        assert(orig.take(0) =~= Seq::<Document>::empty());
        assert(documents@.take(0) =~= Seq::<Document>::empty());
        assert(documents@.skip(0) =~= orig.skip(0));
    }
    while i < documents.len()
        invariant
            i <= k <= orig.len(),
            i <= documents@.len(),
            ids == deleted_ids(pairs_view(deletions@)),
            documents@.take(i as int) == orig.take(k).filter(|d: Document| !ids.contains(d.id@)),
            documents@.skip(i as int) == orig.skip(k),
        decreases orig.len() - k,
    {
        proof {
            assert(documents@.skip(i as int).len() == orig.skip(k).len());
        }
        proof {
            reveal(Seq::filter);
            assert(orig.take(k + 1).drop_last() =~= orig.take(k));
            lemma_skip_step(documents@, orig, i as int, k);
        }
        let ghost before = documents@;
        let gone = contains_id(deletions, documents[i].id.as_str());
        if gone {
            documents.remove(i);
            proof {
                assert(documents@.take(i as int) =~= before.take(i as int));
                assert(documents@.skip(i as int) =~= before.skip(i + 1));
            }
        } else {
            proof {
                assert(documents@.take(i + 1) =~= before.take(i as int).push(orig[k]));
            }
            i = i + 1;
        }
        proof {
            k = k + 1;
        }
    }
    proof {
        assert(documents@.skip(i as int).len() == 0);
        assert(k == orig.len());
        assert(orig.take(orig.len() as int) =~= orig);
        assert(documents@.take(i as int) =~= documents@);
    }
}

proof fn lemma_filter_unique(docs: Seq<Document>, p: spec_fn(Document) -> bool)
    requires
        unique_ids(docs),
    ensures
        unique_ids(docs.filter(p)),
    decreases docs.len(),
{
    reveal(Seq::filter);
    if docs.len() > 0 {
        let d0 = docs.drop_last();
        assert(unique_ids(d0)) by {
            assert forall|i: int, j: int| 0 <= i < j < d0.len() implies #[trigger] d0[i].id@ != #[trigger] d0[j].id@ by {
                assert(d0[i] == docs[i] && d0[j] == docs[j]);
            }
        }
        lemma_filter_unique(d0, p);
        let sub = d0.filter(p);
        if p(docs.last()) {
            let f = sub.push(docs.last());
            assert(docs.filter(p) == f);
            assert forall|i: int, j: int| 0 <= i < j < f.len() implies #[trigger] f[i].id@ != #[trigger] f[j].id@ by {
                if j == sub.len() {
                    assert(f[i] == sub[i]);
                    assert(sub.contains(sub[i]));
                    d0.lemma_filter_contains_rev(p, sub[i]);
                    let k = choose|k: int| 0 <= k < d0.len() && d0[k] == sub[i];
                    assert(docs[k] == sub[i]);
                    assert(f[j] == docs[docs.len() - 1]);
                } else {
                    assert(f[i] == sub[i] && f[j] == sub[j]);
                }
            }
        }
    }
}

/// Once the files of a deletion are gone: the node `node_id` is taken out
/// of the hierarchy and every document whose id is among the deleted ones
/// is dropped, so that no later write can bring their files back. Returns
/// the deleted ids in order. An error when no node has that id, with the
/// project left as it was. `deletions` is the plan that
/// `plan_node_deletion` made for this project and node: the documents of
/// the node's subtree, in order.
pub fn delete_node(project: &mut Project, node_id: &str, deletions: &Vec<(String, String)>)
    -> (r: Result<Vec<String>, ChiknError>)
    requires
        match find_in(nodes_view(old(project).hierarchy@), node_id@) {
            Some(n) => pairs_view(deletions@) == deletions_of(n, old(project).documents@),
            None => true,
        },
    ensures
        match find_in(nodes_view(old(project).hierarchy@), node_id@) {
            Some(n) => r matches Ok(ids) && ids@.map_values(|s: String| s@) == deleted_ids(
                deletions_of(n, old(project).documents@),
            ),
            None => r is Err,
        },
        match remove_in(nodes_view(old(project).hierarchy@), node_id@) {
            Some((rest, _)) => r matches Ok(ids) && ids@.map_values(|s: String| s@) == deleted_ids(
                pairs_view(deletions@),
            ) && nodes_view(final(project).hierarchy@) == rest && final(project).documents@
                == kept_documents(old(project).documents@, deleted_ids(pairs_view(deletions@))),
            None => r matches Err(ChiknError::NotFound(m)) && m@ == node_not_found(node_id@)
                && nodes_view(final(project).hierarchy@) == nodes_view(old(project).hierarchy@)
                && final(project).documents@ == old(project).documents@,
        },
        forall|d: Document| #[trigger] final(project).documents@.contains(d) && r is Ok ==> !deleted_ids(
            pairs_view(deletions@),
        ).contains(d.id@),
        unique_ids(old(project).documents@) ==> unique_ids(final(project).documents@),
        final(project).id == old(project).id,
        final(project).name == old(project).name,
        final(project).path == old(project).path,
{
    proof {
        law_remove_takes_out_a_present_node(nodes_view(project.hierarchy@), node_id@);
    }
    match remove_node(&mut project.hierarchy, node_id) {
        Ok(_) => {},
        Err(e) => {
            return Err(e);
        },
    }
    let ghost ids = deleted_ids(pairs_view(deletions@));
    drop_deleted_documents(&mut project.documents, deletions);
    proof {
        let pred = |d: Document| !ids.contains(d.id@);
        assert forall|d: Document| #[trigger] project.documents@.contains(d) implies !ids.contains(d.id@) by {
            let j = choose|j: int| 0 <= j < project.documents@.len() && project.documents@[j] == d;
            old(project).documents@.lemma_filter_pred(pred, j);
        }
        if unique_ids(old(project).documents@) {
            lemma_filter_unique(old(project).documents@, pred);
        }
    }
    let mut out: Vec<String> = Vec::new();
    let mut k: usize = 0;
    while k < deletions.len()
        invariant
            k <= deletions@.len(),
            ids == deleted_ids(pairs_view(deletions@)),
            out@.len() == k,
            out@.map_values(|s: String| s@) == ids.take(k as int),
        decreases deletions.len() - k,
    {
        out.push(deletions[k].0.clone());
        proof {
            assert(out@.map_values(|s: String| s@) =~= ids.take(k + 1));
        }
        k = k + 1;
    }
    proof {
        assert(ids.take(deletions@.len() as int) =~= ids);
    }
    Ok(out)
}

} // verus!
