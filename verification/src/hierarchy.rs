//! Tree operations on the binder hierarchy: add, find, remove, move and
//! reorder nodes.
use vstd::prelude::*;
use vstd::pervasive::VecAdditionalExecFns;

use crate::error::ChiknError;
use crate::models::{TreeNode, NodeView, nodes_view, lemma_nodes_view, lemma_nodes_view_edits};
use crate::text::concat;
use crate::text::str_eq;
use crate::text::{push_decimal, decimal};

verus! {

/// The first node, in depth-first order (a node before its children, earlier
/// siblings before later ones), whose id is `id`.
pub open spec fn find_in(ns: Seq<NodeView>, id: Seq<char>) -> Option<NodeView>
    decreases ns,
{
    if ns.len() == 0 {
        None
    } else if ns[0].id() == id {
        Some(ns[0])
    } else {
        let inner = match ns[0] {
            NodeView::Folder { children, .. } => find_in(children, id),
            NodeView::Document { .. } => None,
        };
        match inner {
            Some(n) => Some(n),
            None => find_in(ns.subrange(1, ns.len() as int), id),
        }
    }
}

/// Finds a node in the hierarchy by id.
pub fn find_node<'a>(hierarchy: &'a [TreeNode], node_id: &str) -> (r: Option<&'a TreeNode>)
    ensures
        match r {
            Some(n) => find_in(nodes_view(hierarchy@), node_id@) == Some(n.node_view()),
            None => find_in(nodes_view(hierarchy@), node_id@) is None,
        },
{
    find_node_recursive(hierarchy, node_id)
}

fn find_node_recursive<'a>(nodes: &'a [TreeNode], node_id: &str) -> (r: Option<&'a TreeNode>)
    ensures
        match r {
            Some(n) => find_in(nodes_view(nodes@), node_id@) == Some(n.node_view()),
            None => find_in(nodes_view(nodes@), node_id@) is None,
        },
    decreases nodes_view(nodes@),
{
    let ghost v = nodes_view(nodes@);
    proof {
        lemma_nodes_view(nodes@);
        assert(v.subrange(0, v.len() as int) =~= v);
    }
    let mut i: usize = 0;
    while i < nodes.len()
        invariant
            0 <= i <= nodes.len(),
            v == nodes_view(nodes@),
            v.len() == nodes@.len(),
            forall|k: int| 0 <= k < nodes@.len() ==> #[trigger] v[k] == nodes@[k].node_view(),
            find_in(v, node_id@) == find_in(v.subrange(i as int, v.len() as int), node_id@),
        decreases nodes.len() - i,
    {
        let node = &nodes[i];
        let ghost tail = v.subrange(i as int, v.len() as int);
        assert(tail[0] == node.node_view());
        assert(tail.subrange(1, tail.len() as int) =~= v.subrange(i + 1, v.len() as int));
        if str_eq(node.id(), node_id) {
            return Some(node);
        }
        match node {
            TreeNode::Folder { children, .. } => {
                let kids = children.as_slice();
                proof {
                    assert(decreases_to!(v => v[i as int]));
                }
                let found = find_node_recursive(kids, node_id);
                if found.is_some() {
                    return found;
                }
            },
            TreeNode::Document { .. } => {},
        }
        i = i + 1;
    }
    None
}

/// Index of the first node of `ns` (top level only) whose id is `target`.
pub open spec fn position_of(ns: Seq<NodeView>, target: Seq<char>) -> Option<int>
    decreases ns.len(),
{
    if ns.len() == 0 {
        None
    } else if ns[0].id() == target {
        Some(0)
    } else {
        match position_of(ns.subrange(1, ns.len() as int), target) {
            Some(k) => Some(k + 1),
            None => None,
        }
    }
}

pub proof fn lemma_position_of(ns: Seq<NodeView>, target: Seq<char>, k: int)
    requires
        0 <= k <= ns.len(),
        forall|j: int| 0 <= j < k ==> #[trigger] ns[j].id() != target,
    ensures
        k < ns.len() && ns[k].id() == target ==> position_of(ns, target) == Some(k),
        k == ns.len() ==> position_of(ns, target) is None,
    decreases k,
{
    if k > 0 {
        let rest = ns.subrange(1, ns.len() as int);
        assert forall|j: int| 0 <= j < k - 1 implies #[trigger] rest[j].id() != target by {
            assert(rest[j] == ns[j + 1]);
        }
        lemma_position_of(rest, target, k - 1);
        if k < ns.len() {
            assert(rest[k - 1] == ns[k]);
        }
    }
}

/// Prepends `prefix` to the remaining sequence of a successful removal.
pub open spec fn after_prefix(prefix: Seq<NodeView>, r: Option<(Seq<NodeView>, NodeView)>) -> Option<(Seq<NodeView>, NodeView)> {
    match r {
        Some((rest, n)) => Some((prefix + rest, n)),
        None => None,
    }
}

/// Removal of the node `target` from a node sequence: a match at the top
/// level wins (the first one); otherwise the first folder, in order, whose
/// subtree holds it loses it there. `None` when no node has that id.
pub open spec fn remove_in(ns: Seq<NodeView>, target: Seq<char>) -> Option<(Seq<NodeView>, NodeView)>
    decreases ns, 1int,
{
    match position_of(ns, target) {
        Some(k) => Some((ns.remove(k), ns[k])),
        None => remove_nested(ns, target),
    }
}

/// Removal of `target` from the subtrees of the folders of `ns`, the first
/// folder that holds it first.
pub open spec fn remove_nested(ns: Seq<NodeView>, target: Seq<char>) -> Option<(Seq<NodeView>, NodeView)>
    decreases ns, 0int,
{
    if ns.len() == 0 {
        None
    } else {
        let rest = ns.subrange(1, ns.len() as int);
        let here = match ns[0] {
            NodeView::Folder { id, name, children } => match remove_in(children, target) {
                Some((c2, n)) => Some((seq![NodeView::Folder { id, name, children: c2 }] + rest, n)),
                None => None,
            },
            NodeView::Document { .. } => None,
        };
        match here {
            Some(x) => Some(x),
            None => after_prefix(seq![ns[0]], remove_nested(rest, target)),
        }
    }
}

/// Removes a node from the hierarchy by id and returns it.
pub fn remove_node(hierarchy: &mut Vec<TreeNode>, node_id: &str) -> (r: Result<TreeNode, ChiknError>)
    ensures
        match remove_in(nodes_view(old(hierarchy)@), node_id@) {
            Some((rest, n)) => r matches Ok(x) && x.node_view() == n && nodes_view(final(hierarchy)@) == rest,
            None => r matches Err(ChiknError::NotFound(m)) && m@ == "Node not found: "@ + node_id@
                && nodes_view(final(hierarchy)@) == nodes_view(old(hierarchy)@),
        },
{
    remove_node_recursive(hierarchy, node_id)
}

/// A placeholder node used while a node is temporarily taken out of a vector.
fn placeholder() -> (r: TreeNode)
    ensures
        r.node_view() == (NodeView::Document { id: Seq::empty(), name: Seq::empty(), path: Seq::empty() }),
{
    TreeNode::Document { id: String::new(), name: String::new(), path: String::new() }
}

fn remove_node_recursive(nodes: &mut Vec<TreeNode>, node_id: &str) -> (r: Result<TreeNode, ChiknError>)
    ensures
        match remove_in(nodes_view(old(nodes)@), node_id@) {
            Some((rest, n)) => r matches Ok(x) && x.node_view() == n && nodes_view(final(nodes)@) == rest,
            None => r matches Err(ChiknError::NotFound(m)) && m@ == "Node not found: "@ + node_id@
                && nodes_view(final(nodes)@) == nodes_view(old(nodes)@),
        },
    decreases nodes_view(old(nodes)@),
{
    let ghost v = nodes_view(nodes@);
    proof {
        lemma_nodes_view(nodes@);
    }
    let mut k: usize = 0;
    while k < nodes.len()
        invariant
            0 <= k <= nodes.len(),
            v == nodes_view(nodes@),
            v == nodes_view(old(nodes)@),
            v.len() == nodes@.len(),
            forall|q: int| 0 <= q < nodes@.len() ==> #[trigger] v[q] == nodes@[q].node_view(),
            forall|j: int| 0 <= j < k ==> #[trigger] v[j].id() != node_id@,
        decreases nodes.len() - k,
    {
        if str_eq(nodes[k].id(), node_id) {
            proof {
                lemma_position_of(v, node_id@, k as int);
                lemma_nodes_view_edits(nodes@);
            }
            let ghost before = nodes@;
            let removed = nodes.remove(k);
            proof {
                assert(position_of(v, node_id@) == Some(k as int));
                assert(removed.node_view() == v[k as int]);
                assert(nodes@ == before.remove(k as int));
                assert(nodes_view(nodes@) == v.remove(k as int));
                assert(remove_in(v, node_id@) == Some((v.remove(k as int), v[k as int])));
                assert(v == nodes_view(old(nodes)@));
            }
            return Ok(removed);
        }
        k = k + 1;
    }
    proof {
        lemma_position_of(v, node_id@, k as int);
        assert(v.subrange(0, 0) + v.subrange(0, v.len() as int) =~= v);
    }
    let mut i: usize = 0;
    while i < nodes.len()
        invariant
            0 <= i <= nodes.len(),
            v == nodes_view(nodes@),
            v == nodes_view(old(nodes)@),
            v.len() == nodes@.len(),
            forall|q: int| 0 <= q < nodes@.len() ==> #[trigger] v[q] == nodes@[q].node_view(),
            position_of(v, node_id@) is None,
            remove_nested(v, node_id@) == after_prefix(v.subrange(0, i as int), remove_nested(v.subrange(i as int, v.len() as int), node_id@)),
        decreases nodes.len() - i,
    {
        let ghost tail = v.subrange(i as int, v.len() as int);
        assert(tail[0] == v[i as int]);
        assert(tail.subrange(1, tail.len() as int) =~= v.subrange(i + 1, v.len() as int));
        let mut taken = placeholder();
        nodes.set_and_swap(i, &mut taken);
        match taken {
            TreeNode::Folder { id, name, mut children } => {
                proof {
                    assert(decreases_to!(v => v[i as int]));
                    assert(v[i as int] == NodeView::Folder { id: id@, name: name@, children: nodes_view(children@) });
                }
                let res = remove_node_recursive(&mut children, node_id);
                let ghost before = nodes@;
                nodes.set(i, TreeNode::Folder { id, name, children });
                proof {
                    lemma_nodes_view_edits(before);
                    lemma_nodes_view(nodes@);
                }
                match res {
                    Ok(n) => {
                        proof {
                            assert(v.subrange(0, i as int) + (seq![nodes@[i as int].node_view()] + v.subrange(i + 1, v.len() as int)) =~= nodes_view(nodes@));
                        }
                        return Ok(n);
                    },
                    Err(_) => {
                        proof {
                            assert(nodes_view(nodes@) =~= v);
                        }
                    },
                }
            },
            other => {
                let ghost before = nodes@;
                nodes.set(i, other);
                proof {
                    lemma_nodes_view_edits(before);
                    lemma_nodes_view(nodes@);
                    assert(nodes_view(nodes@) =~= v);
                }
            },
        }
        proof {
            assert(v.subrange(0, i as int) + seq![v[i as int]] =~= v.subrange(0, i + 1));
        }
        i = i + 1;
    }
    Err(ChiknError::NotFound(concat("Node not found: ", node_id)))
}

/// Why a node could not be added under a parent.
pub enum AddFailure {
    /// No node with the parent id was found where the search looked.
    ParentMissing,
    /// The parent id names a document at the level being searched.
    ParentIsDocument,
}

/// `first` followed by a successful result; failures pass through.
pub open spec fn prepend_ok<E>(first: Seq<NodeView>, r: Result<Seq<NodeView>, E>) -> Result<Seq<NodeView>, E> {
    match r {
        Ok(s) => Ok(first + s),
        Err(e) => Err(e),
    }
}

proof fn lemma_prepend_ok_assoc<E>(a: Seq<NodeView>, b: Seq<NodeView>, r: Result<Seq<NodeView>, E>)
    ensures
        prepend_ok(a, prepend_ok(b, r)) == prepend_ok(a + b, r),
{
    match r {
        Ok(s) => {
            assert(a + (b + s) =~= (a + b) + s);
        },
        Err(_) => {},
    }
}

/// Adding `child` under the folder `parent`, searching the nodes in order: a
/// folder with that id receives the child at the end of its children; a
/// document with that id stops the search at this level with
/// `ParentIsDocument`, at whatever depth that document is found; otherwise a
/// folder's subtree is searched before the following siblings (when the
/// parent is not in the subtree, the search goes on with the next sibling).
pub open spec fn add_child_in(ns: Seq<NodeView>, parent: Seq<char>, child: NodeView) -> Result<Seq<NodeView>, AddFailure>
    decreases ns,
{
    if ns.len() == 0 {
        Err(AddFailure::ParentMissing)
    } else {
        let rest = ns.subrange(1, ns.len() as int);
        match ns[0] {
            NodeView::Folder { id, name, children } => if id == parent {
                Ok(seq![NodeView::Folder { id, name, children: children.push(child) }] + rest)
            } else {
                match add_child_in(children, parent, child) {
                    Ok(c2) => Ok(seq![NodeView::Folder { id, name, children: c2 }] + rest),
                    Err(AddFailure::ParentIsDocument) => Err(AddFailure::ParentIsDocument),
                    Err(AddFailure::ParentMissing) => prepend_ok(seq![ns[0]], add_child_in(rest, parent, child)),
                }
            },
            NodeView::Document { id, .. } => if id == parent {
                Err(AddFailure::ParentIsDocument)
            } else {
                prepend_ok(seq![ns[0]], add_child_in(rest, parent, child))
            },
        }
    }
}

/// The error that `add_child_to_folder` reports for a failure.
pub open spec fn add_failure_error(f: AddFailure, parent: Seq<char>, e: ChiknError) -> bool {
    match f {
        AddFailure::ParentMissing => e matches ChiknError::NotFound(m) && m@ == "Parent folder not found: "@ + parent,
        AddFailure::ParentIsDocument => e matches ChiknError::InvalidFormat(m)
            && m@ == "Cannot add child to a document (only folders can have children)"@,
    }
}

/// Adds a document or folder to the hierarchy at the root level.
pub fn add_document_to_hierarchy(hierarchy: &mut Vec<TreeNode>, node: TreeNode)
    ensures
        nodes_view(final(hierarchy)@) == nodes_view(old(hierarchy)@).push(node.node_view()),
{
    proof {
        lemma_nodes_view_edits(hierarchy@);
    }
    hierarchy.push(node);
}

/// Adds a document or folder as the last child of the folder `parent_id`.
pub fn add_child_to_folder(hierarchy: &mut Vec<TreeNode>, parent_id: &str, node: TreeNode) -> (r: Result<(), ChiknError>)
    ensures
        match add_child_in(nodes_view(old(hierarchy)@), parent_id@, node.node_view()) {
            Ok(s) => r is Ok && nodes_view(final(hierarchy)@) == s,
            Err(f) => r matches Err(e) && add_failure_error(f, parent_id@, e)
                && nodes_view(final(hierarchy)@) == nodes_view(old(hierarchy)@),
        },
{
    match find_and_add_child(hierarchy, parent_id, node) {
        Ok(()) => Ok(()),
        Err((e, _)) => Err(e),
    }
}

/// On failure the child is handed back unchanged, so the search can go on
/// with the next sibling.
fn find_and_add_child(nodes: &mut Vec<TreeNode>, parent_id: &str, child: TreeNode) -> (r: Result<(), (ChiknError, TreeNode)>)
    ensures
        match add_child_in(nodes_view(old(nodes)@), parent_id@, child.node_view()) {
            Ok(s) => r is Ok && nodes_view(final(nodes)@) == s,
            Err(f) => r matches Err((e, back)) && add_failure_error(f, parent_id@, e) && back == child
                && nodes_view(final(nodes)@) == nodes_view(old(nodes)@),
        },
    decreases nodes_view(old(nodes)@),
{
    let ghost v = nodes_view(nodes@);
    let ghost cv = child.node_view();
    let ghost orig_child = child;
    let mut pending = child;
    proof {
        lemma_nodes_view(nodes@);
        assert(v.subrange(0, 0) + v.subrange(0, v.len() as int) =~= v);
    }
    let mut i: usize = 0;
    while i < nodes.len()
        invariant
            0 <= i <= nodes.len(),
            v == nodes_view(nodes@),
            v == nodes_view(old(nodes)@),
            v.len() == nodes@.len(),
            forall|q: int| 0 <= q < nodes@.len() ==> #[trigger] v[q] == nodes@[q].node_view(),
            pending == orig_child,
            orig_child == child,
            cv == pending.node_view(),
            add_child_in(v, parent_id@, cv) == prepend_ok(v.subrange(0, i as int), add_child_in(v.subrange(i as int, v.len() as int), parent_id@, cv)),
        decreases nodes.len() - i,
    {
        let ghost tail = v.subrange(i as int, v.len() as int);
        assert(tail[0] == v[i as int]);
        assert(tail.subrange(1, tail.len() as int) =~= v.subrange(i + 1, v.len() as int));
        let mut taken = placeholder();
        nodes.set_and_swap(i, &mut taken);
        let ghost before = nodes@;
        proof {
            lemma_nodes_view_edits(before);
        }
        match taken {
            TreeNode::Folder { id, name, mut children } => {
                proof {
                    assert(decreases_to!(v => v[i as int]));
                    assert(v[i as int] == NodeView::Folder { id: id@, name: name@, children: nodes_view(children@) });
                    lemma_nodes_view_edits(children@);
                }
                if str_eq(id.as_str(), parent_id) {
                    let ghost old_kids = children@;
                    children.push(pending);
                    let ghost newv = NodeView::Folder { id: id@, name: name@, children: nodes_view(old_kids).push(cv) };
                    assert(children@ == old_kids.push(orig_child));
                    assert(nodes_view(children@) == nodes_view(old_kids).push(cv));
                    nodes.set(i, TreeNode::Folder { id, name, children });
                    proof {
                        lemma_nodes_view(nodes@);
                        assert(nodes@[i as int].node_view() == newv);
                        assert(add_child_in(tail, parent_id@, cv) == Ok::<Seq<NodeView>, AddFailure>(seq![newv] + tail.subrange(1, tail.len() as int)));
                        assert(v.subrange(0, i as int) + (seq![nodes@[i as int].node_view()] + v.subrange(i + 1, v.len() as int)) =~= nodes_view(nodes@));
                        assert(add_child_in(v, parent_id@, cv) == Ok::<Seq<NodeView>, AddFailure>(nodes_view(nodes@)));
                        assert(cv == orig_child.node_view());
                        assert(v == nodes_view(old(nodes)@));
                        assert(orig_child == child);
                        assert(add_child_in(nodes_view(old(nodes)@), parent_id@, child.node_view()) == Ok::<Seq<NodeView>, AddFailure>(nodes_view(nodes@)));
                    }
                    return Ok(());
                }
                let ghost kids_before = children@;
                let res = find_and_add_child(&mut children, parent_id, pending);
                nodes.set(i, TreeNode::Folder { id, name, children });
                proof {
                    lemma_nodes_view(nodes@);
                }
                match res {
                    Ok(()) => {
                        proof {
                            assert(v.subrange(0, i as int) + (seq![nodes@[i as int].node_view()] + v.subrange(i + 1, v.len() as int)) =~= nodes_view(nodes@));
                        }
                        return Ok(());
                    },
                    Err((e, back)) => {
                        pending = back;
                        proof {
                            assert(nodes_view(nodes@) =~= v);
                        }
                        if let ChiknError::InvalidFormat(_) = &e {
                            proof {
                                assert(add_child_in(nodes_view(kids_before), parent_id@, cv)
                                    == Err::<Seq<NodeView>, AddFailure>(AddFailure::ParentIsDocument));
                                assert(add_child_in(tail, parent_id@, cv)
                                    == Err::<Seq<NodeView>, AddFailure>(AddFailure::ParentIsDocument));
                            }
                            return Err((e, pending));
                        }
                        proof {
                            assert(add_child_in(nodes_view(kids_before), parent_id@, cv)
                                == Err::<Seq<NodeView>, AddFailure>(AddFailure::ParentMissing));
                            assert(add_child_in(tail, parent_id@, cv) == prepend_ok(seq![v[i as int]], add_child_in(v.subrange(i + 1, v.len() as int), parent_id@, cv)));
                        }
                    },
                }
            },
            TreeNode::Document { id, name, path } => {
                let is_parent = str_eq(id.as_str(), parent_id);
                nodes.set(i, TreeNode::Document { id, name, path });
                proof {
                    lemma_nodes_view(nodes@);
                    assert(nodes_view(nodes@) =~= v);
                }
                if is_parent {
                    let e = ChiknError::InvalidFormat(
                        crate::text::owned("Cannot add child to a document (only folders can have children)"),
                    );
                    proof {
                        assert(add_child_in(tail, parent_id@, cv) == Err::<Seq<NodeView>, AddFailure>(AddFailure::ParentIsDocument));
                    }
                    return Err((e, pending));
                }
                proof {
                    assert(add_child_in(tail, parent_id@, cv) == prepend_ok(seq![v[i as int]], add_child_in(v.subrange(i + 1, v.len() as int), parent_id@, cv)));
                }
            },
        }
        proof {
            assert(v.subrange(0, i as int) + seq![v[i as int]] =~= v.subrange(0, i + 1));
            lemma_prepend_ok_assoc(v.subrange(0, i as int), seq![v[i as int]], add_child_in(v.subrange(i + 1, v.len() as int), parent_id@, cv));
        }
        i = i + 1;
    }
    proof {
        assert(v.subrange(v.len() as int, v.len() as int).len() == 0);
    }
    Err((ChiknError::NotFound(concat("Parent folder not found: ", parent_id)), pending))
}

/// Moves a node to the root (`new_parent_id` is `None`) or to the end of the
/// children of the folder `new_parent_id`. The node is first taken out of
/// the tree as `remove_node` does; when the new parent cannot take it, the
/// error is returned and the node stays out of the tree.
pub fn move_node(hierarchy: &mut Vec<TreeNode>, node_id: &str, new_parent_id: Option<&str>) -> (r: Result<(), ChiknError>)
    ensures
        match remove_in(nodes_view(old(hierarchy)@), node_id@) {
            None => r matches Err(ChiknError::NotFound(m)) && m@ == "Node not found: "@ + node_id@
                && nodes_view(final(hierarchy)@) == nodes_view(old(hierarchy)@),
            Some((rest, n)) => match new_parent_id {
                None => r is Ok && nodes_view(final(hierarchy)@) == rest.push(n),
                Some(p) => match add_child_in(rest, p@, n) {
                    Ok(s) => r is Ok && nodes_view(final(hierarchy)@) == s,
                    Err(f) => r matches Err(e) && add_failure_error(f, p@, e)
                        && nodes_view(final(hierarchy)@) == rest,
                },
            },
        },
{
    let node = match remove_node(hierarchy, node_id) {
        Ok(n) => n,
        Err(e) => {
            return Err(e);
        },
    };
    match new_parent_id {
        None => {
            add_document_to_hierarchy(hierarchy, node);
            Ok(())
        },
        Some(parent_id) => add_child_to_folder(hierarchy, parent_id, node),
    }
}

/// `first` in front of a successful result.
pub open spec fn prepend_some(first: Seq<NodeView>, r: Option<Seq<NodeView>>) -> Option<Seq<NodeView>> {
    match r {
        Some(s) => Some(first + s),
        None => None,
    }
}

/// Moving the node `target` to position `index` among its siblings. The
/// node is looked for at the top level first; there the index must be below
/// the number of siblings. Otherwise the folders are tried in order, and the
/// first one whose subtree can do the move does it. `None` when no level
/// holding the node accepts the index.
pub open spec fn reorder_in(ns: Seq<NodeView>, target: Seq<char>, index: nat) -> Option<Seq<NodeView>>
    decreases ns, 1int,
{
    match position_of(ns, target) {
        Some(k) => if index < ns.len() {
            Some(ns.remove(k).insert(index as int, ns[k]))
        } else {
            None
        },
        None => reorder_nested(ns, target, index),
    }
}

/// The reorder tried in the subtrees of the folders of `ns`, in order.
pub open spec fn reorder_nested(ns: Seq<NodeView>, target: Seq<char>, index: nat) -> Option<Seq<NodeView>>
    decreases ns, 0int,
{
    if ns.len() == 0 {
        None
    } else {
        let rest = ns.subrange(1, ns.len() as int);
        let here = match ns[0] {
            NodeView::Folder { id, name, children } => match reorder_in(children, target, index) {
                Some(c2) => Some(seq![NodeView::Folder { id, name, children: c2 }] + rest),
                None => None,
            },
            NodeView::Document { .. } => None,
        };
        match here {
            Some(x) => Some(x),
            None => prepend_some(seq![ns[0]], reorder_nested(rest, target, index)),
        }
    }
}

/// The message of a rejected reorder index.
pub open spec fn index_out_of_bounds_message(index: nat, len: nat) -> Seq<char> {
    "Index out of bounds: "@ + decimal(index) + " (max: "@ + decimal((len - 1) as nat) + ")"@
}

/// What `reorder_node` reports when `reorder_in` has no result.
pub open spec fn reorder_error(ns: Seq<NodeView>, target: Seq<char>, index: nat, e: ChiknError) -> bool {
    if position_of(ns, target) is Some {
        e matches ChiknError::InvalidFormat(m) && m@ == index_out_of_bounds_message(index, ns.len())
    } else {
        e matches ChiknError::NotFound(m) && m@ == "Node not found: "@ + target
    }
}

/// Moves a node to position `new_index` within its current parent.
pub fn reorder_node(hierarchy: &mut Vec<TreeNode>, node_id: &str, new_index: usize) -> (r: Result<(), ChiknError>)
    ensures
        match reorder_in(nodes_view(old(hierarchy)@), node_id@, new_index as nat) {
            Some(s) => r is Ok && nodes_view(final(hierarchy)@) == s,
            None => r matches Err(e) && reorder_error(nodes_view(old(hierarchy)@), node_id@, new_index as nat, e)
                && nodes_view(final(hierarchy)@) == nodes_view(old(hierarchy)@),
        },
{
    reorder_node_recursive(hierarchy, node_id, new_index)
}

fn out_of_bounds_message(index: usize, len: usize) -> (m: String)
    requires
        len > 0,
    ensures
        m@ == index_out_of_bounds_message(index as nat, len as nat),
{
    let mut m = crate::text::owned("Index out of bounds: ");
    push_decimal(&mut m, index);
    m.append(" (max: ");
    push_decimal(&mut m, len - 1);
    m.append(")");
    m
}

fn reorder_node_recursive(nodes: &mut Vec<TreeNode>, node_id: &str, new_index: usize) -> (r: Result<(), ChiknError>)
    ensures
        match reorder_in(nodes_view(old(nodes)@), node_id@, new_index as nat) {
            Some(s) => r is Ok && nodes_view(final(nodes)@) == s,
            None => r matches Err(e) && reorder_error(nodes_view(old(nodes)@), node_id@, new_index as nat, e)
                && nodes_view(final(nodes)@) == nodes_view(old(nodes)@),
        },
    decreases nodes_view(old(nodes)@),
{
    let ghost v = nodes_view(nodes@);
    proof {
        lemma_nodes_view(nodes@);
    }
    let mut k: usize = 0;
    while k < nodes.len()
        invariant
            0 <= k <= nodes.len(),
            v == nodes_view(nodes@),
            v == nodes_view(old(nodes)@),
            v.len() == nodes@.len(),
            forall|q: int| 0 <= q < nodes@.len() ==> #[trigger] v[q] == nodes@[q].node_view(),
            forall|j: int| 0 <= j < k ==> #[trigger] v[j].id() != node_id@,
        decreases nodes.len() - k,
    {
        if str_eq(nodes[k].id(), node_id) {
            proof {
                lemma_position_of(v, node_id@, k as int);
            }
            if new_index >= nodes.len() {
                let m = out_of_bounds_message(new_index, nodes.len());
                return Err(ChiknError::InvalidFormat(m));
            }
            let ghost before = nodes@;
            let node = nodes.remove(k);
            proof {
                lemma_nodes_view_edits(before);
            }
            let ghost middle = nodes@;
            nodes.insert(new_index, node);
            proof {
                lemma_nodes_view_edits(middle);
                assert(nodes_view(middle) == v.remove(k as int));
                assert(node.node_view() == v[k as int]);
            }
            return Ok(());
        }
        k = k + 1;
    }
    proof {
        lemma_position_of(v, node_id@, k as int);
        assert(v.subrange(0, 0) + v.subrange(0, v.len() as int) =~= v);
    }
    let mut i: usize = 0;
    while i < nodes.len()
        invariant
            0 <= i <= nodes.len(),
            v == nodes_view(nodes@),
            v == nodes_view(old(nodes)@),
            v.len() == nodes@.len(),
            forall|q: int| 0 <= q < nodes@.len() ==> #[trigger] v[q] == nodes@[q].node_view(),
            position_of(v, node_id@) is None,
            reorder_nested(v, node_id@, new_index as nat) == prepend_some(v.subrange(0, i as int), reorder_nested(v.subrange(i as int, v.len() as int), node_id@, new_index as nat)),
        decreases nodes.len() - i,
    {
        let ghost tail = v.subrange(i as int, v.len() as int);
        assert(tail[0] == v[i as int]);
        assert(tail.subrange(1, tail.len() as int) =~= v.subrange(i + 1, v.len() as int));
        let mut taken = placeholder();
        nodes.set_and_swap(i, &mut taken);
        let ghost before = nodes@;
        proof {
            lemma_nodes_view_edits(before);
        }
        match taken {
            TreeNode::Folder { id, name, mut children } => {
                proof {
                    assert(decreases_to!(v => v[i as int]));
                    assert(v[i as int] == NodeView::Folder { id: id@, name: name@, children: nodes_view(children@) });
                }
                let ghost kids_before = children@;
                let res = reorder_node_recursive(&mut children, node_id, new_index);
                nodes.set(i, TreeNode::Folder { id, name, children });
                proof {
                    lemma_nodes_view(nodes@);
                }
                if res.is_ok() {
                    proof {
                        assert(v.subrange(0, i as int) + (seq![nodes@[i as int].node_view()] + v.subrange(i + 1, v.len() as int)) =~= nodes_view(nodes@));
                    }
                    return Ok(());
                }
                proof {
                    assert(nodes_view(nodes@) =~= v);
                    assert(reorder_in(nodes_view(kids_before), node_id@, new_index as nat) is None);
                }
            },
            other => {
                nodes.set(i, other);
                proof {
                    lemma_nodes_view(nodes@);
                    assert(nodes_view(nodes@) =~= v);
                }
            },
        }
        proof {
            assert(reorder_nested(tail, node_id@, new_index as nat) == prepend_some(seq![v[i as int]], reorder_nested(v.subrange(i + 1, v.len() as int), node_id@, new_index as nat)));
            assert(v.subrange(0, i as int) + seq![v[i as int]] =~= v.subrange(0, i + 1));
            lemma_prepend_some_assoc(v.subrange(0, i as int), seq![v[i as int]], reorder_nested(v.subrange(i + 1, v.len() as int), node_id@, new_index as nat));
        }
        i = i + 1;
    }
    proof {
        assert(v.subrange(v.len() as int, v.len() as int).len() == 0);
    }
    Err(ChiknError::NotFound(concat("Node not found: ", node_id)))
}

proof fn lemma_prepend_some_assoc(a: Seq<NodeView>, b: Seq<NodeView>, r: Option<Seq<NodeView>>)
    ensures
        prepend_some(a, prepend_some(b, r)) == prepend_some(a + b, r),
{
    match r {
        Some(s) => {
            assert(a + (b + s) =~= (a + b) + s);
        },
        None => {},
    }
}

} // verus!
