//! What the tree operations keep: the ids held by the tree, counted with
//! multiplicity, and what a search finds.
use vstd::prelude::*;
use vstd::multiset::Multiset;

use crate::models::NodeView;
use crate::hierarchy::{find_in, position_of, remove_in, remove_nested, add_child_in, AddFailure, reorder_in, reorder_nested};

verus! {

broadcast use vstd::multiset::group_multiset_axioms;

/// The ids of a node and of everything below it.
pub open spec fn node_ids(n: NodeView) -> Multiset<Seq<char>>
    decreases n,
{
    match n {
        NodeView::Folder { id, children, .. } => Multiset::singleton(id).add(tree_ids(children)),
        NodeView::Document { id, .. } => Multiset::singleton(id),
    }
}

/// The ids of all nodes of a forest.
pub open spec fn tree_ids(ns: Seq<NodeView>) -> Multiset<Seq<char>>
    decreases ns,
{
    if ns.len() == 0 {
        Multiset::empty()
    } else {
        node_ids(ns[0]).add(tree_ids(ns.subrange(1, ns.len() as int)))
    }
}

proof fn lemma_tree_ids_cons(ns: Seq<NodeView>)
    requires
        ns.len() > 0,
    ensures
        tree_ids(ns) == node_ids(ns[0]).add(tree_ids(ns.subrange(1, ns.len() as int))),
        node_ids(ns[0]) == match ns[0] {
            NodeView::Folder { id, children, .. } => Multiset::singleton(id).add(tree_ids(children)),
            NodeView::Document { id, .. } => Multiset::singleton(id),
        },
{
}

proof fn lemma_node_ids_folder(id: Seq<char>, name: Seq<char>, children: Seq<NodeView>)
    ensures
        node_ids(NodeView::Folder { id, name, children }) == Multiset::singleton(id).add(tree_ids(children)),
{
}

proof fn lemma_tree_ids_single(x: NodeView)
    ensures
        tree_ids(seq![x]) == node_ids(x),
{
    let e = seq![x].subrange(1, 1);
    assert(e =~= Seq::<NodeView>::empty());
    assert(tree_ids(e) == Multiset::<Seq<char>>::empty());
    lemma_tree_ids_cons(seq![x]);
    assert(seq![x][0] == x);
    assert(tree_ids(seq![x]) =~= node_ids(x));
}

proof fn lemma_tree_ids_concat(a: Seq<NodeView>, b: Seq<NodeView>)
    ensures
        tree_ids(a + b) == tree_ids(a).add(tree_ids(b)),
    decreases a.len(),
{
    if a.len() == 0 {
        assert(a + b =~= b);
        assert(tree_ids(a + b) =~= tree_ids(a).add(tree_ids(b)));
    } else {
        let rest = a.subrange(1, a.len() as int);
        lemma_tree_ids_concat(rest, b);
        assert((a + b).subrange(1, (a + b).len() as int) =~= rest + b);
        assert((a + b)[0] == a[0]);
        assert(tree_ids(a + b) =~= tree_ids(a).add(tree_ids(b)));
    }
}

proof fn lemma_tree_ids_remove(s: Seq<NodeView>, k: int)
    requires
        0 <= k < s.len(),
    ensures
        tree_ids(s) == tree_ids(s.remove(k)).add(node_ids(s[k])),
{
    let pre = s.subrange(0, k);
    let post = s.subrange(k + 1, s.len() as int);
    assert(s =~= pre + (seq![s[k]] + post));
    assert(s.remove(k) =~= pre + post);
    lemma_tree_ids_concat(pre, seq![s[k]] + post);
    lemma_tree_ids_concat(seq![s[k]], post);
    lemma_tree_ids_concat(pre, post);
    lemma_tree_ids_single(s[k]);
    assert(tree_ids(s) =~= tree_ids(s.remove(k)).add(node_ids(s[k])));
}

proof fn lemma_tree_ids_insert(s: Seq<NodeView>, k: int, x: NodeView)
    requires
        0 <= k <= s.len(),
    ensures
        tree_ids(s.insert(k, x)) == tree_ids(s).add(node_ids(x)),
{
    let t = s.insert(k, x);
    assert(t[k] == x);
    assert(t.remove(k) =~= s);
    lemma_tree_ids_remove(t, k);
}

proof fn lemma_tree_ids_push(s: Seq<NodeView>, x: NodeView)
    ensures
        tree_ids(s.push(x)) == tree_ids(s).add(node_ids(x)),
{
    assert(s.push(x) =~= s.insert(s.len() as int, x));
    lemma_tree_ids_insert(s, s.len() as int, x);
}

proof fn lemma_position_present(ns: Seq<NodeView>, t: Seq<char>)
    ensures
        match position_of(ns, t) {
            Some(k) => 0 <= k < ns.len() && ns[k].id() == t,
            None => forall|j: int| 0 <= j < ns.len() ==> #[trigger] ns[j].id() != t,
        },
    decreases ns.len(),
{
    if ns.len() > 0 {
        let rest = ns.subrange(1, ns.len() as int);
        lemma_position_present(rest, t);
        if ns[0].id() != t {
            match position_of(rest, t) {
                Some(k) => {
                    assert(rest[k] == ns[k + 1]);
                },
                None => {
                    assert forall|j: int| 0 <= j < ns.len() implies #[trigger] ns[j].id() != t by {
                        if j > 0 {
                            assert(rest[j - 1] == ns[j]);
                        }
                    }
                },
            }
        }
    }
}

proof fn lemma_node_holds_own_id(n: NodeView)
    ensures
        node_ids(n).count(n.id()) > 0,
{
}

/// A search succeeds exactly on the ids that occur in the forest, and what
/// it finds carries the id searched for.
proof fn lemma_find_present(ns: Seq<NodeView>, t: Seq<char>)
    ensures
        (find_in(ns, t) is Some) == (tree_ids(ns).count(t) > 0),
        find_in(ns, t) matches Some(n) ==> n.id() == t,
    decreases ns,
{
    if ns.len() > 0 {
        let rest = ns.subrange(1, ns.len() as int);
        lemma_tree_ids_cons(ns);
        lemma_find_present(rest, t);
        match ns[0] {
            NodeView::Folder { id, children, .. } => {
                assert(decreases_to!(ns => ns[0]));
                lemma_find_present(children, t);
            },
            NodeView::Document { .. } => {},
        }
    }
}

/// Removal succeeds exactly when the id occurs; the removed subtree carries
/// that id, and its ids together with those left make up the ids before.
proof fn lemma_remove_ids(ns: Seq<NodeView>, t: Seq<char>)
    ensures
        (remove_in(ns, t) is Some) == (tree_ids(ns).count(t) > 0),
        remove_in(ns, t) matches Some((rest, n)) ==> n.id() == t && tree_ids(ns) == tree_ids(rest).add(node_ids(n)),
    decreases ns, 1int,
{
    lemma_position_present(ns, t);
    match position_of(ns, t) {
        Some(k) => {
            lemma_tree_ids_remove(ns, k);
            lemma_node_holds_own_id(ns[k]);
        },
        None => {
            lemma_remove_nested_ids(ns, t);
        },
    }
}

proof fn lemma_remove_nested_ids(ns: Seq<NodeView>, t: Seq<char>)
    requires
        forall|j: int| 0 <= j < ns.len() ==> #[trigger] ns[j].id() != t,
    ensures
        (remove_nested(ns, t) is Some) == (tree_ids(ns).count(t) > 0),
        remove_nested(ns, t) matches Some((rest, n)) ==> n.id() == t && tree_ids(ns) == tree_ids(rest).add(node_ids(n)),
    decreases ns, 0int,
{
    if ns.len() > 0 {
        let rest = ns.subrange(1, ns.len() as int);
        lemma_tree_ids_cons(ns);
        assert forall|j: int| 0 <= j < rest.len() implies #[trigger] rest[j].id() != t by {
            assert(rest[j] == ns[j + 1]);
        }
        lemma_remove_nested_ids(rest, t);
        assert(ns[0].id() != t);
        match ns[0] {
            NodeView::Folder { id, name, children } => {
                assert(decreases_to!(ns => ns[0]));
                lemma_remove_ids(children, t);
                match remove_in(children, t) {
                    Some((c2, n)) => {
                        let f2 = NodeView::Folder { id, name, children: c2 };
                        lemma_node_ids_folder(id, name, c2);
                        lemma_tree_ids_concat(seq![f2], rest);
                        lemma_tree_ids_single(f2);
                        assert(tree_ids(ns) =~= tree_ids(seq![f2] + rest).add(node_ids(n)));
                    },
                    None => {
                        match remove_nested(rest, t) {
                            Some((r2, n)) => {
                                lemma_tree_ids_concat(seq![ns[0]], r2);
                                lemma_tree_ids_single(ns[0]);
                                assert(tree_ids(ns) =~= tree_ids(seq![ns[0]] + r2).add(node_ids(n)));
                            },
                            None => {},
                        }
                    },
                }
            },
            NodeView::Document { .. } => {
                match remove_nested(rest, t) {
                    Some((r2, n)) => {
                        lemma_tree_ids_concat(seq![ns[0]], r2);
                        lemma_tree_ids_single(ns[0]);
                        assert(tree_ids(ns) =~= tree_ids(seq![ns[0]] + r2).add(node_ids(n)));
                    },
                    None => {},
                }
            },
        }
    }
}

proof fn lemma_add_child_ids(ns: Seq<NodeView>, p: Seq<char>, c: NodeView)
    ensures
        add_child_in(ns, p, c) matches Ok(s) ==> tree_ids(s) == tree_ids(ns).add(node_ids(c)),
    decreases ns,
{
    if ns.len() > 0 {
        let rest = ns.subrange(1, ns.len() as int);
        lemma_tree_ids_cons(ns);
        lemma_add_child_ids(rest, p, c);
        match ns[0] {
            NodeView::Folder { id, name, children } => {
                assert(decreases_to!(ns => ns[0]));
                lemma_add_child_ids(children, p, c);
                if id == p {
                    let f2 = NodeView::Folder { id, name, children: children.push(c) };
                    lemma_node_ids_folder(id, name, children.push(c));
                    lemma_tree_ids_push(children, c);
                    lemma_tree_ids_concat(seq![f2], rest);
                    lemma_tree_ids_single(f2);
                    assert(tree_ids(seq![f2] + rest) =~= tree_ids(ns).add(node_ids(c)));
                } else {
                    match add_child_in(children, p, c) {
                        Ok(c2) => {
                            let f2 = NodeView::Folder { id, name, children: c2 };
                            lemma_node_ids_folder(id, name, c2);
                        lemma_node_ids_folder(id, name, c2);
                            lemma_tree_ids_concat(seq![f2], rest);
                            lemma_tree_ids_single(f2);
                            assert(tree_ids(seq![f2] + rest) =~= tree_ids(ns).add(node_ids(c)));
                        },
                        Err(AddFailure::ParentIsDocument) => {},
                        Err(AddFailure::ParentMissing) => {
                            match add_child_in(rest, p, c) {
                                Ok(r2) => {
                                    lemma_tree_ids_concat(seq![ns[0]], r2);
                                    lemma_tree_ids_single(ns[0]);
                                    assert(tree_ids(seq![ns[0]] + r2) =~= tree_ids(ns).add(node_ids(c)));
                                },
                                Err(_) => {},
                            }
                        },
                    }
                }
            },
            NodeView::Document { .. } => {
                match add_child_in(rest, p, c) {
                    Ok(r2) => {
                        lemma_tree_ids_concat(seq![ns[0]], r2);
                        lemma_tree_ids_single(ns[0]);
                        assert(tree_ids(seq![ns[0]] + r2) =~= tree_ids(ns).add(node_ids(c)));
                    },
                    Err(_) => {},
                }
            },
        }
    }
}

proof fn lemma_reorder_ids(ns: Seq<NodeView>, t: Seq<char>, index: nat)
    ensures
        reorder_in(ns, t, index) matches Some(s) ==> tree_ids(s) == tree_ids(ns),
    decreases ns, 1int,
{
    lemma_position_present(ns, t);
    match position_of(ns, t) {
        Some(k) => {
            if index < ns.len() {
                lemma_tree_ids_remove(ns, k);
                lemma_tree_ids_insert(ns.remove(k), index as int, ns[k]);
            }
        },
        None => {
            lemma_reorder_nested_ids(ns, t, index);
        },
    }
}

proof fn lemma_reorder_nested_ids(ns: Seq<NodeView>, t: Seq<char>, index: nat)
    ensures
        reorder_nested(ns, t, index) matches Some(s) ==> tree_ids(s) == tree_ids(ns),
    decreases ns, 0int,
{
    if ns.len() > 0 {
        let rest = ns.subrange(1, ns.len() as int);
        lemma_tree_ids_cons(ns);
        lemma_reorder_nested_ids(rest, t, index);
        match ns[0] {
            NodeView::Folder { id, name, children } => {
                assert(decreases_to!(ns => ns[0]));
                lemma_reorder_ids(children, t, index);
                match reorder_in(children, t, index) {
                    Some(c2) => {
                        let f2 = NodeView::Folder { id, name, children: c2 };
                        lemma_node_ids_folder(id, name, c2);
                        lemma_tree_ids_concat(seq![f2], rest);
                        lemma_tree_ids_single(f2);
                        assert(tree_ids(seq![f2] + rest) =~= tree_ids(ns));
                    },
                    None => {
                        match reorder_nested(rest, t, index) {
                            Some(r2) => {
                                lemma_tree_ids_concat(seq![ns[0]], r2);
                                lemma_tree_ids_single(ns[0]);
                                assert(tree_ids(seq![ns[0]] + r2) =~= tree_ids(ns));
                            },
                            None => {},
                        }
                    },
                }
            },
            NodeView::Document { .. } => {
                match reorder_nested(rest, t, index) {
                    Some(r2) => {
                        lemma_tree_ids_concat(seq![ns[0]], r2);
                        lemma_tree_ids_single(ns[0]);
                        assert(tree_ids(seq![ns[0]] + r2) =~= tree_ids(ns));
                    },
                    None => {},
                }
            },
        }
    }
}

/// A search finds a node exactly when the id occurs somewhere in the tree,
/// and the node it finds carries that id.
pub proof fn law_find_finds_present_ids(ns: Seq<NodeView>, id: Seq<char>)
    ensures
        (find_in(ns, id) is Some) == (tree_ids(ns).count(id) > 0),
        find_in(ns, id) matches Some(n) ==> n.id() == id,
{
    lemma_find_present(ns, id);
}

/// Removing succeeds exactly when a search for the id succeeds; the node
/// taken out carries the id, and its subtree's ids together with the ids
/// left behind are the ids of the tree before.
pub proof fn law_remove_takes_out_a_present_node(ns: Seq<NodeView>, id: Seq<char>)
    ensures
        (remove_in(ns, id) is Some) == (find_in(ns, id) is Some),
        remove_in(ns, id) matches Some((rest, n)) ==> n.id() == id && tree_ids(ns) == tree_ids(rest).add(node_ids(n)),
{
    lemma_find_present(ns, id);
    lemma_remove_ids(ns, id);
}

/// With the id occurring once in the tree, a node that is removed is gone
/// afterwards: no search finds its id in what is left.
pub proof fn law_removed_id_is_gone(ns: Seq<NodeView>, id: Seq<char>)
    requires
        tree_ids(ns).count(id) <= 1,
    ensures
        remove_in(ns, id) matches Some((rest, n)) ==> find_in(rest, id) is None,
{
    lemma_find_present(ns, id);
    lemma_remove_ids(ns, id);
    if let Some((rest, n)) = remove_in(ns, id) {
        lemma_node_holds_own_id(n);
        lemma_find_present(rest, id);
        assert(tree_ids(ns).count(id) == tree_ids(rest).count(id) + node_ids(n).count(id));
    }
}

/// A node added at the root level can be found afterwards, and the tree
/// gains exactly the ids of the added subtree.
pub proof fn law_added_root_node_is_found(ns: Seq<NodeView>, n: NodeView)
    ensures
        find_in(ns.push(n), n.id()) is Some,
        tree_ids(ns.push(n)) == tree_ids(ns).add(node_ids(n)),
{
    lemma_tree_ids_push(ns, n);
    lemma_node_holds_own_id(n);
    lemma_find_present(ns.push(n), n.id());
}

/// A child added under a folder can be found afterwards, and the tree gains
/// exactly the ids of the added subtree.
pub proof fn law_added_child_is_found(ns: Seq<NodeView>, parent: Seq<char>, child: NodeView)
    ensures
        add_child_in(ns, parent, child) matches Ok(s) ==> tree_ids(s) == tree_ids(ns).add(node_ids(child))
            && find_in(s, child.id()) is Some,
{
    lemma_add_child_ids(ns, parent, child);
    lemma_node_holds_own_id(child);
    if let Ok(s) = add_child_in(ns, parent, child) {
        lemma_find_present(s, child.id());
    }
}

/// Reordering neither loses nor duplicates a node; at the level where the
/// node sits, it lands at the requested index.
pub proof fn law_reorder_keeps_ids(ns: Seq<NodeView>, id: Seq<char>, index: nat)
    ensures
        reorder_in(ns, id, index) matches Some(s) ==> tree_ids(s) == tree_ids(ns),
        position_of(ns, id) is Some ==> (reorder_in(ns, id, index) matches Some(s) ==> s[index as int].id() == id),
{
    lemma_reorder_ids(ns, id, index);
    lemma_position_present(ns, id);
}

/// A move that succeeds neither loses nor duplicates a node, and the moved
/// node can be found afterwards.
pub proof fn law_move_keeps_ids(ns: Seq<NodeView>, id: Seq<char>, new_parent: Option<Seq<char>>)
    ensures
        remove_in(ns, id) matches Some((rest, n)) ==> match new_parent {
            None => tree_ids(rest.push(n)) == tree_ids(ns) && find_in(rest.push(n), id) is Some,
            Some(p) => add_child_in(rest, p, n) matches Ok(s) ==> tree_ids(s) == tree_ids(ns) && find_in(s, id) is Some,
        },
{
    lemma_remove_ids(ns, id);
    if let Some((rest, n)) = remove_in(ns, id) {
        law_added_root_node_is_found(rest, n);
        if let Some(p) = new_parent {
            law_added_child_is_found(rest, p, n);
        }
        assert(tree_ids(rest).add(node_ids(n)) =~= tree_ids(ns));
    }
}

/// Reordering at the level where the node sits moves that node alone: it
/// succeeds exactly when the index is below the number of siblings, the
/// node lands at the index, and with it taken out again the other siblings
/// stand as before, in their original relative order.
pub proof fn law_reorder_keeps_sibling_order(ns: Seq<NodeView>, id: Seq<char>, index: nat)
    ensures
        position_of(ns, id) matches Some(k) ==> {
            &&& (reorder_in(ns, id, index) is Some) == (index < ns.len())
            &&& reorder_in(ns, id, index) matches Some(s) ==> {
                &&& s.len() == ns.len()
                &&& s[index as int] == ns[k]
                &&& s.remove(index as int) == ns.remove(k)
            }
        },
{
    lemma_position_present(ns, id);
    if let Some(k) = position_of(ns, id) {
        if index < ns.len() {
            let s = ns.remove(k).insert(index as int, ns[k]);
            assert(s.remove(index as int) =~= ns.remove(k));
        }
    }
}

} // verus!
