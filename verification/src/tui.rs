//! State of the terminal editor that does not depend on the terminal: the
//! binder listing, the view modes, and the edits that anchor and remove
//! comment spans in a document's text.
use vstd::prelude::*;
use vstd::string::StringExecFns;

use crate::models::{NodeView, TreeNode, nodes_view, lemma_nodes_view};
use crate::scrivener::exporter::{node_depth, tree_depth};
use crate::project::reader::{DocEntry, doc_entries, entry_view, hierarchy_documents};
use crate::text::{chars_of, owned, str_eq, string_of, trim_chars, trim_ws};
use crate::revisions::{split_words, words};

verus! {

/// Which pane has the keyboard.
#[derive(Clone, Copy, PartialEq, Eq, Structural, Debug)]
pub enum Focus {
    Binder,
    Editor,
}

/// What the keys currently do.
#[derive(Clone, Copy, PartialEq, Eq, Structural, Debug)]
pub enum Mode {
    Normal,
    RevisionPrompt,
    NewDocPrompt,
    NewFolderPrompt,
    Confirm,
    Comments,
    CommentEdit,
}

/// How the editor pane shows a document.
#[derive(Clone, Copy, PartialEq, Eq, Structural, Debug)]
pub enum ViewMode {
    /// Editable markdown.
    Edit,
    /// Read-only formatted rendering.
    Preview,
}

impl ViewMode {
    /// The name shown in the status line.
    pub fn label(self) -> (r: &'static str)
        ensures
            self == ViewMode::Edit ==> r@ == "edit"@,
            self == ViewMode::Preview ==> r@ == "preview"@,
    {
        match self {
            ViewMode::Edit => "edit",
            ViewMode::Preview => "preview",
        }
    }

    /// The other mode.
    pub fn next(self) -> (r: ViewMode)
        ensures
            r == next_view(self),
    {
        match self {
            ViewMode::Edit => ViewMode::Preview,
            ViewMode::Preview => ViewMode::Edit,
        }
    }
}

/// The view mode that follows `m`: the other one.
pub open spec fn next_view(m: ViewMode) -> ViewMode {
    match m {
        ViewMode::Edit => ViewMode::Preview,
        ViewMode::Preview => ViewMode::Edit,
    }
}

/// Cycling the view mode always changes it, and cycling it twice comes
/// back to where it started.
pub proof fn law_view_mode_cycles(m: ViewMode)
    ensures
        next_view(m) != m,
        next_view(next_view(m)) == m,
{
}

/// One row of the binder listing.
pub struct BinderItem {
    pub depth: usize,
    pub id: String,
    pub name: String,
    pub is_folder: bool,
}

/// A row as plain values: depth, id, name, whether it is a folder.
pub type RowView = (nat, Seq<char>, Seq<char>, bool);

/// The rows as plain values.
pub open spec fn rows_view(s: Seq<BinderItem>) -> Seq<RowView> {
    s.map_values(|x: BinderItem| (x.depth as nat, x.id@, x.name@, x.is_folder))
}

/// The rows of a forest listed at `depth`: each node in order, and the
/// children of each expanded folder after it, one level deeper.
pub open spec fn binder_rows(ns: Seq<NodeView>, depth: nat, expanded: Seq<Seq<char>>) -> Seq<RowView>
    decreases ns, 0int,
{
    if ns.len() == 0 {
        Seq::empty()
    } else {
        binder_rows(ns.drop_last(), depth, expanded) + node_rows(ns.last(), depth, expanded)
    }
}

/// The rows of one node listed at `depth`.
pub open spec fn node_rows(n: NodeView, depth: nat, expanded: Seq<Seq<char>>) -> Seq<RowView>
    decreases n, 1int,
{
    match n {
        NodeView::Document { id, name, .. } => seq![(depth, id, name, false)],
        NodeView::Folder { id, name, children } => seq![(depth, id, name, true)] + (if expanded.contains(id) {
            binder_rows(children, depth + 1, expanded)
        } else {
            Seq::empty()
        }),
    }
}

fn contains_text(v: &Vec<String>, s: &str) -> (r: bool)
    ensures
        r == v@.map_values(|x: String| x@).contains(s@),
{
    let ghost vv = v@.map_values(|x: String| x@);
    let mut i: usize = 0;
    while i < v.len()
        invariant
            i <= v@.len(),
            vv == v@.map_values(|x: String| x@),
            forall|j: int| 0 <= j < i ==> #[trigger] vv[j] != s@,
        decreases v.len() - i,
    {
        proof {
            assert(vv[i as int] == v@[i as int]@);
        }
        if str_eq(v[i].as_str(), s) {
            return true;
        }
        i = i + 1;
    }
    false
}

proof fn lemma_depth_parts(ns: Seq<NodeView>, i: int)
    requires
        0 <= i < ns.len(),
    ensures
        node_depth(ns[i]) <= tree_depth(ns),
        tree_depth(ns.take(i + 1)) <= tree_depth(ns),
    decreases ns.len(),
{
    if i < ns.len() - 1 {
        lemma_depth_parts(ns.drop_last(), i);
        assert(ns.drop_last()[i] == ns[i]);
        assert(ns.drop_last().take(i + 1) =~= ns.take(i + 1));
    } else {
        assert(ns.take(i + 1) =~= ns);
    }
}

fn walk_hierarchy(nodes: &[TreeNode], depth: usize, expanded: &Vec<String>, out: &mut Vec<BinderItem>)
    requires
        depth + tree_depth(nodes_view(nodes@)) <= usize::MAX,
    ensures
        rows_view(final(out)@) == rows_view(old(out)@) + binder_rows(
            nodes_view(nodes@),
            depth as nat,
            expanded@.map_values(|x: String| x@),
        ),
    decreases nodes_view(nodes@),
{
    let ghost v = nodes_view(nodes@);
    let ghost ex = expanded@.map_values(|x: String| x@);
    let ghost start = rows_view(out@);
    proof {
        lemma_nodes_view(nodes@);
        assert(v.take(0) =~= Seq::<NodeView>::empty());
        assert(start + Seq::empty() =~= start);
    }
    let mut i: usize = 0;
    while i < nodes.len()
        invariant
            i <= nodes@.len(),
            v == nodes_view(nodes@),
            ex == expanded@.map_values(|x: String| x@),
            v.len() == nodes@.len(),
            depth + tree_depth(v) <= usize::MAX,
            forall|q: int| 0 <= q < nodes@.len() ==> #[trigger] v[q] == nodes@[q].node_view(),
            rows_view(out@) == start + binder_rows(v.take(i as int), depth as nat, ex),
        decreases nodes.len() - i,
    {
        let ghost before = rows_view(out@);
        proof {
            assert(v.take(i + 1).drop_last() =~= v.take(i as int));
            assert(v.take(i + 1).last() == v[i as int]);
            lemma_depth_parts(v, i as int);
        }
        let node = &nodes[i];
        match node {
            TreeNode::Document { id, name, .. } => {
                out.push(BinderItem { depth, id: id.clone(), name: name.clone(), is_folder: false });
                proof {
                    assert(v[i as int] == node.node_view());
                    assert(rows_view(out@) =~= before + node_rows(v[i as int], depth as nat, ex));
                }
            },
            TreeNode::Folder { id, name, children } => {
                out.push(BinderItem { depth, id: id.clone(), name: name.clone(), is_folder: true });
                let ghost mid = rows_view(out@);
                proof {
                    assert(v[i as int] == node.node_view());
                    assert(mid =~= before + seq![(depth as nat, id@, name@, true)]);
                }
                if contains_text(expanded, id.as_str()) {
                    proof {
                        assert(decreases_to!(v => v[i as int]));
                        assert(v[i as int]->Folder_children == nodes_view(children@));
                        assert(decreases_to!(v[i as int] => v[i as int]->Folder_children));
                        assert(node_depth(v[i as int]) == 1 + tree_depth(nodes_view(children@)));
                    }
                    walk_hierarchy(children.as_slice(), depth + 1, expanded, out);
                    proof {
                        assert(rows_view(out@) =~= before + node_rows(v[i as int], depth as nat, ex));
                    }
                } else {
                    proof {
                        assert(rows_view(out@) =~= before + node_rows(v[i as int], depth as nat, ex));
                    }
                }
            },
        }
        proof {
            assert(binder_rows(v.take(i + 1), depth as nat, ex) == binder_rows(v.take(i as int), depth as nat, ex)
                + node_rows(v[i as int], depth as nat, ex));
            assert(rows_view(out@) =~= start + binder_rows(v.take(i + 1), depth as nat, ex));
        }
        i = i + 1;
    }
    proof {
        assert(v.take(v.len() as int) =~= v);
    }
}

/// The binder listing of a hierarchy: every node in order, with the
/// children of expanded folders under them, indented by depth.
pub fn binder_items(hierarchy: &[TreeNode], expanded: &Vec<String>) -> (r: Vec<BinderItem>)
    requires
        tree_depth(nodes_view(hierarchy@)) <= usize::MAX,
    ensures
        rows_view(r@) == binder_rows(nodes_view(hierarchy@), 0, expanded@.map_values(|x: String| x@)),
{
    let mut out: Vec<BinderItem> = Vec::new();
    walk_hierarchy(hierarchy, 0, expanded, &mut out);
    proof {
        assert(rows_view(Seq::<BinderItem>::empty()) =~= Seq::<RowView>::empty());
    }
    out
}

/// Whether row `i` of a listing is a folder row whose folder is not
/// expanded.
pub open spec fn collapsed_row(rows: Seq<RowView>, i: int, expanded: Seq<Seq<char>>) -> bool {
    rows[i].3 && !expanded.contains(rows[i].1)
}

/// The facts of a listing at `depth`: it starts at that depth, no row is
/// shallower, and a collapsed folder's row is never followed by a deeper
/// row.
pub open spec fn listing_shape(rows: Seq<RowView>, depth: nat, expanded: Seq<Seq<char>>) -> bool {
    &&& forall|i: int| 0 <= i < rows.len() ==> (#[trigger] rows[i]).0 >= depth
    &&& rows.len() > 0 ==> rows[0].0 == depth
    &&& forall|i: int| 0 <= i < rows.len() - 1 && #[trigger] collapsed_row(rows, i, expanded)
        ==> rows[i + 1].0 <= rows[i].0
}

proof fn lemma_concat_shape(a: Seq<RowView>, b: Seq<RowView>, depth: nat, expanded: Seq<Seq<char>>)
    requires
        listing_shape(a, depth, expanded),
        listing_shape(b, depth, expanded),
    ensures
        listing_shape(a + b, depth, expanded),
{
    let r = a + b;
    assert forall|i: int| 0 <= i < r.len() implies (#[trigger] r[i]).0 >= depth by {
        if i >= a.len() {
            assert(r[i] == b[i - a.len()]);
        }
    }
    assert forall|i: int| 0 <= i < r.len() - 1 && #[trigger] collapsed_row(r, i, expanded)
        implies r[i + 1].0 <= r[i].0 by {
        if i < a.len() - 1 {
            assert(collapsed_row(a, i, expanded));
        } else if i == a.len() - 1 {
            assert(r[i + 1] == b[0]);
        } else {
            assert(r[i] == b[i - a.len()]);
            assert(r[i + 1] == b[i + 1 - a.len()]);
            assert(collapsed_row(b, i - a.len(), expanded));
        }
    }
}

proof fn lemma_binder_rows_shape(ns: Seq<NodeView>, depth: nat, expanded: Seq<Seq<char>>)
    ensures
        listing_shape(binder_rows(ns, depth, expanded), depth, expanded),
    decreases ns, 0int,
{
    if ns.len() > 0 {
        lemma_binder_rows_shape(ns.drop_last(), depth, expanded);
        lemma_node_rows_shape(ns.last(), depth, expanded);
        lemma_concat_shape(binder_rows(ns.drop_last(), depth, expanded), node_rows(ns.last(), depth, expanded),
            depth, expanded);
    }
}

proof fn lemma_node_rows_shape(n: NodeView, depth: nat, expanded: Seq<Seq<char>>)
    ensures
        listing_shape(node_rows(n, depth, expanded), depth, expanded),
        node_rows(n, depth, expanded).len() > 0,
    decreases n, 1int,
{
    let r = node_rows(n, depth, expanded);
    match n {
        NodeView::Document { .. } => {},
        NodeView::Folder { id, name, children } => {
            let head: Seq<RowView> = seq![(depth, id, name, true)];
            if expanded.contains(id) {
                let c = binder_rows(children, depth + 1, expanded);
                lemma_binder_rows_shape(children, depth + 1, expanded);
                assert(r == head + c);
                assert forall|i: int| 0 <= i < r.len() implies (#[trigger] r[i]).0 >= depth by {
                    if i > 0 {
                        assert(r[i] == c[i - 1]);
                    }
                }
                assert forall|i: int| 0 <= i < r.len() - 1 && #[trigger] collapsed_row(r, i, expanded)
                    implies r[i + 1].0 <= r[i].0 by {
                    if i == 0 {
                        assert(r[0] == (depth, id, name, true));
                    } else {
                        assert(r[i] == c[i - 1]);
                        assert(r[i + 1] == c[i]);
                        assert(collapsed_row(c, i - 1, expanded));
                    }
                }
            } else {
                assert(r =~= head);
            }
        },
    }
}

/// A folder's children are listed only when its id is in the expanded set,
/// at every depth: the row of a folder that is not expanded is followed by
/// no deeper row, and no row is shallower than the listing's own depth.
pub proof fn law_collapsed_folders_hide_children(ns: Seq<NodeView>, depth: nat, expanded: Seq<Seq<char>>)
    ensures
        forall|i: int| 0 <= i < binder_rows(ns, depth, expanded).len() - 1
            && (#[trigger] binder_rows(ns, depth, expanded)[i]).3
            && !expanded.contains(binder_rows(ns, depth, expanded)[i].1)
            ==> binder_rows(ns, depth, expanded)[i + 1].0 <= binder_rows(ns, depth, expanded)[i].0,
        forall|i: int| 0 <= i < binder_rows(ns, depth, expanded).len()
            ==> (#[trigger] binder_rows(ns, depth, expanded)[i]).0 >= depth,
{
    lemma_binder_rows_shape(ns, depth, expanded);
    let r = binder_rows(ns, depth, expanded);
    assert forall|i: int| 0 <= i < r.len() - 1 && (#[trigger] r[i]).3 && !expanded.contains(r[i].1)
        implies r[i + 1].0 <= r[i].0 by {
        assert(collapsed_row(r, i, expanded));
    }
}

/// The selected row once the listing has `len` rows: kept when still in
/// range, else the last row; nothing to move in an empty listing.
pub open spec fn clamped_selection(selected: nat, len: nat) -> nat {
    if selected >= len && len > 0 { (len - 1) as nat } else { selected }
}

/// Keeps the selected row within a rebuilt listing.
pub fn clamp_selection(selected: usize, len: usize) -> (r: usize)
    ensures
        r == clamped_selection(selected as nat, len as nat),
{
    if selected >= len && len > 0 {
        len - 1
    } else {
        selected
    }
}

/// The folder a new item goes into: the selected row's, when it is a folder.
pub fn selected_folder_id(items: &Vec<BinderItem>, selected: usize) -> (r: Option<String>)
    ensures
        selected < items@.len() && items@[selected as int].is_folder ==> (r matches Some(id) && id@
            == items@[selected as int].id@),
        !(selected < items@.len() && items@[selected as int].is_folder) ==> r is None,
{
    if selected < items.len() && items[selected].is_folder {
        Some(items[selected].id.clone())
    } else {
        None
    }
}

/// Whether position `a` comes before or at `b`, row first, then column.
pub open spec fn pos_le(a: (usize, usize), b: (usize, usize)) -> bool {
    a.0 < b.0 || (a.0 == b.0 && a.1 <= b.1)
}

/// A selection with its start before its end.
pub fn normalize_selection(sel: (usize, usize, usize, usize)) -> (r: (usize, usize, usize, usize))
    ensures
        pos_le((sel.0, sel.1), (sel.2, sel.3)) ==> r == sel,
        !pos_le((sel.0, sel.1), (sel.2, sel.3)) ==> r == (sel.2, sel.3, sel.0, sel.1),
        pos_le((r.0, r.1), (r.2, r.3)),
{
    let (sr, sc, er, ec) = sel;
    if sr < er || (sr == er && sc <= ec) {
        (sr, sc, er, ec)
    } else {
        (er, ec, sr, sc)
    }
}

/// A column as a position in a line, past-the-end columns meaning the end.
pub open spec fn clamp_col(line: Seq<char>, col: nat) -> int {
    if col <= line.len() { col as int } else { line.len() as int }
}

/// A line with `tag` put in at `at`.
pub open spec fn insert_at(line: Seq<char>, at: int, tag: Seq<char>) -> Seq<char> {
    line.take(at) + tag + line.skip(at)
}

/// The lines once a selection is wrapped in the open and close tags, or
/// nothing when the selection is empty or starts past the last line. On
/// one line the selected text is wrapped; across lines the open tag goes
/// into the first line and the close tag into the last (or the final line
/// when the selection runs past it).
pub open spec fn wrapped_lines(
    lines: Seq<Seq<char>>,
    sr: nat,
    sc: nat,
    er: nat,
    ec: nat,
    open_tag: Seq<char>,
    close_tag: Seq<char>,
) -> Option<Seq<Seq<char>>> {
    if lines.len() == 0 || sr >= lines.len() || (sr == er && sc == ec) {
        None
    } else if sr == er {
        let l = lines[sr as int];
        let a = clamp_col(l, sc);
        let b = clamp_col(l, ec);
        if a >= b {
            None
        } else {
            Some(lines.update(sr as int, l.take(a) + open_tag + l.subrange(a, b) + close_tag + l.skip(b)))
        }
    } else {
        let first = lines[sr as int];
        let last_idx: int = if er < lines.len() { er as int } else { lines.len() - 1 };
        let last = lines[last_idx];
        let with_open = lines.update(sr as int, insert_at(first, clamp_col(first, sc), open_tag));
        Some(with_open.update(last_idx, insert_at(last, clamp_col(last, ec), close_tag)))
    }
}

fn build_chars(parts: &Vec<char>, from: usize, to: usize, out: &mut Vec<char>)
    requires
        from <= to <= parts@.len(),
    ensures
        final(out)@ == old(out)@ + parts@.subrange(from as int, to as int),
{
    let ghost start = out@;
    let mut i: usize = from;
    while i < to
        invariant
            from <= i <= to <= parts@.len(),
            out@ == start + parts@.subrange(from as int, i as int),
        decreases to - i,
    {
        out.push(parts[i]);
        proof {
            assert(parts@.subrange(from as int, i + 1) =~= parts@.subrange(from as int, i as int).push(parts@[i as int]));
        }
        i = i + 1;
    }
}

fn insert_tag(line: &String, at_col: usize, tag: &str) -> (r: String)
    ensures
        r@ == insert_at(line@, clamp_col(line@, at_col as nat), tag@),
{
    let cs = chars_of(line.as_str());
    let tc = chars_of(tag);
    let at = if at_col <= cs.len() { at_col } else { cs.len() };
    let mut out: Vec<char> = Vec::new();
    build_chars(&cs, 0, at, &mut out);
    build_chars(&tc, 0, tc.len(), &mut out);
    build_chars(&cs, at, cs.len(), &mut out);
    proof {
        assert(tc@.subrange(0, tc@.len() as int) =~= tc@);
        assert(out@ =~= insert_at(line@, clamp_col(line@, at_col as nat), tag@));
    }
    string_of(&out)
}

/// Wraps the selected region of `lines` in the open and close tags, in
/// place; false, with the lines untouched, when there is nothing to wrap.
pub fn wrap_selection_in_lines(
    lines: &mut Vec<String>,
    sr: usize,
    sc: usize,
    er: usize,
    ec: usize,
    open_tag: &str,
    close_tag: &str,
) -> (r: bool)
    ensures
        ({
            let before = old(lines)@.map_values(|l: String| l@);
            match wrapped_lines(before, sr as nat, sc as nat, er as nat, ec as nat, open_tag@, close_tag@) {
                Some(after) => r && final(lines)@.map_values(|l: String| l@) == after,
                None => !r && final(lines)@.map_values(|l: String| l@) == before,
            }
        }),
{
    let ghost before = lines@.map_values(|l: String| l@);
    if lines.len() == 0 || sr >= lines.len() {
        return false;
    }
    if sr == er && sc == ec {
        return false;
    }
    if sr == er {
        let cs = chars_of(lines[sr].as_str());
        let a = if sc <= cs.len() { sc } else { cs.len() };
        let b = if ec <= cs.len() { ec } else { cs.len() };
        if a >= b {
            return false;
        }
        let oc = chars_of(open_tag);
        let cc = chars_of(close_tag);
        let mut out: Vec<char> = Vec::new();
        build_chars(&cs, 0, a, &mut out);
        build_chars(&oc, 0, oc.len(), &mut out);
        build_chars(&cs, a, b, &mut out);
        build_chars(&cc, 0, cc.len(), &mut out);
        build_chars(&cs, b, cs.len(), &mut out);
        let new_line = string_of(&out);
        lines.set(sr, new_line);
        proof {
            assert(oc@.subrange(0, oc@.len() as int) =~= oc@);
            assert(cc@.subrange(0, cc@.len() as int) =~= cc@);
            let l = before[sr as int];
            assert(l == cs@);
            assert(out@ =~= l.take(a as int) + open_tag@ + l.subrange(a as int, b as int) + close_tag@ + l.skip(b as int));
            assert(lines@.map_values(|l: String| l@) =~= before.update(sr as int, out@));
        }
        return true;
    }
    let last_idx = if er < lines.len() { er } else { lines.len() - 1 };
    let new_first = insert_tag(&lines[sr], sc, open_tag);
    let last_line = lines[last_idx].clone();
    proof {
        assert(before[sr as int] == lines@[sr as int]@);
        assert(before[last_idx as int] == last_line@);
    }
    lines.set(sr, new_first);
    let ghost mid = lines@.map_values(|l: String| l@);
    proof {
        assert(mid =~= before.update(sr as int, insert_at(before[sr as int], clamp_col(before[sr as int], sc as nat), open_tag@)));
    }
    let new_last = insert_tag(&last_line, ec, close_tag);
    lines.set(last_idx, new_last);
    proof {
        assert(lines@.map_values(|l: String| l@) =~= mid.update(last_idx as int, insert_at(before[last_idx as int], clamp_col(before[last_idx as int], ec as nat), close_tag@)));
    }
    true
}

/// Whether `p` occurs in `s` at `k`.
pub open spec fn occurs_at(s: Seq<char>, p: Seq<char>, k: int) -> bool {
    0 <= k && k + p.len() <= s.len() && s.subrange(k, k + p.len()) == p
}

/// The first place at or after `from` where `p` occurs in `s`.
pub open spec fn first_match(s: Seq<char>, p: Seq<char>, from: int) -> Option<int>
    decreases s.len() - from,
{
    if from < 0 || from >= s.len() || from + p.len() > s.len() {
        None
    } else if occurs_at(s, p, from) {
        Some(from)
    } else {
        first_match(s, p, from + 1)
    }
}

/// The last place before `end` where `p` starts and fits before `end`.
pub open spec fn last_match_before(s: Seq<char>, p: Seq<char>, end: int) -> Option<int>
    decreases end,
{
    if end <= 0 || end < p.len() || end > s.len() {
        None
    } else if occurs_at(s, p, end - p.len()) {
        Some(end - p.len())
    } else {
        last_match_before(s, p, end - 1)
    }
}

fn occurs_at_exec(s: &Vec<char>, p: &Vec<char>, k: usize) -> (r: bool)
    ensures
        r == occurs_at(s@, p@, k as int),
{
    if k > s.len() || p.len() > s.len() - k {
        return false;
    }
    let end = k + p.len();
    let mut idx: usize = k;
    while idx < end
        invariant
            k <= idx <= end,
            end == k + p@.len(),
            end <= s@.len(),
            forall|t: int| 0 <= t < idx - k ==> s@[k + t] == #[trigger] p@[t],
        decreases end - idx,
    {
        if s[idx] != p[idx - k] {
            assert(s@.subrange(k as int, k + p@.len())[idx - k] != p@[idx - k]);
            return false;
        }
        idx = idx + 1;
    }
    assert(s@.subrange(k as int, k + p@.len()) =~= p@);
    true
}

fn find_from(s: &Vec<char>, p: &Vec<char>, from: usize) -> (r: Option<usize>)
    ensures
        r matches Some(k) ==> first_match(s@, p@, from as int) == Some(k as int) && occurs_at(s@, p@, k as int)
            && from <= k < s@.len(),
        r is None ==> first_match(s@, p@, from as int) is None,
{
    let mut k: usize = from;
    while k < s.len() && p.len() <= s.len() - k
        invariant
            from <= k,
            first_match(s@, p@, k as int) == first_match(s@, p@, from as int),
        decreases s.len() - k,
    {
        if occurs_at_exec(s, p, k) {
            return Some(k);
        }
        k = k + 1;
    }
    None
}

fn rfind_before(s: &Vec<char>, p: &Vec<char>, end: usize) -> (r: Option<usize>)
    requires
        end <= s@.len(),
    ensures
        r matches Some(k) ==> last_match_before(s@, p@, end as int) == Some(k as int) && occurs_at(s@, p@, k as int)
            && k + p@.len() <= end,
        r is None ==> last_match_before(s@, p@, end as int) is None,
{
    let mut e: usize = end;
    while e > 0 && e >= p.len()
        invariant
            e <= end <= s@.len(),
            last_match_before(s@, p@, e as int) == last_match_before(s@, p@, end as int),
        decreases e,
    {
        if occurs_at_exec(s, p, e - p.len()) {
            return Some(e - p.len());
        }
        e = e - 1;
    }
    None
}

/// The text outside tags: `<` opens a tag and `>` closes it.
pub open spec fn outside_tags_state(s: Seq<char>) -> (Seq<char>, bool)
    decreases s.len(),
{
    if s.len() == 0 {
        (Seq::empty(), false)
    } else {
        let (t, in_tag) = outside_tags_state(s.drop_last());
        let c = s.last();
        if c == '<' {
            (t, true)
        } else if c == '>' {
            (t, false)
        } else if !in_tag {
            (t.push(c), false)
        } else {
            (t, true)
        }
    }
}

/// A character that may stand in an entity's name (`amp`, `#38`, `#x26`).
pub open spec fn entity_char(c: char) -> bool {
    ('a' <= c && c <= 'z') || ('A' <= c && c <= 'Z') || ('0' <= c && c <= '9') || c == '#'
}

/// How many entity-name characters follow from position `i` on.
pub open spec fn name_run(s: Seq<char>, i: int) -> nat
    decreases s.len() - i,
{
    if 0 <= i < s.len() && entity_char(s[i]) { 1 + name_run(s, i + 1) } else { 0 }
}

/// Whether an entity (`&`, a non-empty name, `;`) starts at position `i`.
pub open spec fn entity_at(s: Seq<char>, i: int) -> bool {
    &&& 0 <= i < s.len()
    &&& s[i] == '&'
    &&& name_run(s, i + 1) > 0
    &&& i + 1 + name_run(s, i + 1) < s.len()
    &&& s[i + 1 + name_run(s, i + 1)] == ';'
}

/// The text from position `i` on with its entities dropped.
pub open spec fn entities_dropped_from(s: Seq<char>, i: int) -> Seq<char>
    decreases s.len() - i,
{
    if i < 0 || i >= s.len() {
        Seq::empty()
    } else if entity_at(s, i) {
        entities_dropped_from(s, i + 2 + name_run(s, i + 1))
    } else {
        seq![s[i]] + entities_dropped_from(s, i + 1)
    }
}

/// The plain text of an HTML fragment: tags and entities dropped, the rest
/// trimmed.
pub open spec fn tags_stripped(s: Seq<char>) -> Seq<char> {
    trim_ws(entities_dropped_from(outside_tags_state(s).0, 0))
}

fn is_entity_char(c: char) -> (r: bool)
    ensures
        r == entity_char(c),
{
    ('a' <= c && c <= 'z') || ('A' <= c && c <= 'Z') || ('0' <= c && c <= '9') || c == '#'
}

/// Drops the entities of a text.
fn drop_entities(cs: &Vec<char>) -> (r: Vec<char>)
    ensures
        r@ == entities_dropped_from(cs@, 0),
{
    let n = cs.len();
    let mut out: Vec<char> = Vec::new();
    let mut i: usize = 0;
    while i < n
        invariant
            n == cs@.len(),
            i <= n,
            out@ + entities_dropped_from(cs@, i as int) == entities_dropped_from(cs@, 0),
        decreases n - i,
    {
        let c = cs[i];
        let mut is_entity = false;
        let mut j: usize = i + 1;
        if c == '&' {
            while j < n && is_entity_char(cs[j])
                invariant
                    n == cs@.len(),
                    i < n,
                    i + 1 <= j <= n,
                    name_run(cs@, i + 1) == (j - (i + 1)) + name_run(cs@, j as int),
                decreases n - j,
            {
                j = j + 1;
            }
            proof {
                assert(name_run(cs@, j as int) == 0);
            }
            is_entity = j > i + 1 && j < n && cs[j] == ';';
        }
        if is_entity {
            proof {
                assert(entity_at(cs@, i as int));
                assert(entities_dropped_from(cs@, i as int) == entities_dropped_from(cs@, j + 1));
            }
            i = j + 1;
        } else {
            proof {
                assert(!entity_at(cs@, i as int));
                assert(entities_dropped_from(cs@, i as int) == seq![c] + entities_dropped_from(cs@, i + 1));
                assert(out@.push(c) + entities_dropped_from(cs@, i + 1) =~= out@ + (seq![c] + entities_dropped_from(cs@, i + 1)));
            }
            out.push(c);
            i = i + 1;
        }
    }
    proof {
        assert(out@ + Seq::<char>::empty() =~= out@);
    }
    out
}

fn strip_tags_chars(cs: &Vec<char>) -> (r: String)
    ensures
        r@ == tags_stripped(cs@),
{
    let mut text: Vec<char> = Vec::new();
    let mut in_tag = false;
    let mut i: usize = 0;
    proof {
        assert(cs@.take(0) =~= Seq::<char>::empty());
    }
    while i < cs.len()
        invariant
            i <= cs@.len(),
            (text@, in_tag) == outside_tags_state(cs@.take(i as int)),
        decreases cs.len() - i,
    {
        let ch = cs[i];
        proof {
            assert(cs@.take(i + 1).drop_last() =~= cs@.take(i as int));
            assert(cs@.take(i + 1).last() == ch);
        }
        if ch == '<' {
            in_tag = true;
        } else if ch == '>' {
            in_tag = false;
        } else if !in_tag {
            text.push(ch);
        }
        i = i + 1;
    }
    proof {
        assert(cs@.take(cs@.len() as int) =~= cs@);
    }
    string_of(&trim_chars(&drop_entities(&text)))
}

/// The plain text of an HTML fragment: tags and entities stripped.
pub fn strip_tags_inline(html: &str) -> (r: String)
    ensures
        r@ == tags_stripped(html@),
{
    strip_tags_chars(&chars_of(html))
}

/// The attribute that marks a comment's span.
pub open spec fn comment_needle(id: Seq<char>) -> Seq<char> {
    "data-comment-id=\""@ + id + "\""@
}

fn needle_of(id: &str) -> (r: Vec<char>)
    ensures
        r@ == comment_needle(id@),
{
    let mut n = owned("data-comment-id=\"");
    n.append(id);
    n.append("\"");
    chars_of(n.as_str())
}

/// The anchor text of a comment in a document's HTML: the plain text
/// between the end of the tag that carries the comment's id and the next
/// closing span; empty when the comment has no anchor.
pub open spec fn anchor_text_of(html: Seq<char>, id: Seq<char>) -> Seq<char> {
    match first_match(html, comment_needle(id), 0) {
        None => Seq::empty(),
        Some(start) => match first_match(html, seq!['>'], start) {
            None => Seq::empty(),
            Some(close) => match first_match(html, "</span>"@, close + 1) {
                None => Seq::empty(),
                Some(end) => tags_stripped(html.subrange(close + 1, end)),
            },
        },
    }
}

/// The anchor text of a comment in a document's HTML.
pub fn comment_anchor_text(html: &str, comment_id: &str) -> (r: String)
    ensures
        r@ == anchor_text_of(html@, comment_id@),
{
    let cs = chars_of(html);
    let n = cs.len();
    let needle = needle_of(comment_id);
    let gt = chars_of(">");
    let close_tag = chars_of("</span>");
    proof {
        reveal_strlit(">");
        assert(gt@ =~= seq!['>']);
    }
    match find_from(&cs, &needle, 0) {
        None => String::new(),
        Some(start) => match find_from(&cs, &gt, start) {
            None => String::new(),
            Some(close) => match find_from(&cs, &close_tag, close + 1) {
                None => String::new(),
                Some(end) => {
                    let mut inner: Vec<char> = Vec::new();
                    build_chars(&cs, close + 1, end, &mut inner);
                    proof {
                        assert(inner@ =~= cs@.subrange(close + 1, end as int));
                    }
                    strip_tags_chars(&inner)
                },
            },
        },
    }
}

/// The HTML without the span of a comment, its inner text kept: from the
/// last `<span` before the comment's id (or the id itself when there is
/// none) to the end of that tag, and the next closing span. Unchanged when
/// the id, the tag's end or the closing span is missing.
pub open spec fn without_comment_span(html: Seq<char>, id: Seq<char>) -> Seq<char> {
    match first_match(html, comment_needle(id), 0) {
        None => html,
        Some(opening) => {
            let tag_start = match last_match_before(html, "<span"@, opening) {
                Some(k) => k,
                None => opening,
            };
            match first_match(html, seq!['>'], tag_start) {
                None => html,
                Some(gt) => {
                    let tag_end = gt + 1;
                    match first_match(html, "</span>"@, tag_end) {
                        None => html,
                        Some(inner_end) => html.take(tag_start) + html.subrange(tag_end, inner_end) + html.skip(
                            inner_end + 7,
                        ),
                    }
                },
            }
        },
    }
}

/// Removes the span that anchors a comment, keeping its inner text.
pub fn strip_comment_span(html: &str, comment_id: &str) -> (r: String)
    ensures
        r@ == without_comment_span(html@, comment_id@),
{
    let cs = chars_of(html);
    let n = cs.len();
    let needle = needle_of(comment_id);
    let gt = chars_of(">");
    let open_tag = chars_of("<span");
    let close_tag = chars_of("</span>");
    proof {
        reveal_strlit(">");
        reveal_strlit("</span>");
        assert(gt@ =~= seq!['>']);
        assert(close_tag@.len() == 7);
    }
    let opening = match find_from(&cs, &needle, 0) {
        Some(i) => i,
        None => {
            return owned(html);
        },
    };
    let tag_start = match rfind_before(&cs, &open_tag, opening) {
        Some(k) => k,
        None => opening,
    };
    let tag_end = match find_from(&cs, &gt, tag_start) {
        Some(e) => e + 1,
        None => {
            return owned(html);
        },
    };
    let inner_end = match find_from(&cs, &close_tag, tag_end) {
        Some(e) => e,
        None => {
            return owned(html);
        },
    };
    let close_end = inner_end + 7;
    let mut out: Vec<char> = Vec::new();
    build_chars(&cs, 0, tag_start, &mut out);
    build_chars(&cs, tag_end, inner_end, &mut out);
    build_chars(&cs, close_end, cs.len(), &mut out);
    proof {
        assert(out@ =~= without_comment_span(html@, comment_id@));
    }
    string_of(&out)
}

/// The id of the first document of a hierarchy, depth first.
pub open spec fn first_document(ns: Seq<NodeView>) -> Option<Seq<char>> {
    if doc_entries(ns).len() > 0 {
        Some(doc_entries(ns)[0].0)
    } else {
        None
    }
}

/// Finds the document an editor opens first: the first one, depth first.
pub fn find_first_document(nodes: &[TreeNode]) -> (r: Option<String>)
    ensures
        match first_document(nodes_view(nodes@)) {
            Some(id) => r matches Some(x) && x@ == id,
            None => r is None,
        },
{
    let mut entries: Vec<DocEntry> = Vec::new();
    hierarchy_documents(nodes, &mut entries);
    proof {
        assert(entries@.map_values(|e: DocEntry| entry_view(e)) =~= doc_entries(nodes_view(nodes@)));
    }
    if entries.len() > 0 {
        proof {
            assert(entry_view(entries@[0]) == doc_entries(nodes_view(nodes@))[0]);
        }
        Some(entries[0].id.clone())
    } else {
        None
    }
}

/// A key as the terminal editor sees it.
#[derive(Clone, Copy, PartialEq, Eq, Structural, Debug)]
pub enum KeyCode {
    Char(char),
    Enter,
    Esc,
    Backspace,
    Tab,
    Up,
    Down,
    F(u8),
    Other,
}

/// How a line prompt ends a key press.
pub enum PromptOutcome {
    /// The prompt was dismissed; its text is cleared.
    Cancelled,
    /// The prompt was confirmed with this text, trimmed; the prompt is
    /// cleared.
    Submitted(String),
    /// The text was edited, or the key did nothing.
    Editing,
}

/// What a key does to a line prompt's text: Esc dismisses it, Enter
/// confirms its trimmed text, Backspace drops the last character and a
/// character key adds itself; the text is empty once the prompt ends.
pub open spec fn prompt_next(text: Seq<char>, key: KeyCode) -> Seq<char> {
    match key {
        KeyCode::Esc => Seq::empty(),
        KeyCode::Enter => Seq::empty(),
        KeyCode::Backspace => if text.len() > 0 { text.drop_last() } else { text },
        KeyCode::Char(c) => text.push(c),
        _ => text,
    }
}

/// Takes one key into a line prompt.
pub fn prompt_step(input: &mut String, key: KeyCode) -> (r: PromptOutcome)
    ensures
        final(input)@ == prompt_next(old(input)@, key),
        key == KeyCode::Esc ==> r is Cancelled,
        key == KeyCode::Enter ==> (r matches PromptOutcome::Submitted(t) && t@ == trim_ws(old(input)@)),
        key != KeyCode::Esc && key != KeyCode::Enter ==> r is Editing,
{
    match key {
        KeyCode::Esc => {
            *input = String::new();
            PromptOutcome::Cancelled
        },
        KeyCode::Enter => {
            let t = string_of(&trim_chars(&chars_of(input.as_str())));
            *input = String::new();
            PromptOutcome::Submitted(t)
        },
        KeyCode::Backspace => {
            let mut cs = chars_of(input.as_str());
            if cs.len() > 0 {
                cs.pop();
                *input = string_of(&cs);
            }
            PromptOutcome::Editing
        },
        KeyCode::Char(c) => {
            crate::text::push_char(input, c);
            PromptOutcome::Editing
        },
        _ => PromptOutcome::Editing,
    }
}

/// Whether a key answers the quit confirmation with yes.
pub fn confirm_quit(key: KeyCode) -> (r: bool)
    ensures
        r == (key == KeyCode::Char('y') || key == KeyCode::Char('Y')),
{
    match key {
        KeyCode::Char(c) => c == 'y' || c == 'Y',
        _ => false,
    }
}

/// The row selected after a navigation key in a list of `len` rows:
/// Down or `j` moves down unless on the last row, Up or `k` moves up unless
/// on the first; other keys leave it.
pub open spec fn moved_selection(selected: nat, len: nat, key: KeyCode) -> nat {
    if (key == KeyCode::Down || key == KeyCode::Char('j')) && selected + 1 < len {
        selected + 1
    } else if (key == KeyCode::Up || key == KeyCode::Char('k')) && selected > 0 {
        (selected - 1) as nat
    } else {
        selected
    }
}

/// Moves a list selection by a navigation key.
pub fn move_selection(selected: usize, len: usize, key: KeyCode) -> (r: usize)
    ensures
        r == moved_selection(selected as nat, len as nat, key),
{
    let down = key == KeyCode::Down || key == KeyCode::Char('j');
    let up = key == KeyCode::Up || key == KeyCode::Char('k');
    if down && len > 0 && selected < len - 1 {
        selected + 1
    } else if up && selected > 0 {
        selected - 1
    } else {
        selected
    }
}

/// The pane that has the keyboard after Tab.
pub fn toggled_focus(f: Focus) -> (r: Focus)
    ensures
        r != f,
{
    match f {
        Focus::Binder => Focus::Editor,
        Focus::Editor => Focus::Binder,
    }
}

/// The mode a finished comment edit returns to: the editor's normal mode
/// when the editor has the keyboard (after anchoring a comment), else the
/// comment list.
pub fn mode_after_comment_edit(focus: Focus) -> (r: Mode)
    ensures
        focus == Focus::Editor ==> r == Mode::Normal,
        focus == Focus::Binder ==> r == Mode::Comments,
{
    match focus {
        Focus::Editor => Mode::Normal,
        Focus::Binder => Mode::Comments,
    }
}

/// The comment selected once a list has `len` comments after a deletion:
/// moved onto the last one when it ran past the end.
pub fn clamp_comment_selection(selected: usize, len: usize) -> (r: usize)
    ensures
        len > 0 && selected >= len ==> r == len - 1,
        !(len > 0 && selected >= len) ==> r == selected,
{
    if len > 0 && selected >= len { len - 1 } else { selected }
}

/// The characters a token may consist of and still be markup only.
pub open spec fn md_punct(c: char) -> bool {
    c == '#' || c == '*' || c == '-' || c == '_' || c == '`' || c == '>' || c == '=' || c == '|'
}

/// Whether every character of a token is markdown punctuation.
pub open spec fn punct_only(w: Seq<char>) -> bool {
    forall|i: int| 0 <= i < w.len() ==> md_punct(#[trigger] w[i])
}

/// The whitespace-separated words of markdown text that are more than
/// markup punctuation.
pub open spec fn prose_words(s: Seq<char>) -> Seq<Seq<char>> {
    words(s).filter(|w: Seq<char>| !punct_only(w))
}

fn is_punct_only(w: &str) -> (r: bool)
    ensures
        r == punct_only(w@),
{
    let cs = chars_of(w);
    let mut k: usize = 0;
    while k < cs.len()
        invariant
            k <= cs@.len(),
            cs@ == w@,
            forall|j: int| 0 <= j < k ==> md_punct(#[trigger] cs@[j]),
        decreases cs.len() - k,
    {
        let c = cs[k];
        if !(c == '#' || c == '*' || c == '-' || c == '_' || c == '`' || c == '>' || c == '=' || c == '|') {
            assert(!md_punct(cs@[k as int]));
            return false;
        }
        k = k + 1;
    }
    true
}

/// The number of words in markdown text, not counting tokens made only of
/// markdown punctuation (`#`, `*`, `-`, `_`, `` ` ``, `>`, `=`, `|`).
pub fn count_words(md: &str) -> (r: usize)
    ensures
        r == prose_words(md@).len(),
{
    let ws = split_words(&chars_of(md));
    let ghost wv = ws@.map_values(|w: String| w@);
    let mut n: usize = 0;
    let mut i: usize = 0;
    proof {
        reveal(Seq::filter);
        assert(wv.take(0) =~= Seq::<Seq<char>>::empty());
    }
    while i < ws.len()
        invariant
            i <= ws@.len(),
            wv == ws@.map_values(|w: String| w@),
            wv == words(md@),
            n <= i,
            n == wv.take(i as int).filter(|w: Seq<char>| !punct_only(w)).len(),
        decreases ws.len() - i,
    {
        proof {
            reveal(Seq::filter);
            assert(wv.take(i + 1).drop_last() =~= wv.take(i as int));
            assert(wv[i as int] == ws@[i as int]@);
        }
        if !is_punct_only(ws[i].as_str()) {
            n = n + 1;
        }
        i = i + 1;
    }
    proof {
        assert(wv.take(wv.len() as int) =~= wv);
    }
    n
}

} // verus!
