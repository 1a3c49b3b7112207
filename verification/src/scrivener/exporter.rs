//! Export of a `.chikn` project to a Scrivener project: the binder built
//! from the hierarchy and the `.scrivx` XML written for it.
use vstd::prelude::*;
use vstd::string::StringExecFns;

use crate::error::ChiknError;
use crate::models::{Document, NodeView, Project, TreeNode, nodes_view, lemma_nodes_view};
use crate::scrivener::scrivx::{BinderItem, BinderMetadata, ChildrenContainer, is_hyphenated_uuid};
use crate::text::{chars_of, concat, str_eq, owned};
use crate::ids::{new_uuid_upper, now_rfc3339};

verus! {

/// The XML escape of one character.
pub open spec fn escape_char(c: char) -> Seq<char> {
    if c == '&' {
        "&amp;"@
    } else if c == '<' {
        "&lt;"@
    } else if c == '>' {
        "&gt;"@
    } else if c == '"' {
        "&quot;"@
    } else if c == '\'' {
        "&apos;"@
    } else {
        seq![c]
    }
}

/// A text with `&`, `<`, `>`, `"` and `'` replaced by their XML entities.
pub open spec fn escape_text(s: Seq<char>) -> Seq<char>
    decreases s.len(),
{
    if s.len() == 0 {
        Seq::empty()
    } else {
        escape_text(s.drop_last()) + escape_char(s.last())
    }
}

/// Escapes the XML special characters of a text.
pub fn escape_xml(s: &str) -> (r: String)
    ensures
        r@ == escape_text(s@),
{
    let cs = chars_of(s);
    let mut out = String::new();
    let mut i: usize = 0;
    while i < cs.len()
        invariant
            i <= cs.len(),
            cs@ == s@,
            out@ == escape_text(cs@.take(i as int)),
        decreases cs.len() - i,
    {
        let c = cs[i];
        let ghost before = out@;
        if c == '&' {
            out.append("&amp;");
        } else if c == '<' {
            out.append("&lt;");
        } else if c == '>' {
            out.append("&gt;");
        } else if c == '"' {
            out.append("&quot;");
        } else if c == '\'' {
            out.append("&apos;");
        } else {
            crate::text::push_char(&mut out, c);
            assert(before.push(c) =~= before + seq![c]);
        }
        proof {
            assert(cs@.take(i + 1).drop_last() =~= cs@.take(i as int));
        }
        i = i + 1;
    }
    proof {
        assert(cs@.take(cs@.len() as int) =~= cs@);
    }
    out
}

/// Four spaces per level.
pub open spec fn indent_text(level: nat) -> Seq<char>
    decreases level,
{
    if level == 0 { Seq::empty() } else { indent_text((level - 1) as nat) + "    "@ }
}

fn indent_of(level: usize) -> (r: String)
    ensures
        r@ == indent_text(level as nat),
{
    let mut s = String::new();
    let mut i: usize = 0;
    while i < level
        invariant
            i <= level,
            s@ == indent_text(i as nat),
        decreases level - i,
    {
        s.append("    ");
        i = i + 1;
    }
    s
}

/// The text of an optional value, empty when absent.
pub open spec fn opt_text(o: Option<String>) -> Seq<char> {
    match o {
        Some(s) => s@,
        None => Seq::empty(),
    }
}

/// The compile flag line of a metadata block, if the flag is set.
pub open spec fn flag_xml(flag: Option<String>, ind: Seq<char>) -> Seq<char> {
    match flag {
        Some(inc) => ind + "        <IncludeInCompile>"@ + inc@ + "</IncludeInCompile>\n"@,
        None => Seq::empty(),
    }
}

/// The `<MetaData>` block of an item, if it has metadata.
pub open spec fn metadata_xml(md: Option<BinderMetadata>, ind: Seq<char>) -> Seq<char> {
    match md {
        Some(m) => ind + "    <MetaData>\n"@ + flag_xml(m.include_in_compile, ind) + ind + "    </MetaData>\n"@,
        None => Seq::empty(),
    }
}

/// The title written for an item; "Untitled" when it has none.
pub open spec fn title_text(o: Option<String>) -> Seq<char> {
    match o {
        Some(t) => t@,
        None => "Untitled"@,
    }
}

/// The XML of one binder item at an indent level.
pub open spec fn item_xml(item: BinderItem, level: nat) -> Seq<char>
    decreases item, 1int,
{
    let ind = indent_text(level);
    item_head(item, ind)
        + metadata_xml(item.metadata, ind)
        + (if item.children.items@.len() > 0 {
            ind + "    <Children>\n"@ + items_xml(item.children.items@, level + 2) + ind + "    </Children>\n"@
        } else {
            Seq::empty()
        })
        + ind + "</BinderItem>\n"@
}

/// The XML of a sequence of binder items, one after the other.
pub open spec fn items_xml(items: Seq<BinderItem>, level: nat) -> Seq<char>
    decreases items, 0int,
{
    if items.len() == 0 {
        Seq::empty()
    } else {
        items_xml(items.drop_last(), level) + item_xml(items.last(), level)
    }
}

/// Depth of an item: one more than the depth of its children.
pub open spec fn item_depth(item: BinderItem) -> nat
    decreases item, 1int,
{
    1 + items_depth(item.children.items@)
}

/// Depth of a sequence of items: the largest depth among them.
pub open spec fn items_depth(items: Seq<BinderItem>) -> nat
    decreases items, 0int,
{
    if items.len() == 0 {
        0
    } else {
        let a = items_depth(items.drop_last());
        let b = item_depth(items.last());
        if a >= b { a } else { b }
    }
}

proof fn lemma_item_depth(item: BinderItem)
    ensures
        item_depth(item) == 1 + items_depth(item.children.items@),
{
}

proof fn lemma_items_depth(items: Seq<BinderItem>, i: int)
    requires
        0 <= i < items.len(),
    ensures
        item_depth(items[i]) <= items_depth(items),
    decreases items.len(),
{
    if i < items.len() - 1 {
        lemma_items_depth(items.drop_last(), i);
    }
}

fn opt_str(o: &Option<String>) -> (r: &str)
    ensures
        r@ == opt_text(*o),
{
    match o {
        Some(t) => t.as_str(),
        None => {
            proof {
                reveal_strlit("");
            }
            ""
        },
    }
}

fn title_str(o: &Option<String>) -> (r: &str)
    ensures
        r@ == title_text(*o),
{
    match o {
        Some(t) => t.as_str(),
        None => "Untitled",
    }
}

/// The opening tag and the title line of an item.
pub open spec fn item_head(item: BinderItem, ind: Seq<char>) -> Seq<char> {
    ind + "<BinderItem UUID=\""@ + item.uuid@ + "\" Type=\""@ + item.item_type@ + "\" Created=\""@
        + opt_text(item.created) + "\" Modified=\""@ + opt_text(item.modified) + "\">\n"@
        + ind + "    <Title>"@ + escape_text(title_text(item.title)) + "</Title>\n"@
}

fn head_xml(item: &BinderItem, ind: &str) -> (r: String)
    ensures
        r@ == item_head(*item, ind@),
{
    let mut xml = owned(ind);
    xml.append("<BinderItem UUID=\"");
    xml.append(item.uuid.as_str());
    xml.append("\" Type=\"");
    xml.append(item.item_type.as_str());
    xml.append("\" Created=\"");
    xml.append(opt_str(&item.created));
    xml.append("\" Modified=\"");
    xml.append(opt_str(&item.modified));
    xml.append("\">\n");
    xml.append(ind);
    xml.append("    <Title>");
    let esc = escape_xml(title_str(&item.title));
    xml.append(esc.as_str());
    xml.append("</Title>\n");
    xml
}

fn metadata_to_xml(md: &Option<BinderMetadata>, ind: &str) -> (r: String)
    ensures
        r@ == metadata_xml(*md, ind@),
{
    let mut xml = String::new();
    if let Some(metadata) = md {
        xml.append(ind);
        xml.append("    <MetaData>\n");
        let ghost open_part = xml@;
        if let Some(flag) = &metadata.include_in_compile {
            xml.append(ind);
            xml.append("        <IncludeInCompile>");
            xml.append(flag.as_str());
            xml.append("</IncludeInCompile>\n");
        }
        let ghost flag_part = flag_xml(metadata.include_in_compile, ind@);
        assert(xml@ =~= open_part + flag_part);
        xml.append(ind);
        xml.append("    </MetaData>\n");
        assert(xml@ =~= metadata_xml(*md, ind@));
    }
    xml
}

fn item_to_xml(item: &BinderItem, indent_level: usize) -> (r: String)
    requires
        indent_level + 2 * item_depth(*item) <= usize::MAX,
    ensures
        r@ == item_xml(*item, indent_level as nat),
    decreases *item, 1int,
{
    let indent = indent_of(indent_level);
    let ind = indent.as_str();
    let mut xml = head_xml(item, ind);
    let meta = metadata_to_xml(&item.metadata, ind);
    xml.append(meta.as_str());
    let ghost with_meta = xml@;
    if item.children.items.len() > 0 {
        xml.append(ind);
        xml.append("    <Children>\n");
        proof {
            lemma_item_depth(*item);
        }
        let inner = generate_binder_xml(item.children.items.as_slice(), indent_level + 2);
        xml.append(inner.as_str());
        xml.append(ind);
        xml.append("    </Children>\n");
    }
    let ghost kids = if item.children.items@.len() > 0 {
        indent@ + "    <Children>\n"@ + items_xml(item.children.items@, (indent_level + 2) as nat) + indent@ + "    </Children>\n"@
    } else {
        Seq::<char>::empty()
    };
    proof {
        assert(xml@ =~= with_meta + kids);
    }
    xml.append(ind);
    xml.append("</BinderItem>\n");
    xml
}

/// The XML of binder items, each with its title escaped, its metadata's
/// compile flag and its children nested two levels deeper.
pub fn generate_binder_xml(items: &[BinderItem], indent_level: usize) -> (r: String)
    requires
        indent_level + 2 * items_depth(items@) <= usize::MAX,
    ensures
        r@ == items_xml(items@, indent_level as nat),
    decreases items@, 0int,
{
    let mut xml = String::new();
    let mut i: usize = 0;
    while i < items.len()
        invariant
            i <= items@.len(),
            indent_level + 2 * items_depth(items@) <= usize::MAX,
            xml@ == items_xml(items@.take(i as int), indent_level as nat),
        decreases items.len() - i,
    {
        proof {
            assert(decreases_to!(items@ => items@[i as int]));
            lemma_items_depth(items@, i as int);
        }
        let piece = item_to_xml(&items[i], indent_level);
        xml.append(piece.as_str());
        proof {
            assert(items@.take(i + 1).drop_last() =~= items@.take(i as int));
            assert(items@.take(i + 1).last() == items@[i as int]);
        }
        i = i + 1;
    }
    proof {
        assert(items@.take(items@.len() as int) =~= items@);
    }
    xml
}

/// Index of the first document with the given id.
pub open spec fn first_doc(docs: Seq<Document>, id: Seq<char>) -> Option<int>
    decreases docs.len(),
{
    if docs.len() == 0 {
        None
    } else if docs[0].id@ == id {
        Some(0)
    } else {
        match first_doc(docs.drop_first(), id) {
            Some(j) => Some(j + 1),
            None => None,
        }
    }
}

proof fn lemma_first_doc(docs: Seq<Document>, id: Seq<char>, k: int)
    requires
        0 <= k <= docs.len(),
        forall|j: int| 0 <= j < k ==> #[trigger] docs[j].id@ != id,
    ensures
        k < docs.len() && docs[k].id@ == id ==> first_doc(docs, id) == Some(k),
        k == docs.len() ==> first_doc(docs, id) is None,
    decreases k,
{
    if k > 0 {
        let rest = docs.drop_first();
        assert forall|j: int| 0 <= j < k - 1 implies #[trigger] rest[j].id@ != id by {
            assert(rest[j] == docs[j + 1]);
        }
        lemma_first_doc(rest, id, k - 1);
        if k < docs.len() {
            assert(rest[k - 1] == docs[k]);
        }
    }
}

/// Index of the first document with the given id.
pub fn find_document(docs: &Vec<Document>, id: &str) -> (r: Option<usize>)
    ensures
        match r {
            Some(i) => i < docs@.len() && first_doc(docs@, id@) == Some(i as int),
            None => first_doc(docs@, id@) is None,
        },
{
    let mut i: usize = 0;
    while i < docs.len()
        invariant
            i <= docs@.len(),
            forall|j: int| 0 <= j < i ==> #[trigger] docs@[j].id@ != id@,
        decreases docs.len() - i,
    {
        if str_eq(docs[i].id.as_str(), id) {
            proof {
                lemma_first_doc(docs@, id@, i as int);
            }
            return Some(i);
        }
        i = i + 1;
    }
    proof {
        lemma_first_doc(docs@, id@, i as int);
    }
    None
}

/// The metadata written for a text item: only the compile flag, "Yes".
pub open spec fn text_metadata(md: BinderMetadata) -> bool {
    &&& md.label is None && md.status is None && md.keywords is None && md.synopsis is None
    &&& md.section_type is None && md.icon_file_name is None && md.file_extension is None
    &&& md.include_in_compile matches Some(f) && f@ == "Yes"@
}

/// The binder item that stands for a hierarchy node: a document becomes a
/// "Text" item with the document's timestamps, a folder becomes a "Folder"
/// item whose children stand for the folder's children; every item gets a
/// hyphenated UUID.
pub open spec fn mirrors_node(n: NodeView, it: BinderItem, docs: Seq<Document>) -> bool
    decreases n, 1int,
{
    &&& is_hyphenated_uuid(it.uuid@)
    &&& match n {
        NodeView::Document { id, name, .. } => {
            &&& it.item_type@ == "Text"@
            &&& it.title matches Some(t) && t@ == name
            &&& it.children.items@.len() == 0
            &&& first_doc(docs, id) matches Some(j) && (it.created matches Some(c) && c@ == docs[j].created@)
                && (it.modified matches Some(m) && m@ == docs[j].modified@)
            &&& it.metadata matches Some(md) && text_metadata(md)
        },
        NodeView::Folder { name, children, .. } => {
            &&& it.item_type@ == "Folder"@
            &&& it.title matches Some(t) && t@ == name
            &&& it.created is Some && it.modified is Some
            &&& it.metadata is None
            &&& mirrors_nodes(children, it.children.items@, docs)
        },
    }
}

/// Item by item, the binder items stand for the nodes.
pub open spec fn mirrors_nodes(ns: Seq<NodeView>, items: Seq<BinderItem>, docs: Seq<Document>) -> bool
    decreases ns, 0int,
{
    if ns.len() == 0 {
        items.len() == 0
    } else {
        &&& items.len() == ns.len()
        &&& mirrors_nodes(ns.drop_last(), items.drop_last(), docs)
        &&& mirrors_node(ns.last(), items.last(), docs)
    }
}

/// The (node id, item UUID) pairs of a node and its subtree, node first.
pub open spec fn node_pairs(n: NodeView, it: BinderItem) -> Seq<(Seq<char>, Seq<char>)>
    decreases n, 1int,
{
    seq![(n.id(), it.uuid@)] + match n {
        NodeView::Folder { children, .. } => pairs_of(children, it.children.items@),
        NodeView::Document { .. } => Seq::empty(),
    }
}

/// The (node id, item UUID) pairs of a forest, in depth-first order.
pub open spec fn pairs_of(ns: Seq<NodeView>, items: Seq<BinderItem>) -> Seq<(Seq<char>, Seq<char>)>
    decreases ns, 0int,
{
    if ns.len() == 0 || items.len() == 0 {
        Seq::empty()
    } else {
        pairs_of(ns.drop_last(), items.drop_last()) + node_pairs(ns.last(), items.last())
    }
}

/// The first document node, in depth-first order, with no document of its
/// id.
pub open spec fn first_missing(ns: Seq<NodeView>, docs: Seq<Document>) -> Option<Seq<char>>
    decreases ns, 0int,
{
    if ns.len() == 0 {
        None
    } else {
        match first_missing(ns.drop_last(), docs) {
            Some(x) => Some(x),
            None => node_missing(ns.last(), docs),
        }
    }
}

/// The first document node of a subtree with no document of its id.
pub open spec fn node_missing(n: NodeView, docs: Seq<Document>) -> Option<Seq<char>>
    decreases n, 1int,
{
    match n {
        NodeView::Document { id, .. } => if first_doc(docs, id) is None { Some(id) } else { None },
        NodeView::Folder { children, .. } => first_missing(children, docs),
    }
}

/// A pair list as text pairs.
pub open spec fn pairs_view(v: Seq<(String, String)>) -> Seq<(Seq<char>, Seq<char>)> {
    v.map_values(|p: (String, String)| (p.0@, p.1@))
}

proof fn lemma_first_missing_split(ns: Seq<NodeView>, i: int, docs: Seq<Document>)
    requires
        0 <= i < ns.len(),
        first_missing(ns.take(i), docs) is None,
        node_missing(ns[i], docs) is Some,
    ensures
        first_missing(ns, docs) == node_missing(ns[i], docs),
    decreases ns.len(),
{
    if i == ns.len() - 1 {
        assert(ns.drop_last() =~= ns.take(i));
    } else {
        assert(ns.drop_last().take(i) =~= ns.take(i));
        lemma_first_missing_split(ns.drop_last(), i, docs);
    }
}

/// Builds the binder for a hierarchy. Each node gets a fresh uppercase UUID,
/// and the pair (node id, UUID) is appended to `uuid_map` before the node's
/// subtree is converted. A document node whose id no document has stops the
/// conversion with `NotFound`.
fn convert_to_binder_items(hierarchy: &[TreeNode], project: &Project, uuid_map: &mut Vec<(String, String)>)
    -> (r: Result<Vec<BinderItem>, ChiknError>)
    ensures
        match first_missing(nodes_view(hierarchy@), project.documents@) {
            None => r matches Ok(items) && mirrors_nodes(nodes_view(hierarchy@), items@, project.documents@)
                && pairs_view(final(uuid_map)@) == pairs_view(old(uuid_map)@) + pairs_of(nodes_view(hierarchy@), items@),
            Some(id) => r matches Err(ChiknError::NotFound(m)) && m@ == "Document not found: "@ + id,
        },
    decreases nodes_view(hierarchy@),
{
    let ghost v = nodes_view(hierarchy@);
    let ghost docs = project.documents@;
    let ghost start = pairs_view(uuid_map@);
    proof {
        lemma_nodes_view(hierarchy@);
        assert(v.take(0) =~= Seq::<NodeView>::empty());
    }
    let mut items: Vec<BinderItem> = Vec::new();
    let mut i: usize = 0;
    while i < hierarchy.len()
        invariant
            i <= hierarchy@.len(),
            v == nodes_view(hierarchy@),
            v.len() == hierarchy@.len(),
            forall|q: int| 0 <= q < hierarchy@.len() ==> #[trigger] v[q] == hierarchy@[q].node_view(),
            docs == project.documents@,
            first_missing(v.take(i as int), docs) is None,
            mirrors_nodes(v.take(i as int), items@, docs),
            items@.len() == i,
            pairs_view(uuid_map@) == start + pairs_of(v.take(i as int), items@),
        decreases hierarchy.len() - i,
    {
        let node = &hierarchy[i];
        let ghost pre = v.take(i as int);
        let ghost before = uuid_map@;
        let ghost old_items = items@;
        proof {
            assert(v.take(i + 1).drop_last() =~= pre);
            assert(v.take(i + 1).last() == v[i as int]);
        }
        match node {
            TreeNode::Document { id, name, .. } => {
                let scriv_uuid = new_uuid_upper();
                uuid_map.push((id.clone(), scriv_uuid.clone()));
                let j = match find_document(&project.documents, id.as_str()) {
                    Some(j) => j,
                    None => {
                        proof {
                            lemma_first_missing_split(v, i as int, docs);
                        }
                        return Err(ChiknError::NotFound(concat("Document not found: ", id.as_str())));
                    },
                };
                let created = project.documents[j].created.clone();
                let modified = project.documents[j].modified.clone();
                assert(created@ == docs[j as int].created@);
                let item = BinderItem {
                    uuid: scriv_uuid,
                    item_type: owned("Text"),
                    created: Some(created),
                    modified: Some(modified),
                    title: Some(name.clone()),
                    children: ChildrenContainer { items: Vec::new() },
                    metadata: Some(BinderMetadata {
                        label: None,
                        status: None,
                        keywords: None,
                        synopsis: None,
                        section_type: None,
                        include_in_compile: Some(owned("Yes")),
                        icon_file_name: None,
                        file_extension: None,
                    }),
                };
                let ghost it = item;
                items.push(item);
                proof {
                    assert(is_hyphenated_uuid(it.uuid@));
                    assert(it.item_type@ == "Text"@);
                    assert(it.children.items@.len() == 0);
                    assert(v[i as int] == NodeView::Document { id: id@, name: name@, path: v[i as int]->Document_path });
                    assert(first_doc(docs, id@) == Some(j as int));
                    assert(it.created matches Some(c) && c@ == docs[j as int].created@);
                    assert(it.modified matches Some(c) && c@ == docs[j as int].modified@);
                    assert(it.title matches Some(t) && t@ == name@);
                    assert(it.metadata matches Some(md) && text_metadata(md));
                    assert(mirrors_node(v[i as int], it, docs));
                    assert(items@.drop_last() =~= old_items);
                    assert(items@.last() == it);
                    assert(pairs_view(uuid_map@) =~= pairs_view(before) + seq![(v[i as int].id(), it.uuid@)]);
                    assert(node_pairs(v[i as int], it) =~= seq![(v[i as int].id(), it.uuid@)]);
                    assert(pairs_view(uuid_map@) == pairs_view(before) + node_pairs(v[i as int], items@.last()));
                }
            },
            TreeNode::Folder { id, name, children } => {
                let scriv_uuid = new_uuid_upper();
                uuid_map.push((id.clone(), scriv_uuid.clone()));
                let ghost after_push = uuid_map@;
                proof {
                    assert(decreases_to!(v => v[i as int]));
                }
                let child_items = match convert_to_binder_items(children.as_slice(), project, uuid_map) {
                    Ok(c) => c,
                    Err(e) => {
                        proof {
                            lemma_first_missing_split(v, i as int, docs);
                        }
                        return Err(e);
                    },
                };
                let item = BinderItem {
                    uuid: scriv_uuid,
                    item_type: owned("Folder"),
                    created: Some(now_rfc3339()),
                    modified: Some(now_rfc3339()),
                    title: Some(name.clone()),
                    children: ChildrenContainer { items: child_items },
                    metadata: None,
                };
                let ghost it = item;
                items.push(item);
                proof {
                    assert(mirrors_node(v[i as int], it, docs));
                    assert(items@.drop_last() =~= old_items);
                    assert(items@.last() == it);
                    assert(pairs_view(after_push) =~= pairs_view(before) + seq![(v[i as int].id(), it.uuid@)]);
                    assert(node_pairs(v[i as int], it) == seq![(v[i as int].id(), it.uuid@)] + pairs_of(nodes_view(children@), it.children.items@));
                    assert(pairs_view(uuid_map@) =~= pairs_view(before) + node_pairs(v[i as int], it));
                }
            },
        }
        proof {
            let ns2 = v.take(i + 1);
            assert(ns2.drop_last() =~= pre);
            assert(ns2.last() == v[i as int]);
            assert(mirrors_nodes(ns2, items@, docs));
            assert(pairs_of(ns2, items@) == pairs_of(pre, items@.drop_last()) + node_pairs(v[i as int], items@.last()));
            assert(pairs_view(uuid_map@) =~= start + pairs_of(ns2, items@));
        }
        i = i + 1;
    }
    proof {
        assert(v.take(v.len() as int) =~= v);
    }
    Ok(items)
}

/// Depth of a node: one for a document, one more than its children for a
/// folder.
pub open spec fn node_depth(n: NodeView) -> nat
    decreases n, 1int,
{
    match n {
        NodeView::Folder { children, .. } => 1 + tree_depth(children),
        NodeView::Document { .. } => 1,
    }
}

/// Depth of a forest: the largest depth of its nodes.
pub open spec fn tree_depth(ns: Seq<NodeView>) -> nat
    decreases ns, 0int,
{
    if ns.len() == 0 {
        0
    } else {
        let a = tree_depth(ns.drop_last());
        let b = node_depth(ns.last());
        if a >= b { a } else { b }
    }
}

proof fn lemma_mirror_depth(ns: Seq<NodeView>, items: Seq<BinderItem>, docs: Seq<Document>)
    requires
        mirrors_nodes(ns, items, docs),
    ensures
        items_depth(items) == tree_depth(ns),
    decreases ns, 0int,
{
    if ns.len() > 0 {
        lemma_mirror_depth(ns.drop_last(), items.drop_last(), docs);
        lemma_mirror_node_depth(ns.last(), items.last(), docs);
    }
}

proof fn lemma_mirror_node_depth(n: NodeView, it: BinderItem, docs: Seq<Document>)
    requires
        mirrors_node(n, it, docs),
    ensures
        item_depth(it) == node_depth(n),
    decreases n, 1int,
{
    match n {
        NodeView::Folder { children, .. } => {
            lemma_mirror_depth(children, it.children.items@, docs);
        },
        NodeView::Document { .. } => {
            assert(it.children.items@.len() == 0);
        },
    }
}

/// The UUID recorded last for a node id (a later entry replaces an earlier
/// one).
pub open spec fn lookup_last(map: Seq<(Seq<char>, Seq<char>)>, key: Seq<char>) -> Option<Seq<char>>
    decreases map.len(),
{
    if map.len() == 0 {
        None
    } else if map.last().0 == key {
        Some(map.last().1)
    } else {
        lookup_last(map.drop_last(), key)
    }
}

/// The (UUID, content) pairs of the documents that have a UUID, in the
/// order of the documents.
pub open spec fn rtf_list(docs: Seq<Document>, map: Seq<(Seq<char>, Seq<char>)>) -> Seq<(Seq<char>, Seq<char>)>
    decreases docs.len(),
{
    if docs.len() == 0 {
        Seq::empty()
    } else {
        rtf_list(docs.drop_last(), map) + match lookup_last(map, docs.last().id@) {
            Some(u) => seq![(u, docs.last().content@)],
            None => Seq::empty(),
        }
    }
}

/// The `.scrivx` text for a binder.
pub open spec fn scrivx_text(identifier: Seq<char>, items: Seq<BinderItem>) -> Seq<char> {
    "<?xml version=\"1.0\" encoding=\"UTF-8\"?>\n<ScrivenerProject Version=\"3.0\" Identifier=\""@ + identifier
        + "\">\n    <Binder>\n"@ + items_xml(items, 2) + "\n    </Binder>\n</ScrivenerProject>"@
}

/// Index of the last pair whose key is `key`.
pub fn lookup_uuid(map: &Vec<(String, String)>, key: &str) -> (r: Option<usize>)
    ensures
        match lookup_last(pairs_view(map@), key@) {
            Some(u) => r matches Some(i) && i < map@.len() && map@[i as int].1@ == u,
            None => r is None,
        },
{
    let mut i: usize = map.len();
    let ghost pv = pairs_view(map@);
    proof {
        assert(pv.take(pv.len() as int) =~= pv);
    }
    while i > 0
        invariant
            i <= map@.len(),
            pv == pairs_view(map@),
            pv.len() == map@.len(),
            lookup_last(pv, key@) == lookup_last(pv.take(i as int), key@),
        decreases i,
    {
        let ghost t = pv.take(i as int);
        assert(t.drop_last() =~= pv.take(i - 1));
        assert(t.last() == (map@[i - 1].0@, map@[i - 1].1@));
        if str_eq(map[i - 1].0.as_str(), key) {
            return Some(i - 1);
        }
        i = i - 1;
    }
    None
}

/// What an export writes: the binder, the node id to UUID pairs, the
/// Markdown content to convert for each UUID, and the `.scrivx` text.
pub struct ScrivExport {
    pub binder: Vec<BinderItem>,
    pub uuid_map: Vec<(String, String)>,
    pub rtf_documents: Vec<(String, String)>,
    pub scrivx: String,
}

/// Plans the export of a project to a Scrivener project: the binder that
/// mirrors the hierarchy (with fresh UUIDs), the content of each document
/// that has a binder item, and the `.scrivx` XML with a fresh identifier. A
/// hierarchy document without a project document makes the export fail with
/// `NotFound`. The binder is written two levels deep inside the XML, so its
/// nesting must leave room for the indentation.
pub fn export_to_scriv(project: &Project) -> (r: Result<ScrivExport, ChiknError>)
    requires
        2 + 2 * tree_depth(nodes_view(project.hierarchy@)) <= usize::MAX,
    ensures
        match first_missing(nodes_view(project.hierarchy@), project.documents@) {
            None => r matches Ok(x) && {
                &&& mirrors_nodes(nodes_view(project.hierarchy@), x.binder@, project.documents@)
                &&& pairs_view(x.uuid_map@) == pairs_of(nodes_view(project.hierarchy@), x.binder@)
                &&& pairs_view(x.rtf_documents@) == rtf_list(project.documents@, pairs_view(x.uuid_map@))
                &&& exists|ident: Seq<char>| is_hyphenated_uuid(ident) && x.scrivx@ == #[trigger] scrivx_text(ident, x.binder@)
            },
            Some(id) => r matches Err(ChiknError::NotFound(m)) && m@ == "Document not found: "@ + id,
        },
{
    let mut uuid_map: Vec<(String, String)> = Vec::new();
    let binder = match convert_to_binder_items(project.hierarchy.as_slice(), project, &mut uuid_map) {
        Ok(b) => b,
        Err(e) => {
            return Err(e);
        },
    };
    proof {
        assert(pairs_view(Seq::<(String, String)>::empty()) =~= Seq::empty());
        assert(pairs_view(uuid_map@) =~= pairs_of(nodes_view(project.hierarchy@), binder@));
        lemma_mirror_depth(nodes_view(project.hierarchy@), binder@, project.documents@);
    }
    let ghost pv = pairs_view(uuid_map@);
    let mut rtf_documents: Vec<(String, String)> = Vec::new();
    let mut i: usize = 0;
    proof {
        assert(project.documents@.take(0) =~= Seq::<Document>::empty());
        assert(pairs_view(rtf_documents@) =~= Seq::empty());
    }
    while i < project.documents.len()
        invariant
            i <= project.documents@.len(),
            pv == pairs_view(uuid_map@),
            pairs_view(rtf_documents@) == rtf_list(project.documents@.take(i as int), pv),
        decreases project.documents.len() - i,
    {
        let doc = &project.documents[i];
        let ghost before = rtf_documents@;
        match lookup_uuid(&uuid_map, doc.id.as_str()) {
            Some(k) => {
                rtf_documents.push((uuid_map[k].1.clone(), doc.content.clone()));
                assert(pairs_view(rtf_documents@) =~= pairs_view(before) + seq![(uuid_map@[k as int].1@, doc.content@)]);
            },
            None => {},
        }
        proof {
            let t = project.documents@.take(i + 1);
            assert(t.drop_last() =~= project.documents@.take(i as int));
            assert(t.last() == project.documents@[i as int]);
        }
        i = i + 1;
    }
    proof {
        assert(project.documents@.take(project.documents@.len() as int) =~= project.documents@);
    }
    let identifier = crate::ids::new_uuid_upper();
    let mut scrivx = owned("<?xml version=\"1.0\" encoding=\"UTF-8\"?>\n<ScrivenerProject Version=\"3.0\" Identifier=\"");
    scrivx.append(identifier.as_str());
    scrivx.append("\">\n    <Binder>\n");
    let body = generate_binder_xml(binder.as_slice(), 2);
    scrivx.append(body.as_str());
    scrivx.append("\n    </Binder>\n</ScrivenerProject>");
    proof {
        assert(scrivx@ == scrivx_text(identifier@, binder@));
    }
    let x = ScrivExport { binder, uuid_map, rtf_documents, scrivx };
    assert(mirrors_nodes(nodes_view(project.hierarchy@), x.binder@, project.documents@));
    assert(pairs_view(x.uuid_map@) == pairs_of(nodes_view(project.hierarchy@), x.binder@));
    assert(pairs_view(x.rtf_documents@) == rtf_list(project.documents@, pairs_view(x.uuid_map@)));
    assert(is_hyphenated_uuid(identifier@) && x.scrivx@ == scrivx_text(identifier@, x.binder@));
    Ok(x)
}

/// Whether every key of a list of (UUID, value) pairs is a hyphenated UUID.
pub open spec fn uuid_keys_ok(s: Seq<(Seq<char>, Seq<char>)>) -> bool {
    forall|k: int| 0 <= k < s.len() ==> is_hyphenated_uuid(#[trigger] s[k].0)
}

proof fn lemma_uuid_keys_concat(a: Seq<(Seq<char>, Seq<char>)>, b: Seq<(Seq<char>, Seq<char>)>)
    requires
        uuid_keys_ok(a),
        uuid_keys_ok(b),
    ensures
        uuid_keys_ok(a + b),
{
    assert forall|k: int| 0 <= k < (a + b).len() implies is_hyphenated_uuid(#[trigger] (a + b)[k].0) by {
        if k < a.len() {
            assert((a + b)[k] == a[k]);
        } else {
            assert((a + b)[k] == b[k - a.len()]);
        }
    }
}

/// Whether every UUID of a list of (key, UUID) pairs is a hyphenated UUID.
pub open spec fn uuids_ok(s: Seq<(Seq<char>, Seq<char>)>) -> bool {
    forall|k: int| 0 <= k < s.len() ==> is_hyphenated_uuid(#[trigger] s[k].1)
}

proof fn lemma_uuids_ok_concat(a: Seq<(Seq<char>, Seq<char>)>, b: Seq<(Seq<char>, Seq<char>)>)
    requires
        uuids_ok(a),
        uuids_ok(b),
    ensures
        uuids_ok(a + b),
{
    assert forall|k: int| 0 <= k < (a + b).len() implies is_hyphenated_uuid(#[trigger] (a + b)[k].1) by {
        if k < a.len() {
            assert((a + b)[k] == a[k]);
        } else {
            assert((a + b)[k] == b[k - a.len()]);
        }
    }
}

proof fn lemma_pairs_uuids(ns: Seq<NodeView>, items: Seq<BinderItem>, docs: Seq<Document>)
    requires
        mirrors_nodes(ns, items, docs),
    ensures
        uuids_ok(pairs_of(ns, items)),
    decreases ns, 0int,
{
    if ns.len() > 0 {
        lemma_pairs_uuids(ns.drop_last(), items.drop_last(), docs);
        lemma_node_pairs_uuids(ns.last(), items.last(), docs);
        lemma_uuids_ok_concat(pairs_of(ns.drop_last(), items.drop_last()), node_pairs(ns.last(), items.last()));
    }
}

proof fn lemma_node_pairs_uuids(n: NodeView, it: BinderItem, docs: Seq<Document>)
    requires
        mirrors_node(n, it, docs),
    ensures
        uuids_ok(node_pairs(n, it)),
    decreases n, 1int,
{
    let head = seq![(n.id(), it.uuid@)];
    assert(uuids_ok(head)) by {
        assert forall|k: int| 0 <= k < head.len() implies is_hyphenated_uuid(#[trigger] head[k].1) by {
            assert(head[k] == (n.id(), it.uuid@));
        }
    }
    match n {
        NodeView::Folder { children, .. } => {
            assert(decreases_to!(n => children));
            lemma_pairs_uuids(children, it.children.items@, docs);
            lemma_uuids_ok_concat(head, pairs_of(children, it.children.items@));
        },
        NodeView::Document { .. } => {
            assert(node_pairs(n, it) =~= head);
        },
    }
}

proof fn lemma_lookup_last_ok(map: Seq<(Seq<char>, Seq<char>)>, key: Seq<char>)
    requires
        uuids_ok(map),
    ensures
        lookup_last(map, key) matches Some(u) ==> is_hyphenated_uuid(u),
    decreases map.len(),
{
    if map.len() > 0 {
        assert(is_hyphenated_uuid(map[map.len() - 1].1));
        let d = map.drop_last();
        assert(uuids_ok(d)) by {
            assert forall|k: int| 0 <= k < d.len() implies is_hyphenated_uuid(#[trigger] d[k].1) by {
                assert(d[k] == map[k]);
            }
        }
        lemma_lookup_last_ok(d, key);
    }
}

proof fn lemma_rtf_uuids(docs: Seq<Document>, map: Seq<(Seq<char>, Seq<char>)>)
    requires
        uuids_ok(map),
    ensures
        uuid_keys_ok(rtf_list(docs, map)),
    decreases docs.len(),
{
    if docs.len() > 0 {
        lemma_rtf_uuids(docs.drop_last(), map);
        lemma_lookup_last_ok(map, docs.last().id@);
        let prev = rtf_list(docs.drop_last(), map);
        match lookup_last(map, docs.last().id@) {
            Some(u) => {
                assert(is_hyphenated_uuid(u));
                let t = seq![(u, docs.last().content@)];
                assert(t[0].0 == u);
                assert(uuid_keys_ok(t));
                lemma_uuid_keys_concat(prev, t);
                assert(rtf_list(docs, map) == prev + t);
            },
            None => {
                assert(rtf_list(docs, map) =~= prev);
            },
        }
    }
}

/// Every UUID an export hands out is a hyphenated UUID: those paired with
/// the nodes, and those the documents' RTF files are written under; so the
/// RTF path of each can be formed (`get_rtf_path` accepts exactly these).
pub proof fn law_export_uuids_are_valid(ns: Seq<NodeView>, items: Seq<BinderItem>, docs: Seq<Document>)
    requires
        mirrors_nodes(ns, items, docs),
    ensures
        uuids_ok(pairs_of(ns, items)),
        uuid_keys_ok(rtf_list(docs, pairs_of(ns, items))),
{
    lemma_pairs_uuids(ns, items, docs);
    lemma_rtf_uuids(docs, pairs_of(ns, items));
}

} // verus!
