//! Conversion of a Scrivener binder into a `.chikn` hierarchy and its
//! documents. Reading the binder's files is left to the caller: for every
//! binder item it hands over what its files held (`ItemFiles`), and the
//! conversion decides from that.
use vstd::prelude::*;
use vstd::string::StringExecFns;

use crate::error::{ChiknError, GitError, copy_error};
use crate::models::{Document, NodeView, TreeNode, nodes_view, lemma_nodes_view};
use crate::scrivener::scrivx::{BinderItem, ScrivenerProject};
use crate::scrivener::exporter::lookup_last;
use crate::scrivener::exporter::pairs_view;
use crate::slug::{unique_slug, unique_slug_text};
use crate::text::{chars_of, trim_chars, trim_ws, owned, str_eq, replace_text, replaced, lowercase, to_lowercase, ascii_hex};
use crate::slug::{slugify, slug_of};
use crate::models::nodes_view as nv_of;
use crate::ids::{new_uuid, now_rfc3339};

verus! {

/// What the caller found of an item's `content.rtf`.
pub enum RtfSource {
    /// The file does not exist.
    Missing,
    /// The file converted to this HTML.
    Html(String),
    /// The path was refused or the conversion failed.
    Failed(ChiknError),
}

/// What the caller found of a media item's file.
pub enum MediaSource {
    /// The item has no file extension, or the file does not exist.
    Missing,
    /// The file exists at this path.
    Found(String),
    /// The path was refused.
    Failed(ChiknError),
}

/// The files of a binder item and, in the same order, of its children.
pub struct ItemFiles {
    /// Whether the item's `content.rtf` exists (false when its UUID is
    /// refused as a path component).
    pub rtf_exists: bool,
    pub rtf: RtfSource,
    pub media: MediaSource,
    pub children: Vec<ItemFiles>,
}

/// How a binder item is converted, by its type.
pub enum ItemKind {
    Trash,
    Research,
    Folder,
    Text,
    Other,
}

pub open spec fn kind_of(t: Seq<char>) -> ItemKind {
    if t == "TrashFolder"@ {
        ItemKind::Trash
    } else if t == "ResearchFolder"@ {
        ItemKind::Research
    } else if t == "DraftFolder"@ || t == "Folder"@ {
        ItemKind::Folder
    } else if t == "Text"@ {
        ItemKind::Text
    } else {
        ItemKind::Other
    }
}

fn item_kind(t: &str) -> (k: ItemKind)
    ensures
        k == kind_of(t@),
{
    if str_eq(t, "TrashFolder") {
        ItemKind::Trash
    } else if str_eq(t, "ResearchFolder") {
        ItemKind::Research
    } else if str_eq(t, "DraftFolder") || str_eq(t, "Folder") {
        ItemKind::Folder
    } else if str_eq(t, "Text") {
        ItemKind::Text
    } else {
        ItemKind::Other
    }
}

/// The files have the shape of the items, level by level.
pub open spec fn files_match(items: Seq<BinderItem>, files: Seq<ItemFiles>) -> bool
    decreases items,
{
    &&& items.len() == files.len()
    &&& items.len() > 0 ==> {
        &&& files_match(items.drop_last(), files.drop_last())
        &&& files_match(items.last().children.items@, files.last().children@)
    }
}

proof fn lemma_files_match(items: Seq<BinderItem>, files: Seq<ItemFiles>, k: int)
    requires
        files_match(items, files),
        0 <= k < items.len(),
    ensures
        files_match(items[k].children.items@, files[k].children@),
        files_match(items.take(k), files.take(k)),
    decreases items.len(),
{
    if k == items.len() - 1 {
        assert(items.drop_last() =~= items.take(k));
        assert(files.drop_last() =~= files.take(k));
    } else {
        lemma_files_match(items.drop_last(), files.drop_last(), k);
        assert(items.drop_last().take(k) =~= items.take(k));
        assert(files.drop_last().take(k) =~= files.take(k));
    }
}

/// A title, or a default when there is none.
pub open spec fn title_or(o: Option<String>, d: Seq<char>) -> Seq<char> {
    match o {
        Some(t) => t@,
        None => d,
    }
}

/// The file extension in an item's metadata.
pub open spec fn item_ext(it: BinderItem) -> Option<Seq<char>> {
    match it.metadata {
        Some(m) => match m.file_extension {
            Some(e) => Some(e@),
            None => None,
        },
        None => None,
    }
}

/// A folder item carries its own text when its file converted to HTML that
/// is not blank.
pub open spec fn own_text(f: ItemFiles) -> bool {
    f.rtf matches RtfSource::Html(h) && trim_ws(h@).len() > 0
}

/// The first failure met when converting an item, in the order of the
/// conversion: a folder's children before its own file.
pub open spec fn item_error(it: BinderItem, f: ItemFiles) -> Option<ChiknError>
    decreases it, 1int,
{
    match kind_of(it.item_type@) {
        ItemKind::Trash => None,
        ItemKind::Research => items_error(it.children.items@, f.children@),
        ItemKind::Folder => match items_error(it.children.items@, f.children@) {
            Some(e) => Some(e),
            None => match f.rtf {
                RtfSource::Failed(e) => Some(e),
                _ => None,
            },
        },
        ItemKind::Text => match f.rtf {
            RtfSource::Failed(e) => Some(e),
            _ => None,
        },
        ItemKind::Other => if item_ext(it) is Some {
            match f.media {
                MediaSource::Failed(e) => Some(e),
                _ => None,
            }
        } else {
            None
        },
    }
}

/// The first failure met when converting items in order.
pub open spec fn items_error(items: Seq<BinderItem>, files: Seq<ItemFiles>) -> Option<ChiknError>
    decreases items, 0int,
{
    if items.len() == 0 || files.len() == 0 {
        None
    } else {
        match items_error(items.drop_last(), files.drop_last()) {
            Some(e) => Some(e),
            None => item_error(items.last(), files.last()),
        }
    }
}

/// How many nodes an item becomes (0 or 1).
pub open spec fn produces(it: BinderItem, f: ItemFiles) -> nat {
    match kind_of(it.item_type@) {
        ItemKind::Trash => 0,
        ItemKind::Other => if item_ext(it) is Some && f.media is Found { 1 } else { 0 },
        _ => 1,
    }
}

/// How many documents (and links) converting an item adds.
pub open spec fn doc_count(it: BinderItem, f: ItemFiles) -> nat
    decreases it, 1int,
{
    match kind_of(it.item_type@) {
        ItemKind::Trash => 0,
        ItemKind::Research => docs_count(it.children.items@, f.children@),
        ItemKind::Folder => docs_count(it.children.items@, f.children@) + if own_text(f) { 1nat } else { 0nat },
        ItemKind::Text => 1,
        ItemKind::Other => produces(it, f),
    }
}

/// How many documents converting items adds.
pub open spec fn docs_count(items: Seq<BinderItem>, files: Seq<ItemFiles>) -> nat
    decreases items, 0int,
{
    if items.len() == 0 || files.len() == 0 {
        0
    } else {
        docs_count(items.drop_last(), files.drop_last()) + doc_count(items.last(), files.last())
    }
}

/// The text of an optional string, as an optional text.
pub open spec fn opt_view(o: Option<String>) -> Option<Seq<char>> {
    match o {
        Some(s) => Some(s@),
        None => None,
    }
}

/// A timestamp taken from the item when it has one (else the current time,
/// of which nothing is said).
pub open spec fn stamp_ok(s: String, o: Option<String>) -> bool {
    o matches Some(x) ==> s@ == x@
}

/// The path of a converted document: `<target>/<unique slug><suffix>`.
pub open spec fn doc_path(target: Seq<char>, name: Seq<char>, docs: Seq<Document>, suffix: Seq<char>) -> Seq<char> {
    target + "/"@ + unique_slug_text(name, target + "/"@, docs) + suffix
}

/// The keywords as texts.
pub open spec fn keywords_view(o: Option<Vec<String>>) -> Option<Seq<Seq<char>>> {
    match o {
        Some(v) => Some(v@.map_values(|s: String| s@)),
        None => None,
    }
}

/// The document made for a converted item.
pub open spec fn new_doc(d: Document, id: Seq<char>, name: Seq<char>, path: Seq<char>, content: Seq<char>,
    parent: Option<Seq<char>>, it: BinderItem, with_meta: bool) -> bool {
    &&& d.id@ == id && d.name@ == name && d.path@ == path && d.content@ == content
    &&& opt_view(d.parent_id) == parent
    &&& stamp_ok(d.created, it.created) && stamp_ok(d.modified, it.modified)
    &&& d.links is None && d.include_in_compile && d.word_count_target == 0 && d.compile_order == 0
    &&& d.comments@.len() == 0
    &&& if with_meta {
        match it.metadata {
            Some(m) => opt_view(d.synopsis) == opt_view(m.synopsis) && opt_view(d.label) == opt_view(m.label)
                && opt_view(d.status) == opt_view(m.status) && keywords_view(d.keywords) == keywords_view(m.keywords),
            None => d.synopsis is None && d.label is None && d.status is None && d.keywords is None,
        }
    } else {
        d.synopsis is None && d.label is None && d.status is None && d.keywords is None
    }
}

/// The content of a text item: its HTML, or nothing when it has no file.
pub open spec fn text_content(f: ItemFiles) -> Seq<char> {
    match f.rtf {
        RtfSource::Html(h) => h@,
        _ => Seq::empty(),
    }
}

/// `d1` is `d0` with one more element.
pub open spec fn grows_by_one<T>(d0: Seq<T>, d1: Seq<T>) -> bool {
    d1.len() == d0.len() + 1 && d1.drop_last() == d0
}

/// Converting one item: from the documents `d0` and links `l0` before, it
/// gives the nodes `out` and the documents `d1` and links `l1` after. Ids
/// and missing timestamps are fresh; they are read from the result.
pub open spec fn item_rel(it: BinderItem, f: ItemFiles, target: Seq<char>, parent: Option<Seq<char>>,
    d0: Seq<Document>, l0: Seq<(Seq<char>, Seq<char>)>, out: Seq<NodeView>,
    d1: Seq<Document>, l1: Seq<(Seq<char>, Seq<char>)>) -> bool
    decreases it, 1int,
{
    match kind_of(it.item_type@) {
        ItemKind::Trash => d1 == d0 && l1 == l0,
        ItemKind::Research => out[0] matches NodeView::Folder { id, name, children }
            && name == title_or(it.title, "Research"@)
            && conv_rel(it.children.items@, f.children@, "research"@, Some(id), d0, l0, children, d1, l1),
        ItemKind::Folder => out[0] matches NodeView::Folder { id, name, children } && {
            let k: nat = if own_text(f) { 1 } else { 0 };
            &&& name == title_or(it.title, "Folder"@)
            &&& children.len() >= k && d1.len() >= k && l1.len() >= k
            &&& conv_rel(it.children.items@, f.children@, target, Some(id), d0, l0, children.skip(k as int),
                d1.take(d1.len() - k), l1.take(l1.len() - k))
            &&& own_text(f) ==> (children[0] matches NodeView::Document { id: did, name: dn, path: dp } && {
                let dm = d1.drop_last();
                &&& dn == name
                &&& dp == doc_path(target, name, dm, ".md"@)
                &&& new_doc(d1.last(), did, name, dp, text_content(f), Some(id), it, false)
                &&& l1.last() == (it.uuid@, dp)
            })
        },
        ItemKind::Text => out[0] matches NodeView::Document { id: did, name, path } && {
            &&& name == title_or(it.title, "Untitled"@)
            &&& path == doc_path(target, name, d0, ".md"@)
            &&& grows_by_one(d0, d1) && new_doc(d1.last(), did, name, path, text_content(f), parent, it, true)
            &&& l1 == l0.push((it.uuid@, path))
        },
        ItemKind::Other => match (item_ext(it), f.media) {
            (Some(e), MediaSource::Found(src)) => out[0] matches NodeView::Document { id: did, name, path } && {
                &&& name == title_or(it.title, "Untitled"@)
                &&& path == doc_path(target, name, d0, "."@ + e)
                &&& grows_by_one(d0, d1) && new_doc(d1.last(), did, name, path, Seq::empty(), parent, it, false)
                &&& l1 == l0.push(("__media__"@ + it.uuid@, src@ + "|"@ + path))
            },
            _ => d1 == d0 && l1 == l0,
        },
    }
}

/// Converting items in order: each item's nodes follow those of the items
/// before it, and its documents and links are appended after theirs.
pub open spec fn conv_rel(items: Seq<BinderItem>, files: Seq<ItemFiles>, target: Seq<char>, parent: Option<Seq<char>>,
    d0: Seq<Document>, l0: Seq<(Seq<char>, Seq<char>)>, nodes: Seq<NodeView>,
    d1: Seq<Document>, l1: Seq<(Seq<char>, Seq<char>)>) -> bool
    decreases items, 0int,
{
    if items.len() == 0 || files.len() == 0 {
        nodes.len() == 0 && d1 == d0 && l1 == l0
    } else {
        let it = items.last();
        let f = files.last();
        let p = produces(it, f);
        let c = doc_count(it, f);
        &&& nodes.len() >= p && d1.len() >= c && l1.len() >= c
        &&& conv_rel(items.drop_last(), files.drop_last(), target, parent, d0, l0, nodes.take(nodes.len() - p),
            d1.take(d1.len() - c), l1.take(l1.len() - c))
        &&& item_rel(it, f, target, parent, d1.take(d1.len() - c), l1.take(l1.len() - c),
            nodes.skip(nodes.len() - p), d1, l1)
    }
}

proof fn lemma_conv_len(items: Seq<BinderItem>, files: Seq<ItemFiles>, target: Seq<char>, parent: Option<Seq<char>>,
    d0: Seq<Document>, l0: Seq<(Seq<char>, Seq<char>)>, nodes: Seq<NodeView>,
    d1: Seq<Document>, l1: Seq<(Seq<char>, Seq<char>)>)
    requires
        conv_rel(items, files, target, parent, d0, l0, nodes, d1, l1),
    ensures
        d1.len() == d0.len() + docs_count(items, files),
        l1.len() == l0.len() + docs_count(items, files),
        d1.take(d0.len() as int) == d0,
        l1.take(l0.len() as int) == l0,
    decreases items, 0int,
{
    if items.len() > 0 && files.len() > 0 {
        let c = doc_count(items.last(), files.last());
        let p = produces(items.last(), files.last());
        let dm = d1.take(d1.len() - c);
        let lm = l1.take(l1.len() - c);
        lemma_conv_len(items.drop_last(), files.drop_last(), target, parent, d0, l0, nodes.take(nodes.len() - p), dm, lm);
        lemma_item_len(items.last(), files.last(), target, parent, dm, lm, nodes.skip(nodes.len() - p), d1, l1);
        assert(d1.take(d0.len() as int) =~= dm.take(d0.len() as int));
        assert(l1.take(l0.len() as int) =~= lm.take(l0.len() as int));
    } else {
        assert(d1.take(d0.len() as int) =~= d0);
        assert(l1.take(l0.len() as int) =~= l0);
    }
}

proof fn lemma_item_len(it: BinderItem, f: ItemFiles, target: Seq<char>, parent: Option<Seq<char>>,
    d0: Seq<Document>, l0: Seq<(Seq<char>, Seq<char>)>, out: Seq<NodeView>,
    d1: Seq<Document>, l1: Seq<(Seq<char>, Seq<char>)>)
    requires
        item_rel(it, f, target, parent, d0, l0, out, d1, l1),
    ensures
        d1.len() == d0.len() + doc_count(it, f),
        l1.len() == l0.len() + doc_count(it, f),
        d1.take(d0.len() as int) == d0,
        l1.take(l0.len() as int) == l0,
    decreases it, 1int,
{
    match kind_of(it.item_type@) {
        ItemKind::Research => {
            let children = out[0]->Folder_children;
            let id = out[0]->Folder_id;
            lemma_conv_len(it.children.items@, f.children@, "research"@, Some(id), d0, l0, children, d1, l1);
        },
        ItemKind::Folder => {
            let children = out[0]->Folder_children;
            let id = out[0]->Folder_id;
            let k: nat = if own_text(f) { 1 } else { 0 };
            let dm = d1.take(d1.len() - k);
            let lm = l1.take(l1.len() - k);
            lemma_conv_len(it.children.items@, f.children@, target, Some(id), d0, l0, children.skip(k as int), dm, lm);
            assert(d1.take(d0.len() as int) =~= dm.take(d0.len() as int));
            assert(l1.take(l0.len() as int) =~= lm.take(l0.len() as int));
        },
        ItemKind::Text => {
            assert(d1.take(d0.len() as int) =~= d1.drop_last());
            assert(l1.take(l0.len() as int) =~= l0);
        },
        ItemKind::Other => {
            assert(d1.take(d0.len() as int) =~= d1.drop_last() || d1 == d0);
            if d1 == d0 {
                assert(d1.take(d0.len() as int) =~= d0);
                assert(l1.take(l0.len() as int) =~= l0);
            } else {
                assert(d1.take(d0.len() as int) =~= d1.drop_last());
                assert(l1.take(l0.len() as int) =~= l0);
            }
        },
        ItemKind::Trash => {
            assert(d1.take(d0.len() as int) =~= d0);
            assert(l1.take(l0.len() as int) =~= l0);
        },
    }
}

proof fn lemma_items_error_split(items: Seq<BinderItem>, files: Seq<ItemFiles>, i: int)
    requires
        0 <= i < items.len(),
        items.len() == files.len(),
        items_error(items.take(i), files.take(i)) is None,
        item_error(items[i], files[i]) is Some,
    ensures
        items_error(items, files) == item_error(items[i], files[i]),
    decreases items.len(),
{
    if i == items.len() - 1 {
        assert(items.drop_last() =~= items.take(i));
        assert(files.drop_last() =~= files.take(i));
    } else {
        assert(items.drop_last().take(i) =~= items.take(i));
        assert(files.drop_last().take(i) =~= files.take(i));
        lemma_items_error_split(items.drop_last(), files.drop_last(), i);
    }
}

fn title_or_default(o: &Option<String>, d: &str) -> (r: String)
    ensures
        r@ == title_or(*o, d@),
{
    match o {
        Some(t) => t.clone(),
        None => owned(d),
    }
}

fn clone_opt(o: &Option<String>) -> (r: Option<String>)
    ensures
        opt_view(r) == opt_view(*o),
{
    match o {
        Some(t) => Some(t.clone()),
        None => None,
    }
}

fn clone_keywords(o: &Option<Vec<String>>) -> (r: Option<Vec<String>>)
    ensures
        keywords_view(r) == keywords_view(*o),
{
    match o {
        Some(v) => {
            let mut out: Vec<String> = Vec::new();
            let mut i: usize = 0;
            while i < v.len()
                invariant
                    i <= v@.len(),
                    out@ == v@.take(i as int),
                decreases v.len() - i,
            {
                out.push(v[i].clone());
                assert(v@.take(i + 1) =~= v@.take(i as int).push(v@[i as int]));
                i = i + 1;
            }
            assert(v@.take(v@.len() as int) =~= v@);
            assert(out@.map_values(|s: String| s@) =~= v@.map_values(|s: String| s@));
            Some(out)
        },
        None => None,
    }
}

fn stamp(o: &Option<String>) -> (r: String)
    ensures
        stamp_ok(r, *o),
{
    match o {
        Some(t) => t.clone(),
        None => now_rfc3339(),
    }
}

/// `<target>/<unique slug of name><suffix>`.
fn make_doc_path(target: &str, name: &str, docs: &Vec<Document>, suffix: &str) -> (r: String)
    ensures
        r@ == doc_path(target@, name@, docs@, suffix@),
{
    let mut base = owned(target);
    base.append("/");
    let slug = unique_slug(name, base.as_str(), docs.as_slice());
    let mut p = base;
    p.append(slug.as_str());
    p.append(suffix);
    p
}

fn not_blank(h: &String) -> (r: bool)
    ensures
        r == (trim_ws(h@).len() > 0),
{
    let cs = chars_of(h.as_str());
    let t = trim_chars(&cs);
    t.len() > 0
}

/// The nodes made for an item, as a sequence.
pub open spec fn out_seq(on: Option<TreeNode>) -> Seq<NodeView> {
    match on {
        Some(n) => seq![n.node_view()],
        None => Seq::empty(),
    }
}

fn new_document(id: &String, name: &String, path: &String, content: String, parent_id: Option<String>,
    it: &BinderItem, with_meta: bool) -> (d: Document)
    ensures
        new_doc(d, id@, name@, path@, content@, opt_view(parent_id), *it, with_meta),
{
    let (synopsis, label, status, keywords) = if with_meta {
        match &it.metadata {
            Some(m) => (clone_opt(&m.synopsis), clone_opt(&m.label), clone_opt(&m.status), clone_keywords(&m.keywords)),
            None => (None, None, None, None),
        }
    } else {
        (None, None, None, None)
    };
    Document {
        id: id.clone(),
        name: name.clone(),
        path: path.clone(),
        content,
        parent_id,
        created: stamp(&it.created),
        modified: stamp(&it.modified),
        synopsis,
        label,
        status,
        keywords,
        links: None,
        include_in_compile: true,
        word_count_target: 0,
        compile_order: 0,
        comments: Vec::new(),
    }
}

/// Converts one binder item: trash is skipped; a research folder becomes a
/// folder whose documents go to `research/`; a folder becomes a folder, led
/// by a document of its own text when it has some; a text item becomes a
/// document; a media item whose file exists becomes a document pointing at
/// the copied file. Each document is added to `documents`, and each binder
/// UUID's new path to `links`.
fn convert_item(it: &BinderItem, f: &ItemFiles, documents: &mut Vec<Document>, links: &mut Vec<(String, String)>,
    parent_id: &Option<String>, target_folder: &str) -> (r: Result<Option<TreeNode>, ChiknError>)
    requires
        files_match(it.children.items@, f.children@),
    ensures
        match item_error(*it, *f) {
            Some(e) => r == Err::<Option<TreeNode>, ChiknError>(e),
            None => r matches Ok(on) && (on is Some) == (produces(*it, *f) == 1)
                && item_rel(*it, *f, target_folder@, opt_view(*parent_id), old(documents)@, pairs_view(old(links)@),
                    out_seq(on), final(documents)@, pairs_view(final(links)@)),
        },
    decreases *it, 1int,
{
    let ghost d0 = documents@;
    let ghost l0 = pairs_view(links@);
    match item_kind(it.item_type.as_str()) {
        ItemKind::Trash => Ok(None),
        ItemKind::Research => {
            let folder_id = new_uuid();
            let name = title_or_default(&it.title, "Research");
            let children = match convert_binder_items_inner(it.children.items.as_slice(), f.children.as_slice(),
                documents, links, &Some(folder_id.clone()), "research") {
                Ok(c) => c,
                Err(e) => {
                    return Err(e);
                },
            };
            let node = TreeNode::Folder { id: folder_id, name, children };
            proof {
                assert(out_seq(Some(node))[0] == node.node_view());
            }
            Ok(Some(node))
        },
        ItemKind::Folder => {
            let folder_id = new_uuid();
            let name = title_or_default(&it.title, "Folder");
            let children = match convert_binder_items_inner(it.children.items.as_slice(), f.children.as_slice(),
                documents, links, &Some(folder_id.clone()), target_folder) {
                Ok(c) => c,
                Err(e) => {
                    return Err(e);
                },
            };
            let ghost dm = documents@;
            let ghost lm = pairs_view(links@);
            match &f.rtf {
                RtfSource::Failed(e) => {
                    return Err(copy_error(e));
                },
                RtfSource::Html(h) => {
                    if not_blank(h) {
                        let doc_id = new_uuid();
                        let doc_path = make_doc_path(target_folder, name.as_str(), documents, ".md");
                        links.push((it.uuid.clone(), doc_path.clone()));
                        let document = new_document(&doc_id, &name, &doc_path, h.clone(), Some(folder_id.clone()), it, false);
                        documents.push(document);
                        let mut all_children = vec![TreeNode::Document { id: doc_id, name: name.clone(), path: doc_path }];
                        let ghost first = all_children@;
                        let mut rest = children;
                        let ghost rest_before = rest@;
                        all_children.append(&mut rest);
                        let node = TreeNode::Folder { id: folder_id, name, children: all_children };
                        proof {
                            lemma_nodes_view(all_children@);
                            lemma_nodes_view(rest_before);
                            let cs = nodes_view(all_children@);
                            assert(cs.skip(1) =~= nodes_view(rest_before));
                            assert(documents@.drop_last() =~= dm);
                            assert(documents@.take(documents@.len() - 1) =~= dm);
                            assert(pairs_view(links@).take(pairs_view(links@).len() - 1) =~= lm);
                            assert(pairs_view(links@).last() == (it.uuid@, doc_path@));
                            assert(out_seq(Some(node))[0] == node.node_view());
                        }
                        return Ok(Some(node));
                    }
                },
                RtfSource::Missing => {},
            }
            let node = TreeNode::Folder { id: folder_id, name, children };
            proof {
                assert(out_seq(Some(node))[0] == node.node_view());
                assert(children@.len() >= 0);
                assert(nodes_view(children@).skip(0) =~= nodes_view(children@));
                assert(documents@.take(documents@.len() as int) =~= documents@);
                assert(pairs_view(links@).take(pairs_view(links@).len() as int) =~= pairs_view(links@));
            }
            Ok(Some(node))
        },
        ItemKind::Text => {
            let content = match &f.rtf {
                RtfSource::Failed(e) => {
                    return Err(copy_error(e));
                },
                RtfSource::Html(h) => h.clone(),
                RtfSource::Missing => String::new(),
            };
            let doc_id = new_uuid();
            let name = title_or_default(&it.title, "Untitled");
            let doc_path = make_doc_path(target_folder, name.as_str(), documents, ".md");
            links.push((it.uuid.clone(), doc_path.clone()));
            let document = new_document(&doc_id, &name, &doc_path, content, clone_opt(parent_id), it, true);
            documents.push(document);
            let node = TreeNode::Document { id: doc_id, name, path: doc_path };
            proof {
                assert(out_seq(Some(node))[0] == node.node_view());
                assert(documents@.drop_last() =~= d0);
                assert(pairs_view(links@) =~= l0.push((it.uuid@, doc_path@)));
            }
            Ok(Some(node))
        },
        ItemKind::Other => {
            let ext = match &it.metadata {
                Some(m) => match &m.file_extension {
                    Some(e) => e,
                    None => {
                        return Ok(None);
                    },
                },
                None => {
                    return Ok(None);
                },
            };
            match &f.media {
                MediaSource::Failed(e) => Err(copy_error(e)),
                MediaSource::Missing => Ok(None),
                MediaSource::Found(src) => {
                    let doc_id = new_uuid();
                    let name = title_or_default(&it.title, "Untitled");
                    let mut suffix = owned(".");
                    suffix.append(ext.as_str());
                    let doc_path = make_doc_path(target_folder, name.as_str(), documents, suffix.as_str());
                    let document = new_document(&doc_id, &name, &doc_path, String::new(), clone_opt(parent_id), it, false);
                    documents.push(document);
                    let mut key = owned("__media__");
                    key.append(it.uuid.as_str());
                    let mut value = src.clone();
                    value.append("|");
                    value.append(doc_path.as_str());
                    links.push((key, value));
                    let node = TreeNode::Document { id: doc_id, name, path: doc_path };
                    proof {
                        assert(out_seq(Some(node))[0] == node.node_view());
                        assert(documents@.drop_last() =~= d0);
                        assert(pairs_view(links@) =~= l0.push(("__media__"@ + it.uuid@, src@ + "|"@ + doc_path@)));
                    }
                    Ok(Some(node))
                },
            }
        },
    }
}

fn convert_binder_items_inner(items: &[BinderItem], files: &[ItemFiles], documents: &mut Vec<Document>,
    links: &mut Vec<(String, String)>, parent_id: &Option<String>, target_folder: &str) -> (r: Result<Vec<TreeNode>, ChiknError>)
    requires
        files_match(items@, files@),
    ensures
        match items_error(items@, files@) {
            Some(e) => r == Err::<Vec<TreeNode>, ChiknError>(e),
            None => r matches Ok(ns) && conv_rel(items@, files@, target_folder@, opt_view(*parent_id),
                old(documents)@, pairs_view(old(links)@), nodes_view(ns@), final(documents)@, pairs_view(final(links)@)),
        },
    decreases items@, 0int,
{
    let ghost d0 = documents@;
    let ghost l0 = pairs_view(links@);
    let mut hierarchy: Vec<TreeNode> = Vec::new();
    let mut i: usize = 0;
    proof {
        assert(items@.take(0) =~= Seq::<BinderItem>::empty());
        assert(files@.take(0) =~= Seq::<ItemFiles>::empty());
        lemma_nodes_view(hierarchy@);
    }
    while i < items.len()
        invariant
            i <= items@.len(),
            files_match(items@, files@),
            items@.len() == files@.len(),
            items_error(items@.take(i as int), files@.take(i as int)) is None,
            conv_rel(items@.take(i as int), files@.take(i as int), target_folder@, opt_view(*parent_id), d0, l0,
                nodes_view(hierarchy@), documents@, pairs_view(links@)),
        decreases items.len() - i,
    {
        proof {
            lemma_files_match(items@, files@, i as int);
            assert(decreases_to!(items@ => items@[i as int]));
        }
        let ghost dm = documents@;
        let ghost lm = pairs_view(links@);
        let ghost hm = hierarchy@;
        let it = &items[i];
        let f = &files[i];
        let res = convert_item(it, f, documents, links, parent_id, target_folder);
        let on = match res {
            Ok(on) => on,
            Err(e) => {
                proof {
                    lemma_items_error_split(items@, files@, i as int);
                }
                return Err(e);
            },
        };
        let ghost os = out_seq(on);
        match on {
            Some(n) => {
                hierarchy.push(n);
            },
            None => {},
        }
        proof {
            lemma_nodes_view(hm);
            lemma_nodes_view(hierarchy@);
            let nv = nodes_view(hierarchy@);
            assert(nv =~= nodes_view(hm) + os);
            let ti = items@.take(i + 1);
            let tf = files@.take(i + 1);
            assert(ti.drop_last() =~= items@.take(i as int));
            assert(tf.drop_last() =~= files@.take(i as int));
            assert(ti.last() == items@[i as int]);
            assert(tf.last() == files@[i as int]);
            lemma_item_len(*it, *f, target_folder@, opt_view(*parent_id), dm, lm, os, documents@, pairs_view(links@));
            let c = doc_count(*it, *f);
            assert(documents@.take(documents@.len() - c) =~= dm);
            assert(pairs_view(links@).take(pairs_view(links@).len() - c) =~= lm);
            assert(nv.take(nv.len() - os.len()) =~= nodes_view(hm));
            assert(nv.skip(nv.len() - os.len()) =~= os);
        }
        i = i + 1;
    }
    proof {
        assert(items@.take(items@.len() as int) =~= items@);
        assert(files@.take(files@.len() as int) =~= files@);
    }
    Ok(hierarchy)
}

/// `<target>/<slug of name><suffix>`, the path a binder item is expected to
/// get (without making the slug unique).
pub open spec fn slug_path_text(target: Seq<char>, name: Seq<char>, suffix: Seq<char>) -> Seq<char> {
    target + "/"@ + slug_of(name) + suffix
}

fn make_slug_path(target: &str, name: &str, suffix: &str) -> (r: String)
    ensures
        r@ == slug_path_text(target@, name@, suffix@),
{
    let mut p = owned(target);
    p.append("/");
    let slug = slugify(name);
    p.append(slug.as_str());
    p.append(suffix);
    p
}

/// The expected path of the first "Text" item of a subtree, depth first.
pub open spec fn first_text_path(items: Seq<BinderItem>, target: Seq<char>) -> Option<Seq<char>>
    decreases items, 0int,
{
    if items.len() == 0 {
        None
    } else {
        match item_first_text(items[0], target) {
            Some(p) => Some(p),
            None => first_text_path(items.drop_first(), target),
        }
    }
}

/// The expected path of an item if it is a "Text" item, else of the first
/// "Text" item below it.
pub open spec fn item_first_text(it: BinderItem, target: Seq<char>) -> Option<Seq<char>>
    decreases it, 1int,
{
    if it.item_type@ == "Text"@ {
        Some(slug_path_text(target, title_or(it.title, "untitled"@), ".md"@))
    } else {
        first_text_path(it.children.items@, target)
    }
}

/// Finds the expected path of the first "Text" item in a binder subtree.
fn find_first_text_path(items: &[BinderItem], target_folder: &str) -> (r: Option<String>)
    ensures
        match first_text_path(items@, target_folder@) {
            Some(p) => r matches Some(x) && x@ == p,
            None => r is None,
        },
    decreases items@, 0int,
{
    let mut i: usize = 0;
    proof {
        assert(items@.skip(0) =~= items@);
    }
    while i < items.len()
        invariant
            i <= items@.len(),
            first_text_path(items@, target_folder@) == first_text_path(items@.skip(i as int), target_folder@),
        decreases items.len() - i,
    {
        let item = &items[i];
        let ghost rest = items@.skip(i as int);
        assert(rest[0] == items@[i as int]);
        assert(rest.drop_first() =~= items@.skip(i + 1));
        if str_eq(item.item_type.as_str(), "Text") {
            let name = title_or_default(&item.title, "untitled");
            let p = make_slug_path(target_folder, name.as_str(), ".md");
            proof {
                assert(item_first_text(items@[i as int], target_folder@) == Some(p@));
                assert(first_text_path(rest, target_folder@) == Some(p@));
            }
            return Some(p);
        }
        proof {
            assert(decreases_to!(items@ => items@[i as int]));
        }
        match find_first_text_path(item.children.items.as_slice(), target_folder) {
            Some(p) => {
                proof {
                    assert(item_first_text(items@[i as int], target_folder@) == Some(p@));
                    assert(first_text_path(rest, target_folder@) == Some(p@));
                }
                return Some(p);
            },
            None => {
                proof {
                    assert(item_first_text(items@[i as int], target_folder@) is None);
                }
            },
        }
        i = i + 1;
    }
    None
}

/// The link entries a binder item gives before conversion: its UUID and the
/// path it is expected to get.
pub open spec fn item_entries(it: BinderItem, f: ItemFiles, target: Seq<char>) -> Seq<(Seq<char>, Seq<char>)>
    decreases it, 1int,
{
    match kind_of(it.item_type@) {
        ItemKind::Trash => Seq::empty(),
        ItemKind::Research => map_entries(it.children.items@, f.children@, "research"@),
        ItemKind::Folder => {
            (match first_text_path(it.children.items@, target) {
                Some(p) => seq![(it.uuid@, p)],
                None => Seq::empty(),
            }) + (if f.rtf_exists {
                seq![(it.uuid@, slug_path_text(target, title_or(it.title, "folder"@), ".md"@))]
            } else {
                Seq::empty()
            }) + map_entries(it.children.items@, f.children@, target)
        },
        ItemKind::Text => seq![(it.uuid@, slug_path_text(target, title_or(it.title, "untitled"@), ".md"@))]
            + map_entries(it.children.items@, f.children@, target),
        ItemKind::Other => match item_ext(it) {
            Some(e) => seq![(it.uuid@, slug_path_text(target, title_or(it.title, "untitled"@), "."@ + e))],
            None => Seq::empty(),
        },
    }
}

/// The link entries of items, in order.
pub open spec fn map_entries(items: Seq<BinderItem>, files: Seq<ItemFiles>, target: Seq<char>) -> Seq<(Seq<char>, Seq<char>)>
    decreases items, 0int,
{
    if items.len() == 0 || files.len() == 0 {
        Seq::empty()
    } else {
        map_entries(items.drop_last(), files.drop_last(), target) + item_entries(items.last(), files.last(), target)
    }
}

/// Records, before conversion, the path each binder item is expected to
/// get, so that links between documents can be rewritten whichever
/// document is converted first. A folder points at its first text item,
/// or at its own text when it has a file.
fn build_uuid_map(items: &[BinderItem], files: &[ItemFiles], links: &mut Vec<(String, String)>, target_folder: &str)
    requires
        files_match(items@, files@),
    ensures
        pairs_view(final(links)@) == pairs_view(old(links)@) + map_entries(items@, files@, target_folder@),
    decreases items@, 0int,
{
    let ghost l0 = pairs_view(links@);
    let mut i: usize = 0;
    proof {
        assert(items@.take(0) =~= Seq::<BinderItem>::empty());
        assert(l0 + Seq::empty() =~= l0);
    }
    while i < items.len()
        invariant
            i <= items@.len(),
            files_match(items@, files@),
            items@.len() == files@.len(),
            pairs_view(links@) == l0 + map_entries(items@.take(i as int), files@.take(i as int), target_folder@),
        decreases items.len() - i,
    {
        proof {
            lemma_files_match(items@, files@, i as int);
            assert(decreases_to!(items@ => items@[i as int]));
        }
        let item = &items[i];
        let f = &files[i];
        let ghost before = pairs_view(links@);
        match item_kind(item.item_type.as_str()) {
            ItemKind::Trash => {
                assert(pairs_view(links@) =~= before + item_entries(*item, *f, target_folder@));
            },
            ItemKind::Research => {
                build_uuid_map(item.children.items.as_slice(), f.children.as_slice(), links, "research");
                assert(pairs_view(links@) =~= before + item_entries(*item, *f, target_folder@));
            },
            ItemKind::Folder => {
                match find_first_text_path(item.children.items.as_slice(), target_folder) {
                    Some(path) => {
                        links.push((item.uuid.clone(), path));
                    },
                    None => {},
                }
                let ghost mid = pairs_view(links@);
                if f.rtf_exists {
                    let name = title_or_default(&item.title, "folder");
                    links.push((item.uuid.clone(), make_slug_path(target_folder, name.as_str(), ".md")));
                }
                let ghost mid2 = pairs_view(links@);
                build_uuid_map(item.children.items.as_slice(), f.children.as_slice(), links, target_folder);
                proof {
                    assert(pairs_view(links@) =~= before + item_entries(*item, *f, target_folder@));
                }
            },
            ItemKind::Text => {
                let name = title_or_default(&item.title, "untitled");
                links.push((item.uuid.clone(), make_slug_path(target_folder, name.as_str(), ".md")));
                if item.children.items.len() > 0 {
                    build_uuid_map(item.children.items.as_slice(), f.children.as_slice(), links, target_folder);
                }
                proof {
                    if item.children.items@.len() == 0 {
                        assert(item.children.items@ =~= Seq::<BinderItem>::empty());
                    }
                    assert(pairs_view(links@) =~= before + item_entries(*item, *f, target_folder@));
                }
            },
            ItemKind::Other => {
                if let Some(metadata) = &item.metadata {
                    if let Some(ext) = &metadata.file_extension {
                        let name = title_or_default(&item.title, "untitled");
                        let mut suffix = owned(".");
                        suffix.append(ext.as_str());
                        links.push((item.uuid.clone(), make_slug_path(target_folder, name.as_str(), suffix.as_str())));
                    }
                }
                proof {
                    assert(pairs_view(links@) =~= before + item_entries(*item, *f, target_folder@));
                }
            },
        }
        proof {
            let ti = items@.take(i + 1);
            let tf = files@.take(i + 1);
            assert(ti.drop_last() =~= items@.take(i as int));
            assert(tf.drop_last() =~= files@.take(i as int));
            assert(ti.last() == items@[i as int]);
            assert(tf.last() == files@[i as int]);
            assert(pairs_view(links@) =~= l0 + map_entries(ti, tf, target_folder@));
        }
        i = i + 1;
    }
    proof {
        assert(items@.take(items@.len() as int) =~= items@);
        assert(files@.take(files@.len() as int) =~= files@);
    }
}

/// Whether a folder name, lowercased, is one of `names`.
pub open spec fn named(name: Seq<char>, a: Seq<char>, b: Seq<char>) -> bool {
    lowercase(name) == a || lowercase(name) == b
}

/// Where a top-level node goes when the project structure is made.
pub enum Placement {
    /// A manuscript (or draft) folder: its children go into Manuscript.
    Manuscript,
    /// A research folder: its children go into Research.
    Research,
    /// A trash folder: dropped.
    Trash,
    /// Anything else goes into Manuscript as it is.
    Loose,
}

pub open spec fn placement(n: NodeView) -> Placement {
    match n {
        NodeView::Folder { name, .. } => if named(name, "manuscript"@, "draft"@) {
            Placement::Manuscript
        } else if named(name, "research"@, "research"@) {
            Placement::Research
        } else if named(name, "trash"@, "trash"@) {
            Placement::Trash
        } else {
            Placement::Loose
        },
        NodeView::Document { .. } => Placement::Loose,
    }
}

/// The children that end up in Manuscript, in order.
pub open spec fn manuscript_children(ns: Seq<NodeView>) -> Seq<NodeView>
    decreases ns.len(),
{
    if ns.len() == 0 {
        Seq::empty()
    } else {
        manuscript_children(ns.drop_last()) + match placement(ns.last()) {
            Placement::Manuscript => ns.last()->Folder_children,
            Placement::Loose => seq![ns.last()],
            _ => Seq::empty(),
        }
    }
}

/// The children that end up in Research, in order.
pub open spec fn research_children(ns: Seq<NodeView>) -> Seq<NodeView>
    decreases ns.len(),
{
    if ns.len() == 0 {
        Seq::empty()
    } else {
        research_children(ns.drop_last()) + match placement(ns.last()) {
            Placement::Research => ns.last()->Folder_children,
            _ => Seq::empty(),
        }
    }
}

/// The id of the last folder placed as `which`, if any.
pub open spec fn last_id(ns: Seq<NodeView>, which: Placement) -> Option<Seq<char>>
    decreases ns.len(),
{
    if ns.len() == 0 {
        None
    } else if placement(ns.last()) == which {
        Some(ns.last().id())
    } else {
        last_id(ns.drop_last(), which)
    }
}

/// A top-level folder as the structure makes it.
pub open spec fn top_folder(n: NodeView, id: Option<Seq<char>>, name: Seq<char>, children: Seq<NodeView>) -> bool {
    n matches NodeView::Folder { id: fid, name: fname, children: fc }
        && fname == name && fc == children && (id matches Some(x) ==> fid == x)
}

fn classify(node: &TreeNode) -> (p: Placement)
    ensures
        p == placement(node.node_view()),
{
    match node {
        TreeNode::Folder { name, .. } => {
            let lower = to_lowercase(name.as_str());
            if str_eq(lower.as_str(), "manuscript") || str_eq(lower.as_str(), "draft") {
                Placement::Manuscript
            } else if str_eq(lower.as_str(), "research") {
                Placement::Research
            } else if str_eq(lower.as_str(), "trash") {
                Placement::Trash
            } else {
                Placement::Loose
            }
        },
        TreeNode::Document { .. } => Placement::Loose,
    }
}

/// Gives the hierarchy the three top-level folders Manuscript, Research and
/// Trash. The children of manuscript (or draft) folders and every loose
/// top-level node go into Manuscript, the children of research folders into
/// Research; trash folders are dropped and a new empty Trash is made. The
/// last manuscript and research folders lend their ids; otherwise fresh ids
/// are used.
fn ensure_project_structure(hierarchy: Vec<TreeNode>) -> (r: Vec<TreeNode>)
    ensures
        r@.len() == 3,
        top_folder(r@[0].node_view(), last_id(nodes_view(hierarchy@), Placement::Manuscript), "Manuscript"@,
            manuscript_children(nodes_view(hierarchy@))),
        top_folder(r@[1].node_view(), last_id(nodes_view(hierarchy@), Placement::Research), "Research"@,
            research_children(nodes_view(hierarchy@))),
        top_folder(r@[2].node_view(), None, "Trash"@, Seq::empty()),
{
    let mut hierarchy = hierarchy;
    let ghost v = nodes_view(hierarchy@);
    proof {
        lemma_nodes_view(hierarchy@);
        assert(v.take(0) =~= Seq::<NodeView>::empty());
    }
    let mut manuscript: Vec<TreeNode> = Vec::new();
    let mut research: Vec<TreeNode> = Vec::new();
    let mut manuscript_id: Option<String> = None;
    let mut research_id: Option<String> = None;
    let mut i: usize = 0;
    while i < hierarchy.len()
        invariant
            i <= hierarchy@.len(),
            v.len() == hierarchy@.len(),
            forall|q: int| i <= q < hierarchy@.len() ==> #[trigger] hierarchy@[q].node_view() == v[q],
            nodes_view(manuscript@) == manuscript_children(v.take(i as int)),
            nodes_view(research@) == research_children(v.take(i as int)),
            opt_view(manuscript_id) == last_id(v.take(i as int), Placement::Manuscript),
            opt_view(research_id) == last_id(v.take(i as int), Placement::Research),
        decreases hierarchy.len() - i,
    {
        let ghost t = v.take(i + 1);
        proof {
            assert(t.drop_last() =~= v.take(i as int));
            assert(t.last() == v[i as int]);
        }
        let mut node = TreeNode::Document { id: String::new(), name: String::new(), path: String::new() };
        hierarchy.set_and_swap(i, &mut node);
        assert(node.node_view() == v[i as int]);
        let place = classify(&node);
        let ghost mbefore = manuscript@;
        let ghost rbefore = research@;
        match place {
            Placement::Manuscript => {
                if let TreeNode::Folder { id, mut children, .. } = node {
                    let ghost kids = children@;
                    manuscript_id = Some(id);
                    manuscript.append(&mut children);
                    proof {
                        lemma_nodes_view(mbefore);
                        lemma_nodes_view(kids);
                        lemma_nodes_view(manuscript@);
                        assert(nodes_view(manuscript@) =~= nodes_view(mbefore) + nodes_view(kids));
                    }
                }
            },
            Placement::Research => {
                if let TreeNode::Folder { id, mut children, .. } = node {
                    let ghost kids = children@;
                    research_id = Some(id);
                    research.append(&mut children);
                    proof {
                        lemma_nodes_view(rbefore);
                        lemma_nodes_view(kids);
                        lemma_nodes_view(research@);
                        assert(nodes_view(research@) =~= nodes_view(rbefore) + nodes_view(kids));
                    }
                }
            },
            Placement::Trash => {},
            Placement::Loose => {
                let ghost nvw = node.node_view();
                manuscript.push(node);
                proof {
                    lemma_nodes_view(mbefore);
                    lemma_nodes_view(manuscript@);
                    assert(nodes_view(manuscript@) =~= nodes_view(mbefore) + seq![nvw]);
                }
            },
        }
        proof {
            assert(nodes_view(manuscript@) == manuscript_children(t));
            assert(nodes_view(research@) == research_children(t));
        }
        i = i + 1;
    }
    proof {
        assert(v.take(v.len() as int) =~= v);
    }
    let mut kept: Vec<TreeNode> = Vec::new();
    let mid = match manuscript_id {
        Some(x) => x,
        None => new_uuid(),
    };
    let rid = match research_id {
        Some(x) => x,
        None => new_uuid(),
    };
    kept.push(TreeNode::Folder { id: mid, name: owned("Manuscript"), children: manuscript });
    kept.push(TreeNode::Folder { id: rid, name: owned("Research"), children: research });
    kept.push(TreeNode::Folder { id: new_uuid(), name: owned("Trash"), children: Vec::new() });
    proof {
        assert(nodes_view(Seq::<TreeNode>::empty()) =~= Seq::<NodeView>::empty());
    }
    kept
}

/// Scrivener links: `scrivlnk://` and the target's UUID.
pub const SCRIVENER_LINK_PATTERN: &'static str = r"scrivlnk://([A-Fa-f0-9-]+)";
/// Compile style tags escaped as HTML.
pub const STYLE_TAG_HTML_PATTERN: &'static str = r"&lt;[!]?\$Scr_[CP]s::\d+&gt;";
/// Compile style tags left raw.
pub const STYLE_TAG_RAW_PATTERN: &'static str = r"<[!]?\$Scr_[CP]s::\d+>";
/// Compile style tags escaped with backslashes by older conversions.
pub const STYLE_TAG_ESCAPED_PATTERN: &'static str = r"\\<[!]?\\?\$Scr_[CP]s::\d+\\>";
/// Custom variable placeholders.
pub const VARIABLE_PATTERN: &'static str = r"&lt;\$\w+:\w+&gt;";
/// Bold elements left empty.
pub const EMPTY_STRONG_PATTERN: &'static str = r"<strong>\s*</strong>";
/// Italic elements left empty.
pub const EMPTY_EM_PATTERN: &'static str = r"<em>\s*</em>";
/// Paragraphs left empty.
pub const EMPTY_P_PATTERN: &'static str = r"<p>\s*</p>";

/// What compiling `pattern` with `Regex::new` and replacing every match in
/// `text` by `rep` with `replace_all` gives; `None` when the pattern does
/// not compile.
pub uninterp spec fn regex_replaced(pattern: Seq<char>, text: Seq<char>, rep: Seq<char>) -> Option<Seq<char>>;

/// Replaces every match of a regular expression. Calls `Regex::new` and
/// `Regex::replace_all` of the regex crate; the contract names the result.
#[verifier::external_body]
fn regex_replace_all(pattern: &str, text: &str, rep: &str) -> (r: Option<String>)
    ensures
        match r {
            Some(x) => regex_replaced(pattern@, text@, rep@) == Some(x@),
            None => regex_replaced(pattern@, text@, rep@) is None,
        },
{
    regex::Regex::new(pattern).ok().map(|re| re.replace_all(text, rep).into_owned())
}

/// A character the link pattern takes into a UUID (`[A-Fa-f0-9-]`).
pub open spec fn uuid_char(c: char) -> bool {
    ascii_hex(c) || c == '-'
}

/// How many UUID characters follow from position `i` on.
pub open spec fn uuid_run(s: Seq<char>, i: int) -> nat
    decreases s.len() - i,
{
    if 0 <= i < s.len() && uuid_char(s[i]) { 1 + uuid_run(s, i + 1) } else { 0 }
}

/// A run of UUID characters ends within the text.
pub proof fn lemma_uuid_run_bound(s: Seq<char>, i: int)
    requires
        0 <= i <= s.len(),
    ensures
        i + uuid_run(s, i) <= s.len(),
    decreases s.len() - i,
{
    if i < s.len() {
        lemma_uuid_run_bound(s, i + 1);
    }
}

/// Whether a match of `SCRIVENER_LINK_PATTERN` starts at position `i`:
/// `scrivlnk://` and at least one UUID character.
pub open spec fn link_at(s: Seq<char>, i: int) -> bool {
    &&& 0 <= i
    &&& i + 11 <= s.len()
    &&& s.subrange(i, i + 11) == "scrivlnk://"@
    &&& uuid_run(s, i + 11) > 0
}

/// The text from position `i` on with every link rewritten, as
/// `replace_all` does it: matches are found leftmost first, each takes all
/// the UUID characters that follow (`+` is greedy), and the search goes on
/// after the match.
pub open spec fn links_rewritten_from(s: Seq<char>, i: int, links: Seq<(Seq<char>, Seq<char>)>) -> Seq<char>
    decreases s.len() - i,
{
    if i < 0 || i >= s.len() {
        Seq::empty()
    } else if link_at(s, i) {
        let n = uuid_run(s, i + 11);
        proof {
            lemma_uuid_run_bound(s, i + 11);
        }
        link_text(links, s.subrange(i + 11, i + 11 + n)) + links_rewritten_from(s, i + 11 + n, links)
    } else {
        seq![s[i]] + links_rewritten_from(s, i + 1, links)
    }
}

/// Rewrites every Scrivener link in `text` through `link_target`. Calls
/// `Regex::new` on the fixed `SCRIVENER_LINK_PATTERN`, which compiles, and
/// `Regex::replace_all` with a closure that takes the first capture group
/// (the UUID, which every match of that pattern has) and calls the verified
/// `link_target`. The contract states the result: each `scrivlnk://` and the
/// run of UUID characters after it, found leftmost first, replaced by the
/// recorded path.
#[verifier::external_body]
fn regex_replace_links(text: &str, links: &Vec<(String, String)>) -> (r: String)
    ensures
        r@ == links_rewritten_from(text@, 0, pairs_view(links@)),
{
    match regex::Regex::new(SCRIVENER_LINK_PATTERN) {
        Ok(re) => re.replace_all(text, |caps: &regex::Captures| link_target(links, &caps[1])).into_owned(),
        Err(_) => text.to_string(),
    }
}

/// Where a Scrivener link to `uuid` points: the path recorded last for it,
/// or the link unchanged when none was recorded.
pub open spec fn link_text(links: Seq<(Seq<char>, Seq<char>)>, uuid: Seq<char>) -> Seq<char> {
    match lookup_last(links, uuid) {
        Some(p) => p,
        None => "scrivlnk://"@ + uuid,
    }
}

/// Where a Scrivener link to `uuid` points.
pub fn link_target(links: &Vec<(String, String)>, uuid: &str) -> (r: String)
    ensures
        r@ == link_text(pairs_view(links@), uuid@),
{
    let mut i: usize = links.len();
    let ghost pv = pairs_view(links@);
    proof {
        assert(pv.take(pv.len() as int) =~= pv);
    }
    while i > 0
        invariant
            i <= links@.len(),
            pv == pairs_view(links@),
            pv.len() == links@.len(),
            lookup_last(pv, uuid@) == lookup_last(pv.take(i as int), uuid@),
        decreases i,
    {
        let ghost t = pv.take(i as int);
        assert(t.drop_last() =~= pv.take(i - 1));
        assert(t.last() == (links@[i - 1].0@, links@[i - 1].1@));
        if str_eq(links[i - 1].0.as_str(), uuid) {
            return links[i - 1].1.clone();
        }
        i = i - 1;
    }
    let mut r = owned("scrivlnk://");
    r.append(uuid);
    r
}

/// A replacement's result, or the text unchanged when the pattern did not
/// compile.
pub open spec fn or_keep(o: Option<Seq<char>>, s: Seq<char>) -> Seq<char> {
    match o {
        Some(x) => x,
        None => s,
    }
}

/// `s` with every match of `pattern` removed.
pub open spec fn stripped(pattern: Seq<char>, s: Seq<char>) -> Seq<char> {
    or_keep(regex_replaced(pattern, s, Seq::empty()), s)
}

fn strip(pattern: &str, s: String) -> (r: String)
    ensures
        r@ == stripped(pattern@, s@),
{
    proof {
        reveal_strlit("");
        assert(""@ =~= Seq::<char>::empty());
    }
    match regex_replace_all(pattern, s.as_str(), "") {
        Some(x) => x,
        None => s,
    }
}

/// Converted content cleaned of Scrivener markup: links rewritten to the
/// recorded paths, compile style tags and variable placeholders removed,
/// hard line breaks turned into paragraph breaks, and elements left empty
/// removed, in that order. (The patterns are fixed and compile; the text is
/// kept unchanged where one would not.)
pub open spec fn cleaned(content: Seq<char>, links: Seq<(Seq<char>, Seq<char>)>) -> Seq<char> {
    let t1 = links_rewritten_from(content, 0, links);
    let t2 = stripped(STYLE_TAG_HTML_PATTERN@, t1);
    let t3 = stripped(STYLE_TAG_RAW_PATTERN@, t2);
    let t4 = stripped(STYLE_TAG_ESCAPED_PATTERN@, t3);
    let t5 = stripped(VARIABLE_PATTERN@, t4);
    let t6 = replaced(t5, "<br />\n"@, "</p>\n<p>"@);
    let t7 = replaced(t6, "<br/>"@, "</p><p>"@);
    let t8 = stripped(EMPTY_STRONG_PATTERN@, t7);
    let t9 = stripped(EMPTY_EM_PATTERN@, t8);
    stripped(EMPTY_P_PATTERN@, t9)
}

/// Cleans Scrivener markup out of converted content.
pub fn clean_scrivener_markup(content: &str, links: &Vec<(String, String)>) -> (r: String)
    ensures
        r@ == cleaned(content@, pairs_view(links@)),
{
    let t1 = regex_replace_links(content, links);
    let t2 = strip(STYLE_TAG_HTML_PATTERN, t1);
    let t3 = strip(STYLE_TAG_RAW_PATTERN, t2);
    let t4 = strip(STYLE_TAG_ESCAPED_PATTERN, t3);
    let t5 = strip(VARIABLE_PATTERN, t4);
    proof {
        reveal_strlit("<br />\n");
        reveal_strlit("<br/>");
    }
    let t6 = replace_text(t5.as_str(), "<br />\n", "</p>\n<p>");
    let t7 = replace_text(t6.as_str(), "<br/>", "</p><p>");
    let t8 = strip(EMPTY_STRONG_PATTERN, t7);
    let t9 = strip(EMPTY_EM_PATTERN, t8);
    strip(EMPTY_P_PATTERN, t9)
}

/// Converts the binder of a Scrivener project into hierarchy nodes and
/// documents: manuscript items go to `manuscript/`.
fn convert_binder_items(items: &[BinderItem], files: &[ItemFiles], documents: &mut Vec<Document>,
    links: &mut Vec<(String, String)>) -> (r: Result<Vec<TreeNode>, ChiknError>)
    requires
        files_match(items@, files@),
    ensures
        match items_error(items@, files@) {
            Some(e) => r == Err::<Vec<TreeNode>, ChiknError>(e),
            None => r matches Ok(ns) && conv_rel(items@, files@, "manuscript"@, None, old(documents)@, pairs_view(old(links)@),
                nodes_view(ns@), final(documents)@, pairs_view(final(links)@)),
        },
{
    convert_binder_items_inner(items, files, documents, links, &None, "manuscript")
}

/// A document with its content replaced.
pub open spec fn same_but_content(a: Document, b: Document) -> bool {
    a == Document { content: a.content, ..b }
}

/// `x` is the binder converted into the nodes `nodes` and the documents
/// `raw` (before cleaning), as `conv_rel` relates them to the binder and its
/// files, with every document's content cleaned and the hierarchy given its
/// three top-level folders.
pub open spec fn converted_from(x: ConvertedBinder, binder: Seq<BinderItem>, files: Vec<ItemFiles>, nodes: Seq<NodeView>,
    raw: Seq<Document>) -> bool {
    &&& conv_rel(binder, files@, "manuscript"@, None, Seq::empty(), map_entries(binder, files@, "manuscript"@), nodes, raw,
        pairs_view(x.links@))
    &&& x.documents@.len() == raw.len()
    &&& forall|k: int| 0 <= k < raw.len() ==> same_but_content(#[trigger] x.documents@[k], raw[k])
        && x.documents@[k].content@ == cleaned(raw[k].content@, pairs_view(x.links@))
    &&& x.hierarchy@.len() == 3
    &&& top_folder(x.hierarchy@[0].node_view(), last_id(nodes, Placement::Manuscript), "Manuscript"@, manuscript_children(nodes))
    &&& top_folder(x.hierarchy@[1].node_view(), last_id(nodes, Placement::Research), "Research"@, research_children(nodes))
    &&& top_folder(x.hierarchy@[2].node_view(), None, "Trash"@, Seq::empty())
}

/// The result of converting a Scrivener binder.
pub struct ConvertedBinder {
    /// Manuscript, Research and Trash, holding the converted nodes.
    pub hierarchy: Vec<TreeNode>,
    /// The converted documents, their content cleaned.
    pub documents: Vec<Document>,
    /// Binder UUIDs with the paths they got; media entries are keyed
    /// `__media__<uuid>` and hold `<source path>|<project path>`.
    pub links: Vec<(String, String)>,
}

/// Converts the binder of a parsed Scrivener project, given what its files
/// held: expected paths are recorded first, then the items are converted,
/// then every document's content is cleaned with the final links, and the
/// hierarchy gets its Manuscript, Research and Trash folders. The first
/// file failure, in conversion order, is returned.
pub fn convert_scrivener_binder(project: &ScrivenerProject, files: &Vec<ItemFiles>) -> (r: Result<ConvertedBinder, ChiknError>)
    requires
        files_match(project.binder@, files@),
    ensures
        match items_error(project.binder@, files@) {
            Some(e) => r == Err::<ConvertedBinder, ChiknError>(e),
            None => r matches Ok(x) && exists|nodes: Seq<NodeView>, raw: Seq<Document>|
                #[trigger] converted_from(x, project.binder@, *files, nodes, raw),
        },
{
    let mut links: Vec<(String, String)> = Vec::new();
    build_uuid_map(project.binder.as_slice(), files.as_slice(), &mut links, "manuscript");
    let ghost l_mapped = pairs_view(links@);
    proof {
        assert(pairs_view(Seq::<(String, String)>::empty()) =~= Seq::empty());
        assert(l_mapped =~= map_entries(project.binder@, files@, "manuscript"@));
    }
    let mut documents: Vec<Document> = Vec::new();
    let hierarchy = match convert_binder_items(project.binder.as_slice(), files.as_slice(), &mut documents, &mut links) {
        Ok(h) => h,
        Err(e) => {
            return Err(e);
        },
    };
    let ghost raw = documents@;
    let ghost nodes = nodes_view(hierarchy@);
    proof {
        assert(documents@.take(0) =~= Seq::<Document>::empty());
    }
    let mut k: usize = 0;
    while k < documents.len()
        invariant
            k <= documents@.len(),
            documents@.len() == raw.len(),
            forall|j: int| 0 <= j < raw.len() ==> same_but_content(#[trigger] documents@[j], raw[j]),
            forall|j: int| 0 <= j < k ==> #[trigger] documents@[j].content@ == cleaned(raw[j].content@, pairs_view(links@)),
            forall|j: int| k <= j < raw.len() ==> #[trigger] documents@[j].content == raw[j].content,
            conv_rel(project.binder@, files@, "manuscript"@, None, Seq::empty(),
                map_entries(project.binder@, files@, "manuscript"@), nodes, raw, pairs_view(links@)),
            nodes == nodes_view(hierarchy@),
        decreases documents.len() - k,
    {
        let mut doc = Document::default();
        documents.set_and_swap(k, &mut doc);
        let fresh = clean_scrivener_markup(doc.content.as_str(), &links);
        doc.content = fresh;
        documents.set_and_swap(k, &mut doc);
        k = k + 1;
    }
    let structured = ensure_project_structure(hierarchy);
    let x = ConvertedBinder { hierarchy: structured, documents, links };
    proof {
        assert(converted_from(x, project.binder@, *files, nodes, raw));
    }
    let r: Result<ConvertedBinder, ChiknError> = Ok(x);
    assert(r->Ok_0 == x);
    r
}

/// A binder item of type "Folder" converts as the draft folder does: into
/// one folder node named after its title ("Folder" when it has none),
/// whose children, after the document of the folder's own text when it has
/// some, are the conversions of the item's children, into the same target
/// folder and with the new folder as their parent. It fails only where a
/// child or its own file fails, and adds the documents of its children and
/// one for its own text.
pub proof fn law_folder_item_becomes_folder(it: BinderItem, f: ItemFiles, target: Seq<char>,
    parent: Option<Seq<char>>, d0: Seq<Document>, l0: Seq<(Seq<char>, Seq<char>)>, out: Seq<NodeView>,
    d1: Seq<Document>, l1: Seq<(Seq<char>, Seq<char>)>)
    requires
        it.item_type@ == "Folder"@ || it.item_type@ == "DraftFolder"@,
    ensures
        produces(it, f) == 1,
        doc_count(it, f) == docs_count(it.children.items@, f.children@) + if own_text(f) { 1nat } else { 0nat },
        item_error(it, f) == match items_error(it.children.items@, f.children@) {
            Some(e) => Some(e),
            None => match f.rtf {
                RtfSource::Failed(e) => Some(e),
                _ => None,
            },
        },
        item_rel(it, f, target, parent, d0, l0, out, d1, l1) ==> (out[0] matches NodeView::Folder { id, name, children } && {
            let k: nat = if own_text(f) { 1 } else { 0 };
            &&& name == title_or(it.title, "Folder"@)
            &&& children.len() >= k
            &&& conv_rel(it.children.items@, f.children@, target, Some(id), d0, l0, children.skip(k as int),
                d1.take(d1.len() - k), l1.take(l1.len() - k))
            &&& own_text(f) ==> (children[0] matches NodeView::Document { name: dn, .. } && dn == name)
        }),
{
    reveal_strlit("Folder");
    reveal_strlit("DraftFolder");
    reveal_strlit("TrashFolder");
    reveal_strlit("ResearchFolder");
    reveal_strlit("Text");
    assert("Folder"@.len() == 6 && "DraftFolder"@.len() == 11 && "ResearchFolder"@.len() == 14);
    assert("DraftFolder"@[0] == 'D' && "TrashFolder"@[0] == 'T');
    assert(it.item_type@ != "TrashFolder"@);
    assert(it.item_type@ != "ResearchFolder"@);
    assert(kind_of(it.item_type@) == ItemKind::Folder);
}

} // verus!
