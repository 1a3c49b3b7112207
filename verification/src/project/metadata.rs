//! The `.meta` sidecar of a document: what is written for a document and
//! how a document is rebuilt from what is read back.
use vstd::prelude::*;

use crate::ids::{new_uuid, now_rfc3339};
use crate::models::{Comment, Document};
use crate::project::reader::HierarchyDocumentIdentity;
use crate::scrivener::scrivx::is_hyphenated_uuid;
use crate::text::{owned, str_eq};

verus! {

/// The fields of a `.meta` sidecar that the library reads and writes.
pub struct DocumentMetadata {
    pub id: String,
    pub name: Option<String>,
    pub created: String,
    pub modified: String,
    pub parent_id: Option<String>,
    pub label: Option<String>,
    pub status: Option<String>,
    pub keywords: Option<Vec<String>>,
    pub synopsis: Option<String>,
    /// Scrivener section type UUID.
    pub section_type: Option<String>,
    /// `"Yes"` or `"No"`.
    pub include_in_compile: Option<String>,
    /// Original Scrivener UUID, kept for round trips.
    pub scrivener_uuid: Option<String>,
    pub links: Option<Vec<String>>,
    pub word_count_target: u32,
    pub compile_order: i32,
    pub comments: Vec<Comment>,
}

/// An optional string as an optional view.
pub open spec fn opt_text(o: Option<String>) -> Option<Seq<char>> {
    match o {
        Some(s) => Some(s@),
        None => None,
    }
}

/// An optional list of strings as an optional list of views.
pub open spec fn opt_texts(o: Option<Vec<String>>) -> Option<Seq<Seq<char>>> {
    match o {
        Some(v) => Some(v@.map_values(|s: String| s@)),
        None => None,
    }
}

/// A comment as plain values.
pub open spec fn comment_view(c: Comment) -> (Seq<char>, Seq<char>, bool, Seq<char>, Seq<char>) {
    (c.id@, c.body@, c.resolved, c.created@, c.modified@)
}

/// Comments as plain values.
pub open spec fn comments_view(cs: Seq<Comment>) -> Seq<(Seq<char>, Seq<char>, bool, Seq<char>, Seq<char>)> {
    cs.map_values(|c: Comment| comment_view(c))
}

fn copy_opt(o: &Option<String>) -> (r: Option<String>)
    ensures
        opt_text(r) == opt_text(*o),
{
    match o {
        Some(s) => Some(s.clone()),
        None => None,
    }
}

fn copy_strings(v: &Vec<String>) -> (r: Vec<String>)
    ensures
        r@.map_values(|s: String| s@) == v@.map_values(|s: String| s@),
{
    let mut out: Vec<String> = Vec::new();
    let mut i: usize = 0;
    while i < v.len()
        invariant
            i <= v@.len(),
            out@.len() == i,
            forall|k: int| 0 <= k < i ==> #[trigger] out@[k]@ == v@[k]@,
        decreases v.len() - i,
    {
        out.push(v[i].clone());
        i = i + 1;
    }
    proof {
        assert(out@.map_values(|s: String| s@) =~= v@.map_values(|s: String| s@));
    }
    out
}

fn copy_opt_strings(o: &Option<Vec<String>>) -> (r: Option<Vec<String>>)
    ensures
        opt_texts(r) == opt_texts(*o),
{
    match o {
        Some(v) => Some(copy_strings(v)),
        None => None,
    }
}

fn copy_comments(v: &Vec<Comment>) -> (r: Vec<Comment>)
    ensures
        comments_view(r@) == comments_view(v@),
{
    let mut out: Vec<Comment> = Vec::new();
    let mut i: usize = 0;
    while i < v.len()
        invariant
            i <= v@.len(),
            out@.len() == i,
            forall|k: int| 0 <= k < i ==> #[trigger] comment_view(out@[k]) == comment_view(v@[k]),
        decreases v.len() - i,
    {
        let c = &v[i];
        out.push(Comment {
            id: c.id.clone(),
            body: c.body.clone(),
            resolved: c.resolved,
            created: c.created.clone(),
            modified: c.modified.clone(),
        });
        i = i + 1;
    }
    proof {
        assert(comments_view(out@) =~= comments_view(v@));
    }
    out
}

/// The stored form of the compile flag.
pub open spec fn compile_flag(included: bool) -> Seq<char> {
    if included { "Yes"@ } else { "No"@ }
}

/// The stored form of the compile flag, as a new string; a sidecar that
/// holds a YAML boolean is read through this too.
pub fn compile_flag_text(included: bool) -> (r: String)
    ensures
        r@ == compile_flag(included),
{
    if included { owned("Yes") } else { owned("No") }
}

/// Whether a stored compile flag includes the document: anything but
/// `"No"`, a missing flag included.
pub open spec fn flag_includes(flag: Option<Seq<char>>) -> bool {
    flag != Some("No"@)
}

/// Whether `m` is the sidecar written for `d`: every field the document
/// has, the name always present, the compile flag in its stored form.
pub open spec fn written_for(m: DocumentMetadata, d: Document) -> bool {
    &&& m.id@ == d.id@
    &&& opt_text(m.name) == Some(d.name@)
    &&& m.created@ == d.created@
    &&& m.modified@ == d.modified@
    &&& opt_text(m.parent_id) == opt_text(d.parent_id)
    &&& opt_text(m.label) == opt_text(d.label)
    &&& opt_text(m.status) == opt_text(d.status)
    &&& opt_texts(m.keywords) == opt_texts(d.keywords)
    &&& opt_text(m.synopsis) == opt_text(d.synopsis)
    &&& opt_text(m.include_in_compile) == Some(compile_flag(d.include_in_compile))
    &&& opt_texts(m.links) == opt_texts(d.links)
    &&& m.word_count_target == d.word_count_target
    &&& m.compile_order == d.compile_order
    &&& comments_view(m.comments@) == comments_view(d.comments@)
}

/// Whether `d` is the document read from sidecar `m` with the given file
/// name stem, relative path and content.
pub open spec fn read_from(d: Document, m: DocumentMetadata, stem: Seq<char>, path: Seq<char>, content: Seq<char>) -> bool {
    &&& d.id@ == m.id@
    &&& d.name@ == (match opt_text(m.name) {
        Some(n) => n,
        None => stem,
    })
    &&& d.path@ == path
    &&& d.content@ == content
    &&& opt_text(d.parent_id) == opt_text(m.parent_id)
    &&& d.created@ == m.created@
    &&& d.modified@ == m.modified@
    &&& opt_text(d.synopsis) == opt_text(m.synopsis)
    &&& opt_text(d.label) == opt_text(m.label)
    &&& opt_text(d.status) == opt_text(m.status)
    &&& opt_texts(d.keywords) == opt_texts(m.keywords)
    &&& opt_texts(d.links) == opt_texts(m.links)
    &&& d.include_in_compile == flag_includes(opt_text(m.include_in_compile))
    &&& d.word_count_target == m.word_count_target
    &&& d.compile_order == m.compile_order
    &&& comments_view(d.comments@) == comments_view(m.comments@)
}

/// Whether two documents hold the same values.
pub open spec fn same_document(a: Document, b: Document) -> bool {
    &&& a.id@ == b.id@
    &&& a.name@ == b.name@
    &&& a.path@ == b.path@
    &&& a.content@ == b.content@
    &&& opt_text(a.parent_id) == opt_text(b.parent_id)
    &&& a.created@ == b.created@
    &&& a.modified@ == b.modified@
    &&& opt_text(a.synopsis) == opt_text(b.synopsis)
    &&& opt_text(a.label) == opt_text(b.label)
    &&& opt_text(a.status) == opt_text(b.status)
    &&& opt_texts(a.keywords) == opt_texts(b.keywords)
    &&& opt_texts(a.links) == opt_texts(b.links)
    &&& a.include_in_compile == b.include_in_compile
    &&& a.word_count_target == b.word_count_target
    &&& a.compile_order == b.compile_order
    &&& comments_view(a.comments@) == comments_view(b.comments@)
}

/// The sidecar written for a document. Fields the document does not model
/// (the section type and the Scrivener UUID) are kept from the sidecar
/// already on disk, when there is one.
pub fn metadata_for_write(document: &Document, existing: Option<&DocumentMetadata>) -> (m: DocumentMetadata)
    ensures
        written_for(m, *document),
        opt_text(m.section_type) == (match existing {
            Some(e) => opt_text(e.section_type),
            None => None,
        }),
        opt_text(m.scrivener_uuid) == (match existing {
            Some(e) => opt_text(e.scrivener_uuid),
            None => None,
        }),
{
    let section_type = match existing {
        Some(e) => copy_opt(&e.section_type),
        None => None,
    };
    let scrivener_uuid = match existing {
        Some(e) => copy_opt(&e.scrivener_uuid),
        None => None,
    };
    DocumentMetadata {
        id: document.id.clone(),
        name: Some(document.name.clone()),
        created: document.created.clone(),
        modified: document.modified.clone(),
        parent_id: copy_opt(&document.parent_id),
        label: copy_opt(&document.label),
        status: copy_opt(&document.status),
        keywords: copy_opt_strings(&document.keywords),
        synopsis: copy_opt(&document.synopsis),
        section_type,
        include_in_compile: Some(compile_flag_text(document.include_in_compile)),
        scrivener_uuid,
        links: copy_opt_strings(&document.links),
        word_count_target: document.word_count_target,
        compile_order: document.compile_order,
        comments: copy_comments(&document.comments),
    }
}

/// The sidecar a document gets when it has none, or an unreadable one: the
/// id and name the hierarchy gives it when there is one, else a fresh id
/// and no name; fresh timestamps; nothing else set.
pub fn default_document_metadata(fallback: Option<&HierarchyDocumentIdentity>) -> (m: DocumentMetadata)
    ensures
        match fallback {
            Some(f) => m.id@ == f.id@ && opt_text(m.name) == Some(f.name@),
            None => is_hyphenated_uuid(m.id@) && m.name is None,
        },
        m.parent_id is None && m.label is None && m.status is None && m.keywords is None,
        m.synopsis is None && m.section_type is None && m.include_in_compile is None,
        m.scrivener_uuid is None && m.links is None,
        m.word_count_target == 0 && m.compile_order == 0 && m.comments@.len() == 0,
{
    let (id, name) = match fallback {
        Some(f) => (f.id.clone(), Some(f.name.clone())),
        None => (new_uuid(), None),
    };
    DocumentMetadata {
        id,
        name,
        created: now_rfc3339(),
        modified: now_rfc3339(),
        parent_id: None,
        label: None,
        status: None,
        keywords: None,
        synopsis: None,
        section_type: None,
        include_in_compile: None,
        scrivener_uuid: None,
        links: None,
        word_count_target: 0,
        compile_order: 0,
        comments: Vec::new(),
    }
}

/// The document read from a sidecar, its content file's name stem, its
/// path relative to the project and its content: named by the sidecar, or
/// by the file name when the sidecar has no name; included in compiling
/// unless the sidecar says `"No"`.
pub fn document_from_metadata(metadata: DocumentMetadata, file_stem: &str, relative_path: String, content: String)
    -> (d: Document)
    ensures
        read_from(d, metadata, file_stem@, relative_path@, content@),
{
    let included = match &metadata.include_in_compile {
        Some(f) => !str_eq(f.as_str(), "No"),
        None => true,
    };
    let name = match metadata.name {
        Some(n) => n,
        None => owned(file_stem),
    };
    Document {
        id: metadata.id,
        name,
        path: relative_path,
        content,
        parent_id: metadata.parent_id,
        created: metadata.created,
        modified: metadata.modified,
        synopsis: metadata.synopsis,
        label: metadata.label,
        status: metadata.status,
        keywords: metadata.keywords,
        links: metadata.links,
        include_in_compile: included,
        word_count_target: metadata.word_count_target,
        compile_order: metadata.compile_order,
        comments: metadata.comments,
    }
}

/// A stored compile flag includes the document exactly when the document
/// was included.
pub proof fn law_compile_flag_round_trip(included: bool)
    ensures
        flag_includes(Some(compile_flag(included))) == included,
{
    reveal_strlit("Yes");
    reveal_strlit("No");
    if included {
        assert("Yes"@.len() == 3);
        assert("No"@.len() == 2);
    }
}

/// Reading back what was written gives the document again: the document
/// rebuilt from the sidecar written for it, with its own path and content,
/// holds the same values, whatever the file name stem.
pub proof fn law_sidecar_round_trip(d: Document, m: DocumentMetadata, stem: Seq<char>, back: Document)
    requires
        written_for(m, d),
        read_from(back, m, stem, d.path@, d.content@),
    ensures
        same_document(back, d),
{
    law_compile_flag_round_trip(d.include_in_compile);
}

} // verus!
