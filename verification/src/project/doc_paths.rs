//! The grammar of document paths inside a project: relative paths made of
//! plain components. A path is split into its components by
//! `std::path::Path::components`, so it is read the way the platform reads
//! it (on Windows `\\` also separates components and drive prefixes are
//! known); the checks below refuse every component that is not plain.
use vstd::prelude::*;
use vstd::string::StringExecFns;

use crate::error::ChiknError;
use crate::text::{owned, replace_text, replaced};

verus! {

/// A component of a path.
pub enum Comp {
    Prefix(Seq<char>),
    Root,
    Cur,
    Parent,
    Normal(Seq<char>),
}

/// A component of a path, as computed.
pub enum PathPart {
    Prefix(String),
    Root,
    Cur,
    Parent,
    Normal(String),
}

impl PathPart {
    pub open spec fn comp(self) -> Comp {
        match self {
            PathPart::Prefix(s) => Comp::Prefix(s@),
            PathPart::Root => Comp::Root,
            PathPart::Cur => Comp::Cur,
            PathPart::Parent => Comp::Parent,
            PathPart::Normal(s) => Comp::Normal(s@),
        }
    }
}

/// What `Path::components` gives for a path: its components in order, the
/// text of a prefix or of a plain component taken lossily as UTF-8.
pub uninterp spec fn components(path: Seq<char>) -> Seq<Comp>;

/// Splits a path into its components with `std::path::Path::components`.
#[verifier::external_body]
pub(crate) fn path_components(path: &str) -> (r: Vec<PathPart>)
    ensures
        r@.map_values(|x: PathPart| x.comp()) == components(path@),
{
    let mut out = Vec::new();
    for c in std::path::Path::new(path).components() {
        out.push(match c {
            std::path::Component::Prefix(p) => PathPart::Prefix(p.as_os_str().to_string_lossy().into_owned()),
            std::path::Component::RootDir => PathPart::Root,
            std::path::Component::CurDir => PathPart::Cur,
            std::path::Component::ParentDir => PathPart::Parent,
            std::path::Component::Normal(n) => PathPart::Normal(n.to_string_lossy().into_owned()),
        });
    }
    out
}

/// Why a component is refused in a document path, if it is.
pub open spec fn comp_reason(c: Comp) -> Option<Seq<char>> {
    match c {
        Comp::Cur => Some("current-directory components are not allowed"@),
        Comp::Parent => Some("parent-directory components are not allowed"@),
        Comp::Root => Some("absolute paths are not allowed"@),
        Comp::Prefix(_) => Some("absolute paths are not allowed"@),
        Comp::Normal(_) => None,
    }
}

/// The reason of the first refused component.
pub open spec fn first_refused(cs: Seq<Comp>) -> Option<Seq<char>>
    decreases cs.len(),
{
    if cs.len() == 0 {
        None
    } else {
        match comp_reason(cs[0]) {
            Some(r) => Some(r),
            None => first_refused(cs.drop_first()),
        }
    }
}

/// Why a document path is refused, if it is: its first component that is
/// not plain, or, when all are plain, that there is none.
pub open spec fn path_refusal(path: Seq<char>) -> Option<Seq<char>> {
    let cs = components(path);
    match first_refused(cs) {
        Some(r) => Some(r),
        None => if cs.len() == 0 { Some("path must contain a file name"@) } else { None },
    }
}

/// The error for a refused document path.
pub open spec fn invalid_path_message(path: Seq<char>, reason: Seq<char>) -> Seq<char> {
    "Document path must be relative and within project ("@ + reason + "): "@ + path
}

fn invalid_document_path(document_path: &str, reason: &str) -> (e: ChiknError)
    ensures
        e matches ChiknError::InvalidFormat(m) && m@ == invalid_path_message(document_path@, reason@),
{
    let mut m = owned("Document path must be relative and within project (");
    m.append(reason);
    m.append("): ");
    m.append(document_path);
    ChiknError::InvalidFormat(m)
}

/// Checks that a document path is relative and stays inside the project:
/// every component is plain (no prefix, no root, no `.` lead, no `..`) and there is at
/// least one.
pub fn validate_relative_document_path(document_path: &str) -> (r: Result<(), ChiknError>)
    ensures
        match path_refusal(document_path@) {
            None => r is Ok,
            Some(reason) => r matches Err(ChiknError::InvalidFormat(m)) && m@ == invalid_path_message(document_path@, reason),
        },
{
    let parts = path_components(document_path);
    let ghost cs = components(document_path@);
    let mut i: usize = 0;
    proof {
        assert(cs.skip(0) =~= cs);
        assert(parts@.len() == cs.len());
    }
    while i < parts.len()
        invariant
            i <= parts@.len(),
            cs == components(document_path@),
            parts@.map_values(|x: PathPart| x.comp()) == cs,
            parts@.len() == cs.len(),
            first_refused(cs) == first_refused(cs.skip(i as int)),
        decreases parts.len() - i,
    {
        let ghost rest = cs.skip(i as int);
        assert(rest[0] == parts@[i as int].comp());
        assert(rest.drop_first() =~= cs.skip(i + 1));
        match &parts[i] {
            PathPart::Normal(_) => {},
            PathPart::Cur => {
                return Err(invalid_document_path(document_path, "current-directory components are not allowed"));
            },
            PathPart::Parent => {
                return Err(invalid_document_path(document_path, "parent-directory components are not allowed"));
            },
            PathPart::Root => {
                return Err(invalid_document_path(document_path, "absolute paths are not allowed"));
            },
            PathPart::Prefix(_) => {
                return Err(invalid_document_path(document_path, "absolute paths are not allowed"));
            },
        }
        i = i + 1;
    }
    if parts.len() == 0 {
        return Err(invalid_document_path(document_path, "path must contain a file name"));
    }
    Ok(())
}

/// The plain components joined with `/`.
pub open spec fn joined_normals(cs: Seq<Comp>) -> Seq<char>
    decreases cs.len(),
{
    if cs.len() == 0 {
        Seq::empty()
    } else {
        let rest = joined_normals(cs.drop_last());
        match cs.last() {
            Comp::Normal(p) => if rest.len() == 0 { p } else { rest + seq!['/'] + p },
            _ => rest,
        }
    }
}

fn join_normal_parts(parts: &Vec<PathPart>) -> (out: String)
    ensures
        out@ == joined_normals(parts@.map_values(|x: PathPart| x.comp())),
{
    let ghost cs = parts@.map_values(|x: PathPart| x.comp());
    let mut out = String::new();
    let mut i: usize = 0;
    proof {
        assert(cs.take(0) =~= Seq::<Comp>::empty());
        reveal_strlit("/");
    }
    while i < parts.len()
        invariant
            i <= parts@.len(),
            cs == parts@.map_values(|x: PathPart| x.comp()),
            "/"@ == seq!['/'],
            out@ == joined_normals(cs.take(i as int)),
        decreases parts.len() - i,
    {
        let ghost before = out@;
        proof {
            assert(cs.take(i + 1).drop_last() =~= cs.take(i as int));
            assert(cs.take(i + 1).last() == parts@[i as int].comp());
        }
        match &parts[i] {
            PathPart::Normal(p) => {
                if out.as_str().is_empty() {
                    out.append(p.as_str());
                    assert(out@ =~= p@);
                } else {
                    out.append("/");
                    out.append(p.as_str());
                    assert(out@ =~= before + seq!['/'] + p@);
                }
            },
            _ => {},
        }
        i = i + 1;
    }
    proof {
        assert(cs.take(cs.len() as int) =~= cs);
    }
    out
}

/// A document path with backslashes read as separators, checked, and
/// written with single `/` between its components.
pub open spec fn normalized_path(path: Seq<char>) -> Seq<char> {
    joined_normals(components(replaced(path, seq!['\\'], seq!['/'])))
}

/// The refusal of a document path once backslashes are read as separators.
pub open spec fn normalized_refusal(path: Seq<char>) -> Option<Seq<char>> {
    path_refusal(replaced(path, seq!['\\'], seq!['/']))
}

/// Normalizes a document path: backslashes become `/`, the path is checked
/// as `validate_relative_document_path` does, and its components are joined
/// with `/`.
pub fn normalized_relative_document_path(document_path: &str) -> (r: Result<String, ChiknError>)
    ensures
        match normalized_refusal(document_path@) {
            None => r matches Ok(p) && p@ == normalized_path(document_path@),
            Some(reason) => r matches Err(ChiknError::InvalidFormat(m))
                && m@ == invalid_path_message(replaced(document_path@, seq!['\\'], seq!['/']), reason),
        },
{
    proof {
        reveal_strlit("\\");
        reveal_strlit("/");
        assert("\\"@ =~= seq!['\\']);
        assert("/"@ =~= seq!['/']);
    }
    let slash_path = replace_text(document_path, "\\", "/");
    match validate_relative_document_path(slash_path.as_str()) {
        Ok(()) => {},
        Err(e) => {
            return Err(e);
        },
    }
    let parts = path_components(slash_path.as_str());
    let out = join_normal_parts(&parts);
    Ok(out)
}

} // verus!
