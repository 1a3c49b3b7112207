//! The checks made before a project is written: every document path must
//! be relative and plain, and nothing on the file system on the way to a
//! document, nor the document's file or its sidecar, may be a symbolic
//! link, a non-directory where a directory belongs, or a place outside the
//! project root; an existing sidecar must parse. The file system is looked
//! at by the caller, which hands in what it saw.
use vstd::prelude::*;
use vstd::string::StringExecFns;

use crate::error::ChiknError;
use crate::models::Document;
use crate::project::doc_paths::{invalid_path_message, path_refusal, validate_relative_document_path};
use crate::text::owned;

verus! {

/// What the file system showed at a path that may exist.
pub enum Seen {
    /// Nothing is there.
    Missing,
    /// Something is there: whether it is a symbolic link, whether it is a
    /// directory, and whether its resolved path lies under the resolved
    /// project root (looked at only when it is not a link, and for a place
    /// that must be a directory, only when it is one).
    Present { is_symlink: bool, is_dir: bool, inside_root: bool },
}

/// What the file system showed of one document's targets.
pub struct TargetProbe {
    /// The directories on the way to the document, from the project root
    /// down: each as displayed and what was there. The walk stops at the
    /// first that is missing.
    pub ancestors: Vec<(String, Seen)>,
    /// The document's file, as displayed, and what was there.
    pub content_display: String,
    pub content: Seen,
    /// The document's sidecar, as displayed, and what was there.
    pub meta_display: String,
    pub meta: Seen,
    /// The error of parsing the sidecar, when it exists and does not parse.
    pub meta_parse_error: Option<String>,
}

/// The message for a directory on the way that is refused, if it is.
pub open spec fn ancestor_message(doc: Seq<char>, path: Seq<char>, seen: Seen) -> Option<Seq<char>> {
    match seen {
        Seen::Missing => None,
        Seen::Present { is_symlink, is_dir, inside_root } => if is_symlink {
            Some("Document path traverses a symlink: "@ + doc + " ("@ + path + ")"@)
        } else if !is_dir {
            Some("Document path parent is not a directory: "@ + doc + " ("@ + path + ")"@)
        } else if !inside_root {
            Some("Document path escapes project root: "@ + doc + " ("@ + path + ")"@)
        } else {
            None
        },
    }
}

/// The first refusal along the directories on the way, stopping at the
/// first missing one.
pub open spec fn ancestors_failure(doc: Seq<char>, anc: Seq<(Seq<char>, Seen)>) -> Option<Seq<char>>
    decreases anc.len(),
{
    if anc.len() == 0 {
        None
    } else if anc[0].1 is Missing {
        None
    } else {
        match ancestor_message(doc, anc[0].0, anc[0].1) {
            Some(m) => Some(m),
            None => ancestors_failure(doc, anc.drop_first()),
        }
    }
}

/// The refusal of an existing document file or sidecar, if any: a link, or
/// a place outside the project root.
pub open spec fn existing_failure(doc: Seq<char>, kind: Seq<char>, path: Seq<char>, seen: Seen) -> Option<
    Seq<char>,
> {
    match seen {
        Seen::Missing => None,
        Seen::Present { is_symlink, is_dir, inside_root } => if is_symlink {
            Some("Document "@ + kind + " is a symlink: "@ + doc + " ("@ + path + ")"@)
        } else if !inside_root {
            Some("Document path escapes project root: "@ + doc + " ("@ + path + ")"@)
        } else {
            None
        },
    }
}

/// A probe as plain values.
pub struct ProbeView {
    pub ancestors: Seq<(Seq<char>, Seen)>,
    pub content_display: Seq<char>,
    pub content: Seen,
    pub meta_display: Seq<char>,
    pub meta: Seen,
    pub meta_parse_error: Option<Seq<char>>,
}

impl TargetProbe {
    pub open spec fn probe_view(&self) -> ProbeView {
        ProbeView {
            ancestors: self.ancestors@.map_values(|a: (String, Seen)| (a.0@, a.1)),
            content_display: self.content_display@,
            content: self.content,
            meta_display: self.meta_display@,
            meta: self.meta,
            meta_parse_error: match self.meta_parse_error {
                Some(e) => Some(e@),
                None => None,
            },
        }
    }
}

/// Why a document may not be written where its path points, if it may not:
/// the first of a refused path, a refused directory on the way, a refused
/// document file, a refused sidecar, and a sidecar that does not parse.
pub open spec fn target_failure(doc: Seq<char>, p: ProbeView) -> Option<Seq<char>> {
    match path_refusal(doc) {
        Some(reason) => Some(invalid_path_message(doc, reason)),
        None => match ancestors_failure(doc, p.ancestors) {
            Some(m) => Some(m),
            None => match existing_failure(doc, "document file"@, p.content_display, p.content) {
                Some(m) => Some(m),
                None => match existing_failure(doc, "document metadata"@, p.meta_display, p.meta) {
                    Some(m) => Some(m),
                    None => match p.meta_parse_error {
                        Some(e) => Some("Failed to parse document metadata at "@ + p.meta_display + ": "@ + e),
                        None => None,
                    },
                },
            },
        },
    }
}

fn described(prefix: &str, doc: &str, path: &str) -> (r: ChiknError)
    ensures
        r matches ChiknError::InvalidFormat(m) && m@ == prefix@ + doc@ + " ("@ + path@ + ")"@,
{
    let mut m = owned(prefix);
    m.append(doc);
    m.append(" (");
    m.append(path);
    m.append(")");
    ChiknError::InvalidFormat(m)
}

fn check_ancestor(doc: &str, path: &str, seen: &Seen) -> (r: Result<(), ChiknError>)
    ensures
        match ancestor_message(doc@, path@, *seen) {
            Some(m) => r matches Err(ChiknError::InvalidFormat(e)) && e@ == m,
            None => r is Ok,
        },
{
    match seen {
        Seen::Missing => Ok(()),
        Seen::Present { is_symlink, is_dir, inside_root } => {
            if *is_symlink {
                Err(described("Document path traverses a symlink: ", doc, path))
            } else if !*is_dir {
                Err(described("Document path parent is not a directory: ", doc, path))
            } else if !*inside_root {
                Err(described("Document path escapes project root: ", doc, path))
            } else {
                Ok(())
            }
        },
    }
}

fn check_existing(doc: &str, kind: &str, path: &str, seen: &Seen) -> (r: Result<(), ChiknError>)
    ensures
        match existing_failure(doc@, kind@, path@, *seen) {
            Some(m) => r matches Err(ChiknError::InvalidFormat(e)) && e@ == m,
            None => r is Ok,
        },
{
    match seen {
        Seen::Missing => Ok(()),
        Seen::Present { is_symlink, is_dir: _, inside_root } => {
            if *is_symlink {
                let mut m = owned("Document ");
                m.append(kind);
                m.append(" is a symlink: ");
                m.append(doc);
                m.append(" (");
                m.append(path);
                m.append(")");
                Err(ChiknError::InvalidFormat(m))
            } else if !*inside_root {
                Err(described("Document path escapes project root: ", doc, path))
            } else {
                Ok(())
            }
        },
    }
}

/// Checks that a document may be written where its path points, given what
/// the file system showed there; the error is the first refusal met.
pub fn check_document_target(document_path: &str, probe: &TargetProbe) -> (r: Result<(), ChiknError>)
    ensures
        match target_failure(document_path@, probe.probe_view()) {
            Some(m) => r matches Err(ChiknError::InvalidFormat(e)) && e@ == m,
            None => r is Ok,
        },
{
    match validate_relative_document_path(document_path) {
        Ok(()) => {},
        Err(e) => {
            return Err(e);
        },
    }
    let ghost anc = probe.probe_view().ancestors;
    let mut i: usize = 0;
    proof {
        assert(anc.skip(0) =~= anc);
    }
    while i < probe.ancestors.len()
        invariant
            i <= probe.ancestors@.len(),
            anc == probe.probe_view().ancestors,
            anc.len() == probe.ancestors@.len(),
            path_refusal(document_path@) is None,
            ancestors_failure(document_path@, anc) == ancestors_failure(document_path@, anc.skip(i as int)),
        decreases probe.ancestors.len() - i,
    {
        let ghost rest = anc.skip(i as int);
        proof {
            assert(rest[0] == anc[i as int]);
            assert(anc[i as int] == (probe.ancestors@[i as int].0@, probe.ancestors@[i as int].1));
            assert(rest.drop_first() =~= anc.skip(i + 1));
        }
        let a = &probe.ancestors[i];
        if let Seen::Missing = a.1 {
            proof {
                assert(anc.skip(probe.ancestors@.len() as int).len() == 0);
            }
            i = probe.ancestors.len();
        } else {
            proof {
                assert(!(rest[0].1 is Missing));
                assert(rest.len() > 0);
                assert(ancestors_failure(document_path@, rest) == match ancestor_message(document_path@, rest[0].0, rest[0].1) {
                    Some(m) => Some(m),
                    None => ancestors_failure(document_path@, rest.drop_first()),
                });
            }
            match check_ancestor(document_path, a.0.as_str(), &a.1) {
                Ok(()) => {},
                Err(e) => {
                    return Err(e);
                },
            }
            i = i + 1;
        }
    }
    proof {
        if i == probe.ancestors@.len() {
            assert(anc.skip(i as int).len() == 0);
        }
    }
    match check_existing(document_path, "document file", probe.content_display.as_str(), &probe.content) {
        Ok(()) => {},
        Err(e) => {
            return Err(e);
        },
    }
    match check_existing(document_path, "document metadata", probe.meta_display.as_str(), &probe.meta) {
        Ok(()) => {},
        Err(e) => {
            return Err(e);
        },
    }
    match &probe.meta_parse_error {
        Some(e) => {
            let mut m = owned("Failed to parse document metadata at ");
            m.append(probe.meta_display.as_str());
            m.append(": ");
            m.append(e.as_str());
            Err(ChiknError::InvalidFormat(m))
        },
        None => Ok(()),
    }
}

/// The first document, in order, that may not be written, and why.
pub open spec fn targets_failure(docs: Seq<Document>, probes: Seq<ProbeView>) -> Option<Seq<char>>
    decreases docs.len(),
{
    if docs.len() == 0 {
        None
    } else {
        match target_failure(docs[0].path@, probes[0]) {
            Some(m) => Some(m),
            None => targets_failure(docs.drop_first(), probes.drop_first()),
        }
    }
}

/// Checks every document of a project before anything is written, given
/// what the file system showed for each, in the same order; the error is
/// the first refusal met, document by document.
pub fn check_all_document_targets(documents: &[Document], probes: &[TargetProbe]) -> (r: Result<(), ChiknError>)
    requires
        documents@.len() == probes@.len(),
    ensures
        match targets_failure(documents@, probes@.map_values(|p: TargetProbe| p.probe_view())) {
            Some(m) => r matches Err(ChiknError::InvalidFormat(e)) && e@ == m,
            None => r is Ok,
        },
{
    let ghost pv = probes@.map_values(|p: TargetProbe| p.probe_view());
    let mut i: usize = 0;
    proof {
        assert(documents@.skip(0) =~= documents@);
        assert(pv.skip(0) =~= pv);
    }
    while i < documents.len()
        invariant
            i <= documents@.len(),
            documents@.len() == probes@.len(),
            pv == probes@.map_values(|p: TargetProbe| p.probe_view()),
            targets_failure(documents@, pv) == targets_failure(documents@.skip(i as int), pv.skip(i as int)),
        decreases documents.len() - i,
    {
        proof {
            assert(documents@.skip(i as int)[0] == documents@[i as int]);
            assert(pv.skip(i as int)[0] == probes@[i as int].probe_view());
            assert(documents@.skip(i as int).drop_first() =~= documents@.skip(i + 1));
            assert(pv.skip(i as int).drop_first() =~= pv.skip(i + 1));
        }
        match check_document_target(documents[i].path.as_str(), &probes[i]) {
            Ok(()) => {},
            Err(e) => {
                return Err(e);
            },
        }
        i = i + 1;
    }
    proof {
        assert(documents@.skip(i as int).len() == 0);
    }
    Ok(())
}

} // verus!
