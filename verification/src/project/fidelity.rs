//! The write guard: classifying a project as safe to write (`Full`) or not
//! (`Degraded`, with reasons), and the write capability handed out only for
//! projects that probe `Full`.
use vstd::prelude::*;
use vstd::string::StringExecFns;

use crate::error::{ChiknError, copy_error};
use crate::text::{chars_of, owned, str_eq, concat, decimal, string_of, ascii_lower};
use crate::project::format::FORMAT_VERSION;
use crate::models::{TreeNode, nodes_view};
use crate::paths::{extension_of, path_extension};
use crate::project::reader::{DocEntry, entry_view, doc_entries, hierarchy_documents, starts_with};
use crate::project::doc_paths::{normalized_relative_document_path, normalized_refusal, normalized_path, invalid_path_message};
use crate::scrivener::exporter::{lookup_last, pairs_view, lookup_uuid};

verus! {

/// Result of a fidelity probe.
pub enum Fidelity {
    /// Every hierarchy document resolves, no content-threatening repair
    /// condition exists, and the format version is supported.
    Full,
    /// The project can only be opened read-only, for these reasons.
    Degraded { reasons: Vec<DegradedReason> },
}

/// Why a project probed Degraded.
pub enum DegradedReason {
    /// A hierarchy document path does not end in `.md`.
    LegacyDocumentPath { path: String },
    /// A hierarchy document can never resolve to loaded content.
    UnresolvedDocument { path: String, detail: String },
    /// A document sidecar (`.meta`) exists but cannot be parsed.
    CorruptSidecar { path: String },
    /// A document file on disk is not referenced by the hierarchy.
    OrphanDocument { path: String },
    /// Duplicate or conflicting document identity.
    ConflictingIdentity { detail: String },
    /// `project.yaml` declares a newer format version than this engine
    /// writes.
    NewerFormatVersion { found: String },
    /// `project.yaml` declares a format version this engine cannot read.
    UnsupportedFormatVersion { found: String },
}

/// A degraded reason with its texts as sequences.
pub enum ReasonView {
    LegacyDocumentPath(Seq<char>),
    UnresolvedDocument(Seq<char>, Seq<char>),
    CorruptSidecar(Seq<char>),
    OrphanDocument(Seq<char>),
    ConflictingIdentity(Seq<char>),
    NewerFormatVersion(Seq<char>),
    UnsupportedFormatVersion(Seq<char>),
}

impl DegradedReason {
    pub open spec fn rv(self) -> ReasonView {
        match self {
            DegradedReason::LegacyDocumentPath { path } => ReasonView::LegacyDocumentPath(path@),
            DegradedReason::UnresolvedDocument { path, detail } => ReasonView::UnresolvedDocument(path@, detail@),
            DegradedReason::CorruptSidecar { path } => ReasonView::CorruptSidecar(path@),
            DegradedReason::OrphanDocument { path } => ReasonView::OrphanDocument(path@),
            DegradedReason::ConflictingIdentity { detail } => ReasonView::ConflictingIdentity(detail@),
            DegradedReason::NewerFormatVersion { found } => ReasonView::NewerFormatVersion(found@),
            DegradedReason::UnsupportedFormatVersion { found } => ReasonView::UnsupportedFormatVersion(found@),
        }
    }

    /// The plain-English sentence for the reason.
    pub fn to_text(&self) -> (r: String)
        ensures
            r@ == reason_text(self.rv()),
    {
        match self {
            DegradedReason::LegacyDocumentPath { path } => {
                let mut m = owned("'");
                m.append(path.as_str());
                m.append("' was written by an older version of the app and cannot be opened for editing");
                m
            },
            DegradedReason::UnresolvedDocument { path, detail } => {
                let mut m = owned("'");
                m.append(path.as_str());
                m.append("' is listed in the project but cannot be loaded (");
                m.append(detail.as_str());
                m.append(")");
                m
            },
            DegradedReason::CorruptSidecar { path } => {
                let mut m = owned("the notes file '");
                m.append(path.as_str());
                m.append("' is damaged");
                m
            },
            DegradedReason::OrphanDocument { path } => {
                let mut m = owned("'");
                m.append(path.as_str());
                m.append("' exists on disk but is not listed in the project");
                m
            },
            DegradedReason::ConflictingIdentity { detail } => {
                let mut m = owned("two parts of the project disagree about a document's identity (");
                m.append(detail.as_str());
                m.append(")");
                m
            },
            DegradedReason::NewerFormatVersion { found } => {
                let mut m = owned("this project was saved by a newer version of the app (format ");
                m.append(found.as_str());
                m.append(")");
                m
            },
            DegradedReason::UnsupportedFormatVersion { found } => {
                let mut m = owned("this project declares a format ('");
                m.append(found.as_str());
                m.append("') this version of the app does not understand");
                m
            },
        }
    }
}

/// The plain-English sentence for a reason.
pub open spec fn reason_text(r: ReasonView) -> Seq<char> {
    match r {
        ReasonView::LegacyDocumentPath(path) => "'"@ + path
            + "' was written by an older version of the app and cannot be opened for editing"@,
        ReasonView::UnresolvedDocument(path, detail) => "'"@ + path + "' is listed in the project but cannot be loaded ("@
            + detail + ")"@,
        ReasonView::CorruptSidecar(path) => "the notes file '"@ + path + "' is damaged"@,
        ReasonView::OrphanDocument(path) => "'"@ + path + "' exists on disk but is not listed in the project"@,
        ReasonView::ConflictingIdentity(detail) => "two parts of the project disagree about a document's identity ("@
            + detail + ")"@,
        ReasonView::NewerFormatVersion(found) => "this project was saved by a newer version of the app (format "@
            + found + ")"@,
        ReasonView::UnsupportedFormatVersion(found) => "this project declares a format ('"@ + found
            + "') this version of the app does not understand"@,
    }
}

/// The reasons' sentences joined with "; ".
pub open spec fn reasons_text(rs: Seq<ReasonView>) -> Seq<char>
    decreases rs.len(),
{
    if rs.len() == 0 {
        Seq::empty()
    } else if rs.len() == 1 {
        reason_text(rs[0])
    } else {
        reasons_text(rs.drop_last()) + "; "@ + reason_text(rs.last())
    }
}

/// The reasons as views.
pub open spec fn reason_views(rs: Seq<DegradedReason>) -> Seq<ReasonView> {
    rs.map_values(|r: DegradedReason| r.rv())
}

/// Renders a reason list as one plain-English sentence fragment.
pub fn describe_reasons(reasons: &[DegradedReason]) -> (r: String)
    ensures
        r@ == reasons_text(reason_views(reasons@)),
{
    let ghost rs = reason_views(reasons@);
    let mut out = String::new();
    let mut i: usize = 0;
    proof {
        assert(rs.take(0) =~= Seq::<ReasonView>::empty());
    }
    while i < reasons.len()
        invariant
            i <= reasons@.len(),
            rs == reason_views(reasons@),
            out@ == reasons_text(rs.take(i as int)),
        decreases reasons.len() - i,
    {
        let piece = reasons[i].to_text();
        let ghost before = out@;
        proof {
            assert(rs.take(i + 1).drop_last() =~= rs.take(i as int));
            assert(rs.take(i + 1).last() == reasons@[i as int].rv());
        }
        if i > 0 {
            out.append("; ");
        }
        out.append(piece.as_str());
        proof {
            if i == 0 {
                assert(out@ =~= reasons_text(rs.take(1)));
            }
        }
        i = i + 1;
    }
    proof {
        assert(rs.take(rs.len() as int) =~= rs);
    }
    out
}

/// The classification for the reasons found: `Full` when there are none.
pub fn fidelity_from_reasons(reasons: Vec<DegradedReason>) -> (f: Fidelity)
    ensures
        reasons@.len() == 0 ==> f is Full,
        reasons@.len() > 0 ==> (f matches Fidelity::Degraded { reasons: rs } && rs@ == reasons@),
{
    if reasons.len() == 0 {
        Fidelity::Full
    } else {
        Fidelity::Degraded { reasons }
    }
}

/// The parts of a text between its `sep` characters, empty parts included.
pub open spec fn split_char(cs: Seq<char>, sep: char) -> Seq<Seq<char>>
    decreases cs.len(),
{
    if cs.len() == 0 {
        seq![Seq::empty()]
    } else {
        let p = split_char(cs.drop_last(), sep);
        if cs.last() == sep {
            p.push(Seq::empty())
        } else {
            p.update(p.len() - 1, p.last().push(cs.last()))
        }
    }
}

pub open spec fn is_digit(c: char) -> bool {
    '0' <= c <= '9'
}

pub open spec fn digit_value(c: char) -> nat {
    (c as int - '0' as int) as nat
}

/// The number written by decimal digits.
pub open spec fn digits_value(ds: Seq<char>) -> nat
    decreases ds.len(),
{
    if ds.len() == 0 {
        0
    } else {
        digits_value(ds.drop_last()) * 10 + digit_value(ds.last())
    }
}

/// Whether every character is an ASCII digit.
pub open spec fn all_digits(ds: Seq<char>) -> bool {
    forall|k: int| 0 <= k < ds.len() ==> #[trigger] is_digit(ds[k])
}

/// What `str::parse::<u64>` gives: an optional `+`, then one or more ASCII
/// digits whose value fits in 64 bits.
pub open spec fn parsed_u64(s: Seq<char>) -> Option<u64> {
    let ds = if s.len() > 0 && s[0] == '+' { s.drop_first() } else { s };
    if ds.len() > 0 && all_digits(ds) && digits_value(ds) <= u64::MAX {
        Some(digits_value(ds) as u64)
    } else {
        None
    }
}

proof fn lemma_digits_grow(ds: Seq<char>, k: int)
    requires
        0 <= k <= ds.len(),
        forall|j: int| 0 <= j < ds.len() ==> #[trigger] is_digit(ds[j]),
    ensures
        digits_value(ds.take(k)) <= digits_value(ds),
    decreases ds.len() - k,
{
    if k < ds.len() {
        lemma_digits_grow(ds, k + 1);
        let t = ds.take(k + 1);
        assert(t.drop_last() =~= ds.take(k));
    } else {
        assert(ds.take(k) =~= ds);
    }
}

/// Parses a decimal number the way `str::parse::<u64>` does.
pub fn parse_u64(s: &Vec<char>) -> (r: Option<u64>)
    ensures
        r == parsed_u64(s@),
{
    let mut start: usize = 0;
    if s.len() > 0 && s[0] == '+' {
        start = 1;
    }
    let ghost ds = if s@.len() > 0 && s@[0] == '+' { s@.drop_first() } else { s@ };
    assert(ds =~= s@.skip(start as int));
    if start >= s.len() {
        return None;
    }
    let mut v: u64 = 0;
    let mut i: usize = start;
    proof {
        assert(ds.take(0) =~= Seq::<char>::empty());
    }
    while i < s.len()
        invariant
            start <= i <= s@.len(),
            start < s@.len(),
            ds == s@.skip(start as int),
            ds == (if s@.len() > 0 && s@[0] == '+' { s@.drop_first() } else { s@ }),
            forall|j: int| 0 <= j < i - start ==> #[trigger] is_digit(ds[j]),
            v == digits_value(ds.take(i - start)),
        decreases s.len() - i,
    {
        let c = s[i];
        proof {
            assert(ds[i - start] == c);
            assert(ds.take(i - start + 1).drop_last() =~= ds.take(i - start));
            assert(ds.take(i - start + 1).last() == c);
        }
        if !('0' <= c && c <= '9') {
            proof {
                let j = i - start;
                assert(0 <= j < ds.len());
                assert(!is_digit(ds[j]));
                assert(!all_digits(ds));
            }
            return None;
        }
        let d: u64 = (c as u32 - '0' as u32) as u64;
        assert(d == digit_value(c));
        let next = match v.checked_mul(10) {
            Some(x) => x.checked_add(d),
            None => None,
        };
        match next {
            Some(n) => {
                v = n;
            },
            None => {
                proof {
                    let t = ds.take(i - start + 1);
                    assert(digits_value(t) == v * 10 + d);
                    assert(v * 10 + d > u64::MAX);
                    if all_digits(ds) {
                        lemma_digits_grow(ds, i - start + 1);
                        assert(digits_value(ds) > u64::MAX);
                    }
                }
                return None;
            },
        }
        i = i + 1;
    }
    proof {
        assert(ds.take(ds.len() as int) =~= ds);
    }
    Some(v)
}

/// The numbers of a dotted version, or `None` when a part is not a number.
pub open spec fn version_parts(ps: Seq<Seq<char>>) -> Option<Seq<u64>>
    decreases ps.len(),
{
    if ps.len() == 0 {
        Some(Seq::empty())
    } else {
        match (version_parts(ps.drop_last()), parsed_u64(ps.last())) {
            (Some(a), Some(n)) => Some(a.push(n)),
            _ => None,
        }
    }
}

/// A version text read as its dot-separated numbers.
pub open spec fn parsed_version(v: Seq<char>) -> Option<Seq<u64>> {
    version_parts(split_char(v, '.'))
}

proof fn lemma_version_parts_none(ps: Seq<Seq<char>>, k: int)
    requires
        0 <= k < ps.len(),
        parsed_u64(ps[k]) is None,
    ensures
        version_parts(ps) is None,
    decreases ps.len(),
{
    if k < ps.len() - 1 {
        lemma_version_parts_none(ps.drop_last(), k);
    }
}

/// Splits a version at its dots and parses every part as a number.
pub fn parse_version(version: &str) -> (r: Option<Vec<u64>>)
    ensures
        match parsed_version(version@) {
            Some(p) => r matches Some(v) && v@ == p,
            None => r is None,
        },
{
    let cs = chars_of(version);
    let mut parts: Vec<Vec<char>> = Vec::new();
    let mut current: Vec<char> = Vec::new();
    let mut i: usize = 0;
    proof {
        assert(cs@.take(0) =~= Seq::<char>::empty());
    }
    while i < cs.len()
        invariant
            i <= cs@.len(),
            cs@ == version@,
            split_char(cs@.take(i as int), '.') =~= parts@.map_values(|p: Vec<char>| p@).push(current@),
        decreases cs.len() - i,
    {
        let c = cs[i];
        proof {
            assert(cs@.take(i + 1).drop_last() =~= cs@.take(i as int));
            assert(cs@.take(i + 1).last() == c);
        }
        if c == '.' {
            let done = current;
            parts.push(done);
            current = Vec::new();
        } else {
            current.push(c);
        }
        i = i + 1;
    }
    parts.push(current);
    let ghost ps = parts@.map_values(|p: Vec<char>| p@);
    proof {
        assert(cs@.take(cs@.len() as int) =~= cs@);
        assert(ps =~= split_char(version@, '.'));
        assert(ps.take(0) =~= Seq::<Seq<char>>::empty());
    }
    let mut out: Vec<u64> = Vec::new();
    let mut k: usize = 0;
    while k < parts.len()
        invariant
            k <= parts@.len(),
            ps == parts@.map_values(|p: Vec<char>| p@),
            ps == split_char(version@, '.'),
            ps.len() == parts@.len(),
            version_parts(ps.take(k as int)) == Some(out@),
        decreases parts.len() - k,
    {
        proof {
            assert(ps.take(k + 1).drop_last() =~= ps.take(k as int));
            assert(ps.take(k + 1).last() == parts@[k as int]@);
        }
        match parse_u64(&parts[k]) {
            Some(n) => {
                out.push(n);
            },
            None => {
                proof {
                    assert(ps[k as int] == parts@[k as int]@);
                    lemma_version_parts_none(ps, k as int);
                }
                return None;
            },
        }
        k = k + 1;
    }
    proof {
        assert(ps.take(ps.len() as int) =~= ps);
    }
    Some(out)
}

/// Whether `a` is greater than `b` in the order of `Vec<u64>`:
/// lexicographic, with a proper prefix smaller.
pub open spec fn seq_gt(a: Seq<u64>, b: Seq<u64>) -> bool
    decreases a.len(),
{
    if a.len() == 0 {
        false
    } else if b.len() == 0 {
        true
    } else if a[0] != b[0] {
        a[0] > b[0]
    } else {
        seq_gt(a.drop_first(), b.drop_first())
    }
}

fn version_gt(a: &Vec<u64>, b: &Vec<u64>) -> (r: bool)
    ensures
        r == seq_gt(a@, b@),
{
    let mut i: usize = 0;
    proof {
        assert(a@.skip(0) =~= a@);
        assert(b@.skip(0) =~= b@);
    }
    while i < a.len() && i < b.len()
        invariant
            i <= a@.len() && i <= b@.len(),
            seq_gt(a@, b@) == seq_gt(a@.skip(i as int), b@.skip(i as int)),
        decreases a.len() - i,
    {
        assert(a@.skip(i as int).drop_first() =~= a@.skip(i + 1));
        assert(b@.skip(i as int).drop_first() =~= b@.skip(i + 1));
        if a[i] != b[i] {
            return a[i] > b[i];
        }
        i = i + 1;
    }
    i < a.len()
}

/// The reason a declared format version gives, if any: none when absent,
/// "unsupported" when it does not parse, "newer" when it is above the
/// engine's own version.
pub open spec fn format_reasons(found: Option<Seq<char>>) -> Seq<ReasonView> {
    match found {
        None => Seq::empty(),
        Some(f) => match parsed_version(f) {
            None => seq![ReasonView::UnsupportedFormatVersion(f)],
            Some(parts) => match parsed_version(FORMAT_VERSION@) {
                Some(engine) => if seq_gt(parts, engine) { seq![ReasonView::NewerFormatVersion(f)] } else { Seq::empty() },
                None => Seq::empty(),
            },
        },
    }
}

/// Adds the reason the declared format version gives, if any.
pub fn check_format_version(found: Option<&str>, reasons: &mut Vec<DegradedReason>)
    ensures
        reason_views(final(reasons)@) == reason_views(old(reasons)@) + format_reasons(
            match found { Some(f) => Some(f@), None => None }),
{
    let ghost before = reason_views(reasons@);
    let f = match found {
        Some(f) => f,
        None => {
            assert(reason_views(reasons@) =~= before + Seq::<ReasonView>::empty());
            return;
        },
    };
    let found_parts = match parse_version(f) {
        Some(p) => p,
        None => {
            reasons.push(DegradedReason::UnsupportedFormatVersion { found: owned(f) });
            assert(reason_views(reasons@) =~= before + seq![ReasonView::UnsupportedFormatVersion(f@)]);
            return;
        },
    };
    let engine_parts = match parse_version(FORMAT_VERSION) {
        Some(p) => p,
        None => {
            assert(reason_views(reasons@) =~= before + Seq::<ReasonView>::empty());
            return;
        },
    };
    if version_gt(&found_parts, &engine_parts) {
        reasons.push(DegradedReason::NewerFormatVersion { found: owned(f) });
        assert(reason_views(reasons@) =~= before + seq![ReasonView::NewerFormatVersion(f@)]);
    } else {
        assert(reason_views(reasons@) =~= before + Seq::<ReasonView>::empty());
    }
}

/// A hierarchy document as the probe sees it: id and normalized path.
pub struct ProbeHierarchyDoc {
    pub id: String,
    pub path: String,
}

pub open spec fn probe_doc_view(d: ProbeHierarchyDoc) -> (Seq<char>, Seq<char>) {
    (d.id@, d.path@)
}

/// Collecting the probe's hierarchy documents from the entries: each
/// entry's path is normalized (a refused path is an error, reported as by
/// `normalized_relative_document_path`), and a repeated id or normalized
/// path adds a conflicting-identity reason (id first).
pub open spec fn probe_collect(es: Seq<(Seq<char>, Seq<char>, Seq<char>)>)
    -> Result<(Seq<(Seq<char>, Seq<char>)>, Seq<ReasonView>), (Seq<char>, Seq<char>)>
    decreases es.len(),
{
    if es.len() == 0 {
        Ok((Seq::empty(), Seq::empty()))
    } else {
        match probe_collect(es.drop_last()) {
            Err(x) => Err(x),
            Ok((docs, rs)) => {
                let (id, _name, path) = es.last();
                match normalized_refusal(path) {
                    Some(reason) => Err((path, reason)),
                    None => {
                        let np = normalized_path(path);
                        let r1 = if exists|k: int| 0 <= k < docs.len() && #[trigger] docs[k].0 == id {
                            seq![ReasonView::ConflictingIdentity("duplicate document id "@ + id)]
                        } else {
                            Seq::empty()
                        };
                        let r2 = if exists|k: int| 0 <= k < docs.len() && #[trigger] docs[k].1 == np {
                            seq![ReasonView::ConflictingIdentity("duplicate document path "@ + np)]
                        } else {
                            Seq::empty()
                        };
                        Ok((docs.push((id, np)), rs + r1 + r2))
                    },
                }
            },
        }
    }
}

proof fn lemma_probe_collect_fail(es: Seq<(Seq<char>, Seq<char>, Seq<char>)>, i: int)
    requires
        0 <= i < es.len(),
        probe_collect(es.take(i)) is Ok,
        probe_collect(es.take(i + 1)) is Err,
    ensures
        probe_collect(es) == probe_collect(es.take(i + 1)),
    decreases es.len(),
{
    if i == es.len() - 1 {
        assert(es.take(i + 1) =~= es);
    } else {
        assert(es.drop_last().take(i) =~= es.take(i));
        assert(es.drop_last().take(i + 1) =~= es.take(i + 1));
        lemma_probe_collect_fail(es.drop_last(), i);
    }
}

fn has_probe_id(docs: &Vec<ProbeHierarchyDoc>, id: &str) -> (r: bool)
    ensures
        r == (exists|j: int| 0 <= j < docs@.len() && #[trigger] docs@[j].id@ == id@),
{
    let mut k: usize = 0;
    while k < docs.len()
        invariant
            k <= docs@.len(),
            forall|j: int| 0 <= j < k ==> #[trigger] docs@[j].id@ != id@,
        decreases docs.len() - k,
    {
        if str_eq(docs[k].id.as_str(), id) {
            return true;
        }
        k = k + 1;
    }
    false
}

fn has_probe_path(docs: &Vec<ProbeHierarchyDoc>, path: &str) -> (r: bool)
    ensures
        r == (exists|j: int| 0 <= j < docs@.len() && #[trigger] docs@[j].path@ == path@),
{
    let mut k: usize = 0;
    while k < docs.len()
        invariant
            k <= docs@.len(),
            forall|j: int| 0 <= j < k ==> #[trigger] docs@[j].path@ != path@,
        decreases docs.len() - k,
    {
        if str_eq(docs[k].path.as_str(), path) {
            return true;
        }
        k = k + 1;
    }
    false
}

/// Collects the hierarchy's documents for the probe, depth first, adding a
/// reason for each repeated id or normalized path; a refused path is an
/// error.
#[verifier::loop_isolation(false)]
pub fn collect_probe_hierarchy_documents(hierarchy: &[TreeNode], reasons: &mut Vec<DegradedReason>)
    -> (r: Result<Vec<ProbeHierarchyDoc>, ChiknError>)
    ensures
        match probe_collect(doc_entries(nodes_view(hierarchy@))) {
            Ok((docs, rs)) => r matches Ok(v) && v@.map_values(|d: ProbeHierarchyDoc| probe_doc_view(d)) == docs
                && reason_views(final(reasons)@) == reason_views(old(reasons)@) + rs,
            Err((path, reason)) => r matches Err(ChiknError::InvalidFormat(m))
                && m@ == invalid_path_message(crate::text::replaced(path, seq!['\\'], seq!['/']), reason),
        },
{
    let mut entries: Vec<DocEntry> = Vec::new();
    hierarchy_documents(hierarchy, &mut entries);
    let ghost es = entries@.map_values(|e: DocEntry| entry_view(e));
    let ghost r0 = reason_views(reasons@);
    proof {
        assert(es =~= doc_entries(nodes_view(hierarchy@)));
        assert(es.take(0) =~= Seq::<(Seq<char>, Seq<char>, Seq<char>)>::empty());
    }
    let mut docs: Vec<ProbeHierarchyDoc> = Vec::new();
    proof {
        assert(docs@.map_values(|d: ProbeHierarchyDoc| probe_doc_view(d)) =~= Seq::<(Seq<char>, Seq<char>)>::empty());
        assert(reason_views(reasons@) =~= r0 + Seq::<ReasonView>::empty());
    }
    let mut i: usize = 0;
    while i < entries.len()
        invariant
            i <= entries@.len(),
            es.len() == entries@.len(),
            probe_collect(es.take(i as int)) matches Ok((d, rs)) && d == docs@.map_values(|d: ProbeHierarchyDoc| probe_doc_view(d))
                && reason_views(reasons@) == r0 + rs,
        decreases entries.len() - i,
    {
        let ghost dv = docs@.map_values(|d: ProbeHierarchyDoc| probe_doc_view(d));
        let ghost rv = reason_views(reasons@);
        proof {
            assert(es.take(i + 1).drop_last() =~= es.take(i as int));
            assert(es.take(i + 1).last() == entry_view(entries@[i as int]));
        }
        let entry = &entries[i];
        let normalized = match normalized_relative_document_path(entry.path.as_str()) {
            Ok(p) => p,
            Err(e) => {
                proof {
                    lemma_probe_collect_fail(es, i as int);
                }
                return Err(e);
            },
        };
        let seen_id = has_probe_id(&docs, entry.id.as_str());
        let seen_path = has_probe_path(&docs, normalized.as_str());
        assert(seen_id == (exists|j: int| 0 <= j < dv.len() && #[trigger] dv[j].0 == entry.id@)) by {
            if seen_id {
                let j = choose|j: int| 0 <= j < docs@.len() && docs@[j].id@ == entry.id@;
                assert(dv[j].0 == entry.id@);
            }
        }
        assert(seen_path == (exists|j: int| 0 <= j < dv.len() && #[trigger] dv[j].1 == normalized@)) by {
            if seen_path {
                let j = choose|j: int| 0 <= j < docs@.len() && docs@[j].path@ == normalized@;
                assert(dv[j].1 == normalized@);
            }
        }
        let ghost r1 = if seen_id {
            seq![ReasonView::ConflictingIdentity("duplicate document id "@ + entry.id@)]
        } else {
            Seq::<ReasonView>::empty()
        };
        let ghost r2 = if seen_path {
            seq![ReasonView::ConflictingIdentity("duplicate document path "@ + normalized@)]
        } else {
            Seq::<ReasonView>::empty()
        };
        if seen_id {
            let mut m = owned("duplicate document id ");
            m.append(entry.id.as_str());
            reasons.push(DegradedReason::ConflictingIdentity { detail: m });
        }
        assert(reason_views(reasons@) =~= rv + r1);
        if seen_path {
            let mut m = owned("duplicate document path ");
            m.append(normalized.as_str());
            reasons.push(DegradedReason::ConflictingIdentity { detail: m });
        }
        assert(reason_views(reasons@) =~= rv + r1 + r2);
        docs.push(ProbeHierarchyDoc { id: entry.id.clone(), path: normalized });
        proof {
            assert(docs@.map_values(|d: ProbeHierarchyDoc| probe_doc_view(d)) =~= dv.push((entry.id@, normalized_path(entry.path@))));
            assert(reason_views(reasons@) =~= r0 + probe_collect(es.take(i + 1))->Ok_0.1);
        }
        i = i + 1;
    }
    proof {
        assert(es.take(es.len() as int) =~= es);
    }
    Ok(docs)
}

/// What the file system showed of a file's content.
pub enum ContentState {
    /// Zero bytes.
    Empty,
    /// Non-empty valid UTF-8 text.
    Text,
    /// Bytes that are not valid UTF-8.
    NotText,
    /// Reading failed with this message.
    ReadFailed(String),
}

/// What the file system showed of a path (without following links).
pub enum FileState {
    Missing,
    /// Its metadata could not be read, with this message.
    Unreadable(String),
    /// A link, a folder or anything else that is not a regular file.
    NotRegular,
    /// A regular file.
    Regular(ContentState),
}

fn to_ascii_lower(c: char) -> (r: char)
    ensures
        r == ascii_lower(c),
{
    if 'A' <= c && c <= 'Z' { (((c as u32) + 32) as u8) as char } else { c }
}

/// The extension of a path, ASCII-lowercased.
pub open spec fn lower_extension(path: Seq<char>) -> Option<Seq<char>> {
    match path_extension(path) {
        Some(e) => Some(e.map_values(|c: char| ascii_lower(c))),
        None => None,
    }
}

fn lower_extension_of(path: &str) -> (r: Option<String>)
    ensures
        match lower_extension(path@) {
            Some(e) => r matches Some(x) && x@ == e,
            None => r is None,
        },
{
    match extension_of(path) {
        None => None,
        Some(e) => {
            let cs = chars_of(e.as_str());
            let mut out: Vec<char> = Vec::new();
            let mut i: usize = 0;
            while i < cs.len()
                invariant
                    i <= cs@.len(),
                    out@ == cs@.take(i as int).map_values(|c: char| ascii_lower(c)),
                decreases cs.len() - i,
            {
                out.push(to_ascii_lower(cs[i]));
                assert(cs@.take(i + 1).map_values(|c: char| ascii_lower(c)) =~= cs@.take(i as int).map_values(|c: char| ascii_lower(c)).push(ascii_lower(cs@[i as int])));
                i = i + 1;
            }
            assert(cs@.take(cs@.len() as int) =~= cs@);
            Some(string_of(&out))
        },
    }
}

/// Binary asset types a binder may reference; the engine treats them as
/// opaque.
pub open spec fn asset_extensions() -> Seq<Seq<char>> {
    seq!["pdf"@, "png"@, "jpg"@, "jpeg"@, "gif"@, "webp"@, "tif"@, "tiff"@, "svg"@, "mp3"@, "wav"@, "m4a"@,
        "ogg"@, "flac"@, "mp4"@, "mov"@, "webm"@]
}

fn is_asset_extension(e: &str) -> (r: bool)
    ensures
        r == asset_extensions().contains(e@),
{
    let list: Vec<&str> = vec!["pdf", "png", "jpg", "jpeg", "gif", "webp", "tif", "tiff", "svg", "mp3", "wav", "m4a",
        "ogg", "flac", "mp4", "mov", "webm"];
    assert(list@.map_values(|x: &str| x@) =~= asset_extensions());
    let mut i: usize = 0;
    while i < list.len()
        invariant
            i <= list@.len(),
            list@.map_values(|x: &str| x@) == asset_extensions(),
            forall|j: int| 0 <= j < i ==> #[trigger] asset_extensions()[j] != e@,
        decreases list.len() - i,
    {
        assert(asset_extensions()[i as int] == list@[i as int]@);
        if str_eq(list[i], e) {
            return true;
        }
        i = i + 1;
    }
    false
}

/// The folders whose documents the reader loads.
pub open spec fn under_loaded_root(path: Seq<char>) -> bool {
    starts_with(path, "manuscript/"@) || starts_with(path, "research/"@) || starts_with(path, "characters/"@)
        || starts_with(path, "locations/"@)
}

fn starts_with_str(s: &str, p: &str) -> (r: bool)
    ensures
        r == starts_with(s@, p@),
{
    let cs = chars_of(s);
    crate::project::reader::starts_with_text(&cs, p)
}

/// The reason a hierarchy document (by normalized path) gives, if any,
/// given what the file system showed of it.
pub open spec fn document_reason(path: Seq<char>, st: FileState) -> Option<ReasonView> {
    let ext = lower_extension(path);
    if ext != Some("md"@) {
        if ext matches Some(e) && asset_extensions().contains(e) {
            if st is Regular {
                None
            } else {
                Some(ReasonView::UnresolvedDocument(path, "the asset file is missing"@))
            }
        } else {
            Some(ReasonView::LegacyDocumentPath(path))
        }
    } else if !under_loaded_root(path) {
        Some(ReasonView::UnresolvedDocument(path, "it is outside the folders this app reads"@))
    } else {
        match st {
            FileState::Missing => Some(ReasonView::UnresolvedDocument(path, "the file is missing"@)),
            FileState::Unreadable(e) => Some(ReasonView::UnresolvedDocument(path, "the file cannot be checked: "@ + e@)),
            FileState::NotRegular => Some(ReasonView::UnresolvedDocument(path, "the path is not a regular file"@)),
            FileState::Regular(c) => match c {
                ContentState::NotText => Some(ReasonView::UnresolvedDocument(path, "the file is not valid text"@)),
                ContentState::ReadFailed(e) => Some(ReasonView::UnresolvedDocument(path, "the file cannot be read: "@ + e@)),
                _ => None,
            },
        }
    }
}

fn unresolved(path: &str, detail: String) -> (r: DegradedReason)
    ensures
        r.rv() == ReasonView::UnresolvedDocument(path@, detail@),
{
    DegradedReason::UnresolvedDocument { path: owned(path), detail }
}

/// Checks that a hierarchy document (by normalized path) resolves to
/// content this engine loads: a Markdown file under one of the loaded
/// folders that is a regular file of text (zero bytes are fine), or an
/// existing asset file of a known binary type. Anything else adds a
/// reason.
pub fn check_hierarchy_document_resolves(path: &str, state: &FileState, reasons: &mut Vec<DegradedReason>)
    ensures
        reason_views(final(reasons)@) == reason_views(old(reasons)@) + match document_reason(path@, *state) {
            Some(r) => seq![r],
            None => Seq::empty(),
        },
{
    let ghost before = reason_views(reasons@);
    let ext = lower_extension_of(path);
    let is_md = match &ext {
        Some(e) => str_eq(e.as_str(), "md"),
        None => false,
    };
    let found: Option<DegradedReason> = if !is_md {
        let is_asset = match &ext {
            Some(e) => is_asset_extension(e.as_str()),
            None => false,
        };
        if is_asset {
            match state {
                FileState::Regular(_) => None,
                _ => Some(unresolved(path, owned("the asset file is missing"))),
            }
        } else {
            Some(DegradedReason::LegacyDocumentPath { path: owned(path) })
        }
    } else if !(starts_with_str(path, "manuscript/") || starts_with_str(path, "research/")
        || starts_with_str(path, "characters/") || starts_with_str(path, "locations/")) {
        Some(unresolved(path, owned("it is outside the folders this app reads")))
    } else {
        match state {
            FileState::Missing => Some(unresolved(path, owned("the file is missing"))),
            FileState::Unreadable(e) => Some(unresolved(path, concat("the file cannot be checked: ", e.as_str()))),
            FileState::NotRegular => Some(unresolved(path, owned("the path is not a regular file"))),
            FileState::Regular(c) => match c {
                ContentState::NotText => Some(unresolved(path, owned("the file is not valid text"))),
                ContentState::ReadFailed(e) => Some(unresolved(path, concat("the file cannot be read: ", e.as_str()))),
                _ => None,
            },
        }
    };
    match found {
        Some(r) => {
            let ghost rv = r.rv();
            reasons.push(r);
            assert(reason_views(reasons@) =~= before + seq![rv]);
        },
        None => {
            assert(reason_views(reasons@) =~= before + Seq::<ReasonView>::empty());
        },
    }
}

/// What the file system showed of a Markdown file's sidecar (`.meta`).
pub enum SidecarState {
    Missing,
    /// A link or something else that is not a regular file.
    NotRegular,
    /// It could not be read as text.
    Unreadable,
    /// It does not parse as document metadata.
    Corrupt,
    /// It parses; this is the id it states, if it states one.
    Parsed(Option<String>),
    /// Its metadata could not be read.
    Failed(ChiknError),
}

/// What the file system showed of a folder entry.
pub enum EntryKind {
    Link,
    Dir(Listing),
    /// A regular file, with what was found of its sidecar (looked at only
    /// for Markdown files).
    File(SidecarState),
    Other,
    /// Its metadata could not be read.
    Failed(ChiknError),
}

/// A folder entry by name.
pub struct DirEntry {
    pub name: String,
    pub kind: EntryKind,
}

/// A folder's entries, sorted by name, or the failure to list it.
pub enum Listing {
    Entries(Vec<DirEntry>),
    Failed(ChiknError),
}

/// The hierarchy documents as (id, path).
pub open spec fn probe_docs_view(h: Seq<ProbeHierarchyDoc>) -> Seq<(Seq<char>, Seq<char>)> {
    h.map_values(|d: ProbeHierarchyDoc| probe_doc_view(d))
}

/// The hierarchy documents as (path, id).
pub open spec fn by_path_view(h: Seq<(Seq<char>, Seq<char>)>) -> Seq<(Seq<char>, Seq<char>)> {
    h.map_values(|d: (Seq<char>, Seq<char>)| (d.1, d.0))
}

/// Whether `name` ends in `.md` as an extension.
pub open spec fn is_md_name(name: Seq<char>) -> bool {
    path_extension(name) == Some("md"@)
}

/// The sidecar path shown for a Markdown path: its extension replaced by
/// `meta`, backslashes shown as `/`.
pub open spec fn meta_relative(rel: Seq<char>) -> Seq<char> {
    crate::text::replaced(crate::paths::path_with_extension(rel, "meta"@), seq!['\\'], seq!['/'])
}

/// The scan state: ids seen with their paths, and the reasons so far.
pub type ScanState = (Seq<(Seq<char>, Seq<char>)>, Seq<ReasonView>);

/// Scanning one Markdown file at `rel`: an orphan reason when the hierarchy
/// does not list it (entities excepted); a corrupt-sidecar reason for a
/// sidecar that is not a readable, parsable file; then the identity
/// checks for its id (the sidecar's, else the hierarchy's for its path).
pub open spec fn file_step(rel: Seq<char>, sc: SidecarState, h: Seq<(Seq<char>, Seq<char>)>, st: ScanState)
    -> Result<ScanState, ChiknError> {
    let (seen, rs) = st;
    let listed = exists|k: int| 0 <= k < h.len() && #[trigger] h[k].1 == rel;
    let rs1 = if !crate::project::reader::entity_path(rel) && !listed { rs.push(ReasonView::OrphanDocument(rel)) } else { rs };
    match sc {
        SidecarState::Failed(e) => Err(e),
        _ => {
            let (doc_id, rs2): (Option<Seq<char>>, Seq<ReasonView>) = match sc {
                SidecarState::Missing => (None, rs1),
                SidecarState::Parsed(x) => (match x { Some(i) => Some(i@), None => None }, rs1),
                _ => (None, rs1.push(ReasonView::CorruptSidecar(meta_relative(rel)))),
            };
            let effective = match doc_id {
                Some(i) => Some(i),
                None => lookup_last(by_path_view(h), rel),
            };
            match effective {
                None => Ok((seen, rs2)),
                Some(id) => {
                    let (seen2, rs3) = match lookup_last(seen, id) {
                        Some(prev) => (seen, rs2.push(ReasonView::ConflictingIdentity(
                            "documents '"@ + prev + "' and '"@ + rel + "' share the id "@ + id))),
                        None => (seen.push((id, rel)), rs2),
                    };
                    let rs4 = match lookup_last(h, id) {
                        Some(expected_path) => if expected_path != rel {
                            rs3.push(ReasonView::ConflictingIdentity("document id "@ + id + " is listed at '"@
                                + expected_path + "' but found at '"@ + rel + "'"@))
                        } else {
                            rs3
                        },
                        None => match lookup_last(by_path_view(h), rel) {
                            Some(expected_id) => if expected_id != id {
                                rs3.push(ReasonView::ConflictingIdentity("'"@ + rel + "' is listed as "@ + expected_id
                                    + " but its notes file says "@ + id))
                            } else {
                                rs3
                            },
                            None => rs3,
                        },
                    };
                    Ok((seen2, rs4))
                },
            }
        },
    }
}

/// Scanning a folder listing at `dir`.
pub open spec fn scan_listing(dir: Seq<char>, l: Listing, h: Seq<(Seq<char>, Seq<char>)>, st: ScanState)
    -> Result<ScanState, ChiknError>
    decreases l,
{
    match l {
        Listing::Failed(e) => Err(e),
        Listing::Entries(es) => scan_entries(dir, es@, h, st),
    }
}

/// Scanning folder entries in order.
pub open spec fn scan_entries(dir: Seq<char>, es: Seq<DirEntry>, h: Seq<(Seq<char>, Seq<char>)>, st: ScanState)
    -> Result<ScanState, ChiknError>
    decreases es,
{
    if es.len() == 0 {
        Ok(st)
    } else {
        match scan_entries(dir, es.drop_last(), h, st) {
            Err(e) => Err(e),
            Ok(st2) => scan_entry(dir, es.last(), h, st2),
        }
    }
}

/// Scanning one folder entry: links are unresolvable, folders are scanned,
/// Markdown files are checked, anything else is skipped.
pub open spec fn scan_entry(dir: Seq<char>, e: DirEntry, h: Seq<(Seq<char>, Seq<char>)>, st: ScanState)
    -> Result<ScanState, ChiknError>
    decreases e,
{
    let rel = dir + "/"@ + e.name@;
    match e.kind {
        EntryKind::Link => Ok((st.0, st.1.push(ReasonView::UnresolvedDocument(rel, "the path is a link, not a real file"@)))),
        EntryKind::Dir(l) => scan_listing(rel, l, h, st),
        EntryKind::File(sc) => if is_md_name(e.name@) { file_step(rel, sc, h, st) } else { Ok(st) },
        EntryKind::Other => Ok(st),
        EntryKind::Failed(err) => Err(err),
    }
}

fn conflict(detail: String) -> (r: DegradedReason)
    ensures
        r.rv() == ReasonView::ConflictingIdentity(detail@),
{
    DegradedReason::ConflictingIdentity { detail }
}

fn is_listed(h: &Vec<ProbeHierarchyDoc>, rel: &str) -> (r: bool)
    ensures
        r == (exists|k: int| 0 <= k < h@.len() && #[trigger] probe_docs_view(h@)[k].1 == rel@),
{
    let ghost hv = probe_docs_view(h@);
    let mut k: usize = 0;
    while k < h.len()
        invariant
            k <= h@.len(),
            hv == probe_docs_view(h@),
            forall|j: int| 0 <= j < k ==> #[trigger] hv[j].1 != rel@,
        decreases h.len() - k,
    {
        assert(hv[k as int] == (h@[k as int].id@, h@[k as int].path@));
        if str_eq(h[k].path.as_str(), rel) {
            assert(probe_docs_view(h@)[k as int].1 == rel@);
            return true;
        }
        k = k + 1;
    }
    false
}

/// The last (path, id) entry for a path, as an index.
fn lookup_by_path(h: &Vec<ProbeHierarchyDoc>, rel: &str) -> (r: Option<usize>)
    ensures
        match lookup_last(by_path_view(probe_docs_view(h@)), rel@) {
            Some(x) => r matches Some(i) && i < h@.len() && h@[i as int].id@ == x,
            None => r is None,
        },
{
    let ghost pv = by_path_view(probe_docs_view(h@));
    let mut i: usize = h.len();
    proof {
        assert(pv.take(pv.len() as int) =~= pv);
    }
    while i > 0
        invariant
            i <= h@.len(),
            pv == by_path_view(probe_docs_view(h@)),
            pv.len() == h@.len(),
            lookup_last(pv, rel@) == lookup_last(pv.take(i as int), rel@),
        decreases i,
    {
        let ghost t = pv.take(i as int);
        assert(t.drop_last() =~= pv.take(i - 1));
        assert(t.last() == (h@[i - 1].path@, h@[i - 1].id@));
        if str_eq(h[i - 1].path.as_str(), rel) {
            return Some(i - 1);
        }
        i = i - 1;
    }
    None
}

/// The last (id, path) entry for an id, as an index.
fn lookup_by_id(h: &Vec<ProbeHierarchyDoc>, id: &str) -> (r: Option<usize>)
    ensures
        match lookup_last(probe_docs_view(h@), id@) {
            Some(x) => r matches Some(i) && i < h@.len() && h@[i as int].path@ == x,
            None => r is None,
        },
{
    let ghost pv = probe_docs_view(h@);
    let mut i: usize = h.len();
    proof {
        assert(pv.take(pv.len() as int) =~= pv);
    }
    while i > 0
        invariant
            i <= h@.len(),
            pv == probe_docs_view(h@),
            pv.len() == h@.len(),
            lookup_last(pv, id@) == lookup_last(pv.take(i as int), id@),
        decreases i,
    {
        let ghost t = pv.take(i as int);
        assert(t.drop_last() =~= pv.take(i - 1));
        assert(t.last() == (h@[i - 1].id@, h@[i - 1].path@));
        if str_eq(h[i - 1].id.as_str(), id) {
            return Some(i - 1);
        }
        i = i - 1;
    }
    None
}

fn meta_relative_of(rel: &str) -> (r: String)
    ensures
        r@ == meta_relative(rel@),
{
    proof {
        reveal_strlit("meta");
    }
    let t = crate::paths::with_extension(rel, "meta");
    proof {
        reveal_strlit("\\");
        reveal_strlit("/");
        assert("\\"@ =~= seq!['\\']);
        assert("/"@ =~= seq!['/']);
    }
    crate::text::replace_text(t.as_str(), "\\", "/")
}

/// Checks one Markdown file found at `rel`.
#[verifier::loop_isolation(false)]
fn check_markdown_file(rel: &str, sidecar: &SidecarState, h: &Vec<ProbeHierarchyDoc>, seen: &mut Vec<(String, String)>,
    reasons: &mut Vec<DegradedReason>) -> (r: Result<(), ChiknError>)
    ensures
        match file_step(rel@, *sidecar, probe_docs_view(h@), (pairs_view(old(seen)@), reason_views(old(reasons)@))) {
            Ok(st) => r is Ok && pairs_view(final(seen)@) == st.0 && reason_views(final(reasons)@) == st.1,
            Err(e) => r == Err::<(), ChiknError>(e),
        },
{
    let ghost hv = probe_docs_view(h@);
    let ghost rs0 = reason_views(reasons@);
    let cs = chars_of(rel);
    let entity = crate::project::reader::starts_with_text(&cs, "characters/")
        || crate::project::reader::starts_with_text(&cs, "locations/");
    if !entity && !is_listed(h, rel) {
        reasons.push(DegradedReason::OrphanDocument { path: owned(rel) });
        assert(reason_views(reasons@) =~= rs0.push(ReasonView::OrphanDocument(rel@)));
    } else {
        assert(reason_views(reasons@) =~= rs0);
    }
    let ghost rs1 = reason_views(reasons@);
    let doc_id: Option<String> = match sidecar {
        SidecarState::Failed(e) => {
            return Err(copy_error(e));
        },
        SidecarState::Missing => None,
        SidecarState::Parsed(x) => match x {
            Some(i) => Some(i.clone()),
            None => None,
        },
        _ => {
            reasons.push(DegradedReason::CorruptSidecar { path: meta_relative_of(rel) });
            assert(reason_views(reasons@) =~= rs1.push(ReasonView::CorruptSidecar(meta_relative(rel@))));
            None
        },
    };
    let ghost rs2 = reason_views(reasons@);
    let effective: Option<String> = match doc_id {
        Some(i) => Some(i),
        None => match lookup_by_path(h, rel) {
            Some(k) => Some(h[k].id.clone()),
            None => None,
        },
    };
    let id = match effective {
        None => {
            return Ok(());
        },
        Some(i) => i,
    };
    let ghost s0 = pairs_view(seen@);
    match lookup_uuid(seen, id.as_str()) {
        Some(q) => {
            let mut m = owned("documents '");
            m.append(seen[q].1.as_str());
            m.append("' and '");
            m.append(rel);
            m.append("' share the id ");
            m.append(id.as_str());
            let ghost d = m@;
            reasons.push(conflict(m));
            assert(reason_views(reasons@) =~= rs2.push(ReasonView::ConflictingIdentity(d)));
        },
        None => {
            seen.push((id.clone(), owned(rel)));
            assert(pairs_view(seen@) =~= s0.push((id@, rel@)));
        },
    }
    let ghost rs3 = reason_views(reasons@);
    match lookup_by_id(h, id.as_str()) {
        Some(k) => {
            if !str_eq(h[k].path.as_str(), rel) {
                let mut m = owned("document id ");
                m.append(id.as_str());
                m.append(" is listed at '");
                m.append(h[k].path.as_str());
                m.append("' but found at '");
                m.append(rel);
                m.append("'");
                let ghost d = m@;
                reasons.push(conflict(m));
                assert(reason_views(reasons@) =~= rs3.push(ReasonView::ConflictingIdentity(d)));
            }
        },
        None => {
            match lookup_by_path(h, rel) {
                Some(k) => {
                    if !str_eq(h[k].id.as_str(), id.as_str()) {
                        let mut m = owned("'");
                        m.append(rel);
                        m.append("' is listed as ");
                        m.append(h[k].id.as_str());
                        m.append(" but its notes file says ");
                        m.append(id.as_str());
                        let ghost d = m@;
                        reasons.push(conflict(m));
                        assert(reason_views(reasons@) =~= rs3.push(ReasonView::ConflictingIdentity(d)));
                    }
                },
                None => {},
            }
        },
    }
    Ok(())
}

fn scan_listing_exec(dir: &str, listing: &Listing, h: &Vec<ProbeHierarchyDoc>, seen: &mut Vec<(String, String)>,
    reasons: &mut Vec<DegradedReason>) -> (r: Result<(), ChiknError>)
    ensures
        match scan_listing(dir@, *listing, probe_docs_view(h@), (pairs_view(old(seen)@), reason_views(old(reasons)@))) {
            Ok(st) => r is Ok && pairs_view(final(seen)@) == st.0 && reason_views(final(reasons)@) == st.1,
            Err(e) => r == Err::<(), ChiknError>(e),
        },
    decreases *listing,
{
    match listing {
        Listing::Failed(e) => Err(copy_error(e)),
        Listing::Entries(es) => scan_documents_folder(dir, es.as_slice(), h, seen, reasons),
    }
}

fn scan_entry_exec(dir: &str, entry: &DirEntry, h: &Vec<ProbeHierarchyDoc>, seen: &mut Vec<(String, String)>,
    reasons: &mut Vec<DegradedReason>) -> (r: Result<(), ChiknError>)
    ensures
        match scan_entry(dir@, *entry, probe_docs_view(h@), (pairs_view(old(seen)@), reason_views(old(reasons)@))) {
            Ok(st) => r is Ok && pairs_view(final(seen)@) == st.0 && reason_views(final(reasons)@) == st.1,
            Err(e) => r == Err::<(), ChiknError>(e),
        },
    decreases *entry,
{
    let mut rel = owned(dir);
    rel.append("/");
    rel.append(entry.name.as_str());
    let ghost rs0 = reason_views(reasons@);
    match &entry.kind {
        EntryKind::Link => {
            reasons.push(unresolved(rel.as_str(), owned("the path is a link, not a real file")));
            assert(reason_views(reasons@) =~= rs0.push(ReasonView::UnresolvedDocument(rel@,
                "the path is a link, not a real file"@)));
            Ok(())
        },
        EntryKind::Dir(l) => scan_listing_exec(rel.as_str(), l, h, seen, reasons),
        EntryKind::File(sc) => {
            let md = match extension_of(entry.name.as_str()) {
                Some(e) => str_eq(e.as_str(), "md"),
                None => false,
            };
            if md {
                check_markdown_file(rel.as_str(), sc, h, seen, reasons)
            } else {
                Ok(())
            }
        },
        EntryKind::Other => Ok(()),
        EntryKind::Failed(e) => Err(copy_error(e)),
    }
}

/// Scans the entries of a loaded folder at `relative_dir` (sorted by
/// name) for links, orphan documents, damaged sidecars and identity
/// conflicts, descending into subfolders; a failure to read an entry's or
/// a subfolder's metadata stops the scan with that error.
pub fn scan_documents_folder(relative_dir: &str, entries: &[DirEntry], h: &Vec<ProbeHierarchyDoc>,
    seen: &mut Vec<(String, String)>, reasons: &mut Vec<DegradedReason>) -> (r: Result<(), ChiknError>)
    ensures
        match scan_entries(relative_dir@, entries@, probe_docs_view(h@), (pairs_view(old(seen)@), reason_views(old(reasons)@))) {
            Ok(st) => r is Ok && pairs_view(final(seen)@) == st.0 && reason_views(final(reasons)@) == st.1,
            Err(e) => r == Err::<(), ChiknError>(e),
        },
    decreases entries@,
{
    let ghost st0 = (pairs_view(seen@), reason_views(reasons@));
    let mut i: usize = 0;
    proof {
        assert(entries@.take(0) =~= Seq::<DirEntry>::empty());
    }
    while i < entries.len()
        invariant
            i <= entries@.len(),
            st0 == (pairs_view(old(seen)@), reason_views(old(reasons)@)),
            scan_entries(relative_dir@, entries@.take(i as int), probe_docs_view(h@), st0)
                == Ok::<ScanState, ChiknError>((pairs_view(seen@), reason_views(reasons@))),
        decreases entries.len() - i,
    {
        proof {
            assert(entries@.take(i + 1).drop_last() =~= entries@.take(i as int));
            assert(entries@.take(i + 1).last() == entries@[i as int]);
            assert(decreases_to!(entries@ => entries@[i as int]));
        }
        let ghost cur = (pairs_view(seen@), reason_views(reasons@));
        proof {
            assert(scan_entries(relative_dir@, entries@.take(i + 1), probe_docs_view(h@), st0)
                == scan_entry(relative_dir@, entries@[i as int], probe_docs_view(h@), cur));
        }
        match scan_entry_exec(relative_dir, &entries[i], h, seen, reasons) {
            Ok(()) => {},
            Err(e) => {
                proof {
                    assert(scan_entry(relative_dir@, entries@[i as int], probe_docs_view(h@), cur) == Err::<ScanState, ChiknError>(e));
                    lemma_scan_fail(relative_dir@, entries@, probe_docs_view(h@), st0, i as int);
                    assert(scan_entries(relative_dir@, entries@, probe_docs_view(h@), st0) == Err::<ScanState, ChiknError>(e));
                }
                return Err(e);
            },
        }
        i = i + 1;
    }
    proof {
        assert(entries@.take(entries@.len() as int) =~= entries@);
    }
    Ok(())
}

proof fn lemma_scan_fail(dir: Seq<char>, es: Seq<DirEntry>, h: Seq<(Seq<char>, Seq<char>)>, st: ScanState, i: int)
    requires
        0 <= i < es.len(),
        scan_entries(dir, es.take(i), h, st) is Ok,
        scan_entries(dir, es.take(i + 1), h, st) is Err,
    ensures
        scan_entries(dir, es, h, st) == scan_entries(dir, es.take(i + 1), h, st),
    decreases es.len(),
{
    if i == es.len() - 1 {
        assert(es.take(i + 1) =~= es);
    } else {
        assert(es.drop_last().take(i) =~= es.take(i));
        assert(es.drop_last().take(i + 1) =~= es.take(i + 1));
        lemma_scan_fail(dir, es.drop_last(), h, st, i);
    }
}

/// What the file system showed of one of the loaded folders.
pub enum RootState {
    Missing,
    /// A link or something else that is not a folder.
    NotFolder,
    /// Its metadata could not be read.
    Failed(ChiknError),
    Folder(Listing),
}

/// The folders the reader loads documents from, in scan order.
pub open spec fn loaded_roots() -> Seq<Seq<char>> {
    seq!["manuscript"@, "research"@, "characters"@, "locations"@]
}

/// Scanning the loaded folders in order: a missing folder is skipped, one
/// that is not a folder is unresolvable, a failure stops the scan.
pub open spec fn scan_roots(roots: Seq<RootState>, names: Seq<Seq<char>>, h: Seq<(Seq<char>, Seq<char>)>, st: ScanState)
    -> Result<ScanState, ChiknError>
    decreases roots.len(),
{
    if roots.len() == 0 || names.len() == 0 {
        Ok(st)
    } else {
        match scan_roots(roots.drop_last(), names.drop_last(), h, st) {
            Err(e) => Err(e),
            Ok(st2) => match roots.last() {
                RootState::Missing => Ok(st2),
                RootState::NotFolder => Ok((st2.0, st2.1.push(ReasonView::UnresolvedDocument(names.last(),
                    "a project folder is not a regular folder"@)))),
                RootState::Failed(e) => Err(e),
                RootState::Folder(l) => scan_listing(names.last(), l, h, st2),
            },
        }
    }
}

/// Scans the folders the reader loads (manuscript, research, characters,
/// locations, in that order) for links, orphans, damaged sidecars and
/// identity conflicts.
pub fn scan_loaded_documents(roots: &Vec<RootState>, h: &Vec<ProbeHierarchyDoc>, reasons: &mut Vec<DegradedReason>)
    -> (r: Result<(), ChiknError>)
    requires
        roots@.len() == 4,
    ensures
        match scan_roots(roots@, loaded_roots(), probe_docs_view(h@), (Seq::empty(), reason_views(old(reasons)@))) {
            Ok(st) => r is Ok && reason_views(final(reasons)@) == st.1,
            Err(e) => r == Err::<(), ChiknError>(e),
        },
{
    let names: Vec<&str> = vec!["manuscript", "research", "characters", "locations"];
    assert(names@.map_values(|x: &str| x@) =~= loaded_roots());
    let mut seen: Vec<(String, String)> = Vec::new();
    let ghost st0 = (pairs_view(seen@), reason_views(reasons@));
    proof {
        assert(pairs_view(seen@) =~= Seq::<(Seq<char>, Seq<char>)>::empty());
        assert(roots@.take(0) =~= Seq::<RootState>::empty());
    }
    let mut i: usize = 0;
    while i < 4
        invariant
            i <= 4,
            roots@.len() == 4,
            names@.map_values(|x: &str| x@) == loaded_roots(),
            st0 == (Seq::<(Seq<char>, Seq<char>)>::empty(), reason_views(old(reasons)@)),
            scan_roots(roots@.take(i as int), loaded_roots().take(i as int), probe_docs_view(h@), st0)
                == Ok::<ScanState, ChiknError>((pairs_view(seen@), reason_views(reasons@))),
        decreases 4 - i,
    {
        let ghost cur = (pairs_view(seen@), reason_views(reasons@));
        proof {
            assert(roots@.take(i + 1).drop_last() =~= roots@.take(i as int));
            assert(roots@.take(i + 1).last() == roots@[i as int]);
            assert(loaded_roots().take(i + 1).drop_last() =~= loaded_roots().take(i as int));
            assert(loaded_roots().take(i + 1).last() == names@[i as int]@);
        }
        match &roots[i] {
            RootState::Missing => {},
            RootState::NotFolder => {
                let ghost rs = reason_views(reasons@);
                reasons.push(unresolved(names[i], owned("a project folder is not a regular folder")));
                assert(reason_views(reasons@) =~= rs.push(ReasonView::UnresolvedDocument(names@[i as int]@,
                    "a project folder is not a regular folder"@)));
            },
            RootState::Failed(e) => {
                let err = copy_error(e);
                proof {
                    lemma_roots_fail(roots@, loaded_roots(), probe_docs_view(h@), st0, i as int);
                }
                return Err(err);
            },
            RootState::Folder(l) => {
                match scan_listing_exec(names[i], l, h, &mut seen, reasons) {
                    Ok(()) => {},
                    Err(e) => {
                        proof {
                            assert(scan_listing(names@[i as int]@, *l, probe_docs_view(h@), cur) == Err::<ScanState, ChiknError>(e));
                            lemma_roots_fail(roots@, loaded_roots(), probe_docs_view(h@), st0, i as int);
                        }
                        return Err(e);
                    },
                }
            },
        }
        i = i + 1;
    }
    proof {
        assert(roots@.take(4) =~= roots@);
        assert(loaded_roots().take(4) =~= loaded_roots());
    }
    Ok(())
}

proof fn lemma_roots_fail(roots: Seq<RootState>, names: Seq<Seq<char>>, h: Seq<(Seq<char>, Seq<char>)>, st: ScanState, i: int)
    requires
        0 <= i < roots.len(),
        roots.len() == names.len(),
        scan_roots(roots.take(i), names.take(i), h, st) is Ok,
        scan_roots(roots.take(i + 1), names.take(i + 1), h, st) is Err,
    ensures
        scan_roots(roots, names, h, st) == scan_roots(roots.take(i + 1), names.take(i + 1), h, st),
    decreases roots.len(),
{
    if i == roots.len() - 1 {
        assert(roots.take(i + 1) =~= roots);
        assert(names.take(i + 1) =~= names);
    } else {
        assert(roots.drop_last().take(i) =~= roots.take(i));
        assert(roots.drop_last().take(i + 1) =~= roots.take(i + 1));
        assert(names.drop_last().take(i) =~= names.take(i));
        assert(names.drop_last().take(i + 1) =~= names.take(i + 1));
        lemma_roots_fail(roots.drop_last(), names.drop_last(), h, st, i);
    }
}

/// The reasons the hierarchy documents give, in order.
pub open spec fn docs_reasons(docs: Seq<(Seq<char>, Seq<char>)>, states: Seq<FileState>) -> Seq<ReasonView>
    decreases docs.len(),
{
    if docs.len() == 0 || states.len() == 0 {
        Seq::empty()
    } else {
        docs_reasons(docs.drop_last(), states.drop_last()) + match document_reason(docs.last().1, states.last()) {
            Some(r) => seq![r],
            None => Seq::empty(),
        }
    }
}

/// The outcome of a probe given what was read: the reasons of the format
/// version, of the hierarchy's identities, of each hierarchy document and
/// of the scan of the loaded folders, in that order.
pub open spec fn probe_reasons(format_version: Option<Seq<char>>, docs: Seq<(Seq<char>, Seq<char>)>,
    collect_reasons: Seq<ReasonView>, states: Seq<FileState>) -> Seq<ReasonView> {
    format_reasons(format_version) + collect_reasons + docs_reasons(docs, states)
}

/// Classifies a project from what was read of it: the declared format
/// version, the hierarchy, what the file system showed of each hierarchy
/// document (in the order `collect_probe_hierarchy_documents` gives them)
/// and of each loaded folder. `Full` when no reason is found.
pub fn probe_from_facts(format_version: Option<&str>, hierarchy: &[TreeNode], states: &Vec<FileState>,
    roots: &Vec<RootState>) -> (r: Result<Fidelity, ChiknError>)
    requires
        roots@.len() == 4,
        probe_collect(doc_entries(nodes_view(hierarchy@))) matches Ok((d, _)) ==> states@.len() == d.len(),
    ensures
        match probe_collect(doc_entries(nodes_view(hierarchy@))) {
            Err((path, reason)) => r matches Err(ChiknError::InvalidFormat(m))
                && m@ == invalid_path_message(crate::text::replaced(path, seq!['\\'], seq!['/']), reason),
            Ok((docs, crs)) => {
                let fv = match format_version { Some(f) => Some(f@), None => None };
                match scan_roots(roots@, loaded_roots(), docs, (Seq::empty(), probe_reasons(fv, docs, crs, states@))) {
                    Err(e) => r == Err::<Fidelity, ChiknError>(e),
                    Ok(st) => r matches Ok(f) && (st.1.len() == 0 ==> f is Full)
                        && (st.1.len() > 0 ==> (f matches Fidelity::Degraded { reasons } && reason_views(reasons@) == st.1)),
                }
            },
        },
{
    let mut reasons: Vec<DegradedReason> = Vec::new();
    check_format_version(format_version, &mut reasons);
    let ghost r1 = reason_views(reasons@);
    proof {
        assert(reason_views(Seq::<DegradedReason>::empty()) =~= Seq::<ReasonView>::empty());
    }
    let docs = match collect_probe_hierarchy_documents(hierarchy, &mut reasons) {
        Ok(d) => d,
        Err(e) => {
            return Err(e);
        },
    };
    let ghost dv = probe_docs_view(docs@);
    let ghost r2 = reason_views(reasons@);
    let mut i: usize = 0;
    proof {
        assert(dv.take(0) =~= Seq::<(Seq<char>, Seq<char>)>::empty());
        assert(states@.take(0) =~= Seq::<FileState>::empty());
        assert(r2 =~= r2 + docs_reasons(dv.take(0), states@.take(0)));
    }
    while i < docs.len()
        invariant
            i <= docs@.len(),
            docs@.len() == states@.len(),
            dv == probe_docs_view(docs@),
            reason_views(reasons@) == r2 + docs_reasons(dv.take(i as int), states@.take(i as int)),
        decreases docs.len() - i,
    {
        proof {
            assert(dv.take(i + 1).drop_last() =~= dv.take(i as int));
            assert(dv.take(i + 1).last() == (docs@[i as int].id@, docs@[i as int].path@));
            assert(states@.take(i + 1).drop_last() =~= states@.take(i as int));
            assert(states@.take(i + 1).last() == states@[i as int]);
        }
        let ghost before = reason_views(reasons@);
        check_hierarchy_document_resolves(docs[i].path.as_str(), &states[i], &mut reasons);
        proof {
            assert(reason_views(reasons@) =~= r2 + docs_reasons(dv.take(i + 1), states@.take(i + 1)));
        }
        i = i + 1;
    }
    proof {
        assert(dv.take(dv.len() as int) =~= dv);
        assert(states@.take(states@.len() as int) =~= states@);
    }
    match scan_loaded_documents(roots, &docs, &mut reasons) {
        Ok(()) => {},
        Err(e) => {
            return Err(e);
        },
    }
    Ok(fidelity_from_reasons(reasons))
}

/// The write epochs of project roots: how often each root's tree has been
/// replaced during this process.
pub struct EpochRegistry {
    entries: Vec<(String, u64)>,
}

/// The epoch recorded for a root (the last entry for it), 0 when none is.
pub open spec fn epoch_in(entries: Seq<(Seq<char>, u64)>, root: Seq<char>) -> u64
    decreases entries.len(),
{
    if entries.len() == 0 {
        0
    } else if entries.last().0 == root {
        entries.last().1
    } else {
        epoch_in(entries.drop_last(), root)
    }
}

impl EpochRegistry {
    /// The entries as texts and numbers.
    pub closed spec fn entries_view(self) -> Seq<(Seq<char>, u64)> {
        self.entries@.map_values(|e: (String, u64)| (e.0@, e.1))
    }

    /// The epoch of a root.
    pub open spec fn epoch(self, root: Seq<char>) -> u64 {
        epoch_in(self.entries_view(), root)
    }

    /// A registry in which every root is at epoch 0.
    pub fn new() -> (r: EpochRegistry)
        ensures
            forall|root: Seq<char>| #[trigger] r.epoch(root) == 0,
    {
        let r = EpochRegistry { entries: Vec::new() };
        assert(r.entries_view() =~= Seq::<(Seq<char>, u64)>::empty());
        r
    }

    fn find(&self, root: &str) -> (r: Option<usize>)
        ensures
            match r {
                Some(i) => i < self.entries@.len() && self.entries@[i as int].0@ == root@
                    && self.epoch(root@) == self.entries@[i as int].1
                    && forall|j: int| i < j < self.entries@.len() ==> #[trigger] self.entries@[j].0@ != root@,
                None => self.epoch(root@) == 0 && forall|j: int| 0 <= j < self.entries@.len() ==> #[trigger] self.entries@[j].0@ != root@,
            },
    {
        let ghost v = self.entries_view();
        let mut i: usize = self.entries.len();
        proof {
            assert(v.take(v.len() as int) =~= v);
        }
        while i > 0
            invariant
                i <= self.entries@.len(),
                v == self.entries_view(),
                v.len() == self.entries@.len(),
                epoch_in(v, root@) == epoch_in(v.take(i as int), root@),
                forall|j: int| i <= j < self.entries@.len() ==> #[trigger] self.entries@[j].0@ != root@,
            decreases i,
        {
            let ghost t = v.take(i as int);
            assert(t.drop_last() =~= v.take(i - 1));
            assert(t.last() == (self.entries@[i - 1].0@, self.entries@[i - 1].1));
            if str_eq(self.entries[i - 1].0.as_str(), root) {
                return Some(i - 1);
            }
            i = i - 1;
        }
        None
    }

    /// The current epoch of a root.
    pub fn current(&self, root: &str) -> (r: u64)
        ensures
            r == self.epoch(root@),
    {
        match self.find(root) {
            Some(i) => self.entries[i].1,
            None => 0,
        }
    }

    /// Moves a root to its next epoch; every other root keeps its epoch.
    pub fn bump(&mut self, root: &str)
        requires
            old(self).epoch(root@) < u64::MAX,
        ensures
            final(self).epoch(root@) == old(self).epoch(root@) + 1,
            forall|other: Seq<char>| other != root@ ==> #[trigger] final(self).epoch(other) == old(self).epoch(other),
    {
        let ghost v0 = self.entries_view();
        match self.find(root) {
            Some(i) => {
                let next = self.entries[i].1 + 1;
                let mut entry = (owned(root), next);
                self.entries.set_and_swap(i, &mut entry);
                proof {
                    let v1 = self.entries_view();
                    assert(v1 =~= v0.update(i as int, (root@, next)));
                    lemma_epoch_update(v0, i as int, root@, next);
                }
            },
            None => {
                self.entries.push((owned(root), 1));
                proof {
                    let v1 = self.entries_view();
                    assert(v1 =~= v0.push((root@, 1u64)));
                    assert(v1.drop_last() =~= v0);
                }
            },
        }
    }
}

proof fn lemma_epoch_update(v: Seq<(Seq<char>, u64)>, i: int, root: Seq<char>, n: u64)
    requires
        0 <= i < v.len(),
        v[i].0 == root,
        forall|j: int| i < j < v.len() ==> #[trigger] v[j].0 != root,
    ensures
        epoch_in(v.update(i, (root, n)), root) == n,
        forall|other: Seq<char>| other != root ==> #[trigger] epoch_in(v.update(i, (root, n)), other) == epoch_in(v, other),
    decreases v.len(),
{
    let w = v.update(i, (root, n));
    if i == v.len() - 1 {
        assert(w.drop_last() =~= v.drop_last());
        assert forall|other: Seq<char>| other != root implies #[trigger] epoch_in(w, other) == epoch_in(v, other) by {
            assert(w.last().0 == root);
            assert(v.last().0 == root);
        }
    } else {
        assert(w.drop_last() =~= v.drop_last().update(i, (root, n)));
        lemma_epoch_update(v.drop_last(), i, root, n);
        assert(w.last() == v.last());
        assert forall|other: Seq<char>| other != root implies #[trigger] epoch_in(w, other) == epoch_in(v, other) by {
            assert(epoch_in(v.drop_last().update(i, (root, n)), other) == epoch_in(v.drop_last(), other));
        }
    }
}

/// An engine-issued session capability for one project root, stamped with
/// the root's write epoch at issue time. It is only issued for a project
/// that probed `Full`.
pub struct WriteToken {
    root: String,
    epoch: u64,
}

impl WriteToken {
    /// The root the token was issued for.
    pub closed spec fn root_view(self) -> Seq<char> {
        self.root@
    }

    /// The epoch the token was issued at.
    pub closed spec fn epoch_view(self) -> u64 {
        self.epoch
    }

    /// The canonical project root this token was issued for.
    pub fn root(&self) -> (r: &str)
        ensures
            r@ == self.root_view(),
    {
        self.root.as_str()
    }

    /// True when the root's tree has been replaced since the token was
    /// issued.
    pub fn is_stale(&self, registry: &EpochRegistry) -> (r: bool)
        ensures
            r == (registry.epoch(self.root_view()) != self.epoch_view()),
    {
        registry.current(self.root.as_str()) != self.epoch
    }

    /// Refuses a stale token.
    pub fn ensure_epoch_fresh(&self, registry: &EpochRegistry) -> (r: Result<(), ChiknError>)
        ensures
            registry.epoch(self.root_view()) == self.epoch_view() ==> r is Ok,
            registry.epoch(self.root_view()) != self.epoch_view() ==> (r matches Err(ChiknError::ReadOnly(m))
                && m@ == "the project at "@ + self.root_view()
                    + " changed on disk after this session started; reopen it to continue"@),
    {
        if self.is_stale(registry) {
            let mut m = owned("the project at ");
            m.append(self.root.as_str());
            m.append(" changed on disk after this session started; reopen it to continue");
            return Err(ChiknError::ReadOnly(m));
        }
        Ok(())
    }

    /// Refuses a token used for another project. `canonical` is the
    /// resolved form of `project_path`, or the message of the failure to
    /// resolve it.
    pub fn ensure_valid_root(&self, project_path: &str, canonical: &Result<String, String>) -> (r: Result<(), ChiknError>)
        ensures
            match canonical {
                Err(msg) => r matches Err(ChiknError::ReadOnly(m))
                    && m@ == "cannot resolve project path "@ + project_path@ + ": "@ + msg@,
                Ok(c) => if c@ == self.root_view() {
                    r is Ok
                } else {
                    r matches Err(ChiknError::ReadOnly(m)) && m@ == "write access was granted for "@ + self.root_view()
                        + ", not "@ + c@
                },
            },
    {
        match canonical {
            Err(msg) => {
                let mut m = owned("cannot resolve project path ");
                m.append(project_path);
                m.append(": ");
                m.append(msg.as_str());
                Err(ChiknError::ReadOnly(m))
            },
            Ok(c) => {
                if !str_eq(c.as_str(), self.root.as_str()) {
                    let mut m = owned("write access was granted for ");
                    m.append(self.root.as_str());
                    m.append(", not ");
                    m.append(c.as_str());
                    return Err(ChiknError::ReadOnly(m));
                }
                Ok(())
            },
        }
    }

    /// Opens write authority for one operation: the token must be for this
    /// project and fresh, and the project must still probe `Full` (`probe`
    /// is the fresh probe's outcome).
    pub fn permit<'a>(&'a self, project_path: &str, canonical: &Result<String, String>, probe: Result<Fidelity, ChiknError>,
        registry: &EpochRegistry) -> (r: Result<WritePermit<'a>, ChiknError>)
        ensures
            r is Ok <==> ((canonical matches Ok(c) && c@ == self.root_view())
                && registry.epoch(self.root_view()) == self.epoch_view()
                && probe matches Ok(Fidelity::Full)),
            r matches Ok(p) ==> p.token_view() == *self,
            match canonical {
                Err(msg) => r matches Err(ChiknError::ReadOnly(m))
                    && m@ == "cannot resolve project path "@ + project_path@ + ": "@ + msg@,
                Ok(c) => if c@ != self.root_view() {
                    r matches Err(ChiknError::ReadOnly(m)) && m@ == "write access was granted for "@ + self.root_view()
                        + ", not "@ + c@
                } else if registry.epoch(self.root_view()) != self.epoch_view() {
                    r matches Err(ChiknError::ReadOnly(m)) && m@ == "the project at "@ + self.root_view()
                        + " changed on disk after this session started; reopen it to continue"@
                } else {
                    match probe {
                        Err(e) => r matches Err(e2) && e2 == e,
                        Ok(Fidelity::Degraded { reasons }) => r matches Err(ChiknError::ReadOnly(m))
                            && m@ == reasons_text(reason_views(reasons@)),
                        Ok(Fidelity::Full) => r is Ok,
                    }
                },
            },
    {
        match self.ensure_valid_root(project_path, canonical) {
            Ok(()) => {},
            Err(e) => {
                return Err(e);
            },
        }
        match self.ensure_epoch_fresh(registry) {
            Ok(()) => {},
            Err(e) => {
                return Err(e);
            },
        }
        match probe {
            Err(e) => {
                return Err(e);
            },
            Ok(Fidelity::Full) => {},
            Ok(Fidelity::Degraded { reasons }) => {
                return Err(ChiknError::ReadOnly(describe_reasons(reasons.as_slice())));
            },
        }
        match self.ensure_epoch_fresh(registry) {
            Ok(()) => {},
            Err(e) => {
                return Err(e);
            },
        }
        Ok(WritePermit { token: self })
    }
}

/// Issues a write token for a project that probed `Full`, stamped with the
/// root's current epoch. A `Degraded` probe is refused with its reasons; a
/// probe or resolution failure is passed on.
pub fn acquire_write_token(probe: Result<Fidelity, ChiknError>, canonical_root: Result<String, ChiknError>,
    registry: &EpochRegistry) -> (r: Result<WriteToken, ChiknError>)
    ensures
        match probe {
            Err(e) => r == Err::<WriteToken, ChiknError>(e),
            Ok(Fidelity::Degraded { reasons }) => r matches Err(ChiknError::ReadOnly(m))
                && m@ == reasons_text(reason_views(reasons@)),
            Ok(Fidelity::Full) => match canonical_root {
                Err(e) => r == Err::<WriteToken, ChiknError>(e),
                Ok(root) => r matches Ok(t) && t.root_view() == root@ && t.epoch_view() == registry.epoch(root@),
            },
        },
{
    match probe {
        Err(e) => Err(e),
        Ok(Fidelity::Degraded { reasons }) => Err(ChiknError::ReadOnly(describe_reasons(reasons.as_slice()))),
        Ok(Fidelity::Full) => match canonical_root {
            Err(e) => Err(e),
            Ok(root) => {
                let epoch = registry.current(root.as_str());
                Ok(WriteToken { root, epoch })
            },
        },
    }
}

/// Write authority for one operation, opened from a token by
/// `WriteToken::permit`.
pub struct WritePermit<'token> {
    token: &'token WriteToken,
}

impl<'token> WritePermit<'token> {
    /// The token the permit was opened from.
    pub closed spec fn token_view(self) -> WriteToken {
        *self.token
    }

    /// The canonical project root authorized for this operation.
    pub fn root(&self) -> (r: &str)
        ensures
            r@ == self.token_view().root_view(),
    {
        self.token.root()
    }

    /// Refuses unless the operation still targets its root and the token
    /// is fresh.
    pub fn ensure_valid_for(&self, project_path: &str, canonical: &Result<String, String>, registry: &EpochRegistry)
        -> (r: Result<(), ChiknError>)
        ensures
            r is Ok <==> ((canonical matches Ok(c) && c@ == self.token_view().root_view())
                && registry.epoch(self.token_view().root_view()) == self.token_view().epoch_view()),
    {
        match self.token.ensure_valid_root(project_path, canonical) {
            Ok(()) => {},
            Err(e) => {
                return Err(e);
            },
        }
        self.ensure_fresh(registry)
    }

    /// Refuses once the token has gone stale.
    pub fn ensure_fresh(&self, registry: &EpochRegistry) -> (r: Result<(), ChiknError>)
        ensures
            r is Ok <==> registry.epoch(self.token_view().root_view()) == self.token_view().epoch_view(),
    {
        self.token.ensure_epoch_fresh(registry)
    }
}

/// A token issued for a root goes stale when that root's epoch is bumped,
/// and stays fresh when another root's is.
pub proof fn law_bump_makes_tokens_stale(t: WriteToken, before: EpochRegistry, after: EpochRegistry, bumped: Seq<char>)
    requires
        before.epoch(t.root_view()) == t.epoch_view(),
        after.epoch(bumped) == before.epoch(bumped) + 1,
        forall|other: Seq<char>| other != bumped ==> #[trigger] after.epoch(other) == before.epoch(other),
    ensures
        (after.epoch(t.root_view()) != t.epoch_view()) == (t.root_view() == bumped),
{
    if t.root_view() != bumped {
        assert(after.epoch(t.root_view()) == before.epoch(t.root_view()));
    }
}

} // verus!
