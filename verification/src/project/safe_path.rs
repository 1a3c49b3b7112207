//! Making a subdirectory inside a project safely: only plain relative
//! components, and every directory on the way a real directory inside the
//! project root. Paths are split by `std::path` (see `doc_paths`).
use vstd::prelude::*;
use vstd::string::StringExecFns;

use crate::error::ChiknError;
use crate::project::doc_paths::{Comp, PathPart, components, path_components};
use crate::text::owned;

verus! {

/// The message of a refused subdirectory path.
pub open spec fn invalid_subdir_message(path: Seq<char>, reason: Seq<char>) -> Seq<char> {
    "Project subdirectory path must be relative and within project ("@ + reason + "): "@ + path
}

/// How many leading components are plain names.
pub open spec fn normal_run(cs: Seq<Comp>) -> nat
    decreases cs.len(),
{
    if cs.len() == 0 {
        0
    } else if cs[0] is Normal {
        1 + normal_run(cs.drop_first())
    } else {
        0
    }
}

/// The names of a run of plain components.
pub open spec fn names_of(cs: Seq<Comp>) -> Seq<Seq<char>> {
    cs.map_values(|c: Comp| match c {
        Comp::Normal(n) => n,
        _ => Seq::empty(),
    })
}

proof fn lemma_normal_run(cs: Seq<Comp>, k: int)
    requires
        0 <= k <= cs.len(),
        forall|j: int| 0 <= j < k ==> #[trigger] cs[j] is Normal,
    ensures
        k < cs.len() && !(cs[k] is Normal) ==> normal_run(cs) == k,
        k == cs.len() ==> normal_run(cs) == k,
    decreases k,
{
    if k > 0 {
        lemma_normal_run(cs.drop_first(), k - 1);
    }
}

/// The directories a subdirectory path names, in order, up to its first
/// component that is not a plain name, and the error the walk ends with:
/// at such a component, or for a path with no component at all.
pub fn subdir_parts(relative_path: &str) -> (r: (Vec<String>, Option<ChiknError>))
    ensures
        r.0@.map_values(|s: String| s@) == names_of(
            components(relative_path@).take(normal_run(components(relative_path@)) as int),
        ),
        normal_run(components(relative_path@)) < components(relative_path@).len() ==> (r.1 matches Some(
            ChiknError::InvalidFormat(m),
        ) && m@ == invalid_subdir_message(relative_path@, "only normal relative path components are allowed"@)),
        components(relative_path@).len() == 0 ==> (r.1 matches Some(ChiknError::InvalidFormat(m)) && m@
            == invalid_subdir_message(relative_path@, "path must contain at least one component"@)),
        normal_run(components(relative_path@)) == components(relative_path@).len() && components(
            relative_path@,
        ).len() > 0 ==> r.1 is None,
{
    let parts = path_components(relative_path);
    let ghost cs = components(relative_path@);
    let mut names: Vec<String> = Vec::new();
    let mut i: usize = 0;
    proof {
        assert(parts@.map_values(|x: PathPart| x.comp()) == cs);
        assert(parts@.len() == cs.len());
    }
    while i < parts.len()
        invariant
            i <= parts@.len(),
            cs == components(relative_path@),
            parts@.map_values(|x: PathPart| x.comp()) == cs,
            parts@.len() == cs.len(),
            forall|j: int| 0 <= j < i ==> #[trigger] cs[j] is Normal,
            names@.map_values(|s: String| s@) == names_of(cs.take(i as int)),
        decreases parts.len() - i,
    {
        proof {
            assert(cs[i as int] == parts@[i as int].comp());
        }
        match &parts[i] {
            PathPart::Normal(n) => {
                let ghost before = names@.map_values(|s: String| s@);
                names.push(n.clone());
                proof {
                    assert(cs[i as int] == Comp::Normal(n@));
                    assert(cs.take(i + 1) =~= cs.take(i as int).push(cs[i as int]));
                    assert(names@.map_values(|s: String| s@) =~= before.push(n@));
                    assert(names@.map_values(|s: String| s@) =~= names_of(cs.take(i + 1)));
                }
            },
            _ => {
                proof {
                    lemma_normal_run(cs, i as int);
                }
                let mut m = owned("Project subdirectory path must be relative and within project (");
                m.append("only normal relative path components are allowed");
                m.append("): ");
                m.append(relative_path);
                assert(m@ == invalid_subdir_message(relative_path@, "only normal relative path components are allowed"@));
                assert(normal_run(cs) == i);
                assert(names@.map_values(|s: String| s@) == names_of(cs.take(i as int)));
                assert(i < cs.len());
                return (names, Some(ChiknError::InvalidFormat(m)));
            },
        }
        i = i + 1;
    }
    proof {
        lemma_normal_run(cs, i as int);
    }
    if parts.len() == 0 {
        let mut m = owned("Project subdirectory path must be relative and within project (");
        m.append("path must contain at least one component");
        m.append("): ");
        m.append(relative_path);
        return (names, Some(ChiknError::InvalidFormat(m)));
    }
    (names, None)
}

/// The message of a subdirectory that is a link.
pub open spec fn symlink_message(rel: Seq<char>, path: Seq<char>) -> Seq<char> {
    "Project subdirectory is a symlink: "@ + rel + " ("@ + path + ")"@
}

/// The message of a subdirectory path that is not a directory.
pub open spec fn not_dir_message(rel: Seq<char>, path: Seq<char>) -> Seq<char> {
    "Project subdirectory path is not a directory: "@ + rel + " ("@ + path + ")"@
}

/// The message of a subdirectory that leads out of the project.
pub open spec fn escape_message(rel: Seq<char>, path: Seq<char>) -> Seq<char> {
    "Project subdirectory escapes project root: "@ + rel + " ("@ + path + ")"@
}

fn describe(head: &str, rel: &str, path: &str) -> (m: String)
    ensures
        m@ == head@ + rel@ + " ("@ + path@ + ")"@,
{
    let mut m = owned(head);
    m.append(rel);
    m.append(" (");
    m.append(path);
    m.append(")");
    m
}

/// Checks what the file system reports of one directory on the way: it
/// must not be a link, and must be a directory.
pub fn check_subdir_kind(relative_path: &str, path: &str, is_symlink: bool, is_dir: bool) -> (r: Result<(), ChiknError>)
    ensures
        is_symlink ==> (r matches Err(ChiknError::InvalidFormat(m)) && m@ == symlink_message(relative_path@, path@)),
        !is_symlink && !is_dir ==> (r matches Err(ChiknError::InvalidFormat(m)) && m@ == not_dir_message(
            relative_path@,
            path@,
        )),
        !is_symlink && is_dir ==> r is Ok,
{
    if is_symlink {
        return Err(ChiknError::InvalidFormat(describe("Project subdirectory is a symlink: ", relative_path, path)));
    }
    if !is_dir {
        return Err(ChiknError::InvalidFormat(describe("Project subdirectory path is not a directory: ", relative_path, path)));
    }
    Ok(())
}

/// Whether a path lies under a root, component by component.
pub open spec fn under_root(path: Seq<char>, root: Seq<char>) -> bool {
    let p = components(path);
    let q = components(root);
    p.len() >= q.len() && p.take(q.len() as int) == q
}

fn same_comp(a: &PathPart, b: &PathPart) -> (r: bool)
    ensures
        r == (a.comp() == b.comp()),
{
    match (a, b) {
        (PathPart::Prefix(x), PathPart::Prefix(y)) => crate::text::str_eq(x.as_str(), y.as_str()),
        (PathPart::Root, PathPart::Root) => true,
        (PathPart::Cur, PathPart::Cur) => true,
        (PathPart::Parent, PathPart::Parent) => true,
        (PathPart::Normal(x), PathPart::Normal(y)) => crate::text::str_eq(x.as_str(), y.as_str()),
        _ => false,
    }
}

/// Checks that a directory on the way, once resolved, lies under the
/// resolved project root.
pub fn check_subdir_within_root(relative_path: &str, path: &str, canonical_path: &str, project_root: &str)
    -> (r: Result<(), ChiknError>)
    ensures
        under_root(canonical_path@, project_root@) ==> r is Ok,
        !under_root(canonical_path@, project_root@) ==> (r matches Err(ChiknError::InvalidFormat(m)) && m@
            == escape_message(relative_path@, path@)),
{
    let p = path_components(canonical_path);
    let q = path_components(project_root);
    let ghost pv = components(canonical_path@);
    let ghost qv = components(project_root@);
    proof {
        assert(p@.map_values(|x: PathPart| x.comp()) == pv);
        assert(q@.map_values(|x: PathPart| x.comp()) == qv);
    }
    let mut inside = q.len() <= p.len();
    if inside {
        let mut k: usize = 0;
        while k < q.len() && inside
            invariant
                k <= q@.len(),
                inside ==> forall|j: int| 0 <= j < k ==> #[trigger] pv[j] == qv[j],
                !inside ==> pv.take(qv.len() as int) != qv,
                q@.len() <= p@.len(),
                p@.map_values(|x: PathPart| x.comp()) == pv,
                q@.map_values(|x: PathPart| x.comp()) == qv,
            decreases q.len() - k + (if inside { 1int } else { 0int }),
        {
            proof {
                assert(pv[k as int] == p@[k as int].comp());
                assert(qv[k as int] == q@[k as int].comp());
            }
            if !same_comp(&p[k], &q[k]) {
                proof {
                    assert(pv.take(qv.len() as int)[k as int] != qv[k as int]);
                }
                inside = false;
            } else {
                k = k + 1;
            }
        }
        proof {
            if inside {
                assert(pv.take(qv.len() as int) =~= qv);
            }
        }
    }
    if !inside {
        return Err(ChiknError::InvalidFormat(describe("Project subdirectory escapes project root: ", relative_path, path)));
    }
    Ok(())
}

} // verus!
