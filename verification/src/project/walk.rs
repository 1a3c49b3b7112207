//! The checks made while the content folders of a project are walked on
//! load: a symbolic link is refused, and so are two documents at the same
//! normalized path or with the same id. The folders are walked by the
//! caller, which hands in what it met, in walk order.
use vstd::prelude::*;
use vstd::string::StringExecFns;

use crate::error::ChiknError;
use crate::project::doc_paths::{invalid_path_message, normalized_path, normalized_refusal, normalized_relative_document_path};
use crate::text::{owned, replaced, str_eq};

verus! {

/// What the walk of the content folders met, in walk order.
pub enum WalkEntry {
    /// A symbolic link, as displayed.
    Symlink(String),
    /// A markdown document that was read: its id and its path.
    Document { id: String, path: String },
}

/// A walk entry as plain values.
pub enum WalkItem {
    Symlink(Seq<char>),
    Document(Seq<char>, Seq<char>),
}

impl WalkEntry {
    pub open spec fn item(self) -> WalkItem {
        match self {
            WalkEntry::Symlink(p) => WalkItem::Symlink(p@),
            WalkEntry::Document { id, path } => WalkItem::Document(id@, path@),
        }
    }
}

/// Why a walk is refused, if it is, given the normalized paths and the ids
/// of the documents met before: the first entry that is a symbolic link,
/// whose path is refused, whose normalized path was met before, or whose id
/// was met before.
pub open spec fn walk_failure(es: Seq<WalkItem>, paths: Seq<Seq<char>>, ids: Seq<Seq<char>>) -> Option<Seq<char>>
    decreases es.len(),
{
    if es.len() == 0 {
        None
    } else {
        match es[0] {
            WalkItem::Symlink(p) => Some("Project document path is a symlink: "@ + p),
            WalkItem::Document(id, path) => match normalized_refusal(path) {
                Some(reason) => Some(invalid_path_message(replaced(path, seq!['\\'], seq!['/']), reason)),
                None => if paths.contains(normalized_path(path)) {
                    Some("Duplicate document path: "@ + path)
                } else if ids.contains(id) {
                    Some("Duplicate document id: "@ + id)
                } else {
                    walk_failure(es.drop_first(), paths.push(normalized_path(path)), ids.push(id))
                },
            },
        }
    }
}

/// The ids of the documents met, in walk order.
pub open spec fn walk_ids(es: Seq<WalkItem>) -> Seq<Seq<char>>
    decreases es.len(),
{
    if es.len() == 0 {
        Seq::empty()
    } else {
        match es.last() {
            WalkItem::Document(id, _) => walk_ids(es.drop_last()).push(id),
            WalkItem::Symlink(_) => walk_ids(es.drop_last()),
        }
    }
}

/// No text occurs twice.
pub open spec fn distinct(s: Seq<Seq<char>>) -> bool {
    forall|i: int, j: int| 0 <= i < j < s.len() ==> #[trigger] s[i] != #[trigger] s[j]
}

fn holds(v: &Vec<String>, s: &str) -> (r: bool)
    ensures
        r == v@.map_values(|x: String| x@).contains(s@),
{
    let ghost vs = v@.map_values(|x: String| x@);
    let mut k: usize = 0;
    while k < v.len()
        invariant
            k <= v@.len(),
            vs == v@.map_values(|x: String| x@),
            forall|j: int| 0 <= j < k ==> #[trigger] vs[j] != s@,
        decreases v.len() - k,
    {
        if str_eq(v[k].as_str(), s) {
            assert(vs[k as int] == s@);
            return true;
        }
        k = k + 1;
    }
    false
}

/// Checks what the walk of the content folders met; the error is the first
/// refusal, in walk order.
pub fn check_walk(entries: &[WalkEntry]) -> (r: Result<(), ChiknError>)
    ensures
        match walk_failure(entries@.map_values(|e: WalkEntry| e.item()), Seq::empty(), Seq::empty()) {
            Some(m) => r matches Err(ChiknError::InvalidFormat(e)) && e@ == m,
            None => r is Ok,
        },
        r is Ok ==> distinct(walk_ids(entries@.map_values(|e: WalkEntry| e.item()))),
{
    let ghost es = entries@.map_values(|e: WalkEntry| e.item());
    let mut paths: Vec<String> = Vec::new();
    let mut ids: Vec<String> = Vec::new();
    let mut i: usize = 0;
    proof {
        assert(es.take(0) =~= Seq::<WalkItem>::empty());
        assert(es.skip(0) =~= es);
        assert(paths@.map_values(|x: String| x@) =~= Seq::<Seq<char>>::empty());
        assert(ids@.map_values(|x: String| x@) =~= Seq::<Seq<char>>::empty());
    }
    while i < entries.len()
        invariant
            i <= entries@.len(),
            es == entries@.map_values(|e: WalkEntry| e.item()),
            walk_failure(es, Seq::empty(), Seq::empty()) == walk_failure(
                es.skip(i as int),
                paths@.map_values(|x: String| x@),
                ids@.map_values(|x: String| x@),
            ),
            ids@.map_values(|x: String| x@) == walk_ids(es.take(i as int)),
            distinct(ids@.map_values(|x: String| x@)),
        decreases entries.len() - i,
    {
        let ghost pv = paths@.map_values(|x: String| x@);
        let ghost iv = ids@.map_values(|x: String| x@);
        proof {
            assert(es.skip(i as int)[0] == entries@[i as int].item());
            assert(es.skip(i as int).drop_first() =~= es.skip(i + 1));
        }
        match &entries[i] {
            WalkEntry::Symlink(p) => {
                let mut m = owned("Project document path is a symlink: ");
                m.append(p.as_str());
                return Err(ChiknError::InvalidFormat(m));
            },
            WalkEntry::Document { id, path } => {
                let norm = match normalized_relative_document_path(path.as_str()) {
                    Ok(n) => n,
                    Err(e) => {
                        return Err(e);
                    },
                };
                if holds(&paths, norm.as_str()) {
                    let mut m = owned("Duplicate document path: ");
                    m.append(path.as_str());
                    return Err(ChiknError::InvalidFormat(m));
                }
                if holds(&ids, id.as_str()) {
                    let mut m = owned("Duplicate document id: ");
                    m.append(id.as_str());
                    return Err(ChiknError::InvalidFormat(m));
                }
                paths.push(norm);
                ids.push(id.clone());
                proof {
                    assert(paths@.map_values(|x: String| x@) =~= pv.push(normalized_path(path@)));
                    assert(ids@.map_values(|x: String| x@) =~= iv.push(id@));
                    assert(es.take(i + 1).drop_last() =~= es.take(i as int));
                    assert(es.take(i + 1).last() == es[i as int]);
                    let nv = iv.push(id@);
                    assert forall|x: int, y: int| 0 <= x < y < nv.len() implies #[trigger] nv[x] != #[trigger] nv[y] by {
                        if y == iv.len() {
                            assert(nv[x] == iv[x]);
                            assert(iv.contains(iv[x]));
                        } else {
                            assert(nv[x] == iv[x] && nv[y] == iv[y]);
                        }
                    }
                }
            },
        }
        i = i + 1;
    }
    proof {
        assert(es.skip(i as int).len() == 0);
        assert(es.take(i as int) =~= es);
    }
    Ok(())
}

} // verus!
