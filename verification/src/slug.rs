//! Slugs: file-name-safe forms of display names, and slugs made unique
//! against the paths of existing documents.
use vstd::prelude::*;
use vstd::string::StringExecFns;
use vstd::set_lib::{set_int_range, lemma_int_range, lemma_len_subset};

use crate::models::Document;
use crate::text::{digit_char, alphanumeric, lowercase, to_lowercase, is_alphanumeric, chars_of, push_char, push_decimal, decimal, str_eq,
    ascii_alnum, ascii_lower, ascii_text};

verus! {

/// A character kept in a slug, or `'-'` in its place.
pub open spec fn slug_char(c: char) -> char {
    if alphanumeric(c) { c } else { '-' }
}

/// The pieces of a text between its `'-'` characters, empty pieces
/// included (so there is always at least one piece).
pub open spec fn split_dash(cs: Seq<char>) -> Seq<Seq<char>>
    decreases cs.len(),
{
    if cs.len() == 0 {
        seq![Seq::empty()]
    } else {
        let p = split_dash(cs.drop_last());
        if cs.last() == '-' {
            p.push(Seq::empty())
        } else {
            p.update(p.len() - 1, p.last().push(cs.last()))
        }
    }
}

/// The non-empty pieces, in order.
pub open spec fn nonempty_parts(ps: Seq<Seq<char>>) -> Seq<Seq<char>>
    decreases ps.len(),
{
    if ps.len() == 0 {
        Seq::empty()
    } else if ps.last().len() > 0 {
        nonempty_parts(ps.drop_last()).push(ps.last())
    } else {
        nonempty_parts(ps.drop_last())
    }
}

/// The pieces joined with `'-'` between them.
pub open spec fn join_dash(ps: Seq<Seq<char>>) -> Seq<char>
    decreases ps.len(),
{
    if ps.len() == 0 {
        Seq::empty()
    } else if ps.len() == 1 {
        ps[0]
    } else {
        join_dash(ps.drop_last()) + seq!['-'] + ps.last()
    }
}

/// The slug of a name: lowercased, every character that is not alphanumeric
/// turned into `'-'`, then split at `'-'`, empty pieces dropped and the rest
/// joined with `'-'`.
pub open spec fn slug_of(name: Seq<char>) -> Seq<char> {
    join_dash(nonempty_parts(split_dash(lowercase(name).map_values(|c: char| slug_char(c)))))
}

proof fn lemma_split_nonempty(cs: Seq<char>)
    ensures
        split_dash(cs).len() >= 1,
    decreases cs.len(),
{
    if cs.len() > 0 {
        lemma_split_nonempty(cs.drop_last());
    }
}

proof fn lemma_join_push(ps: Seq<Seq<char>>, x: Seq<char>)
    ensures
        join_dash(ps.push(x)) == if ps.len() == 0 { x } else { join_dash(ps) + seq!['-'] + x },
{
    assert(ps.push(x).drop_last() =~= ps);
}

/// A character of ASCII text kept in a slug, or `'-'` in its place.
pub open spec fn ascii_slug_char(c: char) -> char {
    if ascii_alnum(c) { c } else { '-' }
}

/// The slug of an ASCII name, as `slug_of` works out on ASCII text:
/// lowercased, every character that is not an ASCII letter or digit turned
/// into `'-'`, then the non-empty pieces between dashes joined with `'-'`.
pub open spec fn ascii_slug_of(name: Seq<char>) -> Seq<char> {
    join_dash(nonempty_parts(split_dash(name.map_values(|c: char| ascii_slug_char(ascii_lower(c))))))
}

/// No `'-'` at either end, and never two in a row.
pub open spec fn slug_shaped(t: Seq<char>) -> bool {
    &&& t.len() > 0 ==> t[0] != '-' && t[t.len() - 1] != '-'
    &&& forall|k: int| 0 <= k < t.len() - 1 ==> !(#[trigger] t[k] == '-' && t[k + 1] == '-')
}

/// Only lowercase ASCII letters, digits and `'-'`.
pub open spec fn slug_chars(t: Seq<char>) -> bool {
    forall|k: int| 0 <= k < t.len() ==> #[trigger] t[k] == '-' || ('a' <= t[k] && t[k] <= 'z') || ('0' <= t[k] && t[k] <= '9')
}

/// Joining the pieces between dashes gives the text back.
proof fn lemma_join_split(t: Seq<char>)
    ensures
        join_dash(split_dash(t)) == t,
    decreases t.len(),
{
    if t.len() > 0 {
        let t0 = t.drop_last();
        lemma_join_split(t0);
        lemma_split_nonempty(t0);
        let p = split_dash(t0);
        if t.last() == '-' {
            lemma_join_push(p, Seq::empty());
            assert(join_dash(p) + seq!['-'] + Seq::<char>::empty() =~= t);
        } else {
            let q = p.update(p.len() - 1, p.last().push(t.last()));
            assert(q.drop_last() =~= p.drop_last());
            assert(p.drop_last().push(p.last()) =~= p);
            lemma_join_push(p.drop_last(), p.last());
            assert(q =~= p.drop_last().push(p.last().push(t.last())));
            lemma_join_push(p.drop_last(), p.last().push(t.last()));
            if p.len() == 1 {
                assert(p.last().push(t.last()) =~= t);
            } else {
                assert(join_dash(p.drop_last()) + seq!['-'] + p.last() == t0);
                assert(t0.push(t.last()) =~= t);
                assert(join_dash(p.drop_last()) + seq!['-'] + p.last().push(t.last())
                    =~= (join_dash(p.drop_last()) + seq!['-'] + p.last()).push(t.last()));
            }
        }
    }
}

/// In a text that does not start with `'-'` and has no two in a row, every
/// piece but the last is non-empty, and the last one is too unless the text
/// ends with `'-'` or is empty.
proof fn lemma_split_pieces(t: Seq<char>)
    requires
        t.len() > 0 ==> t[0] != '-',
        forall|k: int| 0 <= k < t.len() - 1 ==> !(#[trigger] t[k] == '-' && t[k + 1] == '-'),
    ensures
        forall|i: int| 0 <= i < split_dash(t).len() - 1 ==> #[trigger] split_dash(t)[i].len() > 0,
        t.len() > 0 && t[t.len() - 1] != '-' ==> split_dash(t).last().len() > 0,
    decreases t.len(),
{
    lemma_split_nonempty(t);
    if t.len() > 0 {
        let t0 = t.drop_last();
        assert forall|k: int| 0 <= k < t0.len() - 1 implies !(#[trigger] t0[k] == '-' && t0[k + 1] == '-') by {
            assert(t0[k] == t[k] && t0[k + 1] == t[k + 1]);
        }
        lemma_split_pieces(t0);
        lemma_split_nonempty(t0);
        let p = split_dash(t0);
        if t.last() == '-' {
            assert(t0.len() > 0);
            assert(t0[t0.len() - 1] != '-') by {
                assert(!(t[t.len() - 2] == '-' && t[t.len() - 1] == '-'));
            }
            assert(split_dash(t) == p.push(Seq::<char>::empty()));
        } else {
            let q = p.update(p.len() - 1, p.last().push(t.last()));
            assert(split_dash(t) == q);
            assert forall|i: int| 0 <= i < q.len() - 1 implies #[trigger] q[i].len() > 0 by {
                assert(q[i] == p[i]);
            }
        }
    }
}

/// Dropping empty pieces changes nothing when there are none.
proof fn lemma_nonempty_all(ps: Seq<Seq<char>>)
    requires
        forall|i: int| 0 <= i < ps.len() ==> #[trigger] ps[i].len() > 0,
    ensures
        nonempty_parts(ps) == ps,
    decreases ps.len(),
{
    if ps.len() > 0 {
        let p0 = ps.drop_last();
        assert forall|i: int| 0 <= i < p0.len() implies #[trigger] p0[i].len() > 0 by {
            assert(p0[i] == ps[i]);
        }
        lemma_nonempty_all(p0);
        assert(ps[ps.len() - 1].len() > 0);
        assert(p0.push(ps.last()) =~= ps);
    }
}

/// What joining the non-empty pieces of a text gives has the shape of a
/// slug, and holds no other characters than the text's and `'-'`.
proof fn lemma_join_shape(m: Seq<char>)
    ensures
        slug_shaped(join_dash(nonempty_parts(split_dash(m)))),
        forall|k: int| 0 <= k < join_dash(nonempty_parts(split_dash(m))).len() ==> (#[trigger] join_dash(
            nonempty_parts(split_dash(m)),
        )[k] == '-' || m.contains(join_dash(nonempty_parts(split_dash(m)))[k])),
        (join_dash(nonempty_parts(split_dash(m))).len() > 0) == (nonempty_parts(split_dash(m)).len() > 0),
    decreases m.len(),
{
    lemma_split_nonempty(m);
    if m.len() == 0 {
        assert(split_dash(m) == seq![Seq::<char>::empty()]);
        assert(seq![Seq::<char>::empty()].drop_last() =~= Seq::<Seq<char>>::empty());
        assert(nonempty_parts(Seq::<Seq<char>>::empty()) == Seq::<Seq<char>>::empty());
        assert(seq![Seq::<char>::empty()].last().len() == 0);
        assert(nonempty_parts(seq![Seq::<char>::empty()]) == Seq::<Seq<char>>::empty());
    } else {
        let m0 = m.drop_last();
        let c = m.last();
        lemma_join_shape(m0);
        lemma_split_nonempty(m0);
        let p = split_dash(m0);
        let o = join_dash(nonempty_parts(p));
        assert forall|k: int| 0 <= k < o.len() implies (#[trigger] o[k] == '-' || m.contains(o[k])) by {
            if o[k] != '-' {
                let j = choose|j: int| 0 <= j < m0.len() && m0[j] == o[k];
                assert(m[j] == m0[j]);
            }
        }
        assert(m[m.len() - 1] == c);
        if c == '-' {
            let p2 = p.push(Seq::<char>::empty());
            assert(split_dash(m) == p2);
            assert(p2.drop_last() =~= p);
            assert(nonempty_parts(p2) == nonempty_parts(p));
        } else {
            let last = p.last();
            let p2 = p.update(p.len() - 1, last.push(c));
            assert(split_dash(m) == p2);
            assert(p2.drop_last() =~= p.drop_last());
            assert(p2.last() == last.push(c));
            let n0 = nonempty_parts(p.drop_last());
            assert(nonempty_parts(p2) == n0.push(last.push(c)));
            lemma_join_push(n0, last.push(c));
            let r = join_dash(nonempty_parts(p2));
            if last.len() == 0 {
                assert(nonempty_parts(p) == n0);
                assert(last.push(c) =~= seq![c]);
                if n0.len() == 0 {
                    assert(r =~= seq![c]);
                } else {
                    assert(r =~= o + seq!['-'] + seq![c]);
                }
            } else {
                assert(nonempty_parts(p) == n0.push(last));
                lemma_join_push(n0, last);
                if n0.len() == 0 {
                    assert(r =~= o.push(c));
                } else {
                    assert(join_dash(n0) + seq!['-'] + last.push(c) =~= (join_dash(n0) + seq!['-'] + last).push(c));
                    assert(r =~= o.push(c));
                }
            }
            assert forall|k: int| 0 <= k < r.len() implies (#[trigger] r[k] == '-' || m.contains(r[k])) by {
                if k < o.len() {
                    assert(r[k] == o[k]);
                } else if r[k] != '-' {
                    assert(r[k] == c);
                }
            }
        }
    }
}

/// Slugifying an ASCII slug changes nothing: the slug of any name holds
/// only lowercase ASCII letters, digits and single inner dashes, and such a
/// text is its own slug.
pub proof fn law_ascii_slug_is_fixed(name: Seq<char>)
    ensures
        slug_shaped(ascii_slug_of(name)),
        slug_chars(ascii_slug_of(name)),
        ascii_slug_of(ascii_slug_of(name)) == ascii_slug_of(name),
{
    let m = name.map_values(|c: char| ascii_slug_char(ascii_lower(c)));
    let t = ascii_slug_of(name);
    lemma_join_shape(m);
    assert forall|k: int| 0 <= k < t.len() implies #[trigger] t[k] == '-' || ('a' <= t[k] && t[k] <= 'z') || ('0' <= t[k] && t[k] <= '9') by {
        if t[k] != '-' {
            let j = choose|j: int| 0 <= j < m.len() && m[j] == t[k];
            let c = name[j];
            assert(m[j] == ascii_slug_char(ascii_lower(c)));
            if 'A' <= c && c <= 'Z' {
                assert('a' <= ascii_lower(c) && ascii_lower(c) <= 'z');
            }
        }
    }
    let m2 = t.map_values(|c: char| ascii_slug_char(ascii_lower(c)));
    assert(m2 =~= t);
    lemma_split_pieces(t);
    lemma_split_nonempty(t);
    if t.len() > 0 {
        lemma_nonempty_all(split_dash(t));
    } else {
        assert(split_dash(t) == seq![Seq::<char>::empty()]);
        assert(seq![Seq::<char>::empty()].drop_last() =~= Seq::<Seq<char>>::empty());
        assert(nonempty_parts(Seq::<Seq<char>>::empty()) == Seq::<Seq<char>>::empty());
        assert(seq![Seq::<char>::empty()].last().len() == 0);
        assert(nonempty_parts(seq![Seq::<char>::empty()]) == Seq::<Seq<char>>::empty());
    }
    lemma_join_split(t);
}

/// Slugifies a display name for use as a file name: "My Chapter Name"
/// becomes "my-chapter-name". The slug has no `'-'` at either end and never
/// two in a row; every other character of it is alphanumeric.
pub fn slugify(s: &str) -> (r: String)
    ensures
        r@ == slug_of(s@),
        r@.len() > 0 ==> r@[0] != '-' && r@.last() != '-',
        forall|k: int| 0 <= k < r@.len() - 1 ==> !(#[trigger] r@[k] == '-' && r@[k + 1] == '-'),
        forall|k: int| 0 <= k < r@.len() ==> #[trigger] r@[k] == '-' || alphanumeric(r@[k]),
        ascii_text(s@) ==> r@ == ascii_slug_of(s@),
{
    let lower = to_lowercase(s);
    let cs = chars_of(lower.as_str());
    let ghost m = cs@.map_values(|c: char| slug_char(c));
    let ghost m2 = s@.map_values(|c: char| ascii_slug_char(ascii_lower(c)));
    let mut out = String::new();
    let mut last_empty = true;
    let mut any = false;
    let mut i: usize = 0;
    proof {
        let e = m.take(0);
        assert(e =~= Seq::<char>::empty());
        assert(split_dash(e) == seq![Seq::<char>::empty()]);
        assert(seq![Seq::<char>::empty()].drop_last() =~= Seq::<Seq<char>>::empty());
        assert(nonempty_parts(Seq::<Seq<char>>::empty()) == Seq::<Seq<char>>::empty());
        assert(seq![Seq::<char>::empty()].last().len() == 0);
        assert(nonempty_parts(seq![Seq::<char>::empty()]) == Seq::<Seq<char>>::empty());
    }
    while i < cs.len()
        invariant
            i <= cs.len(),
            cs@ == lowercase(s@),
            m == cs@.map_values(|c: char| slug_char(c)),
            m2 == s@.map_values(|c: char| ascii_slug_char(ascii_lower(c))),
            ascii_text(s@) ==> cs@ == s@.map_values(|c: char| ascii_lower(c)),
            ascii_text(s@) ==> forall|k: int| 0 <= k < i ==> #[trigger] m[k] == m2[k],
            split_dash(m.take(i as int)).len() >= 1,
            out@ == join_dash(nonempty_parts(split_dash(m.take(i as int)))),
            last_empty == (split_dash(m.take(i as int)).last().len() == 0),
            any == (nonempty_parts(split_dash(m.take(i as int))).len() > 0),
            any == (out@.len() > 0),
            out@.len() > 0 ==> out@[0] != '-' && out@.last() != '-',
            forall|k: int| 0 <= k < out@.len() - 1 ==> !(#[trigger] out@[k] == '-' && out@[k + 1] == '-'),
            forall|k: int| 0 <= k < out@.len() ==> #[trigger] out@[k] == '-' || alphanumeric(out@[k]),
        decreases cs.len() - i,
    {
        let c1 = cs[i];
        proof {
            if ascii_text(s@) {
                let c = s@[i as int];
                assert((c as u32) < 128);
                assert(c1 == ascii_lower(c));
                if 'A' <= c && c <= 'Z' {
                    assert('a' <= ascii_lower(c) && ascii_lower(c) <= 'z');
                }
                assert((c1 as u32) < 128);
            }
        }
        let c0 = if is_alphanumeric(c1) { c1 } else { '-' };
        proof {
            if ascii_text(s@) {
                assert(m[i as int] == m2[i as int]);
            }
        }
        let ghost pre = m.take(i as int);
        let ghost p = split_dash(pre);
        let ghost o = out@;
        proof {
            assert(m.take(i + 1) =~= pre.push(m[i as int]));
            assert(m.take(i + 1).drop_last() =~= pre);
            assert(m[i as int] == c0);
        }
        if c0 == '-' {
            last_empty = true;
            proof {
                let p2 = split_dash(m.take(i + 1));
                assert(p2 == p.push(Seq::<char>::empty()));
                assert(p2.drop_last() =~= p);
            }
        } else {
            if last_empty && any {
                push_char(&mut out, '-');
            }
            push_char(&mut out, c0);
            proof {
                let p2 = split_dash(m.take(i + 1));
                let last = p.last();
                assert(p2 == p.update(p.len() - 1, last.push(c0)));
                assert(p2.drop_last() =~= p.drop_last());
                assert(p2.last() == last.push(c0));
                let n0 = nonempty_parts(p.drop_last());
                assert(nonempty_parts(p2) == n0.push(last.push(c0)));
                lemma_join_push(n0, last.push(c0));
                if last.len() == 0 {
                    assert(nonempty_parts(p) == n0);
                    assert(last.push(c0) =~= seq![c0]);
                    if any {
                        assert(out@ =~= o + seq!['-'] + seq![c0]);
                    } else {
                        assert(out@ =~= seq![c0]);
                    }
                } else {
                    assert(nonempty_parts(p) == n0.push(last));
                    lemma_join_push(n0, last);
                    assert(out@ =~= o.push(c0));
                    if n0.len() == 0 {
                        assert(join_dash(n0.push(last.push(c0))) =~= o.push(c0));
                    } else {
                        assert(join_dash(n0) + seq!['-'] + last.push(c0) =~= (join_dash(n0) + seq!['-'] + last).push(c0));
                    }
                }
            }
            last_empty = false;
            any = true;
        }
        i = i + 1;
    }
    proof {
        assert(m.take(cs@.len() as int) =~= m);
        if ascii_text(s@) {
            assert(m =~= m2);
        }
    }
    out
}

/// The `k`-th candidate for a slug: the slug itself, then the slug followed
/// by `-1`, `-2`, and so on.
pub open spec fn slug_candidate(slug: Seq<char>, k: nat) -> Seq<char> {
    if k == 0 {
        slug
    } else {
        slug + seq!['-'] + decimal(k)
    }
}

/// The document path a slug stands for under `base`.
pub open spec fn slug_path(base: Seq<char>, slug: Seq<char>) -> Seq<char> {
    base + slug + ".html"@
}

/// Whether some document has exactly this path.
pub open spec fn path_taken(docs: Seq<Document>, path: Seq<char>) -> bool {
    exists|i: int| 0 <= i < docs.len() && #[trigger] docs[i].path@ == path
}

proof fn lemma_decimal_len(n: nat)
    ensures
        decimal(n).len() >= 1,
        n >= 10 ==> decimal(n).len() >= 2,
        n < 10 ==> decimal(n).len() == 1,
    decreases n,
{
    if n >= 10 {
        lemma_decimal_len(n / 10);
    }
}

proof fn lemma_decimal_injective(a: nat, b: nat)
    requires
        decimal(a) == decimal(b),
    ensures
        a == b,
    decreases a,
{
    lemma_decimal_len(a);
    lemma_decimal_len(b);
    if a < 10 && b < 10 {
        assert(decimal(a) == seq![digit_char(a)]);
        assert(decimal(b) == seq![digit_char(b)]);
        assert(seq![digit_char(a)][0] == digit_char(a));
        assert(seq![digit_char(b)][0] == digit_char(b));
        assert(digit_char(a) == digit_char(b));
    } else if a >= 10 && b >= 10 {
        let da = decimal(a);
        let db = decimal(b);
        assert(da.last() == db.last());
        assert(a % 10 == b % 10);
        assert(da.drop_last() =~= decimal(a / 10));
        assert(db.drop_last() =~= decimal(b / 10));
        lemma_decimal_injective(a / 10, b / 10);
    } else {
        assert(decimal(a).len() == decimal(b).len());
    }
}

proof fn lemma_candidate_injective(slug: Seq<char>, j: nat, k: nat, base: Seq<char>)
    requires
        slug_path(base, slug_candidate(slug, j)) == slug_path(base, slug_candidate(slug, k)),
    ensures
        j == k,
{
    let cj = slug_candidate(slug, j);
    let ck = slug_candidate(slug, k);
    let pj = slug_path(base, cj);
    let pk = slug_path(base, ck);
    assert(pj.len() == base.len() + cj.len() + ".html"@.len());
    assert(pk.len() == base.len() + ck.len() + ".html"@.len());
    assert(cj.len() == ck.len());
    assert(cj =~= pj.subrange(base.len() as int, (base.len() + cj.len()) as int));
    assert(ck =~= pj.subrange(base.len() as int, (base.len() + ck.len()) as int));
    if j > 0 && k > 0 {
        lemma_decimal_len(j);
        lemma_decimal_len(k);
        assert(decimal(j) =~= cj.subrange((slug.len() + 1) as int, cj.len() as int));
        assert(decimal(k) =~= ck.subrange((slug.len() + 1) as int, ck.len() as int));
        lemma_decimal_injective(j, k);
    } else if j > 0 || k > 0 {
        lemma_decimal_len(j);
        lemma_decimal_len(k);
    }
}

/// Index of the first document whose path is `path`.
fn find_path(docs: &[Document], path: &str) -> (r: Option<usize>)
    ensures
        match r {
            Some(i) => i < docs@.len() && docs@[i as int].path@ == path@,
            None => !path_taken(docs@, path@),
        },
{
    let mut i: usize = 0;
    while i < docs.len()
        invariant
            i <= docs@.len(),
            forall|j: int| 0 <= j < i ==> #[trigger] docs@[j].path@ != path@,
        decreases docs.len() - i,
    {
        if str_eq(docs[i].path.as_str(), path) {
            return Some(i);
        }
        i = i + 1;
    }
    None
}

fn candidate_path(base: &str, slug: &str) -> (p: String)
    ensures
        p@ == slug_path(base@, slug@),
{
    let mut p = crate::text::owned(base);
    p.append(slug);
    p.append(".html");
    p
}

/// Whether the `k`-th candidate is the first one whose path is free.
pub open spec fn first_free(slug: Seq<char>, base: Seq<char>, docs: Seq<Document>, k: nat) -> bool {
    &&& !path_taken(docs, slug_path(base, slug_candidate(slug, k)))
    &&& forall|j: nat| j < k ==> path_taken(docs, #[trigger] slug_path(base, slug_candidate(slug, j)))
}

/// The unique slug of `name` under `base` against `docs`: the first free
/// candidate.
pub open spec fn unique_slug_text(name: Seq<char>, base: Seq<char>, docs: Seq<Document>) -> Seq<char> {
    let slug = slug_of(name);
    slug_candidate(slug, choose|k: nat| first_free(slug, base, docs, k))
}

/// Makes the slug of `name` unique against the paths of `documents` under
/// `base_path`: the first of `slug`, `slug-1`, `slug-2`, ... whose path
/// `base_path + candidate + ".html"` no document has.
pub fn unique_slug(name: &str, base_path: &str, documents: &[Document]) -> (r: String)
    ensures
        r@ == unique_slug_text(name@, base_path@, documents@),
        exists|k: nat| {
            &&& r@ == #[trigger] slug_candidate(slug_of(name@), k)
            &&& !path_taken(documents@, slug_path(base_path@, r@))
            &&& forall|j: nat| j < k ==> path_taken(documents@, #[trigger] slug_path(base_path@, slug_candidate(slug_of(name@), j)))
        },
{
    let original = slugify(name);
    let ghost orig = original@;
    let dl = documents.len();
    let ghost n = documents@.len();
    let mut slug = original.clone();
    let mut counter: usize = 0;
    let ghost mut seen: Set<int> = Set::empty();
    proof {
        lemma_int_range(0, n as int);
    }
    loop
        invariant
            orig == slug_of(name@),
            original@ == orig,
            n == documents@.len(),
            n == dl,
            slug@ == slug_candidate(orig, counter as nat),
            seen.subset_of(set_int_range(0, n as int)),
            set_int_range(0, n as int).finite(),
            set_int_range(0, n as int).len() == n,
            seen.finite(),
            seen.len() == counter,
            counter <= n,
            forall|i: int| #[trigger] seen.contains(i) ==> exists|j: nat| j < counter
                && documents@[i].path@ == #[trigger] slug_path(base_path@, slug_candidate(orig, j)),
            forall|j: nat| j < counter ==> path_taken(documents@, #[trigger] slug_path(base_path@, slug_candidate(orig, j))),
        decreases n - counter,
    {
        let path = candidate_path(base_path, slug.as_str());
        match find_path(documents, path.as_str()) {
            None => {
                proof {
                    let k = counter as nat;
                    assert(first_free(orig, base_path@, documents@, k));
                    let k2 = choose|k2: nat| first_free(orig, base_path@, documents@, k2);
                    assert(first_free(orig, base_path@, documents@, k2));
                    if k2 < k {
                        assert(path_taken(documents@, slug_path(base_path@, slug_candidate(orig, k2))));
                    } else if k < k2 {
                        assert(path_taken(documents@, slug_path(base_path@, slug_candidate(orig, k))));
                    }
                    assert(k == k2);
                }
                return slug;
            },
            Some(idx) => {
                proof {
                    if seen.contains(idx as int) {
                        let j = choose|j: nat| j < counter
                            && documents@[idx as int].path@ == #[trigger] slug_path(base_path@, slug_candidate(orig, j));
                        lemma_candidate_injective(orig, j, counter as nat, base_path@);
                    }
                    let seen2 = seen.insert(idx as int);
                    assert(seen2.subset_of(set_int_range(0, n as int)));
                    lemma_len_subset(seen2, set_int_range(0, n as int));
                    assert forall|i: int| #[trigger] seen2.contains(i) implies exists|j: nat| j < counter + 1
                        && documents@[i].path@ == #[trigger] slug_path(base_path@, slug_candidate(orig, j)) by {
                        if i == idx as int {
                            assert(documents@[i].path@ == slug_path(base_path@, slug_candidate(orig, counter as nat)));
                        }
                    }
                    assert(path_taken(documents@, slug_path(base_path@, slug_candidate(orig, counter as nat))));
                    seen = seen2;
                }
                counter = counter + 1;
                let mut next = original.clone();
                push_char(&mut next, '-');
                push_decimal(&mut next, counter);
                proof {
                    assert(next@ =~= slug_candidate(orig, counter as nat));
                }
                slug = next;
            },
        }
    }
}

} // verus!
