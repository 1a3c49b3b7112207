//! Revision history in writer-friendly form, and the word-level diff shown
//! between two revisions of a document.
use vstd::prelude::*;
use vstd::string::StringExecFns;

use crate::text::{
    ascii_hex, chars_of, has_prefix, has_suffix, is_whitespace, owned, push_char, string_of,
    text_ends_with, text_starts_with, trim_chars, trim_ws, whitespace,
};

verus! {

/// A single revision (commit).
pub struct Revision {
    pub id: String,
    pub message: String,
    pub timestamp: String,
    pub short_id: String,
}

/// A named draft version (branch).
pub struct DraftVersion {
    pub name: String,
    pub is_active: bool,
}

/// A file change in a diff: "added", "modified" or "deleted".
pub struct FileDiff {
    pub path: String,
    pub status: String,
}

/// Credentials for a sync remote.
pub struct RemoteAuth {
    pub username: Option<String>,
    pub token: Option<String>,
}

impl Default for RemoteAuth {
    /// No credentials.
    fn default() -> (r: RemoteAuth)
        ensures
            r.username is None && r.token is None,
    {
        RemoteAuth { username: None, token: None }
    }
}

/// How the local branch stands against the sync remote.
pub struct SyncStatus {
    pub ahead: usize,
    pub behind: usize,
    pub branch: String,
    pub has_remote: bool,
}

/// The text of HTML with its tags removed: `<` opens a tag (dropped), `>`
/// closes it and stands as a space; other characters are kept outside
/// tags.
pub open spec fn untagged(s: Seq<char>) -> Seq<char> {
    untagged_state(s).0
}

/// The untagged text of `s` and whether `s` ends inside a tag.
pub open spec fn untagged_state(s: Seq<char>) -> (Seq<char>, bool)
    decreases s.len(),
{
    if s.len() == 0 {
        (Seq::empty(), false)
    } else {
        let (t, in_tag) = untagged_state(s.drop_last());
        let c = s.last();
        if c == '<' {
            (t, true)
        } else if c == '>' {
            (t.push(' '), false)
        } else if !in_tag {
            (t.push(c), in_tag)
        } else {
            (t, in_tag)
        }
    }
}

/// The pieces of a text between whitespace characters, empty ones
/// included.
pub open spec fn split_ws(cs: Seq<char>) -> Seq<Seq<char>>
    decreases cs.len(),
{
    if cs.len() == 0 {
        seq![Seq::empty()]
    } else {
        let p = split_ws(cs.drop_last());
        if whitespace(cs.last()) {
            p.push(Seq::empty())
        } else {
            p.update(p.len() - 1, p.last().push(cs.last()))
        }
    }
}

/// The non-empty pieces.
pub open spec fn nonempty(ps: Seq<Seq<char>>) -> Seq<Seq<char>>
    decreases ps.len(),
{
    if ps.len() == 0 {
        Seq::empty()
    } else if ps.last().len() > 0 {
        nonempty(ps.drop_last()).push(ps.last())
    } else {
        nonempty(ps.drop_last())
    }
}

/// The words of a text, as `str::split_whitespace` gives them.
pub open spec fn words(s: Seq<char>) -> Seq<Seq<char>> {
    nonempty(split_ws(s))
}

/// Splits a text into its whitespace-separated words.
pub fn split_words(cs: &Vec<char>) -> (r: Vec<String>)
    ensures
        r@.map_values(|w: String| w@) == words(cs@),
{
    let mut out: Vec<String> = Vec::new();
    let mut current: Vec<char> = Vec::new();
    let mut i: usize = 0;
    proof {
        assert(cs@.take(0) =~= Seq::<char>::empty());
        assert(seq![Seq::<char>::empty()].drop_last() =~= Seq::<Seq<char>>::empty());
    }
    while i < cs.len()
        invariant
            i <= cs@.len(),
            split_ws(cs@.take(i as int)).len() >= 1,
            out@.map_values(|w: String| w@) == nonempty(split_ws(cs@.take(i as int)).drop_last()),
            current@ == split_ws(cs@.take(i as int)).last(),
        decreases cs.len() - i,
    {
        let c = cs[i];
        let ghost p = split_ws(cs@.take(i as int));
        proof {
            assert(cs@.take(i + 1).drop_last() =~= cs@.take(i as int));
            assert(cs@.take(i + 1).last() == c);
        }
        if is_whitespace(c) {
            if current.len() > 0 {
                let w = string_of(&current);
                out.push(w);
            }
            current = Vec::new();
            proof {
                let p2 = split_ws(cs@.take(i + 1));
                assert(p2 == p.push(Seq::<char>::empty()));
                assert(p2.drop_last() =~= p);
                assert(out@.map_values(|w: String| w@) =~= nonempty(p2.drop_last()));
            }
        } else {
            current.push(c);
            proof {
                let p2 = split_ws(cs@.take(i + 1));
                assert(p2 == p.update(p.len() - 1, p.last().push(c)));
                assert(p2.drop_last() =~= p.drop_last());
            }
        }
        i = i + 1;
    }
    if current.len() > 0 {
        let w = string_of(&current);
        out.push(w);
    }
    proof {
        assert(cs@.take(cs@.len() as int) =~= cs@);
        assert(out@.map_values(|w: String| w@) =~= words(cs@));
    }
    out
}

/// The words of HTML once its tags are removed.
pub fn strip_html_words(html: &str) -> (r: Vec<String>)
    ensures
        r@.map_values(|w: String| w@) == words(untagged(html@)),
{
    let cs = chars_of(html);
    let mut text: Vec<char> = Vec::new();
    let mut in_tag = false;
    let mut i: usize = 0;
    proof {
        assert(cs@.take(0) =~= Seq::<char>::empty());
    }
    while i < cs.len()
        invariant
            i <= cs@.len(),
            (text@, in_tag) == untagged_state(cs@.take(i as int)),
        decreases cs.len() - i,
    {
        let ch = cs[i];
        proof {
            assert(cs@.take(i + 1).drop_last() =~= cs@.take(i as int));
            assert(cs@.take(i + 1).last() == ch);
        }
        if ch == '<' {
            in_tag = true;
        } else if ch == '>' {
            in_tag = false;
            text.push(' ');
        } else if !in_tag {
            text.push(ch);
        }
        i = i + 1;
    }
    proof {
        assert(cs@.take(cs@.len() as int) =~= cs@);
    }
    split_words(&text)
}

/// What a span of a word diff is: words both texts share, words only the
/// new text has, or words only the old text had.
#[derive(Clone, Copy, PartialEq, Eq, Structural, Debug)]
pub enum DiffKind {
    Equal,
    Added,
    Deleted,
}

/// The label a diff span carries in the output.
pub open spec fn kind_name(k: DiffKind) -> Seq<char> {
    match k {
        DiffKind::Equal => "equal"@,
        DiffKind::Added => "added"@,
        DiffKind::Deleted => "deleted"@,
    }
}

/// Longest common subsequence length of `a[..i]` and `b[..j]`, by the
/// usual recurrence.
pub open spec fn lcs(a: Seq<Seq<char>>, b: Seq<Seq<char>>, i: nat, j: nat) -> nat
    decreases i + j,
{
    if i == 0 || j == 0 {
        0
    } else if a[i - 1] == b[j - 1] {
        lcs(a, b, (i - 1) as nat, (j - 1) as nat) + 1
    } else {
        let x = lcs(a, b, (i - 1) as nat, j);
        let y = lcs(a, b, i, (j - 1) as nat);
        if x >= y {
            x
        } else {
            y
        }
    }
}

/// The word-by-word edit script that walking the table back from
/// `(i, j)` gives, in text order: a shared last word is kept, else a
/// word of `b` is added when that loses nothing, else a word of `a` is
/// deleted.
pub open spec fn edit_script(a: Seq<Seq<char>>, b: Seq<Seq<char>>, i: nat, j: nat) -> Seq<
    (DiffKind, Seq<char>),
>
    decreases i + j,
{
    if i == 0 && j == 0 {
        Seq::empty()
    } else if i > 0 && j > 0 && a[i - 1] == b[j - 1] {
        edit_script(a, b, (i - 1) as nat, (j - 1) as nat).push((DiffKind::Equal, a[i - 1]))
    } else if j > 0 && (i == 0 || lcs(a, b, i, (j - 1) as nat) >= lcs(a, b, (i - 1) as nat, j)) {
        edit_script(a, b, i, (j - 1) as nat).push((DiffKind::Added, b[j - 1]))
    } else {
        edit_script(a, b, (i - 1) as nat, j).push((DiffKind::Deleted, a[i - 1]))
    }
}

/// Runs of one kind merged into one span, their words joined by a space.
pub open spec fn merged(s: Seq<(DiffKind, Seq<char>)>) -> Seq<(DiffKind, Seq<char>)>
    decreases s.len(),
{
    if s.len() == 0 {
        Seq::empty()
    } else {
        let r = merged(s.drop_last());
        let x = s.last();
        if r.len() > 0 && r.last().0 == x.0 {
            r.update(r.len() - 1, (x.0, r.last().1 + seq![' '] + x.1))
        } else {
            r.push(x)
        }
    }
}

/// Words joined by single spaces.
pub open spec fn joined(ws: Seq<Seq<char>>) -> Seq<char>
    decreases ws.len(),
{
    if ws.len() == 0 {
        Seq::empty()
    } else if ws.len() == 1 {
        ws[0]
    } else {
        joined(ws.drop_last()) + seq![' '] + ws.last()
    }
}

/// The most words either side may have for the table to be built.
pub const DIFF_WORD_LIMIT: usize = 5000;

/// The word diff of two word lists: over the limit, all of `a` deleted
/// and all of `b` added; else the edit script with runs merged.
pub open spec fn word_diff_spans(a: Seq<Seq<char>>, b: Seq<Seq<char>>) -> Seq<
    (DiffKind, Seq<char>),
> {
    if a.len() > DIFF_WORD_LIMIT || b.len() > DIFF_WORD_LIMIT {
        seq![(DiffKind::Deleted, joined(a)), (DiffKind::Added, joined(b))]
    } else {
        merged(edit_script(a, b, a.len(), b.len()))
    }
}

/// The spans as labelled text pairs.
pub open spec fn labelled(s: Seq<(DiffKind, Seq<char>)>) -> Seq<(Seq<char>, Seq<char>)> {
    s.map_values(|p: (DiffKind, Seq<char>)| (kind_name(p.0), p.1))
}

/// The words of a list of strings.
pub open spec fn word_views(ws: Seq<String>) -> Seq<Seq<char>> {
    ws.map_values(|w: String| w@)
}

proof fn lemma_lcs_bounded(a: Seq<Seq<char>>, b: Seq<Seq<char>>, i: nat, j: nat)
    ensures
        lcs(a, b, i, j) <= i,
        lcs(a, b, i, j) <= j,
    decreases i + j,
{
    if i == 0 || j == 0 {
    } else if a[i - 1] == b[j - 1] {
        lemma_lcs_bounded(a, b, (i - 1) as nat, (j - 1) as nat);
    } else {
        lemma_lcs_bounded(a, b, (i - 1) as nat, j);
        lemma_lcs_bounded(a, b, i, (j - 1) as nat);
    }
}

proof fn lemma_reverse_push<A>(s: Seq<A>, x: A)
    ensures
        s.push(x).reverse() == seq![x] + s.reverse(),
{
    if s.len() == 0 {
        assert(s.push(x).reverse() =~= seq![x] + s.reverse());
    } else {
        assert(s.push(x).reverse() =~= seq![x] + s.reverse());
    }
}

/// The label of a span kind, as a new string.
pub fn kind_label(k: DiffKind) -> (r: String)
    ensures
        r@ == kind_name(k),
{
    match k {
        DiffKind::Equal => owned("equal"),
        DiffKind::Added => owned("added"),
        DiffKind::Deleted => owned("deleted"),
    }
}

/// Words joined by single spaces, as `[String]::join(" ")` gives them.
pub fn join_words(ws: &[String]) -> (r: String)
    ensures
        r@ == joined(word_views(ws@)),
{
    let ghost v = word_views(ws@);
    let mut out = String::new();
    let mut k: usize = 0;
    while k < ws.len()
        invariant
            k <= ws@.len(),
            v == word_views(ws@),
            out@ == joined(v.take(k as int)),
        decreases ws.len() - k,
    {
        proof {
            assert(v.take(k + 1).drop_last() =~= v.take(k as int));
        }
        if k > 0 {
            push_char(&mut out, ' ');
        }
        out.append(ws[k].as_str());
        k = k + 1;
    }
    proof {
        assert(v.take(ws@.len() as int) =~= v);
    }
    out
}

/// The spans with their words as plain views.
pub open spec fn span_views(s: Seq<(DiffKind, String)>) -> Seq<(DiffKind, Seq<char>)> {
    s.map_values(|p: (DiffKind, String)| (p.0, p.1@))
}

/// The labelled pairs as plain views.
pub open spec fn pair_views(s: Seq<(String, String)>) -> Seq<(Seq<char>, Seq<char>)> {
    s.map_values(|p: (String, String)| (p.0@, p.1@))
}

/// The table of `lcs` values for all prefixes of two word lists.
fn lcs_table(old: &[String], new: &[String]) -> (dp: Vec<Vec<u32>>)
    requires
        old@.len() <= DIFF_WORD_LIMIT,
        new@.len() <= DIFF_WORD_LIMIT,
    ensures
        dp@.len() == old@.len() + 1,
        forall|i: int| 0 <= i <= old@.len() ==> #[trigger] dp@[i]@.len() == new@.len() + 1,
        forall|i: int, j: int|
            0 <= i <= old@.len() && 0 <= j <= new@.len() ==> #[trigger] dp@[i]@[j] == lcs(
                word_views(old@),
                word_views(new@),
                i as nat,
                j as nat,
            ),
{
    let ghost a = word_views(old@);
    let ghost b = word_views(new@);
    let m = old.len();
    let n = new.len();
    let mut dp: Vec<Vec<u32>> = Vec::new();
    let mut row0: Vec<u32> = Vec::new();
    let mut j: usize = 0;
    while j <= n
        invariant
            j <= n + 1,
            n == new@.len(),
            n <= DIFF_WORD_LIMIT,
            row0@.len() == j,
            forall|jj: int| 0 <= jj < j ==> #[trigger] row0@[jj] == lcs(a, b, 0, jj as nat),
        decreases n + 1 - j,
    {
        row0.push(0);
        j = j + 1;
    }
    dp.push(row0);
    let mut i: usize = 1;
    while i <= m
        invariant
            1 <= i <= m + 1,
            m == old@.len(),
            n == new@.len(),
            m <= DIFF_WORD_LIMIT,
            n <= DIFF_WORD_LIMIT,
            a == word_views(old@),
            b == word_views(new@),
            dp@.len() == i,
            forall|ii: int| 0 <= ii < i ==> #[trigger] dp@[ii]@.len() == n + 1,
            forall|ii: int, jj: int|
                0 <= ii < i && 0 <= jj <= n ==> #[trigger] dp@[ii]@[jj] == lcs(
                    a,
                    b,
                    ii as nat,
                    jj as nat,
                ),
        decreases m + 1 - i,
    {
        let mut row: Vec<u32> = Vec::new();
        row.push(0);
        let mut j: usize = 1;
        while j <= n
            invariant
                1 <= i <= m,
                1 <= j <= n + 1,
                m == old@.len(),
                n == new@.len(),
                m <= DIFF_WORD_LIMIT,
                n <= DIFF_WORD_LIMIT,
                a == word_views(old@),
                b == word_views(new@),
                dp@.len() == i,
                forall|ii: int| 0 <= ii < i ==> #[trigger] dp@[ii]@.len() == n + 1,
                forall|ii: int, jj: int|
                    0 <= ii < i && 0 <= jj <= n ==> #[trigger] dp@[ii]@[jj] == lcs(
                        a,
                        b,
                        ii as nat,
                        jj as nat,
                    ),
                row@.len() == j,
                forall|jj: int| 0 <= jj < j ==> #[trigger] row@[jj] == lcs(a, b, i as nat, jj as nat),
            decreases n + 1 - j,
        {
            let up_left = dp[i - 1][j - 1];
            let up = dp[i - 1][j];
            let left = row[j - 1];
            proof {
                assert(dp@[i - 1]@[j - 1] == lcs(a, b, (i - 1) as nat, (j - 1) as nat));
                assert(dp@[i - 1]@[j as int] == lcs(a, b, (i - 1) as nat, j as nat));
                lemma_lcs_bounded(a, b, (i - 1) as nat, (j - 1) as nat);
                assert(a[i - 1] == old@[i - 1]@);
                assert(b[j - 1] == new@[j - 1]@);
            }
            let v = if old[i - 1] == new[j - 1] {
                up_left + 1
            } else if up >= left {
                up
            } else {
                left
            };
            row.push(v);
            j = j + 1;
        }
        dp.push(row);
        i = i + 1;
    }
    dp
}

/// Word-level diff of two word lists: the shared words as "equal" spans,
/// the others as "added" or "deleted" spans, runs of one kind merged.
/// Over 5000 words on either side, the whole old text is one "deleted"
/// span and the whole new text one "added" span.
pub fn simple_word_diff(old: &[String], new: &[String]) -> (r: Vec<(String, String)>)
    ensures
        pair_views(r@) == labelled(word_diff_spans(word_views(old@), word_views(new@))),
{
    let ghost a = word_views(old@);
    let ghost b = word_views(new@);
    let mut spans: Vec<(DiffKind, String)> = Vec::new();
    if old.len() > DIFF_WORD_LIMIT || new.len() > DIFF_WORD_LIMIT {
        spans.push((DiffKind::Deleted, join_words(old)));
        spans.push((DiffKind::Added, join_words(new)));
        proof {
            assert(span_views(spans@) =~= word_diff_spans(a, b));
        }
    } else {
        let dp = lcs_table(old, new);
        let m = old.len();
        let n = new.len();
        let mut i: usize = m;
        let mut j: usize = n;
        let mut buf: Vec<(DiffKind, String)> = Vec::new();
        proof {
            assert(span_views(buf@).reverse() =~= Seq::<(DiffKind, Seq<char>)>::empty());
            assert(edit_script(a, b, i as nat, j as nat) + span_views(buf@).reverse() =~= edit_script(a, b, m as nat, n as nat));
        }
        while i > 0 || j > 0
            invariant
                i <= m,
                j <= n,
                m == old@.len(),
                n == new@.len(),
                a == word_views(old@),
                b == word_views(new@),
                dp@.len() == m + 1,
                forall|ii: int| 0 <= ii <= m ==> #[trigger] dp@[ii]@.len() == n + 1,
                forall|ii: int, jj: int|
                    0 <= ii <= m && 0 <= jj <= n ==> #[trigger] dp@[ii]@[jj] == lcs(
                        a,
                        b,
                        ii as nat,
                        jj as nat,
                    ),
                edit_script(a, b, i as nat, j as nat) + span_views(buf@).reverse() == edit_script(
                    a,
                    b,
                    m as nat,
                    n as nat,
                ),
            decreases i + j,
        {
            let ghost before = span_views(buf@);
            let ghost e = edit_script(a, b, i as nat, j as nat);
            if i > 0 && j > 0 && old[i - 1] == new[j - 1] {
                proof {
                    assert(a[i - 1] == old@[i - 1]@);
                    assert(b[j - 1] == new@[j - 1]@);
                }
                buf.push((DiffKind::Equal, old[i - 1].clone()));
                i = i - 1;
                j = j - 1;
            } else if j > 0 && (i == 0 || dp[i][j - 1] >= dp[i - 1][j]) {
                proof {
                    assert(b[j - 1] == new@[j - 1]@);
                    if i > 0 {
                        assert(a[i - 1] == old@[i - 1]@);
                        assert(dp@[i as int]@[j - 1] == lcs(a, b, i as nat, (j - 1) as nat));
                        assert(dp@[i - 1]@[j as int] == lcs(a, b, (i - 1) as nat, j as nat));
                    }
                }
                buf.push((DiffKind::Added, new[j - 1].clone()));
                j = j - 1;
            } else {
                proof {
                    assert(a[i - 1] == old@[i - 1]@);
                    if j > 0 {
                        assert(b[j - 1] == new@[j - 1]@);
                        assert(dp@[i as int]@[j - 1] == lcs(a, b, i as nat, (j - 1) as nat));
                        assert(dp@[i - 1]@[j as int] == lcs(a, b, (i - 1) as nat, j as nat));
                    }
                }
                buf.push((DiffKind::Deleted, old[i - 1].clone()));
                i = i - 1;
            }
            proof {
                let x = span_views(buf@).last();
                assert(span_views(buf@) =~= before.push(x));
                lemma_reverse_push(before, x);
                assert(e == edit_script(a, b, i as nat, j as nat).push(x));
                assert(edit_script(a, b, i as nat, j as nat) + span_views(buf@).reverse() =~= e + before.reverse());
            }
        }
        proof {
            assert(edit_script(a, b, 0, 0) =~= Seq::<(DiffKind, Seq<char>)>::empty());
            assert(span_views(buf@).reverse() =~= edit_script(a, b, m as nat, n as nat));
        }
        let ghost full = edit_script(a, b, m as nat, n as nat);
        let ghost mut done: Seq<(DiffKind, Seq<char>)> = Seq::empty();
        proof {
            assert(done + span_views(buf@).reverse() =~= full);
        }
        while buf.len() > 0
            invariant
                done + span_views(buf@).reverse() == full,
                span_views(spans@) == merged(done),
            decreases buf.len(),
        {
            let ghost rest = span_views(buf@);
            let last = buf.pop();
            match last {
                Some((kind, word)) => {
                    proof {
                        let x = (kind, word@);
                        assert(rest =~= span_views(buf@).push(x));
                        lemma_reverse_push(span_views(buf@), x);
                        assert(done.push(x) + span_views(buf@).reverse() =~= done + rest.reverse());
                    }
                    let ghost prev = span_views(spans@);
                    let sl = spans.len();
                    if sl > 0 && spans[sl - 1].0 == kind {
                        let mut text = spans[sl - 1].1.clone();
                        push_char(&mut text, ' ');
                        text.append(word.as_str());
                        proof {
                            assert(text@ =~= prev.last().1 + seq![' '] + word@);
                        }
                        spans.set(sl - 1, (kind, text));
                        proof {
                            assert(done.push((kind, word@)).drop_last() =~= done);
                            assert(span_views(spans@) =~= prev.update(prev.len() - 1, (kind, prev.last().1 + seq![' '] + word@)));
                        }
                    } else {
                        spans.push((kind, word));
                        proof {
                            assert(done.push((kind, word@)).drop_last() =~= done);
                            assert(span_views(spans@) =~= prev.push((kind, word@)));
                        }
                    }
                    proof {
                        done = done.push((kind, word@));
                    }
                },
                None => {},
            }
        }
        proof {
            assert(span_views(buf@).reverse() =~= Seq::<(DiffKind, Seq<char>)>::empty());
            assert(done =~= full);
        }
    }
    let mut out: Vec<(String, String)> = Vec::new();
    let mut k: usize = 0;
    while k < spans.len()
        invariant
            k <= spans@.len(),
            out@.len() == k,
            pair_views(out@) == labelled(span_views(spans@)).take(k as int),
        decreases spans.len() - k,
    {
        let label = kind_label(spans[k].0);
        let text = spans[k].1.clone();
        out.push((label, text));
        proof {
            assert(out@[k as int] == (label, text));
            assert(span_views(spans@)[k as int] == (spans@[k as int].0, spans@[k as int].1@));
            assert(pair_views(out@)[k as int] == labelled(span_views(spans@))[k as int]);
            assert(pair_views(out@) =~= labelled(span_views(spans@)).take(k + 1));
        }
        k = k + 1;
    }
    proof {
        assert(labelled(span_views(spans@)).take(spans@.len() as int) =~= labelled(span_views(spans@)));
    }
    out
}

/// Word-level diff of two stored versions of a document: the HTML tags
/// are stripped from both, and their words compared.
pub fn document_word_diff(old_content: &str, new_content: &str) -> (r: Vec<(String, String)>)
    ensures
        pair_views(r@) == labelled(
            word_diff_spans(words(untagged(old_content@)), words(untagged(new_content@))),
        ),
{
    let old_words = strip_html_words(old_content);
    let new_words = strip_html_words(new_content);
    simple_word_diff(old_words.as_slice(), new_words.as_slice())
}

/// The words of the spans not of kind `drop`, in order.
pub open spec fn kept(s: Seq<(DiffKind, Seq<char>)>, drop: DiffKind) -> Seq<Seq<char>>
    decreases s.len(),
{
    if s.len() == 0 {
        Seq::empty()
    } else if s.last().0 == drop {
        kept(s.drop_last(), drop)
    } else {
        kept(s.drop_last(), drop).push(s.last().1)
    }
}

/// How many spans are of kind `k`.
pub open spec fn count_kind(s: Seq<(DiffKind, Seq<char>)>, k: DiffKind) -> nat
    decreases s.len(),
{
    if s.len() == 0 {
        0
    } else if s.last().0 == k {
        count_kind(s.drop_last(), k) + 1
    } else {
        count_kind(s.drop_last(), k)
    }
}

proof fn lemma_joined_push(xs: Seq<Seq<char>>, w: Seq<char>)
    ensures
        joined(xs.push(w)) == (if xs.len() == 0 { w } else { joined(xs) + seq![' '] + w }),
{
    assert(xs.push(w).drop_last() =~= xs);
    if xs.len() == 0 {
        assert(xs.push(w).len() == 1);
    }
}

proof fn lemma_kept_update_last(r: Seq<(DiffKind, Seq<char>)>, t: Seq<char>, drop: DiffKind)
    requires
        r.len() > 0,
    ensures
        kept(r.update(r.len() - 1, (r.last().0, t)), drop) == (if r.last().0 == drop {
            kept(r, drop)
        } else {
            kept(r.drop_last(), drop).push(t)
        }),
{
    let u = r.update(r.len() - 1, (r.last().0, t));
    assert(u.drop_last() =~= r.drop_last());
}

proof fn lemma_merged_keeps_text(s: Seq<(DiffKind, Seq<char>)>, drop: DiffKind)
    ensures
        joined(kept(merged(s), drop)) == joined(kept(s, drop)),
        (kept(merged(s), drop).len() == 0) == (kept(s, drop).len() == 0),
    decreases s.len(),
{
    if s.len() > 0 {
        let sp = s.drop_last();
        let x = s.last();
        let r = merged(sp);
        lemma_merged_keeps_text(sp, drop);
        if r.len() > 0 && r.last().0 == x.0 {
            let t = r.last().1 + seq![' '] + x.1;
            lemma_kept_update_last(r, t, drop);
            if x.0 != drop {
                let k0 = kept(r.drop_last(), drop);
                assert(kept(r, drop) == k0.push(r.last().1));
                lemma_joined_push(k0, t);
                lemma_joined_push(k0, r.last().1);
                lemma_joined_push(kept(r, drop), x.1);
                lemma_joined_push(kept(sp, drop), x.1);
                if k0.len() == 0 {
                    assert(joined(k0.push(t)) =~= joined(k0.push(r.last().1)) + seq![' '] + x.1);
                } else {
                    assert(joined(k0.push(t)) =~= joined(k0.push(r.last().1)) + seq![' '] + x.1);
                }
            }
        } else {
            assert(r.push(x).drop_last() =~= r);
            if x.0 != drop {
                lemma_joined_push(kept(r, drop), x.1);
                lemma_joined_push(kept(sp, drop), x.1);
            }
        }
    }
}

proof fn lemma_script_sides(a: Seq<Seq<char>>, b: Seq<Seq<char>>, i: nat, j: nat)
    requires
        i <= a.len(),
        j <= b.len(),
    ensures
        kept(edit_script(a, b, i, j), DiffKind::Added) == a.take(i as int),
        kept(edit_script(a, b, i, j), DiffKind::Deleted) == b.take(j as int),
        count_kind(edit_script(a, b, i, j), DiffKind::Equal) == lcs(a, b, i, j),
    decreases i + j,
{
    let e = edit_script(a, b, i, j);
    if i == 0 && j == 0 {
        assert(a.take(0) =~= Seq::<Seq<char>>::empty());
        assert(b.take(0) =~= Seq::<Seq<char>>::empty());
    } else if i > 0 && j > 0 && a[i - 1] == b[j - 1] {
        let p = edit_script(a, b, (i - 1) as nat, (j - 1) as nat);
        lemma_script_sides(a, b, (i - 1) as nat, (j - 1) as nat);
        assert(e.drop_last() =~= p);
        assert(a.take(i as int) =~= a.take(i - 1).push(a[i - 1]));
        assert(b.take(j as int) =~= b.take(j - 1).push(b[j - 1]));
    } else if j > 0 && (i == 0 || lcs(a, b, i, (j - 1) as nat) >= lcs(a, b, (i - 1) as nat, j)) {
        let p = edit_script(a, b, i, (j - 1) as nat);
        lemma_script_sides(a, b, i, (j - 1) as nat);
        assert(e.drop_last() =~= p);
        assert(b.take(j as int) =~= b.take(j - 1).push(b[j - 1]));
    } else {
        let p = edit_script(a, b, (i - 1) as nat, j);
        lemma_script_sides(a, b, (i - 1) as nat, j);
        assert(e.drop_last() =~= p);
        assert(a.take(i as int) =~= a.take(i - 1).push(a[i - 1]));
    }
}

/// Reading a word diff back gives both versions: the text of its spans
/// that are not "added", joined by spaces, is the old words joined by
/// spaces, and the text of its spans that are not "deleted" is the new
/// words joined by spaces. This holds past the size limit too.
pub proof fn law_word_diff_rebuilds_both_versions(a: Seq<Seq<char>>, b: Seq<Seq<char>>)
    ensures
        joined(kept(word_diff_spans(a, b), DiffKind::Added)) == joined(a),
        joined(kept(word_diff_spans(a, b), DiffKind::Deleted)) == joined(b),
{
    if a.len() > DIFF_WORD_LIMIT || b.len() > DIFF_WORD_LIMIT {
        let s = word_diff_spans(a, b);
        assert(s.drop_last() =~= seq![(DiffKind::Deleted, joined(a))]);
        let s1 = s.drop_last();
        assert(s1.drop_last() =~= Seq::<(DiffKind, Seq<char>)>::empty());
        assert(kept(s1.drop_last(), DiffKind::Added) == Seq::<Seq<char>>::empty());
        assert(kept(s1.drop_last(), DiffKind::Deleted) == Seq::<Seq<char>>::empty());
        assert(kept(s1, DiffKind::Added) =~= seq![joined(a)]);
        assert(kept(s1, DiffKind::Deleted) =~= Seq::<Seq<char>>::empty());
        assert(kept(s, DiffKind::Added) =~= seq![joined(a)]);
        assert(kept(s, DiffKind::Deleted) =~= seq![joined(b)]);
    } else {
        let e = edit_script(a, b, a.len(), b.len());
        lemma_script_sides(a, b, a.len(), b.len());
        lemma_merged_keeps_text(e, DiffKind::Added);
        lemma_merged_keeps_text(e, DiffKind::Deleted);
        assert(a.take(a.len() as int) =~= a);
        assert(b.take(b.len() as int) =~= b);
    }
}

/// Within the size limit, the words the diff keeps as "equal" are as many
/// as the longest common subsequence of the two word lists has, and they
/// are words of both lists in order: the edit script's kept words are
/// exactly the old list (all but "added") and the new list (all but
/// "deleted").
pub proof fn law_word_diff_script_follows_lcs(a: Seq<Seq<char>>, b: Seq<Seq<char>>)
    ensures
        count_kind(edit_script(a, b, a.len(), b.len()), DiffKind::Equal) == lcs(a, b, a.len(), b.len()),
        kept(edit_script(a, b, a.len(), b.len()), DiffKind::Added) == a,
        kept(edit_script(a, b, a.len(), b.len()), DiffKind::Deleted) == b,
        a.len() <= DIFF_WORD_LIMIT && b.len() <= DIFF_WORD_LIMIT ==> word_diff_spans(a, b) == merged(
            edit_script(a, b, a.len(), b.len()),
        ),
{
    lemma_script_sides(a, b, a.len(), b.len());
    assert(a.take(a.len() as int) =~= a);
    assert(b.take(b.len() as int) =~= b);
}

/// Whether `c` is a subsequence of the first `i` words of `a`.
pub open spec fn subseq_of(c: Seq<Seq<char>>, a: Seq<Seq<char>>, i: nat) -> bool
    decreases i,
{
    if c.len() == 0 {
        true
    } else if i == 0 || i > a.len() {
        false
    } else {
        (c.last() == a[i - 1] && subseq_of(c.drop_last(), a, (i - 1) as nat)) || subseq_of(c, a, (i - 1) as nat)
    }
}

/// Dropping a word from either list loses at most one word of the longest
/// common subsequence, and never gains one.
proof fn lemma_lcs_steps(a: Seq<Seq<char>>, b: Seq<Seq<char>>, i: nat, j: nat)
    requires
        1 <= i <= a.len(),
        1 <= j <= b.len(),
    ensures
        lcs(a, b, (i - 1) as nat, j) <= lcs(a, b, i, j),
        lcs(a, b, i, (j - 1) as nat) <= lcs(a, b, i, j),
        lcs(a, b, i, j) <= lcs(a, b, (i - 1) as nat, j) + 1,
        lcs(a, b, i, j) <= lcs(a, b, i, (j - 1) as nat) + 1,
    decreases i + j,
{
    if i > 1 {
        lemma_lcs_steps(a, b, (i - 1) as nat, j);
    }
    if j > 1 {
        lemma_lcs_steps(a, b, i, (j - 1) as nat);
    }
    if i > 1 && j > 1 {
        lemma_lcs_steps(a, b, (i - 1) as nat, (j - 1) as nat);
    }
}

proof fn lemma_lcs_max(a: Seq<Seq<char>>, b: Seq<Seq<char>>, c: Seq<Seq<char>>, i: nat, j: nat)
    requires
        i <= a.len(),
        j <= b.len(),
        subseq_of(c, a, i),
        subseq_of(c, b, j),
    ensures
        c.len() <= lcs(a, b, i, j),
    decreases i + j,
{
    if c.len() > 0 {
        lemma_lcs_steps(a, b, i, j);
        if subseq_of(c, a, (i - 1) as nat) {
            lemma_lcs_max(a, b, c, (i - 1) as nat, j);
        } else if subseq_of(c, b, (j - 1) as nat) {
            lemma_lcs_max(a, b, c, i, (j - 1) as nat);
        } else {
            lemma_lcs_max(a, b, c.drop_last(), (i - 1) as nat, (j - 1) as nat);
        }
    }
}

/// The diff keeps as many words unchanged as possible: no sequence of
/// words that is a subsequence of both lists is longer than the number of
/// words the edit script keeps as equal.
pub proof fn law_word_diff_keeps_most(a: Seq<Seq<char>>, b: Seq<Seq<char>>, c: Seq<Seq<char>>)
    requires
        subseq_of(c, a, a.len()),
        subseq_of(c, b, b.len()),
    ensures
        c.len() <= count_kind(edit_script(a, b, a.len(), b.len()), DiffKind::Equal),
{
    lemma_lcs_max(a, b, c, a.len(), b.len());
    law_word_diff_script_follows_lcs(a, b);
}

/// The pieces of a text between its spaces, empty ones included.
pub open spec fn split_space(cs: Seq<char>) -> Seq<Seq<char>>
    decreases cs.len(),
{
    if cs.len() == 0 {
        seq![Seq::empty()]
    } else {
        let p = split_space(cs.drop_last());
        if cs.last() == ' ' {
            p.push(Seq::empty())
        } else {
            p.update(p.len() - 1, p.last().push(cs.last()))
        }
    }
}

/// Lists of words, one after the other.
pub open spec fn flatten_words(ts: Seq<Seq<Seq<char>>>) -> Seq<Seq<char>>
    decreases ts.len(),
{
    if ts.len() == 0 {
        Seq::empty()
    } else {
        flatten_words(ts.drop_last()) + ts.last()
    }
}

/// The texts split on spaces and the pieces put one after the other.
pub open spec fn span_words(ts: Seq<Seq<char>>) -> Seq<Seq<char>> {
    flatten_words(ts.map_values(|t: Seq<char>| split_space(t)))
}

/// A word without a space (it may be empty).
pub open spec fn spaceless(w: Seq<char>) -> bool {
    forall|k: int| 0 <= k < w.len() ==> #[trigger] w[k] != ' '
}

/// Every word of a list is [`spaceless`].
pub open spec fn all_spaceless(ws: Seq<Seq<char>>) -> bool {
    forall|i: int| 0 <= i < ws.len() ==> spaceless(#[trigger] ws[i])
}

/// Every span of a script holds a [`spaceless`] text.
pub open spec fn texts_spaceless(s: Seq<(DiffKind, Seq<char>)>) -> bool {
    forall|i: int| 0 <= i < s.len() ==> spaceless(#[trigger] s[i].1)
}

/// The texts of the spans of kind `k`, in order.
pub open spec fn only(s: Seq<(DiffKind, Seq<char>)>, k: DiffKind) -> Seq<Seq<char>>
    decreases s.len(),
{
    if s.len() == 0 {
        Seq::empty()
    } else if s.last().0 == k {
        only(s.drop_last(), k).push(s.last().1)
    } else {
        only(s.drop_last(), k)
    }
}

proof fn lemma_split_space_len(cs: Seq<char>)
    ensures
        split_space(cs).len() >= 1,
    decreases cs.len(),
{
    if cs.len() > 0 {
        lemma_split_space_len(cs.drop_last());
    }
}

proof fn lemma_split_space_word(w: Seq<char>)
    requires
        forall|k: int| 0 <= k < w.len() ==> #[trigger] w[k] != ' ',
    ensures
        split_space(w) == seq![w],
    decreases w.len(),
{
    if w.len() > 0 {
        let w0 = w.drop_last();
        assert forall|k: int| 0 <= k < w0.len() implies #[trigger] w0[k] != ' ' by {
            assert(w0[k] == w[k]);
        }
        lemma_split_space_word(w0);
        assert(w.last() == w[w.len() - 1]);
        assert(split_space(w) == seq![w0].update(0, w0.push(w.last())));
        assert(w0.push(w.last()) =~= w);
        assert(seq![w0].update(0, w0.push(w.last())) =~= seq![w]);
    } else {
        assert(w =~= Seq::<char>::empty());
    }
}

proof fn lemma_split_space_after(a: Seq<char>, b: Seq<char>)
    ensures
        split_space(a + seq![' '] + b) == split_space(a) + split_space(b),
    decreases b.len(),
{
    let t = a + seq![' '] + b;
    lemma_split_space_len(a);
    if b.len() == 0 {
        assert(t.drop_last() =~= a);
        assert(t.last() == ' ');
        assert(b =~= Seq::<char>::empty());
        assert(split_space(a).push(Seq::<char>::empty()) =~= split_space(a) + seq![Seq::<char>::empty()]);
    } else {
        let b0 = b.drop_last();
        lemma_split_space_after(a, b0);
        lemma_split_space_len(b0);
        assert(t.drop_last() =~= a + seq![' '] + b0);
        assert(t.last() == b.last());
        let pa = split_space(a);
        let pb = split_space(b0);
        if b.last() == ' ' {
            assert((pa + pb).push(Seq::<char>::empty()) =~= pa + pb.push(Seq::<char>::empty()));
        } else {
            let q = pa + pb;
            assert(q.update(q.len() - 1, q.last().push(b.last())) =~= pa + pb.update(pb.len() - 1, pb.last().push(b.last())));
        }
    }
}

proof fn lemma_span_words_push(ts: Seq<Seq<char>>, t: Seq<char>)
    ensures
        span_words(ts.push(t)) == span_words(ts) + split_space(t),
{
    let m = ts.map_values(|x: Seq<char>| split_space(x));
    let m2 = ts.push(t).map_values(|x: Seq<char>| split_space(x));
    assert(m2 =~= m.push(split_space(t)));
    assert(m2.drop_last() =~= m);
}

proof fn lemma_span_words_empty()
    ensures
        span_words(Seq::<Seq<char>>::empty()) == Seq::<Seq<char>>::empty(),
{
    let m = Seq::<Seq<char>>::empty().map_values(|x: Seq<char>| split_space(x));
    assert(m.len() == 0);
}

proof fn lemma_only_update_last(r: Seq<(DiffKind, Seq<char>)>, t: Seq<char>, k: DiffKind)
    requires
        r.len() > 0,
    ensures
        only(r.update(r.len() - 1, (r.last().0, t)), k) == (if r.last().0 == k {
            only(r.drop_last(), k).push(t)
        } else {
            only(r, k)
        }),
{
    let u = r.update(r.len() - 1, (r.last().0, t));
    assert(u.drop_last() =~= r.drop_last());
}

/// Splitting the merged spans that are kept gives back the words of the
/// script's spans that are kept, one by one.
proof fn lemma_merged_kept_words(s: Seq<(DiffKind, Seq<char>)>, drop: DiffKind)
    requires
        texts_spaceless(s),
    ensures
        span_words(kept(merged(s), drop)) == kept(s, drop),
    decreases s.len(),
{
    if s.len() == 0 {
        lemma_span_words_empty();
    } else {
        let sp = s.drop_last();
        let x = s.last();
        let r = merged(sp);
        assert(texts_spaceless(sp)) by {
            assert forall|i: int| 0 <= i < sp.len() implies spaceless(#[trigger] sp[i].1) by {
                assert(sp[i] == s[i]);
            }
        }
        lemma_merged_kept_words(sp, drop);
        assert(spaceless(s[s.len() - 1].1));
        lemma_split_space_word(x.1);
        if r.len() > 0 && r.last().0 == x.0 {
            let t = r.last().1 + seq![' '] + x.1;
            lemma_kept_update_last(r, t, drop);
            if x.0 != drop {
                let k0 = kept(r.drop_last(), drop);
                assert(kept(r, drop) == k0.push(r.last().1));
                lemma_span_words_push(k0, t);
                lemma_span_words_push(k0, r.last().1);
                lemma_split_space_after(r.last().1, x.1);
                assert(span_words(kept(merged(s), drop)) =~= kept(sp, drop).push(x.1));
            }
        } else {
            assert(r.push(x).drop_last() =~= r);
            if x.0 != drop {
                lemma_span_words_push(kept(r, drop), x.1);
                assert(span_words(kept(merged(s), drop)) =~= kept(sp, drop).push(x.1));
            }
        }
    }
}

/// Splitting the merged spans of kind `k` gives back the words of the
/// script's spans of that kind, one by one.
proof fn lemma_merged_only_words(s: Seq<(DiffKind, Seq<char>)>, k: DiffKind)
    requires
        texts_spaceless(s),
    ensures
        span_words(only(merged(s), k)) == only(s, k),
    decreases s.len(),
{
    if s.len() == 0 {
        lemma_span_words_empty();
    } else {
        let sp = s.drop_last();
        let x = s.last();
        let r = merged(sp);
        assert(texts_spaceless(sp)) by {
            assert forall|i: int| 0 <= i < sp.len() implies spaceless(#[trigger] sp[i].1) by {
                assert(sp[i] == s[i]);
            }
        }
        lemma_merged_only_words(sp, k);
        assert(spaceless(s[s.len() - 1].1));
        lemma_split_space_word(x.1);
        if r.len() > 0 && r.last().0 == x.0 {
            let t = r.last().1 + seq![' '] + x.1;
            lemma_only_update_last(r, t, k);
            if x.0 == k {
                let k0 = only(r.drop_last(), k);
                assert(only(r, k) == k0.push(r.last().1));
                lemma_span_words_push(k0, t);
                lemma_span_words_push(k0, r.last().1);
                lemma_split_space_after(r.last().1, x.1);
                assert(span_words(only(merged(s), k)) =~= only(sp, k).push(x.1));
            }
        } else {
            assert(r.push(x).drop_last() =~= r);
            if x.0 == k {
                lemma_span_words_push(only(r, k), x.1);
                assert(span_words(only(merged(s), k)) =~= only(sp, k).push(x.1));
            }
        }
    }
}

proof fn lemma_only_count(s: Seq<(DiffKind, Seq<char>)>, k: DiffKind)
    ensures
        only(s, k).len() == count_kind(s, k),
    decreases s.len(),
{
    if s.len() > 0 {
        lemma_only_count(s.drop_last(), k);
    }
}

proof fn lemma_script_spaceless(a: Seq<Seq<char>>, b: Seq<Seq<char>>, i: nat, j: nat)
    requires
        i <= a.len(),
        j <= b.len(),
        all_spaceless(a),
        all_spaceless(b),
    ensures
        texts_spaceless(edit_script(a, b, i, j)),
    decreases i + j,
{
    let e = edit_script(a, b, i, j);
    if i == 0 && j == 0 {
    } else {
        let p = if i > 0 && j > 0 && a[i - 1] == b[j - 1] {
            lemma_script_spaceless(a, b, (i - 1) as nat, (j - 1) as nat);
            edit_script(a, b, (i - 1) as nat, (j - 1) as nat)
        } else if j > 0 && (i == 0 || lcs(a, b, i, (j - 1) as nat) >= lcs(a, b, (i - 1) as nat, j)) {
            lemma_script_spaceless(a, b, i, (j - 1) as nat);
            edit_script(a, b, i, (j - 1) as nat)
        } else {
            lemma_script_spaceless(a, b, (i - 1) as nat, j);
            edit_script(a, b, (i - 1) as nat, j)
        };
        assert(e.drop_last() == p);
        if i > 0 {
            assert(spaceless(a[i - 1]));
        }
        if j > 0 {
            assert(spaceless(b[j - 1]));
        }
        assert forall|k: int| 0 <= k < e.len() implies spaceless(#[trigger] e[k].1) by {
            if k < e.len() - 1 {
                assert(e[k] == p[k]);
            }
        }
    }
}

/// Splitting the spans' texts on spaces gives the words back: within the
/// word limit and with words that hold no space (empty words and empty
/// lists included), the spans that are not "added", split and put one
/// after the other, are the old words, and those that are not "deleted"
/// the new words.
pub proof fn law_word_diff_spans_split_back(a: Seq<Seq<char>>, b: Seq<Seq<char>>)
    requires
        a.len() <= DIFF_WORD_LIMIT,
        b.len() <= DIFF_WORD_LIMIT,
        all_spaceless(a),
        all_spaceless(b),
    ensures
        span_words(kept(word_diff_spans(a, b), DiffKind::Added)) == a,
        span_words(kept(word_diff_spans(a, b), DiffKind::Deleted)) == b,
{
    law_word_diff_script_follows_lcs(a, b);
    lemma_script_spaceless(a, b, a.len(), b.len());
    let e = edit_script(a, b, a.len(), b.len());
    lemma_merged_kept_words(e, DiffKind::Added);
    lemma_merged_kept_words(e, DiffKind::Deleted);
}

/// The words of the "equal" spans are as many as a longest common
/// subsequence of the two word lists: within the word limit and with words
/// that hold no space, splitting the "equal" spans gives exactly the
/// script's unchanged words, they are `lcs` many, and no common subsequence
/// `c` of the two lists is longer.
pub proof fn law_equal_spans_keep_most(a: Seq<Seq<char>>, b: Seq<Seq<char>>, c: Seq<Seq<char>>)
    requires
        a.len() <= DIFF_WORD_LIMIT,
        b.len() <= DIFF_WORD_LIMIT,
        all_spaceless(a),
        all_spaceless(b),
        subseq_of(c, a, a.len()),
        subseq_of(c, b, b.len()),
    ensures
        span_words(only(word_diff_spans(a, b), DiffKind::Equal)) == only(
            edit_script(a, b, a.len(), b.len()),
            DiffKind::Equal,
        ),
        span_words(only(word_diff_spans(a, b), DiffKind::Equal)).len() == lcs(a, b, a.len(), b.len()),
        c.len() <= span_words(only(word_diff_spans(a, b), DiffKind::Equal)).len(),
{
    law_word_diff_script_follows_lcs(a, b);
    law_word_diff_keeps_most(a, b, c);
    lemma_script_spaceless(a, b, a.len(), b.len());
    let e = edit_script(a, b, a.len(), b.len());
    lemma_merged_only_words(e, DiffKind::Equal);
    lemma_only_count(e, DiffKind::Equal);
}

/// No two neighbouring spans of a merged diff are of the same kind.
pub proof fn law_merged_spans_alternate(s: Seq<(DiffKind, Seq<char>)>)
    ensures
        forall|k: int| 0 < k < merged(s).len() ==> #[trigger] merged(s)[k].0 != merged(s)[k - 1].0,
    decreases s.len(),
{
    if s.len() > 0 {
        law_merged_spans_alternate(s.drop_last());
        let r = merged(s.drop_last());
        let x = s.last();
        if r.len() > 0 && r.last().0 == x.0 {
            assert forall|k: int| 0 < k < merged(s).len() implies #[trigger] merged(s)[k].0 != merged(s)[k - 1].0 by {
                assert(r[k].0 != r[k - 1].0);
            }
        } else {
            assert forall|k: int| 0 < k < merged(s).len() implies #[trigger] merged(s)[k].0 != merged(s)[k - 1].0 by {
                if k < r.len() {
                    assert(r[k].0 != r[k - 1].0);
                }
            }
        }
    }
}

/// How a file changed between two revisions, as the repository reports it.
#[derive(Clone, Copy, PartialEq, Eq, Structural, Debug)]
pub enum ChangeStatus {
    Added,
    Deleted,
    Modified,
    Renamed,
    Other,
}

/// The label a file change carries.
pub open spec fn status_name(s: ChangeStatus) -> Seq<char> {
    match s {
        ChangeStatus::Added => "added"@,
        ChangeStatus::Deleted => "deleted"@,
        ChangeStatus::Modified => "modified"@,
        ChangeStatus::Renamed => "renamed"@,
        ChangeStatus::Other => "changed"@,
    }
}

/// Whether a changed path is shown to the writer: not the project file,
/// nothing under `.git`, no `.meta` sidecar.
pub open spec fn diff_path_shown(p: Seq<char>) -> bool {
    p != "project.yaml"@ && !has_prefix(p, ".git"@) && !has_suffix(p, ".meta"@)
}

/// The entry a changed file gets in a revision's file list, if it is shown.
pub fn file_diff_entry(path: &str, status: ChangeStatus) -> (r: Option<FileDiff>)
    ensures
        r is Some <==> diff_path_shown(path@),
        r matches Some(d) ==> d.path@ == path@ && d.status@ == status_name(status),
{
    let is_project_file = crate::text::str_eq(path, "project.yaml");
    if is_project_file || text_starts_with(path, ".git") || text_ends_with(path, ".meta") {
        return None;
    }
    let label = match status {
        ChangeStatus::Added => owned("added"),
        ChangeStatus::Deleted => owned("deleted"),
        ChangeStatus::Modified => owned("modified"),
        ChangeStatus::Renamed => owned("renamed"),
        ChangeStatus::Other => owned("changed"),
    };
    Some(FileDiff { path: owned(path), status: label })
}

/// A revision in writer-friendly form, from a commit's id, message and
/// time: the message trimmed, the short id the first eight characters of
/// the id.
pub fn revision_of(id: &str, message: &str, timestamp: String) -> (r: Revision)
    requires
        id@.len() >= 8,
        forall|k: int| 0 <= k < id@.len() ==> ascii_hex(#[trigger] id@[k]),
    ensures
        r.id@ == id@,
        r.short_id@ == id@.take(8),
        r.message@ == trim_ws(message@),
        r.timestamp == timestamp,
{
    let cs = chars_of(id);
    let mut short: Vec<char> = Vec::new();
    let mut k: usize = 0;
    while k < 8
        invariant
            k <= 8,
            cs@ == id@,
            id@.len() >= 8,
            short@ == id@.take(k as int),
        decreases 8 - k,
    {
        short.push(cs[k]);
        assert(id@.take(k + 1) =~= id@.take(k as int).push(id@[k as int]));
        k = k + 1;
    }
    let msg = trim_chars(&chars_of(message));
    Revision {
        id: owned(id),
        message: string_of(&msg),
        timestamp,
        short_id: string_of(&short),
    }
}

/// The message of the revision that restores an earlier one.
pub open spec fn restore_message_text(message: Option<Seq<char>>) -> Seq<char> {
    "Restored to: "@ + match message {
        Some(m) => m,
        None => "(no message)"@,
    }
}

/// The message of the revision that restores an earlier one, whose own
/// message is `message` when it has one.
pub fn restore_message(message: Option<&str>) -> (r: String)
    ensures
        r@ == restore_message_text(
            match message {
                Some(m) => Some(m@),
                None => None,
            },
        ),
{
    let mut out = owned("Restored to: ");
    match message {
        Some(m) => out.append(m),
        None => out.append("(no message)"),
    }
    out
}

/// The credential a remote operation offers.
pub enum CredentialChoice {
    /// User name and token over HTTPS.
    UserPass { user: String, token: String },
    /// An SSH key from the agent, for this user.
    SshAgent { user: String },
    /// Whatever default credential is configured.
    Default,
}

/// The user name the remote's URL gave, else `git`.
pub open spec fn url_user(username_from_url: Option<Seq<char>>) -> Seq<char> {
    match username_from_url {
        Some(u) => u,
        None => "git"@,
    }
}

/// Which credential a remote operation offers: with user name and token
/// allowed, the stored user and token, or the token under the URL's user
/// (`git` when it gives none); with SSH allowed, the agent's key for the
/// URL's user; else the default.
pub fn choose_credential(
    auth: &RemoteAuth,
    user_pass_allowed: bool,
    ssh_allowed: bool,
    username_from_url: Option<&str>,
) -> (r: CredentialChoice)
    ensures
        ({
            let from_url = match username_from_url {
                Some(u) => Some(u@),
                None => None,
            };
            if user_pass_allowed && auth.username is Some && auth.token is Some {
                r matches CredentialChoice::UserPass { user, token } && user@ == auth.username->0@
                    && token@ == auth.token->0@
            } else if user_pass_allowed && auth.token is Some {
                r matches CredentialChoice::UserPass { user, token } && user@ == url_user(from_url)
                    && token@ == auth.token->0@
            } else if ssh_allowed {
                r matches CredentialChoice::SshAgent { user } && user@ == url_user(from_url)
            } else {
                r is Default
            }
        }),
{
    let fallback = match username_from_url {
        Some(u) => owned(u),
        None => owned("git"),
    };
    if user_pass_allowed {
        match (&auth.username, &auth.token) {
            (Some(user), Some(token)) => {
                return CredentialChoice::UserPass { user: user.clone(), token: token.clone() };
            },
            (None, Some(token)) => {
                return CredentialChoice::UserPass { user: fallback, token: token.clone() };
            },
            _ => {},
        }
    }
    if ssh_allowed {
        CredentialChoice::SshAgent { user: fallback }
    } else {
        CredentialChoice::Default
    }
}

} // verus!
