//! Compiling the manuscript: which documents go in and in what order, and
//! the markdown text handed to the converter.
use vstd::prelude::*;
use vstd::string::StringExecFns;

use crate::error::ChiknError;
use crate::models::{Document, Project, TreeNode, nodes_view};
use crate::project::reader::{DocEntry, doc_entries, entry_view, hierarchy_documents};
use crate::revisions::{split_words, words};
use crate::scrivener::exporter::{find_document, first_doc};
use crate::text::{
    chars_of, decimal, has_prefix, has_suffix, owned, push_char, push_decimal, str_eq,
    text_ends_with, text_starts_with, trim_chars, trim_ws,
};

verus! {

/// The converter's name for an output format; unknown formats give Word.
pub open spec fn pandoc_name(format: Seq<char>) -> Seq<char> {
    if format == "docx"@ {
        "docx"@
    } else if format == "pdf"@ {
        "pdf"@
    } else if format == "epub"@ {
        "epub3"@
    } else if format == "html"@ {
        "html"@
    } else if format == "odt"@ {
        "odt"@
    } else {
        "docx"@
    }
}

/// The converter's name for an output format.
pub fn pandoc_format(format: &str) -> (r: &'static str)
    ensures
        r@ == pandoc_name(format@),
{
    if str_eq(format, "docx") {
        "docx"
    } else if str_eq(format, "pdf") {
        "pdf"
    } else if str_eq(format, "epub") {
        "epub3"
    } else if str_eq(format, "html") {
        "html"
    } else if str_eq(format, "odt") {
        "odt"
    } else {
        "docx"
    }
}

/// Whether a hierarchy document goes into the compiled manuscript: its
/// path is a markdown file under `manuscript/`, a loaded document has its
/// id, that document is marked for compiling and its content is not blank.
pub open spec fn section_of(e: (Seq<char>, Seq<char>, Seq<char>), docs: Seq<Document>) -> Option<(i32, Seq<char>)> {
    if has_prefix(e.2, "manuscript/"@) && has_suffix(e.2, ".md"@) {
        match first_doc(docs, e.0) {
            Some(j) => if docs[j].include_in_compile && trim_ws(docs[j].content@).len() > 0 {
                Some((docs[j].compile_order, docs[j].content@))
            } else {
                None
            },
            None => None,
        }
    } else {
        None
    }
}

/// The sections of the manuscript in binder order, with their compile order.
pub open spec fn sections_of(es: Seq<(Seq<char>, Seq<char>, Seq<char>)>, docs: Seq<Document>) -> Seq<(i32, Seq<char>)>
    decreases es.len(),
{
    if es.len() == 0 {
        Seq::empty()
    } else {
        match section_of(es.last(), docs) {
            Some(x) => sections_of(es.drop_last(), docs).push(x),
            None => sections_of(es.drop_last(), docs),
        }
    }
}

/// Puts `x` after every section whose compile order is not above its own.
pub open spec fn insert_by_order(s: Seq<(i32, Seq<char>)>, x: (i32, Seq<char>)) -> Seq<(i32, Seq<char>)>
    decreases s.len(),
{
    if s.len() == 0 {
        seq![x]
    } else if s.last().0 <= x.0 {
        s.push(x)
    } else {
        insert_by_order(s.drop_last(), x).push(s.last())
    }
}

/// The sections ordered by compile order, binder order among equals.
pub open spec fn by_compile_order(s: Seq<(i32, Seq<char>)>) -> Seq<(i32, Seq<char>)>
    decreases s.len(),
{
    if s.len() == 0 {
        Seq::empty()
    } else {
        insert_by_order(by_compile_order(s.drop_last()), s.last())
    }
}

/// The sections of a project's manuscript, in the order they are compiled.
pub open spec fn compiled_sections(p: Project) -> Seq<Seq<char>> {
    by_compile_order(sections_of(doc_entries(nodes_view(p.hierarchy@)), p.documents@)).map_values(
        |x: (i32, Seq<char>)| x.1,
    )
}

/// The words of all sections.
pub open spec fn total_words(secs: Seq<Seq<char>>) -> nat
    decreases secs.len(),
{
    if secs.len() == 0 {
        0
    } else {
        total_words(secs.drop_last()) + words(secs.last()).len()
    }
}

/// The section text, with a line break added when it lacks a final one.
pub open spec fn section_text(s: Seq<char>) -> Seq<char> {
    if s.len() > 0 && s.last() == '\n' {
        s
    } else {
        s.push('\n')
    }
}

/// The sections one after another, the separator on a line of its own,
/// set off by blank lines, between each two.
pub open spec fn joined_sections(secs: Seq<Seq<char>>, sep: Seq<char>) -> Seq<char>
    decreases secs.len(),
{
    if secs.len() == 0 {
        Seq::empty()
    } else if secs.len() == 1 {
        section_text(secs[0])
    } else {
        joined_sections(secs.drop_last(), sep) + "\n\n"@ + sep + "\n\n"@ + section_text(secs.last())
    }
}

/// A word count rounded to the nearest hundred, halves up.
pub open spec fn rounded_hundreds(n: nat) -> nat {
    ((n + 50) / 100) * 100
}

/// The title page: author, approximate length, title, byline, page break.
pub open spec fn title_page(title: Seq<char>, author: Option<Seq<char>>, word_count: nat) -> Seq<char> {
    (match author {
        Some(a) => a + "\n\n"@,
        None => Seq::empty(),
    }) + "Approx. "@ + decimal(rounded_hundreds(word_count)) + " words\n\n"@ + "# "@ + title + "\n\n"@ + (
    match author {
        Some(a) => "by "@ + a + "\n\n"@,
        None => Seq::empty(),
    }) + "\\newpage\n\n"@
}

/// The markdown handed to the converter.
pub open spec fn manuscript_markdown(
    secs: Seq<Seq<char>>,
    title: Seq<char>,
    author: Option<Seq<char>>,
    include_title_page: bool,
    sep: Seq<char>,
) -> Seq<char> {
    (if include_title_page {
        title_page(title, author, total_words(secs))
    } else {
        Seq::empty()
    }) + joined_sections(secs, sep)
}

/// An optional text as an optional view.
pub open spec fn opt_view(o: Option<&str>) -> Option<Seq<char>> {
    match o {
        Some(s) => Some(s@),
        None => None,
    }
}

/// An optional string as an optional view.
pub open spec fn opt_string_view(o: Option<String>) -> Option<Seq<char>> {
    match o {
        Some(s) => Some(s@),
        None => None,
    }
}

/// The title a compile uses: the given one, else the project's name.
pub open spec fn compile_title(p: Project, title: Option<Seq<char>>) -> Seq<char> {
    match title {
        Some(t) => t,
        None => p.name@,
    }
}

/// The author a compile uses: the given one, else the project's.
pub open spec fn compile_author(p: Project, author: Option<Seq<char>>) -> Option<Seq<char>> {
    match author {
        Some(a) => Some(a),
        None => opt_string_view(p.metadata.author),
    }
}

/// The separator between sections: the given one, else `# # #`.
pub open spec fn compile_separator(sep: Option<Seq<char>>) -> Seq<char> {
    match sep {
        Some(s) => s,
        None => "# # #"@,
    }
}

proof fn lemma_insert_position(s: Seq<(i32, Seq<char>)>, x: (i32, Seq<char>), p: int)
    requires
        0 <= p <= s.len(),
        p == 0 || s[p - 1].0 <= x.0,
        forall|q: int| p <= q < s.len() ==> #[trigger] s[q].0 > x.0,
    ensures
        insert_by_order(s, x) == s.insert(p, x),
    decreases s.len(),
{
    if s.len() == 0 {
        assert(s.insert(p, x) =~= seq![x]);
    } else if p == s.len() {
        assert(s.insert(p, x) =~= s.push(x));
    } else {
        assert(s.last().0 > x.0);
        lemma_insert_position(s.drop_last(), x, p);
        assert(s.drop_last().insert(p, x).push(s.last()) =~= s.insert(p, x));
    }
}

/// The sections of the manuscript in binder order, with their compile order.
fn collect_ordered_sections(nodes: &[TreeNode], project: &Project) -> (r: Vec<(i32, String)>)
    ensures
        r@.map_values(|x: (i32, String)| (x.0, x.1@)) == sections_of(doc_entries(nodes_view(nodes@)), project.documents@),
{
    let mut entries: Vec<DocEntry> = Vec::new();
    hierarchy_documents(nodes, &mut entries);
    let ghost es = doc_entries(nodes_view(nodes@));
    proof {
        assert(entries@.map_values(|e: DocEntry| entry_view(e)) =~= es);
    }
    let docs = &project.documents;
    let mut out: Vec<(i32, String)> = Vec::new();
    let mut k: usize = 0;
    proof {
        assert(es.take(0) =~= Seq::<(Seq<char>, Seq<char>, Seq<char>)>::empty());
    }
    while k < entries.len()
        invariant
            k <= entries@.len(),
            entries@.map_values(|e: DocEntry| entry_view(e)) == es,
            docs@ == project.documents@,
            out@.map_values(|x: (i32, String)| (x.0, x.1@)) == sections_of(es.take(k as int), docs@),
        decreases entries.len() - k,
    {
        let e = &entries[k];
        let ghost before = out@.map_values(|x: (i32, String)| (x.0, x.1@));
        proof {
            assert(es[k as int] == entry_view(entries@[k as int]));
            assert(es.take(k + 1).drop_last() =~= es.take(k as int));
            assert(es.take(k + 1).last() == es[k as int]);
        }
        if text_starts_with(e.path.as_str(), "manuscript/") && text_ends_with(e.path.as_str(), ".md") {
            match find_document(docs, e.id.as_str()) {
                Some(j) => {
                    let d = &docs[j];
                    let blank = trim_chars(&chars_of(d.content.as_str())).len() == 0;
                    if d.include_in_compile && !blank {
                        out.push((d.compile_order, d.content.clone()));
                        proof {
                            assert(out@.map_values(|x: (i32, String)| (x.0, x.1@)) =~= before.push(
                                (d.compile_order, d.content@),
                            ));
                        }
                    }
                },
                None => {},
            }
        }
        k = k + 1;
    }
    proof {
        assert(es.take(entries@.len() as int) =~= es);
    }
    out
}

/// Orders sections by compile order, keeping binder order among equals.
fn order_sections(items: Vec<(i32, String)>) -> (r: Vec<String>)
    ensures
        r@.map_values(|s: String| s@) == by_compile_order(
            items@.map_values(|x: (i32, String)| (x.0, x.1@)),
        ).map_values(|x: (i32, Seq<char>)| x.1),
{
    let ghost v = items@.map_values(|x: (i32, String)| (x.0, x.1@));
    let mut items = items;
    let mut sorted: Vec<(i32, String)> = Vec::new();
    let ghost mut k: int = 0;
    proof {
        assert(v.take(0) =~= Seq::<(i32, Seq<char>)>::empty());
        assert(items@.map_values(|x: (i32, String)| (x.0, x.1@)) =~= v.skip(0));
    }
    while items.len() > 0
        invariant
            0 <= k <= v.len(),
            items@.map_values(|x: (i32, String)| (x.0, x.1@)) == v.skip(k),
            sorted@.map_values(|x: (i32, String)| (x.0, x.1@)) == by_compile_order(v.take(k)),
        decreases items.len(),
    {
        let ghost sv = sorted@.map_values(|x: (i32, String)| (x.0, x.1@));
        let ghost iv = items@.map_values(|x: (i32, String)| (x.0, x.1@));
        // Taken from the front so that equal compile orders keep binder order.
        let x = items.remove(0);
        {
            {
                proof {
                    assert(v.skip(k).len() == v.len() - k);
                    assert(k < v.len());
                    assert(iv[0] == v[k]);
                    let nv = items@.map_values(|x: (i32, String)| (x.0, x.1@));
                    assert forall|t: int| 0 <= t < nv.len() implies #[trigger] nv[t] == v.skip(k + 1)[t] by {
                        assert(nv[t] == iv[t + 1]);
                        assert(iv[t + 1] == v.skip(k)[t + 1]);
                    }
                    assert(nv =~= v.skip(k + 1));
                    assert(v.take(k + 1).drop_last() =~= v.take(k));
                    assert(v.take(k + 1).last() == v[k]);
                    assert((x.0, x.1@) == v[k]);
                }
                let mut p: usize = sorted.len();
                while p > 0 && sorted[p - 1].0 > x.0
                    invariant
                        p <= sorted@.len(),
                        sv == sorted@.map_values(|x: (i32, String)| (x.0, x.1@)),
                        forall|q: int| p <= q < sorted@.len() ==> #[trigger] sorted@[q].0 > x.0,
                    decreases p,
                {
                    p = p - 1;
                }
                proof {
                    lemma_insert_position(sv, (x.0, x.1@), p as int);
                }
                sorted.insert(p, x);
                proof {
                    assert(sorted@.map_values(|x: (i32, String)| (x.0, x.1@)) =~= sv.insert(p as int, v[k]));
                    k = k + 1;
                }
            }
        }
    }
    proof {
        assert(v.skip(k).len() == 0);
        assert(v.take(k) =~= v);
    }
    let mut out: Vec<String> = Vec::new();
    let ghost fin = sorted@.map_values(|x: (i32, String)| (x.0, x.1@));
    let mut q: usize = 0;
    while q < sorted.len()
        invariant
            q <= sorted@.len(),
            fin == sorted@.map_values(|x: (i32, String)| (x.0, x.1@)),
            out@.len() == q,
            out@.map_values(|s: String| s@) == fin.map_values(|x: (i32, Seq<char>)| x.1).take(q as int),
        decreases sorted.len() - q,
    {
        out.push(sorted[q].1.clone());
        proof {
            assert(out@.map_values(|s: String| s@) =~= fin.map_values(|x: (i32, Seq<char>)| x.1).take(q + 1));
        }
        q = q + 1;
    }
    proof {
        assert(fin.map_values(|x: (i32, Seq<char>)| x.1).take(sorted@.len() as int) =~= fin.map_values(
            |x: (i32, Seq<char>)| x.1,
        ));
    }
    out
}

/// How many whitespace-separated words a text has.
pub fn count_words(s: &str) -> (r: usize)
    ensures
        r == words(s@).len(),
{
    split_words(&chars_of(s)).len()
}

fn title_page_text(title: &str, author: Option<&str>, word_count: usize) -> (r: String)
    requires
        word_count + 50 <= usize::MAX,
    ensures
        r@ == title_page(title@, opt_view(author), word_count as nat),
{
    let mut md = String::new();
    match author {
        Some(a) => {
            md.append(a);
            md.append("\n\n");
        },
        None => {},
    }
    md.append("Approx. ");
    let rounded = ((word_count + 50) / 100) * 100;
    assert(((word_count + 50) / 100) * 100 <= word_count + 50) by (nonlinear_arith)
        requires
            word_count + 50 <= usize::MAX,
    ;
    push_decimal(&mut md, rounded);
    md.append(" words\n\n");
    md.append("# ");
    md.append(title);
    md.append("\n\n");
    match author {
        Some(a) => {
            md.append("by ");
            md.append(a);
            md.append("\n\n");
        },
        None => {},
    }
    md.append("\\newpage\n\n");
    proof {
        let pre = match opt_view(author) {
            Some(a) => a + "\n\n"@,
            None => Seq::<char>::empty(),
        };
        let post = match opt_view(author) {
            Some(a) => "by "@ + a + "\n\n"@,
            None => Seq::<char>::empty(),
        };
        assert(md@ =~= pre + "Approx. "@ + decimal(rounded_hundreds(word_count as nat)) + " words\n\n"@ + "# "@ + title@
            + "\n\n"@ + post + "\\newpage\n\n"@);
    }
    md
}

/// The markdown of a compiled manuscript: the optional title page, then
/// the manuscript's sections in compile order, joined by the separator.
/// The title defaults to the project's name, the author to the project's
/// author, the separator to `# # #`. An error when no section goes in.
pub fn compile_markdown(
    project: &Project,
    title: Option<&str>,
    author: Option<&str>,
    include_title_page: bool,
    separator: Option<&str>,
) -> (r: Result<String, ChiknError>)
    requires
        include_title_page ==> total_words(compiled_sections(*project)) + 50 <= usize::MAX,
    ensures
        compiled_sections(*project).len() == 0 ==> (r matches Err(ChiknError::InvalidFormat(m)) && m@
            == "No manuscript content to compile"@),
        compiled_sections(*project).len() > 0 ==> (r matches Ok(md) && md@ == manuscript_markdown(
            compiled_sections(*project),
            compile_title(*project, opt_view(title)),
            compile_author(*project, opt_view(author)),
            include_title_page,
            compile_separator(opt_view(separator)),
        )),
{
    let collected = collect_ordered_sections(project.hierarchy.as_slice(), project);
    let sections = order_sections(collected);
    let ghost secs = compiled_sections(*project);
    proof {
        assert(sections@.map_values(|s: String| s@) =~= secs);
    }
    if sections.len() == 0 {
        return Err(ChiknError::InvalidFormat(owned("No manuscript content to compile")));
    }
    let doc_title: &str = match title {
        Some(t) => t,
        None => project.name.as_str(),
    };
    let doc_author: Option<&str> = match author {
        Some(a) => Some(a),
        None => match &project.metadata.author {
            Some(a) => Some(a.as_str()),
            None => None,
        },
    };
    let sep: &str = match separator {
        Some(s) => s,
        None => "# # #",
    };
    let mut md = String::new();
    if include_title_page {
        let mut wc: usize = 0;
        let mut i: usize = 0;
        while i < sections.len()
            invariant
                i <= sections@.len(),
                sections@.map_values(|s: String| s@) == secs,
                total_words(secs) + 50 <= usize::MAX,
                wc == total_words(secs.take(i as int)),
            decreases sections.len() - i,
        {
            proof {
                assert(secs.take(i + 1).drop_last() =~= secs.take(i as int));
                assert(secs.take(i + 1).last() == sections@[i as int]@);
                lemma_total_words_prefix(secs, i + 1);
            }
            let n = count_words(sections[i].as_str());
            wc = wc + n;
            i = i + 1;
        }
        proof {
            assert(secs.take(sections@.len() as int) =~= secs);
        }
        let page = title_page_text(doc_title, doc_author, wc);
        md.append(page.as_str());
    }
    let ghost head = md@;
    let mut i: usize = 0;
    while i < sections.len()
        invariant
            i <= sections@.len(),
            sections@.map_values(|s: String| s@) == secs,
            md@ == head + joined_sections(secs.take(i as int), sep@),
        decreases sections.len() - i,
    {
        let ghost before = md@;
        proof {
            assert(secs.take(i + 1).drop_last() =~= secs.take(i as int));
            assert(secs.take(i + 1).last() == sections@[i as int]@);
            assert(secs[i as int] == sections@[i as int]@);
        }
        if i > 0 {
            md.append("\n\n");
            md.append(sep);
            md.append("\n\n");
        }
        let s = sections[i].as_str();
        md.append(s);
        let ends_nl = text_ends_with(s, "\n");
        if !ends_nl {
            push_char(&mut md, '\n');
        }
        proof {
            reveal_strlit("\n");
            let sv = secs[i as int];
            if ends_nl {
                assert(sv.skip(sv.len() - 1)[0] == '\n');
                assert(sv.last() == '\n');
            } else if sv.len() > 0 {
                if sv.last() == '\n' {
                    assert(sv.skip(sv.len() - 1) =~= "\n"@);
                }
            }
            let st = section_text(secs[i as int]);
            if i == 0 {
                assert(secs.take(1) =~= seq![secs[0]]);
                assert(md@ =~= before + st);
            } else {
                assert(md@ =~= before + "\n\n"@ + sep@ + "\n\n"@ + st);
            }
            assert(md@ =~= head + joined_sections(secs.take(i + 1), sep@));
        }
        i = i + 1;
    }
    proof {
        assert(secs.take(sections@.len() as int) =~= secs);
    }
    Ok(md)
}

proof fn lemma_total_words_prefix(secs: Seq<Seq<char>>, k: int)
    requires
        0 <= k <= secs.len(),
    ensures
        total_words(secs.take(k)) <= total_words(secs),
    decreases secs.len(),
{
    if k < secs.len() {
        assert(secs.drop_last().take(k) =~= secs.take(k));
        lemma_total_words_prefix(secs.drop_last(), k);
    } else {
        assert(secs.take(k) =~= secs);
    }
}

/// Whether the sections are in nondecreasing compile order.
pub open spec fn in_compile_order(s: Seq<(i32, Seq<char>)>) -> bool {
    forall|i: int, j: int| 0 <= i < j < s.len() ==> #[trigger] s[i].0 <= #[trigger] s[j].0
}

proof fn lemma_insert_bounded(s: Seq<(i32, Seq<char>)>, x: (i32, Seq<char>), b: i32)
    requires
        forall|i: int| 0 <= i < s.len() ==> #[trigger] s[i].0 <= b,
        x.0 <= b,
    ensures
        forall|i: int| 0 <= i < insert_by_order(s, x).len() ==> #[trigger] insert_by_order(s, x)[i].0 <= b,
        insert_by_order(s, x).len() == s.len() + 1,
    decreases s.len(),
{
    if s.len() > 0 && s.last().0 > x.0 {
        lemma_insert_bounded(s.drop_last(), x, b);
    }
}

proof fn lemma_insert_sorted(s: Seq<(i32, Seq<char>)>, x: (i32, Seq<char>))
    requires
        in_compile_order(s),
    ensures
        in_compile_order(insert_by_order(s, x)),
        insert_by_order(s, x).to_multiset() == s.to_multiset().insert(x),
    decreases s.len(),
{
    broadcast use vstd::seq_lib::to_multiset_build;
    if s.len() == 0 {
        assert(s =~= Seq::<(i32, Seq<char>)>::empty());
        assert(insert_by_order(s, x) =~= Seq::<(i32, Seq<char>)>::empty().push(x));
    } else if s.last().0 <= x.0 {
    } else {
        let d = s.drop_last();
        let l = s.last();
        lemma_insert_sorted(d, x);
        lemma_insert_bounded(d, x, l.0);
        assert(s =~= d.push(l));
        assert(insert_by_order(s, x).to_multiset() =~= s.to_multiset().insert(x));
    }
}

/// The order sections are compiled in is sorted by compile order and
/// holds exactly the sections it was given, each as often.
pub proof fn law_compile_order_sorts_sections(s: Seq<(i32, Seq<char>)>)
    ensures
        in_compile_order(by_compile_order(s)),
        by_compile_order(s).to_multiset() == s.to_multiset(),
    decreases s.len(),
{
    broadcast use vstd::seq_lib::to_multiset_build;
    if s.len() > 0 {
        law_compile_order_sorts_sections(s.drop_last());
        lemma_insert_sorted(by_compile_order(s.drop_last()), s.last());
        assert(s =~= s.drop_last().push(s.last()));
    } else {
        assert(by_compile_order(s) =~= s);
    }
}

/// Sections of equal compile order keep their binder order: placing a
/// section after a run that all come no later leaves that run in front.
pub proof fn law_compile_order_is_stable(s: Seq<(i32, Seq<char>)>, x: (i32, Seq<char>))
    requires
        forall|i: int| 0 <= i < s.len() ==> #[trigger] s[i].0 <= x.0,
    ensures
        by_compile_order(s.push(x)) == by_compile_order(s).push(x),
{
    law_compile_order_sorts_sections(s);
    let r = by_compile_order(s);
    assert(s.push(x).drop_last() =~= s);
    if r.len() > 0 {
        assert(r.to_multiset().count(r.last()) > 0) by {
            broadcast use vstd::seq_lib::to_multiset_contains;
            assert(r.contains(r.last()) ) by {
                assert(r[r.len() - 1] == r.last());
            }
        }
        assert(s.to_multiset().count(r.last()) > 0);
        broadcast use vstd::seq_lib::to_multiset_contains;
        assert(s.contains(r.last()));
    }
}

} // verus!
