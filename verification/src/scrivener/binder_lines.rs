//! The line structure of the binder XML: the text of a binder is a list of
//! lines, with one opening and one closing line per item, one `<Children>`
//! line per item that has children and one `<MetaData>` line per item that
//! has metadata.
use vstd::prelude::*;

use crate::scrivener::exporter::{escape_char, escape_text, flag_xml, indent_text, item_head, item_xml, items_xml, metadata_xml, opt_text, title_text};
use crate::scrivener::scrivx::{BinderItem, BinderMetadata};

verus! {

/// Lines written out one after the other, each followed by a line break.
pub open spec fn join_lines(ls: Seq<Seq<char>>) -> Seq<char>
    decreases ls.len(),
{
    if ls.len() == 0 {
        Seq::empty()
    } else {
        join_lines(ls.drop_last()) + ls.last() + "\n"@
    }
}

/// A line without its leading spaces.
pub open spec fn strip_indent(l: Seq<char>) -> Seq<char>
    decreases l.len(),
{
    if l.len() > 0 && l[0] == ' ' {
        strip_indent(l.drop_first())
    } else {
        l
    }
}

/// Whether `s` begins with `p`.
pub open spec fn begins_with(s: Seq<char>, p: Seq<char>) -> bool {
    p.len() <= s.len() && s.subrange(0, p.len() as int) == p
}

/// Whether `s` ends with `p`.
pub open spec fn ends_with(s: Seq<char>, p: Seq<char>) -> bool {
    p.len() <= s.len() && s.subrange(s.len() - p.len(), s.len() as int) == p
}

/// A line that opens an item: after its indentation it begins with
/// `<BinderItem UUID="`.
pub open spec fn opens_item(l: Seq<char>) -> bool {
    begins_with(strip_indent(l), "<BinderItem UUID=\""@)
}

/// A line that closes an item: it ends with `</BinderItem>`.
pub open spec fn closes_item(l: Seq<char>) -> bool {
    ends_with(l, "</BinderItem>"@)
}

/// A line that opens a list of children: `<Children>` after its indentation.
pub open spec fn opens_children(l: Seq<char>) -> bool {
    strip_indent(l) == "<Children>"@
}

/// A line that opens a metadata block: `<MetaData>` after its indentation.
pub open spec fn opens_metadata(l: Seq<char>) -> bool {
    strip_indent(l) == "<MetaData>"@
}

/// How many of the lines satisfy `p`.
pub open spec fn count_where(ls: Seq<Seq<char>>, p: spec_fn(Seq<char>) -> bool) -> nat
    decreases ls.len(),
{
    if ls.len() == 0 {
        0
    } else {
        count_where(ls.drop_last(), p) + if p(ls.last()) { 1nat } else { 0nat }
    }
}

/// The test of [`opens_item`], as a value.
pub open spec fn item_openings() -> spec_fn(Seq<char>) -> bool {
    |l: Seq<char>| opens_item(l)
}

/// The test of [`closes_item`], as a value.
pub open spec fn item_closings() -> spec_fn(Seq<char>) -> bool {
    |l: Seq<char>| closes_item(l)
}

/// The test of [`opens_children`], as a value.
pub open spec fn children_openings() -> spec_fn(Seq<char>) -> bool {
    |l: Seq<char>| opens_children(l)
}

/// The test of [`opens_metadata`], as a value.
pub open spec fn metadata_openings() -> spec_fn(Seq<char>) -> bool {
    |l: Seq<char>| opens_metadata(l)
}

/// The compile flag line of a metadata block, if the flag is set.
pub open spec fn flag_lines(flag: Option<String>, level: nat) -> Seq<Seq<char>> {
    match flag {
        Some(inc) => seq![indent_text(level + 2) + ("<IncludeInCompile>"@ + inc@ + "</IncludeInCompile>"@)],
        None => Seq::empty(),
    }
}

/// The lines of the metadata block of an item, if it has metadata.
pub open spec fn metadata_lines(md: Option<BinderMetadata>, level: nat) -> Seq<Seq<char>> {
    match md {
        Some(m) => seq![indent_text(level + 1) + "<MetaData>"@] + flag_lines(m.include_in_compile, level)
            + seq![indent_text(level + 1) + "</MetaData>"@],
        None => Seq::empty(),
    }
}

/// The opening line of an item.
pub open spec fn open_line(item: BinderItem, level: nat) -> Seq<char> {
    indent_text(level) + ("<BinderItem UUID=\""@ + item.uuid@ + "\" Type=\""@ + item.item_type@ + "\" Created=\""@
        + opt_text(item.created) + "\" Modified=\""@ + opt_text(item.modified) + "\">"@)
}

/// The title line of an item.
pub open spec fn title_line(item: BinderItem, level: nat) -> Seq<char> {
    indent_text(level + 1) + ("<Title>"@ + escape_text(title_text(item.title)) + "</Title>"@)
}

/// The pieces of a text between its line breaks, empty pieces included
/// (so there is always at least one piece).
pub open spec fn split_breaks(s: Seq<char>) -> Seq<Seq<char>>
    decreases s.len(),
{
    if s.len() == 0 {
        seq![Seq::empty()]
    } else {
        let p = split_breaks(s.drop_last());
        if s.last() == '\n' {
            p.push(Seq::empty())
        } else {
            p.update(p.len() - 1, p.last().push(s.last()))
        }
    }
}

/// The lines the title line of an item makes: one when the escaped title
/// holds no line break, else one more for each line break it holds.
pub open spec fn title_lines(item: BinderItem, level: nat) -> Seq<Seq<char>> {
    let es = split_breaks(escape_text(title_text(item.title)));
    if es.len() <= 1 {
        seq![title_line(item, level)]
    } else {
        seq![indent_text(level + 1) + ("<Title>"@ + es[0])] + es.subrange(1, es.len() - 1)
            + seq![es.last() + "</Title>"@]
    }
}

/// The lines of one binder item at an indent level.
pub open spec fn item_lines(item: BinderItem, level: nat) -> Seq<Seq<char>>
    decreases item, 1int,
{
    seq![open_line(item, level)] + title_lines(item, level) + metadata_lines(item.metadata, level) + (
    if item.children.items@.len() > 0 {
        seq![indent_text(level + 1) + "<Children>"@] + items_lines(item.children.items@, level + 2)
            + seq![indent_text(level + 1) + "</Children>"@]
    } else {
        Seq::empty()
    }) + seq![indent_text(level) + "</BinderItem>"@]
}

/// The lines of a sequence of binder items, one item after the other.
pub open spec fn items_lines(items: Seq<BinderItem>, level: nat) -> Seq<Seq<char>>
    decreases items, 0int,
{
    if items.len() == 0 {
        Seq::empty()
    } else {
        items_lines(items.drop_last(), level) + item_lines(items.last(), level)
    }
}

/// How many items there are in an item's subtree, itself included.
pub open spec fn item_total(item: BinderItem) -> nat
    decreases item, 1int,
{
    1 + items_total(item.children.items@)
}

/// How many items there are in a sequence of items, at every depth.
pub open spec fn items_total(items: Seq<BinderItem>) -> nat
    decreases items, 0int,
{
    if items.len() == 0 {
        0
    } else {
        items_total(items.drop_last()) + item_total(items.last())
    }
}

/// How many items of an item's subtree have children.
pub open spec fn item_parents(item: BinderItem) -> nat
    decreases item, 1int,
{
    (if item.children.items@.len() > 0 { 1nat } else { 0nat }) + items_parents(item.children.items@)
}

/// How many items of a sequence of items, at every depth, have children.
pub open spec fn items_parents(items: Seq<BinderItem>) -> nat
    decreases items, 0int,
{
    if items.len() == 0 {
        0
    } else {
        items_parents(items.drop_last()) + item_parents(items.last())
    }
}

/// How many items of an item's subtree have metadata.
pub open spec fn item_with_metadata(item: BinderItem) -> nat
    decreases item, 1int,
{
    (if item.metadata is Some { 1nat } else { 0nat }) + items_with_metadata(item.children.items@)
}

/// How many items of a sequence of items, at every depth, have metadata.
pub open spec fn items_with_metadata(items: Seq<BinderItem>) -> nat
    decreases items, 0int,
{
    if items.len() == 0 {
        0
    } else {
        items_with_metadata(items.drop_last()) + item_with_metadata(items.last())
    }
}

proof fn lemma_join_add(a: Seq<Seq<char>>, b: Seq<Seq<char>>)
    ensures
        join_lines(a + b) == join_lines(a) + join_lines(b),
    decreases b.len(),
{
    if b.len() == 0 {
        assert(a + b =~= a);
        assert(join_lines(a) + join_lines(b) =~= join_lines(a));
    } else {
        assert((a + b).drop_last() =~= a + b.drop_last());
        lemma_join_add(a, b.drop_last());
        assert(join_lines(a + b) =~= join_lines(a) + join_lines(b));
    }
}

proof fn lemma_count_add(a: Seq<Seq<char>>, b: Seq<Seq<char>>, p: spec_fn(Seq<char>) -> bool)
    ensures
        count_where(a + b, p) == count_where(a, p) + count_where(b, p),
    decreases b.len(),
{
    if b.len() == 0 {
        assert(a + b =~= a);
    } else {
        assert((a + b).drop_last() =~= a + b.drop_last());
        lemma_count_add(a, b.drop_last(), p);
    }
}

proof fn lemma_join_one(x: Seq<char>)
    ensures
        join_lines(seq![x]) == x + "\n"@,
{
    let one = seq![x];
    assert(one.len() == 1 && one.last() == x);
    assert(one.drop_last() =~= Seq::<Seq<char>>::empty());
    assert(join_lines(one.drop_last()) == Seq::<char>::empty());
    assert(join_lines(one) =~= x + "\n"@);
}

proof fn lemma_count_one(x: Seq<char>, p: spec_fn(Seq<char>) -> bool)
    ensures
        count_where(seq![x], p) == if p(x) { 1nat } else { 0nat },
{
    let one = seq![x];
    assert(one.len() == 1 && one.last() == x);
    assert(one.drop_last() =~= Seq::<Seq<char>>::empty());
    assert(count_where(one.drop_last(), p) == 0);
}

proof fn lemma_indent_spaces(k: nat)
    ensures
        forall|i: int| 0 <= i < indent_text(k).len() ==> indent_text(k)[i] == ' ',
    decreases k,
{
    reveal_strlit("    ");
    if k > 0 {
        let prev = indent_text((k - 1) as nat);
        lemma_indent_spaces((k - 1) as nat);
        assert(indent_text(k) == prev + "    "@);
        assert forall|i: int| 0 <= i < indent_text(k).len() implies indent_text(k)[i] == ' ' by {
            if i < prev.len() {
                assert(indent_text(k)[i] == prev[i]);
            } else {
                assert(indent_text(k)[i] == "    "@[i - prev.len()]);
            }
        }
    }
}

proof fn lemma_strip_spaces(s: Seq<char>, r: Seq<char>)
    requires
        forall|i: int| 0 <= i < s.len() ==> s[i] == ' ',
        r.len() > 0,
        r[0] == '<',
    ensures
        strip_indent(s + r) == r,
    decreases s.len(),
{
    if s.len() == 0 {
        assert(s + r =~= r);
    } else {
        assert((s + r).drop_first() =~= s.drop_first() + r);
        lemma_strip_spaces(s.drop_first(), r);
    }
}

/// What the kind of a line `indent + r` comes to, for a rest `r` that
/// begins with a tag.
proof fn lemma_line_kind(k: nat, r: Seq<char>)
    requires
        r.len() >= 2,
        r[0] == '<',
    ensures
        opens_item(indent_text(k) + r) == begins_with(r, "<BinderItem UUID=\""@),
        opens_children(indent_text(k) + r) == (r == "<Children>"@),
        opens_metadata(indent_text(k) + r) == (r == "<MetaData>"@),
        begins_with(r, "<BinderItem UUID=\""@) ==> r[1] == 'B',
        r == "<Children>"@ ==> r[1] == 'C',
        r == "<MetaData>"@ ==> r[1] == 'M',
        closes_item(indent_text(k) + r) ==> r[r.len() - 2] == 'm' && r[r.len() - 1] == '>',
{
    reveal_strlit("<BinderItem UUID=\"");
    reveal_strlit("<Children>");
    reveal_strlit("<MetaData>");
    reveal_strlit("</BinderItem>");
    lemma_indent_spaces(k);
    lemma_strip_spaces(indent_text(k), r);
    if begins_with(r, "<BinderItem UUID=\""@) {
        assert(r.subrange(0, 18)[1] == r[1]);
    }
    let l = indent_text(k) + r;
    if closes_item(l) {
        assert(l.subrange(l.len() - 13, l.len() as int)[11] == l[l.len() - 2]);
        assert(l.subrange(l.len() - 13, l.len() as int)[12] == l[l.len() - 1]);
        assert(l[l.len() - 2] == r[r.len() - 2]);
        assert(l[l.len() - 1] == r[r.len() - 1]);
    }
}

proof fn lemma_close_line(k: nat)
    ensures
        closes_item(indent_text(k) + "</BinderItem>"@),
{
    reveal_strlit("</BinderItem>");
    let l = indent_text(k) + "</BinderItem>"@;
    assert(l.subrange(l.len() - 13, l.len() as int) =~= "</BinderItem>"@);
}


proof fn lemma_join_two(x: Seq<char>, y: Seq<char>)
    ensures
        join_lines(seq![x, y]) == x + "\n"@ + y + "\n"@,
{
    let two = seq![x, y];
    assert(two.drop_last() =~= seq![x]);
    lemma_join_one(x);
    assert(join_lines(two) =~= x + "\n"@ + y + "\n"@);
}

proof fn lemma_head_xml(item: BinderItem, level: nat)
    ensures
        join_lines(seq![open_line(item, level)] + title_lines(item, level)) == item_head(item, indent_text(level)),
{
    reveal_strlit("\n");
    reveal_strlit("    ");
    reveal_strlit("\">");
    reveal_strlit("\">\n");
    reveal_strlit("    <Title>");
    reveal_strlit("<Title>");
    reveal_strlit("</Title>");
    reveal_strlit("</Title>\n");
    let ind = indent_text(level);
    assert(indent_text(level + 1) == ind + "    "@);
    lemma_join_two(open_line(item, level), title_line(item, level));
    lemma_join_one(open_line(item, level));
    lemma_title_lines(item, level);
    lemma_join_add(seq![open_line(item, level)], title_lines(item, level));
    assert(join_lines(seq![open_line(item, level)] + title_lines(item, level)) =~= item_head(item, ind));
}

proof fn lemma_meta_xml(md: Option<BinderMetadata>, level: nat)
    ensures
        join_lines(metadata_lines(md, level)) == metadata_xml(md, indent_text(level)),
{
    reveal_strlit("\n");
    reveal_strlit("    ");
    reveal_strlit("<MetaData>");
    reveal_strlit("    <MetaData>\n");
    reveal_strlit("</MetaData>");
    reveal_strlit("    </MetaData>\n");
    reveal_strlit("<IncludeInCompile>");
    reveal_strlit("        <IncludeInCompile>");
    reveal_strlit("</IncludeInCompile>");
    reveal_strlit("</IncludeInCompile>\n");
    let ind = indent_text(level);
    assert(indent_text(level + 1) == ind + "    "@);
    assert(indent_text(level + 2) == indent_text(level + 1) + "    "@);
    match md {
        Some(m) => {
            let m0 = seq![indent_text(level + 1) + "<MetaData>"@];
            let fl = flag_lines(m.include_in_compile, level);
            let m1 = seq![indent_text(level + 1) + "</MetaData>"@];
            lemma_join_add(m0 + fl, m1);
            lemma_join_add(m0, fl);
            lemma_join_one(indent_text(level + 1) + "<MetaData>"@);
            lemma_join_one(indent_text(level + 1) + "</MetaData>"@);
            match m.include_in_compile {
                Some(inc) => {
                    let f = indent_text(level + 2) + ("<IncludeInCompile>"@ + inc@ + "</IncludeInCompile>"@);
                    lemma_join_one(f);
                    assert(join_lines(fl) =~= flag_xml(m.include_in_compile, ind));
                },
                None => {
                    assert(join_lines(fl) =~= flag_xml(m.include_in_compile, ind));
                },
            }
            assert(join_lines(metadata_lines(md, level)) =~= metadata_xml(md, ind));
        },
        None => {},
    }
}

proof fn lemma_item_xml(item: BinderItem, level: nat)
    ensures
        item_xml(item, level) == join_lines(item_lines(item, level)),
    decreases item, 1int,
{
    reveal_strlit("\n");
    reveal_strlit("    ");
    reveal_strlit("<Children>");
    reveal_strlit("    <Children>\n");
    reveal_strlit("</Children>");
    reveal_strlit("    </Children>\n");
    reveal_strlit("</BinderItem>");
    reveal_strlit("</BinderItem>\n");
    let ind = indent_text(level);
    assert(indent_text(level + 1) == ind + "    "@);
    let head = seq![open_line(item, level)] + title_lines(item, level);
    let meta = metadata_lines(item.metadata, level);
    let kids = if item.children.items@.len() > 0 {
        seq![indent_text(level + 1) + "<Children>"@] + items_lines(item.children.items@, level + 2)
            + seq![indent_text(level + 1) + "</Children>"@]
    } else {
        Seq::empty()
    };
    let close = seq![ind + "</BinderItem>"@];
    assert(item_lines(item, level) == head + meta + kids + close);
    lemma_join_add(head + meta + kids, close);
    lemma_join_add(head + meta, kids);
    lemma_join_add(head, meta);
    lemma_head_xml(item, level);
    lemma_meta_xml(item.metadata, level);
    lemma_join_one(ind + "</BinderItem>"@);
    let kids_xml = if item.children.items@.len() > 0 {
        ind + "    <Children>\n"@ + items_xml(item.children.items@, level + 2) + ind + "    </Children>\n"@
    } else {
        Seq::empty()
    };
    if item.children.items@.len() > 0 {
        let c0 = seq![indent_text(level + 1) + "<Children>"@];
        let inner = items_lines(item.children.items@, level + 2);
        let c1 = seq![indent_text(level + 1) + "</Children>"@];
        lemma_join_add(c0 + inner, c1);
        lemma_join_add(c0, inner);
        lemma_join_one(indent_text(level + 1) + "<Children>"@);
        lemma_join_one(indent_text(level + 1) + "</Children>"@);
        lemma_items_xml(item.children.items@, level + 2);
        assert(join_lines(kids) =~= kids_xml);
    } else {
        assert(join_lines(kids) =~= kids_xml);
    }
    assert(item_xml(item, level) =~= join_lines(item_lines(item, level)));
}

proof fn lemma_items_xml(items: Seq<BinderItem>, level: nat)
    ensures
        items_xml(items, level) == join_lines(items_lines(items, level)),
    decreases items, 0int,
{
    if items.len() > 0 {
        lemma_items_xml(items.drop_last(), level);
        lemma_item_xml(items.last(), level);
        lemma_join_add(items_lines(items.drop_last(), level), item_lines(items.last(), level));
    }
}


/// The four counts of a list of lines: item openings, item closings,
/// `<Children>` lines and `<MetaData>` lines.
pub open spec fn line_counts(ls: Seq<Seq<char>>) -> (nat, nat, nat, nat) {
    (count_where(ls, item_openings()), count_where(ls, item_closings()),
        count_where(ls, children_openings()), count_where(ls, metadata_openings()))
}

proof fn lemma_counts_add(a: Seq<Seq<char>>, b: Seq<Seq<char>>)
    ensures
        line_counts(a + b).0 == line_counts(a).0 + line_counts(b).0,
        line_counts(a + b).1 == line_counts(a).1 + line_counts(b).1,
        line_counts(a + b).2 == line_counts(a).2 + line_counts(b).2,
        line_counts(a + b).3 == line_counts(a).3 + line_counts(b).3,
{
    lemma_count_add(a, b, item_openings());
    lemma_count_add(a, b, item_closings());
    lemma_count_add(a, b, children_openings());
    lemma_count_add(a, b, metadata_openings());
}

/// The counts of a single line `indent + r`, for a rest `r` that begins
/// with `<` and a second character other than those of the other tags.
proof fn lemma_counts_plain(k: nat, r: Seq<char>)
    requires
        r.len() >= 2,
        r[0] == '<',
        r[1] != 'B' && r[1] != 'C' && r[1] != 'M',
        !(r[r.len() - 2] == 'm' && r[r.len() - 1] == '>'),
    ensures
        line_counts(seq![indent_text(k) + r]) == (0nat, 0nat, 0nat, 0nat),
{
    let l = indent_text(k) + r;
    lemma_line_kind(k, r);
    lemma_count_one(l, item_openings());
    lemma_count_one(l, item_closings());
    lemma_count_one(l, children_openings());
    lemma_count_one(l, metadata_openings());
}

proof fn lemma_head_counts(item: BinderItem, level: nat)
    ensures
        line_counts(seq![open_line(item, level)] + title_lines(item, level)) == (1nat, 0nat, 0nat, 0nat),
{
    reveal_strlit("<BinderItem UUID=\"");
    reveal_strlit("\">");
    reveal_strlit("<Title>");
    reveal_strlit("</Title>");
    let a = "<BinderItem UUID=\""@;
    let r = a + item.uuid@ + "\" Type=\""@ + item.item_type@ + "\" Created=\""@
        + opt_text(item.created) + "\" Modified=\""@ + opt_text(item.modified) + "\">"@;
    assert(open_line(item, level) == indent_text(level) + r);
    let rest = item.uuid@ + "\" Type=\""@ + item.item_type@ + "\" Created=\""@
        + opt_text(item.created) + "\" Modified=\""@ + opt_text(item.modified) + "\">"@;
    assert(r =~= a + rest);
    assert((a + rest).subrange(0, 18) =~= a);
    lemma_line_kind(level, r);
    let o = open_line(item, level);
    lemma_count_one(o, item_openings());
    lemma_count_one(o, item_closings());
    lemma_count_one(o, children_openings());
    lemma_count_one(o, metadata_openings());
    lemma_title_lines(item, level);
    lemma_counts_add(seq![o], title_lines(item, level));
}

proof fn lemma_meta_counts(md: Option<BinderMetadata>, level: nat)
    ensures
        line_counts(metadata_lines(md, level)) == (0nat, 0nat, 0nat, if md is Some { 1nat } else { 0nat }),
{
    reveal_strlit("<MetaData>");
    reveal_strlit("</MetaData>");
    reveal_strlit("<IncludeInCompile>");
    reveal_strlit("</IncludeInCompile>");
    match md {
        Some(m) => {
            let l0 = indent_text(level + 1) + "<MetaData>"@;
            let m0 = seq![l0];
            let fl = flag_lines(m.include_in_compile, level);
            let m1 = seq![indent_text(level + 1) + "</MetaData>"@];
            lemma_counts_add(m0 + fl, m1);
            lemma_counts_add(m0, fl);
            lemma_line_kind(level + 1, "<MetaData>"@);
            lemma_count_one(l0, item_openings());
            lemma_count_one(l0, item_closings());
            lemma_count_one(l0, children_openings());
            lemma_count_one(l0, metadata_openings());
            lemma_counts_plain(level + 1, "</MetaData>"@);
            match m.include_in_compile {
                Some(inc) => {
                    lemma_counts_plain(level + 2, "<IncludeInCompile>"@ + inc@ + "</IncludeInCompile>"@);
                },
                None => {
                    assert(line_counts(fl) == (0nat, 0nat, 0nat, 0nat));
                },
            }
        },
        None => {
            assert(line_counts(metadata_lines(md, level)) == (0nat, 0nat, 0nat, 0nat));
        },
    }
}

proof fn lemma_item_counts(item: BinderItem, level: nat)
    ensures
        line_counts(item_lines(item, level)) == (item_total(item), item_total(item), item_parents(item),
            item_with_metadata(item)),
    decreases item, 1int,
{
    reveal_strlit("<Children>");
    reveal_strlit("</Children>");
    reveal_strlit("</BinderItem>");
    let ind = indent_text(level);
    let head = seq![open_line(item, level)] + title_lines(item, level);
    let meta = metadata_lines(item.metadata, level);
    let kids = if item.children.items@.len() > 0 {
        seq![indent_text(level + 1) + "<Children>"@] + items_lines(item.children.items@, level + 2)
            + seq![indent_text(level + 1) + "</Children>"@]
    } else {
        Seq::empty()
    };
    let close_line = ind + "</BinderItem>"@;
    let close = seq![close_line];
    assert(item_lines(item, level) == head + meta + kids + close);
    lemma_counts_add(head + meta + kids, close);
    lemma_counts_add(head + meta, kids);
    lemma_counts_add(head, meta);
    lemma_head_counts(item, level);
    lemma_meta_counts(item.metadata, level);
    lemma_line_kind(level, "</BinderItem>"@);
    lemma_close_line(level);
    lemma_count_one(close_line, item_openings());
    lemma_count_one(close_line, item_closings());
    lemma_count_one(close_line, children_openings());
    lemma_count_one(close_line, metadata_openings());
    let ch = item.children.items@;
    if ch.len() > 0 {
        let c0l = indent_text(level + 1) + "<Children>"@;
        let c0 = seq![c0l];
        let inner = items_lines(ch, level + 2);
        let c1 = seq![indent_text(level + 1) + "</Children>"@];
        lemma_counts_add(c0 + inner, c1);
        lemma_counts_add(c0, inner);
        lemma_line_kind(level + 1, "<Children>"@);
        lemma_count_one(c0l, item_openings());
        lemma_count_one(c0l, item_closings());
        lemma_count_one(c0l, children_openings());
        lemma_count_one(c0l, metadata_openings());
        lemma_counts_plain(level + 1, "</Children>"@);
        lemma_items_counts(ch, level + 2);
    } else {
        assert(line_counts(kids) == (0nat, 0nat, 0nat, 0nat));
        assert(items_total(ch) == 0 && items_parents(ch) == 0 && items_with_metadata(ch) == 0);
    }
}

proof fn lemma_items_counts(items: Seq<BinderItem>, level: nat)
    ensures
        line_counts(items_lines(items, level)) == (items_total(items), items_total(items), items_parents(items),
            items_with_metadata(items)),
    decreases items, 0int,
{
    if items.len() > 0 {
        lemma_items_counts(items.drop_last(), level);
        lemma_item_counts(items.last(), level);
        lemma_counts_add(items_lines(items.drop_last(), level), item_lines(items.last(), level));
    } else {
        assert(line_counts(items_lines(items, level)) == (0nat, 0nat, 0nat, 0nat));
    }
}


/// A text without a line break.
pub open spec fn no_break(s: Seq<char>) -> bool {
    forall|i: int| 0 <= i < s.len() ==> s[i] != '\n'
}

/// Lines none of which holds a line break.
pub open spec fn all_unbroken(ls: Seq<Seq<char>>) -> bool {
    forall|i: int| 0 <= i < ls.len() ==> #[trigger] no_break(ls[i])
}

/// No identifier, type, time or compile flag of the item or of any item
/// below it holds a line break.
pub open spec fn item_unbroken(item: BinderItem) -> bool
    decreases item, 1int,
{
    &&& no_break(item.uuid@) && no_break(item.item_type@)
    &&& no_break(opt_text(item.created)) && no_break(opt_text(item.modified))
    &&& (match item.metadata {
        Some(m) => no_break(opt_text(m.include_in_compile)),
        None => true,
    })
    &&& items_unbroken(item.children.items@)
}

/// [`item_unbroken`] of each item of a sequence.
pub open spec fn items_unbroken(items: Seq<BinderItem>) -> bool
    decreases items, 0int,
{
    if items.len() == 0 {
        true
    } else {
        items_unbroken(items.drop_last()) && item_unbroken(items.last())
    }
}

proof fn lemma_indent_unbroken(k: nat)
    ensures
        no_break(indent_text(k)),
{
    lemma_indent_spaces(k);
}

proof fn lemma_item_unbroken(item: BinderItem, level: nat)
    requires
        item_unbroken(item),
    ensures
        all_unbroken(item_lines(item, level)),
    decreases item, 1int,
{
    reveal_strlit("<BinderItem UUID=\"");
    reveal_strlit("\" Type=\"");
    reveal_strlit("\" Created=\"");
    reveal_strlit("\" Modified=\"");
    reveal_strlit("\">");
    reveal_strlit("<Title>");
    reveal_strlit("</Title>");
    reveal_strlit("<MetaData>");
    reveal_strlit("</MetaData>");
    reveal_strlit("<IncludeInCompile>");
    reveal_strlit("</IncludeInCompile>");
    reveal_strlit("<Children>");
    reveal_strlit("</Children>");
    reveal_strlit("</BinderItem>");
    lemma_indent_unbroken(level);
    lemma_indent_unbroken(level + 1);
    lemma_indent_unbroken(level + 2);
    assert(no_break(open_line(item, level)));
    lemma_title_lines(item, level);
    let head = seq![open_line(item, level)] + title_lines(item, level);
    assert(all_unbroken(head)) by {
        let tl = title_lines(item, level);
        assert forall|i: int| 0 <= i < head.len() implies #[trigger] no_break(head[i]) by {
            if i > 0 {
                assert(head[i] == tl[i - 1]);
            }
        }
    }
    let meta = metadata_lines(item.metadata, level);
    match item.metadata {
        Some(m) => {
            match m.include_in_compile {
                Some(inc) => {
                    assert(opt_text(m.include_in_compile) == inc@);
                    assert(no_break(indent_text(level + 2) + ("<IncludeInCompile>"@ + inc@ + "</IncludeInCompile>"@)));
                },
                None => {},
            }
            assert(no_break(indent_text(level + 1) + "<MetaData>"@));
            assert(no_break(indent_text(level + 1) + "</MetaData>"@));
        },
        None => {},
    }
    assert(all_unbroken(meta));
    let ch = item.children.items@;
    let kids = if ch.len() > 0 {
        seq![indent_text(level + 1) + "<Children>"@] + items_lines(ch, level + 2)
            + seq![indent_text(level + 1) + "</Children>"@]
    } else {
        Seq::empty()
    };
    if ch.len() > 0 {
        lemma_items_unbroken(ch, level + 2);
        assert(no_break(indent_text(level + 1) + "<Children>"@));
        assert(no_break(indent_text(level + 1) + "</Children>"@));
    }
    assert(all_unbroken(kids));
    assert(no_break(indent_text(level) + "</BinderItem>"@));
    let close = seq![indent_text(level) + "</BinderItem>"@];
    assert(item_lines(item, level) == head + meta + kids + close);
    assert(all_unbroken(head + meta + kids + close));
}

proof fn lemma_items_unbroken(items: Seq<BinderItem>, level: nat)
    requires
        items_unbroken(items),
    ensures
        all_unbroken(items_lines(items, level)),
    decreases items, 0int,
{
    if items.len() > 0 {
        lemma_items_unbroken(items.drop_last(), level);
        lemma_item_unbroken(items.last(), level);
        let a = items_lines(items.drop_last(), level);
        let b = item_lines(items.last(), level);
        assert(all_unbroken(a + b));
    }
}

/// The binder XML at an indent level is a list of lines: one line opening
/// each item (`<BinderItem UUID="` after its indentation) and one closing
/// it (ending in `</BinderItem>`), at every depth; one `<Children>` line
/// for each item that has children and one `<MetaData>` line for each item
/// that has metadata; each item's escaped title stands between `<Title>`
/// and `</Title>`, over as many lines as the title has line breaks plus one.
/// When no identifier, type, time or compile flag holds a line break, no
/// line does, so these are the lines of the text itself, whatever the
/// titles hold.
pub proof fn law_binder_xml_lines(items: Seq<BinderItem>, level: nat)
    ensures
        items_xml(items, level) == join_lines(items_lines(items, level)),
        count_where(items_lines(items, level), item_openings()) == items_total(items),
        count_where(items_lines(items, level), item_closings()) == items_total(items),
        count_where(items_lines(items, level), children_openings()) == items_parents(items),
        count_where(items_lines(items, level), metadata_openings()) == items_with_metadata(items),
        items_unbroken(items) ==> all_unbroken(items_lines(items, level)),
{
    lemma_items_xml(items, level);
    lemma_items_counts(items, level);
    if items_unbroken(items) {
        lemma_items_unbroken(items, level);
    }
}


/// A text without angle brackets.
pub open spec fn tagless(s: Seq<char>) -> bool {
    forall|i: int| 0 <= i < s.len() ==> s[i] != '<' && s[i] != '>'
}

proof fn lemma_escape_tagless(t: Seq<char>)
    ensures
        tagless(escape_text(t)),
    decreases t.len(),
{
    reveal_strlit("&amp;");
    reveal_strlit("&lt;");
    reveal_strlit("&gt;");
    reveal_strlit("&quot;");
    reveal_strlit("&apos;");
    if t.len() > 0 {
        lemma_escape_tagless(t.drop_last());
        let e = escape_char(t.last());
        assert(tagless(e));
        let a = escape_text(t.drop_last());
        assert(escape_text(t) == a + e);
        assert(tagless(a + e)) by {
            assert forall|i: int| 0 <= i < (a + e).len() implies (a + e)[i] != '<' && (a + e)[i] != '>' by {
                if i < a.len() {
                    assert((a + e)[i] == a[i]);
                } else {
                    assert((a + e)[i] == e[i - a.len()]);
                }
            }
        }
    }
}

proof fn lemma_split_breaks(s: Seq<char>)
    ensures
        split_breaks(s).len() >= 1,
        join_lines(split_breaks(s)) == s + "\n"@,
        all_unbroken(split_breaks(s)),
        tagless(s) ==> forall|i: int| 0 <= i < split_breaks(s).len() ==> tagless(#[trigger] split_breaks(s)[i]),
    decreases s.len(),
{
    reveal_strlit("\n");
    if s.len() == 0 {
        lemma_join_one(Seq::<char>::empty());
        assert(Seq::<char>::empty() + "\n"@ =~= s + "\n"@);
        assert(no_break(split_breaks(s)[0]));
    } else {
        let t = s.drop_last();
        let c = s.last();
        lemma_split_breaks(t);
        let p = split_breaks(t);
        assert(s =~= t.push(c));
        if c == '\n' {
            let q = p.push(Seq::<char>::empty());
            assert(q.drop_last() =~= p);
            assert(join_lines(q) =~= s + "\n"@);
            assert forall|i: int| 0 <= i < q.len() implies #[trigger] no_break(q[i]) by {
                if i < p.len() {
                    assert(q[i] == p[i]);
                }
            }
            if tagless(s) {
                assert(tagless(t));
                assert forall|i: int| 0 <= i < q.len() implies tagless(#[trigger] q[i]) by {
                    if i < p.len() {
                        assert(q[i] == p[i]);
                    }
                }
            }
        } else {
            let last = p.last().push(c);
            let q = p.update(p.len() - 1, last);
            assert(q.drop_last() =~= p.drop_last());
            assert(q.last() == last);
            let a = join_lines(p.drop_last()) + p.last();
            assert(join_lines(p) == a + "\n"@);
            assert(a =~= t) by {
                assert((a + "\n"@).len() == (t + "\n"@).len());
                assert forall|i: int| 0 <= i < a.len() implies a[i] == t[i] by {
                    assert((a + "\n"@)[i] == a[i]);
                    assert((t + "\n"@)[i] == t[i]);
                }
            }
            assert(join_lines(q) == join_lines(p.drop_last()) + last + "\n"@);
            assert(join_lines(q) =~= s + "\n"@);
            assert(no_break(p[p.len() - 1]));
            assert forall|i: int| 0 <= i < q.len() implies #[trigger] no_break(q[i]) by {
                if i < p.len() - 1 {
                    assert(q[i] == p[i]);
                } else {
                    assert(q[i] == last);
                    assert forall|j: int| 0 <= j < last.len() implies last[j] != '\n' by {
                        if j < p.last().len() {
                            assert(last[j] == p.last()[j]);
                        }
                    }
                }
            }
            if tagless(s) {
                assert(tagless(t));
                assert(tagless(p[p.len() - 1]));
                assert forall|i: int| 0 <= i < q.len() implies tagless(#[trigger] q[i]) by {
                    if i < p.len() - 1 {
                        assert(q[i] == p[i]);
                    } else {
                        assert(q[i] == last);
                        assert forall|j: int| 0 <= j < last.len() implies last[j] != '<' && last[j] != '>' by {
                            if j < p.last().len() {
                                assert(last[j] == p.last()[j]);
                            }
                        }
                    }
                }
            }
        }
    }
}

proof fn lemma_strip_tagless(x: Seq<char>)
    requires
        tagless(x),
    ensures
        strip_indent(x).len() == 0 || strip_indent(x)[0] != '<',
    decreases x.len(),
{
    if x.len() > 0 && x[0] == ' ' {
        assert(tagless(x.drop_first())) by {
            assert forall|i: int| 0 <= i < x.drop_first().len() implies x.drop_first()[i] != '<' && x.drop_first()[i] != '>' by {
                assert(x.drop_first()[i] == x[i + 1]);
            }
        }
        lemma_strip_tagless(x.drop_first());
    }
}

proof fn lemma_strip_before_tag(y: Seq<char>, r: Seq<char>)
    requires
        tagless(y),
        r.len() > 0,
        r[0] == '<',
    ensures
        strip_indent(y + r) == r || (strip_indent(y + r).len() > 0 && strip_indent(y + r)[0] != '<'),
    decreases y.len(),
{
    if y.len() == 0 {
        assert(y + r =~= r);
    } else if y[0] == ' ' {
        assert((y + r).drop_first() =~= y.drop_first() + r);
        assert(tagless(y.drop_first())) by {
            assert forall|i: int| 0 <= i < y.drop_first().len() implies y.drop_first()[i] != '<' && y.drop_first()[i] != '>' by {
                assert(y.drop_first()[i] == y[i + 1]);
            }
        }
        lemma_strip_before_tag(y.drop_first(), r);
    } else {
        assert((y + r)[0] == y[0]);
    }
}

/// The counts of one line whose text after the indentation does not begin
/// with `<` and which does not end with `</BinderItem>`.
proof fn lemma_counts_untagged(x: Seq<char>)
    requires
        strip_indent(x).len() == 0 || strip_indent(x)[0] != '<' || (strip_indent(x).len() >= 2
            && strip_indent(x)[1] != 'B' && strip_indent(x)[1] != 'C' && strip_indent(x)[1] != 'M'),
        !closes_item(x),
    ensures
        line_counts(seq![x]) == (0nat, 0nat, 0nat, 0nat),
{
    reveal_strlit("<BinderItem UUID=\"");
    reveal_strlit("<Children>");
    reveal_strlit("<MetaData>");
    let st = strip_indent(x);
    if begins_with(st, "<BinderItem UUID=\""@) {
        assert(st.subrange(0, 18)[0] == st[0]);
        assert(st.subrange(0, 18)[1] == st[1]);
    }
    lemma_count_one(x, item_openings());
    lemma_count_one(x, item_closings());
    lemma_count_one(x, children_openings());
    lemma_count_one(x, metadata_openings());
}

proof fn lemma_not_closing(x: Seq<char>)
    requires
        x.len() == 0 || x[x.len() - 1] != '>' || (x.len() >= 2 && x[x.len() - 2] != 'm'),
    ensures
        !closes_item(x),
{
    reveal_strlit("</BinderItem>");
    if closes_item(x) {
        assert(x.subrange(x.len() - 13, x.len() as int)[12] == x[x.len() - 1]);
        assert(x.subrange(x.len() - 13, x.len() as int)[11] == x[x.len() - 2]);
    }
}

proof fn lemma_counts_tagless_lines(ls: Seq<Seq<char>>)
    requires
        forall|i: int| 0 <= i < ls.len() ==> tagless(#[trigger] ls[i]),
    ensures
        line_counts(ls) == (0nat, 0nat, 0nat, 0nat),
    decreases ls.len(),
{
    if ls.len() > 0 {
        let x = ls.last();
        assert(tagless(ls[ls.len() - 1]));
        lemma_counts_tagless_lines(ls.drop_last());
        lemma_strip_tagless(x);
        lemma_not_closing(x);
        lemma_counts_untagged(x);
        assert(ls =~= ls.drop_last() + seq![x]);
        lemma_counts_add(ls.drop_last(), seq![x]);
    } else {
        assert(line_counts(ls) == (0nat, 0nat, 0nat, 0nat));
    }
}

proof fn lemma_title_lines(item: BinderItem, level: nat)
    ensures
        join_lines(title_lines(item, level)) == title_line(item, level) + "\n"@,
        line_counts(title_lines(item, level)) == (0nat, 0nat, 0nat, 0nat),
        all_unbroken(title_lines(item, level)),
{
    reveal_strlit("\n");
    reveal_strlit("<Title>");
    reveal_strlit("</Title>");
    let e = escape_text(title_text(item.title));
    let es = split_breaks(e);
    let ind = indent_text(level + 1);
    lemma_escape_tagless(title_text(item.title));
    lemma_split_breaks(e);
    lemma_indent_unbroken(level + 1);
    if es.len() <= 1 {
        let x = title_line(item, level);
        lemma_join_one(x);
        let r = "<Title>"@ + e + "</Title>"@;
        assert(x == ind + r);
        lemma_counts_plain(level + 1, r);
        assert(es[0] + "\n"@ == e + "\n"@) by {
            lemma_join_one(es[0]);
            assert(es =~= seq![es[0]]);
        }
        assert(e =~= es[0]) by {
            assert forall|i: int| 0 <= i < e.len() implies e[i] == es[0][i] by {
                assert((e + "\n"@)[i] == e[i]);
                assert((es[0] + "\n"@)[i] == es[0][i]);
            }
        }
        assert(no_break(es[0]));
        assert(no_break(x));
        assert(all_unbroken(seq![x]));
    } else {
        let n = es.len();
        let first = ind + ("<Title>"@ + es[0]);
        let mid = es.subrange(1, n - 1);
        let last = es.last() + "</Title>"@;
        let tl = seq![first] + mid + seq![last];
        assert(title_lines(item, level) == tl);
        // the joined text
        assert(es =~= seq![es[0]] + mid + seq![es.last()]);
        lemma_join_add(seq![es[0]] + mid, seq![es.last()]);
        lemma_join_add(seq![es[0]], mid);
        lemma_join_one(es[0]);
        lemma_join_one(es.last());
        lemma_join_add(seq![first] + mid, seq![last]);
        lemma_join_add(seq![first], mid);
        lemma_join_one(first);
        lemma_join_one(last);
        let inner = es[0] + "\n"@ + join_lines(mid) + es.last();
        assert(inner + "\n"@ =~= e + "\n"@);
        assert(inner =~= e) by {
            assert forall|i: int| 0 <= i < e.len() implies e[i] == inner[i] by {
                assert((e + "\n"@)[i] == e[i]);
                assert((inner + "\n"@)[i] == inner[i]);
            }
        }
        assert(join_lines(tl) =~= title_line(item, level) + "\n"@);
        // counts
        assert(tagless(es[0]));
        assert(tagless(es[n - 1]));
        lemma_counts_add(seq![first] + mid, seq![last]);
        lemma_counts_add(seq![first], mid);
        let r = "<Title>"@ + es[0];
        assert(first == ind + r);
        if es[0].len() > 0 {
            assert(r[r.len() - 1] == es[0][es[0].len() - 1]);
        } else {
            assert(r =~= "<Title>"@);
        }
        lemma_counts_plain(level + 1, r);
        assert forall|i: int| 0 <= i < mid.len() implies tagless(#[trigger] mid[i]) by {
            assert(mid[i] == es[i + 1]);
        }
        lemma_counts_tagless_lines(mid);
        lemma_strip_before_tag(es.last(), "</Title>"@);
        assert(last == es.last() + "</Title>"@);
        lemma_not_closing(last);
        lemma_counts_untagged(last);
        // line breaks
        assert(no_break(es[0]));
        assert(no_break(es[n - 1]));
        assert(no_break(first));
        assert(no_break(last));
        assert forall|i: int| 0 <= i < tl.len() implies #[trigger] no_break(tl[i]) by {
            if i == 0 {
                assert(tl[i] == first);
            } else if i < n - 1 {
                assert(tl[i] == es[i]);
            } else {
                assert(tl[i] == last);
            }
        }
    }
}

} // verus!
