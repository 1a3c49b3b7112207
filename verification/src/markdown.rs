//! The editor's markdown dialect: inline emphasis, strike-through and code
//! spans, headings, list items and quotes, read into plain text with style
//! spans and written back from styled segments.
use vstd::prelude::*;
use vstd::string::StringExecFns;

use crate::text::{
    has_prefix, chars_of, is_whitespace, owned, push_char, replace_text, replaced, string_of, trim_start_ws,
    whitespace,
};

verus! {

/// A run of text with one inline style.
pub struct InlineSegment {
    pub text: String,
    pub bold: bool,
    pub italic: bool,
    pub strike: bool,
    pub code: bool,
}

/// A segment as plain values: text, bold, italic, strike-through, code.
pub type SegView = (Seq<char>, bool, bool, bool, bool);

impl InlineSegment {
    /// The segment as plain values.
    pub open spec fn seg_view(self) -> SegView {
        (self.text@, self.bold, self.italic, self.strike, self.code)
    }

    /// An empty, unstyled segment.
    pub fn empty() -> (r: InlineSegment)
        ensures
            r.seg_view() == (Seq::<char>::empty(), false, false, false, false),
    {
        InlineSegment { text: String::new(), bold: false, italic: false, strike: false, code: false }
    }

    /// A copy of the segment.
    pub fn copy(&self) -> (r: InlineSegment)
        ensures
            r.seg_view() == self.seg_view(),
    {
        InlineSegment {
            text: self.text.clone(),
            bold: self.bold,
            italic: self.italic,
            strike: self.strike,
            code: self.code,
        }
    }
}

/// The segments as plain values.
pub open spec fn segs_view(s: Seq<InlineSegment>) -> Seq<SegView> {
    s.map_values(|x: InlineSegment| x.seg_view())
}

/// The inline reader's state: segments so far, the segment being read,
/// and whether bold, italic, strike-through and code are open.
pub type InlineState = (Seq<SegView>, SegView, bool, bool, bool, bool);

/// The segment being read is closed: kept when it holds text, and emptied.
pub open spec fn flush(st: InlineState) -> InlineState {
    let cur = st.1;
    let segs = if cur.0.len() > 0 { st.0.push(cur) } else { st.0 };
    (segs, (Seq::empty(), cur.1, cur.2, cur.3, cur.4), st.2, st.3, st.4, st.5)
}

/// The segment being read takes the open styles but keeps its code flag.
pub open spec fn restyle(st: InlineState) -> InlineState {
    (st.0, (st.1.0, st.2, st.3, st.4, st.1.4), st.2, st.3, st.4, st.5)
}

/// The reader after the characters of `s` from `i` on.
pub open spec fn inline_run(s: Seq<char>, i: int, st: InlineState) -> InlineState
    decreases s.len() - i,
{
    if i < 0 || i >= s.len() {
        st
    } else {
        let ch = s[i];
        let cur = st.1;
        if st.5 {
            if ch == '`' {
                let f = flush(st);
                inline_run(s, i + 1, (f.0, f.1, f.2, f.3, f.4, false))
            } else {
                inline_run(s, i + 1, (st.0, (cur.0.push(ch), cur.1, cur.2, cur.3, cur.4), st.2, st.3, st.4, st.5))
            }
        } else if ch == '*' && i + 1 < s.len() && s[i + 1] == '*' {
            let f = flush(st);
            inline_run(s, i + 2, restyle((f.0, f.1, !f.2, f.3, f.4, f.5)))
        } else if ch == '*' {
            let f = flush(st);
            inline_run(s, i + 1, restyle((f.0, f.1, f.2, !f.3, f.4, f.5)))
        } else if ch == '~' && i + 1 < s.len() && s[i + 1] == '~' {
            let f = flush(st);
            inline_run(s, i + 2, restyle((f.0, f.1, f.2, f.3, !f.4, f.5)))
        } else if ch == '`' {
            let f = flush(st);
            inline_run(s, i + 1, (f.0, (f.1.0, false, false, false, true), f.2, f.3, f.4, true))
        } else {
            inline_run(s, i + 1, (st.0, (cur.0.push(ch), st.2, st.3, st.4, st.5), st.2, st.3, st.4, st.5))
        }
    }
}

/// The styled segments of one line of markdown, read left to right: `**`
/// toggles bold, `*` italic, `~~` strike-through, and backticks open and
/// close a code span, inside which everything else is text.
pub open spec fn inline_segments(s: Seq<char>) -> Seq<SegView> {
    let st = inline_run(s, 0, (Seq::empty(), (Seq::empty(), false, false, false, false), false, false, false, false));
    if st.1.0.len() > 0 {
        st.0.push(st.1)
    } else {
        st.0
    }
}

fn segment_of(cur: &Vec<char>, bold: bool, italic: bool, strike: bool, code: bool) -> (r: InlineSegment)
    ensures
        r.seg_view() == (cur@, bold, italic, strike, code),
{
    InlineSegment { text: string_of(cur), bold, italic, strike, code }
}

/// Reads the styled segments of one line of markdown.
pub fn parse_inline(line: &str) -> (r: Vec<InlineSegment>)
    ensures
        segs_view(r@) == inline_segments(line@),
{
    let cs = chars_of(line);
    let ghost s = line@;
    let ghost init: InlineState = (Seq::empty(), (Seq::empty(), false, false, false, false), false, false, false, false);
    let ghost total = inline_run(s, 0, init);
    let mut segments: Vec<InlineSegment> = Vec::new();
    let mut cur: Vec<char> = Vec::new();
    let mut cur_bold = false;
    let mut cur_italic = false;
    let mut cur_strike = false;
    let mut cur_code = false;
    let mut bold = false;
    let mut italic = false;
    let mut strike = false;
    let mut code = false;
    let mut i: usize = 0;
    proof {
        assert(segs_view(segments@) =~= Seq::<SegView>::empty());
        assert(cur@ =~= Seq::<char>::empty());
    }
    while i < cs.len()
        invariant
            cs@ == s,
            s == line@,
            i <= cs@.len(),
            total == inline_run(s, 0, init),
            inline_run(
                s,
                i as int,
                (segs_view(segments@), (cur@, cur_bold, cur_italic, cur_strike, cur_code), bold, italic, strike, code),
            ) == total,
        decreases cs.len() - i,
    {
        let ch = cs[i];
        let ghost st: InlineState = (segs_view(segments@), (cur@, cur_bold, cur_italic, cur_strike, cur_code), bold, italic, strike, code);
        if code {
            if ch == '`' {
                if cur.len() > 0 {
                    let seg = segment_of(&cur, cur_bold, cur_italic, cur_strike, cur_code);
                    segments.push(seg);
                }
                cur = Vec::new();
                code = false;
                proof {
                    assert(segs_view(segments@) =~= flush(st).0);
                    assert(cur@ =~= Seq::<char>::empty());
                }
            } else {
                cur.push(ch);
            }
            i = i + 1;
        } else if ch == '*' || ch == '~' || ch == '`' {
            let doubled = i + 1 < cs.len() && cs[i + 1] == ch;
            if ch == '~' && !doubled {
                cur_bold = bold;
                cur_italic = italic;
                cur_strike = strike;
                cur_code = code;
                cur.push(ch);
                i = i + 1;
            } else {
                if cur.len() > 0 {
                    let seg = segment_of(&cur, cur_bold, cur_italic, cur_strike, cur_code);
                    segments.push(seg);
                }
                cur = Vec::new();
                proof {
                    assert(segs_view(segments@) =~= flush(st).0);
                    assert(cur@ =~= Seq::<char>::empty());
                }
                if ch == '`' {
                    code = true;
                    cur_code = true;
                    cur_bold = false;
                    cur_italic = false;
                    cur_strike = false;
                    i = i + 1;
                } else {
                    if ch == '~' {
                        strike = !strike;
                        i = i + 2;
                    } else if doubled {
                        bold = !bold;
                        i = i + 2;
                    } else {
                        italic = !italic;
                        i = i + 1;
                    }
                    cur_bold = bold;
                    cur_italic = italic;
                    cur_strike = strike;
                }
            }
        } else {
            cur_bold = bold;
            cur_italic = italic;
            cur_strike = strike;
            cur_code = code;
            cur.push(ch);
            i = i + 1;
        }
    }
    if cur.len() > 0 {
        let seg = segment_of(&cur, cur_bold, cur_italic, cur_strike, cur_code);
        segments.push(seg);
    }
    proof {
        assert(segs_view(segments@) =~= inline_segments(s));
    }
    segments
}

/// One character as written in markdown text: markup characters and the
/// backslash get a backslash before them.
pub open spec fn escaped_char(c: char) -> Seq<char> {
    if c == '\\' || c == '*' || c == '_' || c == '~' || c == '`' {
        seq!['\\', c]
    } else {
        seq![c]
    }
}

/// Text as written in markdown outside code spans.
pub open spec fn escaped_text(s: Seq<char>) -> Seq<char>
    decreases s.len(),
{
    if s.len() == 0 {
        Seq::empty()
    } else {
        escaped_text(s.drop_last()) + escaped_char(s.last())
    }
}

/// Text as written in markdown: inside code spans only backticks are
/// escaped.
pub open spec fn escaped_markdown(s: Seq<char>, code: bool) -> Seq<char> {
    if code {
        replaced(s, seq!['`'], seq!['\\', '`'])
    } else {
        escaped_text(s)
    }
}

/// Escapes text for markdown.
pub fn escape_markdown(text: &str, code: bool) -> (r: String)
    ensures
        r@ == escaped_markdown(text@, code),
{
    if code {
        proof {
            reveal_strlit("`");
            reveal_strlit("\\`");
            assert("`"@ =~= seq!['`']);
            assert("\\`"@ =~= seq!['\\', '`']);
        }
        return replace_text(text, "`", "\\`");
    }
    let cs = chars_of(text);
    let mut out = String::new();
    let mut i: usize = 0;
    while i < cs.len()
        invariant
            i <= cs@.len(),
            cs@ == text@,
            out@ == escaped_text(cs@.take(i as int)),
        decreases cs.len() - i,
    {
        let ch = cs[i];
        proof {
            assert(cs@.take(i + 1).drop_last() =~= cs@.take(i as int));
            assert(cs@.take(i + 1).last() == ch);
        }
        if ch == '\\' || ch == '*' || ch == '_' || ch == '~' || ch == '`' {
            push_char(&mut out, '\\');
        }
        push_char(&mut out, ch);
        proof {
            assert(out@ =~= escaped_text(cs@.take(i + 1)));
        }
        i = i + 1;
    }
    proof {
        assert(cs@.take(cs@.len() as int) =~= cs@);
    }
    out
}

/// A segment as written in markdown: code in backticks, else the text
/// wrapped for bold, then italic, then strike-through.
pub open spec fn styled_text(seg: SegView) -> Seq<char> {
    let t = escaped_markdown(seg.0, seg.4);
    if seg.4 {
        seq!['`'] + t + seq!['`']
    } else {
        let b = if seg.1 { seq!['*', '*'] + t + seq!['*', '*'] } else { t };
        let i = if seg.2 { seq!['*'] + b + seq!['*'] } else { b };
        if seg.3 { seq!['~', '~'] + i + seq!['~', '~'] } else { i }
    }
}

/// The segments as written, one after another.
pub open spec fn styled_line(segs: Seq<SegView>) -> Seq<char>
    decreases segs.len(),
{
    if segs.len() == 0 {
        Seq::empty()
    } else {
        styled_line(segs.drop_last()) + styled_text(segs.last())
    }
}

/// One line of markdown from its styled segments and line styles: the
/// inline text with leading whitespace dropped, then a heading marker (the
/// first level winning), a list marker and a quote marker put in front. A
/// list item with no text is a bare list marker.
pub open spec fn markdown_line(segs: Seq<SegView>, heading1: bool, heading2: bool, list_item: bool, blockquote: bool) -> Seq<char> {
    if segs.len() == 0 {
        if list_item { seq!['-', ' '] } else { Seq::empty() }
    } else {
        let body = trim_start_ws(styled_line(segs));
        let h = if heading1 {
            seq!['#', ' '] + body
        } else if heading2 {
            seq!['#', '#', ' '] + body
        } else {
            body
        };
        let l = if list_item { seq!['-', ' '] + h } else { h };
        if blockquote { seq!['>', ' '] + l } else { l }
    }
}

fn styled_segment(seg: &InlineSegment) -> (r: String)
    ensures
        r@ == styled_text(seg.seg_view()),
{
    let t = escape_markdown(seg.text.as_str(), seg.code);
    proof {
        reveal_strlit("`");
        reveal_strlit("**");
        reveal_strlit("*");
        reveal_strlit("~~");
    }
    if seg.code {
        let mut out = owned("`");
        out.append(t.as_str());
        out.append("`");
        return out;
    }
    let mut b = t;
    if seg.bold {
        let mut w = owned("**");
        w.append(b.as_str());
        w.append("**");
        b = w;
    }
    if seg.italic {
        let mut w = owned("*");
        w.append(b.as_str());
        w.append("*");
        b = w;
    }
    if seg.strike {
        let mut w = owned("~~");
        w.append(b.as_str());
        w.append("~~");
        b = w;
    }
    b
}

/// Writes one line of markdown from its styled segments and line styles.
pub fn build_markdown_line(segments: &[InlineSegment], heading1: bool, heading2: bool, list_item: bool, blockquote: bool)
    -> (r: String)
    ensures
        r@ == markdown_line(segs_view(segments@), heading1, heading2, list_item, blockquote),
{
    proof {
        reveal_strlit("- ");
        reveal_strlit("# ");
        reveal_strlit("## ");
        reveal_strlit("> ");
    }
    if segments.len() == 0 {
        if list_item {
            return owned("- ");
        }
        return String::new();
    }
    let ghost sv = segs_view(segments@);
    let mut line: Vec<char> = Vec::new();
    let mut k: usize = 0;
    while k < segments.len()
        invariant
            k <= segments@.len(),
            sv == segs_view(segments@),
            line@ == styled_line(sv.take(k as int)),
        decreases segments.len() - k,
    {
        let t = styled_segment(&segments[k]);
        let tc = chars_of(t.as_str());
        let ghost before = line@;
        let mut j: usize = 0;
        while j < tc.len()
            invariant
                j <= tc@.len(),
                line@ == before + tc@.take(j as int),
            decreases tc.len() - j,
        {
            line.push(tc[j]);
            proof {
                assert(tc@.take(j + 1) =~= tc@.take(j as int).push(tc@[j as int]));
            }
            j = j + 1;
        }
        proof {
            assert(tc@.take(tc@.len() as int) =~= tc@);
            assert(sv.take(k + 1).drop_last() =~= sv.take(k as int));
            assert(sv[k as int] == segments@[k as int].seg_view());
        }
        k = k + 1;
    }
    proof {
        assert(sv.take(segments@.len() as int) =~= sv);
    }
    let mut lo: usize = 0;
    proof {
        assert(line@.skip(0) =~= line@);
    }
    while lo < line.len() && is_whitespace(line[lo])
        invariant
            lo <= line@.len(),
            trim_start_ws(line@.skip(lo as int)) == trim_start_ws(line@),
        decreases line.len() - lo,
    {
        proof {
            assert(line@.skip(lo as int).drop_first() =~= line@.skip(lo + 1));
        }
        lo = lo + 1;
    }
    let mut body = String::new();
    let mut q: usize = lo;
    proof {
        assert(line@.skip(lo as int).len() == 0 || !whitespace(line@.skip(lo as int)[0]));
        assert(trim_start_ws(line@.skip(lo as int)) == line@.skip(lo as int));
        assert(line@.subrange(lo as int, lo as int) =~= Seq::<char>::empty());
    }
    while q < line.len()
        invariant
            lo <= q <= line@.len(),
            body@ == line@.subrange(lo as int, q as int),
        decreases line.len() - q,
    {
        push_char(&mut body, line[q]);
        proof {
            assert(line@.subrange(lo as int, q + 1) =~= line@.subrange(lo as int, q as int).push(line@[q as int]));
        }
        q = q + 1;
    }
    proof {
        assert(line@.subrange(lo as int, line@.len() as int) =~= line@.skip(lo as int));
    }
    let mut with_blocks = body;
    if heading1 {
        let mut w = owned("# ");
        w.append(with_blocks.as_str());
        with_blocks = w;
    } else if heading2 {
        let mut w = owned("## ");
        w.append(with_blocks.as_str());
        with_blocks = w;
    }
    if list_item {
        let mut w = owned("- ");
        w.append(with_blocks.as_str());
        with_blocks = w;
    }
    if blockquote {
        let mut w = owned("> ");
        w.append(with_blocks.as_str());
        with_blocks = w;
    }
    with_blocks
}

/// The pieces of a text between newlines, empty ones included.
pub open spec fn split_newlines(cs: Seq<char>) -> Seq<Seq<char>>
    decreases cs.len(),
{
    if cs.len() == 0 {
        seq![Seq::empty()]
    } else {
        let p = split_newlines(cs.drop_last());
        if cs.last() == '\n' {
            p.push(Seq::empty())
        } else {
            p.update(p.len() - 1, p.last().push(cs.last()))
        }
    }
}

/// The lines of a text, split at newlines; a text ending in a newline gets
/// one more empty line, and the empty text is one empty line.
pub open spec fn text_lines(s: Seq<char>) -> Seq<Seq<char>> {
    if s.len() == 0 {
        seq![Seq::empty()]
    } else if s.last() == '\n' {
        split_newlines(s).push(Seq::empty())
    } else {
        split_newlines(s)
    }
}

/// Splits a text into lines, keeping blank ones.
pub fn split_lines_preserve_blank(input: &str) -> (r: Vec<String>)
    ensures
        r@.map_values(|l: String| l@) == text_lines(input@),
{
    let cs = chars_of(input);
    let mut out: Vec<String> = Vec::new();
    let mut current: Vec<char> = Vec::new();
    let mut i: usize = 0;
    proof {
        assert(cs@.take(0) =~= Seq::<char>::empty());
        assert(out@.map_values(|l: String| l@) =~= split_newlines(cs@.take(0)).drop_last());
    }
    while i < cs.len()
        invariant
            i <= cs@.len(),
            cs@ == input@,
            split_newlines(cs@.take(i as int)).len() >= 1,
            out@.map_values(|l: String| l@) == split_newlines(cs@.take(i as int)).drop_last(),
            current@ == split_newlines(cs@.take(i as int)).last(),
        decreases cs.len() - i,
    {
        let c = cs[i];
        let ghost p = split_newlines(cs@.take(i as int));
        let ghost before = out@.map_values(|l: String| l@);
        proof {
            assert(cs@.take(i + 1).drop_last() =~= cs@.take(i as int));
            assert(cs@.take(i + 1).last() == c);
        }
        if c == '\n' {
            let piece = string_of(&current);
            out.push(piece);
            current = Vec::new();
            proof {
                let p2 = split_newlines(cs@.take(i + 1));
                assert(p2 == p.push(Seq::<char>::empty()));
                assert(p2.drop_last() =~= p);
                assert(out@.map_values(|l: String| l@) =~= before.push(p.last()));
                assert(p =~= p.drop_last().push(p.last()));
            }
        } else {
            current.push(c);
            proof {
                let p2 = split_newlines(cs@.take(i + 1));
                assert(p2 == p.update(p.len() - 1, p.last().push(c)));
                assert(p2.drop_last() =~= p.drop_last());
            }
        }
        i = i + 1;
    }
    let ghost before = out@.map_values(|l: String| l@);
    let last = string_of(&current);
    out.push(last);
    proof {
        assert(cs@.take(cs@.len() as int) =~= cs@);
        let p = split_newlines(cs@);
        assert(out@.map_values(|l: String| l@) =~= before.push(p.last()));
        assert(p =~= p.drop_last().push(p.last()));
    }
    if cs.len() > 0 && cs[cs.len() - 1] == '\n' {
        out.push(String::new());
        proof {
            assert(cs@.last() == '\n');
        }
    }
    proof {
        if cs@.len() == 0 {
            assert(split_newlines(cs@) =~= seq![Seq::<char>::empty()]);
        }
        assert(out@.map_values(|l: String| l@) =~= text_lines(input@));
    }
    out
}

/// What a style span marks.
#[derive(Clone, Copy, PartialEq, Eq, Structural, Debug)]
pub enum SpanKind {
    Bold,
    Italic,
    Strike,
    Code,
    Heading1,
    Heading2,
    ListItem,
    BlockQuote,
}

/// A style over the characters `start..end` of the plain text.
pub struct StyleSpan {
    pub start: usize,
    pub end: usize,
    pub kind: SpanKind,
}

/// A span as plain values.
pub type SpanView = (int, int, SpanKind);

/// The spans as plain values.
pub open spec fn spans_view(s: Seq<StyleSpan>) -> Seq<SpanView> {
    s.map_values(|x: StyleSpan| (x.start as int, x.end as int, x.kind))
}

/// What a list item shows in place of its marker.
pub const BULLET_PREFIX: &'static str = "\u{2022} ";

/// The bullet and space a list item starts with.
pub open spec fn bullet() -> Seq<char> {
    seq!['\u{2022}', ' ']
}

/// A line without its trailing carriage returns.
pub open spec fn without_cr(s: Seq<char>) -> Seq<char>
    decreases s.len(),
{
    if s.len() > 0 && s.last() == '\r' {
        without_cr(s.drop_last())
    } else {
        s
    }
}

/// The line styles and inline text of a line: a quote marker (`> `, or a
/// lone `>`), then a heading marker (`## ` or `# `), then a list marker
/// (`- ` or `* `).
pub open spec fn line_layout(raw: Seq<char>) -> (bool, int, bool, Seq<char>) {
    let l0 = without_cr(raw);
    let (quote, l1) = if has_prefix(l0, seq!['>', ' ']) {
        (true, l0.skip(2))
    } else if l0 == seq!['>'] {
        (true, Seq::empty())
    } else {
        (false, l0)
    };
    let (heading, l2) = if has_prefix(l1, seq!['#', '#', ' ']) {
        (2int, l1.skip(3))
    } else if has_prefix(l1, seq!['#', ' ']) {
        (1int, l1.skip(2))
    } else {
        (0int, l1)
    };
    let (list, l3) = if has_prefix(l2, seq!['-', ' ']) || has_prefix(l2, seq!['*', ' ']) {
        (true, l2.skip(2))
    } else {
        (false, l2)
    };
    (quote, heading, list, l3)
}

/// The texts of segments, one after another.
pub open spec fn seg_texts(segs: Seq<SegView>) -> Seq<char>
    decreases segs.len(),
{
    if segs.len() == 0 {
        Seq::empty()
    } else {
        seg_texts(segs.drop_last()) + segs.last().0
    }
}

/// The spans of one segment placed at `start`: one per style it has.
pub open spec fn seg_spans(x: SegView, start: int) -> Seq<SpanView> {
    let end = start + x.0.len();
    if x.0.len() == 0 {
        Seq::empty()
    } else {
        (if x.1 { seq![(start, end, SpanKind::Bold)] } else { Seq::empty() }) + (if x.2 {
            seq![(start, end, SpanKind::Italic)]
        } else {
            Seq::empty()
        }) + (if x.3 { seq![(start, end, SpanKind::Strike)] } else { Seq::empty() }) + (if x.4 {
            seq![(start, end, SpanKind::Code)]
        } else {
            Seq::empty()
        })
    }
}

/// The spans of segments whose text starts at `off`.
pub open spec fn segs_spans(segs: Seq<SegView>, off: int) -> Seq<SpanView>
    decreases segs.len(),
{
    if segs.len() == 0 {
        Seq::empty()
    } else {
        segs_spans(segs.drop_last(), off) + seg_spans(segs.last(), off + seg_texts(segs.drop_last()).len())
    }
}

/// The plain text of one line.
pub open spec fn line_text(raw: Seq<char>) -> Seq<char> {
    let (_q, _h, list, body) = line_layout(raw);
    (if list { bullet() } else { Seq::empty() }) + seg_texts(inline_segments(body))
}

/// The spans of one line whose plain text starts at `off`: those of its
/// segments, then, over the whole line when it has text, its heading,
/// list and quote styles.
pub open spec fn line_spans(raw: Seq<char>, off: int) -> Seq<SpanView> {
    let (quote, heading, list, body) = line_layout(raw);
    let t = line_text(raw);
    let end = off + t.len();
    let inner = segs_spans(inline_segments(body), off + (if list { 2int } else { 0int }));
    let whole = |k: SpanKind| if t.len() > 0 { seq![(off, end, k)] } else { Seq::<SpanView>::empty() };
    inner + (if heading == 1 {
        whole(SpanKind::Heading1)
    } else if heading == 2 {
        whole(SpanKind::Heading2)
    } else {
        Seq::empty()
    }) + (if list { whole(SpanKind::ListItem) } else { Seq::empty() }) + (if quote {
        whole(SpanKind::BlockQuote)
    } else {
        Seq::empty()
    })
}

/// The plain text and spans of lines, the lines joined by newlines.
pub open spec fn styled_lines(lines: Seq<Seq<char>>) -> (Seq<char>, Seq<SpanView>)
    decreases lines.len(),
{
    if lines.len() == 0 {
        (Seq::empty(), Seq::empty())
    } else {
        let (t, sp) = styled_lines(lines.drop_last());
        let pre = if lines.len() > 1 { t.push('\n') } else { t };
        (pre + line_text(lines.last()), sp + line_spans(lines.last(), pre.len() as int))
    }
}

/// The plain text and style spans of a markdown document.
pub open spec fn markdown_styling(md: Seq<char>) -> (Seq<char>, Seq<SpanView>) {
    styled_lines(text_lines(md))
}

fn push_span(spans: &mut Vec<StyleSpan>, start: usize, end: usize, kind: SpanKind)
    ensures
        spans_view(final(spans)@) == spans_view(old(spans)@).push((start as int, end as int, kind)),
{
    let ghost before = spans_view(spans@);
    spans.push(StyleSpan { start, end, kind });
    proof {
        assert(spans_view(spans@) =~= before.push((start as int, end as int, kind)));
    }
}

fn strip_prefix_chars(s: &Vec<char>, n: usize) -> (r: Vec<char>)
    requires
        n <= s@.len(),
    ensures
        r@ == s@.skip(n as int),
{
    let mut out: Vec<char> = Vec::new();
    let mut i: usize = n;
    while i < s.len()
        invariant
            n <= i <= s@.len(),
            out@ == s@.subrange(n as int, i as int),
        decreases s.len() - i,
    {
        out.push(s[i]);
        proof {
            assert(s@.subrange(n as int, i + 1) =~= s@.subrange(n as int, i as int).push(s@[i as int]));
        }
        i = i + 1;
    }
    out
}

fn starts_with_chars(s: &Vec<char>, a: char, b: char) -> (r: bool)
    ensures
        r == has_prefix(s@, seq![a, b]),
{
    let r = s.len() >= 2 && s[0] == a && s[1] == b;
    proof {
        if s@.len() >= 2 {
            if r {
                assert(s@.take(2) =~= seq![a, b]);
            } else {
                assert(s@.take(2)[0] == s@[0]);
                assert(s@.take(2)[1] == s@[1]);
            }
        }
    }
    r
}

fn line_layout_exec(raw: &str) -> (r: (bool, u8, bool, String))
    ensures
        ({
            let (q, h, l, body) = line_layout(raw@);
            r.0 == q && r.1 as int == h && r.2 == l && r.3@ == body
        }),
{
    let cs = chars_of(raw);
    let mut n: usize = cs.len();
    proof {
        assert(cs@.take(n as int) =~= cs@);
    }
    while n > 0 && cs[n - 1] == '\r'
        invariant
            n <= cs@.len(),
            cs@ == raw@,
            without_cr(cs@.take(n as int)) == without_cr(raw@),
        decreases n,
    {
        proof {
            assert(cs@.take(n as int).drop_last() =~= cs@.take(n - 1));
        }
        n = n - 1;
    }
    let mut l0: Vec<char> = Vec::new();
    let mut i: usize = 0;
    while i < n
        invariant
            i <= n <= cs@.len(),
            l0@ == cs@.take(i as int),
        decreases n - i,
    {
        l0.push(cs[i]);
        proof {
            assert(cs@.take(i + 1) =~= cs@.take(i as int).push(cs@[i as int]));
        }
        i = i + 1;
    }
    proof {
        let t = cs@.take(n as int);
        assert(t.len() == 0 || t.last() != '\r');
        assert(without_cr(t) == t);
        assert(l0@ == without_cr(raw@));
    }
    let mut quote = false;
    let mut l1 = l0;
    if starts_with_chars(&l1, '>', ' ') {
        quote = true;
        l1 = strip_prefix_chars(&l1, 2);
    } else if l1.len() == 1 && l1[0] == '>' {
        quote = true;
        l1 = Vec::new();
        proof {
            assert(without_cr(raw@) =~= seq!['>']);
        }
    } else {
        proof {
            if without_cr(raw@) == seq!['>'] {
                assert(l1@.len() == 1 && l1@[0] == '>');
            }
        }
    }
    let mut heading: u8 = 0;
    let mut l2 = l1;
    let h2 = l2.len() >= 3 && l2[0] == '#' && l2[1] == '#' && l2[2] == ' ';
    proof {
        if l2@.len() >= 3 {
            if h2 {
                assert(l2@.take(3) =~= seq!['#', '#', ' ']);
            } else {
                assert(l2@.take(3)[0] == l2@[0] && l2@.take(3)[1] == l2@[1] && l2@.take(3)[2] == l2@[2]);
            }
        }
    }
    if h2 {
        heading = 2;
        l2 = strip_prefix_chars(&l2, 3);
    } else if starts_with_chars(&l2, '#', ' ') {
        heading = 1;
        l2 = strip_prefix_chars(&l2, 2);
    }
    let mut list = false;
    let mut l3 = l2;
    if starts_with_chars(&l3, '-', ' ') || starts_with_chars(&l3, '*', ' ') {
        list = true;
        l3 = strip_prefix_chars(&l3, 2);
    }
    (quote, heading, list, string_of(&l3))
}

fn append_segments(plain: &mut Vec<char>, spans: &mut Vec<StyleSpan>, segments: &Vec<InlineSegment>)
    ensures
        final(plain)@ == old(plain)@ + seg_texts(segs_view(segments@)),
        spans_view(final(spans)@) == spans_view(old(spans)@) + segs_spans(segs_view(segments@), old(plain)@.len() as int),
{
    let ghost segs = segs_view(segments@);
    let ghost p_start = plain@;
    let ghost seg_start = plain@.len() as int;
    let ghost sp0 = spans_view(spans@);
    let mut k: usize = 0;
    proof {
        assert(segs.take(0) =~= Seq::<SegView>::empty());
        assert(plain@ =~= p_start + seg_texts(segs.take(0)));
        assert(spans_view(spans@) =~= sp0 + segs_spans(segs.take(0), seg_start));
    }
    while k < segments.len()
        invariant
            k <= segments@.len(),
            segs == segs_view(segments@),
            seg_start == p_start.len(),
            plain@ == p_start + seg_texts(segs.take(k as int)),
            spans_view(spans@) == sp0 + segs_spans(segs.take(k as int), seg_start),
        decreases segments.len() - k,
    {
        let seg = &segments[k];
        let ghost x = segs[k as int];
        proof {
            assert(x == seg.seg_view());
            assert(segs.take(k + 1).drop_last() =~= segs.take(k as int));
            assert(segs.take(k + 1).last() == x);
        }
        let tc = chars_of(seg.text.as_str());
        let start = plain.len();
        let ghost p0 = plain@;
        let mut j: usize = 0;
        while j < tc.len()
            invariant
                j <= tc@.len(),
                plain@ == p0 + tc@.take(j as int),
            decreases tc.len() - j,
        {
            plain.push(tc[j]);
            proof {
                assert(tc@.take(j + 1) =~= tc@.take(j as int).push(tc@[j as int]));
            }
            j = j + 1;
        }
        proof {
            assert(tc@.take(tc@.len() as int) =~= tc@);
        }
        let end = plain.len();
        let ghost s1 = spans_view(spans@);
        if tc.len() > 0 {
            if seg.bold {
                push_span(spans, start, end, SpanKind::Bold);
            }
            if seg.italic {
                push_span(spans, start, end, SpanKind::Italic);
            }
            if seg.strike {
                push_span(spans, start, end, SpanKind::Strike);
            }
            if seg.code {
                push_span(spans, start, end, SpanKind::Code);
            }
        }
        proof {
            assert(start as int == seg_start + seg_texts(segs.take(k as int)).len());
            assert(spans_view(spans@) =~= s1 + seg_spans(x, start as int));
            assert(plain@ =~= p_start + seg_texts(segs.take(k + 1)));
            assert(spans_view(spans@) =~= sp0 + segs_spans(segs.take(k + 1), seg_start));
        }
        k = k + 1;
    }
    proof {
        assert(segs.take(segments@.len() as int) =~= segs);
    }
}

fn append_line(plain: &mut Vec<char>, spans: &mut Vec<StyleSpan>, raw: &str)
    ensures
        final(plain)@ == old(plain)@ + line_text(raw@),
        spans_view(final(spans)@) == spans_view(old(spans)@) + line_spans(raw@, old(plain)@.len() as int),
{
    let ghost pre = plain@;
    let ghost sp0 = spans_view(spans@);
    let (quote, heading, list, body) = line_layout_exec(raw);
    let segments = parse_inline(body.as_str());
    let ghost segs = inline_segments(body@);
    let line_start = plain.len();
    if list {
        plain.push('\u{2022}');
        plain.push(' ');
    }
    proof {
        assert(plain@ =~= pre + (if list { bullet() } else { Seq::<char>::empty() }));
    }
    append_segments(plain, spans, &segments);
    let line_end = plain.len();
    let has_text = line_end > line_start;
    let ghost s2 = spans_view(spans@);
    if has_text {
        if heading == 1 {
            push_span(spans, line_start, line_end, SpanKind::Heading1);
        } else if heading == 2 {
            push_span(spans, line_start, line_end, SpanKind::Heading2);
        }
    }
    let ghost s3 = spans_view(spans@);
    if has_text && list {
        push_span(spans, line_start, line_end, SpanKind::ListItem);
    }
    let ghost s4 = spans_view(spans@);
    if has_text && quote {
        push_span(spans, line_start, line_end, SpanKind::BlockQuote);
    }
    proof {
        let t = line_text(raw@);
        assert(plain@ =~= pre + t);
        let whole = |kk: SpanKind| if t.len() > 0 { seq![(pre.len() as int, (pre.len() + t.len()) as int, kk)] } else { Seq::<SpanView>::empty() };
        assert(s2 =~= sp0 + segs_spans(segs, pre.len() + (if list { 2int } else { 0int })));
        assert(s3 =~= s2 + (if heading == 1 {
            whole(SpanKind::Heading1)
        } else if heading == 2 {
            whole(SpanKind::Heading2)
        } else {
            Seq::<SpanView>::empty()
        }));
        assert(s4 =~= s3 + (if list { whole(SpanKind::ListItem) } else { Seq::<SpanView>::empty() }));
        assert(spans_view(spans@) =~= s4 + (if quote { whole(SpanKind::BlockQuote) } else { Seq::<SpanView>::empty() }));
        assert(spans_view(spans@) =~= sp0 + line_spans(raw@, pre.len() as int));
    }
}

/// The plain text and style spans of a markdown document, as the editor
/// shows it: markers taken out, list items shown with a bullet, and each
/// style recorded over the characters it covers.
pub fn markdown_to_styled(markdown: &str) -> (r: (String, Vec<StyleSpan>))
    ensures
        r.0@ == markdown_styling(markdown@).0,
        spans_view(r.1@) == markdown_styling(markdown@).1,
{
    let lines = split_lines_preserve_blank(markdown);
    let ghost lv = text_lines(markdown@);
    let mut plain: Vec<char> = Vec::new();
    let mut spans: Vec<StyleSpan> = Vec::new();
    let mut idx: usize = 0;
    proof {
        assert(lines@.map_values(|l: String| l@) == lv);
        assert(lv.take(0) =~= Seq::<Seq<char>>::empty());
        assert(spans_view(spans@) =~= Seq::<SpanView>::empty());
    }
    while idx < lines.len()
        invariant
            idx <= lines@.len(),
            lines@.map_values(|l: String| l@) == lv,
            plain@ == styled_lines(lv.take(idx as int)).0,
            spans_view(spans@) == styled_lines(lv.take(idx as int)).1,
        decreases lines.len() - idx,
    {
        proof {
            assert(lv[idx as int] == lines@[idx as int]@);
            assert(lv.take(idx + 1).drop_last() =~= lv.take(idx as int));
            assert(lv.take(idx + 1).last() == lv[idx as int]);
        }
        if idx > 0 {
            plain.push('\n');
        }
        append_line(&mut plain, &mut spans, lines[idx].as_str());
        idx = idx + 1;
    }
    proof {
        assert(lv.take(lines@.len() as int) =~= lv);
    }
    (string_of(&plain), spans)
}

/// Whether two segments carry the same styles.
pub open spec fn same_style(a: SegView, b: SegView) -> bool {
    a.1 == b.1 && a.2 == b.2 && a.3 == b.3 && a.4 == b.4
}

/// Runs of text as read from the editor, empty ones dropped and
/// neighbours with the same styles joined.
pub open spec fn merged_runs(runs: Seq<SegView>) -> Seq<SegView>
    decreases runs.len(),
{
    if runs.len() == 0 {
        Seq::empty()
    } else {
        let r = merged_runs(runs.drop_last());
        let x = runs.last();
        if x.0.len() == 0 {
            r
        } else if r.len() > 0 && same_style(r.last(), x) {
            r.update(r.len() - 1, (r.last().0 + x.0, x.1, x.2, x.3, x.4))
        } else {
            r.push(x)
        }
    }
}

/// Joins the style runs of one editor line into segments.
pub fn merge_runs(runs: &[InlineSegment]) -> (r: Vec<InlineSegment>)
    ensures
        segs_view(r@) == merged_runs(segs_view(runs@)),
{
    let ghost rv = segs_view(runs@);
    let mut out: Vec<InlineSegment> = Vec::new();
    let mut k: usize = 0;
    proof {
        assert(rv.take(0) =~= Seq::<SegView>::empty());
        assert(segs_view(out@) =~= Seq::<SegView>::empty());
    }
    while k < runs.len()
        invariant
            k <= runs@.len(),
            rv == segs_view(runs@),
            segs_view(out@) == merged_runs(rv.take(k as int)),
        decreases runs.len() - k,
    {
        let x = &runs[k];
        let ghost before = segs_view(out@);
        proof {
            assert(rv[k as int] == x.seg_view());
            assert(rv.take(k + 1).drop_last() =~= rv.take(k as int));
            assert(rv.take(k + 1).last() == x.seg_view());
        }
        let empty = chars_of(x.text.as_str()).len() == 0;
        if !empty {
            let n = out.len();
            if n > 0 && out[n - 1].bold == x.bold && out[n - 1].italic == x.italic && out[n - 1].strike == x.strike
                && out[n - 1].code == x.code {
                let mut t = out[n - 1].text.clone();
                t.append(x.text.as_str());
                let seg = InlineSegment { text: t, bold: x.bold, italic: x.italic, strike: x.strike, code: x.code };
                out.set(n - 1, seg);
                proof {
                    assert(segs_view(out@) =~= before.update(before.len() - 1, (before.last().0 + x.text@, x.bold, x.italic, x.strike, x.code)));
                }
            } else {
                let c = x.copy();
                out.push(c);
                proof {
                    assert(segs_view(out@) =~= before.push(x.seg_view()));
                }
            }
        }
        k = k + 1;
    }
    proof {
        assert(rv.take(runs@.len() as int) =~= rv);
    }
    out
}

/// One line of the editor as read from it: its style runs and line styles.
pub struct StyledLine {
    pub runs: Vec<InlineSegment>,
    pub heading1: bool,
    pub heading2: bool,
    pub list_item: bool,
    pub blockquote: bool,
}

/// The segments of a line once a list item's leading bullet is taken off.
pub open spec fn unbulleted(segs: Seq<SegView>, list_item: bool) -> Seq<SegView> {
    if list_item && segs.len() > 0 && has_prefix(segs[0].0, bullet()) {
        segs.update(0, (segs[0].0.skip(2), segs[0].1, segs[0].2, segs[0].3, segs[0].4))
    } else {
        segs
    }
}

/// The markdown of one editor line.
pub open spec fn editor_line_markdown(l: StyledLine) -> Seq<char> {
    markdown_line(
        unbulleted(merged_runs(segs_view(l.runs@)), l.list_item),
        l.heading1,
        l.heading2,
        l.list_item,
        l.blockquote,
    )
}

/// Lines joined by newlines.
pub open spec fn newline_joined(ls: Seq<Seq<char>>) -> Seq<char>
    decreases ls.len(),
{
    if ls.len() == 0 {
        Seq::empty()
    } else if ls.len() == 1 {
        ls[0]
    } else {
        newline_joined(ls.drop_last()) + seq!['\n'] + ls.last()
    }
}

/// The markdown of the editor's lines; text that ends in a newline gets
/// one more, empty, line.
pub open spec fn editor_markdown(lines: Seq<StyledLine>, ends_with_newline: bool) -> Seq<char> {
    let ls = lines.map_values(|l: StyledLine| editor_line_markdown(l));
    newline_joined(if ends_with_newline { ls.push(Seq::empty()) } else { ls })
}

fn editor_line(l: &StyledLine) -> (r: String)
    ensures
        r@ == editor_line_markdown(*l),
{
    let mut segs = merge_runs(l.runs.as_slice());
    let ghost m = segs_view(segs@);
    if l.list_item && segs.len() > 0 {
        let first = chars_of(segs[0].text.as_str());
        let has_bullet = first.len() >= 2 && first[0] == '\u{2022}' && first[1] == ' ';
        proof {
            assert(m[0] == segs@[0].seg_view());
            if first@.len() >= 2 {
                if has_bullet {
                    assert(first@.take(2) =~= bullet());
                } else {
                    assert(first@.take(2)[0] == first@[0] && first@.take(2)[1] == first@[1]);
                }
            }
        }
        if has_bullet {
            let rest = strip_prefix_chars(&first, 2);
            let seg = InlineSegment {
                text: string_of(&rest),
                bold: segs[0].bold,
                italic: segs[0].italic,
                strike: segs[0].strike,
                code: segs[0].code,
            };
            segs.set(0, seg);
            proof {
                assert(segs_view(segs@) =~= unbulleted(m, l.list_item));
            }
        }
    }
    build_markdown_line(segs.as_slice(), l.heading1, l.heading2, l.list_item, l.blockquote)
}

/// The markdown of what the editor shows, line by line.
pub fn lines_to_markdown(lines: &[StyledLine], ends_with_newline: bool) -> (r: String)
    ensures
        r@ == editor_markdown(lines@, ends_with_newline),
{
    let ghost ls = lines@.map_values(|l: StyledLine| editor_line_markdown(l));
    let ghost all = if ends_with_newline { ls.push(Seq::empty()) } else { ls };
    let mut out = String::new();
    let mut k: usize = 0;
    proof {
        assert(all.take(0) =~= Seq::<Seq<char>>::empty());
    }
    while k < lines.len()
        invariant
            k <= lines@.len(),
            ls == lines@.map_values(|l: StyledLine| editor_line_markdown(l)),
            all == (if ends_with_newline { ls.push(Seq::empty()) } else { ls }),
            out@ == newline_joined(all.take(k as int)),
        decreases lines.len() - k,
    {
        let line = editor_line(&lines[k]);
        if k > 0 {
            push_char(&mut out, '\n');
        }
        out.append(line.as_str());
        proof {
            assert(all[k as int] == ls[k as int]);
            assert(all.take(k + 1).drop_last() =~= all.take(k as int));
            assert(all.take(k + 1).last() == line@);
            if k == 0 {
                assert(out@ =~= newline_joined(all.take(1)));
            } else {
                assert(out@ =~= newline_joined(all.take(k + 1)));
            }
        }
        k = k + 1;
    }
    if ends_with_newline {
        if lines.len() > 0 {
            push_char(&mut out, '\n');
        }
        proof {
            assert(all.take(lines@.len() as int + 1) =~= all);
            assert(all.take(lines@.len() as int + 1).drop_last() =~= all.take(lines@.len() as int));
            assert(all.last() =~= Seq::<char>::empty());
            if lines@.len() == 0 {
                assert(out@ =~= newline_joined(all));
            } else {
                assert(out@ =~= newline_joined(all.take(lines@.len() as int)) + seq!['\n'] + Seq::<char>::empty());
            }
        }
    } else {
        proof {
            assert(all.take(lines@.len() as int) =~= all);
        }
    }
    out
}

/// Whether a text has no character that markdown treats as markup or
/// escapes.
pub open spec fn unmarked(t: Seq<char>) -> bool {
    forall|k: int| 0 <= k < t.len() ==> escaped_char(#[trigger] t[k]) == seq![t[k]]
}

proof fn lemma_run_unmarked(s: Seq<char>, i: int, segs: Seq<SegView>)
    requires
        0 <= i <= s.len(),
        unmarked(s),
    ensures
        inline_run(s, i, (segs, (s.take(i), false, false, false, false), false, false, false, false)) == (
            segs,
            (s, false, false, false, false),
            false,
            false,
            false,
            false,
        ),
    decreases s.len() - i,
{
    if i < s.len() {
        assert(escaped_char(s[i]) == seq![s[i]]);
        assert(s[i] != '*' && s[i] != '~' && s[i] != '`') by {
            if s[i] == '*' || s[i] == '~' || s[i] == '`' {
                assert(escaped_char(s[i]).len() == 2);
            }
        }
        assert(s.take(i).push(s[i]) =~= s.take(i + 1));
        lemma_run_unmarked(s, i + 1, segs);
    } else {
        assert(s.take(i) =~= s);
    }
}

proof fn lemma_escaped_unmarked(t: Seq<char>)
    requires
        unmarked(t),
    ensures
        escaped_text(t) == t,
    decreases t.len(),
{
    if t.len() > 0 {
        let d = t.drop_last();
        assert(unmarked(d)) by {
            assert forall|k: int| 0 <= k < d.len() implies escaped_char(#[trigger] d[k]) == seq![d[k]] by {
                assert(d[k] == t[k]);
            }
        }
        lemma_escaped_unmarked(d);
        assert(escaped_char(t[t.len() - 1]) == seq![t[t.len() - 1]]);
        assert(d + seq![t.last()] =~= t);
    }
}

/// Plain text reads back as itself: a line with no markup characters and
/// no leading whitespace is one unstyled segment, and writing that segment
/// back gives the line again.
pub proof fn law_plain_line_round_trip(t: Seq<char>)
    requires
        t.len() > 0,
        unmarked(t),
        !whitespace(t[0]),
    ensures
        inline_segments(t) == seq![(t, false, false, false, false)],
        markdown_line(inline_segments(t), false, false, false, false) == t,
{
    assert(t.take(0) =~= Seq::<char>::empty());
    lemma_run_unmarked(t, 0, Seq::empty());
    assert(inline_segments(t) =~= seq![(t, false, false, false, false)]);
    lemma_escaped_unmarked(t);
    let segs = inline_segments(t);
    assert(segs.drop_last() =~= Seq::<SegView>::empty());
    assert(styled_line(segs.drop_last()) == Seq::<char>::empty());
    assert(segs.last() == (t, false, false, false, false));
    assert(styled_text(segs.last()) == escaped_text(t));
    assert(styled_line(segs) =~= t);
    assert(trim_start_ws(t) == t);
}

/// Whether a segment carries the inline style that a span kind marks.
pub open spec fn carries_style(x: SegView, k: SpanKind) -> bool {
    match k {
        SpanKind::Bold => x.1,
        SpanKind::Italic => x.2,
        SpanKind::Strike => x.3,
        SpanKind::Code => x.4,
        _ => false,
    }
}

/// Where the text of segment `j` starts when the segments' text starts at
/// `off`.
pub open spec fn segment_start(segs: Seq<SegView>, off: int, j: int) -> int {
    off + seg_texts(segs.take(j)).len()
}

proof fn lemma_seg_spans_styles(x: SegView, start: int)
    ensures
        forall|i: int| 0 <= i < seg_spans(x, start).len() ==> {
            let sp = #[trigger] seg_spans(x, start)[i];
            &&& x.0.len() > 0
            &&& sp.0 == start && sp.1 == start + x.0.len()
            &&& carries_style(x, sp.2)
        },
        forall|k: SpanKind| x.0.len() > 0 && #[trigger] carries_style(x, k)
            ==> seg_spans(x, start).contains((start, start + x.0.len(), k)),
{
    let end = start + x.0.len();
    if x.0.len() > 0 {
        let b: Seq<SpanView> = if x.1 { seq![(start, end, SpanKind::Bold)] } else { Seq::empty() };
        let it: Seq<SpanView> = if x.2 { seq![(start, end, SpanKind::Italic)] } else { Seq::empty() };
        let st: Seq<SpanView> = if x.3 { seq![(start, end, SpanKind::Strike)] } else { Seq::empty() };
        let c: Seq<SpanView> = if x.4 { seq![(start, end, SpanKind::Code)] } else { Seq::empty() };
        let all = seg_spans(x, start);
        assert(all == b + it + st + c);
        assert forall|i: int| 0 <= i < all.len() implies {
            let sp = #[trigger] all[i];
            &&& sp.0 == start && sp.1 == end
            &&& carries_style(x, sp.2)
        } by {
            if i < b.len() {
                assert(all[i] == b[i]);
            } else if i < b.len() + it.len() {
                assert(all[i] == it[i - b.len()]);
            } else if i < b.len() + it.len() + st.len() {
                assert(all[i] == st[i - b.len() - it.len()]);
            } else {
                assert(all[i] == c[i - b.len() - it.len() - st.len()]);
            }
        }
        assert forall|k: SpanKind| #[trigger] carries_style(x, k) implies all.contains((start, end, k)) by {
            match k {
                SpanKind::Bold => {
                    assert(all[0] == (start, end, k));
                },
                SpanKind::Italic => {
                    assert(all[b.len() as int] == (start, end, k));
                },
                SpanKind::Strike => {
                    assert(all[(b.len() + it.len()) as int] == (start, end, k));
                },
                SpanKind::Code => {
                    assert(all[(b.len() + it.len() + st.len()) as int] == (start, end, k));
                },
                _ => {},
            }
        }
    }
}

/// Each span read from inline segments marks the text of one segment,
/// placed where that segment's text stands, with a style that the segment
/// carries; and each style that a segment with text carries gets a span
/// over that segment's text. An italic segment thus gives an italic span
/// and, unless it is also bold, no bold one.
pub proof fn law_segment_spans_follow_styles(segs: Seq<SegView>, off: int)
    ensures
        forall|i: int| 0 <= i < segs_spans(segs, off).len() ==> exists|j: int| {
            let sp = #[trigger] segs_spans(segs, off)[i];
            &&& 0 <= j < segs.len() && segs[j].0.len() > 0
            &&& sp.0 == segment_start(segs, off, j)
            &&& sp.1 == segment_start(segs, off, j) + segs[j].0.len()
            &&& carries_style(#[trigger] segs[j], sp.2)
        },
        forall|j: int, k: SpanKind| 0 <= j < segs.len() && segs[j].0.len() > 0 && #[trigger] carries_style(segs[j], k)
            ==> segs_spans(segs, off).contains(
                (segment_start(segs, off, j), segment_start(segs, off, j) + segs[j].0.len(), k),
            ),
    decreases segs.len(),
{
    if segs.len() > 0 {
        let d = segs.drop_last();
        let n = segs.len() - 1;
        law_segment_spans_follow_styles(d, off);
        let x = segs.last();
        let start = off + seg_texts(d).len();
        lemma_seg_spans_styles(x, start);
        let a = segs_spans(d, off);
        let b = seg_spans(x, start);
        let all = segs_spans(segs, off);
        assert(all == a + b);
        assert(segs.take(n) =~= d);
        assert(segment_start(segs, off, n) == start);
        assert forall|j: int| 0 <= j < n implies segment_start(segs, off, j) == segment_start(d, off, j)
            && #[trigger] segs[j] == d[j] by {
            assert(segs.take(j) =~= d.take(j));
        }
        assert forall|i: int| 0 <= i < all.len() implies exists|j: int| {
            let sp = #[trigger] all[i];
            &&& 0 <= j < segs.len() && segs[j].0.len() > 0
            &&& sp.0 == segment_start(segs, off, j)
            &&& sp.1 == segment_start(segs, off, j) + segs[j].0.len()
            &&& carries_style(#[trigger] segs[j], sp.2)
        } by {
            if i < a.len() {
                assert(all[i] == a[i]);
                let j = choose|j: int| {
                    let sp = #[trigger] a[i];
                    &&& 0 <= j < d.len() && d[j].0.len() > 0
                    &&& sp.0 == segment_start(d, off, j)
                    &&& sp.1 == segment_start(d, off, j) + d[j].0.len()
                    &&& carries_style(#[trigger] d[j], sp.2)
                };
                assert(segs[j] == d[j]);
            } else {
                assert(all[i] == b[i - a.len()]);
                assert(segs[n] == x);
            }
        }
        assert forall|j: int, k: SpanKind| 0 <= j < segs.len() && segs[j].0.len() > 0
            && #[trigger] carries_style(segs[j], k) implies all.contains(
                (segment_start(segs, off, j), segment_start(segs, off, j) + segs[j].0.len(), k),
            ) by {
            let t = (segment_start(segs, off, j), segment_start(segs, off, j) + segs[j].0.len(), k);
            if j < n {
                assert(segs[j] == d[j]);
                assert(carries_style(d[j], k));
                let q = choose|q: int| 0 <= q < a.len() && a[q] == t;
                assert(all[q] == t);
            } else {
                assert(segs[j] == x);
                assert(carries_style(x, k));
                let q = choose|q: int| 0 <= q < b.len() && b[q] == t;
                assert(all[a.len() + q] == t);
            }
        }
    }
}

} // verus!
