use chickenscratch_core::markdown::{
    build_markdown_line, escape_markdown, lines_to_markdown, markdown_to_styled, merge_runs, parse_inline,
    split_lines_preserve_blank, InlineSegment, SpanKind, StyledLine, BULLET_PREFIX,
};

fn seg(text: &str, bold: bool, italic: bool, strike: bool, code: bool) -> InlineSegment {
    InlineSegment { text: text.to_string(), bold, italic, strike, code }
}

fn flat(s: &[InlineSegment]) -> Vec<(String, bool, bool, bool, bool)> {
    s.iter().map(|x| (x.text.clone(), x.bold, x.italic, x.strike, x.code)).collect()
}

fn t(s: &str, b: bool, i: bool, st: bool, c: bool) -> (String, bool, bool, bool, bool) {
    (s.to_string(), b, i, st, c)
}

#[test]
fn parse_inline_reads_bold_and_italic() {
    let s = parse_inline("plain **bold** and *it*");
    assert_eq!(
        flat(&s),
        vec![t("plain ", false, false, false, false), t("bold", true, false, false, false), t(" and ", false, false, false, false), t("it", false, true, false, false)]
    );
}

#[test]
fn parse_inline_reads_code_and_strike() {
    let s = parse_inline("a `x*y` b ~~gone~~ ~c");
    assert_eq!(
        flat(&s),
        vec![
            t("a ", false, false, false, false),
            t("x*y", false, false, false, true),
            t(" b ", false, false, false, false),
            t("gone", false, false, true, false),
            t(" ~c", false, false, false, false),
        ]
    );
}

#[test]
fn parse_inline_of_empty_line() {
    assert!(parse_inline("").is_empty());
    assert!(parse_inline("****").is_empty());
}

#[test]
fn escape_markdown_escapes_markup() {
    assert_eq!(escape_markdown("a*b_c~d`e\\f", false), "a\\*b\\_c\\~d\\`e\\\\f");
    assert_eq!(escape_markdown("x`y*z", true), "x\\`y*z");
}

#[test]
fn build_markdown_line_wraps_styles_and_blocks() {
    assert_eq!(build_markdown_line(&[seg("Hello", true, false, false, false)], true, false, false, false), "# **Hello**");
    assert_eq!(build_markdown_line(&[seg("x", true, true, true, false)], false, true, false, false), "## ~~***x***~~");
    assert_eq!(build_markdown_line(&[seg("code*", true, false, false, true)], false, false, true, true), "> - `code*`");
    assert_eq!(build_markdown_line(&[seg("  hi", false, false, false, false)], false, false, false, false), "hi");
    assert_eq!(build_markdown_line(&[], false, false, true, false), "- ");
    assert_eq!(build_markdown_line(&[], true, false, false, true), "");
}

#[test]
fn split_lines_keeps_blank_lines() {
    assert_eq!(split_lines_preserve_blank("a\nb"), vec!["a", "b"]);
    assert_eq!(split_lines_preserve_blank("a\n"), vec!["a", "", ""]);
    assert_eq!(split_lines_preserve_blank(""), vec![""]);
    assert_eq!(split_lines_preserve_blank("\n\nx"), vec!["", "", "x"]);
}

#[test]
fn markdown_to_styled_places_spans() {
    let (plain, spans) = markdown_to_styled("# Title\n- item **b**");
    assert_eq!(plain, format!("Title\n{}item b", BULLET_PREFIX));
    let got: Vec<(usize, usize, SpanKind)> = spans.iter().map(|s| (s.start, s.end, s.kind)).collect();
    assert_eq!(got, vec![(0, 5, SpanKind::Heading1), (13, 14, SpanKind::Bold), (6, 14, SpanKind::ListItem)]);
}

#[test]
fn markdown_to_styled_reads_quotes_and_carriage_returns() {
    let (plain, spans) = markdown_to_styled("> ## Quote\r\r\n>");
    assert_eq!(plain, "Quote\n");
    let got: Vec<(usize, usize, SpanKind)> = spans.iter().map(|s| (s.start, s.end, s.kind)).collect();
    assert_eq!(got, vec![(0, 5, SpanKind::Heading2), (0, 5, SpanKind::BlockQuote)]);
}

#[test]
fn merge_runs_joins_same_style() {
    let m = merge_runs(&[seg("a", true, false, false, false), seg("", false, false, false, false), seg("b", true, false, false, false), seg("c", false, false, false, false)]);
    assert_eq!(flat(&m), vec![t("ab", true, false, false, false), t("c", false, false, false, false)]);
}

#[test]
fn editor_lines_write_back_markdown() {
    let lines = vec![
        StyledLine { runs: vec![seg("Title", false, false, false, false)], heading1: true, heading2: false, list_item: false, blockquote: false },
        StyledLine {
            runs: vec![seg(&format!("{}item ", BULLET_PREFIX), false, false, false, false), seg("b", true, false, false, false)],
            heading1: false,
            heading2: false,
            list_item: true,
            blockquote: false,
        },
    ];
    assert_eq!(lines_to_markdown(&lines, false), "# Title\n- item **b**");
    assert_eq!(lines_to_markdown(&lines, true), "# Title\n- item **b**\n");
    assert_eq!(lines_to_markdown(&[], true), "");
}

#[test]
fn plain_line_round_trips() {
    let segs = parse_inline("hello world.");
    assert_eq!(flat(&segs), vec![t("hello world.", false, false, false, false)]);
    assert_eq!(build_markdown_line(&segs, false, false, false, false), "hello world.");
}
