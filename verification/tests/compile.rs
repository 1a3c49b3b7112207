use chickenscratch_core::compile::{compile_markdown, count_words, pandoc_format};
use chickenscratch_core::error::ChiknError;
use chickenscratch_core::models::{Document, Project, ProjectMeta, TreeNode};

fn doc(id: &str, path: &str, content: &str, order: i32) -> Document {
    let mut d = Document::default();
    d.id = id.to_string();
    d.name = id.to_string();
    d.path = path.to_string();
    d.content = content.to_string();
    d.compile_order = order;
    d
}

fn node(id: &str, path: &str) -> TreeNode {
    TreeNode::Document { id: id.to_string(), name: id.to_string(), path: path.to_string() }
}

fn project(hierarchy: Vec<TreeNode>, documents: Vec<Document>, author: Option<&str>) -> Project {
    let mut metadata = ProjectMeta::default();
    metadata.author = author.map(|a| a.to_string());
    Project {
        id: "p".to_string(),
        name: "My Novel".to_string(),
        path: "/tmp/p.chikn".to_string(),
        hierarchy,
        documents,
        created: String::new(),
        modified: String::new(),
        metadata,
    }
}

#[test]
fn pandoc_formats() {
    assert_eq!(pandoc_format("docx"), "docx");
    assert_eq!(pandoc_format("pdf"), "pdf");
    assert_eq!(pandoc_format("epub"), "epub3");
    assert_eq!(pandoc_format("html"), "html");
    assert_eq!(pandoc_format("odt"), "odt");
    assert_eq!(pandoc_format("rtf"), "docx");
}

#[test]
fn compile_without_includable_manuscript_content_fails_cleanly() {
    let mut excluded = doc("a", "manuscript/a.md", "Words here", 0);
    excluded.include_in_compile = false;
    let blank = doc("b", "manuscript/b.md", "   \n", 0);
    let research = doc("c", "research/c.md", "Notes", 0);
    let p = project(
        vec![node("a", "manuscript/a.md"), node("b", "manuscript/b.md"), node("c", "research/c.md")],
        vec![excluded, blank, research],
        None,
    );
    match compile_markdown(&p, None, None, false, None) {
        Err(ChiknError::InvalidFormat(m)) => assert_eq!(m, "No manuscript content to compile"),
        _ => panic!("expected InvalidFormat"),
    }
}

#[test]
fn compile_joins_sections_in_compile_order() {
    let p = project(
        vec![
            node("one", "manuscript/one.md"),
            TreeNode::Folder {
                id: "f".to_string(),
                name: "Part".to_string(),
                children: vec![node("two", "manuscript/two.md"), node("three", "manuscript/three.md")],
            },
        ],
        vec![doc("one", "manuscript/one.md", "First", 2), doc("two", "manuscript/two.md", "Second\n", 1), doc("three", "manuscript/three.md", "Third", 1)],
        None,
    );
    let md = compile_markdown(&p, None, None, false, None).unwrap();
    assert_eq!(md, "Second\n\n\n# # #\n\nThird\n\n\n# # #\n\nFirst\n");
    let md2 = compile_markdown(&p, None, None, false, Some("***")).unwrap();
    assert_eq!(md2, "Second\n\n\n***\n\nThird\n\n\n***\n\nFirst\n");
}

#[test]
fn compile_title_page_rounds_word_count() {
    let p = project(vec![node("one", "manuscript/one.md")], vec![doc("one", "manuscript/one.md", "a b c", 0)], Some("Ann Author"));
    let md = compile_markdown(&p, None, None, true, None).unwrap();
    assert_eq!(md, "Ann Author\n\nApprox. 0 words\n\n# My Novel\n\nby Ann Author\n\n\\newpage\n\na b c\n");
    let md2 = compile_markdown(&p, Some("Other Title"), Some("Bo"), true, None).unwrap();
    assert_eq!(md2, "Bo\n\nApprox. 0 words\n\n# Other Title\n\nby Bo\n\n\\newpage\n\na b c\n");
}

#[test]
fn compile_word_count_rounds_half_up() {
    let text = vec!["w"; 150].join(" ");
    let p = project(vec![node("one", "manuscript/one.md")], vec![doc("one", "manuscript/one.md", &text, 0)], None);
    let md = compile_markdown(&p, None, None, true, None).unwrap();
    assert!(md.starts_with("Approx. 200 words\n\n# My Novel\n\n\\newpage\n\n"));
}

#[test]
fn count_words_splits_on_whitespace() {
    assert_eq!(count_words("  one two\nthree  "), 3);
    assert_eq!(count_words(""), 0);
}


#[test]
fn word_splitting_follows_std_white_space() {
    for code in 0u32..=0x3100 {
        if let Some(c) = char::from_u32(code) {
            let text = format!("a{}b", c);
            let expected = if c.is_whitespace() { 2 } else { 1 };
            assert_eq!(count_words(&text), expected, "U+{:04X}", code);
        }
    }
}
