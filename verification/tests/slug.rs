use chickenscratch_core::models::Document;
use chickenscratch_core::slug::{slugify, unique_slug};

#[test]
fn test_slugify() {
    assert_eq!(slugify("My Chapter Name"), "my-chapter-name");
    assert_eq!(slugify("Chapter 1: The Beginning"), "chapter-1-the-beginning");
    assert_eq!(slugify("Hello World!!!"), "hello-world");
    assert_eq!(slugify("a--b--c"), "a-b-c");
}

#[test]
fn test_unique_slug_no_collision() {
    let documents: Vec<Document> = Vec::new();
    let slug = unique_slug("Chapter 1", "manuscript/", &documents);
    assert_eq!(slug, "chapter-1");
}

fn doc_at(path: &str) -> Document {
    let mut d = Document::default();
    d.id = "1".to_string();
    d.name = "Chapter 1".to_string();
    d.path = path.to_string();
    d.created = "2025-01-01T00:00:00Z".to_string();
    d.modified = "2025-01-01T00:00:00Z".to_string();
    d
}

#[test]
fn test_unique_slug_with_collision() {
    let documents = vec![doc_at("manuscript/chapter-1.html")];
    let slug = unique_slug("Chapter 1!", "manuscript/", &documents);
    assert_eq!(slug, "chapter-1-1");
}

#[test]
fn unique_slug_skips_every_taken_candidate() {
    let documents = vec![
        doc_at("manuscript/chapter-1-1.html"),
        doc_at("manuscript/chapter-1.html"),
        doc_at("manuscript/chapter-1-2.html"),
    ];
    assert_eq!(unique_slug("Chapter 1", "manuscript/", &documents), "chapter-1-3");
}

#[test]
fn slug_has_no_edge_or_double_dashes() {
    assert_eq!(slugify("  --Hello,  World--  "), "hello-world");
    assert_eq!(slugify("!!!"), "");
    assert_eq!(slugify("ÉTÉ à Paris"), "été-à-paris");
}

#[test]
fn slugifying_a_slug_changes_nothing() {
    for name in ["My Chapter Name", "  --Hello,   World!--  ", "Part 2: The Return", "ALLCAPS_and_under"] {
        let once = slugify(name);
        assert!(once.chars().all(|c| c.is_ascii_lowercase() || c.is_ascii_digit() || c == '-'));
        assert!(!once.starts_with('-') && !once.ends_with('-') && !once.contains("--"));
        assert_eq!(slugify(&once), once);
    }
}

#[test]
fn unique_slug_looks_only_at_html_paths() {
    let documents = vec![doc_at("manuscript/chapter-1.md")];
    assert_eq!(unique_slug("Chapter 1", "manuscript/", &documents), "chapter-1");
}
