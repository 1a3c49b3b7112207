use chickenscratch_core::error::ChiknError;
use chickenscratch_core::models::{Document, Project, ProjectMeta, TreeNode};
use chickenscratch_core::scrivener::exporter::{escape_xml, export_to_scriv, find_document, generate_binder_xml, lookup_uuid};
use chickenscratch_core::scrivener::scrivx::{BinderItem, BinderMetadata, ChildrenContainer};

fn document(id: &str, name: &str, path: &str, content: &str) -> Document {
    let mut d = Document::default();
    d.id = id.to_string();
    d.name = name.to_string();
    d.path = path.to_string();
    d.content = content.to_string();
    d.created = "2024-01-01T00:00:00Z".to_string();
    d.modified = "2024-01-02T00:00:00Z".to_string();
    d
}

fn project(hierarchy: Vec<TreeNode>, documents: Vec<Document>) -> Project {
    Project {
        id: "p".to_string(),
        name: "Novel".to_string(),
        path: "/tmp/Novel.chikn".to_string(),
        hierarchy,
        documents,
        created: "2024-01-01T00:00:00Z".to_string(),
        modified: "2024-01-01T00:00:00Z".to_string(),
        metadata: ProjectMeta::default(),
    }
}

#[test]
fn test_escape_xml() {
    assert_eq!(escape_xml("Shelly & Marcus"), "Shelly &amp; Marcus");
    assert_eq!(escape_xml("Chapter 1: The <Beginning>"), "Chapter 1: The &lt;Beginning&gt;");
}

#[test]
fn escape_xml_quotes_and_plain_text() {
    assert_eq!(escape_xml("say \"hi\" 'now'"), "say &quot;hi&quot; &apos;now&apos;");
    assert_eq!(escape_xml("plain"), "plain");
    assert_eq!(escape_xml(""), "");
}

#[test]
fn find_document_takes_first_with_id() {
    let docs = vec![document("a", "A", "manuscript/a.md", ""), document("b", "B", "manuscript/b.md", "")];
    assert_eq!(find_document(&docs, "b"), Some(1));
    assert_eq!(find_document(&docs, "zzz"), None);
}

#[test]
fn lookup_uuid_finds_last_pair() {
    let map = vec![("k".to_string(), "1".to_string()), ("k".to_string(), "2".to_string()), ("j".to_string(), "3".to_string())];
    assert_eq!(lookup_uuid(&map, "k"), Some(1));
    assert_eq!(lookup_uuid(&map, "x"), None);
}

#[test]
fn export_mirrors_hierarchy_with_fresh_uuids() {
    let hierarchy = vec![TreeNode::Folder {
        id: "f".to_string(),
        name: "Part <1>".to_string(),
        children: vec![TreeNode::Document { id: "d".to_string(), name: "Scene".to_string(), path: "manuscript/scene.md".to_string() }],
    }];
    let p = project(hierarchy, vec![document("d", "Scene", "manuscript/scene.md", "Hello")]);
    let x = export_to_scriv(&p).unwrap();
    assert_eq!(x.binder.len(), 1);
    assert_eq!(x.binder[0].item_type, "Folder");
    assert_eq!(x.binder[0].title.as_deref(), Some("Part <1>"));
    let child = &x.binder[0].children.items[0];
    assert_eq!(child.item_type, "Text");
    assert_eq!(child.title.as_deref(), Some("Scene"));
    assert_eq!(child.uuid.len(), 36);
    assert_ne!(child.uuid, x.binder[0].uuid);
    assert_eq!(child.created.as_deref(), Some("2024-01-01T00:00:00Z"));
    assert_eq!(x.rtf_documents.len(), 1);
    assert_eq!(x.rtf_documents[0].0, child.uuid);
    assert_eq!(x.rtf_documents[0].1, "Hello");
    assert!(x.scrivx.contains("Part &lt;1&gt;"));
    assert!(x.scrivx.contains(&child.uuid));
}

#[test]
fn export_fails_for_missing_document() {
    let hierarchy = vec![TreeNode::Document { id: "ghost".to_string(), name: "Ghost".to_string(), path: "manuscript/g.md".to_string() }];
    let p = project(hierarchy, vec![]);
    match export_to_scriv(&p) {
        Err(ChiknError::NotFound(_)) => {}
        _ => panic!("expected NotFound"),
    }
}

fn binder_item(uuid: &str, title: &str, flag: Option<&str>, children: Vec<BinderItem>) -> BinderItem {
    BinderItem {
        uuid: uuid.to_string(),
        item_type: if children.is_empty() { "Text".to_string() } else { "Folder".to_string() },
        created: Some("2024-01-01".to_string()),
        modified: None,
        title: Some(title.to_string()),
        children: ChildrenContainer { items: children },
        metadata: flag.map(|f| BinderMetadata {
            label: None,
            status: None,
            keywords: None,
            synopsis: None,
            section_type: None,
            include_in_compile: Some(f.to_string()),
            icon_file_name: None,
            file_extension: None,
        }),
    }
}

#[test]
fn binder_xml_has_one_line_pair_per_item() {
    let leaf1 = binder_item("L1", "A & B", Some("Yes"), vec![]);
    let leaf2 = binder_item("L2", "<C>", None, vec![]);
    let inner = binder_item("F2", "Part", None, vec![leaf2]);
    let top = binder_item("F1", "Book", Some("No"), vec![leaf1, inner]);
    let lone = binder_item("L3", "Notes", None, vec![]);
    let xml = generate_binder_xml(&[top, lone], 1);
    assert!(xml.ends_with('\n'));
    let lines: Vec<&str> = xml.lines().collect();
    let opens = lines.iter().filter(|l| l.trim_start().starts_with("<BinderItem UUID=\"")).count();
    let closes = lines.iter().filter(|l| l.ends_with("</BinderItem>")).count();
    let kids = lines.iter().filter(|l| l.trim_start() == "<Children>").count();
    let metas = lines.iter().filter(|l| l.trim_start() == "<MetaData>").count();
    assert_eq!((opens, closes, kids, metas), (5, 5, 2, 2));
    let t1 = format!("{}<Title>A &amp; B</Title>", " ".repeat(16));
    let t2 = format!("{}<Title>&lt;C&gt;</Title>", " ".repeat(24));
    assert!(lines.contains(&t1.as_str()));
    assert!(lines.contains(&t2.as_str()));
    assert_eq!(lines[0], "    <BinderItem UUID=\"F1\" Type=\"Folder\" Created=\"2024-01-01\" Modified=\"\">");
    assert_eq!(lines[lines.len() - 1], "    </BinderItem>");
}

#[test]
fn binder_xml_titles_with_line_breaks_keep_the_counts() {
    let leaf = binder_item("L1", "First line\nsecond <line>", Some("Yes"), vec![]);
    let top = binder_item("F1", "Part\n\nTwo", None, vec![leaf]);
    let xml = generate_binder_xml(&[top], 0);
    let lines: Vec<&str> = xml.lines().collect();
    let opens = lines.iter().filter(|l| l.trim_start().starts_with("<BinderItem UUID=\"")).count();
    let closes = lines.iter().filter(|l| l.ends_with("</BinderItem>")).count();
    let kids = lines.iter().filter(|l| l.trim_start() == "<Children>").count();
    let metas = lines.iter().filter(|l| l.trim_start() == "<MetaData>").count();
    assert_eq!((opens, closes, kids, metas), (2, 2, 1, 1));
    assert!(xml.contains("<Title>Part\n\nTwo</Title>"));
    assert!(xml.contains("<Title>First line\nsecond &lt;line&gt;</Title>"));
}
