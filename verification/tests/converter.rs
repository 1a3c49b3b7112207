use chickenscratch_core::scrivener::converter::{convert_scrivener_binder, ItemFiles, MediaSource, RtfSource};
use chickenscratch_core::scrivener::scrivx::{BinderItem, ChildrenContainer, ScrivenerProject};
use chickenscratch_core::scrivener::converter::{clean_scrivener_markup, link_target};

fn links(ps: &[(&str, &str)]) -> Vec<(String, String)> {
    ps.iter().map(|(a, b)| (a.to_string(), b.to_string())).collect()
}

#[test]
fn link_target_uses_last_recorded_path() {
    let l = links(&[("ABC-1", "manuscript/a.md"), ("ABC-1", "manuscript/b.md")]);
    assert_eq!(link_target(&l, "ABC-1"), "manuscript/b.md");
    assert_eq!(link_target(&l, "FFF"), "scrivlnk://FFF");
}

#[test]
fn clean_rewrites_links_and_removes_markup() {
    let l = links(&[("AB12", "manuscript/ch1.md")]);
    let content = "<p>See scrivlnk://AB12 and scrivlnk://CD34</p><p></p><p>x<br/>y</p><strong> </strong>";
    assert_eq!(
        clean_scrivener_markup(content, &l),
        "<p>See manuscript/ch1.md and scrivlnk://CD34</p><p>x</p><p>y</p>"
    );
}

#[test]
fn clean_removes_style_tags_and_variables() {
    let content = "<p>&lt;$Scr_Ps::0&gt;Text<$Scr_Cs::1> &lt;$n:Chapter&gt;end</p>";
    assert_eq!(clean_scrivener_markup(content, &vec![]), "<p>Text end</p>");
}

#[test]
fn text_items_map_to_md_paths() {
    let item = BinderItem {
        uuid: "F8F9FDEF-FD9F-4A8C-B33D-3434A1220ADC".to_string(),
        item_type: "Text".to_string(),
        created: None,
        modified: None,
        title: Some("Chapter 1".to_string()),
        children: ChildrenContainer::default(),
        metadata: None,
    };
    let project = ScrivenerProject { name: "N".to_string(), version: "3".to_string(), binder: vec![item] };
    let files = vec![ItemFiles {
        rtf_exists: true,
        rtf: RtfSource::Html("<p>Hello</p>".to_string()),
        media: MediaSource::Missing,
        children: Vec::new(),
    }];
    let converted = match convert_scrivener_binder(&project, &files) {
        Ok(c) => c,
        Err(_) => panic!("conversion failed"),
    };
    assert!(converted
        .links
        .iter()
        .any(|(u, p)| u == "F8F9FDEF-FD9F-4A8C-B33D-3434A1220ADC" && p == "manuscript/chapter-1.md"));
    assert_eq!(converted.documents.len(), 1);
    assert_eq!(converted.documents[0].path, "manuscript/chapter-1.md");
}

#[test]
fn links_take_the_whole_uuid_run() {
    let l = links(&[("AB-12", "manuscript/ch1.md"), ("AB", "manuscript/short.md")]);
    assert_eq!(
        clean_scrivener_markup("x scrivlnk://AB-12z scrivlnk:// scrivlnk://ABscrivlnk://AB", &l),
        "x manuscript/ch1.mdz scrivlnk:// manuscript/short.mdmanuscript/short.md"
    );
}
