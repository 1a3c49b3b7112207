use chickenscratch_core::hierarchy::{
    add_child_to_folder, add_document_to_hierarchy, find_node, move_node, remove_node, reorder_node,
};
use chickenscratch_core::error::ChiknError;
use chickenscratch_core::models::TreeNode;

fn doc(id: &str, name: &str, path: &str) -> TreeNode {
    TreeNode::Document { id: id.to_string(), name: name.to_string(), path: path.to_string() }
}

fn create_test_hierarchy() -> Vec<TreeNode> {
    vec![
        doc("doc1", "Chapter 1", "manuscript/ch1.md"),
        TreeNode::Folder {
            id: "folder1".to_string(),
            name: "Part 1".to_string(),
            children: vec![doc("doc2", "Chapter 2", "manuscript/ch2.md")],
        },
    ]
}

fn children_len(node: &TreeNode) -> usize {
    match node {
        TreeNode::Folder { children, .. } => children.len(),
        TreeNode::Document { .. } => panic!("Expected folder"),
    }
}

#[test]
fn test_add_document_to_hierarchy() {
    let mut hierarchy = Vec::new();
    add_document_to_hierarchy(&mut hierarchy, doc("doc1", "Test", "test.md"));
    assert_eq!(hierarchy.len(), 1);
}

#[test]
fn test_add_child_to_folder() {
    let mut hierarchy = create_test_hierarchy();
    let result = add_child_to_folder(&mut hierarchy, "folder1", doc("doc3", "Chapter 3", "manuscript/ch3.md"));
    assert!(result.is_ok());
    if let TreeNode::Folder { children, .. } = &hierarchy[1] {
        assert_eq!(children.len(), 2);
    } else {
        panic!("Expected folder");
    }
}

#[test]
fn test_add_child_to_document_fails() {
    let mut hierarchy = create_test_hierarchy();
    let result = add_child_to_folder(&mut hierarchy, "doc1", doc("doc3", "Chapter 3", "manuscript/ch3.md"));
    assert!(result.is_err());
}

#[test]
fn test_remove_node() {
    let mut hierarchy = create_test_hierarchy();
    let result = remove_node(&mut hierarchy, "doc1");
    assert!(result.is_ok());
    assert_eq!(hierarchy.len(), 1);
}

#[test]
fn test_remove_nested_node() {
    let mut hierarchy = create_test_hierarchy();
    let result = remove_node(&mut hierarchy, "doc2");
    assert!(result.is_ok());
    if let TreeNode::Folder { children, .. } = &hierarchy[1] {
        assert_eq!(children.len(), 0);
    }
}

#[test]
fn test_find_node() {
    let hierarchy = create_test_hierarchy();
    let found = find_node(&hierarchy, "doc1");
    assert!(found.is_some());
    assert_eq!(found.unwrap().name(), "Chapter 1");
    let not_found = find_node(&hierarchy, "nonexistent");
    assert!(not_found.is_none());
}

#[test]
fn test_find_nested_node() {
    let hierarchy = create_test_hierarchy();
    let found = find_node(&hierarchy, "doc2");
    assert!(found.is_some());
    assert_eq!(found.unwrap().name(), "Chapter 2");
}

#[test]
fn test_move_node_to_root() {
    let mut hierarchy = create_test_hierarchy();
    let result = move_node(&mut hierarchy, "doc2", None);
    assert!(result.is_ok());
    assert_eq!(hierarchy.len(), 3);
    if let TreeNode::Folder { children, .. } = &hierarchy[1] {
        assert_eq!(children.len(), 0);
    }
}

#[test]
fn test_move_node_to_folder() {
    let mut hierarchy = create_test_hierarchy();
    let result = move_node(&mut hierarchy, "doc1", Some("folder1"));
    assert!(result.is_ok());
    assert_eq!(hierarchy.len(), 1);
    if let TreeNode::Folder { children, .. } = &hierarchy[0] {
        assert_eq!(children.len(), 2);
    }
}

#[test]
fn test_reorder_node() {
    let mut hierarchy = create_test_hierarchy();
    let result = reorder_node(&mut hierarchy, "doc1", 1);
    assert!(result.is_ok());
    assert_eq!(hierarchy[0].id(), "folder1");
    assert_eq!(hierarchy[1].id(), "doc1");
}

#[test]
fn test_reorder_node_out_of_bounds() {
    let mut hierarchy = create_test_hierarchy();
    let result = reorder_node(&mut hierarchy, "doc1", 10);
    assert!(result.is_err());
}

// Own tests: errors, messages and laws on concrete values.

#[test]
fn remove_missing_node_reports_not_found_and_keeps_tree() {
    let mut hierarchy = create_test_hierarchy();
    match remove_node(&mut hierarchy, "ghost") {
        Err(ChiknError::NotFound(m)) => assert_eq!(m, "Node not found: ghost"),
        _ => panic!("expected NotFound"),
    }
    assert_eq!(hierarchy.len(), 2);
    assert_eq!(children_len(&hierarchy[1]), 1);
}

#[test]
fn add_child_to_missing_parent_reports_not_found() {
    let mut hierarchy = create_test_hierarchy();
    match add_child_to_folder(&mut hierarchy, "nowhere", doc("d", "D", "d.md")) {
        Err(ChiknError::NotFound(m)) => assert_eq!(m, "Parent folder not found: nowhere"),
        _ => panic!("expected NotFound"),
    }
}

#[test]
fn add_child_to_document_reports_invalid_format() {
    let mut hierarchy = create_test_hierarchy();
    match add_child_to_folder(&mut hierarchy, "doc1", doc("d", "D", "d.md")) {
        Err(ChiknError::InvalidFormat(m)) => {
            assert_eq!(m, "Cannot add child to a document (only folders can have children)")
        }
        _ => panic!("expected InvalidFormat"),
    }
}

#[test]
fn added_child_is_found_afterwards() {
    let mut hierarchy = create_test_hierarchy();
    add_child_to_folder(&mut hierarchy, "folder1", doc("doc3", "Chapter 3", "c3.md")).unwrap();
    assert_eq!(find_node(&hierarchy, "doc3").unwrap().name(), "Chapter 3");
}

#[test]
fn removed_node_is_the_one_found() {
    let mut hierarchy = create_test_hierarchy();
    let found_name = find_node(&hierarchy, "doc2").unwrap().name().to_string();
    let removed = remove_node(&mut hierarchy, "doc2").unwrap();
    assert_eq!(removed.name(), found_name);
    assert!(find_node(&hierarchy, "doc2").is_none());
}

#[test]
fn reorder_out_of_bounds_message_names_index_and_max() {
    let mut hierarchy = create_test_hierarchy();
    match reorder_node(&mut hierarchy, "doc1", 10) {
        Err(ChiknError::InvalidFormat(m)) => assert_eq!(m, "Index out of bounds: 10 (max: 1)"),
        _ => panic!("expected InvalidFormat"),
    }
    assert_eq!(hierarchy[0].id(), "doc1");
}

#[test]
fn reorder_missing_node_reports_not_found() {
    let mut hierarchy = create_test_hierarchy();
    match reorder_node(&mut hierarchy, "ghost", 0) {
        Err(ChiknError::NotFound(m)) => assert_eq!(m, "Node not found: ghost"),
        _ => panic!("expected NotFound"),
    }
}

#[test]
fn reorder_nested_node_within_its_folder() {
    let mut hierarchy = create_test_hierarchy();
    add_child_to_folder(&mut hierarchy, "folder1", doc("doc3", "Chapter 3", "c3.md")).unwrap();
    reorder_node(&mut hierarchy, "doc3", 0).unwrap();
    if let TreeNode::Folder { children, .. } = &hierarchy[1] {
        assert_eq!(children[0].id(), "doc3");
        assert_eq!(children[1].id(), "doc2");
    } else {
        panic!("Expected folder");
    }
}

#[test]
fn move_into_document_loses_node_and_reports_error() {
    let mut hierarchy = create_test_hierarchy();
    let result = move_node(&mut hierarchy, "doc2", Some("doc1"));
    assert!(matches!(result, Err(ChiknError::InvalidFormat(_))));
    assert!(find_node(&hierarchy, "doc2").is_none());
}

#[test]
fn move_missing_node_reports_not_found() {
    let mut hierarchy = create_test_hierarchy();
    let result = move_node(&mut hierarchy, "ghost", None);
    assert!(matches!(result, Err(ChiknError::NotFound(_))));
    assert_eq!(hierarchy.len(), 2);
}

#[test]
fn moved_node_is_found_afterwards() {
    let mut hierarchy = create_test_hierarchy();
    move_node(&mut hierarchy, "doc1", Some("folder1")).unwrap();
    assert_eq!(find_node(&hierarchy, "doc1").unwrap().name(), "Chapter 1");
}

#[test]
fn adding_under_a_nested_document_is_refused() {
    let mut h = vec![
        doc("doc1", "Chapter 1", "manuscript/ch1.md"),
        TreeNode::Folder {
            id: "folder1".to_string(),
            name: "Part 1".to_string(),
            children: vec![doc("doc2", "Chapter 2", "manuscript/ch2.md")],
        },
    ];
    let r = add_child_to_folder(&mut h, "doc2", doc("doc3", "Chapter 3", "manuscript/ch3.md"));
    match r {
        Err(ChiknError::InvalidFormat(m)) => {
            assert_eq!(m, "Cannot add child to a document (only folders can have children)")
        }
        _ => panic!("expected InvalidFormat"),
    }
    assert_eq!(h.len(), 2);
    match &h[1] {
        TreeNode::Folder { children, .. } => assert_eq!(children.len(), 1),
        _ => panic!("expected a folder"),
    }
}

#[test]
fn a_removed_node_cannot_be_found() {
    let mut h = create_test_hierarchy();
    let removed = remove_node(&mut h, "doc2");
    assert!(matches!(removed, Ok(TreeNode::Document { ref id, .. }) if id == "doc2"));
    assert!(find_node(&h, "doc2").is_none());
    assert!(find_node(&h, "folder1").is_some());
}
