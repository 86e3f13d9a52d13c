use tagflow_core::catalog::{Catalog, CatalogError};
use tagflow_core::tags::{PathTagger, TagManager};
use tagflow_core::tree::build_tree;

fn parts(v: &[&str]) -> Vec<String> {
    v.iter().map(|s| s.to_string()).collect()
}

#[test]
fn resolving_twice_returns_same_node_and_creates_two_rows() {
    let mut cat = Catalog::new();
    let mgr = TagManager::new();
    let first = mgr.ensure_path_tags(&mut cat, &parts(&["A", "B"])).unwrap();
    let second = mgr.ensure_path_tags(&mut cat, &parts(&["A", "B"])).unwrap();
    assert_eq!(first, second);
    assert_eq!(first, 2);
    assert_eq!(cat.tags.len(), 2);
    assert_eq!(cat.tags[1].parent_id, Some(1));
}

#[test]
fn same_name_under_other_parent_is_another_node() {
    let mut cat = Catalog::new();
    let mgr = TagManager::new();
    let ab = mgr.ensure_path_tags(&mut cat, &parts(&["A", "B"])).unwrap();
    let b = mgr.ensure_path_tags(&mut cat, &parts(&["B"])).unwrap();
    assert_ne!(ab, b);
    assert_eq!(cat.tags[b as usize - 1].parent_id, None);
    assert_eq!(cat.tags.len(), 3);
}

#[test]
fn empty_path_is_refused_without_change() {
    let mut cat = Catalog::new();
    let mgr = TagManager::new();
    assert_eq!(mgr.ensure_path_tags(&mut cat, &parts(&[])), Err(CatalogError::EmptyPath));
    assert_eq!(mgr.ensure_path_tags(&mut cat, &parts(&["", ""])), Err(CatalogError::EmptyPath));
    assert_eq!(cat.tags.len(), 0);
}

#[test]
fn empty_parts_are_skipped() {
    let mut cat = Catalog::new();
    let mgr = TagManager::new();
    let id = mgr.ensure_path_tags(&mut cat, &parts(&["", "A", "", "B"])).unwrap();
    assert_eq!(id, 2);
    assert_eq!(cat.tags.len(), 2);
}

#[test]
fn linking_twice_keeps_first_source() {
    let mut cat = Catalog::new();
    let mgr = TagManager::new();
    mgr.link_file_to_tag(&mut cat, 7, 3, "manual");
    mgr.link_file_to_tag(&mut cat, 7, 3, "auto");
    assert_eq!(cat.file_tags.len(), 1);
    assert_eq!(cat.file_tags[0].source, "manual");
    mgr.link_file_to_tag(&mut cat, 7, 4, "auto");
    assert_eq!(cat.file_tags.len(), 2);
}

#[test]
fn file_at_root_gets_no_tag() {
    let mut cat = Catalog::new();
    let tagger = PathTagger::new(TagManager::new());
    tagger.process_path(&mut cat, 1, "").unwrap();
    assert_eq!((cat.tags.len(), cat.file_tags.len()), (0, 0));
    tagger.process_path(&mut cat, 2, "Work/Design/").unwrap();
    assert_eq!((cat.tags.len(), cat.file_tags.len()), (2, 1));
    assert_eq!((cat.file_tags[0].file_id, cat.file_tags[0].tag_id), (2, 2));
}

#[test]
fn tree_groups_children_under_parents() {
    let mut cat = Catalog::new();
    let mgr = TagManager::new();
    mgr.ensure_path_tags(&mut cat, &parts(&["A", "B"])).unwrap();
    mgr.ensure_path_tags(&mut cat, &parts(&["A", "C"])).unwrap();
    mgr.ensure_path_tags(&mut cat, &parts(&["D"])).unwrap();
    let tree = build_tree(&cat.tags, None);
    assert_eq!(tree.len(), 2);
    assert_eq!((tree[0].id, tree[0].name.as_str()), (1, "A"));
    let kids: Vec<&str> = tree[0].children.iter().map(|n| n.name.as_str()).collect();
    assert_eq!(kids, vec!["B", "C"]);
    assert!(tree[0].children[0].children.is_empty());
    assert_eq!((tree[1].name.as_str(), tree[1].children.len()), ("D", 0));
    let below_a = build_tree(&cat.tags, Some(1));
    assert_eq!(below_a.len(), 2);
}
