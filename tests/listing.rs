use tagflow_core::catalog::{Catalog, Library};
use tagflow_core::dto::FileQuery;
use tagflow_core::scanner::{ListedEntry, Scanner};

fn catalog() -> Catalog {
    let lib = Library {
        id: 1,
        name: "n".to_string(),
        protocol: "local".to_string(),
        base_path: "/m".to_string(),
        config_json: None,
        last_scanned_at: None,
    };
    let entries = [("A/one.jpg", 10), ("A/B/two.jpg", 30), ("C/three.jpg", 20), ("four.jpg", 30)];
    let listing: Vec<ListedEntry> =
        entries.iter().map(|(p, m)| ListedEntry { path: p.to_string(), is_dir: false, size: 1, mtime: *m }).collect();
    let mut cat = Catalog::new();
    Scanner::new().scan_library(&mut cat, &lib, &listing, 0).unwrap();
    cat
}

fn query(tag_id: Option<i32>, recursive: Option<bool>, page: Option<i64>, limit: Option<i64>) -> FileQuery {
    FileQuery { tag_id, recursive, page, limit }
}

fn names(cat: &Catalog, q: &FileQuery) -> Vec<String> {
    let r = cat.list_files(q);
    assert_eq!(r.total as usize, r.items.len());
    r.items.iter().map(|i| i.filename.clone()).collect()
}

#[test]
fn all_files_newest_first_then_by_id() {
    let cat = catalog();
    assert_eq!(names(&cat, &query(None, None, None, None)), vec!["two.jpg", "four.jpg", "three.jpg", "one.jpg"]);
}

#[test]
fn tag_filter_recursive_and_direct() {
    let cat = catalog();
    // tag 1 is "A", tag 2 is "A/B"
    assert_eq!(names(&cat, &query(Some(1), None, None, None)), vec!["two.jpg", "one.jpg"]);
    assert_eq!(names(&cat, &query(Some(1), Some(false), None, None)), vec!["one.jpg"]);
    assert_eq!(names(&cat, &query(Some(2), Some(true), None, None)), vec!["two.jpg"]);
    assert!(names(&cat, &query(Some(99), None, None, None)).is_empty());
}

#[test]
fn pages_follow_limit_and_offset() {
    let cat = catalog();
    assert_eq!(names(&cat, &query(None, None, Some(2), Some(1))), vec!["four.jpg"]);
    assert_eq!(names(&cat, &query(None, None, Some(2), Some(3))), vec!["one.jpg"]);
    assert!(names(&cat, &query(None, None, Some(3), Some(2))).is_empty());
    assert_eq!(names(&cat, &query(None, None, Some(1), Some(-1))).len(), 4);
    assert_eq!(names(&cat, &query(None, None, Some(0), Some(2))), vec!["two.jpg", "four.jpg"]);
    assert!(names(&cat, &query(None, None, Some(1), Some(0))).is_empty());
}
