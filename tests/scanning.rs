use tagflow_core::catalog::{Catalog, CatalogError, FileStatus, Library};
use tagflow_core::scanner::{ListedEntry, ScanReport, Scanner};

fn library(id: i32) -> Library {
    Library {
        id,
        name: "photos".to_string(),
        protocol: "local".to_string(),
        base_path: "/mnt/photos".to_string(),
        config_json: None,
        last_scanned_at: None,
    }
}

fn file(path: &str, size: i64, mtime: i64) -> ListedEntry {
    ListedEntry { path: path.to_string(), is_dir: false, size, mtime }
}

fn dir(path: &str) -> ListedEntry {
    ListedEntry { path: path.to_string(), is_dir: true, size: 0, mtime: 0 }
}

fn find<'a>(cat: &'a Catalog, parent: &str, name: &str) -> &'a tagflow_core::catalog::FileEntry {
    cat.files.iter().find(|f| f.parent_path == parent && f.filename == name).expect("record")
}

#[test]
fn new_file_builds_tag_chain_and_one_auto_link() {
    let mut cat = Catalog::new();
    let report = Scanner::new()
        .scan_library(&mut cat, &library(1), &vec![dir("Projects"), file("Projects/2024/Design/img.png", 10, 20)], 99)
        .unwrap();
    assert_eq!(report, ScanReport { inserted: 1, updated: 0, lost: 0 });
    let f = find(&cat, "Projects/2024/Design/", "img.png");
    assert_eq!(f.id, 1);
    assert_eq!(f.extension.as_deref(), Some("png"));
    assert_eq!(f.status, FileStatus::Active);
    assert_eq!(f.indexed_at, 99);
    let names: Vec<(&str, Option<i32>)> = cat.tags.iter().map(|t| (t.name.as_str(), t.parent_id)).collect();
    assert_eq!(names, vec![("Projects", None), ("2024", Some(1)), ("Design", Some(2))]);
    assert!(cat.tags.iter().all(|t| t.category == "path"));
    assert_eq!(cat.file_tags.len(), 1);
    assert_eq!(cat.file_tags[0].file_id, 1);
    assert_eq!(cat.file_tags[0].tag_id, 3);
    assert_eq!(cat.file_tags[0].source, "auto");
    assert_eq!(cat.tasks.len(), 1);
    assert_eq!(cat.tasks[0].task_type, "thumb");
    assert_eq!(cat.tasks[0].status.code(), 0);
}

#[test]
fn second_scan_with_same_listing_writes_nothing() {
    let mut cat = Catalog::new();
    let listing = vec![file("a/x.jpg", 1, 2), file("a/b/y.jpg", 3, 4), file("z.txt", 5, 6)];
    let scanner = Scanner::new();
    let first = scanner.scan_library(&mut cat, &library(1), &listing, 10).unwrap();
    assert_eq!(first.inserted, 3);
    let before: Vec<(i32, String, i64, i64, FileStatus)> =
        cat.files.iter().map(|f| (f.id, format!("{}{}", f.parent_path, f.filename), f.size, f.mtime, f.status)).collect();
    let (tags, links, tasks) = (cat.tags.len(), cat.file_tags.len(), cat.tasks.len());
    let second = scanner.scan_library(&mut cat, &library(1), &listing, 20).unwrap();
    assert_eq!(second, ScanReport { inserted: 0, updated: 0, lost: 0 });
    let after: Vec<(i32, String, i64, i64, FileStatus)> =
        cat.files.iter().map(|f| (f.id, format!("{}{}", f.parent_path, f.filename), f.size, f.mtime, f.status)).collect();
    assert_eq!(before, after);
    assert_eq!((cat.tags.len(), cat.file_tags.len(), cat.tasks.len()), (tags, links, tasks));
}

#[test]
fn changed_size_or_mtime_updates_record_and_keeps_links() {
    let mut cat = Catalog::new();
    let scanner = Scanner::new();
    scanner.scan_library(&mut cat, &library(1), &vec![file("docs/a.pdf", 100, 1000)], 1).unwrap();
    let links = cat.file_tags.len();
    let report = scanner.scan_library(&mut cat, &library(1), &vec![file("docs/a.pdf", 150, 1500)], 2).unwrap();
    assert_eq!(report, ScanReport { inserted: 0, updated: 1, lost: 0 });
    let f = find(&cat, "docs/", "a.pdf");
    assert_eq!((f.size, f.mtime, f.status), (150, 1500, FileStatus::Active));
    assert_eq!(cat.file_tags.len(), links);
    assert_eq!(cat.tags.len(), 1);
}

#[test]
fn missing_file_becomes_lost_and_keeps_links() {
    let mut cat = Catalog::new();
    let scanner = Scanner::new();
    scanner.scan_library(&mut cat, &library(1), &vec![file("docs/a.pdf", 100, 1000), file("docs/b.pdf", 1, 1)], 1).unwrap();
    let report = scanner.scan_library(&mut cat, &library(1), &vec![file("docs/b.pdf", 1, 1)], 2).unwrap();
    assert_eq!(report, ScanReport { inserted: 0, updated: 0, lost: 1 });
    let f = find(&cat, "docs/", "a.pdf");
    assert_eq!((f.size, f.mtime, f.status), (100, 1000, FileStatus::Lost));
    assert_eq!(cat.file_tags.len(), 2);
    assert!(cat.file_tags.iter().any(|l| l.file_id == f.id));
    // a second miss writes nothing more
    let again = scanner.scan_library(&mut cat, &library(1), &vec![file("docs/b.pdf", 1, 1)], 3).unwrap();
    assert_eq!(again, ScanReport { inserted: 0, updated: 0, lost: 0 });
}

#[test]
fn scenario_unchanged_lost_and_new() {
    let mut cat = Catalog::new();
    let scanner = Scanner::new();
    scanner.scan_library(&mut cat, &library(1), &vec![file("a.jpg", 100, 1000), file("b.jpg", 200, 2000)], 1).unwrap();
    let report = scanner.scan_library(&mut cat, &library(1), &vec![file("a.jpg", 100, 1000), file("c.jpg", 50, 3000)], 2).unwrap();
    assert_eq!(report, ScanReport { inserted: 1, updated: 0, lost: 1 });
    let a = find(&cat, "", "a.jpg");
    assert_eq!((a.size, a.mtime, a.status, a.indexed_at), (100, 1000, FileStatus::Active, 1));
    assert_eq!(find(&cat, "", "b.jpg").status, FileStatus::Lost);
    let c = find(&cat, "", "c.jpg");
    assert_eq!((c.id, c.size, c.mtime, c.status), (3, 50, 3000, FileStatus::Active));
}

#[test]
fn scenario_new_file_in_new_directory_gets_new_chain() {
    let mut cat = Catalog::new();
    let scanner = Scanner::new();
    scanner
        .scan_library(&mut cat, &library(1), &vec![file("photos/2024/a.jpg", 100, 1000), file("photos/2024/b.jpg", 200, 2000)], 1)
        .unwrap();
    assert_eq!(cat.tags.len(), 2);
    scanner
        .scan_library(&mut cat, &library(1), &vec![file("photos/2024/a.jpg", 100, 1000), file("photos/2025/c.jpg", 50, 3000)], 2)
        .unwrap();
    let names: Vec<(&str, Option<i32>)> = cat.tags.iter().map(|t| (t.name.as_str(), t.parent_id)).collect();
    assert_eq!(names, vec![("photos", None), ("2024", Some(1)), ("2025", Some(1))]);
    let c = find(&cat, "photos/2025/", "c.jpg");
    let link = cat.file_tags.iter().find(|l| l.file_id == c.id).unwrap();
    assert_eq!((link.tag_id, link.source.as_str()), (3, "auto"));
    assert_eq!(find(&cat, "photos/2024/", "b.jpg").status, FileStatus::Lost);
}

#[test]
fn first_sighting_of_a_path_decides() {
    let mut cat = Catalog::new();
    let report = Scanner::new()
        .scan_library(&mut cat, &library(1), &vec![file("x.bin", 1, 1), file("x.bin", 2, 2)], 1)
        .unwrap();
    assert_eq!(report.inserted, 1);
    assert_eq!((cat.files[0].size, cat.files[0].mtime), (1, 1));
}

#[test]
fn other_libraries_are_untouched() {
    let mut cat = Catalog::new();
    let scanner = Scanner::new();
    scanner.scan_library(&mut cat, &library(1), &vec![file("a.jpg", 1, 1)], 1).unwrap();
    let report = scanner.scan_library(&mut cat, &library(2), &vec![file("a.jpg", 9, 9)], 2).unwrap();
    assert_eq!(report, ScanReport { inserted: 1, updated: 0, lost: 0 });
    assert_eq!((cat.files[0].library_id, cat.files[0].size, cat.files[0].status), (1, 1, FileStatus::Active));
    assert_eq!((cat.files[1].library_id, cat.files[1].size), (2, 9));
    let err = CatalogError::Full;
    assert_ne!(err, CatalogError::EmptyPath);
}

#[test]
fn file_status_codes() {
    assert_eq!(FileStatus::Active.code(), 1);
    assert_eq!(FileStatus::Lost.code(), 0);
}
