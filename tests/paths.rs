use tagflow_core::catalog::{FileEntry, FileStatus, Library};
use tagflow_core::dto::{CreateLibraryRequest, FileItem, LibraryResponse};
use tagflow_core::library::{connection_response, needs_probe, validate_library_request, LibraryRequestError, ProbeResult};
use tagflow_core::path::{file_extension, path_segments, physical_path, split_path, validate_path_security, PathError};
use tagflow_core::storage::{StorageBackend, StorageError, StorageManager};

#[test]
fn split_keeps_slash_on_directory() {
    assert_eq!(split_path("Projects/2024/Design/img.png"), ("Projects/2024/Design/".to_string(), "img.png".to_string()));
    assert_eq!(split_path("img.png"), (String::new(), "img.png".to_string()));
    assert_eq!(split_path(""), (String::new(), String::new()));
}

#[test]
fn segments_skip_empty_pieces() {
    assert_eq!(path_segments("Projects/2024/Design/"), vec!["Projects", "2024", "Design"]);
    assert_eq!(path_segments("/a//b"), vec!["a", "b"]);
    assert!(path_segments("").is_empty());
    assert!(path_segments("///").is_empty());
}

#[test]
fn extension_is_lowercased_tail_after_last_dot() {
    assert_eq!(file_extension("Photo.JPG"), Some("jpg".to_string()));
    assert_eq!(file_extension("archive.tar.GZ"), Some("gz".to_string()));
    assert_eq!(file_extension("README"), Some("readme".to_string()));
    assert_eq!(file_extension("trailing."), Some(String::new()));
}

#[test]
fn physical_path_joins_parts() {
    assert_eq!(physical_path("/base/", "a/b/", "c.txt"), "/base/a/b/c.txt");
}

#[test]
fn path_security_rules() {
    assert_eq!(validate_path_security("/mnt/data"), Ok(()));
    assert_eq!(validate_path_security("C:\\Data"), Ok(()));
    assert_eq!(validate_path_security("d:/x"), Ok(()));
    assert_eq!(validate_path_security("/mnt/../etc"), Err(PathError::ParentTraversal));
    assert_eq!(validate_path_security("/mnt/./x"), Err(PathError::CurrentDirReference));
    assert_eq!(validate_path_security("C:\\a.\\b"), Err(PathError::CurrentDirReference));
    assert_eq!(validate_path_security("data/photos"), Err(PathError::NotAbsolute));
    assert_eq!(validate_path_security("1:/x"), Err(PathError::NotAbsolute));
    assert_eq!(validate_path_security(""), Err(PathError::NotAbsolute));
    assert!(PathError::ParentTraversal.message().contains(".."));
}

fn request(protocol: &str, base_path: &str) -> CreateLibraryRequest {
    CreateLibraryRequest { name: "n".to_string(), protocol: protocol.to_string(), base_path: base_path.to_string(), config_json: None }
}

#[test]
fn library_requests() {
    assert_eq!(validate_library_request(&request("local", "/mnt/a")), Ok(()));
    assert_eq!(validate_library_request(&request("webdav", "/dav")), Ok(()));
    assert_eq!(validate_library_request(&request("ftp", "/mnt/a")), Err(LibraryRequestError::InvalidProtocol));
    assert_eq!(
        validate_library_request(&request("local", "rel")),
        Err(LibraryRequestError::UnsafePath(PathError::NotAbsolute))
    );
}

#[test]
fn connection_verdicts() {
    let ok = request("local", "/mnt/a");
    assert!(needs_probe(&ok));
    assert!(connection_response(&ok, ProbeResult::Readable).reachable);
    assert!(!connection_response(&ok, ProbeResult::Missing).reachable);
    let bad = request("local", "/mnt/../a");
    assert!(!needs_probe(&bad));
    let r = connection_response(&bad, ProbeResult::Readable);
    assert!(!r.reachable);
    assert_eq!(r.message, PathError::ParentTraversal.message());
    assert!(!needs_probe(&request("webdav", "/x")));
    assert!(!connection_response(&request("webdav", "/x"), ProbeResult::Readable).reachable);
}

#[test]
fn storage_backends_by_protocol() {
    let mut lib = Library {
        id: 1,
        name: "n".to_string(),
        protocol: "local".to_string(),
        base_path: "/x".to_string(),
        config_json: None,
        last_scanned_at: None,
    };
    assert_eq!(StorageManager::backend_for(&lib), Ok(StorageBackend::LocalFs));
    lib.protocol = "webdav".to_string();
    assert_eq!(StorageManager::backend_for(&lib), Err(StorageError::NotYetEnabled));
    lib.protocol = "s3".to_string();
    assert_eq!(StorageManager::backend_for(&lib), Err(StorageError::UnsupportedProtocol));
    let resp = LibraryResponse::from(lib);
    assert_eq!((resp.id, resp.protocol.as_str()), (1, "s3"));
}

#[test]
fn file_item_from_entry() {
    let entry = FileEntry {
        id: 4,
        library_id: 1,
        parent_path: "a/".to_string(),
        filename: "b.png".to_string(),
        extension: Some("png".to_string()),
        size: 10,
        mtime: 20,
        hash: None,
        status: FileStatus::Active,
        indexed_at: 0,
    };
    let item = FileItem::from(entry);
    assert_eq!((item.id, item.filename.as_str(), item.parent_path.as_str(), item.size, item.mtime), (4, "b.png", "a/", 10, 20));
    assert_eq!(item.extension.as_deref(), Some("png"));
}
