//! Request and response shapes of the service, as plain values.

use vstd::prelude::*;
use crate::catalog::{FileEntry, Library};

verus! {

pub struct LoginRequest {
    pub username: String,
    pub password: String,
}

pub struct AuthResponse {
    pub token: String,
}

pub struct ErrorResponse {
    pub error: String,
}

pub struct UpdatePasswordRequest {
    pub old_password: String,
    pub new_password: String,
}

/// Claims of a session token.
pub struct Claims {
    /// The user name.
    pub sub: String,
    /// Expiry, epoch seconds.
    pub exp: usize,
}

/// A file as listed to clients.
pub struct FileItem {
    pub id: i32,
    pub filename: String,
    pub extension: Option<String>,
    pub size: i64,
    pub mtime: i64,
    pub parent_path: String,
}

pub struct FileResponse {
    pub items: Vec<FileItem>,
    pub total: i64,
}

/// Filter and page of a file listing.
pub struct FileQuery {
    pub tag_id: Option<i32>,
    /// Include files tagged below `tag_id` (the default) or only on it.
    pub recursive: Option<bool>,
    /// From 1; 1 by default.
    pub page: Option<i64>,
    /// 50 by default.
    pub limit: Option<i64>,
}

pub struct CreateLibraryRequest {
    pub name: String,
    pub protocol: String,
    pub base_path: String,
    pub config_json: Option<String>,
}

pub struct LibraryResponse {
    pub id: i32,
    pub name: String,
    pub protocol: String,
    pub base_path: String,
    pub last_scanned_at: Option<i64>,
}

pub struct TestConnectionResponse {
    pub reachable: bool,
    pub message: String,
}

impl From<FileEntry> for FileItem {
    fn from(entry: FileEntry) -> (r: FileItem) {
        FileItem {
            id: entry.id,
            filename: entry.filename,
            extension: entry.extension,
            size: entry.size,
            mtime: entry.mtime,
            parent_path: entry.parent_path,
        }
    }
}

impl vstd::std_specs::convert::FromSpecImpl<FileEntry> for FileItem {
    open spec fn obeys_from_spec() -> bool {
        true
    }

    open spec fn from_spec(entry: FileEntry) -> FileItem {
        FileItem {
            id: entry.id,
            filename: entry.filename,
            extension: entry.extension,
            size: entry.size,
            mtime: entry.mtime,
            parent_path: entry.parent_path,
        }
    }
}

impl From<Library> for LibraryResponse {
    fn from(lib: Library) -> (r: LibraryResponse) {
        LibraryResponse {
            id: lib.id,
            name: lib.name,
            protocol: lib.protocol,
            base_path: lib.base_path,
            last_scanned_at: lib.last_scanned_at,
        }
    }
}

impl vstd::std_specs::convert::FromSpecImpl<Library> for LibraryResponse {
    open spec fn obeys_from_spec() -> bool {
        true
    }

    open spec fn from_spec(lib: Library) -> LibraryResponse {
        LibraryResponse {
            id: lib.id,
            name: lib.name,
            protocol: lib.protocol,
            base_path: lib.base_path,
            last_scanned_at: lib.last_scanned_at,
        }
    }
}

} // verus!
