//! Which storage backend serves a library.

use vstd::prelude::*;
use crate::catalog::Library;

verus! {

/// A storage backend that can list a library.
#[derive(Clone, Copy, Debug, PartialEq, Eq, Structural)]
pub enum StorageBackend {
    /// The local filesystem, rooted at the library's base path.
    LocalFs,
}

/// Why no backend could be opened for a library.
#[derive(Clone, Copy, Debug, PartialEq, Eq, Structural)]
pub enum StorageError {
    /// A protocol the design names but that is not enabled yet (`webdav`).
    NotYetEnabled,
    /// A protocol nobody knows.
    UnsupportedProtocol,
}

pub open spec fn local_protocol() -> Seq<char> {
    seq!['l', 'o', 'c', 'a', 'l']
}

pub open spec fn webdav_protocol() -> Seq<char> {
    seq!['w', 'e', 'b', 'd', 'a', 'v']
}

/// The backend for a protocol name.
pub open spec fn backend_model(protocol: Seq<char>) -> Result<StorageBackend, StorageError> {
    if protocol == local_protocol() {
        Ok(StorageBackend::LocalFs)
    } else if protocol == webdav_protocol() {
        Err(StorageError::NotYetEnabled)
    } else {
        Err(StorageError::UnsupportedProtocol)
    }
}

pub fn is_local(protocol: &String) -> (r: bool)
    ensures
        r == (protocol@ == local_protocol()),
{
    proof {
        reveal_strlit("local");
    }
    let local = String::from_str("local");
    assert(local@ =~= local_protocol());
    *protocol == local
}

pub fn is_webdav(protocol: &String) -> (r: bool)
    ensures
        r == (protocol@ == webdav_protocol()),
{
    proof {
        reveal_strlit("webdav");
    }
    let webdav = String::from_str("webdav");
    assert(webdav@ =~= webdav_protocol());
    *protocol == webdav
}

/// Chooses storage backends by protocol.
pub struct StorageManager {}

impl StorageManager {
    /// The backend for a library: the local filesystem for `local`; `webdav`
    /// is known but not enabled; anything else is unsupported.
    pub fn backend_for(library: &Library) -> (r: Result<StorageBackend, StorageError>)
        ensures
            r == backend_model(library.protocol@),
    {
        if is_local(&library.protocol) {
            Ok(StorageBackend::LocalFs)
        } else if is_webdav(&library.protocol) {
            Err(StorageError::NotYetEnabled)
        } else {
            Err(StorageError::UnsupportedProtocol)
        }
    }
}

} // verus!
