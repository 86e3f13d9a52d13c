//! Rules for configuring libraries: which requests are accepted, and what a
//! connection test reports.

use vstd::prelude::*;
use crate::dto::{CreateLibraryRequest, TestConnectionResponse};
use crate::path::{PathError, path_security, validate_path_security};
use crate::storage::{is_local, is_webdav, local_protocol, webdav_protocol};

verus! {

/// Why a library configuration was refused.
#[derive(Clone, Copy, Debug, PartialEq, Eq, Structural)]
pub enum LibraryRequestError {
    /// The protocol is neither `local` nor `webdav`.
    InvalidProtocol,
    /// The base path breaks the security rule.
    UnsafePath(PathError),
}

pub open spec fn library_request_model(protocol: Seq<char>, base_path: Seq<char>) -> Result<(), LibraryRequestError> {
    if protocol != local_protocol() && protocol != webdav_protocol() {
        Err(LibraryRequestError::InvalidProtocol)
    } else {
        match path_security(base_path) {
            Ok(_) => Ok(()),
            Err(e) => Err(LibraryRequestError::UnsafePath(e)),
        }
    }
}

/// Accepts a new library when its protocol is `local` or `webdav` and its
/// base path passes the security rule.
pub fn validate_library_request(req: &CreateLibraryRequest) -> (r: Result<(), LibraryRequestError>)
    ensures
        r == library_request_model(req.protocol@, req.base_path@),
{
    if !is_local(&req.protocol) && !is_webdav(&req.protocol) {
        return Err(LibraryRequestError::InvalidProtocol);
    }
    match validate_path_security(req.base_path.as_str()) {
        Ok(_) => Ok(()),
        Err(e) => Err(LibraryRequestError::UnsafePath(e)),
    }
}

/// What a look at a local directory found.
#[derive(Clone, Copy, Debug, PartialEq, Eq, Structural)]
pub enum ProbeResult {
    Missing,
    NotDirectory,
    Unreadable,
    Readable,
}

/// Whether a connection test must look at the disk: only for a local
/// library whose base path passes the security rule.
pub fn needs_probe(req: &CreateLibraryRequest) -> (r: bool)
    ensures
        r == (req.protocol@ == local_protocol() && path_security(req.base_path@) is Ok),
{
    is_local(&req.protocol) && validate_path_security(req.base_path.as_str()).is_ok()
}

pub open spec fn connection_reachable(protocol: Seq<char>, base_path: Seq<char>, probe: ProbeResult) -> bool {
    protocol == local_protocol() && path_security(base_path) is Ok && probe == ProbeResult::Readable
}

pub open spec fn connection_message(protocol: Seq<char>, base_path: Seq<char>, probe: ProbeResult) -> Seq<char> {
    if protocol == local_protocol() {
        match path_security(base_path) {
            Err(e) => e.message_spec(),
            Ok(_) => match probe {
                ProbeResult::Readable => "path is accessible"@,
                ProbeResult::Unreadable => "no permission to read this directory"@,
                ProbeResult::NotDirectory => "path is not a directory"@,
                ProbeResult::Missing => "path does not exist"@,
            },
        }
    } else if protocol == webdav_protocol() {
        "WebDAV is not implemented yet"@
    } else {
        "unsupported protocol"@
    }
}

/// The verdict of a connection test; `probe` is what the disk showed and is
/// read only when `needs_probe` holds.
pub fn connection_response(req: &CreateLibraryRequest, probe: ProbeResult) -> (r: TestConnectionResponse)
    ensures
        r.reachable == connection_reachable(req.protocol@, req.base_path@, probe),
        r.message@ == connection_message(req.protocol@, req.base_path@, probe),
{
    if is_local(&req.protocol) {
        match validate_path_security(req.base_path.as_str()) {
            Err(e) => TestConnectionResponse { reachable: false, message: String::from_str(e.message()) },
            Ok(_) => match probe {
                ProbeResult::Readable => TestConnectionResponse { reachable: true, message: String::from_str("path is accessible") },
                ProbeResult::Unreadable => TestConnectionResponse { reachable: false, message: String::from_str("no permission to read this directory") },
                ProbeResult::NotDirectory => TestConnectionResponse { reachable: false, message: String::from_str("path is not a directory") },
                ProbeResult::Missing => TestConnectionResponse { reachable: false, message: String::from_str("path does not exist") },
            },
        }
    } else if is_webdav(&req.protocol) {
        TestConnectionResponse { reachable: false, message: String::from_str("WebDAV is not implemented yet") }
    } else {
        TestConnectionResponse { reachable: false, message: String::from_str("unsupported protocol") }
    }
}

} // verus!
