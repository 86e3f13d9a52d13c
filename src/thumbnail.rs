//! Thumbnail locations and the decisions of the thumbnail handler; producing
//! the image itself is left to an external tool.

use vstd::prelude::*;
use crate::catalog::Catalog;
use crate::text::{chars_of, push_signed_decimal, signed_decimal, string_of};

verus! {

/// `dir/<id>.webp`.
pub open spec fn thumbnail_path_of(dir: Seq<char>, file_id: i32) -> Seq<char> {
    dir + seq!['/'] + signed_decimal(file_id as int) + seq!['.', 'w', 'e', 'b', 'p']
}

/// Relies on `std::path::Path::exists`: whether anything is on disk at `p`
/// just now. Nothing is promised of the answer.
#[verifier::external_body]
fn path_exists(p: &str) -> (r: bool) {
    std::path::Path::new(p).exists()
}

/// What the thumbnail handler does for a file.
#[derive(Clone, Copy, Debug, PartialEq, Eq, Structural)]
pub enum ThumbnailPlan {
    /// The source file is gone: the task fails.
    SourceMissing,
    /// A thumbnail is already cached: nothing to do.
    AlreadyPresent,
    /// Run the external generator.
    Generate,
}

/// The handler's decision from what is on disk: a missing source fails, an
/// existing thumbnail is kept, otherwise one is generated.
pub fn plan_thumbnail(source_exists: bool, thumbnail_exists: bool) -> (r: ThumbnailPlan)
    ensures
        r == (if !source_exists {
            ThumbnailPlan::SourceMissing
        } else if thumbnail_exists {
            ThumbnailPlan::AlreadyPresent
        } else {
            ThumbnailPlan::Generate
        }),
{
    if !source_exists {
        ThumbnailPlan::SourceMissing
    } else if thumbnail_exists {
        ThumbnailPlan::AlreadyPresent
    } else {
        ThumbnailPlan::Generate
    }
}

/// Knows where thumbnails are cached.
pub struct ThumbnailGenerator {
    pub cache_dir: String,
}

impl ThumbnailGenerator {
    /// A generator caching under `cache_dir` (which the caller creates).
    pub fn new(cache_dir: String) -> (r: ThumbnailGenerator)
        ensures
            r.cache_dir@ == cache_dir@,
    {
        ThumbnailGenerator { cache_dir }
    }

    /// Where the thumbnail of a file is cached: `<cache_dir>/<file_id>.webp`.
    pub fn get_thumbnail_path(&self, file_id: i32) -> (r: String)
        ensures
            r@ == thumbnail_path_of(self.cache_dir@, file_id),
    {
        let mut v = chars_of(self.cache_dir.as_str());
        v.push('/');
        push_signed_decimal(&mut v, file_id);
        v.push('.');
        v.push('w');
        v.push('e');
        v.push('b');
        v.push('p');
        let r = string_of(v.as_slice());
        assert(r@ =~= thumbnail_path_of(self.cache_dir@, file_id));
        r
    }

    /// Whether a thumbnail of the file is cached now.
    pub fn thumbnail_exists(&self, file_id: i32) -> (r: bool) {
        let p = self.get_thumbnail_path(file_id);
        path_exists(p.as_str())
    }
}

impl Catalog {
    /// Where a cataloged file lies on disk under its library's base path:
    /// `base_path`, directory part and file name joined; `None` for an unknown id.
    pub fn source_path(&self, file_id: i32, base_path: &str) -> (r: Option<String>)
        requires
            self@.wf(),
        ensures
            r is Some <==> 1 <= file_id <= self@.files.len(),
            r is Some ==> r->0@ == base_path@ + self@.files[file_id - 1].parent_path + self@.files[file_id - 1].filename,
    {
        if file_id < 1 || file_id as usize > self.files.len() {
            return None;
        }
        let f = &self.files[(file_id - 1) as usize];
        Some(crate::path::physical_path(base_path, f.parent_path.as_str(), f.filename.as_str()))
    }
}

} // verus!
