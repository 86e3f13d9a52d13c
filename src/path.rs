//! Paths inside a library: splitting a listed path into directory and file
//! name, deriving tag segments from a directory, file extensions, and the
//! security rule for configured base paths.

use vstd::prelude::*;
use crate::text::{
    after_last, before_last, chars_of, string_of, slice_chars, has_pair, occurs_in,
    lemma_after_last_suffix, lemma_after_last_at,
};

verus! {

/// Lower-case form of a string, as `str::to_lowercase` gives it.
pub uninterp spec fn lower_of(s: Seq<char>) -> Seq<char>;

/// Relies on `str::to_lowercase`: the result depends on the characters alone,
/// and an empty string stays empty.
#[verifier::external_body]
fn lowercase(s: &str) -> (r: String)
    ensures
        r@ == lower_of(s@),
        s@.len() == 0 ==> r@.len() == 0,
{
    s.to_lowercase()
}

/// Segments completed by a `/` so far, empty pieces left out.
pub open spec fn closed_segments(s: Seq<char>) -> Seq<Seq<char>>
    decreases s.len(),
{
    if s.len() == 0 {
        Seq::empty()
    } else if s.last() == '/' {
        let t = after_last(s.drop_last(), '/');
        if t.len() > 0 {
            closed_segments(s.drop_last()).push(t)
        } else {
            closed_segments(s.drop_last())
        }
    } else {
        closed_segments(s.drop_last())
    }
}

/// The non-empty pieces of `s` between slashes, in order.
pub open spec fn segments_of(s: Seq<char>) -> Seq<Seq<char>> {
    let t = after_last(s, '/');
    if t.len() > 0 {
        closed_segments(s).push(t)
    } else {
        closed_segments(s)
    }
}

pub open spec fn string_views(v: Seq<String>) -> Seq<Seq<char>> {
    v.map_values(|x: String| x@)
}

/// Splits a listed path at its last slash: the directory part keeps the slash
/// (or is empty), the file name is what follows.
pub fn split_path(full_path: &str) -> (r: (String, String))
    ensures
        r.0@ == before_last(full_path@, '/'),
        r.1@ == after_last(full_path@, '/'),
        r.0@ + r.1@ == full_path@,
        r.0@.len() == 0 || r.0@.last() == '/',
        !r.1@.contains('/'),
{
    let v = chars_of(full_path);
    let n = v.len();
    let mut i: usize = n;
    while i > 0 && v[i - 1] != '/'
        invariant
            i <= n == v@.len(),
            forall|k: int| i <= k < n ==> v@[k] != '/',
        decreases i,
    {
        i -= 1;
    }
    proof {
        lemma_after_last_at(v@, '/', i as int);
        lemma_after_last_suffix(v@, '/');
    }
    let parent = slice_chars(&v, 0, i);
    let name = slice_chars(&v, i, n);
    assert(parent@ + name@ =~= v@);
    (string_of(parent.as_slice()), string_of(name.as_slice()))
}

/// The directory names along `parent_path`, in order, empty pieces left out.
pub fn path_segments(parent_path: &str) -> (r: Vec<String>)
    ensures
        string_views(r@) == segments_of(parent_path@),
        forall|i: int| 0 <= i < r@.len() ==> r@[i]@.len() > 0,
{
    let v = chars_of(parent_path);
    let n = v.len();
    let mut out: Vec<String> = Vec::new();
    let mut cur: Vec<char> = Vec::new();
    let mut i: usize = 0;
    while i < n
        invariant
            i <= n == v@.len(),
            cur@ == after_last(v@.subrange(0, i as int), '/'),
            string_views(out@) == closed_segments(v@.subrange(0, i as int)),
            forall|k: int| 0 <= k < out@.len() ==> out@[k]@.len() > 0,
        decreases n - i,
    {
        let ghost pre = v@.subrange(0, i as int);
        let ghost next = v@.subrange(0, i + 1);
        assert(next.drop_last() =~= pre);
        assert(next.last() == v@[i as int]);
        if v[i] == '/' {
            if cur.len() > 0 {
                let seg = string_of(cur.as_slice());
                out.push(seg);
                assert(string_views(out@) =~= closed_segments(pre).push(cur@));
            }
            cur = Vec::new();
        } else {
            cur.push(v[i]);
        }
        i += 1;
    }
    assert(v@.subrange(0, n as int) =~= v@);
    if cur.len() > 0 {
        let seg = string_of(cur.as_slice());
        out.push(seg);
        assert(string_views(out@) =~= closed_segments(v@).push(cur@));
    }
    out
}

/// The extension of a file name: what follows its last dot (the whole name
/// when it has none), lower-cased.
pub fn file_extension(filename: &str) -> (r: Option<String>)
    ensures
        r is Some,
        r->0@ == lower_of(after_last(filename@, '.')),
{
    let v = chars_of(filename);
    let n = v.len();
    let mut i: usize = n;
    while i > 0 && v[i - 1] != '.'
        invariant
            i <= n == v@.len(),
            forall|k: int| i <= k < n ==> v@[k] != '.',
        decreases i,
    {
        i -= 1;
    }
    proof {
        lemma_after_last_at(v@, '.', i as int);
    }
    let tail = string_of(slice_chars(&v, i, n).as_slice());
    Some(lowercase(tail.as_str()))
}

/// The physical location of a cataloged file: base path, directory part and
/// file name, joined as they stand.
pub fn physical_path(base_path: &str, parent_path: &str, filename: &str) -> (r: String)
    ensures
        r@ == base_path@ + parent_path@ + filename@,
{
    let mut r = String::from_str(base_path);
    r.append(parent_path);
    r.append(filename);
    r
}

/// Why a configured base path was refused.
#[derive(Clone, Copy, Debug, PartialEq, Eq, Structural)]
pub enum PathError {
    /// The path holds `..`.
    ParentTraversal,
    /// The path holds `./` or `.\`.
    CurrentDirReference,
    /// The path is neither `/...` nor `X:\...` / `X:/...`.
    NotAbsolute,
}

impl PathError {
    pub open spec fn message_spec(self) -> Seq<char> {
        match self {
            PathError::ParentTraversal => "path must not contain '..' (path traversal)"@,
            PathError::CurrentDirReference => "path must not contain './' or '.\\'"@,
            PathError::NotAbsolute => "path must be absolute (such as /mnt/data or C:\\Data)"@,
        }
    }

    /// The message shown to a user for this refusal.
    pub fn message(&self) -> (r: &'static str)
        ensures
            r@ == self.message_spec(),
    {
        match self {
            PathError::ParentTraversal => "path must not contain '..' (path traversal)",
            PathError::CurrentDirReference => "path must not contain './' or '.\\'",
            PathError::NotAbsolute => "path must be absolute (such as /mnt/data or C:\\Data)",
        }
    }
}

pub open spec fn is_ascii_letter(c: char) -> bool {
    ('a' <= c && c <= 'z') || ('A' <= c && c <= 'Z')
}

/// A Unix absolute path, or a drive letter followed by `:` and a separator.
pub open spec fn is_absolute(s: Seq<char>) -> bool {
    (s.len() > 0 && s[0] == '/') || (s.len() >= 3 && is_ascii_letter(s[0]) && s[1] == ':' && (
    s[2] == '\\' || s[2] == '/'))
}

/// The outcome of the base-path security rule, checks in their order.
pub open spec fn path_security(s: Seq<char>) -> Result<(), PathError> {
    if occurs_in(s, seq!['.', '.']) {
        Err(PathError::ParentTraversal)
    } else if occurs_in(s, seq!['.', '/']) || occurs_in(s, seq!['.', '\\']) {
        Err(PathError::CurrentDirReference)
    } else if !is_absolute(s) {
        Err(PathError::NotAbsolute)
    } else {
        Ok(())
    }
}

/// Accepts a base path only when it is absolute and holds no `..`, `./` or `.\`.
pub fn validate_path_security(path: &str) -> (r: Result<(), PathError>)
    ensures
        r == path_security(path@),
{
    let v = chars_of(path);
    if has_pair(&v, '.', '.') {
        return Err(PathError::ParentTraversal);
    }
    if has_pair(&v, '.', '/') || has_pair(&v, '.', '\\') {
        return Err(PathError::CurrentDirReference);
    }
    let unix = v.len() > 0 && v[0] == '/';
    let windows = v.len() >= 3 && (('a' <= v[0] && v[0] <= 'z') || ('A' <= v[0] && v[0] <= 'Z'))
        && v[1] == ':' && (v[2] == '\\' || v[2] == '/');
    if !unix && !windows {
        return Err(PathError::NotAbsolute);
    }
    Ok(())
}

} // verus!
