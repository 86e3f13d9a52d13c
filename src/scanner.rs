//! Reconciliation of a library's file records against a live listing.

use vstd::prelude::*;
use crate::catalog::{Catalog, CatalogError, CatalogView, FileEntry, FileStatus, FileView, Library, ID_LIMIT, file_path, pending_task, opt_view};
use crate::path::{split_path, file_extension, lower_of};
use crate::tags::{PathTagger, TagManager, tag_file_model};
use crate::text::{after_last, before_last};

verus! {

/// One entry of a storage listing, with its metadata.
pub struct ListedEntry {
    /// Path relative to the library root, without a leading slash.
    pub path: String,
    pub is_dir: bool,
    pub size: i64,
    /// Epoch seconds.
    pub mtime: i64,
}

pub struct EntryView {
    pub path: Seq<char>,
    pub is_dir: bool,
    pub size: i64,
    pub mtime: i64,
}

impl View for ListedEntry {
    type V = EntryView;

    open spec fn view(&self) -> EntryView {
        EntryView { path: self.path@, is_dir: self.is_dir, size: self.size, mtime: self.mtime }
    }
}

pub open spec fn listing_view(l: Seq<ListedEntry>) -> Seq<EntryView> {
    l.map_values(|e: ListedEntry| e@)
}

/// How many rows a scan wrote.
#[derive(Clone, Copy, Debug, PartialEq, Eq, Structural)]
pub struct ScanReport {
    /// New file records.
    pub inserted: u64,
    /// Records whose size or mtime changed.
    pub updated: u64,
    /// Records that went from Active to Lost.
    pub lost: u64,
}

/// Size and mtime of the first file entry listed at `p`; later sightings of
/// the same path are ignored.
pub open spec fn first_stat(l: Seq<EntryView>, p: Seq<char>) -> Option<(i64, i64)>
    decreases l.len(),
{
    if l.len() == 0 {
        None
    } else {
        match first_stat(l.drop_last(), p) {
            Some(st) => Some(st),
            None => if !l.last().is_dir && l.last().path == p {
                Some((l.last().size, l.last().mtime))
            } else {
                None
            },
        }
    }
}

/// A record after the scan: records of other libraries are untouched; one not
/// listed becomes Lost; one listed with another size or mtime takes them and
/// becomes Active; one listed unchanged stays as it is.
pub open spec fn reconcile_file(f: FileView, lib: i32, l: Seq<EntryView>) -> FileView {
    if f.library_id != lib {
        f
    } else {
        match first_stat(l, file_path(f)) {
            None => FileView { status: FileStatus::Lost, ..f },
            Some((size, mtime)) => if size == f.size && mtime == f.mtime {
                f
            } else {
                FileView { size, mtime, status: FileStatus::Active, ..f }
            },
        }
    }
}

/// Whether a record writes when reconciled: a changed size or mtime.
pub open spec fn is_update(f: FileView, lib: i32, l: Seq<EntryView>) -> bool {
    f.library_id == lib && match first_stat(l, file_path(f)) {
        Some((size, mtime)) => size != f.size || mtime != f.mtime,
        None => false,
    }
}

/// Whether a record writes when reconciled: an Active record not listed.
pub open spec fn is_loss(f: FileView, lib: i32, l: Seq<EntryView>) -> bool {
    f.library_id == lib && first_stat(l, file_path(f)) is None && f.status == FileStatus::Active
}

pub open spec fn update_count(files: Seq<FileView>, lib: i32, l: Seq<EntryView>) -> nat
    decreases files.len(),
{
    if files.len() == 0 {
        0
    } else {
        update_count(files.drop_last(), lib, l) + if is_update(files.last(), lib, l) { 1nat } else { 0nat }
    }
}

pub open spec fn loss_count(files: Seq<FileView>, lib: i32, l: Seq<EntryView>) -> nat
    decreases files.len(),
{
    if files.len() == 0 {
        0
    } else {
        loss_count(files.drop_last(), lib, l) + if is_loss(files.last(), lib, l) { 1nat } else { 0nat }
    }
}

/// Whether some record of library `lib` stands for path `p`.
pub open spec fn keyed(files: Seq<FileView>, lib: i32, p: Seq<char>) -> bool {
    exists|k: int| 0 <= k < files.len() && files[k].library_id == lib && #[trigger] file_path(files[k]) == p
}

/// Task type of thumbnail generation.
pub open spec fn thumb_type() -> Seq<char> {
    seq!['t', 'h', 'u', 'm', 'b']
}

/// The record created for a newly listed file.
pub open spec fn new_record(id: nat, lib: i32, e: EntryView, now: i64) -> FileView {
    let name = after_last(e.path, '/');
    FileView {
        id: id as i32,
        library_id: lib,
        parent_path: before_last(e.path, '/'),
        filename: name,
        extension: Some(lower_of(after_last(name, '.'))),
        size: e.size,
        mtime: e.mtime,
        hash: None,
        status: FileStatus::Active,
        indexed_at: now,
    }
}

/// Inserting a new file: its record, its path tags, and a thumbnail task.
pub open spec fn insert_new_model(c: CatalogView, lib: i32, e: EntryView, now: i64) -> (CatalogView, Result<(), CatalogError>) {
    if c.files.len() >= ID_LIMIT || c.tasks.len() >= ID_LIMIT {
        (c, Err(CatalogError::Full))
    } else {
        let id = c.files.len() + 1;
        let c1 = CatalogView { files: c.files.push(new_record(id, lib, e, now)), ..c };
        let (c2, r) = tag_file_model(c1, id as i32, before_last(e.path, '/'));
        match r {
            Ok(_) => (
                CatalogView { tasks: c2.tasks.push(pending_task(c2.tasks.len() + 1, id as i32, thumb_type(), 0)), ..c2 },
                Ok(()),
            ),
            Err(err) => (c2, Err(err)),
        }
    }
}

/// Whether entry `i` of the listing is a file first sighted there whose path
/// no record of the library had before the scan.
pub open spec fn is_new_entry(l: Seq<EntryView>, i: int, lib: i32, before: Seq<FileView>) -> bool {
    !l[i].is_dir && first_stat(l.subrange(0, i), l[i].path) is None && !keyed(before, lib, l[i].path)
}

/// The insertions for the new entries of `l`, in listing order, stopping at
/// the first refusal.
pub open spec fn insert_all_model(c: CatalogView, lib: i32, l: Seq<EntryView>, before: Seq<FileView>, now: i64) -> (CatalogView, Result<(), CatalogError>)
    decreases l.len(),
{
    if l.len() == 0 {
        (c, Ok(()))
    } else {
        let (c1, r1) = insert_all_model(c, lib, l.drop_last(), before, now);
        if r1 is Err {
            (c1, r1)
        } else if is_new_entry(l, l.len() - 1, lib, before) {
            insert_new_model(c1, lib, l.last(), now)
        } else {
            (c1, Ok(()))
        }
    }
}

/// Every record reconciled against the listing.
pub open spec fn reconciled_files(files: Seq<FileView>, lib: i32, l: Seq<EntryView>) -> Seq<FileView> {
    files.map_values(|f: FileView| reconcile_file(f, lib, l))
}

/// The catalog after scanning library `lib` against listing `l` at time `now`.
pub open spec fn scan_model(c: CatalogView, lib: i32, l: Seq<EntryView>, now: i64) -> (CatalogView, Result<(), CatalogError>) {
    let c1 = CatalogView { files: reconciled_files(c.files, lib, l), ..c };
    insert_all_model(c1, lib, l, c.files, now)
}

pub proof fn lemma_first_stat_prefix(l: Seq<EntryView>, n: int, p: Seq<char>)
    requires
        0 <= n <= l.len(),
        first_stat(l.subrange(0, n), p) is Some,
    ensures
        first_stat(l, p) == first_stat(l.subrange(0, n), p),
    decreases l.len(),
{
    if l.len() == n {
        assert(l.subrange(0, n) =~= l);
    } else {
        assert(l.drop_last().subrange(0, n) =~= l.subrange(0, n));
        lemma_first_stat_prefix(l.drop_last(), n, p);
    }
}

/// Once an insertion is refused, later entries change nothing.
pub proof fn lemma_insert_all_stops(c: CatalogView, lib: i32, l: Seq<EntryView>, n: int, before: Seq<FileView>, now: i64)
    requires
        0 <= n <= l.len(),
        insert_all_model(c, lib, l.subrange(0, n), before, now).1 is Err,
    ensures
        insert_all_model(c, lib, l, before, now) == insert_all_model(c, lib, l.subrange(0, n), before, now),
    decreases l.len(),
{
    if l.len() == n {
        assert(l.subrange(0, n) =~= l);
    } else {
        assert(l.drop_last().subrange(0, n) =~= l.subrange(0, n));
        lemma_insert_all_stops(c, lib, l.drop_last(), n, before, now);
    }
}

/// Whether a file entry before position `n` of the listing has path `p`.
pub open spec fn sighted(l: Seq<EntryView>, n: int, p: Seq<char>) -> bool {
    exists|j: int| 0 <= j < n && !l[j].is_dir && #[trigger] l[j].path == p
}

proof fn lemma_first_stat_none(l: Seq<EntryView>, p: Seq<char>)
    requires
        first_stat(l, p) is None,
    ensures
        forall|j: int| 0 <= j < l.len() ==> !(!l[j].is_dir && #[trigger] l[j].path == p),
    decreases l.len(),
{
    if l.len() > 0 {
        lemma_first_stat_none(l.drop_last(), p);
        assert forall|j: int| 0 <= j < l.len() implies !(!l[j].is_dir && #[trigger] l[j].path == p) by {
            if j < l.len() - 1 {
                assert(l[j] == l.drop_last()[j]);
            }
        }
    }
}

fn first_listed(listing: &Vec<ListedEntry>, upto: usize, p: &String) -> (r: Option<(i64, i64)>)
    requires
        upto <= listing@.len(),
    ensures
        r == first_stat(listing_view(listing@).subrange(0, upto as int), p@),
{
    let ghost lv = listing_view(listing@).subrange(0, upto as int);
    let mut i: usize = 0;
    while i < upto
        invariant
            i <= upto <= listing@.len(),
            lv == listing_view(listing@).subrange(0, upto as int),
            first_stat(lv.subrange(0, i as int), p@) is None,
        decreases upto - i,
    {
        let ghost next = lv.subrange(0, i + 1);
        assert(next.drop_last() =~= lv.subrange(0, i as int));
        assert(next.last() == listing@[i as int]@);
        if !listing[i].is_dir && listing[i].path == *p {
            proof {
                lemma_first_stat_prefix(lv, i + 1, p@);
            }
            return Some((listing[i].size, listing[i].mtime));
        }
        i += 1;
    }
    assert(lv.subrange(0, i as int) =~= lv);
    None
}

fn record_path(f: &FileEntry) -> (r: String)
    ensures
        r@ == file_path(f@),
{
    let mut r = f.parent_path.clone();
    r.append(f.filename.as_str());
    r
}

fn with_state(f: &FileEntry, size: i64, mtime: i64, status: FileStatus) -> (r: FileEntry)
    ensures
        r@ == (FileView { size, mtime, status, ..f@ }),
{
    FileEntry {
        id: f.id,
        library_id: f.library_id,
        parent_path: f.parent_path.clone(),
        filename: f.filename.clone(),
        extension: clone_text(&f.extension),
        size,
        mtime,
        hash: clone_text(&f.hash),
        status,
        indexed_at: f.indexed_at,
    }
}

fn clone_text(s: &Option<String>) -> (r: Option<String>)
    ensures
        opt_view(r) == opt_view(*s),
{
    match s {
        Some(t) => Some(t.clone()),
        None => None,
    }
}

fn thumb_type_string() -> (r: String)
    ensures
        r@ == thumb_type(),
{
    proof {
        reveal_strlit("thumb");
    }
    let r = String::from_str("thumb");
    assert(r@ =~= thumb_type());
    r
}

/// Brings a library's records into agreement with a storage listing.
pub struct Scanner {}

impl Scanner {
    pub fn new() -> (r: Scanner) {
        Scanner {}
    }

    /// Reconciles the records of `library` with `listing`, observed at `now`
    /// (epoch seconds). Directory entries are skipped and only the first
    /// sighting of a path counts. Each record of the library takes the state
    /// `reconcile_file` gives it; each new path gets a record, its directory's
    /// tag chain with an `auto` link, and a thumbnail task, in listing order.
    /// `Full` is returned when a table runs out of ids; rows written before
    /// that stay written.
    pub fn scan_library(&self, catalog: &mut Catalog, library: &Library, listing: &Vec<ListedEntry>, now: i64) -> (r: Result<ScanReport, CatalogError>)
        requires
            old(catalog)@.wf(),
        ensures
            final(catalog)@.wf(),
            final(catalog)@ == scan_model(old(catalog)@, library.id, listing_view(listing@), now).0,
            r is Ok <==> scan_model(old(catalog)@, library.id, listing_view(listing@), now).1 is Ok,
            r is Err ==> r == Err::<ScanReport, CatalogError>(scan_model(old(catalog)@, library.id, listing_view(listing@), now).1->Err_0),
            r is Ok ==> r->Ok_0.inserted == final(catalog)@.files.len() - old(catalog)@.files.len(),
            r is Ok ==> r->Ok_0.updated == update_count(old(catalog)@.files, library.id, listing_view(listing@)),
            r is Ok ==> r->Ok_0.lost == loss_count(old(catalog)@.files, library.id, listing_view(listing@)),
    {
        let ghost c0 = catalog@;
        let ghost lv = listing_view(listing@);
        let lib = library.id;
        let n0 = catalog.files.len();
        let mut updated: u64 = 0;
        let mut lost: u64 = 0;
        let mut k: usize = 0;
        assert(lv.subrange(0, listing@.len() as int) =~= lv);
        while k < n0
            invariant
                k <= n0 == c0.files.len() == catalog@.files.len(),
                n0 <= ID_LIMIT,
                lv == listing_view(listing@),
                lib == library.id,
                c0 == old(catalog)@,
                lv.subrange(0, lv.len() as int) == lv,
                catalog@.tags == c0.tags,
                catalog@.links == c0.links,
                catalog@.tasks == c0.tasks,
                c0.wf(),
                forall|j: int| 0 <= j < k ==> #[trigger] catalog@.files[j] == reconcile_file(c0.files[j], lib, lv),
                forall|j: int| k <= j < n0 ==> #[trigger] catalog@.files[j] == c0.files[j],
                updated == update_count(c0.files.subrange(0, k as int), lib, lv),
                lost == loss_count(c0.files.subrange(0, k as int), lib, lv),
                updated <= k,
                lost <= k,
            decreases n0 - k,
        {
            let ghost f0 = c0.files[k as int];
            let ghost pre = c0.files.subrange(0, k as int);
            assert(c0.files.subrange(0, k + 1).drop_last() =~= pre);
            assert(c0.files.subrange(0, k + 1).last() == f0);
            let ghost raw0 = catalog.files@;
            let ghost v0 = catalog@.files;
            assert(v0[k as int] == c0.files[k as int]);
            assert(v0[k as int] == raw0[k as int]@);
            if catalog.files[k].library_id == lib {
                let p = record_path(&catalog.files[k]);
                match first_listed(listing, listing.len(), &p) {
                    None => {
                        if catalog.files[k].status == FileStatus::Active {
                            let size = catalog.files[k].size;
                            let mtime = catalog.files[k].mtime;
                            let changed = with_state(&catalog.files[k], size, mtime, FileStatus::Lost);
                            catalog.files.set(k, changed);
                            lost = lost + 1;
                        }
                    },
                    Some((size, mtime)) => {
                        if size != catalog.files[k].size || mtime != catalog.files[k].mtime {
                            let changed = with_state(&catalog.files[k], size, mtime, FileStatus::Active);
                            catalog.files.set(k, changed);
                            updated = updated + 1;
                        }
                    },
                }
            }
            assert(catalog.files@.len() == n0);
            assert forall|j: int| 0 <= j < n0 && j != k implies #[trigger] catalog@.files[j] == v0[j] by {
                assert(catalog.files@[j] == raw0[j]);
                assert(v0[j] == raw0[j]@);
            }
            assert(catalog@.files[k as int] == reconcile_file(f0, lib, lv));
            k += 1;
        }
        assert(catalog@.files =~= reconciled_files(c0.files, lib, lv));
        assert(c0.files.subrange(0, n0 as int) =~= c0.files);
        let ghost c1 = catalog@;
        assert(c1.wf()) by {
            assert forall|j: int| 0 <= j < c1.files.len() implies #[trigger] c1.files[j].id == j + 1 by {
                assert(c1.files[j] == reconcile_file(c0.files[j], lib, lv));
            }
        }

        let tagger = PathTagger::new(TagManager::new());
        let mut i: usize = 0;
        assert(lv.subrange(0, 0) =~= Seq::<EntryView>::empty());
        while i < listing.len()
            invariant
                i <= listing@.len() == lv.len(),
                lv == listing_view(listing@),
                n0 == c0.files.len(),
                c0 == old(catalog)@,
                lib == library.id,
                c1 == (CatalogView { files: reconciled_files(c0.files, lib, lv), ..c0 }),
                catalog@.wf(),
                catalog@.files.len() >= n0,
                forall|j: int| 0 <= j < n0 ==> #[trigger] catalog@.files[j] == c1.files[j],
                forall|k: int| n0 <= k < catalog@.files.len() ==> sighted(lv, i as int, file_path(#[trigger] catalog@.files[k])),
                insert_all_model(c1, lib, lv.subrange(0, i as int), c0.files, now) == (catalog@, Ok::<(), CatalogError>(())),
            decreases listing@.len() - i,
        {
            let ghost pre = lv.subrange(0, i as int);
            let ghost next = lv.subrange(0, i + 1);
            assert(next.drop_last() =~= pre);
            assert(next.last() == listing@[i as int]@);
            assert(next.subrange(0, i as int) =~= pre);
            let entry = &listing[i];
            let mut fresh = !entry.is_dir;
            if fresh {
                fresh = first_listed(listing, i, &entry.path).is_none();
            }
            if fresh {
                let mut j: usize = 0;
                let mut found = false;
                while j < n0
                    invariant_except_break
                        !found,
                    invariant
                        j <= n0 == c0.files.len() <= catalog@.files.len(),
                        c1.files.len() == n0,
                        forall|q: int| 0 <= q < n0 ==> #[trigger] catalog@.files[q] == c1.files[q],
                        forall|q: int| 0 <= q < n0 ==> #[trigger] c1.files[q] == reconcile_file(c0.files[q], lib, lv),
                        forall|q: int| 0 <= q < j ==> !(c0.files[q].library_id == lib && #[trigger] file_path(c0.files[q]) == entry.path@),
                    ensures
                        !found ==> forall|q: int| 0 <= q < n0 ==> !(c0.files[q].library_id == lib && #[trigger] file_path(c0.files[q]) == entry.path@),
                        found ==> j < n0 && c0.files[j as int].library_id == lib && file_path(c0.files[j as int]) == entry.path@,
                    decreases n0 - j,
                {
                    assert(catalog@.files[j as int] == reconcile_file(c0.files[j as int], lib, lv));
                    if catalog.files[j].library_id == lib {
                        let p = record_path(&catalog.files[j]);
                        if p == entry.path {
                            found = true;
                            break;
                        }
                    }
                    j += 1;
                }
                if found {
                    assert(keyed(c0.files, lib, entry.path@));
                    fresh = false;
                }
            }
            assert(fresh == is_new_entry(next, i as int, lib, c0.files));
            if fresh {
                if catalog.files.len() >= ID_LIMIT || catalog.tasks.len() >= ID_LIMIT {
                    proof {
                        assert(insert_all_model(c1, lib, next, c0.files, now) == insert_new_model(catalog@, lib, next.last(), now));
                        lemma_insert_all_stops(c1, lib, lv, i + 1, c0.files, now);

                    }
                    return Err(CatalogError::Full);
                }
                let ghost cb = catalog@;
                let (parent, filename) = split_path(entry.path.as_str());
                let dir = parent.clone();
                let extension = file_extension(filename.as_str());
                let id = (catalog.files.len() + 1) as i32;
                let record = FileEntry {
                    id,
                    library_id: lib,
                    parent_path: parent,
                    filename,
                    extension,
                    size: entry.size,
                    mtime: entry.mtime,
                    hash: None,
                    status: FileStatus::Active,
                    indexed_at: now,
                };
                let ghost rec = record@;
                proof {
                    lemma_new_record_path(cb.files.len() + 1, lib, lv[i as int], now);
                    lemma_first_stat_none(pre, lv[i as int].path);
                }
                catalog.files.push(record);
                assert(rec == new_record(cb.files.len() + 1, lib, lv[i as int], now));
                assert(catalog@.files =~= cb.files.push(new_record(cb.files.len() + 1, lib, lv[i as int], now)));
                assert(catalog@ == CatalogView { files: cb.files.push(new_record(cb.files.len() + 1, lib, lv[i as int], now)), ..cb });
                assert forall|a: int, b: int| 0 <= a < b < catalog@.files.len() implies !(catalog@.files[a].library_id
                    == catalog@.files[b].library_id && #[trigger] file_path(catalog@.files[a]) == #[trigger] file_path(catalog@.files[b])) by {
                    if b == cb.files.len() {
                        assert(catalog@.files[a] == cb.files[a]);
                        if a < n0 {
                            assert(catalog@.files[a] == reconcile_file(c0.files[a], lib, lv));
                            if catalog@.files[a].library_id == lib && file_path(catalog@.files[a]) == lv[i as int].path {
                                assert(file_path(c0.files[a]) == lv[i as int].path);
                                assert(keyed(c0.files, lib, lv[i as int].path));
                            }
                        } else {
                            assert(sighted(lv, i as int, file_path(cb.files[a])));
                            let j = choose|j: int| 0 <= j < i && !lv[j].is_dir && #[trigger] lv[j].path == file_path(cb.files[a]);
                            assert(pre[j] == lv[j]);
                        }
                    } else {
                        assert(catalog@.files[a] == cb.files[a]);
                        assert(catalog@.files[b] == cb.files[b]);
                    }
                }
                assert forall|k: int| n0 <= k < catalog@.files.len() implies sighted(lv, i + 1, file_path(#[trigger] catalog@.files[k])) by {
                    if k < cb.files.len() {
                        assert(catalog@.files[k] == cb.files[k]);
                        assert(sighted(lv, i as int, file_path(cb.files[k])));
                    } else {
                        assert(lv[i as int].path == file_path(catalog@.files[k]));
                    }
                }
                let tagged = tagger.process_path(catalog, id, dir.as_str());
                match tagged {
                    Err(e) => {
                        proof {
                            lemma_insert_all_stops(c1, lib, lv, i + 1, c0.files, now);
                        }
                        return Err(e);
                    },
                    Ok(_) => {},
                }
                catalog.push_task(id, thumb_type_string(), 0);
            }
            i += 1;
        }
        assert(lv.subrange(0, i as int) =~= lv);
        let inserted = (catalog.files.len() - n0) as u64;
        Ok(ScanReport { inserted, updated, lost })
    }
}

/// Inserting one new file appends to the files and links, and every link it
/// adds belongs to the new file.
proof fn lemma_insert_new_grows(c: CatalogView, lib: i32, e: EntryView, now: i64)
    ensures
        ({
            let r = insert_new_model(c, lib, e, now).0;
            &&& r.files.len() >= c.files.len()
            &&& r.files.subrange(0, c.files.len() as int) =~= c.files
            &&& r.links.len() >= c.links.len()
            &&& r.links.subrange(0, c.links.len() as int) =~= c.links
            &&& forall|j: int| c.links.len() <= j < r.links.len() ==> #[trigger] r.links[j].file_id == c.files.len() + 1
        }),
{
    if !(c.files.len() >= ID_LIMIT || c.tasks.len() >= ID_LIMIT) {
        let id = c.files.len() + 1;
        let c1 = CatalogView { files: c.files.push(new_record(id, lib, e, now)), ..c };
        assert(c1.files.subrange(0, c.files.len() as int) =~= c.files);
        let r = insert_new_model(c, lib, e, now).0;
        assert(r.links.subrange(0, c.links.len() as int) =~= c.links);
    }
}

/// The insertion phase only appends to files and links, and every link it
/// adds belongs to a newly inserted file.
pub proof fn lemma_insert_all_grows(c: CatalogView, lib: i32, l: Seq<EntryView>, before: Seq<FileView>, now: i64)
    ensures
        ({
            let r = insert_all_model(c, lib, l, before, now).0;
            &&& r.files.len() >= c.files.len()
            &&& r.files.subrange(0, c.files.len() as int) =~= c.files
            &&& r.links.len() >= c.links.len()
            &&& r.links.subrange(0, c.links.len() as int) =~= c.links
            &&& forall|j: int| c.links.len() <= j < r.links.len() ==> #[trigger] r.links[j].file_id > c.files.len()
        }),
    decreases l.len(),
{
    if l.len() > 0 {
        lemma_insert_all_grows(c, lib, l.drop_last(), before, now);
        let (c1, r1) = insert_all_model(c, lib, l.drop_last(), before, now);
        if r1 is Ok && is_new_entry(l, l.len() - 1, lib, before) {
            lemma_insert_new_grows(c1, lib, l.last(), now);
            let r = insert_all_model(c, lib, l, before, now).0;
            assert(r == insert_new_model(c1, lib, l.last(), now).0);
            assert(r.files.subrange(0, c.files.len() as int) =~= r.files.subrange(0, c1.files.len() as int).subrange(0, c.files.len() as int));
            assert(r.links.subrange(0, c.links.len() as int) =~= r.links.subrange(0, c1.links.len() as int).subrange(0, c.links.len() as int));
            assert forall|j: int| c.links.len() <= j < r.links.len() implies #[trigger] r.links[j].file_id > c.files.len() by {
                if j < c1.links.len() {
                    assert(r.links[j] == r.links.subrange(0, c1.links.len() as int)[j]);
                    assert(c1.links[j].file_id > c.files.len());
                }
            }
        }
    }
}

/// Removal: a record of the library whose path is no longer listed becomes
/// Lost and keeps its row, and every existing tag link stays.
pub proof fn lemma_scan_absent_becomes_lost(c: CatalogView, lib: i32, l: Seq<EntryView>, now: i64, k: int)
    requires
        0 <= k < c.files.len(),
        c.files[k].library_id == lib,
        first_stat(l, file_path(c.files[k])) is None,
    ensures
        ({
            let r = scan_model(c, lib, l, now).0;
            &&& k < r.files.len()
            &&& r.files[k] == (FileView { status: FileStatus::Lost, ..c.files[k] })
            &&& r.links.len() >= c.links.len()
            &&& r.links.subrange(0, c.links.len() as int) == c.links
        }),
{
    let c1 = CatalogView { files: reconciled_files(c.files, lib, l), ..c };
    lemma_insert_all_grows(c1, lib, l, c.files, now);
    let r = scan_model(c, lib, l, now).0;
    assert(r.files[k] == r.files.subrange(0, c1.files.len() as int)[k]);
}

/// Update: a record of the library listed with another size or mtime takes
/// them and is Active; existing tag links stay, and the scan links no tag to it.
pub proof fn lemma_scan_changed_is_updated(c: CatalogView, lib: i32, l: Seq<EntryView>, now: i64, k: int, size: i64, mtime: i64)
    requires
        c.wf(),
        0 <= k < c.files.len(),
        c.files[k].library_id == lib,
        first_stat(l, file_path(c.files[k])) == Some((size, mtime)),
    ensures
        ({
            let r = scan_model(c, lib, l, now).0;
            &&& k < r.files.len()
            &&& (size != c.files[k].size || mtime != c.files[k].mtime) ==> r.files[k] == (FileView {
                size,
                mtime,
                status: FileStatus::Active,
                ..c.files[k]
            })
            &&& (size == c.files[k].size && mtime == c.files[k].mtime) ==> r.files[k] == c.files[k]
            &&& r.links.len() >= c.links.len()
            &&& r.links.subrange(0, c.links.len() as int) == c.links
            &&& forall|j: int| c.links.len() <= j < r.links.len() ==> #[trigger] r.links[j].file_id != c.files[k].id
        }),
{
    let c1 = CatalogView { files: reconciled_files(c.files, lib, l), ..c };
    lemma_insert_all_grows(c1, lib, l, c.files, now);
    let r = scan_model(c, lib, l, now).0;
    assert(r.files[k] == r.files.subrange(0, c1.files.len() as int)[k]);
    assert(c.files[k].id == k + 1);
}

proof fn lemma_first_stat_some(l: Seq<EntryView>, p: Seq<char>)
    requires
        first_stat(l, p) is Some,
    ensures
        exists|j: int| 0 <= j < l.len() && !l[j].is_dir && #[trigger] l[j].path == p,
    decreases l.len(),
{
    if first_stat(l.drop_last(), p) is Some {
        lemma_first_stat_some(l.drop_last(), p);
        let j = choose|j: int| 0 <= j < l.drop_last().len() && !l.drop_last()[j].is_dir && #[trigger] l.drop_last()[j].path == p;
        assert(l[j] == l.drop_last()[j]);
    } else {
        assert(l[l.len() - 1] == l.last());
    }
}

proof fn lemma_new_record_path(id: nat, lib: i32, e: EntryView, now: i64)
    ensures
        file_path(new_record(id, lib, e, now)) == e.path,
{
    crate::text::lemma_after_last_suffix(e.path, '/');
    assert(before_last(e.path, '/') + after_last(e.path, '/') =~= e.path);
}

/// Records appended by the insertion phase belong to the library, are
/// Active, and carry the stat the listing first gives for their path.
proof fn lemma_insert_all_records(c: CatalogView, lib: i32, l: Seq<EntryView>, before: Seq<FileView>, now: i64)
    ensures
        ({
            let r = insert_all_model(c, lib, l, before, now).0;
            forall|k: int|
                c.files.len() <= k < r.files.len() ==> {
                    &&& (#[trigger] r.files[k]).library_id == lib
                    &&& r.files[k].status == FileStatus::Active
                    &&& first_stat(l, file_path(r.files[k])) == Some((r.files[k].size, r.files[k].mtime))
                }
        }),
    decreases l.len(),
{
    if l.len() > 0 {
        let l0 = l.drop_last();
        lemma_insert_all_records(c, lib, l0, before, now);
        lemma_insert_all_grows(c, lib, l0, before, now);
        let (c1, r1) = insert_all_model(c, lib, l0, before, now);
        let r = insert_all_model(c, lib, l, before, now).0;
        assert(l.subrange(0, l.len() - 1) =~= l0);
        assert forall|k: int| c.files.len() <= k < c1.files.len() implies
            first_stat(l, file_path(#[trigger] c1.files[k])) == first_stat(l0, file_path(c1.files[k])) by {
            lemma_first_stat_prefix(l, l.len() - 1, file_path(c1.files[k]));
        }
        if r1 is Ok && is_new_entry(l, l.len() - 1, lib, before) {
            lemma_insert_new_grows(c1, lib, l.last(), now);
            let e = l.last();
            if !(c1.files.len() >= ID_LIMIT || c1.tasks.len() >= ID_LIMIT) {
                lemma_new_record_path(c1.files.len() + 1, lib, e, now);
                assert(r.files[c1.files.len() as int] == new_record(c1.files.len() + 1, lib, e, now));
            }
            assert forall|k: int| c.files.len() <= k < r.files.len() implies {
                &&& (#[trigger] r.files[k]).library_id == lib
                &&& r.files[k].status == FileStatus::Active
                &&& first_stat(l, file_path(r.files[k])) == Some((r.files[k].size, r.files[k].mtime))
            } by {
                if k < c1.files.len() {
                    assert(r.files[k] == r.files.subrange(0, c1.files.len() as int)[k]);
                }
            }
        }
    }
}

/// After a successful insertion phase, every listed file has a record.
proof fn lemma_insert_all_covers(c: CatalogView, lib: i32, l: Seq<EntryView>, before: Seq<FileView>, now: i64)
    requires
        forall|k: int| 0 <= k < before.len() && (#[trigger] before[k]).library_id == lib ==> k < c.files.len()
            && c.files[k].library_id == lib && file_path(c.files[k]) == file_path(before[k]),
        insert_all_model(c, lib, l, before, now).1 is Ok,
    ensures
        forall|i: int| 0 <= i < l.len() && !l[i].is_dir ==> keyed(insert_all_model(c, lib, l, before, now).0.files, lib, #[trigger] l[i].path),
    decreases l.len(),
{
    if l.len() > 0 {
        let l0 = l.drop_last();
        let (c1, r1) = insert_all_model(c, lib, l0, before, now);
        assert(r1 is Ok);
        lemma_insert_all_covers(c, lib, l0, before, now);
        lemma_insert_all_grows(c, lib, l0, before, now);
        let r = insert_all_model(c, lib, l, before, now).0;
        if is_new_entry(l, l.len() - 1, lib, before) {
            lemma_insert_new_grows(c1, lib, l.last(), now);
        }
        assert(r.files.len() >= c1.files.len());
        assert(r.files.subrange(0, c1.files.len() as int) =~= c1.files) by {
            if is_new_entry(l, l.len() - 1, lib, before) {
                lemma_insert_new_grows(c1, lib, l.last(), now);
            }
        }
        assert forall|i: int| 0 <= i < l.len() && !l[i].is_dir implies keyed(r.files, lib, #[trigger] l[i].path) by {
            if i < l.len() - 1 {
                assert(l[i] == l0[i]);
                let q = choose|q: int| 0 <= q < c1.files.len() && c1.files[q].library_id == lib && #[trigger] file_path(c1.files[q]) == l0[i].path;
                assert(r.files[q] == r.files.subrange(0, c1.files.len() as int)[q]);
            } else {
                let e = l.last();
                assert(l.subrange(0, l.len() - 1) =~= l0);
                if is_new_entry(l, l.len() - 1, lib, before) {
                    let id = c1.files.len() + 1;
                    lemma_new_record_path(id, lib, e, now);
                    assert(r.files[c1.files.len() as int] == new_record(id, lib, e, now));
                } else if first_stat(l0, e.path) is Some {
                    lemma_first_stat_some(l0, e.path);
                    let j = choose|j: int| 0 <= j < l0.len() && !l0[j].is_dir && #[trigger] l0[j].path == e.path;
                    assert(l[j] == l0[j]);
                    let q = choose|q: int| 0 <= q < c1.files.len() && c1.files[q].library_id == lib && #[trigger] file_path(c1.files[q]) == l0[j].path;
                    assert(r.files[q] == r.files.subrange(0, c1.files.len() as int)[q]);
                } else {
                    let q = choose|q: int| 0 <= q < before.len() && before[q].library_id == lib && #[trigger] file_path(before[q]) == e.path;
                    assert(q < c.files.len() && c.files[q].library_id == lib && file_path(c.files[q]) == file_path(before[q]));
                    assert(c1.files[q] == c1.files.subrange(0, c.files.len() as int)[q]);
                    assert(r.files[q] == r.files.subrange(0, c1.files.len() as int)[q]);
                }
            }
        }
    }
}

/// With every listed file already keyed, the insertion phase does nothing.
proof fn lemma_insert_all_nothing_new(c: CatalogView, lib: i32, l: Seq<EntryView>, before: Seq<FileView>, now: i64)
    requires
        forall|i: int| 0 <= i < l.len() && !l[i].is_dir ==> keyed(before, lib, #[trigger] l[i].path),
    ensures
        insert_all_model(c, lib, l, before, now) == (c, Ok::<(), CatalogError>(())),
    decreases l.len(),
{
    if l.len() > 0 {
        assert forall|i: int| 0 <= i < l.drop_last().len() && !l.drop_last()[i].is_dir implies keyed(before, lib, #[trigger] l.drop_last()[i].path) by {
            assert(l.drop_last()[i] == l[i]);
        }
        lemma_insert_all_nothing_new(c, lib, l.drop_last(), before, now);
        if !l.last().is_dir {
            assert(keyed(before, lib, l[l.len() - 1].path));
        }
    }
}

/// Records at their fixed point write nothing.
proof fn lemma_counts_zero(files: Seq<FileView>, lib: i32, l: Seq<EntryView>)
    requires
        forall|k: int| 0 <= k < files.len() ==> reconcile_file(#[trigger] files[k], lib, l) == files[k],
    ensures
        update_count(files, lib, l) == 0,
        loss_count(files, lib, l) == 0,
    decreases files.len(),
{
    if files.len() > 0 {
        assert forall|k: int| 0 <= k < files.drop_last().len() implies reconcile_file(#[trigger] files.drop_last()[k], lib, l) == files.drop_last()[k] by {
            assert(files.drop_last()[k] == files[k]);
        }
        lemma_counts_zero(files.drop_last(), lib, l);
        let f = files.last();
        assert(reconcile_file(files[files.len() - 1], lib, l) == files[files.len() - 1]);
    }
}

/// Idempotence: scanning a second time against the same listing changes no
/// record, tag, link or task, and counts no update and no loss; with the
/// unchanged table, no insertion either.
pub proof fn lemma_scan_idempotent(c: CatalogView, lib: i32, l: Seq<EntryView>, first_at: i64, second_at: i64)
    requires
        scan_model(c, lib, l, first_at).1 is Ok,
    ensures
        ({
            let c1 = scan_model(c, lib, l, first_at).0;
            &&& scan_model(c1, lib, l, second_at) == (c1, Ok::<(), CatalogError>(()))
            &&& update_count(c1.files, lib, l) == 0
            &&& loss_count(c1.files, lib, l) == 0
        }),
{
    let c0 = CatalogView { files: reconciled_files(c.files, lib, l), ..c };
    let c1 = scan_model(c, lib, l, first_at).0;
    lemma_insert_all_grows(c0, lib, l, c.files, first_at);
    lemma_insert_all_records(c0, lib, l, c.files, first_at);
    assert forall|k: int| 0 <= k < c1.files.len() implies reconcile_file(#[trigger] c1.files[k], lib, l) == c1.files[k] by {
        if k < c.files.len() {
            assert(c1.files[k] == c1.files.subrange(0, c0.files.len() as int)[k]);
            assert(c1.files[k] == reconcile_file(c.files[k], lib, l));
        }
    }
    assert(reconciled_files(c1.files, lib, l) =~= c1.files);
    assert forall|k: int| 0 <= k < c.files.len() && (#[trigger] c.files[k]).library_id == lib implies k < c0.files.len()
        && c0.files[k].library_id == lib && file_path(c0.files[k]) == file_path(c.files[k]) by {
        assert(c0.files[k] == reconcile_file(c.files[k], lib, l));
    }
    lemma_insert_all_covers(c0, lib, l, c.files, first_at);
    lemma_insert_all_nothing_new(c1, lib, l, c1.files, second_at);
    assert((CatalogView { files: reconciled_files(c1.files, lib, l), ..c1 }) == c1);
    lemma_counts_zero(c1.files, lib, l);
}

} // verus!
