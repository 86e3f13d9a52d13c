//! Listing cataloged files: filtered by tag, newest first, one page at a time.

use vstd::prelude::*;
use crate::catalog::{Catalog, CatalogView, FileEntry, FileView, Tag, TagView, opt_view, tag_views};
use crate::dto::{FileItem, FileQuery, FileResponse};

verus! {

/// Whether tag `u` is `t` or lies below it, following at most `fuel` parents.
pub open spec fn descends(tags: Seq<TagView>, u: i32, t: i32, fuel: nat) -> bool
    decreases fuel,
{
    u == t || (fuel > 0 && 1 <= u <= tags.len() && tags[u - 1].parent_id is Some && descends(
        tags,
        tags[u - 1].parent_id->0,
        t,
        (fuel - 1) as nat,
    ))
}

/// Whether a link to `tag` counts for a filter on `wanted`.
pub open spec fn tag_matches(tags: Seq<TagView>, wanted: i32, recursive: bool, tag: i32) -> bool {
    if recursive {
        descends(tags, tag, wanted, tags.len())
    } else {
        tag == wanted
    }
}

/// Whether a file passes the tag filter.
pub open spec fn file_selected(c: CatalogView, tag_filter: Option<i32>, recursive: bool, f: FileView) -> bool {
    match tag_filter {
        None => true,
        Some(t) => exists|j: int|
            0 <= j < c.links.len() && #[trigger] c.links[j].file_id == f.id && tag_matches(c.tags, t, recursive, c.links[j].tag_id),
    }
}

/// Listing order: newer mtime first, then smaller id.
pub open spec fn listed_before(a: FileView, b: FileView) -> bool {
    a.mtime > b.mtime || (a.mtime == b.mtime && a.id < b.id)
}

/// `s` lists the indices of exactly the selected files, in listing order.
pub open spec fn is_listing(c: CatalogView, tag_filter: Option<i32>, recursive: bool, s: Seq<int>) -> bool {
    &&& forall|i: int| 0 <= i < s.len() ==> 0 <= #[trigger] s[i] < c.files.len()
    &&& forall|i: int, j: int| 0 <= i < j < s.len() ==> listed_before(c.files[#[trigger] s[i]], c.files[#[trigger] s[j]])
    &&& forall|k: int|
        0 <= k < c.files.len() ==> (s.contains(k) <==> file_selected(c, tag_filter, recursive, #[trigger] c.files[k]))
}

/// First position of the page: `(page - 1) * limit`, at least 0.
pub open spec fn page_start(page: i64, limit: i64) -> int {
    let o = (page - 1) * limit;
    if o < 0 {
        0
    } else {
        o
    }
}

/// End of the page among `n` rows: no bound for a negative limit.
pub open spec fn page_end(page: i64, limit: i64, n: int) -> int {
    if limit < 0 {
        n
    } else if page_start(page, limit) + limit < n {
        page_start(page, limit) + limit
    } else {
        n
    }
}

pub open spec fn item_matches(item: FileItem, f: FileView) -> bool {
    &&& item.id == f.id
    &&& item.filename@ == f.filename
    &&& opt_view(item.extension) == f.extension
    &&& item.size == f.size
    &&& item.mtime == f.mtime
    &&& item.parent_path@ == f.parent_path
}

/// Whether `items` is the requested page of the listing `s`.
pub open spec fn listing_page(c: CatalogView, query: FileQuery, s: Seq<int>, items: Seq<FileItem>) -> bool {
    let recursive = match query.recursive {
        Some(b) => b,
        None => true,
    };
    let limit = match query.limit {
        Some(l) => l,
        None => 50i64,
    };
    let page = match query.page {
        Some(p) => p,
        None => 1i64,
    };
    &&& is_listing(c, query.tag_id, recursive, s)
    &&& items.len() == (if page_start(page, limit) < s.len() {
        page_end(page, limit, s.len() as int) - page_start(page, limit)
    } else {
        0
    })
    &&& forall|j: int| 0 <= j < items.len() ==> item_matches(#[trigger] items[j], c.files[s[page_start(page, limit) + j]])
}

fn descends_exec(tags: &Vec<Tag>, u: i32, t: i32) -> (r: bool)
    ensures
        r == descends(tag_views(tags@), u, t, tags@.len()),
{
    let ghost tv = tag_views(tags@);
    let mut cur = u;
    let mut fuel: usize = tags.len();
    loop
        invariant
            tv == tag_views(tags@),
            fuel <= tags@.len(),
            descends(tv, u, t, tags@.len()) == descends(tv, cur, t, fuel as nat),
        decreases fuel,
    {
        if cur == t {
            return true;
        }
        if fuel == 0 || cur < 1 || cur as usize > tags.len() {
            return false;
        }
        match tags[(cur - 1) as usize].parent_id {
            None => {
                return false;
            },
            Some(p) => {
                cur = p;
                fuel = fuel - 1;
            },
        }
    }
}

fn clone_opt(s: &Option<String>) -> (r: Option<String>)
    ensures
        opt_view(r) == opt_view(*s),
{
    match s {
        Some(t) => Some(t.clone()),
        None => None,
    }
}

fn item_of(f: &FileEntry) -> (r: FileItem)
    ensures
        item_matches(r, f@),
{
    FileItem {
        id: f.id,
        filename: f.filename.clone(),
        extension: clone_opt(&f.extension),
        size: f.size,
        mtime: f.mtime,
        parent_path: f.parent_path.clone(),
    }
}

proof fn lemma_page_bounds(page: i64, limit: i64)
    ensures
        i128::MIN <= (page - 1) * limit <= i128::MAX,
{
    let a: int = page - 1;
    let b: int = limit as int;
    assert(-0x8000_0000_0000_0001 <= a <= 0x7fff_ffff_ffff_fffe);
    assert(-0x8000_0000_0000_0000 <= b <= 0x7fff_ffff_ffff_ffff);
    assert(-0x4000_0000_0000_0000_8000_0000_0000_0000 <= a * b <= 0x4000_0000_0000_0000_8000_0000_0000_0000) by (nonlinear_arith)
        requires
            -0x8000_0000_0000_0001 <= a <= 0x7fff_ffff_ffff_fffe,
            -0x8000_0000_0000_0000 <= b <= 0x7fff_ffff_ffff_ffff,
    ;
}

impl Catalog {
    /// Whether a file passes the tag filter of a listing.
    fn selects(&self, tag_filter: Option<i32>, recursive: bool, k: usize) -> (r: bool)
        requires
            k < self@.files.len(),
        ensures
            r == file_selected(self@, tag_filter, recursive, self@.files[k as int]),
    {
        match tag_filter {
            None => true,
            Some(t) => {
                let id = self.files[k].id;
                let mut j: usize = 0;
                while j < self.file_tags.len()
                    invariant
                        j <= self@.links.len(),
                        tag_filter == Some(t),
                        k < self@.files.len(),
                        id == self@.files[k as int].id,
                        forall|q: int|
                            0 <= q < j ==> !(#[trigger] self@.links[q].file_id == id && tag_matches(self@.tags, t, recursive, self@.links[q].tag_id)),
                    decreases self@.links.len() - j,
                {
                    let link = &self.file_tags[j];
                    if link.file_id == id {
                        let hit = if recursive {
                            descends_exec(&self.tags, link.tag_id, t)
                        } else {
                            link.tag_id == t
                        };
                        if hit {
                            assert(self@.links[j as int] == self.file_tags@[j as int]@);
                            assert(self@.links[j as int].file_id == self@.files[k as int].id);
                            assert(tag_matches(self@.tags, t, recursive, self@.links[j as int].tag_id));
                            return true;
                        }
                    }
                    j += 1;
                }
                false
            },
        }
    }

    /// One page of files, newest mtime first (smaller id first among equals).
    /// With a tag filter only files linked to that tag are listed, or, when
    /// `recursive` (the default), linked to it or to any tag below it. A page
    /// holds `limit` files (50 by default; no bound when negative) from
    /// position `(page - 1) * limit` (page 1 by default; from 0 when negative);
    /// `total` is the number of files on the page.
    pub fn list_files(&self, query: &FileQuery) -> (r: FileResponse)
        requires
            self@.wf(),
        ensures
            exists|s: Seq<int>| listing_page(self@, *query, s, r.items@),
            r.total == r.items@.len(),
    {
        let recursive = match query.recursive {
            Some(b) => b,
            None => true,
        };
        let limit = match query.limit {
            Some(l) => l,
            None => 50,
        };
        let page = match query.page {
            Some(p) => p,
            None => 1,
        };
        let ghost fv = self@.files;
        let n = self.files.len();
        let mut order: Vec<usize> = Vec::new();
        let mut k: usize = 0;
        while k < n
            invariant
                n == fv.len(),
                fv == self@.files,
                self@.wf(),
                k <= n,
                order@.len() <= k,
                forall|i: int| 0 <= i < order@.len() ==> #[trigger] order@[i] < k,
                forall|i: int, j: int| 0 <= i < j < order@.len() ==> listed_before(fv[#[trigger] order@[i] as int], fv[#[trigger] order@[j] as int]),
                forall|x: int|
                    0 <= x < n ==> (order@.map_values(|v: usize| v as int).contains(x) <==> x < k && file_selected(self@, query.tag_id, recursive, #[trigger] fv[x])),
            decreases n - k,
        {
            let ghost o0 = order@;
            if self.selects(query.tag_id, recursive, k) {
                let mut p: usize = 0;
                while p < order.len()
                    invariant
                        order@ == o0,
                        p <= order@.len(),
                        k < n == fv.len(),
                        fv == self@.files,
                        forall|i: int| 0 <= i < order@.len() ==> #[trigger] order@[i] < k,
                        forall|i: int| 0 <= i < p ==> !listed_before(fv[k as int], fv[#[trigger] order@[i] as int]),
                    ensures
                        p <= order@.len(),
                        forall|i: int| 0 <= i < p ==> !listed_before(fv[k as int], fv[#[trigger] order@[i] as int]),
                        p < order@.len() ==> listed_before(fv[k as int], fv[order@[p as int] as int]),
                    decreases order@.len() - p,
                {
                    let f = &self.files[k];
                    let g = &self.files[order[p]];
                    if f.mtime > g.mtime || (f.mtime == g.mtime && f.id < g.id) {
                        break;
                    }
                    p += 1;
                }
                order.insert(p, k);
                assert forall|i: int| 0 <= i < p implies listed_before(fv[#[trigger] order@[i] as int], fv[k as int]) by {
                    let a = o0[i] as int;
                    assert(order@[i] == o0[i]);
                    assert(fv[a].id == a + 1);
                    assert(fv[k as int].id == k + 1);
                }
                assert forall|i: int, j: int| 0 <= i < j < order@.len() implies listed_before(fv[#[trigger] order@[i] as int], fv[#[trigger] order@[j] as int]) by {
                    if j < p {
                        assert(order@[i] == o0[i] && order@[j] == o0[j]);
                    } else if j == p {
                        assert(order@[i] == o0[i]);
                    } else if i < p {
                        assert(order@[i] == o0[i] && order@[j] == o0[j - 1]);
                        assert(listed_before(fv[o0[i] as int], fv[k as int]));
                        if p < o0.len() {
                            assert(listed_before(fv[k as int], fv[o0[p as int] as int]));
                            if p < j - 1 {
                                assert(listed_before(fv[o0[p as int] as int], fv[o0[j - 1] as int]));
                            }
                        }
                    } else if i == p {
                        assert(order@[j] == o0[j - 1]);
                        assert(listed_before(fv[k as int], fv[o0[p as int] as int]));
                        if p < j - 1 {
                            assert(listed_before(fv[o0[p as int] as int], fv[o0[j - 1] as int]));
                        }
                    } else {
                        assert(order@[i] == o0[i - 1] && order@[j] == o0[j - 1]);
                    }
                }
                assert forall|x: int| 0 <= x < n implies (order@.map_values(|v: usize| v as int).contains(x) <==> x < k + 1
                    && file_selected(self@, query.tag_id, recursive, #[trigger] fv[x])) by {
                    let m0 = o0.map_values(|v: usize| v as int);
                    let m1 = order@.map_values(|v: usize| v as int);
                    if m1.contains(x) {
                        let i = choose|i: int| 0 <= i < m1.len() && m1[i] == x;
                        if i < p {
                            assert(m0[i] == x);
                        } else if i > p {
                            assert(m0[i - 1] == x);
                        }
                    }
                    if x < k + 1 && file_selected(self@, query.tag_id, recursive, fv[x]) {
                        if x == k {
                            assert(m1[p as int] == x);
                        } else {
                            let i = choose|i: int| 0 <= i < m0.len() && m0[i] == x;
                            if i < p {
                                assert(m1[i] == x);
                            } else {
                                assert(m1[i + 1] == x);
                            }
                        }
                    }
                }
            } else {
                assert forall|x: int| 0 <= x < n implies (order@.map_values(|v: usize| v as int).contains(x) <==> x < k + 1
                    && file_selected(self@, query.tag_id, recursive, #[trigger] fv[x])) by {
                    if x == k {
                        let m = order@.map_values(|v: usize| v as int);
                        if m.contains(x) {
                            let i = choose|i: int| 0 <= i < m.len() && m[i] == x;
                            assert(order@[i] < k);
                        }
                    }
                }
            }
            k += 1;
        }
        let ghost s = order@.map_values(|v: usize| v as int);
        assert forall|x: int| 0 <= x < n implies (s.contains(x) <==> file_selected(self@, query.tag_id, recursive, #[trigger] fv[x])) by {}
        assert(is_listing(self@, query.tag_id, recursive, s));

        proof {
            lemma_page_bounds(page, limit);
        }
        let raw: i128 = (page as i128 - 1) * (limit as i128);
        let start: usize = if raw <= 0 {
            0
        } else if raw >= order.len() as i128 {
            order.len()
        } else {
            raw as usize
        };
        let end: usize = if limit < 0 {
            order.len()
        } else if (start as i128) + (limit as i128) < order.len() as i128 {
            start + limit as usize
        } else {
            order.len()
        };
        let mut items: Vec<FileItem> = Vec::new();
        let mut i: usize = start;
        while i < end
            invariant
                start <= i <= end <= order@.len(),
                items@.len() == i - start,
                order@.len() <= n <= crate::catalog::ID_LIMIT,
                forall|j: int| 0 <= j < order@.len() ==> #[trigger] order@[j] < n,
                n == fv.len(),
                fv == self@.files,
                forall|j: int| 0 <= j < items@.len() ==> item_matches(#[trigger] items@[j], fv[order@[start + j] as int]),
            decreases end - i,
        {
            items.push(item_of(&self.files[order[i]]));
            i += 1;
        }
        let total = items.len() as i64;
        let ghost ps = page_start(page, limit);
        assert(raw == (page - 1) * limit);
        proof {
            if ps < s.len() {
                assert(start == ps);
                assert(end == page_end(page, limit, s.len() as int));
            } else {
                assert(start == end);
            }
        }
        assert forall|j: int| 0 <= j < items@.len() implies item_matches(#[trigger] items@[j], self@.files[s[page_start(page, limit) + j]]) by {
            assert(s[start + j] == order@[start + j] as int);
        }
        let r = FileResponse { items, total };
        assert(listing_page(self@, *query, s, r.items@));
        r
    }
}

} // verus!
