//! The hierarchical tag resolver: finds or creates the chain of tag nodes for
//! a list of path segments, and links files to tags.

use vstd::prelude::*;
use crate::catalog::{Catalog, CatalogError, CatalogView, FileTagLink, LinkView, Tag, TagView, ID_LIMIT, tag_views, tags_wf};
use crate::path::{path_segments, segments_of, string_views};

verus! {

/// Category given to tags derived from directory paths.
pub open spec fn path_category() -> Seq<char> {
    seq!['p', 'a', 't', 'h']
}

/// Source recorded on links made by the scanner.
pub open spec fn auto_source() -> Seq<char> {
    seq!['a', 'u', 't', 'o']
}

/// The id of the first node named `name` under `parent`, if any.
pub open spec fn find_tag(tags: Seq<TagView>, name: Seq<char>, parent: Option<i32>) -> Option<i32>
    decreases tags.len(),
{
    if tags.len() == 0 {
        None
    } else {
        match find_tag(tags.drop_last(), name, parent) {
            Some(id) => Some(id),
            None => if tags.last().name == name && tags.last().parent_id == parent {
                Some(tags.last().id)
            } else {
                None
            },
        }
    }
}

/// One level of resolution: the existing node, or a new one appended.
pub open spec fn resolve_step(tags: Seq<TagView>, parent: Option<i32>, name: Seq<char>) -> (Seq<TagView>, i32) {
    match find_tag(tags, name, parent) {
        Some(id) => (tags, id),
        None => (
            tags.push(TagView { id: (tags.len() + 1) as i32, name, category: path_category(), parent_id: parent }),
            (tags.len() + 1) as i32,
        ),
    }
}

/// The tag table after resolving `parts` level by level below `parent`, and
/// the deepest node reached (`parent` itself when every part is empty).
pub open spec fn resolve_path(tags: Seq<TagView>, parent: Option<i32>, parts: Seq<Seq<char>>) -> (Seq<TagView>, Option<i32>)
    decreases parts.len(),
{
    if parts.len() == 0 {
        (tags, parent)
    } else if parts[0].len() == 0 {
        resolve_path(tags, parent, parts.drop_first())
    } else {
        let (t, id) = resolve_step(tags, parent, parts[0]);
        resolve_path(t, Some(id), parts.drop_first())
    }
}

/// What `ensure_path_tags` does to the tag table, and what it returns: the
/// resolution, unless it would take the table past the id limit.
pub open spec fn ensure_tags_model(tags: Seq<TagView>, parts: Seq<Seq<char>>) -> (Seq<TagView>, Result<i32, CatalogError>) {
    let (t, leaf) = resolve_path(tags, None, parts);
    if t.len() > ID_LIMIT {
        (tags, Err(CatalogError::Full))
    } else {
        match leaf {
            Some(id) => (t, Ok(id)),
            None => (t, Err(CatalogError::EmptyPath)),
        }
    }
}

/// How many of `parts` are non-empty.
pub open spec fn nonempty_count(parts: Seq<Seq<char>>) -> nat
    decreases parts.len(),
{
    if parts.len() == 0 {
        0
    } else {
        nonempty_count(parts.drop_first()) + if parts[0].len() > 0 { 1nat } else { 0nat }
    }
}

/// The links after an insert-or-ignore of (file, tag, source).
pub open spec fn link_model(links: Seq<LinkView>, file_id: i32, tag_id: i32, source: Seq<char>) -> Seq<LinkView> {
    if exists|k: int| 0 <= k < links.len() && links[k].file_id == file_id && links[k].tag_id == tag_id {
        links
    } else {
        links.push(LinkView { file_id, tag_id, source })
    }
}

/// What tagging a new file by its directory does to the catalog.
pub open spec fn tag_file_model(c: CatalogView, file_id: i32, parent_path: Seq<char>) -> (CatalogView, Result<(), CatalogError>) {
    let segs = segments_of(parent_path);
    if segs.len() == 0 {
        (c, Ok(()))
    } else {
        let (t, r) = ensure_tags_model(c.tags, segs);
        match r {
            Ok(leaf) => (
                CatalogView { tags: t, links: link_model(c.links, file_id, leaf, auto_source()), ..c },
                Ok(()),
            ),
            Err(e) => (CatalogView { tags: t, ..c }, Err(e)),
        }
    }
}

pub proof fn lemma_find_tag_none(tags: Seq<TagView>, name: Seq<char>, parent: Option<i32>)
    requires
        find_tag(tags, name, parent) is None,
    ensures
        forall|k: int| 0 <= k < tags.len() ==> !(#[trigger] tags[k].name == name && tags[k].parent_id == parent),
    decreases tags.len(),
{
    if tags.len() > 0 {
        lemma_find_tag_none(tags.drop_last(), name, parent);
        assert forall|k: int| 0 <= k < tags.len() implies !(#[trigger] tags[k].name == name && tags[k].parent_id == parent) by {
            if k < tags.len() - 1 {
                assert(tags.drop_last()[k] == tags[k]);
            }
        }
    }
}

pub proof fn lemma_find_tag_some(tags: Seq<TagView>, name: Seq<char>, parent: Option<i32>)
    requires
        find_tag(tags, name, parent) is Some,
    ensures
        exists|k: int| 0 <= k < tags.len() && #[trigger] tags[k].id == find_tag(tags, name, parent)->0
            && tags[k].name == name && tags[k].parent_id == parent,
    decreases tags.len(),
{
    if find_tag(tags.drop_last(), name, parent) is Some {
        lemma_find_tag_some(tags.drop_last(), name, parent);
        let k = choose|k: int| 0 <= k < tags.drop_last().len() && #[trigger] tags.drop_last()[k].id == find_tag(tags.drop_last(), name, parent)->0
            && tags.drop_last()[k].name == name && tags.drop_last()[k].parent_id == parent;
        assert(tags[k] == tags.drop_last()[k]);
    } else {
        assert(tags[tags.len() - 1] == tags.last());
    }
}

/// A node found in a table is still the one found once rows are appended.
pub proof fn lemma_find_tag_prefix(tags: Seq<TagView>, n: int, name: Seq<char>, parent: Option<i32>)
    requires
        0 <= n <= tags.len(),
        find_tag(tags.subrange(0, n), name, parent) is Some,
    ensures
        find_tag(tags, name, parent) == find_tag(tags.subrange(0, n), name, parent),
    decreases tags.len(),
{
    if tags.len() == n {
        assert(tags.subrange(0, n) =~= tags);
    } else {
        assert(tags.drop_last().subrange(0, n) =~= tags.subrange(0, n));
        lemma_find_tag_prefix(tags.drop_last(), n, name, parent);
    }
}

/// Resolution only appends to the table.
pub proof fn lemma_resolve_extends(tags: Seq<TagView>, parent: Option<i32>, parts: Seq<Seq<char>>)
    ensures
        resolve_path(tags, parent, parts).0.len() >= tags.len(),
        resolve_path(tags, parent, parts).0.len() <= tags.len() + parts.len(),
        resolve_path(tags, parent, parts).0.subrange(0, tags.len() as int) =~= tags,
    decreases parts.len(),
{
    if parts.len() > 0 {
        if parts[0].len() == 0 {
            lemma_resolve_extends(tags, parent, parts.drop_first());
        } else {
            let (t, id) = resolve_step(tags, parent, parts[0]);
            lemma_resolve_extends(t, Some(id), parts.drop_first());
            let r = resolve_path(t, Some(id), parts.drop_first()).0;
            assert(r.subrange(0, tags.len() as int) =~= r.subrange(0, t.len() as int).subrange(0, tags.len() as int));
            assert(t.subrange(0, tags.len() as int) =~= tags);
        }
    }
}

/// Resolving the same segments twice gives the same deepest node and leaves
/// the table as the first resolution left it: no duplicate branches.
pub proof fn lemma_resolve_idempotent(tags: Seq<TagView>, parent: Option<i32>, parts: Seq<Seq<char>>)
    ensures
        resolve_path(resolve_path(tags, parent, parts).0, parent, parts) == resolve_path(tags, parent, parts),
    decreases parts.len(),
{
    if parts.len() > 0 {
        let rest = parts.drop_first();
        if parts[0].len() == 0 {
            lemma_resolve_idempotent(tags, parent, rest);
        } else {
            let (t, id) = resolve_step(tags, parent, parts[0]);
            let fin = resolve_path(t, Some(id), rest).0;
            lemma_resolve_extends(t, Some(id), rest);
            lemma_resolve_idempotent(t, Some(id), rest);
            if find_tag(tags, parts[0], parent) is None {
                assert(t.drop_last() =~= tags);
            }
            assert(find_tag(t, parts[0], parent) == Some(id));
            assert(fin.subrange(0, t.len() as int) =~= t);
            lemma_find_tag_prefix(fin, t.len() as int, parts[0], parent);
            assert(resolve_step(fin, parent, parts[0]) == (fin, id));
        }
    }
}

/// The law for the public operation: calling `ensure_path_tags` a second time
/// with the same segments returns what the first call returned and creates no node.
pub proof fn lemma_ensure_tags_idempotent(tags: Seq<TagView>, parts: Seq<Seq<char>>)
    requires
        ensure_tags_model(tags, parts).1 is Ok,
    ensures
        ensure_tags_model(ensure_tags_model(tags, parts).0, parts).0 == ensure_tags_model(tags, parts).0,
        ensure_tags_model(ensure_tags_model(tags, parts).0, parts).1 == ensure_tags_model(tags, parts).1,
{
    lemma_resolve_idempotent(tags, None, parts);
}

/// No node hangs below the newest one.
proof fn lemma_newest_is_childless(t: Seq<TagView>, name: Seq<char>)
    requires
        tags_wf(t),
        t.len() >= 1,
    ensures
        find_tag(t, name, Some(t.len() as i32)) is None,
{
    if find_tag(t, name, Some(t.len() as i32)) is Some {
        lemma_find_tag_some(t, name, Some(t.len() as i32));
        let k = choose|k: int| 0 <= k < t.len() && #[trigger] t[k].id == find_tag(t, name, Some(t.len() as i32))->0
            && t[k].name == name && t[k].parent_id == Some(t.len() as i32);
        assert(t[k].parent_id == Some(t.len() as i32));
    }
}

/// Appending a node that was not found keeps the table well formed.
proof fn lemma_push_new_wf(t: Seq<TagView>, name: Seq<char>, parent: Option<i32>)
    requires
        tags_wf(t),
        t.len() < ID_LIMIT,
        match parent {
            Some(p) => 1 <= p <= t.len(),
            None => true,
        },
        find_tag(t, name, parent) is None,
    ensures
        tags_wf(t.push(TagView { id: (t.len() + 1) as i32, name, category: path_category(), parent_id: parent })),
{
    lemma_find_tag_none(t, name, parent);
    let t2 = t.push(TagView { id: (t.len() + 1) as i32, name, category: path_category(), parent_id: parent });
    assert forall|a: int, b: int| 0 <= a < b < t2.len() implies !(#[trigger] t2[a].name == #[trigger] t2[b].name
        && t2[a].parent_id == t2[b].parent_id) by {
        if b == t.len() {
            assert(t2[a] == t[a]);
        } else {
            assert(t2[a] == t[a] && t2[b] == t[b]);
        }
    }
    assert forall|k: int| 0 <= k < t2.len() implies match #[trigger] t2[k].parent_id {
        Some(p) => 1 <= p <= k,
        None => true,
    } by {
        if k < t.len() {
            assert(t2[k] == t[k]);
        }
    }
}

/// Below a node just created, every non-empty part creates one more node: the
/// table outgrows the id limit exactly when the count of parts does.
proof fn lemma_resolve_fresh(t: Seq<TagView>, parts: Seq<Seq<char>>)
    requires
        tags_wf(t),
        t.len() >= 1,
    ensures
        resolve_path(t, Some(t.len() as i32), parts).0.len() > ID_LIMIT <==> t.len() + nonempty_count(parts) > ID_LIMIT,
    decreases parts.len(),
{
    let c = Some(t.len() as i32);
    if parts.len() > 0 {
        let rest = parts.drop_first();
        if parts[0].len() == 0 {
            lemma_resolve_fresh(t, rest);
        } else {
            lemma_newest_is_childless(t, parts[0]);
            let t2 = t.push(TagView { id: (t.len() + 1) as i32, name: parts[0], category: path_category(), parent_id: c });
            lemma_resolve_extends(t2, Some((t.len() + 1) as i32), rest);
            if t.len() < ID_LIMIT {
                lemma_push_new_wf(t, parts[0], c);
                lemma_resolve_fresh(t2, rest);
            }
        }
    }
}

/// A part found at every level creates nothing; the first one not found
/// starts a run of creations.
proof fn lemma_resolve_after_miss(t: Seq<TagView>, cursor: Option<i32>, parts: Seq<Seq<char>>)
    requires
        tags_wf(t),
        match cursor {
            Some(p) => 1 <= p <= t.len(),
            None => true,
        },
        parts.len() > 0,
        parts[0].len() > 0,
        find_tag(t, parts[0], cursor) is None,
    ensures
        resolve_path(t, cursor, parts).0.len() > ID_LIMIT <==> t.len() + nonempty_count(parts) > ID_LIMIT,
{
    let rest = parts.drop_first();
    let t2 = t.push(TagView { id: (t.len() + 1) as i32, name: parts[0], category: path_category(), parent_id: cursor });
    lemma_resolve_extends(t2, Some((t.len() + 1) as i32), rest);
    if t.len() < ID_LIMIT {
        lemma_push_new_wf(t, parts[0], cursor);
        lemma_resolve_fresh(t2, rest);
    }
}

fn string_from(s: &str) -> (r: String)
    ensures
        r@ == s@,
{
    String::from_str(s)
}

fn path_category_string() -> (r: String)
    ensures
        r@ == path_category(),
{
    proof {
        reveal_strlit("path");
    }
    let r = string_from("path");
    assert(r@ =~= path_category());
    r
}

pub(crate) fn auto_source_str() -> (r: &'static str)
    ensures
        r@ == auto_source(),
{
    proof {
        reveal_strlit("auto");
    }
    let r = "auto";
    assert(r@ =~= auto_source());
    r
}

fn find_tag_id(tags: &Vec<Tag>, name: &String, parent: Option<i32>) -> (r: Option<i32>)
    ensures
        r == find_tag(tag_views(tags@), name@, parent),
{
    let ghost view = tag_views(tags@);
    let mut i: usize = 0;
    while i < tags.len()
        invariant
            i <= tags@.len() == view.len(),
            view == tag_views(tags@),
            find_tag(view.subrange(0, i as int), name@, parent) is None,
        decreases tags@.len() - i,
    {
        let ghost next = view.subrange(0, i + 1);
        assert(next.drop_last() =~= view.subrange(0, i as int));
        if tags[i].name == *name && tags[i].parent_id == parent {
            assert(next.last() == tags@[i as int]@);
            proof {
                lemma_find_tag_prefix(view, i + 1, name@, parent);
            }
            return Some(tags[i].id);
        }
        i += 1;
    }
    assert(view.subrange(0, i as int) =~= view);
    None
}

/// Finds or creates tag nodes, and links files to them.
pub struct TagManager {}

impl TagManager {
    pub fn new() -> (r: TagManager) {
        TagManager {}
    }

    /// Walks `parts` from the root, finding or creating one node per non-empty
    /// part under the previous one, and returns the deepest node's id.
    /// Refused with `EmptyPath` when no part is non-empty, and with `Full`
    /// (changing nothing) when the nodes to create would run out of ids.
    pub fn ensure_path_tags(&self, catalog: &mut Catalog, parts: &Vec<String>) -> (r: Result<i32, CatalogError>)
        requires
            old(catalog)@.wf(),
        ensures
            final(catalog)@.wf(),
            final(catalog)@.files == old(catalog)@.files,
            final(catalog)@.links == old(catalog)@.links,
            final(catalog)@.tasks == old(catalog)@.tasks,
            (final(catalog)@.tags, r) == ensure_tags_model(old(catalog)@.tags, string_views(parts@)),
    {
        let ghost t0 = catalog@.tags;
        let ghost c0 = catalog@;
        let ghost ps = string_views(parts@);
        assert(ps.subrange(0, ps.len() as int) =~= ps);
        // Walk the existing nodes; stop at the first part with none.
        let mut cursor: Option<i32> = None;
        let mut m: usize = 0;
        let mut missing = false;
        while m < parts.len()
            invariant_except_break
                !missing,
            invariant
                m <= parts@.len() == ps.len(),
                ps == string_views(parts@),
                catalog@ == c0,
                c0.wf(),
                t0 == c0.tags,
                match cursor {
                    Some(p) => 1 <= p <= t0.len(),
                    None => true,
                },
                resolve_path(t0, None, ps) == resolve_path(t0, cursor, ps.subrange(m as int, ps.len() as int)),
            ensures
                m <= parts@.len() == ps.len(),
                missing ==> m < ps.len() && ps[m as int].len() > 0 && find_tag(t0, ps[m as int], cursor) is None,
                !missing ==> m == ps.len(),
            decreases parts@.len() - m,
        {
            let ghost rest = ps.subrange(m as int, ps.len() as int);
            assert(rest.drop_first() =~= ps.subrange(m + 1, ps.len() as int));
            assert(rest[0] == parts@[m as int]@);
            let part = &parts[m];
            if !part.as_str().is_empty() {
                match find_tag_id(&catalog.tags, part, cursor) {
                    Some(id) => {
                        proof {
                            lemma_find_tag_some(t0, part@, cursor);
                        }
                        cursor = Some(id);
                    },
                    None => {
                        missing = true;
                        break;
                    },
                }
            }
            m += 1;
        }
        if !missing {
            assert(ps.subrange(m as int, ps.len() as int) =~= Seq::<Seq<char>>::empty());
            return match cursor {
                Some(id) => Ok(id),
                None => Err(CatalogError::EmptyPath),
            };
        }
        // Count the nodes the resolution would create.
        let mut needed: usize = 0;
        let mut j: usize = m;
        let ghost tail = ps.subrange(m as int, ps.len() as int);
        while j < parts.len()
            invariant
                m <= j <= parts@.len() == ps.len(),
                ps == string_views(parts@),
                needed <= j - m,
                needed + nonempty_count(ps.subrange(j as int, ps.len() as int)) == nonempty_count(tail),
            decreases parts@.len() - j,
        {
            let ghost r = ps.subrange(j as int, ps.len() as int);
            assert(r.drop_first() =~= ps.subrange(j + 1, ps.len() as int));
            assert(r[0] == parts@[j as int]@);
            if !parts[j].as_str().is_empty() {
                needed += 1;
            }
            j += 1;
        }
        assert(ps.subrange(j as int, ps.len() as int) =~= Seq::<Seq<char>>::empty());
        proof {
            lemma_resolve_after_miss(t0, cursor, tail);
        }
        if needed > ID_LIMIT || catalog.tags.len() > ID_LIMIT - needed {
            return Err(CatalogError::Full);
        }
        // Resolve for real, creating what is missing.
        let mut cursor: Option<i32> = None;
        let mut i: usize = 0;
        while i < parts.len()
            invariant
                i <= parts@.len() == ps.len(),
                ps == string_views(parts@),
                resolve_path(t0, None, ps).0.len() <= ID_LIMIT,
                catalog@.wf(),
                catalog@.files == c0.files,
                catalog@.links == c0.links,
                catalog@.tasks == c0.tasks,
                match cursor {
                    Some(p) => 1 <= p <= catalog@.tags.len(),
                    None => true,
                },
                resolve_path(t0, None, ps) == resolve_path(catalog@.tags, cursor, ps.subrange(i as int, ps.len() as int)),
            decreases parts@.len() - i,
        {
            let ghost tags_before = catalog@.tags;
            let ghost rest = ps.subrange(i as int, ps.len() as int);
            assert(rest.drop_first() =~= ps.subrange(i + 1, ps.len() as int));
            assert(rest[0] == parts@[i as int]@);
            let part = &parts[i];
            if !part.as_str().is_empty() {
                match find_tag_id(&catalog.tags, part, cursor) {
                    Some(id) => {
                        proof {
                            lemma_find_tag_some(tags_before, part@, cursor);
                        }
                        cursor = Some(id);
                    },
                    None => {
                        let ghost created = TagView {
                            id: (tags_before.len() + 1) as i32,
                            name: part@,
                            category: path_category(),
                            parent_id: cursor,
                        };
                        proof {
                            lemma_resolve_extends(tags_before.push(created), Some((tags_before.len() + 1) as i32), rest.drop_first());
                            lemma_push_new_wf(tags_before, part@, cursor);
                        }
                        let id = (catalog.tags.len() + 1) as i32;
                        let tag = Tag { id, name: part.clone(), category: path_category_string(), parent_id: cursor };
                        catalog.tags.push(tag);
                        assert(catalog@.tags =~= tags_before.push(created));
                        cursor = Some(id);
                    },
                }
            }
            i += 1;
        }
        assert(ps.subrange(i as int, ps.len() as int) =~= Seq::<Seq<char>>::empty());
        match cursor {
            Some(id) => Ok(id),
            None => Err(CatalogError::EmptyPath),
        }
    }

    /// Links a file to a tag unless that pair is already linked; `source` is
    /// recorded only on the first insertion.
    pub fn link_file_to_tag(&self, catalog: &mut Catalog, file_id: i32, tag_id: i32, source: &str)
        requires
            old(catalog)@.wf(),
        ensures
            final(catalog)@.wf(),
            final(catalog)@.files == old(catalog)@.files,
            final(catalog)@.tags == old(catalog)@.tags,
            final(catalog)@.tasks == old(catalog)@.tasks,
            final(catalog)@.links == link_model(old(catalog)@.links, file_id, tag_id, source@),
    {
        let ghost links0 = catalog@.links;
        let mut i: usize = 0;
        while i < catalog.file_tags.len()
            invariant
                catalog@ == old(catalog)@,
                old(catalog)@.wf(),
                links0 == catalog@.links,
                i <= links0.len(),
                forall|k: int| 0 <= k < i ==> !(links0[k].file_id == file_id && links0[k].tag_id == tag_id),
            decreases links0.len() - i,
        {
            if catalog.file_tags[i].file_id == file_id && catalog.file_tags[i].tag_id == tag_id {
                assert(links0[i as int].file_id == file_id && links0[i as int].tag_id == tag_id);
                return;
            }
            i += 1;
        }
        let link = FileTagLink { file_id, tag_id, source: string_from(source) };
        catalog.file_tags.push(link);
        assert(catalog@.links =~= links0.push(LinkView { file_id, tag_id, source: source@ }));
    }
}

/// Tags files by the directories they sit in.
pub struct PathTagger {
    pub tag_manager: TagManager,
}

impl PathTagger {
    pub fn new(tag_manager: TagManager) -> (r: PathTagger) {
        PathTagger { tag_manager }
    }

    /// Resolves the segments of `parent_path` to a node chain and links the
    /// file to its deepest node with source `auto`; a file at the root gets no tag.
    pub fn process_path(&self, catalog: &mut Catalog, file_id: i32, parent_path: &str) -> (r: Result<(), CatalogError>)
        requires
            old(catalog)@.wf(),
        ensures
            final(catalog)@.wf(),
            (final(catalog)@, r) == tag_file_model(old(catalog)@, file_id, parent_path@),
    {
        let parts = path_segments(parent_path);
        if parts.len() == 0 {
            assert(catalog@ =~= tag_file_model(old(catalog)@, file_id, parent_path@).0);
            return Ok(());
        }
        match self.tag_manager.ensure_path_tags(catalog, &parts) {
            Ok(leaf) => {
                self.tag_manager.link_file_to_tag(catalog, file_id, leaf, auto_source_str());
                Ok(())
            },
            Err(e) => Err(e),
        }
    }
}

} // verus!
