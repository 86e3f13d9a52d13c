//! The tag forest as nested nodes, for display.

use vstd::prelude::*;
use crate::catalog::{Tag, TagView, tag_views};

verus! {

/// A tag with its sub-tags.
pub struct TagNode {
    pub id: i32,
    pub name: String,
    pub category: String,
    pub children: Vec<TagNode>,
}

/// The tags whose parent is `parent`, in table order.
pub open spec fn children_of(tags: Seq<TagView>, parent: Option<i32>) -> Seq<TagView>
    decreases tags.len(),
{
    if tags.len() == 0 {
        Seq::empty()
    } else if tags.last().parent_id == parent {
        children_of(tags.drop_last(), parent).push(tags.last())
    } else {
        children_of(tags.drop_last(), parent)
    }
}

/// Whether `nodes` are the children of `parent` in `tags`, each with its own
/// subtree down to `depth` further levels.
pub open spec fn is_forest(tags: Seq<TagView>, parent: Option<i32>, depth: nat, nodes: Seq<TagNode>) -> bool
    decreases depth,
{
    let kids = children_of(tags, parent);
    &&& nodes.len() == kids.len()
    &&& forall|i: int|
        0 <= i < nodes.len() ==> {
            &&& #[trigger] nodes[i].id == kids[i].id
            &&& nodes[i].name@ == kids[i].name
            &&& nodes[i].category@ == kids[i].category
            &&& if depth == 0 {
                nodes[i].children@.len() == 0
            } else {
                is_forest(tags, Some(kids[i].id), (depth - 1) as nat, nodes[i].children@)
            }
        }
}

/// Whether `n` stands for tag `k` with its subtree down to `depth` levels.
pub open spec fn node_ok(tags: Seq<TagView>, depth: nat, n: TagNode, k: TagView) -> bool {
    &&& n.id == k.id
    &&& n.name@ == k.name
    &&& n.category@ == k.category
    &&& if depth == 0 {
        n.children@.len() == 0
    } else {
        is_forest(tags, Some(k.id), (depth - 1) as nat, n.children@)
    }
}

fn build_level(tags: &Vec<Tag>, parent_id: Option<i32>, depth: usize) -> (r: Vec<TagNode>)
    ensures
        is_forest(tag_views(tags@), parent_id, depth as nat, r@),
    decreases depth,
{
    let ghost tv = tag_views(tags@);
    let mut out: Vec<TagNode> = Vec::new();
    let mut i: usize = 0;
    while i < tags.len()
        invariant
            tv == tag_views(tags@),
            i <= tags@.len(),
            out@.len() == children_of(tv.subrange(0, i as int), parent_id).len(),
            forall|j: int|
                0 <= j < out@.len() ==> node_ok(tv, depth as nat, #[trigger] out@[j], children_of(tv.subrange(0, i as int), parent_id)[j]),
        decreases tags@.len() - i,
    {
        let ghost pre = tv.subrange(0, i as int);
        let ghost next = tv.subrange(0, i + 1);
        assert(next.drop_last() =~= pre);
        assert(next.last() == tags@[i as int]@);
        let t = &tags[i];
        if t.parent_id == parent_id {
            let children = if depth == 0 {
                Vec::new()
            } else {
                build_level(tags, Some(t.id), depth - 1)
            };
            let node = TagNode { id: t.id, name: t.name.clone(), category: t.category.clone(), children };
            let ghost out0 = out@;
            assert(node_ok(tv, depth as nat, node, tags@[i as int]@));
            out.push(node);
            let ghost kn = children_of(next, parent_id);
            assert(kn == children_of(pre, parent_id).push(tags@[i as int]@));
            assert forall|j: int| 0 <= j < out@.len() implies node_ok(tv, depth as nat, #[trigger] out@[j], kn[j]) by {
                if j < out0.len() {
                    assert(out@[j] == out0[j]);
                    assert(kn[j] == children_of(pre, parent_id)[j]);
                }
            }
        } else {
            assert(children_of(next, parent_id) == children_of(pre, parent_id));
        }
        i += 1;
    }
    assert(tv.subrange(0, i as int) =~= tv);
    assert forall|j: int| 0 <= j < out@.len() implies #[trigger] out@[j].id == children_of(tv, parent_id)[j].id by {
        assert(node_ok(tv, depth as nat, out@[j], children_of(tv, parent_id)[j]));
    }
    out
}

/// The subtrees below `parent_id` (the roots for `None`): each tag whose
/// parent it is, in table order, with its own subtree. Nesting is followed as
/// deep as there are tags, which reaches every node when ids are distinct.
pub fn build_tree(tags: &Vec<Tag>, parent_id: Option<i32>) -> (r: Vec<TagNode>)
    ensures
        is_forest(tag_views(tags@), parent_id, tags@.len(), r@),
{
    build_level(tags, parent_id, tags.len())
}

} // verus!
