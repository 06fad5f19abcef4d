//! Nothing is in the copy but what the source tree has.
//!
//! Over the model of the file system, a relocation leaves in the
//! destination no metadata directory and nothing under one, and nothing
//! that is not an entry of the source tree.

use vstd::prelude::*;
use crate::copy::{
    EntryView, FsOpView, TreeCopyView, clean_path, dir_ops, entry_ops, lemma_metadata_excluded,
    metadata_name, next_state, subdirs,
};
use crate::effect::{
    Disk, are_copy_ops, cleared, copy_ops, effect, effects, is_copy_op, lemma_destination_cleared,
    lemma_effects_concat, lemma_walk_ops_are_copy_ops, rooted, top, walk_ops_upto,
};
use crate::project::clear_destination;
use crate::walk::{is_dir_in, is_walk, walk_ops};

verus! {

/// `rel` is the root of the tree or an entry of one of its directories.
pub open spec fn in_tree(tree: spec_fn(Seq<Seq<char>>) -> Seq<EntryView>, rel: Seq<Seq<char>>)
    -> bool {
    rel.len() == 0 || (is_dir_in(tree, rel.drop_last()) && exists|k: int|
        0 <= k < tree(rel.drop_last()).len() && (#[trigger] tree(rel.drop_last())[k]).name
            == rel.last())
}

/// The operation puts nothing in place but entries of the tree, and
/// nothing in or under a metadata directory.
pub open spec fn is_tree_op(tree: spec_fn(Seq<Seq<char>>) -> Seq<EntryView>, op: FsOpView) -> bool {
    match op {
        FsOpView::RemoveDirAll { root } => true,
        FsOpView::CreateDirAll { root, rel } => is_dir_in(tree, rel) && clean_path(rel),
        FsOpView::RemoveFile { root, rel } => true,
        FsOpView::CopyFile { from_root, to_root, rel } => in_tree(tree, rel) && clean_path(rel),
    }
}

/// All operations of the list put nothing in place but entries of the
/// tree outside metadata directories.
pub open spec fn are_tree_ops(tree: spec_fn(Seq<Seq<char>>) -> Seq<EntryView>, ops: Seq<FsOpView>)
    -> bool {
    forall|k: int| 0 <= k < ops.len() ==> is_tree_op(tree, #[trigger] ops[k])
}

/// Everything at `dst` is an entry of the tree and lies in no metadata
/// directory.
pub open spec fn only_tree(
    tree: spec_fn(Seq<Seq<char>>) -> Seq<EntryView>,
    disk: Disk,
    dst: Seq<char>,
) -> bool {
    forall|rel: Seq<Seq<char>>| #[trigger]
        disk.contains_key((dst, rel)) ==> in_tree(tree, rel) && clean_path(rel)
}

proof fn lemma_prefix_is_dir(
    tree: spec_fn(Seq<Seq<char>>) -> Seq<EntryView>,
    dir: Seq<Seq<char>>,
    pre: Seq<Seq<char>>,
)
    requires
        is_dir_in(tree, dir),
        clean_path(dir),
        pre.is_prefix_of(dir),
    ensures
        is_dir_in(tree, pre),
        in_tree(tree, pre),
        clean_path(pre),
    decreases dir.len(),
{
    assert forall|i: int| 0 <= i < pre.len() implies #[trigger] pre[i]
        != metadata_name() by {
        assert(pre[i] == dir.subrange(0, pre.len() as int)[i]);
        assert(pre[i] == dir[i]);
    }
    if pre.len() == dir.len() {
        assert(pre =~= dir);
    } else {
        let parent = dir.drop_last();
        assert(pre =~= parent.subrange(0, pre.len() as int));
        assert forall|i: int| 0 <= i < parent.len() implies #[trigger] parent[i]
            != metadata_name() by {
            assert(parent[i] == dir[i]);
        }
        lemma_prefix_is_dir(tree, parent, pre);
    }
}

proof fn lemma_listing_ops(
    tree: spec_fn(Seq<Seq<char>>) -> Seq<EntryView>,
    src: Seq<char>,
    dst: Seq<char>,
    dir: Seq<Seq<char>>,
    entries: Seq<EntryView>,
)
    requires
        is_dir_in(tree, dir),
        clean_path(dir),
        forall|i: int| 0 <= i < entries.len() ==> tree(dir).contains(#[trigger] entries[i]),
    ensures
        are_tree_ops(tree, dir_ops(src, dst, dir, entries)),
        forall|m: int|
            0 <= m < subdirs(dir, entries).len() ==> is_dir_in(
                tree,
                #[trigger] subdirs(dir, entries)[m],
            ),
    decreases entries.len(),
{
    if entries.len() > 0 {
        let front = entries.drop_last();
        assert forall|i: int| 0 <= i < front.len() implies tree(dir).contains(
            #[trigger] front[i],
        ) by {
            assert(front[i] == entries[i]);
        }
        lemma_listing_ops(tree, src, dst, dir, front);
        let e = entries.last();
        let q = dir.push(e.name);
        assert(e == entries[entries.len() - 1]);
        assert(tree(dir).contains(e));
        let listing = tree(dir);
        let k = choose|k: int| 0 <= k < listing.len() && listing[k] == e;
        assert(q.drop_last() =~= dir);
        assert(q.last() == e.name);
        assert(tree(q.drop_last())[k].name == q.last());
        assert(in_tree(tree, q));
        if e.is_dir {
            assert(tree(q.drop_last())[k].is_dir);
            assert(is_dir_in(tree, q));
        }
        if e.name != metadata_name() {
            assert forall|i: int| 0 <= i < q.len() implies #[trigger] q[i]
                != metadata_name() by {
                if i < dir.len() {
                    assert(q[i] == dir[i]);
                }
            }
        }
        let front_ops = dir_ops(src, dst, dir, front);
        let last_ops = entry_ops(src, dst, dir, e);
        let all_ops = dir_ops(src, dst, dir, entries);
        assert forall|n: int| 0 <= n < all_ops.len() implies is_tree_op(
            tree,
            #[trigger] all_ops[n],
        ) by {
            if n < front_ops.len() {
                assert(all_ops[n] == front_ops[n]);
            } else {
                assert(all_ops[n] == last_ops[n - front_ops.len()]);
            }
        }
        let sub = subdirs(dir, entries);
        let front_sub = subdirs(dir, front);
        assert forall|m: int| 0 <= m < sub.len() implies is_dir_in(tree, #[trigger] sub[m]) by {
            if m < front_sub.len() {
                assert(sub[m] == front_sub[m]);
            }
        }
    }
}

proof fn lemma_walk_stays_in_tree(
    tree: spec_fn(Seq<Seq<char>>) -> Seq<EntryView>,
    src: Seq<char>,
    dst: Seq<char>,
    states: Seq<TreeCopyView>,
    i: int,
)
    requires
        is_walk(tree, src, dst, states),
        0 <= i < states.len(),
    ensures
        forall|k: int|
            0 <= k < states[i].pending.len() ==> is_dir_in(tree, #[trigger] states[i].pending[k])
                && clean_path(states[i].pending[k]),
        are_tree_ops(tree, walk_ops_upto(tree, states, i)),
    decreases i,
{
    if i > 0 {
        lemma_walk_stays_in_tree(tree, src, dst, states, i - 1);
        lemma_walk_ops_are_copy_ops(tree, src, dst, states, i - 1);
        let prev = states[i - 1];
        assert(states[i - 1 + 1] == next_state(prev, tree(prev.pending.last())));
        let dir = prev.pending.last();
        assert(dir == prev.pending[prev.pending.len() - 1]);
        lemma_listing_ops(tree, src, dst, dir, tree(dir));
        lemma_metadata_excluded(src, dst, dir, tree(dir));
        let sub = subdirs(dir, tree(dir));
        let base = prev.pending.drop_last();
        assert forall|k: int| 0 <= k < states[i].pending.len() implies is_dir_in(
            tree,
            #[trigger] states[i].pending[k],
        ) && clean_path(states[i].pending[k]) by {
            if k < base.len() {
                assert(states[i].pending[k] == prev.pending[k]);
            } else {
                assert(states[i].pending[k] == sub[k - base.len()]);
            }
        }
        let front = walk_ops_upto(tree, states, i - 1);
        let step = walk_ops(tree, states, i - 1);
        let all = walk_ops_upto(tree, states, i);
        assert forall|n: int| 0 <= n < all.len() implies is_tree_op(tree, #[trigger] all[n]) by {
            if n < front.len() {
                assert(all[n] == front[n]);
            } else {
                assert(all[n] == step[n - front.len()]);
            }
        }
    } else {
        assert(states[0].pending =~= seq![Seq::<Seq<char>>::empty()]);
    }
}

proof fn lemma_tree_ops_keep(
    tree: spec_fn(Seq<Seq<char>>) -> Seq<EntryView>,
    ops: Seq<FsOpView>,
    src: Seq<char>,
    dst: Seq<char>,
    disk: Disk,
)
    requires
        are_copy_ops(ops, src, dst),
        are_tree_ops(tree, ops),
        only_tree(tree, disk, dst),
    ensures
        only_tree(tree, effects(ops, disk), dst),
    decreases ops.len(),
{
    if ops.len() > 0 {
        let front = ops.drop_last();
        assert forall|k: int| 0 <= k < front.len() implies is_copy_op(
            #[trigger] front[k],
            src,
            dst,
        ) && is_tree_op(tree, front[k]) by {
            assert(front[k] == ops[k]);
        }
        lemma_tree_ops_keep(tree, front, src, dst, disk);
        let mid = effects(front, disk);
        let op = ops[ops.len() - 1];
        assert(is_copy_op(op, src, dst) && is_tree_op(tree, op));
        let after = effect(op, mid);
        assert forall|rel: Seq<Seq<char>>| #[trigger]
            after.contains_key((dst, rel)) implies in_tree(tree, rel) && clean_path(rel) by {
            if !mid.contains_key((dst, rel)) {
                match op {
                    FsOpView::CreateDirAll { root, rel: made } => {
                        lemma_prefix_is_dir(tree, made, rel);
                    },
                    _ => {},
                }
            }
        }
    }
}

/// After a relocation by copy, everything in the destination is an entry
/// of the source tree, and no metadata directory nor anything under one is
/// there, whatever the destination held before.
pub proof fn lemma_copy_holds_nothing_else(
    tree: spec_fn(Seq<Seq<char>>) -> Seq<EntryView>,
    src: Seq<char>,
    dst: Seq<char>,
    states: Seq<TreeCopyView>,
    disk: Disk,
    rel: Seq<Seq<char>>,
)
    requires
        is_walk(tree, src, dst, states),
        rooted(disk, dst),
        effects(copy_ops(tree, states, dst, disk.contains_key(top(dst))), disk).contains_key(
            (dst, rel),
        ),
    ensures
        in_tree(tree, rel),
        clean_path(rel),
{
    let n = states.len() - 1;
    let walk = walk_ops_upto(tree, states, n);
    let first = clear_destination(dst, disk.contains_key(top(dst)));
    let empty = cleared(disk, dst);
    lemma_destination_cleared(disk, dst, disk.contains_key(top(dst)));
    lemma_effects_concat(first, walk, disk);
    assert forall|r: Seq<Seq<char>>| #[trigger] empty.contains_key((dst, r)) implies in_tree(
        tree,
        r,
    ) && clean_path(r) by {
        assert(r.len() == 0);
    }
    lemma_walk_stays_in_tree(tree, src, dst, states, n);
    lemma_walk_ops_are_copy_ops(tree, src, dst, states, n);
    lemma_tree_ops_keep(tree, walk, src, dst, empty);
}

} // verus!
