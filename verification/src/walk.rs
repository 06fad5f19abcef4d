//! What a completed tree copy has done, whatever the tree.
//!
//! A source tree is taken as the listing of each of its directories. A walk
//! is the run of a tree copy from its start until nothing is pending, each
//! step fed with the listing of the directory that it asked for.

use vstd::prelude::*;
use crate::copy::{
    EntryView, FsOpView, TreeCopyView, clean_op, clean_path, dir_ops, lemma_copy_complete,
    lemma_metadata_excluded, metadata_name, next_state, step_ops, subdirs,
};

verus! {

/// `dir`, relative to the root, is a directory of the tree: the root
/// itself, or a directory entry of a directory of the tree.
pub open spec fn is_dir_in(tree: spec_fn(Seq<Seq<char>>) -> Seq<EntryView>, dir: Seq<Seq<char>>)
    -> bool
    decreases dir.len(),
{
    dir.len() == 0 || (is_dir_in(tree, dir.drop_last()) && exists|k: int|
        0 <= k < tree(dir.drop_last()).len() && (#[trigger] tree(dir.drop_last())[k]).is_dir
            && tree(dir.drop_last())[k].name == dir.last())
}

/// `states` is a completed copy of `tree` from `src` to `dst`: it starts
/// with the root pending, each state follows from the one before by the
/// listing of the directory that was asked for, and at the end nothing is
/// pending.
pub open spec fn is_walk(
    tree: spec_fn(Seq<Seq<char>>) -> Seq<EntryView>,
    src: Seq<char>,
    dst: Seq<char>,
    states: Seq<TreeCopyView>,
) -> bool {
    &&& states.len() > 0
    &&& states[0] == (TreeCopyView { src, dst, pending: seq![Seq::<Seq<char>>::empty()] })
    &&& forall|i: int|
        0 <= i < states.len() - 1 ==> (#[trigger] states[i]).pending.len() > 0 && states[i + 1]
            == next_state(states[i], tree(states[i].pending.last()))
    &&& states.last().pending.len() == 0
}

/// The operations that step `j` of a walk returns.
pub open spec fn walk_ops(
    tree: spec_fn(Seq<Seq<char>>) -> Seq<EntryView>,
    states: Seq<TreeCopyView>,
    j: int,
) -> Seq<FsOpView> {
    step_ops(states[j], tree(states[j].pending.last()))
}

proof fn lemma_walk_roots(
    tree: spec_fn(Seq<Seq<char>>) -> Seq<EntryView>,
    src: Seq<char>,
    dst: Seq<char>,
    states: Seq<TreeCopyView>,
    i: int,
)
    requires
        is_walk(tree, src, dst, states),
        0 <= i < states.len(),
    ensures
        states[i].src == src,
        states[i].dst == dst,
        forall|k: int| 0 <= k < states[i].pending.len() ==> clean_path(#[trigger] states[i].pending[k]),
    decreases i,
{
    if i > 0 {
        lemma_walk_roots(tree, src, dst, states, i - 1);
        let prev = states[i - 1];
        assert(states[i] == next_state(prev, tree(prev.pending.last())));
        let dir = prev.pending.last();
        assert(clean_path(prev.pending[prev.pending.len() - 1]));
        lemma_metadata_excluded(src, dst, dir, tree(dir));
        let sub = subdirs(dir, tree(dir));
        let base = prev.pending.drop_last();
        assert forall|k: int| 0 <= k < states[i].pending.len() implies clean_path(
            #[trigger] states[i].pending[k],
        ) by {
            if k < base.len() {
                assert(states[i].pending[k] == prev.pending[k]);
            } else {
                assert(states[i].pending[k] == sub[k - base.len()]);
            }
        }
    }
}

proof fn lemma_pending_is_listed(
    tree: spec_fn(Seq<Seq<char>>) -> Seq<EntryView>,
    src: Seq<char>,
    dst: Seq<char>,
    states: Seq<TreeCopyView>,
    i: int,
    k: int,
) -> (j: int)
    requires
        is_walk(tree, src, dst, states),
        0 <= i < states.len(),
        0 <= k < states[i].pending.len(),
    ensures
        i <= j < states.len() - 1,
        states[j].pending.last() == states[i].pending[k],
    decreases states.len() - i,
{
    if k == states[i].pending.len() - 1 {
        i
    } else {
        let s = states[i];
        assert(states[i + 1] == next_state(s, tree(s.pending.last())));
        assert(states[i + 1].pending[k] == s.pending[k]);
        lemma_pending_is_listed(tree, src, dst, states, i + 1, k)
    }
}

/// A completed walk has listed every directory of the tree that lies in no
/// metadata directory: at some step it was the directory asked for.
pub proof fn lemma_every_directory_listed(
    tree: spec_fn(Seq<Seq<char>>) -> Seq<EntryView>,
    src: Seq<char>,
    dst: Seq<char>,
    states: Seq<TreeCopyView>,
    dir: Seq<Seq<char>>,
) -> (j: int)
    requires
        is_walk(tree, src, dst, states),
        is_dir_in(tree, dir),
        clean_path(dir),
    ensures
        0 <= j < states.len() - 1,
        states[j].pending.last() == dir,
        walk_ops(tree, states, j) == dir_ops(src, dst, dir, tree(dir)),
    decreases dir.len(),
{
    let j = if dir.len() == 0 {
        assert(states[0].pending =~= seq![Seq::<Seq<char>>::empty()]);
        assert(states[0].pending.last() =~= dir);
        0int
    } else {
        let parent = dir.drop_last();
        assert forall|i: int| 0 <= i < parent.len() implies #[trigger] parent[i]
            != metadata_name() by {
            assert(parent[i] == dir[i]);
        }
        let p = lemma_every_directory_listed(tree, src, dst, states, parent);
        let k = choose|k: int|
            0 <= k < tree(parent).len() && (#[trigger] tree(parent)[k]).is_dir && tree(parent)[k].name
                == dir.last();
        assert(dir.last() == dir[dir.len() - 1]);
        assert(parent.push(dir.last()) =~= dir);
        lemma_copy_complete(src, dst, parent, tree(parent), k);
        let sub = subdirs(parent, tree(parent));
        let m = choose|m: int| 0 <= m < sub.len() && sub[m] == dir;
        let s = states[p];
        assert(states[p + 1] == next_state(s, tree(s.pending.last())));
        let at = s.pending.drop_last().len() + m;
        assert(states[p + 1].pending[at] == dir);
        lemma_pending_is_listed(tree, src, dst, states, p + 1, at)
    };
    lemma_walk_roots(tree, src, dst, states, j);
    j
}

/// A completed walk has copied every entry of the tree
/// that is not a metadata directory and lies in none: at some step a
/// directory was created in the copy, and a file was copied to its place
/// right after what may have been there was removed.
pub proof fn lemma_walk_copies_every_entry(
    tree: spec_fn(Seq<Seq<char>>) -> Seq<EntryView>,
    src: Seq<char>,
    dst: Seq<char>,
    states: Seq<TreeCopyView>,
    dir: Seq<Seq<char>>,
    k: int,
) -> (j: int)
    requires
        is_walk(tree, src, dst, states),
        is_dir_in(tree, dir),
        clean_path(dir),
        0 <= k < tree(dir).len(),
        tree(dir)[k].name != metadata_name(),
    ensures
        0 <= j < states.len() - 1,
        tree(dir)[k].is_dir ==> walk_ops(tree, states, j).contains(
            FsOpView::CreateDirAll { root: dst, rel: dir.push(tree(dir)[k].name) },
        ),
        !tree(dir)[k].is_dir ==> exists|n: int|
            0 <= n && n + 1 < walk_ops(tree, states, j).len() && #[trigger] walk_ops(
                tree,
                states,
                j,
            )[n] == (FsOpView::RemoveFile { root: dst, rel: dir.push(tree(dir)[k].name) })
                && walk_ops(tree, states, j)[n + 1] == (FsOpView::CopyFile {
                from_root: src,
                to_root: dst,
                rel: dir.push(tree(dir)[k].name),
            }),
{
    let j = lemma_every_directory_listed(tree, src, dst, states, dir);
    lemma_copy_complete(src, dst, dir, tree(dir), k);
    j
}

/// No step of a walk touches a metadata directory or
/// anything under one.
pub proof fn lemma_walk_excludes_metadata(
    tree: spec_fn(Seq<Seq<char>>) -> Seq<EntryView>,
    src: Seq<char>,
    dst: Seq<char>,
    states: Seq<TreeCopyView>,
    j: int,
)
    requires
        is_walk(tree, src, dst, states),
        0 <= j < states.len() - 1,
    ensures
        forall|n: int|
            0 <= n < walk_ops(tree, states, j).len() ==> clean_op(
                #[trigger] walk_ops(tree, states, j)[n],
            ),
{
    lemma_walk_roots(tree, src, dst, states, j);
    let dir = states[j].pending.last();
    assert(clean_path(states[j].pending[states[j].pending.len() - 1]));
    lemma_metadata_excluded(src, dst, dir, tree(dir));
}

} // verus!
