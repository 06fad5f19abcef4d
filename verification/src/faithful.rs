//! The copy holds what the source holds.
//!
//! Over the model of the file system, a relocation leaves at the place of
//! every entry of the source tree, metadata directories apart, what the
//! source has there: a directory for a directory, the same bytes for a
//! file.

use vstd::prelude::*;
use crate::copy::{
    EntryView, FsOpView, TreeCopyView, clean_path, dir_ops, entry_ops, metadata_name,
};
use crate::effect::{
    Disk, Item, are_copy_ops, cleared, copy_ops, effect, effects, is_copy_op,
    lemma_destination_cleared, lemma_dir_ops_are_copy_ops, lemma_effects_concat,
    lemma_walk_ops_are_copy_ops, move_ops, rooted, top, walk_ops_upto,
};
use crate::project::clear_destination;
use crate::walk::{is_dir_in, is_walk, lemma_every_directory_listed, walk_ops};

verus! {

/// At `rel` the copy in `dst` holds what the source in `src` holds.
pub open spec fn same_at(disk: Disk, src: Seq<char>, dst: Seq<char>, rel: Seq<Seq<char>>) -> bool {
    disk.contains_key((src, rel)) && disk.contains_key((dst, rel)) && disk[(dst, rel)] == disk[(
        src,
        rel,
    )]
}

/// Whatever is in `dst` is a directory or what `src` holds in the same
/// place.
pub open spec fn sound(disk: Disk, src: Seq<char>, dst: Seq<char>) -> bool {
    forall|rel: Seq<Seq<char>>| #[trigger]
        disk.contains_key((dst, rel)) ==> disk[(dst, rel)] == Item::Dir || same_at(
            disk,
            src,
            dst,
            rel,
        )
}

/// The two disks hold the same at `src`.
pub open spec fn same_source(a: Disk, b: Disk, src: Seq<char>) -> bool {
    forall|rel: Seq<Seq<char>>|
        (#[trigger] a.contains_key((src, rel))) == b.contains_key((src, rel)) && (a.contains_key(
            (src, rel),
        ) ==> a[(src, rel)] == b[(src, rel)])
}

/// The entry `e` of the directory `dir` is on the disk at `src`, as the
/// kind of thing that the listing says.
pub open spec fn on_disk(disk: Disk, src: Seq<char>, dir: Seq<Seq<char>>, e: EntryView) -> bool {
    disk.contains_key((src, dir.push(e.name))) && ((disk[(src, dir.push(e.name))] == Item::Dir)
        == e.is_dir)
}

proof fn lemma_effects_one(op: FsOpView, disk: Disk)
    ensures
        effects(seq![op], disk) == effect(op, disk),
{
    assert(seq![op].drop_last() =~= Seq::<FsOpView>::empty());
    assert(effects(Seq::<FsOpView>::empty(), disk) == disk);
}

proof fn lemma_effects_two(a: FsOpView, b: FsOpView, disk: Disk)
    ensures
        effects(seq![a, b], disk) == effect(b, effect(a, disk)),
{
    assert(seq![a, b].drop_last() =~= seq![a]);
    lemma_effects_one(a, disk);
}

proof fn lemma_copy_op_sound(op: FsOpView, src: Seq<char>, dst: Seq<char>, disk: Disk)
    requires
        src != dst,
        is_copy_op(op, src, dst),
        sound(disk, src, dst),
    ensures
        sound(effect(op, disk), src, dst),
        same_source(effect(op, disk), disk, src),
{
    let after = effect(op, disk);
    assert forall|rel: Seq<Seq<char>>|
        (#[trigger] after.contains_key((src, rel))) == disk.contains_key((src, rel)) && (
        after.contains_key((src, rel)) ==> after[(src, rel)] == disk[(src, rel)]) by {}
    assert forall|rel: Seq<Seq<char>>| #[trigger] after.contains_key((dst, rel)) implies after[(
        dst,
        rel,
    )] == Item::Dir || same_at(after, src, dst, rel) by {
        assert(after.contains_key((src, rel)) == disk.contains_key((src, rel)));
        if disk.contains_key((dst, rel)) {
            assert(disk[(dst, rel)] == Item::Dir || same_at(disk, src, dst, rel));
        }
    }
}

/// The operations of a copy keep the source as it is, and put nothing in
/// the copy but directories and what the source holds.
pub proof fn lemma_copy_ops_sound(ops: Seq<FsOpView>, src: Seq<char>, dst: Seq<char>, disk: Disk)
    requires
        src != dst,
        are_copy_ops(ops, src, dst),
        sound(disk, src, dst),
    ensures
        sound(effects(ops, disk), src, dst),
        same_source(effects(ops, disk), disk, src),
    decreases ops.len(),
{
    if ops.len() > 0 {
        let front = ops.drop_last();
        assert forall|k: int| 0 <= k < front.len() implies is_copy_op(
            #[trigger] front[k],
            src,
            dst,
        ) by {
            assert(front[k] == ops[k]);
        }
        lemma_copy_ops_sound(front, src, dst, disk);
        assert(is_copy_op(ops[ops.len() - 1], src, dst));
        lemma_copy_op_sound(ops.last(), src, dst, effects(front, disk));
    }
}

proof fn lemma_entry_keeps(
    src: Seq<char>,
    dst: Seq<char>,
    dir: Seq<Seq<char>>,
    e: EntryView,
    disk: Disk,
    rel: Seq<Seq<char>>,
)
    requires
        src != dst,
        same_at(disk, src, dst, rel),
    ensures
        same_at(effects(entry_ops(src, dst, dir, e), disk), src, dst, rel),
{
    let q = dir.push(e.name);
    if e.name == metadata_name() {
        assert(effects(Seq::<FsOpView>::empty(), disk) == disk);
    } else if e.is_dir {
        lemma_effects_one(FsOpView::CreateDirAll { root: dst, rel: q }, disk);
    } else {
        let remove = FsOpView::RemoveFile { root: dst, rel: q };
        let copy = FsOpView::CopyFile { from_root: src, to_root: dst, rel: q };
        lemma_effects_two(remove, copy, disk);
        let mid = effect(remove, disk);
        assert(mid.contains_key((src, rel)) && mid[(src, rel)] == disk[(src, rel)]);
        if q == rel {
            assert(mid.contains_key((src, q)));
        } else {
            assert((dst, q) != (dst, rel));
            assert(mid.contains_key((dst, rel)) && mid[(dst, rel)] == disk[(dst, rel)]);
        }
    }
}

proof fn lemma_entry_sets(
    src: Seq<char>,
    dst: Seq<char>,
    dir: Seq<Seq<char>>,
    e: EntryView,
    disk: Disk,
)
    requires
        src != dst,
        sound(disk, src, dst),
        e.name != metadata_name(),
        on_disk(disk, src, dir, e),
    ensures
        same_at(effects(entry_ops(src, dst, dir, e), disk), src, dst, dir.push(e.name)),
{
    let q = dir.push(e.name);
    if e.is_dir {
        lemma_effects_one(FsOpView::CreateDirAll { root: dst, rel: q }, disk);
        assert(q.is_prefix_of(q));
        if disk.contains_key((dst, q)) {
            assert(disk[(dst, q)] == Item::Dir || same_at(disk, src, dst, q));
        }
    } else {
        let remove = FsOpView::RemoveFile { root: dst, rel: q };
        let copy = FsOpView::CopyFile { from_root: src, to_root: dst, rel: q };
        lemma_effects_two(remove, copy, disk);
        let mid = effect(remove, disk);
        assert(mid.contains_key((src, q)) && mid[(src, q)] == disk[(src, q)]);
    }
}

proof fn lemma_dir_keeps(
    src: Seq<char>,
    dst: Seq<char>,
    dir: Seq<Seq<char>>,
    entries: Seq<EntryView>,
    disk: Disk,
    rel: Seq<Seq<char>>,
)
    requires
        src != dst,
        same_at(disk, src, dst, rel),
    ensures
        same_at(effects(dir_ops(src, dst, dir, entries), disk), src, dst, rel),
    decreases entries.len(),
{
    if entries.len() == 0 {
        assert(effects(Seq::<FsOpView>::empty(), disk) == disk);
    } else {
        let front_ops = dir_ops(src, dst, dir, entries.drop_last());
        lemma_dir_keeps(src, dst, dir, entries.drop_last(), disk, rel);
        lemma_effects_concat(front_ops, entry_ops(src, dst, dir, entries.last()), disk);
        lemma_entry_keeps(src, dst, dir, entries.last(), effects(front_ops, disk), rel);
    }
}

proof fn lemma_dir_sets(
    src: Seq<char>,
    dst: Seq<char>,
    dir: Seq<Seq<char>>,
    entries: Seq<EntryView>,
    k: int,
    disk: Disk,
)
    requires
        src != dst,
        sound(disk, src, dst),
        0 <= k < entries.len(),
        entries[k].name != metadata_name(),
        on_disk(disk, src, dir, entries[k]),
    ensures
        same_at(effects(dir_ops(src, dst, dir, entries), disk), src, dst, dir.push(entries[k].name)),
    decreases entries.len(),
{
    let front = entries.drop_last();
    let front_ops = dir_ops(src, dst, dir, front);
    let q = dir.push(entries[k].name);
    lemma_effects_concat(front_ops, entry_ops(src, dst, dir, entries.last()), disk);
    let mid = effects(front_ops, disk);
    if k == entries.len() - 1 {
        lemma_dir_ops_are_copy_ops(src, dst, dir, front);
        lemma_copy_ops_sound(front_ops, src, dst, disk);
        assert(mid.contains_key((src, q)) == disk.contains_key((src, q)));
        lemma_entry_sets(src, dst, dir, entries.last(), mid);
    } else {
        assert(front[k] == entries[k]);
        lemma_dir_sets(src, dst, dir, front, k, disk);
        lemma_entry_keeps(src, dst, dir, entries.last(), mid, q);
    }
}

proof fn lemma_walk_keeps(
    tree: spec_fn(Seq<Seq<char>>) -> Seq<EntryView>,
    src: Seq<char>,
    dst: Seq<char>,
    states: Seq<TreeCopyView>,
    j: int,
    n: int,
    disk: Disk,
    rel: Seq<Seq<char>>,
)
    requires
        src != dst,
        is_walk(tree, src, dst, states),
        0 <= j <= n <= states.len() - 1,
        same_at(effects(walk_ops_upto(tree, states, j), disk), src, dst, rel),
    ensures
        same_at(effects(walk_ops_upto(tree, states, n), disk), src, dst, rel),
    decreases n - j,
{
    if j < n {
        lemma_walk_keeps(tree, src, dst, states, j, n - 1, disk, rel);
        let front = walk_ops_upto(tree, states, n - 1);
        lemma_effects_concat(front, walk_ops(tree, states, n - 1), disk);
        lemma_walk_ops_are_copy_ops(tree, src, dst, states, n - 1);
        let s = states[n - 1];
        lemma_dir_keeps(
            src,
            dst,
            s.pending.last(),
            tree(s.pending.last()),
            effects(front, disk),
            rel,
        );
    }
}

/// After a relocation by copy from `src`
/// to another place `dst`, every entry of the source tree that is no
/// metadata directory and lies in none is in the copy, at the same path
/// and with what the source holds there, and the source holds what it
/// held.
pub proof fn lemma_copy_holds_the_source(
    tree: spec_fn(Seq<Seq<char>>) -> Seq<EntryView>,
    src: Seq<char>,
    dst: Seq<char>,
    states: Seq<TreeCopyView>,
    disk: Disk,
    dir: Seq<Seq<char>>,
    k: int,
)
    requires
        src != dst,
        is_walk(tree, src, dst, states),
        rooted(disk, dst),
        is_dir_in(tree, dir),
        clean_path(dir),
        0 <= k < tree(dir).len(),
        tree(dir)[k].name != metadata_name(),
        on_disk(disk, src, dir, tree(dir)[k]),
    ensures
        ({
            let after = effects(copy_ops(tree, states, dst, disk.contains_key(top(dst))), disk);
            let place = dir.push(tree(dir)[k].name);
            &&& after.contains_key((dst, place))
            &&& after[(dst, place)] == disk[(src, place)]
            &&& same_source(after, disk, src)
        }),
{
    let n = states.len() - 1;
    let walk = walk_ops_upto(tree, states, n);
    let first = clear_destination(dst, disk.contains_key(top(dst)));
    let empty = cleared(disk, dst);
    let place = dir.push(tree(dir)[k].name);
    lemma_destination_cleared(disk, dst, disk.contains_key(top(dst)));
    lemma_effects_concat(first, walk, disk);
    assert(sound(empty, src, dst)) by {
        assert forall|rel: Seq<Seq<char>>| #[trigger]
            empty.contains_key((dst, rel)) implies empty[(dst, rel)] == Item::Dir by {}
    }
    assert(same_source(empty, disk, src));
    let j = lemma_every_directory_listed(tree, src, dst, states, dir);
    let front = walk_ops_upto(tree, states, j);
    lemma_walk_ops_are_copy_ops(tree, src, dst, states, j);
    lemma_copy_ops_sound(front, src, dst, empty);
    let mid = effects(front, empty);
    assert(mid.contains_key((src, place)) == empty.contains_key((src, place)));
    lemma_dir_sets(src, dst, dir, tree(dir), k, mid);
    lemma_effects_concat(front, walk_ops(tree, states, j), empty);
    assert(walk_ops_upto(tree, states, j + 1) == front + walk_ops(tree, states, j));
    lemma_walk_keeps(tree, src, dst, states, j + 1, n, empty, place);
    lemma_walk_ops_are_copy_ops(tree, src, dst, states, n);
    lemma_copy_ops_sound(walk, src, dst, empty);
    let after = effects(walk, empty);
    assert(after.contains_key((src, place)) == empty.contains_key((src, place)));
    assert forall|rel: Seq<Seq<char>>|
        (#[trigger] after.contains_key((src, rel))) == disk.contains_key((src, rel)) && (
        after.contains_key((src, rel)) ==> after[(src, rel)] == disk[(src, rel)]) by {
        assert(after.contains_key((src, rel)) == empty.contains_key((src, rel)));
        assert(empty.contains_key((src, rel)) == disk.contains_key((src, rel)));
    }
}

/// After a relocation by move from `src` to another place
/// `dst`, every entry of the source tree that is no metadata directory and
/// lies in none is at `dst` with what the source held there, and nothing
/// is left at `src`.
pub proof fn lemma_move_holds_the_source(
    tree: spec_fn(Seq<Seq<char>>) -> Seq<EntryView>,
    src: Seq<char>,
    dst: Seq<char>,
    states: Seq<TreeCopyView>,
    disk: Disk,
    dir: Seq<Seq<char>>,
    k: int,
)
    requires
        src != dst,
        is_walk(tree, src, dst, states),
        rooted(disk, dst),
        is_dir_in(tree, dir),
        clean_path(dir),
        0 <= k < tree(dir).len(),
        tree(dir)[k].name != metadata_name(),
        on_disk(disk, src, dir, tree(dir)[k]),
    ensures
        ({
            let after = effects(
                move_ops(tree, states, src, dst, disk.contains_key(top(dst))),
                disk,
            );
            let place = dir.push(tree(dir)[k].name);
            &&& after.contains_key((dst, place))
            &&& after[(dst, place)] == disk[(src, place)]
            &&& forall|rel: Seq<Seq<char>>| !after.contains_key((src, rel))
        }),
{
    lemma_copy_holds_the_source(tree, src, dst, states, disk, dir, k);
    let ops = move_ops(tree, states, src, dst, disk.contains_key(top(dst)));
    assert(ops.drop_last() =~= copy_ops(tree, states, dst, disk.contains_key(top(dst))));
    assert(ops.last() == (FsOpView::RemoveDirAll { root: src }));
}

} // verus!
