//! A model of what the file-system operations do, and what a relocation
//! leaves behind in it.
//!
//! The model keeps, for each root directory and each path below it, what is
//! there: a directory or a file with its bytes. Roots are taken as places
//! of their own, none inside another, and every operation as carried out
//! without failure.

use vstd::prelude::*;
use crate::copy::{EntryView, FsOpView, TreeCopyView, dir_ops, entry_ops, next_state};
use crate::project::clear_destination;
use crate::walk::{is_walk, walk_ops};

verus! {

/// What is at a place.
pub enum Item {
    Dir,
    File(Seq<u8>),
}

/// A place: a root directory and the path below it.
pub type Place = (Seq<char>, Seq<Seq<char>>);

/// What is where.
pub type Disk = Map<Place, Item>;

/// The root directory itself, as a place.
pub open spec fn top(root: Seq<char>) -> Place {
    (root, Seq::<Seq<char>>::empty())
}

/// The disk after one operation.
pub open spec fn effect(op: FsOpView, disk: Disk) -> Disk {
    match op {
        FsOpView::RemoveDirAll { root } => Map::new(
            |k: Place| disk.contains_key(k) && k.0 != root,
            |k: Place| disk[k],
        ),
        FsOpView::CreateDirAll { root, rel } => Map::new(
            |k: Place| disk.contains_key(k) || (k.0 == root && k.1.is_prefix_of(rel)),
            |k: Place|
                if disk.contains_key(k) {
                    disk[k]
                } else {
                    Item::Dir
                },
        ),
        FsOpView::RemoveFile { root, rel } => if disk.contains_key((root, rel)) && disk[(
            root,
            rel,
        )] is File {
            disk.remove((root, rel))
        } else {
            disk
        },
        FsOpView::CopyFile { from_root, to_root, rel } => if disk.contains_key((from_root, rel)) {
            disk.insert((to_root, rel), disk[(from_root, rel)])
        } else {
            disk
        },
    }
}

/// The disk after a list of operations, performed in order.
pub open spec fn effects(ops: Seq<FsOpView>, disk: Disk) -> Disk
    decreases ops.len(),
{
    if ops.len() == 0 {
        disk
    } else {
        effect(ops.last(), effects(ops.drop_last(), disk))
    }
}

/// The operation is one of a copy from `src` into `dst`: it changes
/// nothing but what is below the top of `dst`.
pub open spec fn is_copy_op(op: FsOpView, src: Seq<char>, dst: Seq<char>) -> bool {
    match op {
        FsOpView::RemoveDirAll { root } => false,
        FsOpView::CreateDirAll { root, rel } => root == dst,
        FsOpView::RemoveFile { root, rel } => root == dst && rel.len() > 0,
        FsOpView::CopyFile { from_root, to_root, rel } => from_root == src && to_root == dst
            && rel.len() > 0,
    }
}

/// All operations of the list are operations of a copy from `src` into
/// `dst`.
pub open spec fn are_copy_ops(ops: Seq<FsOpView>, src: Seq<char>, dst: Seq<char>) -> bool {
    forall|k: int| 0 <= k < ops.len() ==> is_copy_op(#[trigger] ops[k], src, dst)
}

/// Nothing is below a root that is not there itself.
pub open spec fn rooted(disk: Disk, root: Seq<char>) -> bool {
    forall|rel: Seq<Seq<char>>| #[trigger]
        disk.contains_key((root, rel)) ==> disk.contains_key(top(root))
}

/// The disk with nothing at `dst` but the empty directory itself.
pub open spec fn cleared(disk: Disk, dst: Seq<char>) -> Disk {
    Map::new(
        |k: Place| k == top(dst) || (k.0 != dst && disk.contains_key(k)),
        |k: Place|
            if k.0 == dst {
                Item::Dir
            } else {
                disk[k]
            },
    )
}

/// The operations of the first `n` steps of a walk, in order.
pub open spec fn walk_ops_upto(
    tree: spec_fn(Seq<Seq<char>>) -> Seq<EntryView>,
    states: Seq<TreeCopyView>,
    n: int,
) -> Seq<FsOpView>
    decreases n,
{
    if n <= 0 {
        Seq::empty()
    } else {
        walk_ops_upto(tree, states, n - 1) + walk_ops(tree, states, n - 1)
    }
}

/// All operations of a relocation by copy into `dst`, where `exists` says
/// whether `dst` was there before: the destination is cleared, then the
/// walk is run to its end.
pub open spec fn copy_ops(
    tree: spec_fn(Seq<Seq<char>>) -> Seq<EntryView>,
    states: Seq<TreeCopyView>,
    dst: Seq<char>,
    exists: bool,
) -> Seq<FsOpView> {
    clear_destination(dst, exists) + walk_ops_upto(tree, states, states.len() - 1)
}

/// All operations of a relocation by move from `src` into `dst`: those of
/// the copy, then the removal of `src`.
pub open spec fn move_ops(
    tree: spec_fn(Seq<Seq<char>>) -> Seq<EntryView>,
    states: Seq<TreeCopyView>,
    src: Seq<char>,
    dst: Seq<char>,
    exists: bool,
) -> Seq<FsOpView> {
    copy_ops(tree, states, dst, exists).push(FsOpView::RemoveDirAll { root: src })
}

/// Performing two lists one after the other is performing their
/// concatenation.
pub proof fn lemma_effects_concat(a: Seq<FsOpView>, b: Seq<FsOpView>, disk: Disk)
    ensures
        effects(a + b, disk) == effects(b, effects(a, disk)),
    decreases b.len(),
{
    if b.len() == 0 {
        assert(a + b =~= a);
    } else {
        assert((a + b).drop_last() =~= a + b.drop_last());
        assert((a + b).last() == b.last());
        lemma_effects_concat(a, b.drop_last(), disk);
    }
}

/// Every operation for a listing is an operation of a copy from `src`
/// into `dst`.
pub proof fn lemma_dir_ops_are_copy_ops(
    src: Seq<char>,
    dst: Seq<char>,
    dir: Seq<Seq<char>>,
    entries: Seq<EntryView>,
)
    ensures
        are_copy_ops(dir_ops(src, dst, dir, entries), src, dst),
    decreases entries.len(),
{
    if entries.len() > 0 {
        let front_ops = dir_ops(src, dst, dir, entries.drop_last());
        let last_ops = entry_ops(src, dst, dir, entries.last());
        let all_ops = dir_ops(src, dst, dir, entries);
        lemma_dir_ops_are_copy_ops(src, dst, dir, entries.drop_last());
        assert forall|k: int| 0 <= k < all_ops.len() implies is_copy_op(
            #[trigger] all_ops[k],
            src,
            dst,
        ) by {
            if k < front_ops.len() {
                assert(all_ops[k] == front_ops[k]);
            } else {
                assert(all_ops[k] == last_ops[k - front_ops.len()]);
            }
        }
    }
}

/// Every operation of a walk from `src` to `dst` is an operation of a copy
/// from `src` into `dst`.
pub proof fn lemma_walk_ops_are_copy_ops(
    tree: spec_fn(Seq<Seq<char>>) -> Seq<EntryView>,
    src: Seq<char>,
    dst: Seq<char>,
    states: Seq<TreeCopyView>,
    n: int,
)
    requires
        is_walk(tree, src, dst, states),
        0 <= n <= states.len() - 1,
    ensures
        are_copy_ops(walk_ops_upto(tree, states, n), src, dst),
        n < states.len() - 1 ==> states[n].src == src && states[n].dst == dst,
    decreases n,
{
    if n > 0 {
        lemma_walk_ops_are_copy_ops(tree, src, dst, states, n - 1);
        let s = states[n - 1];
        assert(states[n - 1 + 1] == next_state(s, tree(s.pending.last())));
        let front = walk_ops_upto(tree, states, n - 1);
        let step = walk_ops(tree, states, n - 1);
        lemma_dir_ops_are_copy_ops(src, dst, s.pending.last(), tree(s.pending.last()));
        let all = walk_ops_upto(tree, states, n);
        assert forall|k: int| 0 <= k < all.len() implies is_copy_op(#[trigger] all[k], src, dst) by {
            if k < front.len() {
                assert(all[k] == front[k]);
            } else {
                assert(all[k] == step[k - front.len()]);
            }
        }
    }
}

/// The operations of a copy into `dst` leave everything outside `dst` as it
/// was, and the top of `dst` a directory where it was one.
pub proof fn lemma_copy_ops_stay_inside(
    ops: Seq<FsOpView>,
    src: Seq<char>,
    dst: Seq<char>,
    disk: Disk,
)
    requires
        are_copy_ops(ops, src, dst),
    ensures
        forall|k: Place|
            k.0 != dst ==> (#[trigger] effects(ops, disk).contains_key(k) == disk.contains_key(k))
                && (disk.contains_key(k) ==> effects(ops, disk)[k] == disk[k]),
        disk.contains_key(top(dst)) && disk[top(dst)] == Item::Dir ==> effects(
            ops,
            disk,
        ).contains_key(top(dst)) && effects(ops, disk)[top(dst)] == Item::Dir,
    decreases ops.len(),
{
    if ops.len() > 0 {
        let front = ops.drop_last();
        assert forall|k: int| 0 <= k < front.len() implies is_copy_op(
            #[trigger] front[k],
            src,
            dst,
        ) by {
            assert(front[k] == ops[k]);
        }
        lemma_copy_ops_stay_inside(front, src, dst, disk);
        assert(is_copy_op(ops[ops.len() - 1], src, dst));
    }
}

/// Whatever was at the destination before, after
/// the first operations of a relocation it is an empty directory; all else
/// is as it was.
pub proof fn lemma_destination_cleared(disk: Disk, dst: Seq<char>, exists: bool)
    requires
        rooted(disk, dst),
        exists == disk.contains_key(top(dst)),
    ensures
        effects(clear_destination(dst, exists), disk) == cleared(disk, dst),
        forall|rel: Seq<Seq<char>>|
            rel.len() > 0 ==> !(#[trigger] cleared(disk, dst).contains_key((dst, rel))),
{
    let ops = clear_destination(dst, exists);
    let create = FsOpView::CreateDirAll { root: dst, rel: Seq::<Seq<char>>::empty() };
    let none = Seq::<FsOpView>::empty();
    assert(effects(none, disk) == disk);
    let before = if exists {
        let remove = FsOpView::RemoveDirAll { root: dst };
        assert(ops.drop_last() =~= seq![remove]);
        assert(seq![remove].drop_last() =~= none);
        assert(effects(seq![remove], disk) == effect(remove, disk));
        effect(remove, disk)
    } else {
        assert(ops.drop_last() =~= none);
        disk
    };
    assert(ops.last() == create);
    assert(effects(ops, disk) == effect(create, before));
    assert forall|k: Place| before.contains_key(k) implies k.0 != dst by {
        if k.0 == dst {
            assert(k == (dst, k.1));
            assert(disk.contains_key((dst, k.1)));
        }
    }
    assert forall|k: Place|
        effect(create, before).contains_key(k) == cleared(disk, dst).contains_key(k) by {
        if k.0 == dst && k.1.is_prefix_of(Seq::<Seq<char>>::empty()) {
            assert(k.1 =~= Seq::<Seq<char>>::empty());
            assert(k == top(dst));
        }
        if k == top(dst) {
            assert(k.1.is_prefix_of(Seq::<Seq<char>>::empty()));
        }
        if k.0 != dst && disk.contains_key(k) {
            assert(before.contains_key(k));
        }
    }
    assert(effect(create, before) =~= cleared(disk, dst));
    assert forall|rel: Seq<Seq<char>>| rel.len() > 0 implies !(#[trigger] cleared(
        disk,
        dst,
    ).contains_key((dst, rel))) by {
        assert((dst, rel).1.len() > 0);
        assert(top(dst).1.len() == 0);
    }
}

/// A relocation by copy that is run again on what the
/// first run left, from the same source tree to the same destination,
/// leaves exactly what the first run left.
pub proof fn lemma_copy_again_same_result(
    tree: spec_fn(Seq<Seq<char>>) -> Seq<EntryView>,
    src: Seq<char>,
    dst: Seq<char>,
    states: Seq<TreeCopyView>,
    disk: Disk,
)
    requires
        is_walk(tree, src, dst, states),
        rooted(disk, dst),
    ensures
        ({
            let once = effects(copy_ops(tree, states, dst, disk.contains_key(top(dst))), disk);
            once.contains_key(top(dst)) && effects(copy_ops(tree, states, dst, true), once) == once
        }),
{
    let walk = walk_ops_upto(tree, states, states.len() - 1);
    let first = clear_destination(dst, disk.contains_key(top(dst)));
    let again = clear_destination(dst, true);
    let empty = cleared(disk, dst);
    lemma_walk_ops_are_copy_ops(tree, src, dst, states, states.len() - 1);
    lemma_destination_cleared(disk, dst, disk.contains_key(top(dst)));
    lemma_effects_concat(first, walk, disk);
    let once = effects(walk, empty);
    assert(once == effects(first + walk, disk));
    lemma_copy_ops_stay_inside(walk, src, dst, empty);
    assert(empty.contains_key(top(dst)));
    assert(once.contains_key(top(dst)));
    assert(rooted(once, dst));
    lemma_destination_cleared(once, dst, true);
    assert forall|k: Place| cleared(once, dst).contains_key(k) == empty.contains_key(k) by {
        if k.0 != dst {
            assert(once.contains_key(k) == empty.contains_key(k));
        }
    }
    assert forall|k: Place| empty.contains_key(k) implies cleared(once, dst)[k] == empty[k] by {
        if k.0 != dst {
            assert(once.contains_key(k) == empty.contains_key(k));
        }
    }
    assert(cleared(once, dst) =~= empty);
    lemma_effects_concat(again, walk, once);
}

/// After a relocation by move nothing is left at the place the sources
/// came from.
pub proof fn lemma_move_removes_source(
    tree: spec_fn(Seq<Seq<char>>) -> Seq<EntryView>,
    states: Seq<TreeCopyView>,
    src: Seq<char>,
    dst: Seq<char>,
    exists: bool,
    disk: Disk,
    rel: Seq<Seq<char>>,
)
    ensures
        !effects(move_ops(tree, states, src, dst, exists), disk).contains_key((src, rel)),
{
    let ops = move_ops(tree, states, src, dst, exists);
    assert(ops.last() == (FsOpView::RemoveDirAll { root: src }));
}

} // verus!
