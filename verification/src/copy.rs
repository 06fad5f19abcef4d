//! Recursive copy of a directory tree, one directory listing at a time.
//!
//! A [`TreeCopy`] walks a source tree depth-first. The caller lists the
//! directory that the walk asks for, hands the listing to [`TreeCopy::step`]
//! and performs the file-system operations that come back, until no
//! directory is pending. Entries named like the version-control metadata
//! directory are neither copied nor entered.

use vstd::prelude::*;
use vstd::string::*;
use crate::text::{clone_strings, strings_view};

verus! {

/// Name of the version-control metadata directory, which is never copied.
pub open spec fn metadata_name() -> Seq<char> {
    seq!['.', 'g', 'i', 't']
}

/// One entry of a directory listing.
#[derive(Clone, Debug, PartialEq, Eq)]
pub struct DirEntry {
    /// File name of the entry, a single path component.
    pub name: String,
    /// Whether the entry is a directory.
    pub is_dir: bool,
}

/// Mathematical value of a [`DirEntry`].
pub struct EntryView {
    pub name: Seq<char>,
    pub is_dir: bool,
}

impl View for DirEntry {
    type V = EntryView;

    open spec fn view(&self) -> EntryView {
        EntryView { name: self.name@, is_dir: self.is_dir }
    }
}

/// A file-system operation for the caller to perform. A path is a root
/// directory followed by components below it.
#[derive(Clone, Debug, PartialEq, Eq)]
pub enum FsOp {
    /// Remove the directory `root` with everything in it.
    RemoveDirAll { root: String },
    /// Create the directory `rel` below `root`, with its ancestors.
    CreateDirAll { root: String, rel: Vec<String> },
    /// Remove the file `rel` below `root`; it is no failure if none is there.
    RemoveFile { root: String, rel: Vec<String> },
    /// Copy contents and permissions of the file `rel` below `from_root` to
    /// the same place below `to_root`.
    CopyFile { from_root: String, to_root: String, rel: Vec<String> },
}

/// Mathematical value of an [`FsOp`].
pub enum FsOpView {
    RemoveDirAll { root: Seq<char> },
    CreateDirAll { root: Seq<char>, rel: Seq<Seq<char>> },
    RemoveFile { root: Seq<char>, rel: Seq<Seq<char>> },
    CopyFile { from_root: Seq<char>, to_root: Seq<char>, rel: Seq<Seq<char>> },
}

impl View for FsOp {
    type V = FsOpView;

    open spec fn view(&self) -> FsOpView {
        match self {
            FsOp::RemoveDirAll { root } => FsOpView::RemoveDirAll { root: root@ },
            FsOp::CreateDirAll { root, rel } => FsOpView::CreateDirAll {
                root: root@,
                rel: strings_view(rel@),
            },
            FsOp::RemoveFile { root, rel } => FsOpView::RemoveFile {
                root: root@,
                rel: strings_view(rel@),
            },
            FsOp::CopyFile { from_root, to_root, rel } => FsOpView::CopyFile {
                from_root: from_root@,
                to_root: to_root@,
                rel: strings_view(rel@),
            },
        }
    }
}

/// The values of a list of operations, in order.
pub open spec fn ops_view(ops: Seq<FsOp>) -> Seq<FsOpView> {
    Seq::new(ops.len(), |i: int| ops[i]@)
}

/// The values of a directory listing, in order.
pub open spec fn entries_view(entries: Seq<DirEntry>) -> Seq<EntryView> {
    Seq::new(entries.len(), |i: int| entries[i]@)
}

/// The values of a list of relative paths, in order.
pub open spec fn paths_view(paths: Seq<Vec<String>>) -> Seq<Seq<Seq<char>>> {
    Seq::new(paths.len(), |i: int| strings_view(paths[i]@))
}

/// What copying one entry of the directory `dir` takes: nothing for the
/// metadata directory, the directory itself for a directory, and for a file
/// the removal of what may be in its place followed by the copy.
pub open spec fn entry_ops(
    src: Seq<char>,
    dst: Seq<char>,
    dir: Seq<Seq<char>>,
    e: EntryView,
) -> Seq<FsOpView> {
    if e.name == metadata_name() {
        Seq::empty()
    } else if e.is_dir {
        seq![FsOpView::CreateDirAll { root: dst, rel: dir.push(e.name) }]
    } else {
        seq![
            FsOpView::RemoveFile { root: dst, rel: dir.push(e.name) },
            FsOpView::CopyFile { from_root: src, to_root: dst, rel: dir.push(e.name) },
        ]
    }
}

/// The operations for a whole listing of `dir`: those of each entry, in the
/// order of the listing.
pub open spec fn dir_ops(
    src: Seq<char>,
    dst: Seq<char>,
    dir: Seq<Seq<char>>,
    entries: Seq<EntryView>,
) -> Seq<FsOpView>
    decreases entries.len(),
{
    if entries.len() == 0 {
        Seq::empty()
    } else {
        dir_ops(src, dst, dir, entries.drop_last()) + entry_ops(src, dst, dir, entries.last())
    }
}

/// The directories of a listing of `dir` that the walk has to enter, in the
/// order of the listing.
pub open spec fn subdirs(dir: Seq<Seq<char>>, entries: Seq<EntryView>) -> Seq<Seq<Seq<char>>>
    decreases entries.len(),
{
    if entries.len() == 0 {
        Seq::empty()
    } else {
        let rest = subdirs(dir, entries.drop_last());
        let e = entries.last();
        if e.is_dir && e.name != metadata_name() {
            rest.push(dir.push(e.name))
        } else {
            rest
        }
    }
}

/// No component of the path is the metadata directory.
pub open spec fn clean_path(path: Seq<Seq<char>>) -> bool {
    forall|i: int| 0 <= i < path.len() ==> #[trigger] path[i] != metadata_name()
}

/// The operation touches nothing in or below a metadata directory.
pub open spec fn clean_op(op: FsOpView) -> bool {
    match op {
        FsOpView::RemoveDirAll { root } => true,
        FsOpView::CreateDirAll { root, rel } => clean_path(rel),
        FsOpView::RemoveFile { root, rel } => clean_path(rel),
        FsOpView::CopyFile { from_root, to_root, rel } => clean_path(rel),
    }
}

/// Mathematical value of a [`TreeCopy`].
pub struct TreeCopyView {
    /// Root of the tree that is copied.
    pub src: Seq<char>,
    /// Root of the copy.
    pub dst: Seq<char>,
    /// Directories still to be listed, relative to the roots; the last one
    /// comes next.
    pub pending: Seq<Seq<Seq<char>>>,
}

/// The operations that a walk in state `s` returns for the listing
/// `entries` of the directory it asked for.
pub open spec fn step_ops(s: TreeCopyView, entries: Seq<EntryView>) -> Seq<FsOpView> {
    dir_ops(s.src, s.dst, s.pending.last(), entries)
}

/// The state of a walk after the listing `entries` of the directory it
/// asked for: that directory is done, and the directories to enter among
/// its entries are pending on top of the others.
pub open spec fn next_state(s: TreeCopyView, entries: Seq<EntryView>) -> TreeCopyView {
    TreeCopyView {
        src: s.src,
        dst: s.dst,
        pending: s.pending.drop_last() + subdirs(s.pending.last(), entries),
    }
}

/// A copy of a directory tree in progress.
#[derive(Clone, Debug)]
pub struct TreeCopy {
    src: String,
    dst: String,
    pending: Vec<Vec<String>>,
}

impl View for TreeCopy {
    type V = TreeCopyView;

    closed spec fn view(&self) -> TreeCopyView {
        TreeCopyView { src: self.src@, dst: self.dst@, pending: paths_view(self.pending@) }
    }
}

impl TreeCopy {
    /// The walk never waits to enter a metadata directory.
    pub open spec fn wf(&self) -> bool {
        forall|i: int| 0 <= i < self@.pending.len() ==> clean_path(#[trigger] self@.pending[i])
    }

    /// Starts a copy of the tree at `src` into the directory `dst`: the root
    /// itself is the one directory pending.
    pub fn new(src: &str, dst: &str) -> (copy: TreeCopy)
        ensures
            copy@.src == src@,
            copy@.dst == dst@,
            copy@.pending == seq![Seq::<Seq<char>>::empty()],
            copy.wf(),
    {
        let mut pending: Vec<Vec<String>> = Vec::new();
        let root: Vec<String> = Vec::new();
        assert(strings_view(root@) =~= Seq::<Seq<char>>::empty());
        pending.push(root);
        let copy = TreeCopy { src: String::from_str(src), dst: String::from_str(dst), pending };
        assert(copy@.pending =~= seq![Seq::<Seq<char>>::empty()]);
        copy
    }

    /// Root of the tree that is copied.
    pub fn source(&self) -> (src: &str)
        ensures
            src@ == self@.src,
    {
        self.src.as_str()
    }

    /// Root of the copy.
    pub fn destination(&self) -> (dst: &str)
        ensures
            dst@ == self@.dst,
    {
        self.dst.as_str()
    }

    /// What has to be done before the first directory is listed: the
    /// destination is created, with its ancestors, unless it is there.
    pub fn prepare(&self) -> (ops: Vec<FsOp>)
        ensures
            ops_view(ops@) == seq![
                FsOpView::CreateDirAll { root: self@.dst, rel: Seq::<Seq<char>>::empty() },
            ],
    {
        let top: Vec<String> = Vec::new();
        assert(strings_view(top@) =~= Seq::<Seq<char>>::empty());
        let mut ops: Vec<FsOp> = Vec::new();
        ops.push(FsOp::CreateDirAll { root: self.dst.clone(), rel: top });
        assert(ops_view(ops@) =~= seq![
            FsOpView::CreateDirAll { root: self@.dst, rel: Seq::<Seq<char>>::empty() },
        ]);
        ops
    }

    /// Whether every directory has been listed.
    pub fn is_done(&self) -> (done: bool)
        ensures
            done == (self@.pending.len() == 0),
    {
        self.pending.len() == 0
    }

    /// The directory to list next, relative to the source root; `None` when
    /// the walk is over.
    pub fn next_dir(&self) -> (dir: Option<Vec<String>>)
        ensures
            dir.is_none() == (self@.pending.len() == 0),
            dir.is_some() ==> strings_view(dir.unwrap()@) == self@.pending.last(),
    {
        let n: usize = self.pending.len();
        if n == 0 {
            None
        } else {
            Some(clone_strings(&self.pending[n - 1]))
        }
    }

    /// Takes the listing of the directory that [`TreeCopy::next_dir`] named
    /// and returns the operations that copy its entries, in listing order.
    /// The directories among them become pending, the last listed first.
    pub fn step(&mut self, entries: &Vec<DirEntry>) -> (ops: Vec<FsOp>)
        requires
            old(self)@.pending.len() > 0,
            old(self).wf(),
        ensures
            ops_view(ops@) == step_ops(old(self)@, entries_view(entries@)),
            final(self)@ == next_state(old(self)@, entries_view(entries@)),
            final(self).wf(),
            forall|k: int| 0 <= k < ops.len() ==> clean_op(#[trigger] ops[k]@),
    {
        let ghost before = self@;
        let ghost all = entries_view(entries@);
        let dir: Vec<String> = self.pending.pop().unwrap();
        let ghost d = strings_view(dir@);
        let ghost base = before.pending.drop_last();
        assert(paths_view(self.pending@) =~= base);
        assert(d == before.pending.last());
        proof {
            reveal_strlit(".git");
        }
        let git = String::from_str(".git");
        assert(git@ =~= metadata_name());
        let mut ops: Vec<FsOp> = Vec::new();
        let mut i: usize = 0;
        assert(all.subrange(0, 0) =~= Seq::<EntryView>::empty());
        assert(ops_view(ops@) =~= Seq::<FsOpView>::empty());
        assert(paths_view(self.pending@) =~= base + subdirs(d, all.subrange(0, 0)));
        while i < entries.len()
            invariant
                i <= entries.len(),
                all == entries_view(entries@),
                git@ == metadata_name(),
                d == strings_view(dir@),
                self.src@ == before.src,
                self.dst@ == before.dst,
                ops_view(ops@) == dir_ops(before.src, before.dst, d, all.subrange(0, i as int)),
                paths_view(self.pending@) == base + subdirs(d, all.subrange(0, i as int)),
            decreases entries.len() - i,
        {
            let e = &entries[i];
            let ghost upto = all.subrange(0, i + 1);
            let ghost ops_before = ops_view(ops@);
            let ghost pending_before = paths_view(self.pending@);
            proof {
                assert(upto.drop_last() =~= all.subrange(0, i as int));
                assert(upto.last() == e@);
            }
            if e.name == git {
                assert(ops_view(ops@) =~= dir_ops(before.src, before.dst, d, upto));
            } else {
                let mut rel: Vec<String> = clone_strings(&dir);
                rel.push(e.name.clone());
                assert(strings_view(rel@) =~= d.push(e.name@));
                if e.is_dir {
                    ops.push(FsOp::CreateDirAll { root: self.dst.clone(), rel: clone_strings(&rel) });
                    self.pending.push(rel);
                    assert(ops_view(ops@) =~= ops_before + entry_ops(
                        before.src,
                        before.dst,
                        d,
                        e@,
                    ));
                    assert(paths_view(self.pending@) =~= pending_before.push(d.push(e.name@)));
                } else {
                    ops.push(FsOp::RemoveFile { root: self.dst.clone(), rel: clone_strings(&rel) });
                    ops.push(
                        FsOp::CopyFile {
                            from_root: self.src.clone(),
                            to_root: self.dst.clone(),
                            rel,
                        },
                    );
                    assert(ops_view(ops@) =~= ops_before + entry_ops(
                        before.src,
                        before.dst,
                        d,
                        e@,
                    ));
                }
            }
            assert(paths_view(self.pending@) =~= base + subdirs(d, upto));
            i += 1;
        }
        proof {
            assert(all.subrange(0, i as int) =~= all);
            lemma_metadata_excluded(before.src, before.dst, d, all);
            assert(clean_path(before.pending[before.pending.len() - 1]));
            assert forall|k: int| 0 <= k < ops.len() implies clean_op(#[trigger] ops[k]@) by {
                assert(ops[k]@ == ops_view(ops@)[k]);
            }
        }
        ops
    }
}

/// Every entry of a listing that is not the metadata directory is copied,
/// whatever else the listing holds: a directory is created in the copy and
/// will be entered, a file is copied to its place right after what may be
/// there was removed.
pub proof fn lemma_copy_complete(
    src: Seq<char>,
    dst: Seq<char>,
    dir: Seq<Seq<char>>,
    entries: Seq<EntryView>,
    i: int,
)
    requires
        0 <= i < entries.len(),
        entries[i].name != metadata_name(),
    ensures
        entries[i].is_dir ==> dir_ops(src, dst, dir, entries).contains(
            FsOpView::CreateDirAll { root: dst, rel: dir.push(entries[i].name) },
        ) && subdirs(dir, entries).contains(dir.push(entries[i].name)),
        !entries[i].is_dir ==> exists|k: int|
            0 <= k && k + 1 < dir_ops(src, dst, dir, entries).len() && #[trigger] dir_ops(
                src,
                dst,
                dir,
                entries,
            )[k] == (FsOpView::RemoveFile { root: dst, rel: dir.push(entries[i].name) })
                && dir_ops(src, dst, dir, entries)[k + 1] == (FsOpView::CopyFile {
                from_root: src,
                to_root: dst,
                rel: dir.push(entries[i].name),
            }),
    decreases entries.len(),
{
    let front = entries.drop_last();
    let front_ops = dir_ops(src, dst, dir, front);
    let all_ops = dir_ops(src, dst, dir, entries);
    let last_ops = entry_ops(src, dst, dir, entries.last());
    assert(all_ops == front_ops + last_ops);
    let e = entries[i];
    let rel = dir.push(e.name);
    if i == entries.len() - 1 {
        let k = front_ops.len() as int;
        if e.is_dir {
            assert(all_ops[k] == last_ops[0]);
            assert(subdirs(dir, entries).last() == rel);
        } else {
            assert(all_ops[k] == last_ops[0]);
            assert(all_ops[k + 1] == last_ops[1]);
        }
    } else {
        lemma_copy_complete(src, dst, dir, front, i);
        assert(front[i] == e);
        if e.is_dir {
            let op = FsOpView::CreateDirAll { root: dst, rel };
            let k = choose|k: int| 0 <= k < front_ops.len() && front_ops[k] == op;
            assert(all_ops[k] == op);
            let sub = subdirs(dir, front);
            let j = choose|j: int| 0 <= j < sub.len() && sub[j] == rel;
            assert(subdirs(dir, entries)[j] == rel);
        } else {
            let k = choose|k: int|
                0 <= k && k + 1 < front_ops.len() && #[trigger] front_ops[k]
                    == (FsOpView::RemoveFile { root: dst, rel }) && front_ops[k + 1]
                    == (FsOpView::CopyFile { from_root: src, to_root: dst, rel });
            assert(all_ops[k] == front_ops[k]);
            assert(all_ops[k + 1] == front_ops[k + 1]);
        }
    }
}

/// Below a directory that lies in no metadata directory, no operation
/// touches a metadata directory or anything under one, and the walk enters
/// none.
pub proof fn lemma_metadata_excluded(
    src: Seq<char>,
    dst: Seq<char>,
    dir: Seq<Seq<char>>,
    entries: Seq<EntryView>,
)
    requires
        clean_path(dir),
    ensures
        forall|k: int|
            0 <= k < dir_ops(src, dst, dir, entries).len() ==> clean_op(
                #[trigger] dir_ops(src, dst, dir, entries)[k],
            ),
        forall|k: int|
            0 <= k < subdirs(dir, entries).len() ==> clean_path(
                #[trigger] subdirs(dir, entries)[k],
            ),
    decreases entries.len(),
{
    if entries.len() > 0 {
        let front = entries.drop_last();
        lemma_metadata_excluded(src, dst, dir, front);
        let e = entries.last();
        let rel = dir.push(e.name);
        if e.name != metadata_name() {
            assert forall|i: int| 0 <= i < rel.len() implies #[trigger] rel[i]
                != metadata_name() by {
                if i < dir.len() {
                    assert(rel[i] == dir[i]);
                }
            }
        }
        let front_ops = dir_ops(src, dst, dir, front);
        let last_ops = entry_ops(src, dst, dir, e);
        let all_ops = dir_ops(src, dst, dir, entries);
        assert forall|k: int| 0 <= k < all_ops.len() implies clean_op(#[trigger] all_ops[k]) by {
            if k < front_ops.len() {
                assert(all_ops[k] == front_ops[k]);
            } else {
                assert(all_ops[k] == last_ops[k - front_ops.len()]);
            }
        }
        let sub = subdirs(dir, entries);
        let front_sub = subdirs(dir, front);
        assert forall|k: int| 0 <= k < sub.len() implies clean_path(#[trigger] sub[k]) by {
            if k < front_sub.len() {
                assert(sub[k] == front_sub[k]);
            }
        }
    }
}

} // verus!
