use std::collections::BTreeMap;

use autotools_build::copy::{DirEntry, FsOp, TreeCopy};
use autotools_build::project::{Project, Relocation};

/// A file system in memory: for each root and path below it, `None` for a
/// directory and the bytes for a file.
type Disk = BTreeMap<(String, Vec<String>), Option<Vec<u8>>>;

fn rel(parts: &[&str]) -> Vec<String> {
    parts.iter().map(|p| p.to_string()).collect()
}

fn entry(name: &str, is_dir: bool) -> DirEntry {
    DirEntry { name: name.to_string(), is_dir }
}

fn put_dir(disk: &mut Disk, root: &str, parts: &[&str]) {
    disk.insert((root.to_string(), rel(parts)), None);
}

fn put_file(disk: &mut Disk, root: &str, parts: &[&str], bytes: &[u8]) {
    disk.insert((root.to_string(), rel(parts)), Some(bytes.to_vec()));
}

fn list(disk: &Disk, root: &str, dir: &[String]) -> Vec<DirEntry> {
    let mut out = Vec::new();
    for ((r, path), item) in disk.iter() {
        if r == root && path.len() == dir.len() + 1 && path[..dir.len()] == dir[..] {
            out.push(DirEntry { name: path[dir.len()].clone(), is_dir: item.is_none() });
        }
    }
    out
}

fn perform(disk: &mut Disk, op: &FsOp) {
    match op {
        FsOp::RemoveDirAll { root } => {
            disk.retain(|(r, _), _| r != root);
        }
        FsOp::CreateDirAll { root, rel } => {
            for n in 0..=rel.len() {
                disk.entry((root.clone(), rel[..n].to_vec())).or_insert(None);
            }
        }
        FsOp::RemoveFile { root, rel } => {
            disk.remove(&(root.clone(), rel.clone()));
        }
        FsOp::CopyFile { from_root, to_root, rel } => {
            let bytes = disk.get(&(from_root.clone(), rel.clone())).unwrap().clone();
            assert!(bytes.is_some());
            assert!(!disk.contains_key(&(to_root.clone(), rel.clone())));
            disk.insert((to_root.clone(), rel.clone()), bytes);
        }
    }
}

fn relocate(disk: &mut Disk, plan: Relocation, src: &str) {
    for op in plan.before.iter() {
        perform(disk, op);
    }
    let mut copy = plan.copy;
    assert_eq!(copy.source(), src);
    while let Some(dir) = copy.next_dir() {
        let entries = list(disk, copy.source(), &dir);
        for op in copy.step(&entries).iter() {
            perform(disk, op);
        }
    }
    assert!(copy.is_done());
    for op in plan.after.iter() {
        perform(disk, op);
    }
}

fn under(disk: &Disk, root: &str) -> Vec<(Vec<String>, Option<Vec<u8>>)> {
    disk.iter()
        .filter(|((r, _), _)| r == root)
        .map(|((_, p), item)| (p.clone(), item.clone()))
        .collect()
}

fn sample_tree(disk: &mut Disk, root: &str) {
    put_dir(disk, root, &[]);
    put_file(disk, root, &["configure.ac"], b"AC_INIT");
    put_dir(disk, root, &["src"]);
    put_file(disk, root, &["src", "main.c"], b"int main;");
    put_dir(disk, root, &["src", "deep"]);
    put_file(disk, root, &["src", "deep", "x.h"], b"#pragma once");
    put_dir(disk, root, &["empty"]);
}

#[test]
fn readme_copied_and_git_left_out() {
    let mut project = Project::new("foo", "/src/foo");
    let plan = project.cp_src("/build/foo", false);
    assert_eq!(
        plan.before,
        vec![FsOp::CreateDirAll { root: "/build/foo".to_string(), rel: vec![] }]
    );
    assert!(plan.after.is_empty());
    let mut copy = plan.copy;
    assert_eq!(copy.next_dir(), Some(vec![]));
    let ops = copy.step(&vec![entry("README", false), entry(".git", true)]);
    assert_eq!(
        ops,
        vec![
            FsOp::RemoveFile { root: "/build/foo".to_string(), rel: rel(&["README"]) },
            FsOp::CopyFile {
                from_root: "/src/foo".to_string(),
                to_root: "/build/foo".to_string(),
                rel: rel(&["README"]),
            },
        ]
    );
    assert!(copy.is_done());
    assert_eq!(copy.next_dir(), None);
    assert_eq!(project.src_dir(), "/build/foo");
}

#[test]
fn readme_has_identical_bytes_and_git_is_absent() {
    let mut disk = Disk::new();
    put_dir(&mut disk, "/src/foo", &[]);
    put_file(&mut disk, "/src/foo", &["README"], b"read me first\n");
    put_dir(&mut disk, "/src/foo", &[".git"]);
    put_file(&mut disk, "/src/foo", &[".git", "HEAD"], b"ref: refs/heads/main\n");
    let mut project = Project::new("foo", "/src/foo");
    let plan = project.cp_src("/build/foo", false);
    relocate(&mut disk, plan, "/src/foo");
    assert_eq!(
        disk.get(&("/build/foo".to_string(), rel(&["README"]))),
        Some(&Some(b"read me first\n".to_vec()))
    );
    assert!(!disk.contains_key(&("/build/foo".to_string(), rel(&[".git"]))));
    assert!(!disk.contains_key(&("/build/foo".to_string(), rel(&[".git", "HEAD"]))));
    assert_eq!(under(&disk, "/build/foo").len(), 2);
}

#[test]
fn copy_is_complete() {
    let mut disk = Disk::new();
    sample_tree(&mut disk, "/a");
    let mut project = Project::new("p", "/a");
    let plan = project.cp_src("/b", false);
    relocate(&mut disk, plan, "/a");
    assert_eq!(under(&disk, "/b"), under(&disk, "/a"));
    assert_eq!(under(&disk, "/b").len(), 7);
}

#[test]
fn nested_metadata_is_skipped_and_siblings_are_copied() {
    let mut disk = Disk::new();
    sample_tree(&mut disk, "/a");
    let clean = under(&disk, "/a");
    put_dir(&mut disk, "/a", &["src", ".git"]);
    put_file(&mut disk, "/a", &["src", ".git", "config"], b"[core]");
    put_dir(&mut disk, "/a", &["src", ".git", "objects"]);
    let mut project = Project::new("p", "/a");
    let plan = project.cp_src("/b", false);
    relocate(&mut disk, plan, "/a");
    assert_eq!(under(&disk, "/b"), clean);
}

#[test]
fn copy_prepares_its_destination() {
    let copy = TreeCopy::new("/a", "/b/c");
    assert_eq!(copy.source(), "/a");
    assert_eq!(copy.destination(), "/b/c");
    assert_eq!(copy.prepare(), vec![FsOp::CreateDirAll { root: "/b/c".to_string(), rel: vec![] }]);
    assert!(!copy.is_done());
    assert_eq!(copy.next_dir(), Some(vec![]));
}

#[test]
fn empty_tree_is_copied_in_one_step() {
    let mut copy = TreeCopy::new("/a", "/b");
    assert!(copy.step(&vec![]).is_empty());
    assert!(copy.is_done());
    assert_eq!(copy.next_dir(), None);
}

#[test]
fn file_named_like_metadata_is_skipped() {
    let mut copy = TreeCopy::new("/a", "/b");
    let ops = copy.step(&vec![entry(".git", false), entry(".gitignore", false)]);
    assert_eq!(
        ops,
        vec![
            FsOp::RemoveFile { root: "/b".to_string(), rel: rel(&[".gitignore"]) },
            FsOp::CopyFile {
                from_root: "/a".to_string(),
                to_root: "/b".to_string(),
                rel: rel(&[".gitignore"]),
            },
        ]
    );
}

#[test]
fn copying_twice_gives_the_same_tree() {
    let mut disk = Disk::new();
    sample_tree(&mut disk, "/a");
    let mut first = Project::new("p", "/a");
    let plan = first.cp_src("/b", false);
    relocate(&mut disk, plan, "/a");
    let once = disk.clone();
    let mut second = Project::new("p", "/a");
    let plan = second.cp_src("/b", true);
    assert_eq!(plan.before[0], FsOp::RemoveDirAll { root: "/b".to_string() });
    relocate(&mut disk, plan, "/a");
    assert_eq!(disk, once);
}

#[test]
fn move_leaves_only_the_new_place() {
    let mut disk = Disk::new();
    sample_tree(&mut disk, "/a");
    let before = under(&disk, "/a");
    let mut project = Project::new("p", "/a");
    let plan = project.mv_src("/b", false);
    assert_eq!(plan.after, vec![FsOp::RemoveDirAll { root: "/a".to_string() }]);
    relocate(&mut disk, plan, "/a");
    assert_eq!(under(&disk, "/b"), before);
    assert!(under(&disk, "/a").is_empty());
    assert_eq!(project.src_dir(), "/b");
}

#[test]
fn unrelated_contents_of_the_destination_are_gone() {
    let mut disk = Disk::new();
    sample_tree(&mut disk, "/a");
    put_dir(&mut disk, "/b", &[]);
    put_file(&mut disk, "/b", &["stale.o"], b"old");
    put_dir(&mut disk, "/b", &["junk"]);
    put_file(&mut disk, "/b", &["junk", "configure.ac"], b"other");
    let mut project = Project::new("p", "/a");
    let plan = project.cp_src("/b", true);
    assert_eq!(
        plan.before,
        vec![
            FsOp::RemoveDirAll { root: "/b".to_string() },
            FsOp::CreateDirAll { root: "/b".to_string(), rel: vec![] },
        ]
    );
    relocate(&mut disk, plan, "/a");
    assert_eq!(under(&disk, "/b"), under(&disk, "/a"));
}

#[test]
fn directories_are_created_and_entered_depth_first() {
    let mut copy = TreeCopy::new("/a", "/b");
    let ops = copy.step(&vec![entry("one", true), entry("f", false), entry("two", true)]);
    assert_eq!(
        ops,
        vec![
            FsOp::CreateDirAll { root: "/b".to_string(), rel: rel(&["one"]) },
            FsOp::RemoveFile { root: "/b".to_string(), rel: rel(&["f"]) },
            FsOp::CopyFile {
                from_root: "/a".to_string(),
                to_root: "/b".to_string(),
                rel: rel(&["f"]),
            },
            FsOp::CreateDirAll { root: "/b".to_string(), rel: rel(&["two"]) },
        ]
    );
    assert!(!copy.is_done());
    assert_eq!(copy.next_dir(), Some(rel(&["two"])));
    let ops = copy.step(&vec![entry("inner", true)]);
    assert_eq!(ops, vec![FsOp::CreateDirAll { root: "/b".to_string(), rel: rel(&["two", "inner"]) }]);
    assert_eq!(copy.next_dir(), Some(rel(&["two", "inner"])));
    assert!(copy.step(&vec![]).is_empty());
    assert_eq!(copy.next_dir(), Some(rel(&["one"])));
    assert!(copy.step(&vec![]).is_empty());
    assert!(copy.is_done());
}
