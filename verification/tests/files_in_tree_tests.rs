//! Tests of the tree enumeration order.

use cmp_tree::data_structures::{FileRecord, SimpleFileType};
use cmp_tree::files::files_in_tree;

fn reg(path: &str, content: &[u8], mtime: u128) -> FileRecord {
    FileRecord {
        path: path.as_bytes().to_vec(),
        kind: Some(SimpleFileType::RegFile),
        size: Some(content.len() as u64),
        mtime: Some(mtime),
        mtime_followed: Some(mtime),
        link_target: None,
        content: Some(content.to_vec()),
    }
}

fn dir(path: &str, mtime: u128) -> FileRecord {
    FileRecord {
        path: path.as_bytes().to_vec(),
        kind: Some(SimpleFileType::Directory),
        size: Some(0),
        mtime: Some(mtime),
        mtime_followed: Some(mtime),
        link_target: None,
        content: None,
    }
}

fn p(s: &str) -> Vec<u8> {
    s.as_bytes().to_vec()
}

const LOREM: &[u8] = b"Lorem ipsum dolor sit amet, consectetur adipiscing elit, \
sed do eiusmod tempor incididunt ut labore et dolore magna aliqua.\n";

const CMP_MAN: &[u8] = b"CMP(1)  User Commands  CMP(1)  NAME  cmp - compare two \
files byte by byte  SYNOPSIS  cmp [OPTION]... FILE1 [FILE2 [SKIP1 [SKIP2]]]\n";

/// The enumeration of a single-level directory of two regular files.
fn tree_001_first() -> Vec<FileRecord> {
    vec![reg("Lorem.txt", LOREM, 100), reg("cmp_man_pages.txt", CMP_MAN, 100)]
}

/// The enumeration of a two-level tree: two files beside a subdirectory of
/// two more.
fn tree_003_second() -> Vec<FileRecord> {
    vec![
        reg("Lorem.txt", LOREM, 100),
        reg("cmp_man_pages.txt", CMP_MAN, 100),
        dir("subdir", 100),
        reg("subdir/linear_gradient.png", b"\x89PNG gradient pixels", 100),
        reg("subdir/rose.png", b"\x89PNG rose pixels", 100),
    ]
}

/// The enumeration of a four-level tree of directories only.
fn tree_006_second() -> Vec<FileRecord> {
    [
        "a", "a/i", "b", "b/i", "b/i/1", "b/ii", "b/ii/2", "c", "c/i", "c/i/1", "c/i/1/a",
        "c/ii", "c/ii/2", "c/ii/2/b", "c/iii", "c/iii/3", "c/iii/3/c",
    ]
        .iter()
        .map(|path| dir(path, 100))
        .collect()
}

/// The enumeration of a four-level tree of directories only, with one more
/// top-level branch.
fn tree_007_second() -> Vec<FileRecord> {
    [
        "a", "a/i", "b", "b/i", "b/i/1", "b/ii", "b/ii/2", "d", "d/i", "d/i/1", "d/i/1/a",
        "d/ii", "d/ii/2", "d/ii/2/b", "d/iii", "d/iii/3", "d/iii/3/c", "d/iv", "d/iv/4",
        "d/iv/4/d",
    ]
        .iter()
        .map(|path| dir(path, 100))
        .collect()
}

#[test]
fn files_ut_files_in_tree_001() {
    let root_dir = tree_001_first();
    let expected_ret_content = vec![p("Lorem.txt"), p("cmp_man_pages.txt")];

    let ret_content = files_in_tree(&root_dir);
    println!("ret_content = {:#?}", ret_content);
    println!("expected_ret_content = {:#?}", expected_ret_content);
    assert_eq!(ret_content, expected_ret_content);
}

#[test]
fn files_ut_files_in_tree_002() {
    let root_dir = tree_003_second();
    let expected_ret_content = vec![
        p("Lorem.txt"),
        p("cmp_man_pages.txt"),
        p("subdir"),
        p("subdir/linear_gradient.png"),
        p("subdir/rose.png"),
    ];

    let ret_content = files_in_tree(&root_dir);
    println!("ret_content = {:#?}", ret_content);
    println!("expected_ret_content = {:#?}", expected_ret_content);
    assert_eq!(ret_content, expected_ret_content);
}

#[test]
fn files_ut_files_in_tree_003() {
    let root_dir = tree_006_second();
    let expected_ret_content = vec![
        p("a"),
        p("a/i"),
        p("b"),
        p("b/i"),
        p("b/i/1"),
        p("b/ii"),
        p("b/ii/2"),
        p("c"),
        p("c/i"),
        p("c/i/1"),
        p("c/i/1/a"),
        p("c/ii"),
        p("c/ii/2"),
        p("c/ii/2/b"),
        p("c/iii"),
        p("c/iii/3"),
        p("c/iii/3/c"),
    ];

    let ret_content = files_in_tree(&root_dir);
    println!("ret_content = {:#?}", ret_content);
    println!("expected_ret_content = {:#?}", expected_ret_content);
    assert_eq!(ret_content, expected_ret_content);
}

#[test]
fn files_ut_files_in_tree_004() {
    let root_dir = tree_007_second();
    let expected_ret_content = vec![
        p("a"),
        p("a/i"),
        p("b"),
        p("b/i"),
        p("b/i/1"),
        p("b/ii"),
        p("b/ii/2"),
        p("d"),
        p("d/i"),
        p("d/i/1"),
        p("d/i/1/a"),
        p("d/ii"),
        p("d/ii/2"),
        p("d/ii/2/b"),
        p("d/iii"),
        p("d/iii/3"),
        p("d/iii/3/c"),
        p("d/iv"),
        p("d/iv/4"),
        p("d/iv/4/d"),
    ];

    let ret_content = files_in_tree(&root_dir);
    println!("ret_content = {:#?}", ret_content);
    println!("expected_ret_content = {:#?}", expected_ret_content);
    assert_eq!(ret_content, expected_ret_content);
}

#[test]
fn unit_tests_ut_files_in_tree_001() {
    let root_dir = tree_001_first();
    let mut expected_ret = vec![p("Lorem.txt"), p("cmp_man_pages.txt")];
    expected_ret.sort();

    let mut ret = files_in_tree(&root_dir);
    ret.sort();
    assert_eq!(ret, expected_ret);
}

#[test]
fn unit_tests_ut_files_in_tree_002() {
    let root_dir = tree_003_second();
    let mut expected_ret = vec![
        p("Lorem.txt"),
        p("cmp_man_pages.txt"),
        p("subdir"),
        p("subdir/linear_gradient.png"),
        p("subdir/rose.png"),
    ];
    expected_ret.sort();

    let mut ret = files_in_tree(&root_dir);
    ret.sort();
    assert_eq!(ret, expected_ret);
}

#[test]
fn unit_tests_ut_files_in_tree_003() {
    let root_dir = tree_006_second();
    let mut expected_ret = vec![
        p("a"),
        p("a/i"),
        p("b"),
        p("b/i"),
        p("b/i/1"),
        p("b/ii"),
        p("b/ii/2"),
        p("c"),
        p("c/i"),
        p("c/i/1"),
        p("c/i/1/a"),
        p("c/ii"),
        p("c/ii/2"),
        p("c/ii/2/b"),
        p("c/iii"),
        p("c/iii/3"),
        p("c/iii/3/c"),
    ];
    expected_ret.sort();

    let mut ret = files_in_tree(&root_dir);
    ret.sort();
    assert_eq!(ret, expected_ret);
}

#[test]
fn unit_tests_ut_files_in_tree_004() {
    let root_dir = tree_007_second();
    let mut expected_ret = vec![
        p("a"),
        p("a/i"),
        p("b"),
        p("b/i"),
        p("b/i/1"),
        p("b/ii"),
        p("b/ii/2"),
        p("d"),
        p("d/i"),
        p("d/i/1"),
        p("d/i/1/a"),
        p("d/ii"),
        p("d/ii/2"),
        p("d/ii/2/b"),
        p("d/iii"),
        p("d/iii/3"),
        p("d/iii/3/c"),
        p("d/iv"),
        p("d/iv/4"),
        p("d/iv/4/d"),
    ];
    expected_ret.sort();

    let mut ret = files_in_tree(&root_dir);
    ret.sort();
    assert_eq!(ret, expected_ret);
}
