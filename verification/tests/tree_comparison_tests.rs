//! Tests of the comparison engine over whole trees, and of the
//! regular-file comparator.

use cmp_tree::compare::{compare_directory_trees, compare_regular_files};
use cmp_tree::data_structures::{
    FileCmp, FileRecord, FullFileComparison, PartialFileComparison, SimpleFileType, TreeSnapshot,
};
use cmp_tree::default_config;

fn reg(path: &str, content: &[u8], mtime: u128) -> FileRecord {
    FileRecord {
        path: path.as_bytes().to_vec(),
        kind: Some(SimpleFileType::RegFile),
        size: Some(content.len() as u64),
        mtime: Some(mtime),
        mtime_followed: Some(mtime),
        link_target: None,
        content: Some(content.to_vec()),
    }
}

fn dir(path: &str, mtime: u128) -> FileRecord {
    FileRecord {
        path: path.as_bytes().to_vec(),
        kind: Some(SimpleFileType::Directory),
        size: Some(0),
        mtime: Some(mtime),
        mtime_followed: Some(mtime),
        link_target: None,
        content: None,
    }
}

fn link(path: &str, target: &str, mtime: u128) -> FileRecord {
    FileRecord {
        path: path.as_bytes().to_vec(),
        kind: Some(SimpleFileType::SoftLink),
        size: Some(target.len() as u64),
        mtime: Some(mtime),
        mtime_followed: Some(mtime),
        link_target: Some(target.as_bytes().to_vec()),
        content: None,
    }
}

fn snap(root: &str, records: Vec<FileRecord>) -> TreeSnapshot {
    TreeSnapshot { root: root.as_bytes().to_vec(), records }
}

fn full(
    cmp: FileCmp,
    first_ft: Option<SimpleFileType>,
    second_ft: Option<SimpleFileType>,
    first_root: &str,
    second_root: &str,
    rel: &str,
) -> FullFileComparison {
    FullFileComparison {
        partial_cmp: PartialFileComparison { file_cmp: cmp, first_ft, second_ft },
        first_path: format!("{}/{}", first_root, rel).into_bytes(),
        second_path: format!("{}/{}", second_root, rel).into_bytes(),
    }
}

const LOREM: &[u8] = b"Lorem ipsum dolor sit amet, consectetur adipiscing elit, \
sed do eiusmod tempor incididunt ut labore et dolore magna aliqua.\n";

/// The same words with every letter but the first in the opposite case:
/// the same length as `LOREM`, different bytes.
const LOREM_UPPER: &[u8] = b"LOREM IPSUM DOLOR SIT AMET, CONSECTETUR ADIPISCING ELIT, \
SED DO EIUSMOD TEMPOR INCIDIDUNT UT LABORE ET DOLORE MAGNA ALIQUA.\n";

const CMP_MAN: &[u8] = b"CMP(1)  User Commands  CMP(1)  NAME  cmp - compare two \
files byte by byte  SYNOPSIS  cmp [OPTION]... FILE1 [FILE2 [SKIP1 [SKIP2]]]\n";

const GRADIENT: &[u8] = b"\x89PNG linear gradient pixel rows";
const ROSE: &[u8] = b"\x89PNG a rose in bloom";
const ROSE_OTHER: &[u8] = b"\x89PNG a rose, wilted";

#[test]
fn unit_tests_ut_compare_regular_files_001() {
    let first_file = reg("Lorem.txt", LOREM, 100);
    let second_file = reg("Lorem.txt", LOREM, 200);
    /* `expected_ret` would be `Ok(FileCmp::Match)` */
    let expected_ret_content = FileCmp::Match;

    let ret = compare_regular_files(&first_file, &second_file);
    match ret {
        Ok(ret_content) => {
            assert_eq!(ret_content, expected_ret_content);
        },
        Err(_) => assert!(false),
    }
}

#[test]
fn unit_tests_ut_compare_regular_files_002() {
    let first_file = reg("cmp_man_pages.txt", CMP_MAN, 100);
    let second_file = reg("cmp_man_pages.txt", CMP_MAN, 300);
    /* `expected_ret` would be `Ok(FileCmp::Match)` */
    let expected_ret_content = FileCmp::Match;

    let ret = compare_regular_files(&first_file, &second_file);
    match ret {
        Ok(ret_content) => {
            assert_eq!(ret_content, expected_ret_content);
        },
        Err(_) => assert!(false),
    }
}

#[test]
fn unit_tests_ut_compare_regular_files_003() {
    /* The two input files are text files with the same words, but every letter (but the very
     * first) in the first file is in lower case whereas every letter in the second file is
     * uppercase. */
    let first_file = reg("Lorem.txt", LOREM, 100);
    let second_file = reg("Lorem.txt", LOREM_UPPER, 100);
    /* `expected_ret` would be `Ok(FileCmp::SubstanceRegFileContentMismatch)` */
    let expected_ret_content = FileCmp::SubstanceRegFileContentMismatch;

    let ret = compare_regular_files(&first_file, &second_file);
    match ret {
        Ok(ret_content) => {
            assert_eq!(ret_content, expected_ret_content);
        },
        Err(_) => assert!(false),
    }
}

#[test]
fn compare_ut_compare_regular_files_001() {
    let first_file = reg("Lorem.txt", LOREM, 100);
    let second_file = reg("Lorem.txt", LOREM, 200);
    /* `expected_ret` would be `Ok(FileCmp::Match)` */
    let expected_ret_content = FileCmp::Match;

    let ret = compare_regular_files(&first_file, &second_file);
    match ret {
        Ok(ret_content) => {
            assert_eq!(ret_content, expected_ret_content);
        },
        Err(_) => assert!(false),
    }
}

#[test]
fn compare_ut_compare_regular_files_002() {
    let first_file = reg("cmp_man_pages.txt", CMP_MAN, 100);
    let second_file = reg("cmp_man_pages.txt", CMP_MAN, 300);
    /* `expected_ret` would be `Ok(FileCmp::Match)` */
    let expected_ret_content = FileCmp::Match;

    let ret = compare_regular_files(&first_file, &second_file);
    match ret {
        Ok(ret_content) => {
            assert_eq!(ret_content, expected_ret_content);
        },
        Err(_) => assert!(false),
    }
}

#[test]
fn compare_ut_compare_regular_files_003() {
    /* The two input files are text files with the same words, but every letter (but the very
     * first) in the first file is in lower case whereas every letter in the second file is
     * uppercase. */
    let first_file = reg("Lorem.txt", LOREM, 100);
    let second_file = reg("Lorem.txt", LOREM_UPPER, 100);
    let expected_ret_content = FileCmp::SubstanceRegFileContentMismatch;

    let ret = compare_regular_files(&first_file, &second_file);
    match ret {
        Ok(ret_content) => {
            assert_eq!(ret_content, expected_ret_content);
        },
        Err(_) => assert!(false),
    }
}

#[test]
fn ut_compare_directory_trees_001() {
    let conf = default_config();
    let first_root = "../../tests/001/first";
    let second_root = "../../tests/001/second";
    let first_dir = snap(
        first_root,
        vec![reg("Lorem.txt", LOREM, 100), reg("cmp_man_pages.txt", CMP_MAN, 100)],
    );
    let second_dir = snap(
        second_root,
        vec![reg("Lorem.txt", LOREM, 200), reg("cmp_man_pages.txt", CMP_MAN, 200)],
    );
    let expected_ret_content = vec![
        full(
            FileCmp::Match,
            Some(SimpleFileType::RegFile),
            Some(SimpleFileType::RegFile),
            first_root,
            second_root,
            "Lorem.txt",
        ),
        full(
            FileCmp::Match,
            Some(SimpleFileType::RegFile),
            Some(SimpleFileType::RegFile),
            first_root,
            second_root,
            "cmp_man_pages.txt",
        ),
    ];

    match compare_directory_trees(&conf, &first_dir, &second_dir) {
        Ok(ret_content) => {
            assert_eq!(ret_content, expected_ret_content);
        },
        Err(_) => assert!(false),
    }
}

#[test]
fn ut_compare_directory_trees_002() {
    let conf = default_config();
    let first_root = "../../tests/002/first";
    let second_root = "../../tests/002/second";
    let first_dir = snap(
        first_root,
        vec![reg("Lorem.txt", LOREM, 100), reg("cmp_man_pages.txt", CMP_MAN, 100)],
    );
    let second_dir = snap(
        second_root,
        vec![reg("Lorem.txt", LOREM_UPPER, 100), reg("cmp_man_pages.txt", CMP_MAN, 100)],
    );
    let expected_ret_content = vec![
        full(
            FileCmp::SubstanceRegFileContentMismatch,
            Some(SimpleFileType::RegFile),
            Some(SimpleFileType::RegFile),
            first_root,
            second_root,
            "Lorem.txt",
        ),
        full(
            FileCmp::Match,
            Some(SimpleFileType::RegFile),
            Some(SimpleFileType::RegFile),
            first_root,
            second_root,
            "cmp_man_pages.txt",
        ),
    ];

    match compare_directory_trees(&conf, &first_dir, &second_dir) {
        Ok(ret_content) => {
            assert_eq!(ret_content, expected_ret_content);
        },
        Err(_) => assert!(false),
    }
}

fn tree_003_records(rose: &[u8]) -> Vec<FileRecord> {
    vec![
        reg("Lorem.txt", LOREM, 100),
        reg("cmp_man_pages.txt", CMP_MAN, 100),
        dir("subdir", 100),
        reg("subdir/linear_gradient.png", GRADIENT, 100),
        reg("subdir/rose.png", rose, 100),
    ]
}

fn tree_003_expected(
    first_root: &str,
    second_root: &str,
    rose_cmp: FileCmp,
) -> Vec<FullFileComparison> {
    vec![
        full(
            FileCmp::Match,
            Some(SimpleFileType::RegFile),
            Some(SimpleFileType::RegFile),
            first_root,
            second_root,
            "Lorem.txt",
        ),
        full(
            FileCmp::Match,
            Some(SimpleFileType::RegFile),
            Some(SimpleFileType::RegFile),
            first_root,
            second_root,
            "cmp_man_pages.txt",
        ),
        full(
            FileCmp::Match,
            Some(SimpleFileType::Directory),
            Some(SimpleFileType::Directory),
            first_root,
            second_root,
            "subdir",
        ),
        full(
            FileCmp::Match,
            Some(SimpleFileType::RegFile),
            Some(SimpleFileType::RegFile),
            first_root,
            second_root,
            "subdir/linear_gradient.png",
        ),
        full(
            rose_cmp,
            Some(SimpleFileType::RegFile),
            Some(SimpleFileType::RegFile),
            first_root,
            second_root,
            "subdir/rose.png",
        ),
    ]
}

#[test]
fn ut_compare_directory_trees_003() {
    let conf = default_config();
    let first_root = "../../tests/003/first";
    let second_root = "../../tests/003/second";
    let first_dir = snap(first_root, tree_003_records(ROSE));
    let second_dir = snap(second_root, tree_003_records(ROSE));
    let expected_ret_content = tree_003_expected(first_root, second_root, FileCmp::Match);

    match compare_directory_trees(&conf, &first_dir, &second_dir) {
        Ok(ret_content) => {
            assert_eq!(ret_content, expected_ret_content);
        },
        Err(_) => assert!(false),
    }
}

#[test]
fn ut_compare_directory_trees_004() {
    let conf = default_config();
    let first_root = "../../tests/004/first";
    let second_root = "../../tests/004/second";
    let first_dir = snap(first_root, tree_003_records(ROSE));
    let second_dir = snap(second_root, tree_003_records(ROSE_OTHER));
    let expected_ret_content = tree_003_expected(
        first_root,
        second_root,
        FileCmp::SubstanceRegFileContentMismatch,
    );

    match compare_directory_trees(&conf, &first_dir, &second_dir) {
        Ok(ret_content) => {
            assert_eq!(ret_content, expected_ret_content);
        },
        Err(_) => assert!(false),
    }
}

#[test]
fn ut_compare_directory_trees_005() {
    let conf = default_config();
    let first_root = "../../tests/005/first";
    let second_root = "../../tests/005/second";
    let first_dir = snap(
        first_root,
        vec![
            reg("Lorem.txt", LOREM, 100),
            reg("linear_gradient.png", GRADIENT, 100),
            reg("rose.png", ROSE, 100),
        ],
    );
    let second_dir = snap(
        second_root,
        vec![
            reg("Lorem.txt", LOREM_UPPER, 100),
            reg("linear_gradient.png", b"\x89PNG another gradient ramp", 100),
            reg("rose.png", ROSE_OTHER, 100),
        ],
    );
    let expected_ret_content = vec![
        full(
            FileCmp::SubstanceRegFileContentMismatch,
            Some(SimpleFileType::RegFile),
            Some(SimpleFileType::RegFile),
            first_root,
            second_root,
            "Lorem.txt",
        ),
        full(
            FileCmp::SubstanceRegFileContentMismatch,
            Some(SimpleFileType::RegFile),
            Some(SimpleFileType::RegFile),
            first_root,
            second_root,
            "linear_gradient.png",
        ),
        full(
            FileCmp::SubstanceRegFileContentMismatch,
            Some(SimpleFileType::RegFile),
            Some(SimpleFileType::RegFile),
            first_root,
            second_root,
            "rose.png",
        ),
    ];

    match compare_directory_trees(&conf, &first_dir, &second_dir) {
        Ok(ret_content) => {
            assert_eq!(ret_content, expected_ret_content);
        },
        Err(_) => assert!(false),
    }
}

const TREE_006_PATHS: [&str; 17] = [
    "a", "a/i", "b", "b/i", "b/i/1", "b/ii", "b/ii/2", "c", "c/i", "c/i/1", "c/i/1/a", "c/ii",
    "c/ii/2", "c/ii/2/b", "c/iii", "c/iii/3", "c/iii/3/c",
];

#[test]
fn ut_compare_directory_trees_006() {
    let conf = default_config();
    let first_root = "../../tests/006/first";
    let second_root = "../../tests/006/second";
    let records = || TREE_006_PATHS.iter().map(|path| dir(path, 100)).collect::<Vec<FileRecord>>();
    let first_dir = snap(first_root, records());
    let second_dir = snap(second_root, records());
    let expected_ret_content: Vec<FullFileComparison> = TREE_006_PATHS
        .iter()
        .map(|rel| {
            full(
                FileCmp::Match,
                Some(SimpleFileType::Directory),
                Some(SimpleFileType::Directory),
                first_root,
                second_root,
                rel,
            )
        })
        .collect();

    match compare_directory_trees(&conf, &first_dir, &second_dir) {
        Ok(ret_content) => {
            assert_eq!(ret_content, expected_ret_content);
        },
        Err(_) => assert!(false),
    }
}

#[test]
fn ut_compare_directory_trees_007() {
    let conf = default_config();
    let first_root = "../../tests/007/first";
    let second_root = "../../tests/007/second";
    let shared = ["a", "a/i", "b", "b/i", "b/i/1", "b/ii", "b/ii/2"];
    let only_first = [
        "c", "c/i", "c/i/1", "c/i/1/a", "c/ii", "c/ii/2", "c/ii/2/b", "c/iii", "c/iii/3",
        "c/iii/3/c",
    ];
    let only_second = [
        "d", "d/i", "d/i/1", "d/i/1/a", "d/ii", "d/ii/2", "d/ii/2/b", "d/iii", "d/iii/3",
        "d/iii/3/c", "d/iv", "d/iv/4", "d/iv/4/d",
    ];
    let first_records: Vec<FileRecord> =
        shared.iter().chain(only_first.iter()).map(|path| dir(path, 100)).collect();
    let second_records: Vec<FileRecord> =
        shared.iter().chain(only_second.iter()).map(|path| dir(path, 100)).collect();
    let first_dir = snap(first_root, first_records);
    let second_dir = snap(second_root, second_records);

    let mut expected_ret_content: Vec<FullFileComparison> = Vec::new();
    for rel in shared.iter() {
        expected_ret_content.push(full(
            FileCmp::Match,
            Some(SimpleFileType::Directory),
            Some(SimpleFileType::Directory),
            first_root,
            second_root,
            rel,
        ));
    }
    for rel in only_first.iter() {
        expected_ret_content.push(full(
            FileCmp::ExistenceOnlyFirstFile,
            Some(SimpleFileType::Directory),
            None,
            first_root,
            second_root,
            rel,
        ));
    }
    for rel in only_second.iter() {
        expected_ret_content.push(full(
            FileCmp::ExistenceOnlySecondFile,
            None,
            Some(SimpleFileType::Directory),
            first_root,
            second_root,
            rel,
        ));
    }
    // Canonical order of the unified path set: lexicographic by relative
    // path, so a, b, c and d interleave by name.
    expected_ret_content.sort_by(|x, y| x.first_path.cmp(&y.first_path));

    match compare_directory_trees(&conf, &first_dir, &second_dir) {
        Ok(ret_content) => {
            println!(" ret: {:#?}\n exp: {:#?}", ret_content, expected_ret_content);
            assert_eq!(ret_content, expected_ret_content);
        },
        Err(_) => assert!(false),
    }
}

#[test]
fn ut_compare_directory_trees_008() {
    let conf = default_config();
    let first_root = "../../tests/008/first";
    let second_root = "../../tests/008/second";
    let records = |mtime: u128| {
        vec![
            dir("adirectory", mtime),
            dir("adirectory/dir", mtime),
            reg("adirectory/file.txt", b"file contents\n", mtime),
            link("link", "adirectory", mtime),
        ]
    };
    let first_dir = snap(first_root, records(100));
    let second_dir = snap(second_root, records(200));
    let expected_ret_content = vec![
        full(
            FileCmp::Match,
            Some(SimpleFileType::Directory),
            Some(SimpleFileType::Directory),
            first_root,
            second_root,
            "adirectory",
        ),
        full(
            FileCmp::Match,
            Some(SimpleFileType::Directory),
            Some(SimpleFileType::Directory),
            first_root,
            second_root,
            "adirectory/dir",
        ),
        full(
            FileCmp::Match,
            Some(SimpleFileType::RegFile),
            Some(SimpleFileType::RegFile),
            first_root,
            second_root,
            "adirectory/file.txt",
        ),
        full(
            FileCmp::Match,
            Some(SimpleFileType::SoftLink),
            Some(SimpleFileType::SoftLink),
            first_root,
            second_root,
            "link",
        ),
    ];

    match compare_directory_trees(&conf, &first_dir, &second_dir) {
        Ok(ret_content) => {
            assert_eq!(ret_content, expected_ret_content);
        },
        Err(_) => assert!(false),
    }
}

#[test]
fn ut_compare_directory_trees_010() {
    let conf = default_config();
    let first_root = "../../tests/010/first";
    let second_root = "../../tests/010/second";
    let first_dir = snap(first_root, vec![link("link", "first_target", 100)]);
    let second_dir = snap(second_root, vec![link("link", "second_target", 100)]);
    let expected_ret_content = vec![
        full(
            FileCmp::SubstanceSoftLinkLinkMismatch,
            Some(SimpleFileType::SoftLink),
            Some(SimpleFileType::SoftLink),
            first_root,
            second_root,
            "link",
        ),
    ];

    match compare_directory_trees(&conf, &first_dir, &second_dir) {
        Ok(ret_content) => {
            assert_eq!(ret_content, expected_ret_content);
        },
        Err(_) => assert!(false),
    }
}
