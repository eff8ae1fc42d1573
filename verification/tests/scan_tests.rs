use dir_scan::policy::ScanPolicy;
use dir_scan::scan::{enumerate, get_file_names, is_hidden, should_descend, ScanError};
use dir_scan::tree::{FsEntry, FsNode};

fn file(name: &str) -> FsEntry {
    FsEntry { name: String::from(name), node: FsNode::File }
}

fn symlink(name: &str) -> FsEntry {
    FsEntry { name: String::from(name), node: FsNode::Symlink }
}

fn dir(name: &str, children: Vec<FsEntry>) -> FsEntry {
    FsEntry { name: String::from(name), node: FsNode::Directory(children) }
}

fn policy(
    recursive: bool,
    include_dotfiles: bool,
    include_directories: bool,
    include_symlinks: bool,
    include_files: bool,
    separator: &str,
) -> ScanPolicy {
    ScanPolicy {
        recursive,
        include_dotfiles,
        include_directories,
        include_symlinks,
        include_files,
        separator: String::from(separator),
    }
}

/// The contents of the `./test` fixture directory, in its listing order:
/// two plain files, a subdirectory `zzz` holding one file, a hidden file,
/// and a symlink.
fn fixture() -> Vec<FsEntry> {
    vec![
        file("testfile1.test"),
        file("testfile2.test"),
        dir("zzz", vec![file("testfile3.test")]),
        file(".testfile.test"),
        symlink("testfile.link"),
    ]
}

fn run_test(arguments: &ScanPolicy, entries: &Vec<FsEntry>, test_names: Vec<&str>) {
    let file_names = get_file_names(arguments, entries);

    println!("Got names: {:?}", file_names);

    assert_eq!(file_names.len(), test_names.len());
    for (index, file_name) in file_names.iter().enumerate() {
        assert_eq!(file_name, test_names[index]);
    }
}

#[test]
fn test_files_all() {
    let arguments = policy(true, true, true, true, true, "/");

    let test_names = vec![
        "testfile1.test",
        "testfile2.test",
        "zzz",
        "zzz/testfile3.test",
        ".testfile.test",
        "testfile.link",
    ];

    run_test(&arguments, &fixture(), test_names);
}

#[test]
fn test_files_no_dotfiles() {
    let arguments = policy(true, false, true, true, true, "/");

    let test_names = vec![
        "testfile1.test",
        "testfile2.test",
        "zzz",
        "zzz/testfile3.test",
        "testfile.link",
    ];

    run_test(&arguments, &fixture(), test_names);
}

#[test]
fn test_files_no_directories() {
    let arguments = policy(true, true, false, true, true, "/");

    let test_names = vec![
        "testfile1.test",
        "testfile2.test",
        "zzz/testfile3.test",
        ".testfile.test",
        "testfile.link",
    ];

    run_test(&arguments, &fixture(), test_names);
}

#[test]
fn test_files_no_symlinks() {
    let arguments = policy(true, true, true, false, true, "/");

    let test_names = vec![
        "testfile1.test",
        "testfile2.test",
        "zzz",
        "zzz/testfile3.test",
        ".testfile.test",
    ];

    run_test(&arguments, &fixture(), test_names);
}

#[test]
fn test_files_no_files() {
    let arguments = policy(true, true, true, true, false, "/");

    let test_names = vec!["zzz", ".testfile.test", "testfile.link"];

    run_test(&arguments, &fixture(), test_names);
}

#[test]
fn test_non_recursive_is_top_level_slice() {
    // Without recursion, exactly the depth-one entries remain, in order, and
    // no name contains the separator.
    let arguments = policy(false, true, true, true, true, "/");

    let test_names = vec![
        "testfile1.test",
        "testfile2.test",
        "zzz",
        ".testfile.test",
        "testfile.link",
    ];

    run_test(&arguments, &fixture(), test_names);
}

#[test]
fn test_separator_changes_only_joining_token() {
    let slash = get_file_names(&policy(true, true, true, true, true, "/"), &fixture());
    let double_colon = get_file_names(&policy(true, true, true, true, true, "::"), &fixture());

    assert_eq!(slash.len(), double_colon.len());
    assert_eq!(double_colon[3], "zzz::testfile3.test");
    for (index, name) in slash.iter().enumerate() {
        assert_eq!(name.replace('/', "::"), double_colon[index]);
    }
}

#[test]
fn test_idempotent() {
    let arguments = policy(true, true, true, true, true, "/");
    let first = get_file_names(&arguments, &fixture());
    let second = get_file_names(&arguments, &fixture());
    assert_eq!(first, second);
}

#[test]
fn test_full_inclusion_counts_every_object() {
    // Six filesystem objects live under the fixture root; the full-inclusion
    // listing has exactly one entry for each, and a directory's descendants
    // follow it contiguously.
    let names = get_file_names(&policy(true, true, true, true, true, "/"), &fixture());
    assert_eq!(names.len(), 6);
    assert_eq!(names[2], "zzz");
    assert_eq!(names[3], "zzz/testfile3.test");
}

#[test]
fn test_deep_nesting() {
    let entries = vec![dir(
        "a",
        vec![dir("b", vec![file("c.txt")]), file("d.txt")],
    )];
    let names = get_file_names(&policy(true, true, true, true, true, "/"), &entries);
    assert_eq!(names, vec!["a", "a/b", "a/b/c.txt", "a/d.txt"]);
}

#[test]
fn test_hidden_directory_skipped_entirely() {
    // A hidden directory is skipped as a whole when dotfiles are excluded:
    // neither its own entry nor any descendant appears.
    let entries = vec![dir(".hidden", vec![file("inner.txt")]), file("seen.txt")];
    let without = get_file_names(&policy(true, false, true, true, true, "/"), &entries);
    assert_eq!(without, vec!["seen.txt"]);

    let with = get_file_names(&policy(true, true, true, true, true, "/"), &entries);
    assert_eq!(with, vec![".hidden", ".hidden/inner.txt", "seen.txt"]);
}

#[test]
fn test_hidden_symlink_included_by_symlink_flag_alone() {
    // A symlink is admitted by include_symlinks even when hidden entries are
    // otherwise excluded.
    let entries = vec![symlink(".link")];
    let names = get_file_names(&policy(true, false, true, true, true, "/"), &entries);
    assert_eq!(names, vec![".link"]);
}

#[test]
fn test_hidden_file_kept_without_include_files() {
    // A hidden file is its own category: include_dotfiles admits it even
    // with include_files off.
    let entries = vec![file(".kept"), file("dropped.txt")];
    let names = get_file_names(&policy(true, true, true, true, false, "/"), &entries);
    assert_eq!(names, vec![".kept"]);
}

#[test]
fn test_empty_directory() {
    let entries: Vec<FsEntry> = vec![];
    let names = get_file_names(&policy(true, true, true, true, true, "/"), &entries);
    assert!(names.is_empty());
}

#[test]
fn test_enumerate_directory_root() {
    let root = FsNode::Directory(fixture());
    let result = enumerate(&policy(true, true, true, true, true, "/"), "./test", &root);
    let names = result.expect("a directory root must enumerate");
    assert_eq!(names.len(), 6);
    assert_eq!(names[0], "testfile1.test");
}

#[test]
fn test_enumerate_not_a_directory() {
    // Scanning a non-directory path fails and produces no output.
    let result = enumerate(&policy(true, true, true, true, true, "/"), "./test", &FsNode::File);
    match result {
        Err(ScanError::NotADirectory(path)) => assert_eq!(path, "./test"),
        _ => panic!("expected NotADirectory"),
    }

    let link = enumerate(&policy(true, true, true, true, true, "/"), "x", &FsNode::Symlink);
    assert!(matches!(link, Err(ScanError::NotADirectory(_))));
}

#[test]
fn test_error_variants_carry_context() {
    // The snapshot-time errors carry the offending path and the cause.
    let read = ScanError::DirectoryReadError(String::from("sub"), String::from("denied"));
    assert!(matches!(read, ScanError::DirectoryReadError(p, c) if p == "sub" && c == "denied"));
    let name = ScanError::InvalidEntryName(String::from("sub"), String::from("not unicode"));
    assert!(matches!(name, ScanError::InvalidEntryName(p, c) if p == "sub" && c == "not unicode"));
}

#[test]
fn test_is_hidden() {
    assert!(is_hidden(".a"));
    assert!(is_hidden("."));
    assert!(!is_hidden("a.b"));
    assert!(!is_hidden(""));
}

#[test]
fn test_should_descend() {
    let p = policy(true, false, true, true, true, "/");
    assert!(should_descend(&p, "zzz"));
    assert!(!should_descend(&p, ".hidden"));
    assert!(should_descend(&policy(true, true, true, true, true, "/"), ".hidden"));
    assert!(!should_descend(&policy(false, true, true, true, true, "/"), "zzz"));
}
