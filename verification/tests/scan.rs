use chezmage::path::{path_comes_before, same_components, PathPart};
use chezmage::scan::{scan_identities, ScanEntry};

fn name(name: &str) -> PathPart {
    PathPart::Name(name.as_bytes().to_vec())
}

fn parts(path: &str) -> Vec<PathPart> {
    let mut parts = vec![];
    if path.starts_with('/') {
        parts.push(PathPart::Root);
    }
    for n in path.split('/').filter(|n| !n.is_empty()) {
        parts.push(name(n));
    }
    parts
}

fn entry(path: &str, is_file: bool) -> ScanEntry {
    ScanEntry::new(path, parts(path), is_file)
}

/// A file below the root of a prefix.
fn under(prefix: PathPart, file: &str) -> ScanEntry {
    ScanEntry::new(file, vec![prefix, PathPart::Root, name(file)], true)
}

fn bytes(s: &str) -> Vec<u8> {
    s.as_bytes().to_vec()
}

#[test]
fn encrypted_files_are_listed_in_path_order() {
    let entries = vec![
        entry("/c/key.gpg", true),
        entry("/c/a.txt", true),
        entry("/c/Key.ASC", true),
        entry("/b/z.gpg", true),
        entry("/c/dir.gpg", false),
        entry("/c/key.asc", true),
    ];
    assert_eq!(scan_identities(&entries), vec![3, 2, 5, 0]);
}

#[test]
fn paths_are_ordered_by_component() {
    // "/a" sorts before "/a-b", although "-" sorts before "/"
    let entries = vec![entry("/a-b/k.gpg", true), entry("/a/k.gpg", true)];
    assert_eq!(scan_identities(&entries), vec![1, 0]);
    // the root comes before any name
    let entries = vec![entry("!x/k.gpg", true), entry("/a/k.gpg", true)];
    assert_eq!(scan_identities(&entries), vec![1, 0]);
    // a path comes before those below it
    let entries = vec![entry("/a.gpg/k.gpg", true), entry("/a.gpg", true)];
    assert_eq!(scan_identities(&entries), vec![1, 0]);
}

#[test]
fn the_same_path_twice_stays_in_order() {
    let entries = vec![entry("/b.gpg", true), entry("/a.gpg", true), entry("/b.gpg", true)];
    assert_eq!(scan_identities(&entries), vec![1, 0, 2]);
    assert!(scan_identities(&vec![]).is_empty());
}

#[test]
fn prefixes_are_ordered_by_kind() {
    let entries = vec![
        entry("k.gpg", true),
        entry("/k.gpg", true),
        under(PathPart::Disk(b'C'), "a.gpg"),
        under(PathPart::Unc(bytes("server"), bytes("share")), "z.gpg"),
        under(PathPart::DeviceNs(bytes("COM1")), "z.gpg"),
        under(PathPart::VerbatimDisk(b'A'), "z.gpg"),
        under(PathPart::VerbatimUnc(bytes("server"), bytes("share")), "z.gpg"),
        under(PathPart::Verbatim(bytes("volume")), "z.gpg"),
    ];
    assert_eq!(scan_identities(&entries), vec![7, 6, 5, 4, 3, 2, 1, 0]);
}

#[test]
fn shares_are_ordered_by_server_then_share() {
    let entries = vec![
        under(PathPart::Unc(bytes("b"), bytes("a")), "k.gpg"),
        under(PathPart::Unc(bytes("a"), bytes("c")), "k.gpg"),
        under(PathPart::Unc(bytes("a"), bytes("b")), "k.gpg"),
        under(PathPart::Unc(bytes("ab"), bytes("a")), "k.gpg"),
    ];
    assert_eq!(scan_identities(&entries), vec![2, 1, 3, 0]);
}

#[test]
fn drives_are_compared_in_upper_case() {
    let entries = vec![
        under(PathPart::Disk(b'd'), "a.gpg"),
        under(PathPart::Disk(b'E'), "a.gpg"),
        under(PathPart::Disk(b'c'), "b.gpg"),
        under(PathPart::Disk(b'C'), "a.gpg"),
    ];
    assert_eq!(scan_identities(&entries), vec![3, 2, 0, 1]);
    let lower = vec![PathPart::Disk(b'c'), PathPart::Root];
    let upper = vec![PathPart::Disk(b'C'), PathPart::Root];
    assert!(same_components(&lower, &upper));
    assert!(!path_comes_before(&lower, &upper));
    assert!(!path_comes_before(&upper, &lower));
    let verbatim = vec![PathPart::VerbatimDisk(b'C'), PathPart::Root];
    assert!(!same_components(&upper, &verbatim));
}

#[test]
fn one_of_two_paths_comes_first() {
    let a = vec![PathPart::Root, PathPart::Parent, name("a")];
    let b = vec![PathPart::Root, PathPart::Parent, name("b")];
    assert!(path_comes_before(&a, &b));
    assert!(!path_comes_before(&b, &a));
    assert!(!same_components(&a, &b));
    assert!(path_comes_before(&vec![PathPart::Current], &vec![PathPart::Parent]));
    assert!(path_comes_before(&vec![], &vec![PathPart::Current]));
    assert!(same_components(&parts("/a/b"), &parts("/a//b/")));
    assert!(!same_components(&parts("/a/b"), &parts("a/b")));
}
