use chezmage::exec::{
    exe_name, expand_tilde, find_age_in_dirs, find_in_path, find_real_age, home_dir, strip_tilde,
    Candidate, ExecError,
};

use std::path::{Component, Path};

use chezmage::path::PathPart;

const HOME: Option<&str> = Some("/home/user");

fn s(val: &str) -> String {
    String::from(val)
}

/// The components of a path without prefix.
fn parts(path: &str) -> Vec<PathPart> {
    Path::new(path)
        .components()
        .map(|component| match component {
            Component::RootDir => PathPart::Root,
            Component::CurDir => PathPart::Current,
            Component::ParentDir => PathPart::Parent,
            other => PathPart::Name(other.as_os_str().as_encoded_bytes().to_vec()),
        })
        .collect()
}

fn candidate(is_file: bool, resolved: Option<&str>) -> Candidate {
    Candidate {
        is_file,
        resolved: resolved.map(parts),
    }
}

/// Why a variable has no value.
fn unset() -> Result<String, String> {
    Err(s("environment variable not found"))
}

#[test]
fn test_expand_tilde_with_path() {
    // Arrange & Act
    let result = expand_tilde("~/Documents/file.txt", HOME);

    // Assert
    assert_eq!(result, "/home/user/Documents/file.txt");
}

#[test]
fn test_expand_tilde_standalone() {
    // Arrange & Act
    let result = expand_tilde("~", HOME);

    // Assert
    assert_eq!(result, "/home/user");
}

#[test]
fn test_expand_tilde_no_tilde() {
    // Arrange & Act
    let result = expand_tilde("/absolute/path", HOME);

    // Assert
    assert_eq!(result, "/absolute/path");
}

#[test]
fn test_expand_tilde_relative() {
    // Arrange & Act
    let result = expand_tilde("relative/path", HOME);

    // Assert
    assert_eq!(result, "relative/path");
}

#[test]
fn test_expand_tilde_with_backslash() {
    // Arrange & Act
    let result = expand_tilde("~\\Documents\\file.txt", HOME);

    // Assert
    assert_eq!(result, "/home/user/Documents\\file.txt");
}

#[test]
fn test_home_dir_returns_path() {
    // Arrange & Act
    let result = home_dir(Some(s("/home/user")), unset());

    // Assert
    assert!(result.is_ok());
}

#[test]
fn test_home_dir_falls_back_to_userprofile() {
    // Arrange & Act
    let result = home_dir(None, Ok(s("/fake/userprofile")));

    // Assert
    assert_eq!(result.unwrap(), "/fake/userprofile");
}

#[test]
fn test_find_in_path_existing_binary() {
    // Arrange & Act: `sh` is in the second and third directory
    let result = find_in_path(Some(&vec![false, true, true]));

    // Assert
    assert!(result.is_some());
    assert_eq!(result, Some(1));
}

#[test]
fn test_find_in_path_nonexistent() {
    // Arrange & Act: `nonexistent_binary_xyz_123` is in no directory
    let result = find_in_path(Some(&vec![false, false]));

    // Assert
    assert!(result.is_none());
}

#[test]
fn test_find_in_path_returns_none_when_path_unset() {
    // Arrange & Act
    let result = find_in_path(None);

    // Assert
    assert!(result.is_none());
}

#[test]
fn test_find_age_in_dirs_finds_binary() {
    // Arrange
    let dirs = vec![candidate(true, Some("/usr/bin/age"))];

    // Act
    let result = find_age_in_dirs(&dirs, &None);

    // Assert
    assert_eq!(result, Some(0));
}

#[test]
fn test_find_age_in_dirs_skips_self() {
    // Arrange
    let dirs = vec![candidate(true, Some("/usr/bin/age"))];
    let self_path = Some(parts("/usr/bin/age"));

    // Act
    let result = find_age_in_dirs(&dirs, &self_path);

    // Assert
    assert!(result.is_none());
}

#[test]
fn test_find_age_in_dirs_empty_dirs() {
    // Arrange
    let dirs: Vec<Candidate> = Vec::new();

    // Act
    let result = find_age_in_dirs(&dirs, &None);

    // Assert
    assert!(result.is_none());
}

#[test]
fn test_find_age_in_dirs_no_match() {
    // Arrange
    let dirs = vec![candidate(false, None)];

    // Act
    let result = find_age_in_dirs(&dirs, &None);

    // Assert
    assert!(result.is_none());
}

#[test]
fn test_find_age_in_dirs_picks_first() {
    // Arrange
    let dirs = vec![
        candidate(true, Some("/a/age")),
        candidate(true, Some("/b/age")),
    ];

    // Act
    let result = find_age_in_dirs(&dirs, &None);

    // Assert
    assert_eq!(result, Some(0));
}

#[test]
fn age_past_this_program_is_found() {
    let dirs = vec![
        candidate(false, None),
        candidate(true, Some("/opt/chezmage")),
        candidate(true, Some("/opt/chezmage2")),
    ];
    let self_path = Some(parts("/opt/chezmage"));
    assert_eq!(find_real_age(&dirs, &self_path), Ok(2));
}

#[test]
fn this_program_is_told_by_its_path_not_by_its_text() {
    let dirs = vec![candidate(true, Some("/a")), candidate(true, Some("/a/b"))];
    assert_eq!(find_age_in_dirs(&dirs, &Some(parts("/a/"))), Some(1));
    assert_eq!(find_age_in_dirs(&dirs, &Some(parts("/a/./b"))), Some(0));
    let dirs = vec![candidate(true, Some("//a"))];
    assert_eq!(find_age_in_dirs(&dirs, &Some(parts("/a"))), None);
}

#[test]
fn a_file_without_canonical_path_is_not_this_program() {
    let dirs = vec![candidate(true, None)];
    assert_eq!(find_real_age(&dirs, &Some(parts("/opt/chezmage"))), Ok(0));
    assert_eq!(find_real_age(&dirs, &None), Ok(0));
}

#[test]
fn errors_have_messages() {
    let e = find_real_age(&vec![], &None).unwrap_err();
    assert_eq!(e, ExecError::AgeNotFound);
    assert_eq!(e.message(), "age binary not found in PATH");
    assert_eq!(e.report(), "age binary not found in PATH");
    let e = home_dir(None, unset()).unwrap_err();
    assert!(matches!(&e, ExecError::HomeNotSet { .. }));
    assert_eq!(
        e.message(),
        "neither HOME nor USERPROFILE environment variable is set"
    );
    assert_eq!(
        e.report(),
        "neither HOME nor USERPROFILE environment variable is set: environment variable not found"
    );
}

#[test]
fn home_comes_before_userprofile() {
    assert_eq!(home_dir(Some(s("/h")), Ok(s("/u"))), Ok(s("/h")));
    assert_eq!(home_dir(Some(s("")), Ok(s("/u"))), Ok(s("")));
}

#[test]
fn tilde_edges() {
    assert_eq!(expand_tilde("~/", HOME), "/home/user/");
    assert_eq!(expand_tilde("~//etc/key", HOME), "/etc/key");
    assert_eq!(expand_tilde("~other/key", HOME), "~other/key");
    assert_eq!(expand_tilde("a/~/b", HOME), "a/~/b");
    assert_eq!(expand_tilde("~/key", None), "~/key");
    assert_eq!(expand_tilde("~", None), "~");
    assert_eq!(expand_tilde("", HOME), "");
    assert_eq!(strip_tilde("~/a/b"), Some("a/b"));
    assert_eq!(strip_tilde("~\\a"), Some("a"));
    assert_eq!(strip_tilde("~"), None);
}

#[test]
fn exe_names() {
    assert_eq!(exe_name("age", false), "age");
    assert_eq!(exe_name("age", true), "age.exe");
}
