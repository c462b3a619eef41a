use chezmage::config::{ConfigError, Probed};
use chezmage::exec::{ExecError, ENV_AGE_KEY, ENV_GPG_KEY_FILE};
use chezmage::path::PathPart;
use chezmage::scan::ScanEntry;
use chezmage::secure::SecureString;
use chezmage::wrapper::{
    collect_identity_paths, combine_identities, env_candidates, excludes_encrypted,
    extract_subcommand, find_chezmoi, is_passthrough, keep_existing, load_identity, load_step,
    needs_decryption, next_load, plaintext_identity, run, search_step, CombinedKeys,
    IdentityPaths, LoadError, LoadStep, RunAction, RunError, RunStep, SearchStep, Searched,
};

fn args(vals: &[&str]) -> Vec<String> {
    vals.iter().map(|s| String::from(*s)).collect()
}

#[test]
fn test_extract_subcommand_simple() {
    // Arrange
    let a = args(&["doctor"]);

    // Act & Assert
    assert_eq!(extract_subcommand(&a), Some("doctor"));
}

#[test]
fn test_extract_subcommand_with_flags_before() {
    // Arrange
    let a = args(&["--color", "false", "managed"]);

    // Act & Assert
    assert_eq!(extract_subcommand(&a), Some("false"));
}

#[test]
fn test_extract_subcommand_empty_args() {
    // Arrange
    let a: Vec<String> = vec![];

    // Act & Assert
    assert_eq!(extract_subcommand(&a), None);
}

#[test]
fn test_extract_subcommand_only_flags() {
    // Arrange
    let a = args(&["--verbose", "--debug"]);

    // Act & Assert
    assert_eq!(extract_subcommand(&a), None);
}

#[test]
fn test_extract_subcommand_with_flags_after() {
    // Arrange
    let a = args(&["apply", "--verbose"]);

    // Act & Assert
    assert_eq!(extract_subcommand(&a), Some("apply"));
}

#[test]
fn test_needs_decryption_apply() {
    // Arrange & Act & Assert
    assert!(needs_decryption(&args(&["apply"])));
}

#[test]
fn test_needs_decryption_diff() {
    // Arrange & Act & Assert
    assert!(needs_decryption(&args(&["diff"])));
}

#[test]
fn test_needs_decryption_cd() {
    // Arrange & Act & Assert
    assert!(!needs_decryption(&args(&["cd"])));
}

#[test]
fn test_needs_decryption_doctor() {
    // Arrange & Act & Assert
    assert!(!needs_decryption(&args(&["doctor"])));
}

#[test]
fn test_needs_decryption_managed() {
    // Arrange & Act & Assert
    assert!(!needs_decryption(&args(&["managed"])));
}

#[test]
fn test_needs_decryption_empty_args() {
    // Arrange & Act & Assert
    assert!(needs_decryption(&args(&[])));
}

#[test]
fn test_needs_decryption_unknown_command() {
    // Arrange & Act & Assert
    assert!(needs_decryption(&args(&["unknown-cmd"])));
}

#[test]
fn test_needs_decryption_with_flags_before_passthrough() {
    // Arrange — first non-flag arg is "false", which is unknown
    let a = args(&["--color", "false", "doctor"]);

    // Act & Assert
    assert!(needs_decryption(&a));
}

#[test]
fn test_needs_decryption_all_passthrough_subcommands() {
    // Arrange
    let all = [
        "add",
        "age-keygen",
        "cat-config",
        "cd",
        "chattr",
        "completion",
        "data",
        "doctor",
        "dump-config",
        "edit-config",
        "edit-config-template",
        "encrypt",
        "execute-template",
        "forget",
        "generate",
        "git",
        "help",
        "ignored",
        "license",
        "managed",
        "purge",
        "re-add",
        "secret",
        "source-path",
        "state",
        "target-path",
        "unmanaged",
        "upgrade",
    ];

    // Act & Assert
    for cmd in all {
        assert!(
            !needs_decryption(&args(&[cmd])),
            "{cmd} should be passthrough"
        );
    }
}

#[test]
fn test_needs_decryption_add() {
    // Arrange & Act & Assert
    assert!(!needs_decryption(&args(&["add"])));
}

#[test]
fn test_needs_decryption_add_encrypt() {
    // Arrange & Act & Assert
    assert!(!needs_decryption(&args(&["add", "--encrypt"])));
}

#[test]
fn test_needs_decryption_re_add() {
    // Arrange & Act & Assert
    assert!(!needs_decryption(&args(&["re-add"])));
}

#[test]
fn test_needs_decryption_encrypt() {
    // Arrange & Act & Assert
    assert!(!needs_decryption(&args(&["encrypt"])));
}

#[test]
fn test_excludes_encrypted_long_space() {
    // Arrange & Act & Assert
    assert!(excludes_encrypted(&args(&["--exclude", "encrypted"])));
}

#[test]
fn test_excludes_encrypted_long_equals() {
    // Arrange & Act & Assert
    assert!(excludes_encrypted(&args(&["--exclude=encrypted"])));
}

#[test]
fn test_excludes_encrypted_short_space() {
    // Arrange & Act & Assert
    assert!(excludes_encrypted(&args(&["-x", "encrypted"])));
}

#[test]
fn test_excludes_encrypted_short_equals() {
    // Arrange & Act & Assert
    assert!(excludes_encrypted(&args(&["-x=encrypted"])));
}

#[test]
fn test_excludes_encrypted_comma_separated() {
    // Arrange & Act & Assert
    assert!(excludes_encrypted(&args(&["--exclude", "dirs,encrypted"])));
}

#[test]
fn test_excludes_encrypted_comma_without_encrypted() {
    // Arrange & Act & Assert
    assert!(!excludes_encrypted(&args(&["--exclude", "dirs,files"])));
}

#[test]
fn test_excludes_encrypted_all_keyword() {
    // Arrange & Act & Assert
    assert!(excludes_encrypted(&args(&["--exclude", "all"])));
}

#[test]
fn test_excludes_encrypted_none_keyword() {
    // Arrange & Act & Assert
    assert!(!excludes_encrypted(&args(&["--exclude", "none"])));
}

#[test]
fn test_excludes_encrypted_noencrypted_in_exclude() {
    // --exclude noencrypted means "don't exclude encrypted" -> false
    assert!(!excludes_encrypted(&args(&["--exclude", "noencrypted"])));
}

#[test]
fn test_excludes_encrypted_include_re_enables() {
    // --exclude encrypted then --include encrypted -> not excluded
    assert!(!excludes_encrypted(&args(&[
        "--exclude",
        "encrypted",
        "--include",
        "encrypted",
    ])));
}

#[test]
fn test_excludes_encrypted_include_all_re_enables() {
    // --exclude encrypted then --include all -> not excluded
    assert!(!excludes_encrypted(&args(&[
        "--exclude",
        "encrypted",
        "--include",
        "all",
    ])));
}

#[test]
fn test_excludes_encrypted_include_none_excludes() {
    // --include none -> same as exclude all
    assert!(excludes_encrypted(&args(&["-i", "none"])));
}

#[test]
fn test_excludes_encrypted_include_noencrypted() {
    // --include noencrypted means "include the negation" -> excluded
    assert!(excludes_encrypted(&args(&["-i", "noencrypted"])));
}

#[test]
fn test_excludes_encrypted_empty_args() {
    // Arrange & Act & Assert
    assert!(!excludes_encrypted(&args(&[])));
}

#[test]
fn test_excludes_encrypted_unrelated_flags() {
    // Arrange & Act & Assert
    assert!(!excludes_encrypted(&args(&[
        "--verbose",
        "--color",
        "false",
        "apply",
    ])));
}

#[test]
fn test_excludes_encrypted_exclude_dirs_only() {
    // Arrange & Act & Assert
    assert!(!excludes_encrypted(&args(&["--exclude", "dirs"])));
}

#[test]
fn test_excludes_encrypted_missing_value() {
    // --exclude with no value should not panic and return false
    assert!(!excludes_encrypted(&args(&["--exclude"])));
}

#[test]
fn test_excludes_encrypted_missing_value_at_end_with_flag_next() {
    // --exclude followed by another flag — should skip
    assert!(!excludes_encrypted(&args(&["--exclude", "--verbose"])));
}

#[test]
fn test_excludes_encrypted_last_flag_wins() {
    // --include encrypted then --exclude encrypted -> excluded
    assert!(excludes_encrypted(&args(&[
        "--include",
        "encrypted",
        "--exclude",
        "encrypted",
    ])));
}

#[test]
fn test_needs_decryption_exclude_encrypted() {
    // Arrange & Act & Assert
    assert!(!needs_decryption(&args(&[
        "status",
        "--exclude",
        "encrypted",
    ])));
}

#[test]
fn test_needs_decryption_exclude_dirs_still_needs() {
    // Arrange & Act & Assert
    assert!(needs_decryption(&args(&["status", "--exclude", "dirs"])));
}

#[test]
fn test_needs_decryption_exclude_encrypted_short() {
    // Arrange & Act & Assert
    assert!(!needs_decryption(&args(&["apply", "-x=encrypted",])));
}

#[test]
fn test_needs_decryption_passthrough_with_exclude() {
    // passthrough subcommand still skips regardless of exclude flag
    assert!(!needs_decryption(&args(&[
        "doctor",
        "--exclude",
        "encrypted",
    ])));
}

#[test]
fn test_needs_decryption_exclude_then_include_needs() {
    // --exclude encrypted then --include encrypted -> needs decryption
    assert!(needs_decryption(&args(&[
        "apply",
        "--exclude",
        "encrypted",
        "--include",
        "encrypted",
    ])));
}

#[test]
fn test_needs_decryption_exclude_all() {
    // --exclude all -> excludes encrypted -> no decryption needed
    assert!(!needs_decryption(&args(&["diff", "-x", "all"])));
}

#[test]
fn test_needs_decryption_commands_requiring_decryption() {
    // Arrange
    let all = [
        "age",
        "apply",
        "archive",
        "cat",
        "decrypt",
        "destroy",
        "diff",
        "docker",
        "dump",
        "edit",
        "edit-encrypted",
        "import",
        "init",
        "merge",
        "merge-all",
        "ssh",
        "status",
        "update",
        "verify",
    ];

    // Act & Assert
    for cmd in all {
        assert!(
            needs_decryption(&args(&[cmd])),
            "{cmd} should require decryption"
        );
    }
}

#[test]
fn test_load_identity_plaintext() {
    // Arrange & Act
    assert!(matches!(load_identity("/tmp/x/key.txt", true), Ok(LoadStep::ReadText)));
    let content =
        plaintext_identity("/tmp/x/key.txt", Ok(String::from("AGE-SECRET-KEY-1TESTKEY\n"))).unwrap();

    // Assert
    assert_eq!(content, "AGE-SECRET-KEY-1TESTKEY");
}

#[test]
fn test_load_identity_missing_file() {
    // Arrange & Act
    let result = load_identity("/nonexistent/path/key.txt", false);

    // Assert
    assert!(result.is_err());
}

#[test]
fn test_load_identity_missing_file_error_message() {
    // Arrange & Act
    let result = load_identity("/nonexistent/path/key.txt", false);

    // Assert
    let err = result.unwrap_err().message();
    assert!(
        err.contains("identity file not found"),
        "error message should contain 'identity file not found': {err}"
    );
    assert_eq!(err, "identity file not found: /nonexistent/path/key.txt");
}

#[test]
fn test_load_identity_plaintext_trims_trailing_whitespace() {
    // Arrange & Act
    assert!(matches!(load_identity("/tmp/x/key.txt", true), Ok(LoadStep::ReadText)));
    let content = plaintext_identity(
        "/tmp/x/key.txt",
        Ok(String::from("AGE-SECRET-KEY-1TESTKEY\n  \n")),
    )
    .unwrap();

    // Assert
    assert_eq!(content, "AGE-SECRET-KEY-1TESTKEY");
}

fn probe(paths: Vec<String>, files: &[&str]) -> Vec<Probed> {
    paths
        .into_iter()
        .map(|path| Probed {
            is_file: files.contains(&path.as_str()),
            path,
        })
        .collect()
}

fn found(path: &str) -> ScanEntry {
    let parts = vec![PathPart::Name(path.as_bytes().to_vec())];
    ScanEntry::new(path, parts, true)
}

fn named(paths: IdentityPaths) -> Vec<String> {
    match paths {
        IdentityPaths::Named(paths) => paths,
        IdentityPaths::Scanned(_) => panic!("scanned files were taken"),
    }
}

fn scanned(paths: IdentityPaths) -> Vec<usize> {
    match paths {
        IdentityPaths::Named(_) => panic!("named files were taken"),
        IdentityPaths::Scanned(order) => order,
    }
}

#[test]
fn test_collect_identity_paths_from_env() {
    // Arrange
    let from_env = probe(env_candidates("/tmp/x/key.txt", None), &["/tmp/x/key.txt"]);

    // Act
    let paths = named(collect_identity_paths(None, &from_env, &vec![]));

    // Assert
    assert!(!paths.is_empty());
    assert_eq!(paths.first().unwrap(), "/tmp/x/key.txt");
}

#[test]
fn test_collect_identity_paths_from_config_file() {
    // Arrange
    let from_config = Some(Ok(args(&["/tmp/x/key.txt"])));

    // Act
    let paths = named(collect_identity_paths(from_config, &vec![], &vec![]));

    // Assert
    assert_eq!(paths, args(&["/tmp/x/key.txt"]));
}

#[test]
fn test_collect_identity_paths_comma_separated_env() {
    // Arrange
    let from_env = probe(
        env_candidates("/tmp/a.txt,/tmp/b.txt", None),
        &["/tmp/a.txt", "/tmp/b.txt"],
    );

    // Act
    let paths = named(collect_identity_paths(None, &from_env, &vec![]));

    // Assert
    assert_eq!(paths.len(), 2);
    assert_eq!(paths[0], "/tmp/a.txt");
    assert_eq!(paths[1], "/tmp/b.txt");
}

#[test]
fn test_collect_identity_paths_semicolon_separated_env() {
    // Arrange
    let from_env = probe(
        env_candidates("/tmp/a.txt;/tmp/b.txt", None),
        &["/tmp/a.txt", "/tmp/b.txt"],
    );

    // Act
    let paths = named(collect_identity_paths(None, &from_env, &vec![]));

    // Assert
    assert_eq!(paths.len(), 2);
}

#[test]
fn test_collect_identity_paths_auto_scan_gpg_files() {
    // Arrange
    let entries = vec![found("key.gpg"), found("key.asc")];

    // Act
    let order = scanned(collect_identity_paths(None, &vec![], &entries));

    // Assert
    assert_eq!(order.len(), 2);
    assert_eq!(order, vec![1, 0]);
}

#[test]
fn the_config_comes_before_the_environment() {
    let from_env = probe(args(&["/tmp/env.txt"]), &["/tmp/env.txt"]);
    let from_config = Some(Ok(args(&["/dev/null", "/tmp/config.txt"])));
    let paths = named(collect_identity_paths(from_config, &from_env, &vec![]));
    assert_eq!(paths, args(&["/tmp/config.txt"]));
}

#[test]
fn dummies_and_bad_configs_fall_through() {
    let from_env = probe(args(&["/tmp/env.txt"]), &["/tmp/env.txt"]);
    let only_dummies = Some(Ok(args(&["/dev/null", "NUL"])));
    let paths = named(collect_identity_paths(only_dummies, &from_env, &vec![]));
    assert_eq!(paths, args(&["/tmp/env.txt"]));
    let unusable = Some(Err(ConfigError::Parse {
        path: String::from("c.toml"),
        cause: String::from("expected newline"),
    }));
    let paths = named(collect_identity_paths(unusable, &from_env, &vec![]));
    assert_eq!(paths, args(&["/tmp/env.txt"]));
}

#[test]
fn environment_paths_that_are_no_files_are_left_out() {
    let candidates = env_candidates(" ~/a , ;~;b", Some("/home/user"));
    assert_eq!(candidates, args(&["/home/user/a", "", "/home/user", "b"]));
    let kept = keep_existing(&probe(candidates, &["b", "/home/user/a"]));
    assert_eq!(kept, args(&["/home/user/a", "b"]));
    let none = probe(args(&["x"]), &[]);
    assert!(scanned(collect_identity_paths(None, &none, &vec![])).is_empty());
}

#[test]
fn encrypted_files_are_decrypted_even_if_not_probed() {
    assert!(matches!(load_identity("k.gpg", false), Ok(LoadStep::Decrypt)));
    assert!(matches!(load_identity("k.ASC", true), Ok(LoadStep::Decrypt)));
    assert!(matches!(load_step(true, "k", false), Ok(LoadStep::Decrypt)));
    assert!(matches!(load_step(false, "k", true), Ok(LoadStep::ReadText)));
    assert!(matches!(load_step(false, "k", false), Err(LoadError::NotFound(p)) if p == "k"));
}

#[test]
fn an_unreadable_identity_is_an_error() {
    let e = plaintext_identity("k.txt", Err(String::from("permission denied"))).unwrap_err();
    assert!(matches!(&e, LoadError::CannotRead { path, .. } if path == "k.txt"));
    assert_eq!(e.message(), "cannot read k.txt");
    assert_eq!(e.report(), "cannot read k.txt: permission denied");
    let e = load_identity("k.txt", false).unwrap_err();
    assert_eq!(e.report(), "identity file not found: k.txt");
}

#[test]
fn a_decrypted_key_skips_decryption() {
    let apply = args(&["apply"]);
    assert_eq!(run(Some("AGE-SECRET-KEY-1FAKEKEY"), &apply), RunStep::ExecChezmoi);
    assert_eq!(run(Some(""), &apply), RunStep::CollectIdentities);
    assert_eq!(run(None, &apply), RunStep::CollectIdentities);
    assert_eq!(run(None, &args(&["doctor"])), RunStep::ExecChezmoi);
    assert_eq!(run(None, &args(&["diff", "-x=all"])), RunStep::ExecChezmoi);
}

#[test]
fn identities_are_combined_line_by_line() {
    let parts = vec![
        SecureString::new(String::from("# a\nAGE-SECRET-KEY-1A")),
        SecureString::new(String::from("AGE-SECRET-KEY-1B\nAGE-SECRET-KEY-1C")),
        SecureString::new(String::from("nothing")),
    ];
    let keys = match combine_identities(&parts) {
        Ok(keys) => keys,
        Err(e) => panic!("{}", e.message()),
    };
    assert_eq!(
        keys.combined,
        "# a\nAGE-SECRET-KEY-1A\nAGE-SECRET-KEY-1B\nAGE-SECRET-KEY-1C\nnothing"
    );
    assert_eq!(keys.identity_count, 3);
    assert_eq!(keys.secret_key_count, 3);
    assert_eq!(SecureString::new(keys.combined.clone()).count_secret_keys(), 3);
    assert_eq!(run(Some(&keys.combined), &args(&["apply"])), RunStep::ExecChezmoi);
}

#[test]
fn without_identities_or_keys_there_is_an_error() {
    let e = combine_identities(&vec![]).err().unwrap();
    assert_eq!(e, RunError::NoIdentities);
    assert_eq!(
        e.message(),
        "no age identity files found.\n\
         Hint: set [age] identity or identities in chezmoi.toml,\n\
         or set CHEZMOI_AGE_GPG_KEY_FILE environment variable."
    );
    let parts = vec![SecureString::new(String::from("not a valid key"))];
    let e = combine_identities(&parts).err().unwrap();
    assert_eq!(e, RunError::NoSecretKey);
    assert_eq!(e.message(), "no valid AGE-SECRET-KEY found in any identity file");
}

#[test]
fn chezmoi_is_looked_up_on_path() {
    assert_eq!(find_chezmoi(Some(&vec![false, true])), Ok(1));
    assert_eq!(find_chezmoi(None), Err(ExecError::ChezmoiNotFound));
    let e = find_chezmoi(Some(&vec![false])).unwrap_err();
    assert_eq!(e.message(), "chezmoi not found in PATH");
}

#[test]
fn entry_types_are_trimmed_and_the_last_decides() {
    assert!(excludes_encrypted(&args(&["-x", " dirs , encrypted "])));
    assert!(!excludes_encrypted(&args(&["-x=encrypted,none"])));
    assert!(excludes_encrypted(&args(&["-x=none,encrypted"])));
    assert!(!excludes_encrypted(&args(&["-x=Encrypted"])));
    assert!(!excludes_encrypted(&args(&["-x="])));
    assert!(!excludes_encrypted(&args(&["--exclude", ""])));
}

#[test]
fn a_later_flag_overrides_an_earlier_one() {
    let a = args(&["-x", "all", "-i", "-x=none"]);
    assert!(!excludes_encrypted(&a));
    assert!(excludes_encrypted(&args(&["-x=none", "-x", "encrypted"])));
    assert!(excludes_encrypted(&args(&["--exclude=encrypted", "--include=dirs"])));
}

#[test]
fn a_value_is_not_read_as_a_flag() {
    assert!(!excludes_encrypted(&args(&["-x", "dirs", "encrypted"])));
    assert_eq!(extract_subcommand(&args(&["-v", ""])), Some(""));
    assert!(is_passthrough("cd"));
    assert!(!is_passthrough("CD"));
}

#[test]
fn the_variables_are_named() {
    assert_eq!(ENV_AGE_KEY, "CHEZMOI_AGE_KEY");
    assert_eq!(ENV_GPG_KEY_FILE, "CHEZMOI_AGE_GPG_KEY_FILE");
}

#[test]
fn the_search_ends_with_the_first_source_that_gives_a_path() {
    let no_config = search_step(Searched::Config(None));
    assert!(matches!(no_config, SearchStep::ProbeEnvironment));
    let dummies = Some(Ok(args(&["NUL"])));
    let step = search_step(Searched::Config(dummies));
    assert!(matches!(step, SearchStep::ProbeEnvironment));
    let step = search_step(Searched::Config(Some(Ok(args(&["k.txt", "nul"])))));
    assert!(matches!(step, SearchStep::Found(IdentityPaths::Named(p)) if p == args(&["k.txt"])));
    let none = probe(args(&["x"]), &[]);
    let step = search_step(Searched::Environment(&none));
    assert!(matches!(step, SearchStep::ScanDirectories));
    let one = probe(args(&["x", "y"]), &["y"]);
    let step = search_step(Searched::Environment(&one));
    assert!(matches!(step, SearchStep::Found(IdentityPaths::Named(p)) if p == args(&["y"])));
    let step = search_step(Searched::Directories(&vec![]));
    assert!(matches!(step, SearchStep::Found(IdentityPaths::Scanned(o)) if o.is_empty()));
    let entries = vec![found("k.txt"), found("b.gpg"), found("a.asc")];
    let step = search_step(Searched::Directories(&entries));
    assert!(matches!(step, SearchStep::Found(IdentityPaths::Scanned(o)) if o == vec![2, 1]));
}

/// Load the identities one after the other, as long as the library says so.
/// Returns what the run ends with, and which files were loaded.
fn drive(outcomes: &[Result<&str, &str>]) -> (Result<CombinedKeys, String>, Vec<usize>) {
    let mut loaded: Vec<SecureString> = vec![];
    let mut tried = vec![];
    let mut failure = None;
    loop {
        match next_load(outcomes.len(), &loaded, failure.take()) {
            RunAction::Load(i) => {
                tried.push(i);
                match outcomes[i] {
                    Ok(content) => loaded.push(SecureString::new(String::from(content))),
                    Err(e) => failure = Some(String::from(e)),
                }
            }
            RunAction::SetKey(keys) => return (Ok(keys), tried),
            RunAction::Fail(e) => return (Err(e), tried),
        }
    }
}

#[test]
fn the_first_failure_ends_the_run() {
    let (end, tried) = drive(&[Ok("AGE-SECRET-KEY-1A"), Err("first"), Err("second")]);
    assert_eq!(end.err().unwrap(), "first");
    assert_eq!(tried, vec![0, 1]);
    let (end, tried) = drive(&[Err("x"), Ok("AGE-SECRET-KEY-1A")]);
    assert_eq!(end.err().unwrap(), "x");
    assert_eq!(tried, vec![0]);
}

#[test]
fn all_identities_are_loaded_in_order_and_set() {
    let (end, tried) = drive(&[Ok("AGE-SECRET-KEY-1A"), Ok("# none"), Ok("AGE-SECRET-KEY-1B")]);
    let keys = end.ok().unwrap();
    assert_eq!(keys.combined, "AGE-SECRET-KEY-1A\n# none\nAGE-SECRET-KEY-1B");
    assert_eq!(keys.identity_count, 3);
    assert_eq!(keys.secret_key_count, 2);
    assert_eq!(tried, vec![0, 1, 2]);
}

#[test]
fn a_run_without_identities_or_keys_fails() {
    let (end, tried) = drive(&[]);
    assert_eq!(end.err().unwrap(), RunError::NoIdentities.message());
    assert!(tried.is_empty());
    let (end, tried) = drive(&[Ok("not a valid key")]);
    assert_eq!(end.err().unwrap(), RunError::NoSecretKey.message());
    assert_eq!(tried, vec![0]);
}
