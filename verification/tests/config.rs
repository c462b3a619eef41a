use chezmage::config::{
    config_candidates, config_identities, dirs, dirs_from_values, filter_dummy_identities, find,
    identities_of, is_supported, merge_neighbours, push_distinct, read_identities,
    supported_extension, AgeSection, ChezmoiConfig, ConfigError, ConfigFile, Probed,
    ENV_CHEZMOI_CONFIG,
};

const HOME: Option<&str> = Some("/home/user");

fn s(val: &str) -> String {
    String::from(val)
}

/// The identities of an `[age]` section, or why they are not what they should
/// be.
fn age_section(age: &toml::Table) -> Result<AgeSection, String> {
    let text = |v: &toml::Value| match v.as_str() {
        Some(text) => Ok(s(text)),
        None => Err(format!("invalid type: {}, expected a string", v.type_str())),
    };
    let identity = age.get("identity").map(text).transpose()?;
    let identities = match age.get("identities") {
        Some(v) => match v.as_array() {
            Some(ids) => Some(ids.iter().map(text).collect::<Result<_, _>>()?),
            None => return Err(format!("invalid type: {}, expected a sequence", v.type_str())),
        },
        None => None,
    };
    Ok(AgeSection {
        identity,
        identities,
    })
}

/// The config file with the given TOML content.
fn write_toml(content: &str) -> ConfigFile {
    let table = match content.parse::<toml::Table>() {
        Ok(table) => table,
        Err(e) => return ConfigFile::Malformed(e.to_string()),
    };
    let age = match table.get("age") {
        Some(v) => match v.as_table() {
            Some(age) => age_section(age),
            None => Err(format!("invalid type: {}, expected a table", v.type_str())),
        },
        None => Ok(AgeSection::default()),
    };
    match age {
        Ok(age) => ConfigFile::Parsed(ChezmoiConfig { age }),
        Err(e) => ConfigFile::Malformed(e),
    }
}

/// Why a variable has no value.
fn unset() -> Result<String, String> {
    Err(s("environment variable not found"))
}

/// A file that was not parsed.
fn malformed() -> ConfigFile {
    ConfigFile::Malformed(s("expected newline"))
}

/// A file that was not read.
fn unreadable() -> ConfigFile {
    ConfigFile::Unreadable(s("permission denied"))
}

fn probed(paths: &[(&str, bool)]) -> Vec<Probed> {
    paths
        .iter()
        .map(|(path, is_file)| Probed {
            path: s(path),
            is_file: *is_file,
        })
        .collect()
}

#[test]
fn test_read_config_single_identity() {
    // Arrange
    let f = write_toml(
        r#"
[age]
identity = "/home/user/.config/chezmoi/key.gpg"
"#,
    );

    // Act
    let paths = read_identities("config.toml", &f, HOME).unwrap();

    // Assert
    assert_eq!(paths.len(), 1);
    assert_eq!(
        paths.first().unwrap(),
        "/home/user/.config/chezmoi/key.gpg"
    );
}

#[test]
fn test_read_config_multiple_identities() {
    // Arrange
    let f = write_toml(
        r#"
[age]
identities = ["/path/a.gpg", "/path/b.asc"]
"#,
    );

    // Act
    let paths = read_identities("config.toml", &f, HOME).unwrap();

    // Assert
    assert_eq!(paths.len(), 2);
}

#[test]
fn test_read_config_both_identity_and_identities() {
    // Arrange
    let f = write_toml(
        r#"
[age]
identity = "/path/main.gpg"
identities = ["/path/sub.gpg"]
"#,
    );

    // Act
    let paths = read_identities("config.toml", &f, HOME).unwrap();

    // Assert
    assert_eq!(paths.len(), 2);
}

#[test]
fn test_read_config_empty_age_section() {
    // Arrange
    let f = write_toml(
        r"
[age]
",
    );

    // Act
    let paths = read_identities("config.toml", &f, HOME).unwrap();

    // Assert
    assert!(paths.is_empty());
}

#[test]
fn test_read_config_no_age_section() {
    // Arrange
    let f = write_toml(
        r#"
[data]
name = "test"
"#,
    );

    // Act
    let paths = read_identities("config.toml", &f, HOME).unwrap();

    // Assert
    assert!(paths.is_empty());
}

#[test]
fn test_read_config_invalid_toml() {
    // Arrange
    let f = write_toml("this is not valid toml {{{}}}");

    // Act
    let result = read_identities("config.toml", &f, HOME);

    // Assert
    let err = result.unwrap_err().message();
    assert!(
        err.contains("parse error"),
        "error should contain 'parse error': {err}"
    );
}

#[test]
fn test_read_config_non_toml_extension() {
    // Arrange
    let f = write_toml("age:\n  identity: key.gpg\n");

    // Act
    let paths = read_identities("config.yaml", &f, HOME).unwrap();

    // Assert
    assert!(paths.is_empty());
}

#[test]
fn test_read_config_tilde_expansion() {
    // Arrange
    let f = write_toml(
        r#"
[age]
identity = "~/key.gpg"
"#,
    );

    // Act
    let paths = read_identities("config.toml", &f, HOME).unwrap();

    // Assert
    assert_eq!(paths.len(), 1);
    let path_str = paths.first().unwrap();
    assert!(!path_str.starts_with('~'));
    assert_eq!(path_str, "/home/user/key.gpg");
}

#[test]
fn test_filter_dummy_identities_removes_dev_null() {
    // Arrange
    let paths = vec![s("/dev/null"), s("/path/key.gpg")];

    // Act
    let filtered = filter_dummy_identities(paths);

    // Assert
    assert_eq!(filtered.len(), 1);
    assert_eq!(filtered.first().unwrap(), "/path/key.gpg");
}

#[test]
fn test_filter_dummy_identities_removes_nul() {
    // Arrange
    let paths = vec![s("NUL"), s("nul"), s("/path/key.gpg")];

    // Act
    let filtered = filter_dummy_identities(paths);

    // Assert
    assert_eq!(filtered.len(), 1);
}

#[test]
fn test_filter_dummy_identities_keeps_all() {
    // Arrange
    let paths = vec![s("/path/a.gpg"), s("/path/b.asc")];

    // Act
    let filtered = filter_dummy_identities(paths);

    // Assert
    assert_eq!(filtered.len(), 2);
}

#[test]
fn test_find_from_env_var() {
    // Arrange: the override is a file
    let places = config_candidates(Some(s("/tmp/x/chezmoi.toml")), &vec![s("/xdg/chezmoi")]);
    assert_eq!(places, vec![s("/tmp/x/chezmoi.toml"), s("/xdg/chezmoi/chezmoi.toml")]);

    // Act
    let result = find(&probed(&[(&places[0], true), (&places[1], true)]));

    // Assert
    assert_eq!(result, Some(s("/tmp/x/chezmoi.toml")));
}

#[test]
fn test_find_from_env_var_nonexistent() {
    // Arrange
    let dirs = dirs(None, Some(s("/tmp/chezmage-test-nonexistent")), unset(), None);
    let places = config_candidates(Some(s("/nonexistent/chezmoi.toml")), &dirs);
    assert_eq!(places.len(), 2);

    // Act
    let result = find(&probed(&[(&places[0], false), (&places[1], false)]));

    // Assert: invalid path falls through, no config found
    assert!(result.is_none());
}

#[test]
fn test_find_from_xdg_dir() {
    // Arrange
    let dirs = dirs(Some("/xdg"), Some(s("/home/user")), unset(), None);
    let places = config_candidates(None, &dirs);
    assert_eq!(places[0], "/xdg/chezmoi/chezmoi.toml");

    // Act
    let result = find(&probed(&[(&places[0], true), (&places[1], false)]));

    // Assert
    assert_eq!(result, Some(s("/xdg/chezmoi/chezmoi.toml")));
}

#[test]
fn test_find_returns_none_when_nothing_exists() {
    // Arrange
    let dirs = dirs(None, Some(s("/tmp/chezmage-test-nonexistent")), unset(), None);
    let places = config_candidates(None, &dirs);
    assert_eq!(
        places,
        vec![s("/tmp/chezmage-test-nonexistent/.config/chezmoi/chezmoi.toml")]
    );

    // Act
    let result = find(&probed(&[(&places[0], false)]));

    // Assert
    assert!(result.is_none());
    assert!(find(&probed(&[])).is_none());
}

#[test]
fn test_read_identities_empty_string_identity() {
    // Arrange
    let f = write_toml(
        r#"
[age]
identity = ""
"#,
    );

    // Act
    let paths = read_identities("config.toml", &f, HOME).unwrap();

    // Assert
    assert!(paths.is_empty());
}

#[test]
fn test_read_identities_whitespace_only_identity() {
    // Arrange
    let f = write_toml(
        r#"
[age]
identity = "  "
"#,
    );

    // Act
    let paths = read_identities("config.toml", &f, HOME).unwrap();

    // Assert
    assert!(paths.is_empty());
}

#[test]
fn test_dirs_from_values_xdg_only() {
    // Arrange & Act
    let result = dirs_from_values(Some("/xdg/config"), None, None);

    // Assert
    assert_eq!(result, vec![s("/xdg/config/chezmoi")]);
}

#[test]
fn test_dirs_from_values_home_only() {
    // Arrange & Act
    let result = dirs_from_values(None, Some(s("/home/user")), None);

    // Assert
    assert_eq!(result, vec![s("/home/user/.config/chezmoi")]);
}

#[test]
fn test_dirs_from_values_all_set() {
    // Arrange & Act
    let result = dirs_from_values(
        Some("/xdg/config"),
        Some(s("/home/user")),
        Some("/appdata"),
    );

    // Assert
    assert_eq!(result.len(), 3);
    assert_eq!(result[0], "/xdg/config/chezmoi");
    assert_eq!(result[1], "/home/user/.config/chezmoi");
    assert_eq!(result[2], "/appdata/chezmoi");
}

#[test]
fn test_dirs_from_values_dedup() {
    // Arrange: XDG and HOME resolve to the same path
    let result = dirs_from_values(Some("/home/user/.config"), Some(s("/home/user")), None);

    // Assert: consecutive duplicates are removed by dedup
    assert_eq!(result, vec![s("/home/user/.config/chezmoi")]);
}

#[test]
fn dirs_that_are_the_same_path_in_other_words_are_merged() {
    let result = dirs_from_values(Some("/home//user/.config/"), Some(s("/home/user")), None);
    assert_eq!(result, vec![s("/home//user/.config/chezmoi")]);
}

#[test]
fn only_neighbours_are_merged() {
    let dirs = vec![s("/a"), s("/b"), s("/a"), s("/a"), s("/a/.")];
    assert_eq!(merge_neighbours(dirs), vec![s("/a"), s("/b"), s("/a")]);
    assert!(merge_neighbours(vec![]).is_empty());
}

#[test]
fn a_path_is_kept_unless_it_repeats_the_last() {
    let mut kept = vec![];
    push_distinct(&mut kept, s("/a"), true);
    push_distinct(&mut kept, s("/b"), false);
    push_distinct(&mut kept, s("/c"), true);
    assert_eq!(kept, vec![s("/a"), s("/b")]);
}

#[test]
fn dirs_fall_back_to_userprofile() {
    assert_eq!(
        dirs(None, None, Ok(s("/profile")), Some("/appdata")),
        vec![s("/profile/.config/chezmoi"), s("/appdata/chezmoi")]
    );
    assert!(dirs(None, None, unset(), None).is_empty());
}

#[test]
fn the_config_variable_is_named() {
    assert_eq!(ENV_CHEZMOI_CONFIG, "CHEZMOI_CONFIG");
}

#[test]
fn entries_are_trimmed_and_blank_ones_left_out() {
    let config = ChezmoiConfig {
        age: AgeSection {
            identity: Some(s("  ~ ")),
            identities: Some(vec![s("\t"), s(" ~/b.gpg\n"), s("c.txt")]),
        },
    };
    assert_eq!(
        config_identities(&config, HOME),
        vec![s("/home/user"), s("/home/user/b.gpg"), s("c.txt")]
    );
    assert_eq!(
        config_identities(&config, None),
        vec![s("~"), s("~/b.gpg"), s("c.txt")]
    );
    assert!(config_identities(&ChezmoiConfig::default(), HOME).is_empty());
}

#[test]
fn an_unreadable_config_is_an_error() {
    let r = read_identities("/etc/chezmoi.toml", &unreadable(), HOME);
    assert!(matches!(&r, Err(ConfigError::CannotRead { path, .. }) if path == "/etc/chezmoi.toml"));
    let e = r.unwrap_err();
    assert_eq!(e.message(), "cannot read /etc/chezmoi.toml");
    assert_eq!(e.report(), "cannot read /etc/chezmoi.toml: permission denied");
}

#[test]
fn a_malformed_config_is_an_error() {
    let r = read_identities("/etc/chezmoi.toml", &malformed(), HOME);
    assert!(matches!(&r, Err(ConfigError::Parse { path, .. }) if path == "/etc/chezmoi.toml"));
    let e = r.unwrap_err();
    assert_eq!(e.message(), "parse error in /etc/chezmoi.toml");
    assert_eq!(e.report(), "parse error in /etc/chezmoi.toml: expected newline");
}

#[test]
fn the_extension_decides_before_the_content() {
    let r = identities_of(Some("yaml"), "c.yaml", &unreadable(), HOME);
    assert!(r.unwrap().is_empty());
    let r = identities_of(None, "c", &malformed(), HOME);
    assert!(r.unwrap().is_empty());
    assert!(identities_of(Some("toml"), "c", &malformed(), HOME).is_err());
    assert!(read_identities("toml", &malformed(), HOME).is_ok());
    assert!(read_identities(".toml", &malformed(), HOME).is_ok());
    assert!(read_identities("a.b.toml", &malformed(), HOME).is_err());
}

#[test]
fn dummies_are_matched_exactly() {
    let paths = vec![s("/dev/null"), s("Nul"), s("/dev/null/"), s("NUL"), s("a")];
    assert_eq!(
        filter_dummy_identities(paths),
        vec![s("Nul"), s("/dev/null/"), s("a")]
    );
}

#[test]
fn only_toml_is_supported() {
    assert!(is_supported("/home/user/chezmoi.toml"));
    assert!(!is_supported("/home/user/chezmoi.yaml"));
    assert!(!is_supported("/home/user/chezmoi.TOML"));
    assert!(!is_supported("/home/user.toml/chezmoi"));
    assert!(supported_extension(Some("toml")));
    assert!(!supported_extension(Some("json")));
    assert!(!supported_extension(None));
}

#[test]
fn identities_of_another_type_are_a_parse_error() {
    for content in [
        "[age]\nidentity = 1\n",
        "[age]\nidentities = \"a.gpg\"\n",
        "[age]\nidentities = [\"a.gpg\", 2]\n",
        "age = true\n",
    ] {
        let e = read_identities("config.toml", &write_toml(content), HOME).unwrap_err();
        assert!(matches!(e, ConfigError::Parse { .. }));
    }
}

#[test]
fn no_directory_is_left_right_after_itself() {
    assert_eq!(merge_neighbours(vec![s("/a"), s("/a")]), vec![s("/a")]);
    let result = dirs(Some("/h/.config"), Some(s("/h")), unset(), Some("/h/.config"));
    assert_eq!(result, vec![s("/h/.config/chezmoi")]);
}
