use chezmage::shim::{
    client_connected, deliver_key, exit_code, fd_path, generate_pipe_name, key_line,
    rewrite_identity_args, run, serve_key_on_pipe, wide_name, Delivery, ServeAction, ServeError,
    ServeEvent, ShimStep, ERROR_PIPE_CONNECTED,
};

fn s(val: &str) -> String {
    String::from(val)
}

#[test]
fn test_rewrite_short_identity() {
    // Arrange
    let args = vec![s("-d"), s("-i"), s("/path/key.txt"), s("file.age")];

    // Act
    let (has_id, new_args) = rewrite_identity_args(&args, "-");

    // Assert
    assert!(has_id);
    assert_eq!(new_args, vec![s("-d"), s("-i"), s("-"), s("file.age")]);
}

#[test]
fn test_rewrite_long_identity() {
    // Arrange
    let args = vec![s("-d"), s("--identity"), s("/path/key.txt"), s("file.age")];

    // Act
    let (has_id, new_args) = rewrite_identity_args(&args, "-");

    // Assert
    assert!(has_id);
    assert_eq!(new_args, vec![s("-d"), s("-i"), s("-"), s("file.age")]);
}

#[test]
fn test_rewrite_identity_equals() {
    // Arrange
    let args = vec![s("-d"), s("--identity=/path/key.txt"), s("file.age")];

    // Act
    let (has_id, new_args) = rewrite_identity_args(&args, "-");

    // Assert
    assert!(has_id);
    assert_eq!(new_args, vec![s("-d"), s("-i"), s("-"), s("file.age")]);
}

#[test]
fn test_rewrite_short_equals() {
    // Arrange
    let args = vec![s("-d"), s("-i=/path/key.txt"), s("file.age")];

    // Act
    let (has_id, new_args) = rewrite_identity_args(&args, "-");

    // Assert
    assert!(has_id);
    assert_eq!(new_args, vec![s("-d"), s("-i"), s("-"), s("file.age")]);
}

#[test]
fn test_rewrite_multiple_identities() {
    // Arrange
    let args = vec![
        s("-d"),
        s("-i"),
        s("/path/a.gpg"),
        s("-i"),
        s("/path/b.gpg"),
        s("file.age"),
    ];

    // Act
    let (has_id, new_args) = rewrite_identity_args(&args, "-");

    // Assert
    assert!(has_id);
    assert_eq!(new_args, vec![s("-d"), s("-i"), s("-"), s("file.age")]);
}

#[test]
fn test_rewrite_no_identity() {
    // Arrange
    let args = vec![s("-e"), s("-r"), s("age1xxx"), s("file.txt")];

    // Act
    let (has_id, new_args) = rewrite_identity_args(&args, "-");

    // Assert
    assert!(!has_id);
    assert_eq!(new_args, args);
}

#[test]
fn test_rewrite_mixed_formats() {
    // Arrange
    let args = vec![
        s("-d"),
        s("-i"),
        s("/path/a.gpg"),
        s("--identity=/path/b.gpg"),
        s("file.age"),
    ];

    // Act
    let (has_id, new_args) = rewrite_identity_args(&args, "-");

    // Assert
    assert!(has_id);
    assert_eq!(new_args, vec![s("-d"), s("-i"), s("-"), s("file.age")]);
}

#[test]
fn test_rewrite_empty_args() {
    // Arrange
    let args: Vec<String> = Vec::new();

    // Act
    let (has_id, new_args) = rewrite_identity_args(&args, "-");

    // Assert
    assert!(!has_id);
    assert!(new_args.is_empty());
}

#[test]
fn test_rewrite_identity_at_end_without_value() {
    // Arrange: -i at end with no following value
    let args = vec![s("-d"), s("file.age"), s("-i")];

    // Act
    let (has_id, new_args) = rewrite_identity_args(&args, "-");

    // Assert: -i detected even without value; skip_next consumes nothing
    assert!(has_id);
    assert_eq!(new_args, vec![s("-d"), s("file.age"), s("-i"), s("-")]);
}

#[test]
fn test_rewrite_preserves_other_flags_order() {
    // Arrange: non-identity flags should be preserved in order
    let args = vec![
        s("-d"),
        s("-o"),
        s("output.txt"),
        s("-i"),
        s("/path/key.gpg"),
        s("input.age"),
    ];

    // Act
    let (has_id, new_args) = rewrite_identity_args(&args, "-");

    // Assert
    assert!(has_id);
    assert_eq!(
        new_args,
        vec![
            s("-d"),
            s("-o"),
            s("output.txt"),
            s("-i"),
            s("-"),
            s("input.age")
        ]
    );
}

#[test]
fn test_rewrite_with_fd_path() {
    // Arrange
    let args = vec![s("-d"), s("-i"), s("/path/key.txt"), s("file.age")];

    // Act
    let (has_id, new_args) = rewrite_identity_args(&args, "/dev/fd/5");

    // Assert
    assert!(has_id);
    assert_eq!(
        new_args,
        vec![s("-d"), s("-i"), s("/dev/fd/5"), s("file.age")]
    );
}

#[test]
fn test_generate_pipe_name_format() {
    // Arrange & Act
    let name = generate_pipe_name(4242, 987_654_321);

    // Assert
    assert!(
        name.starts_with(r"\\.\pipe\chezmage-"),
        "pipe name must start with \\\\.\\pipe\\chezmage-"
    );
    let suffix = name.strip_prefix(r"\\.\pipe\chezmage-").unwrap();
    let parts: Vec<&str> = suffix.splitn(2, '-').collect();
    assert_eq!(parts.len(), 2, "expected pid-random format");
    assert_eq!(parts[0], "4242", "PID segment must match current process");
    assert!(
        parts[1].parse::<u64>().is_ok(),
        "random segment must be a valid u64"
    );
    assert_eq!(name, r"\\.\pipe\chezmage-4242-987654321");
}

#[test]
fn test_generate_pipe_name_uniqueness() {
    // Arrange & Act: generate two names
    let name1 = generate_pipe_name(4242, 1);
    let name2 = generate_pipe_name(4242, 2);

    // Assert: names should differ (random component)
    assert_ne!(name1, name2, "pipe names should be unique");
    assert_ne!(generate_pipe_name(1, 21), generate_pipe_name(12, 1));
}

#[test]
fn rewriting_twice_changes_nothing_more() {
    let args = vec![s("-i"), s("a"), s("-o"), s("x"), s("--identity=b")];
    let (_, once) = rewrite_identity_args(&args, "/dev/fd/3");
    let (found, twice) = rewrite_identity_args(&once, "/dev/fd/3");
    assert!(found);
    assert_eq!(once, vec![s("-i"), s("/dev/fd/3"), s("-o"), s("x")]);
    assert_eq!(once, twice);
}

#[test]
fn a_value_that_looks_like_a_flag_is_taken_as_value() {
    let args = vec![s("-i"), s("-i"), s("f"), s("--identities")];
    let (found, new_args) = rewrite_identity_args(&args, "-");
    assert!(found);
    assert_eq!(new_args, vec![s("-i"), s("-"), s("f"), s("--identities")]);
}

#[test]
fn only_a_key_that_is_set_is_delivered() {
    assert!(matches!(run(None), ShimStep::ExecAge));
    assert!(matches!(run(Some(s(""))), ShimStep::ExecAge));
    assert!(matches!(run(Some(s("K"))), ShimStep::Deliver(k) if k == "K"));
}

#[test]
fn without_identity_flag_age_is_executed() {
    let args = vec![s("-e"), s("somefile.txt")];
    assert!(matches!(deliver_key(&args, "/dev/fd/3"), Delivery::ExecAge));
    let args = vec![s("-d"), s("-i=k")];
    match deliver_key(&args, "/dev/fd/3") {
        Delivery::Spawn(new_args) => {
            assert_eq!(new_args, vec![s("-d"), s("-i"), s("/dev/fd/3")]);
        }
        Delivery::ExecAge => panic!("the identity flag was missed"),
    }
}

#[test]
fn the_key_is_written_as_a_line() {
    assert_eq!(key_line("AGE-SECRET-KEY-1A"), ("AGE-SECRET-KEY-1A", "\n"));
    assert_eq!(key_line(""), ("", "\n"));
}

#[test]
fn descriptor_paths() {
    assert_eq!(fd_path(5), "/dev/fd/5");
    assert_eq!(fd_path(0), "/dev/fd/0");
    assert_eq!(fd_path(-1), "/dev/fd/-1");
}

#[test]
fn exit_codes_are_passed_on() {
    assert_eq!(exit_code(Some(0)), 0);
    assert_eq!(exit_code(Some(3)), 3);
    assert_eq!(exit_code(None), 1);
}

#[test]
fn an_early_client_counts_as_connected() {
    assert!(client_connected(1, None));
    assert!(client_connected(0, Some(535)));
    assert!(!client_connected(0, Some(232)));
    assert!(!client_connected(0, None));
}

#[test]
fn wide_names_end_in_null() {
    for name in [r"\\.\pipe\chezmage-1-2", "", "aé\u{FFFF}\u{10000}\u{10FFFF}"] {
        let mut expected: Vec<u16> = name.encode_utf16().collect();
        expected.push(0);
        assert_eq!(wide_name(name), expected);
    }
}

#[test]
fn the_key_is_served_step_by_step() {
    assert_eq!(serve_key_on_pipe(ServeEvent::Created), ServeAction::Wait);
    let waited = |ret, os_error| serve_key_on_pipe(ServeEvent::Waited { ret, os_error });
    assert_eq!(waited(1, Some(232)), ServeAction::Write);
    assert_eq!(waited(0, Some(ERROR_PIPE_CONNECTED)), ServeAction::Write);
    assert_eq!(waited(0, Some(232)), ServeAction::Fail(ServeError::NotConnected));
    let wrote = |ok| serve_key_on_pipe(ServeEvent::Wrote { ok });
    assert_eq!(wrote(true), ServeAction::Flush);
    assert_eq!(wrote(false), ServeAction::Fail(ServeError::NotWritten));
    let flushed = |ret| serve_key_on_pipe(ServeEvent::Flushed { ret });
    assert_eq!(flushed(1), ServeAction::Close);
    assert_eq!(flushed(0), ServeAction::Fail(ServeError::NotFlushed));
    assert_eq!(ServeError::NotConnected.message(), "ConnectNamedPipe failed");
    assert_eq!(ServeError::NotWritten.message(), "failed to write key to named pipe");
    assert_eq!(ServeError::NotFlushed.message(), "FlushFileBuffers failed");
}
