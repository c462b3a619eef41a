use chezmage::gpg::{
    gpg_options, has_gpg_extension, is_encrypted, parse_decoded, parse_gpg_bytes, GpgError,
};

#[test]
fn test_is_encrypted_gpg() {
    // Arrange & Act & Assert
    assert!(is_encrypted("key.gpg"));
}

#[test]
fn test_is_encrypted_asc() {
    // Arrange & Act & Assert
    assert!(is_encrypted("key.asc"));
}

#[test]
fn test_is_encrypted_uppercase() {
    // Arrange & Act & Assert
    assert!(is_encrypted("key.GPG"));
}

#[test]
fn test_is_encrypted_plaintext() {
    // Arrange & Act & Assert
    assert!(!is_encrypted("key.txt"));
}

#[test]
fn test_is_encrypted_no_extension() {
    // Arrange & Act & Assert
    assert!(!is_encrypted("key"));
}

#[test]
fn test_is_encrypted_with_path() {
    // Arrange & Act & Assert
    assert!(is_encrypted("/home/user/.config/chezmoi/age-key.gpg"));
}

#[test]
fn test_is_encrypted_mixed_case_asc() {
    // Arrange & Act & Assert
    assert!(is_encrypted("key.AsC"));
}

#[test]
fn test_parse_gpg_bytes_success() {
    // Arrange
    let stdout = b"decrypted content".to_vec();

    // Act
    let result = parse_gpg_bytes(true, Some(0), stdout, "key.gpg");

    // Assert
    assert_eq!(result.unwrap(), "decrypted content");
}

#[test]
fn test_parse_gpg_bytes_trims_trailing_newline() {
    // Arrange
    let stdout = b"secret key\n\n".to_vec();

    // Act
    let result = parse_gpg_bytes(true, Some(0), stdout, "key.gpg");

    // Assert
    assert_eq!(result.unwrap(), "secret key");
}

#[test]
fn test_parse_gpg_bytes_failure_exit_code() {
    // Arrange
    let stdout = Vec::new();

    // Act
    let result = parse_gpg_bytes(false, Some(2), stdout, "/tmp/key.gpg");

    // Assert
    let err = result.unwrap_err().message();
    assert!(err.contains("/tmp/key.gpg"), "error should contain path");
    assert!(err.contains("exit 2"), "error should contain exit code");
}

#[test]
fn test_parse_gpg_bytes_invalid_utf8() {
    // Arrange
    let stdout = vec![0xFF, 0xFE, 0x80];

    // Act
    let result = parse_gpg_bytes(true, Some(0), stdout, "key.gpg");

    // Assert
    assert!(result.is_err());
    assert!(result.unwrap_err().message().contains("UTF-8"));
}

#[test]
fn test_parse_gpg_bytes_empty_stdout() {
    // Arrange
    let stdout = Vec::new();

    // Act
    let result = parse_gpg_bytes(true, Some(0), stdout, "key.gpg");

    // Assert
    assert_eq!(result.unwrap(), "");
}

#[test]
fn failure_without_exit_code() {
    let e = parse_gpg_bytes(false, None, b"ignored".to_vec(), "k.asc").unwrap_err();
    assert!(matches!(&e, GpgError::Failed { path, exit_code: -1 } if path == "k.asc"));
    assert_eq!(e.message(), "gpg --decrypt k.asc failed (exit -1)");
    assert_eq!(e.report(), e.message());
}

#[test]
fn the_exit_code_is_ignored_on_success() {
    let r = parse_gpg_bytes(true, Some(7), "é\u{a0}\r\n".as_bytes().to_vec(), "k");
    assert_eq!(r.unwrap(), "é");
    let e = parse_gpg_bytes(true, None, vec![b'a', 0xC3], "k").unwrap_err();
    assert!(matches!(&e, GpgError::NotUtf8 { .. }));
    assert_eq!(e.message(), "gpg output is not valid UTF-8");
    assert_eq!(
        e.report(),
        "gpg output is not valid UTF-8: incomplete utf-8 byte sequence from index 1"
    );
}

#[test]
fn encrypted_names() {
    assert!(has_gpg_extension("a.gpg"));
    assert!(!has_gpg_extension("a.GPG"));
    assert!(is_encrypted(".gpg"));
    assert!(!is_encrypted("a.gpg/"));
    assert!(!is_encrypted("agpg"));
    assert!(is_encrypted("É.Asc"));
    assert!(!is_encrypted("a.gpg.txt"));
}

#[test]
fn gpg_is_run_quietly() {
    assert_eq!(gpg_options(), vec!["--quiet", "--yes", "--decrypt"]);
}

#[test]
fn decoded_output_is_parsed() {
    let r = parse_decoded(true, None, Ok(String::from("key \n")), "k");
    assert_eq!(r.unwrap(), "key");
    let e = parse_decoded(true, Some(0), Err(String::from("why")), "k").unwrap_err();
    assert!(matches!(&e, GpgError::NotUtf8 { cause } if cause == "why"));
    let e = parse_decoded(false, Some(1), Err(String::from("why")), "k").unwrap_err();
    assert!(matches!(&e, GpgError::Failed { exit_code: 1, .. }));
}
