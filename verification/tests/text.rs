use chezmage::text::{
    decimal_text, ends_with, join, same_text, signed_decimal_text, split, starts_with,
    starts_with_char, strip_prefix, trim, trim_end, trim_start, with_cause,
};

#[test]
fn trimming_agrees_with_the_standard_library() {
    for s in [
        "",
        " ",
        "a",
        "  a b\t\n",
        "\u{85}\u{a0}\u{1680}x\u{2000}\u{200a}\u{2028}",
        "\u{2029}\u{202f}\u{205f}\u{3000}",
        "\u{200b}y\u{180e}",
        "\u{b}\u{c}\r z \u{1c}",
    ] {
        assert_eq!(trim(s), s.trim());
        assert_eq!(trim_end(s), s.trim_end());
        assert_eq!(trim_start(s), s.trim_start());
    }
}

#[test]
fn white_space_agrees_with_the_standard_library() {
    for code in 0..0x11_0000u32 {
        if let Some(c) = char::from_u32(code) {
            let listed = matches!(
                code,
                0x09..=0x0d | 0x20 | 0x85 | 0xa0 | 0x1680 | 0x2000..=0x200a | 0x2028 | 0x2029
                    | 0x202f | 0x205f | 0x3000
            );
            assert_eq!(c.is_whitespace(), listed);
        }
    }
}

#[test]
fn splitting_agrees_with_the_standard_library() {
    for s in ["", ",", "a", "a,b", ",a;b,", "é;ü"] {
        let expected: Vec<&str> = s.split([',', ';']).collect();
        assert_eq!(split(s, ",;"), expected);
    }
    assert_eq!(split("a,b", ""), vec!["a,b"]);
}

#[test]
fn prefixes_and_suffixes() {
    assert!(starts_with("--x", "-"));
    assert!(!starts_with("", "-"));
    assert!(starts_with("abc", ""));
    assert!(starts_with_char("-", '-'));
    assert!(!starts_with_char("", '-'));
    assert!(!starts_with_char("é", '-'));
    assert!(ends_with("key.gpg", ".gpg"));
    assert!(!ends_with("gpg", ".gpg"));
    assert_eq!(strip_prefix("-x=é", "-x="), Some("é"));
    assert_eq!(strip_prefix("x", "-x="), None);
    assert!(same_text("é", "é"));
    assert!(!same_text("e", "é"));
    assert!(!same_text("ab", "a"));
    assert!(!ends_with("key.gpp", ".gpg"));
    assert!(ends_with("é", "é"));
}

#[test]
fn joining() {
    assert_eq!(join(&vec![], "\n"), "");
    assert_eq!(join(&vec!["a"], "\n"), "a");
    assert_eq!(join(&vec!["a", "", "b"], "\n"), "a\n\nb");
}

#[test]
fn decimals() {
    for n in [0u64, 7, 10, 123, 9_876_543_210, u64::MAX] {
        assert_eq!(decimal_text(n), n.to_string());
    }
    for n in [0i32, 5, -1, i32::MAX, i32::MIN] {
        assert_eq!(signed_decimal_text(n), n.to_string());
    }
}

#[test]
fn what_is_cut_is_borrowed() {
    let s = String::from(" a,b ");
    let trimmed = trim(&s);
    assert_eq!(trimmed.as_bytes().as_ptr(), s.as_bytes()[1..].as_ptr());
    let pieces = split(trimmed, ",");
    assert_eq!(pieces[1].as_bytes().as_ptr(), s.as_bytes()[3..].as_ptr());
}

#[test]
fn causes_follow_their_errors() {
    assert_eq!(with_cause(String::from("cannot read a"), "no such file"), "cannot read a: no such file");
}
