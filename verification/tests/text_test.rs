use git_account_switcher::text::{contains, format_octal, is_whitespace, trim};

#[test]
fn trim_removes_unicode_whitespace_at_both_ends() {
    assert_eq!(trim("  work \n"), "work");
    assert_eq!(trim("\u{3000}a b\t"), "a b");
    assert_eq!(trim(" \t "), "");
    assert_eq!(trim(""), "");
    assert_eq!(trim("x"), "x");
    assert_eq!(trim("\u{a0}a\u{a0}"), "a");
    assert_eq!(trim("-a-"), "-a-");
}

#[test]
fn substring_search() {
    assert!(contains("path = /a/b/git/includes.gitconfig\n", "/a/b/git/includes.gitconfig"));
    assert!(!contains("path = /a/b", "/a/b/c"));
    assert!(contains("abc", ""));
    assert!(!contains("", "a"));
}

#[test]
fn octal_numerals() {
    assert_eq!(format_octal(0o644), "644");
    assert_eq!(format_octal(0), "0");
    assert_eq!(format_octal(7), "7");
    assert_eq!(format_octal(0o777), "777");
    assert_eq!(format_octal(8), "10");
}

#[test]
fn whitespace_set_matches_std_for_every_char() {
    for u in 0u32..=0x10FFFF {
        if let Some(c) = char::from_u32(u) {
            assert_eq!(is_whitespace(c), c.is_whitespace(), "U+{:04X}", u);
        }
    }
}
