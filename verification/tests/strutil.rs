//! String helpers.

use lxtrace::strutil::{str_eq, str_starts_with};

#[test]
fn equality_is_character_wise() {
    assert!(str_eq("", ""));
    assert!(str_eq("abc", "abc"));
    assert!(!str_eq("abc", "abd"));
    assert!(!str_eq("abc", "ab"));
    assert!(str_eq("naïve", "naïve"));
}

#[test]
fn prefixes() {
    assert!(str_starts_with("/etc/hosts", "/etc/"));
    assert!(str_starts_with("abc", ""));
    assert!(str_starts_with("abc", "abc"));
    assert!(!str_starts_with("ab", "abc"));
    assert!(!str_starts_with("/home/x", "/etc/"));
}
