use guitar::remotes::validate_remote_url;
use guitar::text::{same_text, starts_with};

#[test]
fn trimming_takes_unicode_whitespace_off_the_ends() {
    assert_eq!(validate_remote_url("\u{3000} a b \t\n"), Ok("a b"));
    assert!(same_text("é", "é"));
    assert!(!same_text("a", "ab"));
    assert!(starts_with("<<<<<<< HEAD", "<<<<<<<"));
    assert!(!starts_with("<<", "<<<"));
}
