use mergebams::rewrite::make_suffix;
use mergebams::rewrite::sanitize_and_replace_cb;

#[test]
fn suffix_of_first_input() {
    assert_eq!(make_suffix(1), b"-1".to_vec());
}

#[test]
fn suffix_of_tenth_input() {
    assert_eq!(make_suffix(10), b"-10".to_vec());
}

#[test]
fn suffix_of_large_position() {
    assert_eq!(make_suffix(123), b"-123".to_vec());
}

#[test]
fn appends_when_no_trailing_run() {
    let r = sanitize_and_replace_cb(&b"AAAC".to_vec(), &b"-2".to_vec());
    assert_eq!(r, b"AAAC-2".to_vec());
}

#[test]
fn replaces_trailing_run() {
    let r = sanitize_and_replace_cb(&b"AAAC-1".to_vec(), &b"-2".to_vec());
    assert_eq!(r, b"AAAC-2".to_vec());
}

#[test]
fn replaces_multi_digit_run() {
    let r = sanitize_and_replace_cb(&b"AAAC-12".to_vec(), &b"-3".to_vec());
    assert_eq!(r, b"AAAC-3".to_vec());
}

#[test]
fn hyphen_without_digits_is_appended_to() {
    let r = sanitize_and_replace_cb(&b"AA-C".to_vec(), &b"-1".to_vec());
    assert_eq!(r, b"AA-C-1".to_vec());
}

#[test]
fn digits_without_hyphen_are_appended_to() {
    let r = sanitize_and_replace_cb(&b"AAA7".to_vec(), &b"-1".to_vec());
    assert_eq!(r, b"AAA7-1".to_vec());
}

#[test]
fn empty_identifier_gets_suffix() {
    let r = sanitize_and_replace_cb(&b"".to_vec(), &b"-1".to_vec());
    assert_eq!(r, b"-1".to_vec());
}

#[test]
fn bare_run_is_replaced_whole() {
    let r = sanitize_and_replace_cb(&b"-5".to_vec(), &b"-2".to_vec());
    assert_eq!(r, b"-2".to_vec());
}

#[test]
fn rewriting_twice_equals_once() {
    let suffix = b"-7".to_vec();
    for id in [&b"AAAC"[..], &b"AAAC-1"[..], &b"AA-C"[..], &b""[..], &b"-12"[..]] {
        let once = sanitize_and_replace_cb(&id.to_vec(), &suffix);
        let twice = sanitize_and_replace_cb(&once, &suffix);
        assert_eq!(once, twice);
    }
}
