//! Substitution behaviour of one located directive.

use recursive_file_loader::includes::{escape_backslashes, Include};

fn check_replace(
    input: &str,
    bs: (usize, usize),
    range: (usize, usize),
    produced: Option<&str>,
    indentation: Option<&str>,
    expectation: &str,
) {
    let inc = Include::new(
        range.0,
        range.1,
        b"source.txt".to_vec(),
        bs.0,
        bs.1,
        indentation.map(|s| s.as_bytes().to_vec()),
    );
    let mut target = input.as_bytes().to_vec();
    let produced_bytes = produced.map(|s| s.as_bytes().to_vec());
    inc.replace(&mut target, produced_bytes.as_ref());
    assert_eq!(String::from_utf8(target).unwrap(), expectation);
}

#[test]
fn replace_plain_active() {
    check_replace("12345", (0, 0), (0, 4), Some("XXX"), None, "XXX5");
}

#[test]
fn replace_escaped_single_backslash() {
    check_replace("/1234", (0, 1), (1, 3), None, None, "1234");
}

#[test]
fn replace_active_after_two_backslashes() {
    check_replace("//123", (0, 2), (2, 4), Some("XXX"), None, "/XXX3");
}

#[test]
fn replace_escaped_three_backslashes() {
    check_replace("///12", (0, 3), (3, 4), None, None, "/12");
}

#[test]
fn replace_active_after_four_backslashes() {
    check_replace("////1", (0, 4), (4, 5), Some("XXX"), None, "//XXX");
}

#[test]
fn replace_indentation_single_line() {
    check_replace("12345", (0, 0), (0, 4), Some("XXX"), Some("  "), "XXX5");
}

#[test]
fn replace_indentation_two_lines() {
    check_replace("12345", (0, 0), (0, 4), Some("X\nX"), Some("  "), "X\n  X5");
}

#[test]
fn replace_empty_indentation_is_not_applied() {
    check_replace("12345", (0, 0), (0, 4), Some("X\nX"), Some(""), "X\nX5");
}

#[test]
fn replace_trims_one_trailing_newline() {
    check_replace("12345", (0, 0), (0, 4), Some("X\n\n"), None, "X\n5");
}

#[test]
fn replace_indentation_drops_trailing_newline() {
    check_replace("12345", (0, 0), (0, 4), Some("X\nY\n"), Some("\t"), "X\n\tY5");
}

#[test]
fn replace_indentation_normalizes_crlf_breaks() {
    check_replace("12345", (0, 0), (0, 4), Some("a\r\nb"), Some("  "), "a\n  b5");
}

#[test]
fn escape_backslashes_two_of_two() {
    let mut target = b"//".to_vec();
    escape_backslashes(&mut target, 0, 2);
    assert_eq!(target, b"/".to_vec());
}

#[test]
fn escape_backslashes_two_of_four() {
    let mut target = b"////".to_vec();
    escape_backslashes(&mut target, 0, 2);
    assert_eq!(target, b"///".to_vec());
}

#[test]
fn escape_backslashes_in_the_middle() {
    let mut target = b"xx//xx".to_vec();
    escape_backslashes(&mut target, 2, 4);
    assert_eq!(target, b"xx/xx".to_vec());
}

#[test]
fn indentation_accessor_filters_empty() {
    let with_empty = Include::new(0, 4, b"p".to_vec(), 0, 0, Some(Vec::new()));
    assert!(with_empty.indentation().is_none());
    let with_ws = Include::new(0, 4, b"p".to_vec(), 0, 0, Some(b"  ".to_vec()));
    assert_eq!(with_ws.indentation().unwrap(), &b"  ".to_vec());
    let without = Include::new(0, 4, b"p".to_vec(), 0, 0, None);
    assert!(without.indentation().is_none());
}

#[test]
fn is_escaped_is_odd_run_length() {
    assert!(!Include::new(2, 6, b"p".to_vec(), 2, 2, None).is_escaped());
    assert!(Include::new(3, 7, b"p".to_vec(), 2, 3, None).is_escaped());
    assert!(!Include::new(4, 8, b"p".to_vec(), 2, 4, None).is_escaped());
}
