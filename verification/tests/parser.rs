//! Locating directives in a text buffer.

use recursive_file_loader::parser::find_includes;

fn kw() -> String {
    ["incl", "ude"].concat()
}

fn dir_plain(path: &str) -> String {
    format!("${{{}(\"{}\")}}", kw(), path)
}

fn dir_indent(path: &str) -> String {
    format!("${{{}_indent(\"{}\")}}", kw(), path)
}

#[test]
fn finds_nothing_in_plain_text() {
    let text = b"hello, world!".to_vec();
    assert!(find_includes(&text).is_empty());
}

#[test]
fn finds_one_plain_directive() {
    let text = format!("hello, {}!", dir_plain("world.txt")).into_bytes();
    let found = find_includes(&text);
    assert_eq!(found.len(), 1);
    assert_eq!(found[0].path(), &b"world.txt".to_vec());
    assert_eq!(found[0].range(), (7, 7 + dir_plain("world.txt").len()));
    assert_eq!(found[0].backslashes(), (7, 7));
    assert!(found[0].indentation().is_none());
    assert!(!found[0].is_escaped());
}

#[test]
fn finds_two_directives_in_order() {
    let text = format!("{} and {}", dir_plain("a.txt"), dir_plain("b.txt")).into_bytes();
    let found = find_includes(&text);
    assert_eq!(found.len(), 2);
    assert_eq!(found[0].path(), &b"a.txt".to_vec());
    assert_eq!(found[1].path(), &b"b.txt".to_vec());
    assert!(found[0].range().1 <= found[1].range().0);
}

#[test]
fn captures_backslash_run() {
    let text = format!("a\\\\\\{}", dir_plain("x")).into_bytes();
    let found = find_includes(&text);
    assert_eq!(found.len(), 1);
    assert_eq!(found[0].backslashes(), (1, 4));
    assert!(found[0].is_escaped());
}

#[test]
fn captures_indentation_from_line_start() {
    let text = format!("top\n \t {}", dir_indent("x.txt")).into_bytes();
    let found = find_includes(&text);
    assert_eq!(found.len(), 1);
    assert_eq!(found[0].indentation().unwrap(), &b" \t ".to_vec());
}

#[test]
fn indentation_variant_mid_line_captures_nothing() {
    let text = format!("text {}", dir_indent("x.txt")).into_bytes();
    let found = find_includes(&text);
    assert_eq!(found.len(), 1);
    assert!(found[0].indentation().is_none());
}

#[test]
fn plain_variant_ignores_leading_whitespace() {
    let text = format!("  {}", dir_plain("x.txt")).into_bytes();
    let found = find_includes(&text);
    assert_eq!(found.len(), 1);
    assert!(found[0].indentation().is_none());
}

#[test]
fn indentation_before_backslashes_is_captured() {
    let text = format!("\t\\\\{}", dir_indent("x.txt")).into_bytes();
    let found = find_includes(&text);
    assert_eq!(found.len(), 1);
    assert_eq!(found[0].backslashes(), (1, 3));
    assert_eq!(found[0].indentation().unwrap(), &b"\t".to_vec());
}

#[test]
fn unterminated_expression_is_no_match() {
    let text = format!("${{{}(\"x.txt\")", kw()).into_bytes();
    assert!(find_includes(&text).is_empty());
}

#[test]
fn stray_character_after_quote_is_no_match() {
    let text = format!("${{{}(\"x\") }}", kw()).into_bytes();
    assert!(find_includes(&text).is_empty());
}

#[test]
fn misspelled_marker_is_no_match() {
    let text = format!("${{{}_indently(\"x\")}}", kw()).into_bytes();
    assert!(find_includes(&text).is_empty());
}

#[test]
fn path_may_hold_directive_like_text() {
    // the inner `${...(` sits inside the quoted path; the scan takes the
    // outer expression whole and never matches inside it
    let inner = format!("a${{{}(", kw());
    let text = format!("{}b\")}}", dir_plain(&inner)).into_bytes();
    let found = find_includes(&text);
    assert_eq!(found.len(), 1);
    assert_eq!(found[0].path(), &inner.as_bytes().to_vec());
    assert_eq!(found[0].range(), (0, dir_plain(&inner).len()));
}

#[test]
fn second_directive_on_a_line_captures_no_indentation() {
    let text = format!("  {} {}", dir_indent("a"), dir_indent("b")).into_bytes();
    let found = find_includes(&text);
    assert_eq!(found.len(), 2);
    assert_eq!(found[0].indentation().unwrap(), &b"  ".to_vec());
    assert!(found[1].indentation().is_none());
}

#[test]
fn empty_path_is_matched() {
    let text = dir_plain("").into_bytes();
    let found = find_includes(&text);
    assert_eq!(found.len(), 1);
    assert_eq!(found[0].path(), &Vec::<u8>::new());
}
