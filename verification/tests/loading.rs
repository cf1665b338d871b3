//! End-to-end resolution scenarios, driven over an in-memory file system.

use recursive_file_loader::load_file_recursively;
use recursive_file_loader::loader::{Action, Event};
use recursive_file_loader::Error;

fn kw() -> String {
    ["incl", "ude"].concat()
}

fn dir_plain(path: &str) -> String {
    format!("${{{}(\"{}\")}}", kw(), path)
}

fn dir_indent(path: &str) -> String {
    format!("${{{}_indent(\"{}\")}}", kw(), path)
}

/// Resolves `.` and `..` segments, yielding an absolute normalized path, the
/// way a file system canonicalizes (without symlinks).
fn normalize(p: &str) -> String {
    let mut parts: Vec<&str> = Vec::new();
    for seg in p.split('/') {
        match seg {
            "" | "." => {},
            ".." => {
                parts.pop();
            },
            s => parts.push(s),
        }
    }
    format!("/{}", parts.join("/"))
}

/// Drives the resolution machine over an in-memory file system given as
/// `(path, text)` pairs.
fn drive(files: &[(&str, &str)], origin: &str) -> Result<String, Error> {
    let (mut loader, mut action) = load_file_recursively(origin.as_bytes().to_vec());
    loop {
        match action {
            Action::Canonicalize(p) => {
                let canon = normalize(&String::from_utf8(p).unwrap());
                let exists = files.iter().any(|(k, _)| normalize(k) == canon);
                let event = if exists {
                    Event::CanonicalizeOk(canon.into_bytes())
                } else {
                    Event::CanonicalizeNotFound
                };
                action = loader.on_event(event);
            },
            Action::ReadFile(p) => {
                let canon = String::from_utf8(p).unwrap();
                let text = files.iter().find(|(k, _)| normalize(k) == canon).unwrap().1;
                action = loader.on_event(Event::ReadOk(text.as_bytes().to_vec()));
            },
            Action::Working => {
                action = loader.step();
            },
            Action::Done(text) => return Ok(String::from_utf8(text).unwrap()),
            Action::Fail(e) => return Err(e),
        }
    }
}

#[test]
fn should_load_single_files() {
    let files = [("start.txt", "hello, world!")];
    assert_eq!(drive(&files, "start.txt").unwrap(), "hello, world!");
}

#[test]
fn should_load_recursively() {
    let start = format!("hello, {}!", dir_plain("world.txt"));
    let files = [("start.txt", start.as_str()), ("world.txt", "world")];
    assert_eq!(drive(&files, "start.txt").unwrap(), "hello, world!");
}

#[test]
fn should_preserve_indentation() {
    let start = format!("start\n  {}", dir_indent("1.txt"));
    let one = format!("1\n\t{}", dir_plain("2.txt"));
    let files = [("start.txt", start.as_str()), ("1.txt", one.as_str()), ("2.txt", "2\n2")];
    assert_eq!(drive(&files, "start.txt").unwrap(), "start\n  1\n  \t2\n  2");
}

#[test]
fn should_respect_escapes() {
    let start = format!("hello, \\{}!", dir_plain("world.txt"));
    let files = [("start.txt", start.as_str())];
    let expected = format!("hello, {}!", dir_plain("world.txt"));
    assert_eq!(drive(&files, "start.txt").unwrap(), expected);
}

#[test]
fn should_report_file_not_found() {
    let files: [(&str, &str); 0] = [];
    match drive(&files, "missing.txt") {
        Err(Error::FileNotFound(p)) => {
            assert_eq!(String::from_utf8(p).unwrap(), "missing.txt");
        },
        other => panic!("expected a missing-file failure, got {:?}", other),
    }
}

#[test]
fn should_report_missing_reference_by_its_spelling() {
    let start = format!("hello, {}!", dir_plain("world.txt"));
    let files = [("start.txt", start.as_str())];
    match drive(&files, "start.txt") {
        Err(Error::FileNotFound(p)) => {
            assert_eq!(String::from_utf8(p).unwrap(), "/world.txt");
        },
        other => panic!("expected a missing-file failure, got {:?}", other),
    }
}

#[test]
fn should_report_cyclic_dependencies() {
    let start = format!("start\n{}", dir_plain("mid/mid.txt"));
    let mid = dir_plain("../end/end.txt");
    let end = dir_plain("../start.txt");
    let files = [
        ("start.txt", start.as_str()),
        ("mid/mid.txt", mid.as_str()),
        ("end/end.txt", end.as_str()),
    ];
    match drive(&files, "start.txt") {
        Err(Error::CyclicDependency(a, b)) => {
            let a = String::from_utf8(a).unwrap();
            let b = String::from_utf8(b).unwrap();
            assert!(a.contains("/end/end.txt"), "innermost was {}", a);
            assert!(b.contains("../start.txt"), "requested was {}", b);
        },
        other => panic!("expected a cycle failure, got {:?}", other),
    }
}

#[test]
fn should_detect_self_inclusion() {
    let start = dir_plain("start.txt");
    let files = [("start.txt", start.as_str())];
    assert!(matches!(drive(&files, "start.txt"), Err(Error::CyclicDependency(_, _))));
}

#[test]
fn sibling_reuse_is_no_cycle() {
    // the same file twice in sequence is fine; only simultaneous presence
    // on the stack is a cycle
    let start = format!("{} {}", dir_plain("leaf.txt"), dir_plain("leaf.txt"));
    let files = [("start.txt", start.as_str()), ("leaf.txt", "x")];
    assert_eq!(drive(&files, "start.txt").unwrap(), "x x");
}

#[test]
fn escaping_keeps_half_the_backslashes() {
    let start = format!("a\\\\\\{}b", dir_plain("w.txt"));
    let files = [("start.txt", start.as_str())];
    let expected = format!("a\\{}b", dir_plain("w.txt"));
    assert_eq!(drive(&files, "start.txt").unwrap(), expected);
}

#[test]
fn double_escape_still_expands() {
    let start = format!("a\\\\{}b", dir_plain("w.txt"));
    let files = [("start.txt", start.as_str()), ("w.txt", "W")];
    assert_eq!(drive(&files, "start.txt").unwrap(), "a\\Wb");
}

#[test]
fn read_failure_surfaces_as_io_error() {
    let (mut loader, action) = load_file_recursively(b"start.txt".to_vec());
    assert!(matches!(action, Action::Canonicalize(_)));
    let action = loader.on_event(Event::CanonicalizeOk(b"/start.txt".to_vec()));
    assert!(matches!(action, Action::ReadFile(_)));
    let action = loader.on_event(Event::ReadError);
    assert!(matches!(action, Action::Fail(Error::IOError)));
}

#[test]
fn canonicalize_failure_surfaces_as_io_error() {
    let (mut loader, _action) = load_file_recursively(b"start.txt".to_vec());
    let action = loader.on_event(Event::CanonicalizeError);
    assert!(matches!(action, Action::Fail(Error::IOError)));
}

#[test]
fn different_spellings_of_one_file_form_a_cycle() {
    // the file reaches itself through a `..` spelling: path identity is
    // decided on the canonical form, not the spelling
    let start = dir_plain("../d/start.txt");
    let files = [("d/start.txt", start.as_str())];
    assert!(matches!(drive(&files, "d/start.txt"), Err(Error::CyclicDependency(_, _))));
}
