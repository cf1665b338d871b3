//! Path resolution and path identity.

use recursive_file_loader::canonical_path::CanonicalPath;
use recursive_file_loader::dependency_path::{get_dependency_path, DependencyPath};

fn resolve(origin: &str, is_dir: bool, reference: &str) -> String {
    let r = get_dependency_path(
        &origin.as_bytes().to_vec(),
        is_dir,
        &reference.as_bytes().to_vec(),
    );
    String::from_utf8(r).unwrap()
}

#[test]
fn absolute_references_pass_through() {
    assert_eq!(resolve("/a/b.txt", false, "/etc/x"), "/etc/x");
    assert_eq!(resolve("/a", true, "/etc/x"), "/etc/x");
}

#[test]
fn relative_reference_joins_parent_of_file() {
    assert_eq!(resolve("/a/b.txt", false, "c.txt"), "/a/c.txt");
    assert_eq!(resolve("/a/b.txt", false, "../c.txt"), "/a/../c.txt");
}

#[test]
fn relative_reference_joins_directory_itself() {
    assert_eq!(resolve("/a/b", true, "c.txt"), "/a/b/c.txt");
}

#[test]
fn file_directly_under_root_resolves_against_root() {
    assert_eq!(resolve("/b.txt", false, "c.txt"), "/c.txt");
}

#[test]
fn separator_is_not_doubled() {
    assert_eq!(resolve("/a/", true, "c.txt"), "/a/c.txt");
}

#[test]
fn trait_resolves_against_the_canonical_form() {
    let path = CanonicalPath::new(b"orig/spelling.txt".to_vec(), b"/real/spelling.txt".to_vec());
    let r = path.get_dependency_path(false, &b"x.txt".to_vec());
    assert_eq!(String::from_utf8(r).unwrap(), "/real/x.txt");
}

#[test]
fn equality_is_on_the_canonical_form_only() {
    let a = CanonicalPath::new(b"./x.txt".to_vec(), b"/d/x.txt".to_vec());
    let b = CanonicalPath::new(b"../d/x.txt".to_vec(), b"/d/x.txt".to_vec());
    let c = CanonicalPath::new(b"x.txt".to_vec(), b"/other/x.txt".to_vec());
    assert!(a == b);
    assert!(a != c);
    assert_eq!(a.source(), &b"./x.txt".to_vec());
}
