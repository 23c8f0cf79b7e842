use xdot::identity::{same_object, Metadata, NodeIdentity};
use xdot::paths::{bytes_eq, join, suffix_from, to_bytes};

fn meta(dev: u64, ino: u64, is_file: bool) -> Metadata {
    Metadata { identity: NodeIdentity { dev, ino }, is_file }
}

#[test]
fn join_inserts_separator() {
    assert_eq!(join(b"/home/u", b".config"), b"/home/u/.config".to_vec());
}

#[test]
fn join_after_trailing_separator() {
    assert_eq!(join(b"/", b"etc"), b"/etc".to_vec());
    assert_eq!(join(b"/home/u/", b"x"), b"/home/u/x".to_vec());
}

#[test]
fn join_with_absolute_name_replaces() {
    assert_eq!(join(b"/home/u", b"/etc"), b"/etc".to_vec());
}

#[test]
fn join_onto_empty_directory() {
    assert_eq!(join(b"", b"a"), b"a".to_vec());
}

#[test]
fn byte_helpers() {
    assert!(bytes_eq(b"abc", b"abc"));
    assert!(!bytes_eq(b"abc", b"abd"));
    assert!(!bytes_eq(b"abc", b"ab"));
    assert_eq!(suffix_from(b"@key", 1), b"key".to_vec());
    assert_eq!(to_bytes(b"xy"), b"xy".to_vec());
}

#[test]
fn same_object_needs_equal_device_and_node() {
    assert!(same_object(Some(meta(1, 2, true)), Some(meta(1, 2, true))));
    assert!(same_object(Some(meta(1, 2, false)), Some(meta(1, 2, true))));
    assert!(!same_object(Some(meta(1, 2, true)), Some(meta(1, 3, true))));
    assert!(!same_object(Some(meta(1, 2, true)), Some(meta(4, 2, true))));
}

#[test]
fn same_object_false_when_a_read_failed() {
    assert!(!same_object(None, Some(meta(1, 2, true))));
    assert!(!same_object(Some(meta(1, 2, true)), None));
    assert!(!same_object(None, None));
}
