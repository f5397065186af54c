use guardrail::{CanonicalPath, Order, SandboxPath};

fn canon(path: &str) -> CanonicalPath {
    CanonicalPath::from_bytes(path.as_bytes()).unwrap()
}

#[test]
fn only_resolved_paths_are_canonical() {
    assert!(CanonicalPath::from_bytes(b"/a/b").is_some());
    assert!(CanonicalPath::from_bytes(b"/").is_some());
    assert!(CanonicalPath::from_bytes(b"a/b").is_none());
    assert!(CanonicalPath::from_bytes(b"").is_none());
}

#[test]
fn a_path_covers_what_is_beneath_it() {
    assert!(canon("/a/b").starts_with(&canon("/a")));
    assert!(canon("/a").starts_with(&canon("/a")));
    assert!(canon("/a").starts_with(&canon("/")));
    assert!(!canon("/ab").starts_with(&canon("/a")));
    assert!(!canon("/a").starts_with(&canon("/a/b")));
}

#[test]
fn ancestors_are_prefixes() {
    let path = canon("/a/b/c");
    assert_eq!(path.depth(), 3);
    assert_eq!(path.parent(), Some(canon("/a/b")));
    assert_eq!(path.ancestor(1), canon("/a"));
    assert_eq!(path.ancestor(0), CanonicalPath::root());
    assert_eq!(CanonicalPath::root().parent(), None);
    assert_eq!(path.to_bytes(), b"/a/b/c".to_vec());
    assert_eq!(CanonicalPath::root().to_bytes(), b"/".to_vec());
}

#[test]
fn paths_are_ordered_by_component() {
    assert_eq!(canon("/a").compare(&canon("/a/b")), Order::Less);
    assert_eq!(canon("/a/b").compare(&canon("/a.b")), Order::Less);
    assert_eq!(canon("/b").compare(&canon("/a/z")), Order::Greater);
    assert_eq!(canon("/a/b").compare(&canon("/a/b")), Order::Equal);
    assert!(canon("/a/b").same(&canon("/a/b")));
    assert!(!canon("/a/b").same(&canon("/a/c")));
}

#[test]
fn sandbox_paths_keep_their_bytes() {
    assert_eq!(SandboxPath::from("/x y").bytes, b"/x y".to_vec());
    assert_eq!(SandboxPath::new(vec![0x2f, 0xff]).clone().bytes, vec![0x2f, 0xff]);
}
