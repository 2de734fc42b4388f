use rpki::rsync::{is_uri_ascii, Module, Uri, UriError};

fn uri(s: &str) -> Uri {
    Uri::from_slice(s.as_bytes()).unwrap()
}

#[test]
fn formatting_a_parsed_uri_gives_it_back() {
    let s = "rsync://host/mod/a/b.cer";
    let u = Uri::from_bytes(s.as_bytes().to_vec()).unwrap();
    assert_eq!(u.to_string(), s);
    assert_eq!(u.module().authority(), "host");
    assert_eq!(u.module().module(), "mod");
    assert_eq!(u.path(), "a/b.cer");
}

#[test]
fn module_root_keeps_trailing_slash() {
    let u = uri("rsync://host/mod/");
    assert_eq!(u.path(), "");
    assert_eq!(u.to_string(), "rsync://host/mod/");
    let u = uri("rsync://host/mod");
    assert_eq!(u.path(), "");
    assert_eq!(u.to_string(), "rsync://host/mod/");
    assert_eq!(u.to_module().to_string(), "rsync://host/mod/");
}

#[test]
fn parent_walks_up_to_the_root() {
    let u = uri("rsync://host/mod/a/b.cer");
    let p = u.parent().unwrap();
    assert_eq!(p.to_string(), "rsync://host/mod/a");
    let root = p.parent().unwrap();
    assert_eq!(root.to_string(), "rsync://host/mod/");
    assert_eq!(root.parent(), None);
    let dir = uri("rsync://host/mod/a/b/");
    assert_eq!(dir.parent().unwrap().to_string(), "rsync://host/mod/a/b");
}

#[test]
fn join_then_parent_is_identity() {
    let root = uri("rsync://host/mod/");
    assert_eq!(root.join(b"a").parent().unwrap(), root);
    let u = uri("rsync://host/mod/x/y");
    let j = u.join(b"a");
    assert_eq!(j.to_string(), "rsync://host/mod/x/y/a");
    assert_eq!(j.parent().unwrap(), u);
    let s = uri("rsync://host/mod/x/");
    assert_eq!(s.join(b"a").to_string(), "rsync://host/mod/x/a");
}

#[test]
fn rejects_forbidden_bytes() {
    assert_eq!(Uri::from_slice(b"rsync://host/mod/a b"), Err(UriError::NotAscii));
    assert_eq!(Uri::from_slice(b"rsync://host/mod/a#b"), Err(UriError::NotAscii));
    assert_eq!(Uri::from_slice(b"rsync://host/mod/a\x7F"), Err(UriError::NotAscii));
    assert_eq!(Uri::from_slice(b"rsync://host/mod/\xC3\xA4"), Err(UriError::NotAscii));
    assert!(!is_uri_ascii(b"a{b"));
    assert!(is_uri_ascii(b"a.b-c_d~e"));
}

#[test]
fn rejects_other_schemes_and_short_uris() {
    assert_eq!(Uri::from_slice(b"https://host/mod/a"), Err(UriError::BadScheme));
    assert_eq!(Uri::from_slice(b"rsync:/host/mod/a"), Err(UriError::BadScheme));
    assert_eq!(Uri::from_slice(b"rsync://host"), Err(UriError::BadUri));
    assert_eq!(Uri::from_slice(b"rsync://"), Err(UriError::BadUri));
}

#[test]
fn path_is_not_normalised() {
    let u = uri("rsync://host/mod/a//../b");
    assert_eq!(u.path(), "a//../b");
    assert!(u.ends_with("b"));
    let c = uri("rsync://host/mod/ta.cer");
    assert!(c.ends_with(".cer"));
    assert!(!c.ends_with(".mft"));
    assert!(!c.ends_with("long-extension.cer"));
}

#[test]
fn module_built_from_parts() {
    let m = Module::new(b"host".to_vec(), b"repo".to_vec());
    assert_eq!(m.to_uri().to_string(), "rsync://host/repo/");
    let u = Uri::new(m, b"x.roa".to_vec());
    assert_eq!(u, uri("rsync://host/repo/x.roa"));
}
