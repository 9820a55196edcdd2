use mirror_sync::url::{path, url, AddressError, LocalPath};

fn comps(p: &LocalPath) -> Vec<String> {
    p.components().clone()
}

fn owned(v: &[&str]) -> Vec<String> {
    v.iter().map(|s| s.to_string()).collect()
}

#[test]
fn path_splits_host_and_segments() {
    let p = path("https://libraries.minecraft.net/org/lwjgl/lwjgl-3.3.1.jar").unwrap();
    assert_eq!(comps(&p), owned(&["libraries.minecraft.net", "org", "lwjgl", "lwjgl-3.3.1.jar"]));
}

#[test]
fn path_decodes_segments() {
    let p = path("https://host/dir/a%20b.txt").unwrap();
    assert_eq!(comps(&p), owned(&["host", "dir", "a b.txt"]));
}

#[test]
fn path_of_bare_host() {
    let p = path("https://host").unwrap();
    assert_eq!(comps(&p), owned(&["host"]));
}

#[test]
fn path_accepts_other_schemes() {
    let p = path("http://a/b").unwrap();
    assert_eq!(comps(&p), owned(&["a", "b"]));
    let q = path("git+ssh://host/x%20y").unwrap();
    assert_eq!(comps(&q), owned(&["host", "x y"]));
}

#[test]
fn path_rejects_missing_or_bad_scheme() {
    assert_eq!(path("//host/a").err(), Some(AddressError::MalformedAddress));
    assert_eq!(path("1http://host/a").err(), Some(AddressError::MalformedAddress));
    assert_eq!(path("https:/host/a").err(), Some(AddressError::MalformedAddress));
}

#[test]
fn path_rejects_missing_host() {
    assert_eq!(path("https:///a").err(), Some(AddressError::MalformedAddress));
    assert_eq!(path("not a url").err(), Some(AddressError::MalformedAddress));
}

#[test]
fn path_rejects_port_user_info_query_in_host() {
    assert_eq!(path("https://h:8080/x").err(), Some(AddressError::MalformedAddress));
    assert_eq!(path("https://u@h/x").err(), Some(AddressError::MalformedAddress));
    assert_eq!(path("https://h?q=1").err(), Some(AddressError::MalformedAddress));
    assert_eq!(path("https://h#frag").err(), Some(AddressError::MalformedAddress));
}

#[test]
fn path_rejects_empty_and_dot_segments() {
    assert_eq!(path("https://host/a//b").err(), Some(AddressError::MalformedAddress));
    assert_eq!(path("https://host/a/").err(), Some(AddressError::MalformedAddress));
    assert_eq!(path("https://host/../etc").err(), Some(AddressError::MalformedAddress));
}

#[test]
fn path_rejects_non_canonical_encoding() {
    assert_eq!(path("https://host/a%2Db").err(), Some(AddressError::MalformedAddress));
    assert_eq!(path("https://host/a b").err(), Some(AddressError::MalformedAddress));
    assert_eq!(path("https://host/a%2Fb").err(), Some(AddressError::MalformedAddress));
}

#[test]
fn url_encodes_components() {
    let p = LocalPath::new(owned(&["host", "dir", "a b.txt"])).unwrap();
    assert_eq!(url(&p), "https://host/dir/a%20b.txt");
}

#[test]
fn url_of_bare_host() {
    let p = LocalPath::new(owned(&["host"])).unwrap();
    assert_eq!(url(&p), "https://host");
}

#[test]
fn local_path_rejects_bad_components() {
    assert_eq!(LocalPath::new(vec![]).err(), Some(AddressError::MalformedPath));
    assert_eq!(LocalPath::new(owned(&["host", "a/b"])).err(), Some(AddressError::MalformedPath));
    assert_eq!(LocalPath::new(owned(&["host", ""])).err(), Some(AddressError::MalformedPath));
    assert_eq!(LocalPath::new(owned(&["..", "a"])).err(), Some(AddressError::MalformedPath));
    assert_eq!(LocalPath::new(owned(&["h:80", "a"])).err(), Some(AddressError::MalformedPath));
}

#[test]
fn path_then_url_round_trip() {
    for a in [
        "https://piston-meta.mojang.com/mc/game/version_manifest_v2.json",
        "https://host/dir/a%20b.txt",
        "https://host/%C3%A9t%C3%A9",
        "https://host",
    ] {
        let p = path(a).unwrap();
        assert_eq!(url(&p), a);
    }
}

#[test]
fn other_scheme_round_trips_to_same_host_and_segments() {
    let p = path("http://a/b%20c").unwrap();
    let back = url(&p);
    assert_eq!(back, "https://a/b%20c");
    assert_eq!(comps(&path(&back).unwrap()), comps(&p));
}

#[test]
fn url_then_path_round_trip() {
    for c in [
        owned(&["host"]),
        owned(&["host", "a b", "c+d", "é"]),
        owned(&["resources.download.minecraft.net", "de", "deadbeef"]),
    ] {
        let p = LocalPath::new(c.clone()).unwrap();
        let back = path(&url(&p)).unwrap();
        assert_eq!(comps(&back), c);
    }
}

#[test]
fn display_joins_with_slash() {
    let p = LocalPath::new(owned(&["host", "a b", "c"])).unwrap();
    assert_eq!(p.display(), "host/a b/c");
    assert_eq!(p.len(), 3);
    assert_eq!(comps(&p.duplicate()), comps(&p));
}
