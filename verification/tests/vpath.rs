use pnp::fs::{join_paths, VPath, VPathInfo, VirtualInfo, ZipInfo};
use pnp::util::normalize_path;

fn zip(base: &str, segments: Option<(&str, &str)>, inner: &str) -> VPath {
    VPath::Zip(ZipInfo {
        base_path: base.to_string(),
        virtual_segments: segments.map(|(a, b)| (a.to_string(), b.to_string())),
        zip_path: inner.to_string(),
    })
}

fn virt(base: &str, full: &str, resolved: &str) -> VPath {
    VPath::Virtual(VirtualInfo {
        base_path: base.to_string(),
        virtual_segments: (full.to_string(), resolved.to_string()),
    })
}

fn native(input: &str) -> VPath {
    VPath::Native(normalize_path(input))
}

fn classify(input: &str) -> VPath {
    VPath::from(input).unwrap()
}

#[test]
fn classify_native_paths() {
    for input in [
        ".zip",
        "foo",
        "foo.zip",
        "/a/b/c/foo.zip",
        "./a/b/c/foo.zip",
        "./a/b/c/.zip",
        "./a/b/c/foo.zipp",
        "./a/b/c/foo.zip-bar.zip",
    ] {
        assert_eq!(classify(input), native(input), "input={input:?}");
    }
    assert_eq!(classify(".zip"), VPath::Native(".zip".to_string()));
}

#[test]
fn classify_zip_paths() {
    assert_eq!(classify("foo.zip/bar"), zip("foo.zip", None, "bar"));
    assert_eq!(classify("foo.zip/bar/baz"), zip("foo.zip", None, "bar/baz"));
    assert_eq!(
        classify("./a/b/c/foo.zip/bar/baz/qux.zip"),
        zip("a/b/c/foo.zip", None, "bar/baz/qux.zip")
    );
    assert_eq!(
        classify("./a/b/c/foo.zip-bar.zip/bar/baz/qux.zip"),
        zip("a/b/c/foo.zip-bar.zip", None, "bar/baz/qux.zip")
    );
    assert_eq!(
        classify("./a/b/c/foo.zip-bar/foo.zip-bar/foo.zip-bar.zip/d"),
        zip("a/b/c/foo.zip-bar/foo.zip-bar/foo.zip-bar.zip", None, "d")
    );
}

#[test]
fn classify_virtual_paths() {
    assert_eq!(
        classify("./a/b/__virtual__/foo-abcdef/0/c/d"),
        virt("a/b", "__virtual__/foo-abcdef/0/c/d", "c/d")
    );
    assert_eq!(
        classify("./a/b/__virtual__/foo-abcdef/1/c/d"),
        virt("a", "b/__virtual__/foo-abcdef/1/c/d", "c/d")
    );
    assert_eq!(
        classify("a/$$virtual/foo-abcdef/1/c"),
        virt("", "a/$$virtual/foo-abcdef/1/c", "c")
    );
}

#[test]
fn classify_virtual_zip_paths() {
    assert_eq!(
        classify("./a/b/__virtual__/foo-abcdef/0/c/foo.zip/bar"),
        zip("a/b", Some(("__virtual__/foo-abcdef/0/c/foo.zip", "c/foo.zip")), "bar")
    );
    assert_eq!(
        classify("./a/b/__virtual__/foo-abcdef/1/c/foo.zip/bar"),
        zip("a", Some(("b/__virtual__/foo-abcdef/1/c/foo.zip", "c/foo.zip")), "bar")
    );
    assert_eq!(
        classify("/a/b/__virtual__/foo-abcdef/1/c/foo.zip/bar"),
        zip("/a", Some(("b/__virtual__/foo-abcdef/1/c/foo.zip", "c/foo.zip")), "bar")
    );
    assert_eq!(
        classify("/a/b/__virtual__/foo-abcdef/2/c/foo.zip/bar"),
        zip("/", Some(("a/b/__virtual__/foo-abcdef/2/c/foo.zip", "c/foo.zip")), "bar")
    );
    assert_eq!(
        classify("/__virtual__/foo-abcdef/2/c/foo.zip/bar"),
        zip("/", Some(("__virtual__/foo-abcdef/2/c/foo.zip", "c/foo.zip")), "bar")
    );
}

#[test]
fn depth_beyond_the_root_is_clamped() {
    assert_eq!(
        classify("/a/__virtual__/foo-abcdef/99999999999999999999999999/c"),
        virt("/", "a/__virtual__/foo-abcdef/99999999999999999999999999/c", "c")
    );
    assert_eq!(classify("a/__virtual__/foo-abcdef/7/c"), virt("", "a/__virtual__/foo-abcdef/7/c", "c"));
}

#[test]
fn malformed_markers_are_native() {
    for input in [
        "a/__virtual__/foo-abcdef/x/c",
        "a/__virtual__/foo/0/c",
        "a/__virtual__/-abcdef/0/c",
        "a/__virtual__/foo-/0/c",
        "a/__virtual__/foo-ABCDEF/0/c",
        "a/__virtual__/foo-abcdef/0",
        "a/__virtual__x/foo-abcdef/0/c",
    ] {
        assert_eq!(classify(input), native(input), "input={input:?}");
    }
}

#[test]
fn trailing_slash_after_zip_is_no_archive() {
    assert_eq!(classify("foo.zip/"), VPath::Native("foo.zip/".to_string()));
    assert_eq!(classify("a/.zip/b"), VPath::Native("a/.zip/b".to_string()));
}

#[test]
fn classify_agrees_with_its_normal_form() {
    for input in ["./a//b/../foo.zip/x", "\\a\\__virtual__\\p-0a\\1\\q", "", "/"] {
        assert_eq!(classify(input), classify(&normalize_path(input)));
    }
}

#[test]
fn virtual_base_and_tail_rejoin() {
    for input in ["./a/b/__virtual__/foo-abcdef/1/c/d", "/x/y/z/__virtual__/q-1/1/r/"] {
        match classify(input) {
            VPath::Virtual(info) => {
                let joined = format!("{}/{}", info.base_path, info.virtual_segments.0);
                assert_eq!(joined, normalize_path(input));
            }
            other => panic!("{other:?}"),
        }
    }
}

#[test]
fn the_root_and_the_empty_base_take_the_tail_as_it_is() {
    for (input, base) in [
        ("/a/__virtual__/x-ab/1/c", "/"),
        ("/__virtual__/x-ab/0/c", "/"),
        ("a/b/__virtual__/x-ab/2/c/", ""),
        ("__virtual__/x-ab/5/c", ""),
    ] {
        match classify(input) {
            VPath::Virtual(info) => {
                assert_eq!(info.base_path, base);
                let joined = format!("{}{}", info.base_path, info.virtual_segments.0);
                assert_eq!(joined, normalize_path(input));
            }
            other => panic!("{other:?}"),
        }
    }
}

#[test]
fn archive_paths_end_in_the_extension() {
    for input in ["x/foo.zip/a", "/a/b/__virtual__/foo-abcdef/1/c/foo.zip/bar", "foo.zip/bar.zip/baz"] {
        match classify(input) {
            VPath::Zip(info) => {
                assert!(!info.zip_path.is_empty());
                match info.virtual_segments {
                    None => assert!(info.base_path.ends_with(".zip") && info.base_path.len() > 4),
                    Some((full, resolved)) => {
                        assert!(full.ends_with(".zip"));
                        assert!(resolved.ends_with(".zip"));
                    }
                }
            }
            other => panic!("{other:?}"),
        }
    }
}

#[test]
fn physical_base_paths() {
    let info = VirtualInfo {
        base_path: "a".to_string(),
        virtual_segments: ("b/__virtual__/foo-abcdef/1/c/d".to_string(), "c/d".to_string()),
    };
    assert_eq!(info.physical_base_path(), "a/c/d");
    let info = ZipInfo {
        base_path: "/".to_string(),
        virtual_segments: Some(("a/__virtual__/f-0/1/c/foo.zip".to_string(), "c/foo.zip".to_string())),
        zip_path: "bar".to_string(),
    };
    assert_eq!(info.physical_base_path(), "/c/foo.zip");
    let info = ZipInfo { base_path: "x/foo.zip".to_string(), virtual_segments: None, zip_path: "bar".to_string() };
    assert_eq!(info.physical_base_path(), "x/foo.zip");
    assert_eq!(join_paths("", "c"), "c");
    assert_eq!(join_paths("a", "/c"), "/c");
    assert_eq!(join_paths("a", ""), "a/");
}
