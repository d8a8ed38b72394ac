use pnp::util::{normalize_path, normalize_windows_path};

#[test]
fn test_normalize_path() {
    assert_eq!(normalize_path(""), ".");
    assert_eq!(normalize_path("/"), "/");
    assert_eq!(normalize_path("foo"), "foo");
    assert_eq!(normalize_path("foo/bar"), "foo/bar");
    assert_eq!(normalize_path("foo//bar"), "foo/bar");
    assert_eq!(normalize_path("foo/./bar"), "foo/bar");
    assert_eq!(normalize_path("foo/../bar"), "bar");
    assert_eq!(normalize_path("foo/..//bar"), "bar");
    assert_eq!(normalize_path("foo/bar/.."), "foo");
    assert_eq!(normalize_path("foo/../../bar"), "../bar");
    assert_eq!(normalize_path("../foo/../../bar"), "../../bar");
    assert_eq!(normalize_path("foo/../../bar"), "../bar");
    assert_eq!(normalize_path("./foo"), "foo");
    assert_eq!(normalize_path("../foo"), "../foo");
    assert_eq!(normalize_path("../D:/foo"), "../D:/foo");
    assert_eq!(normalize_path("/foo/bar"), "/foo/bar");
    assert_eq!(normalize_path("/foo/../../bar/baz"), "/bar/baz");
    assert_eq!(normalize_path("/../foo/bar"), "/foo/bar");
    assert_eq!(normalize_path("/../foo/bar//"), "/foo/bar/");
    assert_eq!(normalize_path("/foo/bar/"), "/foo/bar/");

    assert_eq!(normalize_windows_path("D:\\foo\\..\\bar"), "D:/bar");
    assert_eq!(normalize_windows_path("D:\\foo\\..\\..\\C:\\bar\\test"), "C:/bar/test");
    assert_eq!(normalize_windows_path("\\\\server-name\\foo\\..\\bar"), "\\\\server-name/bar");
    assert_eq!(
        normalize_windows_path("\\\\server-name\\foo\\..\\..\\..\\C:\\bar\\test"),
        "C:/bar/test"
    );
}

#[test]
fn normalize_keeps_a_trailing_separator() {
    assert_eq!(normalize_path("foo/bar/"), "foo/bar/");
    assert_eq!(normalize_path("foo\\bar\\"), "foo/bar/");
    assert_eq!(normalize_path("./"), ".");
    assert_eq!(normalize_path("//"), "/");
}

#[test]
fn normalize_is_idempotent_on_samples() {
    for p in ["", "/", "a/../..", "/a/./b//c/", "..\\..\\x", "/..", "a\\b/c"] {
        let once = normalize_path(p);
        assert_eq!(normalize_path(&once), once);
    }
}
