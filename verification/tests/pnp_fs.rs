use pnp::pnp_fs::{mode_to_file_type, path_to_pnp, FileType, PnpPath};

fn zip(archive: &str, inner: Option<&str>) -> Option<PnpPath> {
    Some(PnpPath::Zip(archive.to_string(), inner.map(|s| s.to_string())))
}

#[test]
fn test_path_to_pnp() {
    let tests: Vec<(&str, Option<PnpPath>)> = vec![
        (".zip", None),
        ("foo", None),
        ("foo.zip", zip("foo.zip", None)),
        ("foo.zip/bar", zip("foo.zip", Some("bar"))),
        ("foo.zip/bar/baz", zip("foo.zip", Some("bar/baz"))),
        ("/a/b/c/foo.zip", zip("/a/b/c/foo.zip", None)),
        ("./a/b/c/foo.zip", zip("./a/b/c/foo.zip", None)),
        ("./a/b/c/.zip", None),
        ("./a/b/c/foo.zipp", None),
        ("./a/b/c/foo.zip/bar/baz/qux.zip", zip("./a/b/c/foo.zip", Some("bar/baz/qux.zip"))),
        ("./a/b/c/foo.zip-bar.zip", zip("./a/b/c/foo.zip-bar.zip", None)),
        (
            "./a/b/c/foo.zip-bar.zip/bar/baz/qux.zip",
            zip("./a/b/c/foo.zip-bar.zip", Some("bar/baz/qux.zip")),
        ),
        (
            "./a/b/c/foo.zip-bar/foo.zip-bar/foo.zip-bar.zip/d",
            zip("./a/b/c/foo.zip-bar/foo.zip-bar/foo.zip-bar.zip", Some("d")),
        ),
    ];

    for (input, expected) in tests.iter() {
        let expectation: PnpPath = match expected {
            Some(p) => p.clone(),
            None => PnpPath::Native(input.to_string()),
        };

        match path_to_pnp(input) {
            Ok(res) => {
                assert_eq!(res, expectation, "input='{:?}'", input);
            }
            Err(err) => {
                panic!("{:?}: {:?}", input, err);
            }
        }
    }
}

#[test]
fn inner_paths_are_normalized() {
    assert_eq!(path_to_pnp("a.zip/x/../y//z").unwrap(), zip("a.zip", Some("y/z")).unwrap());
    assert_eq!(path_to_pnp("a.zip/").unwrap(), zip("a.zip", None).unwrap());
    assert_eq!(path_to_pnp("").unwrap(), PnpPath::Native(String::new()));
}

#[test]
fn a_bare_extension_in_a_segment_is_native() {
    assert_eq!(path_to_pnp("a/.zip-x/b.zip/c").unwrap(), PnpPath::Native("a/.zip-x/b.zip/c".to_string()));
}

#[test]
fn modes_tell_nothing() {
    assert_eq!(mode_to_file_type(0), FileType::Unknown);
    assert_eq!(mode_to_file_type(0o040755), FileType::Unknown);
    assert_eq!(mode_to_file_type(0o100644), FileType::Unknown);
}
