use pnp::loader::{extract_manifest_payload, unparsable_manifest, unreadable_manifest};
use pnp::util::{
    from_portable_path, normalize_windows_path, strip_slash_escape, to_portable_path, RegexDef,
};
use pnp::Error;

fn payload(content: &str) -> String {
    extract_manifest_payload(content, "/p/.pnp.cjs").unwrap()
}

#[test]
fn payload_behind_the_state_marker() {
    assert_eq!(payload("const RAW_RUNTIME_STATE = '{\"a\":1}';\n"), "{\"a\":1}");
    assert_eq!(payload("x;\nconst\r\n  RAW_RUNTIME_STATE='{}'"), "{}");
    assert_eq!(payload("const RAW_RUNTIME_STATE =\n'[1,\\\n2]';"), "[1,\n2]");
}

#[test]
fn payload_behind_the_call_marker() {
    assert_eq!(payload("return hydrateRuntimeState(JSON.parse('{\"b\":[]}'), x)"), "{\"b\":[]}");
}

#[test]
fn payload_escapes_are_undone() {
    assert_eq!(payload("const RAW_RUNTIME_STATE = 'it\\'s \\\\ here\\n';"), "it's \\ heren");
    assert_eq!(payload("const RAW_RUNTIME_STATE = 'no end"), "no end");
    assert_eq!(payload("const RAW_RUNTIME_STATE = 'tail\\"), "tail");
}

#[test]
fn the_first_marker_counts() {
    let content = "hydrateRuntimeState(JSON.parse('one')) const RAW_RUNTIME_STATE = 'two'";
    assert_eq!(payload(content), "one");
    let content = "é const RAW_RUNTIME_STATE = 'after'";
    assert_eq!(payload(content), "after");
}

#[test]
fn files_without_marker_fail() {
    for content in ["", "constRAW_RUNTIME_STATE = '{}'", "const RAW_RUNTIME_STATE = \"{}\"", "hydrateRuntimeState(JSON.parse(\"{}\"))"] {
        match extract_manifest_payload(content, "/p/.pnp.cjs") {
            Err(Error::FailedManifestHydration(e)) => {
                assert_eq!(
                    e.message,
                    "We failed to locate the PnP data payload inside its manifest file. Did you manually edit the file?"
                );
                assert_eq!(e.manifest_path, "/p/.pnp.cjs");
            }
            other => panic!("{other:?}"),
        }
    }
}

#[test]
fn failures_of_reading_and_parsing() {
    assert_eq!(
        unreadable_manifest("gone", "/p/.pnp.cjs").message(),
        "We failed to read the content of the manifest.\n\nOriginal error: gone"
    );
    assert_eq!(
        unparsable_manifest("eof", "/p/.pnp.cjs").message(),
        "We failed to parse the PnP data payload as proper JSON; Did you manually edit the file?\n\nOriginal error: eof"
    );
}

#[test]
fn slash_escapes_are_stripped() {
    assert_eq!(strip_slash_escape("^a\\/b$"), "^a/b$");
    assert_eq!(strip_slash_escape("\\\\/"), "\\\\/");
    assert_eq!(strip_slash_escape("\\d+\\/\\/x\\"), "\\d+//x\\");
    assert_eq!(strip_slash_escape(""), "");
}

#[test]
fn patterns_are_checked_and_matched() {
    assert!(RegexDef::parse("(unclosed").is_none());
    let def = RegexDef::parse("^(?:\\.yarn\\/sdks(?:\\/(?!\\.{1,2}(?:\\/|$))(?:(?:(?!(?:^|\\/)\\.{1,2}(?:\\/|$)).)*?)|$))$").unwrap();
    assert!(def.is_match(".yarn/sdks/typescript/lib"));
    assert!(!def.is_match("src/index.js"));
    assert!(RegexDef::hit(Some(true)));
    assert!(!RegexDef::hit(Some(false)));
    assert!(!RegexDef::hit(None));
    assert_eq!(RegexDef::parse("a\\/b").unwrap().pattern(), "a/b");
    let copy = def.clone();
    assert_eq!(copy.pattern(), def.pattern());
    assert!(copy.is_match(".yarn/sdks"));
    let slow = RegexDef::parse("^(a+)+$").unwrap();
    assert!(!slow.is_match(&format!("{}b", "a".repeat(64))));
}

#[test]
fn windows_paths_have_a_portable_form() {
    assert_eq!(to_portable_path("D:\\foo"), "/D:\\foo");
    assert_eq!(to_portable_path("\\\\server\\share"), "/unc/server\\share");
    assert_eq!(to_portable_path("//./pipe/x"), "/unc/.dot/pipe/x");
    assert_eq!(to_portable_path("/usr/lib"), "/usr/lib");
    assert_eq!(to_portable_path("foo/D:/x"), "foo/D:/x");
    assert_eq!(to_portable_path("D:\\a\nb"), "D:\\a\nb");
    assert_eq!(from_portable_path("/D:/foo"), "D:/foo");
    assert_eq!(from_portable_path("/unc/server/share"), "\\\\server/share");
    assert_eq!(from_portable_path("/unc/.dot/pipe/x"), "\\\\.\\pipe/x");
    assert_eq!(from_portable_path("/usr/lib"), "/usr/lib");
    assert_eq!(from_portable_path("/uncle"), "/uncle");
}

#[test]
fn test_normalize_windows_path() {
    assert_eq!(normalize_windows_path("D:\\foo\\..\\bar"), "D:/bar");
    assert_eq!(normalize_windows_path("D:\\foo\\..\\..\\C:\\bar\\test"), "C:/bar/test");
    assert_eq!(normalize_windows_path("\\\\server-name\\foo\\..\\bar"), "\\\\server-name/bar");
    assert_eq!(
        normalize_windows_path("\\\\server-name\\foo\\..\\..\\..\\C:\\bar\\test"),
        "C:/bar/test"
    );
    assert_eq!(normalize_windows_path("foo/../bar"), "bar");
}
