use pnp::builtins::is_nodejs_builtin;
use pnp::collections::{OrderedMap, PathTrie};
use pnp::text::{chars_of, join_range, same_text, split_chars, string_of};
use pnp::{
    ancestors_of, find_closest_pnp_manifest_path, first_manifest_in, resolve_to_unqualified, Error,
    Resolution,
};

#[test]
fn ordered_map_keeps_the_order_of_keys() {
    let mut m: OrderedMap<u32> = OrderedMap::new();
    m.insert("b".to_string(), 1);
    m.insert("a".to_string(), 2);
    m.insert("b".to_string(), 3);
    assert_eq!(m.len(), 2);
    assert_eq!(m.key_list(), vec!["b", "a"]);
    assert_eq!(m.get("b"), Some(&3));
    assert_eq!(m.get("a"), Some(&2));
    assert_eq!(m.get("c"), None);
    assert_eq!(m.find("a"), Some(1));
    assert_eq!(m.key_at(0), "b");
    assert_eq!(*m.value_at(1), 2);
    *m.value_at_mut(1) = 9;
    assert_eq!(m.get("a"), Some(&9));
    let n = OrderedMap::from_pairs(vec![("x".to_string(), 1), ("y".to_string(), 2), ("x".to_string(), 3)]);
    assert_eq!(n.key_list(), vec!["x", "y"]);
    assert_eq!(n.get("x"), Some(&3));
}

#[test]
fn trie_finds_the_nearest_directory() {
    let mut t: PathTrie<u32> = PathTrie::new();
    assert_eq!(t.get_ancestor_value("/a/b"), None);
    t.insert("/a", 1);
    t.insert("/a/b/", 2);
    t.insert("/a/b/../c", 3);
    assert_eq!(t.get_ancestor_value("/a"), Some(&1));
    assert_eq!(t.get_ancestor_value("/a/x/y"), Some(&1));
    assert_eq!(t.get_ancestor_value("/a/b"), Some(&2));
    assert_eq!(t.get_ancestor_value("/a/b/x.js"), Some(&2));
    assert_eq!(t.get_ancestor_value("/a/bc"), Some(&1));
    assert_eq!(t.get_ancestor_value("/a/c/d"), Some(&3));
    assert_eq!(t.get_ancestor_value("/b"), None);
    t.insert("/a/b", 4);
    assert_eq!(t.get_ancestor_value("/a/./b/z"), Some(&4));
    t.insert("/é/ü", 5);
    assert_eq!(t.get_ancestor_value("/é/ü/x"), Some(&5));
    assert_eq!(t.get_ancestor_value("/é/u"), None);
}

#[test]
fn text_splits_and_joins() {
    let s = chars_of("a/b\\c//d");
    let parts: Vec<String> = split_chars(&s, false).iter().map(string_of).collect();
    assert_eq!(parts, vec!["a", "b\\c", "", "d"]);
    let both = split_chars(&s, true);
    let parts: Vec<String> = both.iter().map(string_of).collect();
    assert_eq!(parts, vec!["a", "b", "c", "", "d"]);
    assert_eq!(string_of(&join_range(&both, 1, 4)), "b/c/");
    assert_eq!(string_of(&join_range(&both, 2, 2)), "");
    assert!(same_text("é", "é"));
    assert!(!same_text("a", "ab"));
}

#[test]
fn node_builtins_are_known() {
    for name in ["fs", "path", "fs/promises", "_http_agent", "zlib", "worker_threads"] {
        assert!(is_nodejs_builtin(name), "{name}");
    }
    for name in ["", "lodash", "fs/", "FS", "node:fs", "fs/promises/x"] {
        assert!(!is_nodejs_builtin(name), "{name}");
    }
}

#[test]
fn the_closest_manifest_is_found_upwards() {
    let there = |p: &str| p == "/p/.pnp.cjs" || p == "/.pnp.cjs";
    assert_eq!(find_closest_pnp_manifest_path("/p/a/b/file.js", there), Some("/p/.pnp.cjs".to_string()));
    assert_eq!(find_closest_pnp_manifest_path("/p", there), Some("/p/.pnp.cjs".to_string()));
    assert_eq!(find_closest_pnp_manifest_path("/q/a", there), Some("/.pnp.cjs".to_string()));
    assert_eq!(find_closest_pnp_manifest_path("/q/a", |_: &str| false), None);
    assert_eq!(find_closest_pnp_manifest_path("rel/a", |p: &str| p == ".pnp.cjs"), Some(".pnp.cjs".to_string()));
}

#[test]
fn resolution_without_a_manifest_is_skipped() {
    let r = resolve_to_unqualified("lodash", "/p/a.js", |_: &str| Ok(None));
    assert!(matches!(r, Ok(Resolution::Skipped)));
    let failing = |p: &str| Err(pnp::loader::unreadable_manifest("gone", p));
    match resolve_to_unqualified("lodash", "/p/a.js", failing) {
        Err(Error::FailedManifestHydration(e)) => assert_eq!(e.manifest_path, "/p/a.js"),
        other => panic!("{other:?}"),
    }
}

#[test]
fn directories_upwards_and_the_first_manifest() {
    assert_eq!(ancestors_of("/p/a/b.js"), vec!["/p/a/b.js", "/p/a", "/p", "/"]);
    assert_eq!(ancestors_of("a/b"), vec!["a/b", "a", ""]);
    assert_eq!(ancestors_of(""), vec![""]);
    let dirs = vec!["/x/y".to_string(), "/x".to_string(), "/".to_string()];
    assert_eq!(first_manifest_in(&dirs, |p: &str| p.len() <= 11), Some("/x/.pnp.cjs".to_string()));
    assert_eq!(first_manifest_in(&dirs, |_: &str| true), Some("/x/y/.pnp.cjs".to_string()));
    assert_eq!(first_manifest_in(&dirs, |_: &str| false), None);
    assert_eq!(first_manifest_in(&Vec::new(), |_: &str| true), None);
}
