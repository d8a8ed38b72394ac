use pnp::collections::OrderedMap;
use pnp::manifest::{
    init_pnp_manifest, init_pnp_manifest_in, references_from_pairs, registry_from_pairs,
};
use pnp::util::RegexDef;
use pnp::{
    resolve_to_unqualified, find_broken_peer_dependencies, find_locator, get_package, is_dependency_tree_root,
    is_excluded_from_fallback, parse_bare_identifier, resolve_to_unqualified_via_manifest,
    resolve_with, Error, Manifest, PackageDependency, PackageInformation, PackageLocator,
    Resolution,
};

fn reference(r: &str) -> Option<PackageDependency> {
    Some(PackageDependency::Reference(r.to_string()))
}

fn alias(n: &str, r: &str) -> Option<PackageDependency> {
    Some(PackageDependency::Alias(n.to_string(), r.to_string()))
}

fn package(location: &str, discard: bool, deps: &[(&str, Option<PackageDependency>)]) -> PackageInformation {
    PackageInformation {
        package_location: location.to_string(),
        discard_from_lookup: discard,
        package_dependencies: OrderedMap::from_pairs(
            deps.iter().map(|(n, d)| (n.to_string(), d.clone())).collect(),
        ),
    }
}

fn locator(name: &str, reference: &str) -> PackageLocator {
    PackageLocator { name: name.to_string(), reference: reference.to_string() }
}

fn sample(fallback: bool, pattern: Option<&str>) -> Manifest {
    let registry = registry_from_pairs(vec![
        (
            None,
            references_from_pairs(vec![(
                None,
                package("./", false, &[("top-only", reference("1.0.0")), ("peer-top", None)]),
            )]),
        ),
        (
            Some("pkgA".to_string()),
            references_from_pairs(vec![(
                Some("workspace:pkgA".to_string()),
                package(
                    "./pkgA/",
                    false,
                    &[
                        ("lodash", reference("4.17.0")),
                        ("@scope/tool", alias("tool-impl", "2.0.0")),
                        ("peer", None),
                        ("ghost", reference("0.0.0")),
                    ],
                ),
            )]),
        ),
        (
            Some("pkgB".to_string()),
            references_from_pairs(vec![(
                Some("workspace:pkgB".to_string()),
                package("./pkgB/", false, &[]),
            )]),
        ),
        (
            Some("lodash".to_string()),
            references_from_pairs(vec![(
                Some("4.17.0".to_string()),
                package("./.yarn/cache/lodash/", false, &[]),
            )]),
        ),
        (
            Some("tool-impl".to_string()),
            references_from_pairs(vec![(
                Some("2.0.0".to_string()),
                package("./.yarn/cache/tool/", false, &[]),
            )]),
        ),
        (
            Some("top-only".to_string()),
            references_from_pairs(vec![(
                Some("1.0.0".to_string()),
                package("/elsewhere/top-only/", false, &[]),
            )]),
        ),
        (
            Some("hidden".to_string()),
            references_from_pairs(vec![(
                Some("1.0.0".to_string()),
                package("./hidden/", true, &[]),
            )]),
        ),
    ]);
    let mut manifest = Manifest::new(
        fallback,
        pattern.map(|p| RegexDef::parse(p).unwrap()),
        vec![locator("", ""), locator("pkgA", "workspace:pkgA")],
        OrderedMap::from_pairs(vec![("pool-only".to_string(), reference("1.0.0"))]),
        OrderedMap::from_pairs(vec![("pkgB".to_string(), vec!["workspace:pkgB".to_string()])]),
        registry,
    );
    init_pnp_manifest(&mut manifest, "/p/.pnp.cjs").unwrap();
    manifest
}

fn resolved(r: Result<Resolution, Error>) -> (String, Option<String>) {
    match r {
        Ok(Resolution::Resolved(location, subpath)) => (location, subpath),
        other => panic!("{other:?}"),
    }
}

#[test]
fn declared_dependency_resolves() {
    let manifest = sample(false, None);
    let r = resolve_to_unqualified_via_manifest(&manifest, "lodash", "/p/pkgA/file.js");
    assert_eq!(resolved(r), ("/p/.yarn/cache/lodash/".to_string(), None));
    let r = resolve_to_unqualified_via_manifest(&manifest, "lodash/fp/get", "/p/pkgA/src/deep/file.js");
    assert_eq!(resolved(r), ("/p/.yarn/cache/lodash/".to_string(), Some("fp/get".to_string())));
}

#[test]
fn alias_resolves_to_the_named_package() {
    let manifest = sample(false, None);
    let r = resolve_to_unqualified_via_manifest(&manifest, "@scope/tool/bin", "/p/pkgA/file.js");
    assert_eq!(resolved(r), ("/p/.yarn/cache/tool/".to_string(), Some("bin".to_string())));
}

#[test]
fn undeclared_dependency_is_reported() {
    let manifest = sample(false, None);
    let r = resolve_to_unqualified_via_manifest(&manifest, "unlisted", "/p/pkgB/file.js");
    match r {
        Err(Error::UndeclaredDependency(e)) => {
            assert_eq!(e.dependency_name, "unlisted");
            assert_eq!(e.request, "unlisted");
            assert_eq!(e.issuer_locator, locator("pkgB", "workspace:pkgB"));
            assert_eq!(e.issuer_path, "/p/pkgB/file.js");
            assert_eq!(
                e.message,
                "pkgB tried to access unlisted, but it isn't declared in its dependencies; this makes the require call ambiguous and unsound.\n\nRequired package: unlisted\nRequired by: pkgB@workspace:pkgB (via /p/pkgB/file.js)"
            );
        }
        other => panic!("{other:?}"),
    }
}

#[test]
fn undeclared_dependency_of_a_root_names_the_application() {
    let manifest = sample(false, None);
    let r = resolve_to_unqualified_via_manifest(&manifest, "unlisted/sub", "/p/pkgA/file.js");
    let e = r.unwrap_err();
    assert_eq!(
        e.message(),
        "Your application tried to access unlisted, but it isn't declared in your dependencies; this makes the require call ambiguous and unsound.\n\nRequired package: unlisted (via \"unlisted/sub\")\nRequired by: /p/pkgA/file.js"
    );
}

#[test]
fn builtin_names_change_the_wording_only() {
    let manifest = sample(false, None);
    let e = resolve_to_unqualified_via_manifest(&manifest, "fs", "/p/pkgB/file.js").unwrap_err();
    assert!(matches!(e, Error::UndeclaredDependency(_)));
    assert_eq!(
        e.message(),
        "$pkgB tried to access fs. While this module is usually interpreted as a Node builtin, your resolver is running inside a non-Node resolution context where such builtins are ignored. Since fs isn't otherwise declared in $pkgB's dependencies, this makes the require call ambiguous and unsound.\n\nRequired package: fs\nRequired by: $/p/pkgB/file.js"
    );
    let e = resolve_to_unqualified_via_manifest(&manifest, "fs", "/p/file.js").unwrap_err();
    assert_eq!(
        e.message(),
        "Your application tried to access fs. While this module is usually interpreted as a Node builtin, your resolver is running inside a non-Node resolution context where such builtins are ignored. Since fs isn't otherwise declared in your dependencies, this makes the require call ambiguous and unsound.\n\nRequired package: fs\nRequired by: $/p/file.js"
    );
}

#[test]
fn missing_peer_dependency_is_reported() {
    let manifest = sample(true, None);
    let r = resolve_to_unqualified_via_manifest(&manifest, "peer", "/p/pkgA/file.js");
    match r {
        Err(Error::MissingPeerDependency(e)) => {
            assert_eq!(e.dependency_name, "peer");
            assert_eq!(e.issuer_locator, locator("pkgA", "workspace:pkgA"));
            assert!(e.broken_ancestors.is_empty());
            assert_eq!(
                e.message,
                "Your application tried to access peer (a peer dependency); this isn't allowed as there is no ancestor to satisfy the requirement. Use a devDependency if needed.\n\nRequired package: peer\nRequired by: /p/pkgA/file.js"
            );
        }
        other => panic!("{other:?}"),
    }
}

#[test]
fn missing_package_is_reported() {
    let manifest = sample(false, None);
    let r = resolve_to_unqualified_via_manifest(&manifest, "ghost", "/p/pkgA/file.js");
    match r {
        Err(Error::MissingDependency(e)) => {
            assert_eq!(e.dependency_locator, locator("ghost", "0.0.0"));
            assert_eq!(e.dependency_name, "ghost");
            assert_eq!(e.issuer_locator, locator("pkgA", "workspace:pkgA"));
            assert_eq!(
                e.message,
                "A dependency seems valid but didn't get installed for some reason. This might be caused by a partial install, such as dev vs prod.\n\nRequired package: ghost@0.0.0\nRequired by: pkgA@workspace:pkgA (via /p/pkgA/file.js)"
            );
        }
        other => panic!("{other:?}"),
    }
}

#[test]
fn bad_specifier_is_reported() {
    let manifest = sample(false, None);
    let r = resolve_to_unqualified_via_manifest(&manifest, "@scope", "/p/pkgA/file.js");
    match r {
        Err(Error::BadSpecifier(e)) => {
            assert_eq!(e.message, "Invalid specifier");
            assert_eq!(e.specifier, "@scope");
        }
        other => panic!("{other:?}"),
    }
}

#[test]
fn fallback_pool_serves_what_is_not_declared() {
    let on = sample(true, None);
    let off = sample(false, None);
    let hit = ("/elsewhere/top-only/".to_string(), None);
    assert_eq!(resolved(resolve_to_unqualified_via_manifest(&on, "top-only", "/p/pkgA/x.js")), hit);
    assert_eq!(resolved(resolve_to_unqualified_via_manifest(&on, "top-only", "/p/x.js")), hit);
    assert_eq!(resolved(resolve_to_unqualified_via_manifest(&off, "top-only", "/p/x.js")), hit);
    assert!(matches!(
        resolve_to_unqualified_via_manifest(&off, "top-only", "/p/pkgA/x.js"),
        Err(Error::UndeclaredDependency(_))
    ));
    assert!(matches!(
        resolve_to_unqualified_via_manifest(&on, "top-only", "/p/pkgB/x.js"),
        Err(Error::UndeclaredDependency(_))
    ));
    assert!(matches!(
        resolve_to_unqualified_via_manifest(&on, "peer-top", "/p/pkgA/x.js"),
        Err(Error::MissingPeerDependency(_))
    ));
}

#[test]
fn hydration_fills_the_pool_without_overriding_it() {
    let manifest = sample(true, None);
    assert_eq!(manifest.fallback_pool.key_list(), vec!["pool-only", "top-only", "peer-top"]);
    assert_eq!(manifest.manifest_dir, "/p");
    assert_eq!(manifest.manifest_path, "/p/.pnp.cjs");
}

#[test]
fn issuers_outside_every_package_are_skipped() {
    let manifest = sample(true, None);
    assert!(matches!(
        resolve_to_unqualified_via_manifest(&manifest, "lodash", "/other/file.js"),
        Ok(Resolution::Skipped)
    ));
    assert!(find_locator(&manifest, "/other/file.js").is_none());
}

#[test]
fn packages_kept_out_of_lookup_own_nothing() {
    let manifest = sample(true, None);
    assert_eq!(find_locator(&manifest, "/p/hidden/file.js"), Some(&locator("", "")));
    assert_eq!(find_locator(&manifest, "/p/pkgA"), Some(&locator("pkgA", "workspace:pkgA")));
    assert_eq!(find_locator(&manifest, "/p/pkgAB/x"), Some(&locator("", "")));
    assert_eq!(
        get_package(&manifest, &locator("hidden", "1.0.0")).unwrap().package_location,
        "/p/hidden/"
    );
    assert!(get_package(&manifest, &locator("hidden", "2.0.0")).is_none());
    assert!(get_package(&manifest, &locator("nobody", "1.0.0")).is_none());
}

#[test]
fn package_roots_find_their_packages() {
    let manifest = sample(true, None);
    for (name, reference) in [("", ""), ("pkgA", "workspace:pkgA"), ("lodash", "4.17.0"), ("top-only", "1.0.0")] {
        let at = locator(name, reference);
        let root = get_package(&manifest, &at).unwrap().package_location.clone();
        assert_eq!(find_locator(&manifest, &root), Some(&at));
    }
}

#[test]
fn ignored_paths_are_skipped() {
    let manifest = sample(true, Some("^pkgA\\/vendor\\/"));
    assert_eq!(manifest.ignore_pattern_data.as_ref().unwrap().pattern(), "^pkgA/vendor/");
    assert!(find_locator(&manifest, "/p/pkgA/vendor/x.js").is_none());
    assert!(matches!(
        resolve_to_unqualified_via_manifest(&manifest, "lodash", "/p/pkgA/vendor/x.js"),
        Ok(Resolution::Skipped)
    ));
    assert_eq!(find_locator(&manifest, "/p/pkgA/src/x.js"), Some(&locator("pkgA", "workspace:pkgA")));
    assert!(find_locator(&manifest, "/p/pkgA/../pkgA/./vendor/x.js").is_none());
}

#[test]
fn roots_and_exclusions() {
    let manifest = sample(true, None);
    assert!(is_dependency_tree_root(&manifest, &locator("", "")));
    assert!(is_dependency_tree_root(&manifest, &locator("pkgA", "workspace:pkgA")));
    assert!(!is_dependency_tree_root(&manifest, &locator("pkgA", "other")));
    assert!(is_excluded_from_fallback(&manifest, &locator("pkgB", "workspace:pkgB")));
    assert!(!is_excluded_from_fallback(&manifest, &locator("pkgB", "other")));
    assert!(!is_excluded_from_fallback(&manifest, &locator("pkgA", "workspace:pkgA")));
    assert!(find_broken_peer_dependencies("peer", &locator("", "")).is_empty());
}

#[test]
fn the_search_for_a_manifest_decides_first() {
    assert!(matches!(resolve_with(Ok(None), "lodash", "/p/pkgA/x.js"), Ok(Resolution::Skipped)));
    let failure = pnp::loader::hydration_failure("broken", "/p/.pnp.cjs");
    assert_eq!(resolve_with(Err(failure.clone()), "lodash", "/p/pkgA/x.js").unwrap_err(), failure);
    let r = resolve_with(Ok(Some(sample(false, None))), "lodash", "/p/pkgA/x.js");
    assert_eq!(resolved(r), ("/p/.yarn/cache/lodash/".to_string(), None));
}

#[test]
fn resolution_gives_the_same_twice() {
    let manifest = sample(true, None);
    for (specifier, parent) in [("lodash", "/p/pkgA/a.js"), ("nope", "/p/pkgB/b.js"), ("@x", "/p/c.js")] {
        let one = resolve_to_unqualified_via_manifest(&manifest, specifier, parent);
        let two = resolve_to_unqualified_via_manifest(&manifest, specifier, parent);
        assert_eq!(format!("{one:?}"), format!("{two:?}"));
    }
}

#[test]
fn hydration_needs_a_directory_and_the_top_level() {
    let mut manifest = sample(false, None);
    match init_pnp_manifest(&mut manifest, "/") {
        Err(Error::FailedManifestHydration(e)) => {
            assert_eq!(e.message, "The manifest path should have a parent directory");
            assert_eq!(e.manifest_path, "/");
        }
        other => panic!("{other:?}"),
    }
    let mut bare = Manifest::new(
        false,
        None,
        Vec::new(),
        OrderedMap::new(),
        OrderedMap::new(),
        registry_from_pairs(vec![(
            Some("a".to_string()),
            references_from_pairs(vec![(None, package("./a", false, &[]))]),
        )]),
    );
    match init_pnp_manifest(&mut bare, "/p/.pnp.cjs") {
        Err(Error::FailedManifestHydration(e)) => {
            assert_eq!(e.message, "The manifest should list the top-level package");
        }
        other => panic!("{other:?}"),
    }
    assert_eq!(bare.manifest_path, "");
}

#[test]
fn specifiers_part_into_name_and_path() {
    let ok = |s: &str| parse_bare_identifier(s).unwrap();
    assert_eq!(ok("lodash"), ("lodash".to_string(), None));
    assert_eq!(ok("lodash/fp"), ("lodash".to_string(), Some("fp".to_string())));
    assert_eq!(ok("lodash/fp/get"), ("lodash".to_string(), Some("fp/get".to_string())));
    assert_eq!(ok("lodash/"), ("lodash".to_string(), Some("".to_string())));
    assert_eq!(ok(""), ("".to_string(), None));
    assert_eq!(ok("@scope/name"), ("@scope/name".to_string(), None));
    assert_eq!(ok("@scope/name/a/b"), ("@scope/name".to_string(), Some("a/b".to_string())));
    assert_eq!(ok("@scope/"), ("@scope/".to_string(), None));
    assert!(matches!(parse_bare_identifier("@scope"), Err(Error::BadSpecifier(_))));
    assert!(matches!(parse_bare_identifier("@"), Err(Error::BadSpecifier(_))));
}

#[test]
fn a_host_may_keep_its_manifest() {
    let kept = sample(true, None);
    let copy = kept.clone();
    assert_eq!(copy.package_registry_data.key_list(), kept.package_registry_data.key_list());
    let host = move |_: &str| Ok(Some(kept.clone()));
    for _ in 0..3 {
        let r = resolve_to_unqualified("lodash/fp", "/p/pkgA/file.js", &host);
        assert_eq!(resolved(r), ("/p/.yarn/cache/lodash/".to_string(), Some("fp".to_string())));
    }
    assert_eq!(find_locator(&copy, "/p/pkgB/x"), Some(&locator("pkgB", "workspace:pkgB")));
}

#[test]
fn hydration_settles_locations_against_the_given_directory() {
    let mut manifest = Manifest::new(
        false,
        None,
        Vec::new(),
        OrderedMap::new(),
        OrderedMap::new(),
        registry_from_pairs(vec![(
            None,
            references_from_pairs(vec![(None, package("./lib/../src/", false, &[("x", None)]))]),
        )]),
    );
    init_pnp_manifest_in(&mut manifest, "anything", Some("/work/app".to_string())).unwrap();
    assert_eq!(manifest.manifest_path, "anything");
    assert_eq!(manifest.manifest_dir, "/work/app");
    assert_eq!(get_package(&manifest, &locator("", "")).unwrap().package_location, "/work/app/src/");
    assert_eq!(find_locator(&manifest, "/work/app/src/main.js"), Some(&locator("", "")));
    assert!(find_locator(&manifest, "/work/app/lib/main.js").is_none());
    assert_eq!(manifest.fallback_pool.get("x"), Some(&None));
    assert!(init_pnp_manifest_in(&mut manifest, "anything", None).is_err());
}
