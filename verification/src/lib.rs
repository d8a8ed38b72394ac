//! Plug'n'Play module resolution.
//!
//! Given a bare specifier such as `lodash/fp` and the path of the file that
//! asks for it, the resolver tells where the package stands on disk, as a
//! manifest written by the package manager declares it.
//!
//! * [`util`] brings paths to their normal form.
//! * [`fs`] classifies a path as native, virtual or inside a zip archive.
//! * [`zip`] indexes an archive and reads its entries; [`cache`] keeps
//!   opened archives.
//! * [`manifest`] and [`loader`] hold the manifest and make it ready for
//!   lookups; [`collections`] holds the maps and the trie it is made of.
//! * This module resolves: it parts the specifier, finds the package that
//!   owns the issuer, and looks the name up among what that package, or the
//!   top level in its place, depends on.
//!
//! Every function states what it returns over the views of its arguments:
//! texts are sequences of characters, archives are sequences of bytes.

pub mod builtins;
pub mod cache;
pub mod collections;
pub mod error;
pub mod fs;
pub mod loader;
pub mod manifest;
pub mod message;
pub mod pnp_fs;
pub mod text;
pub mod util;
pub mod zip;

pub use crate::error::{
    BadSpecifier, Error, ErrorView, FailedManifestHydration, MissingDependency,
    MissingPeerDependency, UndeclaredDependency,
};
pub use crate::manifest::{Manifest, PackageDependency, PackageInformation, PackageLocator};

use crate::builtins::{is_builtin_name, is_nodejs_builtin};
use crate::collections::{ancestor_key, ancestor_value, trie_key};
use crate::fs::{join_paths, joined_paths};
use crate::manifest::{enters, lemma_with_registry_at, locator_at, locators, with_registry};
use crate::message::{
    format_missing_dependency, format_missing_peer, format_undeclared,
    missing_dependency_message, missing_peer_message, undeclared_message,
};
use crate::text::{chars_of, same_text, string_of_range};
use crate::util::{
    diff_paths, normalize_path, normalized, parent_of, parent_path, relative_path, RegexDef,
};
use vstd::prelude::*;

verus! {

/// What resolution gives: the place of the package with the path asked for
/// inside it, or the word that no manifest governs the issuer.
#[derive(Debug)]
pub enum Resolution {
    Resolved(String, Option<String>),
    Skipped,
}

/// The mathematical value of a resolution.
pub enum ResolutionView {
    Resolved(Seq<char>, Option<Seq<char>>),
    Skipped,
}

/// The view of a text that may be missing.
pub open spec fn text_view(s: Option<String>) -> Option<Seq<char>> {
    match s {
        Some(t) => Some(t@),
        None => None,
    }
}

impl View for Resolution {
    type V = ResolutionView;

    open spec fn view(&self) -> ResolutionView {
        match self {
            Resolution::Resolved(location, subpath) => ResolutionView::Resolved(
                location@,
                text_view(*subpath),
            ),
            Resolution::Skipped => ResolutionView::Skipped,
        }
    }
}

/// The view of what resolution returns.
pub open spec fn outcome_view(r: Result<Resolution, Error>) -> Result<ResolutionView, ErrorView> {
    match r {
        Ok(resolution) => Ok(resolution@),
        Err(e) => Err(e@),
    }
}

/// The position of the first slash of `s` at or behind position `i`.
pub open spec fn slash_from(s: Seq<char>, i: int) -> Option<int>
    decreases s.len() - i,
{
    if i < 0 || i >= s.len() {
        None
    } else if s[i] == '/' {
        Some(i)
    } else {
        slash_from(s, i + 1)
    }
}

/// A specifier cut at a slash into the name of a package and the path
/// inside it; without a slash it is all name.
pub open spec fn cut_at(s: Seq<char>, slash: Option<int>) -> (Seq<char>, Option<Seq<char>>) {
    match slash {
        Some(j) => (s.take(j), Some(s.skip(j + 1))),
        None => (s, None),
    }
}

/// The name of the package that a specifier asks for, and the path inside
/// the package. The name of a scoped package, which starts with `@`, runs
/// to the second slash and has to hold the first; any other name runs to
/// the first slash.
pub open spec fn parsed_identifier(s: Seq<char>) -> Option<(Seq<char>, Option<Seq<char>>)> {
    if s.len() > 0 && s[0] == '@' {
        match slash_from(s, 0) {
            Some(i) => Some(cut_at(s, slash_from(s, i + 1))),
            None => None,
        }
    } else {
        Some(cut_at(s, slash_from(s, 0)))
    }
}

fn find_slash(s: &Vec<char>, from: usize) -> (r: Option<usize>)
    ensures
        match r {
            Some(j) => slash_from(s@, from as int) == Some(j as int) && j < s.len(),
            None => slash_from(s@, from as int) is None,
        },
{
    let mut i: usize = from;
    while i < s.len()
        invariant
            from <= i,
            slash_from(s@, from as int) == slash_from(s@, i as int),
        decreases s.len() - i,
    {
        if s[i] == '/' {
            return Some(i);
        }
        i = i + 1;
    }
    None
}

fn cut(s: &Vec<char>, slash: Option<usize>) -> (r: (String, Option<String>))
    requires
        slash matches Some(j) ==> j < s.len(),
    ensures
        (r.0@, text_view(r.1)) == cut_at(
            s@,
            match slash {
                Some(j) => Some(j as int),
                None => None,
            },
        ),
{
    match slash {
        Some(j) => {
            let name = string_of_range(s, 0, j);
            let rest = string_of_range(s, j + 1, s.len());
            assert(s@.subrange(0, j as int) =~= s@.take(j as int));
            assert(s@.subrange(j + 1, s.len() as int) =~= s@.skip(j + 1));
            (name, Some(rest))
        },
        None => {
            let name = string_of_range(s, 0, s.len());
            assert(s@.subrange(0, s.len() as int) =~= s@);
            (name, None)
        },
    }
}

/// The name and inner path that a specifier of a scoped package gives.
pub fn parse_scoped_package_name(specifier: &str) -> (r: Option<(String, Option<String>)>)
    ensures
        match r {
            Some(parts) => match slash_from(specifier@, 0) {
                Some(i) => (parts.0@, text_view(parts.1)) == cut_at(
                    specifier@,
                    slash_from(specifier@, i + 1),
                ),
                None => false,
            },
            None => slash_from(specifier@, 0) is None,
        },
{
    let s = chars_of(specifier);
    match find_slash(&s, 0) {
        Some(i) => Some(cut(&s, find_slash(&s, i + 1))),
        None => None,
    }
}

/// The name and inner path that a specifier of an unscoped package gives.
pub fn parse_global_package_name(specifier: &str) -> (r: Option<(String, Option<String>)>)
    ensures
        r matches Some(parts) && (parts.0@, text_view(parts.1)) == cut_at(
            specifier@,
            slash_from(specifier@, 0),
        ),
{
    let s = chars_of(specifier);
    Some(cut(&s, find_slash(&s, 0)))
}

/// Parts a bare specifier into the name of the package and the path inside
/// the package.
pub fn parse_bare_identifier(specifier: &str) -> (r: Result<(String, Option<String>), Error>)
    ensures
        match r {
            Ok(parts) => parsed_identifier(specifier@) == Some((parts.0@, text_view(parts.1))),
            Err(e) => parsed_identifier(specifier@) is None && e@ == (ErrorView::BadSpecifier {
                message: "Invalid specifier"@,
                specifier: specifier@,
            }),
        },
{
    let s = chars_of(specifier);
    let name = if s.len() > 0 && s[0] == '@' {
        parse_scoped_package_name(specifier)
    } else {
        parse_global_package_name(specifier)
    };
    match name {
        Some(parts) => Ok(parts),
        None => {
            let mut message = String::new();
            vstd::string::StringExecFns::append(&mut message, "Invalid specifier");
            assert(message@ =~= "Invalid specifier"@);
            let mut copy = String::new();
            vstd::string::StringExecFns::append(&mut copy, specifier);
            assert(copy@ =~= specifier@);
            Err(Error::BadSpecifier(Box::new(BadSpecifier { message, specifier: copy })))
        },
    }
}

/// Whether the manifest leaves `path` to other resolvers: it has a pattern,
/// there is a way from the manifest's directory to `path`, and the pattern
/// matches the normal form of that way.
pub open spec fn is_ignored(manifest: &Manifest, path: Seq<char>) -> bool {
    match manifest.ignore_pattern_data {
        Some(pattern) => ignored_relative(pattern, relative_path(path, manifest.manifest_dir@)),
        None => false,
    }
}

/// Whether `pattern` matches the normal form of the relative path `rel`,
/// if there is one.
pub open spec fn ignored_relative(pattern: RegexDef, rel: Option<Seq<char>>) -> bool {
    match rel {
        Some(way) => pattern.matches(normalized(way)),
        None => false,
    }
}

/// The package that owns `path`: that of the nearest directory at or above
/// it in the trie of locations, unless the manifest leaves the path to
/// other resolvers.
pub open spec fn located(manifest: &Manifest, path: Seq<char>) -> Option<PackageLocator> {
    locator_given(manifest, path, is_ignored(manifest, path))
}

/// The package that owns `path`, given whether the path is ignored.
pub open spec fn locator_given(manifest: &Manifest, path: Seq<char>, ignored: bool) -> Option<
    PackageLocator,
> {
    if ignored {
        None
    } else {
        ancestor_value(manifest.location_trie@, trie_key(path))
    }
}

/// What the dependencies of an issuer say of a name.
pub enum Found {
    /// Neither the issuer nor, where it counts, the top level declares it.
    Undeclared,
    /// It is declared, as a peer dependency that nothing provides.
    MissingPeer,
    /// It is declared, with the package it stands for.
    Target(PackageDependency),
}

/// What a table of dependencies says of a name, where the name is in it.
pub open spec fn declared(entry: Option<Option<PackageDependency>>) -> Option<Found> {
    match entry {
        Some(Some(dependency)) => Some(Found::Target(dependency)),
        Some(None) => Some(Found::MissingPeer),
        None => None,
    }
}

/// What the manifest says of the dependency `name` of the package `issuer`
/// at `locator`. The issuer's own table comes first. Only where it does not
/// hold the name, top-level fallback is enabled and the issuer is not
/// excluded from it, the fallback pool is asked.
pub open spec fn found_dependency(
    manifest: &Manifest,
    issuer: PackageInformation,
    locator: (Seq<char>, Seq<char>),
    name: Seq<char>,
) -> Found {
    match declared(issuer.package_dependencies.lookup(name)) {
        Some(found) => found,
        None => if manifest.enable_top_level_fallback && !manifest.is_excluded(locator) {
            match declared(manifest.fallback_pool.lookup(name)) {
                Some(found) => found,
                None => Found::Undeclared,
            }
        } else {
            Found::Undeclared
        },
    }
}

/// The failure for a package that the registry does not hold.
pub open spec fn missing_dependency(
    dependency: (Seq<char>, Seq<char>),
    name: Seq<char>,
    specifier: Seq<char>,
    issuer: (Seq<char>, Seq<char>),
    issuer_path: Seq<char>,
) -> ErrorView {
    ErrorView::MissingDependency {
        message: missing_dependency_message(dependency, name, specifier, issuer, issuer_path),
        request: specifier,
        dependency_locator: dependency,
        dependency_name: name,
        issuer_locator: issuer,
        issuer_path,
    }
}

/// What resolving `specifier` for the issuer at `parent` gives, once the
/// issuer's package is known to be that at `locator`.
pub open spec fn resolved_from(
    manifest: &Manifest,
    specifier: Seq<char>,
    parent: Seq<char>,
    name: Seq<char>,
    subpath: Option<Seq<char>>,
    locator: (Seq<char>, Seq<char>),
) -> Result<ResolutionView, ErrorView> {
    match manifest.package(locator) {
        None => Err(missing_dependency(locator, locator.0, specifier, locator, parent)),
        Some(issuer) => match found_dependency(manifest, issuer, locator, name) {
            Found::Undeclared => Err(
                ErrorView::UndeclaredDependency {
                    message: undeclared_message(
                        is_builtin_name(specifier),
                        manifest.is_root(locator),
                        locator,
                        name,
                        specifier,
                        parent,
                    ),
                    request: specifier,
                    dependency_name: name,
                    issuer_locator: locator,
                    issuer_path: parent,
                },
            ),
            Found::MissingPeer => Err(
                ErrorView::MissingPeerDependency {
                    message: missing_peer_message(
                        manifest.is_root(locator),
                        false,
                        locator,
                        name,
                        specifier,
                        parent,
                    ),
                    request: specifier,
                    dependency_name: name,
                    issuer_locator: locator,
                    issuer_path: parent,
                    broken_ancestors: Seq::<(Seq<char>, Seq<char>)>::empty(),
                },
            ),
            Found::Target(dependency) => match manifest.package(dependency.target(name)) {
                Some(package) => Ok(ResolutionView::Resolved(package.package_location@, subpath)),
                None => Err(
                    missing_dependency(dependency.target(name), name, specifier, locator, parent),
                ),
            },
        },
    }
}

/// What resolving `specifier` for the issuer at `parent` gives, given the
/// package that owns the issuer, if any.
pub open spec fn resolved_given(
    manifest: &Manifest,
    specifier: Seq<char>,
    parent: Seq<char>,
    owner: Option<PackageLocator>,
) -> Result<ResolutionView, ErrorView> {
    match parsed_identifier(specifier) {
        None => Err(
            ErrorView::BadSpecifier { message: "Invalid specifier"@, specifier: specifier },
        ),
        Some(parts) => match owner {
            None => Ok(ResolutionView::Skipped),
            Some(locator) => resolved_from(manifest, specifier, parent, parts.0, parts.1, locator@),
        },
    }
}

/// What resolving `specifier` for the issuer at `parent` gives under a
/// manifest.
pub open spec fn resolved(manifest: &Manifest, specifier: Seq<char>, parent: Seq<char>) -> Result<
    ResolutionView,
    ErrorView,
> {
    resolved_given(manifest, specifier, parent, located(manifest, parent))
}

/// Whether `locator` is a root of the dependency tree.
pub fn is_dependency_tree_root(manifest: &Manifest, locator: &PackageLocator) -> (r: bool)
    ensures
        r == manifest.is_root(locator@),
{
    let roots = &manifest.dependency_tree_roots;
    let mut i: usize = 0;
    while i < roots.len()
        invariant
            i <= roots.len(),
            roots == &manifest.dependency_tree_roots,
            forall|x: int| 0 <= x < i ==> (#[trigger] roots[x])@ != locator@,
        decreases roots.len() - i,
    {
        if same_text(roots[i].name.as_str(), locator.name.as_str()) && same_text(
            roots[i].reference.as_str(),
            locator.reference.as_str(),
        ) {
            return true;
        }
        i = i + 1;
    }
    false
}

/// Whether `pattern` matches the normal form of the relative path `rel`,
/// if there is one.
pub fn matches_relative(pattern: &RegexDef, rel: Option<String>) -> (r: bool)
    ensures
        r == ignored_relative(*pattern, text_view(rel)),
{
    match rel {
        Some(way) => {
            let text = normalize_path(way.as_str());
            pattern.is_match(text.as_str())
        },
        None => false,
    }
}

/// The package that owns `path`, given whether the manifest leaves the
/// path to other resolvers.
pub fn locate<'a>(manifest: &'a Manifest, path: &str, ignored: bool) -> (r: Option<
    &'a PackageLocator,
>)
    requires
        manifest.wf(),
    ensures
        match r {
            Some(locator) => locator_given(manifest, path@, ignored) == Some(*locator),
            None => locator_given(manifest, path@, ignored) is None,
        },
{
    if ignored {
        None
    } else {
        manifest.location_trie.get_ancestor_value(path)
    }
}

/// The package that owns `path`, if the manifest knows one and does not
/// leave the path to other resolvers.
pub fn find_locator<'a>(manifest: &'a Manifest, path: &str) -> (r: Option<&'a PackageLocator>)
    requires
        manifest.wf(),
    ensures
        match r {
            Some(locator) => located(manifest, path@) == Some(*locator),
            None => located(manifest, path@) is None,
        },
{
    let ignored = match &manifest.ignore_pattern_data {
        Some(pattern) => matches_relative(
            pattern,
            diff_paths(path, manifest.manifest_dir.as_str()),
        ),
        None => false,
    };
    locate(manifest, path, ignored)
}

/// The package that `locator` names, if the registry holds it.
pub fn get_package<'a>(manifest: &'a Manifest, locator: &PackageLocator) -> (r: Option<
    &'a PackageInformation,
>)
    requires
        manifest.wf(),
    ensures
        match r {
            Some(package) => manifest.package(locator@) == Some(*package),
            None => manifest.package(locator@) is None,
        },
{
    match manifest.package_registry_data.find(locator.name.as_str()) {
        Some(i) => {
            proof {
                manifest.package_registry_data.lemma_wf();
                manifest.package_registry_data.lemma_lookup_at(i as int);
                assert(crate::manifest::references_wf(manifest.package_registry_data.values()[i as int]));
            }
            manifest.package_registry_data.value_at(i).get(locator.reference.as_str())
        },
        None => None,
    }
}

/// Whether `locator` may not use what the top level depends on.
pub fn is_excluded_from_fallback(manifest: &Manifest, locator: &PackageLocator) -> (r: bool)
    requires
        manifest.wf(),
    ensures
        r == manifest.is_excluded(locator@),
{
    match manifest.fallback_exclusion_list.get(locator.name.as_str()) {
        Some(references) => {
            let mut i: usize = 0;
            while i < references.len()
                invariant
                    i <= references.len(),
                    manifest.fallback_exclusion_list.lookup(locator.name@) == Some(*references),
                    forall|x: int| 0 <= x < i ==> (#[trigger] references[x])@ != locator.reference@,
                decreases references.len() - i,
            {
                if same_text(references[i].as_str(), locator.reference.as_str()) {
                    proof {
                        let list = manifest.fallback_exclusion_list.lookup(locator@.0)->Some_0;
                        assert(list[i as int]@ == locator@.1);
                    }
                    return true;
                }
                i = i + 1;
            }
            false
        },
        None => false,
    }
}

/// The ancestors of a package that fail to provide a peer dependency. None
/// are looked for.
pub fn find_broken_peer_dependencies(_dependency: &str, _initial_package: &PackageLocator) -> (r:
    Vec<PackageLocator>)
    ensures
        r@.len() == 0,
{
    Vec::new()
}

/// Whether every locator of `locators` is a root of the dependency tree.
pub fn all_dependency_tree_roots(manifest: &Manifest, locators: &Vec<PackageLocator>) -> (r: bool)
    ensures
        r == forall|i: int| 0 <= i < locators.len() ==> manifest.is_root((#[trigger] locators[i])@),
{
    let mut i: usize = 0;
    while i < locators.len()
        invariant
            i <= locators.len(),
            forall|x: int| 0 <= x < i ==> manifest.is_root((#[trigger] locators[x])@),
        decreases locators.len() - i,
    {
        if !is_dependency_tree_root(manifest, &locators[i]) {
            return false;
        }
        i = i + 1;
    }
    true
}

/// The view of a locator that may be missing.
pub open spec fn owner_view(owner: Option<&PackageLocator>) -> Option<PackageLocator> {
    match owner {
        Some(locator) => Some(*locator),
        None => None,
    }
}

fn missing_dependency_error(
    dependency: PackageLocator,
    name: &str,
    specifier: &str,
    issuer: &PackageLocator,
    parent: &str,
) -> (e: Error)
    ensures
        e@ == missing_dependency(dependency@, name@, specifier@, issuer@, parent@),
{
    let message = format_missing_dependency(
        dependency.name.as_str(),
        dependency.reference.as_str(),
        name,
        specifier,
        issuer.name.as_str(),
        issuer.reference.as_str(),
        parent,
    );
    Error::MissingDependency(
        Box::new(
            MissingDependency {
                message,
                request: copy_text(specifier),
                dependency_locator: dependency,
                dependency_name: copy_text(name),
                issuer_locator: issuer.duplicate(),
                issuer_path: copy_text(parent),
            },
        ),
    )
}

fn copy_text(s: &str) -> (r: String)
    ensures
        r@ == s@,
{
    let mut r = String::new();
    vstd::string::StringExecFns::append(&mut r, s);
    assert(r@ =~= s@);
    r
}

/// Resolves `specifier` for the issuer at `parent`, given the package that
/// owns the issuer, if the manifest knows one.
pub fn resolve_for_owner(
    manifest: &Manifest,
    specifier: &str,
    parent: &str,
    owner: Option<&PackageLocator>,
) -> (r: Result<Resolution, Error>)
    requires
        manifest.wf(),
    ensures
        outcome_view(r) == resolved_given(manifest, specifier@, parent@, owner_view(owner)),
{
    let (ident, subpath) = match parse_bare_identifier(specifier) {
        Ok(parts) => parts,
        Err(e) => {
            return Err(e);
        },
    };
    let locator = match owner {
        Some(locator) => locator,
        None => {
            return Ok(Resolution::Skipped);
        },
    };
    let issuer = match get_package(manifest, locator) {
        Some(package) => package,
        None => {
            return Err(
                missing_dependency_error(
                    locator.duplicate(),
                    locator.name.as_str(),
                    specifier,
                    locator,
                    parent,
                ),
            );
        },
    };
    proof {
        manifest.package_registry_data.lemma_wf();
        lemma_package_wf(manifest, locator@);
    }
    let entry = match issuer.package_dependencies.get(ident.as_str()) {
        Some(own) => Some(own),
        None => if manifest.enable_top_level_fallback && !is_excluded_from_fallback(
            manifest,
            locator,
        ) {
            manifest.fallback_pool.get(ident.as_str())
        } else {
            None
        },
    };
    assert(found_dependency(manifest, *issuer, locator@, ident@) == match entry {
        Some(Some(dependency)) => Found::Target(*dependency),
        Some(None) => Found::MissingPeer,
        None => Found::Undeclared,
    });
    match entry {
        None => {
            let message = format_undeclared(
                is_nodejs_builtin(specifier),
                is_dependency_tree_root(manifest, locator),
                locator.name.as_str(),
                locator.reference.as_str(),
                ident.as_str(),
                specifier,
                parent,
            );
            Err(
                Error::UndeclaredDependency(
                    Box::new(
                        UndeclaredDependency {
                            message,
                            request: copy_text(specifier),
                            dependency_name: ident,
                            issuer_locator: locator.duplicate(),
                            issuer_path: copy_text(parent),
                        },
                    ),
                ),
            )
        },
        Some(None) => {
            let broken_ancestors = find_broken_peer_dependencies(specifier, locator);
            let by_roots = broken_ancestors.len() > 0 && all_dependency_tree_roots(
                manifest,
                &broken_ancestors,
            );
            let message = format_missing_peer(
                is_dependency_tree_root(manifest, locator),
                by_roots,
                locator.name.as_str(),
                locator.reference.as_str(),
                ident.as_str(),
                specifier,
                parent,
            );
            let e = MissingPeerDependency {
                message,
                request: copy_text(specifier),
                dependency_name: ident,
                issuer_locator: locator.duplicate(),
                issuer_path: copy_text(parent),
                broken_ancestors,
            };
            assert(crate::error::locator_views(e.broken_ancestors@) =~= Seq::<
                (Seq<char>, Seq<char>),
            >::empty());
            Err(Error::MissingPeerDependency(Box::new(e)))
        },
        Some(Some(dependency)) => {
            let target = match dependency {
                PackageDependency::Reference(reference) => PackageLocator {
                    name: ident.clone(),
                    reference: reference.clone(),
                },
                PackageDependency::Alias(alias, reference) => PackageLocator {
                    name: alias.clone(),
                    reference: reference.clone(),
                },
            };
            assert(target@ == dependency.target(ident@));
            match get_package(manifest, &target) {
                Some(package) => Ok(
                    Resolution::Resolved(package.package_location.clone(), subpath),
                ),
                None => Err(
                    missing_dependency_error(target, ident.as_str(), specifier, locator, parent),
                ),
            }
        },
    }
}

/// A package that the registry of a well-formed manifest holds is well
/// formed.
pub proof fn lemma_package_wf(manifest: &Manifest, locator: (Seq<char>, Seq<char>))
    requires
        manifest.wf(),
        manifest.package(locator) is Some,
    ensures
        manifest.package(locator)->Some_0.wf(),
{
    let registry = manifest.package_registry_data;
    registry.lemma_wf();
    let i = registry.keys().index_of(locator.0);
    assert(registry.keys().contains(locator.0));
    assert(registry.keys()[i] == locator.0);
    let references = registry.values()[i];
    assert(crate::manifest::references_wf(references));
    references.lemma_wf();
    assert(references.keys().contains(locator.1));
    let j = references.keys().index_of(locator.1);
    assert(references.keys()[j] == locator.1);
    assert(references.values()[j].wf());
}

/// Resolves `specifier` for the issuer at `parent` under a manifest: finds
/// the package that owns the issuer, then what that package, or the top
/// level in its place, declares under the name that the specifier asks for.
pub fn resolve_to_unqualified_via_manifest(manifest: &Manifest, specifier: &str, parent: &str) -> (r:
    Result<Resolution, Error>)
    requires
        manifest.wf(),
    ensures
        outcome_view(r) == resolved(manifest, specifier@, parent@),
{
    resolve_for_owner(manifest, specifier, parent, find_locator(manifest, parent))
}

/// Resolves `specifier` for the issuer at `parent`, given what the search
/// for a manifest gave: its failure is handed on, and without a manifest
/// nothing is resolved.
pub fn resolve_with(found: Result<Option<Manifest>, Error>, specifier: &str, parent: &str) -> (r:
    Result<Resolution, Error>)
    requires
        found matches Ok(Some(manifest)) ==> manifest.wf(),
    ensures
        match found {
            Ok(Some(manifest)) => outcome_view(r) == resolved(&manifest, specifier@, parent@),
            Ok(None) => outcome_view(r) == Ok::<ResolutionView, ErrorView>(ResolutionView::Skipped),
            Err(e) => r == Err::<Resolution, Error>(e),
        },
{
    match found {
        Ok(Some(manifest)) => resolve_to_unqualified_via_manifest(&manifest, specifier, parent),
        Ok(None) => Ok(Resolution::Skipped),
        Err(e) => Err(e),
    }
}

/// The path at which a package stands leads back to the package. Given a
/// manifest whose trie of locations was filled from its registry, a package
/// of the registry that lookup may find, and no package behind it in the
/// registry that lookup may find at the same location: where the manifest
/// does not leave that location to other resolvers, the owner of the
/// location is that package.
pub proof fn root_path_finds_its_package(
    manifest: Manifest,
    start: Map<Seq<char>, (Seq<char>, Seq<char>)>,
    a: int,
    b: int,
)
    requires
        manifest.wf(),
        locators(manifest.location_trie) == with_registry(
            start,
            manifest.package_registry_data,
            manifest.package_registry_data.keys().len() as int,
        ),
        0 <= a < manifest.package_registry_data.values().len(),
        0 <= b < manifest.package_registry_data.values()[a].values().len(),
        !manifest.package_registry_data.values()[a].values()[b].discard_from_lookup,
        forall|i: int, j: int|
            #[trigger] enters(
                manifest.package_registry_data,
                i,
                j,
                trie_key(manifest.package_registry_data.values()[a].values()[b].package_location@),
            ) ==> i < a || (i == a && j <= b),
        !is_ignored(
            &manifest,
            manifest.package_registry_data.values()[a].values()[b].package_location@,
        ),
    ensures
        located(
            &manifest,
            manifest.package_registry_data.values()[a].values()[b].package_location@,
        ) matches Some(owner) && owner@ == locator_at(manifest.package_registry_data, a, b),
{
    let registry = manifest.package_registry_data;
    let location = registry.values()[a].values()[b].package_location@;
    let k = trie_key(location);
    registry.lemma_wf();
    assert forall|i: int| 0 <= i < registry.values().len() implies (#[trigger] registry.values()[i]).keys().len()
        == registry.values()[i].values().len() by {
        assert(crate::manifest::references_wf(registry.values()[i]));
        registry.values()[i].lemma_wf();
    }
    assert(enters(registry, a, b, k));
    lemma_with_registry_at(start, registry, registry.keys().len() as int, a, b, k);
    assert(manifest.location_trie@.dom().contains(k));
    assert(k.take(k.len() as int) =~= k);
    assert(ancestor_key(manifest.location_trie@.dom(), k, k.len()) == Some(k));
}

/// The pool of the top level decides for names that the issuer does not
/// declare. Given an issuer whose package the registry holds and whose own
/// dependencies lack the name that a specifier asks for, a fallback pool
/// that holds a dependency under that name, and a registry that holds the
/// package of that dependency: resolution finds the package exactly when
/// top-level fallback is enabled and the issuer is not excluded from it.
pub proof fn fallback_resolves_when_allowed(
    manifest: Manifest,
    specifier: Seq<char>,
    parent: Seq<char>,
    issuer: PackageLocator,
    dependency: PackageDependency,
)
    requires
        parsed_identifier(specifier) is Some,
        manifest.package(issuer@) is Some,
        manifest.package(issuer@)->Some_0.package_dependencies.lookup(
            parsed_identifier(specifier)->Some_0.0,
        ) is None,
        manifest.fallback_pool.lookup(parsed_identifier(specifier)->Some_0.0) == Some(
            Some(dependency),
        ),
        manifest.package(dependency.target(parsed_identifier(specifier)->Some_0.0)) is Some,
    ensures
        resolved_given(&manifest, specifier, parent, Some(issuer)) is Ok <==> (
        manifest.enable_top_level_fallback && !manifest.is_excluded(issuer@)),
        manifest.enable_top_level_fallback && !manifest.is_excluded(issuer@) ==> resolved_given(
            &manifest,
            specifier,
            parent,
            Some(issuer),
        ) == Ok::<ResolutionView, ErrorView>(
            ResolutionView::Resolved(
                manifest.package(
                    dependency.target(parsed_identifier(specifier)->Some_0.0),
                )->Some_0.package_location@,
                parsed_identifier(specifier)->Some_0.1,
            ),
        ),
{
}

/// What an issuer declares itself goes before the pool of the top level:
/// where the issuer's own dependencies hold a name, the fallback pool, the
/// exclusion list and the switch for fallback change nothing.
pub proof fn own_dependency_goes_first(
    manifest: Manifest,
    other: Manifest,
    issuer: PackageInformation,
    locator: (Seq<char>, Seq<char>),
    name: Seq<char>,
)
    requires
        issuer.package_dependencies.lookup(name) is Some,
    ensures
        found_dependency(&manifest, issuer, locator, name) == found_dependency(
            &other,
            issuer,
            locator,
            name,
        ),
{
}

/// The directory `n` steps above `path`, where there is one; `path` itself
/// for no step.
pub open spec fn ancestor(path: Seq<char>, n: nat) -> Option<Seq<char>>
    decreases n,
{
    if n == 0 {
        Some(path)
    } else {
        match ancestor(path, (n - 1) as nat) {
            Some(below) => parent_path(below),
            None => None,
        }
    }
}

/// The place of the manifest of a directory.
pub open spec fn manifest_in(dir: Seq<char>) -> Seq<char> {
    joined_paths(dir, ".pnp.cjs"@)
}

/// The directories from `path` upwards: `path` itself, then the directory
/// of each, as far as there is one.
pub fn ancestors_of(path: &str) -> (dirs: Vec<String>)
    ensures
        dirs.len() >= 1,
        forall|i: int| 0 <= i < dirs.len() ==> ancestor(path@, i as nat) == Some(#[trigger] dirs[i]@),
        ancestor(path@, dirs.len() as nat) is None,
{
    let mut dirs: Vec<String> = Vec::new();
    let mut dir = String::new();
    vstd::string::StringExecFns::append(&mut dir, path);
    assert(dir@ =~= path@);
    loop
        invariant
            ancestor(path@, dirs.len() as nat) == Some(dir@),
            forall|i: int|
                0 <= i < dirs.len() ==> ancestor(path@, i as nat) == Some(#[trigger] dirs[i]@),
        decreases dir@.len(),
    {
        let above = parent_of(dir.as_str());
        dirs.push(dir);
        match above {
            Some(next) => {
                dir = next;
            },
            None => {
                return dirs;
            },
        }
    }
}

/// The manifest of the first of `dirs` for which `is_file` tells that the
/// file is there. `is_file` is asked in order, and no further than the
/// first file that it finds.
pub fn first_manifest_in<F: Fn(&str) -> bool>(dirs: &Vec<String>, is_file: F) -> (r: Option<String>)
    requires
        forall|p: &str| #[trigger] is_file.requires((p,)),
    ensures
        match r {
            Some(found) => exists|n: int|
                0 <= n < dirs.len() && found@ == manifest_in((#[trigger] dirs[n])@) && granted(
                    is_file,
                    found@,
                ) && forall|m: int| 0 <= m < n ==> denied(is_file, Some((#[trigger] dirs[m])@)),
            None => forall|m: int|
                0 <= m < dirs.len() ==> denied(is_file, Some((#[trigger] dirs[m])@)),
        },
{
    let mut n: usize = 0;
    while n < dirs.len()
        invariant
            n <= dirs.len(),
            forall|p: &str| #[trigger] is_file.requires((p,)),
            forall|m: int| 0 <= m < n ==> denied(is_file, Some((#[trigger] dirs[m])@)),
        decreases dirs.len() - n,
    {
        let candidate = join_paths(dirs[n].as_str(), ".pnp.cjs");
        let asked = candidate.clone();
        let place = asked.as_str();
        if is_file(place) {
            assert(is_file.ensures((place,), true));
            assert(granted(is_file, candidate@));
            assert(candidate@ == manifest_in(dirs[n as int]@));
            return Some(candidate);
        }
        assert(is_file.ensures((place,), false));
        assert(denied(is_file, Some(dirs[n as int]@)));
        n = n + 1;
    }
    None
}

/// Looks for the manifest that governs `path`: that of `path` itself or of
/// the nearest directory above it for which `is_file` tells that the file
/// is there. `is_file` is asked from `path` upwards, and no further than
/// the first file that it finds.
pub fn find_closest_pnp_manifest_path<F: Fn(&str) -> bool>(path: &str, is_file: F) -> (r: Option<
    String,
>)
    requires
        forall|p: &str| #[trigger] is_file.requires((p,)),
    ensures
        match r {
            Some(found) => exists|n: nat|
                (#[trigger] ancestor(path@, n)) is Some && found_at(is_file, path@, n, found@),
            None => forall|m: nat| denied(is_file, #[trigger] ancestor(path@, m)),
        },
{
    let dirs = ancestors_of(path);
    let r = first_manifest_in(&dirs, is_file);
    proof {
        match &r {
            Some(found) => {
                let n = choose|n: int|
                    0 <= n < dirs.len() && found@ == manifest_in((#[trigger] dirs[n])@) && granted(
                        is_file,
                        found@,
                    ) && forall|m: int| 0 <= m < n ==> denied(is_file, Some((#[trigger] dirs[m])@));
                assert(ancestor(path@, n as nat) == Some(dirs[n]@));
                assert forall|m: nat| m < n as nat implies denied(
                    is_file,
                    #[trigger] ancestor(path@, m),
                ) by {
                    assert(ancestor(path@, m) == Some(dirs[m as int]@));
                }
                assert(found_at(is_file, path@, n as nat, found@));
            },
            None => {
                assert forall|m: nat| denied(is_file, #[trigger] ancestor(path@, m)) by {
                    if m < dirs.len() {
                        assert(ancestor(path@, m) == Some(dirs[m as int]@));
                    } else {
                        lemma_no_ancestor_beyond(path@, dirs.len() as nat, m);
                    }
                }
            },
        }
    }
    r
}

/// Whether `place` is the manifest of the directory `n` steps above `path`,
/// `is_file` has told that it is there, and has told of every directory
/// below that one that it has none.
pub open spec fn found_at<F: Fn(&str) -> bool>(
    is_file: F,
    path: Seq<char>,
    n: nat,
    place: Seq<char>,
) -> bool {
    &&& ancestor(path, n) matches Some(dir) && place == manifest_in(dir)
    &&& granted(is_file, place)
    &&& forall|m: nat| m < n ==> denied(is_file, #[trigger] ancestor(path, m))
}

/// Whether `is_file` has told that the file at `place` is there.
pub open spec fn granted<F: Fn(&str) -> bool>(is_file: F, place: Seq<char>) -> bool {
    exists|p: &str| p@ == place && #[trigger] is_file.ensures((p,), true)
}

/// Whether `is_file` has told that the directory `dir`, if there is one,
/// has no manifest.
pub open spec fn denied<F: Fn(&str) -> bool>(is_file: F, dir: Option<Seq<char>>) -> bool {
    match dir {
        Some(d) => exists|p: &str| p@ == manifest_in(d) && #[trigger] is_file.ensures((p,), false),
        None => true,
    }
}

/// Above a step at which there is no directory there is none either.
pub proof fn lemma_no_ancestor_beyond(path: Seq<char>, n: nat, m: nat)
    requires
        ancestor(path, n) is None,
        n <= m,
    ensures
        ancestor(path, m) is None,
    decreases m,
{
    if n < m {
        lemma_no_ancestor_beyond(path, n, (m - 1) as nat);
    }
}

/// Whether `r` is what resolving `specifier` for the issuer at `parent`
/// gives once the search for a manifest gave `found`.
pub open spec fn resolves_from(
    found: Result<Option<Manifest>, Error>,
    specifier: Seq<char>,
    parent: Seq<char>,
    r: Result<Resolution, Error>,
) -> bool {
    match found {
        Ok(Some(manifest)) => outcome_view(r) == resolved(&manifest, specifier, parent),
        Ok(None) => outcome_view(r) == Ok::<ResolutionView, ErrorView>(ResolutionView::Skipped),
        Err(e) => r == Err::<Resolution, Error>(e),
    }
}

/// Resolves `specifier` for the issuer at `parent`: asks
/// `find_pnp_manifest` for the manifest that governs the issuer, and
/// resolves under that manifest. Without a manifest nothing is resolved.
pub fn resolve_to_unqualified<F: Fn(&str) -> Result<Option<Manifest>, Error>>(
    specifier: &str,
    parent: &str,
    find_pnp_manifest: F,
) -> (r: Result<Resolution, Error>)
    requires
        forall|p: &str| #[trigger] find_pnp_manifest.requires((p,)),
        forall|p: &str, found: Result<Option<Manifest>, Error>| #[trigger]
            find_pnp_manifest.ensures((p,), found) ==> (found matches Ok(Some(manifest))
                ==> manifest.wf()),
    ensures
        exists|found: Result<Option<Manifest>, Error>| #[trigger]
            find_pnp_manifest.ensures((parent,), found) && resolves_from(
                found,
                specifier@,
                parent@,
                r,
            ),
{
    let found = find_pnp_manifest(parent);
    let ghost witness = found;
    let r = resolve_with(found, specifier, parent);
    assert(find_pnp_manifest.ensures((parent,), witness) && resolves_from(
        witness,
        specifier@,
        parent@,
        r,
    ));
    r
}

} // verus!
