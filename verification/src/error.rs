//! What resolution and manifest loading report when they fail.

use crate::manifest::PackageLocator;
use vstd::prelude::*;

verus! {

/// A specifier that names no package.
#[derive(Clone, Debug, PartialEq)]
pub struct BadSpecifier {
    pub message: String,
    pub specifier: String,
}

/// A manifest file that could not be turned into a manifest.
#[derive(Clone, Debug, PartialEq)]
pub struct FailedManifestHydration {
    pub message: String,
    pub manifest_path: String,
}

/// A peer dependency that nothing provides.
#[derive(Clone, Debug, PartialEq)]
pub struct MissingPeerDependency {
    pub message: String,
    pub request: String,
    pub dependency_name: String,
    pub issuer_locator: PackageLocator,
    pub issuer_path: String,
    pub broken_ancestors: Vec<PackageLocator>,
}

/// A package that the issuer does not list among its dependencies.
#[derive(Clone, Debug, PartialEq)]
pub struct UndeclaredDependency {
    pub message: String,
    pub request: String,
    pub dependency_name: String,
    pub issuer_locator: PackageLocator,
    pub issuer_path: String,
}

/// A dependency whose package the registry does not hold.
#[derive(Clone, Debug, PartialEq)]
pub struct MissingDependency {
    pub message: String,
    pub request: String,
    pub dependency_locator: PackageLocator,
    pub dependency_name: String,
    pub issuer_locator: PackageLocator,
    pub issuer_path: String,
}

/// Every failure of the resolver.
#[derive(Clone, Debug, PartialEq)]
pub enum Error {
    BadSpecifier(Box<BadSpecifier>),
    FailedManifestHydration(Box<FailedManifestHydration>),
    MissingPeerDependency(Box<MissingPeerDependency>),
    UndeclaredDependency(Box<UndeclaredDependency>),
    MissingDependency(Box<MissingDependency>),
}

/// The mathematical value of a failure.
#[allow(inconsistent_fields)]
pub enum ErrorView {
    BadSpecifier { message: Seq<char>, specifier: Seq<char> },
    FailedManifestHydration { message: Seq<char>, manifest_path: Seq<char> },
    MissingPeerDependency {
        message: Seq<char>,
        request: Seq<char>,
        dependency_name: Seq<char>,
        issuer_locator: (Seq<char>, Seq<char>),
        issuer_path: Seq<char>,
        broken_ancestors: Seq<(Seq<char>, Seq<char>)>,
    },
    UndeclaredDependency {
        message: Seq<char>,
        request: Seq<char>,
        dependency_name: Seq<char>,
        issuer_locator: (Seq<char>, Seq<char>),
        issuer_path: Seq<char>,
    },
    MissingDependency {
        message: Seq<char>,
        request: Seq<char>,
        dependency_locator: (Seq<char>, Seq<char>),
        dependency_name: Seq<char>,
        issuer_locator: (Seq<char>, Seq<char>),
        issuer_path: Seq<char>,
    },
}

/// The views of a list of locators.
pub open spec fn locator_views(v: Seq<PackageLocator>) -> Seq<(Seq<char>, Seq<char>)> {
    Seq::new(v.len(), |i: int| v[i]@)
}

impl View for Error {
    type V = ErrorView;

    open spec fn view(&self) -> ErrorView {
        match self {
            Error::BadSpecifier(e) => ErrorView::BadSpecifier {
                message: e.message@,
                specifier: e.specifier@,
            },
            Error::FailedManifestHydration(e) => ErrorView::FailedManifestHydration {
                message: e.message@,
                manifest_path: e.manifest_path@,
            },
            Error::MissingPeerDependency(e) => ErrorView::MissingPeerDependency {
                message: e.message@,
                request: e.request@,
                dependency_name: e.dependency_name@,
                issuer_locator: e.issuer_locator@,
                issuer_path: e.issuer_path@,
                broken_ancestors: locator_views(e.broken_ancestors@),
            },
            Error::UndeclaredDependency(e) => ErrorView::UndeclaredDependency {
                message: e.message@,
                request: e.request@,
                dependency_name: e.dependency_name@,
                issuer_locator: e.issuer_locator@,
                issuer_path: e.issuer_path@,
            },
            Error::MissingDependency(e) => ErrorView::MissingDependency {
                message: e.message@,
                request: e.request@,
                dependency_locator: e.dependency_locator@,
                dependency_name: e.dependency_name@,
                issuer_locator: e.issuer_locator@,
                issuer_path: e.issuer_path@,
            },
        }
    }
}

impl Error {
    /// The text of the failure, ready to be shown.
    pub fn message(&self) -> (r: &str)
        ensures
            r@ == match self@ {
                ErrorView::BadSpecifier { message, .. } => message,
                ErrorView::FailedManifestHydration { message, .. } => message,
                ErrorView::MissingPeerDependency { message, .. } => message,
                ErrorView::UndeclaredDependency { message, .. } => message,
                ErrorView::MissingDependency { message, .. } => message,
            },
    {
        match self {
            Error::BadSpecifier(e) => e.message.as_str(),
            Error::FailedManifestHydration(e) => e.message.as_str(),
            Error::MissingPeerDependency(e) => e.message.as_str(),
            Error::UndeclaredDependency(e) => e.message.as_str(),
            Error::MissingDependency(e) => e.message.as_str(),
        }
    }
}

} // verus!
