//! The wording of the failures of resolution.

use crate::text::same_text;
use vstd::prelude::*;
use vstd::string::StringExecFns;

verus! {

/// The note that tells under which specifier a package was asked for, where
/// the specifier is more than the package's name.
pub open spec fn via_note(name: Seq<char>, specifier: Seq<char>) -> Seq<char> {
    if name != specifier {
        " (via \""@ + specifier + "\")"@
    } else {
        Seq::<char>::empty()
    }
}

/// The lines that name the package asked for and who asked, by path alone.
pub open spec fn required_by_path(
    name: Seq<char>,
    specifier: Seq<char>,
    mark: Seq<char>,
    issuer_path: Seq<char>,
) -> Seq<char> {
    "\n\nRequired package: "@ + name + via_note(name, specifier) + "\nRequired by: "@ + mark
        + issuer_path
}

/// The lines that name the package asked for and who asked, by locator and
/// path.
pub open spec fn required_by_locator(
    name: Seq<char>,
    specifier: Seq<char>,
    issuer: (Seq<char>, Seq<char>),
    issuer_path: Seq<char>,
) -> Seq<char> {
    "\n\nRequired package: "@ + name + via_note(name, specifier) + "\nRequired by: "@ + issuer.0
        + "@"@ + issuer.1 + " (via "@ + issuer_path + ")"@
}

/// What is said of a package that the issuer does not declare. The wording
/// tells a root of the dependency tree from another package, and the name
/// of a module of Node from any other.
pub open spec fn undeclared_message(
    builtin: bool,
    root: bool,
    issuer: (Seq<char>, Seq<char>),
    name: Seq<char>,
    specifier: Seq<char>,
    issuer_path: Seq<char>,
) -> Seq<char> {
    if builtin {
        if root {
            "Your application tried to access "@ + name
                + ". While this module is usually interpreted as a Node builtin, your resolver is running inside a non-Node resolution context where such builtins are ignored. Since "@
                + name
                + " isn't otherwise declared in your dependencies, this makes the require call ambiguous and unsound."@
                + required_by_path(name, specifier, "$"@, issuer_path)
        } else {
            "$"@ + issuer.0 + " tried to access "@ + name
                + ". While this module is usually interpreted as a Node builtin, your resolver is running inside a non-Node resolution context where such builtins are ignored. Since "@
                + name + " isn't otherwise declared in $"@ + issuer.0
                + "'s dependencies, this makes the require call ambiguous and unsound."@
                + required_by_path(name, specifier, "$"@, issuer_path)
        }
    } else if root {
        "Your application tried to access "@ + name
            + ", but it isn't declared in your dependencies; this makes the require call ambiguous and unsound."@
            + required_by_path(name, specifier, Seq::<char>::empty(), issuer_path)
    } else {
        issuer.0 + " tried to access "@ + name
            + ", but it isn't declared in its dependencies; this makes the require call ambiguous and unsound."@
            + required_by_locator(name, specifier, issuer, issuer_path)
    }
}

/// What is said of a peer dependency that nothing provides. `by_roots`
/// tells that there are ancestors that fail to provide it and that all of
/// them are roots of the dependency tree.
pub open spec fn missing_peer_message(
    root: bool,
    by_roots: bool,
    issuer: (Seq<char>, Seq<char>),
    name: Seq<char>,
    specifier: Seq<char>,
    issuer_path: Seq<char>,
) -> Seq<char> {
    if root {
        "Your application tried to access "@ + name
            + " (a peer dependency); this isn't allowed as there is no ancestor to satisfy the requirement. Use a devDependency if needed."@
            + required_by_path(name, specifier, Seq::<char>::empty(), issuer_path)
    } else if by_roots {
        issuer.0 + " tried to access "@ + name
            + " (a peer dependency) but it isn't provided by your application; this makes the require call ambiguous and unsound."@
            + required_by_locator(name, specifier, issuer, issuer_path)
    } else {
        issuer.0 + " tried to access "@ + name
            + " (a peer dependency) but it isn't provided by its ancestors; this makes the require call ambiguous and unsound."@
            + required_by_locator(name, specifier, issuer, issuer_path)
    }
}

/// What is said of a package that the registry does not hold.
pub open spec fn missing_dependency_message(
    dependency: (Seq<char>, Seq<char>),
    name: Seq<char>,
    specifier: Seq<char>,
    issuer: (Seq<char>, Seq<char>),
    issuer_path: Seq<char>,
) -> Seq<char> {
    "A dependency seems valid but didn't get installed for some reason. This might be caused by a partial install, such as dev vs prod.\n\nRequired package: "@
        + dependency.0 + "@"@ + dependency.1 + via_note(name, specifier) + "\nRequired by: "@
        + issuer.0 + "@"@ + issuer.1 + " (via "@ + issuer_path + ")"@
}

fn push_via(out: &mut String, name: &str, specifier: &str)
    ensures
        final(out)@ == old(out)@ + via_note(name@, specifier@),
{
    if !same_text(name, specifier) {
        out.append(" (via \"");
        out.append(specifier);
        out.append("\")");
        assert(out@ =~= old(out)@ + via_note(name@, specifier@));
    } else {
        assert(out@ =~= old(out)@ + via_note(name@, specifier@));
    }
}

fn push_required_by_path(out: &mut String, name: &str, specifier: &str, mark: &str, issuer_path: &str)
    ensures
        final(out)@ == old(out)@ + required_by_path(name@, specifier@, mark@, issuer_path@),
{
    out.append("\n\nRequired package: ");
    out.append(name);
    push_via(out, name, specifier);
    out.append("\nRequired by: ");
    out.append(mark);
    out.append(issuer_path);
    assert(out@ =~= old(out)@ + required_by_path(name@, specifier@, mark@, issuer_path@));
}

fn push_required_by_locator(
    out: &mut String,
    name: &str,
    specifier: &str,
    issuer_name: &str,
    issuer_reference: &str,
    issuer_path: &str,
)
    ensures
        final(out)@ == old(out)@ + required_by_locator(
            name@,
            specifier@,
            (issuer_name@, issuer_reference@),
            issuer_path@,
        ),
{
    out.append("\n\nRequired package: ");
    out.append(name);
    push_via(out, name, specifier);
    out.append("\nRequired by: ");
    out.append(issuer_name);
    out.append("@");
    out.append(issuer_reference);
    out.append(" (via ");
    out.append(issuer_path);
    out.append(")");
    assert(out@ =~= old(out)@ + required_by_locator(
        name@,
        specifier@,
        (issuer_name@, issuer_reference@),
        issuer_path@,
    ));
}

/// The text for a package that the issuer does not declare.
pub fn format_undeclared(
    builtin: bool,
    root: bool,
    issuer_name: &str,
    issuer_reference: &str,
    name: &str,
    specifier: &str,
    issuer_path: &str,
) -> (r: String)
    ensures
        r@ == undeclared_message(
            builtin,
            root,
            (issuer_name@, issuer_reference@),
            name@,
            specifier@,
            issuer_path@,
        ),
{
    let mut out = String::new();
    let ghost empty = Seq::<char>::empty();
    if builtin {
        if root {
            out.append("Your application tried to access ");
            out.append(name);
            out.append(
                ". While this module is usually interpreted as a Node builtin, your resolver is running inside a non-Node resolution context where such builtins are ignored. Since ",
            );
            out.append(name);
            out.append(
                " isn't otherwise declared in your dependencies, this makes the require call ambiguous and unsound.",
            );
            push_required_by_path(&mut out, name, specifier, "$", issuer_path);
        } else {
            out.append("$");
            out.append(issuer_name);
            out.append(" tried to access ");
            out.append(name);
            out.append(
                ". While this module is usually interpreted as a Node builtin, your resolver is running inside a non-Node resolution context where such builtins are ignored. Since ",
            );
            out.append(name);
            out.append(" isn't otherwise declared in $");
            out.append(issuer_name);
            out.append("'s dependencies, this makes the require call ambiguous and unsound.");
            push_required_by_path(&mut out, name, specifier, "$", issuer_path);
        }
    } else if root {
        out.append("Your application tried to access ");
        out.append(name);
        out.append(
            ", but it isn't declared in your dependencies; this makes the require call ambiguous and unsound.",
        );
        let none = String::new();
        push_required_by_path(&mut out, name, specifier, none.as_str(), issuer_path);
    } else {
        out.append(issuer_name);
        out.append(" tried to access ");
        out.append(name);
        out.append(
            ", but it isn't declared in its dependencies; this makes the require call ambiguous and unsound.",
        );
        push_required_by_locator(
            &mut out,
            name,
            specifier,
            issuer_name,
            issuer_reference,
            issuer_path,
        );
    }
    assert(out@ =~= undeclared_message(
        builtin,
        root,
        (issuer_name@, issuer_reference@),
        name@,
        specifier@,
        issuer_path@,
    ));
    out
}

/// The text for a peer dependency that nothing provides.
pub fn format_missing_peer(
    root: bool,
    by_roots: bool,
    issuer_name: &str,
    issuer_reference: &str,
    name: &str,
    specifier: &str,
    issuer_path: &str,
) -> (r: String)
    ensures
        r@ == missing_peer_message(
            root,
            by_roots,
            (issuer_name@, issuer_reference@),
            name@,
            specifier@,
            issuer_path@,
        ),
{
    let mut out = String::new();
    if root {
        out.append("Your application tried to access ");
        out.append(name);
        out.append(
            " (a peer dependency); this isn't allowed as there is no ancestor to satisfy the requirement. Use a devDependency if needed.",
        );
        let none = String::new();
        push_required_by_path(&mut out, name, specifier, none.as_str(), issuer_path);
    } else {
        out.append(issuer_name);
        out.append(" tried to access ");
        out.append(name);
        if by_roots {
            out.append(
                " (a peer dependency) but it isn't provided by your application; this makes the require call ambiguous and unsound.",
            );
        } else {
            out.append(
                " (a peer dependency) but it isn't provided by its ancestors; this makes the require call ambiguous and unsound.",
            );
        }
        push_required_by_locator(
            &mut out,
            name,
            specifier,
            issuer_name,
            issuer_reference,
            issuer_path,
        );
    }
    assert(out@ =~= missing_peer_message(
        root,
        by_roots,
        (issuer_name@, issuer_reference@),
        name@,
        specifier@,
        issuer_path@,
    ));
    out
}

/// The text for a package that the registry does not hold.
pub fn format_missing_dependency(
    dependency_name: &str,
    dependency_reference: &str,
    name: &str,
    specifier: &str,
    issuer_name: &str,
    issuer_reference: &str,
    issuer_path: &str,
) -> (r: String)
    ensures
        r@ == missing_dependency_message(
            (dependency_name@, dependency_reference@),
            name@,
            specifier@,
            (issuer_name@, issuer_reference@),
            issuer_path@,
        ),
{
    let mut out = String::new();
    out.append(
        "A dependency seems valid but didn't get installed for some reason. This might be caused by a partial install, such as dev vs prod.\n\nRequired package: ",
    );
    out.append(dependency_name);
    out.append("@");
    out.append(dependency_reference);
    push_via(&mut out, name, specifier);
    out.append("\nRequired by: ");
    out.append(issuer_name);
    out.append("@");
    out.append(issuer_reference);
    out.append(" (via ");
    out.append(issuer_path);
    out.append(")");
    assert(out@ =~= missing_dependency_message(
        (dependency_name@, dependency_reference@),
        name@,
        specifier@,
        (issuer_name@, issuer_reference@),
        issuer_path@,
    ));
    out
}

} // verus!
